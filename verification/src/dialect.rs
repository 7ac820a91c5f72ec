//! The dialect resolver: maps a target database to its lexical rules
//! (identifier syntax, delimited-identifier quoting) and to its structural
//! capabilities (cascading foreign-key actions, in-place column alteration).

use vstd::prelude::*;
use crate::text::str_eq;

verus! {

/// One family of SQL lexical and syntactic rules. `Any` is the most
/// permissive family and is used when the target database is unknown.
#[derive(Clone, Copy, Debug, PartialEq, Eq, Structural)]
pub enum Dialect {
    SQLite,
    PostgreSQL,
    MySQL,
    MsSQL,
    Any,
}

/// True when `c` is an ASCII letter.
pub open spec fn is_ascii_letter(c: char) -> bool {
    (97 <= c as u32 && c as u32 <= 122) || (65 <= c as u32 && c as u32 <= 90)
}

/// True when `c` is an ASCII digit.
pub open spec fn is_ascii_digit_char(c: char) -> bool {
    48 <= c as u32 && c as u32 <= 57
}

impl Dialect {
    /// The characters that may open a delimited (quoted) identifier.
    pub open spec fn spec_is_delimited_identifier_start(self, c: char) -> bool {
        match self {
            Dialect::SQLite => c == '`' || c == '"' || c == '[',
            Dialect::PostgreSQL => c == '"',
            Dialect::MySQL => c == '`',
            Dialect::MsSQL => c == '"' || c == '[',
            Dialect::Any => c == '"',
        }
    }

    /// The characters that may begin a regular identifier.
    pub open spec fn spec_is_identifier_start(self, c: char) -> bool {
        match self {
            Dialect::SQLite => is_ascii_letter(c) || c == '_' || c == '$' || (127 <= c as u32
                && c as u32 <= 65535),
            Dialect::PostgreSQL => is_ascii_letter(c) || c == '_',
            Dialect::MySQL => is_ascii_letter(c) || c == '_' || c == '$' || (128 <= c as u32
                && c as u32 <= 65535),
            Dialect::MsSQL => is_ascii_letter(c) || c == '_' || c == '#' || c == '@',
            Dialect::Any => is_ascii_letter(c) || c == '_' || c == '#' || c == '@',
        }
    }

    /// The characters that may continue a regular identifier.
    pub open spec fn spec_is_identifier_part(self, c: char) -> bool {
        match self {
            Dialect::SQLite => self.spec_is_identifier_start(c) || is_ascii_digit_char(c),
            Dialect::PostgreSQL => is_ascii_letter(c) || is_ascii_digit_char(c) || c == '$' || c
                == '_',
            Dialect::MySQL => self.spec_is_identifier_start(c) || is_ascii_digit_char(c),
            Dialect::MsSQL => is_ascii_letter(c) || is_ascii_digit_char(c) || c == '@' || c == '$'
                || c == '#' || c == '_',
            Dialect::Any => is_ascii_letter(c) || is_ascii_digit_char(c) || c == '@' || c == '$'
                || c == '#' || c == '_',
        }
    }

    pub fn is_delimited_identifier_start(&self, c: char) -> (r: bool)
        ensures
            r == self.spec_is_delimited_identifier_start(c),
    {
        match self {
            Dialect::SQLite => c == '`' || c == '"' || c == '[',
            Dialect::PostgreSQL => c == '"',
            Dialect::MySQL => c == '`',
            Dialect::MsSQL => c == '"' || c == '[',
            Dialect::Any => c == '"',
        }
    }

    pub fn is_identifier_start(&self, c: char) -> (r: bool)
        ensures
            r == self.spec_is_identifier_start(c),
    {
        let u = c as u32;
        let letter = (97 <= u && u <= 122) || (65 <= u && u <= 90);
        match self {
            Dialect::SQLite => letter || c == '_' || c == '$' || (127 <= u && u <= 65535),
            Dialect::PostgreSQL => letter || c == '_',
            Dialect::MySQL => letter || c == '_' || c == '$' || (128 <= u && u <= 65535),
            Dialect::MsSQL => letter || c == '_' || c == '#' || c == '@',
            Dialect::Any => letter || c == '_' || c == '#' || c == '@',
        }
    }

    pub fn is_identifier_part(&self, c: char) -> (r: bool)
        ensures
            r == self.spec_is_identifier_part(c),
    {
        let u = c as u32;
        let digit = 48 <= u && u <= 57;
        match self {
            Dialect::SQLite => digit || self.is_identifier_start(c),
            Dialect::PostgreSQL => {
                let letter = (97 <= u && u <= 122) || (65 <= u && u <= 90);
                letter || digit || c == '$' || c == '_'
            },
            Dialect::MySQL => digit || self.is_identifier_start(c),
            Dialect::MsSQL => {
                let letter = (97 <= u && u <= 122) || (65 <= u && u <= 90);
                letter || digit || c == '@' || c == '$' || c == '#' || c == '_'
            },
            Dialect::Any => {
                let letter = (97 <= u && u <= 122) || (65 <= u && u <= 90);
                letter || digit || c == '@' || c == '$' || c == '#' || c == '_'
            },
        }
    }

    /// True for dialects whose limited `ALTER TABLE` support forces certain
    /// column changes to be emulated by rebuilding the table.
    pub fn requires_move(&self) -> (r: bool)
        ensures
            r == (*self == Dialect::SQLite || *self == Dialect::Any),
    {
        match self {
            Dialect::SQLite => true,
            Dialect::Any => true,
            _ => false,
        }
    }

    /// True for dialects that derive a constraint name themselves when none
    /// is given.
    pub fn _has_default_constr_name(&self) -> (r: bool)
        ensures
            r == (*self == Dialect::PostgreSQL),
    {
        match self {
            Dialect::PostgreSQL => true,
            _ => false,
        }
    }

    /// The display name of the dialect.
    pub open spec fn spec_name(self) -> Seq<char> {
        match self {
            Dialect::SQLite => "sqlite"@,
            Dialect::PostgreSQL => "postgres"@,
            Dialect::MySQL => "mysql"@,
            Dialect::MsSQL => "mssql"@,
            Dialect::Any => "any"@,
        }
    }

    pub fn name(&self) -> (r: &'static str)
        ensures
            r@ == self.spec_name(),
    {
        match self {
            Dialect::SQLite => "sqlite",
            Dialect::PostgreSQL => "postgres",
            Dialect::MySQL => "mysql",
            Dialect::MsSQL => "mssql",
            Dialect::Any => "any",
        }
    }

    /// True for every dialect that supports cascading foreign-key actions.
    pub fn supports_cascade(&self) -> (r: bool)
        ensures
            r == (*self != Dialect::SQLite),
    {
        match self {
            Dialect::SQLite => false,
            _ => true,
        }
    }
}

/// The dialect selected by a database-connection URL scheme. Unknown schemes
/// map to the most permissive dialect.
pub open spec fn spec_dialect_of_scheme(s: Seq<char>) -> Dialect {
    if s == "sqlite"@ {
        Dialect::SQLite
    } else if s == "postgres"@ {
        Dialect::PostgreSQL
    } else if s == "mysql"@ {
        Dialect::MySQL
    } else if s == "mssql"@ {
        Dialect::MsSQL
    } else {
        Dialect::Any
    }
}

/// Maps a connection-URL scheme to its dialect; any unknown scheme selects
/// `Dialect::Any`.
pub fn dialect_of_scheme(scheme: &str) -> (r: Dialect)
    ensures
        r == spec_dialect_of_scheme(scheme@),
{
    if str_eq(scheme, "sqlite") {
        Dialect::SQLite
    } else if str_eq(scheme, "postgres") {
        Dialect::PostgreSQL
    } else if str_eq(scheme, "mysql") {
        Dialect::MySQL
    } else if str_eq(scheme, "mssql") {
        Dialect::MsSQL
    } else {
        Dialect::Any
    }
}

} // verus!
