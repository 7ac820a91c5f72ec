//! The error taxonomy of a migration commit. Every failure of a commit is
//! reported as exactly one of these kinds; none is retried.

use vstd::prelude::*;
use vstd::string::*;
use crate::text::{json_escaped, append_json_escaped};

verus! {

/// One typed failure of a commit.
#[derive(Debug, Clone)]
pub enum Error {
    /// A literal or default expression failed to tokenize or parse for the
    /// active dialect.
    Syntax(String),
    /// The same, attributable to one persisted migration file; carries the
    /// parser message and the file path.
    SyntaxAtFile(String, String),
    /// A validation failure: malformed constraint attributes, an invalid
    /// referential-action keyword, a duplicate derived constraint name.
    Message(String),
    /// A migration artifact could not be read or written.
    IO(String),
    /// A dependency cycle among tables; carries the implicated table names.
    Cycle(Vec<String>),
}

/// The character sequences of a sequence of strings.
pub open spec fn seqs_of(names: Seq<String>) -> Seq<Seq<char>> {
    names.map_values(|s: String| s@)
}

/// The names joined with a comma and a space: `a, b, c`.
pub open spec fn joined(names: Seq<Seq<char>>) -> Seq<char>
    decreases names.len(),
{
    if names.len() == 0 {
        Seq::empty()
    } else if names.len() == 1 {
        names[0]
    } else {
        joined(names.drop_last()) + ", "@ + names.last()
    }
}

impl Error {
    /// The kind label carried by the status report.
    pub open spec fn spec_kind(&self) -> Seq<char> {
        match self {
            Error::Cycle(_) => "CycleError"@,
            Error::Message(_) => "error"@,
            Error::IO(_) => "IOError"@,
            Error::Syntax(_) => "SyntaxError"@,
            Error::SyntaxAtFile(_, _) => "SyntaxAtFile"@,
        }
    }

    /// The human-readable message carried by the status report.
    pub open spec fn spec_message(&self) -> Seq<char> {
        match self {
            Error::Syntax(m) => "syntax error: "@ + m@,
            Error::SyntaxAtFile(m, file) => "syntax error: "@ + m@ + ". found at file "@ + file@,
            Error::Message(m) => m@,
            Error::IO(m) => "could not read or create migration file. "@ + m@,
            Error::Cycle(names) => "dependency cycle detected involving the tables: "@ + joined(
                seqs_of(names@),
            ) + ". help: consider removing redundant foreign key constraints."@,
        }
    }

    pub fn kind(&self) -> (r: &'static str)
        ensures
            r@ == self.spec_kind(),
    {
        match self {
            Error::Cycle(_) => "CycleError",
            Error::Message(_) => "error",
            Error::IO(_) => "IOError",
            Error::Syntax(_) => "SyntaxError",
            Error::SyntaxAtFile(_, _) => "SyntaxAtFile",
        }
    }

    pub fn message(&self) -> (r: String)
        ensures
            r@ == self.spec_message(),
    {
        match self {
            Error::Syntax(m) => {
                let mut out = String::from_str("syntax error: ");
                out.append(m.as_str());
                out
            },
            Error::SyntaxAtFile(m, file) => {
                let mut out = String::from_str("syntax error: ");
                out.append(m.as_str());
                out.append(". found at file ");
                out.append(file.as_str());
                out
            },
            Error::Message(m) => m.clone(),
            Error::IO(m) => {
                let mut out = String::from_str("could not read or create migration file. ");
                out.append(m.as_str());
                out
            },
            Error::Cycle(names) => {
                let mut out = String::from_str(
                    "dependency cycle detected involving the tables: ",
                );
                append_joined(&mut out, names);
                out.append(". help: consider removing redundant foreign key constraints.");
                out
            },
        }
    }

    /// The status line's JSON rendering of this error:
    /// `{"kind":"...","message":"..."}` with the message JSON-escaped.
    pub open spec fn spec_as_json(&self) -> Seq<char> {
        "{\"kind\":\""@ + self.spec_kind() + "\",\"message\":\""@ + json_escaped(
            self.spec_message(),
        ) + "\"}"@
    }

    pub fn as_json(&self) -> (r: String)
        ensures
            r@ == self.spec_as_json(),
    {
        let mut out = String::from_str("{\"kind\":\"");
        out.append(self.kind());
        out.append("\",\"message\":\"");
        let msg = self.message();
        append_json_escaped(&mut out, msg.as_str());
        out.append("\"}");
        out
    }
}

/// Appends `a, b, c` for the given names.
pub fn append_joined(out: &mut String, names: &Vec<String>)
    ensures
        final(out)@ == old(out)@ + joined(seqs_of(names@)),
{
    let mut i: usize = 0;
    while i < names.len()
        invariant
            i <= names@.len(),
            out@ == old(out)@ + joined(seqs_of(names@.take(i as int))),
        decreases names@.len() - i,
    {
        if i > 0 {
            out.append(", ");
        }
        out.append(names[i].as_str());
        proof {
            let full = seqs_of(names@.take(i + 1));
            assert(full.drop_last() =~= seqs_of(names@.take(i as int)));
            assert(full.last() == names@[i as int]@);
            if i == 0 {
                assert(joined(full) == names@[0]@);
            }
        }
        i = i + 1;
    }
    proof {
        assert(names@.take(names@.len() as int) =~= names@);
    }
}

} // verus!
