//! The constraint model: unique / primary-key / foreign-key constraints as
//! declared on one field, their deterministically derived names, and their
//! rendering as SQL constraint clauses.

use vstd::prelude::*;
use vstd::string::*;
use crate::error::{Error, joined, seqs_of};
use crate::text::{ascii_lower, ascii_lowercase, str_eq};

verus! {

/// A unique or primary-key constraint: the extra participating columns
/// beside the declaring field (possibly none).
#[derive(Debug, Clone)]
pub struct Unique {
    pub columns: Vec<String>,
}

/// A foreign-key constraint declared on one field: the referenced table and
/// column, and the optional referential actions.
#[derive(Debug, Clone)]
pub struct ForeignKey {
    pub foreign_table: String,
    pub column: String,
    pub on_delete: Option<String>,
    pub on_update: Option<String>,
}

/// One constraint, tagged by kind.
#[derive(Debug, Clone)]
pub enum Constraint {
    ForeignKey(ForeignKey),
    Unique(Unique),
    Primary(Unique),
}

/// The constraints collected from one declaration.
#[derive(Debug, Clone)]
pub struct Constraints(pub Vec<Constraint>);

/// A constraint together with the field that declared it and its derived
/// name.
#[derive(Debug, Clone)]
pub struct NamedConstraint {
    pub name: String,
    pub field_name: String,
    pub constr: Constraint,
}

#[verifier::ext_equal]
pub ghost struct UniqueV {
    pub columns: Seq<Seq<char>>,
}

#[verifier::ext_equal]
pub ghost struct ForeignKeyV {
    pub foreign_table: Seq<char>,
    pub column: Seq<char>,
    pub on_delete: Option<Seq<char>>,
    pub on_update: Option<Seq<char>>,
}

#[verifier::ext_equal]
pub ghost enum ConstraintV {
    ForeignKey(ForeignKeyV),
    Unique(UniqueV),
    Primary(UniqueV),
}

#[verifier::ext_equal]
pub ghost struct NamedConstraintV {
    pub name: Seq<char>,
    pub field_name: Seq<char>,
    pub constr: ConstraintV,
}

impl View for Unique {
    type V = UniqueV;

    open spec fn view(&self) -> UniqueV {
        UniqueV { columns: seqs_of(self.columns@) }
    }
}

impl View for ForeignKey {
    type V = ForeignKeyV;

    open spec fn view(&self) -> ForeignKeyV {
        ForeignKeyV {
            foreign_table: self.foreign_table@,
            column: self.column@,
            on_delete: match self.on_delete {
                Some(a) => Some(a@),
                None => None,
            },
            on_update: match self.on_update {
                Some(a) => Some(a@),
                None => None,
            },
        }
    }
}

impl View for Constraint {
    type V = ConstraintV;

    open spec fn view(&self) -> ConstraintV {
        match self {
            Constraint::ForeignKey(fk) => ConstraintV::ForeignKey(fk@),
            Constraint::Unique(u) => ConstraintV::Unique(u@),
            Constraint::Primary(u) => ConstraintV::Primary(u@),
        }
    }
}

impl View for NamedConstraint {
    type V = NamedConstraintV;

    open spec fn view(&self) -> NamedConstraintV {
        NamedConstraintV { name: self.name@, field_name: self.field_name@, constr: self.constr@ }
    }
}

/// The referential-action keywords a foreign key may carry.
pub open spec fn valid_action(a: Seq<char>) -> bool {
    a == "cascade"@ || a == "set null"@ || a == "restrict"@ || a == "no action"@
}

/// Checks a declared referential action: absent is fine, present it must be
/// one of `cascade`, `set null`, `restrict`, `no action`; the error names
/// the found value and lists the expected keywords.
pub fn is_valid(action: &Option<String>) -> (r: Result<(), Error>)
    ensures
        r is Ok <==> (action is None || valid_action(action->0@)),
        r is Err ==> r->Err_0 is Message && r->Err_0->Message_0@
            == "invalid referential integrity constraint. Found "@ + action->0@
            + ", expected one of: restrict, cascade, set null, no action"@,
{
    match action {
        None => Ok(()),
        Some(a) => {
            let s = a.as_str();
            if str_eq(s, "cascade") || str_eq(s, "set null") || str_eq(s, "restrict") || str_eq(
                s,
                "no action",
            ) {
                Ok(())
            } else {
                let mut msg = String::from_str(
                    "invalid referential integrity constraint. Found ",
                );
                msg.append(s);
                msg.append(
                    ", expected one of: restrict, cascade, set null, no action",
                );
                proof {
                    assert(msg@ =~= "invalid referential integrity constraint. Found "@ + a@
                        + ", expected one of: restrict, cascade, set null, no action"@);
                }
                Err(Error::Message(msg))
            }
        },
    }
}

/// The upper-case SQL keyword of a valid referential action; any other text
/// is left as it stands.
pub open spec fn action_keyword(a: Seq<char>) -> Seq<char> {
    if a == "cascade"@ {
        "CASCADE"@
    } else if a == "set null"@ {
        "SET NULL"@
    } else if a == "restrict"@ {
        "RESTRICT"@
    } else if a == "no action"@ {
        "NO ACTION"@
    } else {
        a
    }
}

fn action_keyword_exec(a: &str) -> (r: String)
    ensures
        r@ == action_keyword(a@),
{
    if str_eq(a, "cascade") {
        String::from_str("CASCADE")
    } else if str_eq(a, "set null") {
        String::from_str("SET NULL")
    } else if str_eq(a, "restrict") {
        String::from_str("RESTRICT")
    } else if str_eq(a, "no action") {
        String::from_str("NO ACTION")
    } else {
        String::from_str(a)
    }
}

/// `_c1_c2_...` for the extra columns of a derived constraint name,
/// lower-cased.
pub open spec fn underscore_cols(cols: Seq<Seq<char>>) -> Seq<char>
    decreases cols.len(),
{
    if cols.len() == 0 {
        Seq::empty()
    } else {
        underscore_cols(cols.drop_last()) + "_"@ + ascii_lower(cols.last())
    }
}

/// The derived name of a constraint:
/// `<table>_<kind>_<field>[_<extra-columns>]`, lower-cased. Folding is
/// ASCII-only: identifiers are expected to use ASCII letters, and a
/// non-ASCII letter passes through unchanged.
pub open spec fn spec_constr_name(
    ty: Seq<char>,
    method: Seq<char>,
    field: Seq<char>,
    cols: Seq<Seq<char>>,
) -> Seq<char> {
    ascii_lower(ty) + "_"@ + ascii_lower(method) + "_"@ + ascii_lower(field) + underscore_cols(
        cols,
    )
}

/// The SQL clause of a foreign-key constraint.
pub open spec fn spec_fk_sql(name: Seq<char>, local: Seq<char>, fk: ForeignKeyV) -> Seq<char> {
    "CONSTRAINT "@ + name + " FOREIGN KEY ("@ + local + ") REFERENCES "@ + fk.foreign_table
        + " ("@ + fk.column + ")"@ + (match fk.on_delete {
        Some(a) => " ON DELETE "@ + action_keyword(a),
        None => Seq::empty(),
    }) + (match fk.on_update {
        Some(a) => " ON UPDATE "@ + action_keyword(a),
        None => Seq::empty(),
    })
}

/// The SQL clause of a unique or primary-key constraint: the declaring field
/// first, then the extra columns.
pub open spec fn spec_unique_sql(
    name: Seq<char>,
    keyword: Seq<char>,
    field: Seq<char>,
    cols: Seq<Seq<char>>,
) -> Seq<char> {
    "CONSTRAINT "@ + name + " "@ + keyword + " ("@ + joined(seq![field] + cols) + ")"@
}

/// The SQL clause of a named constraint on table `ty`, under its derived
/// name.
pub open spec fn spec_named_sql(nc: NamedConstraintV, ty: Seq<char>) -> Seq<char> {
    match nc.constr {
        ConstraintV::ForeignKey(fk) => spec_fk_sql(
            spec_constr_name(ty, "foreign"@, nc.field_name, seq![fk.column]),
            nc.field_name,
            fk,
        ),
        ConstraintV::Primary(u) => spec_unique_sql(
            spec_constr_name(ty, "primary"@, nc.field_name, u.columns),
            "PRIMARY KEY"@,
            nc.field_name,
            u.columns,
        ),
        ConstraintV::Unique(u) => spec_unique_sql(
            spec_constr_name(ty, "unique"@, nc.field_name, u.columns),
            "UNIQUE"@,
            nc.field_name,
            u.columns,
        ),
    }
}

/// Copies a list of names.
pub fn clone_names(names: &Vec<String>) -> (r: Vec<String>)
    ensures
        seqs_of(r@) == seqs_of(names@),
{
    let mut out: Vec<String> = Vec::new();
    let mut i: usize = 0;
    while i < names.len()
        invariant
            i <= names@.len(),
            out@.len() == i,
            seqs_of(out@) =~~= seqs_of(names@.take(i as int)),
        decreases names@.len() - i,
    {
        let ghost prev = out@;
        out.push(names[i].clone());
        proof {
            assert(out@ == prev.push(names@[i as int]));
            assert forall|j: int| 0 <= j < out@.len() implies seqs_of(out@)[j] == seqs_of(
                names@.take(i + 1),
            )[j] by {
                assert(seqs_of(out@)[j] == out@[j]@);
                if j < i {
                    assert(out@[j] == prev[j]);
                    assert(seqs_of(prev)[j] == seqs_of(names@.take(i as int))[j]);
                } else {
                    assert(out@[j] == names@[i as int]);
                }
                assert(names@.take(i + 1)[j] == names@[j]);
            }
            assert(seqs_of(out@) =~~= seqs_of(names@.take(i + 1)));
        }
        i = i + 1;
    }
    proof {
        assert(names@.take(names@.len() as int) =~= names@);
    }
    out
}

impl ForeignKey {
    /// Builds a foreign key after checking both referential actions.
    pub fn new(
        foreign_table: &str,
        column: &str,
        on_delete: Option<String>,
        on_update: Option<String>,
    ) -> (r: Result<ForeignKey, Error>)
        ensures
            r is Ok <==> ((on_delete is None || valid_action(on_delete->0@)) && (on_update is None
                || valid_action(on_update->0@))),
            r is Ok ==> r->Ok_0@ == (ForeignKeyV {
                foreign_table: foreign_table@,
                column: column@,
                on_delete: match on_delete {
                    Some(a) => Some(a@),
                    None => None,
                },
                on_update: match on_update {
                    Some(a) => Some(a@),
                    None => None,
                },
            }),
            r is Err ==> r->Err_0 is Message,
    {
        if let Err(e) = is_valid(&on_delete) {
            return Err(e);
        }
        if let Err(e) = is_valid(&on_update) {
            return Err(e);
        }
        Ok(
            ForeignKey {
                foreign_table: String::from_str(foreign_table),
                column: String::from_str(column),
                on_delete,
                on_update,
            },
        )
    }

    /// Renders the constraint clause `CONSTRAINT <name> FOREIGN KEY (<local>)
    /// REFERENCES <table> (<column>)` with the optional actions.
    pub fn into_tokens(&self, constr_name: &str, local_col: &str) -> (r: String)
        ensures
            r@ == spec_fk_sql(constr_name@, local_col@, self@),
    {
        let mut out = String::from_str("CONSTRAINT ");
        out.append(constr_name);
        out.append(" FOREIGN KEY (");
        out.append(local_col);
        out.append(") REFERENCES ");
        out.append(self.foreign_table.as_str());
        out.append(" (");
        out.append(self.column.as_str());
        out.append(")");
        if let Some(a) = &self.on_delete {
            out.append(" ON DELETE ");
            let kw = action_keyword_exec(a.as_str());
            out.append(kw.as_str());
        }
        if let Some(a) = &self.on_update {
            out.append(" ON UPDATE ");
            let kw = action_keyword_exec(a.as_str());
            out.append(kw.as_str());
        }
        proof {
            assert(out@ =~= spec_fk_sql(constr_name@, local_col@, self@));
        }
        out
    }
}

impl Unique {
    /// A constraint over the declaring field alone.
    pub fn new() -> (r: Unique)
        ensures
            r@.columns.len() == 0,
    {
        Unique { columns: Vec::new() }
    }

    /// A constraint over the declaring field and the given extra columns.
    pub fn with_columns(columns: Vec<String>) -> (r: Unique)
        ensures
            r@.columns == seqs_of(columns@),
    {
        Unique { columns }
    }

    /// Renders the constraint clause `CONSTRAINT <name> <keyword> (<field>,
    /// <extra columns>)`.
    pub fn into_tokens(&self, constr_name: &str, field_name: &str, keyword: &str) -> (r: String)
        ensures
            r@ == spec_unique_sql(constr_name@, keyword@, field_name@, self@.columns),
    {
        let mut out = String::from_str("CONSTRAINT ");
        out.append(constr_name);
        out.append(" ");
        out.append(keyword);
        out.append(" (");
        let mut cols: Vec<String> = Vec::new();
        cols.push(String::from_str(field_name));
        let mut i: usize = 0;
        while i < self.columns.len()
            invariant
                i <= self.columns@.len(),
                cols@.len() == i + 1,
                seqs_of(cols@) =~~= seq![field_name@] + seqs_of(self.columns@.take(i as int)),
            decreases self.columns@.len() - i,
        {
            let ghost prev = cols@;
            cols.push(self.columns[i].clone());
            proof {
                let rhs = seq![field_name@] + seqs_of(self.columns@.take(i + 1));
                assert forall|j: int| 0 <= j < cols@.len() implies seqs_of(cols@)[j] == rhs[j] by {
                    assert(seqs_of(cols@)[j] == cols@[j]@);
                    if j < i + 1 {
                        assert(cols@[j] == prev[j]);
                        assert(seqs_of(prev)[j] == (seq![field_name@] + seqs_of(
                            self.columns@.take(i as int),
                        ))[j]);
                    } else {
                        assert(cols@[j] == self.columns@[i as int]);
                    }
                }
                assert(seqs_of(cols@) =~~= rhs);
            }
            i = i + 1;
        }
        proof {
            assert(self.columns@.take(self.columns@.len() as int) =~= self.columns@);
            assert(seqs_of(cols@) =~~= seq![field_name@] + self@.columns);
        }
        crate::error::append_joined(&mut out, &cols);
        out.append(")");
        proof {
            assert(out@ =~= spec_unique_sql(constr_name@, keyword@, field_name@, self@.columns));
        }
        out
    }
}

impl Constraints {
    /// Attaches the declaring field to each collected constraint, as the
    /// registration path does when a declaration hands its constraints over.
    pub fn into_named(&self, field_name: &str) -> (r: Vec<NamedConstraint>)
        ensures
            r@.len() == self.0@.len(),
            forall|k: int|
                0 <= k < r@.len() ==> (#[trigger] r@[k]@) == (NamedConstraintV {
                    name: Seq::empty(),
                    field_name: field_name@,
                    constr: self.0@[k]@,
                }),
    {
        let mut out: Vec<NamedConstraint> = Vec::new();
        let mut i: usize = 0;
        while i < self.0.len()
            invariant
                i <= self.0@.len(),
                out@.len() == i,
                forall|k: int|
                    0 <= k < i ==> (#[trigger] out@[k]@) == (NamedConstraintV {
                        name: Seq::empty(),
                        field_name: field_name@,
                        constr: self.0@[k]@,
                    }),
            decreases self.0@.len() - i,
        {
            let nc = NamedConstraint {
                name: String::new(),
                field_name: String::from_str(field_name),
                constr: crate::eq::clone_constraint(&self.0[i]),
            };
            proof {
                assert(nc@ == (NamedConstraintV {
                    name: Seq::<char>::empty(),
                    field_name: field_name@,
                    constr: self.0@[i as int]@,
                }));
            }
            out.push(nc);
            i = i + 1;
        }
        out
    }
}

impl Constraint {
    /// The columns the constraint mentions beside the declaring field: the
    /// extra columns of a unique or primary constraint, or the referenced
    /// column of a foreign key.
    pub fn column_names(&self) -> (r: Vec<String>)
        ensures
            seqs_of(r@) == (match self@ {
                ConstraintV::Primary(u) => u.columns,
                ConstraintV::Unique(u) => u.columns,
                ConstraintV::ForeignKey(fk) => seq![fk.column],
            }),
    {
        match self {
            Constraint::Primary(primary) => clone_names(&primary.columns),
            Constraint::ForeignKey(foreign) => {
                let mut out: Vec<String> = Vec::new();
                out.push(foreign.column.clone());
                proof {
                    assert(seqs_of(out@) =~~= seq![foreign.column@]);
                }
                out
            },
            Constraint::Unique(unique) => clone_names(&unique.columns),
        }
    }

    /// The registration method a constraint of this kind goes through.
    pub fn method(&self) -> (r: &'static str)
        ensures
            r@ == (match self@ {
                ConstraintV::Primary(_) => "primary"@,
                ConstraintV::ForeignKey(_) => "foreign_key"@,
                ConstraintV::Unique(_) => "unique"@,
            }),
    {
        match self {
            Constraint::Primary(_) => "primary",
            Constraint::ForeignKey(_) => "foreign_key",
            Constraint::Unique(_) => "unique",
        }
    }
}

impl NamedConstraint {
    /// The derived constraint name
    /// `<table>_<kind>_<field>[_<extra-columns>]`, lower-cased.
    pub fn constr_name(&self, ty: &str, cols: &Vec<String>, method: &str) -> (r: String)
        ensures
            r@ == spec_constr_name(ty@, method@, self.field_name@, seqs_of(cols@)),
    {
        let mut out = ascii_lowercase(ty);
        out.append("_");
        let m = ascii_lowercase(method);
        out.append(m.as_str());
        out.append("_");
        let f = ascii_lowercase(self.field_name.as_str());
        out.append(f.as_str());
        let ghost base = out@;
        let mut i: usize = 0;
        while i < cols.len()
            invariant
                i <= cols@.len(),
                out@ == base + underscore_cols(seqs_of(cols@.take(i as int))),
            decreases cols@.len() - i,
        {
            out.append("_");
            let c = ascii_lowercase(cols[i].as_str());
            out.append(c.as_str());
            proof {
                let t1 = seqs_of(cols@.take(i + 1));
                assert(t1.drop_last() =~~= seqs_of(cols@.take(i as int)));
                assert(t1.last() == cols@[i as int]@);
                assert(out@ =~= base + underscore_cols(t1));
            }
            i = i + 1;
        }
        proof {
            assert(cols@.take(cols@.len() as int) =~= cols@);
            assert(out@ =~= spec_constr_name(ty@, method@, self.field_name@, seqs_of(cols@)));
        }
        out
    }

    /// Renders the constraint as its SQL clause on table `ty`, under its
    /// derived name.
    pub fn into_tokens(&self, ty: &str) -> (r: String)
        ensures
            r@ == spec_named_sql(self@, ty@),
    {
        match &self.constr {
            Constraint::ForeignKey(fk) => {
                let mut cols: Vec<String> = Vec::new();
                cols.push(fk.column.clone());
                proof {
                    assert(seqs_of(cols@) =~~= seq![fk.column@]);
                }
                let name = self.constr_name(ty, &cols, "foreign");
                fk.into_tokens(name.as_str(), self.field_name.as_str())
            },
            Constraint::Primary(pk) => {
                let name = self.constr_name(ty, &pk.columns, "primary");
                pk.into_tokens(name.as_str(), self.field_name.as_str(), "PRIMARY KEY")
            },
            Constraint::Unique(u) => {
                let name = self.constr_name(ty, &u.columns, "unique");
                u.into_tokens(name.as_str(), self.field_name.as_str(), "UNIQUE")
            },
        }
    }
}

} // verus!
