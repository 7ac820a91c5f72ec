//! Structural equality of the schema model's values, stated over their
//! mathematical views. The diff engine compares columns and constraints with
//! these, never by position.

use vstd::prelude::*;
use crate::constraint::{Constraint, ForeignKey, NamedConstraint, Unique};
use crate::error::seqs_of;
use crate::literal::DefaultExpr;
use crate::table::{Column, ColumnOption, DataType, Table, cols_of, constrs_of, opts_of};
use crate::text::str_eq;

verus! {

/// Whether two optional strings hold the same text.
pub fn opt_str_eq(a: &Option<String>, b: &Option<String>) -> (r: bool)
    ensures
        r == ((match a {
            Some(x) => Some(x@),
            None => None,
        }) == (match b {
            Some(y) => Some(y@),
            None => None,
        })),
{
    match (a, b) {
        (None, None) => true,
        (Some(x), Some(y)) => str_eq(x.as_str(), y.as_str()),
        _ => false,
    }
}

/// Whether two name lists are equal, position by position.
pub fn names_eq(a: &Vec<String>, b: &Vec<String>) -> (r: bool)
    ensures
        r == (seqs_of(a@) == seqs_of(b@)),
{
    if a.len() != b.len() {
        proof {
            assert(seqs_of(a@).len() != seqs_of(b@).len());
        }
        return false;
    }
    let mut i: usize = 0;
    while i < a.len()
        invariant
            a@.len() == b@.len(),
            i <= a@.len(),
            forall|k: int| 0 <= k < i ==> seqs_of(a@)[k] == seqs_of(b@)[k],
        decreases a@.len() - i,
    {
        if !str_eq(a[i].as_str(), b[i].as_str()) {
            proof {
                assert(seqs_of(a@)[i as int] != seqs_of(b@)[i as int]);
            }
            return false;
        }
        i = i + 1;
    }
    proof {
        assert(seqs_of(a@) =~~= seqs_of(b@));
    }
    true
}

/// Whether two data types are the same type.
pub fn data_type_eq(a: &DataType, b: &DataType) -> (r: bool)
    ensures
        r == (a@ == b@),
{
    match (a, b) {
        (DataType::Boolean, DataType::Boolean) => true,
        (DataType::Integer, DataType::Integer) => true,
        (DataType::BigInt, DataType::BigInt) => true,
        (DataType::Serial, DataType::Serial) => true,
        (DataType::BigSerial, DataType::BigSerial) => true,
        (DataType::Text, DataType::Text) => true,
        (DataType::Json, DataType::Json) => true,
        (DataType::Timestamp, DataType::Timestamp) => true,
        (DataType::Other(x), DataType::Other(y)) => str_eq(x.as_str(), y.as_str()),
        _ => false,
    }
}

/// Whether two default literals are the same literal.
pub fn default_expr_eq(a: &DefaultExpr, b: &DefaultExpr) -> (r: bool)
    ensures
        r == (a@ == b@),
{
    let same = a.is_string == b.is_string && str_eq(a.expr.as_str(), b.expr.as_str());
    proof {
        if same {
            assert(a@ =~= b@);
        }
    }
    same
}

/// Whether two column options are the same option.
pub fn option_eq(a: &ColumnOption, b: &ColumnOption) -> (r: bool)
    ensures
        r == (a@ == b@),
{
    match (a, b) {
        (ColumnOption::NotNull, ColumnOption::NotNull) => true,
        (ColumnOption::Null, ColumnOption::Null) => true,
        (ColumnOption::Default(x), ColumnOption::Default(y)) => default_expr_eq(x, y),
        _ => false,
    }
}

/// Whether two columns agree on name, type and options.
pub fn column_eq(a: &Column, b: &Column) -> (r: bool)
    ensures
        r == (a@ == b@),
{
    if !str_eq(a.name.as_str(), b.name.as_str()) {
        return false;
    }
    if !data_type_eq(&a.data_type, &b.data_type) {
        return false;
    }
    if a.options.len() != b.options.len() {
        proof {
            assert(a@.options.len() != b@.options.len());
        }
        return false;
    }
    let mut i: usize = 0;
    while i < a.options.len()
        invariant
            a.options@.len() == b.options@.len(),
            i <= a.options@.len(),
            forall|k: int| 0 <= k < i ==> opts_of(a.options@)[k] == opts_of(b.options@)[k],
        decreases a.options@.len() - i,
    {
        if !option_eq(&a.options[i], &b.options[i]) {
            proof {
                assert(opts_of(a.options@)[i as int] != opts_of(b.options@)[i as int]);
            }
            return false;
        }
        i = i + 1;
    }
    proof {
        assert(a@.options =~= b@.options);
        assert(a@ =~= b@);
    }
    true
}

/// Whether two constraints are structurally equal.
pub fn constraint_eq(a: &Constraint, b: &Constraint) -> (r: bool)
    ensures
        r == (a@ == b@),
{
    match (a, b) {
        (Constraint::Unique(x), Constraint::Unique(y)) => {
            let e = names_eq(&x.columns, &y.columns);
            proof {
                if e {
                    assert(x@ =~= y@);
                }
            }
            e
        },
        (Constraint::Primary(x), Constraint::Primary(y)) => {
            let e = names_eq(&x.columns, &y.columns);
            proof {
                if e {
                    assert(x@ =~= y@);
                }
            }
            e
        },
        (Constraint::ForeignKey(x), Constraint::ForeignKey(y)) => {
            let e = str_eq(x.foreign_table.as_str(), y.foreign_table.as_str()) && str_eq(
                x.column.as_str(),
                y.column.as_str(),
            ) && opt_str_eq(&x.on_delete, &y.on_delete) && opt_str_eq(&x.on_update, &y.on_update);
            proof {
                if e {
                    assert(x@ =~= y@);
                }
            }
            e
        },
        _ => false,
    }
}

/// Whether two named constraints are the same constraint: the declaring
/// field and the structure agree, so the derived names agree too.
pub open spec fn spec_nc_same(a: crate::constraint::NamedConstraintV, b: crate::constraint::NamedConstraintV) -> bool {
    a.field_name == b.field_name && a.constr == b.constr
}

/// Checks [`spec_nc_same`] on two named constraints.
pub fn nc_same(a: &NamedConstraint, b: &NamedConstraint) -> (r: bool)
    ensures
        r == spec_nc_same(a@, b@),
{
    str_eq(a.field_name.as_str(), b.field_name.as_str()) && constraint_eq(&a.constr, &b.constr)
}

/// Whether two tables agree on name, columns and constraints.
pub fn table_eq(a: &Table, b: &Table) -> (r: bool)
    ensures
        r == (a@ == b@),
{
    if !str_eq(a.name.as_str(), b.name.as_str()) {
        return false;
    }
    if a.columns.len() != b.columns.len() {
        proof {
            assert(a@.columns.len() != b@.columns.len());
        }
        return false;
    }
    let mut i: usize = 0;
    while i < a.columns.len()
        invariant
            a.columns@.len() == b.columns@.len(),
            i <= a.columns@.len(),
            forall|k: int| 0 <= k < i ==> cols_of(a.columns@)[k] == cols_of(b.columns@)[k],
        decreases a.columns@.len() - i,
    {
        if !column_eq(&a.columns[i], &b.columns[i]) {
            proof {
                assert(cols_of(a.columns@)[i as int] != cols_of(b.columns@)[i as int]);
            }
            return false;
        }
        i = i + 1;
    }
    if a.constraints.len() != b.constraints.len() {
        proof {
            assert(a@.constraints.len() != b@.constraints.len());
        }
        return false;
    }
    let mut j: usize = 0;
    while j < a.constraints.len()
        invariant
            a.constraints@.len() == b.constraints@.len(),
            j <= a.constraints@.len(),
            forall|k: int| 0 <= k < j ==> constrs_of(a.constraints@)[k] == constrs_of(
                b.constraints@,
            )[k],
        decreases a.constraints@.len() - j,
    {
        let ca = &a.constraints[j];
        let cb = &b.constraints[j];
        let same = str_eq(ca.name.as_str(), cb.name.as_str()) && str_eq(
            ca.field_name.as_str(),
            cb.field_name.as_str(),
        ) && constraint_eq(&ca.constr, &cb.constr);
        if !same {
            proof {
                assert(constrs_of(a.constraints@)[j as int] != constrs_of(b.constraints@)[j as int]);
            }
            return false;
        }
        proof {
            assert(constrs_of(a.constraints@)[j as int] =~= constrs_of(b.constraints@)[j as int]);
        }
        j = j + 1;
    }
    proof {
        assert(a@.columns =~= b@.columns);
        assert(a@.constraints =~= b@.constraints);
        assert(a@ =~= b@);
    }
    true
}


/// A copy of a column with the same view.
pub fn clone_column(c: &Column) -> (r: Column)
    ensures
        r@ == c@,
{
    let mut options: Vec<ColumnOption> = Vec::new();
    let mut i: usize = 0;
    while i < c.options.len()
        invariant
            i <= c.options@.len(),
            options@.len() == i,
            opts_of(options@) =~~= opts_of(c.options@).take(i as int),
        decreases c.options@.len() - i,
    {
        let o = match &c.options[i] {
            ColumnOption::NotNull => ColumnOption::NotNull,
            ColumnOption::Null => ColumnOption::Null,
            ColumnOption::Default(e) => ColumnOption::Default(
                DefaultExpr { is_string: e.is_string, expr: e.expr.clone() },
            ),
        };
        proof {
            assert(o@ == opts_of(c.options@)[i as int]);
        }
        options.push(o);
        proof {
            assert(options@[i as int]@ == opts_of(c.options@)[i as int]);
            assert(opts_of(options@) =~~= opts_of(c.options@).take(i + 1));
        }
        i = i + 1;
    }
    let dt = match &c.data_type {
        DataType::Boolean => DataType::Boolean,
        DataType::Integer => DataType::Integer,
        DataType::BigInt => DataType::BigInt,
        DataType::Serial => DataType::Serial,
        DataType::BigSerial => DataType::BigSerial,
        DataType::Text => DataType::Text,
        DataType::Json => DataType::Json,
        DataType::Timestamp => DataType::Timestamp,
        DataType::Other(s) => DataType::Other(s.clone()),
    };
    let r = Column { name: c.name.clone(), data_type: dt, options };
    proof {
        assert(opts_of(c.options@).take(c.options@.len() as int) =~= opts_of(c.options@));
        assert(r@ =~~= c@);
    }
    r
}

/// A copy of a constraint with the same view.
pub fn clone_constraint(c: &Constraint) -> (r: Constraint)
    ensures
        r@ == c@,
{
    let r = match c {
        Constraint::Unique(u) => Constraint::Unique(
            Unique { columns: crate::constraint::clone_names(&u.columns) },
        ),
        Constraint::Primary(u) => Constraint::Primary(
            Unique { columns: crate::constraint::clone_names(&u.columns) },
        ),
        Constraint::ForeignKey(fk) => Constraint::ForeignKey(
            ForeignKey {
                foreign_table: fk.foreign_table.clone(),
                column: fk.column.clone(),
                on_delete: match &fk.on_delete {
                    Some(a) => Some(a.clone()),
                    None => None,
                },
                on_update: match &fk.on_update {
                    Some(a) => Some(a.clone()),
                    None => None,
                },
            },
        ),
    };
    proof {
        assert(r@ =~= c@);
    }
    r
}

/// A copy of a named constraint with the same view.
pub fn clone_nc(nc: &NamedConstraint) -> (r: NamedConstraint)
    ensures
        r@ == nc@,
{
    let r = NamedConstraint {
        name: nc.name.clone(),
        field_name: nc.field_name.clone(),
        constr: clone_constraint(&nc.constr),
    };
    proof {
        assert(r@ =~= nc@);
    }
    r
}

/// A copy of a table with the same view.
pub fn clone_table(t: &Table) -> (r: Table)
    ensures
        r@ == t@,
{
    let mut columns: Vec<Column> = Vec::new();
    let mut i: usize = 0;
    while i < t.columns.len()
        invariant
            i <= t.columns@.len(),
            columns@.len() == i,
            cols_of(columns@) =~~= cols_of(t.columns@).take(i as int),
        decreases t.columns@.len() - i,
    {
        columns.push(clone_column(&t.columns[i]));
        proof {
            assert(columns@[i as int]@ == cols_of(t.columns@)[i as int]);
            assert(cols_of(columns@) =~~= cols_of(t.columns@).take(i + 1));
        }
        i = i + 1;
    }
    let mut constraints: Vec<NamedConstraint> = Vec::new();
    let mut j: usize = 0;
    while j < t.constraints.len()
        invariant
            j <= t.constraints@.len(),
            constraints@.len() == j,
            constrs_of(constraints@) =~~= constrs_of(t.constraints@).take(j as int),
        decreases t.constraints@.len() - j,
    {
        constraints.push(clone_nc(&t.constraints[j]));
        proof {
            assert(constraints@[j as int]@ == constrs_of(t.constraints@)[j as int]);
            assert(constrs_of(constraints@) =~~= constrs_of(t.constraints@).take(j + 1));
        }
        j = j + 1;
    }
    let r = Table { name: t.name.clone(), columns, constraints };
    proof {
        assert(cols_of(t.columns@).take(t.columns@.len() as int) =~= cols_of(t.columns@));
        assert(constrs_of(t.constraints@).take(t.constraints@.len() as int) =~= constrs_of(
            t.constraints@,
        ));
        assert(r@ =~~= t@);
    }
    r
}

} // verus!
