//! The schema model: columns with their SQL data types and options, and
//! tables with their columns and named constraints. Tables are immutable
//! once registered; validation happens at registration time.

use vstd::prelude::*;
use vstd::string::*;
use crate::constraint::{
    Constraint, ConstraintV, NamedConstraint, NamedConstraintV, spec_constr_name,
};
use crate::dialect::Dialect;
use crate::error::{Error, seqs_of};
use crate::literal::{DefaultExpr, DefaultExprV, spec_render, accepted_expr};
use crate::text::{ascii_lower, ascii_lowercase, str_eq};

verus! {

/// A dialect-neutral SQL data type.
#[derive(Debug, Clone)]
pub enum DataType {
    Boolean,
    Integer,
    BigInt,
    Serial,
    BigSerial,
    Text,
    Json,
    Timestamp,
    Other(String),
}

#[verifier::ext_equal]
pub ghost enum DataTypeV {
    Boolean,
    Integer,
    BigInt,
    Serial,
    BigSerial,
    Text,
    Json,
    Timestamp,
    Other(Seq<char>),
}

impl View for DataType {
    type V = DataTypeV;

    open spec fn view(&self) -> DataTypeV {
        match self {
            DataType::Boolean => DataTypeV::Boolean,
            DataType::Integer => DataTypeV::Integer,
            DataType::BigInt => DataTypeV::BigInt,
            DataType::Serial => DataTypeV::Serial,
            DataType::BigSerial => DataTypeV::BigSerial,
            DataType::Text => DataTypeV::Text,
            DataType::Json => DataTypeV::Json,
            DataType::Timestamp => DataTypeV::Timestamp,
            DataType::Other(s) => DataTypeV::Other(s@),
        }
    }
}

/// The SQL keyword of a data type.
pub open spec fn spec_type_sql(t: DataTypeV) -> Seq<char> {
    match t {
        DataTypeV::Boolean => "BOOLEAN"@,
        DataTypeV::Integer => "INTEGER"@,
        DataTypeV::BigInt => "BIGINT"@,
        DataTypeV::Serial => "SERIAL"@,
        DataTypeV::BigSerial => "BIGSERIAL"@,
        DataTypeV::Text => "TEXT"@,
        DataTypeV::Json => "JSON"@,
        DataTypeV::Timestamp => "TIMESTAMP"@,
        DataTypeV::Other(s) => s,
    }
}

/// One option on a column: nullability or a default value.
#[derive(Debug, Clone)]
pub enum ColumnOption {
    NotNull,
    Null,
    Default(DefaultExpr),
}

#[verifier::ext_equal]
pub ghost enum ColumnOptionV {
    NotNull,
    Null,
    Default(DefaultExprV),
}

impl View for ColumnOption {
    type V = ColumnOptionV;

    open spec fn view(&self) -> ColumnOptionV {
        match self {
            ColumnOption::NotNull => ColumnOptionV::NotNull,
            ColumnOption::Null => ColumnOptionV::Null,
            ColumnOption::Default(e) => ColumnOptionV::Default(e@),
        }
    }
}

/// The SQL text of a column option.
pub open spec fn spec_option_sql(o: ColumnOptionV) -> Seq<char> {
    match o {
        ColumnOptionV::NotNull => "NOT NULL"@,
        ColumnOptionV::Null => "NULL"@,
        ColumnOptionV::Default(e) => "DEFAULT "@ + spec_render(e),
    }
}

/// A column: a case-normalized name, a data type, and its ordered options.
#[derive(Debug, Clone)]
pub struct Column {
    pub name: String,
    pub data_type: DataType,
    pub options: Vec<ColumnOption>,
}

#[verifier::ext_equal]
pub ghost struct ColumnV {
    pub name: Seq<char>,
    pub data_type: DataTypeV,
    pub options: Seq<ColumnOptionV>,
}

/// The views of a sequence of column options.
pub open spec fn opts_of(s: Seq<ColumnOption>) -> Seq<ColumnOptionV> {
    s.map_values(|o: ColumnOption| o@)
}

impl View for Column {
    type V = ColumnV;

    open spec fn view(&self) -> ColumnV {
        ColumnV { name: self.name@, data_type: self.data_type@, options: opts_of(self.options@) }
    }
}

/// The SQL fragment declaring a column: `<name> <TYPE> <options...>`.
pub open spec fn spec_column_sql(c: ColumnV) -> Seq<char>
    decreases c.options.len(),
{
    if c.options.len() == 0 {
        c.name + " "@ + spec_type_sql(c.data_type)
    } else {
        spec_column_sql(ColumnV { options: c.options.drop_last(), ..c }) + " "@ + spec_option_sql(
            c.options.last(),
        )
    }
}

impl Column {
    /// Builds a column under its lower-cased name with one option.
    pub fn new(name: &str, data_type: DataType, options: ColumnOption) -> (r: Column)
        ensures
            r@ == (ColumnV {
                name: ascii_lower(name@),
                data_type: data_type@,
                options: seq![options@],
            }),
    {
        let mut v: Vec<ColumnOption> = Vec::new();
        v.push(options);
        let c = Column { name: ascii_lowercase(name), data_type, options: v };
        proof {
            assert(opts_of(c.options@) =~~= seq![c.options@[0]@]);
        }
        c
    }

    /// Builds a column that carries a default literal beside its first
    /// option. The rendered literal is validated as a SQL expression under
    /// the most permissive dialect; an unparsable default is a hard error.
    pub fn new_with_default(
        name: &str,
        data_type: DataType,
        op: ColumnOption,
        def: DefaultExpr,
    ) -> (r: Result<Column, Error>)
        ensures
            r is Ok <==> (spec_render(def@).len() <= crate::literal::MAX_EXPR_LEN
                && accepted_expr(Dialect::Any, spec_render(def@))),
            r is Ok ==> r->Ok_0@ == (ColumnV {
                name: ascii_lower(name@),
                data_type: data_type@,
                options: seq![op@, ColumnOptionV::Default(def@)],
            }),
            r is Err ==> r->Err_0 is Message || r->Err_0 is Syntax,
    {
        if let Err(e) = def.validate(Dialect::Any) {
            return Err(e);
        }
        let mut v: Vec<ColumnOption> = Vec::new();
        v.push(op);
        v.push(ColumnOption::Default(def));
        let c = Column { name: ascii_lowercase(name), data_type, options: v };
        proof {
            assert(opts_of(c.options@) =~~= seq![c.options@[0]@, c.options@[1]@]);
        }
        Ok(c)
    }

    /// The column's name.
    pub fn name(&self) -> (r: &String)
        ensures
            r@ == self@.name,
    {
        &self.name
    }

    /// Renders the column declaration `<name> <TYPE> <options...>`.
    pub fn render(&self) -> (r: String)
        ensures
            r@ == spec_column_sql(self@),
    {
        let mut out = String::from_str(self.name.as_str());
        out.append(" ");
        match &self.data_type {
            DataType::Boolean => out.append("BOOLEAN"),
            DataType::Integer => out.append("INTEGER"),
            DataType::BigInt => out.append("BIGINT"),
            DataType::Serial => out.append("SERIAL"),
            DataType::BigSerial => out.append("BIGSERIAL"),
            DataType::Text => out.append("TEXT"),
            DataType::Json => out.append("JSON"),
            DataType::Timestamp => out.append("TIMESTAMP"),
            DataType::Other(s) => out.append(s.as_str()),
        }
        let ghost base = ColumnV { name: self@.name, data_type: self@.data_type, options: Seq::empty() };
        proof {
            assert(out@ == spec_column_sql(base));
        }
        let mut i: usize = 0;
        while i < self.options.len()
            invariant
                i <= self.options@.len(),
                out@ == spec_column_sql(
                    ColumnV {
                        name: self@.name,
                        data_type: self@.data_type,
                        options: opts_of(self.options@.take(i as int)),
                    },
                ),
            decreases self.options@.len() - i,
        {
            out.append(" ");
            match &self.options[i] {
                ColumnOption::NotNull => out.append("NOT NULL"),
                ColumnOption::Null => out.append("NULL"),
                ColumnOption::Default(e) => {
                    out.append("DEFAULT ");
                    let rendered = e.render();
                    out.append(rendered.as_str());
                },
            }
            proof {
                let t1 = opts_of(self.options@.take(i + 1));
                assert(t1.drop_last() =~~= opts_of(self.options@.take(i as int)));
                assert(t1.last() == self.options@[i as int]@);
                assert(out@ =~= spec_column_sql(
                    ColumnV { name: self@.name, data_type: self@.data_type, options: t1 },
                ));
            }
            i = i + 1;
        }
        proof {
            assert(self.options@.take(self.options@.len() as int) =~= self.options@);
            assert(opts_of(self.options@) == self@.options);
            assert(out@ == spec_column_sql(self@));
        }
        out
    }
}

/// A table: its name, its columns in declaration order, and its named
/// constraints.
#[derive(Debug, Clone)]
pub struct Table {
    pub name: String,
    pub columns: Vec<Column>,
    pub constraints: Vec<NamedConstraint>,
}

#[verifier::ext_equal]
pub ghost struct TableV {
    pub name: Seq<char>,
    pub columns: Seq<ColumnV>,
    pub constraints: Seq<NamedConstraintV>,
}

/// The views of a sequence of columns.
pub open spec fn cols_of(s: Seq<Column>) -> Seq<ColumnV> {
    s.map_values(|c: Column| c@)
}

/// The views of a sequence of named constraints.
pub open spec fn constrs_of(s: Seq<NamedConstraint>) -> Seq<NamedConstraintV> {
    s.map_values(|c: NamedConstraint| c@)
}

impl View for Table {
    type V = TableV;

    open spec fn view(&self) -> TableV {
        TableV {
            name: self.name@,
            columns: cols_of(self.columns@),
            constraints: constrs_of(self.constraints@),
        }
    }
}

/// The derived name a constraint carries on table `ty` (section: constraint
/// naming).
pub open spec fn spec_derived_name(nc: NamedConstraintV, ty: Seq<char>) -> Seq<char> {
    match nc.constr {
        ConstraintV::ForeignKey(fk) => spec_constr_name(
            ty,
            "foreign"@,
            nc.field_name,
            seq![fk.column],
        ),
        ConstraintV::Primary(u) => spec_constr_name(ty, "primary"@, nc.field_name, u.columns),
        ConstraintV::Unique(u) => spec_constr_name(ty, "unique"@, nc.field_name, u.columns),
    }
}

/// Whether a column of this name exists.
pub open spec fn spec_has_col(cols: Seq<ColumnV>, name: Seq<char>) -> bool {
    exists|k: int| 0 <= k < cols.len() && cols[k].name == name
}

/// Column names are unique within the table.
pub open spec fn spec_distinct_col_names(cols: Seq<ColumnV>) -> bool {
    forall|i: int, j: int| 0 <= i < j < cols.len() ==> cols[i].name != cols[j].name
}

/// A column carries at most one default-value option.
pub open spec fn spec_single_default(c: ColumnV) -> bool {
    forall|i: int, j: int|
        0 <= i < j < c.options.len() ==> !(c.options[i] is Default && c.options[j] is Default)
}

/// Every name in the list, lower-cased, is a column name.
pub open spec fn spec_all_present(cols: Seq<ColumnV>, names: Seq<Seq<char>>) -> bool {
    forall|k: int| 0 <= k < names.len() ==> spec_has_col(cols, ascii_lower(#[trigger] names[k]))
}

/// Every column a constraint mentions exists on the owning table (the
/// referenced column of a foreign key lives on the referenced table and is
/// validated by the front end).
pub open spec fn spec_constraint_cols_exist(t: TableV, nc: NamedConstraintV) -> bool {
    spec_has_col(t.columns, ascii_lower(nc.field_name)) && match nc.constr {
        ConstraintV::Primary(u) => spec_all_present(t.columns, u.columns),
        ConstraintV::Unique(u) => spec_all_present(t.columns, u.columns),
        ConstraintV::ForeignKey(_) => true,
    }
}

/// No cascading referential action is declared for a dialect that does not
/// support cascading.
pub open spec fn spec_cascade_ok(t: TableV, d: Dialect) -> bool {
    forall|i: int|
        0 <= i < t.constraints.len() ==> match #[trigger] t.constraints[i].constr {
            ConstraintV::ForeignKey(fk) => (fk.on_delete == Some("cascade"@) || fk.on_update
                == Some("cascade"@)) ==> d != Dialect::SQLite,
            _ => true,
        }
}

/// Derived constraint names are unique within the table; two structurally
/// different constraints that reduce to the same name would collide on
/// re-application and on drop.
pub open spec fn spec_distinct_constr_names(t: TableV) -> bool {
    forall|i: int, j: int|
        0 <= i < j < t.constraints.len() ==> spec_derived_name(t.constraints[i], t.name)
            != spec_derived_name(t.constraints[j], t.name)
}

/// The validation contract of one registered table under a dialect.
pub open spec fn spec_table_valid(t: TableV, d: Dialect) -> bool {
    &&& spec_distinct_col_names(t.columns)
    &&& forall|i: int| 0 <= i < t.columns.len() ==> spec_single_default(t.columns[i])
    &&& forall|i: int| 0 <= i < t.constraints.len() ==> spec_constraint_cols_exist(
        t,
        t.constraints[i],
    )
    &&& spec_cascade_ok(t, d)
    &&& spec_distinct_constr_names(t)
}

impl NamedConstraint {
    /// The derived name this constraint carries on table `ty`.
    pub fn derived_name(&self, ty: &str) -> (r: String)
        ensures
            r@ == spec_derived_name(self@, ty@),
    {
        match &self.constr {
            Constraint::ForeignKey(fk) => {
                let mut cols: Vec<String> = Vec::new();
                cols.push(fk.column.clone());
                proof {
                    assert(crate::error::seqs_of(cols@) =~~= seq![fk.column@]);
                }
                self.constr_name(ty, &cols, "foreign")
            },
            Constraint::Primary(pk) => self.constr_name(ty, &pk.columns, "primary"),
            Constraint::Unique(u) => self.constr_name(ty, &u.columns, "unique"),
        }
    }
}

impl Table {
    /// An empty table under its lower-cased name.
    pub fn new(name: &str) -> (r: Table)
        ensures
            r@ == (TableV {
                name: ascii_lower(name@),
                columns: Seq::empty(),
                constraints: Seq::empty(),
            }),
    {
        let t = Table { name: ascii_lowercase(name), columns: Vec::new(), constraints: Vec::new() };
        proof {
            assert(cols_of(t.columns@) =~~= Seq::<ColumnV>::empty());
            assert(constrs_of(t.constraints@) =~~= Seq::<NamedConstraintV>::empty());
        }
        t
    }

    /// Appends one column, keeping declaration order.
    pub fn add_column(&mut self, c: Column)
        ensures
            final(self)@ == (TableV {
                columns: old(self)@.columns.push(c@),
                ..old(self)@
            }),
    {
        let ghost prev = self.columns@;
        self.columns.push(c);
        proof {
            assert(cols_of(self.columns@) =~~= cols_of(prev).push(self.columns@.last()@));
        }
    }

    /// Appends one constraint.
    pub fn add_constraint(&mut self, nc: NamedConstraint)
        ensures
            final(self)@ == (TableV {
                constraints: old(self)@.constraints.push(nc@),
                ..old(self)@
            }),
    {
        let ghost prev = self.constraints@;
        self.constraints.push(nc);
        proof {
            assert(constrs_of(self.constraints@) =~~= constrs_of(prev).push(
                self.constraints@.last()@,
            ));
        }
    }

    /// Whether this table has a column of the given (lower-cased) name.
    pub fn has_column(&self, name: &str) -> (r: bool)
        ensures
            r == spec_has_col(self@.columns, name@),
    {
        let mut i: usize = 0;
        while i < self.columns.len()
            invariant
                i <= self.columns@.len(),
                forall|k: int| 0 <= k < i ==> cols_of(self.columns@)[k].name != name@,
            decreases self.columns@.len() - i,
        {
            if str_eq(self.columns[i].name.as_str(), name) {
                proof {
                    assert(cols_of(self.columns@)[i as int].name == name@);
                }
                return true;
            }
            i = i + 1;
        }
        false
    }

    /// Validates the table under a dialect: unique column names, at most one
    /// default per column, every constraint column present, no cascade on a
    /// dialect without cascade support, and unique derived constraint names.
    pub fn validate(&self, dialect: Dialect) -> (r: Result<(), Error>)
        ensures
            r is Ok <==> spec_table_valid(self@, dialect),
            r is Err ==> r->Err_0 is Message,
    {
        if !self.check_distinct_columns() {
            return Err(self.validation_error("duplicate column name in table "));
        }
        if !self.check_single_defaults() {
            return Err(self.validation_error("duplicate default option on a column of table "));
        }
        if !self.check_constraint_columns() {
            return Err(
                self.validation_error("constraint references a missing column in table "),
            );
        }
        if !self.check_cascade(dialect) {
            return Err(
                self.validation_error(
                    "cascading referential action is not supported by this dialect on table ",
                ),
            );
        }
        if !self.check_distinct_constraints() {
            return Err(self.validation_error("duplicate derived constraint name in table "));
        }
        Ok(())
    }

    fn validation_error(&self, what: &str) -> (r: Error)
        ensures
            r is Message,
    {
        let mut msg = String::from_str(what);
        msg.append(self.name.as_str());
        Error::Message(msg)
    }

    fn check_distinct_columns(&self) -> (r: bool)
        ensures
            r == spec_distinct_col_names(self@.columns),
    {
        let mut i: usize = 0;
        while i < self.columns.len()
            invariant
                i <= self.columns@.len(),
                forall|a: int, b: int|
                    0 <= a < b < i ==> cols_of(self.columns@)[a].name != cols_of(
                        self.columns@,
                    )[b].name,
            decreases self.columns@.len() - i,
        {
            let mut j: usize = 0;
            while j < i
                invariant
                    j <= i < self.columns@.len(),
                    forall|a: int, b: int|
                        0 <= a < b < i ==> cols_of(self.columns@)[a].name != cols_of(
                            self.columns@,
                        )[b].name,
                    forall|a: int| 0 <= a < j ==> cols_of(self.columns@)[a].name != cols_of(
                        self.columns@,
                    )[i as int].name,
                decreases i - j,
            {
                if str_eq(self.columns[j].name.as_str(), self.columns[i].name.as_str()) {
                    proof {
                        assert(cols_of(self.columns@)[j as int].name == cols_of(
                            self.columns@,
                        )[i as int].name);
                    }
                    return false;
                }
                j = j + 1;
            }
            i = i + 1;
        }
        true
    }

    fn check_single_defaults(&self) -> (r: bool)
        ensures
            r == forall|i: int|
                0 <= i < self@.columns.len() ==> spec_single_default(self@.columns[i]),
    {
        let mut i: usize = 0;
        while i < self.columns.len()
            invariant
                i <= self.columns@.len(),
                forall|k: int| 0 <= k < i ==> spec_single_default(cols_of(self.columns@)[k]),
            decreases self.columns@.len() - i,
        {
            let c = &self.columns[i];
            let mut seen: bool = false;
            let mut j: usize = 0;
            while j < c.options.len()
                invariant
                    i < self.columns@.len(),
                    c@ == self@.columns[i as int],
                    j <= c.options@.len(),
                    seen == exists|k: int|
                        0 <= k < j && opts_of(c.options@)[k] is Default,
                    seen ==> forall|a: int, b: int|
                        0 <= a < b < j ==> !(opts_of(c.options@)[a] is Default && opts_of(
                            c.options@,
                        )[b] is Default),
                    !seen ==> forall|a: int, b: int|
                        0 <= a < b < j ==> !(opts_of(c.options@)[a] is Default && opts_of(
                            c.options@,
                        )[b] is Default),
                decreases c.options@.len() - j,
            {
                let is_def = match &c.options[j] {
                    ColumnOption::Default(_) => true,
                    _ => false,
                };
                proof {
                    assert(is_def == (opts_of(c.options@)[j as int] is Default));
                }
                if is_def {
                    if seen {
                        proof {
                            let k = choose|k: int|
                                0 <= k < j && opts_of(c.options@)[k] is Default;
                            assert(c@.options[k] is Default && c@.options[j as int] is Default);
                            assert(!spec_single_default(self@.columns[i as int]));
                        }
                        return false;
                    }
                    seen = true;
                }
                j = j + 1;
            }
            proof {
                assert(spec_single_default(self@.columns[i as int]));
            }
            i = i + 1;
        }
        true
    }

    fn check_constraint_columns(&self) -> (r: bool)
        ensures
            r == forall|i: int|
                0 <= i < self@.constraints.len() ==> spec_constraint_cols_exist(
                    self@,
                    self@.constraints[i],
                ),
    {
        let mut i: usize = 0;
        while i < self.constraints.len()
            invariant
                i <= self.constraints@.len(),
                forall|k: int| 0 <= k < i ==> spec_constraint_cols_exist(
                    self@,
                    constrs_of(self.constraints@)[k],
                ),
            decreases self.constraints@.len() - i,
        {
            let nc = &self.constraints[i];
            proof {
                assert(nc@ == constrs_of(self.constraints@)[i as int]);
            }
            let f = ascii_lowercase(nc.field_name.as_str());
            if !self.has_column(f.as_str()) {
                proof {
                    assert(!spec_constraint_cols_exist(self@, self@.constraints[i as int]));
                }
                return false;
            }
            match &nc.constr {
                Constraint::Primary(u) => {
                    if !self.cols_all_present(&u.columns) {
                        proof {
                            assert(nc@.constr == ConstraintV::Primary(u@));
                            assert(!spec_constraint_cols_exist(
                                self@,
                                self@.constraints[i as int],
                            ));
                        }
                        return false;
                    }
                },
                Constraint::Unique(u) => {
                    if !self.cols_all_present(&u.columns) {
                        proof {
                            assert(nc@.constr == ConstraintV::Unique(u@));
                            assert(!spec_constraint_cols_exist(
                                self@,
                                self@.constraints[i as int],
                            ));
                        }
                        return false;
                    }
                },
                Constraint::ForeignKey(_) => {},
            }
            proof {
                assert(spec_constraint_cols_exist(
                    self@,
                    constrs_of(self.constraints@)[i as int],
                ));
            }
            i = i + 1;
        }
        true
    }

    /// Whether every name in the list, lower-cased, is a column of this
    /// table.
    fn cols_all_present(&self, extra: &Vec<String>) -> (r: bool)
        ensures
            r == spec_all_present(self@.columns, seqs_of(extra@)),
    {
        let mut j: usize = 0;
        while j < extra.len()
            invariant
                j <= extra@.len(),
                forall|k: int| 0 <= k < j ==> spec_has_col(
                    self@.columns,
                    ascii_lower(#[trigger] seqs_of(extra@)[k]),
                ),
            decreases extra@.len() - j,
        {
            let col = ascii_lowercase(extra[j].as_str());
            if !self.has_column(col.as_str()) {
                proof {
                    assert(seqs_of(extra@)[j as int] == extra@[j as int]@);
                    assert(!spec_all_present(self@.columns, seqs_of(extra@)));
                }
                return false;
            }
            proof {
                assert(seqs_of(extra@)[j as int] == extra@[j as int]@);
            }
            j = j + 1;
        }
        true
    }

    fn check_cascade(&self, dialect: Dialect) -> (r: bool)
        ensures
            r == spec_cascade_ok(self@, dialect),
    {
        if dialect.supports_cascade() {
            return true;
        }
        let mut i: usize = 0;
        while i < self.constraints.len()
            invariant
                i <= self.constraints@.len(),
                dialect == Dialect::SQLite,
                forall|k: int| 0 <= k < i ==> match #[trigger] constrs_of(self.constraints@)[k].constr {
                    ConstraintV::ForeignKey(fk) => !(fk.on_delete == Some("cascade"@)
                        || fk.on_update == Some("cascade"@)),
                    _ => true,
                },
            decreases self.constraints@.len() - i,
        {
            proof {
                assert(self.constraints@[i as int]@ == constrs_of(self.constraints@)[i as int]);
            }
            if let Constraint::ForeignKey(fk) = &self.constraints[i].constr {
                if let Some(a) = &fk.on_delete {
                    if str_eq(a.as_str(), "cascade") {
                        proof {
                            assert(fk@.on_delete == Some("cascade"@));
                            assert(!spec_cascade_ok(self@, dialect));
                        }
                        return false;
                    }
                }
                if let Some(a) = &fk.on_update {
                    if str_eq(a.as_str(), "cascade") {
                        proof {
                            assert(fk@.on_update == Some("cascade"@));
                            assert(!spec_cascade_ok(self@, dialect));
                        }
                        return false;
                    }
                }
            }
            i = i + 1;
        }
        true
    }

    fn check_distinct_constraints(&self) -> (r: bool)
        ensures
            r == spec_distinct_constr_names(self@),
    {
        let mut i: usize = 0;
        while i < self.constraints.len()
            invariant
                i <= self.constraints@.len(),
                forall|a: int, b: int|
                    0 <= a < b < i ==> spec_derived_name(
                        constrs_of(self.constraints@)[a],
                        self.name@,
                    ) != spec_derived_name(constrs_of(self.constraints@)[b], self.name@),
            decreases self.constraints@.len() - i,
        {
            let ni = self.constraints[i].derived_name(self.name.as_str());
            let mut j: usize = 0;
            while j < i
                invariant
                    j <= i < self.constraints@.len(),
                    ni@ == spec_derived_name(constrs_of(self.constraints@)[i as int], self.name@),
                    forall|a: int, b: int|
                        0 <= a < b < i ==> spec_derived_name(
                            constrs_of(self.constraints@)[a],
                            self.name@,
                        ) != spec_derived_name(constrs_of(self.constraints@)[b], self.name@),
                    forall|a: int| 0 <= a < j ==> spec_derived_name(
                        constrs_of(self.constraints@)[a],
                        self.name@,
                    ) != spec_derived_name(constrs_of(self.constraints@)[i as int], self.name@),
                decreases i - j,
            {
                let nj = self.constraints[j].derived_name(self.name.as_str());
                if str_eq(ni.as_str(), nj.as_str()) {
                    proof {
                        assert(spec_derived_name(self@.constraints[j as int], self@.name)
                            == spec_derived_name(self@.constraints[i as int], self@.name));
                        assert(!spec_distinct_constr_names(self@));
                    }
                    return false;
                }
                j = j + 1;
            }
            i = i + 1;
        }
        true
    }
}

} // verus!
