//! The schema diff engine: compares the previously persisted schema against
//! the current one, table by table, and emits an ordered migration of DDL
//! operations with optional structural inverses. Creations and alterations
//! follow the dependency order; drops follow the reverse order.

use vstd::prelude::*;
use vstd::string::*;
use vstd::multiset::Multiset;
use crate::constraint::NamedConstraint;
use crate::dialect::Dialect;
use crate::eq::{clone_column, clone_nc, clone_table, column_eq, nc_same, spec_nc_same};
use crate::error::{joined, seqs_of};
use crate::graph::spec_name_pos;
use crate::schema::{Schema, spec_has_table, spec_lookup, spec_schema_wf};
use crate::table::{Column, ColumnV, Table, TableV, cols_of, constrs_of, spec_column_sql, spec_derived_name};
use crate::text::str_eq;

verus! {

/// One DDL operation of a migration.
#[derive(Debug, Clone)]
pub enum Op {
    /// Create the table with all its columns; its constraints follow as
    /// separate additions in the rendering.
    CreateTable(Table),
    /// Drop the table; carries the dropped definition so the inverse can
    /// recreate it.
    DropTable(Table),
    AddColumn(String, Column),
    /// Drop the named column; carries the dropped definition for the
    /// inverse.
    DropColumn(String, Column),
    /// Replace a column whose type or options changed: the old and the new
    /// definition, and whether the dialect requires a table rebuild instead
    /// of altering in place.
    ReplaceColumn(String, Column, Column, bool),
    AddConstraint(String, NamedConstraint),
    DropConstraint(String, NamedConstraint),
}

#[verifier::ext_equal]
pub ghost enum OpV {
    CreateTable(TableV),
    DropTable(TableV),
    AddColumn(Seq<char>, ColumnV),
    DropColumn(Seq<char>, ColumnV),
    ReplaceColumn(Seq<char>, ColumnV, ColumnV, bool),
    AddConstraint(Seq<char>, crate::constraint::NamedConstraintV),
    DropConstraint(Seq<char>, crate::constraint::NamedConstraintV),
}

impl View for Op {
    type V = OpV;

    open spec fn view(&self) -> OpV {
        match self {
            Op::CreateTable(t) => OpV::CreateTable(t@),
            Op::DropTable(t) => OpV::DropTable(t@),
            Op::AddColumn(tn, c) => OpV::AddColumn(tn@, c@),
            Op::DropColumn(tn, c) => OpV::DropColumn(tn@, c@),
            Op::ReplaceColumn(tn, o, n, mv) => OpV::ReplaceColumn(tn@, o@, n@, *mv),
            Op::AddConstraint(tn, nc) => OpV::AddConstraint(tn@, nc@),
            Op::DropConstraint(tn, nc) => OpV::DropConstraint(tn@, nc@),
        }
    }
}

/// One migration step: a forward operation and, when rollback is requested,
/// its structural inverse.
#[derive(Debug, Clone)]
pub struct MigrationStep {
    pub up: Op,
    pub down: Option<Op>,
}

#[verifier::ext_equal]
pub ghost struct StepV {
    pub up: OpV,
    pub down: Option<OpV>,
}

impl View for MigrationStep {
    type V = StepV;

    open spec fn view(&self) -> StepV {
        StepV {
            up: self.up@,
            down: match &self.down {
                Some(op) => Some(op@),
                None => None,
            },
        }
    }
}

/// The views of a sequence of steps.
pub open spec fn steps_of(s: Seq<MigrationStep>) -> Seq<StepV> {
    s.map_values(|st: MigrationStep| st@)
}

/// An ordered migration: created once per commit and consumed immediately.
#[derive(Debug, Clone)]
pub struct Migration {
    pub steps: Vec<MigrationStep>,
}

impl View for Migration {
    type V = Seq<StepV>;

    open spec fn view(&self) -> Seq<StepV> {
        steps_of(self.steps@)
    }
}

/// The structural inverse of each operation: what undoes it exactly.
pub open spec fn spec_op_inverse(up: OpV, down: OpV) -> bool {
    match up {
        OpV::CreateTable(t) => down == OpV::DropTable(t),
        OpV::DropTable(t) => down == OpV::CreateTable(t),
        OpV::AddColumn(tn, c) => down == OpV::DropColumn(tn, c),
        OpV::DropColumn(tn, c) => down == OpV::AddColumn(tn, c),
        OpV::ReplaceColumn(tn, o, n, mv) => down == OpV::ReplaceColumn(tn, n, o, mv),
        OpV::AddConstraint(tn, nc) => down == OpV::DropConstraint(tn, nc),
        OpV::DropConstraint(tn, nc) => down == OpV::AddConstraint(tn, nc),
    }
}

/// Every step of a well-formed migration: an inverse exactly when one was
/// requested, and any present inverse is the structural inverse of its
/// forward operation.
pub open spec fn spec_steps_wf(steps: Seq<StepV>, gen_down: bool) -> bool {
    &&& !gen_down ==> forall|k: int| 0 <= k < steps.len() ==> (#[trigger] steps[k]).down is None
    &&& gen_down ==> forall|k: int| 0 <= k < steps.len() ==> (#[trigger] steps[k]).down is Some
    &&& forall|k: int|
        0 <= k < steps.len() && (#[trigger] steps[k]).down is Some ==> spec_op_inverse(
            steps[k].up,
            steps[k].down->0,
        )
}

/// The second step list extends the first: nothing already emitted is ever
/// changed or dropped.
pub open spec fn spec_extends(a: Seq<StepV>, b: Seq<StepV>) -> bool {
    a.len() <= b.len() && forall|k: int| 0 <= k < a.len() ==> a[k] == b[k]
}

/// Some step creates exactly this table.
pub open spec fn spec_has_create(steps: Seq<StepV>, t: TableV) -> bool {
    exists|k: int| 0 <= k < steps.len() && (#[trigger] steps[k]).up == OpV::CreateTable(t)
}

/// Some step drops exactly this table.
pub open spec fn spec_has_drop(steps: Seq<StepV>, t: TableV) -> bool {
    exists|k: int| 0 <= k < steps.len() && (#[trigger] steps[k]).up == OpV::DropTable(t)
}

/// Some step adds exactly this column to the named table.
pub open spec fn spec_has_add_column(steps: Seq<StepV>, tn: Seq<char>, c: ColumnV) -> bool {
    exists|k: int| 0 <= k < steps.len() && (#[trigger] steps[k]).up == OpV::AddColumn(tn, c)
}

/// Some step drops exactly this column from the named table.
pub open spec fn spec_has_drop_column(steps: Seq<StepV>, tn: Seq<char>, c: ColumnV) -> bool {
    exists|k: int| 0 <= k < steps.len() && (#[trigger] steps[k]).up == OpV::DropColumn(tn, c)
}

/// The names of a sequence of tables.
pub open spec fn spec_tnames(ts: Seq<TableV>) -> Seq<Seq<char>> {
    ts.map_values(|t: TableV| t.name)
}

/// The emission phase of an operation: creations and additions come first,
/// column and constraint removals second, table drops last.
pub open spec fn spec_op_phase(op: OpV) -> int {
    match op {
        OpV::CreateTable(_) => 0,
        OpV::AddColumn(_, _) => 0,
        OpV::ReplaceColumn(_, _, _, _) => 0,
        OpV::AddConstraint(_, _) => 0,
        OpV::DropColumn(_, _) => 1,
        OpV::DropConstraint(_, _) => 1,
        OpV::DropTable(_) => 2,
    }
}

/// Steps come out in phase order: every removal stands after every creation
/// or addition, and every table drop stands after every removal.
pub open spec fn spec_phases_ordered(steps: Seq<StepV>) -> bool {
    forall|s1: int, s2: int|
        0 <= s1 < s2 < steps.len() ==> spec_op_phase(#[trigger] steps[s1].up) <= spec_op_phase(
            #[trigger] steps[s2].up,
        )
}

/// The table an operation works on.
pub open spec fn spec_op_table(op: OpV) -> Seq<char> {
    match op {
        OpV::CreateTable(t) => t.name,
        OpV::DropTable(t) => t.name,
        OpV::AddColumn(tn, _) => tn,
        OpV::DropColumn(tn, _) => tn,
        OpV::ReplaceColumn(tn, _, _, _) => tn,
        OpV::AddConstraint(tn, _) => tn,
        OpV::DropConstraint(tn, _) => tn,
    }
}

/// Column and constraint removals come out in reverse of the given name
/// order: each removal's table stands in the list, and an earlier removal's
/// table stands at the same position or later.
pub open spec fn spec_removals_reversed(steps: Seq<StepV>, names: Seq<Seq<char>>) -> bool {
    &&& forall|s: int|
        0 <= s < steps.len() && spec_op_phase((#[trigger] steps[s]).up) == 1 ==> {
            let p = spec_name_pos(names, spec_op_table(steps[s].up));
            0 <= p < names.len() && names[p] == spec_op_table(steps[s].up)
        }
    &&& forall|s1: int, s2: int|
        0 <= s1 < s2 < steps.len() && spec_op_phase((#[trigger] steps[s1]).up) == 1
            && spec_op_phase((#[trigger] steps[s2]).up) == 1 ==> spec_name_pos(
            names,
            spec_op_table(steps[s1].up),
        ) >= spec_name_pos(names, spec_op_table(steps[s2].up))
}

/// Table creations follow the given name order: each created table's name
/// stands in the list, and an earlier creation's name stands earlier.
pub open spec fn spec_creates_follow(steps: Seq<StepV>, names: Seq<Seq<char>>) -> bool {
    &&& forall|s: int|
        0 <= s < steps.len() && (#[trigger] steps[s].up) is CreateTable ==> {
            let p = spec_name_pos(names, steps[s].up->CreateTable_0.name);
            0 <= p < names.len() && names[p] == steps[s].up->CreateTable_0.name
        }
    &&& forall|s1: int, s2: int|
        0 <= s1 < s2 < steps.len() && (#[trigger] steps[s1].up) is CreateTable
            && (#[trigger] steps[s2].up) is CreateTable ==> spec_name_pos(
            names,
            steps[s1].up->CreateTable_0.name,
        ) < spec_name_pos(names, steps[s2].up->CreateTable_0.name)
}

/// Table drops come out in reverse of the previous schema's order: each
/// dropped table stands in the previous schema, and an earlier drop's table
/// stands later there.
pub open spec fn spec_table_drops_reversed(steps: Seq<StepV>, prev: Seq<TableV>) -> bool {
    &&& forall|s: int|
        0 <= s < steps.len() && (#[trigger] steps[s].up) is DropTable ==> {
            let p = spec_name_pos(spec_tnames(prev), steps[s].up->DropTable_0.name);
            0 <= p < prev.len() && prev[p].name == steps[s].up->DropTable_0.name
        }
    &&& forall|s1: int, s2: int|
        0 <= s1 < s2 < steps.len() && (#[trigger] steps[s1].up) is DropTable
            && (#[trigger] steps[s2].up) is DropTable ==> spec_name_pos(
            spec_tnames(prev),
            steps[s1].up->DropTable_0.name,
        ) > spec_name_pos(spec_tnames(prev), steps[s2].up->DropTable_0.name)
}

/// Every column of `t` that `p` has no column for is added by some step.
pub open spec fn spec_adds_missing_columns(steps: Seq<StepV>, p: TableV, t: TableV) -> bool {
    forall|ci: int|
        0 <= ci < t.columns.len() && !crate::table::spec_has_col(
            p.columns,
            (#[trigger] t.columns[ci]).name,
        ) ==> spec_has_add_column(steps, t.name, t.columns[ci])
}

/// Every column of `p` that `t` has no column for is dropped by some step.
pub open spec fn spec_drops_vanished_columns(steps: Seq<StepV>, p: TableV, t: TableV) -> bool {
    forall|ci: int|
        0 <= ci < p.columns.len() && !crate::table::spec_has_col(
            t.columns,
            (#[trigger] p.columns[ci]).name,
        ) ==> spec_has_drop_column(steps, t.name, p.columns[ci])
}

proof fn lemma_extends_keeps_adds(a: Seq<StepV>, b: Seq<StepV>, p: TableV, t: TableV)
    requires
        spec_extends(a, b),
        spec_adds_missing_columns(a, p, t),
    ensures
        spec_adds_missing_columns(b, p, t),
{
    assert forall|ci: int|
        0 <= ci < t.columns.len() && !crate::table::spec_has_col(
            p.columns,
            (#[trigger] t.columns[ci]).name,
        ) implies spec_has_add_column(b, t.name, t.columns[ci]) by {
        let w = choose|w: int|
            0 <= w < a.len() && a[w].up == OpV::AddColumn(t.name, t.columns[ci]);
        assert(b[w] == a[w]);
    }
}

proof fn lemma_extends_keeps_drops(a: Seq<StepV>, b: Seq<StepV>, p: TableV, t: TableV)
    requires
        spec_extends(a, b),
        spec_drops_vanished_columns(a, p, t),
    ensures
        spec_drops_vanished_columns(b, p, t),
{
    assert forall|ci: int|
        0 <= ci < p.columns.len() && !crate::table::spec_has_col(
            t.columns,
            (#[trigger] p.columns[ci]).name,
        ) implies spec_has_drop_column(b, t.name, p.columns[ci]) by {
        let w = choose|w: int|
            0 <= w < a.len() && a[w].up == OpV::DropColumn(t.name, p.columns[ci]);
        assert(b[w] == a[w]);
    }
}

fn push_step(out: &mut Vec<MigrationStep>, up: Op, down: Option<Op>, gen_down: bool)
    requires
        !gen_down ==> down is None,
        gen_down ==> down is Some,
        down is Some ==> spec_op_inverse(up@, down->0@),
        spec_steps_wf(steps_of(old(out)@), gen_down),
    ensures
        final(out)@.len() == old(out)@.len() + 1,
        steps_of(final(out)@) == steps_of(old(out)@).push(
            StepV {
                up: up@,
                down: match down {
                    Some(op) => Some(op@),
                    None => None,
                },
            },
        ),
        spec_steps_wf(steps_of(final(out)@), gen_down),
        spec_extends(steps_of(old(out)@), steps_of(final(out)@)),
{
    let ghost prev = out@;
    out.push(MigrationStep { up, down });
    proof {
        assert(steps_of(out@) =~~= steps_of(prev).push(out@.last()@));
        assert forall|k: int|
            0 <= k < steps_of(out@).len() && (#[trigger] steps_of(out@)[k]).down
                is Some implies spec_op_inverse(
            steps_of(out@)[k].up,
            steps_of(out@)[k].down->0,
        ) by {
            if k < prev.len() {
                assert(steps_of(out@)[k] == steps_of(prev)[k]);
            }
        }
        if !gen_down {
            assert forall|k: int|
                0 <= k < steps_of(out@).len() implies (#[trigger] steps_of(out@)[k]).down
                    is None by {
                if k < prev.len() {
                    assert(steps_of(out@)[k] == steps_of(prev)[k]);
                }
            }
        } else {
            assert forall|k: int|
                0 <= k < steps_of(out@).len() implies (#[trigger] steps_of(out@)[k]).down
                    is Some by {
                if k < prev.len() {
                    assert(steps_of(out@)[k] == steps_of(prev)[k]);
                }
            }
        }
    }
}

/// Whether the current table holds a column of this exact name.
fn find_column<'a>(t: &'a Table, name: &str) -> (r: Option<&'a Column>)
    ensures
        r is Some ==> exists|k: int|
            0 <= k < t@.columns.len() && t@.columns[k] == r->0@ && r->0@.name == name@,
        r is None ==> forall|k: int| 0 <= k < t@.columns.len() ==> (#[trigger] t@.columns[k]).name
            != name@,
{
    let mut i: usize = 0;
    while i < t.columns.len()
        invariant
            i <= t.columns@.len(),
            forall|k: int| 0 <= k < i ==> (#[trigger] cols_of(t.columns@)[k]).name != name@,
        decreases t.columns@.len() - i,
    {
        if str_eq(t.columns[i].name.as_str(), name) {
            proof {
                assert(cols_of(t.columns@)[i as int].name == name@);
            }
            return Some(&t.columns[i]);
        }
        i = i + 1;
    }
    None
}

/// Whether the table holds this same constraint (same declaring field, same
/// structure, hence the same derived name).
fn has_constraint(t: &Table, nc: &NamedConstraint) -> (r: bool)
    ensures
        r == exists|k: int| 0 <= k < t@.constraints.len() && spec_nc_same(
            #[trigger] t@.constraints[k],
            nc@,
        ),
{
    let mut i: usize = 0;
    while i < t.constraints.len()
        invariant
            i <= t.constraints@.len(),
            forall|k: int| 0 <= k < i ==> !spec_nc_same(#[trigger] t@.constraints[k], nc@),
        decreases t.constraints@.len() - i,
    {
        if nc_same(&t.constraints[i], nc) {
            proof {
                assert(t@.constraints[i as int] == t.constraints@[i as int]@);
                assert(spec_nc_same(t@.constraints[i as int], nc@));
            }
            return true;
        }
        proof {
            assert(t@.constraints[i as int] == t.constraints@[i as int]@);
        }
        i = i + 1;
    }
    false
}

/// Emits the operations that add to table `p` (previous) what table `t`
/// (current) declares beyond it: added columns, changed columns, and added
/// constraints, compared by derived name and structure, never by position.
/// Equal tables emit nothing.
fn diff_table_additions(
    p: &Table,
    t: &Table,
    dialect: Dialect,
    gen_down: bool,
    out: &mut Vec<MigrationStep>,
)
    requires
        spec_steps_wf(steps_of(old(out)@), gen_down),
        crate::table::spec_distinct_col_names(p@.columns),
    ensures
        spec_steps_wf(steps_of(final(out)@), gen_down),
        spec_extends(steps_of(old(out)@), steps_of(final(out)@)),
        spec_adds_missing_columns(steps_of(final(out)@), p@, t@),
        forall|s: int|
            steps_of(old(out)@).len() <= s < steps_of(final(out)@).len() ==> spec_op_phase(
                (#[trigger] steps_of(final(out)@)[s]).up,
            ) == 0 && !(steps_of(final(out)@)[s].up is CreateTable),
        p@ == t@ ==> final(out)@ == old(out)@,
{
    // columns added or changed, in the current declaration order
    let mut i: usize = 0;
    while i < t.columns.len()
        invariant
            i <= t.columns@.len(),
            crate::table::spec_distinct_col_names(p@.columns),
            spec_steps_wf(steps_of(out@), gen_down),
            spec_extends(steps_of(old(out)@), steps_of(out@)),
            forall|s: int|
                steps_of(old(out)@).len() <= s < steps_of(out@).len() ==> spec_op_phase(
                    (#[trigger] steps_of(out@)[s]).up,
                ) == 0 && !(steps_of(out@)[s].up is CreateTable),
            forall|ci: int|
                0 <= ci < i && !crate::table::spec_has_col(
                    p@.columns,
                    (#[trigger] t@.columns[ci]).name,
                ) ==> spec_has_add_column(steps_of(out@), t@.name, t@.columns[ci]),
            p@ == t@ ==> out@ == old(out)@,
        decreases t.columns@.len() - i,
    {
        let ghost col_before = steps_of(out@);
        let c = &t.columns[i];
        proof {
            if p@ == t@ {
                assert(p@.columns[i as int] == t@.columns[i as int]);
                assert(t@.columns[i as int] == c@);
            }
        }
        match find_column(p, c.name.as_str()) {
            None => {
                proof {
                    if p@ == t@ {
                        assert(p@.columns[i as int].name == c@.name);
                        assert(false);
                    }
                }
                let down = if gen_down {
                    Some(Op::DropColumn(t.name.clone(), clone_column(c)))
                } else {
                    None
                };
                push_step(out, Op::AddColumn(t.name.clone(), clone_column(c)), down, gen_down);
                proof {
                    assert(steps_of(out@)[steps_of(out@).len() - 1].up == OpV::AddColumn(
                        t@.name,
                        t@.columns[i as int],
                    ));
                }
            },
            Some(pc) => {
                if !column_eq(pc, c) {
                    proof {
                        if p@ == t@ {
                            let k = choose|k: int|
                                0 <= k < p@.columns.len() && p@.columns[k] == pc@ && pc@.name
                                    == c@.name;
                            assert(p@.columns[i as int] == c@);
                            assert(p@.columns[k].name == p@.columns[i as int].name);
                            if k < i as int {
                                assert(p@.columns[k].name != p@.columns[i as int].name);
                            } else if k > i as int {
                                assert(p@.columns[i as int].name != p@.columns[k].name);
                            }
                            assert(pc@ == c@);
                            assert(false);
                        }
                    }
                    let mv = dialect.requires_move();
                    let down = if gen_down {
                        Some(
                            Op::ReplaceColumn(t.name.clone(), clone_column(c), clone_column(pc), mv),
                        )
                    } else {
                        None
                    };
                    push_step(
                        out,
                        Op::ReplaceColumn(t.name.clone(), clone_column(pc), clone_column(c), mv),
                        down,
                        gen_down,
                    );
                }
            },
        }
        proof {
            assert(spec_extends(col_before, steps_of(out@)));
            assert forall|ci: int|
                0 <= ci < i + 1 && !crate::table::spec_has_col(
                    p@.columns,
                    (#[trigger] t@.columns[ci]).name,
                ) implies spec_has_add_column(steps_of(out@), t@.name, t@.columns[ci]) by {
                if ci < i {
                    let w = choose|w: int|
                        0 <= w < col_before.len() && col_before[w].up == OpV::AddColumn(
                            t@.name,
                            t@.columns[ci],
                        );
                    assert(steps_of(out@)[w] == col_before[w]);
                }
            }
        }
        i = i + 1;
    }
    // constraints added
    let mut a: usize = 0;
    while a < t.constraints.len()
        invariant
            a <= t.constraints@.len(),
            spec_steps_wf(steps_of(out@), gen_down),
            spec_extends(steps_of(old(out)@), steps_of(out@)),
            forall|s: int|
                steps_of(old(out)@).len() <= s < steps_of(out@).len() ==> spec_op_phase(
                    (#[trigger] steps_of(out@)[s]).up,
                ) == 0 && !(steps_of(out@)[s].up is CreateTable),
            spec_adds_missing_columns(steps_of(out@), p@, t@),
            p@ == t@ ==> out@ == old(out)@,
        decreases t.constraints@.len() - a,
    {
        let ghost con_before = steps_of(out@);
        let nc = &t.constraints[a];
        if !has_constraint(p, nc) {
            proof {
                if p@ == t@ {
                    assert(p@.constraints[a as int] == constrs_of(t.constraints@)[a as int]);
                    assert(spec_nc_same(p@.constraints[a as int], nc@));
                    assert(false);
                }
            }
            let down = if gen_down {
                Some(Op::DropConstraint(t.name.clone(), clone_nc(nc)))
            } else {
                None
            };
            push_step(out, Op::AddConstraint(t.name.clone(), clone_nc(nc)), down, gen_down);
        }
        proof {
            assert(spec_extends(con_before, steps_of(out@)));
            assert forall|ci: int|
                0 <= ci < t@.columns.len() && !crate::table::spec_has_col(
                    p@.columns,
                    (#[trigger] t@.columns[ci]).name,
                ) implies spec_has_add_column(steps_of(out@), t@.name, t@.columns[ci]) by {
                let w = choose|w: int|
                    0 <= w < con_before.len() && con_before[w].up == OpV::AddColumn(
                        t@.name,
                        t@.columns[ci],
                    );
                assert(steps_of(out@)[w] == con_before[w]);
            }
        }
        a = a + 1;
    }
}

/// Emits the operations that remove from table `p` (previous) what table
/// `t` (current) no longer declares: removed constraints, then removed
/// columns, in the previous declaration order. Equal tables emit nothing.
fn diff_table_removals(p: &Table, t: &Table, gen_down: bool, out: &mut Vec<MigrationStep>)
    requires
        spec_steps_wf(steps_of(old(out)@), gen_down),
    ensures
        spec_steps_wf(steps_of(final(out)@), gen_down),
        spec_extends(steps_of(old(out)@), steps_of(final(out)@)),
        spec_drops_vanished_columns(steps_of(final(out)@), p@, t@),
        forall|s: int|
            steps_of(old(out)@).len() <= s < steps_of(final(out)@).len() ==> spec_op_phase(
                (#[trigger] steps_of(final(out)@)[s]).up,
            ) == 1 && spec_op_table(steps_of(final(out)@)[s].up) == t@.name,
        p@ == t@ ==> final(out)@ == old(out)@,
{
    // constraints removed
    let mut b: usize = 0;
    while b < p.constraints.len()
        invariant
            b <= p.constraints@.len(),
            spec_steps_wf(steps_of(out@), gen_down),
            spec_extends(steps_of(old(out)@), steps_of(out@)),
            forall|s: int|
                steps_of(old(out)@).len() <= s < steps_of(out@).len() ==> spec_op_phase(
                    (#[trigger] steps_of(out@)[s]).up,
                ) == 1 && spec_op_table(steps_of(out@)[s].up) == t@.name,
            p@ == t@ ==> out@ == old(out)@,
        decreases p.constraints@.len() - b,
    {
        let nc = &p.constraints[b];
        if !has_constraint(t, nc) {
            proof {
                if p@ == t@ {
                    assert(t@.constraints[b as int] == constrs_of(p.constraints@)[b as int]);
                    assert(spec_nc_same(t@.constraints[b as int], nc@));
                    assert(false);
                }
            }
            let down = if gen_down {
                Some(Op::AddConstraint(t.name.clone(), clone_nc(nc)))
            } else {
                None
            };
            push_step(out, Op::DropConstraint(t.name.clone(), clone_nc(nc)), down, gen_down);
        }
        b = b + 1;
    }
    // columns removed
    let mut j: usize = 0;
    while j < p.columns.len()
        invariant
            j <= p.columns@.len(),
            spec_steps_wf(steps_of(out@), gen_down),
            spec_extends(steps_of(old(out)@), steps_of(out@)),
            forall|s: int|
                steps_of(old(out)@).len() <= s < steps_of(out@).len() ==> spec_op_phase(
                    (#[trigger] steps_of(out@)[s]).up,
                ) == 1 && spec_op_table(steps_of(out@)[s].up) == t@.name,
            forall|ci: int|
                0 <= ci < j && !crate::table::spec_has_col(
                    t@.columns,
                    (#[trigger] p@.columns[ci]).name,
                ) ==> spec_has_drop_column(steps_of(out@), t@.name, p@.columns[ci]),
            p@ == t@ ==> out@ == old(out)@,
        decreases p.columns@.len() - j,
    {
        let ghost col_before = steps_of(out@);
        let pc = &p.columns[j];
        if find_column(t, pc.name.as_str()).is_none() {
            proof {
                if p@ == t@ {
                    assert(t@.columns[j as int] == p@.columns[j as int]);
                    assert(t@.columns[j as int].name == pc@.name);
                    assert(false);
                }
            }
            let down = if gen_down {
                Some(Op::AddColumn(t.name.clone(), clone_column(pc)))
            } else {
                None
            };
            push_step(out, Op::DropColumn(t.name.clone(), clone_column(pc)), down, gen_down);
            proof {
                assert(steps_of(out@)[steps_of(out@).len() - 1].up == OpV::DropColumn(
                    t@.name,
                    p@.columns[j as int],
                ));
            }
        }
        proof {
            assert(spec_extends(col_before, steps_of(out@)));
            assert forall|ci: int|
                0 <= ci < j + 1 && !crate::table::spec_has_col(
                    t@.columns,
                    (#[trigger] p@.columns[ci]).name,
                ) implies spec_has_drop_column(steps_of(out@), t@.name, p@.columns[ci]) by {
                if ci < j {
                    let w = choose|w: int|
                        0 <= w < col_before.len() && col_before[w].up == OpV::DropColumn(
                            t@.name,
                            p@.columns[ci],
                        );
                    assert(steps_of(out@)[w] == col_before[w]);
                }
            }
        }
        j = j + 1;
    }
}

/// Diffs the previous schema against the current one and emits the ordered
/// migration: creations and additions in the given dependency order, then
/// column and constraint removals in the reverse of that order, then drops
/// of vanished tables in reverse registration order — all of which the
/// contract states. Diffing a schema against itself emits nothing.
pub fn diff(
    prev: &Schema,
    cur: &Schema,
    ordered: &Vec<String>,
    dialect: Dialect,
    gen_down: bool,
) -> (r: Migration)
    requires
        spec_schema_wf(prev@),
        spec_schema_wf(cur@),
        forall|k: int| 0 <= k < prev@.len() ==> crate::table::spec_distinct_col_names(
            (#[trigger] prev@[k]).columns,
        ),
        forall|a: int, b: int|
            0 <= a < b < ordered@.len() ==> seqs_of(ordered@)[a] != seqs_of(ordered@)[b],
    ensures
        spec_steps_wf(r@, gen_down),
        prev@ == cur@ ==> r@.len() == 0,
        spec_phases_ordered(r@),
        spec_creates_follow(r@, seqs_of(ordered@)),
        spec_removals_reversed(r@, seqs_of(ordered@)),
        spec_table_drops_reversed(r@, prev@),
        forall|k: int|
            0 <= k < ordered@.len() && spec_has_table(cur@, (#[trigger] ordered@[k])@)
                && !spec_has_table(prev@, ordered@[k]@) ==> spec_has_create(
                r@,
                spec_lookup(cur@, ordered@[k]@),
            ),
        forall|j: int|
            0 <= j < prev@.len() && !spec_has_table(cur@, (#[trigger] prev@[j]).name)
                ==> spec_has_drop(r@, prev@[j]),
        forall|k: int|
            0 <= k < ordered@.len() && spec_has_table(cur@, (#[trigger] ordered@[k])@)
                && spec_has_table(prev@, ordered@[k]@) ==> spec_adds_missing_columns(
                r@,
                spec_lookup(prev@, ordered@[k]@),
                spec_lookup(cur@, ordered@[k]@),
            ) && spec_drops_vanished_columns(
                r@,
                spec_lookup(prev@, ordered@[k]@),
                spec_lookup(cur@, ordered@[k]@),
            ),
{
    let mut steps: Vec<MigrationStep> = Vec::new();
    // creations and additions, in dependency order
    let mut i: usize = 0;
    while i < ordered.len()
        invariant
            i <= ordered@.len(),
            spec_schema_wf(prev@),
            spec_schema_wf(cur@),
            forall|k: int| 0 <= k < prev@.len() ==> crate::table::spec_distinct_col_names(
                (#[trigger] prev@[k]).columns,
            ),
            spec_steps_wf(steps_of(steps@), gen_down),
            prev@ == cur@ ==> steps@.len() == 0,
            forall|k: int|
                0 <= k < i && spec_has_table(cur@, (#[trigger] ordered@[k])@)
                    && !spec_has_table(prev@, ordered@[k]@) ==> spec_has_create(
                    steps_of(steps@),
                    spec_lookup(cur@, ordered@[k]@),
                ),
            forall|k: int|
                0 <= k < i && spec_has_table(cur@, (#[trigger] ordered@[k])@)
                    && spec_has_table(prev@, ordered@[k]@) ==> spec_adds_missing_columns(
                    steps_of(steps@),
                    spec_lookup(prev@, ordered@[k]@),
                    spec_lookup(cur@, ordered@[k]@),
                ),
            forall|a: int, b: int|
                0 <= a < b < ordered@.len() ==> seqs_of(ordered@)[a] != seqs_of(ordered@)[b],
            forall|s: int|
                0 <= s < steps_of(steps@).len() ==> spec_op_phase(
                    (#[trigger] steps_of(steps@)[s]).up,
                ) == 0,
            spec_creates_follow(steps_of(steps@), seqs_of(ordered@)),
            forall|s: int|
                0 <= s < steps_of(steps@).len() && (#[trigger] steps_of(steps@)[s]).up
                    is CreateTable ==> spec_name_pos(
                    seqs_of(ordered@),
                    steps_of(steps@)[s].up->CreateTable_0.name,
                ) < i,
        decreases ordered@.len() - i,
    {
        let name = &ordered[i];
        let ghost before = steps_of(steps@);
        match cur.get(name.as_str()) {
            None => {},
            Some(t) => {
                match prev.get(name.as_str()) {
                    None => {
                        proof {
                            if prev@ == cur@ {
                                assert(cur@[choose|k: int|
                                    0 <= k < cur@.len() && cur@[k].name == name@] == spec_lookup(
                                    cur@,
                                    name@,
                                ));
                                assert(spec_has_table(prev@, name@));
                                assert(false);
                            }
                        }
                        let down = if gen_down {
                            Some(Op::DropTable(clone_table(t)))
                        } else {
                            None
                        };
                        push_step(&mut steps, Op::CreateTable(clone_table(t)), down, gen_down);
                        proof {
                            assert(steps_of(steps@)[steps_of(steps@).len() - 1].up
                                == OpV::CreateTable(t@));
                            assert(t@ == spec_lookup(cur@, name@));
                            assert(spec_has_create(steps_of(steps@), spec_lookup(cur@, name@)));
                            let nm = seqs_of(ordered@);
                            assert(nm[i as int] == name@);
                            assert(t@.name == name@) by {
                                let kk = choose|kk: int|
                                    0 <= kk < cur@.len() && cur@[kk].name == name@;
                            }
                            assert(spec_name_pos(nm, name@) == i) by {
                                let kk = choose|kk: int|
                                    0 <= kk < nm.len() && nm[kk] == name@;
                                if kk < i {
                                    assert(nm[kk] != nm[i as int]);
                                } else if kk > i {
                                    assert(nm[i as int] != nm[kk]);
                                }
                            }
                        }
                    },
                    Some(pt) => {
                        proof {
                            let k = choose|k: int|
                                0 <= k < prev@.len() && prev@[k].name == name@;
                            assert(pt@ == prev@[k]);
                            assert(crate::table::spec_distinct_col_names(pt@.columns));
                            assert(pt@ == spec_lookup(prev@, name@));
                            assert(t@ == spec_lookup(cur@, name@));
                            if prev@ == cur@ {
                                assert(pt@ == t@);
                            }
                        }
                        diff_table_additions(pt, t, dialect, gen_down, &mut steps);
                        proof {
                            assert(spec_adds_missing_columns(
                                steps_of(steps@),
                                spec_lookup(prev@, name@),
                                spec_lookup(cur@, name@),
                            ));
                        }
                    },
                }
            },
        }
        proof {
            assert(spec_extends(before, steps_of(steps@)));
            assert forall|k: int|
                0 <= k < i + 1 && spec_has_table(cur@, (#[trigger] ordered@[k])@)
                    && !spec_has_table(prev@, ordered@[k]@) implies spec_has_create(
                steps_of(steps@),
                spec_lookup(cur@, ordered@[k]@),
            ) by {
                if k < i {
                    let w = choose|w: int|
                        0 <= w < before.len() && before[w].up == OpV::CreateTable(
                            spec_lookup(cur@, ordered@[k]@),
                        );
                    assert(steps_of(steps@)[w] == before[w]);
                }
            }
            assert forall|k: int|
                0 <= k < i + 1 && spec_has_table(cur@, (#[trigger] ordered@[k])@)
                    && spec_has_table(prev@, ordered@[k]@) implies spec_adds_missing_columns(
                steps_of(steps@),
                spec_lookup(prev@, ordered@[k]@),
                spec_lookup(cur@, ordered@[k]@),
            ) by {
                if k < i {
                    lemma_extends_keeps_adds(
                        before,
                        steps_of(steps@),
                        spec_lookup(prev@, ordered@[k]@),
                        spec_lookup(cur@, ordered@[k]@),
                    );
                }
            }
            let nm = seqs_of(ordered@);
            assert forall|s: int|
                0 <= s < steps_of(steps@).len() implies spec_op_phase(
                (#[trigger] steps_of(steps@)[s]).up,
            ) == 0 by {
                if s < before.len() {
                    assert(steps_of(steps@)[s] == before[s]);
                }
            }
            assert forall|s: int|
                0 <= s < steps_of(steps@).len() && (#[trigger] steps_of(steps@)[s]).up
                    is CreateTable implies {
                let pp = spec_name_pos(nm, steps_of(steps@)[s].up->CreateTable_0.name);
                0 <= pp < i + 1 && pp < nm.len() && nm[pp] == steps_of(
                    steps@,
                )[s].up->CreateTable_0.name
            } by {
                if s < before.len() {
                    assert(steps_of(steps@)[s] == before[s]);
                }
            }
            assert forall|s1: int, s2: int|
                0 <= s1 < s2 < steps_of(steps@).len() && (#[trigger] steps_of(steps@)[s1]).up
                    is CreateTable && (#[trigger] steps_of(steps@)[s2]).up
                    is CreateTable implies spec_name_pos(
                nm,
                steps_of(steps@)[s1].up->CreateTable_0.name,
            ) < spec_name_pos(nm, steps_of(steps@)[s2].up->CreateTable_0.name) by {
                assert(steps_of(steps@)[s1] == before[s1]);
                if s2 < before.len() {
                    assert(steps_of(steps@)[s2] == before[s2]);
                }
            }
            assert(spec_creates_follow(steps_of(steps@), nm));
        }
        i = i + 1;
    }
    // removals inside kept tables, in reverse dependency order
    let mut r: usize = ordered.len();
    while r > 0
        invariant
            r <= ordered@.len(),
            spec_schema_wf(prev@),
            spec_schema_wf(cur@),
            spec_steps_wf(steps_of(steps@), gen_down),
            prev@ == cur@ ==> steps@.len() == 0,
            forall|k: int|
                0 <= k < ordered@.len() && spec_has_table(cur@, (#[trigger] ordered@[k])@)
                    && !spec_has_table(prev@, ordered@[k]@) ==> spec_has_create(
                    steps_of(steps@),
                    spec_lookup(cur@, ordered@[k]@),
                ),
            forall|k: int|
                0 <= k < ordered@.len() && spec_has_table(cur@, (#[trigger] ordered@[k])@)
                    && spec_has_table(prev@, ordered@[k]@) ==> spec_adds_missing_columns(
                    steps_of(steps@),
                    spec_lookup(prev@, ordered@[k]@),
                    spec_lookup(cur@, ordered@[k]@),
                ),
            forall|k: int|
                r <= k < ordered@.len() && spec_has_table(cur@, (#[trigger] ordered@[k])@)
                    && spec_has_table(prev@, ordered@[k]@) ==> spec_drops_vanished_columns(
                    steps_of(steps@),
                    spec_lookup(prev@, ordered@[k]@),
                    spec_lookup(cur@, ordered@[k]@),
                ),
            spec_phases_ordered(steps_of(steps@)),
            forall|s: int|
                0 <= s < steps_of(steps@).len() ==> spec_op_phase(
                    (#[trigger] steps_of(steps@)[s]).up,
                ) <= 1,
            spec_creates_follow(steps_of(steps@), seqs_of(ordered@)),
            forall|a: int, b: int|
                0 <= a < b < ordered@.len() ==> seqs_of(ordered@)[a] != seqs_of(ordered@)[b],
            forall|s: int|
                0 <= s < steps_of(steps@).len() && spec_op_phase(
                    (#[trigger] steps_of(steps@)[s]).up,
                ) == 1 ==> {
                    let pp = spec_name_pos(
                        seqs_of(ordered@),
                        spec_op_table(steps_of(steps@)[s].up),
                    );
                    r <= pp < ordered@.len() && seqs_of(ordered@)[pp] == spec_op_table(
                        steps_of(steps@)[s].up,
                    )
                },
            forall|s1: int, s2: int|
                0 <= s1 < s2 < steps_of(steps@).len() && spec_op_phase(
                    (#[trigger] steps_of(steps@)[s1]).up,
                ) == 1 && spec_op_phase((#[trigger] steps_of(steps@)[s2]).up) == 1
                    ==> spec_name_pos(
                    seqs_of(ordered@),
                    spec_op_table(steps_of(steps@)[s1].up),
                ) >= spec_name_pos(seqs_of(ordered@), spec_op_table(steps_of(steps@)[s2].up)),
        decreases r,
    {
        r = r - 1;
        let name = &ordered[r];
        let ghost before = steps_of(steps@);
        match cur.get(name.as_str()) {
            None => {},
            Some(t) => {
                match prev.get(name.as_str()) {
                    None => {},
                    Some(pt) => {
                        proof {
                            assert(pt@ == spec_lookup(prev@, name@));
                            assert(t@ == spec_lookup(cur@, name@));
                            if prev@ == cur@ {
                                assert(pt@ == t@);
                            }
                        }
                        diff_table_removals(pt, t, gen_down, &mut steps);
                        proof {
                            assert(spec_drops_vanished_columns(
                                steps_of(steps@),
                                spec_lookup(prev@, name@),
                                spec_lookup(cur@, name@),
                            ));
                            let nm = seqs_of(ordered@);
                            assert(t@.name == name@) by {
                                let kk = choose|kk: int|
                                    0 <= kk < cur@.len() && cur@[kk].name == name@;
                            }
                            assert(nm[r as int] == name@);
                            assert(spec_name_pos(nm, name@) == r) by {
                                let kk = choose|kk: int|
                                    0 <= kk < nm.len() && nm[kk] == name@;
                                if kk < r {
                                    assert(nm[kk] != nm[r as int]);
                                } else if kk > r {
                                    assert(nm[r as int] != nm[kk]);
                                }
                            }
                            assert forall|s: int|
                                before.len() <= s < steps_of(steps@).len() implies spec_op_phase(
                                (#[trigger] steps_of(steps@)[s]).up,
                            ) == 1 && spec_op_table(steps_of(steps@)[s].up) == name@ by {}
                        }
                    },
                }
            },
        }
        proof {
            assert(spec_extends(before, steps_of(steps@)));
            assert forall|k: int|
                0 <= k < ordered@.len() && spec_has_table(cur@, (#[trigger] ordered@[k])@)
                    && !spec_has_table(prev@, ordered@[k]@) implies spec_has_create(
                steps_of(steps@),
                spec_lookup(cur@, ordered@[k]@),
            ) by {
                let w = choose|w: int|
                    0 <= w < before.len() && before[w].up == OpV::CreateTable(
                        spec_lookup(cur@, ordered@[k]@),
                    );
                assert(steps_of(steps@)[w] == before[w]);
            }
            assert forall|k: int|
                0 <= k < ordered@.len() && spec_has_table(cur@, (#[trigger] ordered@[k])@)
                    && spec_has_table(prev@, ordered@[k]@) implies spec_adds_missing_columns(
                steps_of(steps@),
                spec_lookup(prev@, ordered@[k]@),
                spec_lookup(cur@, ordered@[k]@),
            ) by {
                lemma_extends_keeps_adds(
                    before,
                    steps_of(steps@),
                    spec_lookup(prev@, ordered@[k]@),
                    spec_lookup(cur@, ordered@[k]@),
                );
            }
            assert forall|k: int|
                r <= k < ordered@.len() && spec_has_table(cur@, (#[trigger] ordered@[k])@)
                    && spec_has_table(prev@, ordered@[k]@) implies spec_drops_vanished_columns(
                steps_of(steps@),
                spec_lookup(prev@, ordered@[k]@),
                spec_lookup(cur@, ordered@[k]@),
            ) by {
                if k > r {
                    lemma_extends_keeps_drops(
                        before,
                        steps_of(steps@),
                        spec_lookup(prev@, ordered@[k]@),
                        spec_lookup(cur@, ordered@[k]@),
                    );
                }
            }
            let nm = seqs_of(ordered@);
            assert forall|s: int|
                0 <= s < steps_of(steps@).len() implies spec_op_phase(
                (#[trigger] steps_of(steps@)[s]).up,
            ) <= 1 by {
                if s < before.len() {
                    assert(steps_of(steps@)[s] == before[s]);
                }
            }
            assert forall|s1: int, s2: int|
                0 <= s1 < s2 < steps_of(steps@).len() implies spec_op_phase(
                #[trigger] steps_of(steps@)[s1].up,
            ) <= spec_op_phase(#[trigger] steps_of(steps@)[s2].up) by {
                if s1 < before.len() {
                    assert(steps_of(steps@)[s1] == before[s1]);
                }
                if s2 < before.len() {
                    assert(steps_of(steps@)[s2] == before[s2]);
                }
            }
            assert forall|s: int|
                0 <= s < steps_of(steps@).len() && (#[trigger] steps_of(steps@)[s]).up
                    is CreateTable implies {
                let pp = spec_name_pos(nm, steps_of(steps@)[s].up->CreateTable_0.name);
                0 <= pp < nm.len() && nm[pp] == steps_of(steps@)[s].up->CreateTable_0.name
            } by {
                if s < before.len() {
                    assert(steps_of(steps@)[s] == before[s]);
                }
            }
            assert forall|s1: int, s2: int|
                0 <= s1 < s2 < steps_of(steps@).len() && (#[trigger] steps_of(steps@)[s1]).up
                    is CreateTable && (#[trigger] steps_of(steps@)[s2]).up
                    is CreateTable implies spec_name_pos(
                nm,
                steps_of(steps@)[s1].up->CreateTable_0.name,
            ) < spec_name_pos(nm, steps_of(steps@)[s2].up->CreateTable_0.name) by {
                assert(steps_of(steps@)[s1] == before[s1]);
                if s2 < before.len() {
                    assert(steps_of(steps@)[s2] == before[s2]);
                }
            }
            assert(spec_creates_follow(steps_of(steps@), nm));
            assert forall|s: int|
                0 <= s < steps_of(steps@).len() && spec_op_phase(
                (#[trigger] steps_of(steps@)[s]).up,
            ) == 1 implies {
                let pp = spec_name_pos(nm, spec_op_table(steps_of(steps@)[s].up));
                r <= pp < ordered@.len() && nm[pp] == spec_op_table(steps_of(steps@)[s].up)
            } by {
                if s < before.len() {
                    assert(steps_of(steps@)[s] == before[s]);
                }
            }
            assert forall|s1: int, s2: int|
                0 <= s1 < s2 < steps_of(steps@).len() && spec_op_phase(
                (#[trigger] steps_of(steps@)[s1]).up,
            ) == 1 && spec_op_phase((#[trigger] steps_of(steps@)[s2]).up) == 1
                implies spec_name_pos(nm, spec_op_table(steps_of(steps@)[s1].up))
                >= spec_name_pos(nm, spec_op_table(steps_of(steps@)[s2].up)) by {
                if s1 < before.len() {
                    assert(steps_of(steps@)[s1] == before[s1]);
                }
                if s2 < before.len() {
                    assert(steps_of(steps@)[s2] == before[s2]);
                }
            }
        }
    }
    // vanished tables are dropped in reverse registration order
    let mut j: usize = prev.tables.len();
    while j > 0
        invariant
            j <= prev.tables@.len(),
            spec_schema_wf(prev@),
            spec_schema_wf(cur@),
            spec_steps_wf(steps_of(steps@), gen_down),
            prev@ == cur@ ==> steps@.len() == 0,
            forall|k: int|
                0 <= k < ordered@.len() && spec_has_table(cur@, (#[trigger] ordered@[k])@)
                    && !spec_has_table(prev@, ordered@[k]@) ==> spec_has_create(
                    steps_of(steps@),
                    spec_lookup(cur@, ordered@[k]@),
                ),
            forall|k: int|
                0 <= k < ordered@.len() && spec_has_table(cur@, (#[trigger] ordered@[k])@)
                    && spec_has_table(prev@, ordered@[k]@) ==> spec_adds_missing_columns(
                    steps_of(steps@),
                    spec_lookup(prev@, ordered@[k]@),
                    spec_lookup(cur@, ordered@[k]@),
                ) && spec_drops_vanished_columns(
                    steps_of(steps@),
                    spec_lookup(prev@, ordered@[k]@),
                    spec_lookup(cur@, ordered@[k]@),
                ),
            forall|jj: int|
                j <= jj < prev@.len() && !spec_has_table(cur@, (#[trigger] prev@[jj]).name)
                    ==> spec_has_drop(steps_of(steps@), prev@[jj]),
            spec_phases_ordered(steps_of(steps@)),
            spec_creates_follow(steps_of(steps@), seqs_of(ordered@)),
            spec_removals_reversed(steps_of(steps@), seqs_of(ordered@)),
            forall|s: int|
                0 <= s < steps_of(steps@).len() && (#[trigger] steps_of(steps@)[s]).up
                    is DropTable ==> {
                    let pp = spec_name_pos(
                        spec_tnames(prev@),
                        steps_of(steps@)[s].up->DropTable_0.name,
                    );
                    j <= pp < prev@.len() && spec_tnames(prev@)[pp] == steps_of(
                        steps@,
                    )[s].up->DropTable_0.name
                },
            forall|s1: int, s2: int|
                0 <= s1 < s2 < steps_of(steps@).len() && (#[trigger] steps_of(steps@)[s1]).up
                    is DropTable && (#[trigger] steps_of(steps@)[s2]).up is DropTable
                    ==> spec_name_pos(
                    spec_tnames(prev@),
                    steps_of(steps@)[s1].up->DropTable_0.name,
                ) > spec_name_pos(spec_tnames(prev@), steps_of(steps@)[s2].up->DropTable_0.name),
        decreases j,
    {
        j = j - 1;
        let pt = &prev.tables[j];
        let ghost before = steps_of(steps@);
        if cur.find(pt.name.as_str()).is_none() {
            proof {
                if prev@ == cur@ {
                    assert(prev@[j as int].name == pt@.name);
                    assert(spec_has_table(cur@, pt@.name));
                    assert(false);
                }
            }
            let down = if gen_down {
                Some(Op::CreateTable(clone_table(pt)))
            } else {
                None
            };
            push_step(&mut steps, Op::DropTable(clone_table(pt)), down, gen_down);
            proof {
                assert(steps_of(steps@)[steps_of(steps@).len() - 1].up == OpV::DropTable(
                    prev@[j as int],
                ));
                let tn = spec_tnames(prev@);
                assert(tn[j as int] == prev@[j as int].name);
                assert(spec_name_pos(tn, prev@[j as int].name) == j) by {
                    let kk = choose|kk: int|
                        0 <= kk < tn.len() && tn[kk] == prev@[j as int].name;
                    assert(tn[kk] == prev@[kk].name);
                    if kk < j {
                        assert(prev@[kk].name != prev@[j as int].name);
                    } else if kk > j {
                        assert(prev@[j as int].name != prev@[kk].name);
                    }
                }
            }
        }
        proof {
            assert(spec_extends(before, steps_of(steps@)));
            assert forall|k: int|
                0 <= k < ordered@.len() && spec_has_table(cur@, (#[trigger] ordered@[k])@)
                    && !spec_has_table(prev@, ordered@[k]@) implies spec_has_create(
                steps_of(steps@),
                spec_lookup(cur@, ordered@[k]@),
            ) by {
                let w = choose|w: int|
                    0 <= w < before.len() && before[w].up == OpV::CreateTable(
                        spec_lookup(cur@, ordered@[k]@),
                    );
                assert(steps_of(steps@)[w] == before[w]);
            }
            assert forall|jj: int|
                j <= jj < prev@.len() && !spec_has_table(cur@, (#[trigger] prev@[jj]).name)
                    implies spec_has_drop(steps_of(steps@), prev@[jj]) by {
                if jj > j {
                    let w = choose|w: int|
                        0 <= w < before.len() && before[w].up == OpV::DropTable(prev@[jj]);
                    assert(steps_of(steps@)[w] == before[w]);
                }
            }
            assert forall|k: int|
                0 <= k < ordered@.len() && spec_has_table(cur@, (#[trigger] ordered@[k])@)
                    && spec_has_table(prev@, ordered@[k]@) implies spec_adds_missing_columns(
                steps_of(steps@),
                spec_lookup(prev@, ordered@[k]@),
                spec_lookup(cur@, ordered@[k]@),
            ) && spec_drops_vanished_columns(
                steps_of(steps@),
                spec_lookup(prev@, ordered@[k]@),
                spec_lookup(cur@, ordered@[k]@),
            ) by {
                lemma_extends_keeps_adds(
                    before,
                    steps_of(steps@),
                    spec_lookup(prev@, ordered@[k]@),
                    spec_lookup(cur@, ordered@[k]@),
                );
                lemma_extends_keeps_drops(
                    before,
                    steps_of(steps@),
                    spec_lookup(prev@, ordered@[k]@),
                    spec_lookup(cur@, ordered@[k]@),
                );
            }
            let nm = seqs_of(ordered@);
            let tn = spec_tnames(prev@);
            assert forall|s1: int, s2: int|
                0 <= s1 < s2 < steps_of(steps@).len() implies spec_op_phase(
                #[trigger] steps_of(steps@)[s1].up,
            ) <= spec_op_phase(#[trigger] steps_of(steps@)[s2].up) by {
                if s1 < before.len() {
                    assert(steps_of(steps@)[s1] == before[s1]);
                }
                if s2 < before.len() {
                    assert(steps_of(steps@)[s2] == before[s2]);
                }
            }
            assert forall|s: int|
                0 <= s < steps_of(steps@).len() && (#[trigger] steps_of(steps@)[s]).up
                    is CreateTable implies {
                let pp = spec_name_pos(nm, steps_of(steps@)[s].up->CreateTable_0.name);
                0 <= pp < nm.len() && nm[pp] == steps_of(steps@)[s].up->CreateTable_0.name
            } by {
                if s < before.len() {
                    assert(steps_of(steps@)[s] == before[s]);
                }
            }
            assert forall|s1: int, s2: int|
                0 <= s1 < s2 < steps_of(steps@).len() && (#[trigger] steps_of(steps@)[s1]).up
                    is CreateTable && (#[trigger] steps_of(steps@)[s2]).up
                    is CreateTable implies spec_name_pos(
                nm,
                steps_of(steps@)[s1].up->CreateTable_0.name,
            ) < spec_name_pos(nm, steps_of(steps@)[s2].up->CreateTable_0.name) by {
                assert(steps_of(steps@)[s1] == before[s1]);
                if s2 < before.len() {
                    assert(steps_of(steps@)[s2] == before[s2]);
                }
            }
            assert(spec_creates_follow(steps_of(steps@), nm));
            assert forall|s: int|
                0 <= s < steps_of(steps@).len() && spec_op_phase(
                (#[trigger] steps_of(steps@)[s]).up,
            ) == 1 implies {
                let pp = spec_name_pos(nm, spec_op_table(steps_of(steps@)[s].up));
                0 <= pp < nm.len() && nm[pp] == spec_op_table(steps_of(steps@)[s].up)
            } by {
                if s < before.len() {
                    assert(steps_of(steps@)[s] == before[s]);
                }
            }
            assert forall|s1: int, s2: int|
                0 <= s1 < s2 < steps_of(steps@).len() && spec_op_phase(
                (#[trigger] steps_of(steps@)[s1]).up,
            ) == 1 && spec_op_phase((#[trigger] steps_of(steps@)[s2]).up) == 1
                implies spec_name_pos(nm, spec_op_table(steps_of(steps@)[s1].up))
                >= spec_name_pos(nm, spec_op_table(steps_of(steps@)[s2].up)) by {
                if s1 < before.len() {
                    assert(steps_of(steps@)[s1] == before[s1]);
                }
                if s2 < before.len() {
                    assert(steps_of(steps@)[s2] == before[s2]);
                }
            }
            assert(spec_removals_reversed(steps_of(steps@), nm));
            assert forall|s: int|
                0 <= s < steps_of(steps@).len() && (#[trigger] steps_of(steps@)[s]).up
                    is DropTable implies {
                let pp = spec_name_pos(tn, steps_of(steps@)[s].up->DropTable_0.name);
                j <= pp < prev@.len() && tn[pp] == steps_of(steps@)[s].up->DropTable_0.name
            } by {
                if s < before.len() {
                    assert(steps_of(steps@)[s] == before[s]);
                }
            }
            assert forall|s1: int, s2: int|
                0 <= s1 < s2 < steps_of(steps@).len() && (#[trigger] steps_of(steps@)[s1]).up
                    is DropTable && (#[trigger] steps_of(steps@)[s2]).up
                    is DropTable implies spec_name_pos(
                tn,
                steps_of(steps@)[s1].up->DropTable_0.name,
            ) > spec_name_pos(tn, steps_of(steps@)[s2].up->DropTable_0.name) by {
                assert(steps_of(steps@)[s1] == before[s1]);
                if s2 < before.len() {
                    assert(steps_of(steps@)[s2] == before[s2]);
                }
            }
        }
    }
    Migration { steps }
}


/// The statement that creates a table with all its columns, in declaration
/// order.
pub open spec fn spec_create_table_sql(t: TableV) -> Seq<char> {
    "CREATE TABLE "@ + t.name + " ("@ + joined(t.columns.map_values(|c: ColumnV| spec_column_sql(c)))
        + ");"@
}

/// The statement that adds one named constraint to a table.
pub open spec fn spec_add_constraint_sql(tn: Seq<char>, nc: crate::constraint::NamedConstraintV) -> Seq<
    char,
> {
    "ALTER TABLE "@ + tn + " ADD "@ + crate::constraint::spec_named_sql(nc, tn) + ";"@
}

/// The statement that drops one named constraint by its derived name.
pub open spec fn spec_drop_constraint_sql(tn: Seq<char>, nc: crate::constraint::NamedConstraintV) -> Seq<
    char,
> {
    "ALTER TABLE "@ + tn + " DROP CONSTRAINT "@ + spec_derived_name(nc, tn) + ";"@
}

/// The ordered statements one operation renders to. A table creation yields
/// the `CREATE TABLE` statement followed by one constraint addition per
/// constraint; a column replacement yields a drop and an add.
pub open spec fn spec_op_stmts(op: OpV) -> Seq<Seq<char>> {
    match op {
        OpV::CreateTable(t) => seq![spec_create_table_sql(t)] + t.constraints.map_values(
            |nc: crate::constraint::NamedConstraintV| spec_add_constraint_sql(t.name, nc),
        ),
        OpV::DropTable(t) => seq!["DROP TABLE "@ + t.name + ";"@],
        OpV::AddColumn(tn, c) => seq![
            "ALTER TABLE "@ + tn + " ADD COLUMN "@ + spec_column_sql(c) + ";"@,
        ],
        OpV::DropColumn(tn, c) => seq!["ALTER TABLE "@ + tn + " DROP COLUMN "@ + c.name + ";"@],
        OpV::ReplaceColumn(tn, o, n, _mv) => seq![
            "ALTER TABLE "@ + tn + " DROP COLUMN "@ + o.name + ";"@,
            "ALTER TABLE "@ + tn + " ADD COLUMN "@ + spec_column_sql(n) + ";"@,
        ],
        OpV::AddConstraint(tn, nc) => seq![spec_add_constraint_sql(tn, nc)],
        OpV::DropConstraint(tn, nc) => seq![spec_drop_constraint_sql(tn, nc)],
    }
}

/// Appends every statement of `src` to `dst`.
fn append_all(dst: &mut Vec<String>, src: Vec<String>)
    ensures
        seqs_of(final(dst)@) == seqs_of(old(dst)@) + seqs_of(src@),
{
    let mut i: usize = 0;
    let n = src.len();
    let mut src = src;
    while i < n
        invariant
            n == src@.len(),
            i <= n,
            dst@.len() == old(dst)@.len() + i,
            seqs_of(dst@) =~~= seqs_of(old(dst)@) + seqs_of(src@.take(i as int)),
        decreases n - i,
    {
        let ghost prev = dst@;
        dst.push(src[i].clone());
        proof {
            let rhs = seqs_of(old(dst)@) + seqs_of(src@.take(i + 1));
            assert forall|k: int| 0 <= k < dst@.len() implies seqs_of(dst@)[k] == rhs[k] by {
                assert(seqs_of(dst@)[k] == dst@[k]@);
                if k < prev.len() {
                    assert(dst@[k] == prev[k]);
                    assert(seqs_of(prev)[k] == (seqs_of(old(dst)@) + seqs_of(
                        src@.take(i as int),
                    ))[k]);
                    if k >= old(dst)@.len() {
                        assert(seqs_of(src@.take(i as int))[k - old(dst)@.len()] == src@.take(
                            i as int,
                        )[k - old(dst)@.len()]@);
                        assert(src@.take(i as int)[k - old(dst)@.len()] == src@.take(
                            i + 1,
                        )[k - old(dst)@.len()]);
                    }
                } else {
                    assert(dst@[k]@ == src@[i as int]@);
                    assert(rhs[k] == seqs_of(src@.take(i + 1))[k - old(dst)@.len()]);
                    assert(src@.take(i + 1)[k - old(dst)@.len()] == src@[i as int]);
                }
            }
            assert(seqs_of(dst@) =~~= rhs);
        }
        i = i + 1;
    }
    proof {
        assert(src@.take(n as int) =~= src@);
        assert(seqs_of(dst@) =~~= seqs_of(old(dst)@) + seqs_of(src@));
    }
}

impl Op {
    /// Renders the operation as its ordered SQL statements.
    pub fn render(&self) -> (r: Vec<String>)
        ensures
            seqs_of(r@) == spec_op_stmts(self@),
    {
        let mut out: Vec<String> = Vec::new();
        match self {
            Op::CreateTable(t) => {
                let mut stmt = String::from_str("CREATE TABLE ");
                stmt.append(t.name.as_str());
                stmt.append(" (");
                let mut col_texts: Vec<String> = Vec::new();
                let mut i: usize = 0;
                while i < t.columns.len()
                    invariant
                        i <= t.columns@.len(),
                        col_texts@.len() == i,
                        seqs_of(col_texts@) =~~= cols_of(t.columns@).take(i as int).map_values(
                            |c: ColumnV| spec_column_sql(c),
                        ),
                    decreases t.columns@.len() - i,
                {
                    let ghost prevc = col_texts@;
                    col_texts.push(t.columns[i].render());
                    proof {
                        let f = |c: ColumnV| spec_column_sql(c);
                        let rhs = cols_of(t.columns@).take(i + 1).map_values(f);
                        assert forall|k: int|
                            0 <= k < col_texts@.len() implies seqs_of(col_texts@)[k] == rhs[k] by {
                            assert(seqs_of(col_texts@)[k] == col_texts@[k]@);
                            assert(rhs[k] == f(cols_of(t.columns@).take(i + 1)[k]));
                            assert(cols_of(t.columns@).take(i + 1)[k] == cols_of(t.columns@)[k]);
                            if k < i {
                                assert(col_texts@[k] == prevc[k]);
                                assert(seqs_of(prevc)[k] == cols_of(t.columns@).take(
                                    i as int,
                                ).map_values(f)[k]);
                                assert(cols_of(t.columns@).take(i as int)[k] == cols_of(
                                    t.columns@,
                                )[k]);
                            } else {
                                assert(col_texts@[k]@ == spec_column_sql(
                                    cols_of(t.columns@)[i as int],
                                ));
                            }
                        }
                        assert(seqs_of(col_texts@) =~~= rhs);
                    }
                    i = i + 1;
                }
                proof {
                    assert(cols_of(t.columns@).take(t.columns@.len() as int) =~= cols_of(
                        t.columns@,
                    ));
                }
                crate::error::append_joined(&mut stmt, &col_texts);
                stmt.append(");");
                proof {
                    assert(stmt@ =~= spec_create_table_sql(t@));
                }
                out.push(stmt);
                proof {
                    assert(seqs_of(out@) =~~= seq![spec_create_table_sql(t@)]);
                }
                let mut j: usize = 0;
                while j < t.constraints.len()
                    invariant
                        j <= t.constraints@.len(),
                        out@.len() == j + 1,
                        seqs_of(out@) =~~= seq![spec_create_table_sql(t@)] + constrs_of(
                            t.constraints@,
                        ).take(j as int).map_values(
                            |nc: crate::constraint::NamedConstraintV|
                                spec_add_constraint_sql(t@.name, nc),
                        ),
                    decreases t.constraints@.len() - j,
                {
                    let mut stmt2 = String::from_str("ALTER TABLE ");
                    stmt2.append(t.name.as_str());
                    stmt2.append(" ADD ");
                    let clause = t.constraints[j].into_tokens(t.name.as_str());
                    stmt2.append(clause.as_str());
                    stmt2.append(";");
                    proof {
                        assert(stmt2@ =~= spec_add_constraint_sql(
                            t@.name,
                            constrs_of(t.constraints@)[j as int],
                        ));
                    }
                    let ghost prevo = out@;
                    out.push(stmt2);
                    proof {
                        let f = |nc: crate::constraint::NamedConstraintV|
                            spec_add_constraint_sql(t@.name, nc);
                        let rhs = seq![spec_create_table_sql(t@)] + constrs_of(
                            t.constraints@,
                        ).take(j + 1).map_values(f);
                        assert forall|k: int|
                            0 <= k < out@.len() implies seqs_of(out@)[k] == rhs[k] by {
                            assert(seqs_of(out@)[k] == out@[k]@);
                            if k < j + 1 {
                                assert(out@[k] == prevo[k]);
                                assert(seqs_of(prevo)[k] == (seq![spec_create_table_sql(t@)]
                                    + constrs_of(t.constraints@).take(j as int).map_values(f))[k]);
                                if k >= 1 {
                                    assert(constrs_of(t.constraints@).take(j as int).map_values(
                                        f,
                                    )[k - 1] == f(constrs_of(t.constraints@).take(j as int)[k - 1]));
                                    assert(constrs_of(t.constraints@).take(j as int)[k - 1]
                                        == constrs_of(t.constraints@)[k - 1]);
                                    assert(rhs[k] == f(constrs_of(t.constraints@).take(j + 1)[k
                                        - 1]));
                                    assert(constrs_of(t.constraints@).take(j + 1)[k - 1]
                                        == constrs_of(t.constraints@)[k - 1]);
                                }
                            } else {
                                assert(out@[k]@ == spec_add_constraint_sql(
                                    t@.name,
                                    constrs_of(t.constraints@)[j as int],
                                ));
                                assert(rhs[k] == f(constrs_of(t.constraints@).take(j + 1)[j as int]));
                                assert(constrs_of(t.constraints@).take(j + 1)[j as int]
                                    == constrs_of(t.constraints@)[j as int]);
                            }
                        }
                        assert(seqs_of(out@) =~~= rhs);
                    }
                    j = j + 1;
                }
                proof {
                    assert(constrs_of(t.constraints@).take(t.constraints@.len() as int)
                        =~= constrs_of(t.constraints@));
                    assert(seqs_of(out@) =~~= spec_op_stmts(self@));
                }
            },
            Op::DropTable(t) => {
                let mut stmt = String::from_str("DROP TABLE ");
                stmt.append(t.name.as_str());
                stmt.append(";");
                out.push(stmt);
                proof {
                    assert(seqs_of(out@) =~~= spec_op_stmts(self@));
                }
            },
            Op::AddColumn(tn, c) => {
                let mut stmt = String::from_str("ALTER TABLE ");
                stmt.append(tn.as_str());
                stmt.append(" ADD COLUMN ");
                let col = c.render();
                stmt.append(col.as_str());
                stmt.append(";");
                out.push(stmt);
                proof {
                    assert(seqs_of(out@) =~~= spec_op_stmts(self@));
                }
            },
            Op::DropColumn(tn, c) => {
                let mut stmt = String::from_str("ALTER TABLE ");
                stmt.append(tn.as_str());
                stmt.append(" DROP COLUMN ");
                stmt.append(c.name.as_str());
                stmt.append(";");
                out.push(stmt);
                proof {
                    assert(seqs_of(out@) =~~= spec_op_stmts(self@));
                }
            },
            Op::ReplaceColumn(tn, o, n, _mv) => {
                let mut stmt = String::from_str("ALTER TABLE ");
                stmt.append(tn.as_str());
                stmt.append(" DROP COLUMN ");
                stmt.append(o.name.as_str());
                stmt.append(";");
                out.push(stmt);
                let mut stmt2 = String::from_str("ALTER TABLE ");
                stmt2.append(tn.as_str());
                stmt2.append(" ADD COLUMN ");
                let col = n.render();
                stmt2.append(col.as_str());
                stmt2.append(";");
                out.push(stmt2);
                proof {
                    assert(seqs_of(out@) =~~= spec_op_stmts(self@));
                }
            },
            Op::AddConstraint(tn, nc) => {
                let mut stmt = String::from_str("ALTER TABLE ");
                stmt.append(tn.as_str());
                stmt.append(" ADD ");
                let clause = nc.into_tokens(tn.as_str());
                stmt.append(clause.as_str());
                stmt.append(";");
                out.push(stmt);
                proof {
                    assert(seqs_of(out@) =~~= spec_op_stmts(self@));
                }
            },
            Op::DropConstraint(tn, nc) => {
                let mut stmt = String::from_str("ALTER TABLE ");
                stmt.append(tn.as_str());
                stmt.append(" DROP CONSTRAINT ");
                let dn = nc.derived_name(tn.as_str());
                stmt.append(dn.as_str());
                stmt.append(";");
                out.push(stmt);
                proof {
                    assert(seqs_of(out@) =~~= spec_op_stmts(self@));
                }
            },
        }
        out
    }
}

/// The forward statements of the steps, in order.
pub open spec fn spec_up_stmts(steps: Seq<StepV>) -> Seq<Seq<char>>
    decreases steps.len(),
{
    if steps.len() == 0 {
        Seq::empty()
    } else {
        spec_up_stmts(steps.drop_last()) + spec_op_stmts(steps.last().up)
    }
}

/// The inverse statements of the steps, from the last step back to the
/// first; steps without an inverse contribute nothing.
pub open spec fn spec_down_stmts_from(steps: Seq<StepV>, j: int) -> Seq<Seq<char>>
    decreases steps.len() - j,
{
    if j < 0 || j >= steps.len() {
        Seq::empty()
    } else {
        spec_down_stmts_from(steps, j + 1) + (match steps[j].down {
            Some(op) => spec_op_stmts(op),
            None => Seq::empty(),
        })
    }
}

impl Migration {
    /// The ordered forward statements of the whole migration.
    pub fn up_sql(&self) -> (r: Vec<String>)
        ensures
            seqs_of(r@) == spec_up_stmts(self@),
    {
        let mut out: Vec<String> = Vec::new();
        let mut i: usize = 0;
        while i < self.steps.len()
            invariant
                i <= self.steps@.len(),
                seqs_of(out@) =~~= spec_up_stmts(steps_of(self.steps@).take(i as int)),
            decreases self.steps@.len() - i,
        {
            let stmts = self.steps[i].up.render();
            append_all(&mut out, stmts);
            proof {
                let t1 = steps_of(self.steps@).take(i + 1);
                assert(t1.drop_last() =~~= steps_of(self.steps@).take(i as int));
                assert(t1.last() == steps_of(self.steps@)[i as int]);
                assert(seqs_of(out@) =~~= spec_up_stmts(t1));
            }
            i = i + 1;
        }
        proof {
            assert(steps_of(self.steps@).take(self.steps@.len() as int) =~~= steps_of(
                self.steps@,
            ));
        }
        out
    }

    /// The ordered inverse statements: the last step's inverse first, so a
    /// rollback undoes work in reverse; empty when no inverses were
    /// generated.
    pub fn down_sql(&self) -> (r: Vec<String>)
        ensures
            seqs_of(r@) == spec_down_stmts_from(self@, 0),
    {
        let mut out: Vec<String> = Vec::new();
        let mut j: usize = self.steps.len();
        while j > 0
            invariant
                j <= self.steps@.len(),
                seqs_of(out@) =~~= spec_down_stmts_from(steps_of(self.steps@), j as int),
            decreases j,
        {
            j = j - 1;
            match &self.steps[j].down {
                Some(op) => {
                    let stmts = op.render();
                    append_all(&mut out, stmts);
                    proof {
                        assert(steps_of(self.steps@)[j as int].down == Some(op@));
                        assert(seqs_of(out@) =~~= spec_down_stmts_from(
                            steps_of(self.steps@),
                            j as int,
                        ));
                    }
                },
                None => {
                    proof {
                        assert(steps_of(self.steps@)[j as int].down is None);
                        assert(seqs_of(out@) =~~= spec_down_stmts_from(
                            steps_of(self.steps@),
                            j as int,
                        ));
                    }
                },
            }
        }
        out
    }

    /// How many steps the migration holds.
    pub fn len(&self) -> (r: usize)
        ensures
            r == self@.len(),
    {
        self.steps.len()
    }
}


/// A table's column multiset after one column operation: additions insert,
/// drops remove one occurrence, replacements exchange the old definition for
/// the new one. Other operations leave columns alone.
pub open spec fn spec_apply_col_op(cols: Multiset<ColumnV>, op: OpV) -> Multiset<ColumnV> {
    match op {
        OpV::AddColumn(_, c) => cols.insert(c),
        OpV::DropColumn(_, c) => cols.remove(c),
        OpV::ReplaceColumn(_, o, n, _) => cols.remove(o).insert(n),
        _ => cols,
    }
}

/// A table's constraint multiset after one constraint operation.
pub open spec fn spec_apply_constr_op(
    cs: Multiset<crate::constraint::NamedConstraintV>,
    op: OpV,
) -> Multiset<crate::constraint::NamedConstraintV> {
    match op {
        OpV::AddConstraint(_, nc) => cs.insert(nc),
        OpV::DropConstraint(_, nc) => cs.remove(nc),
        _ => cs,
    }
}

/// A schema's table multiset after one table operation.
pub open spec fn spec_apply_table_op(ts: Multiset<TableV>, op: OpV) -> Multiset<TableV> {
    match op {
        OpV::CreateTable(t) => ts.insert(t),
        OpV::DropTable(t) => ts.remove(t),
        _ => ts,
    }
}

/// Law of inversion for columns: applying a forward operation and then its
/// structural inverse returns a table's column multiset to what it was,
/// provided a dropped or replaced column was present.
pub proof fn lemma_down_restores_columns(cols: Multiset<ColumnV>, up: OpV, down: OpV)
    requires
        spec_op_inverse(up, down),
        up matches OpV::DropColumn(_, c) ==> cols.count(c) > 0,
        up matches OpV::ReplaceColumn(_, o, _, _) ==> cols.count(o) > 0,
    ensures
        spec_apply_col_op(spec_apply_col_op(cols, up), down) == cols,
{
    match up {
        OpV::AddColumn(_, c) => {
            assert(cols.insert(c).remove(c) =~= cols);
        },
        OpV::DropColumn(_, c) => {
            assert(cols.remove(c).insert(c) =~= cols);
        },
        OpV::ReplaceColumn(_, o, n, _) => {
            assert(cols.remove(o).insert(n).remove(n).insert(o) =~= cols);
        },
        _ => {},
    }
}

/// Law of inversion for constraints: a constraint addition or removal
/// followed by its structural inverse restores the constraint multiset,
/// provided a removed constraint was present.
pub proof fn lemma_down_restores_constraints(
    cs: Multiset<crate::constraint::NamedConstraintV>,
    up: OpV,
    down: OpV,
)
    requires
        spec_op_inverse(up, down),
        up matches OpV::DropConstraint(_, nc) ==> cs.count(nc) > 0,
    ensures
        spec_apply_constr_op(spec_apply_constr_op(cs, up), down) == cs,
{
    match up {
        OpV::AddConstraint(_, nc) => {
            assert(cs.insert(nc).remove(nc) =~= cs);
        },
        OpV::DropConstraint(_, nc) => {
            assert(cs.remove(nc).insert(nc) =~= cs);
        },
        _ => {},
    }
}

/// Law of inversion for tables: a table creation or drop followed by its
/// structural inverse restores the schema's table multiset, provided a
/// dropped table was present.
pub proof fn lemma_down_restores_tables(ts: Multiset<TableV>, up: OpV, down: OpV)
    requires
        spec_op_inverse(up, down),
        up matches OpV::DropTable(t) ==> ts.count(t) > 0,
    ensures
        spec_apply_table_op(spec_apply_table_op(ts, up), down) == ts,
{
    match up {
        OpV::CreateTable(t) => {
            assert(ts.insert(t).remove(t) =~= ts);
        },
        OpV::DropTable(t) => {
            assert(ts.remove(t).insert(t) =~= ts);
        },
        _ => {},
    }
}


/// The column multiset after every step's forward operation, first to last.
pub open spec fn spec_apply_ups_cols(cols: Multiset<ColumnV>, steps: Seq<StepV>) -> Multiset<
    ColumnV,
>
    decreases steps.len(),
{
    if steps.len() == 0 {
        cols
    } else {
        spec_apply_col_op(spec_apply_ups_cols(cols, steps.drop_last()), steps.last().up)
    }
}

/// The column multiset after every step's inverse, last step first.
pub open spec fn spec_apply_downs_cols(cols: Multiset<ColumnV>, steps: Seq<StepV>) -> Multiset<
    ColumnV,
>
    decreases steps.len(),
{
    if steps.len() == 0 {
        cols
    } else {
        spec_apply_downs_cols(spec_apply_col_op(cols, steps.last().down->0), steps.drop_last())
    }
}

/// Every dropped or replaced column is present when its step's turn comes.
pub open spec fn spec_col_ops_applicable(cols: Multiset<ColumnV>, steps: Seq<StepV>) -> bool
    decreases steps.len(),
{
    if steps.len() == 0 {
        true
    } else {
        spec_col_ops_applicable(cols, steps.drop_last()) && (match steps.last().up {
            OpV::DropColumn(_, c) => spec_apply_ups_cols(cols, steps.drop_last()).count(c) > 0,
            OpV::ReplaceColumn(_, o, _, _) => spec_apply_ups_cols(cols, steps.drop_last()).count(
                o,
            ) > 0,
            _ => true,
        })
    }
}

/// Law of inversion for a whole migration, on columns: applying every
/// forward operation and then every generated inverse, last step first,
/// returns the column multiset exactly to its start, provided every dropped
/// or replaced column is present at its turn.
pub proof fn lemma_migration_restores_columns(cols: Multiset<ColumnV>, steps: Seq<StepV>)
    requires
        spec_steps_wf(steps, true),
        spec_col_ops_applicable(cols, steps),
    ensures
        spec_apply_downs_cols(spec_apply_ups_cols(cols, steps), steps) == cols,
    decreases steps.len(),
{
    if steps.len() > 0 {
        let pre = steps.drop_last();
        assert(spec_steps_wf(pre, true)) by {
            assert forall|k: int| 0 <= k < pre.len() implies (#[trigger] pre[k]).down is Some
                && spec_op_inverse(pre[k].up, pre[k].down->0) by {
                assert(pre[k] == steps[k]);
            }
        }
        let y = spec_apply_ups_cols(cols, pre);
        lemma_down_restores_columns(y, steps.last().up, steps.last().down->0);
        lemma_migration_restores_columns(cols, pre);
    }
}

/// The constraint multiset after every step's forward operation.
pub open spec fn spec_apply_ups_constrs(
    cs: Multiset<crate::constraint::NamedConstraintV>,
    steps: Seq<StepV>,
) -> Multiset<crate::constraint::NamedConstraintV>
    decreases steps.len(),
{
    if steps.len() == 0 {
        cs
    } else {
        spec_apply_constr_op(spec_apply_ups_constrs(cs, steps.drop_last()), steps.last().up)
    }
}

/// The constraint multiset after every step's inverse, last step first.
pub open spec fn spec_apply_downs_constrs(
    cs: Multiset<crate::constraint::NamedConstraintV>,
    steps: Seq<StepV>,
) -> Multiset<crate::constraint::NamedConstraintV>
    decreases steps.len(),
{
    if steps.len() == 0 {
        cs
    } else {
        spec_apply_downs_constrs(
            spec_apply_constr_op(cs, steps.last().down->0),
            steps.drop_last(),
        )
    }
}

/// Every dropped constraint is present when its step's turn comes.
pub open spec fn spec_constr_ops_applicable(
    cs: Multiset<crate::constraint::NamedConstraintV>,
    steps: Seq<StepV>,
) -> bool
    decreases steps.len(),
{
    if steps.len() == 0 {
        true
    } else {
        spec_constr_ops_applicable(cs, steps.drop_last()) && (match steps.last().up {
            OpV::DropConstraint(_, nc) => spec_apply_ups_constrs(cs, steps.drop_last()).count(
                nc,
            ) > 0,
            _ => true,
        })
    }
}

/// Law of inversion for a whole migration, on constraints.
pub proof fn lemma_migration_restores_constraints(
    cs: Multiset<crate::constraint::NamedConstraintV>,
    steps: Seq<StepV>,
)
    requires
        spec_steps_wf(steps, true),
        spec_constr_ops_applicable(cs, steps),
    ensures
        spec_apply_downs_constrs(spec_apply_ups_constrs(cs, steps), steps) == cs,
    decreases steps.len(),
{
    if steps.len() > 0 {
        let pre = steps.drop_last();
        assert(spec_steps_wf(pre, true)) by {
            assert forall|k: int| 0 <= k < pre.len() implies (#[trigger] pre[k]).down is Some
                && spec_op_inverse(pre[k].up, pre[k].down->0) by {
                assert(pre[k] == steps[k]);
            }
        }
        let y = spec_apply_ups_constrs(cs, pre);
        lemma_down_restores_constraints(y, steps.last().up, steps.last().down->0);
        lemma_migration_restores_constraints(cs, pre);
    }
}


/// The table multiset after every step's forward operation.
pub open spec fn spec_apply_ups_tables(ts: Multiset<TableV>, steps: Seq<StepV>) -> Multiset<
    TableV,
>
    decreases steps.len(),
{
    if steps.len() == 0 {
        ts
    } else {
        spec_apply_table_op(spec_apply_ups_tables(ts, steps.drop_last()), steps.last().up)
    }
}

/// The table multiset after every step's inverse, last step first.
pub open spec fn spec_apply_downs_tables(ts: Multiset<TableV>, steps: Seq<StepV>) -> Multiset<
    TableV,
>
    decreases steps.len(),
{
    if steps.len() == 0 {
        ts
    } else {
        spec_apply_downs_tables(spec_apply_table_op(ts, steps.last().down->0), steps.drop_last())
    }
}

/// Every dropped table is present when its step's turn comes.
pub open spec fn spec_table_ops_applicable(ts: Multiset<TableV>, steps: Seq<StepV>) -> bool
    decreases steps.len(),
{
    if steps.len() == 0 {
        true
    } else {
        spec_table_ops_applicable(ts, steps.drop_last()) && (match steps.last().up {
            OpV::DropTable(t) => spec_apply_ups_tables(ts, steps.drop_last()).count(t) > 0,
            _ => true,
        })
    }
}

/// Law of inversion for a whole migration, on tables.
pub proof fn lemma_migration_restores_tables(ts: Multiset<TableV>, steps: Seq<StepV>)
    requires
        spec_steps_wf(steps, true),
        spec_table_ops_applicable(ts, steps),
    ensures
        spec_apply_downs_tables(spec_apply_ups_tables(ts, steps), steps) == ts,
    decreases steps.len(),
{
    if steps.len() > 0 {
        let pre = steps.drop_last();
        assert(spec_steps_wf(pre, true)) by {
            assert forall|k: int| 0 <= k < pre.len() implies (#[trigger] pre[k]).down is Some
                && spec_op_inverse(pre[k].up, pre[k].down->0) by {
                assert(pre[k] == steps[k]);
            }
        }
        let y = spec_apply_ups_tables(ts, pre);
        lemma_down_restores_tables(y, steps.last().up, steps.last().down->0);
        lemma_migration_restores_tables(ts, pre);
    }
}

} // verus!
