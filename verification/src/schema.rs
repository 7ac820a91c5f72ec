//! A schema: the tables of one point-in-time state, keyed by table name.
//! Two schemas take part in every diff: the previously persisted one and the
//! one assembled from this run's registrations.

use vstd::prelude::*;
use crate::table::{Table, TableV};
use crate::text::str_eq;

verus! {

/// One point-in-time set of tables. Names are unique; insertion order is
/// kept (it is the registration order, not the dependency order).
#[derive(Debug, Clone)]
pub struct Schema {
    pub tables: Vec<Table>,
}

/// The views of a sequence of tables.
pub open spec fn tables_of(s: Seq<Table>) -> Seq<TableV> {
    s.map_values(|t: Table| t@)
}

impl View for Schema {
    type V = Seq<TableV>;

    open spec fn view(&self) -> Seq<TableV> {
        tables_of(self.tables@)
    }
}

/// Table names are unique within the schema.
pub open spec fn spec_schema_wf(ts: Seq<TableV>) -> bool {
    forall|i: int, j: int| 0 <= i < j < ts.len() ==> ts[i].name != ts[j].name
}

/// Whether a table of this name exists.
pub open spec fn spec_has_table(ts: Seq<TableV>, name: Seq<char>) -> bool {
    exists|k: int| 0 <= k < ts.len() && ts[k].name == name
}

/// The table of this name (meaningful when it exists and names are unique).
pub open spec fn spec_lookup(ts: Seq<TableV>, name: Seq<char>) -> TableV {
    ts[choose|k: int| 0 <= k < ts.len() && ts[k].name == name]
}

impl Schema {
    /// An empty schema.
    pub fn new() -> (r: Schema)
        ensures
            r@ =~= Seq::<TableV>::empty(),
    {
        let s = Schema { tables: Vec::new() };
        proof {
            assert(s@ =~= Seq::<TableV>::empty());
        }
        s
    }

    /// The index of the table of this name, if any: the first match, which
    /// under well-formedness is the only one.
    pub fn find(&self, name: &str) -> (r: Option<usize>)
        ensures
            match r {
                Some(i) => i < self@.len() && self@[i as int].name == name@ && forall|k: int|
                    0 <= k < i ==> self@[k].name != name@,
                None => !spec_has_table(self@, name@),
            },
    {
        let mut i: usize = 0;
        while i < self.tables.len()
            invariant
                i <= self.tables@.len(),
                forall|k: int| 0 <= k < i ==> tables_of(self.tables@)[k].name != name@,
            decreases self.tables@.len() - i,
        {
            if str_eq(self.tables[i].name.as_str(), name) {
                proof {
                    assert(tables_of(self.tables@)[i as int].name == name@);
                }
                return Some(i);
            }
            i = i + 1;
        }
        None
    }

    /// The table of this name, if any.
    pub fn get(&self, name: &str) -> (r: Option<&Table>)
        requires
            spec_schema_wf(self@),
        ensures
            r is Some <==> spec_has_table(self@, name@),
            r is Some ==> r->0@ == spec_lookup(self@, name@),
    {
        match self.find(name) {
            Some(i) => {
                proof {
                    let k = choose|k: int| 0 <= k < self@.len() && self@[k].name == name@;
                    assert(self@[k] == self@[i as int]);
                }
                Some(&self.tables[i])
            },
            None => None,
        }
    }

    /// Records one table: a table of the same name is replaced in place,
    /// otherwise the table is appended. Names stay unique.
    pub fn insert(&mut self, t: Table)
        requires
            spec_schema_wf(old(self)@),
        ensures
            spec_schema_wf(final(self)@),
            match spec_find_hint(old(self)@, t@.name) {
                Some(i) => final(self)@ =~= old(self)@.update(i, t@),
                None => final(self)@ =~= old(self)@.push(t@),
            },
    {
        let name = t.name.clone();
        match self.find(name.as_str()) {
            Some(i) => {
                proof {
                    lemma_find_hint(old(self)@, t@.name, i as int);
                }
                self.tables.set(i, t);
                proof {
                    assert(tables_of(self.tables@) =~~= tables_of(old(self).tables@).update(
                        i as int,
                        self.tables@[i as int]@,
                    ));
                }
            },
            None => {
                proof {
                    lemma_find_hint_none(old(self)@, t@.name);
                }
                self.tables.push(t);
                proof {
                    assert(tables_of(self.tables@) =~~= tables_of(old(self).tables@).push(
                        self.tables@.last()@,
                    ));
                }
            },
        }
    }
}

/// The position an insert writes to: the first table of this name, if any.
pub open spec fn spec_find_hint(ts: Seq<TableV>, name: Seq<char>) -> Option<int> {
    if spec_has_table(ts, name) {
        Some(choose|k: int| 0 <= k < ts.len() && ts[k].name == name)
    } else {
        None
    }
}

proof fn lemma_find_hint(ts: Seq<TableV>, name: Seq<char>, i: int)
    requires
        spec_schema_wf(ts),
        0 <= i < ts.len(),
        ts[i].name == name,
    ensures
        spec_find_hint(ts, name) == Some(i),
{
    assert(spec_has_table(ts, name));
    let k = choose|k: int| 0 <= k < ts.len() && ts[k].name == name;
    assert(ts[k].name == ts[i].name);
    if k != i {
        if k < i {
            assert(ts[k].name != ts[i].name);
        } else {
            assert(ts[i].name != ts[k].name);
        }
    }
}

proof fn lemma_find_hint_none(ts: Seq<TableV>, name: Seq<char>)
    requires
        !spec_has_table(ts, name),
    ensures
        spec_find_hint(ts, name) is None,
{
}

} // verus!
