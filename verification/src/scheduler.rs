//! The registration scheduler: tables register one by one from independently
//! initialized units; the first registrant of a batch debounces (the caller
//! sleeps a short fixed window) and then commits the batch. One commit runs
//! per batch and its outcome is terminal; the queue is reset afterwards.
//!
//! Locking and sleeping belong to the surrounding program: this scheduler is
//! the decision core, driven by `register` and `commit`.

use vstd::prelude::*;
use vstd::string::*;
use crate::constraint::clone_names;
use crate::diff::{
    Migration, StepV, diff, spec_adds_missing_columns, spec_creates_follow,
    spec_drops_vanished_columns, spec_has_create, spec_has_drop, spec_phases_ordered,
    spec_removals_reversed, spec_steps_wf, spec_table_drops_reversed,
};
use crate::dialect::Dialect;
use crate::error::{Error, seqs_of};
use crate::graph::{order, spec_name_cycle, spec_safe_order};
use crate::schema::{Schema, spec_find_hint, spec_has_table, spec_lookup, spec_schema_wf};
use crate::table::{Table, TableV, spec_distinct_col_names, spec_table_valid};

verus! {

/// Collects the tables of one batch and commits them as one migration.
#[derive(Debug)]
pub struct Scheduler {
    pub queue: Schema,
    pub dialect: Dialect,
    pub gen_down: bool,
}

impl Scheduler {
    /// The scheduler's invariant: queued table names are unique and every
    /// queued table has unique column names.
    pub open spec fn wf(&self) -> bool {
        &&& spec_schema_wf(self.queue@)
        &&& forall|k: int|
            0 <= k < self.queue@.len() ==> spec_distinct_col_names(
                (#[trigger] self.queue@[k]).columns,
            )
    }

    /// A scheduler with an empty queue for the given dialect; `gen_down`
    /// says whether commits also produce inverse statements.
    pub fn new(dialect: Dialect, gen_down: bool) -> (r: Scheduler)
        ensures
            r.wf(),
            r.queue@.len() == 0,
            r.dialect == dialect,
            r.gen_down == gen_down,
    {
        Scheduler { queue: Schema::new(), dialect, gen_down }
    }

    /// Registers one table: validates it under the dialect and queues it
    /// (replacing a table of the same name). Returns whether this call
    /// opened a new batch — its caller must then wait the debounce window
    /// and commit. An invalid table is rejected and the queue is unchanged.
    pub fn register(&mut self, table: Table) -> (r: Result<bool, Error>)
        requires
            old(self).wf(),
        ensures
            final(self).wf(),
            final(self).dialect == old(self).dialect,
            final(self).gen_down == old(self).gen_down,
            r is Ok <==> spec_table_valid(table@, old(self).dialect),
            r is Err ==> r->Err_0 is Message && final(self).queue@ == old(self).queue@,
            r is Ok ==> r->Ok_0 == (old(self).queue@.len() == 0) && (match spec_find_hint(
                old(self).queue@,
                table@.name,
            ) {
                Some(i) => final(self).queue@ =~= old(self).queue@.update(i, table@),
                None => final(self).queue@ =~= old(self).queue@.push(table@),
            }),
    {
        if let Err(e) = table.validate(self.dialect) {
            return Err(e);
        }
        let first = self.queue.tables.len() == 0;
        let ghost tv = table@;
        let ghost pre = self.queue@;
        self.queue.insert(table);
        proof {
            assert(spec_table_valid(tv, self.dialect));
            assert forall|k: int|
                0 <= k < self.queue@.len() implies spec_distinct_col_names(
                (#[trigger] self.queue@[k]).columns,
            ) by {
                match spec_find_hint(pre, tv.name) {
                    Some(i) => {
                        if k != i {
                            assert(self.queue@[k] == pre[k]);
                        } else {
                            assert(self.queue@[k] == tv);
                        }
                    },
                    None => {
                        if k < pre.len() {
                            assert(self.queue@[k] == pre[k]);
                        } else {
                            assert(self.queue@[k] == tv);
                        }
                    },
                }
            }
        }
        Ok(first)
    }

    /// Commits the batch: orders the queued tables by their foreign-key
    /// dependencies, diffs them against the previously persisted schema, and
    /// resets the queue. Creations follow a safe order of the batch and
    /// removals its reverse; a reference cycle aborts the commit and nothing
    /// partial is produced.
    pub fn commit(&mut self, prev: &Schema) -> (r: Result<Migration, Error>)
        requires
            old(self).wf(),
            spec_schema_wf(prev@),
            forall|k: int|
                0 <= k < prev@.len() ==> spec_distinct_col_names((#[trigger] prev@[k]).columns),
        ensures
            final(self).wf(),
            final(self).queue@.len() == 0,
            final(self).dialect == old(self).dialect,
            final(self).gen_down == old(self).gen_down,
            r is Ok ==> spec_steps_wf(r->Ok_0@, old(self).gen_down),
            r is Ok ==> spec_phases_ordered(r->Ok_0@) && spec_table_drops_reversed(
                r->Ok_0@,
                prev@,
            ),
            r is Ok ==> spec_commit_ordered(r->Ok_0@, old(self).queue@),
            r is Ok && prev@ == old(self).queue@ ==> r->Ok_0@.len() == 0,
            r is Ok ==> forall|i: int|
                0 <= i < old(self).queue@.len() && !spec_has_table(
                    prev@,
                    (#[trigger] old(self).queue@[i]).name,
                ) ==> spec_has_create(r->Ok_0@, old(self).queue@[i]),
            r is Ok ==> forall|j: int|
                0 <= j < prev@.len() && !spec_has_table(
                    old(self).queue@,
                    (#[trigger] prev@[j]).name,
                ) ==> spec_has_drop(r->Ok_0@, prev@[j]),
            r is Ok ==> forall|i: int|
                0 <= i < old(self).queue@.len() && spec_has_table(
                    prev@,
                    (#[trigger] old(self).queue@[i]).name,
                ) ==> spec_adds_missing_columns(
                    r->Ok_0@,
                    spec_lookup(prev@, old(self).queue@[i].name),
                    old(self).queue@[i],
                ) && spec_drops_vanished_columns(
                    r->Ok_0@,
                    spec_lookup(prev@, old(self).queue@[i].name),
                    old(self).queue@[i],
                ),
            r is Err ==> r->Err_0 is Cycle && spec_name_cycle(
                old(self).queue@,
                seqs_of(r->Err_0->Cycle_0@),
            ),
    {
        let result = match order(&self.queue) {
            Ok(names) => {
                proof {
                    assert forall|a: int, b: int|
                        0 <= a < b < names@.len() implies seqs_of(names@)[a] != seqs_of(
                        names@,
                    )[b] by {
                        assert(spec_safe_order(self.queue@, seqs_of(names@)));
                    }
                }
                let migration = diff(prev, &self.queue, &names, self.dialect, self.gen_down);
                proof {
                    let ts = self.queue@;
                    let nm = seqs_of(names@);
                    assert(spec_safe_order(ts, nm));
                    assert(spec_creates_follow(migration@, nm));
                    assert(ts == old(self).queue@);
                    assert(spec_commit_ordered(migration@, old(self).queue@)) by {
                        assert(spec_safe_order(old(self).queue@, nm) && spec_creates_follow(
                            migration@,
                            nm,
                        ) && spec_removals_reversed(migration@, nm));
                    }
                    assert forall|i: int|
                        0 <= i < ts.len() && !spec_has_table(
                            prev@,
                            (#[trigger] ts[i]).name,
                        ) implies spec_has_create(migration@, ts[i]) by {
                        assert(nm.contains(ts[i].name));
                        let k = choose|k: int| 0 <= k < nm.len() && nm[k] == ts[i].name;
                        assert(names@[k]@ == ts[i].name);
                        assert(spec_has_table(ts, names@[k]@));
                        assert(spec_has_create(migration@, spec_lookup(ts, names@[k]@)));
                        let c = choose|c: int| 0 <= c < ts.len() && ts[c].name == names@[k]@;
                        if c < i {
                            assert(ts[c].name != ts[i].name);
                        } else if c > i {
                            assert(ts[i].name != ts[c].name);
                        }
                        assert(spec_lookup(ts, names@[k]@) == ts[i]);
                    }
                    assert forall|i: int|
                        0 <= i < ts.len() && spec_has_table(
                            prev@,
                            (#[trigger] ts[i]).name,
                        ) implies spec_adds_missing_columns(
                        migration@,
                        spec_lookup(prev@, ts[i].name),
                        ts[i],
                    ) && spec_drops_vanished_columns(
                        migration@,
                        spec_lookup(prev@, ts[i].name),
                        ts[i],
                    ) by {
                        assert(nm.contains(ts[i].name));
                        let k = choose|k: int| 0 <= k < nm.len() && nm[k] == ts[i].name;
                        assert(names@[k]@ == ts[i].name);
                        assert(spec_has_table(ts, names@[k]@));
                        assert(spec_adds_missing_columns(
                            migration@,
                            spec_lookup(prev@, names@[k]@),
                            spec_lookup(ts, names@[k]@),
                        ));
                        let c = choose|c: int| 0 <= c < ts.len() && ts[c].name == names@[k]@;
                        if c < i {
                            assert(ts[c].name != ts[i].name);
                        } else if c > i {
                            assert(ts[i].name != ts[c].name);
                        }
                        assert(spec_lookup(ts, names@[k]@) == ts[i]);
                    }
                }
                Ok(migration)
            },
            Err(e) => Err(e),
        };
        self.queue = Schema::new();
        result
    }
}

/// A committed migration is ordered by some safe order of the queued
/// schema: a dependency-respecting permutation of its table names exists
/// that the creations follow and the removals follow in reverse.
pub open spec fn spec_commit_ordered(steps: Seq<StepV>, queue: Seq<TableV>) -> bool {
    exists|nm: Seq<Seq<char>>|
        spec_safe_order(queue, nm) && #[trigger] spec_creates_follow(steps, nm)
            && spec_removals_reversed(steps, nm)
}

/// The structured status of one commit: the success flag and, on failure,
/// the typed error. Exactly one outcome per commit.
#[derive(Debug)]
pub struct Report {
    pub success: bool,
    pub error: Option<Error>,
}

/// The status line of a report: one JSON object with the success flag and
/// either `null` or the error's kind and message.
pub open spec fn spec_report_line(success: bool, error: Option<Error>) -> Seq<char> {
    "{\"success\":"@ + (if success {
        "true"@
    } else {
        "false"@
    }) + ",\"error\":"@ + (match error {
        None => "null"@,
        Some(e) => e.spec_as_json(),
    }) + "}"@
}

/// A copy of an error carrying the same kind and message.
pub fn clone_error(e: &Error) -> (r: Error)
    ensures
        r.spec_kind() == e.spec_kind(),
        r.spec_message() == e.spec_message(),
        r.spec_as_json() == e.spec_as_json(),
{
    match e {
        Error::Syntax(m) => Error::Syntax(m.clone()),
        Error::SyntaxAtFile(m, f) => Error::SyntaxAtFile(m.clone(), f.clone()),
        Error::Message(m) => Error::Message(m.clone()),
        Error::IO(m) => Error::IO(m.clone()),
        Error::Cycle(names) => {
            let r = Error::Cycle(clone_names(names));
            proof {
                assert(r.spec_message() == e.spec_message());
            }
            r
        },
    }
}

impl Report {
    /// The report of one commit outcome.
    pub fn of_outcome(outcome: &Result<Migration, Error>) -> (r: Report)
        ensures
            r.success == (outcome is Ok),
            outcome is Ok ==> r.error is None,
            outcome is Err ==> r.error is Some && r.error->0.spec_as_json()
                == outcome->Err_0.spec_as_json(),
    {
        match outcome {
            Ok(_) => Report { success: true, error: None },
            Err(e) => Report { success: false, error: Some(clone_error(e)) },
        }
    }

    /// Renders the status line.
    pub fn line(&self) -> (r: String)
        ensures
            r@ == spec_report_line(self.success, self.error),
    {
        let mut out = String::from_str("{\"success\":");
        if self.success {
            out.append("true");
        } else {
            out.append("false");
        }
        out.append(",\"error\":");
        match &self.error {
            None => out.append("null"),
            Some(e) => {
                let j = e.as_json();
                out.append(j.as_str());
            },
        }
        out.append("}");
        proof {
            assert(out@ =~= spec_report_line(self.success, self.error));
        }
        out
    }
}

} // verus!
