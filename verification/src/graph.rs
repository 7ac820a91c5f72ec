//! The dependency graph and cycle detector: foreign-key references between
//! tables form a directed graph; a depth-first traversal with three colors
//! (unvisited, in progress, done) yields an order in which every referenced
//! table precedes its referents, or reports the tables of a reference cycle.
//! A table referencing itself is not a cycle and needs no ordering.

use vstd::prelude::*;
use vstd::seq_lib::*;
use vstd::set_lib::*;
use crate::constraint::{Constraint, ConstraintV, NamedConstraintV};
use crate::error::{Error, seqs_of};
use crate::schema::{Schema, spec_schema_wf, spec_has_table, tables_of};
use crate::table::TableV;
use crate::text::{ascii_lower, ascii_lowercase};

verus! {

/// Whether a constraint is a foreign key into the table of this
/// (lower-cased) name.
pub open spec fn spec_fk_to(nc: NamedConstraintV, name: Seq<char>) -> bool {
    match nc.constr {
        ConstraintV::ForeignKey(fk) => ascii_lower(fk.foreign_table) == name,
        _ => false,
    }
}

/// A dependency edge: table `i` holds a foreign key referencing table `j`.
/// Self-references are not edges.
pub open spec fn spec_edge(ts: Seq<TableV>, i: int, j: int) -> bool {
    &&& 0 <= i < ts.len()
    &&& 0 <= j < ts.len()
    &&& i != j
    &&& exists|c: int|
        0 <= c < ts[i].constraints.len() && spec_fk_to(#[trigger] ts[i].constraints[c], ts[j].name)
}

/// A dependency edge between the tables of these names.
pub open spec fn spec_edge_names(ts: Seq<TableV>, a: Seq<char>, b: Seq<char>) -> bool {
    exists|i: int, j: int| spec_edge(ts, i, j) && ts[i].name == a && ts[j].name == b
}

/// The views of an adjacency list.
pub open spec fn adjs_of(a: Seq<Vec<usize>>) -> Seq<Seq<usize>> {
    a.map_values(|v: Vec<usize>| v@)
}

/// The adjacency list states exactly the dependency edges.
pub open spec fn spec_adj_wf(adj: Seq<Seq<usize>>, ts: Seq<TableV>) -> bool {
    &&& adj.len() == ts.len()
    &&& forall|i: int, m: int|
        0 <= i < adj.len() && 0 <= m < adj[i].len() ==> spec_edge(
            ts,
            i,
            #[trigger] adj[i][m] as int,
        )
    &&& forall|i: int, j: int| spec_edge(ts, i, j) ==> adj[i].contains(j as usize)
}

/// Targets are in range and no node points at itself.
pub open spec fn spec_adj_ok(adj: Seq<Seq<usize>>) -> bool {
    forall|i: int, m: int|
        0 <= i < adj.len() && 0 <= m < adj[i].len() ==> (#[trigger] adj[i][m]) < adj.len()
            && adj[i][m] != i
}

/// An edge of table `i` witnessed by one of its first `c` constraints.
pub open spec fn spec_edge_upto(ts: Seq<TableV>, i: int, j: int, c: int) -> bool {
    &&& 0 <= i < ts.len()
    &&& 0 <= j < ts.len()
    &&& i != j
    &&& exists|cc: int| 0 <= cc < c <= ts[i].constraints.len() && spec_fk_to(
        #[trigger] ts[i].constraints[cc],
        ts[j].name,
    )
}

/// Builds the adjacency list of a schema's foreign-key references; edges to
/// tables outside the schema and self-references are dropped.
fn build_adj(schema: &Schema) -> (r: Vec<Vec<usize>>)
    requires
        spec_schema_wf(schema@),
    ensures
        spec_adj_wf(adjs_of(r@), schema@),
        spec_adj_ok(adjs_of(r@)),
{
    let n = schema.tables.len();
    let mut adj: Vec<Vec<usize>> = Vec::new();
    let mut i: usize = 0;
    while i < n
        invariant
            n == schema@.len(),
            i <= n,
            adj@.len() == i,
            spec_schema_wf(schema@),
            forall|a: int, m: int|
                0 <= a < i && 0 <= m < adjs_of(adj@)[a].len() ==> spec_edge(
                    schema@,
                    a,
                    #[trigger] adjs_of(adj@)[a][m] as int,
                ),
            forall|a: int, j: int|
                0 <= a < i && spec_edge(schema@, a, j) ==> adjs_of(adj@)[a].contains(j as usize),
        decreases n - i,
    {
        let t = &schema.tables[i];
        proof {
            assert(t@ == schema@[i as int]);
        }
        let mut row: Vec<usize> = Vec::new();
        let mut c: usize = 0;
        while c < t.constraints.len()
            invariant
                n == schema@.len(),
                i < n,
                spec_schema_wf(schema@),
                t@ == schema@[i as int],
                c <= t.constraints@.len(),
                t.constraints@.len() == schema@[i as int].constraints.len(),
                forall|m: int| 0 <= m < row@.len() ==> spec_edge(
                    schema@,
                    i as int,
                    #[trigger] row@[m] as int,
                ),
                forall|j: int|
                    spec_edge_upto(schema@, i as int, j, c as int) ==> row@.contains(j as usize),
            decreases t.constraints@.len() - c,
        {
            proof {
                assert(t.constraints@[c as int]@ == schema@[i as int].constraints[c as int]);
            }
            if let Constraint::ForeignKey(fk) = &t.constraints[c].constr {
                let target = ascii_lowercase(fk.foreign_table.as_str());
                match schema.find(target.as_str()) {
                    Some(j) => {
                        if j != i {
                            let ghost prev_row = row@;
                            row.push(j);
                            proof {
                                assert(spec_fk_to(
                                    schema@[i as int].constraints[c as int],
                                    schema@[j as int].name,
                                ));
                                assert(spec_edge(schema@, i as int, j as int));
                                assert forall|jj: int|
                                    #![trigger spec_edge_upto(schema@, i as int, jj, c + 1)]
                                    spec_edge_upto(
                                        schema@,
                                        i as int,
                                        jj,
                                        c + 1,
                                    ) implies row@.contains(jj as usize) by {
                                    if spec_edge_upto(schema@, i as int, jj, c as int) {
                                        let k = choose|k: int|
                                            0 <= k < prev_row.len() && prev_row[k] == jj as usize;
                                        assert(row@[k] == jj as usize);
                                    } else {
                                        assert(spec_fk_to(
                                            schema@[i as int].constraints[c as int],
                                            schema@[jj].name,
                                        ));
                                        assert(schema@[jj].name == schema@[j as int].name);
                                        assert(jj == j as int);
                                        assert(row@[row@.len() - 1] == j);
                                        assert(row@[row@.len() - 1] == jj as usize);
                                    }
                                }
                            }
                        } else {
                            proof {
                                assert forall|jj: int|
                                    #![trigger spec_edge_upto(schema@, i as int, jj, c + 1)]
                                    spec_edge_upto(
                                        schema@,
                                        i as int,
                                        jj,
                                        c + 1,
                                    ) implies row@.contains(jj as usize) by {
                                    if !spec_edge_upto(schema@, i as int, jj, c as int) {
                                        assert(schema@[jj].name == schema@[i as int].name);
                                        assert(jj == i as int);
                                    }
                                }
                            }
                        }
                    },
                    None => {
                        proof {
                            assert forall|jj: int|
                                #![trigger spec_edge_upto(schema@, i as int, jj, c + 1)]
                                spec_edge_upto(
                                    schema@,
                                    i as int,
                                    jj,
                                    c + 1,
                                ) implies row@.contains(jj as usize) by {
                                if !spec_edge_upto(schema@, i as int, jj, c as int) {
                                    assert(spec_has_table(schema@, target@));
                                }
                            }
                        }
                    },
                }
            } else {
                proof {
                    assert forall|jj: int|
                        #![trigger spec_edge_upto(schema@, i as int, jj, c + 1)]
                        spec_edge_upto(schema@, i as int, jj, c + 1) implies row@.contains(
                        jj as usize,
                    ) by {
                        assert(spec_edge_upto(schema@, i as int, jj, c as int));
                    }
                }
            }
            c = c + 1;
        }
        let ghost prev_adj = adj@;
        let ghost row_view = row@;
        adj.push(row);
        proof {
            assert(adj@ == prev_adj.push(adj@[i as int]));
            assert(adjs_of(adj@)[i as int] == row_view);
            assert forall|a: int| 0 <= a < i implies adjs_of(adj@)[a] == adjs_of(prev_adj)[a] by {
                assert(adj@[a] == prev_adj[a]);
            }
            assert forall|a: int, mm: int|
                0 <= a < i + 1 && 0 <= mm < adjs_of(adj@)[a].len() implies spec_edge(
                schema@,
                a,
                #[trigger] adjs_of(adj@)[a][mm] as int,
            ) by {
                if a < i {
                    assert(adjs_of(adj@)[a] == adjs_of(prev_adj)[a]);
                    assert(spec_edge(schema@, a, adjs_of(prev_adj)[a][mm] as int));
                } else {
                    assert(adjs_of(adj@)[i as int][mm] == row_view[mm]);
                    assert(spec_edge(schema@, i as int, row_view[mm] as int));
                }
            }
            assert forall|j: int|
                spec_edge(schema@, i as int, j) implies adjs_of(adj@)[i as int].contains(
                j as usize,
            ) by {
                assert(spec_edge_upto(
                    schema@,
                    i as int,
                    j,
                    schema@[i as int].constraints.len() as int,
                ));
                assert(row_view.contains(j as usize));
            }
        }
        i = i + 1;
    }
    adj
}

/// How many nodes are still unvisited.
pub open spec fn count_white(colors: Seq<u8>) -> nat
    decreases colors.len(),
{
    if colors.len() == 0 {
        0
    } else {
        (if colors[0] == 0 {
            1nat
        } else {
            0nat
        }) + count_white(colors.skip(1))
    }
}

proof fn lemma_count_white_mono(c1: Seq<u8>, c2: Seq<u8>)
    requires
        c1.len() == c2.len(),
        forall|i: int| 0 <= i < c2.len() && c2[i] == 0 ==> c1[i] == 0,
    ensures
        count_white(c2) <= count_white(c1),
    decreases c1.len(),
{
    if c1.len() > 0 {
        assert forall|i: int|
            0 <= i < c2.skip(1).len() && c2.skip(1)[i] == 0 implies c1.skip(1)[i] == 0 by {
            assert(c2.skip(1)[i] == c2[i + 1]);
            assert(c1.skip(1)[i] == c1[i + 1]);
        }
        lemma_count_white_mono(c1.skip(1), c2.skip(1));
    }
}

proof fn lemma_count_white_strict(c1: Seq<u8>, c2: Seq<u8>, w: int)
    requires
        c1.len() == c2.len(),
        forall|i: int| 0 <= i < c2.len() && c2[i] == 0 ==> c1[i] == 0,
        0 <= w < c1.len(),
        c1[w] == 0,
        c2[w] != 0,
    ensures
        count_white(c2) < count_white(c1),
    decreases c1.len(),
{
    assert forall|i: int|
        0 <= i < c2.skip(1).len() && c2.skip(1)[i] == 0 implies c1.skip(1)[i] == 0 by {
        assert(c2.skip(1)[i] == c2[i + 1]);
        assert(c1.skip(1)[i] == c1[i + 1]);
    }
    if w == 0 {
        lemma_count_white_mono(c1.skip(1), c2.skip(1));
    } else {
        assert(c1.skip(1)[w - 1] == c1[w]);
        assert(c2.skip(1)[w - 1] == c2[w]);
        lemma_count_white_strict(c1.skip(1), c2.skip(1), w - 1);
    }
}

/// Colors are unvisited (0), in progress (1) or done (2).
pub open spec fn spec_colors_wf(colors: Seq<u8>) -> bool {
    forall|v: int| 0 <= v < colors.len() ==> colors[v] == 0 || colors[v] == 1 || colors[v] == 2
}

/// The emitted order holds exactly the done nodes, each once, and every
/// successor of an emitted node is emitted earlier.
pub open spec fn spec_order_inv(adj: Seq<Seq<usize>>, colors: Seq<u8>, order: Seq<usize>) -> bool {
    &&& forall|k: int|
        0 <= k < order.len() ==> (#[trigger] order[k]) < colors.len() && colors[order[k] as int]
            == 2
    &&& forall|v: int| 0 <= v < colors.len() && colors[v] == 2 ==> order.contains(v as usize)
    &&& forall|k1: int, k2: int| 0 <= k1 < k2 < order.len() ==> order[k1] != order[k2]
    &&& forall|k: int, m: int|
        0 <= k < order.len() && 0 <= m < adj[order[k] as int].len() ==> order.subrange(
            0,
            k,
        ).contains(#[trigger] adj[order[k] as int][m])
}

/// The traversal path holds exactly the in-progress nodes, each once, with
/// an edge between each node and the next.
pub open spec fn spec_path_inv(adj: Seq<Seq<usize>>, colors: Seq<u8>, path: Seq<usize>) -> bool {
    &&& forall|k: int|
        0 <= k < path.len() ==> (#[trigger] path[k]) < colors.len() && colors[path[k] as int] == 1
    &&& forall|v: int| 0 <= v < colors.len() && colors[v] == 1 ==> path.contains(v as usize)
    &&& forall|k1: int, k2: int| 0 <= k1 < k2 < path.len() ==> path[k1] != path[k2]
    &&& forall|k: int| 0 <= k < path.len() - 1 ==> adj[#[trigger] path[k] as int].contains(
        path[k + 1],
    )
}

/// The whole state invariant of the traversal.
pub open spec fn spec_dfs_inv(
    adj: Seq<Seq<usize>>,
    colors: Seq<u8>,
    order: Seq<usize>,
    path: Seq<usize>,
) -> bool {
    &&& colors.len() == adj.len()
    &&& spec_colors_wf(colors)
    &&& spec_order_inv(adj, colors, order)
    &&& spec_path_inv(adj, colors, path)
}

/// A closed walk along adjacency edges: each entry steps to the next and the
/// last steps back to the first, with no repeated node.
pub open spec fn spec_adj_cycle(adj: Seq<Seq<usize>>, cyc: Seq<usize>) -> bool {
    &&& cyc.len() >= 2
    &&& forall|k: int| 0 <= k < cyc.len() ==> (#[trigger] cyc[k]) < adj.len()
    &&& forall|k1: int, k2: int| 0 <= k1 < k2 < cyc.len() ==> cyc[k1] != cyc[k2]
    &&& forall|k: int| 0 <= k < cyc.len() - 1 ==> adj[#[trigger] cyc[k] as int].contains(
        cyc[k + 1],
    )
    &&& adj[cyc.last() as int].contains(cyc[0])
}

/// One depth-first visit: marks `v` in progress, visits its successors, and
/// marks it done; an in-progress successor closes a cycle, returned as the
/// path segment from that successor to `v`.
#[verifier::rlimit(60)]
fn visit(
    adj: &Vec<Vec<usize>>,
    colors: &mut Vec<u8>,
    order: &mut Vec<usize>,
    path: &mut Vec<usize>,
    v: usize,
) -> (r: Result<(), Vec<usize>>)
    requires
        spec_adj_ok(adjs_of(adj@)),
        spec_dfs_inv(adjs_of(adj@), old(colors)@, old(order)@, old(path)@),
        v < old(colors)@.len(),
        old(colors)@[v as int] == 0,
        old(path)@.len() > 0 ==> adjs_of(adj@)[old(path)@.last() as int].contains(v),
    ensures
        r is Ok ==> {
            &&& spec_dfs_inv(adjs_of(adj@), final(colors)@, final(order)@, final(path)@)
            &&& final(path)@ == old(path)@
            &&& final(colors)@.len() == old(colors)@.len()
            &&& final(colors)@[v as int] == 2
            &&& forall|u: int|
                0 <= u < old(colors)@.len() && old(colors)@[u] != 0 ==> final(colors)@[u] == old(
                    colors,
                )@[u]
            &&& forall|u: int|
                0 <= u < old(colors)@.len() && final(colors)@[u] == 0 ==> old(colors)@[u] == 0
            &&& old(order)@.is_prefix_of(final(order)@)
        },
        r is Err ==> spec_adj_cycle(adjs_of(adj@), r->Err_0@),
    decreases count_white(old(colors)@),
{
    let ghost entry_colors = old(colors)@;
    let n = colors.len();
    colors.set(v, 1);
    path.push(v);
    proof {
        assert(!old(path)@.contains(v));
        assert forall|u: int| 0 <= u < n && colors@[u] == 1 implies path@.contains(
            u as usize,
        ) by {
            if u == v as int {
                assert(path@[path@.len() - 1] == v);
            } else {
                assert(old(colors)@[u] == 1);
                let k = choose|k: int|
                    0 <= k < old(path)@.len() && old(path)@[k] == u as usize;
                assert(path@[k] == u as usize);
            }
        }
        assert forall|k1: int, k2: int|
            0 <= k1 < k2 < path@.len() implies path@[k1] != path@[k2] by {
            if k2 == path@.len() - 1 {
                assert(path@[k1] == old(path)@[k1]);
                assert(old(path)@.contains(old(path)@[k1]));
            }
        }
        assert forall|k: int|
            0 <= k < path@.len() - 1 implies adjs_of(adj@)[#[trigger] path@[k] as int].contains(
            path@[k + 1],
        ) by {
            if k < path@.len() - 2 {
                assert(path@[k] == old(path)@[k]);
                assert(path@[k + 1] == old(path)@[k + 1]);
            } else {
                assert(path@[k] == old(path)@.last());
                assert(path@[k + 1] == v);
            }
        }
        assert(spec_dfs_inv(adjs_of(adj@), colors@, order@, path@));
    }
    let row_len = adj[v].len();
    let mut m: usize = 0;
    while m < row_len
        invariant
            spec_adj_ok(adjs_of(adj@)),
            entry_colors == old(colors)@,
            entry_colors.len() == n,
            n == colors@.len(),
            colors@.len() == adjs_of(adj@).len(),
            v < n,
            row_len == adjs_of(adj@)[v as int].len(),
            m <= row_len,
            colors@[v as int] == 1,
            spec_dfs_inv(adjs_of(adj@), colors@, order@, path@),
            path@ == old(path)@.push(v),
            entry_colors[v as int] == 0,
            forall|u: int| 0 <= u < n && colors@[u] == 0 ==> entry_colors[u] == 0,
            forall|u: int| 0 <= u < n && entry_colors[u] != 0 ==> colors@[u] == entry_colors[u],
            old(order)@.is_prefix_of(order@),
            forall|mm: int|
                0 <= mm < m ==> colors@[#[trigger] adjs_of(adj@)[v as int][mm] as int] == 2,
        decreases row_len - m,
    {
        let w = adj[v][m];
        let cw = colors[w];
        if cw == 0 {
            proof {
                lemma_count_white_strict(entry_colors, colors@, v as int);
            }
            let ghost mid_colors = colors@;
            let ghost mid_order = order@;
            match visit(adj, colors, order, path, w) {
                Ok(()) => {
                    proof {
                        assert forall|u: int|
                            0 <= u < n && colors@[u] == 0 implies entry_colors[u] == 0 by {
                            assert(mid_colors[u] == 0);
                        }
                        assert(old(order)@.is_prefix_of(order@)) by {
                            assert(mid_order.is_prefix_of(order@));
                            assert forall|k: int|
                                0 <= k < old(order)@.len() implies old(order)@[k] == order@[k] by {
                                assert(old(order)@[k] == mid_order[k]);
                            }
                        }
                    }
                },
                Err(cyc) => {
                    return Err(cyc);
                },
            }
        } else if cw == 1 {
            // `w` is in progress: the path from `w` to `v` plus the edge
            // `v -> w` closes a cycle.
            let mut p: usize = 0;
            while p < path.len() && path[p] != w
                invariant
                    p <= path@.len(),
                    w < n,
                    path@.contains(w),
                    forall|k: int| 0 <= k < p ==> path@[k] != w,
                decreases path@.len() - p,
            {
                p = p + 1;
            }
            proof {
                let kw = choose|k: int| 0 <= k < path@.len() && path@[k] == w;
                assert(p < path@.len());
                assert(path@[p as int] == w);
            }
            let mut cyc: Vec<usize> = Vec::new();
            let mut q: usize = p;
            while q < path.len()
                invariant
                    p <= q <= path@.len(),
                    cyc@ == path@.subrange(p as int, q as int),
                decreases path@.len() - q,
            {
                cyc.push(path[q]);
                proof {
                    assert(cyc@ =~= path@.subrange(p as int, q + 1));
                }
                q = q + 1;
            }
            proof {
                assert(cyc@ =~= path@.subrange(p as int, path@.len() as int));
                assert(path@[path@.len() - 1] == v);
                assert(cyc@[0] == path@[p as int]);
                assert(cyc@[0] == w);
                assert(cyc@[cyc@.len() - 1] == v);
                assert(adjs_of(adj@)[v as int][m as int] == w);
                assert(adjs_of(adj@)[v as int].contains(w));
                // no self-reference, so the closing edge shows w != v
                assert(w != v);
                assert(cyc@.len() >= 2);
                assert forall|k: int|
                    0 <= k < cyc@.len() - 1 implies adjs_of(adj@)[#[trigger] cyc@[k] as int]
                    .contains(cyc@[k + 1]) by {
                    assert(cyc@[k] == path@[p + k]);
                    assert(cyc@[k + 1] == path@[p + k + 1]);
                }
                assert(spec_adj_cycle(adjs_of(adj@), cyc@));
            }
            return Err(cyc);
        }
        m = m + 1;
    }
    // every successor of v is done; v itself becomes done
    let _ = path.pop();
    colors.set(v, 2);
    let ghost pre_order = order@;
    order.push(v);
    proof {
        assert(path@ =~= old(path)@);
        assert forall|u: int|
            0 <= u < n && colors@[u] == 1 implies path@.contains(u as usize) by {
            assert(old(path)@.push(v).contains(u as usize));
            let k = choose|k: int|
                0 <= k < old(path)@.push(v).len() && old(path)@.push(v)[k] == u as usize;
            assert(k < old(path)@.len());
            assert(path@[k] == u as usize);
        }
        assert(!pre_order.contains(v));
        assert forall|k1: int, k2: int|
            0 <= k1 < k2 < order@.len() implies order@[k1] != order@[k2] by {
            if k2 == order@.len() - 1 {
                assert(order@[k1] == pre_order[k1]);
                assert(pre_order.contains(pre_order[k1]));
            }
        }
        assert forall|u: int|
            0 <= u < n && colors@[u] == 2 implies order@.contains(u as usize) by {
            if u == v as int {
                assert(order@[order@.len() - 1] == v);
            } else {
                let k = choose|k: int| 0 <= k < pre_order.len() && pre_order[k] == u as usize;
                assert(order@[k] == u as usize);
            }
        }
        assert forall|k: int, mm: int|
            0 <= k < order@.len() && 0 <= mm < adjs_of(adj@)[order@[k] as int].len()
            implies order@.subrange(0, k).contains(
            #[trigger] adjs_of(adj@)[order@[k] as int][mm],
        ) by {
            if k < order@.len() - 1 {
                assert(order@[k] == pre_order[k]);
                let w = adjs_of(adj@)[pre_order[k] as int][mm];
                assert(pre_order.subrange(0, k).contains(w));
                let kk = choose|kk: int|
                    0 <= kk < pre_order.subrange(0, k).len() && pre_order.subrange(0, k)[kk] == w;
                assert(order@.subrange(0, k)[kk] == w);
            } else {
                assert(order@[k] == v);
                let w = adjs_of(adj@)[v as int][mm];
                assert(colors@[w as int] == 2);
                assert(w != v);
                assert(pre_order.contains(w));
                let kw = choose|kk: int| 0 <= kk < pre_order.len() && pre_order[kk] == w;
                assert(order@.subrange(0, k)[kw] == w);
            }
        }
        assert(spec_dfs_inv(adjs_of(adj@), colors@, order@, path@));
        assert(pre_order.is_prefix_of(order@)) by {
            assert forall|k: int| 0 <= k < pre_order.len() implies order@[k] == pre_order[k] by {}
            assert(pre_order =~= order@.subrange(0, pre_order.len() as int));
        }
        assert(old(order)@.is_prefix_of(order@)) by {
            assert forall|k: int| 0 <= k < old(order)@.len() implies old(order)@[k]
                == order@[k] by {
                assert(old(order)@[k] == pre_order[k]);
            }
            assert(old(order)@ =~= order@.subrange(0, old(order)@.len() as int));
        }
    }
    Ok(())
}


/// The position of a name in a list of names (meaningful when present and
/// the list has no duplicates).
pub open spec fn spec_name_pos(names: Seq<Seq<char>>, nm: Seq<char>) -> int {
    choose|k: int| 0 <= k < names.len() && names[k] == nm
}

/// A safe creation order: a permutation of the schema's table names in
/// which every referenced table precedes every table referencing it.
/// Reversed, it is a safe drop order.
pub open spec fn spec_safe_order(ts: Seq<TableV>, names: Seq<Seq<char>>) -> bool {
    &&& names.len() == ts.len()
    &&& forall|k1: int, k2: int| 0 <= k1 < k2 < names.len() ==> names[k1] != names[k2]
    &&& forall|k: int| 0 <= k < names.len() ==> spec_has_table(ts, #[trigger] names[k])
    &&& forall|i: int| 0 <= i < ts.len() ==> names.contains(#[trigger] ts[i].name)
    &&& forall|i: int, j: int|
        spec_edge(ts, i, j) ==> spec_name_pos(names, ts[j].name) < spec_name_pos(
            names,
            ts[i].name,
        )
}

/// A genuine reference cycle among the named tables: every name is a table
/// of the schema, each holds a foreign key into the next, and the last into
/// the first; no name repeats.
pub open spec fn spec_name_cycle(ts: Seq<TableV>, names: Seq<Seq<char>>) -> bool {
    &&& names.len() >= 2
    &&& forall|k1: int, k2: int| 0 <= k1 < k2 < names.len() ==> names[k1] != names[k2]
    &&& forall|k: int| 0 <= k < names.len() ==> spec_has_table(ts, #[trigger] names[k])
    &&& forall|k: int| 0 <= k < names.len() - 1 ==> spec_edge_names(
        ts,
        #[trigger] names[k],
        names[k + 1],
    )
    &&& spec_edge_names(ts, names.last(), names[0])
}

/// Maps traversal indices back to table names.
fn names_at(schema: &Schema, idxs: &Vec<usize>) -> (r: Vec<String>)
    requires
        forall|k: int| 0 <= k < idxs@.len() ==> (#[trigger] idxs@[k]) < schema@.len(),
    ensures
        r@.len() == idxs@.len(),
        forall|k: int|
            0 <= k < idxs@.len() ==> (#[trigger] seqs_of(r@)[k]) == schema@[idxs@[k] as int].name,
{
    let mut names: Vec<String> = Vec::new();
    let mut q: usize = 0;
    while q < idxs.len()
        invariant
            q <= idxs@.len(),
            names@.len() == q,
            forall|k: int| 0 <= k < idxs@.len() ==> (#[trigger] idxs@[k]) < schema@.len(),
            forall|k: int|
                0 <= k < q ==> (#[trigger] seqs_of(names@)[k]) == schema@[idxs@[k] as int].name,
        decreases idxs@.len() - q,
    {
        let ghost prev = names@;
        names.push(schema.tables[idxs[q]].name.clone());
        proof {
            assert(names@[q as int]@ == schema.tables@[idxs@[q as int] as int].name@);
            assert forall|k: int|
                0 <= k < q + 1 implies (#[trigger] seqs_of(names@)[k]) == schema@[idxs@[k] as int]
                .name by {
                if k < q {
                    assert(names@[k] == prev[k]);
                    assert(seqs_of(prev)[k] == schema@[idxs@[k] as int].name);
                } else {
                    assert(names@[k]@ == schema.tables@[idxs@[k] as int].name@);
                }
            }
        }
        q = q + 1;
    }
    names
}

/// Computes a safe creation order over the schema's tables: every table
/// referenced through a foreign key comes before its referents. A reference
/// cycle is fatal and is reported with the names of every table on it.
pub fn order(schema: &Schema) -> (r: Result<Vec<String>, Error>)
    requires
        spec_schema_wf(schema@),
    ensures
        r is Ok ==> spec_safe_order(schema@, seqs_of(r->Ok_0@)),
        r is Err ==> r->Err_0 is Cycle && spec_name_cycle(schema@, seqs_of(r->Err_0->Cycle_0@)),
{
    let n = schema.tables.len();
    let adj = build_adj(schema);
    let mut colors: Vec<u8> = Vec::new();
    let mut k: usize = 0;
    while k < n
        invariant
            k <= n,
            colors@.len() == k,
            forall|u: int| 0 <= u < k ==> colors@[u] == 0,
        decreases n - k,
    {
        colors.push(0);
        k = k + 1;
    }
    let mut ord: Vec<usize> = Vec::new();
    let mut path: Vec<usize> = Vec::new();
    proof {
        assert(spec_dfs_inv(adjs_of(adj@), colors@, ord@, path@));
    }
    let mut v: usize = 0;
    while v < n
        invariant
            spec_schema_wf(schema@),
            n == schema@.len(),
            spec_adj_wf(adjs_of(adj@), schema@),
            spec_adj_ok(adjs_of(adj@)),
            v <= n,
            colors@.len() == n,
            path@.len() == 0,
            spec_dfs_inv(adjs_of(adj@), colors@, ord@, path@),
            forall|u: int| 0 <= u < v ==> colors@[u] != 0,
        decreases n - v,
    {
        if colors[v] == 0 {
            let ghost mid_colors = colors@;
            match visit(&adj, &mut colors, &mut ord, &mut path, v) {
                Ok(()) => {
                    proof {
                        assert forall|u: int| 0 <= u < v + 1 implies colors@[u] != 0 by {
                            if colors@[u] == 0 {
                                assert(mid_colors[u] == 0);
                            }
                        }
                    }
                },
                Err(cyc) => {
                    proof {
                        assert forall|kk: int|
                            0 <= kk < cyc@.len() implies (#[trigger] cyc@[kk]) < schema@.len() by {
                            assert(cyc@[kk] < adjs_of(adj@).len());
                        }
                    }
                    let names = names_at(schema, &cyc);
                    proof {
                        let ts = schema@;
                        let nm = seqs_of(names@);
                        assert forall|k1: int, k2: int|
                            0 <= k1 < k2 < nm.len() implies nm[k1] != nm[k2] by {
                            let a = cyc@[k1] as int;
                            let b = cyc@[k2] as int;
                            assert(a != b);
                            if a < b {
                                assert(ts[a].name != ts[b].name);
                            } else {
                                assert(ts[b].name != ts[a].name);
                            }
                        }
                        assert forall|kk: int|
                            0 <= kk < nm.len() implies spec_has_table(ts, #[trigger] nm[kk]) by {
                            assert(ts[cyc@[kk] as int].name == nm[kk]);
                        }
                        assert forall|kk: int|
                            0 <= kk < nm.len() - 1 implies spec_edge_names(
                            ts,
                            #[trigger] nm[kk],
                            nm[kk + 1],
                        ) by {
                            let a = cyc@[kk] as int;
                            let b = cyc@[kk + 1];
                            assert(adjs_of(adj@)[a].contains(b));
                            let mm = choose|mm: int|
                                0 <= mm < adjs_of(adj@)[a].len() && adjs_of(adj@)[a][mm] == b;
                            assert(spec_edge(ts, a, adjs_of(adj@)[a][mm] as int));
                        }
                        assert(spec_edge_names(ts, nm.last(), nm[0])) by {
                            let a = cyc@[cyc@.len() - 1] as int;
                            let b = cyc@[0];
                            assert(adjs_of(adj@)[a].contains(b));
                            let mm = choose|mm: int|
                                0 <= mm < adjs_of(adj@)[a].len() && adjs_of(adj@)[a][mm] == b;
                            assert(spec_edge(ts, a, adjs_of(adj@)[a][mm] as int));
                            assert(nm.last() == ts[a].name);
                        }
                        assert(spec_name_cycle(ts, nm));
                    }
                    return Err(Error::Cycle(names));
                },
            }
        }
        v = v + 1;
    }
    proof {
        assert forall|u: int| 0 <= u < n implies colors@[u] == 2 by {
            assert(colors@[u] != 0);
            if colors@[u] == 1 {
                assert(path@.contains(u as usize));
                let kk = choose|kk: int| 0 <= kk < path@.len() && path@[kk] == u as usize;
            }
        }
        let ints = ord@.map_values(|x: usize| x as int);
        assert(ints.no_duplicates()) by {
            assert forall|k1: int, k2: int|
                0 <= k1 < ints.len() && 0 <= k2 < ints.len() && k1 != k2 implies ints[k1]
                != ints[k2] by {
                if k1 < k2 {
                    assert(ord@[k1] != ord@[k2]);
                } else {
                    assert(ord@[k2] != ord@[k1]);
                }
            }
        }
        ints.unique_seq_to_set();
        assert(ints.to_set() =~= set_int_range(0, n as int)) by {
            assert forall|x: int| ints.to_set().contains(x) implies set_int_range(
                0,
                n as int,
            ).contains(x) by {
                let kk = choose|kk: int| 0 <= kk < ints.len() && ints[kk] == x;
                assert(ord@[kk] < n);
            }
            assert forall|x: int| set_int_range(0, n as int).contains(x) implies ints
                .to_set()
                .contains(x) by {
                assert(colors@[x] == 2);
                assert(ord@.contains(x as usize));
                let kk = choose|kk: int| 0 <= kk < ord@.len() && ord@[kk] == x as usize;
                assert(ints[kk] == x);
                assert(ints.contains(x));
            }
        }
        lemma_int_range(0, n as int);
        assert(ord@.len() == n);
        assert forall|kk: int| 0 <= kk < ord@.len() implies (#[trigger] ord@[kk]) < n by {}
    }
    let names = names_at(schema, &ord);
    proof {
        let ts = schema@;
        let nm = seqs_of(names@);
        assert(nm.len() == n);
        assert forall|k1: int, k2: int| 0 <= k1 < k2 < nm.len() implies nm[k1] != nm[k2] by {
            let a = ord@[k1] as int;
            let b = ord@[k2] as int;
            assert(a != b);
            if a < b {
                assert(ts[a].name != ts[b].name);
            } else {
                assert(ts[b].name != ts[a].name);
            }
        }
        assert forall|kk: int|
            0 <= kk < nm.len() implies spec_has_table(ts, #[trigger] nm[kk]) by {
            assert(ts[ord@[kk] as int].name == nm[kk]);
        }
        assert forall|i: int| 0 <= i < ts.len() implies nm.contains(#[trigger] ts[i].name) by {
            assert(colors@[i] == 2);
            assert(ord@.contains(i as usize));
            let kk = choose|kk: int| 0 <= kk < ord@.len() && ord@[kk] == i as usize;
            assert(nm[kk] == ts[i].name);
        }
        assert forall|i: int, j: int|
            spec_edge(ts, i, j) implies spec_name_pos(nm, ts[j].name) < spec_name_pos(
            nm,
            ts[i].name,
        ) by {
            assert(colors@[i] == 2);
            assert(ord@.contains(i as usize));
            let ki = choose|kk: int| 0 <= kk < ord@.len() && ord@[kk] == i as usize;
            assert(adjs_of(adj@)[i].contains(j as usize));
            let mm = choose|mm: int|
                0 <= mm < adjs_of(adj@)[i].len() && adjs_of(adj@)[i][mm] == j as usize;
            assert(ord@.subrange(0, ki).contains(j as usize));
            let kj = choose|kk: int|
                0 <= kk < ord@.subrange(0, ki).len() && ord@.subrange(0, ki)[kk] == j as usize;
            assert(ord@[kj] == j as usize);
            assert(kj < ki);
            let pi = spec_name_pos(nm, ts[i].name);
            let pj = spec_name_pos(nm, ts[j].name);
            assert(nm[ki] == ts[i].name);
            assert(nm[kj] == ts[j].name);
            assert(0 <= pi < nm.len() && nm[pi] == ts[i].name);
            assert(0 <= pj < nm.len() && nm[pj] == ts[j].name);
            assert(ts[ord@[pi] as int].name == ts[i].name);
            assert(ord@[pi] as int == i) by {
                let o: int = ord@[pi] as int;
                if o < i {
                    assert(ts[o].name != ts[i].name);
                } else if o > i {
                    assert(ts[i].name != ts[o].name);
                }
            }
            assert(pi == ki);
            assert(ord@[pj] as int == j) by {
                let o: int = ord@[pj] as int;
                if o < j {
                    assert(ts[o].name != ts[j].name);
                } else if o > j {
                    assert(ts[j].name != ts[o].name);
                }
            }
            assert(pj == kj);
        }
        assert(spec_safe_order(ts, nm));
    }
    Ok(names)
}


/// Law: a safe creation order, reversed, is a safe drop order: along every
/// reference edge the referencing table comes before the table it
/// references, so dependents are dropped first.
pub proof fn lemma_reverse_is_safe_drop_order(
    ts: Seq<TableV>,
    names: Seq<Seq<char>>,
    i: int,
    j: int,
)
    requires
        spec_safe_order(ts, names),
        spec_edge(ts, i, j),
    ensures
        spec_name_pos(names.reverse(), ts[i].name) < spec_name_pos(names.reverse(), ts[j].name),
{
    let n = names.len() as int;
    let rev = names.reverse();
    let pi = spec_name_pos(names, ts[i].name);
    let pj = spec_name_pos(names, ts[j].name);
    assert(names.contains(ts[i].name));
    assert(names.contains(ts[j].name));
    assert(0 <= pi < n && names[pi] == ts[i].name) by {
        let k = choose|k: int| 0 <= k < names.len() && names[k] == ts[i].name;
    }
    assert(0 <= pj < n && names[pj] == ts[j].name) by {
        let k = choose|k: int| 0 <= k < names.len() && names[k] == ts[j].name;
    }
    assert(pj < pi);
    let qi = spec_name_pos(rev, ts[i].name);
    let qj = spec_name_pos(rev, ts[j].name);
    assert(rev[n - 1 - pi] == ts[i].name);
    assert(rev[n - 1 - pj] == ts[j].name);
    assert(0 <= qi < rev.len() && rev[qi] == ts[i].name) by {
        let k = choose|k: int| 0 <= k < rev.len() && rev[k] == ts[i].name;
    }
    assert(0 <= qj < rev.len() && rev[qj] == ts[j].name) by {
        let k = choose|k: int| 0 <= k < rev.len() && rev[k] == ts[j].name;
    }
    assert(names[n - 1 - qi] == ts[i].name);
    assert(qi == n - 1 - pi) by {
        if n - 1 - qi < pi {
            assert(names[n - 1 - qi] != names[pi]);
        } else if n - 1 - qi > pi {
            assert(names[pi] != names[n - 1 - qi]);
        }
    }
    assert(names[n - 1 - qj] == ts[j].name);
    assert(qj == n - 1 - pj) by {
        if n - 1 - qj < pj {
            assert(names[n - 1 - qj] != names[pj]);
        } else if n - 1 - qj > pj {
            assert(names[pj] != names[n - 1 - qj]);
        }
    }
}

/// No name order can respect the dependency discipline of a schema whose
/// tables `i` and `j` reference each other: the law behind reporting such a
/// pair as a cycle instead of ordering it.
pub proof fn lemma_cycle_blocks_order(ts: Seq<TableV>, names: Seq<Seq<char>>, i: int, j: int)
    requires
        spec_edge(ts, i, j),
        spec_edge(ts, j, i),
    ensures
        !spec_safe_order(ts, names),
{
    if spec_safe_order(ts, names) {
        assert(spec_name_pos(names, ts[j].name) < spec_name_pos(names, ts[i].name));
        assert(spec_name_pos(names, ts[i].name) < spec_name_pos(names, ts[j].name));
    }
}

} // verus!
