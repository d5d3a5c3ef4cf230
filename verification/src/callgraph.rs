//! The procedure partition: each call target seeds a procedure holding the
//! nodes reachable from it without crossing a call edge. The entry
//! procedure sits first and is popped last, so emission renders callees as
//! named functions and the entry as the main body.

use vstd::prelude::*;
use crate::analyse::count_unvisited;
use crate::graph::{EdgeKind, FlowGraph};

verus! {

pub struct CallGraph {
    pub procs: Vec<Vec<usize>>,
}

impl CallGraph {
    /// Every listed node exists, every procedure is nonempty.
    pub open spec fn wf(self, g: FlowGraph) -> bool {
        &&& self.procs@.len() >= 1
        &&& forall|p: int|
            0 <= p < self.procs@.len() ==> (#[trigger] self.procs@[p])@.len() > 0
        &&& forall|p: int, i: int|
            0 <= p < self.procs@.len() && 0 <= i < self.procs@[p]@.len() ==> (
            #[trigger] self.procs@[p]@[i]) < g.nodes@.len()
    }

    /// The first procedure starts at the node owning the entry offset.
    pub open spec fn entry_first(self, g: FlowGraph) -> bool {
        self.procs@[0]@[0] == g.owner@[0]->0
    }

    /// Every call edge's target node seeds some procedure.
    pub open spec fn covers_calls(self, g: FlowGraph) -> bool {
        forall|n: int, k: int|
            0 <= n < g.nodes@.len() && 0 <= k < g.nodes@[n].edges@.len() && (
            #[trigger] g.nodes@[n].edges@[k]).kind is Call ==> exists|p: int|
                0 <= p < self.procs@.len() && (#[trigger] self.procs@[p])@[0]
                    == g.owner@[g.nodes@[n].edges@[k].target as int]->0
    }

    /// Procedures are closed under their nodes' non-call edges.
    pub open spec fn closed_local(self, g: FlowGraph) -> bool {
        forall|p: int, i: int, k: int|
            0 <= p < self.procs@.len() && 0 <= i < self.procs@[p]@.len() && 0 <= k
                < g.nodes@[self.procs@[p]@[i] as int].edges@.len() && !((
            #[trigger] g.nodes@[self.procs@[p]@[i] as int].edges@[k]).kind is Call)
                ==> self.procs@[p]@.contains(
                g.owner@[g.nodes@[self.procs@[p]@[i] as int].edges@[k].target as int]->0,
            )
    }

    pub fn len(&self) -> (r: usize)
        ensures
            r == self.procs@.len(),
    {
        self.procs.len()
    }

    /// Takes the next procedure to emit; the entry procedure comes last.
    pub fn pop(&mut self) -> (r: Option<Vec<usize>>)
        ensures
            old(self).procs@.len() == 0 ==> r is None && final(self).procs@ == old(self).procs@,
            old(self).procs@.len() > 0 ==> r is Some && r->0 == old(self).procs@.last()
                && final(self).procs@ == old(self).procs@.drop_last(),
    {
        self.procs.pop()
    }
}

/// One procedure is closed under its nodes' non-call edges.
pub open spec fn proc_closed(g: FlowGraph, f: Seq<usize>) -> bool {
    forall|i: int, k: int|
        0 <= i < f.len() && 0 <= k < g.nodes@[f[i] as int].edges@.len() && !((
        #[trigger] g.nodes@[f[i] as int].edges@[k]).kind is Call) ==> f.contains(
            g.owner@[g.nodes@[f[i] as int].edges@[k].target as int]->0,
        )
}

impl CallGraph {
    /// Each procedure of a closed partition is itself closed.
    pub proof fn lemma_proc_closed(self, g: FlowGraph, p: int)
        requires
            self.closed_local(g),
            0 <= p < self.procs@.len(),
        ensures
            proc_closed(g, self.procs@[p]@),
    {
    }

    /// A covered call target that is not the entry procedure's seed is the
    /// seed of some procedure after the entry: one that emission names.
    pub proof fn lemma_cover_is_non_entry(self, g: FlowGraph, n: int, k: int)
        requires
            self.covers_calls(g),
            self.procs@.len() >= 1,
            0 <= n < g.nodes@.len(),
            0 <= k < g.nodes@[n].edges@.len(),
            g.nodes@[n].edges@[k].kind is Call,
            g.owner@[g.nodes@[n].edges@[k].target as int]->0 != self.procs@[0]@[0],
        ensures
            exists|p: int|
                1 <= p < self.procs@.len() && (#[trigger] self.procs@[p])@[0]
                    == g.owner@[g.nodes@[n].edges@[k].target as int]->0,
    {
        let t = g.owner@[g.nodes@[n].edges@[k].target as int]->0;
        let p = choose|p: int|
            0 <= p < self.procs@.len() && (#[trigger] self.procs@[p])@[0] == t;
        assert(p != 0);
        assert(self.procs@[p]@[0] == t);
    }
}

/// The nodes reachable from `seed` without crossing a call edge, the seed
/// itself first.
fn expand_procedure(g: &FlowGraph, seed: usize) -> (r: Vec<usize>)
    requires
        g.wf(),
        g.edge_targets_are_entries(),
        seed < g.nodes@.len(),
    ensures
        r@.len() > 0,
        r@[0] == seed,
        forall|i: int| 0 <= i < r@.len() ==> (#[trigger] r@[i]) < g.nodes@.len(),
        forall|i: int, k: int|
            0 <= i < r@.len() && 0 <= k < g.nodes@[r@[i] as int].edges@.len() && !((
            #[trigger] g.nodes@[r@[i] as int].edges@[k]).kind is Call) ==> r@.contains(
                g.owner@[g.nodes@[r@[i] as int].edges@[k].target as int]->0,
            ),
{
    let nn = g.nodes.len();
    let mut visited: Vec<bool> = Vec::new();
    let mut k: usize = 0;
    while k < nn
        invariant
            k <= nn,
            visited@.len() == k,
            forall|i: int| 0 <= i < k ==> !(#[trigger] visited@[i]),
        decreases nn - k,
    {
        visited.push(false);
        k = k + 1;
    }
    let mut out: Vec<usize> = Vec::new();
    let mut worklist: Vec<usize> = Vec::new();
    visited.set(seed, true);
    out.push(seed);
    worklist.push(seed);
    proof {
        assert(out@[0] == seed);
        assert(out@.contains(seed));
        assert(worklist@[0] == seed);
        assert(worklist@.contains(seed));
    }
    loop
        invariant
            nn == g.nodes@.len(),
            g.wf(),
            g.edge_targets_are_entries(),
            visited@.len() == nn,
            out@.len() > 0,
            out@[0] == seed,
            forall|i: int| 0 <= i < out@.len() ==> (#[trigger] out@[i]) < nn,
            forall|i: int| 0 <= i < out@.len() ==> visited@[#[trigger] out@[i] as int],
            forall|m: int| 0 <= m < nn && (#[trigger] visited@[m]) ==> out@.contains(m as usize),
            forall|w: int|
                0 <= w < worklist@.len() ==> (#[trigger] worklist@[w]) < nn
                    && visited@[worklist@[w] as int],
            forall|m: int|
                0 <= m < nn && (#[trigger] visited@[m]) ==> (worklist@.contains(m as usize)
                    || (forall|k2: int|
                    0 <= k2 < g.nodes@[m].edges@.len() && !((#[trigger] g.nodes@[m].edges@[k2]).kind is Call)
                        ==> visited@[g.owner@[g.nodes@[m].edges@[k2].target as int]->0 as int])),
        ensures
            worklist@.len() == 0,
        decreases count_unvisited(visited@), worklist@.len(),
    {
        let ghost wl_entry = worklist@;
        let popped = worklist.pop();
        let m = match popped {
            Some(m) => m,
            None => {
                break ;
            },
        };
        proof {
            assert(worklist@ == wl_entry.drop_last());
            assert(m == wl_entry.last());
            assert forall|mm: int|
                0 <= mm < nn && (#[trigger] visited@[mm]) && mm != m implies (worklist@.contains(
                    mm as usize,
                ) || (forall|k2: int|
                    0 <= k2 < g.nodes@[mm].edges@.len() && !((#[trigger] g.nodes@[mm].edges@[k2]).kind is Call)
                        ==> visited@[g.owner@[g.nodes@[mm].edges@[k2].target as int]->0 as int])) by {
                if wl_entry.contains(mm as usize) {
                    let w = choose|w: int| 0 <= w < wl_entry.len() && wl_entry[w] == mm as usize;
                    assert(w != wl_entry.len() - 1);
                    assert(worklist@[w] == mm as usize);
                    assert(worklist@.contains(mm as usize));
                }
            }
        }
        let ghost v0 = visited@;
        let ghost out0 = out@;
        let ghost wl0 = worklist@;
        let ne = g.nodes[m].edges.len();
        let mut e: usize = 0;
        while e < ne
            invariant
                m < nn,
                nn == g.nodes@.len(),
                g.wf(),
                g.edge_targets_are_entries(),
                e <= ne,
                ne == g.nodes@[m as int].edges@.len(),
                visited@.len() == nn,
                out@.len() > 0,
                out@[0] == seed,
                forall|i: int| 0 <= i < out@.len() ==> (#[trigger] out@[i]) < nn,
                forall|i: int| 0 <= i < out@.len() ==> visited@[#[trigger] out@[i] as int],
                forall|mm: int|
                    0 <= mm < nn && (#[trigger] visited@[mm]) ==> out@.contains(mm as usize),
                forall|w: int|
                    0 <= w < worklist@.len() ==> (#[trigger] worklist@[w]) < nn
                        && visited@[worklist@[w] as int],
                v0.len() == nn,
                forall|i: int| 0 <= i < v0.len() && (#[trigger] v0[i]) ==> visited@[i],
                forall|mm: int|
                    0 <= mm < nn && (#[trigger] visited@[mm]) && mm != m ==> (worklist@.contains(
                        mm as usize,
                    ) || (forall|k2: int|
                        0 <= k2 < g.nodes@[mm].edges@.len() && !((#[trigger] g.nodes@[mm].edges@[k2]).kind is Call)
                            ==> visited@[g.owner@[g.nodes@[mm].edges@[k2].target as int]->0 as int])),
                forall|k2: int|
                    0 <= k2 < e && !((#[trigger] g.nodes@[m as int].edges@[k2]).kind is Call)
                        ==> visited@[g.owner@[g.nodes@[m as int].edges@[k2].target as int]->0 as int],
                count_unvisited(visited@) <= count_unvisited(v0),
                count_unvisited(visited@) < count_unvisited(v0) || worklist@ == wl0,
            decreases ne - e,
        {
            let ed = g.nodes[m].edges[e];
            let is_call = match ed.kind {
                EdgeKind::Call => true,
                _ => false,
            };
            if !is_call {
                proof {
                    assert(g.nodes@[m as int].edges@[e as int] == ed);
                }
                let towner = match g.owner[ed.target as usize] {
                    Some(t) => t,
                    None => {
                        proof {
                            assert(false);
                        }
                        0
                    },
                };
                if !visited[towner] {
                    let ghost vprev = visited@;
                    let ghost oprev = out@;
                    let ghost wprev = worklist@;
                    visited.set(towner, true);
                    out.push(towner);
                    worklist.push(towner);
                    proof {
                        crate::analyse::lemma_count_update_true(vprev, towner as int);
                        assert(out@[out@.len() - 1] == towner);
                        assert(worklist@[worklist@.len() - 1] == towner);
                        assert(out@.contains(towner));
                        assert(worklist@.contains(towner));
                        assert forall|mm: int|
                            0 <= mm < nn && (#[trigger] visited@[mm]) implies out@.contains(
                            mm as usize,
                        ) by {
                            if mm != towner {
                                assert(vprev[mm]);
                                assert(oprev.contains(mm as usize));
                                let i2 = choose|i2: int|
                                    0 <= i2 < oprev.len() && oprev[i2] == mm as usize;
                                assert(out@[i2] == mm as usize);
                            }
                        }
                        assert forall|mm: int|
                            0 <= mm < nn && (#[trigger] visited@[mm]) && mm != m implies (
                        worklist@.contains(mm as usize) || (forall|k2: int|
                            0 <= k2 < g.nodes@[mm].edges@.len() && !((
                            #[trigger] g.nodes@[mm].edges@[k2]).kind is Call)
                                ==> visited@[g.owner@[g.nodes@[mm].edges@[k2].target as int]->0 as int])) by {
                            if mm != towner {
                                assert(vprev[mm]);
                                if wprev.contains(mm as usize) {
                                    let w2 = choose|w2: int|
                                        0 <= w2 < wprev.len() && wprev[w2] == mm as usize;
                                    assert(worklist@[w2] == mm as usize);
                                    assert(worklist@.contains(mm as usize));
                                } else {
                                    assert forall|k2: int|
                                        0 <= k2 < g.nodes@[mm].edges@.len() && !((
                                    #[trigger] g.nodes@[mm].edges@[k2]).kind is Call) implies
                                        visited@[g.owner@[g.nodes@[mm].edges@[k2].target as int]->0 as int] by {
                                        assert(vprev[g.owner@[g.nodes@[mm].edges@[k2].target as int]->0 as int]);
                                    }
                                }
                            }
                        }
                    }
                }
            }
            e = e + 1;
        }
        proof {
            // the popped node is now fully expanded, or is still queued
            assert forall|mm: int|
                0 <= mm < nn && (#[trigger] visited@[mm]) implies (worklist@.contains(mm as usize)
                    || (forall|k2: int|
                    0 <= k2 < g.nodes@[mm].edges@.len() && !((#[trigger] g.nodes@[mm].edges@[k2]).kind is Call)
                        ==> visited@[g.owner@[g.nodes@[mm].edges@[k2].target as int]->0 as int])) by {
            }
        }
    }
    proof {
        assert forall|i: int, k2: int|
            0 <= i < out@.len() && 0 <= k2 < g.nodes@[out@[i] as int].edges@.len() && !((
        #[trigger] g.nodes@[out@[i] as int].edges@[k2]).kind is Call) implies out@.contains(
            g.owner@[g.nodes@[out@[i] as int].edges@[k2].target as int]->0,
        ) by {
            let mm = out@[i] as int;
            assert(visited@[mm]);
            assert(!worklist@.contains(mm as usize));
            let t = g.owner@[g.nodes@[mm].edges@[k2].target as int]->0 as int;
            assert(visited@[t]);
        }
    }
    out
}


/// Partitions the flow graph into procedures: the entry procedure first,
/// then one procedure per call target, in first-call order.
pub fn construct_call_graph(g: &FlowGraph) -> (r: CallGraph)
    requires
        g.wf(),
        g.edge_targets_are_entries(),
        g.owner@.len() > 0,
        g.owner@[0] is Some,
    ensures
        r.wf(*g),
        r.entry_first(*g),
        r.covers_calls(*g),
        r.closed_local(*g),
        forall|p: int|
            0 <= p < r.procs@.len() ==> (#[trigger] r.procs@[p])@[0] < g.nodes@.len(),
{
    let entry_node = match g.owner[0] {
        Some(n) => n,
        None => {
            proof {
                assert(false);
            }
            0
        },
    };
    let mut seeds: Vec<usize> = Vec::new();
    seeds.push(entry_node);
    proof {
        assert(seeds@[0] == entry_node);
    }
    let nn = g.nodes.len();
    let mut n: usize = 0;
    while n < nn
        invariant
            n <= nn,
            nn == g.nodes@.len(),
            g.wf(),
            g.edge_targets_are_entries(),
            seeds@.len() >= 1,
            seeds@[0] == entry_node,
            forall|i: int| 0 <= i < seeds@.len() ==> (#[trigger] seeds@[i]) < nn,
            forall|n2: int, k: int|
                0 <= n2 < n && 0 <= k < g.nodes@[n2].edges@.len() && (
                #[trigger] g.nodes@[n2].edges@[k]).kind is Call ==> seeds@.contains(
                    g.owner@[g.nodes@[n2].edges@[k].target as int]->0,
                ),
        decreases nn - n,
    {
        let ne = g.nodes[n].edges.len();
        let mut k: usize = 0;
        while k < ne
            invariant
                n < nn,
                nn == g.nodes@.len(),
                g.wf(),
                g.edge_targets_are_entries(),
                k <= ne,
                ne == g.nodes@[n as int].edges@.len(),
                seeds@.len() >= 1,
                seeds@[0] == entry_node,
                forall|i: int| 0 <= i < seeds@.len() ==> (#[trigger] seeds@[i]) < nn,
                forall|n2: int, k2: int|
                    0 <= n2 < n && 0 <= k2 < g.nodes@[n2].edges@.len() && (
                    #[trigger] g.nodes@[n2].edges@[k2]).kind is Call ==> seeds@.contains(
                        g.owner@[g.nodes@[n2].edges@[k2].target as int]->0,
                    ),
                forall|k2: int|
                    0 <= k2 < k && (#[trigger] g.nodes@[n as int].edges@[k2]).kind is Call
                        ==> seeds@.contains(g.owner@[g.nodes@[n as int].edges@[k2].target as int]->0),
            decreases ne - k,
        {
            let ed = g.nodes[n].edges[k];
            let is_call = match ed.kind {
                EdgeKind::Call => true,
                _ => false,
            };
            if is_call {
                proof {
                    assert(g.nodes@[n as int].edges@[k as int] == ed);
                }
                let towner = match g.owner[ed.target as usize] {
                    Some(t) => t,
                    None => {
                        proof {
                            assert(false);
                        }
                        0
                    },
                };
                let mut already = false;
                let sl = seeds.len();
                let mut i: usize = 0;
                while i < sl
                    invariant
                        i <= sl,
                        sl == seeds@.len(),
                        already == exists|j: int| 0 <= j < i && seeds@[j] == towner,
                    decreases sl - i,
                {
                    if seeds[i] == towner {
                        already = true;
                    }
                    i = i + 1;
                }
                if !already {
                    let ghost seeds0 = seeds@;
                    seeds.push(towner);
                    proof {
                        assert(seeds@[seeds@.len() - 1] == towner);
                        assert forall|n2: int, k2: int|
                            0 <= n2 < n && 0 <= k2 < g.nodes@[n2].edges@.len() && (
                        #[trigger] g.nodes@[n2].edges@[k2]).kind is Call implies seeds@.contains(
                            g.owner@[g.nodes@[n2].edges@[k2].target as int]->0,
                        ) by {
                            let v = g.owner@[g.nodes@[n2].edges@[k2].target as int]->0;
                            assert(seeds0.contains(v));
                            let j = choose|j: int| 0 <= j < seeds0.len() && seeds0[j] == v;
                            assert(seeds@[j] == v);
                        }
                        assert forall|k2: int|
                            0 <= k2 < k + 1 && (#[trigger] g.nodes@[n as int].edges@[k2]).kind
                                is Call implies seeds@.contains(
                            g.owner@[g.nodes@[n as int].edges@[k2].target as int]->0,
                        ) by {
                            if k2 < k {
                                let v = g.owner@[g.nodes@[n as int].edges@[k2].target as int]->0;
                                assert(seeds0.contains(v));
                                let j = choose|j: int| 0 <= j < seeds0.len() && seeds0[j] == v;
                                assert(seeds@[j] == v);
                            } else {
                                assert(seeds@.contains(towner));
                            }
                        }
                    }
                } else {
                    proof {
                        assert(seeds@.contains(towner));
                    }
                }
            }
            k = k + 1;
        }
        n = n + 1;
    }
    let mut procs: Vec<Vec<usize>> = Vec::new();
    let sl = seeds.len();
    let mut p: usize = 0;
    while p < sl
        invariant
            p <= sl,
            sl == seeds@.len(),
            nn == g.nodes@.len(),
            g.wf(),
            g.edge_targets_are_entries(),
            procs@.len() == p,
            forall|i: int| 0 <= i < seeds@.len() ==> (#[trigger] seeds@[i]) < nn,
            forall|q: int|
                0 <= q < p ==> (#[trigger] procs@[q])@.len() > 0 && procs@[q]@[0] == seeds@[q],
            forall|q: int, i: int|
                0 <= q < p && 0 <= i < procs@[q]@.len() ==> (#[trigger] procs@[q]@[i]) < nn,
            forall|q: int, i: int, k2: int|
                0 <= q < p && 0 <= i < procs@[q]@.len() && 0 <= k2
                    < g.nodes@[procs@[q]@[i] as int].edges@.len() && !((
                #[trigger] g.nodes@[procs@[q]@[i] as int].edges@[k2]).kind is Call)
                    ==> procs@[q]@.contains(
                    g.owner@[g.nodes@[procs@[q]@[i] as int].edges@[k2].target as int]->0,
                ),
        decreases sl - p,
    {
        let proc = expand_procedure(g, seeds[p]);
        procs.push(proc);
        p = p + 1;
    }
    let r = CallGraph { procs };
    proof {
        assert(r.procs@.len() == seeds@.len());
        assert forall|n2: int, k: int|
            0 <= n2 < g.nodes@.len() && 0 <= k < g.nodes@[n2].edges@.len() && (
        #[trigger] g.nodes@[n2].edges@[k]).kind is Call implies exists|q: int|
            0 <= q < r.procs@.len() && (#[trigger] r.procs@[q])@[0]
                == g.owner@[g.nodes@[n2].edges@[k].target as int]->0 by {
            let v = g.owner@[g.nodes@[n2].edges@[k].target as int]->0;
            assert(seeds@.contains(v));
            let j = choose|j: int| 0 <= j < seeds@.len() && seeds@[j] == v;
            assert(r.procs@[j]@[0] == v);
        }
    }
    r
}

} // verus!
