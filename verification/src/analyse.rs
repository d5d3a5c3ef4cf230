//! The analysis driver: a worklist over reachable offsets, then basic-block
//! formation, then edge construction.
//!
//! The worklist decodes each offset control can reach, records which offsets
//! begin blocks, and terminates because every step either retires a worklist
//! entry or visits an offset for the first time.

use vstd::prelude::*;
use crate::chip8::{
    decode, decode_spec, is_plain, is_skip, lemma_decode_operand_shapes, plain_exec, skip_exec,
    Instruction, Mnemonic, Operand, LOAD_BASE, MAX_PROGRAM,
};
use crate::errors::AnalysisError;
use crate::graph::{successors_spec, Edge, EdgeKind, FlowGraph, Node};

verus! {

/// How many offsets are still unvisited.
pub open spec fn count_unvisited(s: Seq<bool>) -> nat
    decreases s.len(),
{
    if s.len() == 0 {
        0
    } else {
        (if s.last() {
            0nat
        } else {
            1nat
        }) + count_unvisited(s.drop_last())
    }
}

pub proof fn lemma_count_update_true(s: Seq<bool>, i: int)
    requires
        0 <= i < s.len(),
        !s[i],
    ensures
        count_unvisited(s.update(i, true)) < count_unvisited(s),
    decreases s.len(),
{
    let t = s.update(i, true);
    if i == s.len() - 1 {
        assert(t.drop_last() =~= s.drop_last());
        assert(t.last() && !s.last());
    } else {
        assert(t.drop_last() =~= s.drop_last().update(i, true));
        assert(t.last() == s.last());
        lemma_count_update_true(s.drop_last(), i);
    }
}

/// The targets of one decoded instruction have been taken: in range,
/// visited, and marked as block entries unless reached by fall-through.
pub open spec fn succ_targets_ok(
    visited: Seq<bool>,
    leader: Seq<bool>,
    inst: Instruction,
    o: int,
) -> bool {
    forall|k: int|
        0 <= k < successors_spec(inst, o).len() ==> {
            let p = #[trigger] successors_spec(inst, o)[k];
            &&& 0 <= p.1
            &&& p.1 + 1 < visited.len()
            &&& visited[p.1]
            &&& ((p.0 is FallThrough) || (p.1 < leader.len() && leader[p.1]))
        }
}

proof fn lemma_succ_ok_monotone(
    v1: Seq<bool>,
    v2: Seq<bool>,
    l1: Seq<bool>,
    l2: Seq<bool>,
    inst: Instruction,
    o: int,
)
    requires
        succ_targets_ok(v1, l1, inst, o),
        v2.len() == v1.len(),
        l2.len() == l1.len(),
        forall|i: int| 0 <= i < v1.len() && v1[i] ==> v2[i],
        forall|i: int| 0 <= i < l1.len() && l1[i] ==> l2[i],
    ensures
        succ_targets_ok(v2, l2, inst, o),
{
    assert forall|k: int| 0 <= k < successors_spec(inst, o).len() implies {
        let p = #[trigger] successors_spec(inst, o)[k];
        &&& 0 <= p.1
        &&& p.1 + 1 < v2.len()
        &&& v2[p.1]
        &&& ((p.0 is FallThrough) || (p.1 < l2.len() && l2[p.1]))
    } by {
        let p = successors_spec(inst, o)[k];
        assert(v1[p.1]);
    }
}

/// Every decoded instruction's successor targets are decoded too, and are
/// block entries unless reached by fall-through.
pub open spec fn decoded_succ_ok(
    insts: Seq<Option<Instruction>>,
    leader: Seq<bool>,
    o: int,
) -> bool {
    forall|k: int|
        0 <= k < successors_spec(insts[o]->0, o).len() ==> {
            let p = #[trigger] successors_spec(insts[o]->0, o)[k];
            &&& 0 <= p.1
            &&& p.1 + 1 < insts.len()
            &&& insts[p.1] is Some
            &&& ((p.0 is FallThrough) || (p.1 < leader.len() && leader[p.1]))
        }
}

/// What exploration guarantees: every recorded instruction is the decoding
/// of its bytes, skips begin blocks, targets are recorded and marked, and
/// the entry offset is recorded and marked.
pub open spec fn explored(
    data: Seq<u8>,
    insts: Seq<Option<Instruction>>,
    leader: Seq<bool>,
) -> bool {
    &&& insts.len() == data.len()
    &&& leader.len() == data.len()
    &&& insts.len() > 0
    &&& insts[0] is Some
    &&& leader[0]
    &&& forall|o: int|
        0 <= o < insts.len() && (#[trigger] insts[o]) is Some ==> {
            &&& o + 1 < data.len()
            &&& Some(insts[o]->0) == decode_spec(data[o], data[o + 1])
            &&& (is_skip(insts[o]->0.mnemonic) ==> leader[o])
            &&& decoded_succ_ok(insts, leader, o)
        }
}

/// Every visited offset is either already decoded or still queued.
pub open spec fn frontier_ok(
    visited: Seq<bool>,
    insts: Seq<Option<Instruction>>,
    worklist: Seq<u16>,
) -> bool {
    forall|o: int|
        0 <= o < visited.len() && (#[trigger] visited[o]) ==> o + 1 < visited.len() && (insts[o]
            is Some || worklist.contains(o as u16))
}

proof fn lemma_push_keeps_contains(s: Seq<u16>, y: u16, x: u16)
    requires
        s.contains(x),
    ensures
        s.push(y).contains(x),
{
    let i = choose|i: int| 0 <= i < s.len() && s[i] == x;
    assert(s.push(y)[i] == x);
}

/// Marks a target visited and queues it if it was not visited before; marks
/// it a block entry when asked to.
fn take_target(
    visited: &mut Vec<bool>,
    worklist: &mut Vec<u16>,
    leader: &mut Vec<bool>,
    insts: &Vec<Option<Instruction>>,
    t: usize,
    mark: bool,
)
    requires
        t + 1 < old(visited)@.len(),
        old(leader)@.len() == old(visited)@.len(),
        old(visited)@.len() <= 0x10000,
        frontier_ok(old(visited)@, insts@, old(worklist)@),
    ensures
        frontier_ok(final(visited)@, insts@, final(worklist)@),
        final(visited)@.len() == old(visited)@.len(),
        final(leader)@.len() == old(leader)@.len(),
        forall|i: int|
            0 <= i < old(visited)@.len() ==> final(visited)@[i] == (old(visited)@[i] || i == t),
        forall|i: int|
            0 <= i < old(leader)@.len() ==> final(leader)@[i] == (old(leader)@[i] || (mark && i
                == t)),
        final(visited)@[t as int],
        mark ==> final(leader)@[t as int],
        old(visited)@[t as int] ==> final(worklist)@ == old(worklist)@ && final(visited)@ == old(
            visited,
        )@,
        !old(visited)@[t as int] ==> final(worklist)@ == old(worklist)@.push(t as u16)
            && count_unvisited(final(visited)@) < count_unvisited(old(visited)@),
        final(worklist)@ == old(worklist)@ || final(worklist)@ == old(worklist)@.push(t as u16),
{
    if !visited[t] {
        visited.set(t, true);
        worklist.push(t as u16);
        proof {
            lemma_count_update_true(old(visited)@, t as int);
            assert(worklist@[worklist@.len() - 1] == t as u16);
            assert forall|o: int|
                0 <= o < visited@.len() && (#[trigger] visited@[o]) implies o + 1 < visited@.len()
                    && (insts@[o] is Some || worklist@.contains(o as u16)) by {
                if o == t {
                    assert(worklist@.contains(t as u16));
                } else {
                    assert(old(visited)@[o]);
                    if !(insts@[o] is Some) {
                        lemma_push_keeps_contains(old(worklist)@, t as u16, o as u16);
                    }
                }
            }
        }
    } else {
        proof {
            assert(visited@ =~= old(visited)@);
        }
    }
    if mark {
        leader.set(t, true);
    }
    proof {
        if old(visited)@[t as int] {
            assert(visited@ =~= old(visited)@);
        }
    }
}


/// Exhibits an escaping transfer: the instruction at `o` decodes and its
/// successor at index `k` leaves the program.
proof fn lemma_escape_witness(data: Seq<u8>, o: int, k: int)
    requires
        0 <= o,
        o + 1 < data.len(),
        decode_spec(data[o], data[o + 1]) is Some,
        0 <= k < successors_spec(decode_spec(data[o], data[o + 1])->0, o).len(),
        !(0 <= successors_spec(decode_spec(data[o], data[o + 1])->0, o)[k].1
            && successors_spec(decode_spec(data[o], data[o + 1])->0, o)[k].1 + 1 < data.len()),
    ensures
        has_escaping_transfer(data),
{
    assert(!(0 <= (#[trigger] successors_spec(decode_spec(data[o], data[o + 1])->0, o)[k]).1
        && successors_spec(decode_spec(data[o], data[o + 1])->0, o)[k].1 + 1 < data.len()));
}

/// Some decodable instruction word has a successor that leaves the loaded
/// program: a transfer target below the load base or past the image's end.
pub open spec fn has_escaping_transfer(data: Seq<u8>) -> bool {
    exists|o: int, k: int|
        0 <= o && o + 1 < data.len() && decode_spec(data[o], data[o + 1]) is Some && 0 <= k
            < successors_spec(decode_spec(data[o], data[o + 1])->0, o).len() && !(0 <= (
        #[trigger] successors_spec(decode_spec(data[o], data[o + 1])->0, o)[k]).1
            && successors_spec(decode_spec(data[o], data[o + 1])->0, o)[k].1 + 1 < data.len())
}

/// Explores every offset control can reach from the entry, decoding each.
/// Fails on bytes that decode to no instruction and on transfers that leave
/// the program.
#[verifier::rlimit(60)]
fn explore(data: &Vec<u8>) -> (r: Result<(Vec<Option<Instruction>>, Vec<bool>), AnalysisError>)
    requires
        2 <= data@.len() <= MAX_PROGRAM,
    ensures
        r is Ok ==> explored(data@, r->Ok_0.0@, r->Ok_0.1@),
        r matches Err(AnalysisError::Decode { offset }) ==> offset + 1 < data@.len()
            && decode_spec(data@[offset as int], data@[offset as int + 1]) is None,
        r is Err ==> (r->Err_0 is Decode || r->Err_0 is TargetOutsideProgram),
        r is Err && r->Err_0 is TargetOutsideProgram ==> has_escaping_transfer(data@),
    {
    let n = data.len();
    let mut visited: Vec<bool> = Vec::new();
    let mut insts: Vec<Option<Instruction>> = Vec::new();
    let mut leader: Vec<bool> = Vec::new();
    let mut k: usize = 0;
    while k < n
        invariant
            k <= n,
            visited@.len() == k,
            insts@.len() == k,
            leader@.len() == k,
            forall|i: int| 0 <= i < k ==> !(#[trigger] visited@[i]),
            forall|i: int| 0 <= i < k ==> (#[trigger] insts@[i]) is None,
            forall|i: int| 0 <= i < k ==> !(#[trigger] leader@[i]),
        decreases n - k,
    {
        visited.push(false);
        insts.push(None);
        leader.push(false);
        k = k + 1;
    }
    let mut worklist: Vec<u16> = Vec::new();
    visited.set(0, true);
    leader.set(0, true);
    worklist.push(0);
    proof {
        assert(count_unvisited(visited@) <= visited@.len()) by {
            lemma_count_le_len(visited@);
        }
        assert(worklist@[0] == 0u16);
        assert(worklist@.contains(0u16));
    }
    loop
        invariant
            2 <= n <= MAX_PROGRAM,
            n == data@.len(),
            visited@.len() == n,
            insts@.len() == n,
            leader@.len() == n,
            visited@[0],
            leader@[0],
            forall|w: int|
                0 <= w < worklist@.len() ==> (#[trigger] worklist@[w] as int) + 1 < n
                    && visited@[worklist@[w] as int] && insts@[worklist@[w] as int] is None,
            forall|w1: int, w2: int|
                0 <= w1 < w2 < worklist@.len() ==> worklist@[w1] != worklist@[w2],
            frontier_ok(visited@, insts@, worklist@),
            forall|o: int|
                0 <= o < n && (#[trigger] insts@[o]) is Some ==> {
                    &&& visited@[o]
                    &&& Some(insts@[o]->0) == decode_spec(data@[o], data@[o + 1])
                    &&& (is_skip(insts@[o]->0.mnemonic) ==> leader@[o])
                    &&& succ_targets_ok(visited@, leader@, insts@[o]->0, o)
                },
        ensures
            worklist@.len() == 0,
        decreases count_unvisited(visited@), worklist@.len(),
    {
        let ghost wl_entry = worklist@;
        let popped = worklist.pop();
        let o: u16 = match popped {
            Some(o) => o,
            None => {
                break ;
            },
        };
        proof {
            assert(worklist@ == wl_entry.drop_last());
            assert(o == wl_entry.last());
        }
        let ou = o as usize;
        let hi = data[ou];
        let lo = data[ou + 1];
        let decoded = decode(hi, lo);
        let inst = match decoded {
            Some(inst) => inst,
            None => {
                return Err(AnalysisError::Decode { offset: o });
            },
        };
        insts.set(ou, Some(inst));
        let ghost v0 = visited@;
        let ghost l0 = leader@;
        proof {
            assert forall|w: int|
                0 <= w < worklist@.len() implies (#[trigger] worklist@[w] as int) + 1 < n
                    && visited@[worklist@[w] as int] && insts@[worklist@[w] as int] is None by {
                assert(wl_entry[w] == worklist@[w]);
                if worklist@[w] == o {
                    assert(wl_entry[w] == wl_entry[wl_entry.len() - 1]);
                    assert(false);
                }
            }
            assert forall|oo: int|
                0 <= oo < n && (#[trigger] insts@[oo]) is Some implies {
                    &&& visited@[oo]
                    &&& Some(insts@[oo]->0) == decode_spec(data@[oo], data@[oo + 1])
                } by {
            }
            assert forall|oo: int|
                0 <= oo < n && (#[trigger] visited@[oo]) implies oo + 1 < n && (insts@[oo] is Some
                    || worklist@.contains(oo as u16)) by {
                if oo != o {
                    if !(insts@[oo] is Some) {
                        assert(wl_entry.contains(oo as u16));
                        let w = choose|w: int|
                            0 <= w < wl_entry.len() && wl_entry[w] == oo as u16;
                        assert(w != wl_entry.len() - 1);
                        assert(worklist@[w] == oo as u16);
                        assert(worklist@.contains(oo as u16));
                    }
                }
            }
        }
        // Take the successors of this instruction, by its control kind.
        match inst.mnemonic {
            Mnemonic::JP | Mnemonic::CALL => {
                proof {
                    lemma_decode_operand_shapes(hi, lo);
                }
                let a = match inst.op1 {
                    Some(Operand::Address(a)) => a,
                    _ => {
                        proof {
                            assert(false);
                        }
                        return Err(AnalysisError::InvalidOperand);
                    },
                };
                if a < LOAD_BASE {
                    proof {
                        lemma_escape_witness(data@, o as int, 0);
                    }
                    return Err(AnalysisError::TargetOutsideProgram { address: a });
                }
                let t = (a - LOAD_BASE) as usize;
                if t + 1 >= n {
                    proof {
                        lemma_escape_witness(data@, o as int, 0);
                    }
                    return Err(AnalysisError::TargetOutsideProgram { address: a });
                }
                take_target(&mut visited, &mut worklist, &mut leader, &insts, t, true);
                if matches!(inst.mnemonic, Mnemonic::CALL) {
                    if ou + 3 >= n {
                        proof {
                            lemma_escape_witness(data@, o as int, 1);
                        }
                        return Err(
                            AnalysisError::TargetOutsideProgram { address: (o + 2) + 0x200 },
                        );
                    }
                    take_target(&mut visited, &mut worklist, &mut leader, &insts, ou + 2, true);
                }
            },
            Mnemonic::SE | Mnemonic::SNE | Mnemonic::SKP | Mnemonic::SKNP => {
                if ou + 5 >= n {
                    if ou + 3 >= n {
                        proof {
                            lemma_escape_witness(data@, o as int, 0);
                        }
                        return Err(
                            AnalysisError::TargetOutsideProgram { address: (o + 2) + 0x200 },
                        );
                    }
                    proof {
                        lemma_escape_witness(data@, o as int, 1);
                    }
                    return Err(AnalysisError::TargetOutsideProgram { address: (o + 4) + 0x200 });
                }
                take_target(&mut visited, &mut worklist, &mut leader, &insts, ou, true);
                take_target(&mut visited, &mut worklist, &mut leader, &insts, ou + 2, true);
                take_target(&mut visited, &mut worklist, &mut leader, &insts, ou + 4, true);
            },
            Mnemonic::RET | Mnemonic::EXIT => {
            },
            _ => {
                if ou + 3 >= n {
                    proof {
                        lemma_escape_witness(data@, o as int, 0);
                    }
                    return Err(AnalysisError::TargetOutsideProgram { address: (o + 2) + 0x200 });
                }
                take_target(&mut visited, &mut worklist, &mut leader, &insts, ou + 2, false);
            },
        }
        proof {
            assert forall|oo: int|
                0 <= oo < n && (#[trigger] insts@[oo]) is Some implies succ_targets_ok(
                visited@,
                leader@,
                insts@[oo]->0,
                oo,
            ) by {
                if oo == o {
                    lemma_succ_own(data@, insts@, visited@, leader@, v0, l0, o as int);
                } else {
                    lemma_succ_ok_monotone(v0, visited@, l0, leader@, insts@[oo]->0, oo);
                }
            }
        }
    }
    proof {
        assert forall|o: int|
            0 <= o < n && (#[trigger] insts@[o]) is Some implies decoded_succ_ok(
            insts@,
            leader@,
            o,
        ) by {
            assert forall|k2: int|
                0 <= k2 < successors_spec(insts@[o]->0, o).len() implies {
                    let p = #[trigger] successors_spec(insts@[o]->0, o)[k2];
                    &&& 0 <= p.1
                    &&& p.1 + 1 < insts@.len()
                    &&& insts@[p.1] is Some
                    &&& ((p.0 is FallThrough) || (p.1 < leader@.len() && leader@[p.1]))
                } by {
                let p = successors_spec(insts@[o]->0, o)[k2];
                assert(visited@[p.1]);
            }
        }
        assert(insts@[0] is Some) by {
            assert(visited@[0]);
        }
    }
    Ok((insts, leader))
}

/// Groups the decoded offsets into basic blocks: a block entry starts a
/// node, and a straight-line run extends one.
fn build_nodes(insts: Vec<Option<Instruction>>, leader: &Vec<bool>) -> (g: FlowGraph)
    requires
        insts@.len() == leader@.len(),
        insts@.len() <= MAX_PROGRAM,
    ensures
        g.wf(),
        g.insts@ == insts@,
        g.owner@.len() == insts@.len(),
        g.blocks_contiguous(leader@),
        forall|o: int| 0 <= o < insts@.len() ==> (g.owner@[o] is Some == (#[trigger] insts@[o])
            is Some),
        forall|n: int| 0 <= n < g.nodes@.len() ==> (#[trigger] g.nodes@[n]).edges@.len() == 0,
{
    let ln = insts.len();
    let mut owner: Vec<Option<usize>> = Vec::new();
    let mut k: usize = 0;
    while k < ln
        invariant
            k <= ln,
            owner@.len() == k,
            forall|i: int| 0 <= i < k ==> (#[trigger] owner@[i]) is None,
        decreases ln - k,
    {
        owner.push(None);
        k = k + 1;
    }
    let mut g = FlowGraph { nodes: Vec::new(), owner, insts };
    let mut last: usize = 0;
    let mut o: usize = 0;
    while o < ln
        invariant
            o <= ln,
            ln == g.insts@.len(),
            ln == leader@.len(),
            ln <= MAX_PROGRAM,
            g.owner@.len() == ln,
            g.insts@ == insts@,
            g.nodes@.len() <= o,
            forall|n: int| 0 <= n < g.nodes@.len() ==> #[trigger] g.node_wf(n),
            forall|x: int|
                0 <= x < g.owner@.len() && g.owner@[x] is Some ==> (#[trigger] g.owner@[x]->0
                    < g.nodes@.len() && g.nodes@[g.owner@[x]->0 as int].insts@.contains(x as u16)),
            forall|x: int|
                0 <= x < o ==> (g.owner@[x] is Some == (#[trigger] g.insts@[x]) is Some),
            forall|x: int| o <= x < ln ==> (#[trigger] g.owner@[x]) is None,
            g.blocks_contiguous(leader@),
            forall|n: int, kk: int|
                0 <= n < g.nodes@.len() && 0 <= kk < g.nodes@[n].insts@.len() ==> (
                #[trigger] g.nodes@[n].insts@[kk]) < o,
            forall|n: int| 0 <= n < g.nodes@.len() ==> (#[trigger] g.nodes@[n]).edges@.len() == 0,
            g.nodes@.len() > 0 ==> (last < o && g.insts@[last as int] is Some
                && g.owner@[last as int] == Some((g.nodes@.len() - 1) as usize)
                && g.nodes@[g.nodes@.len() - 1].insts@.last() == last as u16),
        decreases ln - o,
    {
        let decoded_here = match g.insts[o] {
            Some(_) => true,
            None => false,
        };
        if decoded_here {
            let mut can_attach = false;
            if g.nodes.len() > 0 && last + 2 == o && !leader[o] {
                let prev_plain = match g.insts[last] {
                    Some(pi) => plain_exec(pi.mnemonic),
                    None => false,
                };
                can_attach = prev_plain;
            }
            let ghost g0 = g;
            if can_attach {
                let c = g.nodes.len() - 1;
                let mut nd = match g.nodes.pop() {
                    Some(nd) => nd,
                    None => {
                        proof {
                            assert(false);
                        }
                        Node { insts: Vec::new(), edges: Vec::new() }
                    },
                };
                nd.insts.push(o as u16);
                g.nodes.push(nd);
                g.owner.set(o, Some(c));
                proof {
                    assert(g.nodes@.len() == g0.nodes@.len());
                    assert(g.nodes@[c as int].insts@ == g0.nodes@[c as int].insts@.push(o as u16));
                    assert forall|n: int| 0 <= n < g.nodes@.len() implies #[trigger] g.node_wf(
                        n,
                    ) by {
                        assert(g0.node_wf(n));
                        if n == c {
                            assert forall|kk: int|
                                0 <= kk < g.nodes@[n].insts@.len() implies (
                            #[trigger] g.nodes@[n].insts@[kk] < g.owner@.len()
                                && g.owner@[g.nodes@[n].insts@[kk] as int] == Some(n as usize)
                                && g.decoded(g.nodes@[n].insts@[kk] as int)) by {
                                if kk < g.nodes@[n].insts@.len() - 1 {
                                    assert(g.nodes@[n].insts@[kk] == g0.nodes@[n].insts@[kk]);
                                    assert(g0.nodes@[n].insts@[kk] < o);
                                }
                            }
                        } else {
                            assert forall|kk: int|
                                0 <= kk < g.nodes@[n].insts@.len() implies (
                            #[trigger] g.nodes@[n].insts@[kk] < g.owner@.len()
                                && g.owner@[g.nodes@[n].insts@[kk] as int] == Some(n as usize)
                                && g.decoded(g.nodes@[n].insts@[kk] as int)) by {
                                assert(g0.nodes@[n].insts@[kk] < o);
                            }
                        }
                    }
                    assert forall|x: int|
                        0 <= x < g.owner@.len() && g.owner@[x] is Some implies (
                    #[trigger] g.owner@[x]->0 < g.nodes@.len()
                        && g.nodes@[g.owner@[x]->0 as int].insts@.contains(x as u16)) by {
                        if x == o {
                            assert(g.nodes@[c as int].insts@.last() == o as u16);
                        } else {
                            assert(g0.owner@[x] is Some);
                            let nn = g0.owner@[x]->0 as int;
                            let kk = choose|kk: int|
                                0 <= kk < g0.nodes@[nn].insts@.len() && g0.nodes@[nn].insts@[kk]
                                    == x as u16;
                            if nn == c {
                                assert(g.nodes@[nn].insts@[kk] == x as u16);
                            } else {
                                assert(g.nodes@[nn].insts@[kk] == x as u16);
                            }
                        }
                    }
                    assert forall|n: int, kk: int|
                        0 <= n < g.nodes@.len() && 1 <= kk < g.nodes@[n].insts@.len() implies {
                        let a = (#[trigger] g.nodes@[n].insts@[kk - 1]) as int;
                        let b = g.nodes@[n].insts@[kk] as int;
                        &&& b == a + 2
                        &&& g.decoded(a)
                        &&& is_plain(g.inst_at(a).mnemonic)
                        &&& b < leader@.len() && !leader@[b]
                    } by {
                        if n == c && kk == g.nodes@[n].insts@.len() - 1 {
                            assert(g.nodes@[n].insts@[kk - 1] == last as u16);
                        } else {
                            assert(g.nodes@[n].insts@[kk - 1] == g0.nodes@[n].insts@[kk - 1]);
                            assert(g.nodes@[n].insts@[kk] == g0.nodes@[n].insts@[kk]);
                        }
                    }
                }
            } else {
                let c = g.nodes.len();
                let mut iv: Vec<u16> = Vec::new();
                iv.push(o as u16);
                g.nodes.push(Node { insts: iv, edges: Vec::new() });
                g.owner.set(o, Some(c));
                proof {
                    assert(g.nodes@[c as int].insts@ == Seq::<u16>::empty().push(o as u16));
                    assert forall|n: int| 0 <= n < g.nodes@.len() implies #[trigger] g.node_wf(
                        n,
                    ) by {
                        if n < c {
                            assert(g0.node_wf(n));
                            assert forall|kk: int|
                                0 <= kk < g.nodes@[n].insts@.len() implies (
                            #[trigger] g.nodes@[n].insts@[kk] < g.owner@.len()
                                && g.owner@[g.nodes@[n].insts@[kk] as int] == Some(n as usize)
                                && g.decoded(g.nodes@[n].insts@[kk] as int)) by {
                                assert(g0.nodes@[n].insts@[kk] < o);
                            }
                        }
                    }
                    assert forall|x: int|
                        0 <= x < g.owner@.len() && g.owner@[x] is Some implies (
                    #[trigger] g.owner@[x]->0 < g.nodes@.len()
                        && g.nodes@[g.owner@[x]->0 as int].insts@.contains(x as u16)) by {
                        if x == o {
                            assert(g.nodes@[c as int].insts@[0] == o as u16);
                        } else {
                            assert(g0.owner@[x] is Some);
                        }
                    }
                    assert forall|n: int, kk: int|
                        0 <= n < g.nodes@.len() && 1 <= kk < g.nodes@[n].insts@.len() implies {
                        let a = (#[trigger] g.nodes@[n].insts@[kk - 1]) as int;
                        let b = g.nodes@[n].insts@[kk] as int;
                        &&& b == a + 2
                        &&& g.decoded(a)
                        &&& is_plain(g.inst_at(a).mnemonic)
                        &&& b < leader@.len() && !leader@[b]
                    } by {
                        assert(n < c);
                        assert(g.nodes@[n].insts@[kk - 1] == g0.nodes@[n].insts@[kk - 1]);
                        assert(g.nodes@[n].insts@[kk] == g0.nodes@[n].insts@[kk]);
                    }
                }
            }
            last = o;
        }
        o = o + 1;
    }
    g
}

/// After an instruction's targets were all taken, its successor obligation
/// holds. The hypotheses record exactly what the takes established.
proof fn lemma_succ_own(
    data: Seq<u8>,
    insts: Seq<Option<Instruction>>,
    visited: Seq<bool>,
    leader: Seq<bool>,
    v0: Seq<bool>,
    l0: Seq<bool>,
    o: int,
)
    requires
        0 <= o < insts.len(),
        insts[o] is Some,
        visited.len() == insts.len(),
        leader.len() == insts.len(),
        forall|k: int|
            0 <= k < successors_spec(insts[o]->0, o).len() ==> {
                let p = #[trigger] successors_spec(insts[o]->0, o)[k];
                &&& 0 <= p.1
                &&& p.1 + 1 < visited.len()
                &&& visited[p.1]
                &&& ((p.0 is FallThrough) || leader[p.1])
            },
    ensures
        succ_targets_ok(visited, leader, insts[o]->0, o),
{
}

proof fn lemma_count_le_len(s: Seq<bool>)
    ensures
        count_unvisited(s) <= s.len(),
    decreases s.len(),
{
    if s.len() > 0 {
        lemma_count_le_len(s.drop_last());
    }
}

/// Jumps and calls recorded in the graph carry an address operand.
pub open spec fn insts_have_targets(insts: Seq<Option<Instruction>>) -> bool {
    forall|o: int|
        0 <= o < insts.len() && (#[trigger] insts[o]) is Some && (insts[o]->0.mnemonic is JP
            || insts[o]->0.mnemonic is CALL) ==> insts[o]->0.op1 is Some && insts[o]->0.op1->0
            is Address
}

/// What a successful analysis hands back: a consistent block partition whose
/// edges are the decoded successors, each landing on a block entry, over
/// instructions that are exactly the decodings of the input bytes.
pub open spec fn graph_sound(data: Seq<u8>, g: FlowGraph) -> bool {
    &&& g.wf()
    &&& g.edges_ok()
    &&& g.edge_targets_are_entries()
    &&& g.insts@.len() == data.len()
    &&& forall|o: int|
        0 <= o < g.insts@.len() && (#[trigger] g.insts@[o]) is Some ==> o + 1 < data.len()
            && Some(g.insts@[o]->0) == decode_spec(data[o], data[o + 1])
    &&& g.insts@.len() > 0
    &&& g.insts@[0] is Some
    &&& g.owner@[0] is Some
    &&& g.nodes@[g.owner@[0]->0 as int].insts@[0] == 0
}

/// Fills in each node's outgoing edges: the typed successors of its last
/// instruction, each of which is known to begin a node.
fn add_edges(g: FlowGraph, leader: &Vec<bool>) -> (r: FlowGraph)
    requires
        g.wf(),
        g.blocks_contiguous(leader@),
        leader@.len() == g.insts@.len(),
        g.insts@.len() <= MAX_PROGRAM,
        insts_have_targets(g.insts@),
        forall|o: int|
            0 <= o < g.insts@.len() && (#[trigger] g.insts@[o]) is Some ==> decoded_succ_ok(
                g.insts@,
                leader@,
                o,
            ),
        forall|n: int| 0 <= n < g.nodes@.len() ==> (#[trigger] g.nodes@[n]).edges@.len() == 0,
    ensures
        r.wf(),
        r.edges_ok(),
        r.edge_targets_are_entries(),
        r.owner@ == g.owner@,
        r.insts@ == g.insts@,
        r.nodes@.len() == g.nodes@.len(),
        forall|n: int|
            0 <= n < r.nodes@.len() ==> (#[trigger] r.nodes@[n]).insts@ == g.nodes@[n].insts@,
{
    let ghost orig = g;
    let mut g = g;
    let count = g.nodes.len();
    let mut n: usize = 0;
    while n < count
        invariant
            n <= count,
            count == g.nodes@.len(),
            g.owner@ == orig.owner@,
            g.insts@ == orig.insts@,
            g.nodes@.len() == orig.nodes@.len(),
            forall|m: int|
                0 <= m < count ==> (#[trigger] g.nodes@[m]).insts@ == orig.nodes@[m].insts@,
            orig.wf(),
            orig.blocks_contiguous(leader@),
            leader@.len() == orig.insts@.len(),
            orig.insts@.len() <= MAX_PROGRAM,
            insts_have_targets(orig.insts@),
            forall|o: int|
                0 <= o < orig.insts@.len() && (#[trigger] orig.insts@[o]) is Some
                    ==> decoded_succ_ok(orig.insts@, leader@, o),
            forall|m: int| n <= m < count ==> (#[trigger] g.nodes@[m]).edges@.len() == 0,
            forall|m: int| 0 <= m < n ==> #[trigger] g.node_edges_ok(m),
            forall|m: int, k: int|
                0 <= m < n && 0 <= k < g.nodes@[m].edges@.len() ==> {
                    let t = (#[trigger] g.nodes@[m].edges@[k]).target as int;
                    &&& t < g.owner@.len()
                    &&& g.owner@[t] is Some
                    &&& g.nodes@[g.owner@[t]->0 as int].insts@[0] == t
                },
        decreases count - n,
    {
        proof {
            assert(g.wf()) by {
                assert forall|m: int| 0 <= m < g.nodes@.len() implies #[trigger] g.node_wf(m) by {
                    assert(orig.node_wf(m));
                }
            }
            assert(g.node_wf(n as int));
        }
        let ni = g.nodes[n].insts.len();
        let last = g.nodes[n].insts[ni - 1];
        proof {
            assert(g.nodes@[n as int].insts@.last() == last);
            assert(g.decoded(last as int));
        }
        let inst = match g.insts[last as usize] {
            Some(i) => i,
            None => {
                proof {
                    assert(false);
                }
                return g;
            },
        };
        let ghost ss = successors_spec(inst, last as int);
        proof {
            assert(decoded_succ_ok(orig.insts@, leader@, last as int));
        }
        let mut ev: Vec<Edge> = Vec::new();
        if skip_exec(inst.mnemonic) {
            proof {
                assert(ss[0] == (EdgeKind::BranchNotTaken, last + 2));
                assert(ss[1] == (EdgeKind::BranchTaken, last + 4));
            }
            ev.push(Edge { kind: EdgeKind::BranchNotTaken, target: last + 2 });
            ev.push(Edge { kind: EdgeKind::BranchTaken, target: last + 4 });
        } else {
            match inst.mnemonic {
                Mnemonic::JP => {
                    let a = match inst.op1 {
                        Some(Operand::Address(a)) => a,
                        _ => {
                            proof {
                                assert(false);
                            }
                            return g;
                        },
                    };
                    proof {
                        assert(ss[0] == (EdgeKind::Jump, a - 0x200));
                        assert(0 <= a - 0x200);
                    }
                    ev.push(Edge { kind: EdgeKind::Jump, target: a - 0x200 });
                },
                Mnemonic::CALL => {
                    let a = match inst.op1 {
                        Some(Operand::Address(a)) => a,
                        _ => {
                            proof {
                                assert(false);
                            }
                            return g;
                        },
                    };
                    proof {
                        assert(ss[0] == (EdgeKind::Call, a - 0x200));
                        assert(ss[1] == (EdgeKind::Return, last + 2));
                        assert(0 <= a - 0x200);
                    }
                    ev.push(Edge { kind: EdgeKind::Call, target: a - 0x200 });
                    ev.push(Edge { kind: EdgeKind::Return, target: last + 2 });
                },
                Mnemonic::RET | Mnemonic::EXIT => {
                },
                _ => {
                    proof {
                        assert(ss[0] == (EdgeKind::FallThrough, last + 2));
                    }
                    ev.push(Edge { kind: EdgeKind::FallThrough, target: last + 2 });
                },
            }
        }
        proof {
            assert(ev@.len() == ss.len());
            assert forall|k: int| 0 <= k < ss.len() implies (#[trigger] ev@[k]).kind == ss[k].0
                && ev@[k].target == ss[k].1 by {
            }
            // Every target begins a node.
            assert forall|k: int| 0 <= k < ev@.len() implies {
                let t = (#[trigger] ev@[k]).target as int;
                &&& t < g.owner@.len()
                &&& g.owner@[t] is Some
                &&& g.nodes@[g.owner@[t]->0 as int].insts@[0] == t
            } by {
                let t = ev@[k].target as int;
                assert(ss[k].1 == t);
                assert(orig.insts@[t] is Some);
                assert(orig.owner@[t] is Some);
                if ss[k].0 is FallThrough {
                    assert(is_plain(inst.mnemonic));
                    orig.lemma_fallthrough_starts(leader@, n as int);
                } else {
                    assert(t < leader@.len() && leader@[t]);
                    orig.lemma_leader_starts(leader@, t);
                }
                assert(g.nodes@[g.owner@[t]->0 as int].insts@
                    == orig.nodes@[g.owner@[t]->0 as int].insts@);
            }
        }
        let ghost before = g;
        g.nodes[n].edges = ev;
        proof {
            assert(g.nodes@ == before.nodes@.update(
                n as int,
                Node { insts: before.nodes@[n as int].insts, edges: g.nodes@[n as int].edges },
            ));
            assert(g.nodes@[n as int].insts@ == before.nodes@[n as int].insts@);
            assert forall|m: int| 0 <= m < n + 1 implies #[trigger] g.node_edges_ok(m) by {
                if m == n {
                    assert(g.nodes@[m].edges@ == ev@);
                } else {
                    assert(g.nodes@[m] == before.nodes@[m]);
                    assert(before.node_edges_ok(m));
                }
            }
        }
        n = n + 1;
    }
    proof {
        assert(g.wf()) by {
            assert forall|m: int| 0 <= m < g.nodes@.len() implies #[trigger] g.node_wf(m) by {
                assert(orig.node_wf(m));
            }
        }
    }
    g
}

/// Recovers the flow graph of a program image: every offset control can
/// reach from the entry, decoded, partitioned into basic blocks, with the
/// typed successor edges of each block's last instruction.
pub fn analyse(data: &Vec<u8>) -> (r: Result<FlowGraph, AnalysisError>)
    requires
        data@.len() <= MAX_PROGRAM,
    ensures
        r is Ok ==> graph_sound(data@, r->Ok_0),
        r matches Err(AnalysisError::Decode { offset }) ==> offset + 1 < data@.len()
            && decode_spec(data@[offset as int], data@[offset as int + 1]) is None || (offset == 0
            && data@.len() < 2),
        r is Err ==> (r->Err_0 is Decode || r->Err_0 is TargetOutsideProgram),
        r is Err && r->Err_0 is TargetOutsideProgram ==> has_escaping_transfer(data@),
{
    if data.len() < 2 {
        return Err(AnalysisError::Decode { offset: 0 });
    }
    let explored_parts = match explore(data) {
        Ok(p) => p,
        Err(e) => {
            return Err(e);
        },
    };
    let (insts, leader) = explored_parts;
    let ghost insts0 = insts@;
    let ghost leader0 = leader@;
    proof {
        assert forall|o: int|
            0 <= o < insts0.len() && (#[trigger] insts0[o]) is Some && (insts0[o]->0.mnemonic
                is JP || insts0[o]->0.mnemonic is CALL) implies insts0[o]->0.op1 is Some
            && insts0[o]->0.op1->0 is Address by {
            lemma_decode_operand_shapes(data@[o], data@[o + 1]);
        }
    }
    let g = build_nodes(insts, &leader);
    let g = add_edges(g, &leader);
    proof {
        assert(g.owner@[0] is Some);
        g.lemma_leader_starts(leader0, 0);
    }
    Ok(g)
}

} // verus!
