//! The flow graph: basic blocks of decoded instructions and typed edges
//! between them.
//!
//! A node is a maximal straight-line run of instructions; an edge's target
//! is always the first instruction of its target node. Offsets are relative
//! to the load base.

use vstd::prelude::*;
use crate::chip8::{is_plain, is_skip, Instruction, Mnemonic};

verus! {

#[derive(Copy, Clone, PartialEq, Eq, Structural, Debug)]
pub enum EdgeKind {
    FallThrough,
    Jump,
    BranchTaken,
    BranchNotTaken,
    Call,
    Return,
}

#[derive(Copy, Clone, PartialEq, Eq, Structural, Debug)]
pub struct Edge {
    pub kind: EdgeKind,
    pub target: u16,
}

#[derive(Debug)]
pub struct Node {
    pub insts: Vec<u16>,
    pub edges: Vec<Edge>,
}

#[derive(Debug)]
pub struct FlowGraph {
    pub nodes: Vec<Node>,
    /// Per offset: the node owning the instruction that starts there.
    pub owner: Vec<Option<usize>>,
    /// Per offset: the decoded instruction that starts there.
    pub insts: Vec<Option<Instruction>>,
}

/// The typed successor offsets of one instruction at offset `o`: where
/// control can continue after it.
pub open spec fn successors_spec(inst: Instruction, o: int) -> Seq<(EdgeKind, int)> {
    if is_skip(inst.mnemonic) {
        seq![(EdgeKind::BranchNotTaken, o + 2), (EdgeKind::BranchTaken, o + 4)]
    } else if inst.mnemonic is JP {
        seq![(EdgeKind::Jump, inst.op1->0->Address_0 - 0x200)]
    } else if inst.mnemonic is CALL {
        seq![(EdgeKind::Call, inst.op1->0->Address_0 - 0x200), (EdgeKind::Return, o + 2)]
    } else if inst.mnemonic is RET || inst.mnemonic is EXIT {
        Seq::empty()
    } else {
        seq![(EdgeKind::FallThrough, o + 2)]
    }
}

impl FlowGraph {
    pub open spec fn decoded(self, o: int) -> bool {
        0 <= o < self.insts@.len() && self.insts@[o] is Some
    }

    pub open spec fn inst_at(self, o: int) -> Instruction {
        self.insts@[o]->0
    }

    pub open spec fn node_wf(self, n: int) -> bool {
        {
            let nd = self.nodes@[n];
            &&& nd.insts@.len() > 0
            &&& forall|i: int, j: int| 0 <= i < j < nd.insts@.len() ==> nd.insts@[i] < nd.insts@[j]
            &&& forall|k: int|
                0 <= k < nd.insts@.len() ==> (#[trigger] nd.insts@[k] < self.owner@.len()
                    && self.owner@[nd.insts@[k] as int] == Some(n as usize) && self.decoded(
                    nd.insts@[k] as int,
                ))
        }
    }

    /// The node partition is consistent: ownership and membership agree,
    /// and only decoded offsets are owned.
    pub open spec fn wf(self) -> bool {
        &&& self.nodes@.len() <= usize::MAX
        &&& self.owner@.len() == self.insts@.len()
        &&& forall|n: int| 0 <= n < self.nodes@.len() ==> #[trigger] self.node_wf(n)
        &&& forall|o: int|
            0 <= o < self.owner@.len() && self.owner@[o] is Some ==> (#[trigger] self.owner@[o]->0
                < self.nodes@.len() && self.nodes@[self.owner@[o]->0 as int].insts@.contains(
                o as u16,
            ))
        &&& forall|o: int|
            0 <= o < self.owner@.len() && (#[trigger] self.insts@[o]) is Some ==> self.owner@[o]
                is Some
    }

    /// Within a node, each instruction after the first follows two bytes
    /// after a straight-line instruction, and begins no block of its own.
    pub open spec fn blocks_contiguous(self, leader: Seq<bool>) -> bool {
        forall|n: int, k: int|
            0 <= n < self.nodes@.len() && 1 <= k < self.nodes@[n].insts@.len() ==> {
                let a = (#[trigger] self.nodes@[n].insts@[k - 1]) as int;
                let b = self.nodes@[n].insts@[k] as int;
                &&& b == a + 2
                &&& self.decoded(a)
                &&& is_plain(self.inst_at(a).mnemonic)
                &&& b < leader.len() && !leader[b]
            }
    }

    /// Each node's edges are exactly the typed successors of its last
    /// instruction.
    pub open spec fn node_edges_ok(self, n: int) -> bool {
        {
            let nd = self.nodes@[n];
            let last = nd.insts@.last() as int;
            let ss = successors_spec(self.inst_at(last), last);
            &&& nd.edges@.len() == ss.len()
            &&& forall|k: int|
                0 <= k < ss.len() ==> (#[trigger] nd.edges@[k]).kind == ss[k].0
                    && nd.edges@[k].target == ss[k].1
        }
    }

    pub open spec fn edges_ok(self) -> bool {
        forall|n: int| 0 <= n < self.nodes@.len() ==> #[trigger] self.node_edges_ok(n)
    }

    /// Every edge's target node begins exactly at the target offset.
    pub open spec fn edge_targets_are_entries(self) -> bool {
        forall|n: int, k: int|
            0 <= n < self.nodes@.len() && 0 <= k < self.nodes@[n].edges@.len() ==> {
                let t = (#[trigger] self.nodes@[n].edges@[k]).target as int;
                &&& t < self.owner@.len()
                &&& self.owner@[t] is Some
                &&& self.nodes@[self.owner@[t]->0 as int].insts@[0] == t
            }
    }

    /// Every offset of the graph lies in exactly one node.
    pub proof fn lemma_offset_in_one_node(self, n1: int, n2: int, o: u16)
        requires
            self.wf(),
            0 <= n1 < self.nodes@.len(),
            0 <= n2 < self.nodes@.len(),
            self.nodes@[n1].insts@.contains(o),
            self.nodes@[n2].insts@.contains(o),
        ensures
            n1 == n2,
    {
        let k1 = choose|k: int| 0 <= k < self.nodes@[n1].insts@.len() && self.nodes@[n1].insts@[k] == o;
        let k2 = choose|k: int| 0 <= k < self.nodes@[n2].insts@.len() && self.nodes@[n2].insts@[k] == o;
        assert(self.node_wf(n1));
        assert(self.node_wf(n2));
        assert(self.nodes@[n1].insts@[k1] == o && 0 <= k1 < self.nodes@[n1].insts@.len());
        assert(self.nodes@[n2].insts@[k2] == o && 0 <= k2 < self.nodes@[n2].insts@.len());
        assert(self.owner@[o as int] == Some(n1 as usize));
        assert(self.owner@[o as int] == Some(n2 as usize));
        assert(n1 as usize as int == n1);
        assert(n2 as usize as int == n2);
    }

    /// A block-entry offset is the first instruction of its node: no block
    /// keeps an entry in its middle.
    pub proof fn lemma_leader_starts(self, leader: Seq<bool>, o: int)
        requires
            self.wf(),
            self.blocks_contiguous(leader),
            self.owner@.len() <= 0x10000,
            0 <= o < self.owner@.len(),
            self.owner@[o] is Some,
            o < leader.len(),
            leader[o],
        ensures
            self.nodes@[self.owner@[o]->0 as int].insts@[0] == o,
    {
        let n = self.owner@[o]->0 as int;
        assert(self.nodes@[n].insts@.contains(o as u16));
        let k = choose|k: int|
            0 <= k < self.nodes@[n].insts@.len() && self.nodes@[n].insts@[k] == o as u16;
        assert(self.node_wf(n));
        assert(0 <= k < self.nodes@[n].insts@.len() && self.nodes@[n].insts@[k] == o as u16);
        if k > 0 {
            assert(self.nodes@[n].insts@[k - 1] < self.nodes@[n].insts@[k]);
            assert(!leader[self.nodes@[n].insts@[k] as int]);
        }
    }

    /// The fall-through target of a block's last instruction is the first
    /// instruction of its own node.
    pub proof fn lemma_fallthrough_starts(self, leader: Seq<bool>, n: int)
        requires
            self.wf(),
            self.blocks_contiguous(leader),
            self.owner@.len() <= 0x10000,
            0 <= n < self.nodes@.len(),
            is_plain(self.inst_at(self.nodes@[n].insts@.last() as int).mnemonic),
            self.nodes@[n].insts@.last() + 2 < self.owner@.len(),
            self.owner@[self.nodes@[n].insts@.last() + 2] is Some,
        ensures
            self.nodes@[self.owner@[self.nodes@[n].insts@.last() + 2]->0 as int].insts@[0]
                == self.nodes@[n].insts@.last() + 2,
    {
        let p = self.nodes@[n].insts@.last() as int;
        let t = p + 2;
        let m = self.owner@[t]->0 as int;
        assert(self.nodes@[m].insts@.contains(t as u16));
        let k = choose|k: int|
            0 <= k < self.nodes@[m].insts@.len() && self.nodes@[m].insts@[k] == t as u16;
        assert(self.node_wf(m));
        assert(self.node_wf(n));
        if k > 0 {
            assert(self.nodes@[m].insts@[k - 1] as int == t - 2);
            assert(self.owner@[p] == Some(m as usize));
            let j = self.nodes@[n].insts@.len() - 1;
            assert(self.nodes@[n].insts@[j] == p as u16);
            assert(self.owner@[p] == Some(n as usize));
            assert(m == n) by {
                assert(m as usize as int == m);
                assert(n as usize as int == n);
            }
            assert(self.nodes@[n].insts@[k - 1] == p as u16);
            if k - 1 < j {
                assert(self.nodes@[n].insts@[k - 1] < self.nodes@[n].insts@[j]);
            } else if j < k - 1 {
                assert(self.nodes@[n].insts@[j] < self.nodes@[n].insts@[k - 1]);
            }
            assert(k - 1 == j);
            assert(false);
        }
    }

    pub fn node_count(&self) -> (r: usize)
        ensures
            r == self.nodes@.len(),
    {
        self.nodes.len()
    }

    /// The offset of a node's entry instruction.
    pub fn initial_instruction(&self, node: usize) -> (r: u16)
        requires
            self.wf(),
            node < self.nodes@.len(),
        ensures
            r == self.nodes@[node as int].insts@[0],
            self.decoded(r as int),
    {
        proof {
            assert(self.node_wf(node as int));
        }
        self.nodes[node].insts[0]
    }

    /// The offsets of a node's instructions, in order.
    pub fn get_instructions_at(&self, node: usize) -> (r: &Vec<u16>)
        requires
            node < self.nodes@.len(),
        ensures
            r@ == self.nodes@[node as int].insts@,
    {
        &self.nodes[node].insts
    }

    /// The decoded instruction starting at an offset, if any.
    pub fn get_inst(&self, offset: u16) -> (r: Option<Instruction>)
        ensures
            r == if self.decoded(offset as int) {
                self.insts@[offset as int]
            } else {
                Option::<Instruction>::None
            },
    {
        if (offset as usize) < self.insts.len() {
            self.insts[offset as usize]
        } else {
            None
        }
    }
}

} // verus!
