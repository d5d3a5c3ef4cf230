//! A finite set of 16-bit values, stored as a strictly ascending vector.
//!
//! This is the carrier of the `Int` shapes of the abstract byte and word
//! lattices: a set of concrete values that an abstract value may take.

use vstd::prelude::*;

verus! {

#[derive(Debug)]
pub struct ValueSet {
    pub items: Vec<u16>,
}

impl View for ValueSet {
    type V = Set<u16>;

    open spec fn view(&self) -> Set<u16> {
        self.items@.to_set()
    }
}

impl ValueSet {
    /// The underlying sequence, strictly ascending when well formed.
    pub open spec fn seq(self) -> Seq<u16> {
        self.items@
    }

    pub open spec fn wf(self) -> bool {
        forall|i: int, j: int|
            0 <= i < j < self.items@.len() ==> self.items@[i] < self.items@[j]
    }

    /// Every element is below `bound`; the byte lattice keeps its sets below 256.
    pub open spec fn bounded(self, bound: int) -> bool {
        forall|i: int| 0 <= i < self.items@.len() ==> self.items@[i] < bound
    }

    pub proof fn lemma_view_bounded(self, bound: int)
        requires
            self.bounded(bound),
        ensures
            forall|v: u16| self@.contains(v) ==> v < bound,
    {
        assert forall|v: u16| self@.contains(v) implies v < bound by {
            let i = choose|i: int| 0 <= i < self.items@.len() && self.items@[i] == v;
            assert(self.items@[i] < bound);
        }
    }

    /// A strictly ascending vector has no duplicates, so the cardinality of
    /// the set equals the length of the vector.
    pub proof fn lemma_card(self)
        requires
            self.wf(),
        ensures
            self@.finite(),
            self@.len() == self.items@.len(),
    {
        assert(self.items@.no_duplicates());
        self.items@.unique_seq_to_set();
    }

    pub fn empty() -> (r: ValueSet)
        ensures
            r.wf(),
            r@ == Set::<u16>::empty(),
            r.seq() == Seq::<u16>::empty(),
    {
        let r = ValueSet { items: Vec::new() };
        proof {
            assert(r@ =~= Set::<u16>::empty());
        }
        r
    }

    pub fn singleton(v: u16) -> (r: ValueSet)
        ensures
            r.wf(),
            r@ == Set::<u16>::empty().insert(v),
    {
        let mut items: Vec<u16> = Vec::new();
        items.push(v);
        let r = ValueSet { items };
        proof {
            assert forall|x: u16| r@.contains(x) implies Set::<u16>::empty().insert(v).contains(x) by {
                let i = choose|i: int| 0 <= i < r.items@.len() && r.items@[i] == x;
                assert(r.items@[0] == v);
            }
            assert(r.items@.len() == 1);
            assert(r.items@[0] == v);
            assert(r.items@.contains(v));
            assert(r@ =~= Set::<u16>::empty().insert(v));
        }
        r
    }

    pub fn len(&self) -> (n: usize)
        ensures
            n == self.seq().len(),
    {
        self.items.len()
    }

    pub fn get(&self, i: usize) -> (v: u16)
        requires
            i < self.seq().len(),
        ensures
            v == self.seq()[i as int],
            self@.contains(v),
    {
        self.items[i]
    }

    pub fn is_empty(&self) -> (r: bool)
        ensures
            r == (self.seq().len() == 0),
            r == self@.is_empty(),
    {
        proof {
            if self.items@.len() == 0 {
                assert(self@ =~= Set::<u16>::empty());
            } else {
                assert(self@.contains(self.items@[0]));
            }
        }
        self.items.len() == 0
    }

    pub fn contains(&self, v: u16) -> (r: bool)
        ensures
            r == self@.contains(v),
    {
        let n = self.items.len();
        let mut i: usize = 0;
        while i < n
            invariant
                i <= n,
                n == self.items@.len(),
                forall|k: int| 0 <= k < i ==> self.items@[k] != v,
            decreases n - i,
        {
            if self.items[i] == v {
                return true;
            }
            i = i + 1;
        }
        proof {
            assert(!self.items@.contains(v));
        }
        false
    }

    /// Inserts `v`, keeping the vector strictly ascending.
    pub fn insert(&mut self, v: u16)
        requires
            old(self).wf(),
        ensures
            final(self).wf(),
            final(self)@ == old(self)@.insert(v),
            forall|b: int| old(self).bounded(b) && v < b ==> final(self).bounded(b),
    {
        let ghost orig = self.items@;
        let n = self.items.len();
        let mut pos: usize = 0;
        while pos < n && self.items[pos] < v
            invariant
                pos <= n,
                n == self.items@.len(),
                self.items@ == orig,
                forall|k: int| 0 <= k < pos ==> self.items@[k] < v,
            decreases n - pos,
        {
            pos = pos + 1;
        }
        if pos < n && self.items[pos] == v {
            proof {
                assert(self.items@.contains(v));
                assert(self@ =~= old(self)@.insert(v));
            }
            return;
        }
        proof {
            assert(forall|k: int| pos <= k < n ==> orig[k] >= #[trigger] orig[pos as int]);
            assert(forall|k: int| pos <= k < n ==> #[trigger] orig[k] > v);
        }
        self.items.insert(pos, v);
        proof {
            let s = self.items@;
            assert forall|i: int, j: int| 0 <= i < j < s.len() implies s[i] < s[j] by {
                if j < pos {
                    assert(s[i] == orig[i] && s[j] == orig[j]);
                } else if i > pos {
                    assert(s[i] == orig[i - 1] && s[j] == orig[j - 1]);
                } else if i == pos {
                    assert(s[i] == v && s[j] == orig[j - 1]);
                } else if j == pos {
                    assert(s[i] == orig[i] && s[j] == v);
                } else {
                    // i < pos < j
                    assert(s[i] == orig[i] && s[j] == orig[j - 1]);
                    if j - 1 == pos {
                        assert(s[i] < v);
                        assert(orig[pos as int] > v);
                    }
                }
            }
            assert forall|x: u16| self@.contains(x) implies old(self)@.insert(v).contains(x) by {
                let i = choose|i: int| 0 <= i < s.len() && s[i] == x;
                if i < pos {
                    assert(orig[i] == x);
                } else if i == pos {
                } else {
                    assert(orig[i - 1] == x);
                }
            }
            assert forall|x: u16| old(self)@.insert(v).contains(x) implies self@.contains(x) by {
                if x == v {
                    assert(s[pos as int] == x);
                } else {
                    let i = choose|i: int| 0 <= i < orig.len() && orig[i] == x;
                    if i < pos {
                        assert(s[i] == x);
                    } else {
                        assert(s[i + 1] == x);
                    }
                }
            }
            assert(self@ =~= old(self)@.insert(v));
        }
    }

    pub fn union(&self, other: &ValueSet) -> (r: ValueSet)
        requires
            self.wf(),
            other.wf(),
        ensures
            r.wf(),
            r@ == self@.union(other@),
            forall|b: int| self.bounded(b) && other.bounded(b) ==> r.bounded(b),
    {
        let mut r = ValueSet { items: self.items.clone() };
        let n = other.items.len();
        let mut j: usize = 0;
        while j < n
            invariant
                j <= n,
                n == other.items@.len(),
                other.wf(),
                r.wf(),
                r@ == self@.union(other.items@.take(j as int).to_set()),
                forall|b: int| self.bounded(b) && other.bounded(b) ==> r.bounded(b),
            decreases n - j,
        {
            let ghost before = r@;
            let v = other.items[j];
            r.insert(v);
            proof {
                assert(other.items@.take(j + 1) =~= other.items@.take(j as int).push(v));
                Seq::<u16>::lemma_push_to_set_commute(other.items@.take(j as int), v);
                assert(r@ =~= self@.union(other.items@.take(j + 1).to_set()));
            }
            j = j + 1;
        }
        proof {
            assert(other.items@.take(n as int) =~= other.items@);
            assert(r@ =~= self@.union(other@));
        }
        r
    }

    pub fn is_subset(&self, other: &ValueSet) -> (r: bool)
        ensures
            r == self@.subset_of(other@),
    {
        let n = self.items.len();
        let mut i: usize = 0;
        while i < n
            invariant
                i <= n,
                n == self.items@.len(),
                forall|k: int| 0 <= k < i ==> other@.contains(#[trigger] self.items@[k]),
            decreases n - i,
        {
            if !other.contains(self.items[i]) {
                proof {
                    assert(self@.contains(self.items@[i as int]));
                }
                return false;
            }
            i = i + 1;
        }
        proof {
            assert forall|x: u16| self@.contains(x) implies other@.contains(x) by {
                let k = choose|k: int| 0 <= k < self.items@.len() && self.items@[k] == x;
                assert(other@.contains(self.items@[k]));
            }
        }
        true
    }

    /// In a strictly ascending vector the element at index `i` is at least
    /// `first + i`, so a set of `bound` values all below `bound` is the full
    /// range `0 .. bound`.
    proof fn lemma_index_lower_bound(self, i: int)
        requires
            self.wf(),
            0 <= i < self.items@.len(),
        ensures
            self.items@[i] >= self.items@[0] + i,
        decreases i,
    {
        if i > 0 {
            self.lemma_index_lower_bound(i - 1);
        }
    }

    pub proof fn lemma_full_range(self, bound: int)
        requires
            self.wf(),
            self.bounded(bound),
            self.items@.len() == bound,
            bound >= 0,
        ensures
            forall|v: u16| 0 <= v < bound ==> self@.contains(v),
    {
        assert forall|i: int| 0 <= i < bound implies self.items@[i] == i by {
            self.lemma_index_lower_bound(i);
            let last = self.items@.len() - 1;
            self.lemma_gap_upper_bound(i, last);
        }
        assert forall|v: u16| 0 <= v < bound implies self@.contains(v) by {
            assert(self.items@[v as int] == v as int);
        }
    }

    proof fn lemma_gap_upper_bound(self, i: int, j: int)
        requires
            self.wf(),
            0 <= i <= j < self.items@.len(),
        ensures
            self.items@[j] >= self.items@[i] + (j - i),
        decreases j - i,
    {
        if i < j {
            self.lemma_gap_upper_bound(i + 1, j);
        }
    }
}

impl Clone for ValueSet {
    fn clone(&self) -> (r: Self)
        ensures
            r.seq() == self.seq(),
            r@ == self@,
            r.wf() == self.wf(),
    {
        let r = ValueSet { items: self.items.clone() };
        proof {
            assert(r.items@ =~= self.items@);
        }
        r
    }
}

} // verus!
