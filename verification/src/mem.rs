//! The sparse memory overlay: a map from absolute addresses to abstract
//! bytes, stored as a vector of entries with strictly ascending keys.
//!
//! Reads of addresses without an overlay entry fall through to the static
//! load-module image; that rule lives with the state, not here.

use vstd::prelude::*;
use crate::lattice::Byte;

verus! {

/// A raw program image together with the segment it is mapped at.
pub struct LoadModule {
    pub buffer: Vec<u8>,
    pub memory_segment: u16,
}

#[derive(Debug)]
pub struct MemMap {
    pub entries: Vec<(u32, Byte)>,
}

impl MemMap {
    pub open spec fn wf(self) -> bool {
        &&& forall|i: int, j: int|
            0 <= i < j < self.entries@.len() ==> self.entries@[i].0 < self.entries@[j].0
        &&& forall|i: int| 0 <= i < self.entries@.len() ==> (#[trigger] self.entries@[i].1).wf()
    }

    pub open spec fn has_key(self, k: u32) -> bool {
        exists|i: int| 0 <= i < self.entries@.len() && self.entries@[i].0 == k
    }

    pub open spec fn index_of(self, k: u32) -> int {
        choose|i: int| 0 <= i < self.entries@.len() && self.entries@[i].0 == k
    }

    /// The concretization of the byte overlaid at `k`; empty when nothing is
    /// overlaid there.
    pub open spec fn gamma_at(self, k: u32) -> Set<u16> {
        if self.has_key(k) {
            self.entries@[self.index_of(k)].1.gamma()
        } else {
            Set::empty()
        }
    }

    pub proof fn lemma_index_unique(self, i: int, j: int)
        requires
            self.wf(),
            0 <= i < self.entries@.len(),
            0 <= j < self.entries@.len(),
            self.entries@[i].0 == self.entries@[j].0,
        ensures
            i == j,
    {
        if i < j {
            assert(self.entries@[i].0 < self.entries@[j].0);
        } else if j < i {
            assert(self.entries@[j].0 < self.entries@[i].0);
        }
    }

    /// Whatever the overlay holds at an occupied index is the value of
    /// `gamma_at` for that key.
    pub proof fn lemma_at_index(self, i: int)
        requires
            self.wf(),
            0 <= i < self.entries@.len(),
        ensures
            self.has_key(self.entries@[i].0),
            self.gamma_at(self.entries@[i].0) == self.entries@[i].1.gamma(),
    {
        let k = self.entries@[i].0;
        assert(self.has_key(k));
        self.lemma_index_unique(self.index_of(k), i);
    }

    pub fn new() -> (r: MemMap)
        ensures
            r.wf(),
            forall|k: u32| !r.has_key(k),
            forall|k: u32| r.gamma_at(k) == Set::<u16>::empty(),
    {
        MemMap { entries: Vec::new() }
    }

    /// The overlaid byte at `k`, if there is one.
    pub fn lookup(&self, k: u32) -> (r: Option<Byte>)
        requires
            self.wf(),
        ensures
            match r {
                Option::None => !self.has_key(k),
                Option::Some(b) => self.has_key(k) && b.gamma() == self.gamma_at(k) && b.wf(),
            },
    {
        let n = self.entries.len();
        let mut i: usize = 0;
        while i < n
            invariant
                i <= n,
                n == self.entries@.len(),
                self.wf(),
                forall|j: int| 0 <= j < i ==> self.entries@[j].0 != k,
            decreases n - i,
        {
            if self.entries[i].0 == k {
                let b = self.entries[i].1.clone();
                proof {
                    self.lemma_at_index(i as int);
                }
                return Some(b);
            }
            i = i + 1;
        }
        None
    }

    /// Overwrites the byte at `k`, adding the entry if it is missing.
    pub fn set(&mut self, k: u32, b: Byte)
        requires
            old(self).wf(),
            b.wf(),
        ensures
            final(self).wf(),
            forall|x: u32| final(self).has_key(x) == (old(self).has_key(x) || x == k),
            final(self).gamma_at(k) == b.gamma(),
            forall|x: u32| x != k ==> final(self).gamma_at(x) == old(self).gamma_at(x),
    {
        let ghost orig = self.entries@;
        let n = self.entries.len();
        let mut pos: usize = 0;
        while pos < n && self.entries[pos].0 < k
            invariant
                pos <= n,
                n == self.entries@.len(),
                self.entries@ == orig,
                forall|j: int| 0 <= j < pos ==> self.entries@[j].0 < k,
            decreases n - pos,
        {
            pos = pos + 1;
        }
        if pos < n && self.entries[pos].0 == k {
            self.entries.set(pos, (k, b));
            proof {
                let s = self.entries@;
                assert forall|i: int, j: int|
                    0 <= i < j < s.len() implies s[i].0 < s[j].0 by {
                    assert(orig[i].0 == s[i].0 || i == pos);
                    assert(orig[j].0 == s[j].0 || j == pos);
                }
                assert forall|x: u32|
                    final(self).has_key(x) == (old(self).has_key(x) || x == k) by {
                    if self.has_key(x) {
                        let i = self.index_of(x);
                        if i != pos {
                            assert(orig[i].0 == x);
                        }
                    }
                    if old(self).has_key(x) {
                        let i = old(self).index_of(x);
                        assert(s[i].0 == x || i == pos);
                        assert(self.has_key(x) || x == k);
                    }
                    if x == k {
                        assert(s[pos as int].0 == k);
                        assert(self.has_key(x));
                    }
                }
                assert(self.has_key(k));
                self.lemma_index_unique(self.index_of(k), pos as int);
                assert(final(self).gamma_at(k) == b.gamma());
                assert forall|x: u32| x != k implies final(self).gamma_at(x) == old(
                    self,
                ).gamma_at(x) by {
                    if self.has_key(x) {
                        let i = self.index_of(x);
                        assert(i != pos);
                        assert(orig[i].0 == x);
                        old(self).lemma_index_unique(old(self).index_of(x), i);
                    } else if old(self).has_key(x) {
                        let i = old(self).index_of(x);
                        assert(i != pos);
                        assert(s[i].0 == x);
                        assert(self.has_key(x));
                    }
                }
            }
            return;
        }
        proof {
            assert(forall|j: int| pos <= j < n ==> orig[j].0 >= #[trigger] orig[pos as int].0);
            assert(forall|j: int| pos <= j < n ==> #[trigger] orig[j].0 > k);
        }
        self.entries.insert(pos, (k, b));
        proof {
            let s = self.entries@;
            assert forall|i: int, j: int| 0 <= i < j < s.len() implies s[i].0 < s[j].0 by {
                if j < pos {
                } else if i > pos {
                    assert(s[i] == orig[i - 1] && s[j] == orig[j - 1]);
                } else if i == pos {
                    assert(s[j] == orig[j - 1]);
                } else if j == pos {
                } else {
                    assert(s[i] == orig[i] && s[j] == orig[j - 1]);
                    if j - 1 == pos {
                        assert(s[i].0 < k);
                        assert(orig[pos as int].0 > k);
                    }
                }
            }
            assert forall|i: int| 0 <= i < s.len() implies (#[trigger] s[i].1).wf() by {
                if i < pos {
                    assert(s[i] == orig[i]);
                } else if i > pos {
                    assert(s[i] == orig[i - 1]);
                }
            }
            assert forall|x: u32| final(self).has_key(x) == (old(self).has_key(x) || x == k) by {
                if self.has_key(x) {
                    let i = self.index_of(x);
                    if i < pos {
                        assert(orig[i].0 == x);
                    } else if i > pos {
                        assert(orig[i - 1].0 == x);
                    }
                }
                if old(self).has_key(x) {
                    let i = old(self).index_of(x);
                    if i < pos {
                        assert(s[i].0 == x);
                    } else {
                        assert(s[i + 1].0 == x);
                    }
                    assert(self.has_key(x));
                }
                if x == k {
                    assert(s[pos as int].0 == k);
                    assert(self.has_key(x));
                }
            }
            assert(self.has_key(k));
            self.lemma_index_unique(self.index_of(k), pos as int);
            assert(final(self).gamma_at(k) == b.gamma());
            assert forall|x: u32| x != k implies final(self).gamma_at(x) == old(self).gamma_at(
                x,
            ) by {
                if self.has_key(x) {
                    let i = self.index_of(x);
                    assert(i != pos);
                    if i < pos {
                        assert(orig[i].0 == x);
                        old(self).lemma_index_unique(old(self).index_of(x), i);
                        assert(old(self).entries@[old(self).index_of(x)].1 == s[i].1);
                    } else {
                        assert(orig[i - 1].0 == x);
                        old(self).lemma_index_unique(old(self).index_of(x), i - 1);
                        assert(old(self).entries@[old(self).index_of(x)].1 == s[i].1);
                    }
                } else if old(self).has_key(x) {
                    let i = old(self).index_of(x);
                    if i < pos {
                        assert(s[i].0 == x);
                    } else {
                        assert(s[i + 1].0 == x);
                    }
                    assert(self.has_key(x));
                }
            }
        }
    }

    /// Joins `b` into the byte at `k`: afterwards the cell stands for what
    /// it stood for before together with what `b` stands for.
    pub fn join_set(&mut self, k: u32, b: Byte)
        requires
            old(self).wf(),
            b.wf(),
        ensures
            final(self).wf(),
            forall|x: u32| final(self).has_key(x) == (old(self).has_key(x) || x == k),
            final(self).gamma_at(k) == old(self).gamma_at(k).union(b.gamma()),
            forall|x: u32| x != k ==> final(self).gamma_at(x) == old(self).gamma_at(x),
    {
        match self.lookup(k) {
            Option::Some(existing) => {
                let joined = existing.union(b);
                self.set(k, joined);
            },
            Option::None => {
                self.set(k, b);
                proof {
                    assert(old(self).gamma_at(k) =~= Set::<u16>::empty());
                    assert(old(self).gamma_at(k).union(b.gamma()) =~= b.gamma());
                }
            },
        }
    }

    /// Key-wise lattice join: cells present on only one side carry through
    /// unchanged.
    pub fn union(self, other: MemMap) -> (r: MemMap)
        requires
            self.wf(),
            other.wf(),
        ensures
            r.wf(),
            forall|x: u32| r.has_key(x) == (self.has_key(x) || other.has_key(x)),
            forall|x: u32| #[trigger]
                r.gamma_at(x) == self.gamma_at(x).union(other.gamma_at(x)),
    {
        let ghost orig = self;
        let mut r = self;
        let n = other.entries.len();
        let mut j: usize = 0;
        while j < n
            invariant
                j <= n,
                n == other.entries@.len(),
                other.wf(),
                r.wf(),
                forall|x: u32| #[trigger]
                    r.has_key(x) == (orig.has_key(x) || (other.has_key(x) && other.index_of(x)
                        < j)),
                forall|x: u32| #[trigger]
                    r.gamma_at(x) == if other.has_key(x) && other.index_of(x) < j {
                        orig.gamma_at(x).union(other.gamma_at(x))
                    } else {
                        orig.gamma_at(x)
                    },
            decreases n - j,
        {
            let k = other.entries[j].0;
            let v = other.entries[j].1.clone();
            let ghost before = r;
            proof {
                other.lemma_at_index(j as int);
            }
            r.join_set(k, v);
            proof {
                assert forall|x: u32|
                    r.gamma_at(x) == (if other.has_key(x) && other.index_of(x) < j + 1 {
                        orig.gamma_at(x).union(other.gamma_at(x))
                    } else {
                        orig.gamma_at(x)
                    }) by {
                    if x == k {
                        assert(other.index_of(x) == j) by {
                            other.lemma_index_unique(other.index_of(x), j as int);
                        }
                        assert(before.gamma_at(x) == orig.gamma_at(x));
                        assert(r.gamma_at(x) == orig.gamma_at(x).union(other.gamma_at(x)));
                    } else {
                        if other.has_key(x) {
                            assert(other.entries@[other.index_of(x)].0 == x);
                            assert(other.index_of(x) != j);
                        }
                        assert(r.gamma_at(x) == before.gamma_at(x));
                    }
                }
                assert forall|x: u32|
                    r.has_key(x) == (orig.has_key(x) || (other.has_key(x) && other.index_of(x) < j
                        + 1)) by {
                    if x == k {
                        other.lemma_index_unique(other.index_of(x), j as int);
                    } else {
                        if other.has_key(x) {
                            assert(other.entries@[other.index_of(x)].0 == x);
                            assert(other.index_of(x) != j);
                        }
                    }
                }
            }
            j = j + 1;
        }
        proof {
            assert forall|x: u32| r.has_key(x) == (orig.has_key(x) || other.has_key(x)) by {
                if other.has_key(x) {
                    assert(0 <= other.index_of(x) < n);
                }
            }
            assert forall|x: u32| #[trigger]
                r.gamma_at(x) == orig.gamma_at(x).union(other.gamma_at(x)) by {
                if other.has_key(x) {
                    assert(0 <= other.index_of(x) < n);
                } else {
                    assert(other.gamma_at(x) =~= Set::<u16>::empty());
                    assert(orig.gamma_at(x).union(other.gamma_at(x)) =~= orig.gamma_at(x));
                }
            }
        }
        r
    }

    /// Every overlaid cell here must be overlaid there with a superset.
    pub open spec fn le(self, other: MemMap) -> bool {
        forall|x: u32| #[trigger]
            self.has_key(x) ==> other.has_key(x) && self.gamma_at(x).subset_of(
                other.gamma_at(x),
            )
    }

    /// Exact test of `le`.
    pub fn is_subset(&self, other: &MemMap) -> (r: bool)
        requires
            self.wf(),
            other.wf(),
        ensures
            r == self.le(*other),
    {
        let n = self.entries.len();
        let mut i: usize = 0;
        while i < n
            invariant
                i <= n,
                n == self.entries@.len(),
                self.wf(),
                other.wf(),
                forall|j: int|
                    0 <= j < i ==> other.has_key(#[trigger] self.entries@[j].0)
                        && self.entries@[j].1.gamma().subset_of(
                        other.gamma_at(self.entries@[j].0),
                    ),
            decreases n - i,
        {
            let k = self.entries[i].0;
            match other.lookup(k) {
                Option::None => {
                    proof {
                        self.lemma_at_index(i as int);
                        assert(self.has_key(k) && !other.has_key(k));
                    }
                    return false;
                },
                Option::Some(b2) => {
                    let b1 = self.entries[i].1.clone();
                    if !b1.is_subset(&b2) {
                        proof {
                            self.lemma_at_index(i as int);
                            assert(self.has_key(k));
                            assert(!self.gamma_at(k).subset_of(other.gamma_at(k)));
                        }
                        return false;
                    }
                },
            }
            i = i + 1;
        }
        proof {
            assert forall|x: u32| #[trigger] self.has_key(x) implies other.has_key(x)
                && self.gamma_at(x).subset_of(other.gamma_at(x)) by {
                let j = self.index_of(x);
                assert(self.entries@[j].0 == x);
                self.lemma_at_index(j);
            }
        }
        true
    }
}

} // verus!
