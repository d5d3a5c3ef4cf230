//! The abstract byte and word lattices.
//!
//! An abstract value stands for a set of concrete machine values, its
//! concretization `gamma`: `Undefined` for the empty set (nothing can reach
//! here with this value), `AnyValue` for every value of the width, `Int` for
//! a finite enumerated set, and — for words only — `Bytes(low, high)` for a
//! word known through the pair of its byte abstractions.
//!
//! Every operation's contract states the concretization of its result
//! exactly, so the lattice laws (commutativity, associativity, idempotence,
//! identity and absorption of the bounds) follow from plain set algebra.

use vstd::prelude::*;
use crate::vset::ValueSet;

verus! {

/// Concrete values of a byte: `0 .. 256`.
pub open spec fn byte_top() -> Set<u16> {
    Set::new(|v: u16| v < 256)
}

/// Concrete values of a word: all of `u16`.
pub open spec fn word_top() -> Set<u16> {
    Set::new(|v: u16| true)
}

/// The values below `bound`, as 16-bit values.
pub open spec fn range_u16(bound: int) -> Set<u16> {
    Set::new(|v: u16| v < bound)
}

pub proof fn lemma_range_u16_card(bound: int)
    requires
        0 <= bound <= 0x10000,
    ensures
        range_u16(bound).finite(),
        range_u16(bound).len() == bound,
    decreases bound,
{
    if bound == 0 {
        assert(range_u16(0) =~= Set::<u16>::empty());
    } else {
        lemma_range_u16_card(bound - 1);
        let v = (bound - 1) as u16;
        assert(range_u16(bound) =~= range_u16(bound - 1).insert(v));
        assert(!range_u16(bound - 1).contains(v));
    }
}

pub proof fn lemma_byte_top_card()
    ensures
        byte_top().finite(),
        byte_top().len() == 256,
{
    lemma_range_u16_card(256);
    assert(byte_top() =~= range_u16(256));
}

pub proof fn lemma_word_top_card()
    ensures
        word_top().finite(),
        word_top().len() == 0x10000,
{
    lemma_range_u16_card(0x10000);
    assert(word_top() =~= range_u16(0x10000));
}

/// The low byte of a word.
pub open spec fn low_of(v: u16) -> u16 {
    v % 256
}

/// The high byte of a word.
pub open spec fn high_of(v: u16) -> u16 {
    v / 256
}

/// The words whose low byte lies in `l` and whose high byte lies in `h`.
pub open spec fn pair_set(l: Set<u16>, h: Set<u16>) -> Set<u16> {
    Set::new(|v: u16| l.contains(low_of(v)) && h.contains(high_of(v)))
}

/// The low-byte projection of a set of words.
pub open spec fn low_proj(s: Set<u16>) -> Set<u16> {
    Set::new(|b: u16| exists|w: u16| s.contains(w) && b == low_of(w))
}

/// The high-byte projection of a set of words.
pub open spec fn high_proj(s: Set<u16>) -> Set<u16> {
    Set::new(|b: u16| exists|w: u16| s.contains(w) && b == high_of(w))
}

/// Addition modulo 2^16.
pub open spec fn sum16(x: u16, y: u16) -> u16 {
    ((x + y) % 0x10000) as u16
}

/// Sums modulo 2^16 of one value from each side.
pub open spec fn sum_set(a: Set<u16>, b: Set<u16>) -> Set<u16> {
    Set::new(
        |v: u16| exists|x: u16, y: u16| a.contains(x) && b.contains(y) && v == sum16(x, y),
    )
}

pub proof fn lemma_sum_set_empty(a: Set<u16>, b: Set<u16>)
    requires
        a.is_empty() || b.is_empty(),
    ensures
        sum_set(a, b).is_empty(),
{
    assert(sum_set(a, b) =~= Set::<u16>::empty());
}

pub proof fn lemma_sum_set_top(a: Set<u16>, b: Set<u16>)
    requires
        a == word_top() || b == word_top(),
        !a.is_empty(),
        !b.is_empty(),
    ensures
        sum_set(a, b) == word_top(),
{
    assert forall|v: u16| word_top().contains(v) implies sum_set(a, b).contains(v) by {
        if a == word_top() {
            let y = b.choose();
            assert(b.contains(y));
            let xi: int = if v >= y {
                v - y
            } else {
                v + 0x10000 - y
            };
            let x = xi as u16;
            assert(v == sum16(x, y)) by {
                assert((x + y) % 0x10000 == v) by (nonlinear_arith)
                    requires
                        0 <= x < 0x10000 && 0 <= y < 0x10000 && 0 <= v < 0x10000 && (x + y == v
                            || x + y == v + 0x10000),
                ;
            }
            assert(a.contains(x) && b.contains(y));
        } else {
            let x = a.choose();
            assert(a.contains(x));
            let yi: int = if v >= x {
                v - x
            } else {
                v + 0x10000 - x
            };
            let y = yi as u16;
            assert(v == sum16(x, y)) by {
                assert((x + y) % 0x10000 == v) by (nonlinear_arith)
                    requires
                        0 <= x < 0x10000 && 0 <= y < 0x10000 && 0 <= v < 0x10000 && (x + y == v
                            || x + y == v + 0x10000),
                ;
            }
            assert(b.contains(y));
        }
    }
    assert(sum_set(a, b) =~= word_top());
}

pub proof fn lemma_word_of_parts(lo: u16, hi: u16)
    requires
        lo < 256,
        hi < 256,
    ensures
        low_of((lo + 256 * hi) as u16) == lo,
        high_of((lo + 256 * hi) as u16) == hi,
        lo + 256 * hi < 0x10000,
{
    let v = (lo + 256 * hi) as u16;
    assert(lo + 256 * hi < 0x10000) by (nonlinear_arith)
        requires
            lo < 256 && hi < 256,
    ;
    assert(v % 256 == lo && v / 256 == hi) by (nonlinear_arith)
        requires
            lo < 256 && hi < 256 && v == lo + 256 * hi,
    ;
}

pub proof fn lemma_split_of_word(v: u16)
    ensures
        low_of(v) < 256,
        high_of(v) < 256,
        v == low_of(v) + 256 * high_of(v),
{
    assert(v % 256 < 256 && v / 256 < 256 && v == v % 256 + 256 * (v / 256)) by (nonlinear_arith);
}

/// A nonempty pair set has a witness; an empty side empties the pair.
pub proof fn lemma_pair_set_empty(l: Set<u16>, h: Set<u16>)
    ensures
        (l.is_empty() || h.is_empty()) ==> pair_set(l, h).is_empty(),
        (!l.is_empty() && !h.is_empty() && l.subset_of(byte_top()) && h.subset_of(byte_top()))
            ==> !pair_set(l, h).is_empty(),
{
    if l.is_empty() || h.is_empty() {
        assert forall|v: u16| !(#[trigger] pair_set(l, h).contains(v)) by {
            if l.is_empty() {
                assert(!l.contains(low_of(v)));
            } else {
                assert(!h.contains(high_of(v)));
            }
        }
        assert(pair_set(l, h) =~= Set::<u16>::empty());
    }
    if !l.is_empty() && !h.is_empty() && l.subset_of(byte_top()) && h.subset_of(byte_top()) {
        let lo = l.choose();
        let hi = h.choose();
        assert(l.contains(lo) && h.contains(hi));
        lemma_word_of_parts(lo, hi);
        assert(pair_set(l, h).contains((lo + 256 * hi) as u16));
    }
}

#[derive(Debug)]
pub enum Byte {
    Undefined,
    AnyValue,
    Int(ValueSet),
}

impl Byte {
    pub open spec fn wf(self) -> bool {
        match self {
            Byte::Int(s) => s.wf() && s.bounded(256),
            _ => true,
        }
    }

    /// The set of concrete byte values this abstraction stands for, as
    /// 16-bit values below 256.
    pub open spec fn gamma(self) -> Set<u16> {
        match self {
            Byte::Undefined => Set::empty(),
            Byte::AnyValue => byte_top(),
            Byte::Int(s) => s@,
        }
    }

    pub proof fn lemma_gamma_bounded(self)
        requires
            self.wf(),
        ensures
            self.gamma().subset_of(byte_top()),
    {
        match self {
            Byte::Int(s) => {
                s.lemma_view_bounded(256);
                assert forall|v: u16| self.gamma().contains(v) implies byte_top().contains(v) by {}
            },
            _ => (),
        }
    }

    /// The singleton abstraction of one concrete byte.
    pub fn new(byte: u8) -> (r: Byte)
        ensures
            r.wf(),
            r.gamma() == Set::<u16>::empty().insert(byte as u16),
    {
        let s = ValueSet::singleton(byte as u16);
        proof {
            assert forall|i: int| 0 <= i < s.items@.len() implies s.items@[i] < 256 by {
                let x = s.items@[i];
                assert(s.items@.contains(x));
                assert(s@.contains(x));
            }
            assert(s.bounded(256));
        }
        Byte::Int(s)
    }

    /// Lattice join: stands for exactly the bytes either side stands for.
    pub fn union(self, byte: Byte) -> (r: Byte)
        requires
            self.wf(),
            byte.wf(),
        ensures
            r.wf(),
            r.gamma() == self.gamma().union(byte.gamma()),
    {
        let ghost g1 = self.gamma();
        let ghost g2 = byte.gamma();
        match self {
            Byte::Undefined => {
                proof {
                    assert(g2 =~= g1.union(g2));
                }
                byte
            },
            Byte::AnyValue => {
                proof {
                    byte.lemma_gamma_bounded();
                    assert(byte_top() =~= g1.union(g2));
                }
                Byte::AnyValue
            },
            Byte::Int(set1) => match byte {
                Byte::Undefined => {
                    proof {
                        assert(set1@ =~= g1.union(g2));
                    }
                    Byte::Int(set1)
                },
                Byte::AnyValue => {
                    proof {
                        Byte::Int(set1).lemma_gamma_bounded();
                        assert(byte_top() =~= g1.union(g2));
                    }
                    Byte::AnyValue
                },
                Byte::Int(set2) => Byte::Int(set1.union(&set2)),
            },
        }
    }

    /// Exact inclusion test on concretizations.
    pub fn is_subset(&self, byte: &Byte) -> (r: bool)
        requires
            self.wf(),
            byte.wf(),
        ensures
            r == self.gamma().subset_of(byte.gamma()),
    {
        match self {
            Byte::Undefined => true,
            Byte::AnyValue => match byte {
                Byte::Undefined => {
                    proof {
                        assert(byte_top().contains(0u16));
                    }
                    false
                },
                Byte::AnyValue => true,
                Byte::Int(s) => {
                    let full = s.len() == 256;
                    proof {
                        if full {
                            s.lemma_full_range(256);
                            assert(byte_top().subset_of(s@));
                        } else {
                            s.lemma_card();
                            byte.lemma_gamma_bounded();
                            lemma_byte_top_card();
                            if byte_top().subset_of(s@) {
                                vstd::set_lib::lemma_len_subset(byte_top(), s@);
                                vstd::set_lib::lemma_len_subset(s@, byte_top());
                            }
                        }
                    }
                    full
                },
            },
            Byte::Int(s1) => match byte {
                Byte::Undefined => {
                    let e = s1.is_empty();
                    proof {
                        if !e {
                            assert(s1@.contains(s1.seq()[0]));
                        }
                    }
                    e
                },
                Byte::AnyValue => {
                    proof {
                        self.lemma_gamma_bounded();
                    }
                    true
                },
                Byte::Int(s2) => s1.is_subset(s2),
            },
        }
    }
}

/// The enumerated range `0 .. 256` as a concrete set.
fn full_byte_vset() -> (r: ValueSet)
    ensures
        r.wf(),
        r.bounded(256),
        r@ == byte_top(),
{
    let mut items: Vec<u16> = Vec::new();
    let mut v: u16 = 0;
    while v < 256
        invariant
            v <= 256,
            items@.len() == v,
            forall|k: int| 0 <= k < items@.len() ==> items@[k] == k,
        decreases 256 - v,
    {
        items.push(v);
        v = v + 1;
    }
    let r = ValueSet { items };
    proof {
        assert forall|x: u16| r@.contains(x) implies byte_top().contains(x) by {
            let i = choose|i: int| 0 <= i < r.items@.len() && r.items@[i] == x;
        }
        assert forall|x: u16| byte_top().contains(x) implies r@.contains(x) by {
            assert(r.items@[x as int] == x);
        }
        assert(r@ =~= byte_top());
    }
    r
}

impl Byte {
    /// The concretization as an enumerated set.
    fn enumerate(&self) -> (r: ValueSet)
        requires
            self.wf(),
        ensures
            r.wf(),
            r.bounded(256),
            r@ == self.gamma(),
    {
        match self {
            Byte::Undefined => ValueSet::empty(),
            Byte::AnyValue => full_byte_vset(),
            Byte::Int(s) => s.clone(),
        }
    }

    /// Materializes a byte pair into the set of words with a low byte from
    /// `self` and a high byte from `byte`.
    pub fn combine(self, byte: Byte) -> (r: Word)
        requires
            self.wf(),
            byte.wf(),
        ensures
            r.wf(),
            r.gamma() == pair_set(self.gamma(), byte.gamma()),
            !(r is Bytes),
    {
        let ghost gl = self.gamma();
        let ghost gh = byte.gamma();
        if let Byte::Undefined = self {
            proof {
                lemma_pair_set_empty(gl, gh);
                assert(pair_set(gl, gh) =~= Set::<u16>::empty());
            }
            return Word::Undefined;
        }
        if let Byte::Undefined = byte {
            proof {
                lemma_pair_set_empty(gl, gh);
                assert(pair_set(gl, gh) =~= Set::<u16>::empty());
            }
            return Word::Undefined;
        }
        if let Byte::AnyValue = self {
            if let Byte::AnyValue = byte {
                proof {
                    assert forall|v: u16| pair_set(byte_top(), byte_top()).contains(v)
                        <==> word_top().contains(v) by {
                        lemma_split_of_word(v);
                    }
                    assert(pair_set(gl, gh) =~= word_top());
                }
                return Word::AnyValue;
            }
        }
        let lv = self.enumerate();
        let hv = byte.enumerate();
        let mut acc = ValueSet::empty();
        let n1 = lv.len();
        let n2 = hv.len();
        proof {
            assert(pair_set(lv.seq().take(0).to_set(), hv@) =~= Set::<u16>::empty()) by {
                lemma_pair_set_empty(lv.seq().take(0).to_set(), hv@);
                assert(lv.seq().take(0).to_set() =~= Set::<u16>::empty());
                lemma_pair_set_empty(lv.seq().take(0).to_set(), hv@);
            }
        }
        let mut i: usize = 0;
        while i < n1
            invariant
                i <= n1,
                n1 == lv.seq().len(),
                n2 == hv.seq().len(),
                lv.wf(),
                lv.bounded(256),
                hv.wf(),
                hv.bounded(256),
                lv@ == gl,
                hv@ == gh,
                acc.wf(),
                acc@ == pair_set(lv.seq().take(i as int).to_set(), hv@),
            decreases n1 - i,
        {
            let lo = lv.get(i);
            let ghost outer = pair_set(lv.seq().take(i as int).to_set(), hv@);
            proof {
                lemma_pair_set_empty(Set::<u16>::empty().insert(lo), hv.seq().take(0).to_set());
                assert(hv.seq().take(0).to_set() =~= Set::<u16>::empty());
                assert(pair_set(Set::<u16>::empty().insert(lo), hv.seq().take(0).to_set())
                    =~= Set::<u16>::empty());
                assert(acc@ =~= outer.union(
                    pair_set(Set::<u16>::empty().insert(lo), hv.seq().take(0).to_set()),
                ));
            }
            let mut j: usize = 0;
            while j < n2
                invariant
                    j <= n2,
                    i < n1,
                    n1 == lv.seq().len(),
                    n2 == hv.seq().len(),
                    lv.wf(),
                    lv.bounded(256),
                    hv.wf(),
                    hv.bounded(256),
                    lv@ == gl,
                    hv@ == gh,
                    lo == lv.seq()[i as int],
                    outer == pair_set(lv.seq().take(i as int).to_set(), hv@),
                    acc.wf(),
                    acc@ == outer.union(
                        pair_set(Set::<u16>::empty().insert(lo), hv.seq().take(j as int).to_set()),
                    ),
                decreases n2 - j,
            {
                let hi = hv.get(j);
                proof {
                    assert(lo < 256);
                    assert(hi < 256);
                    lemma_word_of_parts(lo, hi);
                }
                let v = lo + 256 * hi;
                let ghost prev = acc@;
                acc.insert(v);
                proof {
                    let single = Set::<u16>::empty().insert(lo);
                    let tk = hv.seq().take(j as int).to_set();
                    let tk1 = hv.seq().take(j + 1).to_set();
                    assert(hv.seq().take(j + 1) =~= hv.seq().take(j as int).push(hi));
                    Seq::<u16>::lemma_push_to_set_commute(hv.seq().take(j as int), hi);
                    assert(tk1 =~= tk.insert(hi));
                    assert forall|x: u16| acc@.contains(x) implies outer.union(
                        pair_set(single, tk1),
                    ).contains(x) by {
                        if x == v {
                            lemma_word_of_parts(lo, hi);
                            assert(pair_set(single, tk1).contains(v));
                        }
                    }
                    assert forall|x: u16|
                        outer.union(pair_set(single, tk1)).contains(x) implies acc@.contains(
                        x,
                    ) by {
                        if !prev.contains(x) {
                            assert(pair_set(single, tk1).contains(x));
                            assert(single.contains(low_of(x)) && tk1.contains(high_of(x)));
                            if !tk.contains(high_of(x)) {
                                assert(high_of(x) == hi && low_of(x) == lo);
                                lemma_split_of_word(x);
                                assert(x == v);
                            }
                        }
                    }
                    assert(acc@ =~= outer.union(pair_set(single, tk1)));
                }
                j = j + 1;
            }
            proof {
                let single = Set::<u16>::empty().insert(lo);
                assert(hv.seq().take(n2 as int) =~= hv.seq());
                let tk1 = lv.seq().take(i + 1).to_set();
                assert(lv.seq().take(i + 1) =~= lv.seq().take(i as int).push(lo));
                Seq::<u16>::lemma_push_to_set_commute(lv.seq().take(i as int), lo);
                assert(tk1 =~= lv.seq().take(i as int).to_set().insert(lo));
                assert(acc@ =~= pair_set(tk1, hv@));
            }
            i = i + 1;
        }
        proof {
            assert(lv.seq().take(n1 as int) =~= lv.seq());
            assert(acc@ =~= pair_set(gl, gh));
        }
        Word::Int(acc)
    }

    /// Zero-extension: the word abstraction standing for the same values.
    pub fn to_word(self) -> (r: Word)
        requires
            self.wf(),
        ensures
            r.wf(),
            r.gamma() == self.gamma(),
    {
        match self {
            Byte::Undefined => Word::Undefined,
            Byte::AnyValue => Word::Int(full_byte_vset()),
            Byte::Int(s) => Word::Int(s),
        }
    }
}

#[derive(Debug)]
pub enum Word {
    Undefined,
    AnyValue,
    Int(ValueSet),
    Bytes(Byte, Byte),
}

impl Word {
    pub open spec fn wf(self) -> bool {
        match self {
            Word::Int(s) => s.wf(),
            Word::Bytes(l, h) => l.wf() && h.wf(),
            _ => true,
        }
    }

    /// The set of concrete 16-bit values this abstraction stands for.
    pub open spec fn gamma(self) -> Set<u16> {
        match self {
            Word::Undefined => Set::empty(),
            Word::AnyValue => word_top(),
            Word::Int(s) => s@,
            Word::Bytes(l, h) => pair_set(l.gamma(), h.gamma()),
        }
    }

    /// The singleton abstraction of one concrete word.
    pub fn new(word: u16) -> (r: Word)
        ensures
            r.wf(),
            r.gamma() == Set::<u16>::empty().insert(word),
            r is Int,
    {
        Word::Int(ValueSet::singleton(word))
    }

    /// Replaces a byte-pair shape by its materialized set; all other shapes
    /// pass through. The concretization is unchanged.
    pub fn materialize(self) -> (r: Word)
        requires
            self.wf(),
        ensures
            r.wf(),
            r.gamma() == self.gamma(),
            !(r is Bytes),
    {
        match self {
            Word::Bytes(l, h) => l.combine(h),
            w => w,
        }
    }

    /// True exactly when the concretization is the full word range.
    pub fn is_unbounded(&self) -> (r: bool)
        requires
            self.wf(),
            !(self is Bytes),
        ensures
            r == (self.gamma() == word_top()),
    {
        match self {
            Word::Undefined => {
                proof {
                    assert(word_top().contains(0u16));
                }
                false
            },
            Word::AnyValue => true,
            Word::Int(s) => {
                let full = s.len() == 0x10000;
                proof {
                    assert(s.bounded(0x10000));
                    if full {
                        s.lemma_full_range(0x10000);
                        assert(s@ =~= word_top());
                    } else {
                        s.lemma_card();
                        lemma_word_top_card();
                        if s@ == word_top() {
                            assert(s@.len() == 0x10000);
                        }
                    }
                }
                full
            },
            Word::Bytes(..) => {
                proof {
                    assert(false);
                }
                false
            },
        }
    }

    /// True exactly when the concretization is empty.
    pub fn gamma_is_empty(&self) -> (r: bool)
        requires
            self.wf(),
            !(self is Bytes),
        ensures
            r == self.gamma().is_empty(),
    {
        match self {
            Word::Undefined => true,
            Word::AnyValue => {
                proof {
                    assert(word_top().contains(0u16));
                }
                false
            },
            Word::Int(s) => s.is_empty(),
            Word::Bytes(..) => {
                proof {
                    assert(false);
                }
                true
            },
        }
    }

    /// Lattice join: stands for exactly the words either side stands for.
    /// A byte-pair shape is materialized first.
    pub fn union(self, word: Word) -> (r: Word)
        requires
            self.wf(),
            word.wf(),
        ensures
            r.wf(),
            r.gamma() == self.gamma().union(word.gamma()),
    {
        let ghost g1 = self.gamma();
        let ghost g2 = word.gamma();
        let a = self.materialize();
        let b = word.materialize();
        let r = match (a, b) {
            (Word::Undefined, y) => {
                proof {
                    assert(y.gamma() =~= g1.union(g2));
                }
                y
            },
            (x, Word::Undefined) => {
                proof {
                    assert(x.gamma() =~= g1.union(g2));
                }
                x
            },
            (Word::AnyValue, _) => {
                proof {
                    assert(word_top() =~= g1.union(g2));
                }
                Word::AnyValue
            },
            (_, Word::AnyValue) => {
                proof {
                    assert(word_top() =~= g1.union(g2));
                }
                Word::AnyValue
            },
            (Word::Int(s1), Word::Int(s2)) => Word::Int(s1.union(&s2)),
            _ => {
                proof {
                    assert(false);
                }
                Word::Undefined
            },
        };
        r
    }

    /// Exact inclusion test on concretizations.
    pub fn is_subset(&self, word: &Word) -> (r: bool)
        requires
            self.wf(),
            word.wf(),
        ensures
            r == self.gamma().subset_of(word.gamma()),
    {
        let a = self.clone().materialize();
        let b = word.clone().materialize();
        match (&a, &b) {
            (Word::Undefined, _) => true,
            (_, Word::AnyValue) => true,
            (Word::AnyValue, Word::Undefined) => {
                proof {
                    assert(word_top().contains(0u16));
                }
                false
            },
            (Word::AnyValue, Word::Int(s)) => {
                let full = s.len() == 0x10000;
                proof {
                    assert(s.bounded(0x10000));
                    if full {
                        s.lemma_full_range(0x10000);
                        assert(word_top().subset_of(s@));
                    } else {
                        s.lemma_card();
                        lemma_word_top_card();
                        if word_top().subset_of(s@) {
                            vstd::set_lib::lemma_len_subset(word_top(), s@);
                            vstd::set_lib::lemma_len_subset(s@, word_top());
                        }
                    }
                }
                full
            },
            (Word::Int(s), Word::Undefined) => {
                let e = s.is_empty();
                proof {
                    if !e {
                        assert(s@.contains(s.seq()[0]));
                    }
                }
                e
            },
            (Word::Int(s1), Word::Int(s2)) => s1.is_subset(s2),
            _ => {
                proof {
                    assert(false);
                }
                false
            },
        }
    }

    /// The abstraction of the low byte. On a byte-pair shape this is the
    /// stored low component; on other shapes it is the exact projection.
    pub fn split_low(&self) -> (r: Byte)
        requires
            self.wf(),
        ensures
            r.wf(),
            r.gamma() == split_low_spec(*self),
            low_proj(self.gamma()).subset_of(r.gamma()),
    {
        match self {
            Word::Undefined => {
                proof {
                    assert(low_proj(Set::<u16>::empty()) =~= Set::<u16>::empty());
                }
                Byte::Undefined
            },
            Word::AnyValue => {
                proof {
                    assert forall|b: u16| byte_top().contains(b) implies low_proj(
                        word_top(),
                    ).contains(b) by {
                        assert(low_of(b) == b) by (nonlinear_arith)
                            requires
                                b < 256,
                        ;
                        assert(word_top().contains(b));
                    }
                    assert forall|b: u16| low_proj(word_top()).contains(b) implies
                        byte_top().contains(b) by {
                        let w = choose|w: u16| word_top().contains(w) && b == low_of(w);
                        lemma_split_of_word(w);
                    }
                    assert(low_proj(word_top()) =~= byte_top());
                }
                Byte::AnyValue
            },
            Word::Int(s) => {
                let mut acc = ValueSet::empty();
                let n = s.len();
                proof {
                    assert(low_proj(s.seq().take(0).to_set()) =~= Set::<u16>::empty());
                }
                let mut i: usize = 0;
                while i < n
                    invariant
                        i <= n,
                        n == s.seq().len(),
                        s.wf(),
                        acc.wf(),
                        acc.bounded(256),
                        acc@ == low_proj(s.seq().take(i as int).to_set()),
                    decreases n - i,
                {
                    let w = s.get(i);
                    let lo = w % 256;
                    proof {
                        lemma_split_of_word(w);
                        assert(lo == low_of(w));
                    }
                    let ghost prev = acc@;
                    acc.insert(lo);
                    proof {
                        let tk = s.seq().take(i as int).to_set();
                        let tk1 = s.seq().take(i + 1).to_set();
                        assert(s.seq().take(i + 1) =~= s.seq().take(i as int).push(w));
                        Seq::<u16>::lemma_push_to_set_commute(s.seq().take(i as int), w);
                        assert(tk1 =~= tk.insert(w));
                        assert forall|x: u16| acc@.contains(x) implies low_proj(tk1).contains(
                            x,
                        ) by {
                            if x == lo {
                                assert(tk1.contains(w) && x == low_of(w));
                            } else {
                                let w0 = choose|w0: u16| tk.contains(w0) && x == low_of(w0);
                                assert(tk1.contains(w0));
                            }
                        }
                        assert forall|x: u16| low_proj(tk1).contains(x) implies acc@.contains(
                            x,
                        ) by {
                            let w0 = choose|w0: u16| tk1.contains(w0) && x == low_of(w0);
                            if w0 == w {
                                assert(x == lo);
                            } else {
                                assert(tk.contains(w0));
                                assert(prev.contains(x));
                            }
                        }
                        assert(acc@ =~= low_proj(tk1));
                    }
                    i = i + 1;
                }
                proof {
                    assert(s.seq().take(n as int) =~= s.seq());
                }
                Byte::Int(acc)
            },
            Word::Bytes(l, _) => {
                proof {
                    assert forall|b: u16| low_proj(self.gamma()).contains(b) implies
                        l.gamma().contains(b) by {
                        let w = choose|w: u16| self.gamma().contains(w) && b == low_of(w);
                    }
                }
                l.clone()
            },
        }
    }

    /// The abstraction of the high byte. On a byte-pair shape this is the
    /// stored high component; on other shapes it is the exact projection.
    pub fn split_high(&self) -> (r: Byte)
        requires
            self.wf(),
        ensures
            r.wf(),
            r.gamma() == split_high_spec(*self),
            high_proj(self.gamma()).subset_of(r.gamma()),
    {
        match self {
            Word::Undefined => {
                proof {
                    assert(high_proj(Set::<u16>::empty()) =~= Set::<u16>::empty());
                }
                Byte::Undefined
            },
            Word::AnyValue => {
                proof {
                    assert forall|b: u16| byte_top().contains(b) implies high_proj(
                        word_top(),
                    ).contains(b) by {
                        lemma_word_of_parts(0, b);
                        let w = (256 * b) as u16;
                        assert(word_top().contains(w) && b == high_of(w));
                    }
                    assert forall|b: u16| high_proj(word_top()).contains(b) implies
                        byte_top().contains(b) by {
                        let w = choose|w: u16| word_top().contains(w) && b == high_of(w);
                        lemma_split_of_word(w);
                    }
                    assert(high_proj(word_top()) =~= byte_top());
                }
                Byte::AnyValue
            },
            Word::Int(s) => {
                let mut acc = ValueSet::empty();
                let n = s.len();
                proof {
                    assert(high_proj(s.seq().take(0).to_set()) =~= Set::<u16>::empty());
                }
                let mut i: usize = 0;
                while i < n
                    invariant
                        i <= n,
                        n == s.seq().len(),
                        s.wf(),
                        acc.wf(),
                        acc.bounded(256),
                        acc@ == high_proj(s.seq().take(i as int).to_set()),
                    decreases n - i,
                {
                    let w = s.get(i);
                    let hi = w / 256;
                    proof {
                        lemma_split_of_word(w);
                        assert(hi == high_of(w));
                    }
                    let ghost prev = acc@;
                    acc.insert(hi);
                    proof {
                        let tk = s.seq().take(i as int).to_set();
                        let tk1 = s.seq().take(i + 1).to_set();
                        assert(s.seq().take(i + 1) =~= s.seq().take(i as int).push(w));
                        Seq::<u16>::lemma_push_to_set_commute(s.seq().take(i as int), w);
                        assert(tk1 =~= tk.insert(w));
                        assert forall|x: u16| acc@.contains(x) implies high_proj(tk1).contains(
                            x,
                        ) by {
                            if x == hi {
                                assert(tk1.contains(w) && x == high_of(w));
                            } else {
                                let w0 = choose|w0: u16| tk.contains(w0) && x == high_of(w0);
                                assert(tk1.contains(w0));
                            }
                        }
                        assert forall|x: u16| high_proj(tk1).contains(x) implies acc@.contains(
                            x,
                        ) by {
                            let w0 = choose|w0: u16| tk1.contains(w0) && x == high_of(w0);
                            if w0 == w {
                                assert(x == hi);
                            } else {
                                assert(tk.contains(w0));
                                assert(prev.contains(x));
                            }
                        }
                        assert(acc@ =~= high_proj(tk1));
                    }
                    i = i + 1;
                }
                proof {
                    assert(s.seq().take(n as int) =~= s.seq());
                }
                Byte::Int(acc)
            },
            Word::Bytes(_, h) => {
                proof {
                    assert forall|b: u16| high_proj(self.gamma()).contains(b) implies
                        h.gamma().contains(b) by {
                        let w = choose|w: u16| self.gamma().contains(w) && b == high_of(w);
                    }
                }
                h.clone()
            },
        }
    }

    /// Abstract addition modulo 2^16: the sums of one value from each side.
    /// Byte-pair shapes are materialized first.
    pub fn add(self, rhs: Word) -> (r: Word)
        requires
            self.wf(),
            rhs.wf(),
        ensures
            r.wf(),
            r.gamma() == sum_set(self.gamma(), rhs.gamma()),
    {
        let ghost g1 = self.gamma();
        let ghost g2 = rhs.gamma();
        let a = self.materialize();
        let b = rhs.materialize();
        if a.gamma_is_empty() || b.gamma_is_empty() {
            proof {
                lemma_sum_set_empty(g1, g2);
                assert(sum_set(g1, g2) =~= Set::<u16>::empty());
            }
            return Word::Undefined;
        }
        match (a, b) {
            (Word::AnyValue, y) => {
                proof {
                    lemma_sum_set_top(word_top(), y.gamma());
                }
                Word::AnyValue
            },
            (x, Word::AnyValue) => {
                proof {
                    lemma_sum_set_top(x.gamma(), word_top());
                }
                Word::AnyValue
            },
            (Word::Int(s1), Word::Int(s2)) => {
                let mut acc = ValueSet::empty();
                let n1 = s1.len();
                let n2 = s2.len();
                proof {
                    assert(sum_set(s1.seq().take(0).to_set(), s2@) =~= Set::<u16>::empty());
                }
                let mut i: usize = 0;
                while i < n1
                    invariant
                        i <= n1,
                        n1 == s1.seq().len(),
                        n2 == s2.seq().len(),
                        s1.wf(),
                        s2.wf(),
                        s1@ == g1,
                        s2@ == g2,
                        acc.wf(),
                        acc@ == sum_set(s1.seq().take(i as int).to_set(), s2@),
                    decreases n1 - i,
                {
                    let x = s1.get(i);
                    let ghost outer = sum_set(s1.seq().take(i as int).to_set(), s2@);
                    proof {
                        assert(s2.seq().take(0).to_set() =~= Set::<u16>::empty());
                        lemma_sum_set_empty(
                            Set::<u16>::empty().insert(x),
                            s2.seq().take(0).to_set(),
                        );
                        assert(acc@ =~= outer.union(
                            sum_set(Set::<u16>::empty().insert(x), s2.seq().take(0).to_set()),
                        ));
                    }
                    let mut j: usize = 0;
                    while j < n2
                        invariant
                            j <= n2,
                            i < n1,
                            n1 == s1.seq().len(),
                            n2 == s2.seq().len(),
                            s1.wf(),
                            s2.wf(),
                            s1@ == g1,
                            s2@ == g2,
                            x == s1.seq()[i as int],
                            outer == sum_set(s1.seq().take(i as int).to_set(), s2@),
                            acc.wf(),
                            acc@ == outer.union(
                                sum_set(
                                    Set::<u16>::empty().insert(x),
                                    s2.seq().take(j as int).to_set(),
                                ),
                            ),
                        decreases n2 - j,
                    {
                        let y = s2.get(j);
                        let v = ((x as u32 + y as u32) % 0x10000) as u16;
                        proof {
                            assert(v == sum16(x, y));
                        }
                        let ghost prev = acc@;
                        acc.insert(v);
                        proof {
                            let single = Set::<u16>::empty().insert(x);
                            let tk = s2.seq().take(j as int).to_set();
                            let tk1 = s2.seq().take(j + 1).to_set();
                            assert(s2.seq().take(j + 1) =~= s2.seq().take(j as int).push(y));
                            Seq::<u16>::lemma_push_to_set_commute(s2.seq().take(j as int), y);
                            assert(tk1 =~= tk.insert(y));
                            assert forall|z: u16| acc@.contains(z) implies outer.union(
                                sum_set(single, tk1),
                            ).contains(z) by {
                                if z == v {
                                    assert(single.contains(x) && tk1.contains(y) && z == sum16(
                                        x,
                                        y,
                                    ));
                                    assert(sum_set(single, tk1).contains(z));
                                }
                            }
                            assert forall|z: u16|
                                outer.union(sum_set(single, tk1)).contains(z) implies
                                acc@.contains(z) by {
                                if !prev.contains(z) {
                                    assert(sum_set(single, tk1).contains(z));
                                    let (p, q): (u16, u16) = choose|p: u16, q: u16|
                                        single.contains(p) && tk1.contains(q) && z == sum16(p, q);
                                    if tk.contains(q) {
                                        assert(sum_set(single, tk).contains(z));
                                    } else {
                                        assert(p == x && q == y);
                                        assert(z == v);
                                    }
                                }
                            }
                            assert(acc@ =~= outer.union(sum_set(single, tk1)));
                        }
                        j = j + 1;
                    }
                    proof {
                        let single = Set::<u16>::empty().insert(x);
                        assert(s2.seq().take(n2 as int) =~= s2.seq());
                        let tk1 = s1.seq().take(i + 1).to_set();
                        assert(s1.seq().take(i + 1) =~= s1.seq().take(i as int).push(x));
                        Seq::<u16>::lemma_push_to_set_commute(s1.seq().take(i as int), x);
                        assert(tk1 =~= s1.seq().take(i as int).to_set().insert(x));
                        assert forall|z: u16| acc@.contains(z) implies sum_set(tk1, s2@).contains(
                            z,
                        ) by {
                            if outer.contains(z) {
                                let (p, q): (u16, u16) = choose|p: u16, q: u16|
                                    s1.seq().take(i as int).to_set().contains(p) && s2@.contains(q)
                                        && z == sum16(p, q);
                                assert(tk1.contains(p));
                            } else {
                                let (p, q): (u16, u16) = choose|p: u16, q: u16|
                                    single.contains(p) && s2@.contains(q) && z == sum16(p, q);
                                assert(tk1.contains(p));
                            }
                        }
                        assert forall|z: u16| sum_set(tk1, s2@).contains(z) implies acc@.contains(
                            z,
                        ) by {
                            let (p, q): (u16, u16) = choose|p: u16, q: u16|
                                tk1.contains(p) && s2@.contains(q) && z == sum16(p, q);
                            if s1.seq().take(i as int).to_set().contains(p) {
                                assert(outer.contains(z));
                            } else {
                                assert(p == x);
                                assert(single.contains(p));
                                assert(sum_set(single, s2@).contains(z));
                            }
                        }
                        assert(acc@ =~= sum_set(tk1, s2@));
                    }
                    i = i + 1;
                }
                proof {
                    assert(s1.seq().take(n1 as int) =~= s1.seq());
                    assert(acc@ =~= sum_set(g1, g2));
                }
                Word::Int(acc)
            },
            _ => {
                proof {
                    assert(false);
                }
                Word::Undefined
            },
        }
    }
}

/// What `split_low` returns: the stored component of a byte pair, else the
/// exact low-byte projection.
pub open spec fn split_low_spec(w: Word) -> Set<u16> {
    match w {
        Word::Bytes(l, h) => l.gamma(),
        _ => low_proj(w.gamma()),
    }
}

/// What `split_high` returns: the stored component of a byte pair, else the
/// exact high-byte projection.
pub open spec fn split_high_spec(w: Word) -> Set<u16> {
    match w {
        Word::Bytes(l, h) => h.gamma(),
        _ => high_proj(w.gamma()),
    }
}

impl Clone for Word {
    fn clone(&self) -> (r: Self)
        ensures
            r.gamma() == self.gamma(),
            r.wf() == self.wf(),
            split_low_spec(r) == split_low_spec(*self),
            split_high_spec(r) == split_high_spec(*self),
    {
        let r = match self {
            Word::Undefined => Word::Undefined,
            Word::AnyValue => Word::AnyValue,
            Word::Int(s) => Word::Int(s.clone()),
            Word::Bytes(l, h) => Word::Bytes(l.clone(), h.clone()),
        };
        proof {
            assert(r.gamma() =~= self.gamma());
            assert(r.gamma() == self.gamma());
            match self {
                Word::Bytes(l, h) => {
                    assert(split_low_spec(r) == split_low_spec(*self));
                    assert(split_high_spec(r) == split_high_spec(*self));
                },
                _ => {
                    assert(split_low_spec(r) == low_proj(r.gamma()));
                    assert(split_high_spec(r) == high_proj(r.gamma()));
                },
            }
        }
        r
    }
}

/// An abstract value of either width.
#[derive(Debug)]
pub enum Value {
    Word(Word),
    Byte(Byte),
}

impl Value {
    pub open spec fn wf(self) -> bool {
        match self {
            Value::Word(w) => w.wf(),
            Value::Byte(b) => b.wf(),
        }
    }

    pub open spec fn gamma(self) -> Set<u16> {
        match self {
            Value::Word(w) => w.gamma(),
            Value::Byte(b) => b.gamma(),
        }
    }

    pub open spec fn same_kind(self, other: Value) -> bool {
        (self is Word && other is Word) || (self is Byte && other is Byte)
    }

    /// Exact inclusion test; only values of one width are comparable.
    pub fn is_subset(&self, value: &Value) -> (r: bool)
        requires
            self.wf(),
            value.wf(),
            self.same_kind(*value),
        ensures
            r == self.gamma().subset_of(value.gamma()),
    {
        match (self, value) {
            (Value::Word(w1), Value::Word(w2)) => w1.is_subset(w2),
            (Value::Byte(b1), Value::Byte(b2)) => b1.is_subset(b2),
            _ => {
                proof {
                    assert(false);
                }
                false
            },
        }
    }

    /// Lattice join of two values of one width.
    pub fn union(self, value: Value) -> (r: Value)
        requires
            self.wf(),
            value.wf(),
            self.same_kind(value),
        ensures
            r.wf(),
            r.gamma() == self.gamma().union(value.gamma()),
            r.same_kind(self),
    {
        match (self, value) {
            (Value::Word(w1), Value::Word(w2)) => Value::Word(w1.union(w2)),
            (Value::Byte(b1), Value::Byte(b2)) => Value::Byte(b1.union(b2)),
            (a, _) => {
                proof {
                    assert(false);
                }
                a
            },
        }
    }
}

impl Clone for Value {
    fn clone(&self) -> (r: Self)
        ensures
            r.gamma() == self.gamma(),
            r.wf() == self.wf(),
            r.same_kind(*self),
    {
        match self {
            Value::Word(w) => Value::Word(w.clone()),
            Value::Byte(b) => Value::Byte(b.clone()),
        }
    }
}

impl Clone for Byte {
    fn clone(&self) -> (r: Self)
        ensures
            r.gamma() == self.gamma(),
            r.wf() == self.wf(),
    {
        match self {
            Byte::Undefined => Byte::Undefined,
            Byte::AnyValue => Byte::AnyValue,
            Byte::Int(s) => Byte::Int(s.clone()),
        }
    }
}

} // verus!
