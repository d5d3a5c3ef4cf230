//! The lattice laws.
//!
//! Every lattice operation's contract states the concretization of its
//! result exactly, so each law is stated here about any results that meet
//! those contracts: the `requires` of a law repeats what the operation's
//! `ensures` gives, and the law then holds of every call.

use vstd::prelude::*;
use crate::bit::Bit;
use crate::lattice::{
    byte_top, high_proj, low_of, high_of, low_proj, pair_set, split_high_spec, split_low_spec,
    sum_set, word_top, Byte, Word,
};

verus! {

/// `union` is commutative: results of joining `x` with `y` and `y` with `x`
/// stand for the same concrete values.
pub proof fn lemma_word_union_commutative(x: Word, y: Word, xy: Word, yx: Word)
    requires
        xy.gamma() == x.gamma().union(y.gamma()),
        yx.gamma() == y.gamma().union(x.gamma()),
    ensures
        xy.gamma() == yx.gamma(),
{
    assert(xy.gamma() =~= yx.gamma());
}

/// `union` is associative: joining in either association stands for the
/// same concrete values.
pub proof fn lemma_word_union_associative(
    x: Word,
    y: Word,
    z: Word,
    xy: Word,
    yz: Word,
    xy_z: Word,
    x_yz: Word,
)
    requires
        xy.gamma() == x.gamma().union(y.gamma()),
        yz.gamma() == y.gamma().union(z.gamma()),
        xy_z.gamma() == xy.gamma().union(z.gamma()),
        x_yz.gamma() == x.gamma().union(yz.gamma()),
    ensures
        xy_z.gamma() == x_yz.gamma(),
{
    assert(xy_z.gamma() =~= x_yz.gamma());
}

/// `union` is idempotent: joining a value with itself changes nothing.
pub proof fn lemma_word_union_idempotent(x: Word, xx: Word)
    requires
        xx.gamma() == x.gamma().union(x.gamma()),
    ensures
        xx.gamma() == x.gamma(),
{
    assert(xx.gamma() =~= x.gamma());
}

/// The bottom of the lattice (empty concretization, as `Undefined` has) is
/// the identity of `union`.
pub proof fn lemma_word_union_identity(x: Word, bot: Word, u: Word)
    requires
        bot.gamma() == Word::Undefined.gamma(),
        u.gamma() == x.gamma().union(bot.gamma()),
    ensures
        u.gamma() == x.gamma(),
{
    assert(u.gamma() =~= x.gamma());
}

/// The top of the lattice (full concretization, as `AnyValue` has) absorbs
/// under `union`.
pub proof fn lemma_word_union_absorbing(x: Word, top: Word, u: Word)
    requires
        top.gamma() == Word::AnyValue.gamma(),
        u.gamma() == x.gamma().union(top.gamma()),
    ensures
        u.gamma() == top.gamma(),
{
    assert(u.gamma() =~= top.gamma());
}

/// `is_subset` is reflexive.
pub proof fn lemma_word_subset_reflexive(x: Word)
    ensures
        x.gamma().subset_of(x.gamma()),
{
}

/// `is_subset` is transitive.
pub proof fn lemma_word_subset_transitive(x: Word, y: Word, z: Word)
    requires
        x.gamma().subset_of(y.gamma()),
        y.gamma().subset_of(z.gamma()),
    ensures
        x.gamma().subset_of(z.gamma()),
{
}

/// `is_subset` is antisymmetric modulo set equality: mutual inclusion means
/// the two abstractions stand for the same concrete values.
pub proof fn lemma_word_subset_antisymmetric(x: Word, y: Word)
    requires
        x.gamma().subset_of(y.gamma()),
        y.gamma().subset_of(x.gamma()),
    ensures
        x.gamma() == y.gamma(),
{
    assert(x.gamma() =~= y.gamma());
}

/// Both operands are below their join.
pub proof fn lemma_word_union_upper_bound(x: Word, y: Word, u: Word)
    requires
        u.gamma() == x.gamma().union(y.gamma()),
    ensures
        x.gamma().subset_of(u.gamma()),
        y.gamma().subset_of(u.gamma()),
{
}

/// Splitting a word of `Int` shape into its byte projections and combining
/// them again covers the word: the round trip is an upper bound.
pub proof fn lemma_combine_split_round_trip(w: Word, l: Byte, h: Byte, c: Word)
    requires
        w is Int,
        l.gamma() == split_low_spec(w),
        h.gamma() == split_high_spec(w),
        c.gamma() == pair_set(l.gamma(), h.gamma()),
    ensures
        w.gamma().subset_of(c.gamma()),
{
    assert forall|v: u16| w.gamma().contains(v) implies c.gamma().contains(v) by {
        assert(low_proj(w.gamma()).contains(low_of(v)));
        assert(high_proj(w.gamma()).contains(high_of(v)));
    }
}

/// Word addition is monotone: growing either operand can only grow the sum.
pub proof fn lemma_add_monotone(
    x: Word,
    y: Word,
    x2: Word,
    y2: Word,
    s: Word,
    s2: Word,
)
    requires
        x.gamma().subset_of(x2.gamma()),
        y.gamma().subset_of(y2.gamma()),
        s.gamma() == sum_set(x.gamma(), y.gamma()),
        s2.gamma() == sum_set(x2.gamma(), y2.gamma()),
    ensures
        s.gamma().subset_of(s2.gamma()),
{
    assert forall|v: u16| s.gamma().contains(v) implies s2.gamma().contains(v) by {
        let (a, b): (u16, u16) = choose|a: u16, b: u16|
            x.gamma().contains(a) && y.gamma().contains(b) && v == crate::lattice::sum16(a, b);
        assert(x2.gamma().contains(a) && y2.gamma().contains(b));
    }
}

/// The byte lattice obeys the same laws.
pub proof fn lemma_byte_union_commutative(x: Byte, y: Byte, xy: Byte, yx: Byte)
    requires
        xy.gamma() == x.gamma().union(y.gamma()),
        yx.gamma() == y.gamma().union(x.gamma()),
    ensures
        xy.gamma() == yx.gamma(),
{
    assert(xy.gamma() =~= yx.gamma());
}

pub proof fn lemma_byte_union_associative(
    x: Byte,
    y: Byte,
    z: Byte,
    xy: Byte,
    yz: Byte,
    xy_z: Byte,
    x_yz: Byte,
)
    requires
        xy.gamma() == x.gamma().union(y.gamma()),
        yz.gamma() == y.gamma().union(z.gamma()),
        xy_z.gamma() == xy.gamma().union(z.gamma()),
        x_yz.gamma() == x.gamma().union(yz.gamma()),
    ensures
        xy_z.gamma() == x_yz.gamma(),
{
    assert(xy_z.gamma() =~= x_yz.gamma());
}

pub proof fn lemma_byte_union_idempotent(x: Byte, xx: Byte)
    requires
        xx.gamma() == x.gamma().union(x.gamma()),
    ensures
        xx.gamma() == x.gamma(),
{
    assert(xx.gamma() =~= x.gamma());
}

pub proof fn lemma_byte_union_identity(x: Byte, u: Byte)
    requires
        u.gamma() == x.gamma().union(Byte::Undefined.gamma()),
    ensures
        u.gamma() == x.gamma(),
{
    assert(u.gamma() =~= x.gamma());
}

pub proof fn lemma_byte_union_absorbing(x: Byte, u: Byte)
    requires
        x.wf(),
        u.gamma() == x.gamma().union(Byte::AnyValue.gamma()),
    ensures
        u.gamma() == byte_top(),
{
    x.lemma_gamma_bounded();
    assert(u.gamma() =~= byte_top());
}

pub proof fn lemma_byte_subset_reflexive(x: Byte)
    ensures
        x.gamma().subset_of(x.gamma()),
{
}

pub proof fn lemma_byte_subset_transitive(x: Byte, y: Byte, z: Byte)
    requires
        x.gamma().subset_of(y.gamma()),
        y.gamma().subset_of(z.gamma()),
    ensures
        x.gamma().subset_of(z.gamma()),
{
}

pub proof fn lemma_byte_subset_antisymmetric(x: Byte, y: Byte)
    requires
        x.gamma().subset_of(y.gamma()),
        y.gamma().subset_of(x.gamma()),
    ensures
        x.gamma() == y.gamma(),
{
    assert(x.gamma() =~= y.gamma());
}

pub proof fn lemma_byte_union_upper_bound(x: Byte, y: Byte, u: Byte)
    requires
        u.gamma() == x.gamma().union(y.gamma()),
    ensures
        x.gamma().subset_of(u.gamma()),
        y.gamma().subset_of(u.gamma()),
{
}

/// The four-valued bit obeys the same laws.
pub proof fn lemma_bit_union_laws(x: Bit, y: Bit, z: Bit)
    ensures
        x.gamma().union(y.gamma()) == y.gamma().union(x.gamma()),
        x.gamma().union(y.gamma()).union(z.gamma()) == x.gamma().union(
            y.gamma().union(z.gamma()),
        ),
        x.gamma().union(x.gamma()) == x.gamma(),
        x.gamma().union(Bit::Undefined.gamma()) == x.gamma(),
        x.gamma().union(Bit::TrueAndFalse.gamma()) == Bit::TrueAndFalse.gamma(),
        x.gamma().subset_of(x.gamma().union(y.gamma())),
{
    assert(x.gamma().union(y.gamma()) =~= y.gamma().union(x.gamma()));
    assert(x.gamma().union(y.gamma()).union(z.gamma()) =~= x.gamma().union(
        y.gamma().union(z.gamma()),
    ));
    assert(x.gamma().union(x.gamma()) =~= x.gamma());
    assert(x.gamma().union(Bit::Undefined.gamma()) =~= x.gamma());
    assert(x.gamma().subset_of(Bit::TrueAndFalse.gamma()));
    assert(x.gamma().union(Bit::TrueAndFalse.gamma()) =~= Bit::TrueAndFalse.gamma());
}

} // verus!
