//! The four-valued abstract bit: no information, definitely true, definitely
//! false, or either.
//!
//! `gamma` gives the set of concrete booleans an abstract bit stands for;
//! `Undefined` is the bottom of the lattice and `TrueAndFalse` the top.

use vstd::prelude::*;

verus! {

#[derive(Copy, Clone, PartialEq, Eq, Structural, Debug)]
pub enum Bit {
    Undefined,
    True,
    False,
    TrueAndFalse,
}

impl Bit {
    /// The set of concrete booleans this abstract bit may stand for.
    pub open spec fn gamma(self) -> Set<bool> {
        match self {
            Bit::Undefined => Set::empty(),
            Bit::True => Set::empty().insert(true),
            Bit::False => Set::empty().insert(false),
            Bit::TrueAndFalse => Set::empty().insert(true).insert(false),
        }
    }

    pub fn new() -> (r: Bit)
        ensures
            r == Bit::Undefined,
    {
        Bit::Undefined
    }

    /// Lattice join: the result stands for exactly the booleans either side
    /// stands for.
    pub fn union(self, bit: Bit) -> (r: Bit)
        ensures
            r.gamma() == self.gamma().union(bit.gamma()),
    {
        let r = match self {
            Bit::Undefined => bit,
            Bit::True => match bit {
                Bit::Undefined => Bit::True,
                Bit::False => Bit::TrueAndFalse,
                _ => bit,
            },
            Bit::False => match bit {
                Bit::Undefined => Bit::False,
                Bit::True => Bit::TrueAndFalse,
                _ => bit,
            },
            Bit::TrueAndFalse => Bit::TrueAndFalse,
        };
        proof {
            assert(r.gamma() =~= self.gamma().union(bit.gamma()));
        }
        r
    }

    /// Exact inclusion test: every concrete bit this value stands for is one
    /// the other stands for.
    pub fn is_subset(&self, bit: Bit) -> (r: bool)
        ensures
            r == self.gamma().subset_of(bit.gamma()),
    {
        let r = match *self {
            Bit::Undefined => true,
            Bit::True => bit == Bit::True || bit == Bit::TrueAndFalse,
            Bit::False => bit == Bit::False || bit == Bit::TrueAndFalse,
            Bit::TrueAndFalse => bit == Bit::TrueAndFalse,
        };
        proof {
            if r {
                assert(self.gamma().subset_of(bit.gamma()));
            } else {
                match *self {
                    Bit::True => assert(self.gamma().contains(true) && !bit.gamma().contains(true)),
                    Bit::False => assert(self.gamma().contains(false) && !bit.gamma().contains(
                        false,
                    )),
                    Bit::TrueAndFalse => {
                        if bit.gamma().contains(true) {
                            assert(!bit.gamma().contains(false));
                        }
                    },
                    _ => (),
                }
            }
        }
        r
    }

    pub fn has_truth_value(&self, truth_value: bool) -> (r: bool)
        ensures
            r == self.gamma().contains(truth_value),
    {
        match truth_value {
            true => *self == Bit::True || *self == Bit::TrueAndFalse,
            false => *self == Bit::False || *self == Bit::TrueAndFalse,
        }
    }

    /// Adds `true` to the set of booleans this bit stands for.
    pub fn add_true(&mut self)
        ensures
            final(self).gamma() == old(self).gamma().insert(true),
    {
        *self = match *self {
            Bit::Undefined | Bit::True => Bit::True,
            Bit::False | Bit::TrueAndFalse => Bit::TrueAndFalse,
        };
        proof {
            assert(self.gamma() =~= old(self).gamma().insert(true));
        }
    }

    /// Adds `false` to the set of booleans this bit stands for.
    pub fn add_false(&mut self)
        ensures
            final(self).gamma() == old(self).gamma().insert(false),
    {
        *self = match *self {
            Bit::Undefined | Bit::False => Bit::False,
            Bit::True | Bit::TrueAndFalse => Bit::TrueAndFalse,
        };
        proof {
            assert(self.gamma() =~= old(self).gamma().insert(false));
        }
    }
}

} // verus!
