//! The abstract register file and flag set of the segmented architecture.

use vstd::prelude::*;
use crate::bit::Bit;
use crate::lattice::{split_high_spec, split_low_spec, Word};

verus! {

#[derive(Copy, Clone, PartialEq, Eq, Structural, Debug)]
pub enum Register {
    AX,
    AL,
    AH,
    BX,
    BL,
    BH,
    CX,
    CL,
    CH,
    DX,
    DL,
    DH,
    SP,
    BP,
    SI,
    DI,
    CS,
    DS,
    ES,
    SS,
}

impl Register {
    /// The byte-addressable halves of the general registers.
    pub open spec fn is_reg8(self) -> bool {
        match self {
            Register::AL | Register::AH | Register::BL | Register::BH | Register::CL
                | Register::CH | Register::DL | Register::DH => true,
            _ => false,
        }
    }

    /// The 16-bit registers, the code segment included.
    pub open spec fn is_reg16(self) -> bool {
        match self {
            Register::AX | Register::BX | Register::CX | Register::DX | Register::SP
                | Register::BP | Register::SI | Register::DI | Register::CS | Register::DS
                | Register::ES | Register::SS => true,
            _ => false,
        }
    }
}

#[derive(Copy, Clone, PartialEq, Eq, Structural, Debug)]
pub enum Flag {
    Carry,
    Parity,
    Adjust,
    Zero,
    Sign,
    Interrupt,
    Direction,
    Overflow,
}

#[derive(Copy, Clone, PartialEq, Eq, Structural, Debug)]
pub struct Flags {
    pub carry: Bit,
    pub parity: Bit,
    pub adjust: Bit,
    pub zero: Bit,
    pub sign: Bit,
    pub interrupt: Bit,
    pub direction: Bit,
    pub overflow: Bit,
}

impl Flags {
    /// The abstract bit stored for a flag.
    pub open spec fn spec_get(self, flag: Flag) -> Bit {
        match flag {
            Flag::Carry => self.carry,
            Flag::Parity => self.parity,
            Flag::Adjust => self.adjust,
            Flag::Zero => self.zero,
            Flag::Sign => self.sign,
            Flag::Interrupt => self.interrupt,
            Flag::Direction => self.direction,
            Flag::Overflow => self.overflow,
        }
    }

    /// Pointwise inclusion of the eight flags.
    pub open spec fn le(self, other: Flags) -> bool {
        forall|f: Flag| #[trigger] self.spec_get(f).gamma().subset_of(other.spec_get(f).gamma())
    }

    /// All flags start with no information.
    pub fn new() -> (r: Flags)
        ensures
            forall|f: Flag| #[trigger] r.spec_get(f) == Bit::Undefined,
    {
        Flags {
            carry: Bit::Undefined,
            parity: Bit::Undefined,
            adjust: Bit::Undefined,
            zero: Bit::Undefined,
            sign: Bit::Undefined,
            interrupt: Bit::Undefined,
            direction: Bit::Undefined,
            overflow: Bit::Undefined,
        }
    }

    pub fn get(&self, flag: Flag) -> (r: Bit)
        ensures
            r == self.spec_get(flag),
    {
        match flag {
            Flag::Carry => self.carry,
            Flag::Parity => self.parity,
            Flag::Adjust => self.adjust,
            Flag::Zero => self.zero,
            Flag::Sign => self.sign,
            Flag::Interrupt => self.interrupt,
            Flag::Direction => self.direction,
            Flag::Overflow => self.overflow,
        }
    }

    /// Replaces one flag, leaving the others as they were.
    pub fn set(self, flag: Flag, bit: Bit) -> (r: Flags)
        ensures
            r.spec_get(flag) == bit,
            forall|f: Flag| f != flag ==> #[trigger] r.spec_get(f) == self.spec_get(f),
    {
        match flag {
            Flag::Carry => Flags { carry: bit, ..self },
            Flag::Parity => Flags { parity: bit, ..self },
            Flag::Adjust => Flags { adjust: bit, ..self },
            Flag::Zero => Flags { zero: bit, ..self },
            Flag::Sign => Flags { sign: bit, ..self },
            Flag::Interrupt => Flags { interrupt: bit, ..self },
            Flag::Direction => Flags { direction: bit, ..self },
            Flag::Overflow => Flags { overflow: bit, ..self },
        }
    }

    /// Pointwise lattice join of the eight flags.
    pub fn union(self, flags: Flags) -> (r: Flags)
        ensures
            forall|f: Flag| #[trigger]
                r.spec_get(f).gamma() == self.spec_get(f).gamma().union(flags.spec_get(f).gamma()),
    {
        Flags {
            carry: self.carry.union(flags.carry),
            parity: self.parity.union(flags.parity),
            adjust: self.adjust.union(flags.adjust),
            zero: self.zero.union(flags.zero),
            sign: self.sign.union(flags.sign),
            interrupt: self.interrupt.union(flags.interrupt),
            direction: self.direction.union(flags.direction),
            overflow: self.overflow.union(flags.overflow),
        }
    }

    /// Exact pointwise inclusion test.
    pub fn is_subset(&self, flags: Flags) -> (r: bool)
        ensures
            r == self.le(flags),
    {
        let r = self.carry.is_subset(flags.carry) && self.parity.is_subset(flags.parity)
            && self.adjust.is_subset(flags.adjust) && self.zero.is_subset(flags.zero)
            && self.sign.is_subset(flags.sign) && self.interrupt.is_subset(flags.interrupt)
            && self.direction.is_subset(flags.direction) && self.overflow.is_subset(
            flags.overflow,
        );
        proof {
            if r {
                assert forall|f: Flag| #[trigger]
                    self.spec_get(f).gamma().subset_of(flags.spec_get(f).gamma()) by {
                    match f {
                        Flag::Carry => (),
                        Flag::Parity => (),
                        Flag::Adjust => (),
                        Flag::Zero => (),
                        Flag::Sign => (),
                        Flag::Interrupt => (),
                        Flag::Direction => (),
                        Flag::Overflow => (),
                    };
                }
            } else {
                if self.le(flags) {
                    assert(self.spec_get(Flag::Carry).gamma().subset_of(
                        flags.spec_get(Flag::Carry).gamma(),
                    ));
                    assert(self.spec_get(Flag::Parity).gamma().subset_of(
                        flags.spec_get(Flag::Parity).gamma(),
                    ));
                    assert(self.spec_get(Flag::Adjust).gamma().subset_of(
                        flags.spec_get(Flag::Adjust).gamma(),
                    ));
                    assert(self.spec_get(Flag::Zero).gamma().subset_of(
                        flags.spec_get(Flag::Zero).gamma(),
                    ));
                    assert(self.spec_get(Flag::Sign).gamma().subset_of(
                        flags.spec_get(Flag::Sign).gamma(),
                    ));
                    assert(self.spec_get(Flag::Interrupt).gamma().subset_of(
                        flags.spec_get(Flag::Interrupt).gamma(),
                    ));
                    assert(self.spec_get(Flag::Direction).gamma().subset_of(
                        flags.spec_get(Flag::Direction).gamma(),
                    ));
                    assert(self.spec_get(Flag::Overflow).gamma().subset_of(
                        flags.spec_get(Flag::Overflow).gamma(),
                    ));
                }
            }
        }
        r
    }
}

/// The abstract register file: each named register holds an abstract word.
#[derive(Debug)]
pub struct Registers {
    pub ax: Word,
    pub bx: Word,
    pub cx: Word,
    pub dx: Word,
    pub sp: Word,
    pub bp: Word,
    pub si: Word,
    pub di: Word,
    pub ds: Word,
    pub es: Word,
    pub ss: Word,
}

impl Registers {
    pub open spec fn wf(self) -> bool {
        self.ax.wf() && self.bx.wf() && self.cx.wf() && self.dx.wf() && self.sp.wf()
            && self.bp.wf() && self.si.wf() && self.di.wf() && self.ds.wf() && self.es.wf()
            && self.ss.wf()
    }

    /// Pointwise inclusion of the eleven registers.
    pub open spec fn le(self, other: Registers) -> bool {
        self.ax.gamma().subset_of(other.ax.gamma()) && self.bx.gamma().subset_of(other.bx.gamma())
            && self.cx.gamma().subset_of(other.cx.gamma()) && self.dx.gamma().subset_of(
            other.dx.gamma(),
        ) && self.sp.gamma().subset_of(other.sp.gamma()) && self.bp.gamma().subset_of(
            other.bp.gamma(),
        ) && self.si.gamma().subset_of(other.si.gamma()) && self.di.gamma().subset_of(
            other.di.gamma(),
        ) && self.ds.gamma().subset_of(other.ds.gamma()) && self.es.gamma().subset_of(
            other.es.gamma(),
        ) && self.ss.gamma().subset_of(other.ss.gamma())
    }

    /// Every register starts with no information.
    pub fn new() -> (r: Registers)
        ensures
            r.wf(),
            r.ax is Undefined && r.bx is Undefined && r.cx is Undefined && r.dx is Undefined,
            r.sp is Undefined && r.bp is Undefined && r.si is Undefined && r.di is Undefined,
            r.ds is Undefined && r.es is Undefined && r.ss is Undefined,
    {
        Registers {
            ax: Word::Undefined,
            bx: Word::Undefined,
            cx: Word::Undefined,
            dx: Word::Undefined,
            sp: Word::Undefined,
            bp: Word::Undefined,
            si: Word::Undefined,
            di: Word::Undefined,
            ds: Word::Undefined,
            es: Word::Undefined,
            ss: Word::Undefined,
        }
    }

    /// Pointwise lattice join.
    pub fn union(self, regs: Registers) -> (r: Registers)
        requires
            self.wf(),
            regs.wf(),
        ensures
            r.wf(),
            r.ax.gamma() == self.ax.gamma().union(regs.ax.gamma()),
            r.bx.gamma() == self.bx.gamma().union(regs.bx.gamma()),
            r.cx.gamma() == self.cx.gamma().union(regs.cx.gamma()),
            r.dx.gamma() == self.dx.gamma().union(regs.dx.gamma()),
            r.sp.gamma() == self.sp.gamma().union(regs.sp.gamma()),
            r.bp.gamma() == self.bp.gamma().union(regs.bp.gamma()),
            r.si.gamma() == self.si.gamma().union(regs.si.gamma()),
            r.di.gamma() == self.di.gamma().union(regs.di.gamma()),
            r.ds.gamma() == self.ds.gamma().union(regs.ds.gamma()),
            r.es.gamma() == self.es.gamma().union(regs.es.gamma()),
            r.ss.gamma() == self.ss.gamma().union(regs.ss.gamma()),
    {
        Registers {
            ax: self.ax.union(regs.ax),
            bx: self.bx.union(regs.bx),
            cx: self.cx.union(regs.cx),
            dx: self.dx.union(regs.dx),
            sp: self.sp.union(regs.sp),
            bp: self.bp.union(regs.bp),
            si: self.si.union(regs.si),
            di: self.di.union(regs.di),
            ds: self.ds.union(regs.ds),
            es: self.es.union(regs.es),
            ss: self.ss.union(regs.ss),
        }
    }

    /// Exact pointwise inclusion test.
    pub fn is_subset(&self, regs: &Registers) -> (r: bool)
        requires
            self.wf(),
            regs.wf(),
        ensures
            r == self.le(*regs),
    {
        self.ax.is_subset(&regs.ax) && self.bx.is_subset(&regs.bx) && self.cx.is_subset(&regs.cx)
            && self.dx.is_subset(&regs.dx) && self.sp.is_subset(&regs.sp) && self.bp.is_subset(
            &regs.bp,
        ) && self.si.is_subset(&regs.si) && self.di.is_subset(&regs.di) && self.ds.is_subset(
            &regs.ds,
        ) && self.es.is_subset(&regs.es) && self.ss.is_subset(&regs.ss)
    }
}

/// Pointwise: each register of `r` stands for what the corresponding
/// registers of `a` and `b` stand for together.
pub open spec fn regs_is_join(a: Registers, b: Registers, r: Registers) -> bool {
    &&& r.ax.gamma() == a.ax.gamma().union(b.ax.gamma())
    &&& r.bx.gamma() == a.bx.gamma().union(b.bx.gamma())
    &&& r.cx.gamma() == a.cx.gamma().union(b.cx.gamma())
    &&& r.dx.gamma() == a.dx.gamma().union(b.dx.gamma())
    &&& r.sp.gamma() == a.sp.gamma().union(b.sp.gamma())
    &&& r.bp.gamma() == a.bp.gamma().union(b.bp.gamma())
    &&& r.si.gamma() == a.si.gamma().union(b.si.gamma())
    &&& r.di.gamma() == a.di.gamma().union(b.di.gamma())
    &&& r.ds.gamma() == a.ds.gamma().union(b.ds.gamma())
    &&& r.es.gamma() == a.es.gamma().union(b.es.gamma())
    &&& r.ss.gamma() == a.ss.gamma().union(b.ss.gamma())
}

/// What cloning preserves of a word: its concretization, well-formedness,
/// and both byte projections.
pub open spec fn word_sim(a: Word, b: Word) -> bool {
    a.gamma() == b.gamma() && a.wf() == b.wf() && split_low_spec(a) == split_low_spec(b)
        && split_high_spec(a) == split_high_spec(b)
}

impl Clone for Registers {
    fn clone(&self) -> (r: Self)
        ensures
            word_sim(r.ax, self.ax),
            word_sim(r.bx, self.bx),
            word_sim(r.cx, self.cx),
            word_sim(r.dx, self.dx),
            word_sim(r.sp, self.sp),
            word_sim(r.bp, self.bp),
            word_sim(r.si, self.si),
            word_sim(r.di, self.di),
            word_sim(r.ds, self.ds),
            word_sim(r.es, self.es),
            word_sim(r.ss, self.ss),
    {
        Registers {
            ax: self.ax.clone(),
            bx: self.bx.clone(),
            cx: self.cx.clone(),
            dx: self.dx.clone(),
            sp: self.sp.clone(),
            bp: self.bp.clone(),
            si: self.si.clone(),
            di: self.di.clone(),
            ds: self.ds.clone(),
            es: self.es.clone(),
            ss: self.ss.clone(),
        }
    }
}

} // verus!
