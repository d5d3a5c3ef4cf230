//! The abstract machine state of the segmented architecture: code location,
//! register file, flags, and the sparse memory overlay over a load module.

use vstd::prelude::*;
use crate::errors::AnalysisError;
use crate::lattice::{
    pair_set, split_high_spec, split_low_spec, sum_set, Byte, Value, Word,
};
use crate::mem::{LoadModule, MemMap};
use crate::regs::{regs_is_join, Flag, Flags, Register, Registers};

verus! {

/// An instruction operand of the segmented architecture.
#[derive(Copy, Clone, PartialEq, Eq, Structural, Debug)]
pub enum Operand {
    Register8(Register),
    Register16(Register),
    Imm8(u8),
    Imm16(u16),
    SegPtr(Register, Pointer),
}

/// A pointer expression: a displacement and up to two index registers.
#[derive(Copy, Clone, PartialEq, Eq, Structural, Debug)]
pub enum Pointer {
    Disp16(u16),
    Reg(Register),
    RegReg(Register, Register),
    RegDisp8(Register, u8),
    RegRegDisp8(Register, Register, u8),
    RegDisp16(Register, u16),
    RegRegDisp16(Register, Register, u16),
}

impl Pointer {
    /// Every register named by the pointer expression is a word register.
    pub open spec fn ok(self) -> bool {
        match self {
            Pointer::Disp16(_) => true,
            Pointer::Reg(r) => r.is_reg16(),
            Pointer::RegReg(r1, r2) => r1.is_reg16() && r2.is_reg16(),
            Pointer::RegDisp8(r, _) => r.is_reg16(),
            Pointer::RegRegDisp8(r1, r2, _) => r1.is_reg16() && r2.is_reg16(),
            Pointer::RegDisp16(r, _) => r.is_reg16(),
            Pointer::RegRegDisp16(r1, r2, _) => r1.is_reg16() && r2.is_reg16(),
        }
    }
}

/// The word register that owns a byte register's storage.
pub open spec fn pair_reg(reg: Register) -> Register {
    match reg {
        Register::AL | Register::AH => Register::AX,
        Register::BL | Register::BH => Register::BX,
        Register::CL | Register::CH => Register::CX,
        _ => Register::DX,
    }
}

/// Whether a byte register is the low half of its word register.
pub open spec fn is_low_half(reg: Register) -> bool {
    match reg {
        Register::AL | Register::BL | Register::CL | Register::DL => true,
        _ => false,
    }
}

/// The other half of the same word register.
pub open spec fn other_half(reg: Register) -> Register {
    match reg {
        Register::AL => Register::AH,
        Register::AH => Register::AL,
        Register::BL => Register::BH,
        Register::BH => Register::BL,
        Register::CL => Register::CH,
        Register::CH => Register::CL,
        Register::DL => Register::DH,
        _ => Register::DL,
    }
}

/// The stored word of a 16-bit register other than CS.
pub open spec fn word_of(regs: Registers, reg: Register) -> Word {
    match reg {
        Register::AX => regs.ax,
        Register::BX => regs.bx,
        Register::CX => regs.cx,
        Register::DX => regs.dx,
        Register::SP => regs.sp,
        Register::BP => regs.bp,
        Register::SI => regs.si,
        Register::DI => regs.di,
        Register::DS => regs.ds,
        Register::ES => regs.es,
        _ => regs.ss,
    }
}

/// What a byte register stands for: the matching projection of its word
/// register.
pub open spec fn reg8_gamma(regs: Registers, reg: Register) -> Set<u16> {
    if is_low_half(reg) {
        split_low_spec(word_of(regs, pair_reg(reg)))
    } else {
        split_high_spec(word_of(regs, pair_reg(reg)))
    }
}

pub struct State<'a> {
    pub cs: u16,
    pub ip: u16,
    pub regs: Registers,
    pub flags: Flags,
    pub load_module: &'a LoadModule,
    pub memory: MemMap,
}

/// What storing a byte register leaves behind: everything but the owning
/// word register as it was; that register a pair of the new half (standing
/// for `vg`) and the half it had before.
pub open spec fn set_reg8_post(pre: State, post: State, reg: Register, vg: Set<u16>) -> bool {
    &&& post.cs == pre.cs && post.ip == pre.ip && post.flags == pre.flags && post.memory
        == pre.memory && post.load_module == pre.load_module
    &&& word_of(post.regs, pair_reg(reg)) is Bytes
    &&& (is_low_half(reg) ==> split_low_spec(word_of(post.regs, pair_reg(reg))) == vg
        && split_high_spec(word_of(post.regs, pair_reg(reg))) == reg8_gamma(
        pre.regs,
        other_half(reg),
    ))
    &&& (!is_low_half(reg) ==> split_high_spec(word_of(post.regs, pair_reg(reg))) == vg
        && split_low_spec(word_of(post.regs, pair_reg(reg))) == reg8_gamma(
        pre.regs,
        other_half(reg),
    ))
    &&& forall|w: Register|
        w.is_reg16() && w != pair_reg(reg) && !(w is CS) ==> word_of(#[trigger] post.regs, w)
            == word_of(pre.regs, w)
}

/// What a byte-wide memory write leaves behind: every written cell stands
/// for `g`, every other cell as it was.
pub open spec fn mem_write_post(pre: State, post: State, locs: Set<u32>, g: Set<u16>) -> bool {
    &&& post.cs == pre.cs && post.ip == pre.ip && post.regs == pre.regs && post.flags
        == pre.flags && post.load_module == pre.load_module
    &&& forall|x: u32| #[trigger] post.memory.has_key(x) == (pre.memory.has_key(x)
        || locs.contains(x))
    &&& forall|x: u32| locs.contains(x) ==> #[trigger] post.memory.gamma_at(x) == g
    &&& forall|x: u32| !locs.contains(x) ==> #[trigger] post.memory.gamma_at(x)
        == pre.memory.gamma_at(x)
}

/// What a word-wide memory write leaves behind: high-byte cells (written
/// second) stand for `ghi`, remaining low-byte cells for `glo`.
pub open spec fn mem_write2_post(
    pre: State,
    post: State,
    locs0: Set<u32>,
    locs1: Set<u32>,
    glo: Set<u16>,
    ghi: Set<u16>,
) -> bool {
    &&& post.cs == pre.cs && post.ip == pre.ip && post.regs == pre.regs && post.flags
        == pre.flags && post.load_module == pre.load_module
    &&& forall|x: u32| post.memory.has_key(x) == (pre.memory.has_key(x) || locs0.contains(x)
        || locs1.contains(x))
    &&& forall|x: u32| locs1.contains(x) ==> #[trigger] post.memory.gamma_at(x) == ghi
    &&& forall|x: u32| !locs1.contains(x) && locs0.contains(x) ==> #[trigger]
        post.memory.gamma_at(x) == glo
    &&& forall|x: u32| !locs0.contains(x) && !locs1.contains(x) ==> #[trigger]
        post.memory.gamma_at(x) == pre.memory.gamma_at(x)
}

/// The absolute address of a segment and offset pair.
pub open spec fn loc_of(s: u16, o: u16) -> int {
    16 * s + o
}

/// The cells a write through the enumerated segments and offsets touches,
/// shifted by `shift` bytes.
pub open spec fn write_locs(segs: Set<u16>, offs: Set<u16>, shift: int) -> Set<u32> {
    Set::new(
        |loc: u32|
            exists|s: u16, o: u16|
                segs.contains(s) && offs.contains(o) && loc == loc_of(s, o) + shift,
    )
}

/// What a word register stands for; CS is held concretely on the state.
pub open spec fn reg16_gamma(s: State, reg: Register) -> Set<u16> {
    if reg is CS {
        Set::<u16>::empty().insert(s.cs)
    } else {
        word_of(s.regs, reg).gamma()
    }
}

/// What a pointer expression stands for: the sums of its parts.
pub open spec fn pointer_gamma(s: State, p: Pointer) -> Set<u16> {
    match p {
        Pointer::Disp16(o) => Set::<u16>::empty().insert(o),
        Pointer::Reg(r) => reg16_gamma(s, r),
        Pointer::RegReg(r1, r2) => sum_set(reg16_gamma(s, r1), reg16_gamma(s, r2)),
        Pointer::RegDisp8(r, b) => sum_set(
            reg16_gamma(s, r),
            Set::<u16>::empty().insert(b as u16),
        ),
        Pointer::RegRegDisp8(r1, r2, b) => sum_set(
            sum_set(reg16_gamma(s, r1), reg16_gamma(s, r2)),
            Set::<u16>::empty().insert(b as u16),
        ),
        Pointer::RegDisp16(r, o) => sum_set(reg16_gamma(s, r), Set::<u16>::empty().insert(o)),
        Pointer::RegRegDisp16(r1, r2, o) => sum_set(
            sum_set(reg16_gamma(s, r1), reg16_gamma(s, r2)),
            Set::<u16>::empty().insert(o),
        ),
    }
}

impl<'a> State<'a> {
    pub open spec fn wf(self) -> bool {
        self.regs.wf() && self.memory.wf()
    }

    /// The state ordering: same location, and registers, flags and overlay
    /// cells pointwise included.
    pub open spec fn le(self, other: State<'a>) -> bool {
        &&& self.cs == other.cs
        &&& self.ip == other.ip
        &&& self.regs.le(other.regs)
        &&& self.flags.le(other.flags)
        &&& self.memory.le(other.memory)
    }

    /// The fresh state at the entry of a load module: location zero, no
    /// information in any register or flag, an empty overlay.
    pub fn new(load_module: &'a LoadModule) -> (r: State<'a>)
        ensures
            r.wf(),
            r.cs == 0,
            r.ip == 0,
            r.regs.ax is Undefined && r.regs.bx is Undefined && r.regs.cx is Undefined
                && r.regs.dx is Undefined && r.regs.sp is Undefined && r.regs.bp is Undefined
                && r.regs.si is Undefined && r.regs.di is Undefined && r.regs.ds is Undefined
                && r.regs.es is Undefined && r.regs.ss is Undefined,
            forall|f: Flag| #[trigger] r.flags.spec_get(f) == crate::bit::Bit::Undefined,
            forall|x: u32| !r.memory.has_key(x),
            r.load_module == load_module,
    {
        State {
            cs: 0,
            ip: 0,
            regs: Registers::new(),
            flags: Flags::new(),
            load_module,
            memory: MemMap::new(),
        }
    }

    /// The absolute address of the next instruction.
    pub fn next_inst_address(&self) -> (r: usize)
        ensures
            r == 16 * self.cs + self.ip,
    {
        16 * self.cs as usize + self.ip as usize
    }

    /// Joins two states at the same code location: registers and flags
    /// pointwise, the overlay key-wise with one-sided cells carried through.
    pub fn union(self, state: State<'a>) -> (r: State<'a>)
        requires
            self.cs == state.cs,
            self.ip == state.ip,
            self.wf(),
            state.wf(),
        ensures
            r.wf(),
            r.cs == self.cs,
            r.ip == self.ip,
            regs_is_join(self.regs, state.regs, r.regs),
            forall|f: Flag| #[trigger]
                r.flags.spec_get(f).gamma() == self.flags.spec_get(f).gamma().union(
                    state.flags.spec_get(f).gamma(),
                ),
            forall|x: u32|
                r.memory.has_key(x) == (self.memory.has_key(x) || state.memory.has_key(x)),
            forall|x: u32| #[trigger]
                r.memory.gamma_at(x) == self.memory.gamma_at(x).union(state.memory.gamma_at(x)),
            r.load_module == state.load_module,
    {
        State {
            cs: self.cs,
            ip: self.ip,
            regs: self.regs.union(state.regs),
            flags: self.flags.union(state.flags),
            load_module: state.load_module,
            memory: self.memory.union(state.memory),
        }
    }

    /// Exact test of the state ordering.
    pub fn is_subset(&self, state: &State) -> (r: bool)
        requires
            self.wf(),
            state.wf(),
        ensures
            r == self.le(*state),
    {
        if !self.memory.is_subset(&state.memory) {
            return false;
        }
        self.cs == state.cs && self.ip == state.ip && self.regs.is_subset(&state.regs)
            && self.flags.is_subset(state.flags)
    }

    /// The abstraction stored for a byte register, as the matching half of
    /// its word register.
    pub fn get_reg8(&self, reg: Register) -> (r: Byte)
        requires
            reg.is_reg8(),
            self.wf(),
        ensures
            r.wf(),
            r.gamma() == reg8_gamma(self.regs, reg),
    {
        match reg {
            Register::AL => self.regs.ax.split_low(),
            Register::AH => self.regs.ax.split_high(),
            Register::BL => self.regs.bx.split_low(),
            Register::BH => self.regs.bx.split_high(),
            Register::CL => self.regs.cx.split_low(),
            Register::CH => self.regs.cx.split_high(),
            Register::DL => self.regs.dx.split_low(),
            Register::DH => self.regs.dx.split_high(),
            _ => {
                proof {
                    assert(false);
                }
                Byte::Undefined
            },
        }
    }

    /// The abstraction stored for a word register; CS is the one concrete
    /// location component.
    pub fn get_reg16(&self, reg: Register) -> (r: Word)
        requires
            reg.is_reg16(),
            self.wf(),
        ensures
            r.wf(),
            r.gamma() == reg16_gamma(*self, reg),
    {
        match reg {
            Register::AX => self.regs.ax.clone(),
            Register::BX => self.regs.bx.clone(),
            Register::CX => self.regs.cx.clone(),
            Register::DX => self.regs.dx.clone(),
            Register::CS => Word::Int(crate::vset::ValueSet::singleton(self.cs)),
            Register::DS => self.regs.ds.clone(),
            Register::ES => self.regs.es.clone(),
            Register::SS => self.regs.ss.clone(),
            Register::BP => self.regs.bp.clone(),
            Register::SP => self.regs.sp.clone(),
            Register::SI => self.regs.si.clone(),
            Register::DI => self.regs.di.clone(),
            _ => {
                proof {
                    assert(false);
                }
                Word::Undefined
            },
        }
    }

    /// Stores a byte register: its word register becomes the pair of the
    /// new half and the half that was there before.
    pub fn set_reg8(self, reg: Register, value: Byte) -> (r: State<'a>)
        requires
            reg.is_reg8(),
            self.wf(),
            value.wf(),
        ensures
            r.wf(),
            r.cs == self.cs && r.ip == self.ip && r.flags == self.flags && r.memory
                == self.memory && r.load_module == self.load_module,
            word_of(r.regs, pair_reg(reg)) is Bytes,
            is_low_half(reg) ==> split_low_spec(word_of(r.regs, pair_reg(reg))) == value.gamma()
                && split_high_spec(word_of(r.regs, pair_reg(reg))) == reg8_gamma(
                self.regs,
                other_half(reg),
            ),
            !is_low_half(reg) ==> split_high_spec(word_of(r.regs, pair_reg(reg))) == value.gamma()
                && split_low_spec(word_of(r.regs, pair_reg(reg))) == reg8_gamma(
                self.regs,
                other_half(reg),
            ),
            forall|w: Register|
                w.is_reg16() && w != pair_reg(reg) && !(w is CS) ==> word_of(#[trigger] r.regs, w)
                    == word_of(self.regs, w),
    {
        let ghost oldregs = self.regs;
        let r = match reg {
            Register::AL => {
                let h = self.get_reg8(Register::AH);
                State { regs: Registers { ax: Word::Bytes(value, h), ..self.regs }, ..self }
            },
            Register::AH => {
                let l = self.get_reg8(Register::AL);
                State { regs: Registers { ax: Word::Bytes(l, value), ..self.regs }, ..self }
            },
            Register::BL => {
                let h = self.get_reg8(Register::BH);
                State { regs: Registers { bx: Word::Bytes(value, h), ..self.regs }, ..self }
            },
            Register::BH => {
                let l = self.get_reg8(Register::BL);
                State { regs: Registers { bx: Word::Bytes(l, value), ..self.regs }, ..self }
            },
            Register::CL => {
                let h = self.get_reg8(Register::CH);
                State { regs: Registers { cx: Word::Bytes(value, h), ..self.regs }, ..self }
            },
            Register::CH => {
                let l = self.get_reg8(Register::CL);
                State { regs: Registers { cx: Word::Bytes(l, value), ..self.regs }, ..self }
            },
            Register::DL => {
                let h = self.get_reg8(Register::DH);
                State { regs: Registers { dx: Word::Bytes(value, h), ..self.regs }, ..self }
            },
            Register::DH => {
                let l = self.get_reg8(Register::DL);
                State { regs: Registers { dx: Word::Bytes(l, value), ..self.regs }, ..self }
            },
            _ => {
                proof {
                    assert(false);
                }
                self
            },
        };
        r
    }

    /// Stores a word register. CS cannot be stored this way: the segmented
    /// architecture moves it only through far control transfers.
    pub fn set_reg16(self, reg: Register, value: Word) -> (r: State<'a>)
        requires
            reg.is_reg16(),
            !(reg is CS),
            self.wf(),
            value.wf(),
        ensures
            r.wf(),
            r.cs == self.cs && r.ip == self.ip && r.flags == self.flags && r.memory
                == self.memory && r.load_module == self.load_module,
            word_of(r.regs, reg) == value,
            forall|w: Register|
                w.is_reg16() && w != reg && !(w is CS) ==> word_of(#[trigger] r.regs, w)
                    == word_of(self.regs, w),
    {
        match reg {
            Register::AX => State { regs: Registers { ax: value, ..self.regs }, ..self },
            Register::BX => State { regs: Registers { bx: value, ..self.regs }, ..self },
            Register::CX => State { regs: Registers { cx: value, ..self.regs }, ..self },
            Register::DX => State { regs: Registers { dx: value, ..self.regs }, ..self },
            Register::SP => State { regs: Registers { sp: value, ..self.regs }, ..self },
            Register::SS => State { regs: Registers { ss: value, ..self.regs }, ..self },
            Register::BP => State { regs: Registers { bp: value, ..self.regs }, ..self },
            Register::SI => State { regs: Registers { si: value, ..self.regs }, ..self },
            Register::DI => State { regs: Registers { di: value, ..self.regs }, ..self },
            Register::DS => State { regs: Registers { ds: value, ..self.regs }, ..self },
            Register::ES => State { regs: Registers { es: value, ..self.regs }, ..self },
            _ => {
                proof {
                    assert(false);
                }
                self
            },
        }
    }

    pub fn get_flag(&self, flag: Flag) -> (r: crate::bit::Bit)
        ensures
            r == self.flags.spec_get(flag),
    {
        self.flags.get(flag)
    }

    pub fn get_flags(&self) -> (r: Flags)
        ensures
            r == self.flags,
    {
        self.flags
    }

    pub fn set_flag(self, flag: Flag, bit: crate::bit::Bit) -> (r: State<'a>)
        ensures
            r.cs == self.cs && r.ip == self.ip && r.regs == self.regs && r.memory == self.memory
                && r.load_module == self.load_module,
            r.flags.spec_get(flag) == bit,
            forall|f: Flag| f != flag ==> #[trigger] r.flags.spec_get(f) == self.flags.spec_get(f),
    {
        State { flags: self.flags.set(flag, bit), ..self }
    }

    pub fn set_flags(self, flags: Flags) -> (r: State<'a>)
        ensures
            r.cs == self.cs && r.ip == self.ip && r.regs == self.regs && r.memory == self.memory
                && r.load_module == self.load_module,
            r.flags == flags,
    {
        State { flags, ..self }
    }

    /// Pins one flag to definitely false.
    pub fn clear_flag(self, flag: Flag) -> (r: State<'a>)
        ensures
            r.cs == self.cs && r.ip == self.ip && r.regs == self.regs && r.memory == self.memory
                && r.load_module == self.load_module,
            r.flags.spec_get(flag) == crate::bit::Bit::False,
            forall|f: Flag| f != flag ==> #[trigger] r.flags.spec_get(f) == self.flags.spec_get(f),
    {
        State { flags: self.flags.set(flag, crate::bit::Bit::False), ..self }
    }

    /// The first absolute address of the load-module image.
    pub open spec fn image_lo(self) -> int {
        16 * self.load_module.memory_segment
    }

    pub open spec fn in_image(self, loc: int) -> bool {
        self.image_lo() <= loc < self.image_lo() + self.load_module.buffer@.len()
    }

    /// A cell can be read when it is overlaid or lies in the image.
    pub open spec fn readable(self, loc: int) -> bool {
        self.memory.has_key(loc as u32) || self.in_image(loc)
    }

    /// What one memory cell stands for: its overlay entry, or the single
    /// image byte it falls through to.
    pub open spec fn read_gamma(self, loc: int) -> Set<u16> {
        if self.memory.has_key(loc as u32) {
            self.memory.gamma_at(loc as u32)
        } else {
            Set::<u16>::empty().insert(self.load_module.buffer@[loc - self.image_lo()] as u16)
        }
    }

    pub open spec fn all_readable(self, segs: Set<u16>, offs: Set<u16>) -> bool {
        forall|s: u16, o: u16|
            segs.contains(s) && offs.contains(o) ==> self.readable(#[trigger] loc_of(s, o))
    }

    pub open spec fn all_readable_word(self, segs: Set<u16>, offs: Set<u16>) -> bool {
        forall|s: u16, o: u16|
            segs.contains(s) && offs.contains(o) ==> self.readable(#[trigger] loc_of(s, o))
                && self.readable(loc_of(s, o) + 1)
    }

    /// What a byte read through enumerated segments and offsets stands for:
    /// the join over every addressed cell.
    pub open spec fn multi_read_gamma(self, segs: Set<u16>, offs: Set<u16>) -> Set<u16> {
        Set::new(
            |v: u16|
                exists|s: u16, o: u16|
                    segs.contains(s) && offs.contains(o) && self.read_gamma(
                        loc_of(s, o),
                    ).contains(v),
        )
    }

    /// What a word read stands for: per addressed pair, the words made of
    /// the cell and its successor, joined over every pair.
    pub open spec fn multi_read_word_gamma(self, segs: Set<u16>, offs: Set<u16>) -> Set<u16> {
        Set::new(
            |v: u16|
                exists|s: u16, o: u16|
                    segs.contains(s) && offs.contains(o) && pair_set(
                        self.read_gamma(loc_of(s, o)),
                        self.read_gamma(loc_of(s, o) + 1),
                    ).contains(v),
        )
    }

    /// One cell: the overlay entry, or the image byte under it.
    fn read_one_loc(&self, loc: u32) -> (r: Byte)
        requires
            self.wf(),
            self.readable(loc as int),
        ensures
            r.wf(),
            r.gamma() == self.read_gamma(loc as int),
    {
        match self.memory.lookup(loc) {
            Option::Some(b) => b,
            Option::None => {
                let base: u32 = 16 * (self.load_module.memory_segment as u32);
                let idx = (loc - base) as usize;
                Byte::new(self.load_module.buffer[idx])
            },
        }
    }

    /// Reads a byte from every addressed cell and joins the results.
    fn read_memory_byte(&self, segments: &crate::vset::ValueSet, offsets: &crate::vset::ValueSet)
        -> (r: Byte)
        requires
            self.wf(),
            segments.wf(),
            offsets.wf(),
            self.all_readable(segments@, offsets@),
        ensures
            r.wf(),
            r.gamma() == self.multi_read_gamma(segments@, offsets@),
    {
        let mut acc = Byte::Int(crate::vset::ValueSet::empty());
        let n1 = segments.len();
        let n2 = offsets.len();
        proof {
            assert(self.multi_read_gamma(segments.seq().take(0).to_set(), offsets@)
                =~= Set::<u16>::empty());
        }
        let mut i: usize = 0;
        while i < n1
            invariant
                i <= n1,
                n1 == segments.seq().len(),
                n2 == offsets.seq().len(),
                segments.wf(),
                offsets.wf(),
                self.wf(),
                self.all_readable(segments@, offsets@),
                acc.wf(),
                acc.gamma() == self.multi_read_gamma(segments.seq().take(i as int).to_set(), offsets@),
            decreases n1 - i,
        {
            let s = segments.get(i);
            let ghost outer = self.multi_read_gamma(segments.seq().take(i as int).to_set(), offsets@);
            proof {
                assert(offsets.seq().take(0).to_set() =~= Set::<u16>::empty());
                assert(self.multi_read_gamma(
                    Set::<u16>::empty().insert(s),
                    offsets.seq().take(0).to_set(),
                ) =~= Set::<u16>::empty());
                assert(acc.gamma() =~= outer.union(
                    self.multi_read_gamma(
                        Set::<u16>::empty().insert(s),
                        offsets.seq().take(0).to_set(),
                    ),
                ));
            }
            let mut j: usize = 0;
            while j < n2
                invariant
                    j <= n2,
                    i < n1,
                    n1 == segments.seq().len(),
                    n2 == offsets.seq().len(),
                    segments.wf(),
                    offsets.wf(),
                    self.wf(),
                    self.all_readable(segments@, offsets@),
                    s == segments.seq()[i as int],
                    outer == self.multi_read_gamma(
                        segments.seq().take(i as int).to_set(),
                        offsets@,
                    ),
                    acc.wf(),
                    acc.gamma() == outer.union(
                        self.multi_read_gamma(
                            Set::<u16>::empty().insert(s),
                            offsets.seq().take(j as int).to_set(),
                        ),
                    ),
                decreases n2 - j,
            {
                let o = offsets.get(j);
                proof {
                    assert(segments@.contains(s) && offsets@.contains(o));
                    assert(self.readable(loc_of(s, o)));
                }
                let loc: u32 = 16 * (s as u32) + (o as u32);
                let cell = self.read_one_loc(loc);
                let ghost prevg = acc.gamma();
                acc = acc.union(cell);
                proof {
                    let single = Set::<u16>::empty().insert(s);
                    let tk = offsets.seq().take(j as int).to_set();
                    let tk1 = offsets.seq().take(j + 1).to_set();
                    assert(offsets.seq().take(j + 1) =~= offsets.seq().take(j as int).push(o));
                    Seq::<u16>::lemma_push_to_set_commute(offsets.seq().take(j as int), o);
                    assert(tk1 =~= tk.insert(o));
                    assert forall|x: u16| acc.gamma().contains(x) implies outer.union(
                        self.multi_read_gamma(single, tk1),
                    ).contains(x) by {
                        if !prevg.contains(x) {
                            assert(self.read_gamma(loc_of(s, o)).contains(x));
                            assert(single.contains(s) && tk1.contains(o));
                            assert(self.multi_read_gamma(single, tk1).contains(x));
                        }
                    }
                    assert forall|x: u16|
                        outer.union(self.multi_read_gamma(single, tk1)).contains(x) implies
                        acc.gamma().contains(x) by {
                        if !prevg.contains(x) && !outer.contains(x) {
                            let (p, q): (u16, u16) = choose|p: u16, q: u16|
                                single.contains(p) && tk1.contains(q) && self.read_gamma(
                                    loc_of(p, q),
                                ).contains(x);
                            if tk.contains(q) {
                                assert(self.multi_read_gamma(single, tk).contains(x));
                            } else {
                                assert(p == s && q == o);
                                assert(cell.gamma().contains(x));
                            }
                        }
                    }
                    assert(acc.gamma() =~= outer.union(self.multi_read_gamma(single, tk1)));
                }
                j = j + 1;
            }
            proof {
                let single = Set::<u16>::empty().insert(s);
                assert(offsets.seq().take(n2 as int) =~= offsets.seq());
                let tk1 = segments.seq().take(i + 1).to_set();
                assert(segments.seq().take(i + 1) =~= segments.seq().take(i as int).push(s));
                Seq::<u16>::lemma_push_to_set_commute(segments.seq().take(i as int), s);
                assert(tk1 =~= segments.seq().take(i as int).to_set().insert(s));
                assert forall|x: u16| acc.gamma().contains(x) implies self.multi_read_gamma(
                    tk1,
                    offsets@,
                ).contains(x) by {
                    if outer.contains(x) {
                        let (p, q): (u16, u16) = choose|p: u16, q: u16|
                            segments.seq().take(i as int).to_set().contains(p) && offsets@.contains(
                                q,
                            ) && self.read_gamma(loc_of(p, q)).contains(x);
                        assert(tk1.contains(p));
                    } else {
                        let (p, q): (u16, u16) = choose|p: u16, q: u16|
                            single.contains(p) && offsets@.contains(q) && self.read_gamma(
                                loc_of(p, q),
                            ).contains(x);
                        assert(tk1.contains(p));
                    }
                }
                assert forall|x: u16| self.multi_read_gamma(tk1, offsets@).contains(x) implies
                    acc.gamma().contains(x) by {
                    let (p, q): (u16, u16) = choose|p: u16, q: u16|
                        tk1.contains(p) && offsets@.contains(q) && self.read_gamma(
                            loc_of(p, q),
                        ).contains(x);
                    if segments.seq().take(i as int).to_set().contains(p) {
                        assert(outer.contains(x));
                    } else {
                        assert(p == s);
                        assert(single.contains(p));
                        assert(self.multi_read_gamma(single, offsets@).contains(x));
                    }
                }
                assert(acc.gamma() =~= self.multi_read_gamma(tk1, offsets@));
            }
            i = i + 1;
        }
        proof {
            assert(segments.seq().take(n1 as int) =~= segments.seq());
        }
        acc
    }

    /// Reads a word from every addressed pair of adjacent cells and joins
    /// the results.
    fn read_memory_word(&self, segments: &crate::vset::ValueSet, offsets: &crate::vset::ValueSet)
        -> (r: Word)
        requires
            self.wf(),
            segments.wf(),
            offsets.wf(),
            self.all_readable_word(segments@, offsets@),
        ensures
            r.wf(),
            r.gamma() == self.multi_read_word_gamma(segments@, offsets@),
    {
        let mut acc = Word::Int(crate::vset::ValueSet::empty());
        let n1 = segments.len();
        let n2 = offsets.len();
        proof {
            assert(self.multi_read_word_gamma(segments.seq().take(0).to_set(), offsets@)
                =~= Set::<u16>::empty());
        }
        let mut i: usize = 0;
        while i < n1
            invariant
                i <= n1,
                n1 == segments.seq().len(),
                n2 == offsets.seq().len(),
                segments.wf(),
                offsets.wf(),
                self.wf(),
                self.all_readable_word(segments@, offsets@),
                acc.wf(),
                acc.gamma() == self.multi_read_word_gamma(
                    segments.seq().take(i as int).to_set(),
                    offsets@,
                ),
            decreases n1 - i,
        {
            let s = segments.get(i);
            let ghost outer = self.multi_read_word_gamma(
                segments.seq().take(i as int).to_set(),
                offsets@,
            );
            proof {
                assert(offsets.seq().take(0).to_set() =~= Set::<u16>::empty());
                assert(self.multi_read_word_gamma(
                    Set::<u16>::empty().insert(s),
                    offsets.seq().take(0).to_set(),
                ) =~= Set::<u16>::empty());
                assert(acc.gamma() =~= outer.union(
                    self.multi_read_word_gamma(
                        Set::<u16>::empty().insert(s),
                        offsets.seq().take(0).to_set(),
                    ),
                ));
            }
            let mut j: usize = 0;
            while j < n2
                invariant
                    j <= n2,
                    i < n1,
                    n1 == segments.seq().len(),
                    n2 == offsets.seq().len(),
                    segments.wf(),
                    offsets.wf(),
                    self.wf(),
                    self.all_readable_word(segments@, offsets@),
                    s == segments.seq()[i as int],
                    outer == self.multi_read_word_gamma(
                        segments.seq().take(i as int).to_set(),
                        offsets@,
                    ),
                    acc.wf(),
                    acc.gamma() == outer.union(
                        self.multi_read_word_gamma(
                            Set::<u16>::empty().insert(s),
                            offsets.seq().take(j as int).to_set(),
                        ),
                    ),
                decreases n2 - j,
            {
                let o = offsets.get(j);
                proof {
                    assert(segments@.contains(s) && offsets@.contains(o));
                    assert(self.readable(loc_of(s, o)) && self.readable(loc_of(s, o) + 1));
                }
                let loc: u32 = 16 * (s as u32) + (o as u32);
                let cell_lo = self.read_one_loc(loc);
                let cell_hi = self.read_one_loc(loc + 1);
                let cell = cell_lo.combine(cell_hi);
                let ghost prevg = acc.gamma();
                acc = acc.union(cell);
                proof {
                    let single = Set::<u16>::empty().insert(s);
                    let tk = offsets.seq().take(j as int).to_set();
                    let tk1 = offsets.seq().take(j + 1).to_set();
                    assert(offsets.seq().take(j + 1) =~= offsets.seq().take(j as int).push(o));
                    Seq::<u16>::lemma_push_to_set_commute(offsets.seq().take(j as int), o);
                    assert(tk1 =~= tk.insert(o));
                    assert forall|x: u16| acc.gamma().contains(x) implies outer.union(
                        self.multi_read_word_gamma(single, tk1),
                    ).contains(x) by {
                        if !prevg.contains(x) {
                            assert(cell.gamma().contains(x));
                            assert(single.contains(s) && tk1.contains(o));
                            assert(self.multi_read_word_gamma(single, tk1).contains(x));
                        }
                    }
                    assert forall|x: u16|
                        outer.union(self.multi_read_word_gamma(single, tk1)).contains(x) implies
                        acc.gamma().contains(x) by {
                        if !prevg.contains(x) && !outer.contains(x) {
                            let (p, q): (u16, u16) = choose|p: u16, q: u16|
                                single.contains(p) && tk1.contains(q) && pair_set(
                                    self.read_gamma(loc_of(p, q)),
                                    self.read_gamma(loc_of(p, q) + 1),
                                ).contains(x);
                            if tk.contains(q) {
                                assert(self.multi_read_word_gamma(single, tk).contains(x));
                            } else {
                                assert(p == s && q == o);
                                assert(cell.gamma().contains(x));
                            }
                        }
                    }
                    assert(acc.gamma() =~= outer.union(self.multi_read_word_gamma(single, tk1)));
                }
                j = j + 1;
            }
            proof {
                let single = Set::<u16>::empty().insert(s);
                assert(offsets.seq().take(n2 as int) =~= offsets.seq());
                let tk1 = segments.seq().take(i + 1).to_set();
                assert(segments.seq().take(i + 1) =~= segments.seq().take(i as int).push(s));
                Seq::<u16>::lemma_push_to_set_commute(segments.seq().take(i as int), s);
                assert(tk1 =~= segments.seq().take(i as int).to_set().insert(s));
                assert forall|x: u16| acc.gamma().contains(x) implies self.multi_read_word_gamma(
                    tk1,
                    offsets@,
                ).contains(x) by {
                    if outer.contains(x) {
                        let (p, q): (u16, u16) = choose|p: u16, q: u16|
                            segments.seq().take(i as int).to_set().contains(p) && offsets@.contains(
                                q,
                            ) && pair_set(
                                self.read_gamma(loc_of(p, q)),
                                self.read_gamma(loc_of(p, q) + 1),
                            ).contains(x);
                        assert(tk1.contains(p));
                    } else {
                        let (p, q): (u16, u16) = choose|p: u16, q: u16|
                            single.contains(p) && offsets@.contains(q) && pair_set(
                                self.read_gamma(loc_of(p, q)),
                                self.read_gamma(loc_of(p, q) + 1),
                            ).contains(x);
                        assert(tk1.contains(p));
                    }
                }
                assert forall|x: u16| self.multi_read_word_gamma(tk1, offsets@).contains(
                    x,
                ) implies acc.gamma().contains(x) by {
                    let (p, q): (u16, u16) = choose|p: u16, q: u16|
                        tk1.contains(p) && offsets@.contains(q) && pair_set(
                            self.read_gamma(loc_of(p, q)),
                            self.read_gamma(loc_of(p, q) + 1),
                        ).contains(x);
                    if segments.seq().take(i as int).to_set().contains(p) {
                        assert(outer.contains(x));
                    } else {
                        assert(p == s);
                        assert(single.contains(p));
                        assert(self.multi_read_word_gamma(single, offsets@).contains(x));
                    }
                }
                assert(acc.gamma() =~= self.multi_read_word_gamma(tk1, offsets@));
            }
            i = i + 1;
        }
        proof {
            assert(segments.seq().take(n1 as int) =~= segments.seq());
        }
        acc
    }

    /// Overwrites every addressed cell, shifted by `shift` bytes, with one
    /// abstract byte: a strong update per enumerated address.
    fn write_memory(
        self,
        segments: &crate::vset::ValueSet,
        offsets: &crate::vset::ValueSet,
        shift: u32,
        value: &Byte,
    ) -> (r: State<'a>)
        requires
            self.wf(),
            segments.wf(),
            offsets.wf(),
            value.wf(),
            shift <= 1,
        ensures
            r.wf(),
            mem_write_post(self, r, write_locs(segments@, offsets@, shift as int), value.gamma()),
    {
        let ghost orig = self;
        let mut st = self;
        let n1 = segments.len();
        let n2 = offsets.len();
        proof {
            assert(write_locs(segments.seq().take(0).to_set(), offsets@, shift as int)
                =~= Set::<u32>::empty());
        }
        let mut i: usize = 0;
        while i < n1
            invariant
                i <= n1,
                n1 == segments.seq().len(),
                n2 == offsets.seq().len(),
                segments.wf(),
                offsets.wf(),
                value.wf(),
                shift <= 1,
                st.wf(),
                st.cs == orig.cs && st.ip == orig.ip && st.regs == orig.regs && st.flags
                    == orig.flags && st.load_module == orig.load_module,
                mem_write_post(
                    orig,
                    st,
                    write_locs(segments.seq().take(i as int).to_set(), offsets@, shift as int),
                    value.gamma(),
                ),
            decreases n1 - i,
        {
            let s = segments.get(i);
            let ghost outer = write_locs(
                segments.seq().take(i as int).to_set(),
                offsets@,
                shift as int,
            );
            proof {
                assert(offsets.seq().take(0).to_set() =~= Set::<u16>::empty());
                assert(write_locs(
                    Set::<u16>::empty().insert(s),
                    offsets.seq().take(0).to_set(),
                    shift as int,
                ) =~= Set::<u32>::empty());
                assert(outer.union(
                    write_locs(
                        Set::<u16>::empty().insert(s),
                        offsets.seq().take(0).to_set(),
                        shift as int,
                    ),
                ) =~= outer);
            }
            let mut j: usize = 0;
            while j < n2
                invariant
                    j <= n2,
                    i < n1,
                    n1 == segments.seq().len(),
                    n2 == offsets.seq().len(),
                    segments.wf(),
                    offsets.wf(),
                    value.wf(),
                    shift <= 1,
                    s == segments.seq()[i as int],
                    outer == write_locs(
                        segments.seq().take(i as int).to_set(),
                        offsets@,
                        shift as int,
                    ),
                    st.wf(),
                    st.cs == orig.cs && st.ip == orig.ip && st.regs == orig.regs && st.flags
                        == orig.flags && st.load_module == orig.load_module,
                    mem_write_post(
                        orig,
                        st,
                        outer.union(
                            write_locs(
                                Set::<u16>::empty().insert(s),
                                offsets.seq().take(j as int).to_set(),
                                shift as int,
                            ),
                        ),
                        value.gamma(),
                    ),
                decreases n2 - j,
            {
                let o = offsets.get(j);
                let loc: u32 = 16 * (s as u32) + (o as u32) + shift;
                let ghost before = st;
                let b = value.clone();
                let State { cs, ip, regs, flags, load_module, mut memory } = st;
                memory.set(loc, b);
                st = State { cs, ip, regs, flags, load_module, memory };
                proof {
                    let single = Set::<u16>::empty().insert(s);
                    let tk = offsets.seq().take(j as int).to_set();
                    let tk1 = offsets.seq().take(j + 1).to_set();
                    assert(offsets.seq().take(j + 1) =~= offsets.seq().take(j as int).push(o));
                    Seq::<u16>::lemma_push_to_set_commute(offsets.seq().take(j as int), o);
                    assert(tk1 =~= tk.insert(o));
                    let prevlocs = outer.union(write_locs(single, tk, shift as int));
                    let newlocs = outer.union(write_locs(single, tk1, shift as int));
                    assert(newlocs =~= prevlocs.insert(loc)) by {
                        assert forall|x: u32| newlocs.contains(x) implies prevlocs.insert(
                            loc,
                        ).contains(x) by {
                            if !outer.contains(x) {
                                let (p, q): (u16, u16) = choose|p: u16, q: u16|
                                    single.contains(p) && tk1.contains(q) && x == loc_of(p, q)
                                        + shift;
                                if tk.contains(q) {
                                    assert(write_locs(single, tk, shift as int).contains(x));
                                } else {
                                    assert(p == s && q == o);
                                    assert(x == loc);
                                }
                            }
                        }
                        assert forall|x: u32| prevlocs.insert(loc).contains(x) implies
                            newlocs.contains(x) by {
                            if x == loc {
                                assert(single.contains(s) && tk1.contains(o) && x as int == loc_of(
                                    s,
                                    o,
                                ) + shift);
                                assert(write_locs(single, tk1, shift as int).contains(x));
                            } else if !outer.contains(x) {
                                let (p, q): (u16, u16) = choose|p: u16, q: u16|
                                    single.contains(p) && tk.contains(q) && x == loc_of(p, q)
                                        + shift;
                                assert(tk1.contains(q));
                                assert(write_locs(single, tk1, shift as int).contains(x));
                            }
                        }
                    }
                    assert forall|x: u32|
                        st.memory.has_key(x) == (orig.memory.has_key(x) || newlocs.contains(
                            x,
                        )) by {
                        assert(st.memory.has_key(x) == (before.memory.has_key(x) || x == loc));
                        assert(before.memory.has_key(x) == (orig.memory.has_key(x)
                            || prevlocs.contains(x)));
                        assert(newlocs.contains(x) == (prevlocs.contains(x) || x == loc));
                    }
                    assert forall|x: u32| newlocs.contains(x) implies #[trigger]
                        st.memory.gamma_at(x) == value.gamma() by {
                        if x != loc {
                            assert(prevlocs.contains(x));
                        }
                    }
                    assert forall|x: u32| !newlocs.contains(x) implies #[trigger]
                        st.memory.gamma_at(x) == orig.memory.gamma_at(x) by {
                        assert(x != loc);
                        assert(!prevlocs.contains(x));
                    }
                }
                j = j + 1;
            }
            proof {
                let single = Set::<u16>::empty().insert(s);
                assert(offsets.seq().take(n2 as int) =~= offsets.seq());
                let tks = segments.seq().take(i + 1).to_set();
                assert(segments.seq().take(i + 1) =~= segments.seq().take(i as int).push(s));
                Seq::<u16>::lemma_push_to_set_commute(segments.seq().take(i as int), s);
                assert(tks =~= segments.seq().take(i as int).to_set().insert(s));
                assert(write_locs(tks, offsets@, shift as int) =~= outer.union(
                    write_locs(single, offsets@, shift as int),
                )) by {
                    assert forall|x: u32|
                        write_locs(tks, offsets@, shift as int).contains(x) implies outer.union(
                        write_locs(single, offsets@, shift as int),
                    ).contains(x) by {
                        let (p, q): (u16, u16) = choose|p: u16, q: u16|
                            tks.contains(p) && offsets@.contains(q) && x == loc_of(p, q) + shift;
                        if segments.seq().take(i as int).to_set().contains(p) {
                            assert(outer.contains(x));
                        } else {
                            assert(p == s);
                            assert(single.contains(p));
                            assert(write_locs(single, offsets@, shift as int).contains(x));
                        }
                    }
                    assert forall|x: u32|
                        outer.union(write_locs(single, offsets@, shift as int)).contains(
                        x,
                    ) implies write_locs(tks, offsets@, shift as int).contains(x) by {
                        if outer.contains(x) {
                            let (p, q): (u16, u16) = choose|p: u16, q: u16|
                                segments.seq().take(i as int).to_set().contains(p)
                                    && offsets@.contains(q) && x == loc_of(p, q) + shift;
                            assert(tks.contains(p));
                        } else {
                            let (p, q): (u16, u16) = choose|p: u16, q: u16|
                                single.contains(p) && offsets@.contains(q) && x == loc_of(p, q)
                                    + shift;
                            assert(tks.contains(p));
                        }
                    }
                }
            }
            i = i + 1;
        }
        proof {
            assert(segments.seq().take(n1 as int) =~= segments.seq());
        }
        st
    }

    /// The set of offsets a pointer expression stands for in this state.
    pub fn pointer_offset(&self, pointer: Pointer) -> (r: Word)
        requires
            self.wf(),
            pointer.ok(),
        ensures
            r.wf(),
            r.gamma() == pointer_gamma(*self, pointer),
    {
        match pointer {
            Pointer::Disp16(offset) => Word::new(offset),
            Pointer::Reg(register) => self.get_reg16(register),
            Pointer::RegReg(register1, register2) => self.get_reg16(register1).add(
                self.get_reg16(register2),
            ),
            Pointer::RegDisp8(register, byte) => self.get_reg16(register).add(
                Word::new(byte as u16),
            ),
            Pointer::RegRegDisp8(register1, register2, byte) => self.get_reg16(register1).add(
                self.get_reg16(register2),
            ).add(Word::new(byte as u16)),
            Pointer::RegDisp16(register, offset) => self.get_reg16(register).add(
                Word::new(offset),
            ),
            Pointer::RegRegDisp16(register1, register2, offset) => self.get_reg16(register1).add(
                self.get_reg16(register2),
            ).add(Word::new(offset)),
        }
    }

    /// Whether the preconditions of a read through the operand hold: every
    /// enumerated cell is overlaid or in the image, for the widths read.
    pub open spec fn segptr_readable_byte(self, seg: Register, p: Pointer) -> bool {
        {
            let sg = reg16_gamma(self, seg);
            let og = pointer_gamma(self, p);
            (!sg.is_empty() && sg != crate::lattice::word_top() && !og.is_empty() && og
                != crate::lattice::word_top()) ==> self.all_readable(sg, og)
        }
    }

    pub open spec fn segptr_readable_word(self, seg: Register, p: Pointer) -> bool {
        {
            let sg = reg16_gamma(self, seg);
            let og = pointer_gamma(self, p);
            (!sg.is_empty() && sg != crate::lattice::word_top() && !og.is_empty() && og
                != crate::lattice::word_top()) ==> self.all_readable_word(sg, og)
        }
    }

    /// Whether an access through an enumerated segment or offset must fail:
    /// the address is unbounded at the point of use.
    pub open spec fn segptr_unbounded(self, seg: Register, p: Pointer) -> bool {
        {
            let sg = reg16_gamma(self, seg);
            let og = pointer_gamma(self, p);
            sg == crate::lattice::word_top() || (!sg.is_empty() && og
                == crate::lattice::word_top())
        }
    }

    /// What a successful byte read through the operand stands for.
    pub open spec fn byte_read_gamma(self, seg: Register, p: Pointer) -> Set<u16> {
        {
            let sg = reg16_gamma(self, seg);
            let og = pointer_gamma(self, p);
            if sg.is_empty() || og.is_empty() {
                Set::<u16>::empty()
            } else {
                self.multi_read_gamma(sg, og)
            }
        }
    }

    /// What a successful word read through the operand stands for.
    pub open spec fn word_read_gamma(self, seg: Register, p: Pointer) -> Set<u16> {
        {
            let sg = reg16_gamma(self, seg);
            let og = pointer_gamma(self, p);
            if sg.is_empty() || og.is_empty() {
                Set::<u16>::empty()
            } else {
                self.multi_read_word_gamma(sg, og)
            }
        }
    }

    /// The abstract byte an operand stands for. Reading through a segment
    /// pointer fails exactly when the segment or offset is unbounded.
    pub fn get_byte(&self, operand: Operand) -> (r: Result<Byte, AnalysisError>)
        requires
            self.wf(),
            match operand {
                Operand::Register8(reg) => reg.is_reg8(),
                Operand::Imm8(_) => true,
                Operand::SegPtr(seg, p) => seg.is_reg16() && p.ok()
                    && self.segptr_readable_byte(seg, p),
                _ => false,
            },
        ensures
            match operand {
                Operand::Register8(reg) => r is Ok && r->Ok_0.wf() && r->Ok_0.gamma()
                    == reg8_gamma(self.regs, reg),
                Operand::Imm8(imm) => r is Ok && r->Ok_0.wf() && r->Ok_0.gamma()
                    == Set::<u16>::empty().insert(imm as u16),
                Operand::SegPtr(seg, p) => if self.segptr_unbounded(seg, p) {
                    r == Result::<Byte, AnalysisError>::Err(AnalysisError::UnboundedMemory)
                } else {
                    r is Ok && r->Ok_0.wf() && r->Ok_0.gamma() == self.byte_read_gamma(seg, p)
                },
                _ => true,
            },
    {
        match operand {
            Operand::Register8(reg) => Ok(self.get_reg8(reg)),
            Operand::Imm8(imm) => Ok(Byte::new(imm)),
            Operand::SegPtr(segment, pointer) => {
                let segw = self.get_reg16(segment).materialize();
                if segw.gamma_is_empty() {
                    proof {
                        assert(crate::lattice::word_top().contains(0u16));
                    }
                    return Ok(Byte::Undefined);
                }
                if segw.is_unbounded() {
                    return Err(AnalysisError::UnboundedMemory);
                }
                let offw = self.pointer_offset(pointer).materialize();
                if offw.gamma_is_empty() {
                    proof {
                        assert(crate::lattice::word_top().contains(0u16));
                    }
                    return Ok(Byte::Undefined);
                }
                if offw.is_unbounded() {
                    return Err(AnalysisError::UnboundedMemory);
                }
                match (&segw, &offw) {
                    (Word::Int(ss), Word::Int(oo)) => Ok(self.read_memory_byte(ss, oo)),
                    _ => {
                        proof {
                            assert(false);
                        }
                        Err(AnalysisError::UnboundedMemory)
                    },
                }
            },
            _ => {
                proof {
                    assert(false);
                }
                Err(AnalysisError::InvalidOperand)
            },
        }
    }

    /// The abstract word an operand stands for.
    pub fn get_word(&self, operand: Operand) -> (r: Result<Word, AnalysisError>)
        requires
            self.wf(),
            match operand {
                Operand::Register16(reg) => reg.is_reg16(),
                Operand::Imm16(_) => true,
                Operand::SegPtr(seg, p) => seg.is_reg16() && p.ok()
                    && self.segptr_readable_word(seg, p),
                _ => false,
            },
        ensures
            match operand {
                Operand::Register16(reg) => r is Ok && r->Ok_0.wf() && r->Ok_0.gamma()
                    == reg16_gamma(*self, reg),
                Operand::Imm16(imm) => r is Ok && r->Ok_0.wf() && r->Ok_0.gamma()
                    == Set::<u16>::empty().insert(imm),
                Operand::SegPtr(seg, p) => if self.segptr_unbounded(seg, p) {
                    r == Result::<Word, AnalysisError>::Err(AnalysisError::UnboundedMemory)
                } else {
                    r is Ok && r->Ok_0.wf() && r->Ok_0.gamma() == self.word_read_gamma(seg, p)
                },
                _ => true,
            },
    {
        match operand {
            Operand::Register16(reg) => Ok(self.get_reg16(reg)),
            Operand::Imm16(imm) => Ok(Word::new(imm)),
            Operand::SegPtr(segment, pointer) => {
                let segw = self.get_reg16(segment).materialize();
                if segw.gamma_is_empty() {
                    proof {
                        assert(crate::lattice::word_top().contains(0u16));
                    }
                    return Ok(Word::Undefined);
                }
                if segw.is_unbounded() {
                    return Err(AnalysisError::UnboundedMemory);
                }
                let offw = self.pointer_offset(pointer).materialize();
                if offw.gamma_is_empty() {
                    proof {
                        assert(crate::lattice::word_top().contains(0u16));
                    }
                    return Ok(Word::Undefined);
                }
                if offw.is_unbounded() {
                    return Err(AnalysisError::UnboundedMemory);
                }
                match (&segw, &offw) {
                    (Word::Int(ss), Word::Int(oo)) => Ok(self.read_memory_word(ss, oo)),
                    _ => {
                        proof {
                            assert(false);
                        }
                        Err(AnalysisError::UnboundedMemory)
                    },
                }
            },
            _ => {
                proof {
                    assert(false);
                }
                Err(AnalysisError::InvalidOperand)
            },
        }
    }

    /// The word an operand stands for, with any byte-pair shape
    /// materialized into an enumerated set.
    pub fn get_combined_word(&self, operand: Operand) -> (r: Result<Word, AnalysisError>)
        requires
            self.wf(),
            match operand {
                Operand::Register16(reg) => reg.is_reg16(),
                Operand::Imm16(_) => true,
                Operand::SegPtr(seg, p) => seg.is_reg16() && p.ok()
                    && self.segptr_readable_word(seg, p),
                _ => false,
            },
        ensures
            r is Err ==> (operand matches Operand::SegPtr(seg, p) && self.segptr_unbounded(
                seg,
                p,
            ) && r->Err_0 == AnalysisError::UnboundedMemory),
            r is Ok ==> r->Ok_0.wf() && !(r->Ok_0 is Bytes) && match operand {
                Operand::Register16(reg) => r->Ok_0.gamma() == reg16_gamma(*self, reg),
                Operand::Imm16(imm) => r->Ok_0.gamma() == Set::<u16>::empty().insert(imm),
                Operand::SegPtr(seg, p) => !self.segptr_unbounded(seg, p) && r->Ok_0.gamma()
                    == self.word_read_gamma(seg, p),
                _ => true,
            },
    {
        match self.get_word(operand) {
            Ok(w) => Ok(w.materialize()),
            Err(e) => Err(e),
        }
    }

    /// The value an operand stands for: a byte for byte registers and byte
    /// immediates, a word otherwise.
    pub fn get_value(&self, operand: Operand) -> (r: Result<Value, AnalysisError>)
        requires
            self.wf(),
            match operand {
                Operand::Register8(reg) => reg.is_reg8(),
                Operand::Register16(reg) => reg.is_reg16(),
                Operand::Imm8(_) => true,
                Operand::Imm16(_) => true,
                Operand::SegPtr(seg, p) => seg.is_reg16() && p.ok()
                    && self.segptr_readable_word(seg, p),
            },
        ensures
            r is Err ==> (operand matches Operand::SegPtr(seg, p) && self.segptr_unbounded(
                seg,
                p,
            ) && r->Err_0 == AnalysisError::UnboundedMemory),
            r is Ok ==> r->Ok_0.wf() && match operand {
                Operand::Register8(reg) => r->Ok_0 is Byte && r->Ok_0.gamma() == reg8_gamma(
                    self.regs,
                    reg,
                ),
                Operand::Imm8(imm) => r->Ok_0 is Byte && r->Ok_0.gamma()
                    == Set::<u16>::empty().insert(imm as u16),
                Operand::Register16(reg) => r->Ok_0 is Word && r->Ok_0.gamma() == reg16_gamma(
                    *self,
                    reg,
                ),
                Operand::Imm16(imm) => r->Ok_0 is Word && r->Ok_0.gamma()
                    == Set::<u16>::empty().insert(imm),
                Operand::SegPtr(seg, p) => r->Ok_0 is Word && !self.segptr_unbounded(seg, p)
                    && r->Ok_0.gamma() == self.word_read_gamma(seg, p),
            },
    {
        match operand {
            Operand::Register8(_) | Operand::Imm8(_) => match self.get_byte(operand) {
                Ok(b) => Ok(Value::Byte(b)),
                Err(e) => Err(e),
            },
            _ => match self.get_word(operand) {
                Ok(w) => Ok(Value::Word(w)),
                Err(e) => Err(e),
            },
        }
    }

    /// Stores an abstract byte through an operand: into a byte register, or
    /// into every cell an enumerated segment pointer addresses.
    pub fn set_byte(self, operand: Operand, byte: Byte) -> (r: Result<State<'a>, AnalysisError>)
        requires
            self.wf(),
            byte.wf(),
            match operand {
                Operand::Register8(reg) => reg.is_reg8(),
                Operand::SegPtr(seg, p) => seg.is_reg16() && p.ok(),
                _ => false,
            },
        ensures
            match operand {
                Operand::Register8(reg) => r is Ok && r->Ok_0.wf() && set_reg8_post(
                    self,
                    r->Ok_0,
                    reg,
                    byte.gamma(),
                ),
                Operand::SegPtr(seg, p) => if self.segptr_unbounded(seg, p) {
                    r is Err && r->Err_0 == AnalysisError::UnboundedMemory
                } else {
                    r is Ok && r->Ok_0.wf() && mem_write_post(
                        self,
                        r->Ok_0,
                        write_locs(reg16_gamma(self, seg), pointer_gamma(self, p), 0),
                        byte.gamma(),
                    )
                },
                _ => true,
            },
    {
        match operand {
            Operand::Register8(reg) => Ok(self.set_reg8(reg, byte)),
            Operand::SegPtr(segment, pointer) => {
                let segw = self.get_reg16(segment).materialize();
                if segw.gamma_is_empty() {
                    proof {
                        assert(crate::lattice::word_top().contains(0u16));
                        assert(write_locs(reg16_gamma(self, segment), pointer_gamma(self, pointer), 0)
                            =~= Set::<u32>::empty());
                    }
                    return Ok(self);
                }
                if segw.is_unbounded() {
                    return Err(AnalysisError::UnboundedMemory);
                }
                let offw = self.pointer_offset(pointer).materialize();
                if offw.gamma_is_empty() {
                    proof {
                        assert(crate::lattice::word_top().contains(0u16));
                        assert(write_locs(reg16_gamma(self, segment), pointer_gamma(self, pointer), 0)
                            =~= Set::<u32>::empty());
                    }
                    return Ok(self);
                }
                if offw.is_unbounded() {
                    return Err(AnalysisError::UnboundedMemory);
                }
                match (&segw, &offw) {
                    (Word::Int(ss), Word::Int(oo)) => Ok(
                        self.write_memory(ss, oo, 0, &byte),
                    ),
                    _ => {
                        proof {
                            assert(false);
                        }
                        Err(AnalysisError::UnboundedMemory)
                    },
                }
            },
            _ => {
                proof {
                    assert(false);
                }
                Err(AnalysisError::InvalidOperand)
            },
        }
    }

    /// Stores an abstract word through an operand: into a word register, or
    /// split into two adjacent byte cells per enumerated address, the high
    /// half written after the low half.
    pub fn set_word(self, operand: Operand, word: Word) -> (r: Result<State<'a>, AnalysisError>)
        requires
            self.wf(),
            word.wf(),
            match operand {
                Operand::Register16(reg) => reg.is_reg16() && !(reg is CS),
                Operand::SegPtr(seg, p) => seg.is_reg16() && p.ok(),
                _ => false,
            },
        ensures
            match operand {
                Operand::Register16(reg) => r is Ok && r->Ok_0.wf() && {
                    let post = r->Ok_0;
                    &&& post.cs == self.cs && post.ip == self.ip && post.flags == self.flags
                        && post.memory == self.memory && post.load_module == self.load_module
                    &&& word_of(post.regs, reg) == word
                    &&& forall|w: Register|
                        w.is_reg16() && w != reg && !(w is CS) ==> word_of(
                            #[trigger] post.regs,
                            w,
                        ) == word_of(self.regs, w)
                },
                Operand::SegPtr(seg, p) => if self.segptr_unbounded(seg, p) {
                    r is Err && r->Err_0 == AnalysisError::UnboundedMemory
                } else {
                    r is Ok && r->Ok_0.wf() && mem_write2_post(
                        self,
                        r->Ok_0,
                        write_locs(reg16_gamma(self, seg), pointer_gamma(self, p), 0),
                        write_locs(reg16_gamma(self, seg), pointer_gamma(self, p), 1),
                        split_low_spec(word),
                        split_high_spec(word),
                    )
                },
                _ => true,
            },
    {
        match operand {
            Operand::Register16(reg) => Ok(self.set_reg16(reg, word)),
            Operand::SegPtr(segment, pointer) => {
                let ghost locs0 = write_locs(
                    reg16_gamma(self, segment),
                    pointer_gamma(self, pointer),
                    0,
                );
                let ghost locs1 = write_locs(
                    reg16_gamma(self, segment),
                    pointer_gamma(self, pointer),
                    1,
                );
                let segw = self.get_reg16(segment).materialize();
                if segw.gamma_is_empty() {
                    proof {
                        assert(crate::lattice::word_top().contains(0u16));
                        assert(locs0 =~= Set::<u32>::empty());
                        assert(locs1 =~= Set::<u32>::empty());
                    }
                    return Ok(self);
                }
                if segw.is_unbounded() {
                    return Err(AnalysisError::UnboundedMemory);
                }
                let offw = self.pointer_offset(pointer).materialize();
                if offw.gamma_is_empty() {
                    proof {
                        assert(crate::lattice::word_top().contains(0u16));
                        assert(locs0 =~= Set::<u32>::empty());
                        assert(locs1 =~= Set::<u32>::empty());
                    }
                    return Ok(self);
                }
                if offw.is_unbounded() {
                    return Err(AnalysisError::UnboundedMemory);
                }
                let low = word.split_low();
                let high = word.split_high();
                match (&segw, &offw) {
                    (Word::Int(ss), Word::Int(oo)) => {
                        let mid = self.write_memory(ss, oo, 0, &low);
                        let fin = mid.write_memory(ss, oo, 1, &high);
                        Ok(fin)
                    },
                    _ => {
                        proof {
                            assert(false);
                        }
                        Err(AnalysisError::UnboundedMemory)
                    },
                }
            },
            _ => {
                proof {
                    assert(false);
                }
                Err(AnalysisError::InvalidOperand)
            },
        }
    }

    /// Resets an operand's target to the concrete zero of its width: byte
    /// registers to a zero byte, word registers and memory targets to a
    /// zero word.
    pub fn clear_value(self, operand: Operand) -> (r: Result<State<'a>, AnalysisError>)
        requires
            self.wf(),
            match operand {
                Operand::Register8(reg) => reg.is_reg8(),
                Operand::Register16(reg) => reg.is_reg16() && !(reg is CS),
                Operand::SegPtr(seg, p) => seg.is_reg16() && p.ok(),
                _ => false,
            },
        ensures
            r is Ok ==> r->Ok_0.wf(),
            match operand {
                Operand::Register8(reg) => r is Ok && set_reg8_post(
                    self,
                    r->Ok_0,
                    reg,
                    Set::<u16>::empty().insert(0u16),
                ),
                Operand::Register16(reg) => r is Ok && word_of(r->Ok_0.regs, reg).gamma()
                    == Set::<u16>::empty().insert(0u16) && r->Ok_0.memory == self.memory,
                Operand::SegPtr(seg, p) => if self.segptr_unbounded(seg, p) {
                    r is Err && r->Err_0 == AnalysisError::UnboundedMemory
                } else {
                    r is Ok && mem_write2_post(
                        self,
                        r->Ok_0,
                        write_locs(reg16_gamma(self, seg), pointer_gamma(self, p), 0),
                        write_locs(reg16_gamma(self, seg), pointer_gamma(self, p), 1),
                        Set::<u16>::empty().insert(0u16),
                        Set::<u16>::empty().insert(0u16),
                    )
                },
                _ => true,
            },
    {
        match operand {
            Operand::Register8(_) => self.set_byte(operand, Byte::new(0)),
            _ => {
                let zero = Word::new(0);
                proof {
                    assert(crate::lattice::split_low_spec(zero) =~= Set::<u16>::empty().insert(
                        0u16,
                    )) by {
                        assert(crate::lattice::low_of(0u16) == 0u16);
                        assert(zero.gamma().contains(0u16));
                    }
                    assert(crate::lattice::high_proj(zero.gamma()).contains(0u16)) by {
                        assert(crate::lattice::high_of(0u16) == 0u16);
                        assert(zero.gamma().contains(0u16));
                    }
                    assert forall|b: u16|
                        crate::lattice::high_proj(zero.gamma()).contains(b) implies b == 0u16 by {
                        let w = choose|w: u16|
                            zero.gamma().contains(w) && b == crate::lattice::high_of(w);
                        assert(w == 0u16);
                    }
                    assert(crate::lattice::split_high_spec(zero) =~= Set::<u16>::empty().insert(
                        0u16,
                    ));
                }
                self.set_word(operand, zero)
            },
        }
    }

    /// Stores an abstract value of either width through an operand.
    pub fn set_value(self, operand: Operand, value: Value) -> (r: Result<
        State<'a>,
        AnalysisError,
    >)
        requires
            self.wf(),
            value.wf(),
            match operand {
                Operand::Register8(reg) => reg.is_reg8() && value is Byte,
                Operand::Register16(reg) => reg.is_reg16() && !(reg is CS) && value is Word,
                Operand::SegPtr(seg, p) => seg.is_reg16() && p.ok(),
                _ => false,
            },
        ensures
            value is Byte && r is Ok ==> match operand {
                Operand::Register8(reg) => set_reg8_post(self, r->Ok_0, reg, value->Byte_0.gamma()),
                Operand::SegPtr(seg, p) => mem_write_post(
                    self,
                    r->Ok_0,
                    write_locs(reg16_gamma(self, seg), pointer_gamma(self, p), 0),
                    value->Byte_0.gamma(),
                ),
                _ => true,
            },
            value is Word && r is Ok && (operand matches Operand::SegPtr(seg, p))
                ==> mem_write2_post(
                self,
                r->Ok_0,
                write_locs(
                    reg16_gamma(self, operand->SegPtr_0),
                    pointer_gamma(self, operand->SegPtr_1),
                    0,
                ),
                write_locs(
                    reg16_gamma(self, operand->SegPtr_0),
                    pointer_gamma(self, operand->SegPtr_1),
                    1,
                ),
                split_low_spec(value->Word_0),
                split_high_spec(value->Word_0),
            ),
            r is Ok ==> r->Ok_0.wf(),
            r is Err ==> (operand matches Operand::SegPtr(seg, p) && self.segptr_unbounded(
                seg,
                p,
            )),
            (operand matches Operand::SegPtr(seg, p)) ==> (r is Err <==> self.segptr_unbounded(
                operand->SegPtr_0,
                operand->SegPtr_1,
            )),
    {
        match value {
            Value::Word(word) => {
                proof {
                    assert(match operand {
                        Operand::Register8(_) => false,
                        _ => true,
                    });
                }
                self.set_word(operand, word)
            },
            Value::Byte(byte) => self.set_byte(operand, byte),
        }
    }
}

} // verus!
