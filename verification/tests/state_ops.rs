use recompile::bit::Bit;
use recompile::lattice::{Byte, Value, Word};
use recompile::mem::{LoadModule, MemMap};
use recompile::regs::{Flag, Flags, Register, Registers};
use recompile::state::{Operand, Pointer, State};

fn module(bytes: &[u8], segment: u16) -> LoadModule {
    LoadModule { buffer: bytes.to_vec(), memory_segment: segment }
}

fn word_eq(a: &Word, b: &Word) -> bool {
    a.is_subset(b) && b.is_subset(a)
}

fn byte_eq(a: &Byte, b: &Byte) -> bool {
    a.is_subset(b) && b.is_subset(a)
}

#[test]
fn fresh_state_is_at_the_entry() {
    let lm = module(&[0, 0, 0, 0], 0);
    let s = State::new(&lm);
    assert_eq!(s.cs, 0);
    assert_eq!(s.ip, 0);
    assert_eq!(s.next_inst_address(), 0);
}

#[test]
fn next_inst_address_is_segmented() {
    let lm = module(&[0; 4], 0);
    let mut s = State::new(&lm);
    s.cs = 0x100;
    s.ip = 0x23;
    assert_eq!(s.next_inst_address(), 16 * 0x100 + 0x23);
}

#[test]
fn word_register_round_trip() {
    let lm = module(&[0; 4], 0);
    let s = State::new(&lm);
    let s = s.set_reg16(Register::AX, Word::new(0x1234));
    let got = s.get_reg16(Register::AX);
    assert!(word_eq(&got, &Word::new(0x1234)));
    // the other registers keep no information
    let bx = s.get_reg16(Register::BX);
    assert!(word_eq(&bx, &Word::Undefined));
}

#[test]
fn cs_reads_as_its_concrete_value() {
    let lm = module(&[0; 4], 0);
    let mut s = State::new(&lm);
    s.cs = 0x0777;
    let got = s.get_reg16(Register::CS);
    assert!(word_eq(&got, &Word::new(0x0777)));
}

#[test]
fn byte_register_halves() {
    let lm = module(&[0; 4], 0);
    let s = State::new(&lm);
    let s = s.set_reg16(Register::AX, Word::new(0xABCD));
    assert!(byte_eq(&s.get_reg8(Register::AL), &Byte::new(0xCD)));
    assert!(byte_eq(&s.get_reg8(Register::AH), &Byte::new(0xAB)));
    let s = s.set_reg8(Register::AL, Byte::new(0x11));
    assert!(byte_eq(&s.get_reg8(Register::AL), &Byte::new(0x11)));
    assert!(byte_eq(&s.get_reg8(Register::AH), &Byte::new(0xAB)));
    let combined = s.get_combined_word(Operand::Register16(Register::AX)).unwrap();
    assert!(word_eq(&combined, &Word::new(0xAB11)));
}

#[test]
fn flags_are_pointwise() {
    let lm = module(&[0; 4], 0);
    let s = State::new(&lm);
    assert_eq!(s.get_flag(Flag::Zero), Bit::Undefined);
    let s = s.set_flag(Flag::Zero, Bit::True);
    assert_eq!(s.get_flag(Flag::Zero), Bit::True);
    assert_eq!(s.get_flag(Flag::Carry), Bit::Undefined);
    let s = s.clear_flag(Flag::Carry);
    assert_eq!(s.get_flag(Flag::Carry), Bit::False);
    let f = s.get_flags();
    let g = Flags::new().set(Flag::Zero, Bit::False);
    let joined = f.union(g);
    assert_eq!(joined.get(Flag::Zero), Bit::TrueAndFalse);
    assert!(!f.is_subset(g));
    assert!(f.is_subset(joined));
}

#[test]
fn flags_replaced_wholesale() {
    let lm = module(&[0; 4], 0);
    let s = State::new(&lm);
    let f = Flags::new().set(Flag::Sign, Bit::True).set(Flag::Overflow, Bit::False);
    let s = s.set_flags(f);
    assert_eq!(s.get_flag(Flag::Sign), Bit::True);
    assert_eq!(s.get_flag(Flag::Overflow), Bit::False);
    assert_eq!(s.get_flag(Flag::Parity), Bit::Undefined);
}

#[test]
fn registers_join_pointwise() {
    let a = Registers::new();
    let b = Registers::new();
    let j = a.union(b);
    assert!(j.is_subset(&Registers::new()));
}

#[test]
fn memory_write_then_read() {
    let lm = module(&[0; 32], 0);
    let s = State::new(&lm);
    let s = s.set_reg16(Register::DS, Word::new(0));
    let target = Operand::SegPtr(Register::DS, Pointer::Disp16(4));
    let s = s.set_byte(target, Byte::new(0x5A)).unwrap();
    let got = s.get_byte(target).unwrap();
    assert!(byte_eq(&got, &Byte::new(0x5A)));
}

#[test]
fn unwritten_memory_reads_the_image() {
    let lm = module(&[0x10, 0x20, 0x30, 0x40], 0);
    let s = State::new(&lm);
    let s = s.set_reg16(Register::DS, Word::new(0));
    let got = s.get_byte(Operand::SegPtr(Register::DS, Pointer::Disp16(2))).unwrap();
    assert!(byte_eq(&got, &Byte::new(0x30)));
    // a word read takes two adjacent cells, low byte first
    let got = s.get_word(Operand::SegPtr(Register::DS, Pointer::Disp16(0))).unwrap();
    assert!(word_eq(&got, &Word::new(0x2010)));
}

#[test]
fn word_write_splits_into_two_cells() {
    let lm = module(&[0; 16], 0);
    let s = State::new(&lm);
    let s = s.set_reg16(Register::DS, Word::new(0));
    let target = Operand::SegPtr(Register::DS, Pointer::Disp16(6));
    let s = s.set_word(target, Word::new(0xBEEF)).unwrap();
    let lo = s.get_byte(Operand::SegPtr(Register::DS, Pointer::Disp16(6))).unwrap();
    let hi = s.get_byte(Operand::SegPtr(Register::DS, Pointer::Disp16(7))).unwrap();
    assert!(byte_eq(&lo, &Byte::new(0xEF)));
    assert!(byte_eq(&hi, &Byte::new(0xBE)));
    let back = s.get_word(target).unwrap();
    assert!(word_eq(&back, &Word::new(0xBEEF)));
}

#[test]
fn pointer_arithmetic_addresses_cells() {
    let lm = module(&[9, 8, 7, 6, 5, 4, 3, 2], 0);
    let s = State::new(&lm);
    let s = s.set_reg16(Register::DS, Word::new(0));
    let s = s.set_reg16(Register::SI, Word::new(3));
    let got = s.get_byte(Operand::SegPtr(Register::DS, Pointer::RegDisp8(Register::SI, 2)))
        .unwrap();
    assert!(byte_eq(&got, &Byte::new(4)));
    let po = s.pointer_offset(Pointer::RegReg(Register::SI, Register::SI));
    assert!(word_eq(&po, &Word::new(6)));
}

#[test]
fn unbounded_segment_is_an_error() {
    let lm = module(&[0; 8], 0);
    let s = State::new(&lm);
    let s = s.set_reg16(Register::DS, Word::AnyValue);
    let r = s.get_byte(Operand::SegPtr(Register::DS, Pointer::Disp16(0)));
    assert_eq!(r.unwrap_err(), recompile::errors::AnalysisError::UnboundedMemory);
    let r = s.set_byte(Operand::SegPtr(Register::DS, Pointer::Disp16(0)), Byte::new(1));
    assert!(r.is_err());
}

#[test]
fn undefined_segment_reads_nothing() {
    let lm = module(&[0; 8], 0);
    let s = State::new(&lm);
    // DS holds no information: the read returns the bottom byte
    let got = s.get_byte(Operand::SegPtr(Register::DS, Pointer::Disp16(0))).unwrap();
    assert!(byte_eq(&got, &Byte::Undefined));
}

#[test]
fn multi_address_read_joins_cells() {
    let lm = module(&[1, 2, 3, 4], 0);
    let s = State::new(&lm);
    let s = s.set_reg16(Register::DS, Word::new(0));
    let two = Word::new(0).union(Word::new(2));
    let s = s.set_reg16(Register::SI, two);
    let got = s.get_byte(Operand::SegPtr(Register::DS, Pointer::Reg(Register::SI))).unwrap();
    let expected = Byte::new(1).union(Byte::new(3));
    assert!(byte_eq(&got, &expected));
}

#[test]
fn get_value_picks_the_width() {
    let lm = module(&[0; 4], 0);
    let s = State::new(&lm);
    let v = s.get_value(Operand::Imm8(7)).unwrap();
    assert!(matches!(v, Value::Byte(_)));
    let v = s.get_value(Operand::Imm16(0x700)).unwrap();
    assert!(matches!(v, Value::Word(_)));
}

#[test]
fn set_value_dispatches_by_width() {
    let lm = module(&[0; 4], 0);
    let s = State::new(&lm);
    let s = s.set_value(Operand::Register16(Register::BX), Value::Word(Word::new(3))).unwrap();
    assert!(word_eq(&s.get_reg16(Register::BX), &Word::new(3)));
    let s = s.set_value(Operand::Register8(Register::CL), Value::Byte(Byte::new(9))).unwrap();
    assert!(byte_eq(&s.get_reg8(Register::CL), &Byte::new(9)));
}

#[test]
fn clear_value_zeroes_the_target() {
    let lm = module(&[0; 4], 0);
    let s = State::new(&lm);
    let s = s.set_reg16(Register::DX, Word::new(0x1234));
    let s = s.clear_value(Operand::Register16(Register::DX)).unwrap();
    assert!(word_eq(&s.get_reg16(Register::DX), &Word::new(0)));
}

#[test]
fn state_union_joins_registers_and_memory() {
    let lm = module(&[0; 16], 0);
    let a = State::new(&lm).set_reg16(Register::AX, Word::new(1));
    let b = State::new(&lm).set_reg16(Register::AX, Word::new(2));
    let a = a.set_reg16(Register::DS, Word::new(0));
    let b = b.set_reg16(Register::DS, Word::new(0));
    let a = a.set_byte(Operand::SegPtr(Register::DS, Pointer::Disp16(3)), Byte::new(7)).unwrap();
    let j = a.union(b);
    let ax = j.get_reg16(Register::AX);
    let expected = Word::new(1).union(Word::new(2));
    assert!(word_eq(&ax, &expected));
    // the overlay cell present on one side carries through
    let cell = j.get_byte(Operand::SegPtr(Register::DS, Pointer::Disp16(3))).unwrap();
    assert!(byte_eq(&cell, &Byte::new(7)));
}

#[test]
fn state_order_respects_joins() {
    let lm = module(&[0; 8], 0);
    let a = State::new(&lm).set_reg16(Register::AX, Word::new(1));
    let b = State::new(&lm).set_reg16(Register::AX, Word::new(2));
    let a2 = State::new(&lm).set_reg16(Register::AX, Word::new(1));
    assert!(a.is_subset(&a2));
    assert!(a2.is_subset(&a));
    assert!(!a.is_subset(&b));
    let j = a2.union(b);
    assert!(a.is_subset(&j));
}

#[test]
fn state_order_requires_matching_overlays() {
    let lm = module(&[0; 8], 0);
    let base = State::new(&lm).set_reg16(Register::DS, Word::new(0));
    let with_cell = State::new(&lm)
        .set_reg16(Register::DS, Word::new(0))
        .set_byte(Operand::SegPtr(Register::DS, Pointer::Disp16(1)), Byte::new(5))
        .unwrap();
    // an overlay cell on the left needs a covering cell on the right
    assert!(!with_cell.is_subset(&base));
    assert!(base.is_subset(&with_cell));
}

#[test]
fn mem_map_operations() {
    let mut m = MemMap::new();
    assert!(m.lookup(4).is_none());
    m.set(4, Byte::new(1));
    m.set(2, Byte::new(2));
    m.set(4, Byte::new(3));
    let got = m.lookup(4).unwrap();
    assert!(byte_eq(&got, &Byte::new(3)));
    m.join_set(4, Byte::new(9));
    let got = m.lookup(4).unwrap();
    assert!(byte_eq(&got, &Byte::new(3).union(Byte::new(9))));
    let mut other = MemMap::new();
    other.set(7, Byte::new(7));
    let u = m.union(other);
    assert!(u.lookup(2).is_some());
    assert!(u.lookup(7).is_some());
    let mut small = MemMap::new();
    small.set(2, Byte::new(2));
    assert!(small.is_subset(&u));
    assert!(!u.is_subset(&small));
}
