use recompile::bit::Bit;
use recompile::lattice::{Byte, Value, Word};

fn word_set(values: &[u16]) -> Word {
    let mut w = Word::Int(recompile::vset::ValueSet::empty());
    for v in values {
        w = w.union(Word::new(*v));
    }
    w
}

fn byte_set(values: &[u8]) -> Byte {
    let mut b = Byte::Int(recompile::vset::ValueSet::empty());
    for v in values {
        b = b.union(Byte::new(*v));
    }
    b
}

fn word_eq(a: &Word, b: &Word) -> bool {
    a.is_subset(b) && b.is_subset(a)
}

fn byte_eq(a: &Byte, b: &Byte) -> bool {
    a.is_subset(b) && b.is_subset(a)
}

#[test]
fn byte_union_commutative() {
    let a = byte_set(&[1, 2]);
    let b = byte_set(&[2, 9]);
    let ab = a.clone().union(b.clone());
    let ba = b.union(a);
    assert!(byte_eq(&ab, &ba));
}

#[test]
fn word_union_commutative() {
    let a = word_set(&[0x100, 0x200]);
    let b = word_set(&[0x200, 0xFFFF]);
    let ab = a.clone().union(b.clone());
    let ba = b.union(a);
    assert!(word_eq(&ab, &ba));
}

#[test]
fn word_union_associative() {
    let a = word_set(&[1]);
    let b = word_set(&[2]);
    let c = word_set(&[3]);
    let left = a.clone().union(b.clone()).union(c.clone());
    let right = a.union(b.union(c));
    assert!(word_eq(&left, &right));
}

#[test]
fn word_union_idempotent() {
    let a = word_set(&[7, 8, 9]);
    let aa = a.clone().union(a.clone());
    assert!(word_eq(&aa, &a));
}

#[test]
fn word_union_bottom_identity() {
    let a = word_set(&[5, 6]);
    let u = a.clone().union(Word::Undefined);
    assert!(word_eq(&u, &a));
}

#[test]
fn word_union_top_absorbing() {
    let a = word_set(&[5, 6]);
    let u = a.union(Word::AnyValue);
    assert!(word_eq(&u, &Word::AnyValue));
}

#[test]
fn byte_union_top_absorbing() {
    let a = byte_set(&[5, 6]);
    let u = a.union(Byte::AnyValue);
    assert!(byte_eq(&u, &Byte::AnyValue));
}

#[test]
fn subset_reflexive() {
    let a = word_set(&[1, 2, 3]);
    assert!(a.is_subset(&a));
    assert!(Word::Undefined.is_subset(&Word::Undefined));
    assert!(Word::AnyValue.is_subset(&Word::AnyValue));
}

#[test]
fn subset_transitive() {
    let a = word_set(&[1]);
    let b = word_set(&[1, 2]);
    let c = word_set(&[1, 2, 3]);
    assert!(a.is_subset(&b));
    assert!(b.is_subset(&c));
    assert!(a.is_subset(&c));
}

#[test]
fn subset_antisymmetric_modulo_set_equality() {
    // Two differently built values standing for the same set.
    let a = word_set(&[4, 2]);
    let b = word_set(&[2, 4]);
    assert!(a.is_subset(&b));
    assert!(b.is_subset(&a));
    assert!(word_eq(&a, &b));
}

#[test]
fn bottom_below_everything() {
    let a = word_set(&[9]);
    assert!(Word::Undefined.is_subset(&a));
    assert!(Word::Undefined.is_subset(&Word::AnyValue));
    assert!(!Word::AnyValue.is_subset(&a));
    assert!(a.is_subset(&Word::AnyValue));
}

#[test]
fn operands_below_their_union() {
    let a = word_set(&[1, 5]);
    let b = word_set(&[2, 5]);
    let u = a.clone().union(b.clone());
    assert!(a.is_subset(&u));
    assert!(b.is_subset(&u));
}

#[test]
fn combine_split_round_trip_upper_bound() {
    // An Int-shaped word; the projections recombined cover it.
    let w = word_set(&[0x0102, 0x0304]);
    let low = w.split_low();
    let high = w.split_high();
    let c = low.combine(high);
    assert!(w.is_subset(&c));
    // The round trip is an upper bound, not an equality: the product also
    // holds the cross pairs.
    assert!(c.is_subset(&word_set(&[0x0102, 0x0304, 0x0104, 0x0302])));
}

#[test]
fn split_projections_exact() {
    let w = word_set(&[0x1234]);
    assert!(byte_eq(&w.split_low(), &byte_set(&[0x34])));
    assert!(byte_eq(&w.split_high(), &byte_set(&[0x12])));
}

#[test]
fn combine_builds_the_pair() {
    let low = Byte::new(0xCD);
    let high = Byte::new(0xAB);
    let w = low.combine(high);
    assert!(word_eq(&w, &word_set(&[0xABCD])));
}

#[test]
fn combine_with_bottom_is_bottom() {
    let w = Byte::Undefined.combine(Byte::new(3));
    assert!(word_eq(&w, &Word::Undefined));
}

#[test]
fn byte_to_word_zero_extends() {
    let w = Byte::new(0xFF).to_word();
    assert!(word_eq(&w, &word_set(&[0x00FF])));
}

#[test]
fn word_addition_exact_sum() {
    let a = word_set(&[2, 3]);
    let b = word_set(&[10]);
    let s = a.add(b);
    assert!(word_eq(&s, &word_set(&[12, 13])));
}

#[test]
fn word_addition_wraps() {
    let a = word_set(&[0xFFFF]);
    let b = word_set(&[2]);
    let s = a.add(b);
    assert!(word_eq(&s, &word_set(&[1])));
}

#[test]
fn word_addition_monotone() {
    let x = word_set(&[2]);
    let x2 = word_set(&[2, 3]);
    let y = word_set(&[10]);
    let y2 = word_set(&[10, 20]);
    assert!(x.is_subset(&x2));
    assert!(y.is_subset(&y2));
    let s = x.add(y);
    let s2 = x2.add(y2);
    assert!(s.is_subset(&s2));
}

#[test]
fn word_addition_bottom_and_top() {
    let s = Word::Undefined.add(word_set(&[1]));
    assert!(word_eq(&s, &Word::Undefined));
    let t = Word::AnyValue.add(word_set(&[1]));
    assert!(word_eq(&t, &Word::AnyValue));
}

#[test]
fn value_subset_by_kind() {
    let a = Value::Byte(byte_set(&[1]));
    let b = Value::Byte(byte_set(&[1, 2]));
    assert!(a.is_subset(&b));
    assert!(!b.is_subset(&a));
    let c = Value::Word(word_set(&[1]));
    let d = Value::Word(word_set(&[1, 2]));
    assert!(c.is_subset(&d));
}

#[test]
fn bit_union_and_membership() {
    assert_eq!(Bit::new(), Bit::Undefined);
    assert_eq!(Bit::True.union(Bit::False), Bit::TrueAndFalse);
    assert_eq!(Bit::Undefined.union(Bit::True), Bit::True);
    assert_eq!(Bit::TrueAndFalse.union(Bit::False), Bit::TrueAndFalse);
    assert!(Bit::True.has_truth_value(true));
    assert!(!Bit::True.has_truth_value(false));
    assert!(Bit::TrueAndFalse.has_truth_value(false));
}

#[test]
fn bit_subset_order() {
    assert!(Bit::Undefined.is_subset(Bit::True));
    assert!(Bit::Undefined.is_subset(Bit::False));
    assert!(Bit::True.is_subset(Bit::TrueAndFalse));
    assert!(!Bit::True.is_subset(Bit::False));
    assert!(!Bit::TrueAndFalse.is_subset(Bit::True));
}

#[test]
fn bit_accumulation() {
    let mut b = Bit::Undefined;
    b.add_true();
    assert_eq!(b, Bit::True);
    b.add_false();
    assert_eq!(b, Bit::TrueAndFalse);
    let mut c = Bit::Undefined;
    c.add_false();
    assert_eq!(c, Bit::False);
}

#[test]
fn value_set_basics() {
    let mut s = recompile::vset::ValueSet::empty();
    assert!(s.is_empty());
    s.insert(5);
    s.insert(2);
    s.insert(5);
    assert_eq!(s.len(), 2);
    assert!(s.contains(2));
    assert!(s.contains(5));
    assert!(!s.contains(3));
    let t = recompile::vset::ValueSet::singleton(9);
    let u = s.union(&t);
    assert_eq!(u.len(), 3);
    assert!(s.is_subset(&u));
    assert!(t.is_subset(&u));
    assert!(!u.is_subset(&s));
}

#[test]
fn value_union_joins_same_kind() {
    let a = Value::Word(word_set(&[1]));
    let b = Value::Word(word_set(&[2]));
    let u = a.union(b);
    let expected = Value::Word(word_set(&[1, 2]));
    assert!(u.is_subset(&expected));
    assert!(expected.is_subset(&u));
    let c = Value::Byte(byte_set(&[7]));
    let d = Value::Byte(byte_set(&[8]));
    let v = c.union(d);
    assert!(Value::Byte(byte_set(&[7])).is_subset(&v));
    assert!(Value::Byte(byte_set(&[8])).is_subset(&v));
}
