//! Text building blocks for the recompiler: numeral formatting in decimal,
//! lowercase hexadecimal and binary, and a substring relation for stating
//! what emitted source must contain.

use vstd::prelude::*;

verus! {

/// The digit characters, lowercase.
pub open spec fn digit_char(d: int) -> char {
    if d == 0 {
        '0'
    } else if d == 1 {
        '1'
    } else if d == 2 {
        '2'
    } else if d == 3 {
        '3'
    } else if d == 4 {
        '4'
    } else if d == 5 {
        '5'
    } else if d == 6 {
        '6'
    } else if d == 7 {
        '7'
    } else if d == 8 {
        '8'
    } else if d == 9 {
        '9'
    } else if d == 10 {
        'a'
    } else if d == 11 {
        'b'
    } else if d == 12 {
        'c'
    } else if d == 13 {
        'd'
    } else if d == 14 {
        'e'
    } else {
        'f'
    }
}

/// A number in lowercase hexadecimal, no leading zeros.
pub open spec fn hex_seq(n: int) -> Seq<char>
    decreases n,
{
    if n < 16 {
        seq![digit_char(if n < 0 {
            0
        } else {
            n
        })]
    } else {
        hex_seq(n / 16).push(digit_char(n % 16))
    }
}

/// A number in decimal, no leading zeros.
pub open spec fn dec_seq(n: int) -> Seq<char>
    decreases n,
{
    if n < 10 {
        seq![digit_char(if n < 0 {
            0
        } else {
            n
        })]
    } else {
        dec_seq(n / 10).push(digit_char(n % 10))
    }
}

/// A number in binary, no leading zeros.
pub open spec fn bin_seq(n: int) -> Seq<char>
    decreases n,
{
    if n < 2 {
        seq![digit_char(if n < 0 {
            0
        } else {
            n
        })]
    } else {
        bin_seq(n / 2).push(digit_char(n % 2))
    }
}

/// One digit as text.
fn digit_str(d: u16) -> (r: &'static str)
    requires
        d < 16,
    ensures
        r@ == seq![digit_char(d as int)],
{
    let r: &'static str = match d {
        0 => "0",
        1 => "1",
        2 => "2",
        3 => "3",
        4 => "4",
        5 => "5",
        6 => "6",
        7 => "7",
        8 => "8",
        9 => "9",
        10 => "a",
        11 => "b",
        12 => "c",
        13 => "d",
        14 => "e",
        _ => "f",
    };
    proof {
        reveal_strlit("0");
        reveal_strlit("1");
        reveal_strlit("2");
        reveal_strlit("3");
        reveal_strlit("4");
        reveal_strlit("5");
        reveal_strlit("6");
        reveal_strlit("7");
        reveal_strlit("8");
        reveal_strlit("9");
        reveal_strlit("a");
        reveal_strlit("b");
        reveal_strlit("c");
        reveal_strlit("d");
        reveal_strlit("e");
        reveal_strlit("f");
        assert(r@ =~= seq![digit_char(d as int)]);
    }
    r
}

/// Formats a number in lowercase hexadecimal, as the C source printer does.
pub fn hex_string(n: u16) -> (r: String)
    ensures
        r@ == hex_seq(n as int),
    decreases n,
{
    if n < 16 {
        String::from_str(digit_str(n))
    } else {
        let r = hex_string(n / 16).concat(digit_str(n % 16));
        proof {
            assert(r@ =~= hex_seq(n as int));
        }
        r
    }
}

/// Formats a number in decimal.
pub fn dec_string(n: u16) -> (r: String)
    ensures
        r@ == dec_seq(n as int),
    decreases n,
{
    if n < 10 {
        String::from_str(digit_str(n))
    } else {
        let r = dec_string(n / 10).concat(digit_str(n % 10));
        proof {
            assert(r@ =~= dec_seq(n as int));
        }
        r
    }
}

/// Formats a number in binary, without a prefix.
pub fn bin_string(n: u16) -> (r: String)
    ensures
        r@ == bin_seq(n as int),
    decreases n,
{
    if n < 2 {
        String::from_str(digit_str(n))
    } else {
        let r = bin_string(n / 2).concat(digit_str(n % 2));
        proof {
            assert(r@ =~= bin_seq(n as int));
        }
        r
    }
}

/// `needle` occurs contiguously somewhere in `hay`.
pub open spec fn has_sub(hay: Seq<char>, needle: Seq<char>) -> bool {
    exists|i: int|
        0 <= i && i + needle.len() <= hay.len() && #[trigger] hay.subrange(i, i + needle.len())
            == needle
}


/// An occurrence survives appending on the right.
pub proof fn lemma_has_sub_extend_right(a: Seq<char>, b: Seq<char>, needle: Seq<char>)
    requires
        has_sub(a, needle),
    ensures
        has_sub(a + b, needle),
{
    let i = choose|i: int|
        0 <= i && i + needle.len() <= a.len() && #[trigger] a.subrange(i, i + needle.len())
            == needle;
    let j: int = i;
    assert((a + b).subrange(j, j + needle.len()) =~= a.subrange(i, i + needle.len()));
}

/// An occurrence survives prepending on the left.
pub proof fn lemma_has_sub_extend_left(a: Seq<char>, b: Seq<char>, needle: Seq<char>)
    requires
        has_sub(b, needle),
    ensures
        has_sub(a + b, needle),
{
    let i = choose|i: int|
        0 <= i && i + needle.len() <= b.len() && #[trigger] b.subrange(i, i + needle.len())
            == needle;
    let j: int = a.len() + i;
    assert((a + b).subrange(j, j + needle.len()) =~= b.subrange(i, i + needle.len()));
}


/// A prefix of the needle's occurrence: if `needle` starts `rest`, then any
/// concatenation `pre + rest` contains `needle`.
pub proof fn lemma_has_sub_at_start(pre: Seq<char>, needle: Seq<char>, tail: Seq<char>)
    ensures
        has_sub(pre + (needle + tail), needle),
{
    let hay = pre + (needle + tail);
    let i: int = pre.len() as int;
    assert(hay.subrange(i, i + needle.len()) =~= needle);
}

} // verus!
