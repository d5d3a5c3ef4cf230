//! The 8-bit interpreted architecture: its instruction set and decoder.
//!
//! Instructions are big-endian 16-bit words; the program image is loaded at
//! address 0x200 and offsets here are relative to that base.

use vstd::prelude::*;

verus! {

/// The address the program image is loaded at.
pub const LOAD_BASE: u16 = 0x200;

/// The largest program image: memory above the load base.
pub const MAX_PROGRAM: usize = 0xE00;

#[derive(Copy, Clone, PartialEq, Eq, Structural, Debug)]
pub enum Mnemonic {
    CLS,
    RET,
    JP,
    CALL,
    SE,
    SNE,
    LD,
    ADD,
    OR,
    AND,
    XOR,
    SUB,
    SHR,
    SUBN,
    SHL,
    RND,
    DRW,
    SKP,
    SKNP,
    SCL,
    SCR,
    EXIT,
    LOW,
    HIGH,
}

#[derive(Copy, Clone, PartialEq, Eq, Structural, Debug)]
pub enum Operand {
    /// The index register.
    I,
    /// A general register V0 .. VF.
    V(u8),
    /// An immediate byte.
    Byte(u8),
    /// An absolute address.
    Address(u16),
    /// The five-line font glyph of a digit.
    Numeral(u8),
    /// The ten-line font glyph of a digit.
    LargeNumeral(u8),
    /// A blocking key press.
    KeyPress,
    /// The delay timer.
    DelayTimer,
    /// The sound timer.
    SoundTimer,
}

#[derive(Copy, Clone, PartialEq, Eq, Structural, Debug)]
pub struct Instruction {
    pub mnemonic: Mnemonic,
    pub op1: Option<Operand>,
    pub op2: Option<Operand>,
    pub op3: Option<Operand>,
}

impl Instruction {
    pub open spec fn with0(m: Mnemonic) -> Instruction {
        Instruction { mnemonic: m, op1: None, op2: None, op3: None }
    }

    pub open spec fn with1(m: Mnemonic, a: Operand) -> Instruction {
        Instruction { mnemonic: m, op1: Some(a), op2: None, op3: None }
    }

    pub open spec fn with2(m: Mnemonic, a: Operand, b: Operand) -> Instruction {
        Instruction { mnemonic: m, op1: Some(a), op2: Some(b), op3: None }
    }

    pub open spec fn with3(m: Mnemonic, a: Operand, b: Operand, c: Operand) -> Instruction {
        Instruction { mnemonic: m, op1: Some(a), op2: Some(b), op3: Some(c) }
    }

    /// The first operand of an instruction known to have one.
    pub fn unpack_op1(&self) -> (r: Operand)
        requires
            self.op1 is Some,
        ensures
            r == self.op1->0,
    {
        match self.op1 {
            Some(op) => op,
            None => {
                proof {
                    assert(false);
                }
                Operand::I
            },
        }
    }

    /// The second operand of an instruction known to have one.
    pub fn unpack_op2(&self) -> (r: Operand)
        requires
            self.op2 is Some,
        ensures
            r == self.op2->0,
    {
        match self.op2 {
            Some(op) => op,
            None => {
                proof {
                    assert(false);
                }
                Operand::I
            },
        }
    }

    /// The third operand of an instruction known to have one.
    pub fn unpack_op3(&self) -> (r: Operand)
        requires
            self.op3 is Some,
        ensures
            r == self.op3->0,
    {
        match self.op3 {
            Some(op) => op,
            None => {
                proof {
                    assert(false);
                }
                Operand::I
            },
        }
    }
}

/// The decoding table: what one big-endian instruction word means, or
/// nothing when the bytes form no instruction this pipeline knows.
pub open spec fn decode_spec(hi: u8, lo: u8) -> Option<Instruction> {
    let class = hi / 16;
    let x = hi % 16;
    let y = lo / 16;
    let n = lo % 16;
    let addr = (x * 256 + lo) as u16;
    if class == 0 {
        if hi == 0 && lo == 0xE0 {
            Some(Instruction::with0(Mnemonic::CLS))
        } else if hi == 0 && lo == 0xEE {
            Some(Instruction::with0(Mnemonic::RET))
        } else if hi == 0 && lo == 0xFB {
            Some(Instruction::with0(Mnemonic::SCR))
        } else if hi == 0 && lo == 0xFC {
            Some(Instruction::with0(Mnemonic::SCL))
        } else if hi == 0 && lo == 0xFD {
            Some(Instruction::with0(Mnemonic::EXIT))
        } else if hi == 0 && lo == 0xFE {
            Some(Instruction::with0(Mnemonic::LOW))
        } else if hi == 0 && lo == 0xFF {
            Some(Instruction::with0(Mnemonic::HIGH))
        } else {
            None
        }
    } else if class == 1 {
        Some(Instruction::with1(Mnemonic::JP, Operand::Address(addr)))
    } else if class == 2 {
        Some(Instruction::with1(Mnemonic::CALL, Operand::Address(addr)))
    } else if class == 3 {
        Some(Instruction::with2(Mnemonic::SE, Operand::V(x), Operand::Byte(lo)))
    } else if class == 4 {
        Some(Instruction::with2(Mnemonic::SNE, Operand::V(x), Operand::Byte(lo)))
    } else if class == 5 {
        if n == 0 {
            Some(Instruction::with2(Mnemonic::SE, Operand::V(x), Operand::V(y)))
        } else {
            None
        }
    } else if class == 6 {
        Some(Instruction::with2(Mnemonic::LD, Operand::V(x), Operand::Byte(lo)))
    } else if class == 7 {
        Some(Instruction::with2(Mnemonic::ADD, Operand::V(x), Operand::Byte(lo)))
    } else if class == 8 {
        if n == 0 {
            Some(Instruction::with2(Mnemonic::LD, Operand::V(x), Operand::V(y)))
        } else if n == 1 {
            Some(Instruction::with2(Mnemonic::OR, Operand::V(x), Operand::V(y)))
        } else if n == 2 {
            Some(Instruction::with2(Mnemonic::AND, Operand::V(x), Operand::V(y)))
        } else if n == 3 {
            Some(Instruction::with2(Mnemonic::XOR, Operand::V(x), Operand::V(y)))
        } else if n == 4 {
            Some(Instruction::with2(Mnemonic::ADD, Operand::V(x), Operand::V(y)))
        } else if n == 5 {
            Some(Instruction::with2(Mnemonic::SUB, Operand::V(x), Operand::V(y)))
        } else if n == 6 {
            Some(Instruction::with2(Mnemonic::SHR, Operand::V(x), Operand::V(y)))
        } else if n == 7 {
            Some(Instruction::with2(Mnemonic::SUBN, Operand::V(x), Operand::V(y)))
        } else if n == 0xE {
            Some(Instruction::with2(Mnemonic::SHL, Operand::V(x), Operand::V(y)))
        } else {
            None
        }
    } else if class == 9 {
        if n == 0 {
            Some(Instruction::with2(Mnemonic::SNE, Operand::V(x), Operand::V(y)))
        } else {
            None
        }
    } else if class == 0xA {
        Some(Instruction::with2(Mnemonic::LD, Operand::I, Operand::Address(addr)))
    } else if class == 0xC {
        Some(Instruction::with2(Mnemonic::RND, Operand::V(x), Operand::Byte(lo)))
    } else if class == 0xD {
        Some(
            Instruction::with3(Mnemonic::DRW, Operand::V(x), Operand::V(y), Operand::Byte(n)),
        )
    } else if class == 0xE {
        if lo == 0x9E {
            Some(Instruction::with1(Mnemonic::SKP, Operand::V(x)))
        } else if lo == 0xA1 {
            Some(Instruction::with1(Mnemonic::SKNP, Operand::V(x)))
        } else {
            None
        }
    } else if class == 0xF {
        if lo == 0x07 {
            Some(Instruction::with2(Mnemonic::LD, Operand::V(x), Operand::DelayTimer))
        } else if lo == 0x0A {
            Some(Instruction::with2(Mnemonic::LD, Operand::V(x), Operand::KeyPress))
        } else if lo == 0x15 {
            Some(Instruction::with2(Mnemonic::LD, Operand::DelayTimer, Operand::V(x)))
        } else if lo == 0x18 {
            Some(Instruction::with2(Mnemonic::LD, Operand::SoundTimer, Operand::V(x)))
        } else if lo == 0x1E {
            Some(Instruction::with2(Mnemonic::ADD, Operand::I, Operand::V(x)))
        } else if lo == 0x29 {
            Some(Instruction::with2(Mnemonic::LD, Operand::I, Operand::Numeral(x)))
        } else if lo == 0x30 {
            Some(Instruction::with2(Mnemonic::LD, Operand::I, Operand::LargeNumeral(x)))
        } else {
            None
        }
    } else {
        None
    }
}

/// Decodes one big-endian instruction word.
pub fn decode(hi: u8, lo: u8) -> (r: Option<Instruction>)
    ensures
        r == decode_spec(hi, lo),
{
    let class = hi / 16;
    let x = hi % 16;
    let y = lo / 16;
    let n = lo % 16;
    let addr = (x as u16) * 256 + (lo as u16);
    match class {
        0 => match lo {
            0xE0 if hi == 0 => Some(
                Instruction { mnemonic: Mnemonic::CLS, op1: None, op2: None, op3: None },
            ),
            0xEE if hi == 0 => Some(
                Instruction { mnemonic: Mnemonic::RET, op1: None, op2: None, op3: None },
            ),
            0xFB if hi == 0 => Some(
                Instruction { mnemonic: Mnemonic::SCR, op1: None, op2: None, op3: None },
            ),
            0xFC if hi == 0 => Some(
                Instruction { mnemonic: Mnemonic::SCL, op1: None, op2: None, op3: None },
            ),
            0xFD if hi == 0 => Some(
                Instruction { mnemonic: Mnemonic::EXIT, op1: None, op2: None, op3: None },
            ),
            0xFE if hi == 0 => Some(
                Instruction { mnemonic: Mnemonic::LOW, op1: None, op2: None, op3: None },
            ),
            0xFF if hi == 0 => Some(
                Instruction { mnemonic: Mnemonic::HIGH, op1: None, op2: None, op3: None },
            ),
            _ => None,
        },
        1 => Some(
            Instruction {
                mnemonic: Mnemonic::JP,
                op1: Some(Operand::Address(addr)),
                op2: None,
                op3: None,
            },
        ),
        2 => Some(
            Instruction {
                mnemonic: Mnemonic::CALL,
                op1: Some(Operand::Address(addr)),
                op2: None,
                op3: None,
            },
        ),
        3 => Some(
            Instruction {
                mnemonic: Mnemonic::SE,
                op1: Some(Operand::V(x)),
                op2: Some(Operand::Byte(lo)),
                op3: None,
            },
        ),
        4 => Some(
            Instruction {
                mnemonic: Mnemonic::SNE,
                op1: Some(Operand::V(x)),
                op2: Some(Operand::Byte(lo)),
                op3: None,
            },
        ),
        5 => {
            if n == 0 {
                Some(
                    Instruction {
                        mnemonic: Mnemonic::SE,
                        op1: Some(Operand::V(x)),
                        op2: Some(Operand::V(y)),
                        op3: None,
                    },
                )
            } else {
                None
            }
        },
        6 => Some(
            Instruction {
                mnemonic: Mnemonic::LD,
                op1: Some(Operand::V(x)),
                op2: Some(Operand::Byte(lo)),
                op3: None,
            },
        ),
        7 => Some(
            Instruction {
                mnemonic: Mnemonic::ADD,
                op1: Some(Operand::V(x)),
                op2: Some(Operand::Byte(lo)),
                op3: None,
            },
        ),
        8 => {
            let m = match n {
                0 => Some(Mnemonic::LD),
                1 => Some(Mnemonic::OR),
                2 => Some(Mnemonic::AND),
                3 => Some(Mnemonic::XOR),
                4 => Some(Mnemonic::ADD),
                5 => Some(Mnemonic::SUB),
                6 => Some(Mnemonic::SHR),
                7 => Some(Mnemonic::SUBN),
                0xE => Some(Mnemonic::SHL),
                _ => None,
            };
            match m {
                Some(mn) => Some(
                    Instruction {
                        mnemonic: mn,
                        op1: Some(Operand::V(x)),
                        op2: Some(Operand::V(y)),
                        op3: None,
                    },
                ),
                None => None,
            }
        },
        9 => {
            if n == 0 {
                Some(
                    Instruction {
                        mnemonic: Mnemonic::SNE,
                        op1: Some(Operand::V(x)),
                        op2: Some(Operand::V(y)),
                        op3: None,
                    },
                )
            } else {
                None
            }
        },
        0xA => Some(
            Instruction {
                mnemonic: Mnemonic::LD,
                op1: Some(Operand::I),
                op2: Some(Operand::Address(addr)),
                op3: None,
            },
        ),
        0xC => Some(
            Instruction {
                mnemonic: Mnemonic::RND,
                op1: Some(Operand::V(x)),
                op2: Some(Operand::Byte(lo)),
                op3: None,
            },
        ),
        0xD => Some(
            Instruction {
                mnemonic: Mnemonic::DRW,
                op1: Some(Operand::V(x)),
                op2: Some(Operand::V(y)),
                op3: Some(Operand::Byte(n)),
            },
        ),
        0xE => {
            if lo == 0x9E {
                Some(
                    Instruction {
                        mnemonic: Mnemonic::SKP,
                        op1: Some(Operand::V(x)),
                        op2: None,
                        op3: None,
                    },
                )
            } else if lo == 0xA1 {
                Some(
                    Instruction {
                        mnemonic: Mnemonic::SKNP,
                        op1: Some(Operand::V(x)),
                        op2: None,
                        op3: None,
                    },
                )
            } else {
                None
            }
        },
        0xF => {
            let ops = match lo {
                0x07 => Some((Operand::V(x), Operand::DelayTimer)),
                0x0A => Some((Operand::V(x), Operand::KeyPress)),
                0x15 => Some((Operand::DelayTimer, Operand::V(x))),
                0x18 => Some((Operand::SoundTimer, Operand::V(x))),
                0x1E => Some((Operand::I, Operand::V(x))),
                0x29 => Some((Operand::I, Operand::Numeral(x))),
                0x30 => Some((Operand::I, Operand::LargeNumeral(x))),
                _ => None,
            };
            match ops {
                Some((a, b)) => {
                    let mn = if lo == 0x1E {
                        Mnemonic::ADD
                    } else {
                        Mnemonic::LD
                    };
                    Some(Instruction { mnemonic: mn, op1: Some(a), op2: Some(b), op3: None })
                },
                None => None,
            }
        },
        _ => None,
    }
}

/// Decoded jumps and calls always carry an address operand.
pub proof fn lemma_decode_operand_shapes(hi: u8, lo: u8)
    ensures
        (decode_spec(hi, lo) matches Some(i) && (i.mnemonic is JP || i.mnemonic is CALL))
            ==> (decode_spec(hi, lo)->0.op1 is Some && decode_spec(hi, lo)->0.op1->0 is Address),
{
}

/// A straight-line instruction: control falls through to the next offset.
pub open spec fn is_plain(m: Mnemonic) -> bool {
    match m {
        Mnemonic::JP | Mnemonic::CALL | Mnemonic::RET | Mnemonic::EXIT | Mnemonic::SE
            | Mnemonic::SNE | Mnemonic::SKP | Mnemonic::SKNP => false,
        _ => true,
    }
}

/// A conditional skip: two successors, past one or two instruction words.
pub open spec fn is_skip(m: Mnemonic) -> bool {
    match m {
        Mnemonic::SE | Mnemonic::SNE | Mnemonic::SKP | Mnemonic::SKNP => true,
        _ => false,
    }
}

pub fn plain_exec(m: Mnemonic) -> (r: bool)
    ensures
        r == is_plain(m),
{
    match m {
        Mnemonic::JP | Mnemonic::CALL | Mnemonic::RET | Mnemonic::EXIT | Mnemonic::SE
            | Mnemonic::SNE | Mnemonic::SKP | Mnemonic::SKNP => false,
        _ => true,
    }
}

pub fn skip_exec(m: Mnemonic) -> (r: bool)
    ensures
        r == is_skip(m),
{
    match m {
        Mnemonic::SE | Mnemonic::SNE | Mnemonic::SKP | Mnemonic::SKNP => true,
        _ => false,
    }
}

} // verus!
