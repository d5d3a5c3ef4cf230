//! Per-instruction lowering: the target-language statement each mnemonic
//! becomes. Every function states exactly the text it emits.

use vstd::prelude::*;
use crate::chip8::{Instruction, Mnemonic, Operand};
use crate::errors::AnalysisError;
use crate::text::{bin_seq, bin_string, dec_seq, dec_string, hex_seq, hex_string};

verus! {

/// A register reference in the emitted source.
pub open spec fn vreg_text(x: int) -> Seq<char> {
    "V["@ + dec_seq(x) + "]"@
}

fn vreg_string(x: u8) -> (r: String)
    ensures
        r@ == vreg_text(x as int),
{
    let r = String::from_str("V[").concat(dec_string(x as u16).as_str()).concat("]");
    proof {
        assert(r@ =~= vreg_text(x as int));
    }
    r
}

/// What a load becomes, by its operand pair.
pub open spec fn load_spec(op1: Operand, op2: Operand) -> Option<Seq<char>> {
    match (op1, op2) {
        (Operand::I, Operand::Address(a)) => Some("I = 0x"@ + hex_seq(a as int) + ";\n"@),
        (Operand::I, Operand::Numeral(n)) => Some("I = 5 * "@ + vreg_text(n as int) + ";\n"@),
        (Operand::I, Operand::LargeNumeral(n)) => Some(
            "I = 10 * "@ + vreg_text(n as int) + " + 80;\n"@,
        ),
        (Operand::V(x), Operand::Byte(b)) => Some(
            vreg_text(x as int) + " = "@ + dec_seq(b as int) + ";\n"@,
        ),
        (Operand::V(x), Operand::V(y)) => Some(
            vreg_text(x as int) + " = "@ + vreg_text(y as int) + ";\n"@,
        ),
        (Operand::V(x), Operand::KeyPress) => Some(
            vreg_text(x as int) + " = wait_for_keypress();\n"@,
        ),
        _ => None,
    }
}

/// Lowers a load; fails on an operand pair the table has no entry for.
pub fn load(op1: Operand, op2: Operand) -> (r: Result<String, AnalysisError>)
    ensures
        r is Ok <==> load_spec(op1, op2) is Some,
        r is Ok ==> r->Ok_0@ == load_spec(op1, op2)->0,
        r is Err ==> r->Err_0 == AnalysisError::InvalidOperand,
{
    match (op1, op2) {
        (Operand::I, Operand::Address(a)) => {
            let s = String::from_str("I = 0x").concat(hex_string(a).as_str()).concat(";\n");
            proof {
                assert(s@ =~= load_spec(op1, op2)->0);
            }
            Ok(s)
        },
        (Operand::I, Operand::Numeral(n)) => {
            let s = String::from_str("I = 5 * ").concat(vreg_string(n).as_str()).concat(";\n");
            proof {
                assert(s@ =~= load_spec(op1, op2)->0);
            }
            Ok(s)
        },
        (Operand::I, Operand::LargeNumeral(n)) => {
            let s = String::from_str("I = 10 * ").concat(vreg_string(n).as_str()).concat(
                " + 80;\n",
            );
            proof {
                assert(s@ =~= load_spec(op1, op2)->0);
            }
            Ok(s)
        },
        (Operand::V(x), Operand::Byte(b)) => {
            let s = vreg_string(x).concat(" = ").concat(dec_string(b as u16).as_str()).concat(
                ";\n",
            );
            proof {
                assert(s@ =~= load_spec(op1, op2)->0);
            }
            Ok(s)
        },
        (Operand::V(x), Operand::V(y)) => {
            let s = vreg_string(x).concat(" = ").concat(vreg_string(y).as_str()).concat(";\n");
            proof {
                assert(s@ =~= load_spec(op1, op2)->0);
            }
            Ok(s)
        },
        (Operand::V(x), Operand::KeyPress) => {
            let s = vreg_string(x).concat(" = wait_for_keypress();\n");
            proof {
                assert(s@ =~= load_spec(op1, op2)->0);
            }
            Ok(s)
        },
        _ => Err(AnalysisError::InvalidOperand),
    }
}

/// What an addition becomes.
pub open spec fn add_spec(op1: Operand, op2: Operand) -> Option<Seq<char>> {
    match (op1, op2) {
        (Operand::I, Operand::V(x)) => Some("I += "@ + vreg_text(x as int) + ";\n"@),
        (Operand::V(x), Operand::V(y)) => Some(
            vreg_text(x as int) + " += "@ + vreg_text(y as int) + ";\n"@,
        ),
        (Operand::V(x), Operand::Byte(b)) => Some(
            vreg_text(x as int) + " += "@ + dec_seq(b as int) + ";\n"@,
        ),
        _ => None,
    }
}

/// Lowers an addition.
pub fn add(op1: Operand, op2: Operand) -> (r: Result<String, AnalysisError>)
    ensures
        r is Ok <==> add_spec(op1, op2) is Some,
        r is Ok ==> r->Ok_0@ == add_spec(op1, op2)->0,
        r is Err ==> r->Err_0 == AnalysisError::InvalidOperand,
{
    match (op1, op2) {
        (Operand::I, Operand::V(x)) => {
            let s = String::from_str("I += ").concat(vreg_string(x).as_str()).concat(";\n");
            proof {
                assert(s@ =~= add_spec(op1, op2)->0);
            }
            Ok(s)
        },
        (Operand::V(x), Operand::V(y)) => {
            let s = vreg_string(x).concat(" += ").concat(vreg_string(y).as_str()).concat(";\n");
            proof {
                assert(s@ =~= add_spec(op1, op2)->0);
            }
            Ok(s)
        },
        (Operand::V(x), Operand::Byte(b)) => {
            let s = vreg_string(x).concat(" += ").concat(dec_string(b as u16).as_str()).concat(
                ";\n",
            );
            proof {
                assert(s@ =~= add_spec(op1, op2)->0);
            }
            Ok(s)
        },
        _ => Err(AnalysisError::InvalidOperand),
    }
}

/// What a jump becomes: a self-jump is the halt convention and becomes a
/// return of zero; any other target becomes a goto to its label.
pub open spec fn jump_spec(offset: int, op1: Operand) -> Option<Seq<char>> {
    match op1 {
        Operand::Address(a) => Some(
            if a == offset + 0x200 {
                "return 0;\n"@
            } else {
                "goto l"@ + hex_seq(a as int) + ";\n"@
            },
        ),
        _ => None,
    }
}

/// Lowers a jump.
pub fn jump(offset: u16, op1: Operand) -> (r: Result<String, AnalysisError>)
    requires
        offset + 0x200 <= u16::MAX,
    ensures
        r is Ok <==> jump_spec(offset as int, op1) is Some,
        r is Ok ==> r->Ok_0@ == jump_spec(offset as int, op1)->0,
        r is Err ==> r->Err_0 == AnalysisError::InvalidOperand,
{
    match op1 {
        Operand::Address(a) => {
            if a == offset + 0x200 {
                Ok(String::from_str("return 0;\n"))
            } else {
                let s = String::from_str("goto l").concat(hex_string(a).as_str()).concat(";\n");
                proof {
                    assert(s@ =~= jump_spec(offset as int, op1)->0);
                }
                Ok(s)
            }
        },
        _ => Err(AnalysisError::InvalidOperand),
    }
}

/// What a conditional skip becomes: a branch to the label past the next
/// instruction when the comparison holds, else to the next instruction.
pub open spec fn skip_spec(equal: bool, offset: int, op1: Operand, op2: Operand) -> Option<
    Seq<char>,
> {
    {
        let addr = offset + 0x200;
        let cmp: Seq<char> = if equal {
            "=="@
        } else {
            "!="@
        };
        match (op1, op2) {
            (Operand::V(x), Operand::Byte(b)) => Some(
                "if ("@ + vreg_text(x as int) + " "@ + cmp + " "@ + dec_seq(b as int)
                    + ") goto l"@ + hex_seq(addr + 4) + "; else goto l"@ + hex_seq(addr + 2)
                    + ";\n"@,
            ),
            (Operand::V(x), Operand::V(y)) => Some(
                "if ("@ + vreg_text(x as int) + " "@ + cmp + " "@ + vreg_text(y as int)
                    + ") goto l"@ + hex_seq(addr + 4) + "; else goto l"@ + hex_seq(addr + 2)
                    + ";\n"@,
            ),
            _ => None,
        }
    }
}

/// Lowers a conditional skip.
pub fn skip(equal: bool, offset: u16, op1: Operand, op2: Operand) -> (r: Result<
    String,
    AnalysisError,
>)
    requires
        offset + 0x204 <= u16::MAX,
    ensures
        r is Ok <==> skip_spec(equal, offset as int, op1, op2) is Some,
        r is Ok ==> r->Ok_0@ == skip_spec(equal, offset as int, op1, op2)->0,
        r is Err ==> r->Err_0 == AnalysisError::InvalidOperand,
{
    let addr = offset + 0x200;
    let cmp: &'static str = if equal {
        "=="
    } else {
        "!="
    };
    let rhs = match op2 {
        Operand::Byte(b) => dec_string(b as u16),
        Operand::V(y) => vreg_string(y),
        _ => {
            return Err(AnalysisError::InvalidOperand);
        },
    };
    match op1 {
        Operand::V(x) => {
            let s = String::from_str("if (").concat(vreg_string(x).as_str()).concat(" ").concat(
                cmp,
            ).concat(" ").concat(rhs.as_str()).concat(") goto l").concat(
                hex_string(addr + 4).as_str(),
            ).concat("; else goto l").concat(hex_string(addr + 2).as_str()).concat(";\n");
            proof {
                assert(s@ =~= skip_spec(equal, offset as int, op1, op2)->0);
            }
            Ok(s)
        },
        _ => Err(AnalysisError::InvalidOperand),
    }
}

/// What a key skip becomes.
pub open spec fn skip_key_spec(equal: bool, offset: int, op1: Operand) -> Option<Seq<char>> {
    {
        let addr = offset + 0x200;
        let bang: Seq<char> = if equal {
            ""@
        } else {
            "!"@
        };
        match op1 {
            Operand::V(x) => Some(
                "if ("@ + bang + "key_pressed("@ + vreg_text(x as int) + ")) goto l"@ + hex_seq(
                    addr + 4,
                ) + "; else goto l"@ + hex_seq(addr + 2) + ";\n"@,
            ),
            _ => None,
        }
    }
}

/// Lowers a key skip.
pub fn skip_key(equal: bool, offset: u16, op1: Operand) -> (r: Result<String, AnalysisError>)
    requires
        offset + 0x204 <= u16::MAX,
    ensures
        r is Ok <==> skip_key_spec(equal, offset as int, op1) is Some,
        r is Ok ==> r->Ok_0@ == skip_key_spec(equal, offset as int, op1)->0,
        r is Err ==> r->Err_0 == AnalysisError::InvalidOperand,
{
    let addr = offset + 0x200;
    let bang: &'static str = if equal {
        ""
    } else {
        "!"
    };
    match op1 {
        Operand::V(x) => {
            let s = String::from_str("if (").concat(bang).concat("key_pressed(").concat(
                vreg_string(x).as_str(),
            ).concat(")) goto l").concat(hex_string(addr + 4).as_str()).concat(
                "; else goto l",
            ).concat(hex_string(addr + 2).as_str()).concat(";\n");
            proof {
                reveal_strlit("");
                assert(s@ =~= skip_key_spec(equal, offset as int, op1)->0);
            }
            Ok(s)
        },
        _ => Err(AnalysisError::InvalidOperand),
    }
}

/// What a draw becomes: a sprite blit whose collision flag lands in VF.
pub open spec fn draw_spec(op1: Operand, op2: Operand, op3: Operand) -> Option<Seq<char>> {
    match (op1, op2, op3) {
        (Operand::V(x), Operand::V(y), Operand::Byte(n)) => Some(
            "V[0xf] = draw_sprite(memory + I, "@ + vreg_text(x as int) + ", "@ + vreg_text(
                y as int,
            ) + ", "@ + dec_seq(n as int) + ");\n"@,
        ),
        _ => None,
    }
}

/// Lowers a draw.
pub fn draw(op1: Operand, op2: Operand, op3: Operand) -> (r: Result<String, AnalysisError>)
    ensures
        r is Ok <==> draw_spec(op1, op2, op3) is Some,
        r is Ok ==> r->Ok_0@ == draw_spec(op1, op2, op3)->0,
        r is Err ==> r->Err_0 == AnalysisError::InvalidOperand,
{
    match (op1, op2, op3) {
        (Operand::V(x), Operand::V(y), Operand::Byte(n)) => {
            let s = String::from_str("V[0xf] = draw_sprite(memory + I, ").concat(
                vreg_string(x).as_str(),
            ).concat(", ").concat(vreg_string(y).as_str()).concat(", ").concat(
                dec_string(n as u16).as_str(),
            ).concat(");\n");
            proof {
                assert(s@ =~= draw_spec(op1, op2, op3)->0);
            }
            Ok(s)
        },
        _ => Err(AnalysisError::InvalidOperand),
    }
}

/// What a random draw becomes: a fresh byte masked in binary.
pub open spec fn random_spec(op1: Operand, op2: Operand) -> Option<Seq<char>> {
    match (op1, op2) {
        (Operand::V(x), Operand::Byte(mask)) => Some(
            vreg_text(x as int) + " = random_int8() & 0b"@ + bin_seq(mask as int) + ";\n"@,
        ),
        _ => None,
    }
}

/// Lowers a random draw.
pub fn random(op1: Operand, op2: Operand) -> (r: Result<String, AnalysisError>)
    ensures
        r is Ok <==> random_spec(op1, op2) is Some,
        r is Ok ==> r->Ok_0@ == random_spec(op1, op2)->0,
        r is Err ==> r->Err_0 == AnalysisError::InvalidOperand,
{
    match (op1, op2) {
        (Operand::V(x), Operand::Byte(mask)) => {
            let s = vreg_string(x).concat(" = random_int8() & 0b").concat(
                bin_string(mask as u16).as_str(),
            ).concat(";\n");
            proof {
                assert(s@ =~= random_spec(op1, op2)->0);
            }
            Ok(s)
        },
        _ => Err(AnalysisError::InvalidOperand),
    }
}

/// What a call becomes: an invocation of the procedure named after its
/// target address.
pub open spec fn call_spec(op1: Operand) -> Option<Seq<char>> {
    match op1 {
        Operand::Address(a) => Some("f"@ + hex_seq(a as int) + "();\n"@),
        _ => None,
    }
}

/// Lowers a call.
pub fn call(op: Operand) -> (r: Result<String, AnalysisError>)
    ensures
        r is Ok <==> call_spec(op) is Some,
        r is Ok ==> r->Ok_0@ == call_spec(op)->0,
        r is Err ==> r->Err_0 == AnalysisError::InvalidOperand,
{
    match op {
        Operand::Address(a) => {
            let s = String::from_str("f").concat(hex_string(a).as_str()).concat("();\n");
            proof {
                assert(s@ =~= call_spec(op)->0);
            }
            Ok(s)
        },
        _ => Err(AnalysisError::InvalidOperand),
    }
}

/// The whole lowering table: the statement one instruction at `o` becomes,
/// or nothing when the table has no entry for it.
pub open spec fn inst_stmt(inst: Instruction, o: int) -> Option<Seq<char>> {
    match inst.mnemonic {
        Mnemonic::LOW => Some("lores();\n"@),
        Mnemonic::HIGH => Some("hires();\n"@),
        Mnemonic::CLS => Some("clear_screen();\n"@),
        Mnemonic::SCL => Some("scroll_left();\n"@),
        Mnemonic::SCR => Some("scroll_right();\n"@),
        Mnemonic::RET => Some("return;\n"@),
        Mnemonic::EXIT => Some("exit(0);\n"@),
        Mnemonic::LD => if inst.op1 is Some && inst.op2 is Some {
            load_spec(inst.op1->0, inst.op2->0)
        } else {
            None
        },
        Mnemonic::ADD => if inst.op1 is Some && inst.op2 is Some {
            add_spec(inst.op1->0, inst.op2->0)
        } else {
            None
        },
        Mnemonic::SE => if inst.op1 is Some && inst.op2 is Some {
            skip_spec(true, o, inst.op1->0, inst.op2->0)
        } else {
            None
        },
        Mnemonic::SNE => if inst.op1 is Some && inst.op2 is Some {
            skip_spec(false, o, inst.op1->0, inst.op2->0)
        } else {
            None
        },
        Mnemonic::SKP => if inst.op1 is Some {
            skip_key_spec(true, o, inst.op1->0)
        } else {
            None
        },
        Mnemonic::SKNP => if inst.op1 is Some {
            skip_key_spec(false, o, inst.op1->0)
        } else {
            None
        },
        Mnemonic::JP => if inst.op1 is Some {
            jump_spec(o, inst.op1->0)
        } else {
            None
        },
        Mnemonic::CALL => if inst.op1 is Some {
            call_spec(inst.op1->0)
        } else {
            None
        },
        Mnemonic::DRW => if inst.op1 is Some && inst.op2 is Some && inst.op3 is Some {
            draw_spec(inst.op1->0, inst.op2->0, inst.op3->0)
        } else {
            None
        },
        Mnemonic::RND => if inst.op1 is Some && inst.op2 is Some {
            random_spec(inst.op1->0, inst.op2->0)
        } else {
            None
        },
        _ => None,
    }
}

/// Lowers one instruction through the table.
pub fn compile_inst(inst: &Instruction, o: u16) -> (r: Result<String, AnalysisError>)
    requires
        o + 0x204 <= u16::MAX,
    ensures
        r is Ok <==> inst_stmt(*inst, o as int) is Some,
        r is Ok ==> r->Ok_0@ == inst_stmt(*inst, o as int)->0,
        r is Err ==> (r->Err_0 == AnalysisError::InvalidOperand || r->Err_0
            == AnalysisError::UnsupportedMnemonic),
{
    match inst.mnemonic {
        Mnemonic::LOW => Ok(String::from_str("lores();\n")),
        Mnemonic::HIGH => Ok(String::from_str("hires();\n")),
        Mnemonic::CLS => Ok(String::from_str("clear_screen();\n")),
        Mnemonic::SCL => Ok(String::from_str("scroll_left();\n")),
        Mnemonic::SCR => Ok(String::from_str("scroll_right();\n")),
        Mnemonic::RET => Ok(String::from_str("return;\n")),
        Mnemonic::EXIT => Ok(String::from_str("exit(0);\n")),
        Mnemonic::LD => match (inst.op1, inst.op2) {
            (Some(a), Some(b)) => load(a, b),
            _ => Err(AnalysisError::InvalidOperand),
        },
        Mnemonic::ADD => match (inst.op1, inst.op2) {
            (Some(a), Some(b)) => crate::lower::add(a, b),
            _ => Err(AnalysisError::InvalidOperand),
        },
        Mnemonic::SE => match (inst.op1, inst.op2) {
            (Some(a), Some(b)) => skip(true, o, a, b),
            _ => Err(AnalysisError::InvalidOperand),
        },
        Mnemonic::SNE => match (inst.op1, inst.op2) {
            (Some(a), Some(b)) => skip(false, o, a, b),
            _ => Err(AnalysisError::InvalidOperand),
        },
        Mnemonic::SKP => match inst.op1 {
            Some(a) => skip_key(true, o, a),
            _ => Err(AnalysisError::InvalidOperand),
        },
        Mnemonic::SKNP => match inst.op1 {
            Some(a) => skip_key(false, o, a),
            _ => Err(AnalysisError::InvalidOperand),
        },
        Mnemonic::JP => match inst.op1 {
            Some(a) => jump(o, a),
            _ => Err(AnalysisError::InvalidOperand),
        },
        Mnemonic::CALL => match inst.op1 {
            Some(a) => call(a),
            _ => Err(AnalysisError::InvalidOperand),
        },
        Mnemonic::DRW => match (inst.op1, inst.op2, inst.op3) {
            (Some(a), Some(b), Some(c)) => draw(a, b, c),
            _ => Err(AnalysisError::InvalidOperand),
        },
        Mnemonic::RND => match (inst.op1, inst.op2) {
            (Some(a), Some(b)) => random(a, b),
            _ => Err(AnalysisError::InvalidOperand),
        },
        _ => Err(AnalysisError::UnsupportedMnemonic),
    }
}

} // verus!
