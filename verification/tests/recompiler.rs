use recompile::analyse::analyse;
use recompile::callgraph::construct_call_graph;
use recompile::chip8::Operand;
use recompile::compile::source_string;
use recompile::errors::AnalysisError;
use recompile::lower::{add, call, draw, jump, load, random, skip, skip_key};
use recompile::chip8::{decode, Mnemonic};
use recompile::text::{bin_string, dec_string, hex_string};

fn recompile_image(bytes: &[u8]) -> String {
    let data = bytes.to_vec();
    let graph = analyse(&data).expect("analysis should succeed");
    let cg = construct_call_graph(&graph);
    source_string(&graph, cg, "game", &data).expect("emission should succeed")
}

#[test]
fn formatters_match_the_printer() {
    assert_eq!(hex_string(0x2a).as_str(), "2a");
    assert_eq!(hex_string(0).as_str(), "0");
    assert_eq!(hex_string(0x200).as_str(), "200");
    assert_eq!(dec_string(255).as_str(), "255");
    assert_eq!(dec_string(0).as_str(), "0");
    assert_eq!(bin_string(0b1111).as_str(), "1111");
    assert_eq!(bin_string(2).as_str(), "10");
}

#[test]
fn trivial_halt() {
    // JP 0x200 at the load base: a self-jump is the halt convention.
    let source = recompile_image(&[0x12, 0x00]);
    assert!(source.contains("\nl200:\treturn 0;\n"));
    let data = vec![0x12, 0x00];
    let graph = analyse(&data).unwrap();
    assert_eq!(graph.node_count(), 1);
    let cg = construct_call_graph(&graph);
    assert_eq!(cg.len(), 1);
}

#[test]
fn clear_and_halt() {
    let source = recompile_image(&[0x00, 0xE0, 0x12, 0x02]);
    assert!(source.contains("l200:\tclear_screen();\n\tgoto l202;"));
    assert!(source.contains("l202:\treturn 0;"));
}

#[test]
fn conditional_skip() {
    // load V0 = 5; SE V0, 5; two jumps as the branch targets.
    let source = recompile_image(&[0x60, 0x05, 0x30, 0x05, 0x12, 0x06, 0x12, 0x04]);
    assert!(source.contains("l200:\tV[0] = 5;\n\tgoto l202;"));
    assert!(source.contains("l202:\tif (V[0] == 5) goto l206; else goto l204;"));
    assert!(source.contains("l204:\tgoto l206;"));
    assert!(source.contains("l206:\tgoto l204;"));
}

#[test]
fn call_and_return() {
    // CALL 0x206; JP 0x200; RET at 0x206: two procedures.
    let source = recompile_image(&[0x22, 0x06, 0x12, 0x00, 0x00, 0x00, 0x00, 0xEE]);
    assert!(source.contains("void f206() {"));
    assert!(source.contains("l206:\treturn;"));
    assert!(source.contains("l200:\tf206();"));
    assert!(source.contains("l202:\tgoto l200;"));
    assert!(source.contains("int run_game(void* data) {"));
}

#[test]
fn random_with_mask() {
    let stmt = random(Operand::V(0), Operand::Byte(0x0F)).unwrap();
    assert_eq!(stmt.as_str(), "V[0] = random_int8() & 0b1111;\n");
}

#[test]
fn draw_sprite_statement() {
    let stmt = draw(Operand::V(0), Operand::V(1), Operand::Byte(5)).unwrap();
    assert_eq!(stmt.as_str(), "V[0xf] = draw_sprite(memory + I, V[0], V[1], 5);\n");
}

#[test]
fn self_jump_is_the_halt_statement() {
    let stmt = jump(0x20, Operand::Address(0x220)).unwrap();
    assert_eq!(stmt.as_str(), "return 0;\n");
    let stmt = jump(0x20, Operand::Address(0x2A0)).unwrap();
    assert_eq!(stmt.as_str(), "goto l2a0;\n");
}

#[test]
fn load_statements() {
    assert_eq!(load(Operand::I, Operand::Address(0x300)).unwrap().as_str(), "I = 0x300;\n");
    assert_eq!(load(Operand::I, Operand::Numeral(3)).unwrap().as_str(), "I = 5 * V[3];\n");
    assert_eq!(
        load(Operand::I, Operand::LargeNumeral(3)).unwrap().as_str(),
        "I = 10 * V[3] + 80;\n"
    );
    assert_eq!(load(Operand::V(2), Operand::Byte(9)).unwrap().as_str(), "V[2] = 9;\n");
    assert_eq!(load(Operand::V(2), Operand::V(3)).unwrap().as_str(), "V[2] = V[3];\n");
    assert_eq!(
        load(Operand::V(2), Operand::KeyPress).unwrap().as_str(),
        "V[2] = wait_for_keypress();\n"
    );
    assert_eq!(
        load(Operand::V(2), Operand::DelayTimer).unwrap_err(),
        AnalysisError::InvalidOperand
    );
}

#[test]
fn add_statements() {
    assert_eq!(add(Operand::I, Operand::V(4)).unwrap().as_str(), "I += V[4];\n");
    assert_eq!(add(Operand::V(4), Operand::V(5)).unwrap().as_str(), "V[4] += V[5];\n");
    assert_eq!(add(Operand::V(4), Operand::Byte(1)).unwrap().as_str(), "V[4] += 1;\n");
}

#[test]
fn skip_statements() {
    assert_eq!(
        skip(true, 2, Operand::V(0), Operand::Byte(5)).unwrap().as_str(),
        "if (V[0] == 5) goto l206; else goto l204;\n"
    );
    assert_eq!(
        skip(false, 2, Operand::V(0), Operand::V(1)).unwrap().as_str(),
        "if (V[0] != V[1]) goto l206; else goto l204;\n"
    );
    assert_eq!(
        skip_key(true, 2, Operand::V(7)).unwrap().as_str(),
        "if (key_pressed(V[7])) goto l206; else goto l204;\n"
    );
    assert_eq!(
        skip_key(false, 2, Operand::V(7)).unwrap().as_str(),
        "if (!key_pressed(V[7])) goto l206; else goto l204;\n"
    );
}

#[test]
fn call_statement() {
    assert_eq!(call(Operand::Address(0x206)).unwrap().as_str(), "f206();\n");
    assert_eq!(call(Operand::V(1)).unwrap_err(), AnalysisError::InvalidOperand);
}

#[test]
fn preamble_holds_input_bytes_in_order() {
    let source = recompile_image(&[0x12, 0x00]);
    assert!(source.contains("0x12, 0x0, \n};"));
    assert!(source.contains("unsigned char memory[4096]"));
    assert!(source.contains("char* get_filename() {\n    return \"game\";\n}"));
    let expected_start = format!("#in{}", "clude \"api.h\"\n#in");
    assert!(source.starts_with(&expected_start));
    // the font tables the preamble provides below the load base
    assert!(source.contains("0xf0, 0x90, 0x90, 0x90, 0xf0,\t// 0"));
    assert!(source.contains("0x18, 0x78, 0x78, 0x18, 0x18,"));
    assert!(source.contains("int8_t V[16]"));
    assert!(source.contains("int16_t I = 0;"));
}

#[test]
fn skip_labels_exist_in_the_same_procedure() {
    // a skip inside a called procedure keeps both branch labels with it
    let source = recompile_image(&[
        0x22, 0x06, // CALL 0x206
        0x12, 0x00, // JP 0x200
        0x00, 0x00, // unreached padding
        0x30, 0x05, // SE V0, 5  (at 0x206)
        0x12, 0x0A, // JP 0x20a  (at 0x208)
        0x00, 0xEE, // RET       (at 0x20a)
    ]);
    let fpos = source.find("void f206() {").unwrap();
    let endpos = source[fpos..].find("}\n\n").unwrap() + fpos;
    let body = &source[fpos..endpos];
    assert!(body.contains("l208:"));
    assert!(body.contains("l20a:"));
    assert!(body.contains("if (V[0] == 5) goto l20a; else goto l208;"));
}

#[test]
fn empty_or_undecodable_input_is_a_decode_error() {
    let r = analyse(&vec![]);
    assert!(matches!(r.unwrap_err(), AnalysisError::Decode { offset: 0 }));
    let r = analyse(&vec![0xFF, 0xFF]);
    assert!(matches!(r.unwrap_err(), AnalysisError::Decode { offset: 0 }));
}

#[test]
fn transfer_outside_the_program_is_an_error() {
    // JP 0x100 leaves the loaded image
    let r = analyse(&vec![0x11, 0x00]);
    assert!(matches!(r.unwrap_err(), AnalysisError::TargetOutsideProgram { .. }));
    // a straight-line instruction at the end runs off the image
    let r = analyse(&vec![0xC0, 0x0F]);
    assert!(matches!(r.unwrap_err(), AnalysisError::TargetOutsideProgram { .. }));
}

#[test]
fn unsupported_mnemonic_fails_emission() {
    // OR V0, V1 decodes but has no lowering
    let data = vec![0x80, 0x11, 0x12, 0x00];
    let graph = analyse(&data).unwrap();
    let cg = construct_call_graph(&graph);
    let r = source_string(&graph, cg, "game", &data);
    assert_eq!(r.unwrap_err(), AnalysisError::UnsupportedMnemonic);
}

#[test]
fn graph_accessors_expose_the_partition() {
    let data = vec![0x00, 0xE0, 0x12, 0x02];
    let graph = analyse(&data).unwrap();
    assert_eq!(graph.node_count(), 2);
    let mut seen = vec![false; data.len()];
    for n in 0..graph.node_count() {
        let entry = graph.initial_instruction(n);
        let insts = graph.get_instructions_at(n);
        assert_eq!(insts[0], entry);
        for o in insts {
            // every listed offset decodes, and appears in exactly one node
            assert!(graph.get_inst(*o).is_some());
            assert!(!seen[*o as usize]);
            seen[*o as usize] = true;
        }
    }
    assert!(seen[0] && seen[2]);
    assert!(graph.get_inst(1).is_none());
}

#[test]
fn wider_programs_keep_blocks_together() {
    // two straight loads form one block, ended by a jump back to its start
    let source = recompile_image(&[0x60, 0x01, 0x61, 0x02, 0x12, 0x00]);
    assert!(source.contains("l200:\tV[0] = 1;\n\tV[1] = 2;\n\tgoto l200;\n"));
}

#[test]
fn decoder_reads_big_endian_words() {
    let inst = decode(0x12, 0x34).unwrap();
    assert!(matches!(inst.mnemonic, Mnemonic::JP));
    assert!(matches!(inst.unpack_op1(), Operand::Address(0x234)));
    let inst = decode(0xD1, 0x25).unwrap();
    assert!(matches!(inst.mnemonic, Mnemonic::DRW));
    assert!(matches!(inst.unpack_op1(), Operand::V(1)));
    assert!(matches!(inst.unpack_op2(), Operand::V(2)));
    assert!(matches!(inst.unpack_op3(), Operand::Byte(5)));
    assert!(decode(0x5F, 0xF1).is_none());
    let inst = decode(0xF3, 0x29).unwrap();
    assert!(matches!(inst.mnemonic, Mnemonic::LD));
    assert!(matches!(inst.unpack_op2(), Operand::Numeral(3)));
}
