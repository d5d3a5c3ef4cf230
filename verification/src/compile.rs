//! The recompiler: linearizes each recovered procedure into labeled source
//! text, one label per basic block, one statement per instruction, an
//! explicit goto where a block ends by falling through.

use vstd::prelude::*;
use crate::callgraph::CallGraph;
use crate::chip8::{is_plain, plain_exec, Instruction};
use crate::errors::AnalysisError;
use crate::graph::FlowGraph;
use crate::lower::{compile_inst, inst_stmt};
use crate::text::{hex_seq, hex_string};

verus! {

/// The label that opens a node's text.
pub open spec fn label_text(addr: int) -> Seq<char> {
    "\nl"@ + hex_seq(addr) + ":"@
}

/// The statements of a run of instructions, each indented.
pub open spec fn node_stmts(g: FlowGraph, s: Seq<u16>) -> Option<Seq<char>>
    decreases s.len(),
{
    if s.len() == 0 {
        Some(Seq::empty())
    } else {
        let prev = node_stmts(g, s.drop_last());
        let cur = inst_stmt(g.inst_at(s.last() as int), s.last() as int);
        if prev is Some && cur is Some {
            Some(prev->0 + "\t"@ + cur->0)
        } else {
            None
        }
    }
}

/// The closing goto of a block whose last instruction falls through.
pub open spec fn node_tail(g: FlowGraph, n: int) -> Seq<char> {
    {
        let last = g.nodes@[n].insts@.last() as int;
        if is_plain(g.inst_at(last).mnemonic) {
            "\tgoto l"@ + hex_seq(last + 2 + 0x200) + ";\n"@
        } else {
            Seq::empty()
        }
    }
}

/// A node's full text: its entry label, its statements, its closing goto.
pub open spec fn node_text(g: FlowGraph, n: int) -> Option<Seq<char>> {
    {
        let entry = g.nodes@[n].insts@[0] as int;
        match node_stmts(g, g.nodes@[n].insts@) {
            Some(body) => Some(label_text(entry + 0x200) + body + node_tail(g, n)),
            None => None,
        }
    }
}

/// A failed statement anywhere fails the whole run.
proof fn lemma_node_stmts_none(g: FlowGraph, s: Seq<u16>, k: int)
    requires
        0 <= k < s.len(),
        inst_stmt(g.inst_at(s[k] as int), s[k] as int) is None,
    ensures
        node_stmts(g, s) is None,
    decreases s.len(),
{
    if k == s.len() - 1 {
    } else {
        lemma_node_stmts_none(g, s.drop_last(), k);
    }
}

/// Emits one node: label, statements, closing goto.
pub fn compile_node(graph: &FlowGraph, node: usize) -> (r: Result<String, AnalysisError>)
    requires
        graph.wf(),
        node < graph.nodes@.len(),
        graph.insts@.len() <= 0xE00,
    ensures
        r is Ok <==> node_text(*graph, node as int) is Some,
        r is Ok ==> r->Ok_0@ == node_text(*graph, node as int)->0,
        r is Err ==> (r->Err_0 == AnalysisError::InvalidOperand || r->Err_0
            == AnalysisError::UnsupportedMnemonic),
{
    proof {
        assert(graph.node_wf(node as int));
    }
    let ni = graph.nodes[node].insts.len();
    let entry = graph.nodes[node].insts[0];
    let ghost s = graph.nodes@[node as int].insts@;
    let mut acc = String::from_str("\nl").concat(hex_string(entry + 0x200).as_str()).concat(":");
    let ghost lbl = label_text(entry as int + 0x200);
    proof {
        assert(acc@ =~= lbl);
        assert(s.take(0) =~= Seq::<u16>::empty());
        assert(acc@ =~= lbl + node_stmts(*graph, s.take(0))->0);
    }
    let mut k: usize = 0;
    while k < ni
        invariant
            k <= ni,
            ni == s.len(),
            s == graph.nodes@[node as int].insts@,
            graph.wf(),
            node < graph.nodes@.len(),
            graph.insts@.len() <= 0xE00,
            node_stmts(*graph, s.take(k as int)) is Some,
            acc@ == lbl + node_stmts(*graph, s.take(k as int))->0,
            lbl == label_text(s[0] as int + 0x200),
        decreases ni - k,
    {
        proof {
            assert(graph.node_wf(node as int));
        }
        let o = graph.nodes[node].insts[k];
        let inst = match graph.insts[o as usize] {
            Some(i) => i,
            None => {
                proof {
                    assert(false);
                }
                return Err(AnalysisError::InvalidOperand);
            },
        };
        match compile_inst(&inst, o) {
            Ok(t) => {
                let ghost accprev = acc@;
                acc.append("\t");
                acc.append(t.as_str());
                proof {
                    assert(s.take(k + 1).drop_last() =~= s.take(k as int));
                    assert(s.take(k + 1).last() == s[k as int]);
                    assert(node_stmts(*graph, s.take(k + 1)) is Some);
                    assert(acc@ =~= lbl + node_stmts(*graph, s.take(k + 1))->0);
                }
            },
            Err(e) => {
                proof {
                    lemma_node_stmts_none(*graph, s, k as int);
                }
                return Err(e);
            },
        }
        k = k + 1;
    }
    proof {
        assert(s.take(ni as int) =~= s);
    }
    let last = graph.nodes[node].insts[ni - 1];
    let last_inst = match graph.insts[last as usize] {
        Some(i) => i,
        None => {
            proof {
                assert(false);
            }
            return Err(AnalysisError::InvalidOperand);
        },
    };
    if plain_exec(last_inst.mnemonic) {
        acc.append("\tgoto l");
        acc.append(hex_string(last + 2 + 0x200).as_str());
        acc.append(";\n");
        proof {
            assert(s.last() == last);
            assert(acc@ =~= node_text(*graph, node as int)->0);
        }
    } else {
        proof {
            assert(s.last() == last);
            assert(node_tail(*graph, node as int) =~= Seq::<char>::empty());
            assert(acc@ =~= node_text(*graph, node as int)->0);
        }
    }
    Ok(acc)
}

/// Whether the scan over offsets emits a node at `o`: the procedure owns
/// the node beginning exactly there.
pub open spec fn emit_here(g: FlowGraph, f: Seq<usize>, o: int) -> bool {
    &&& g.owner@[o] is Some
    &&& f.contains(g.owner@[o]->0)
    &&& g.nodes@[g.owner@[o]->0 as int].insts@[0] == o
}

/// A procedure's text: its nodes in ascending order of entry offset.
pub open spec fn function_text(g: FlowGraph, f: Seq<usize>, upto: int) -> Option<Seq<char>>
    decreases upto,
{
    if upto <= 0 {
        Some(Seq::empty())
    } else {
        let prev = function_text(g, f, upto - 1);
        if !emit_here(g, f, upto - 1) {
            prev
        } else {
            let cur = node_text(g, g.owner@[upto - 1]->0 as int);
            if prev is Some && cur is Some {
                Some(prev->0 + cur->0)
            } else {
                None
            }
        }
    }
}

proof fn lemma_function_text_none_mono(g: FlowGraph, f: Seq<usize>, u1: int, u2: int)
    requires
        u1 <= u2,
        function_text(g, f, u1) is None,
    ensures
        function_text(g, f, u2) is None,
    decreases u2 - u1,
{
    if u1 < u2 {
        lemma_function_text_none_mono(g, f, u1, u2 - 1);
    }
}

fn contains_node(f: &Vec<usize>, n: usize) -> (r: bool)
    ensures
        r == f@.contains(n),
{
    let ln = f.len();
    let mut i: usize = 0;
    while i < ln
        invariant
            i <= ln,
            ln == f@.len(),
            forall|j: int| 0 <= j < i ==> f@[j] != n,
        decreases ln - i,
    {
        if f[i] == n {
            return true;
        }
        i = i + 1;
    }
    proof {
        assert(!f@.contains(n));
    }
    false
}

/// Emits one procedure: its nodes, sorted ascending by entry offset.
pub fn compile_function(graph: &FlowGraph, function: &Vec<usize>) -> (r: Result<
    String,
    AnalysisError,
>)
    requires
        graph.wf(),
        graph.insts@.len() <= 0xE00,
        forall|i: int| 0 <= i < function@.len() ==> (#[trigger] function@[i]) < graph.nodes@.len(),
    ensures
        r is Ok <==> function_text(*graph, function@, graph.insts@.len() as int) is Some,
        r is Ok ==> r->Ok_0@ == function_text(*graph, function@, graph.insts@.len() as int)->0,
        r is Err ==> (r->Err_0 == AnalysisError::InvalidOperand || r->Err_0
            == AnalysisError::UnsupportedMnemonic),
{
    let ln = graph.insts.len();
    let mut acc = String::new();
    proof {
        assert(acc@ =~= function_text(*graph, function@, 0)->0);
    }
    let mut o: usize = 0;
    while o < ln
        invariant
            o <= ln,
            ln == graph.insts@.len(),
            ln == graph.owner@.len(),
            graph.wf(),
            graph.insts@.len() <= 0xE00,
            forall|i: int|
                0 <= i < function@.len() ==> (#[trigger] function@[i]) < graph.nodes@.len(),
            function_text(*graph, function@, o as int) is Some,
            acc@ == function_text(*graph, function@, o as int)->0,
        decreases ln - o,
    {
        let owner_here = graph.owner[o];
        match owner_here {
            None => {
                proof {
                    assert(!emit_here(*graph, function@, o as int));
                }
            },
            Some(n) => {
                if contains_node(function, n) {
                    proof {
                        assert(graph.owner@[o as int]->0 < graph.nodes@.len());
                    }
                    let entry0 = graph.initial_instruction(n);
                    if entry0 as usize == o {
                        proof {
                            assert(emit_here(*graph, function@, o as int));
                        }
                        match compile_node(graph, n) {
                            Ok(t) => {
                                acc.append(t.as_str());
                                proof {
                                    assert(acc@ =~= function_text(
                                        *graph,
                                        function@,
                                        o + 1,
                                    )->0);
                                }
                            },
                            Err(e) => {
                                proof {
                                    assert(function_text(*graph, function@, o + 1) is None);
                                    lemma_function_text_none_mono(
                                        *graph,
                                        function@,
                                        o + 1,
                                        ln as int,
                                    );
                                }
                                return Err(e);
                            },
                        }
                    } else {
                        proof {
                            assert(!emit_here(*graph, function@, o as int));
                        }
                    }
                } else {
                    proof {
                        assert(!emit_here(*graph, function@, o as int));
                    }
                }
            },
        }
        o = o + 1;
    }
    Ok(acc)
}


/// The program bytes as a C initializer list: each as hexadecimal, in
/// order.
pub open spec fn bytes_text(data: Seq<u8>, upto: int) -> Seq<char>
    decreases upto,
{
    if upto <= 0 {
        Seq::empty()
    } else {
        bytes_text(data, upto - 1) + "0x"@ + hex_seq(data[upto - 1] as int) + ", "@
    }
}

/// The emitted named procedures, in pop order: every procedure after the
/// entry, last first.
pub open spec fn functions_text(g: FlowGraph, procs: Seq<Vec<usize>>) -> Option<Seq<char>>
    decreases procs.len(),
{
    if procs.len() <= 1 {
        Some(Seq::empty())
    } else {
        let f = procs.last()@;
        let body = function_text(g, f, g.insts@.len() as int);
        let rest = functions_text(g, procs.drop_last());
        if body is Some && rest is Some {
            Some(
                "void f"@ + hex_seq(g.nodes@[f[0] as int].insts@[0] + 0x200) + "() {\n"@
                    + body->0 + "}\n\n"@ + rest->0,
            )
        } else {
            None
        }
    }
}

/// The whole output: preamble, program bytes, file stem, named procedures,
/// and the entry procedure as the body of the run function.
pub open spec fn source_text(
    g: FlowGraph,
    procs: Seq<Vec<usize>>,
    stem: Seq<char>,
    data: Seq<u8>,
) -> Option<Seq<char>> {
    {
        let m = function_text(g, procs[0]@, g.insts@.len() as int);
        let fs = functions_text(g, procs);
        if m is Some && fs is Some {
            Some(
                tpl_head_text() + bytes_text(data, data.len() as int) + tpl_mid1_text() + stem
                    + tpl_mid2_text() + fs->0 + tpl_run_head_text() + m->0
                    + tpl_run_tail_text(),
            )
        } else {
            None
        }
    }
}

/// Emits the whole program: the fixed preamble around the input bytes, one
/// named function per non-entry procedure, and the entry procedure as the
/// run function's body.
pub fn source_string(
    graph: &FlowGraph,
    call_graph: CallGraph,
    file_stem: &str,
    data: &Vec<u8>,
) -> (r: Result<String, AnalysisError>)
    requires
        graph.wf(),
        graph.insts@.len() <= 0xE00,
        call_graph.wf(*graph),
    ensures
        r is Ok <==> source_text(*graph, call_graph.procs@, file_stem@, data@) is Some,
        r is Ok ==> r->Ok_0@ == source_text(*graph, call_graph.procs@, file_stem@, data@)->0,
        r is Err ==> (r->Err_0 == AnalysisError::InvalidOperand || r->Err_0
            == AnalysisError::UnsupportedMnemonic),
{
    let ghost procs0 = call_graph.procs@;
    let mut cg = call_graph;
    let dn = data.len();
    let mut data_string = String::new();
    proof {
        assert(data_string@ =~= bytes_text(data@, 0));
    }
    let mut i: usize = 0;
    while i < dn
        invariant
            i <= dn,
            dn == data@.len(),
            data_string@ == bytes_text(data@, i as int),
        decreases dn - i,
    {
        data_string.append("0x");
        data_string.append(hex_string(data[i] as u16).as_str());
        data_string.append(", ");
        proof {
            assert(data_string@ =~= bytes_text(data@, i + 1));
        }
        i = i + 1;
    }
    let mut functions = String::new();
    let mut main_text = String::new();
    proof {
        assert(procs0.take(procs0.len() as int) =~= procs0);
    }
    loop
        invariant
            graph.wf(),
            graph.insts@.len() <= 0xE00,
            procs0 == call_graph.procs@,
            procs0.len() >= 1,
            cg.procs@.len() <= procs0.len(),
            cg.procs@ == procs0.take(cg.procs@.len() as int),
            forall|p: int, j: int|
                0 <= p < procs0.len() && 0 <= j < procs0[p]@.len() ==> (
                #[trigger] procs0[p]@[j]) < graph.nodes@.len(),
            forall|p: int| 0 <= p < procs0.len() ==> (#[trigger] procs0[p])@.len() > 0,
            functions_text(*graph, procs0) is Some <==> functions_text(*graph, cg.procs@)
                is Some,
            functions_text(*graph, procs0) is Some ==> functions_text(*graph, procs0)->0
                == functions@ + functions_text(*graph, cg.procs@)->0,
            cg.procs@.len() == 0 ==> function_text(
                *graph,
                procs0[0]@,
                graph.insts@.len() as int,
            ) is Some && main_text@ == function_text(
                *graph,
                procs0[0]@,
                graph.insts@.len() as int,
            )->0,
        ensures
            cg.procs@.len() == 0,
        decreases cg.procs@.len(),
    {
        let ghost before = cg.procs@;
        let popped = cg.pop();
        let f = match popped {
            Some(f) => f,
            None => {
                break ;
            },
        };
        proof {
            assert(before.len() >= 1);
            assert(f == before.last());
            assert(cg.procs@ == before.drop_last());
            assert(cg.procs@ =~= procs0.take(cg.procs@.len() as int));
            assert(f@ == procs0[before.len() - 1]@);
        }
        if cg.len() > 0 {
            let entry_off = graph.initial_instruction(f[0]);
            proof {
                assert(graph.node_wf(f@[0] as int));
                assert(entry_off < graph.owner@.len());
            }
            match compile_function(graph, &f) {
                Ok(body) => {
                    let ghost fb = functions@;
                    functions.append("void f");
                    functions.append(hex_string(entry_off + 0x200).as_str());
                    functions.append("() {\n");
                    functions.append(body.as_str());
                    functions.append("}\n\n");
                    proof {
                        assert(functions_text(*graph, before) is Some ==> functions@
                            + functions_text(*graph, cg.procs@)->0 =~= fb + functions_text(
                            *graph,
                            before,
                        )->0);
                    }
                },
                Err(e) => {
                    proof {
                        assert(before.len() > 1);
                        assert(before.last()@ == f@);
                        assert(function_text(*graph, before.last()@, graph.insts@.len() as int)
                            is None);
                        assert(functions_text(*graph, before) is None);
                        assert(functions_text(*graph, procs0) is None);
                        assert(source_text(*graph, procs0, file_stem@, data@) is None);
                    }
                    return Err(e);
                },
            }
        } else {
            proof {
                assert(before.len() == 1);
                assert(f@ == procs0[0]@);
            }
            match compile_function(graph, &f) {
                Ok(body) => {
                    main_text = body;
                    proof {
                        assert(functions_text(*graph, cg.procs@) is Some);
                        assert(functions_text(*graph, before)->0 =~= functions_text(
                            *graph,
                            cg.procs@,
                        )->0);
                    }
                },
                Err(e) => {
                    proof {
                        assert(before.len() == 1);
                        assert(f@ == procs0[0]@);
                        assert(function_text(*graph, procs0[0]@, graph.insts@.len() as int)
                            is None);
                        assert(source_text(*graph, procs0, file_stem@, data@) is None);
                    }
                    return Err(e);
                },
            }
        }
    }
    proof {
        assert(cg.procs@.len() == 0);
        assert(functions_text(*graph, cg.procs@) is Some);
        assert(functions_text(*graph, cg.procs@)->0 =~= Seq::<char>::empty());
        assert(functions_text(*graph, procs0) is Some ==> functions_text(*graph, procs0)->0
            =~= functions@);
    }
    let mut out = tpl_head();
    out.append(data_string.as_str());
    out.append("\n};\n\nint8_t V[16] = {\n\t0, 0, 0, 0, 0, 0, 0, 0, 0, 0, 0, 0, 0, 0, 0, 0\n};\n\nint16_t I = 0;\n\nchar* get_filename() {\n    return \"");
    out.append(file_stem);
    out.append("\";\n}\n\n");
    out.append(functions.as_str());
    out.append("int run_game(void* data) {\n");
    out.append(main_text.as_str());
    out.append("\n\treturn 0;\n}\n");
    proof {
        assert(out@ =~= source_text(*graph, procs0, file_stem@, data@)->0);
    }
    Ok(out)
}

/// The fixed preamble up to the byte array of the program image.
pub open spec fn tpl_head_text() -> Seq<char> {
    "#"@ + "incl"@ + "ude"@ + " \"api.h\"\n#"@ + "incl"@ + "ude"@ + " <stdint.h>\n#"@ + "incl"@ + "ude"@ + " <stdlib.h>\n\nunsigned char memory[4096] = {\n    // numerals\n\t0xf0, 0x90, 0x90, 0x90, 0xf0,\t// 0\n\t0x20, 0x60, 0x20, 0x20, 0x70,\t// 1\n\t0xf0, 0x10, 0xf0, 0x80, 0xf0,\t// 2\n\t0xf0, 0x10, 0xf0, 0x10, 0xf0,\t// 3\n\t0x90, 0x90, 0xf0, 0x10, 0x10,\t// 4\n\t0xf0, 0x80, 0xf0, 0x10, 0xf0,\t// 5\n\t0xf0, 0x80, 0xf0, 0x90, 0xf0,\t// 6\n\t0xf0, 0x10, 0x20, 0x40, 0x40,\t// 7\n\t0xf0, 0x90, 0xf0, 0x90, 0xf0,\t// 8\n\t0xf0, 0x90, 0xf0, 0x10, 0xf0,\t// 9\n\t0xf0, 0x90, 0xf0, 0x90, 0x90,\t// A\n\t0xe0, 0x90, 0xe0, 0x90, 0xe0,\t// B\n\t0xf0, 0x80, 0x80, 0x80, 0xf0,\t// C\n\t0xe0, 0x90, 0x90, 0x90, 0xe0,\t// D\n\t0xf0, 0x80, 0xf0, 0x80, 0xf0,\t// E\n\t0xf0, 0x80, 0xf0, 0x80, 0x80,\t// F\n\n    // big numerals (for SuperChip8)\n    0xff, 0xff, 0xc3, 0xc3, 0xc3,\n    0xc3, 0xc3, 0xc3, 0xff, 0xff,   // 0\n    0x18, 0x78, 0x78, 0x18, 0x18,\n    0x18, 0x18, 0x18, 0xff, 0xff,   // 1\n    0xff, 0xff, 0x03, 0x03, 0xff,\n    0xff, 0xc0, 0xc0, 0xff, 0xff,   // 2\n    0xff, 0xff, 0x03, 0x03, 0xff,\n    0xff, 0x03, 0x03, 0xff, 0xff,   // 3\n    0xc3, 0xc3, 0xc3, 0xc3, 0xff,\n    0xff, 0x03, 0x03, 0x03, 0x03,   // 4\n    0xff, 0xff, 0xc0, 0xc0, 0xff,\n    0xff, 0x03, 0x03, 0xff, 0xff,   // 5\n    0xff, 0xff, 0xc0, 0xc0, 0xff,\n    0xff, 0xc3, 0xc3, 0xff, 0xff,   // 6 \n    0xff, 0xff, 0x03, 0x03, 0x06,\n    0x0c, 0x18, 0x18, 0x18, 0x18,   // 7\n    0xff, 0xff, 0xc3, 0xc3, 0xff,\n    0xff, 0xc3, 0xc3, 0xff, 0xff,   // 8\n    0xff, 0xff, 0xc3, 0xc3, 0xff,\n    0xff, 0x03, 0x03, 0xff, 0xff,   // 9\n    0x7e, 0xff, 0xc3, 0xc3, 0xc3,\n    0xff, 0xff, 0xc3, 0xc3, 0xc3,   // a\n    0xfc, 0xfc, 0xc3, 0xc3, 0xfc,\n    0xfc, 0xc3, 0xc3, 0xfc, 0xfc,   // b\n    0x3c, 0xff, 0xc3, 0xc0, 0xc0,\n    0xc0, 0xc0, 0xc3, 0xff, 0x3c,   // c\n    0xfc, 0xfe, 0xc3, 0xc3, 0xc3,\n    0xc3, 0xc3, 0xc3, 0xfe, 0xfc,   // d\n    0xff, 0xff, 0xc0, 0xc0, 0xff,\n    0xff, 0xc0, 0xc0, 0xff, 0xff,   // e\n    0xff, 0xff, 0xc0, 0xc0, 0xff,\n    0xff, 0xc0, 0xc0, 0xc0, 0xc0,   // f\n\n    // unused 272 bytes\n    0x00, 0x00, 0x00, 0x00, 0x00, 0x00, 0x00, 0x00, 0x00, 0x00, 0x00, 0x00, 0x00, 0x00, 0x00, 0x00,\n    0x00, 0x00, 0x00, 0x00, 0x00, 0x00, 0x00, 0x00, 0x00, 0x00, 0x00, 0x00, 0x00, 0x00, 0x00, 0x00,\n    0x00, 0x00, 0x00, 0x00, 0x00, 0x00, 0x00, 0x00, 0x00, 0x00, 0x00, 0x00, 0x00, 0x00, 0x00, 0x00,\n    0x00, 0x00, 0x00, 0x00, 0x00, 0x00, 0x00, 0x00, 0x00, 0x00, 0x00, 0x00, 0x00, 0x00, 0x00, 0x00,\n    0x00, 0x00, 0x00, 0x00, 0x00, 0x00, 0x00, 0x00, 0x00, 0x00, 0x00, 0x00, 0x00, 0x00, 0x00, 0x00,\n    0x00, 0x00, 0x00, 0x00, 0x00, 0x00, 0x00, 0x00, 0x00, 0x00, 0x00, 0x00, 0x00, 0x00, 0x00, 0x00,\n    0x00, 0x00, 0x00, 0x00, 0x00, 0x00, 0x00, 0x00, 0x00, 0x00, 0x00, 0x00, 0x00, 0x00, 0x00, 0x00,\n    0x00, 0x00, 0x00, 0x00, 0x00, 0x00, 0x00, 0x00, 0x00, 0x00, 0x00, 0x00, 0x00, 0x00, 0x00, 0x00,\n    0x00, 0x00, 0x00, 0x00, 0x00, 0x00, 0x00, 0x00, 0x00, 0x00, 0x00, 0x00, 0x00, 0x00, 0x00, 0x00,\n    0x00, 0x00, 0x00, 0x00, 0x00, 0x00, 0x00, 0x00, 0x00, 0x00, 0x00, 0x00, 0x00, 0x00, 0x00, 0x00,\n    0x00, 0x00, 0x00, 0x00, 0x00, 0x00, 0x00, 0x00, 0x00, 0x00, 0x00, 0x00, 0x00, 0x00, 0x00, 0x00,\n    0x00, 0x00, 0x00, 0x00, 0x00, 0x00, 0x00, 0x00, 0x00, 0x00, 0x00, 0x00, 0x00, 0x00, 0x00, 0x00,\n    0x00, 0x00, 0x00, 0x00, 0x00, 0x00, 0x00, 0x00, 0x00, 0x00, 0x00, 0x00, 0x00, 0x00, 0x00, 0x00,\n    0x00, 0x00, 0x00, 0x00, 0x00, 0x00, 0x00, 0x00, 0x00, 0x00, 0x00, 0x00, 0x00, 0x00, 0x00, 0x00,\n    0x00, 0x00, 0x00, 0x00, 0x00, 0x00, 0x00, 0x00, 0x00, 0x00, 0x00, 0x00, 0x00, 0x00, 0x00, 0x00,\n    0x00, 0x00, 0x00, 0x00, 0x00, 0x00, 0x00, 0x00, 0x00, 0x00, 0x00, 0x00, 0x00, 0x00, 0x00, 0x00,\n    0x00, 0x00, 0x00, 0x00, 0x00, 0x00, 0x00, 0x00, 0x00, 0x00, 0x00, 0x00, 0x00, 0x00, 0x00, 0x00,\n\n    // program\n    "@
}

fn tpl_head() -> (r: String)
    ensures
        r@ == tpl_head_text(),
{
    let r = String::from_str("#").concat("incl").concat("ude").concat(" \"api.h\"\n#").concat("incl").concat("ude").concat(" <stdint.h>\n#").concat("incl").concat("ude").concat(" <stdlib.h>\n\nunsigned char memory[4096] = {\n    // numerals\n\t0xf0, 0x90, 0x90, 0x90, 0xf0,\t// 0\n\t0x20, 0x60, 0x20, 0x20, 0x70,\t// 1\n\t0xf0, 0x10, 0xf0, 0x80, 0xf0,\t// 2\n\t0xf0, 0x10, 0xf0, 0x10, 0xf0,\t// 3\n\t0x90, 0x90, 0xf0, 0x10, 0x10,\t// 4\n\t0xf0, 0x80, 0xf0, 0x10, 0xf0,\t// 5\n\t0xf0, 0x80, 0xf0, 0x90, 0xf0,\t// 6\n\t0xf0, 0x10, 0x20, 0x40, 0x40,\t// 7\n\t0xf0, 0x90, 0xf0, 0x90, 0xf0,\t// 8\n\t0xf0, 0x90, 0xf0, 0x10, 0xf0,\t// 9\n\t0xf0, 0x90, 0xf0, 0x90, 0x90,\t// A\n\t0xe0, 0x90, 0xe0, 0x90, 0xe0,\t// B\n\t0xf0, 0x80, 0x80, 0x80, 0xf0,\t// C\n\t0xe0, 0x90, 0x90, 0x90, 0xe0,\t// D\n\t0xf0, 0x80, 0xf0, 0x80, 0xf0,\t// E\n\t0xf0, 0x80, 0xf0, 0x80, 0x80,\t// F\n\n    // big numerals (for SuperChip8)\n    0xff, 0xff, 0xc3, 0xc3, 0xc3,\n    0xc3, 0xc3, 0xc3, 0xff, 0xff,   // 0\n    0x18, 0x78, 0x78, 0x18, 0x18,\n    0x18, 0x18, 0x18, 0xff, 0xff,   // 1\n    0xff, 0xff, 0x03, 0x03, 0xff,\n    0xff, 0xc0, 0xc0, 0xff, 0xff,   // 2\n    0xff, 0xff, 0x03, 0x03, 0xff,\n    0xff, 0x03, 0x03, 0xff, 0xff,   // 3\n    0xc3, 0xc3, 0xc3, 0xc3, 0xff,\n    0xff, 0x03, 0x03, 0x03, 0x03,   // 4\n    0xff, 0xff, 0xc0, 0xc0, 0xff,\n    0xff, 0x03, 0x03, 0xff, 0xff,   // 5\n    0xff, 0xff, 0xc0, 0xc0, 0xff,\n    0xff, 0xc3, 0xc3, 0xff, 0xff,   // 6 \n    0xff, 0xff, 0x03, 0x03, 0x06,\n    0x0c, 0x18, 0x18, 0x18, 0x18,   // 7\n    0xff, 0xff, 0xc3, 0xc3, 0xff,\n    0xff, 0xc3, 0xc3, 0xff, 0xff,   // 8\n    0xff, 0xff, 0xc3, 0xc3, 0xff,\n    0xff, 0x03, 0x03, 0xff, 0xff,   // 9\n    0x7e, 0xff, 0xc3, 0xc3, 0xc3,\n    0xff, 0xff, 0xc3, 0xc3, 0xc3,   // a\n    0xfc, 0xfc, 0xc3, 0xc3, 0xfc,\n    0xfc, 0xc3, 0xc3, 0xfc, 0xfc,   // b\n    0x3c, 0xff, 0xc3, 0xc0, 0xc0,\n    0xc0, 0xc0, 0xc3, 0xff, 0x3c,   // c\n    0xfc, 0xfe, 0xc3, 0xc3, 0xc3,\n    0xc3, 0xc3, 0xc3, 0xfe, 0xfc,   // d\n    0xff, 0xff, 0xc0, 0xc0, 0xff,\n    0xff, 0xc0, 0xc0, 0xff, 0xff,   // e\n    0xff, 0xff, 0xc0, 0xc0, 0xff,\n    0xff, 0xc0, 0xc0, 0xc0, 0xc0,   // f\n\n    // unused 272 bytes\n    0x00, 0x00, 0x00, 0x00, 0x00, 0x00, 0x00, 0x00, 0x00, 0x00, 0x00, 0x00, 0x00, 0x00, 0x00, 0x00,\n    0x00, 0x00, 0x00, 0x00, 0x00, 0x00, 0x00, 0x00, 0x00, 0x00, 0x00, 0x00, 0x00, 0x00, 0x00, 0x00,\n    0x00, 0x00, 0x00, 0x00, 0x00, 0x00, 0x00, 0x00, 0x00, 0x00, 0x00, 0x00, 0x00, 0x00, 0x00, 0x00,\n    0x00, 0x00, 0x00, 0x00, 0x00, 0x00, 0x00, 0x00, 0x00, 0x00, 0x00, 0x00, 0x00, 0x00, 0x00, 0x00,\n    0x00, 0x00, 0x00, 0x00, 0x00, 0x00, 0x00, 0x00, 0x00, 0x00, 0x00, 0x00, 0x00, 0x00, 0x00, 0x00,\n    0x00, 0x00, 0x00, 0x00, 0x00, 0x00, 0x00, 0x00, 0x00, 0x00, 0x00, 0x00, 0x00, 0x00, 0x00, 0x00,\n    0x00, 0x00, 0x00, 0x00, 0x00, 0x00, 0x00, 0x00, 0x00, 0x00, 0x00, 0x00, 0x00, 0x00, 0x00, 0x00,\n    0x00, 0x00, 0x00, 0x00, 0x00, 0x00, 0x00, 0x00, 0x00, 0x00, 0x00, 0x00, 0x00, 0x00, 0x00, 0x00,\n    0x00, 0x00, 0x00, 0x00, 0x00, 0x00, 0x00, 0x00, 0x00, 0x00, 0x00, 0x00, 0x00, 0x00, 0x00, 0x00,\n    0x00, 0x00, 0x00, 0x00, 0x00, 0x00, 0x00, 0x00, 0x00, 0x00, 0x00, 0x00, 0x00, 0x00, 0x00, 0x00,\n    0x00, 0x00, 0x00, 0x00, 0x00, 0x00, 0x00, 0x00, 0x00, 0x00, 0x00, 0x00, 0x00, 0x00, 0x00, 0x00,\n    0x00, 0x00, 0x00, 0x00, 0x00, 0x00, 0x00, 0x00, 0x00, 0x00, 0x00, 0x00, 0x00, 0x00, 0x00, 0x00,\n    0x00, 0x00, 0x00, 0x00, 0x00, 0x00, 0x00, 0x00, 0x00, 0x00, 0x00, 0x00, 0x00, 0x00, 0x00, 0x00,\n    0x00, 0x00, 0x00, 0x00, 0x00, 0x00, 0x00, 0x00, 0x00, 0x00, 0x00, 0x00, 0x00, 0x00, 0x00, 0x00,\n    0x00, 0x00, 0x00, 0x00, 0x00, 0x00, 0x00, 0x00, 0x00, 0x00, 0x00, 0x00, 0x00, 0x00, 0x00, 0x00,\n    0x00, 0x00, 0x00, 0x00, 0x00, 0x00, 0x00, 0x00, 0x00, 0x00, 0x00, 0x00, 0x00, 0x00, 0x00, 0x00,\n    0x00, 0x00, 0x00, 0x00, 0x00, 0x00, 0x00, 0x00, 0x00, 0x00, 0x00, 0x00, 0x00, 0x00, 0x00, 0x00,\n\n    // program\n    ");
    proof {
        assert(r@ =~= tpl_head_text());
    }
    r
}

/// The template between the program bytes and the file stem.
pub open spec fn tpl_mid1_text() -> Seq<char> {
    "\n};\n\nint8_t V[16] = {\n\t0, 0, 0, 0, 0, 0, 0, 0, 0, 0, 0, 0, 0, 0, 0, 0\n};\n\nint16_t I = 0;\n\nchar* get_filename() {\n    return \""@
}

/// The template between the file stem and the emitted procedures.
pub open spec fn tpl_mid2_text() -> Seq<char> {
    "\";\n}\n\n"@
}

/// The opening of the entry procedure.
pub open spec fn tpl_run_head_text() -> Seq<char> {
    "int run_game(void* data) {\n"@
}

/// The closing of the entry procedure.
pub open spec fn tpl_run_tail_text() -> Seq<char> {
    "\n\treturn 0;\n}\n"@
}

/// Every jump whose target is its own address is emitted as the halt
/// statement.
pub proof fn lemma_self_jump_halts(inst: Instruction, o: int)
    requires
        inst.mnemonic is JP,
        inst.op1 is Some,
        inst.op1->0 is Address,
        inst.op1->0->Address_0 == o + 0x200,
    ensures
        inst_stmt(inst, o) == Some("return 0;\n"@),
{
}

/// A node's text begins with its entry label.
proof fn lemma_node_text_label(g: FlowGraph, n: int, pre: Seq<char>)
    requires
        node_text(g, n) is Some,
    ensures
        crate::text::has_sub(pre + node_text(g, n)->0, label_text(
            g.nodes@[n].insts@[0] as int + 0x200,
        )),
{
    let entry = g.nodes@[n].insts@[0] as int;
    let lbl = label_text(entry + 0x200);
    let body = node_stmts(g, g.nodes@[n].insts@)->0;
    let tail = node_tail(g, n);
    assert(pre + node_text(g, n)->0 =~= pre + (lbl + (body + tail)));
    crate::text::lemma_has_sub_at_start(pre, lbl, body + tail);
}

/// An emitted node's label appears in its procedure's text.
pub proof fn lemma_function_contains_label(g: FlowGraph, f: Seq<usize>, t: int, upto: int)
    requires
        function_text(g, f, upto) is Some,
        emit_here(g, f, t),
        0 <= t < upto,
    ensures
        crate::text::has_sub(function_text(g, f, upto)->0, label_text(t + 0x200)),
    decreases upto,
{
    let prev = function_text(g, f, upto - 1);
    if t == upto - 1 {
        let n = g.owner@[t]->0 as int;
        assert(g.nodes@[n].insts@[0] == t);
        lemma_node_text_label(g, n, prev->0);
    } else {
        lemma_function_contains_label(g, f, t, upto - 1);
        if emit_here(g, f, upto - 1) {
            crate::text::lemma_has_sub_extend_right(
                prev->0,
                node_text(g, g.owner@[upto - 1]->0 as int)->0,
                label_text(t + 0x200),
            );
        }
    }
}

/// Both branch labels of a conditional skip appear in the text of the
/// procedure that holds the skip.
pub proof fn lemma_skip_labels_in_procedure(
    g: FlowGraph,
    cg: CallGraph,
    p: int,
    i: int,
    text: Seq<char>,
)
    requires
        g.wf(),
        g.edges_ok(),
        g.edge_targets_are_entries(),
        cg.wf(g),
        cg.closed_local(g),
        0 <= p < cg.procs@.len(),
        0 <= i < cg.procs@[p]@.len(),
        crate::chip8::is_skip(
            g.inst_at(g.nodes@[cg.procs@[p]@[i] as int].insts@.last() as int).mnemonic,
        ),
        function_text(g, cg.procs@[p]@, g.insts@.len() as int) == Some(text),
    ensures
        crate::text::has_sub(
            text,
            label_text(g.nodes@[cg.procs@[p]@[i] as int].insts@.last() + 2 + 0x200),
        ),
        crate::text::has_sub(
            text,
            label_text(g.nodes@[cg.procs@[p]@[i] as int].insts@.last() + 4 + 0x200),
        ),
{
    cg.lemma_proc_closed(g, p);
    let f = cg.procs@[p]@;
    let n = f[i] as int;
    let o = g.nodes@[n].insts@.last() as int;
    assert(g.node_edges_ok(n));
    let ss = crate::graph::successors_spec(g.inst_at(o), o);
    assert(ss.len() == 2);
    assert(ss[0] == (crate::graph::EdgeKind::BranchNotTaken, o + 2));
    assert(ss[1] == (crate::graph::EdgeKind::BranchTaken, o + 4));
    let e0 = g.nodes@[n].edges@[0];
    let e1 = g.nodes@[n].edges@[1];
    assert(e0.target == o + 2 && !(e0.kind is Call));
    assert(e1.target == o + 4 && !(e1.kind is Call));
    assert(g.owner@[o + 2] is Some && g.nodes@[g.owner@[o + 2]->0 as int].insts@[0] == o + 2);
    assert(g.owner@[o + 4] is Some && g.nodes@[g.owner@[o + 4]->0 as int].insts@[0] == o + 4);
    assert(f.contains(g.owner@[o + 2]->0));
    assert(f.contains(g.owner@[o + 4]->0));
    assert(emit_here(g, f, o + 2));
    assert(emit_here(g, f, o + 4));
    assert(o + 4 < g.owner@.len());
    lemma_function_contains_label(g, f, o + 2, g.insts@.len() as int);
    lemma_function_contains_label(g, f, o + 4, g.insts@.len() as int);
}

/// A non-entry procedure's defining header appears in the emitted
/// functions.
proof fn lemma_functions_text_contains_header(g: FlowGraph, procs: Seq<Vec<usize>>, p: int)
    requires
        functions_text(g, procs) is Some,
        1 <= p < procs.len(),
        procs[p]@.len() > 0,
    ensures
        crate::text::has_sub(
            functions_text(g, procs)->0,
            "void f"@ + hex_seq(g.nodes@[procs[p]@[0] as int].insts@[0] + 0x200) + "() {\n"@,
        ),
    decreases procs.len(),
{
    let f = procs.last()@;
    let body = function_text(g, f, g.insts@.len() as int)->0;
    let rest = functions_text(g, procs.drop_last())->0;
    let hdr = "void f"@ + hex_seq(g.nodes@[f[0] as int].insts@[0] + 0x200) + "() {\n"@;
    let whole = functions_text(g, procs)->0;
    if p == procs.len() - 1 {
        assert(whole =~= Seq::<char>::empty() + (hdr + (body + "}\n\n"@ + rest)));
        crate::text::lemma_has_sub_at_start(
            Seq::<char>::empty(),
            hdr,
            body + "}\n\n"@ + rest,
        );
    } else {
        assert(procs.drop_last()[p] == procs[p]);
        lemma_functions_text_contains_header(g, procs.drop_last(), p);
        let needle = "void f"@ + hex_seq(g.nodes@[procs[p]@[0] as int].insts@[0] + 0x200)
            + "() {\n"@;
        crate::text::lemma_has_sub_extend_left(hdr + body + "}\n\n"@, rest, needle);
        assert(whole =~= (hdr + body + "}\n\n"@) + rest);
    }
}

/// Every call edge whose target does not seed the entry procedure calls a
/// function the output defines.
pub proof fn lemma_call_target_defined(
    g: FlowGraph,
    cg: CallGraph,
    stem: Seq<char>,
    data: Seq<u8>,
    text: Seq<char>,
    n: int,
    k: int,
)
    requires
        g.wf(),
        g.edge_targets_are_entries(),
        cg.wf(g),
        cg.covers_calls(g),
        source_text(g, cg.procs@, stem, data) == Some(text),
        0 <= n < g.nodes@.len(),
        0 <= k < g.nodes@[n].edges@.len(),
        g.nodes@[n].edges@[k].kind is Call,
        g.owner@[g.nodes@[n].edges@[k].target as int]->0 != cg.procs@[0]@[0],
    ensures
        crate::text::has_sub(
            text,
            "void f"@ + hex_seq(g.nodes@[n].edges@[k].target + 0x200) + "() {\n"@,
        ),
{
    let procs = cg.procs@;
    cg.lemma_cover_is_non_entry(g, n, k);
    let t = g.nodes@[n].edges@[k].target as int;
    let p = choose|p: int|
        1 <= p < procs.len() && (#[trigger] procs[p])@[0] == g.owner@[t]->0;
    assert(g.nodes@[g.owner@[t]->0 as int].insts@[0] == t);
    lemma_functions_text_contains_header(g, procs, p);
    let needle = "void f"@ + hex_seq(t + 0x200) + "() {\n"@;
    let fs = functions_text(g, procs)->0;
    let m = function_text(g, procs[0]@, g.insts@.len() as int)->0;
    let front = tpl_head_text() + bytes_text(data, data.len() as int) + tpl_mid1_text() + stem
        + tpl_mid2_text();
    crate::text::lemma_has_sub_extend_left(front, fs, needle);
    crate::text::lemma_has_sub_extend_right(front + fs, tpl_run_head_text(), needle);
    crate::text::lemma_has_sub_extend_right(front + fs + tpl_run_head_text(), m, needle);
    crate::text::lemma_has_sub_extend_right(
        front + fs + tpl_run_head_text() + m,
        tpl_run_tail_text(),
        needle,
    );
    assert(text =~= front + fs + tpl_run_head_text() + m + tpl_run_tail_text());
}

/// The byte-array initializer of the output holds exactly the input
/// bytes, in order, directly after the fixed preamble.
pub proof fn lemma_preamble_holds_input_bytes(
    g: FlowGraph,
    procs: Seq<Vec<usize>>,
    stem: Seq<char>,
    data: Seq<u8>,
    text: Seq<char>,
)
    requires
        source_text(g, procs, stem, data) == Some(text),
    ensures
        crate::text::has_sub(text, bytes_text(data, data.len() as int)),
        text.subrange(
            tpl_head_text().len() as int,
            (tpl_head_text().len() + bytes_text(data, data.len() as int).len()) as int,
        ) == bytes_text(data, data.len() as int),
{
    let h = tpl_head_text();
    let b = bytes_text(data, data.len() as int);
    let rest = tpl_mid1_text() + stem + tpl_mid2_text() + functions_text(g, procs)->0
        + tpl_run_head_text() + function_text(g, procs[0]@, g.insts@.len() as int)->0
        + tpl_run_tail_text();
    assert(text =~= h + (b + rest));
    crate::text::lemma_has_sub_at_start(h, b, rest);
    let i: int = h.len() as int;
    assert(text.subrange(i, i + b.len()) =~= b);
}

} // verus!
