//! The front half of the pipeline as one call: a `.rasm` source checked
//! (Abjad, then IR validation) or compiled (Abjad, IR, bytecode listing).
use vstd::prelude::*;
use crate::abjad::{parse_program, program_of, AbjadOp, EntryView};
use crate::assembler::{assemble, binary_word, disassemble, join_spaced, opcode_of, ByteWord};
use crate::ir::{lemma_validation_frames, lower, ops_of, validate, validation_error};

verus! {

/// The operations of a parsed program.
pub open spec fn entry_ops(entries: Seq<EntryView>) -> Seq<crate::abjad::AbjadOp> {
    entries.map_values(|e: EntryView| e.0)
}

/// The report on a source: `ok` when its IR is valid, else the validation
/// message as an error string.
pub open spec fn check_report(src: Seq<char>) -> Seq<char> {
    match validation_error(entry_ops(program_of(src))) {
        None => "ok"@,
        Some(msg) => "✗ "@ + msg,
    }
}

/// The binary listing of a source's bytecode.
pub open spec fn compile_listing(src: Seq<char>) -> Seq<char> {
    join_spaced(
        program_of(src).map_values(|e: EntryView| binary_word(opcode_of(e.0))),
    )
}

/// Validates a `.rasm` source: parses it, lowers it to IR and checks the
/// IR; returns `ok`, or an error string that carries the validation
/// message.
pub fn check_program(src: &str) -> (res: String)
    ensures
        res@ == check_report(src@),
        res@ == "ok"@ <==> (entry_ops(program_of(src@)).len() > 0 && entry_ops(program_of(src@))[0]
            == AbjadOp::Enter && entry_ops(program_of(src@)).last() == AbjadOp::Halt),
{
    proof {
        lemma_check_report_ok(src@);
    }
    let tokens = parse_program(src);
    let ir = lower(tokens);
    assert(ops_of(ir@) =~= entry_ops(program_of(src@)));
    match validate(ir.as_slice()) {
        Ok(()) => "ok".to_owned(),
        Err(msg) => {
            let mut out = "✗ ".to_owned();
            out.append(msg.as_str());
            out
        },
    }
}

/// Compiles a `.rasm` source to its binary bytecode listing (without
/// validating it).
pub fn compile_program(src: &str) -> (res: String)
    ensures
        res@ == compile_listing(src@),
{
    let tokens = parse_program(src);
    let ir = lower(tokens);
    let bytecode = assemble(ir.as_slice());
    let listed = disassemble(bytecode.as_slice());
    assert(bytecode@.map_values(|w: ByteWord| binary_word(w.opcode)) =~= program_of(
        src@,
    ).map_values(|e: EntryView| binary_word(opcode_of(e.0))));
    listed
}

/// A source is reported `ok` exactly when its instructions are non-empty,
/// begin with ENTER and end with HALT; any other report is an error line
/// starting with `✗ `. A source that begins with ENTER and ends with another
/// instruction is reported as `✗ program must end with HALT`.
pub proof fn lemma_check_report_ok(src: Seq<char>)
    ensures
        check_report(src) == "ok"@ <==> (entry_ops(program_of(src)).len() > 0 && entry_ops(
            program_of(src),
        )[0] == AbjadOp::Enter && entry_ops(program_of(src)).last() == AbjadOp::Halt),
        check_report(src) != "ok"@ ==> check_report(src).len() >= 2 && check_report(src)[0] == '✗'
            && check_report(src)[1] == ' ',
        (entry_ops(program_of(src)).len() > 0 && entry_ops(program_of(src))[0] == AbjadOp::Enter
            && entry_ops(program_of(src)).last() != AbjadOp::Halt) ==> check_report(src)
            == "✗ program must end with HALT"@,
{
    reveal_strlit("ok");
    reveal_strlit("✗ ");
    reveal_strlit("program must end with HALT");
    reveal_strlit("✗ program must end with HALT");
    let ops = entry_ops(program_of(src));
    lemma_validation_frames(ops);
    if let Some(msg) = validation_error(ops) {
        let r = "✗ "@ + msg;
        assert(r[0] == '✗');
        assert(r[1] == ' ');
        assert(r != "ok"@);
        assert(("✗ "@ + "program must end with HALT"@) =~= "✗ program must end with HALT"@);
    }
}

} // verus!
