//! The intermediate representation: numbered instructions, and the rule
//! that a program is framed by ENTER and HALT.
use vstd::prelude::*;
use crate::abjad::{AbjadOp, Entry};

verus! {

/// An IR instruction: the operation, its optional operand label and its
/// position in the program.
#[derive(Debug, Clone)]
pub struct Instruction {
    pub op: AbjadOp,
    pub operand: Option<String>,
    pub index: usize,
}

/// Lowers a token stream into an IR program: each token keeps its
/// operation and operand and is numbered by its position.
pub fn lower(tokens: Vec<Entry>) -> (res: Vec<Instruction>)
    ensures
        res@.len() == tokens@.len(),
        forall|i: int|
            0 <= i < res@.len() ==> #[trigger] res@[i] == (Instruction {
                op: tokens@[i].0,
                operand: tokens@[i].1,
                index: i as usize,
            }),
{
    let ghost toks = tokens@;
    let mut out: Vec<Instruction> = Vec::new();
    for tok in it: tokens.into_iter()
        invariant
            it.seq() == toks,
            out@.len() == it.index(),
            forall|j: int|
                0 <= j < out@.len() ==> #[trigger] out@[j] == (Instruction {
                    op: toks[j].0,
                    operand: toks[j].1,
                    index: j as usize,
                }),
    {
        let index = out.len();
        let (op, operand) = tok;
        out.push(Instruction { op, operand, index });
    }
    out
}

/// The name by which an operation is shown in a validation message.
pub open spec fn display_name(op: AbjadOp) -> Seq<char> {
    match op {
        AbjadOp::Load => seq!['L', 'o', 'a', 'd'],
        AbjadOp::Store => seq!['S', 't', 'o', 'r', 'e'],
        AbjadOp::Compare => seq!['C', 'o', 'm', 'p', 'a', 'r', 'e'],
        AbjadOp::Branch => seq!['B', 'r', 'a', 'n', 'c', 'h'],
        AbjadOp::Enter => seq!['E', 'n', 't', 'e', 'r'],
        AbjadOp::Freeze => seq!['F', 'r', 'e', 'e', 'z', 'e'],
        AbjadOp::Signal => seq!['S', 'i', 'g', 'n', 'a', 'l'],
        AbjadOp::Halt => seq!['H', 'a', 'l', 't'],
    }
}

fn op_name(op: AbjadOp) -> (res: &'static str)
    ensures
        res@ == display_name(op),
{
    match op {
        AbjadOp::Load => {
            proof { reveal_strlit("Load"); }
            "Load"
        },
        AbjadOp::Store => {
            proof { reveal_strlit("Store"); }
            "Store"
        },
        AbjadOp::Compare => {
            proof { reveal_strlit("Compare"); }
            "Compare"
        },
        AbjadOp::Branch => {
            proof { reveal_strlit("Branch"); }
            "Branch"
        },
        AbjadOp::Enter => {
            proof { reveal_strlit("Enter"); }
            "Enter"
        },
        AbjadOp::Freeze => {
            proof { reveal_strlit("Freeze"); }
            "Freeze"
        },
        AbjadOp::Signal => {
            proof { reveal_strlit("Signal"); }
            "Signal"
        },
        AbjadOp::Halt => {
            proof { reveal_strlit("Halt"); }
            "Halt"
        },
    }
}

/// The operations of a program, in order.
pub open spec fn ops_of(program: Seq<Instruction>) -> Seq<AbjadOp> {
    program.map_values(|i: Instruction| i.op)
}

/// The message of the first framing rule that a program breaks: it must be
/// non-empty, begin with ENTER and end with HALT; `None` when it keeps them.
pub open spec fn validation_error(ops: Seq<AbjadOp>) -> Option<Seq<char>> {
    if ops.len() == 0 {
        Some("empty program"@)
    } else if ops[0] != AbjadOp::Enter {
        Some("program must begin with ENTER, got "@ + display_name(ops[0]))
    } else if ops.last() != AbjadOp::Halt {
        Some("program must end with HALT"@)
    } else {
        None
    }
}

/// Validates the IR: it must start with ENTER and end with HALT.
pub fn validate(program: &[Instruction]) -> (res: Result<(), String>)
    ensures
        match res {
            Ok(()) => validation_error(ops_of(program@)) is None,
            Err(msg) => validation_error(ops_of(program@)) == Some(msg@),
        },
        res is Ok <==> (program@.len() > 0 && program@[0].op == AbjadOp::Enter && program@[program@.len()
            - 1].op == AbjadOp::Halt),
        (program@.len() > 0 && program@[0].op == AbjadOp::Enter && program@[program@.len() - 1].op
            != AbjadOp::Halt) ==> (res matches Err(m) && m@ == "program must end with HALT"@),
{
    proof {
        let ops = ops_of(program@);
        lemma_validation_frames(ops);
        if program@.len() > 0 {
            assert(ops[0] == program@[0].op);
            assert(ops.last() == program@[program@.len() - 1].op);
        }
    }
    if program.len() == 0 {
        return Err("empty program".to_owned());
    }
    let first = program[0].op;
    if !matches!(first, AbjadOp::Enter) {
        let mut msg = "program must begin with ENTER, got ".to_owned();
        msg.append(op_name(first));
        return Err(msg);
    }
    let last = program[program.len() - 1].op;
    if !matches!(last, AbjadOp::Halt) {
        return Err("program must end with HALT".to_owned());
    }
    Ok(())
}

/// A program passes validation exactly when it is non-empty, its first
/// operation is ENTER and its last is HALT. One that begins with ENTER and
/// ends with anything else is refused with "program must end with HALT",
/// so an operation other than HALT put after a valid program makes it
/// invalid, with that message.
pub proof fn lemma_validation_frames(ops: Seq<AbjadOp>)
    ensures
        validation_error(ops) is None <==> (ops.len() > 0 && ops[0] == AbjadOp::Enter && ops.last()
            == AbjadOp::Halt),
        (ops.len() > 0 && ops[0] == AbjadOp::Enter && ops.last() != AbjadOp::Halt) ==> validation_error(ops)
            == Some("program must end with HALT"@),
        forall|op: AbjadOp|
            validation_error(ops) is None && op != AbjadOp::Halt ==> #[trigger] validation_error(
                ops.push(op),
            ) == Some("program must end with HALT"@),
{
    assert forall|op: AbjadOp|
        validation_error(ops) is None && op != AbjadOp::Halt implies #[trigger] validation_error(
            ops.push(op),
        ) == Some("program must end with HALT"@) by {
        assert(ops.push(op)[0] == ops[0]);
        assert(ops.push(op).last() == op);
    }
}

} // verus!
