//! The decision core of the resonance virtual machine: which instruction a
//! bytecode word is, whether the entropy gate lets it run, and how the
//! machine's control state changes. The machine's real-valued registers
//! (trust, entropy, resonance) are kept by the caller, who carries out the
//! register work that each step asks for.
use vstd::prelude::*;
use crate::abjad::AbjadOp;
use crate::assembler::{opcode_of, ByteWord};

verus! {

/// The outcome of a single step.
#[derive(Debug, Clone, Copy, PartialEq, Eq, Structural)]
pub enum StepResult {
    Continue,
    SignalEmitted,
    Halted,
    EntropyViolation,
}

/// The register work that a step asks the caller to carry out.
#[derive(Debug, Clone, Copy, PartialEq, Eq, Structural)]
pub enum RegisterWork {
    /// Nothing to do.
    Idle,
    /// LOAD: bring the `trust_vector` register into the active trust value.
    LoadTrust,
    /// STORE: write the active trust value into the `trust_vector` register.
    StoreTrust,
    /// BRANCH after a failed compare: raise entropy and decay trust.
    Degrade,
    /// SIGNAL: strengthen the resonance field.
    Pulse,
}

/// The control state of the machine.
#[derive(Debug, Clone, Copy, PartialEq, Eq, Structural)]
pub struct VmControl {
    pub halted: bool,
    pub scope_depth: u32,
    pub signal_count: u32,
    pub frozen: bool,
    pub last_compare: bool,
    pub cycle: usize,
}

/// The control state of a fresh machine.
pub open spec fn initial_control() -> VmControl {
    VmControl {
        halted: false,
        scope_depth: 0,
        signal_count: 0,
        frozen: false,
        last_compare: false,
        cycle: 0,
    }
}

/// Whether a step on `c` stays within the machine's counters: an executed
/// step counts a cycle, ENTER a scope and SIGNAL a pulse.
pub open spec fn step_fits(c: VmControl, opcode: u8, gate_open: bool) -> bool {
    c.halted || !gate_open || {
        &&& c.cycle < usize::MAX
        &&& opcode == 0b0101 ==> c.scope_depth < u32::MAX
        &&& opcode == 0b0111 ==> c.signal_count < u32::MAX
    }
}

/// One step of the machine on the word with `opcode`, `gate_open` being the
/// entropy gate (entropy below the threshold). A halted machine stays
/// halted; a closed gate blocks the instruction; otherwise the cycle is
/// counted and the instruction runs. LOAD and STORE move trust, and once
/// the machine is frozen STORE writes nothing; COMPARE records the entropy check;
/// BRANCH degrades after a failed compare; ENTER pushes a scope; FREEZE
/// seals; SIGNAL pulses; HALT halts; any other opcode does nothing.
pub open spec fn step_spec(c: VmControl, opcode: u8, gate_open: bool) -> (
    VmControl,
    StepResult,
    RegisterWork,
) {
    if c.halted {
        (c, StepResult::Halted, RegisterWork::Idle)
    } else if !gate_open {
        (c, StepResult::EntropyViolation, RegisterWork::Idle)
    } else {
        let d = VmControl { cycle: (c.cycle + 1) as usize, ..c };
        if opcode == 0b0001 {
            (d, StepResult::Continue, RegisterWork::LoadTrust)
        } else if opcode == 0b0010 {
            (d, StepResult::Continue, if c.frozen { RegisterWork::Idle } else { RegisterWork::StoreTrust })
        } else if opcode == 0b0011 {
            (VmControl { last_compare: gate_open, ..d }, StepResult::Continue, RegisterWork::Idle)
        } else if opcode == 0b0100 {
            (d, StepResult::Continue, if c.last_compare { RegisterWork::Idle } else { RegisterWork::Degrade })
        } else if opcode == 0b0101 {
            (VmControl { scope_depth: (c.scope_depth + 1) as u32, ..d }, StepResult::Continue, RegisterWork::Idle)
        } else if opcode == 0b0110 {
            (VmControl { frozen: true, ..d }, StepResult::Continue, RegisterWork::Idle)
        } else if opcode == 0b0111 {
            (
                VmControl { signal_count: (c.signal_count + 1) as u32, ..d },
                StepResult::SignalEmitted,
                RegisterWork::Pulse,
            )
        } else if opcode == 0b1111 {
            (VmControl { halted: true, ..d }, StepResult::Halted, RegisterWork::Idle)
        } else {
            (d, StepResult::Continue, RegisterWork::Idle)
        }
    }
}

impl VmControl {
    /// A fresh machine: running, no scopes, no signals, not frozen.
    pub fn new() -> (res: Self)
        ensures
            res == initial_control(),
    {
        VmControl {
            halted: false,
            scope_depth: 0,
            signal_count: 0,
            frozen: false,
            last_compare: false,
            cycle: 0,
        }
    }

    /// Executes a single bytecode word, `gate_open` being the entropy gate;
    /// returns the step's outcome and the register work it asks for.
    pub fn step(&mut self, word: &ByteWord, gate_open: bool) -> (res: (StepResult, RegisterWork))
        requires
            step_fits(*old(self), word.opcode, gate_open),
        ensures
            (*final(self), res.0, res.1) == step_spec(*old(self), word.opcode, gate_open),
    {
        if self.halted {
            return (StepResult::Halted, RegisterWork::Idle);
        }
        if !gate_open {
            return (StepResult::EntropyViolation, RegisterWork::Idle);
        }
        self.cycle = self.cycle + 1;
        match word.opcode {
            0b0001 => (StepResult::Continue, RegisterWork::LoadTrust),
            0b0010 => {
                if self.frozen {
                    (StepResult::Continue, RegisterWork::Idle)
                } else {
                    (StepResult::Continue, RegisterWork::StoreTrust)
                }
            },
            0b0011 => {
                self.last_compare = gate_open;
                (StepResult::Continue, RegisterWork::Idle)
            },
            0b0100 => {
                if self.last_compare {
                    (StepResult::Continue, RegisterWork::Idle)
                } else {
                    (StepResult::Continue, RegisterWork::Degrade)
                }
            },
            0b0101 => {
                self.scope_depth = self.scope_depth + 1;
                (StepResult::Continue, RegisterWork::Idle)
            },
            0b0110 => {
                self.frozen = true;
                (StepResult::Continue, RegisterWork::Idle)
            },
            0b0111 => {
                self.signal_count = self.signal_count + 1;
                (StepResult::SignalEmitted, RegisterWork::Pulse)
            },
            0b1111 => {
                self.halted = true;
                (StepResult::Halted, RegisterWork::Idle)
            },
            _ => (StepResult::Continue, RegisterWork::Idle),
        }
    }
}

/// The control state after running the words with `opcodes` under the
/// entropy gates `gates`, one gate per step.
pub open spec fn run_control(c: VmControl, opcodes: Seq<u8>, gates: Seq<bool>) -> VmControl
    decreases opcodes.len(),
{
    if opcodes.len() == 0 || gates.len() == 0 {
        c
    } else {
        run_control(step_spec(c, opcodes[0], gates[0]).0, opcodes.drop_first(), gates.drop_first())
    }
}

/// HALT is final: a halted machine answers every word with `Halted`, asks
/// for no register work and keeps its state, whatever the rest of the run.
pub proof fn lemma_halt_is_final(c: VmControl, opcodes: Seq<u8>, gates: Seq<bool>)
    requires
        c.halted,
    ensures
        opcodes.len() > 0 && gates.len() > 0 ==> step_spec(c, opcodes[0], gates[0]) == (
            c,
            StepResult::Halted,
            RegisterWork::Idle,
        ),
        run_control(c, opcodes, gates) == c,
    decreases opcodes.len(),
{
    if opcodes.len() > 0 && gates.len() > 0 {
        lemma_halt_is_final(c, opcodes.drop_first(), gates.drop_first());
    }
}

/// The entropy gate blocks every instruction of a running machine: the
/// step is refused with `EntropyViolation` and changes nothing.
pub proof fn lemma_closed_gate_blocks(c: VmControl, opcode: u8)
    requires
        !c.halted,
    ensures
        step_spec(c, opcode, false) == (c, StepResult::EntropyViolation, RegisterWork::Idle),
{
}

/// FREEZE is a WORM boundary: once frozen, a machine stays frozen and no
/// step writes a register.
pub proof fn lemma_freeze_is_sealed(c: VmControl, opcode: u8, gate_open: bool)
    requires
        c.frozen,
    ensures
        step_spec(c, opcode, gate_open).0.frozen,
        step_spec(c, opcode, gate_open).2 != RegisterWork::StoreTrust,
{
}

/// A run from a running machine that has emitted no signal ends halted only
/// if its words hold a HALT, and with a signal emitted only if they hold a
/// SIGNAL: a program needs both to earn a valid deed.
pub proof fn lemma_deed_needs_halt_and_signal(c: VmControl, opcodes: Seq<u8>, gates: Seq<bool>)
    requires
        !c.halted,
        c.signal_count == 0,
    ensures
        run_control(c, opcodes, gates).halted ==> opcodes.contains(0b1111),
        run_control(c, opcodes, gates).signal_count > 0 ==> opcodes.contains(0b0111),
{
    lemma_halted_needs_halt(c, opcodes, gates);
    lemma_signalled_needs_signal(c, opcodes, gates);
}

proof fn lemma_halted_needs_halt(c: VmControl, opcodes: Seq<u8>, gates: Seq<bool>)
    requires
        !c.halted,
    ensures
        run_control(c, opcodes, gates).halted ==> opcodes.contains(0b1111),
    decreases opcodes.len(),
{
    if opcodes.len() > 0 && gates.len() > 0 {
        let d = step_spec(c, opcodes[0], gates[0]).0;
        let rest = opcodes.drop_first();
        if d.halted {
            assert(opcodes[0] == 0b1111);
        } else {
            lemma_halted_needs_halt(d, rest, gates.drop_first());
            if run_control(c, opcodes, gates).halted {
                let k = choose|k: int| 0 <= k < rest.len() && rest[k] == 0b1111;
                assert(opcodes[k + 1] == 0b1111);
            }
        }
    }
}

proof fn lemma_signalled_needs_signal(c: VmControl, opcodes: Seq<u8>, gates: Seq<bool>)
    requires
        c.signal_count == 0,
    ensures
        run_control(c, opcodes, gates).signal_count > 0 ==> opcodes.contains(0b0111),
    decreases opcodes.len(),
{
    if opcodes.len() > 0 && gates.len() > 0 {
        let d = step_spec(c, opcodes[0], gates[0]).0;
        let rest = opcodes.drop_first();
        if d.signal_count > 0 {
            assert(opcodes[0] == 0b0111);
        } else {
            lemma_signalled_needs_signal(d, rest, gates.drop_first());
            if run_control(c, opcodes, gates).signal_count > 0 {
                let k = choose|k: int| 0 <= k < rest.len() && rest[k] == 0b0111;
                assert(opcodes[k + 1] == 0b0111);
            }
        }
    }
}

/// An assembled word runs the instruction it encodes. On a running
/// machine whose gate is open, each step counts one cycle; its outcome, its
/// register work and its change of control state are those of the encoded
/// operation and of no other.
pub proof fn lemma_encoded_op_dispatch(c: VmControl, op: AbjadOp)
    requires
        !c.halted,
        step_fits(c, opcode_of(op), true),
    ensures
        ({
            let (d, r, w) = step_spec(c, opcode_of(op), true);
            &&& d.cycle == c.cycle + 1
            &&& d.halted <==> op == AbjadOp::Halt
            &&& r == StepResult::Halted <==> op == AbjadOp::Halt
            &&& r == StepResult::SignalEmitted <==> op == AbjadOp::Signal
            &&& r != StepResult::EntropyViolation
            &&& d.signal_count == c.signal_count + if op == AbjadOp::Signal { 1int } else { 0int }
            &&& d.scope_depth == c.scope_depth + if op == AbjadOp::Enter { 1int } else { 0int }
            &&& d.frozen == (c.frozen || op == AbjadOp::Freeze)
            &&& d.last_compare == (c.last_compare || op == AbjadOp::Compare)
            &&& w == RegisterWork::LoadTrust <==> op == AbjadOp::Load
            &&& w == RegisterWork::StoreTrust <==> (op == AbjadOp::Store && !c.frozen)
            &&& w == RegisterWork::Degrade <==> (op == AbjadOp::Branch && !c.last_compare)
            &&& w == RegisterWork::Pulse <==> op == AbjadOp::Signal
        }),
{
}

/// COMPARE records the entropy check and touches no register, so a BRANCH
/// right after it never raises entropy or decays trust.
pub proof fn lemma_compare_then_branch(c: VmControl)
    requires
        !c.halted,
    ensures
        ({
            let (d, r, w) = step_spec(c, 0b0011, true);
            &&& r == StepResult::Continue
            &&& w == RegisterWork::Idle
            &&& d.last_compare
            &&& step_spec(d, 0b0100, true).1 == StepResult::Continue
            &&& step_spec(d, 0b0100, true).2 == RegisterWork::Idle
        }),
{
}

} // verus!
