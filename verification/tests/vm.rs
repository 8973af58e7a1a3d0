use resonance::assembler::ByteWord;
use resonance::vm::{RegisterWork, StepResult, VmControl};

fn word(opcode: u8) -> ByteWord {
    ByteWord { opcode, operand: 0 }
}

#[test]
fn test_halt() {
    let mut vm = VmControl::new();
    let (result, _) = vm.step(&word(0b1111), true);
    assert_eq!(result, StepResult::Halted);
    assert!(vm.halted);
}

#[test]
fn halted_machine_stays_halted() {
    let mut vm = VmControl::new();
    vm.step(&word(0b1111), true);
    let before = vm;
    assert_eq!(vm.step(&word(0b0111), true), (StepResult::Halted, RegisterWork::Idle));
    assert_eq!(vm.step(&word(0b0101), false), (StepResult::Halted, RegisterWork::Idle));
    assert_eq!(vm, before);
    assert_eq!(vm.cycle, 1);
}

#[test]
fn closed_gate_blocks_without_counting() {
    let mut vm = VmControl::new();
    assert_eq!(vm.step(&word(0b0111), false), (StepResult::EntropyViolation, RegisterWork::Idle));
    assert_eq!(vm, VmControl::new());
}

#[test]
fn signal_counts_and_pulses() {
    let mut vm = VmControl::new();
    assert_eq!(vm.step(&word(0b0111), true), (StepResult::SignalEmitted, RegisterWork::Pulse));
    assert_eq!(vm.signal_count, 1);
    assert_eq!(vm.cycle, 1);
}

#[test]
fn enter_freeze_and_store() {
    let mut vm = VmControl::new();
    assert_eq!(vm.step(&word(0b0101), true), (StepResult::Continue, RegisterWork::Idle));
    assert_eq!(vm.scope_depth, 1);
    assert_eq!(vm.step(&word(0b0010), true), (StepResult::Continue, RegisterWork::StoreTrust));
    assert_eq!(vm.step(&word(0b0110), true), (StepResult::Continue, RegisterWork::Idle));
    assert!(vm.frozen);
    // Frozen: no further register writes.
    assert_eq!(vm.step(&word(0b0010), true), (StepResult::Continue, RegisterWork::Idle));
    assert_eq!(vm.step(&word(0b0001), true), (StepResult::Continue, RegisterWork::LoadTrust));
    assert_eq!(vm.cycle, 5);
}

#[test]
fn branch_degrades_unless_compared() {
    let mut vm = VmControl::new();
    assert_eq!(vm.step(&word(0b0100), true), (StepResult::Continue, RegisterWork::Degrade));
    assert_eq!(vm.step(&word(0b0011), true), (StepResult::Continue, RegisterWork::Idle));
    assert!(vm.last_compare);
    assert_eq!(vm.step(&word(0b0100), true), (StepResult::Continue, RegisterWork::Idle));
}

#[test]
fn unknown_opcode_only_counts() {
    let mut vm = VmControl::new();
    assert_eq!(vm.step(&word(0b1000), true), (StepResult::Continue, RegisterWork::Idle));
    assert_eq!(vm.cycle, 1);
    assert!(!vm.halted);
}
