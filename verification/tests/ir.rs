use resonance::abjad::AbjadOp;
use resonance::ir::{lower, validate};

#[test]
fn lower_numbers_instructions() {
    let ir = lower(vec![
        (AbjadOp::Enter, Some("core".to_string())),
        (AbjadOp::Signal, None),
        (AbjadOp::Halt, None),
    ]);
    assert_eq!(ir.len(), 3);
    assert_eq!(ir[0].op, AbjadOp::Enter);
    assert_eq!(ir[0].operand, Some("core".to_string()));
    assert_eq!(ir[1].index, 1);
    assert_eq!(ir[2].op, AbjadOp::Halt);
    assert_eq!(ir[2].index, 2);
    assert!(lower(vec![]).is_empty());
}

#[test]
fn validate_accepts_enter_to_halt() {
    let ir = lower(vec![(AbjadOp::Enter, None), (AbjadOp::Halt, None)]);
    assert_eq!(validate(&ir), Ok(()));
}

#[test]
fn validate_rejects_empty() {
    assert_eq!(validate(&[]), Err("empty program".to_string()));
}

#[test]
fn validate_rejects_wrong_start() {
    let ir = lower(vec![(AbjadOp::Load, None), (AbjadOp::Halt, None)]);
    assert_eq!(validate(&ir), Err("program must begin with ENTER, got Load".to_string()));
    let ir = lower(vec![(AbjadOp::Halt, None)]);
    assert_eq!(validate(&ir), Err("program must begin with ENTER, got Halt".to_string()));
}

#[test]
fn validate_rejects_wrong_end() {
    let ir = lower(vec![(AbjadOp::Enter, None), (AbjadOp::Signal, None)]);
    assert_eq!(validate(&ir), Err("program must end with HALT".to_string()));
    let ir = lower(vec![(AbjadOp::Enter, None)]);
    assert_eq!(validate(&ir), Err("program must end with HALT".to_string()));
}
