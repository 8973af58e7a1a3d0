use resonance::pipeline::{check_program, compile_program};

#[test]
fn check_reports_ok_for_a_valid_program() {
    let src = "; demo\nE core\nA trust\nC\nG\nH\n";
    assert_eq!(check_program(src), "ok");
}

#[test]
fn check_reports_validation_errors() {
    assert_eq!(check_program(""), "✗ empty program");
    assert_eq!(check_program("A\nH"), "✗ program must begin with ENTER, got Load");
    assert_eq!(check_program("E\nG"), "✗ program must end with HALT");
}

#[test]
fn check_accepts_large_programs() {
    let mut src = String::from("E\n");
    for _ in 0..1234 {
        src.push_str("G\n");
    }
    src.push_str("H\n");
    assert_eq!(check_program(&src), "ok");
}

#[test]
fn compile_lists_bytecode() {
    assert_eq!(compile_program("E x\nA\nG\nH"), "0101 0001 0111 1111");
    assert_eq!(compile_program("G"), "0111");
    assert_eq!(compile_program(""), "");
}
