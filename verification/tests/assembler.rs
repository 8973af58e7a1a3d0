use resonance::abjad::AbjadOp;
use resonance::assembler::{assemble, disassemble, encode, ByteWord};
use resonance::ir::lower;

#[test]
fn test_encode_halt() {
    assert_eq!(encode(&AbjadOp::Halt), 0b1111);
}

#[test]
fn test_encode_enter() {
    assert_eq!(encode(&AbjadOp::Enter), 0b0101);
}

#[test]
fn encode_follows_the_isa_table() {
    let table = [
        (AbjadOp::Load, 0b0001),
        (AbjadOp::Store, 0b0010),
        (AbjadOp::Compare, 0b0011),
        (AbjadOp::Branch, 0b0100),
        (AbjadOp::Enter, 0b0101),
        (AbjadOp::Freeze, 0b0110),
        (AbjadOp::Signal, 0b0111),
        (AbjadOp::Halt, 0b1111),
    ];
    for (op, code) in table {
        assert_eq!(encode(&op), code);
    }
}

#[test]
fn assemble_hashes_operands() {
    let ir = lower(vec![
        (AbjadOp::Enter, Some("ab".to_string())),
        (AbjadOp::Load, Some("\u{e9}".to_string())),
        (AbjadOp::Store, Some("zzz".to_string())),
        (AbjadOp::Halt, None),
    ]);
    let code = assemble(&ir);
    assert_eq!(code.len(), 4);
    assert_eq!(code[0], ByteWord { opcode: 0b0101, operand: 97 + 98 });
    // 'é' is 0xC3 0xA9 in UTF-8: (195 + 169) % 256 = 108.
    assert_eq!(code[1], ByteWord { opcode: 0b0001, operand: 108 });
    // 3 * 122 = 366, wrapped to 110.
    assert_eq!(code[2], ByteWord { opcode: 0b0010, operand: 110 });
    assert_eq!(code[3], ByteWord { opcode: 0b1111, operand: 0 });
}

#[test]
fn disassemble_lists_binary_opcodes() {
    let code = vec![
        ByteWord { opcode: 0b0101, operand: 3 },
        ByteWord { opcode: 0b0001, operand: 0 },
        ByteWord { opcode: 0b1111, operand: 9 },
    ];
    assert_eq!(disassemble(&code), "0101 0001 1111");
    assert_eq!(disassemble(&[]), "");
    assert_eq!(disassemble(&[ByteWord { opcode: 0, operand: 0 }]), "0000");
    assert_eq!(disassemble(&[ByteWord { opcode: 0b10110, operand: 0 }]), "10110");
    assert_eq!(disassemble(&[ByteWord { opcode: 255, operand: 0 }]), "11111111");
}

#[test]
fn disassemble_matches_std_formatting() {
    for n in 0u8..=255 {
        let a = ByteWord { opcode: n, operand: 0 };
        let b = ByteWord { opcode: 255 - n, operand: 0 };
        assert_eq!(disassemble(&[a, b]), format!("{:04b} {:04b}", n, 255 - n));
    }
}
