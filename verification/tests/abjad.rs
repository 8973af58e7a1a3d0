use resonance::abjad::{op_from_word, parse_program, parse_token, AbjadOp};
use resonance::text::white_space;

#[test]
fn test_parse_tokens() {
    assert_eq!(parse_token("E"), Some(AbjadOp::Enter));
    assert_eq!(parse_token("H"), Some(AbjadOp::Halt));
    assert_eq!(parse_token("LOAD"), Some(AbjadOp::Load));
    assert_eq!(parse_token("X"), None);
}

#[test]
fn test_parse_program() {
    let src = "; entry\nE field_core\nA trust\nH";
    let prog = parse_program(src);
    assert_eq!(prog.len(), 3);
    assert_eq!(prog[0].0, AbjadOp::Enter);
    assert_eq!(prog[0].1, Some("field_core".to_string()));
    assert_eq!(prog[2].0, AbjadOp::Halt);
}

const ALL: [AbjadOp; 8] = [
    AbjadOp::Load,
    AbjadOp::Store,
    AbjadOp::Compare,
    AbjadOp::Branch,
    AbjadOp::Enter,
    AbjadOp::Freeze,
    AbjadOp::Signal,
    AbjadOp::Halt,
];

#[test]
fn mnemonic_and_symbol_parse_back() {
    let symbols = ["A", "B", "C", "D", "E", "F", "G", "H"];
    for (op, sym) in ALL.iter().zip(symbols.iter()) {
        assert_eq!(parse_token(op.mnemonic()), Some(*op));
        assert_eq!(parse_token(&op.mnemonic().to_lowercase()), Some(*op));
        assert_eq!(parse_token(&format!(" \t{}\u{3000}", op.mnemonic())), Some(*op));
        assert_eq!(parse_token(sym), Some(*op));
        assert_eq!(parse_token(&sym.to_lowercase()), Some(*op));
    }
}

#[test]
fn mnemonics_are_the_table() {
    let names = ["LOAD", "STORE", "COMPARE", "BRANCH", "ENTER", "FREEZE", "SIGNAL", "HALT"];
    for (op, name) in ALL.iter().zip(names.iter()) {
        assert_eq!(op.mnemonic(), *name);
    }
}

#[test]
fn tokens_fold_case_the_unicode_way() {
    // U+017F LATIN SMALL LETTER LONG S uppercases to 'S'.
    assert_eq!(parse_token("\u{17f}tore"), Some(AbjadOp::Store));
    // U+0131 LATIN SMALL LETTER DOTLESS I uppercases to 'I'.
    assert_eq!(parse_token("s\u{131}gnal"), Some(AbjadOp::Signal));
    assert_eq!(parse_token("loadx"), None);
    assert_eq!(parse_token(""), None);
    assert_eq!(parse_token("   "), None);
    assert_eq!(parse_token("I"), None);
}

#[test]
fn op_from_word_is_exact() {
    assert_eq!(op_from_word("COMPARE"), Some(AbjadOp::Compare));
    assert_eq!(op_from_word("compare"), None);
    assert_eq!(op_from_word(" G"), None);
    assert_eq!(op_from_word("G"), Some(AbjadOp::Signal));
}

#[test]
fn program_skips_comments_blanks_and_unknown_words() {
    let src = "\n   \n  ; comment E\nE scope\r\nnope x\n  g   pulse extra\r\n\tH";
    let prog = parse_program(src);
    assert_eq!(
        prog,
        vec![
            (AbjadOp::Enter, Some("scope".to_string())),
            (AbjadOp::Signal, Some("pulse".to_string())),
            (AbjadOp::Halt, None),
        ]
    );
}

#[test]
fn program_of_empty_source_is_empty() {
    assert!(parse_program("").is_empty());
    assert!(parse_program("\n\n;only comments\n").is_empty());
}

#[test]
fn comment_marker_must_lead_the_line() {
    let prog = parse_program("E ;not-a-comment\n;H\n");
    assert_eq!(prog, vec![(AbjadOp::Enter, Some(";not-a-comment".to_string()))]);
}

#[test]
fn lone_carriage_return_is_kept_on_the_last_line() {
    // A final line ending in '\r' without '\n' keeps the '\r', which is white space.
    let prog = parse_program("E a\r");
    assert_eq!(prog, vec![(AbjadOp::Enter, Some("a".to_string()))]);
}

#[test]
fn white_space_matches_std() {
    for u in 0u32..0x11_0000 {
        if let Some(c) = char::from_u32(u) {
            assert_eq!(white_space(c), c.is_whitespace(), "char {:#x}", u);
        }
    }
}

/// The same line and word splitting, done with `str::lines`, `str::trim` and
/// `str::split_whitespace`.
fn parse_with_std_str(src: &str) -> Vec<(AbjadOp, Option<String>)> {
    src.lines()
        .filter(|l| !l.trim().is_empty() && !l.trim().starts_with(';'))
        .filter_map(|line| {
            let mut parts = line.split_whitespace();
            let token = parts.next()?;
            let operand = parts.next().map(|s| s.to_string());
            let op = parse_token(token)?;
            Some((op, operand))
        })
        .collect()
}

#[test]
fn parse_program_agrees_with_std_splitting() {
    let alphabet: Vec<char> = vec![
        'E', 'h', 'G', 'x', ';', ' ', '\t', '\n', '\r', '\u{a0}', '\u{2003}', 'a', 'L', 'O', 'D',
        '\u{85}', 'z',
    ];
    let mut state: u64 = 0x2545_f491_4f6c_dd1d;
    for _ in 0..4000 {
        state ^= state << 13;
        state ^= state >> 7;
        state ^= state << 17;
        let len = (state % 24) as usize;
        let mut s = String::new();
        let mut k = state;
        for _ in 0..len {
            k = k.wrapping_mul(6364136223846793005).wrapping_add(1442695040888963407);
            s.push(alphabet[((k >> 33) as usize) % alphabet.len()]);
        }
        assert_eq!(parse_program(&s), parse_with_std_str(&s), "source {:?}", s);
    }
}

#[test]
fn trailing_line_feed_adds_nothing() {
    for src in ["", "E a\nH", "E a\r", ";c\n  ", "G\n\n", "E x y\r\nH\r"] {
        let with_feed = format!("{}\n", src);
        assert_eq!(parse_program(&with_feed), parse_program(src), "source {:?}", src);
    }
}

#[test]
fn padding_never_changes_a_token() {
    for token in ["halt", "H", "x", "", "s\u{131}gnal", "\u{17f}TORE"] {
        let padded = format!(" \t{}\n\u{2028}", token);
        assert_eq!(parse_token(&padded), parse_token(token), "token {:?}", token);
    }
    assert_eq!(parse_token(" halt "), Some(AbjadOp::Halt));
}
