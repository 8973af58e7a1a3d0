use resonance::seal::{deed_valid, program_hash, status_glyph, worm_seal};
use resonance::umo::sealed_output;
use resonance::vm::VmControl;

#[test]
fn program_hash_is_sha256_hex() {
    assert_eq!(
        program_hash(""),
        "e3b0c44298fc1c149afbf4c8996fb92427ae41e4649b934ca495991b7852b855"
    );
    assert_eq!(
        program_hash("abc"),
        "ba7816bf8f01cfea414140de5dae2223b00361a396177a9cb410ff61f20015ad"
    );
}

#[test]
fn deed_needs_gate_halt_and_signal() {
    let mut c = VmControl::new();
    assert!(!deed_valid(true, &c));
    c.halted = true;
    assert!(!deed_valid(true, &c));
    c.signal_count = 2;
    assert!(deed_valid(true, &c));
    assert!(!deed_valid(false, &c));
}

#[test]
fn seal_only_for_valid_deeds() {
    assert_eq!(worm_seal(false, "payload"), None);
    assert_eq!(worm_seal(true, "abc"), Some(program_hash("abc")));
}

#[test]
fn glyphs_and_banners() {
    assert_eq!(status_glyph(true), "✅ meta_block(valid)");
    assert_eq!(status_glyph(false), "⛔ meta_block(degraded)");
    assert_eq!(sealed_output(true), "☉◉◇◉☉◉◇◉☉ → SYSTEM COHERENT → DEED SEALED");
    assert_eq!(sealed_output(false), "▒░⛔⚠️⛔░▒ → RESONANCE FAILURE → EXECUTION BLOCKED");
}
