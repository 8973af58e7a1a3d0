//! The trust deed of a run: when a run earns a seal, and the WORM seal
//! itself, a SHA-256 digest written in lowercase hex.
use vstd::prelude::*;
use sha2::Digest;
use crate::vm::VmControl;

verus! {

/// What SHA-256 digests a byte string to.
pub uninterp spec fn sha256(data: Seq<u8>) -> Seq<u8>;

/// Calls `sha2::Sha256::digest`: the result is the named SHA-256 digest of
/// the argument, 32 bytes long (the output size of SHA-256).
#[verifier::external_body]
fn sha256_digest(data: &[u8]) -> (res: Vec<u8>)
    ensures
        res@ == sha256(data@),
        res@.len() == 32,
{
    sha2::Sha256::digest(data).to_vec()
}

/// A hex digit in lowercase.
pub open spec fn hex_digit(n: nat) -> char {
    if n < 10 {
        (48 + n) as char
    } else {
        (87 + n) as char
    }
}

/// Bytes written in lowercase hex, two digits per byte, high nibble first.
pub open spec fn hex_lower(bytes: Seq<u8>) -> Seq<char>
    decreases bytes.len(),
{
    if bytes.len() == 0 {
        seq![]
    } else {
        hex_lower(bytes.drop_last()) + seq![
            hex_digit((bytes.last() / 16) as nat),
            hex_digit((bytes.last() % 16) as nat),
        ]
    }
}

/// Calls `hex::encode`: each byte becomes two lowercase hex digits, high
/// nibble first (the crate's `HEX_CHARS_LOWER` table).
#[verifier::external_body]
fn hex_encode(data: &[u8]) -> (res: String)
    ensures
        res@ == hex_lower(data@),
{
    hex::encode(data)
}

/// Whether `c` is a lowercase hex digit.
pub open spec fn is_hex_digit(c: char) -> bool {
    ('0' <= c <= '9') || ('a' <= c <= 'f')
}

/// Hex writing doubles the length and uses lowercase hex digits only.
pub proof fn lemma_hex_lower_shape(bytes: Seq<u8>)
    ensures
        hex_lower(bytes).len() == 2 * bytes.len(),
        forall|i: int| 0 <= i < hex_lower(bytes).len() ==> is_hex_digit(#[trigger] hex_lower(bytes)[i]),
    decreases bytes.len(),
{
    if bytes.len() > 0 {
        lemma_hex_lower_shape(bytes.drop_last());
        let h = hex_lower(bytes.drop_last());
        let t = seq![hex_digit((bytes.last() / 16) as nat), hex_digit((bytes.last() % 16) as nat)];
        assert(hex_lower(bytes) == h + t);
        assert forall|i: int| 0 <= i < hex_lower(bytes).len() implies is_hex_digit(#[trigger] hex_lower(bytes)[i]) by {
            if i < h.len() {
                assert(hex_lower(bytes)[i] == h[i]);
            } else {
                assert(hex_lower(bytes)[i] == t[i - h.len()]);
            }
        }
    }
}

/// The seal of a text: the SHA-256 digest of its UTF-8 bytes, in hex.
pub open spec fn seal_of(text: Seq<char>) -> Seq<char> {
    hex_lower(sha256(vstd::utf8::encode_utf8(text)))
}

/// The hash that names a program: the SHA-256 digest of its source, in hex.
pub fn program_hash(src: &str) -> (res: String)
    ensures
        res@ == seal_of(src@),
        res@.len() == 64,
        forall|i: int| 0 <= i < res@.len() ==> is_hex_digit(#[trigger] res@[i]),
{
    let digest = sha256_digest(src.as_bytes());
    proof {
        lemma_hex_lower_shape(digest@);
    }
    hex_encode(digest.as_slice())
}

/// Whether a run earns a valid deed: its entropy is below the threshold,
/// the machine has halted and it has emitted at least one signal.
pub fn deed_valid(gate_open: bool, control: &VmControl) -> (res: bool)
    ensures
        res == (gate_open && control.halted && control.signal_count > 0),
{
    gate_open && control.halted && control.signal_count > 0
}

/// The WORM seal of a deed: the seal of its payload when the deed is valid,
/// none otherwise.
pub fn worm_seal(valid: bool, payload: &str) -> (res: Option<String>)
    ensures
        valid <==> res is Some,
        res matches Some(s) ==> s@ == seal_of(payload@) && s@.len() == 64,
{
    if valid {
        Some(program_hash(payload))
    } else {
        None
    }
}

/// The status line of a deed.
pub fn status_glyph(valid: bool) -> (res: &'static str)
    ensures
        valid ==> res@ == "✅ meta_block(valid)"@,
        !valid ==> res@ == "⛔ meta_block(degraded)"@,
{
    if valid {
        "✅ meta_block(valid)"
    } else {
        "⛔ meta_block(degraded)"
    }
}

} // verus!
