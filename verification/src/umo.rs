//! The closing line of the Unicode Mantra Oscillator.
use vstd::prelude::*;

verus! {

/// The sealed output line of the oscillator: the coherent banner when the
/// field is coherent, the failure banner otherwise.
pub fn sealed_output(coherent: bool) -> (res: String)
    ensures
        coherent ==> res@ == "☉◉◇◉☉◉◇◉☉ → SYSTEM COHERENT → DEED SEALED"@,
        !coherent ==> res@ == "▒░⛔⚠️⛔░▒ → RESONANCE FAILURE → EXECUTION BLOCKED"@,
{
    if coherent {
        "☉◉◇◉☉◉◇◉☉ → SYSTEM COHERENT → DEED SEALED".to_owned()
    } else {
        "▒░⛔⚠️⛔░▒ → RESONANCE FAILURE → EXECUTION BLOCKED".to_owned()
    }
}

} // verus!
