# resonance

A verified toolchain for Resonance assembly (`.rasm`): the Abjad opcode set
and its source parser, the intermediate representation and its framing rule
(ENTER … HALT), the bytecode assembler and its binary listing, the decision
core of the virtual machine (entropy gate, halting, scopes, signals, the
FREEZE boundary), and the deed's WORM seal (SHA-256, lowercase hex).

- `src/` — the library, written and proved with Verus.
  - `text` — Unicode white space, trimming, words and lines, with scanners.
  - `abjad` — `AbjadOp`, `parse_token`, `parse_program`.
  - `ir` — `Instruction`, `lower`, `validate`.
  - `assembler` — `encode`, `ByteWord`, `assemble`, `disassemble`.
  - `vm` — `VmControl::step`: control state and the register work to do.
  - `seal` — `program_hash`, `deed_valid`, `worm_seal`, `status_glyph`.
  - `pipeline` — `check_program`, `compile_program`.
  - `umo` — the oscillator's closing banner.
- `app/` — the `rasm` command line, the VM's real-valued registers, the
  oscillator, the deed record, the swarm kernel on NATS and the browser
  bindings: floating point and I/O, which the library does not hold.
- `tests/` — tests of the library.
