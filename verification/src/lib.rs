//! Resonance assembly toolchain: the Abjad opcode set and its source
//! parser, the intermediate representation, the bytecode assembler, the
//! decision core of the virtual machine, and the deed seal.

pub mod abjad;
pub mod assembler;
pub mod ir;
pub mod pipeline;
pub mod seal;
pub mod text;
pub mod umo;
pub mod vm;

pub use abjad::{parse_program, parse_token, AbjadOp};
pub use assembler::{assemble, disassemble, encode, ByteWord};
pub use ir::{lower, validate, Instruction};
pub use pipeline::{check_program, compile_program};
pub use seal::{deed_valid, program_hash, status_glyph, worm_seal};
pub use umo::sealed_output;
pub use vm::{RegisterWork, StepResult, VmControl};
