//! The symbolic instruction set emitted by the code generator, together with
//! the fixed register roles of the target machine.

use vstd::prelude::*;

verus! {

/// Identifier of a machine register.
pub type RegId = u8;

/// Register that always holds the constant 0.
pub const ZERO_REG: RegId = 0;

/// Frame pointer register.
pub const FRAME_POINTER: RegId = 30;

/// Stack pointer register.
pub const STACK_POINTER: RegId = 14;

/// Return address register (populated by the call instruction).
pub const RETURN_REG: RegId = 31;

/// Register holding the result of the most recently evaluated expression.
pub const RESULT_REG: RegId = 1;

/// A symbolic label name, unique within one generation run.
///
/// `Gen(n)` is the `n`-th label issued by the label counter; `Exit` is the
/// fixed end label of the whole program, the target of a top-level return.
#[derive(Clone, Copy, PartialEq, Eq, Structural, Debug)]
pub enum LabelId {
    Exit,
    Gen(u64),
}

/// An operand that is either a known constant or a symbolic address to be
/// resolved at link time.
#[derive(Clone, Copy, PartialEq, Eq, Structural, Debug)]
pub enum Operand {
    Const(i16),
    Unknown(LabelId),
}

/// One symbolic instruction of the output sequence.
#[derive(Clone, PartialEq, Eq, Debug)]
pub enum Instruction {
    /// Place a label at this point of the sequence.
    Label(LabelId),
    /// Statically allocate the given words of initialized data.
    AllocateWords(Vec<i32>),
    /// Statically reserve the given number of bytes.
    AllocateSpace(u32),
    /// `Load32(dst, off, base)`: load a 32-bit word from `base + off` into `dst`.
    Load32(RegId, Operand, RegId),
    /// `Store32(off, base, src)`: store the 32-bit word of `src` at `base + off`.
    Store32(Operand, RegId, RegId),
    /// `AddSigned(dst, a, b)`: signed register-register addition.
    AddSigned(RegId, RegId, RegId),
    /// `AddSignedValue(dst, a, imm)`: signed register-immediate addition.
    AddSignedValue(RegId, RegId, i16),
    /// `AddUnsignedValue(dst, a, imm)`: unsigned register-immediate addition.
    AddUnsignedValue(RegId, RegId, u16),
    /// `SubUnsignedValue(dst, a, imm)`: unsigned register-immediate subtraction.
    SubUnsignedValue(RegId, RegId, u16),
    /// Unconditional jump to a label.
    Jump(LabelId),
    /// `JumpIfZero(r, l)`: jump to `l` when `r` holds 0.
    JumpIfZero(RegId, LabelId),
    /// Call: jump to a label and store the return address in `RETURN_REG`.
    JumpStore(LabelId),
    /// Indirect jump through a register (function return).
    JumpR(RegId),
    /// No operation (placeholder).
    Nop,
    /// A raw instruction passed through to the output verbatim.
    RawOp(String),
}

} // verus!
