use vstd::prelude::*;

verus! {

/// One instruction: an opcode and three operand bytes, whose meaning depends on the opcode.
#[derive(Clone, Copy, Debug, PartialEq, Eq, Structural)]
pub struct Instruction {
    pub opcode: u8,
    pub target: u8,
    pub left: u8,
    pub right: u8,
}

/// A compiled program.
pub struct Module {
    /// Code address of each function, indexed by function id.
    pub functions: Vec<u64>,
    /// Constant pool, indexed by constant id.
    pub constants: Vec<i64>,
    /// Address where the top-level code starts.
    pub entry_point: u64,
    pub code: Vec<Instruction>,
}

/// The value of two operand bytes read as one little-endian 16-bit number.
pub open spec fn word16(lo: u8, hi: u8) -> int {
    lo as int + 256 * (hi as int)
}

/// The value of three operand bytes read as one little-endian 24-bit number.
pub open spec fn word24(b0: u8, b1: u8, b2: u8) -> int {
    b0 as int + 256 * (b1 as int) + 65536 * (b2 as int)
}

/// A 16-bit word read as a two's-complement number.
pub open spec fn sign_extend16(w: int) -> int {
    if w < 32768 { w } else { w - 65536 }
}

} // verus!
