use vstd::prelude::*;

verus! {

pub const HLT: u8 = 0;
pub const LD: u8 = 1;
pub const LDB: u8 = 2;
pub const LDR: u8 = 3;
pub const ADD: u8 = 4;
pub const SUB: u8 = 5;
pub const MUL: u8 = 6;
pub const DIV: u8 = 7;
pub const AND: u8 = 8;
pub const OR: u8 = 9;
pub const NOT: u8 = 10;
pub const EQ: u8 = 11;
pub const LT: u8 = 12;
pub const LE: u8 = 13;
pub const GT: u8 = 14;
pub const GE: u8 = 15;
pub const NEQ: u8 = 16;
pub const CAL: u8 = 17;
pub const TLC: u8 = 18;
pub const RET: u8 = 19;
pub const MOV: u8 = 20;
pub const MVO: u8 = 21;
pub const JMF: u8 = 22;
pub const JMB: u8 = 23;
pub const JTF: u8 = 24;
pub const WRI: u8 = 25;
pub const RDI: u8 = 26;

/// Opcodes of the instructions that combine two registers into a third.
pub open spec fn is_binary(op: u8) -> bool {
    ADD <= op <= NEQ && op != NOT
}

} // verus!
