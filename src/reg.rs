use vstd::prelude::*;

verus! {

/// Register holding a frame's return address.
pub const RET: u8 = 0;

/// Register holding the first parameter of a call and the value it returns.
pub const VAL: u8 = 1;

} // verus!
