//! An Intcode virtual machine: a fetch-decode-execute engine over a growable
//! memory of signed words, with three addressing modes and a cooperative
//! suspend/resume protocol for streamed input.
use vstd::prelude::*;

pub mod decode;
pub mod error;
pub mod instruction;
pub mod machine;
pub mod memory;
pub mod opcode;
pub mod parameter;
pub mod program;
pub mod semantics;

verus! {

/// A machine word.
pub type Data = i64;

/// A memory address.
pub type Address = usize;

} // verus!
