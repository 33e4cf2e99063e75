//! Constants of the state word.

use vstd::prelude::*;

verus! {

/// Bit denoting that references are blocked.
pub const REF_BLOCKED: u32 = 1;

/// Bit denoting that references are allowed.
pub const REF_ALLOWED: u32 = 0;

/// Mask for the reference count, leaving out the block bit.
pub const REF_COUNT_MASK: u32 = 0xffff_fffe;

/// Shift to get the reference count.
pub const REF_COUNT_SHIFT: u32 = 1;

/// What one reference adds to the state word.
pub const REF_INCR: u32 = 2;

/// Mask for the block bit, leaving out the reference count.
pub const STATE_MASK: u32 = 1;

/// The greatest number of references that a state word can count.
pub const MAX_REFS: u32 = 0x7fff_ffff;

/// How often a change of the state word is attempted before giving up.
pub const ATTEMPTS: u32 = 4;

/// How often a holder of the block looks for the last reference to go before giving up.
pub const LOOKS: u32 = 5;

} // verus!
