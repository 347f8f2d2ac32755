//! Modifier-key bits of a key press.

use vstd::prelude::*;

verus! {

pub const SHIFT: u32 = 0x2;
pub const CTRL: u32 = 0x4;
pub const ALT: u32 = 0x8;
pub const META: u32 = 0x10;

} // verus!
