//! Attribute bits carried by `EventId::Char` events.

use vstd::prelude::*;

verus! {

pub const NONE: u32 = 0x0;
pub const DIRECT: u32 = 0x1;
pub const UPPER_CASES: u32 = 0x2;
pub const TOGGLE_KANA: u32 = 0x4;
pub const TOGGLE_JISX0201_KANA: u32 = 0x8;
pub const SWITCH_TO_ASCII: u32 = 0x10;
pub const SWITCH_TO_JISX0208_LATIN: u32 = 0x20;
pub const ENTER_JAPANESE: u32 = 0x40;
pub const ENTER_ABBREV: u32 = 0x80;
pub const NEXT_COMPLETION: u32 = 0x100;
pub const PREV_COMPLETION: u32 = 0x200;
pub const NEXT_CANDIDATE: u32 = 0x400;
pub const PREV_CANDIDATE: u32 = 0x800;
pub const REMOVE_TRIGGER: u32 = 0x1000;
pub const INPUT_CHARS: u32 = 0x2000;
pub const COMP_CONVERSION: u32 = 0x4000;
pub const STICKY_KEY: u32 = 0x8000;

} // verus!
