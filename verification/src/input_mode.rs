//! SKK input modes.

use vstd::prelude::*;

verus! {

/// The character set that typed keys are converted into.
#[derive(Debug, Clone, Copy, PartialEq, Eq, Hash, Structural)]
pub enum InputMode {
    Hirakana,
    Katakana,
    Jisx0201Kana,
    Ascii,
    Jisx0208Latin,
}

impl Default for InputMode {
    fn default() -> (m: Self)
        ensures
            m == InputMode::Hirakana,
    {
        InputMode::Hirakana
    }
}

} // verus!
