//! Input events and packed key states.

pub mod attribute;
pub mod modifier;

use vstd::prelude::*;

verus! {

/// Key input events.
#[derive(Debug, Clone, Copy, PartialEq, Eq, Hash, Structural)]
pub enum EventId {
    Null,
    JMode,
    Enter,
    Cancel,
    Backspace,
    Delete,
    Tab,
    Paste,
    Left,
    Right,
    Up,
    Down,
    Char,
    Ping,
    Undo,
    AsciiMode,
    HirakanaMode,
    KatakanaMode,
    Jisx0201KanaMode,
    Jisx0208LatinMode,
    Yes,
    No,
    On,
    Off,
}

impl Default for EventId {
    fn default() -> (r: Self)
        ensures
            r == EventId::Null,
    {
        EventId::Null
    }
}

/// How the host should report a processed key.
#[derive(Debug, Clone, Copy, PartialEq, Eq, Structural)]
pub enum HandleOption {
    Default,
    /// Report the key as handled even if nothing consumed it.
    AlwaysHandled,
    /// Process the key but report it as unhandled.
    PseudoHandled,
    CapsLock,
}

impl Default for HandleOption {
    fn default() -> (r: Self)
        ensures
            r == HandleOption::Default,
    {
        HandleOption::Default
    }
}

/// A keyboard event routed through the keymap.
#[derive(Debug, Clone, Copy, PartialEq, Eq, Structural)]
pub struct Event {
    pub id: EventId,
    pub code: u8,
    pub attribute: u32,
    pub option: HandleOption,
}

impl Default for Event {
    fn default() -> (r: Self)
        ensures
            r == (Event { id: EventId::Null, code: 0, attribute: 0, option: HandleOption::Default }),
    {
        Event { id: EventId::Null, code: 0, attribute: 0, option: HandleOption::Default }
    }
}

impl Event {
    /// The event has every bit of `bits` among its attributes.
    pub open spec fn has(&self, bits: u32) -> bool {
        self.attribute & bits != 0
    }

    pub fn new(id: EventId, code: u8, attribute: u32) -> (r: Self)
        ensures
            r == (Event { id, code, attribute, option: HandleOption::Default }),
    {
        Event { id, code, attribute, option: HandleOption::Default }
    }

    /// The event carries the `DIRECT` attribute.
    pub fn is_direct(&self) -> (r: bool)
        ensures
            r == self.has(attribute::DIRECT),
    {
        self.attribute & attribute::DIRECT != 0
    }

    /// The event carries the `UPPER_CASES` attribute.
    pub fn is_upper_cases(&self) -> (r: bool)
        ensures
            r == self.has(attribute::UPPER_CASES),
    {
        self.attribute & attribute::UPPER_CASES != 0
    }

    /// The event carries the `TOGGLE_KANA` attribute.
    pub fn is_toggle_kana(&self) -> (r: bool)
        ensures
            r == self.has(attribute::TOGGLE_KANA),
    {
        self.attribute & attribute::TOGGLE_KANA != 0
    }

    /// The event carries the `TOGGLE_JISX0201_KANA` attribute.
    pub fn is_toggle_jisx0201_kana(&self) -> (r: bool)
        ensures
            r == self.has(attribute::TOGGLE_JISX0201_KANA),
    {
        self.attribute & attribute::TOGGLE_JISX0201_KANA != 0
    }

    /// The event carries the `SWITCH_TO_ASCII` attribute.
    pub fn is_switch_to_ascii(&self) -> (r: bool)
        ensures
            r == self.has(attribute::SWITCH_TO_ASCII),
    {
        self.attribute & attribute::SWITCH_TO_ASCII != 0
    }

    /// The event carries the `SWITCH_TO_JISX0208_LATIN` attribute.
    pub fn is_switch_to_jisx0208_latin(&self) -> (r: bool)
        ensures
            r == self.has(attribute::SWITCH_TO_JISX0208_LATIN),
    {
        self.attribute & attribute::SWITCH_TO_JISX0208_LATIN != 0
    }

    /// The event carries the `ENTER_JAPANESE` attribute.
    pub fn is_enter_japanese(&self) -> (r: bool)
        ensures
            r == self.has(attribute::ENTER_JAPANESE),
    {
        self.attribute & attribute::ENTER_JAPANESE != 0
    }

    /// The event carries the `ENTER_ABBREV` attribute.
    pub fn is_enter_abbrev(&self) -> (r: bool)
        ensures
            r == self.has(attribute::ENTER_ABBREV),
    {
        self.attribute & attribute::ENTER_ABBREV != 0
    }

    /// The event carries the `NEXT_COMPLETION` attribute.
    pub fn is_next_completion(&self) -> (r: bool)
        ensures
            r == self.has(attribute::NEXT_COMPLETION),
    {
        self.attribute & attribute::NEXT_COMPLETION != 0
    }

    /// The event carries the `PREV_COMPLETION` attribute.
    pub fn is_prev_completion(&self) -> (r: bool)
        ensures
            r == self.has(attribute::PREV_COMPLETION),
    {
        self.attribute & attribute::PREV_COMPLETION != 0
    }

    /// The event carries the `NEXT_CANDIDATE` attribute.
    pub fn is_next_candidate(&self) -> (r: bool)
        ensures
            r == self.has(attribute::NEXT_CANDIDATE),
    {
        self.attribute & attribute::NEXT_CANDIDATE != 0
    }

    /// The event carries the `PREV_CANDIDATE` attribute.
    pub fn is_prev_candidate(&self) -> (r: bool)
        ensures
            r == self.has(attribute::PREV_CANDIDATE),
    {
        self.attribute & attribute::PREV_CANDIDATE != 0
    }

    /// The event carries the `REMOVE_TRIGGER` attribute.
    pub fn is_remove_trigger(&self) -> (r: bool)
        ensures
            r == self.has(attribute::REMOVE_TRIGGER),
    {
        self.attribute & attribute::REMOVE_TRIGGER != 0
    }

    /// The event carries the `INPUT_CHARS` attribute.
    pub fn is_input_chars(&self) -> (r: bool)
        ensures
            r == self.has(attribute::INPUT_CHARS),
    {
        self.attribute & attribute::INPUT_CHARS != 0
    }

    /// The event carries the `COMP_CONVERSION` attribute.
    pub fn is_comp_conversion(&self) -> (r: bool)
        ensures
            r == self.has(attribute::COMP_CONVERSION),
    {
        self.attribute & attribute::COMP_CONVERSION != 0
    }

    /// The event carries the `STICKY_KEY` attribute.
    pub fn is_sticky_key(&self) -> (r: bool)
        ensures
            r == self.has(attribute::STICKY_KEY),
    {
        self.attribute & attribute::STICKY_KEY != 0
    }
}

/// Packed key state: `| unused | modifier | key code | ascii |`, 8 bits each.
#[derive(Debug, Clone, Copy, PartialEq, Eq, PartialOrd, Ord, Hash, Structural)]
pub struct KeyState(pub u32);

/// The packed form of a key code with modifiers.
pub open spec fn spec_key_code(code: u32, mods: u32) -> u32 {
    (mods << 16u32) | ((code & 0xffu32) << 8u32)
}

/// The packed form of a character code with modifiers.
pub open spec fn spec_char_code(code: u32, mods: u32) -> u32 {
    (mods << 16u32) | (code & 0xffu32)
}

impl KeyState {
    pub fn key_code(code: u32, mods: u32) -> (r: Self)
        ensures
            r.0 == spec_key_code(code, mods),
    {
        KeyState((mods << 16u32) | ((code & 0xffu32) << 8u32))
    }

    pub fn char_code(code: u32, mods: u32) -> (r: Self)
        ensures
            r.0 == spec_char_code(code, mods),
    {
        KeyState((mods << 16u32) | (code & 0xffu32))
    }
}

} // verus!
