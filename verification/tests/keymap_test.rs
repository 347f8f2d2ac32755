use nablaskk_core::event::attribute::{
    COMP_CONVERSION, DIRECT, INPUT_CHARS, PREV_CANDIDATE, TOGGLE_JISX0201_KANA, TOGGLE_KANA,
    UPPER_CASES,
};
use nablaskk_core::event::modifier::{CTRL, META, SHIFT};
use nablaskk_core::event::{Event, EventId};
use nablaskk_core::keymap::Keymap;

const KEYMAP_CONF: &str = "\
# event mapping
SKK_JMODE\t\tctrl::j
SKK_ENTER\t\tgroup::hex::0x03,0x0a,0x0d||ctrl::m
SKK_CANCEL\t\tctrl::g||hex::0x1b
SKK_BACKSPACE\t\thex::0x08||ctrl::h
SKK_DELETE\t\thex::0x7f||ctrl::d
SKK_TAB\t\t\thex::0x09||ctrl::i
SKK_PASTE\t\tmeta::v
SKK_LEFT\t\thex::0x1c||ctrl::b
SKK_RIGHT\t\thex::0x1d||ctrl::f
SKK_UP\t\t\thex::0x1e||ctrl::a
SKK_DOWN\t\thex::0x1f||ctrl::e
SKK_PING\t\tctrl::l

# attribute mapping
ToggleKana\t\tq
ToggleJisx0201Kana\tctrl::q
SwitchToAscii\t\tl
SwitchToJisx0208Latin\tL
EnterAbbrev\t\t/
EnterJapanese\t\tQ
NextCompletion\t\t.
PrevCompletion\t\t,
NextCandidate\t\thex::0x20||ctrl::n
PrevCandidate\t\tx||ctrl::p||shift::hex::0x20
RemoveTrigger\t\tX
UpperCases\t\tgroup::A-K,M-P,R-Z
Direct\t\t\tgroup::keycode::0x41,0x43,0x45,0x4b,0x4e,0x51-0x59,0x5b,0x5c,0x5f
InputChars\t\tgroup::hex::0x20-0x7e
CompConversion\t\talt::hex::0x20||shift::hex::0x20
";

const KEYMAP_PATCH: &str = "\
# remove and add attributes
NotToggleKana\tq
UpperCases\t\"
";

fn keymap() -> Keymap {
    let mut keymap = Keymap::new();
    keymap.load(KEYMAP_CONF);
    keymap
}

#[test]
fn events() {
    let keymap = keymap();

    assert_eq!(keymap.fetch(0, 0, 0), Event::new(EventId::Char, 0, 0));
    assert_eq!(keymap.fetch(b'j', 0, CTRL), Event::new(EventId::JMode, b'j', 0));
    assert_eq!(keymap.fetch(0x03, 0, 0), Event::new(EventId::Enter, 0x03, 0));
    assert_eq!(keymap.fetch(0x09, 0, 0), Event::new(EventId::Tab, 0x09, 0));
    assert_eq!(keymap.fetch(b'i', 0, CTRL), Event::new(EventId::Tab, b'i', 0));
    assert_eq!(keymap.fetch(b'g', 0, CTRL), Event::new(EventId::Cancel, b'g', 0));
    assert_eq!(keymap.fetch(0x1c, 0, 0), Event::new(EventId::Left, 0x1c, 0));
    assert_eq!(keymap.fetch(b'f', 0, CTRL), Event::new(EventId::Right, b'f', 0));
    assert_eq!(keymap.fetch(b'v', 0, META), Event::new(EventId::Paste, b'v', 0));
}

#[test]
fn attributes() {
    let keymap = keymap();

    assert_eq!(keymap.fetch(b'b', 0, 0), Event::new(EventId::Char, b'b', INPUT_CHARS));
    assert_eq!(
        keymap.fetch(b'q', 0, 0),
        Event::new(EventId::Char, b'q', TOGGLE_KANA | INPUT_CHARS)
    );
    assert_eq!(
        keymap.fetch(b'q', 0, CTRL),
        Event::new(EventId::Char, b'q', TOGGLE_JISX0201_KANA)
    );
    assert_eq!(
        keymap.fetch(b'A', 0, 0),
        Event::new(EventId::Char, b'A', UPPER_CASES | INPUT_CHARS)
    );
    assert_eq!(keymap.fetch(b'1', 0x51, 0), Event::new(EventId::Char, b'1', DIRECT));
    assert_eq!(
        keymap.fetch(0x20, 0, SHIFT),
        Event::new(EventId::Char, 0x20, PREV_CANDIDATE | COMP_CONVERSION)
    );
}

#[test]
fn patch() {
    let mut keymap = keymap();
    keymap.load(KEYMAP_PATCH);

    assert_eq!(keymap.fetch(b'b', 0, 0), Event::new(EventId::Char, b'b', INPUT_CHARS));
    assert_eq!(keymap.fetch(b'q', 0, 0), Event::new(EventId::Char, b'q', INPUT_CHARS));
    assert_eq!(
        keymap.fetch(b'"', 0, 0),
        Event::new(EventId::Char, b'"', UPPER_CASES | INPUT_CHARS)
    );
}

#[test]
fn shifted_printable_falls_back_to_unshifted() {
    let keymap = keymap();
    assert_eq!(keymap.fetch(b'j', 0, CTRL | SHIFT), Event::new(EventId::JMode, b'j', 0));
}

#[test]
fn comments_and_unknown_names_are_ignored() {
    let mut keymap = Keymap::new();
    keymap.load("# SKK_JMODE ctrl::j\nNoSuchThing ctrl::k\nSKK_PING ctrl::l\n");
    assert_eq!(keymap.fetch(b'j', 0, CTRL), Event::new(EventId::Char, b'j', 0));
    assert_eq!(keymap.fetch(b'k', 0, CTRL), Event::new(EventId::Char, b'k', 0));
    assert_eq!(keymap.fetch(b'l', 0, CTRL), Event::new(EventId::Ping, b'l', 0));
}
