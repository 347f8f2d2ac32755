//! The terminal front end's reading of key bytes and its status and
//! candidate lines.

use vstd::prelude::*;
use crate::candidate::Candidate;
use crate::event::modifier;
use crate::input_mode::InputMode;
use crate::text::{decimal, push_decimal, push_str_chars, string_of};

verus! {

/// What a byte read from the terminal asks for.
#[derive(Debug, Clone, Copy, PartialEq, Eq, Structural)]
pub enum TerminalKey {
    /// Ctrl-C: leave.
    Quit,
    /// ESC: an escape sequence follows.
    Escape,
    /// A key press: character code and modifiers.
    Press(u8, u32),
    /// Nothing to do.
    Ignore,
}

/// The key press a terminal byte stands for: DEL is backspace, other
/// control characters are Ctrl with the matching letter.
pub open spec fn terminal_key_of(byte: u8) -> TerminalKey {
    if byte == 0x03 {
        TerminalKey::Quit
    } else if byte == 0x1b {
        TerminalKey::Escape
    } else if byte == 0x7f {
        TerminalKey::Press(0x08, 0)
    } else if byte == 0x08 || byte == 0x09 || byte == 0x0d || (0x20 <= byte <= 0x7e) {
        TerminalKey::Press(byte, 0)
    } else if byte <= 0x1f {
        TerminalKey::Press((byte + 0x60) as u8, modifier::CTRL)
    } else {
        TerminalKey::Ignore
    }
}

pub fn terminal_key(byte: u8) -> (r: TerminalKey)
    ensures
        r == terminal_key_of(byte),
{
    if byte == 0x03 {
        TerminalKey::Quit
    } else if byte == 0x1b {
        TerminalKey::Escape
    } else if byte == 0x7f {
        TerminalKey::Press(0x08, 0)
    } else if byte == 0x08 || byte == 0x09 || byte == 0x0d || (0x20 <= byte && byte <= 0x7e) {
        TerminalKey::Press(byte, 0)
    } else if byte <= 0x1f {
        TerminalKey::Press(byte + 0x60, modifier::CTRL)
    } else {
        TerminalKey::Ignore
    }
}

/// The cursor key code for the escape sequence "ESC [ x": up, down,
/// right, left.
pub fn arrow_code(first: u8, second: u8) -> (r: Option<u8>)
    ensures
        r == (if first != 0x5b {
            None
        } else if second == 0x41 {
            Some(0x1eu8)
        } else if second == 0x42 {
            Some(0x1fu8)
        } else if second == 0x43 {
            Some(0x1du8)
        } else if second == 0x44 {
            Some(0x1cu8)
        } else {
            None
        }),
{
    if first != 0x5b {
        return None;
    }
    match second {
        0x41 => Some(0x1e),
        0x42 => Some(0x1f),
        0x43 => Some(0x1d),
        0x44 => Some(0x1c),
        _ => None,
    }
}

pub open spec fn mode_name(mode: InputMode) -> Seq<char> {
    match mode {
        InputMode::Hirakana => "かな"@,
        InputMode::Katakana => "カナ"@,
        InputMode::Jisx0201Kana => "ｶﾅ"@,
        InputMode::Ascii => "英数"@,
        InputMode::Jisx0208Latin => "全英"@,
    }
}

/// The status line's name for an input mode.
pub fn mode_label(mode: InputMode) -> (r: &'static str)
    ensures
        r@ == mode_name(mode),
{
    match mode {
        InputMode::Hirakana => "かな",
        InputMode::Katakana => "カナ",
        InputMode::Jisx0201Kana => "ｶﾅ",
        InputMode::Ascii => "英数",
        InputMode::Jisx0208Latin => "全英",
    }
}

/// The label key of the `i`-th candidate on a page ("asdfjkl", then '?').
pub open spec fn label_char(i: int) -> char {
    if 0 <= i < 7 {
        "asdfjkl"@[i]
    } else {
        '?'
    }
}

/// One candidate of the window line: "[a:word] " under the cursor,
/// " a:word  " elsewhere.
pub open spec fn window_item(i: int, shown: Seq<char>, cursor: int) -> Seq<char> {
    if i == cursor {
        seq!['[', label_char(i), ':'] + shown + seq![']', ' ']
    } else {
        seq![' ', label_char(i), ':'] + shown + seq![' ', ' ']
    }
}

/// The items of the first `n` candidates shown.
pub open spec fn window_items(shown: Seq<Seq<char>>, cursor: int) -> Seq<char>
    decreases shown.len(),
{
    if shown.len() == 0 {
        Seq::empty()
    } else {
        window_items(shown.drop_last(), cursor) + window_item(shown.len() - 1, shown.last(), cursor)
    }
}

/// The candidate window as one terminal line, with the page number.
pub open spec fn window_text(shown: Seq<Seq<char>>, cursor: int, page: nat, pages: nat) -> Seq<char> {
    window_items(shown, cursor) + seq!['('] + decimal(page) + seq!['/'] + decimal(pages) + seq![')']
}

fn label(i: usize) -> (r: char)
    ensures
        r == label_char(i as int),
{
    let labels = "asdfjkl";
    proof {
        reveal_strlit("asdfjkl");
    }
    if i < 7 {
        labels.get_char(i)
    } else {
        '?'
    }
}

/// The candidate window line for a page.
pub fn window_line(view: &[Candidate], cursor: usize, page: usize, page_count: usize) -> (r: String)
    ensures
        r@ == window_text(
            view@.map_values(|c: Candidate| c@.shown()),
            cursor as int,
            page as nat,
            page_count as nat,
        ),
{
    let ghost shown = view@.map_values(|c: Candidate| c@.shown());
    let mut out: Vec<char> = Vec::new();
    let mut i: usize = 0;
    assert(shown.take(0) =~= Seq::<Seq<char>>::empty());
    while i < view.len()
        invariant
            i <= view@.len(),
            shown == view@.map_values(|c: Candidate| c@.shown()),
            out@ == window_items(shown.take(i as int), cursor as int),
        decreases view.len() - i,
    {
        let ghost before = out@;
        let l = label(i);
        if i == cursor {
            out.push('[');
            out.push(l);
            out.push(':');
            push_str_chars(&mut out, view[i].variant());
            out.push(']');
            out.push(' ');
        } else {
            out.push(' ');
            out.push(l);
            out.push(':');
            push_str_chars(&mut out, view[i].variant());
            out.push(' ');
            out.push(' ');
        }
        assert(shown[i as int] == view@[i as int]@.shown());
        assert(shown.take(i + 1).drop_last() =~= shown.take(i as int));
        assert(out@ =~= before + window_item(i as int, shown[i as int], cursor as int));
        i += 1;
    }
    assert(shown.take(view.len() as int) =~= shown);
    out.push('(');
    push_decimal(&mut out, page as u64);
    out.push('/');
    push_decimal(&mut out, page_count as u64);
    out.push(')');
    string_of(out.as_slice())
}

} // verus!
