//! Keymap configuration: which key presses make which events, carry which
//! attributes, and how they are reported.

use vstd::prelude::*;
use vstd::utf8::encode_utf8;
use std::collections::HashMap;
use crate::dictionary::file::{lines_of, split_lines};
use crate::event::{attribute, modifier, spec_char_code, spec_key_code, Event, EventId, HandleOption, KeyState};
use crate::text::{
    chars_of, chars_occur_at, first_index_of, has_prefix, lemma_first_index_of, occurs_at, str_eq, str_starts_with,
    string_of, string_of_range, chars_find, push_chars,
};
use crate::trie::words_of;

verus! {

broadcast use vstd::std_specs::hash::group_hash_axioms;

/// What a keymap name stands for.
#[derive(Debug, Clone, Copy, PartialEq, Eq, Structural)]
pub enum Symbol {
    Event(EventId),
    Attribute(u32),
    Handling(HandleOption),
}

/// The symbol a keymap name stands for.
pub open spec fn symbol_named(name: Seq<char>) -> Option<Symbol> {
    if name == "SKK_JMODE"@ {
        Some(Symbol::Event(EventId::JMode))
    } else if name == "SKK_ENTER"@ {
        Some(Symbol::Event(EventId::Enter))
    } else if name == "SKK_CANCEL"@ {
        Some(Symbol::Event(EventId::Cancel))
    } else if name == "SKK_BACKSPACE"@ {
        Some(Symbol::Event(EventId::Backspace))
    } else if name == "SKK_DELETE"@ {
        Some(Symbol::Event(EventId::Delete))
    } else if name == "SKK_TAB"@ {
        Some(Symbol::Event(EventId::Tab))
    } else if name == "SKK_PASTE"@ {
        Some(Symbol::Event(EventId::Paste))
    } else if name == "SKK_LEFT"@ {
        Some(Symbol::Event(EventId::Left))
    } else if name == "SKK_RIGHT"@ {
        Some(Symbol::Event(EventId::Right))
    } else if name == "SKK_UP"@ {
        Some(Symbol::Event(EventId::Up))
    } else if name == "SKK_DOWN"@ {
        Some(Symbol::Event(EventId::Down))
    } else if name == "SKK_CHAR"@ {
        Some(Symbol::Event(EventId::Char))
    } else if name == "SKK_PING"@ {
        Some(Symbol::Event(EventId::Ping))
    } else if name == "SKK_YES"@ {
        Some(Symbol::Event(EventId::Yes))
    } else if name == "SKK_NO"@ {
        Some(Symbol::Event(EventId::No))
    } else if name == "SKK_UNDO"@ {
        Some(Symbol::Event(EventId::Undo))
    } else if name == "Direct"@ {
        Some(Symbol::Attribute(attribute::DIRECT))
    } else if name == "UpperCases"@ {
        Some(Symbol::Attribute(attribute::UPPER_CASES))
    } else if name == "ToggleKana"@ {
        Some(Symbol::Attribute(attribute::TOGGLE_KANA))
    } else if name == "ToggleJisx0201Kana"@ {
        Some(Symbol::Attribute(attribute::TOGGLE_JISX0201_KANA))
    } else if name == "SwitchToAscii"@ {
        Some(Symbol::Attribute(attribute::SWITCH_TO_ASCII))
    } else if name == "SwitchToJisx0208Latin"@ {
        Some(Symbol::Attribute(attribute::SWITCH_TO_JISX0208_LATIN))
    } else if name == "EnterJapanese"@ {
        Some(Symbol::Attribute(attribute::ENTER_JAPANESE))
    } else if name == "EnterAbbrev"@ {
        Some(Symbol::Attribute(attribute::ENTER_ABBREV))
    } else if name == "NextCompletion"@ {
        Some(Symbol::Attribute(attribute::NEXT_COMPLETION))
    } else if name == "PrevCompletion"@ {
        Some(Symbol::Attribute(attribute::PREV_COMPLETION))
    } else if name == "NextCandidate"@ {
        Some(Symbol::Attribute(attribute::NEXT_CANDIDATE))
    } else if name == "PrevCandidate"@ {
        Some(Symbol::Attribute(attribute::PREV_CANDIDATE))
    } else if name == "RemoveTrigger"@ {
        Some(Symbol::Attribute(attribute::REMOVE_TRIGGER))
    } else if name == "InputChars"@ {
        Some(Symbol::Attribute(attribute::INPUT_CHARS))
    } else if name == "CompConversion"@ {
        Some(Symbol::Attribute(attribute::COMP_CONVERSION))
    } else if name == "StickyKey"@ {
        Some(Symbol::Attribute(attribute::STICKY_KEY))
    } else if name == "AlwaysHandled"@ {
        Some(Symbol::Handling(HandleOption::AlwaysHandled))
    } else if name == "PseudoHandled"@ {
        Some(Symbol::Handling(HandleOption::PseudoHandled))
    } else {
        None
    }
}

fn lookup_symbol(name: &str) -> (r: Option<Symbol>)
    ensures
        r == symbol_named(name@),
{
    if str_eq(name, "SKK_JMODE") {
        return Some(Symbol::Event(EventId::JMode));
    }
    if str_eq(name, "SKK_ENTER") {
        return Some(Symbol::Event(EventId::Enter));
    }
    if str_eq(name, "SKK_CANCEL") {
        return Some(Symbol::Event(EventId::Cancel));
    }
    if str_eq(name, "SKK_BACKSPACE") {
        return Some(Symbol::Event(EventId::Backspace));
    }
    if str_eq(name, "SKK_DELETE") {
        return Some(Symbol::Event(EventId::Delete));
    }
    if str_eq(name, "SKK_TAB") {
        return Some(Symbol::Event(EventId::Tab));
    }
    if str_eq(name, "SKK_PASTE") {
        return Some(Symbol::Event(EventId::Paste));
    }
    if str_eq(name, "SKK_LEFT") {
        return Some(Symbol::Event(EventId::Left));
    }
    if str_eq(name, "SKK_RIGHT") {
        return Some(Symbol::Event(EventId::Right));
    }
    if str_eq(name, "SKK_UP") {
        return Some(Symbol::Event(EventId::Up));
    }
    if str_eq(name, "SKK_DOWN") {
        return Some(Symbol::Event(EventId::Down));
    }
    if str_eq(name, "SKK_CHAR") {
        return Some(Symbol::Event(EventId::Char));
    }
    if str_eq(name, "SKK_PING") {
        return Some(Symbol::Event(EventId::Ping));
    }
    if str_eq(name, "SKK_YES") {
        return Some(Symbol::Event(EventId::Yes));
    }
    if str_eq(name, "SKK_NO") {
        return Some(Symbol::Event(EventId::No));
    }
    if str_eq(name, "SKK_UNDO") {
        return Some(Symbol::Event(EventId::Undo));
    }
    if str_eq(name, "Direct") {
        return Some(Symbol::Attribute(attribute::DIRECT));
    }
    if str_eq(name, "UpperCases") {
        return Some(Symbol::Attribute(attribute::UPPER_CASES));
    }
    if str_eq(name, "ToggleKana") {
        return Some(Symbol::Attribute(attribute::TOGGLE_KANA));
    }
    if str_eq(name, "ToggleJisx0201Kana") {
        return Some(Symbol::Attribute(attribute::TOGGLE_JISX0201_KANA));
    }
    if str_eq(name, "SwitchToAscii") {
        return Some(Symbol::Attribute(attribute::SWITCH_TO_ASCII));
    }
    if str_eq(name, "SwitchToJisx0208Latin") {
        return Some(Symbol::Attribute(attribute::SWITCH_TO_JISX0208_LATIN));
    }
    if str_eq(name, "EnterJapanese") {
        return Some(Symbol::Attribute(attribute::ENTER_JAPANESE));
    }
    if str_eq(name, "EnterAbbrev") {
        return Some(Symbol::Attribute(attribute::ENTER_ABBREV));
    }
    if str_eq(name, "NextCompletion") {
        return Some(Symbol::Attribute(attribute::NEXT_COMPLETION));
    }
    if str_eq(name, "PrevCompletion") {
        return Some(Symbol::Attribute(attribute::PREV_COMPLETION));
    }
    if str_eq(name, "NextCandidate") {
        return Some(Symbol::Attribute(attribute::NEXT_CANDIDATE));
    }
    if str_eq(name, "PrevCandidate") {
        return Some(Symbol::Attribute(attribute::PREV_CANDIDATE));
    }
    if str_eq(name, "RemoveTrigger") {
        return Some(Symbol::Attribute(attribute::REMOVE_TRIGGER));
    }
    if str_eq(name, "InputChars") {
        return Some(Symbol::Attribute(attribute::INPUT_CHARS));
    }
    if str_eq(name, "CompConversion") {
        return Some(Symbol::Attribute(attribute::COMP_CONVERSION));
    }
    if str_eq(name, "StickyKey") {
        return Some(Symbol::Attribute(attribute::STICKY_KEY));
    }
    if str_eq(name, "AlwaysHandled") {
        return Some(Symbol::Handling(HandleOption::AlwaysHandled));
    }
    if str_eq(name, "PseudoHandled") {
        return Some(Symbol::Handling(HandleOption::PseudoHandled));
    }
    None
}

/// The first occurrence of `sep` in `s` at or after `i`.
pub open spec fn find_from(s: Seq<char>, sep: Seq<char>, i: int) -> Option<int>
    decreases s.len() + 1 - i,
{
    if i < 0 || i + sep.len() > s.len() {
        None
    } else if occurs_at(s, sep, i) {
        Some(i)
    } else {
        find_from(s, sep, i + 1)
    }
}

proof fn lemma_find_from(s: Seq<char>, sep: Seq<char>, j: int)
    ensures
        match find_from(s, sep, j) {
            Some(i) => j <= i && 0 <= i && i + sep.len() <= s.len() && occurs_at(s, sep, i),
            None => true,
        },
    decreases s.len() + 1 - j,
{
    if j >= 0 && j + sep.len() <= s.len() && !occurs_at(s, sep, j) {
        lemma_find_from(s, sep, j + 1);
    }
}

/// The pieces of `s` between occurrences of `sep` (`str::split`).
pub open spec fn split_by(s: Seq<char>, sep: Seq<char>) -> Seq<Seq<char>>
    decreases s.len(),
{
    if sep.len() == 0 {
        seq![s]
    } else {
        match find_from(s, sep, 0) {
            Some(i) => if 0 <= i && i + sep.len() <= s.len() {
                proof {
                    assert(s.skip(i + sep.len()).len() < s.len());
                }
                seq![s.take(i)] + split_by(s.skip(i + sep.len()), sep)
            } else {
                seq![s]
            },
            None => seq![s],
        }
    }
}

/// `s` without leading "0x" prefixes (`str::trim_start_matches("0x")`).
pub open spec fn strip_hex_prefix(s: Seq<char>) -> Seq<char>
    decreases s.len(),
{
    if s.len() >= 2 && s[0] == '0' && s[1] == 'x' {
        strip_hex_prefix(s.skip(2))
    } else {
        s
    }
}

/// The value of a hexadecimal digit.
pub open spec fn hex_digit(c: char) -> Option<int> {
    if '0' <= c <= '9' {
        Some(c as int - '0' as int)
    } else if 'a' <= c <= 'f' {
        Some(c as int - 'a' as int + 10)
    } else if 'A' <= c <= 'F' {
        Some(c as int - 'A' as int + 10)
    } else {
        None
    }
}

/// The value of a string of hexadecimal digits (none for a non-digit).
pub open spec fn hex_value(s: Seq<char>) -> Option<int>
    decreases s.len(),
{
    if s.len() == 0 {
        Some(0)
    } else {
        match (hex_value(s.drop_last()), hex_digit(s.last())) {
            (Some(v), Some(d)) => Some(v * 16 + d),
            _ => None,
        }
    }
}

/// A nonempty string of hexadecimal digits whose value fits in `u32`.
pub open spec fn hex_u32(d: Seq<char>) -> Option<u32> {
    if d.len() == 0 {
        None
    } else {
        match hex_value(d) {
            Some(v) => if v <= u32::MAX { Some(v as u32) } else { None },
            None => None,
        }
    }
}

/// `u32::from_str_radix(s, 16)`: an optional '+' and at least one digit,
/// within `u32`.
pub open spec fn parse_hex(s: Seq<char>) -> Option<u32> {
    hex_u32(if s.len() > 0 && s[0] == '+' { s.skip(1) } else { s })
}

/// The labels of one key description and the key itself.
pub struct KeySpec {
    pub group: bool,
    pub hex: bool,
    pub keycode: bool,
    pub mods: u32,
    pub key: Seq<char>,
}

/// The effect of one "::"-separated token of a key description.
pub open spec fn label_step(st: KeySpec, tok: Seq<char>) -> KeySpec {
    if tok == "group"@ {
        KeySpec { group: true, ..st }
    } else if tok == "hex"@ {
        KeySpec { hex: true, ..st }
    } else if tok == "keycode"@ {
        KeySpec { keycode: true, ..st }
    } else if tok == "shift"@ {
        KeySpec { mods: st.mods | modifier::SHIFT, ..st }
    } else if tok == "ctrl"@ {
        KeySpec { mods: st.mods | modifier::CTRL, ..st }
    } else if tok == "alt"@ {
        KeySpec { mods: st.mods | modifier::ALT, ..st }
    } else if tok == "meta"@ {
        KeySpec { mods: st.mods | modifier::META, ..st }
    } else {
        KeySpec { key: tok, ..st }
    }
}

/// The labels and key of tokens `toks`.
pub open spec fn labels_of(toks: Seq<Seq<char>>) -> KeySpec
    decreases toks.len(),
{
    if toks.len() == 0 {
        KeySpec { group: false, hex: false, keycode: false, mods: 0, key: Seq::empty() }
    } else {
        label_step(labels_of(toks.drop_last()), toks.last())
    }
}

/// The code an item names: hexadecimal for hex and key-code descriptions,
/// else the first byte of the item.
pub open spec fn item_code(st: KeySpec, item: Seq<char>) -> Option<u32> {
    if st.hex || st.keycode {
        parse_hex(strip_hex_prefix(item))
    } else if item.len() > 0 {
        Some(encode_utf8(item)[0] as u32)
    } else {
        None
    }
}

/// The packed key state of `code` with the description's modifiers.
pub open spec fn key_of(st: KeySpec, code: u32) -> u32 {
    if st.keycode {
        spec_key_code(code, st.mods)
    } else {
        spec_char_code(code, st.mods)
    }
}

/// The key states of codes `from..=to`.
pub open spec fn range_keys(st: KeySpec, from: u32, to: u32) -> Seq<u32> {
    Seq::new(if from <= to { (to - from + 1) as nat } else { 0 }, |i: int| key_of(st, (from + i) as u32))
}

/// The key states of one item of a group: a range "A-K" or a single code.
pub open spec fn item_keys(st: KeySpec, item: Seq<char>) -> Seq<u32> {
    match first_index_of(item, '-') {
        Some(i) => match (item_code(st, item.take(i)), item_code(st, item.skip(i + 1))) {
            (Some(f), Some(t)) => range_keys(st, f, t),
            _ => Seq::empty(),
        },
        None => match item_code(st, item) {
            Some(c) => seq![key_of(st, c)],
            None => Seq::empty(),
        },
    }
}

/// The key states of group items `items`, in order.
pub open spec fn group_keys(st: KeySpec, items: Seq<Seq<char>>) -> Seq<u32>
    decreases items.len(),
{
    if items.len() == 0 {
        Seq::empty()
    } else {
        group_keys(st, items.drop_last()) + item_keys(st, items.last())
    }
}

/// The key states of one "||"-separated key description.
pub open spec fn desc_keys(desc: Seq<char>) -> Seq<u32> {
    let st = labels_of(split_by(desc, "::"@));
    if st.group {
        group_keys(st, split_by(st.key, ","@))
    } else {
        match item_code(st, st.key) {
            Some(c) => seq![key_of(st, c)],
            None => Seq::empty(),
        }
    }
}

/// The key states of descriptions `ds`, in order.
pub open spec fn descs_keys(ds: Seq<Seq<char>>) -> Seq<u32>
    decreases ds.len(),
{
    if ds.len() == 0 {
        Seq::empty()
    } else {
        descs_keys(ds.drop_last()) + desc_keys(ds.last())
    }
}

/// The three tables of a keymap.
pub struct KeymapModel {
    pub events: Map<u32, EventId>,
    pub attributes: Map<u32, u32>,
    pub options: Map<u32, HandleOption>,
}

/// One key state bound to a symbol (`not`: the attribute is taken away).
pub open spec fn bind_key(m: KeymapModel, sym: Symbol, not: bool, k: u32) -> KeymapModel {
    match sym {
        Symbol::Event(id) => KeymapModel { events: m.events.insert(k, id), ..m },
        Symbol::Attribute(bits) => if not {
            if m.attributes.contains_key(k) {
                KeymapModel { attributes: m.attributes.insert(k, m.attributes[k] & !bits), ..m }
            } else {
                m
            }
        } else {
            KeymapModel {
                events: m.events.insert(k, EventId::Char),
                attributes: m.attributes.insert(
                    k,
                    (if m.attributes.contains_key(k) { m.attributes[k] } else { 0 }) | bits,
                ),
                ..m
            }
        },
        Symbol::Handling(o) => KeymapModel { options: m.options.insert(k, o), ..m },
    }
}

/// Key states `ks` bound in turn.
pub open spec fn bind_keys(m: KeymapModel, sym: Symbol, not: bool, ks: Seq<u32>) -> KeymapModel
    decreases ks.len(),
{
    if ks.len() == 0 {
        m
    } else {
        bind_key(bind_keys(m, sym, not, ks.drop_last()), sym, not, ks.last())
    }
}

/// The effect of one configuration line "Name value": comments, short
/// lines and unknown names change nothing; "Not" before an attribute name
/// takes the attribute away.
pub open spec fn keymap_line(m: KeymapModel, line: Seq<char>) -> KeymapModel {
    let toks = words_of(line);
    if toks.len() < 2 || has_prefix(toks[0], "#"@) {
        m
    } else {
        let not = has_prefix(toks[0], "Not"@);
        let name = if not { toks[0].skip(3) } else { toks[0] };
        match symbol_named(name) {
            Some(sym) => bind_keys(m, sym, not, descs_keys(split_by(toks[1], "||"@))),
            None => m,
        }
    }
}

/// Lines `ls` applied in turn.
pub open spec fn keymap_lines(m: KeymapModel, ls: Seq<Seq<char>>) -> KeymapModel
    decreases ls.len(),
{
    if ls.len() == 0 {
        m
    } else {
        keymap_line(keymap_lines(m, ls.drop_last()), ls.last())
    }
}

/// A character bound to an event is read back as that event, unless the
/// key pressed has a key-code binding of its own (key codes come first).
pub proof fn law_bound_event_is_fetched(m: KeymapModel, id: EventId, c: u8, keycode: u8, mods: u32)
    requires
        spec_key_code(keycode as u32, mods) == spec_char_code(c as u32, mods)
            || !m.events.contains_key(spec_key_code(keycode as u32, mods)),
    ensures
        fetched(bind_key(m, Symbol::Event(id), false, spec_char_code(c as u32, mods)), c, keycode, mods).id == id,
{
}

/// An attribute taken away with "Not" is gone from the key; other
/// attributes of the key stay.
pub proof fn law_not_removes_attribute(m: KeymapModel, bits: u32, k: u32)
    requires
        m.attributes.contains_key(k),
    ensures
        bind_key(m, Symbol::Attribute(bits), true, k).attributes[k] & bits == 0,
        bind_key(m, Symbol::Attribute(bits), true, k).attributes[k] == m.attributes[k] & !bits,
{
    let a = m.attributes[k];
    assert((a & !bits) & bits == 0) by (bit_vector);
}

/// Adding an attribute to a key keeps the attributes it had and makes the
/// key a character key.
pub proof fn law_attributes_accumulate(m: KeymapModel, bits: u32, k: u32)
    ensures
        bind_key(m, Symbol::Attribute(bits), false, k).events[k] == EventId::Char,
        bind_key(m, Symbol::Attribute(bits), false, k).attributes[k] & bits == bits,
        m.attributes.contains_key(k) ==> bind_key(m, Symbol::Attribute(bits), false, k).attributes[k]
            & m.attributes[k] == m.attributes[k],
{
    let a: u32 = if m.attributes.contains_key(k) { m.attributes[k] } else { 0 };
    assert((a | bits) & bits == bits) by (bit_vector);
    assert((a | bits) & a == a) by (bit_vector);
}

/// Look a key press up: by key code, then by character code, then (for a
/// printable character) by character code without shift.
pub open spec fn find_key<T>(m: Map<u32, T>, charcode: u8, keycode: u8, mods: u32) -> Option<T> {
    let kc = spec_key_code(keycode as u32, mods);
    let cc = spec_char_code(charcode as u32, mods);
    let unshifted = mods & !modifier::SHIFT;
    let kc2 = spec_key_code(keycode as u32, unshifted);
    let cc2 = spec_char_code(charcode as u32, unshifted);
    if m.contains_key(kc) {
        Some(m[kc])
    } else if m.contains_key(cc) {
        Some(m[cc])
    } else if 0x21 <= charcode <= 0x7e && mods & modifier::SHIFT != 0 {
        if m.contains_key(kc2) {
            Some(m[kc2])
        } else if m.contains_key(cc2) {
            Some(m[cc2])
        } else {
            None
        }
    } else {
        None
    }
}

/// The event a key press makes.
pub open spec fn fetched(m: KeymapModel, charcode: u8, keycode: u8, mods: u32) -> Event {
    let id = match find_key(m.events, charcode, keycode, mods) {
        Some(id) => id,
        None => EventId::Char,
    };
    Event {
        id,
        code: charcode,
        attribute: if id == EventId::Char {
            match find_key(m.attributes, charcode, keycode, mods) {
                Some(a) => a,
                None => 0,
            }
        } else {
            0
        },
        option: match find_key(m.options, charcode, keycode, mods) {
            Some(o) => o,
            None => HandleOption::Default,
        },
    }
}

fn chars_vec(s: &[char]) -> (r: Vec<char>)
    ensures
        r@ == s@,
{
    let mut r: Vec<char> = Vec::new();
    push_chars(&mut r, s);
    assert(r@ =~= s@);
    r
}

/// The first occurrence of `sep` in `s`.
fn find_seq(s: &[char], sep: &[char]) -> (r: Option<usize>)
    requires
        sep@.len() > 0,
    ensures
        match r {
            Some(i) => find_from(s@, sep@, 0) == Some(i as int),
            None => find_from(s@, sep@, 0) is None,
        },
{
    let mut i: usize = 0;
    while i < s.len() && sep.len() <= s.len() - i
        invariant
            i <= s@.len(),
            sep@.len() > 0,
            find_from(s@, sep@, 0) == find_from(s@, sep@, i as int),
        decreases s.len() - i,
    {
        if chars_occur_at(s, sep, i) {
            return Some(i);
        }
        i += 1;
    }
    None
}

/// The pieces of `s` between occurrences of `sep`.
fn split_chars(s: &[char], sep: &[char]) -> (r: Vec<Vec<char>>)
    requires
        sep@.len() > 0,
    ensures
        r@.map_values(|p: Vec<char>| p@) == split_by(s@, sep@),
{
    let mut done: Vec<Vec<char>> = Vec::new();
    let mut rest: Vec<char> = chars_vec(s);
    assert(done@.map_values(|p: Vec<char>| p@) + split_by(rest@, sep@) =~= split_by(s@, sep@));
    loop
        invariant
            sep@.len() > 0,
            done@.map_values(|p: Vec<char>| p@) + split_by(rest@, sep@) == split_by(s@, sep@),
        decreases rest@.len(),
    {
        proof {
            lemma_find_from(rest@, sep@, 0);
        }
        match find_seq(rest.as_slice(), sep) {
            Some(i) => {
                assert(i + sep@.len() <= rest@.len());
                let n = rest.len();
                let j = i + sep.len();
                let head = chars_vec(&rest.as_slice()[0..i]);
                let tail = chars_vec(&rest.as_slice()[j..n]);
                assert(head@ =~= rest@.take(i as int));
                assert(tail@ =~= rest@.skip(i + sep@.len()));
                let ghost before = done@;
                done.push(head);
                assert(done@.map_values(|p: Vec<char>| p@) =~= before.map_values(|p: Vec<char>| p@).push(
                    rest@.take(i as int),
                ));
                assert(split_by(rest@, sep@) == seq![rest@.take(i as int)] + split_by(tail@, sep@));
                assert(done@.map_values(|p: Vec<char>| p@) + split_by(tail@, sep@) =~= before.map_values(
                    |p: Vec<char>| p@,
                ) + split_by(rest@, sep@));
                rest = tail;
            },
            None => {
                let ghost before = done@;
                let ghost last = rest@;
                done.push(rest);
                assert(done@.map_values(|p: Vec<char>| p@) =~= before.map_values(|p: Vec<char>| p@) + seq![last]);
                return done;
            },
        }
    }
}

proof fn lemma_hex_none(s: Seq<char>, k: int)
    requires
        0 <= k <= s.len(),
        hex_value(s.take(k)) is None,
    ensures
        hex_value(s) is None,
    decreases s.len() - k,
{
    if k < s.len() {
        assert(s.take(k + 1).drop_last() =~= s.take(k));
        lemma_hex_none(s, k + 1);
    } else {
        assert(s.take(k) =~= s);
    }
}

/// The value of a hexadecimal number, as `u32::from_str_radix(s, 16)`
/// gives it after leading "0x" prefixes are removed.
fn hex_code(item: &[char]) -> (r: Option<u32>)
    ensures
        r == parse_hex(strip_hex_prefix(item@)),
{
    let mut start: usize = 0;
    assert(item@.skip(0) =~= item@);
    while start < item.len() && item.len() - start >= 2 && item[start] == '0' && item[start + 1] == 'x'
        invariant
            start <= item@.len(),
            strip_hex_prefix(item@) == strip_hex_prefix(item@.skip(start as int)),
        decreases item.len() - start,
    {
        assert(item@.skip(start as int).skip(2) =~= item@.skip(start + 2));
        start += 2;
    }
    let ghost d0 = item@.skip(start as int);
    assert(strip_hex_prefix(d0) == d0);
    if start < item.len() && item[start] == '+' {
        start += 1;
    }
    let ghost d = item@.skip(start as int);
    assert(d =~= if d0.len() > 0 && d0[0] == '+' { d0.skip(1) } else { d0 });
    if start == item.len() {
        return None;
    }
    let mut acc: u64 = 0;
    let mut over = false;
    let mut i: usize = start;
    assert(d.take(0) =~= Seq::<char>::empty());
    while i < item.len()
        invariant
            start <= i <= item@.len(),
            d == item@.skip(start as int),
            d.len() > 0,
            parse_hex(strip_hex_prefix(item@)) == hex_u32(d),
            over ==> (hex_value(d.take(i - start)) is None || hex_value(d.take(i - start)).unwrap() > u32::MAX),
            !over ==> hex_value(d.take(i - start)) == Some(acc as int) && acc <= u32::MAX,
        decreases item.len() - i,
    {
        let c = item[i];
        assert(d.take(i - start + 1).drop_last() =~= d.take(i - start));
        assert(d.take(i - start + 1).last() == c);
        let digit: u64 = if '0' <= c && c <= '9' {
            (c as u64) - ('0' as u64)
        } else if 'a' <= c && c <= 'f' {
            (c as u64) - ('a' as u64) + 10
        } else if 'A' <= c && c <= 'F' {
            (c as u64) - ('A' as u64) + 10
        } else {
            proof {
                lemma_hex_none(d, i - start + 1);
            }
            return None;
        };
        if !over {
            let next = acc * 16 + digit;
            if next > 0xffff_ffff {
                over = true;
            } else {
                acc = next;
            }
        }
        i += 1;
    }
    assert(d.take(i - start) =~= d);
    if over {
        None
    } else {
        Some(acc as u32)
    }
}

/// The code an item names.
fn code_of(st: &ParsedSpec, item: &[char]) -> (r: Option<u32>)
    ensures
        r == item_code(st.model(), item@),
{
    if st.hex || st.keycode {
        hex_code(item)
    } else if item.len() > 0 {
        let s = string_of(item);
        let b = s.as_str().as_bytes();
        proof {
            vstd::utf8::encode_utf8_first_scalar(item@);
        }
        Some(b[0] as u32)
    } else {
        None
    }
}

/// Labels and key of a key description, as read.
struct ParsedSpec {
    group: bool,
    hex: bool,
    keycode: bool,
    mods: u32,
    key: Vec<char>,
}

impl ParsedSpec {
    spec fn model(&self) -> KeySpec {
        KeySpec { group: self.group, hex: self.hex, keycode: self.keycode, mods: self.mods, key: self.key@ }
    }
}

fn token_is(tok: &[char], word: &str) -> (r: bool)
    ensures
        r == (tok@ == word@),
{
    let s = string_of(tok);
    str_eq(s.as_str(), word)
}

/// Read the "::"-separated tokens of a key description.
fn parse_labels(desc: &[char]) -> (r: ParsedSpec)
    ensures
        r.model() == labels_of(split_by(desc@, "::"@)),
{
    let sep = chars_of("::");
    proof {
        reveal_strlit("::");
    }
    let toks = split_chars(desc, sep.as_slice());
    let ghost ts = toks@.map_values(|p: Vec<char>| p@);
    let mut st = ParsedSpec { group: false, hex: false, keycode: false, mods: 0, key: Vec::new() };
    let mut i: usize = 0;
    assert(ts.take(0) =~= Seq::<Seq<char>>::empty());
    assert(st.model() == labels_of(ts.take(0))) by {
        assert(st.key@ =~= Seq::<char>::empty());
    }
    while i < toks.len()
        invariant
            i <= toks@.len(),
            ts == toks@.map_values(|p: Vec<char>| p@),
            st.model() == labels_of(ts.take(i as int)),
        decreases toks.len() - i,
    {
        assert(ts.take(i + 1).drop_last() =~= ts.take(i as int));
        assert(ts.take(i + 1).last() == toks@[i as int]@);
        let t = toks[i].as_slice();
        if token_is(t, "group") {
            st.group = true;
        } else if token_is(t, "hex") {
            st.hex = true;
        } else if token_is(t, "keycode") {
            st.keycode = true;
        } else if token_is(t, "shift") {
            st.mods = st.mods | modifier::SHIFT;
        } else if token_is(t, "ctrl") {
            st.mods = st.mods | modifier::CTRL;
        } else if token_is(t, "alt") {
            st.mods = st.mods | modifier::ALT;
        } else if token_is(t, "meta") {
            st.mods = st.mods | modifier::META;
        } else {
            st.key = chars_vec(t);
        }
        i += 1;
    }
    assert(ts.take(toks.len() as int) =~= ts);
    st
}

fn make_key(st: &ParsedSpec, code: u32) -> (r: u32)
    ensures
        r == key_of(st.model(), code),
{
    if st.keycode {
        KeyState::key_code(code, st.mods).0
    } else {
        KeyState::char_code(code, st.mods).0
    }
}

/// Add the key states of one group item.
fn push_item_keys(st: &ParsedSpec, item: &[char], keys: &mut Vec<u32>)
    ensures
        final(keys)@ == old(keys)@ + item_keys(st.model(), item@),
{
    proof {
        lemma_first_index_of(item@, '-');
    }
    match chars_find(item, '-') {
        Some(i) => {
            let n = item.len();
            let from = code_of(st, &item[0..i]);
            let to = code_of(st, &item[i + 1..n]);
            assert(item@.subrange(0, i as int) =~= item@.take(i as int));
            assert(item@.subrange(i + 1, item@.len() as int) =~= item@.skip(i + 1));
            match (from, to) {
                (Some(f), Some(t)) => {
                    let ghost before = keys@;
                    if f <= t {
                        let mut code = f;
                        let mut done = false;
                        while !done
                            invariant
                                f <= code <= t,
                                !done ==> keys@ == before + range_keys(st.model(), f, t).take(code - f),
                                done ==> keys@ == before + range_keys(st.model(), f, t),
                            decreases (t - code) as int + if done { 0int } else { 1int },
                        {
                            keys.push(make_key(st, code));
                            assert(range_keys(st.model(), f, t).take(code - f + 1) =~= range_keys(st.model(), f, t).take(
                                code - f,
                            ).push(key_of(st.model(), code)));
                            if code == t {
                                assert(range_keys(st.model(), f, t).take(code - f + 1) =~= range_keys(st.model(), f, t));
                                done = true;
                            } else {
                                code = code + 1;
                            }
                        }
                    } else {
                        assert(range_keys(st.model(), f, t) =~= Seq::<u32>::empty());
                        assert(keys@ =~= before + Seq::<u32>::empty());
                    }
                },
                _ => {
                    assert(keys@ =~= old(keys)@ + Seq::<u32>::empty());
                },
            }
        },
        None => {
            match code_of(st, item) {
                Some(c) => {
                    keys.push(make_key(st, c));
                },
                None => {
                    assert(keys@ =~= old(keys)@ + Seq::<u32>::empty());
                },
            }
        },
    }
}

/// The key states of one key description.
fn desc_key_list(desc: &[char], keys: &mut Vec<u32>)
    ensures
        final(keys)@ == old(keys)@ + desc_keys(desc@),
{
    let st = parse_labels(desc);
    if st.group {
        let comma = chars_of(",");
        proof {
            reveal_strlit(",");
        }
        let items = split_chars(st.key.as_slice(), comma.as_slice());
        let ghost its = items@.map_values(|p: Vec<char>| p@);
        let ghost k0 = keys@;
        let mut i: usize = 0;
        assert(its.take(0) =~= Seq::<Seq<char>>::empty());
        assert(k0 + group_keys(st.model(), its.take(0)) =~= k0);
        while i < items.len()
            invariant
                i <= items@.len(),
                its == items@.map_values(|p: Vec<char>| p@),
                keys@ == k0 + group_keys(st.model(), its.take(i as int)),
            decreases items.len() - i,
        {
            assert(its.take(i + 1).drop_last() =~= its.take(i as int));
            assert(its.take(i + 1).last() == items@[i as int]@);
            push_item_keys(&st, items[i].as_slice(), keys);
            assert(k0 + group_keys(st.model(), its.take(i + 1)) =~= k0 + group_keys(st.model(), its.take(i as int))
                + item_keys(st.model(), items@[i as int]@));
            i += 1;
        }
        assert(its.take(items.len() as int) =~= its);
    } else {
        match code_of(&st, st.key.as_slice()) {
            Some(c) => {
                keys.push(make_key(&st, c));
            },
            None => {
                assert(keys@ =~= old(keys)@ + Seq::<u32>::empty());
            },
        }
    }
}

/// The key states of a "||"-separated value.
fn value_keys(value: &[char]) -> (r: Vec<u32>)
    ensures
        r@ == descs_keys(split_by(value@, "||"@)),
{
    let sep = chars_of("||");
    proof {
        reveal_strlit("||");
    }
    let descs = split_chars(value, sep.as_slice());
    let ghost ds = descs@.map_values(|p: Vec<char>| p@);
    let mut keys: Vec<u32> = Vec::new();
    let mut i: usize = 0;
    assert(ds.take(0) =~= Seq::<Seq<char>>::empty());
    assert(keys@ =~= descs_keys(ds.take(0)));
    while i < descs.len()
        invariant
            i <= descs@.len(),
            ds == descs@.map_values(|p: Vec<char>| p@),
            keys@ == descs_keys(ds.take(i as int)),
        decreases descs.len() - i,
    {
        assert(ds.take(i + 1).drop_last() =~= ds.take(i as int));
        assert(ds.take(i + 1).last() == descs@[i as int]@);
        desc_key_list(descs[i].as_slice(), &mut keys);
        i += 1;
    }
    assert(ds.take(descs.len() as int) =~= ds);
    keys
}

/// Maps key presses to events, attributes and handling options.
#[derive(Debug)]
pub struct Keymap {
    events: HashMap<u32, EventId>,
    attributes: HashMap<u32, u32>,
    options: HashMap<u32, HandleOption>,
}

impl View for Keymap {
    type V = KeymapModel;

    closed spec fn view(&self) -> KeymapModel {
        KeymapModel { events: self.events@, attributes: self.attributes@, options: self.options@ }
    }
}

impl Keymap {
    pub fn new() -> (k: Keymap)
        ensures
            k@.events == Map::<u32, EventId>::empty(),
            k@.attributes == Map::<u32, u32>::empty(),
            k@.options == Map::<u32, HandleOption>::empty(),
    {
        Keymap { events: HashMap::new(), attributes: HashMap::new(), options: HashMap::new() }
    }

    fn bind(&mut self, sym: Symbol, not: bool, k: u32)
        ensures
            final(self)@ == bind_key(old(self)@, sym, not, k),
    {
        match sym {
            Symbol::Event(id) => {
                self.events.insert(k, id);
            },
            Symbol::Attribute(bits) => {
                if not {
                    let cur = match self.attributes.get(&k) {
                        Some(a) => Some(*a),
                        None => None,
                    };
                    if let Some(a) = cur {
                        self.attributes.insert(k, a & !bits);
                    }
                } else {
                    self.events.insert(k, EventId::Char);
                    let cur = match self.attributes.get(&k) {
                        Some(a) => *a,
                        None => 0,
                    };
                    self.attributes.insert(k, cur | bits);
                }
            },
            Symbol::Handling(o) => {
                self.options.insert(k, o);
            },
        }
    }

    /// Merge keymap definitions from configuration text.
    pub fn load(&mut self, text: &str)
        ensures
            final(self)@ == keymap_lines(old(self)@, lines_of(text@)),
    {
        let v = chars_of(text);
        let lines = split_lines(v.as_slice());
        let ghost ls = lines@.map_values(|l: Vec<char>| l@);
        let ghost m0 = self@;
        let mut i: usize = 0;
        assert(ls.take(0) =~= Seq::<Seq<char>>::empty());
        while i < lines.len()
            invariant
                i <= lines@.len(),
                ls == lines@.map_values(|l: Vec<char>| l@),
                self@ == keymap_lines(m0, ls.take(i as int)),
            decreases lines.len() - i,
        {
            assert(ls.take(i + 1).drop_last() =~= ls.take(i as int));
            assert(ls.take(i + 1).last() == lines@[i as int]@);
            self.load_line(lines[i].as_slice());
            i += 1;
        }
        assert(ls.take(lines.len() as int) =~= ls);
    }

    fn load_line(&mut self, line: &[char])
        ensures
            final(self)@ == keymap_line(old(self)@, line@),
    {
        let toks = crate::trie::split_words(line);
        let ghost ts = toks@.map_values(|p: Vec<char>| p@);
        if toks.len() < 2 {
            return;
        }
        assert(ts[0] == toks@[0]@);
        assert(ts[1] == toks@[1]@);
        let key = string_of(toks[0].as_slice());
        if str_starts_with(key.as_str(), "#") {
            return;
        }
        let not = str_starts_with(key.as_str(), "Not");
        let kv = toks[0].as_slice();
        let name = if not {
            proof {
                reveal_strlit("Not");
            }
            string_of_range(kv, 3, kv.len())
        } else {
            string_of(kv)
        };
        assert(not ==> name@ =~= ts[0].skip(3));
        let sym = match lookup_symbol(name.as_str()) {
            Some(s) => s,
            None => {
                return;
            },
        };
        let keys = value_keys(toks[1].as_slice());
        let ghost m0 = self@;
        let mut i: usize = 0;
        assert(keys@.take(0) =~= Seq::<u32>::empty());
        while i < keys.len()
            invariant
                i <= keys@.len(),
                self@ == bind_keys(m0, sym, not, keys@.take(i as int)),
            decreases keys.len() - i,
        {
            assert(keys@.take(i + 1).drop_last() =~= keys@.take(i as int));
            self.bind(sym, not, keys[i]);
            i += 1;
        }
        assert(keys@.take(keys.len() as int) =~= keys@);
    }

    /// The event a key press makes.
    pub fn fetch(&self, charcode: u8, keycode: u8, mods: u32) -> (e: Event)
        ensures
            e == fetched(self@, charcode, keycode, mods),
    {
        let id = match find_in(&self.events, charcode, keycode, mods) {
            Some(id) => id,
            None => EventId::Char,
        };
        let attribute = if id == EventId::Char {
            match find_in(&self.attributes, charcode, keycode, mods) {
                Some(a) => a,
                None => 0,
            }
        } else {
            0
        };
        let option = match find_in(&self.options, charcode, keycode, mods) {
            Some(o) => o,
            None => HandleOption::Default,
        };
        Event { id, code: charcode, attribute, option }
    }
}

impl Default for Keymap {
    fn default() -> (k: Self)
        ensures
            k@.events == Map::<u32, EventId>::empty(),
            k@.attributes == Map::<u32, u32>::empty(),
            k@.options == Map::<u32, HandleOption>::empty(),
    {
        Keymap::new()
    }
}

fn find_in<T: Copy>(map: &HashMap<u32, T>, charcode: u8, keycode: u8, mods: u32) -> (r: Option<T>)
    ensures
        r == find_key(map@, charcode, keycode, mods),
{
    let kc = KeyState::key_code(keycode as u32, mods).0;
    if let Some(v) = map.get(&kc) {
        return Some(*v);
    }
    let cc = KeyState::char_code(charcode as u32, mods).0;
    if let Some(v) = map.get(&cc) {
        return Some(*v);
    }
    if 0x21 <= charcode && charcode <= 0x7e && mods & modifier::SHIFT != 0 {
        let unshifted = mods & !modifier::SHIFT;
        let kc2 = KeyState::key_code(keycode as u32, unshifted).0;
        if let Some(v) = map.get(&kc2) {
            return Some(*v);
        }
        let cc2 = KeyState::char_code(charcode as u32, unshifted).0;
        if let Some(v) = map.get(&cc2) {
            return Some(*v);
        }
    }
    None
}

} // verus!
