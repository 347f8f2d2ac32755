//! The editor stack: text buffers, the romaji input queue, the editors for
//! each input phase and the engine that routes input among them.

use vstd::prelude::*;
use crate::backend::{registered, removed, Backend};
use crate::candidate::{split_candidate, word_candidate, Candidate, CandidateModel};
use crate::config::Config;
use crate::context::{insert_pos, InputContext, OutputModel, RegistrationState};
use crate::entry::Entry;
use crate::input_mode::InputMode;
use crate::jconv::{ascii_to_jisx0208_latin, to_jisx0208_latin};
use crate::text::{chars_of, copy_str, push_chars, push_str_chars, str_eq, string_of, string_of_range};
use crate::text::lossy_decoded;
use crate::trie::{converted, RomanKanaConverter, RuleModel};

verus! {

// ---------------------------------------------------------------------------
// Text buffer
// ---------------------------------------------------------------------------

/// Where text is inserted: `cursor` characters back from the end.
pub open spec fn text_pos(len: int, cursor: int) -> int {
    len + cursor
}

/// Character text with a cursor, a non-positive offset from the end
/// (0 = end of text).
#[derive(Debug)]
pub struct TextBuffer {
    chars: Vec<char>,
    cursor: i32,
}

impl TextBuffer {
    #[verifier::type_invariant]
    closed spec fn cursor_in_text(self) -> bool {
        &&& self.chars@.len() <= i32::MAX
        &&& -(self.chars@.len() as int) <= self.cursor <= 0
    }

    pub closed spec fn text(self) -> Seq<char> {
        self.chars@
    }

    pub closed spec fn cursor(self) -> int {
        self.cursor as int
    }

    /// The insertion point as an index.
    pub open spec fn pos(self) -> int {
        text_pos(self.text().len() as int, self.cursor())
    }

    pub fn new() -> (b: TextBuffer)
        ensures
            b.text() == Seq::<char>::empty(),
            b.cursor() == 0,
    {
        TextBuffer { chars: Vec::new(), cursor: 0 }
    }

    /// Whether `extra` more characters still fit.
    pub fn can_insert(&self, extra: usize) -> (r: bool)
        ensures
            r == (self.text().len() + extra <= i32::MAX),
    {
        extra <= 0x7fff_ffff && self.chars.len() <= 0x7fff_ffff - extra
    }

    /// Insert at the cursor; the cursor stays after the inserted text.
    pub fn insert(&mut self, str_: &str)
        requires
            old(self).text().len() + str_@.len() <= i32::MAX,
        ensures
            final(self).text() == old(self).text().take(old(self).pos()) + str_@ + old(self).text().skip(old(self).pos()),
            final(self).cursor() == old(self).cursor(),
    {
        proof {
            use_type_invariant(&*self);
        }
        let pos = ((self.chars.len() as i32) + self.cursor) as usize;
        let s = chars_of(str_);
        let mut out: Vec<char> = Vec::new();
        let mut i: usize = 0;
        while i < pos
            invariant
                i <= pos <= self.chars@.len(),
                out@ == self.chars@.take(i as int),
            decreases pos - i,
        {
            out.push(self.chars[i]);
            assert(self.chars@.take(i + 1) =~= self.chars@.take(i as int).push(self.chars@[i as int]));
            i += 1;
        }
        push_chars(&mut out, s.as_slice());
        let mut j: usize = pos;
        let ghost head = out@;
        while j < self.chars.len()
            invariant
                pos <= j <= self.chars@.len(),
                out@ == head + self.chars@.subrange(pos as int, j as int),
            decreases self.chars.len() - j,
        {
            out.push(self.chars[j]);
            assert(self.chars@.subrange(pos as int, j + 1) =~= self.chars@.subrange(pos as int, j as int).push(
                self.chars@[j as int],
            ));
            j += 1;
        }
        assert(self.chars@.subrange(pos as int, self.chars@.len() as int) =~= self.chars@.skip(pos as int));
        self.chars = out;
    }

    /// Remove the character before the cursor, if any.
    pub fn backspace(&mut self)
        ensures
            final(self).cursor() == old(self).cursor(),
            final(self).text() == if old(self).pos() > 0 {
                old(self).text().remove(old(self).pos() - 1)
            } else {
                old(self).text()
            },
    {
        proof {
            use_type_invariant(&*self);
        }
        let len = self.chars.len();
        if self.cursor != -(len as i32) {
            let pos = ((len as i32) + self.cursor) as usize;
            let mut out: Vec<char> = Vec::new();
            let mut i: usize = 0;
            while i < len
                invariant
                    0 < pos <= len == self.chars@.len(),
                    i <= len,
                    out@ == self.chars@.remove(pos - 1).take(if i < pos { i as int } else { i - 1 }),
                decreases len - i,
            {
                if i != pos - 1 {
                    out.push(self.chars[i]);
                }
                let ghost r = self.chars@.remove(pos - 1);
                if i < pos - 1 {
                    assert(r.take(i + 1) =~= r.take(i as int).push(self.chars@[i as int]));
                } else if i > pos - 1 {
                    assert(r.take(i as int) =~= r.take(i - 1).push(self.chars@[i as int]));
                }
                i += 1;
            }
            assert(out@ =~= self.chars@.remove(pos - 1));
            self.chars = out;
        }
    }

    /// Remove the character after the cursor, if any.
    pub fn delete(&mut self)
        ensures
            old(self).cursor() != 0 ==> final(self).cursor() == old(self).cursor() + 1
                && final(self).text() == old(self).text().remove(old(self).pos()),
            old(self).cursor() == 0 ==> final(self).cursor() == old(self).cursor() && final(self).text()
                == old(self).text(),
    {
        proof {
            use_type_invariant(&*self);
        }
        if self.cursor != 0 {
            self.cursor_right();
            self.backspace();
        }
    }

    pub fn clear(&mut self)
        ensures
            final(self).text() == Seq::<char>::empty(),
            final(self).cursor() == 0,
    {
        *self = TextBuffer::new();
    }

    pub fn cursor_left(&mut self)
        ensures
            final(self).text() == old(self).text(),
            final(self).cursor() == if old(self).pos() > 0 { old(self).cursor() - 1 } else { old(self).cursor() },
    {
        proof {
            use_type_invariant(&*self);
        }
        if self.cursor != -(self.chars.len() as i32) {
            self.cursor = self.cursor - 1;
        }
    }

    pub fn cursor_right(&mut self)
        ensures
            final(self).text() == old(self).text(),
            final(self).cursor() == if old(self).cursor() < 0 { old(self).cursor() + 1 } else { old(self).cursor() },
    {
        proof {
            use_type_invariant(&*self);
        }
        if self.cursor != 0 {
            self.cursor = self.cursor + 1;
        }
    }

    /// Move the cursor to the start.
    pub fn cursor_up(&mut self)
        ensures
            final(self).text() == old(self).text(),
            final(self).cursor() == -(old(self).text().len() as int),
    {
        proof {
            use_type_invariant(&*self);
        }
        self.cursor = -(self.chars.len() as i32);
    }

    /// Move the cursor to the end.
    pub fn cursor_down(&mut self)
        ensures
            final(self).text() == old(self).text(),
            final(self).cursor() == 0,
    {
        proof {
            use_type_invariant(&*self);
        }
        self.cursor = 0;
    }

    pub fn cursor_position(&self) -> (r: i32)
        ensures
            r == self.cursor(),
            -(self.text().len() as int) <= r <= 0,
            self.text().len() <= i32::MAX,
    {
        proof {
            use_type_invariant(self);
        }
        self.cursor
    }

    pub fn is_empty(&self) -> (r: bool)
        ensures
            r == (self.text().len() == 0),
    {
        self.chars.len() == 0
    }

    pub fn string(&self) -> (r: String)
        ensures
            r@ == self.text(),
    {
        string_of(self.chars.as_slice())
    }

    /// The text before the cursor.
    pub fn left_string(&self) -> (r: String)
        ensures
            r@ == self.text().take(self.pos()),
    {
        proof {
            use_type_invariant(self);
        }
        let pos = ((self.chars.len() as i32) + self.cursor) as usize;
        let r = string_of_range(self.chars.as_slice(), 0, pos);
        assert(self.chars@.subrange(0, pos as int) =~= self.chars@.take(pos as int));
        r
    }

    /// The text after the cursor.
    pub fn right_string(&self) -> (r: String)
        ensures
            r@ == self.text().skip(self.pos()),
    {
        proof {
            use_type_invariant(self);
        }
        let pos = ((self.chars.len() as i32) + self.cursor) as usize;
        let r = string_of_range(self.chars.as_slice(), pos, self.chars.len());
        assert(self.chars@.subrange(pos as int, self.chars@.len() as int) =~= self.chars@.skip(pos as int));
        r
    }
}

impl Default for TextBuffer {
    fn default() -> (b: Self)
        ensures
            b.text() == Seq::<char>::empty(),
            b.cursor() == 0,
    {
        TextBuffer::new()
    }
}

/// Backspace after inserting one character gives back the text as it was.
pub proof fn law_backspace_undoes_insert(text: Seq<char>, cursor: int, c: char)
    requires
        -(text.len() as int) <= cursor <= 0,
    ensures
        ({
            let pos = text_pos(text.len() as int, cursor);
            let inserted = text.take(pos) + seq![c] + text.skip(pos);
            inserted.remove(text_pos(inserted.len() as int, cursor) - 1) == text
        }),
{
    let pos = text_pos(text.len() as int, cursor);
    let inserted = text.take(pos) + seq![c] + text.skip(pos);
    assert(text_pos(inserted.len() as int, cursor) - 1 == pos);
    assert(inserted.remove(pos) =~= text);
}

/// After an insertion the text before the cursor is the old text before it
/// followed by the inserted text, and the text after it is unchanged.
pub proof fn law_insert_at_cursor(text: Seq<char>, cursor: int, s: Seq<char>)
    requires
        -(text.len() as int) <= cursor <= 0,
    ensures
        ({
            let pos = text_pos(text.len() as int, cursor);
            let inserted = text.take(pos) + s + text.skip(pos);
            &&& inserted.take(pos + s.len()) == text.take(pos) + s
            &&& inserted.skip(text_pos(inserted.len() as int, cursor)) == text.skip(pos)
        }),
{
    let pos = text_pos(text.len() as int, cursor);
    let inserted = text.take(pos) + s + text.skip(pos);
    assert(inserted.take(pos + s.len()) =~= text.take(pos) + s);
    assert(inserted.skip(text_pos(inserted.len() as int, cursor)) =~= text.skip(pos));
}

// ---------------------------------------------------------------------------
// Romaji input queue
// ---------------------------------------------------------------------------

/// One conversion step's outcome, routed to the active editor.
#[derive(Debug)]
pub struct QueueState {
    pub fixed: String,
    pub intermediate: String,
    pub queue: String,
    pub code: u8,
}

impl QueueState {
    pub fn new() -> (s: QueueState)
        ensures
            s.fixed@ == Seq::<char>::empty(),
            s.intermediate@ == Seq::<char>::empty(),
            s.queue@ == Seq::<char>::empty(),
            s.code == 0,
    {
        QueueState { fixed: String::new(), intermediate: String::new(), queue: String::new(), code: 0 }
    }

    pub fn duplicate(&self) -> (s: QueueState)
        ensures
            s.fixed@ == self.fixed@,
            s.intermediate@ == self.intermediate@,
            s.queue@ == self.queue@,
            s.code == self.code,
    {
        QueueState {
            fixed: copy_str(self.fixed.as_str()),
            intermediate: copy_str(self.intermediate.as_str()),
            queue: copy_str(self.queue.as_str()),
            code: self.code,
        }
    }
}

impl Default for QueueState {
    fn default() -> (s: Self)
        ensures
            s.fixed@ == Seq::<char>::empty(),
            s.intermediate@ == Seq::<char>::empty(),
            s.queue@ == Seq::<char>::empty(),
            s.code == 0,
    {
        QueueState::new()
    }
}

/// A kana input mode.
pub open spec fn is_kana_mode(m: InputMode) -> bool {
    m == InputMode::Hirakana || m == InputMode::Katakana || m == InputMode::Jisx0201Kana
}

/// ASCII lower case of a byte.
pub open spec fn lower(code: u8) -> u8 {
    if 0x41 <= code <= 0x5a {
        (code + 0x20) as u8
    } else {
        code
    }
}

fn to_lower(code: u8) -> (r: u8)
    ensures
        r == lower(code),
{
    if 0x41 <= code && code <= 0x5a {
        code + 0x20
    } else {
        code
    }
}

/// The character of a byte (Latin-1).
pub open spec fn byte_char(code: u8) -> char {
    code as char
}

/// The text a typed byte completes, given the pending romaji, the mode
/// and the rules: the byte itself when typed directly or in ASCII mode,
/// the converted kana in a kana mode, the full-width form in full-width
/// latin mode.
pub open spec fn queue_fixed(
    rules: Seq<(Seq<u8>, RuleModel)>,
    mode: InputMode,
    pending: Seq<char>,
    code: u8,
    direct: bool,
) -> Seq<char> {
    if direct || mode == InputMode::Ascii {
        seq![byte_char(code)]
    } else if is_kana_mode(mode) {
        lossy_decoded(converted(rules, mode, pending.push(byte_char(lower(code)))).output)
    } else {
        pending.push(byte_char(code)).map_values(|c: char| to_jisx0208_latin(c))
    }
}

/// The romaji left pending after a typed byte.
pub open spec fn queue_pending(
    rules: Seq<(Seq<u8>, RuleModel)>,
    mode: InputMode,
    pending: Seq<char>,
    code: u8,
    direct: bool,
) -> Seq<char> {
    if direct || mode == InputMode::Ascii {
        pending
    } else if is_kana_mode(mode) {
        converted(rules, mode, pending.push(byte_char(lower(code)))).next
    } else {
        Seq::empty()
    }
}

/// Pending romaji and the mode it is converted in.
#[derive(Debug)]
pub struct InputQueue {
    mode: InputMode,
    queue: String,
}

impl InputQueue {
    pub closed spec fn mode(self) -> InputMode {
        self.mode
    }

    pub closed spec fn pending(self) -> Seq<char> {
        self.queue@
    }

    pub fn new() -> (q: InputQueue)
        ensures
            q.mode() == InputMode::Hirakana,
            q.pending() == Seq::<char>::empty(),
    {
        InputQueue { mode: InputMode::Hirakana, queue: String::new() }
    }

    /// Switch modes, dropping pending input.
    pub fn select_input_mode(&mut self, mode: InputMode) -> (s: QueueState)
        ensures
            final(self).mode() == mode,
            final(self).pending() == Seq::<char>::empty(),
            s.fixed@ == Seq::<char>::empty() && s.intermediate@ == Seq::<char>::empty(),
            s.queue@ == Seq::<char>::empty() && s.code == 0,
    {
        self.mode = mode;
        self.clear()
    }

    /// Feed one typed byte: passed through directly (direct input, ASCII
    /// mode), converted with the pending romaji (kana modes), or widened
    /// (full-width Latin mode).
    pub fn add_char(&mut self, converter: &RomanKanaConverter, code: u8, direct: bool) -> (s: QueueState)
        ensures
            final(self).mode() == old(self).mode(),
            s.code == code,
            s.queue@ == final(self).pending(),
            s.fixed@ == queue_fixed(converter.rules(), old(self).mode(), old(self).pending(), code, direct),
            final(self).pending() == queue_pending(converter.rules(), old(self).mode(), old(self).pending(), code, direct),
            (direct || old(self).mode() == InputMode::Ascii) ==> {
                &&& s.fixed@ == seq![byte_char(code)]
                &&& s.intermediate@ == Seq::<char>::empty()
                &&& final(self).pending() == old(self).pending()
            },
            !(direct || old(self).mode() == InputMode::Ascii) && is_kana_mode(old(self).mode()) ==> {
                let r = converted(converter.rules(), old(self).mode(), old(self).pending().push(byte_char(lower(code))));
                &&& s.fixed@ == lossy_decoded(r.output)
                &&& s.intermediate@ == r.intermediate
                &&& final(self).pending() == r.next
            },
            !direct && old(self).mode() == InputMode::Jisx0208Latin ==> {
                &&& s.fixed@ == old(self).pending().push(byte_char(code)).map_values(|c: char| to_jisx0208_latin(c))
                &&& s.intermediate@ == Seq::<char>::empty()
                &&& final(self).pending() == Seq::<char>::empty()
            },
    {
        let mut state = QueueState::new();
        state.code = code;
        if direct || self.mode == InputMode::Ascii {
            let mut f = String::new();
            f.push(code as char);
            state.fixed = f;
        } else {
            match self.mode {
                InputMode::Hirakana | InputMode::Katakana | InputMode::Jisx0201Kana => {
                    let mut q = copy_str(self.queue.as_str());
                    q.push(to_lower(code) as char);
                    let (result, _) = converter.convert(self.mode, q.as_str());
                    self.queue = copy_str(result.next.as_str());
                    state.fixed = result.output;
                    state.intermediate = result.intermediate;
                },
                _ => {
                    let mut q = copy_str(self.queue.as_str());
                    q.push(code as char);
                    state.fixed = ascii_to_jisx0208_latin(q.as_str());
                    self.queue = String::new();
                },
            }
        }
        state.queue = copy_str(self.queue.as_str());
        state
    }

    /// Drop the last pending character.
    pub fn remove_char(&mut self) -> (s: Option<QueueState>)
        ensures
            final(self).mode() == old(self).mode(),
            old(self).pending().len() == 0 ==> s is None && final(self).pending() == old(self).pending(),
            old(self).pending().len() > 0 ==> (s matches Some(st) && final(self).pending() == old(self).pending().drop_last()
                && st.queue@ == final(self).pending() && st.fixed@.len() == 0 && st.intermediate@.len() == 0
                && st.code == 0),
    {
        let v = chars_of(self.queue.as_str());
        if v.len() == 0 {
            return None;
        }
        let q = string_of_range(v.as_slice(), 0, v.len() - 1);
        assert(v@.subrange(0, v@.len() - 1) =~= v@.drop_last());
        self.queue = q;
        let mut st = QueueState::new();
        st.queue = copy_str(self.queue.as_str());
        Some(st)
    }

    /// Fix pending romaji: its conversion plus the kana of a rule it could
    /// still grow out of (n -> ん) in kana modes; nothing otherwise.
    pub fn terminate(&mut self, converter: &RomanKanaConverter) -> (s: Option<QueueState>)
        ensures
            final(self).mode() == old(self).mode(),
            final(self).pending() == Seq::<char>::empty(),
            old(self).pending().len() == 0 ==> s is None && *final(self) == *old(self),
            old(self).pending().len() > 0 ==> (s matches Some(st) && st.queue@.len() == 0 && st.intermediate@.len() == 0
                && st.code == 0 && st.fixed@ == if is_kana_mode(old(self).mode()) {
                    lossy_decoded(converted(converter.rules(), old(self).mode(), old(self).pending()).output)
                        + converted(converter.rules(), old(self).mode(), old(self).pending()).intermediate
                } else {
                    Seq::<char>::empty()
                }),
    {
        if self.queue.as_str().unicode_len() == 0 {
            return None;
        }
        let mut state = QueueState::new();
        match self.mode {
            InputMode::Hirakana | InputMode::Katakana | InputMode::Jisx0201Kana => {
                let (result, _) = converter.convert(self.mode, self.queue.as_str());
                let mut f = result.output;
                f.append(result.intermediate.as_str());
                state.fixed = f;
            },
            _ => {},
        }
        self.queue = String::new();
        Some(state)
    }

    pub fn clear(&mut self) -> (s: QueueState)
        ensures
            final(self).mode() == old(self).mode(),
            final(self).pending() == Seq::<char>::empty(),
            s.fixed@ == Seq::<char>::empty() && s.intermediate@ == Seq::<char>::empty(),
            s.queue@ == Seq::<char>::empty() && s.code == 0,
    {
        self.queue = String::new();
        QueueState::new()
    }

    pub fn is_empty(&self) -> (r: bool)
        ensures
            r == (self.pending().len() == 0),
    {
        self.queue.as_str().unicode_len() == 0
    }

    pub fn queue_string(&self) -> (r: &str)
        ensures
            r@ == self.pending(),
    {
        self.queue.as_str()
    }

    /// Whether typing `code` next would complete a rule.
    pub fn can_convert(&self, converter: &RomanKanaConverter, code: u8) -> (r: bool)
        ensures
            r == (is_kana_mode(self.mode()) && converted(
                converter.rules(),
                self.mode(),
                self.pending().push(byte_char(lower(code))),
            ).converted),
    {
        match self.mode {
            InputMode::Hirakana | InputMode::Katakana | InputMode::Jisx0201Kana => {
                let mut tmp = copy_str(self.queue.as_str());
                tmp.push(to_lower(code) as char);
                let (_, matched) = converter.convert(self.mode, tmp.as_str());
                matched
            },
            _ => false,
        }
    }
}

impl Default for InputQueue {
    fn default() -> (q: Self)
        ensures
            q.mode() == InputMode::Hirakana,
            q.pending() == Seq::<char>::empty(),
    {
        InputQueue::new()
    }
}

/// Editing keys routed to the active editor.
#[derive(Debug, Clone, Copy, PartialEq, Eq, Structural)]
pub enum EditorEvent {
    BackSpace,
    Delete,
    CursorLeft,
    CursorRight,
    CursorUp,
    CursorDown,
}

/// A text buffer's text and cursor after an editing key.
pub open spec fn edited(text: Seq<char>, cursor: int, event: EditorEvent) -> (Seq<char>, int) {
    let pos = text_pos(text.len() as int, cursor);
    match event {
        EditorEvent::BackSpace => (if pos > 0 { text.remove(pos - 1) } else { text }, cursor),
        EditorEvent::Delete => if cursor != 0 { (text.remove(pos), cursor + 1) } else { (text, cursor) },
        EditorEvent::CursorLeft => (text, if pos > 0 { cursor - 1 } else { cursor }),
        EditorEvent::CursorRight => (text, if cursor < 0 { cursor + 1 } else { cursor }),
        EditorEvent::CursorUp => (text, -(text.len() as int)),
        EditorEvent::CursorDown => (text, 0),
    }
}

// ---------------------------------------------------------------------------
// Editors
// ---------------------------------------------------------------------------

/// `o` with the mark set at its insertion point, when its text is short
/// enough to have one.
pub open spec fn with_mark(o: OutputModel) -> OutputModel {
    if o.composing.len() <= i32::MAX {
        OutputModel { mark: insert_pos(o.composing.len() as int, o.cursor) as nat, ..o }
    } else {
        o
    }
}

/// `o` after composing `s` with a cursor move of `cursor`, when the
/// cursor arithmetic allows it.
pub open spec fn composed_if(o: OutputModel, s: Seq<char>, cursor: int) -> OutputModel {
    if o.can_compose(cursor) {
        o.composed(s, cursor)
    } else {
        o
    }
}

/// Add `s` to the composing output when the output's cursor arithmetic
/// allows it (texts of up to 2^31-1 characters).
fn compose_output(ctx: &mut InputContext, s: &str, cursor: i32)
    ensures
        old(ctx).output@.can_compose(cursor as int) ==> final(ctx).output@ == old(ctx).output@.composed(s@, cursor as int),
        !old(ctx).output@.can_compose(cursor as int) ==> final(ctx).output@ == old(ctx).output@,
        final(ctx).entry == old(ctx).entry,
        final(ctx).candidate == old(ctx).candidate,
        final(ctx).undo == old(ctx).undo,
        final(ctx).registration == old(ctx).registration,
        final(ctx).event_handled == old(ctx).event_handled,
        final(ctx).needs_setback == old(ctx).needs_setback,
        final(ctx).dynamic_completion == old(ctx).dynamic_completion,
        final(ctx).annotation == old(ctx).annotation,
{
    if ctx.output.can_compose(cursor) {
        ctx.output.compose(s, cursor);
    }
}

/// A string of a mark character followed by `s`.
fn marked(mark: char, s: &str) -> (r: String)
    ensures
        r@ == seq![mark] + s@,
{
    let mut r = String::new();
    r.push(mark);
    r.append(s);
    assert(r@ =~= seq![mark] + s@);
    r
}

/// Direct input: fixed text goes straight to the output.
#[derive(Debug, Clone, Copy, Default)]
pub struct PrimaryEditor;

impl PrimaryEditor {
    fn read_context(&mut self, ctx: &mut InputContext)
        ensures
            final(ctx).entry.is_made_of(Seq::empty(), Seq::empty(), Seq::empty()),
            old(ctx).registration.progress() == RegistrationState::Finished ==> {
                &&& final(ctx).output@ == (OutputModel {
                    fixed: old(ctx).output@.fixed + old(ctx).registration.text(),
                    ..old(ctx).output@
                })
                &&& final(ctx).registration.progress() == RegistrationState::NotStarted
                &&& final(ctx).registration.text() == Seq::<char>::empty()
            },
            old(ctx).registration.progress() != RegistrationState::Finished ==> final(ctx).output == old(ctx).output
                && final(ctx).registration == old(ctx).registration,
            *final(ctx) == (InputContext {
                entry: final(ctx).entry,
                output: final(ctx).output,
                registration: final(ctx).registration,
                ..*old(ctx)
            }),
    {
        ctx.entry = Entry::empty();
        if ctx.registration.state() == RegistrationState::Finished {
            let word = copy_str(ctx.registration.word());
            ctx.output.fix(word.as_str());
            ctx.registration.clear();
        }
    }

    fn input(&mut self, ctx: &mut InputContext, fixed: &str)
        ensures
            final(ctx).output@ == (OutputModel { fixed: old(ctx).output@.fixed + fixed@, ..old(ctx).output@ }),
            final(ctx).event_handled == old(ctx).event_handled,
    {
        ctx.output.fix(fixed);
    }

    fn input_event(&mut self, ctx: &mut InputContext)
        ensures
            *final(ctx) == (InputContext { event_handled: false, ..*old(ctx) }),
    {
        ctx.event_handled = false;
    }

    fn commit(&mut self, ctx: &mut InputContext, queue: &mut String)
        ensures
            final(ctx).output@ == (OutputModel { fixed: old(ctx).output@.fixed + old(queue)@, ..old(ctx).output@ }),
            final(queue)@ == Seq::<char>::empty(),
            final(ctx).entry.is_made_of(Seq::empty(), Seq::empty(), Seq::empty()),
            *final(ctx) == (InputContext { entry: final(ctx).entry, output: final(ctx).output, ..*old(ctx) }),
    {
        ctx.output.fix(queue.as_str());
        *queue = String::new();
        ctx.entry = Entry::empty();
    }
}

/// `s` typed into `text` at index `pos`, unless the text would grow past
/// `i32::MAX` characters.
pub open spec fn typed_into(text: Seq<char>, pos: int, s: Seq<char>) -> Seq<char> {
    if text.len() + s.len() <= i32::MAX {
        text.take(pos) + s + text.skip(pos)
    } else {
        text
    }
}

/// The reading editor.
#[derive(Debug)]
pub struct ComposingEditor {
    composing: TextBuffer,
}

impl ComposingEditor {
    pub closed spec fn text(self) -> Seq<char> {
        self.composing.text()
    }

    /// Where typed text goes, as an index into the text.
    pub closed spec fn pos(self) -> int {
        self.composing.pos()
    }

    /// The cursor, as an offset from the end of the text.
    pub closed spec fn cursor(self) -> int {
        self.composing.cursor()
    }

    pub fn new() -> (e: ComposingEditor)
        ensures
            e.text() == Seq::<char>::empty(),
    {
        ComposingEditor { composing: TextBuffer::new() }
    }

    fn insert_text(&mut self, s: &str)
        ensures
            final(self).text() == typed_into(old(self).text(), old(self).pos(), s@),
            final(self).cursor() == old(self).cursor(),
    {
        if self.composing.can_insert(s.unicode_len()) {
            self.composing.insert(s);
        }
    }

    fn read_context(&mut self, ctx: &mut InputContext)
        ensures
            old(ctx).entry.reading().len() == 0 ==> final(self).text() == typed_into(
                Seq::empty(),
                0,
                old(ctx).undo.reading(),
            ) && final(ctx).entry == old(ctx).entry,
            old(ctx).entry.reading().len() > 0 ==> final(ctx).entry.is_made_of(
                old(ctx).entry.reading(),
                Seq::empty(),
                Seq::empty(),
            ) && final(self).text() == typed_into(Seq::empty(), 0, final(ctx).entry.key()),
            final(self).cursor() == 0,
            final(ctx).dynamic_completion,
            *final(ctx) == (InputContext { entry: final(ctx).entry, dynamic_completion: true, ..*old(ctx) }),
    {
        self.composing.clear();
        if ctx.entry.is_empty() {
            let undo = copy_str(ctx.undo.entry());
            self.insert_text(undo.as_str());
        } else {
            let empty = String::new();
            ctx.entry.set_okuri(empty.as_str(), empty.as_str());
            let reading = copy_str(ctx.entry.entry_string());
            self.insert_text(reading.as_str());
        }
        ctx.dynamic_completion = true;
    }

    fn write_context(&mut self, ctx: &mut InputContext)
        ensures
            *final(self) == *old(self),
            final(ctx).output@ == composed_if(
                with_mark(old(ctx).output@),
                seq!['▽'] + old(self).text(),
                old(self).cursor(),
            ),
            final(ctx).entry.is_made_of(old(self).text().take(old(self).pos()), Seq::empty(), Seq::empty()),
            *final(ctx) == (InputContext { entry: final(ctx).entry, output: final(ctx).output, ..*old(ctx) }),
    {
        if ctx.output.composing_string().unicode_len() <= 0x7fff_ffff {
            ctx.output.set_mark();
        }
        let text = self.composing.string();
        let s = marked('▽', text.as_str());
        compose_output(ctx, s.as_str(), self.composing.cursor_position());
        self.update(ctx);
    }

    fn input(&mut self, ctx: &mut InputContext, fixed: &str)
        ensures
            final(self).text() == typed_into(old(self).text(), old(self).pos(), fixed@),
            final(self).cursor() == old(self).cursor(),
            final(ctx).entry.is_made_of(final(self).text().take(final(self).pos()), Seq::empty(), Seq::empty()),
            final(ctx).output == old(ctx).output,
    {
        self.insert_text(fixed);
        self.update(ctx);
    }

    fn input_event(&mut self, ctx: &mut InputContext, event: EditorEvent)
        ensures
            (final(self).text(), final(self).cursor()) == edited(old(self).text(), old(self).cursor(), event),
            final(ctx).entry.is_made_of(final(self).text().take(final(self).pos()), Seq::empty(), Seq::empty()),
            final(ctx).output == old(ctx).output,
            final(ctx).event_handled == old(ctx).event_handled,
            final(ctx).needs_setback == (old(ctx).needs_setback || (event == EditorEvent::BackSpace
                && old(self).text().len() == 0)),
    {
        match event {
            EditorEvent::BackSpace => {
                if self.composing.is_empty() {
                    ctx.needs_setback = true;
                }
                self.composing.backspace();
            },
            EditorEvent::Delete => self.composing.delete(),
            EditorEvent::CursorLeft => self.composing.cursor_left(),
            EditorEvent::CursorRight => self.composing.cursor_right(),
            EditorEvent::CursorUp => self.composing.cursor_up(),
            EditorEvent::CursorDown => self.composing.cursor_down(),
        }
        self.update(ctx);
    }

    fn commit(&mut self, queue: &mut String)
        ensures
            *final(self) == *old(self),
            final(queue)@ == old(self).text(),
    {
        *queue = self.composing.string();
    }

    /// Replace the reading (a chosen completion).
    pub fn set_entry(&mut self, ctx: &mut InputContext, entry: &str)
        requires
            entry@.len() <= i32::MAX,
        ensures
            final(self).text() == entry@,
            final(ctx).entry.is_made_of(entry@, Seq::empty(), Seq::empty()),
            final(ctx).output == old(ctx).output,
    {
        self.composing.clear();
        self.composing.insert(entry);
        assert(Seq::<char>::empty().take(0) + entry@ + Seq::<char>::empty().skip(0) =~= entry@);
        assert(self.composing.text().take(self.composing.pos()) =~= entry@);
        self.update(ctx);
    }

    fn update(&mut self, ctx: &mut InputContext)
        ensures
            *final(self) == *old(self),
            final(ctx).entry.is_made_of(old(self).text().take(old(self).composing.pos()), Seq::empty(), Seq::empty()),
            final(ctx).output == old(ctx).output,
            *final(ctx) == (InputContext { entry: final(ctx).entry, ..*old(ctx) }),
    {
        let left = self.composing.left_string();
        ctx.entry = Entry::from_entry(left.as_str());
    }
}

impl Default for ComposingEditor {
    fn default() -> (e: Self)
        ensures
            e.text() == Seq::<char>::empty(),
    {
        ComposingEditor::new()
    }
}

/// The okurigana after a conversion step: converted text that is not plain
/// ASCII (wider in bytes than in characters) is okurigana.
pub open spec fn okuri_after(okuri: Seq<char>, fixed: Seq<char>) -> Seq<char> {
    if fixed.len() != vstd::utf8::encode_utf8(fixed).len() {
        okuri + fixed
    } else {
        okuri
    }
}

/// The okurigana prefix after a conversion step: the consonant that
/// started the okurigana; while no okurigana is typed, the consonant now
/// pending (or the key typed).
pub open spec fn okuri_prefix_after(
    first: bool,
    prefix: Seq<char>,
    okuri: Seq<char>,
    input: Seq<char>,
    code: u8,
) -> Seq<char> {
    let p1 = if first { prefix.push(byte_char(lower(code))) } else { prefix };
    if okuri.len() == 0 {
        if input.len() == 0 {
            if code != 0 { seq![byte_char(lower(code))] } else { Seq::empty() }
        } else {
            seq![byte_char(lower(vstd::utf8::encode_utf8(input)[0]))]
        }
    } else if p1.len() == 0 && code != 0 {
        p1.push(byte_char(lower(code)))
    } else {
        p1
    }
}

/// The okurigana editor.
#[derive(Debug)]
pub struct OkuriEditor {
    first: bool,
    prefix: String,
    okuri: String,
    input: String,
}

impl OkuriEditor {
    pub closed spec fn okurigana(self) -> Seq<char> {
        self.okuri@
    }

    pub closed spec fn pending(self) -> Seq<char> {
        self.input@
    }

    pub fn new() -> (e: OkuriEditor)
        ensures
            e.okurigana() == Seq::<char>::empty(),
            e.pending() == Seq::<char>::empty(),
    {
        OkuriEditor { first: false, prefix: String::new(), okuri: String::new(), input: String::new() }
    }

    fn read_context(&mut self, ctx: &mut InputContext)
        ensures
            final(self).first,
            final(self).prefix@ == Seq::<char>::empty(),
            final(self).okuri@ == Seq::<char>::empty(),
            final(self).input == old(self).input,
            *final(ctx) == *old(ctx),
    {
        self.first = true;
        self.prefix = String::new();
        self.okuri = String::new();
    }

    fn write_context(&mut self, ctx: &mut InputContext)
        ensures
            *final(self) == *old(self),
            final(ctx).output@ == composed_if(old(ctx).output@, seq!['*'] + old(self).okuri@, 0),
            final(ctx).entry.is_made_of(old(ctx).entry.reading(), old(self).prefix@, old(self).okuri@),
            *final(ctx) == (InputContext { entry: final(ctx).entry, output: final(ctx).output, ..*old(ctx) }),
    {
        let s = marked('*', self.okuri.as_str());
        compose_output(ctx, s.as_str(), 0);
        self.update(ctx);
    }

    /// Returns text to append to the reading (a consonant typed while the
    /// previous one was pending: "KesSi").
    fn input(&mut self, ctx: &mut InputContext, fixed: &str, input: &str, code: u8) -> (r: Option<String>)
        ensures
            final(self).input@ == input@,
            !final(self).first,
            (old(self).first && fixed@.len() > 0 && input@.len() > 0) ==> {
                &&& r matches Some(t) && t@ == fixed@
                &&& final(self).prefix@ == old(self).prefix@.push(byte_char(lower(code)))
                &&& final(self).okuri@ == old(self).okuri@
            },
            !(old(self).first && fixed@.len() > 0 && input@.len() > 0) ==> {
                &&& r is None
                &&& final(self).okuri@ == okuri_after(old(self).okuri@, fixed@)
                &&& final(self).prefix@ == okuri_prefix_after(
                    old(self).first,
                    old(self).prefix@,
                    final(self).okuri@,
                    input@,
                    code,
                )
            },
            final(ctx).entry.is_made_of(old(ctx).entry.reading(), final(self).prefix@, final(self).okuri@),
            *final(ctx) == (InputContext { entry: final(ctx).entry, ..*old(ctx) }),
    {
        self.input = copy_str(input);
        if self.first {
            self.first = false;
            self.prefix.push(to_lower(code) as char);
            if fixed.unicode_len() > 0 && input.unicode_len() > 0 {
                self.update(ctx);
                return Some(copy_str(fixed));
            }
        }
        // ASCII fixed strings are not okurigana; tell them by their width.
        if fixed.unicode_len() != fixed.as_bytes().len() {
            self.okuri.append(fixed);
        }
        if self.okuri.as_str().unicode_len() == 0 {
            self.prefix = String::new();
            if input.unicode_len() == 0 {
                if code != 0 {
                    self.prefix.push(to_lower(code) as char);
                }
            } else {
                let b = input.as_bytes();
                proof {
                    vstd::utf8::encode_utf8_first_scalar(input@);
                }
                self.prefix.push(to_lower(b[0]) as char);
            }
        } else if self.prefix.as_str().unicode_len() == 0 && code != 0 {
            self.prefix.push(to_lower(code) as char);
        }
        self.update(ctx);
        None
    }

    fn input_event(&mut self, ctx: &mut InputContext, event: EditorEvent)
        ensures
            final(self).okuri@ == if event == EditorEvent::BackSpace && old(self).okuri@.len() > 0 {
                old(self).okuri@.drop_last()
            } else {
                old(self).okuri@
            },
            final(self).prefix == old(self).prefix,
            final(self).input == old(self).input,
            final(self).first == old(self).first,
            final(ctx).needs_setback == (old(ctx).needs_setback || (event == EditorEvent::BackSpace
                && old(self).okuri@.len() == 0)),
            final(ctx).entry.is_made_of(old(ctx).entry.reading(), final(self).prefix@, final(self).okuri@),
            *final(ctx) == (InputContext {
                entry: final(ctx).entry,
                needs_setback: final(ctx).needs_setback,
                ..*old(ctx)
            }),
    {
        if event == EditorEvent::BackSpace {
            let v = chars_of(self.okuri.as_str());
            if v.len() == 0 {
                ctx.needs_setback = true;
            } else {
                self.okuri = string_of_range(v.as_slice(), 0, v.len() - 1);
            }
        }
        self.update(ctx);
    }

    fn commit(&mut self)
        ensures
            final(self).prefix@ == Seq::<char>::empty(),
            final(self).okuri@ == Seq::<char>::empty(),
            final(self).input == old(self).input,
            final(self).first == old(self).first,
    {
        self.prefix = String::new();
        self.okuri = String::new();
    }

    /// Okurigana is typed and no romaji is pending.
    pub fn is_okuri_complete(&self) -> (r: bool)
        ensures
            r == (self.okurigana().len() > 0 && self.pending().len() == 0),
    {
        self.okuri.as_str().unicode_len() > 0 && self.input.as_str().unicode_len() == 0
    }

    fn update(&mut self, ctx: &mut InputContext)
        ensures
            *final(self) == *old(self),
            final(ctx).entry.is_made_of(old(ctx).entry.reading(), old(self).prefix@, old(self).okuri@),
            *final(ctx) == (InputContext { entry: final(ctx).entry, ..*old(ctx) }),
    {
        ctx.entry.set_okuri(self.prefix.as_str(), self.okuri.as_str());
    }
}

impl Default for OkuriEditor {
    fn default() -> (e: Self)
        ensures
            e.okurigana() == Seq::<char>::empty(),
            e.pending() == Seq::<char>::empty(),
    {
        OkuriEditor::new()
    }
}

/// The selected-candidate editor.
#[derive(Debug)]
pub struct CandidateEditor {
    entry: Entry,
    candidate: Candidate,
}

impl CandidateEditor {
    pub closed spec fn selected(self) -> CandidateModel {
        self.candidate@
    }

    pub closed spec fn reading(self) -> Entry {
        self.entry
    }

    /// What the selection shows: the candidate's text, then the
    /// okurigana of an okuri-ari reading.
    pub closed spec fn shown_text(self) -> Seq<char> {
        self.candidate@.shown() + self.entry.okuri()
    }

    pub fn new() -> (e: CandidateEditor)
        ensures
            e.selected() == word_candidate(Seq::empty()),
    {
        CandidateEditor { entry: Entry::empty(), candidate: Candidate::empty() }
    }

    fn read_context(&mut self, ctx: &mut InputContext)
        ensures
            final(self).entry == old(ctx).entry,
            final(self).candidate == old(self).candidate,
            *final(ctx) == (InputContext { annotation: true, ..*old(ctx) }),
    {
        self.entry = ctx.entry.duplicate();
        ctx.annotation = true;
    }

    fn write_context(&mut self, ctx: &mut InputContext)
        ensures
            *final(self) == *old(self),
            final(ctx).output@ == if old(ctx).output@.composing.len() <= i32::MAX {
                (OutputModel {
                    start: insert_pos(old(ctx).output@.composing.len() as int, old(ctx).output@.cursor) as nat,
                    length: old(self).shown_text().len() + 1,
                    ..with_mark(old(ctx).output@)
                }).composed(seq!['▼'] + old(self).shown_text(), 0)
            } else {
                old(ctx).output@
            },
            final(ctx).entry == old(self).entry,
            final(ctx).candidate@ == old(self).candidate@,
            *final(ctx) == (InputContext {
                entry: final(ctx).entry,
                candidate: final(ctx).candidate,
                output: final(ctx).output,
                ..*old(ctx)
            }),
    {
        let mut s = copy_str(self.candidate.variant());
        if self.entry.is_okuri_ari() {
            s.append(self.entry.okuri_string());
        }
        if ctx.output.composing_string().unicode_len() <= 0x7fff_ffff {
            ctx.output.set_mark();
            let shown = marked('▼', s.as_str());
            ctx.output.convert(shown.as_str());
        }
        self.update(ctx);
    }

    fn commit(&mut self, backend: &mut Backend, queue: &mut String)
        ensures
            registered(*old(backend), *final(backend), old(self).entry, old(self).candidate@),
            final(queue)@ == old(self).shown_text(),
            final(self).candidate@ == word_candidate(Seq::empty()),
            final(self).entry == old(self).entry,
    {
        backend.register(&self.entry, &self.candidate);
        let mut q = copy_str(self.candidate.variant());
        self.candidate = Candidate::empty();
        if self.entry.is_okuri_ari() {
            q.append(self.entry.okuri_string());
        }
        *queue = q;
    }

    /// Show `candidate` as the selection.
    pub fn set_candidate(&mut self, ctx: &mut InputContext, candidate: &Candidate)
        ensures
            final(self).selected() == candidate@,
            final(self).reading() == old(self).reading(),
            final(ctx).entry == old(self).reading(),
            final(ctx).candidate@ == candidate@,
            final(ctx).output == old(ctx).output,
    {
        self.candidate = candidate.duplicate();
        self.update(ctx);
    }

    fn update(&mut self, ctx: &mut InputContext)
        ensures
            *final(self) == *old(self),
            final(ctx).entry == old(self).entry,
            final(ctx).candidate@ == old(self).candidate@,
            final(ctx).output == old(ctx).output,
            *final(ctx) == (InputContext { entry: final(ctx).entry, candidate: final(ctx).candidate, ..*old(ctx) }),
    {
        ctx.entry = self.entry.duplicate();
        ctx.candidate = self.candidate.duplicate();
    }
}

impl Default for CandidateEditor {
    fn default() -> (e: Self)
        ensures
            e.selected() == word_candidate(Seq::empty()),
    {
        CandidateEditor::new()
    }
}

/// Confirmation of an entry removal.
#[derive(Debug)]
pub struct EntryRemoveEditor {
    entry: Entry,
    candidate: Candidate,
    prompt: String,
    input: String,
}

impl EntryRemoveEditor {
    pub closed spec fn answer(self) -> Seq<char> {
        self.input@
    }

    pub fn new() -> (e: EntryRemoveEditor)
        ensures
            e.answer() == Seq::<char>::empty(),
    {
        EntryRemoveEditor {
            entry: Entry::empty(),
            candidate: Candidate::empty(),
            prompt: String::new(),
            input: String::new(),
        }
    }

    fn read_context(&mut self, ctx: &mut InputContext)
        ensures
            final(self).entry == old(ctx).entry,
            final(self).candidate@ == old(ctx).candidate@,
            final(self).input@ == Seq::<char>::empty(),
            final(self).prompt@ == old(ctx).entry.key() + " /"@ + old(ctx).candidate@.serialized()
                + "/ を削除しますか？(yes/no) "@,
            *final(ctx) == *old(ctx),
    {
        self.entry = ctx.entry.duplicate();
        self.candidate = ctx.candidate.duplicate();
        self.input = String::new();
        let mut p = copy_str(self.entry.entry_string());
        p.append(" /");
        let c = self.candidate.to_string();
        p.append(c.as_str());
        p.append("/ を削除しますか？(yes/no) ");
        self.prompt = p;
    }

    fn write_context(&mut self, ctx: &mut InputContext)
        ensures
            *final(self) == *old(self),
            final(ctx).output@ == composed_if(
                OutputModel { composing: Seq::empty(), cursor: 0, mark: 0, start: 0, length: 0, ..old(ctx).output@ },
                old(self).prompt@ + old(self).input@,
                0,
            ),
            final(ctx).entry == old(self).entry,
            *final(ctx) == (InputContext { entry: final(ctx).entry, output: final(ctx).output, ..*old(ctx) }),
    {
        ctx.output.clear();
        let mut s = copy_str(self.prompt.as_str());
        s.append(self.input.as_str());
        compose_output(ctx, s.as_str(), 0);
        ctx.entry = self.entry.duplicate();
    }

    fn input(&mut self, fixed: &str)
        ensures
            final(self).input@ == old(self).input@ + fixed@,
            final(self).entry == old(self).entry,
            final(self).candidate == old(self).candidate,
            final(self).prompt == old(self).prompt,
    {
        self.input.append(fixed);
    }

    fn input_event(&mut self, event: EditorEvent)
        ensures
            final(self).input@ == if event == EditorEvent::BackSpace && old(self).input@.len() > 0 {
                old(self).input@.drop_last()
            } else {
                old(self).input@
            },
            final(self).entry == old(self).entry,
            final(self).candidate == old(self).candidate,
            final(self).prompt == old(self).prompt,
    {
        if event == EditorEvent::BackSpace {
            let v = chars_of(self.input.as_str());
            if v.len() > 0 {
                self.input = string_of_range(v.as_slice(), 0, v.len() - 1);
            }
        }
    }

    fn commit(&mut self, ctx: &mut InputContext, backend: &mut Backend, queue: &mut String)
        ensures
            *final(self) == *old(self),
            final(queue)@ == Seq::<char>::empty(),
            old(self).input@ != "yes"@ ==> *final(backend) == *old(backend) && *final(ctx) == (InputContext {
                needs_setback: true,
                ..*old(ctx)
            }),
            old(self).input@ == "yes"@ ==> removed(*old(backend), *final(backend), old(self).entry, old(self).candidate@)
                && *final(ctx) == *old(ctx),
    {
        if !str_eq(self.input.as_str(), "yes") {
            ctx.needs_setback = true;
        } else {
            backend.remove(&self.entry, &self.candidate);
        }
        *queue = String::new();
    }
}

impl Default for EntryRemoveEditor {
    fn default() -> (e: Self)
        ensures
            e.answer() == Seq::<char>::empty(),
    {
        EntryRemoveEditor::new()
    }
}

/// The word registration editor.
#[derive(Debug)]
pub struct RegisterEditor {
    entry: Entry,
    prompt: String,
    word: TextBuffer,
}

impl RegisterEditor {
    pub closed spec fn reading(self) -> Entry {
        self.entry
    }

    pub closed spec fn prompt_text(self) -> Seq<char> {
        self.prompt@
    }

    pub closed spec fn word_text(self) -> Seq<char> {
        self.word.text()
    }

    /// An editor registering a word for `entry`, prompting
    /// "[登録：prompt]".
    pub fn new(entry: &Entry) -> (e: RegisterEditor)
        ensures
            e.reading() == *entry,
            e.prompt_text() == "[登録："@ + entry.stored_prompt() + "]"@,
            e.word_text() == Seq::<char>::empty(),
    {
        let mut p = String::new();
        p.append("[登録：");
        p.append(entry.prompt_string());
        p.append("]");
        RegisterEditor { entry: entry.duplicate(), prompt: p, word: TextBuffer::new() }
    }

    fn read_context(&mut self, ctx: &mut InputContext)
        ensures
            final(self).word.text() == typed_into(old(self).word.text(), old(self).word.pos(), old(ctx).registration.text()),
            final(self).word.cursor() == old(self).word.cursor(),
            final(self).entry == old(self).entry,
            final(self).prompt == old(self).prompt,
            final(ctx).entry.is_made_of(Seq::empty(), Seq::empty(), Seq::empty()),
            final(ctx).registration.progress() == RegistrationState::NotStarted,
            final(ctx).registration.text() == Seq::<char>::empty(),
            *final(ctx) == (InputContext { entry: final(ctx).entry, registration: final(ctx).registration, ..*old(ctx) }),
    {
        ctx.entry = Entry::empty();
        let word = copy_str(ctx.registration.word());
        self.input(word.as_str());
        ctx.registration.clear();
    }

    fn write_context(&mut self, ctx: &mut InputContext)
        ensures
            *final(self) == *old(self),
            final(ctx).output@ == composed_if(old(ctx).output@, old(self).prompt@ + old(self).word.text(), old(self).word.cursor()),
            *final(ctx) == (InputContext { output: final(ctx).output, ..*old(ctx) }),
    {
        let mut s = copy_str(self.prompt.as_str());
        let w = self.word.string();
        s.append(w.as_str());
        compose_output(ctx, s.as_str(), self.word.cursor_position());
    }

    fn input(&mut self, fixed: &str)
        ensures
            final(self).word.text() == typed_into(old(self).word.text(), old(self).word.pos(), fixed@),
            final(self).word.cursor() == old(self).word.cursor(),
            final(self).entry == old(self).entry,
            final(self).prompt == old(self).prompt,
    {
        if self.word.can_insert(fixed.unicode_len()) {
            self.word.insert(fixed);
        }
    }

    fn input_event(&mut self, event: EditorEvent)
        ensures
            (final(self).word.text(), final(self).word.cursor()) == edited(old(self).word.text(), old(self).word.cursor(), event),
            final(self).entry == old(self).entry,
            final(self).prompt == old(self).prompt,
    {
        match event {
            EditorEvent::BackSpace => self.word.backspace(),
            EditorEvent::Delete => self.word.delete(),
            EditorEvent::CursorLeft => self.word.cursor_left(),
            EditorEvent::CursorRight => self.word.cursor_right(),
            EditorEvent::CursorUp => self.word.cursor_up(),
            EditorEvent::CursorDown => self.word.cursor_down(),
        }
    }

    fn commit(&mut self, ctx: &mut InputContext, queue: &mut String)
        ensures
            final(self).word.text() == typed_into(old(self).word.text(), old(self).word.pos(), old(queue)@),
            final(self).word.cursor() == old(self).word.cursor(),
            final(self).entry == old(self).entry,
            final(self).prompt == old(self).prompt,
            final(queue)@ == final(self).word.text(),
            *final(ctx) == (InputContext { entry: old(self).entry, ..*old(ctx) }),
    {
        self.input(queue.as_str());
        *queue = self.word.string();
        ctx.entry = self.entry.duplicate();
    }
}

/// The bottom of the editor stack: direct input at the top level, word
/// registration in nested levels.
#[derive(Debug)]
pub enum BottomEditor {
    Primary(PrimaryEditor),
    Register(RegisterEditor),
}

// ---------------------------------------------------------------------------
// Input engine
// ---------------------------------------------------------------------------

/// The editors that can stand on the engine's stack.
#[derive(Debug, Clone, Copy, PartialEq, Eq, Structural)]
pub enum EditorId {
    Bottom,
    Composing,
    Okuri,
    Candidate,
    EntryRemove,
}

/// The editor stack and the input queue feeding it.
#[derive(Debug)]
pub struct InputEngine {
    mode: InputMode,
    mode_changed: bool,
    stack: Vec<EditorId>,
    input_queue: InputQueue,
    input_state: QueueState,
    word: String,
    bottom: BottomEditor,
    composing: ComposingEditor,
    okuri: OkuriEditor,
    candidate_editor: CandidateEditor,
    entry_remove: EntryRemoveEditor,
}

impl InputEngine {
    /// The editor stack is never empty, and the queue converts in the
    /// engine's input mode.
    pub closed spec fn wf(self) -> bool {
        &&& self.stack@.len() > 0
        &&& self.input_queue.mode() == self.mode
    }

    /// Direct input at the top level: only the bottom editor, and it takes
    /// text straight to the output.
    pub closed spec fn direct_input(self) -> bool {
        &&& self.stack@ == seq![EditorId::Bottom]
        &&& self.bottom is Primary
    }

    pub closed spec fn mode(self) -> InputMode {
        self.mode
    }

    /// The editor stack, bottom first.
    pub closed spec fn editors(self) -> Seq<EditorId> {
        self.stack@
    }

    /// The bottom editor takes a word to register (a nested level).
    pub closed spec fn registering(self) -> bool {
        self.bottom is Register
    }

    /// The word typed so far into the registration editor, when the bottom
    /// editor takes one.
    pub closed spec fn register_word(self) -> Option<Seq<char>> {
        match self.bottom {
            BottomEditor::Register(r) => Some(r.word.text()),
            BottomEditor::Primary(_) => None,
        }
    }

    /// The text the last commit gathered from the editors, what a
    /// registration takes as its word.
    pub closed spec fn committed_word(self) -> Seq<char> {
        self.word@
    }

    /// No romaji is pending to be shown after the editors' text.
    pub closed spec fn nothing_pending(self) -> bool {
        &&& self.input_state.queue@.len() == 0
        &&& self.input_state.intermediate@.len() == 0
    }

    /// The input mode changed since the last `take_mode_changed`.
    pub closed spec fn changed(self) -> bool {
        self.mode_changed
    }

    /// The input queue.
    pub closed spec fn queue(self) -> InputQueue {
        self.input_queue
    }

    /// The candidate editor.
    pub closed spec fn candidate_view(self) -> CandidateEditor {
        self.candidate_editor
    }

    /// The reading editor.
    pub closed spec fn reading_editor(self) -> ComposingEditor {
        self.composing
    }

    /// The okurigana editor.
    pub closed spec fn okuri_editor(self) -> OkuriEditor {
        self.okuri
    }

    pub fn new(bottom: BottomEditor) -> (e: InputEngine)
        ensures
            e.wf(),
            e.mode() == InputMode::Hirakana,
            !e.changed(),
            e.queue().mode() == InputMode::Hirakana,
            e.queue().pending() == Seq::<char>::empty(),
            e.editors() == seq![EditorId::Bottom],
            e.registering() == (bottom is Register),
            e.nothing_pending(),
    {
        let mut stack: Vec<EditorId> = Vec::new();
        stack.push(EditorId::Bottom);
        InputEngine {
            mode: InputMode::Hirakana,
            mode_changed: false,
            stack,
            input_queue: InputQueue::new(),
            input_state: QueueState::new(),
            word: String::new(),
            bottom,
            composing: ComposingEditor::new(),
            okuri: OkuriEditor::new(),
            candidate_editor: CandidateEditor::new(),
            entry_remove: EntryRemoveEditor::new(),
        }
    }

    pub fn input_mode(&self) -> (r: InputMode)
        ensures
            r == self.mode(),
    {
        self.mode
    }

    /// Whether the input mode changed since the last call.
    pub fn take_mode_changed(&mut self) -> (r: bool)
        requires
            old(self).wf(),
        ensures
            final(self).wf(),
            r == old(self).changed(),
            !final(self).changed(),
            final(self).mode() == old(self).mode(),
            final(self).queue() == old(self).queue(),
            final(self).okuri_editor() == old(self).okuri_editor(),
    {
        let r = self.mode_changed;
        self.mode_changed = false;
        r
    }

    fn top(&self) -> (id: EditorId)
        requires
            self.wf(),
        ensures
            id == self.stack@.last(),
    {
        self.stack[self.stack.len() - 1]
    }

    pub fn select_input_mode(&mut self, ctx: &mut InputContext, mode: InputMode)
        requires
            old(self).wf(),
        ensures
            final(self).wf(),
            final(self).mode() == mode,
            final(self).changed() == (old(self).changed() || old(self).mode() != mode),
            final(self).queue().mode() == mode,
            final(self).queue().pending() == Seq::<char>::empty(),
            final(ctx).event_handled,
    {
        if self.mode != mode {
            self.mode_changed = true;
        }
        self.mode = mode;
        let state = self.input_queue.select_input_mode(mode);
        self.route(ctx, state);
        ctx.event_handled = true;
    }

    fn sync_begin(&mut self, ctx: &mut InputContext, config: &Config)
        requires
            old(self).wf(),
        ensures
            final(self).input_state == old(self).input_state,
            (final(self).bottom is Primary) == (old(self).bottom is Primary),
            final(self).wf(),
            final(self).stack@ == seq![EditorId::Bottom],
            final(self).mode == old(self).mode,
            final(self).input_queue == old(self).input_queue,
            final(self).okuri == old(self).okuri,
    {
        self.write_all(ctx, config);
        self.initialize(ctx);
    }

    fn sync_end(&mut self, ctx: &mut InputContext, config: &Config)
        requires
            old(self).wf(),
        ensures
            old(self).stack@ == seq![EditorId::Bottom] && old(self).bottom is Primary && old(self).nothing_pending()
                ==> final(ctx).output@.composing.len() == 0,
            final(self).input_state == old(self).input_state,
            (final(self).bottom is Primary) == (old(self).bottom is Primary),
            final(self).wf(),
            final(self).stack@ == old(self).stack@,
            final(self).mode == old(self).mode,
            final(self).input_queue == old(self).input_queue,
    {
        let top = self.top();
        self.editor_read_context(top, ctx);
        self.write_all(ctx, config);
    }

    fn initialize(&mut self, ctx: &mut InputContext)
        ensures
            final(self).input_state == old(self).input_state,
            (final(self).bottom is Primary) == (old(self).bottom is Primary),
            final(self).stack@ == seq![EditorId::Bottom],
            final(self).mode == old(self).mode,
            final(self).input_queue == old(self).input_queue,
            final(self).okuri == old(self).okuri,
    {
        let mut stack: Vec<EditorId> = Vec::new();
        stack.push(EditorId::Bottom);
        self.stack = stack;
        ctx.dynamic_completion = false;
        ctx.annotation = false;
        if ctx.registration.state() == RegistrationState::Aborted {
            ctx.registration.clear();
            self.mode_changed = true;
        }
    }

    /// Direct input.
    pub fn set_state_primary(&mut self, ctx: &mut InputContext, config: &Config)
        requires
            old(self).wf(),
        ensures
            final(self).wf(),
            final(self).mode() == old(self).mode(),
            final(self).queue() == old(self).queue(),
            final(self).editors() == seq![EditorId::Bottom],
            final(self).registering() == old(self).registering(),
            final(self).nothing_pending() == old(self).nothing_pending(),
            !old(self).registering() && old(self).nothing_pending() ==> final(ctx).output@.composing.len() == 0,
            final(self).direct_input() == !old(self).registering(),
    {
        self.sync_begin(ctx, config);
        self.sync_end(ctx, config);
    }

    /// Reading input.
    pub fn set_state_composing(&mut self, ctx: &mut InputContext, config: &Config)
        requires
            old(self).wf(),
        ensures
            final(self).wf(),
            final(self).mode() == old(self).mode(),
            final(self).queue() == old(self).queue(),
            final(self).editors() == seq![EditorId::Bottom, EditorId::Composing],
            final(self).registering() == old(self).registering(),
    {
        self.sync_begin(ctx, config);
        self.stack.push(EditorId::Composing);
        if !config.delete_okuri_when_quit {
            let okuri = copy_str(ctx.entry.okuri_string());
            ctx.entry.append_entry(okuri.as_str());
        }
        self.sync_end(ctx, config);
    }

    /// Okurigana input.
    pub fn set_state_okuri(&mut self, ctx: &mut InputContext, config: &Config)
        requires
            old(self).wf(),
        ensures
            final(self).wf(),
            final(self).mode() == old(self).mode(),
            final(self).queue() == old(self).queue(),
            final(self).editors() == seq![EditorId::Bottom, EditorId::Composing, EditorId::Okuri],
            final(self).registering() == old(self).registering(),
    {
        self.sync_begin(ctx, config);
        self.stack.push(EditorId::Composing);
        self.stack.push(EditorId::Okuri);
        self.sync_end(ctx, config);
    }

    /// Candidate selection.
    pub fn set_state_select_candidate(&mut self, ctx: &mut InputContext, config: &Config)
        requires
            old(self).wf(),
        ensures
            final(self).wf(),
            final(self).mode() == old(self).mode(),
            final(self).queue() == old(self).queue(),
            final(self).editors() == seq![EditorId::Bottom, EditorId::Candidate],
            final(self).registering() == old(self).registering(),
    {
        self.sync_begin(ctx, config);
        self.stack.push(EditorId::Candidate);
        self.sync_end(ctx, config);
    }

    /// Confirmation of an entry removal.
    pub fn set_state_entry_remove(&mut self, ctx: &mut InputContext, config: &Config)
        requires
            old(self).wf(),
        ensures
            final(self).wf(),
            final(self).mode() == old(self).mode(),
            final(self).queue() == old(self).queue(),
            final(self).editors() == seq![EditorId::Bottom, EditorId::EntryRemove],
            final(self).registering() == old(self).registering(),
    {
        self.sync_begin(ctx, config);
        self.stack.push(EditorId::EntryRemove);
        self.sync_end(ctx, config);
    }

    /// Word registration starts (in a nested session).
    pub fn set_state_registration(&mut self, ctx: &mut InputContext, config: &Config)
        requires
            old(self).wf(),
        ensures
            final(self).wf(),
            final(self).mode() == old(self).mode(),
            final(self).queue() == old(self).queue(),
            final(self).editors() == old(self).editors(),
            final(self).registering() == old(self).registering(),
            final(ctx).registration.progress() == RegistrationState::Started,
    {
        self.update_input_context(ctx, config);
        ctx.registration.start();
    }

    /// A typed character: converted with the pending romaji, and at the top
    /// level taken straight to the output (in ASCII mode left to the
    /// application).
    pub fn handle_char(&mut self, ctx: &mut InputContext, converter: &RomanKanaConverter, code: u8, direct: bool)
        requires
            old(self).wf(),
        ensures
            final(self).wf(),
            final(self).editors() == old(self).editors(),
            final(self).registering() == old(self).registering(),
            final(self).mode() == old(self).mode(),
            final(self).changed() == old(self).changed(),
            final(self).queue().mode() == old(self).queue().mode(),
            final(self).queue().pending() == queue_pending(
                converter.rules(),
                old(self).mode(),
                old(self).queue().pending(),
                code,
                direct,
            ),
            old(self).direct_input() ==> final(self).direct_input(),
            old(self).direct_input() && old(self).mode() != InputMode::Ascii ==> final(ctx).output@ == (OutputModel {
                fixed: old(ctx).output@.fixed + queue_fixed(
                    converter.rules(),
                    old(self).mode(),
                    old(self).queue().pending(),
                    code,
                    direct,
                ),
                ..old(ctx).output@
            }) && final(ctx).event_handled == old(ctx).event_handled,
            old(self).direct_input() && old(self).mode() == InputMode::Ascii ==> !final(ctx).event_handled
                && final(ctx).output == old(ctx).output,
            old(self).editors().last() == EditorId::Composing ==> {
                let typed = typed_into(
                    old(self).reading_editor().text(),
                    old(self).reading_editor().pos(),
                    queue_fixed(converter.rules(), old(self).mode(), old(self).queue().pending(), code, direct),
                );
                &&& final(self).reading_editor().text() == typed
                &&& final(self).reading_editor().cursor() == old(self).reading_editor().cursor()
                &&& final(ctx).entry.is_made_of(
                    typed.take(final(self).reading_editor().pos()),
                    Seq::empty(),
                    Seq::empty(),
                )
            },
    {
        let state = self.input_queue.add_char(converter, code, direct);
        self.route(ctx, state);
    }

    /// Backspace: drop the last pending romaji, else let the top editor
    /// take it (at the top level it is left to the application).
    pub fn handle_backspace(&mut self, ctx: &mut InputContext)
        requires
            old(self).wf(),
        ensures
            old(self).queue().pending().len() == 0 && old(self).editors().last() == EditorId::Composing ==> {
                &&& (final(self).reading_editor().text(), final(self).reading_editor().cursor()) == edited(
                    old(self).reading_editor().text(),
                    old(self).reading_editor().cursor(),
                    EditorEvent::BackSpace,
                )
                &&& final(ctx).entry.is_made_of(
                    final(self).reading_editor().text().take(final(self).reading_editor().pos()),
                    Seq::empty(),
                    Seq::empty(),
                )
                &&& final(ctx).output == old(ctx).output
                &&& final(ctx).event_handled == old(ctx).event_handled
                &&& final(ctx).needs_setback == (old(ctx).needs_setback || old(self).reading_editor().text().len() == 0)
            },
            final(self).wf(),
            final(self).mode() == old(self).mode(),
            final(self).changed() == old(self).changed(),
            final(self).queue().mode() == old(self).queue().mode(),
            final(self).queue().pending() == if old(self).queue().pending().len() > 0 {
                old(self).queue().pending().drop_last()
            } else {
                old(self).queue().pending()
            },
            old(self).direct_input() ==> final(self).direct_input(),
            old(self).direct_input() && old(self).queue().pending().len() == 0 ==> *final(ctx) == (InputContext {
                event_handled: false,
                ..*old(ctx)
            }),
            old(self).direct_input() && old(self).queue().pending().len() > 0 && old(self).mode() != InputMode::Ascii
                ==> final(ctx).output@ == old(ctx).output@ && final(ctx).event_handled == old(ctx).event_handled,
    {
        match self.input_queue.remove_char() {
            Some(state) => self.route(ctx, state),
            None => self.invoke(ctx, EditorEvent::BackSpace),
        }
    }

    /// Delete: pending romaji is dropped; otherwise the top editor takes
    /// it (at the top level it is left to the application).
    pub fn handle_delete(&mut self, ctx: &mut InputContext)
        requires
            old(self).wf(),
        ensures
            old(self).queue().pending().len() == 0 && old(self).editors().last() == EditorId::Composing ==> {
                &&& (final(self).reading_editor().text(), final(self).reading_editor().cursor()) == edited(
                    old(self).reading_editor().text(),
                    old(self).reading_editor().cursor(),
                    EditorEvent::Delete,
                )
                &&& final(ctx).entry.is_made_of(
                    final(self).reading_editor().text().take(final(self).reading_editor().pos()),
                    Seq::empty(),
                    Seq::empty(),
                )
                &&& final(ctx).output == old(ctx).output
                &&& final(ctx).event_handled == old(ctx).event_handled
                &&& final(ctx).needs_setback == old(ctx).needs_setback
            },
            final(self).wf(),
            final(self).mode() == old(self).mode(),
            final(self).changed() == old(self).changed(),
            final(self).queue().mode() == old(self).queue().mode(),
            final(self).queue().pending() == Seq::<char>::empty(),
            old(self).direct_input() ==> final(self).direct_input(),
            old(self).queue().pending().len() > 0 || old(self).direct_input() ==> *final(ctx) == (InputContext {
                event_handled: false,
                ..*old(ctx)
            }),
    {
        self.invoke(ctx, EditorEvent::Delete);
    }

    pub fn handle_cursor_left(&mut self, ctx: &mut InputContext)
        requires
            old(self).wf(),
        ensures
            old(self).queue().pending().len() == 0 && old(self).editors().last() == EditorId::Composing ==> {
                &&& (final(self).reading_editor().text(), final(self).reading_editor().cursor()) == edited(
                    old(self).reading_editor().text(),
                    old(self).reading_editor().cursor(),
                    EditorEvent::CursorLeft,
                )
                &&& final(ctx).entry.is_made_of(
                    final(self).reading_editor().text().take(final(self).reading_editor().pos()),
                    Seq::empty(),
                    Seq::empty(),
                )
                &&& final(ctx).output == old(ctx).output
                &&& final(ctx).event_handled == old(ctx).event_handled
                &&& final(ctx).needs_setback == old(ctx).needs_setback
            },
            final(self).wf(),
            final(self).mode() == old(self).mode(),
            final(self).changed() == old(self).changed(),
            final(self).queue().mode() == old(self).queue().mode(),
            final(self).queue().pending() == Seq::<char>::empty(),
            old(self).direct_input() ==> final(self).direct_input(),
            old(self).queue().pending().len() > 0 || old(self).direct_input() ==> *final(ctx) == (InputContext {
                event_handled: false,
                ..*old(ctx)
            }),
    {
        self.invoke(ctx, EditorEvent::CursorLeft);
    }

    pub fn handle_cursor_right(&mut self, ctx: &mut InputContext)
        requires
            old(self).wf(),
        ensures
            old(self).queue().pending().len() == 0 && old(self).editors().last() == EditorId::Composing ==> {
                &&& (final(self).reading_editor().text(), final(self).reading_editor().cursor()) == edited(
                    old(self).reading_editor().text(),
                    old(self).reading_editor().cursor(),
                    EditorEvent::CursorRight,
                )
                &&& final(ctx).entry.is_made_of(
                    final(self).reading_editor().text().take(final(self).reading_editor().pos()),
                    Seq::empty(),
                    Seq::empty(),
                )
                &&& final(ctx).output == old(ctx).output
                &&& final(ctx).event_handled == old(ctx).event_handled
                &&& final(ctx).needs_setback == old(ctx).needs_setback
            },
            final(self).wf(),
            final(self).mode() == old(self).mode(),
            final(self).changed() == old(self).changed(),
            final(self).queue().mode() == old(self).queue().mode(),
            final(self).queue().pending() == Seq::<char>::empty(),
            old(self).direct_input() ==> final(self).direct_input(),
            old(self).queue().pending().len() > 0 || old(self).direct_input() ==> *final(ctx) == (InputContext {
                event_handled: false,
                ..*old(ctx)
            }),
    {
        self.invoke(ctx, EditorEvent::CursorRight);
    }

    pub fn handle_cursor_up(&mut self, ctx: &mut InputContext)
        requires
            old(self).wf(),
        ensures
            old(self).queue().pending().len() == 0 && old(self).editors().last() == EditorId::Composing ==> {
                &&& (final(self).reading_editor().text(), final(self).reading_editor().cursor()) == edited(
                    old(self).reading_editor().text(),
                    old(self).reading_editor().cursor(),
                    EditorEvent::CursorUp,
                )
                &&& final(ctx).entry.is_made_of(
                    final(self).reading_editor().text().take(final(self).reading_editor().pos()),
                    Seq::empty(),
                    Seq::empty(),
                )
                &&& final(ctx).output == old(ctx).output
                &&& final(ctx).event_handled == old(ctx).event_handled
                &&& final(ctx).needs_setback == old(ctx).needs_setback
            },
            final(self).wf(),
            final(self).mode() == old(self).mode(),
            final(self).changed() == old(self).changed(),
            final(self).queue().mode() == old(self).queue().mode(),
            final(self).queue().pending() == Seq::<char>::empty(),
            old(self).direct_input() ==> final(self).direct_input(),
            old(self).queue().pending().len() > 0 || old(self).direct_input() ==> *final(ctx) == (InputContext {
                event_handled: false,
                ..*old(ctx)
            }),
    {
        self.invoke(ctx, EditorEvent::CursorUp);
    }

    pub fn handle_cursor_down(&mut self, ctx: &mut InputContext)
        requires
            old(self).wf(),
        ensures
            old(self).queue().pending().len() == 0 && old(self).editors().last() == EditorId::Composing ==> {
                &&& (final(self).reading_editor().text(), final(self).reading_editor().cursor()) == edited(
                    old(self).reading_editor().text(),
                    old(self).reading_editor().cursor(),
                    EditorEvent::CursorDown,
                )
                &&& final(ctx).entry.is_made_of(
                    final(self).reading_editor().text().take(final(self).reading_editor().pos()),
                    Seq::empty(),
                    Seq::empty(),
                )
                &&& final(ctx).output == old(ctx).output
                &&& final(ctx).event_handled == old(ctx).event_handled
                &&& final(ctx).needs_setback == old(ctx).needs_setback
            },
            final(self).wf(),
            final(self).mode() == old(self).mode(),
            final(self).changed() == old(self).changed(),
            final(self).queue().mode() == old(self).queue().mode(),
            final(self).queue().pending() == Seq::<char>::empty(),
            old(self).direct_input() ==> final(self).direct_input(),
            old(self).queue().pending().len() > 0 || old(self).direct_input() ==> *final(ctx) == (InputContext {
                event_handled: false,
                ..*old(ctx)
            }),
    {
        self.invoke(ctx, EditorEvent::CursorDown);
    }

    /// Pasted text goes to the active editor as ASCII input.
    pub fn handle_paste(&mut self, ctx: &mut InputContext, text: &str)
        requires
            old(self).wf(),
        ensures
            final(self).wf(),
            final(self).mode() == old(self).mode(),
            final(self).changed() == old(self).changed(),
            final(self).queue() == old(self).queue(),
            old(self).direct_input() ==> final(self).direct_input() && !final(ctx).event_handled
                && final(ctx).output == old(ctx).output,
            old(self).editors().last() == EditorId::Composing ==> {
                let typed = typed_into(old(self).reading_editor().text(), old(self).reading_editor().pos(), text@);
                &&& final(self).reading_editor().text() == typed
                &&& final(self).reading_editor().cursor() == old(self).reading_editor().cursor()
                &&& final(ctx).entry.is_made_of(
                    typed.take(final(self).reading_editor().pos()),
                    Seq::empty(),
                    Seq::empty(),
                )
            },
    {
        let top = self.top();
        self.editor_input_ascii(top, ctx, text);
    }

    /// Commit, learn the committed word, and finish (or abort, when nothing
    /// was committed) a registration in progress.
    pub fn handle_enter(
        &mut self,
        ctx: &mut InputContext,
        backend: &mut Backend,
        converter: &RomanKanaConverter,
        config: &Config,
    )
        requires
            old(self).wf(),
        ensures
            final(self).wf(),
            final(self).mode() == old(self).mode(),
            final(self).editors() == old(self).editors(),
            final(self).registering() == old(self).registering(),
            final(self).changed() == old(self).changed(),
            final(self).queue().mode() == old(self).queue().mode(),
            final(self).queue().pending() == Seq::<char>::empty() || (!config.fix_intermediate_conversion
                && final(self).queue().pending() == old(self).queue().pending()),
            !final(ctx).event_handled,
            final(self).committed_word().len() > 0 ==> final(ctx).registration.progress()
                == RegistrationState::Finished && final(ctx).registration.text() == final(self).committed_word()
                + final(ctx).entry.okuri(),
            final(self).committed_word().len() == 0 ==> final(ctx).registration.progress()
                == RegistrationState::Aborted && final(ctx).registration.text() == Seq::<char>::empty(),
            old(self).queue().pending().len() == 0 && old(self).editors() == seq![EditorId::Bottom] ==> final(self).committed_word() == match old(self).register_word() {
                Some(w) => w,
                None => Seq::<char>::empty(),
            },
            old(self).queue().pending().len() == 0 && !old(self).registering() && old(self).editors() == seq![
                EditorId::Bottom,
                EditorId::Composing,
            ] ==> final(ctx).output@.fixed == old(ctx).output@.fixed + old(self).reading_editor().text(),
            old(self).queue().pending().len() == 0 && !old(self).registering() && old(self).editors() == seq![
                EditorId::Bottom,
                EditorId::Candidate,
            ] ==> final(ctx).output@.fixed == old(ctx).output@.fixed + old(self).candidate_view().shown_text(),
    {
        self.commit(ctx, backend, converter, config);
        let candidate = Candidate::from_word(self.word.as_str());
        let entry = ctx.entry.duplicate();
        self.study(backend, &entry, &candidate);
        if self.word.as_str().unicode_len() == 0 {
            ctx.registration.abort();
        } else {
            let mut output = copy_str(self.word.as_str());
            output.append(ctx.entry.okuri_string());
            ctx.registration.finish(output.as_str());
        }
        ctx.event_handled = false;
    }

    /// Cancel: drop pending romaji, or else abort a registration.
    pub fn handle_cancel(
        &mut self,
        ctx: &mut InputContext,
        converter: &RomanKanaConverter,
        config: &Config,
    )
        requires
            old(self).wf(),
        ensures
            final(self).wf(),
            final(self).mode() == old(self).mode(),
            final(self).editors() == old(self).editors(),
            final(self).registering() == old(self).registering(),
            final(self).changed() == old(self).changed(),
            final(self).queue().mode() == old(self).queue().mode(),
            final(self).queue().pending() == Seq::<char>::empty() || (!config.fix_intermediate_conversion
                && final(self).queue().pending() == old(self).queue().pending()),
            old(self).queue().pending().len() == 0 ==> !final(ctx).event_handled
                && final(ctx).registration.progress() == RegistrationState::Aborted,
    {
        if !self.input_queue.is_empty() {
            self.terminate(ctx, converter, config);
            return;
        }
        ctx.registration.abort();
        ctx.event_handled = false;
    }

    /// Fix pending romaji and commit every editor, top of the stack first.
    pub fn commit(&mut self, ctx: &mut InputContext, backend: &mut Backend, converter: &RomanKanaConverter, config: &Config)
        requires
            old(self).wf(),
        ensures
            old(self).queue().pending().len() == 0 && !old(self).registering() && old(self).editors() == seq![
                EditorId::Bottom,
                EditorId::Composing,
            ] ==> final(ctx).output@ == (OutputModel {
                fixed: old(ctx).output@.fixed + old(self).reading_editor().text(),
                ..old(ctx).output@
            }) && *final(backend) == *old(backend) && final(ctx).entry.is_made_of(
                Seq::empty(),
                Seq::empty(),
                Seq::empty(),
            ),
            old(self).queue().pending().len() == 0 && !old(self).registering() && old(self).editors() == seq![
                EditorId::Bottom,
                EditorId::Candidate,
            ] ==> final(ctx).output@ == (OutputModel {
                fixed: old(ctx).output@.fixed + old(self).candidate_view().shown_text(),
                ..old(ctx).output@
            }) && registered(
                *old(backend),
                *final(backend),
                old(self).candidate_view().reading(),
                old(self).candidate_view().selected(),
            ) && final(ctx).entry.is_made_of(Seq::empty(), Seq::empty(), Seq::empty()),
            old(self).queue().pending().len() == 0 && old(self).editors() == seq![EditorId::Bottom] ==> final(self).committed_word() == match old(self).register_word() {
                Some(w) => w,
                None => Seq::<char>::empty(),
            },
            final(self).wf(),
            final(self).mode() == old(self).mode(),
            final(self).editors() == old(self).editors(),
            final(self).registering() == old(self).registering(),
            final(self).changed() == old(self).changed(),
            final(self).queue().mode() == old(self).queue().mode(),
            final(self).queue().pending() == Seq::<char>::empty() || (!config.fix_intermediate_conversion
                && final(self).queue().pending() == old(self).queue().pending()),
    {
        self.terminate(ctx, converter, config);
        if let BottomEditor::Register(r) = &self.bottom {
            proof {
                use_type_invariant(&r.word);
            }
        }
        let ghost after = *self;
        let ghost shape_b = after.stack@ == seq![EditorId::Bottom];
        let ghost ctx0 = *ctx;
        let ghost b0 = *backend;
        let ghost shape_c = after.stack@ == seq![EditorId::Bottom, EditorId::Composing] && after.bottom is Primary;
        let ghost shape_k = after.stack@ == seq![EditorId::Bottom, EditorId::Candidate] && after.bottom is Primary;
        let mut word = String::new();
        let mut index = self.stack.len();
        while index > 0
            invariant
                index <= self.stack@.len(),
                self.wf(),
                self.mode == old(self).mode,
                self.stack == after.stack,
                self.input_queue == after.input_queue,
                self.mode_changed == after.mode_changed,
                (self.bottom is Primary) == (after.bottom is Primary),
                shape_c == (after.stack@ == seq![EditorId::Bottom, EditorId::Composing] && after.bottom is Primary),
                shape_k == (after.stack@ == seq![EditorId::Bottom, EditorId::Candidate] && after.bottom is Primary),
                shape_b == (after.stack@ == seq![EditorId::Bottom]),
                shape_b && index == 1 ==> word@ == Seq::<char>::empty() && self.bottom == after.bottom,
                shape_b && index == 0 ==> word@ == match after.register_word() {
                    Some(w) => w,
                    None => Seq::<char>::empty(),
                },
                after.bottom matches BottomEditor::Register(r) ==> 0 <= r.word.pos() <= r.word.text().len(),
                (shape_c || shape_k) && index == 2 ==> word@ == Seq::<char>::empty() && *ctx == ctx0 && *backend == b0
                    && self.composing == after.composing && self.candidate_editor == after.candidate_editor,
                shape_c && index == 1 ==> word@ == after.composing.text() && *ctx == ctx0 && *backend == b0,
                shape_c && index == 0 ==> ctx.output@ == (OutputModel {
                    fixed: ctx0.output@.fixed + after.composing.text(),
                    ..ctx0.output@
                }) && *backend == b0 && ctx.entry.is_made_of(Seq::empty(), Seq::empty(), Seq::empty()),
                shape_k && index == 1 ==> word@ == after.candidate_editor.shown_text() && *ctx == ctx0 && registered(
                    b0,
                    *backend,
                    after.candidate_editor.entry,
                    after.candidate_editor.candidate@,
                ),
                shape_k && index == 0 ==> ctx.output@ == (OutputModel {
                    fixed: ctx0.output@.fixed + after.candidate_editor.shown_text(),
                    ..ctx0.output@
                }) && registered(b0, *backend, after.candidate_editor.entry, after.candidate_editor.candidate@)
                    && ctx.entry.is_made_of(Seq::empty(), Seq::empty(), Seq::empty()),
            decreases index,
        {
            index -= 1;
            let id = self.stack[index];
            self.editor_commit(id, ctx, backend, &mut word);
            proof {
                if shape_b && index == 0 {
                    if let BottomEditor::Register(r) = after.bottom {
                        assert(r.word.text().take(r.word.pos()) + Seq::<char>::empty() + r.word.text().skip(
                            r.word.pos(),
                        ) =~= r.word.text());
                    }
                }
            }
        }
        self.word = word;
    }

    /// Drop pending input.
    pub fn reset(&mut self, ctx: &mut InputContext, converter: &RomanKanaConverter, config: &Config)
        requires
            old(self).wf(),
        ensures
            final(self).wf(),
            final(self).mode() == old(self).mode(),
            final(self).editors() == old(self).editors(),
            final(self).registering() == old(self).registering(),
            final(self).changed() == old(self).changed(),
            final(self).queue().mode() == old(self).queue().mode(),
            final(self).queue().pending() == Seq::<char>::empty() || (!config.fix_intermediate_conversion
                && final(self).queue().pending() == old(self).queue().pending()),
            !final(ctx).event_handled,
    {
        self.terminate(ctx, converter, config);
        ctx.event_handled = false;
    }

    /// Learn the reading as typed and insert it converted between hiragana
    /// and katakana.
    pub fn toggle_kana(&mut self, ctx: &mut InputContext, backend: &mut Backend, converter: &RomanKanaConverter, config: &Config)
        requires
            old(self).wf(),
        ensures
            final(self).wf(),
            final(self).mode() == old(self).mode(),
            final(self).editors() == old(self).editors(),
            final(self).registering() == old(self).registering(),
            final(self).changed() == old(self).changed(),
            final(self).queue().mode() == old(self).queue().mode(),
            final(self).queue().pending() == Seq::<char>::empty() || (!config.fix_intermediate_conversion
                && final(self).queue().pending() == old(self).queue().pending()),
    {
        self.terminate(ctx, converter, config);
        let entry = ctx.entry.duplicate();
        let blank = Candidate::empty();
        self.study(backend, &entry, &blank);
        let s = entry.toggle_kana(self.mode);
        self.insert(ctx, s.as_str());
    }

    /// Learn the reading as typed and insert it converted to half-width
    /// katakana (or back).
    pub fn toggle_jisx0201_kana(&mut self, ctx: &mut InputContext, backend: &mut Backend, converter: &RomanKanaConverter, config: &Config)
        requires
            old(self).wf(),
        ensures
            final(self).wf(),
            final(self).mode() == old(self).mode(),
            final(self).editors() == old(self).editors(),
            final(self).registering() == old(self).registering(),
            final(self).changed() == old(self).changed(),
            final(self).queue().mode() == old(self).queue().mode(),
            final(self).queue().pending() == Seq::<char>::empty() || (!config.fix_intermediate_conversion
                && final(self).queue().pending() == old(self).queue().pending()),
    {
        self.terminate(ctx, converter, config);
        let entry = ctx.entry.duplicate();
        let blank = Candidate::empty();
        self.study(backend, &entry, &blank);
        let s = entry.toggle_jisx0201_kana(self.mode);
        self.insert(ctx, s.as_str());
    }

    /// Rebuild the composing output from the editor stack, then the pending
    /// romaji (or its shortest kana match when configured).
    pub fn update_input_context(&mut self, ctx: &mut InputContext, config: &Config)
        requires
            old(self).wf(),
        ensures
            final(self).wf(),
            final(self).mode() == old(self).mode(),
            final(self).queue() == old(self).queue(),
            final(self).okuri_editor() == old(self).okuri_editor(),
            final(self).editors() == old(self).editors(),
            final(self).registering() == old(self).registering(),
            final(self).nothing_pending() == old(self).nothing_pending(),
            old(self).direct_input() && old(self).nothing_pending() ==> final(ctx).output@.composing.len() == 0,
            final(ctx).output@.fixed == old(ctx).output@.fixed,
    {
        self.write_all(ctx, config);
    }

    fn write_all(&mut self, ctx: &mut InputContext, config: &Config)
        ensures
            final(ctx).output@.fixed == old(ctx).output@.fixed,
            old(self).stack@ == seq![EditorId::Bottom] && old(self).bottom is Primary && old(self).nothing_pending()
                ==> final(ctx).output@.composing.len() == 0,
            final(self).input_state == old(self).input_state,
            (final(self).bottom is Primary) == (old(self).bottom is Primary),
            final(self).stack@ == old(self).stack@,
            final(self).mode == old(self).mode,
            final(self).mode_changed == old(self).mode_changed,
            final(self).input_queue == old(self).input_queue,
            final(self).okuri == old(self).okuri,
    {
        ctx.output.clear();
        let mut index: usize = 0;
        while index < self.stack.len()
            invariant
                index <= self.stack@.len(),
                self.stack@ == old(self).stack@,
                self.mode == old(self).mode,
                self.mode_changed == old(self).mode_changed,
                self.input_queue == old(self).input_queue,
                self.okuri == old(self).okuri,
                (self.bottom is Primary) == (old(self).bottom is Primary),
                self.input_state == old(self).input_state,
                ctx.output@.fixed == old(ctx).output@.fixed,
                old(self).stack@ == seq![EditorId::Bottom] && old(self).bottom is Primary ==> ctx.output@.composing.len()
                    == 0 && ctx.output@.cursor == 0,
            decreases self.stack.len() - index,
        {
            let id = self.stack[index];
            self.editor_write_context(id, ctx);
            index += 1;
        }
        if config.display_shortest_match_of_kana_conversions && self.input_state.intermediate.as_str().unicode_len() > 0 {
            let s = copy_str(self.input_state.intermediate.as_str());
            compose_output(ctx, s.as_str(), 0);
        } else {
            let s = copy_str(self.input_state.queue.as_str());
            compose_output(ctx, s.as_str(), 0);
        }
    }

    /// Whether the next typed byte would complete a kana rule.
    pub fn can_convert(&self, converter: &RomanKanaConverter, code: u8) -> (r: bool)
        ensures
            r == (is_kana_mode(self.queue().mode()) && converted(
                converter.rules(),
                self.queue().mode(),
                self.queue().pending().push(byte_char(lower(code))),
            ).converted),
    {
        self.input_queue.can_convert(converter, code)
    }

    pub fn is_okuri_complete(&self) -> (r: bool)
        ensures
            r == (self.okuri_editor().okurigana().len() > 0 && self.okuri_editor().pending().len() == 0),
    {
        self.okuri.is_okuri_complete()
    }

    /// The entry to look up: pending romaji fixed, the reading normalized
    /// for the input mode.
    pub fn selector_query_entry(&mut self, ctx: &mut InputContext, converter: &RomanKanaConverter, config: &Config) -> (e: Entry)
        requires
            old(self).wf(),
        ensures
            final(self).wf(),
            final(self).mode() == old(self).mode(),
            final(self).editors() == old(self).editors(),
            final(self).registering() == old(self).registering(),
            final(self).changed() == old(self).changed(),
            final(self).queue().mode() == old(self).queue().mode(),
            final(self).queue().pending() == Seq::<char>::empty() || (!config.fix_intermediate_conversion
                && final(self).queue().pending() == old(self).queue().pending()),
            final(ctx).entry == e,
            old(self).queue().pending().len() == 0 ==> old(ctx).entry.normalizes_to(old(self).mode(), e),
    {
        self.terminate(ctx, converter, config);
        let entry = ctx.entry.normalize(self.mode);
        ctx.entry = entry.duplicate();
        entry
    }

    /// The reading to complete.
    pub fn completer_query_string(&mut self, ctx: &mut InputContext, converter: &RomanKanaConverter, config: &Config) -> (r: String)
        requires
            old(self).wf(),
        ensures
            final(self).wf(),
            final(self).mode() == old(self).mode(),
            final(self).editors() == old(self).editors(),
            final(self).registering() == old(self).registering(),
            final(self).changed() == old(self).changed(),
            final(self).queue().mode() == old(self).queue().mode(),
            final(self).queue().pending() == Seq::<char>::empty() || (!config.fix_intermediate_conversion
                && final(self).queue().pending() == old(self).queue().pending()),
            r@ == final(ctx).entry.key(),
            old(self).queue().pending().len() == 0 ==> old(ctx).entry.normalizes_to(old(self).mode(), final(ctx).entry),
    {
        let e = self.selector_query_entry(ctx, converter, config);
        copy_str(e.entry_string())
    }

    /// Show a candidate as the selection.
    pub fn set_candidate(&mut self, ctx: &mut InputContext, candidate: &Candidate)
        requires
            old(self).wf(),
        ensures
            final(self).wf(),
            final(self).mode() == old(self).mode(),
            final(ctx).candidate@ == candidate@,
    {
        self.candidate_editor.set_candidate(ctx, candidate);
    }

    /// Replace the reading with a completion.
    pub fn set_composing_entry(&mut self, ctx: &mut InputContext, entry: &str)
        requires
            old(self).wf(),
        ensures
            final(self).wf(),
            final(self).mode() == old(self).mode(),
            entry@.len() <= i32::MAX ==> final(ctx).entry.is_made_of(entry@, Seq::empty(), Seq::empty()),
    {
        if entry.unicode_len() <= 0x7fff_ffff {
            self.composing.set_entry(ctx, entry);
        }
    }

    fn terminate(&mut self, ctx: &mut InputContext, converter: &RomanKanaConverter, config: &Config)
        requires
            old(self).wf(),
        ensures
            old(self).input_queue.pending().len() == 0 ==> *final(self) == *old(self) && *final(ctx) == *old(ctx),
            final(self).wf(),
            final(self).stack@ == old(self).stack@,
            final(self).mode == old(self).mode,
            final(self).input_queue.mode() == old(self).input_queue.mode(),
            final(self).input_queue.pending() == Seq::<char>::empty() || (!config.fix_intermediate_conversion
                && final(self).input_queue.pending() == old(self).input_queue.pending()),
            (final(self).bottom is Primary) == (old(self).bottom is Primary),
            final(self).mode_changed == old(self).mode_changed,
    {
        let state = if config.fix_intermediate_conversion {
            self.input_queue.terminate(converter)
        } else if self.input_queue.is_empty() {
            None
        } else {
            Some(self.input_queue.clear())
        };
        if let Some(state) = state {
            self.route(ctx, state);
        }
    }

    fn invoke(&mut self, ctx: &mut InputContext, event: EditorEvent)
        requires
            old(self).wf(),
        ensures
            old(self).input_queue.pending().len() == 0 && old(self).stack@.last() == EditorId::Composing ==> {
                &&& (final(self).composing.text(), final(self).composing.cursor()) == edited(
                    old(self).composing.text(),
                    old(self).composing.cursor(),
                    event,
                )
                &&& final(ctx).entry.is_made_of(
                    final(self).composing.text().take(final(self).composing.pos()),
                    Seq::empty(),
                    Seq::empty(),
                )
                &&& final(ctx).output == old(ctx).output
                &&& final(ctx).event_handled == old(ctx).event_handled
                &&& final(ctx).needs_setback == (old(ctx).needs_setback || (event == EditorEvent::BackSpace
                    && old(self).composing.text().len() == 0))
            },
            final(self).wf(),
            final(self).stack@ == old(self).stack@,
            final(self).mode == old(self).mode,
            final(self).mode_changed == old(self).mode_changed,
            final(self).input_queue.mode() == old(self).input_queue.mode(),
            final(self).input_queue.pending() == Seq::<char>::empty(),
            (final(self).bottom is Primary) == (old(self).bottom is Primary),
            old(self).input_queue.pending().len() > 0 ==> *final(ctx) == (InputContext {
                event_handled: false,
                ..*old(ctx)
            }),
            old(self).input_queue.pending().len() == 0 ==> final(self).input_queue == old(self).input_queue,
            old(self).input_queue.pending().len() == 0 && old(self).direct_input() ==> *final(ctx) == (
            InputContext { event_handled: false, ..*old(ctx) }),
    {
        if !self.input_queue.is_empty() {
            self.input_queue.clear();
            self.input_state = QueueState::new();
            ctx.event_handled = false;
        } else {
            let top = self.top();
            self.editor_input_event(top, ctx, event);
        }
    }

    fn study(&mut self, backend: &mut Backend, entry: &Entry, candidate: &Candidate)
        ensures
            *final(self) == *old(self),
            entry.reading().len() == 0 || (entry.okuri().len() > 0 && candidate@.word.len() == 0) ==> *final(backend)
                == *old(backend),
            !(entry.reading().len() == 0 || (entry.okuri().len() > 0 && candidate@.word.len() == 0)) ==> registered(
                *old(backend),
                *final(backend),
                *entry,
                candidate@,
            ),
    {
        if entry.is_empty() {
            return;
        }
        if entry.is_okuri_ari() && (entry.okuri_string().unicode_len() == 0 || candidate.is_empty()) {
            return;
        }
        backend.register(entry, candidate);
    }

    fn insert(&mut self, ctx: &mut InputContext, s: &str)
        requires
            old(self).wf(),
        ensures
            final(self).wf(),
            final(self).stack@ == old(self).stack@,
            final(self).mode == old(self).mode,
            (final(self).bottom is Primary) == (old(self).bottom is Primary),
            final(self).mode_changed == old(self).mode_changed,
            final(self).input_queue == old(self).input_queue,
            final(self).composing == old(self).composing,
            old(self).bottom is Primary ==> final(ctx).output@ == (OutputModel {
                fixed: old(ctx).output@.fixed + s@,
                ..old(ctx).output@
            }) && final(ctx).event_handled == old(ctx).event_handled,
            old(self).bottom matches BottomEditor::Register(r) ==> (final(self).bottom matches BottomEditor::Register(r2)
                && r2.word.text() == typed_into(r.word.text(), r.word.pos(), s@) && r2.word.cursor() == r.word.cursor()
                && *final(ctx) == *old(ctx)),
    {
        let empty = String::new();
        self.editor_input(EditorId::Bottom, ctx, s, empty.as_str(), 0);
    }

    /// Hand a conversion step's output to the top editor.
    fn route(&mut self, ctx: &mut InputContext, state: QueueState)
        requires
            old(self).wf(),
        ensures
            old(self).stack@.last() == EditorId::Composing ==> final(self).composing.text() == typed_into(
                old(self).composing.text(),
                old(self).composing.pos(),
                state.fixed@,
            ) && final(self).composing.cursor() == old(self).composing.cursor() && final(ctx).entry.is_made_of(
                final(self).composing.text().take(final(self).composing.pos()),
                Seq::empty(),
                Seq::empty(),
            ),
            final(self).wf(),
            final(self).mode_changed == old(self).mode_changed,
            final(self).stack@ == old(self).stack@,
            final(self).mode == old(self).mode,
            final(self).input_queue == old(self).input_queue,
            (final(self).bottom is Primary) == (old(self).bottom is Primary),
            old(self).direct_input() && old(self).mode != InputMode::Ascii ==> final(ctx).output@ == (OutputModel {
                fixed: old(ctx).output@.fixed + state.fixed@,
                ..old(ctx).output@
            }) && final(ctx).event_handled == old(ctx).event_handled,
            old(self).direct_input() && old(self).mode == InputMode::Ascii ==> !final(ctx).event_handled
                && final(ctx).output == old(ctx).output,
    {
        self.input_state = state.duplicate();
        let top = self.top();
        if self.mode == InputMode::Ascii {
            self.editor_input_ascii(top, ctx, state.fixed.as_str());
        } else {
            self.editor_input(top, ctx, state.fixed.as_str(), state.queue.as_str(), state.code);
        }
    }

    fn editor_read_context(&mut self, id: EditorId, ctx: &mut InputContext)
        ensures
            id != EditorId::Bottom ==> final(self).bottom == old(self).bottom,
            id != EditorId::Composing ==> final(self).composing == old(self).composing,
            id != EditorId::Okuri ==> final(self).okuri == old(self).okuri,
            id != EditorId::Candidate ==> final(self).candidate_editor == old(self).candidate_editor,
            id != EditorId::EntryRemove ==> final(self).entry_remove == old(self).entry_remove,
            final(self).word == old(self).word,
            id == EditorId::Composing ==> {
                &&& old(ctx).entry.reading().len() == 0 ==> final(self).composing.text() == typed_into(
                    Seq::empty(),
                    0,
                    old(ctx).undo.reading(),
                ) && final(ctx).entry == old(ctx).entry
                &&& old(ctx).entry.reading().len() > 0 ==> final(ctx).entry.is_made_of(
                    old(ctx).entry.reading(),
                    Seq::empty(),
                    Seq::empty(),
                ) && final(self).composing.text() == typed_into(Seq::empty(), 0, final(ctx).entry.key())
                &&& final(self).composing.cursor() == 0
                &&& *final(ctx) == (InputContext { entry: final(ctx).entry, dynamic_completion: true, ..*old(ctx) })
            },
            id == EditorId::Okuri ==> final(self).okuri.first && final(self).okuri.prefix@ == Seq::<char>::empty()
                && final(self).okuri.okuri@ == Seq::<char>::empty() && final(self).okuri.input == old(self).okuri.input
                && *final(ctx) == *old(ctx),
            id == EditorId::Candidate ==> final(self).candidate_editor.entry == old(ctx).entry
                && final(self).candidate_editor.candidate == old(self).candidate_editor.candidate && *final(ctx) == (
            InputContext { annotation: true, ..*old(ctx) }),
            id == EditorId::EntryRemove ==> final(self).entry_remove.entry == old(ctx).entry
                && final(self).entry_remove.candidate@ == old(ctx).candidate@ && final(self).entry_remove.input@
                == Seq::<char>::empty() && final(self).entry_remove.prompt@ == old(ctx).entry.key() + " /"@
                + old(ctx).candidate@.serialized() + "/ を削除しますか？(yes/no) "@ && *final(ctx) == *old(ctx),
            id == EditorId::Bottom && old(self).bottom is Primary ==> {
                &&& final(ctx).entry.is_made_of(Seq::empty(), Seq::empty(), Seq::empty())
                &&& old(ctx).registration.progress() == RegistrationState::Finished ==> final(ctx).output@ == (
                OutputModel { fixed: old(ctx).output@.fixed + old(ctx).registration.text(), ..old(ctx).output@ })
                    && final(ctx).registration.progress() == RegistrationState::NotStarted
                    && final(ctx).registration.text() == Seq::<char>::empty()
                &&& old(ctx).registration.progress() != RegistrationState::Finished ==> final(ctx).output
                    == old(ctx).output && final(ctx).registration == old(ctx).registration
                &&& *final(ctx) == (InputContext {
                    entry: final(ctx).entry,
                    output: final(ctx).output,
                    registration: final(ctx).registration,
                    ..*old(ctx)
                })
            },
            id == EditorId::Bottom ==> (old(self).bottom matches BottomEditor::Register(r) ==> (final(self).bottom matches BottomEditor::Register(
                r2,
            ) && r2.word.text() == typed_into(r.word.text(), r.word.pos(), old(ctx).registration.text())
                && r2.word.cursor() == r.word.cursor() && r2.entry == r.entry && r2.prompt == r.prompt
                && final(ctx).entry.is_made_of(Seq::empty(), Seq::empty(), Seq::empty())
                && final(ctx).registration.progress() == RegistrationState::NotStarted
                && final(ctx).registration.text() == Seq::<char>::empty() && *final(ctx) == (InputContext {
                entry: final(ctx).entry,
                registration: final(ctx).registration,
                ..*old(ctx)
            }))),
            final(self).input_state == old(self).input_state,
            (final(self).bottom is Primary) == (old(self).bottom is Primary),
            final(self).stack == old(self).stack,
            final(self).mode == old(self).mode,
            final(self).input_queue == old(self).input_queue,
    {
        match id {
            EditorId::Bottom => match &mut self.bottom {
                BottomEditor::Primary(editor) => editor.read_context(ctx),
                BottomEditor::Register(editor) => editor.read_context(ctx),
            },
            EditorId::Composing => self.composing.read_context(ctx),
            EditorId::Okuri => self.okuri.read_context(ctx),
            EditorId::Candidate => self.candidate_editor.read_context(ctx),
            EditorId::EntryRemove => self.entry_remove.read_context(ctx),
        }
    }

    fn editor_write_context(&mut self, id: EditorId, ctx: &mut InputContext)
        ensures
            *final(self) == *old(self),
            id == EditorId::Composing ==> final(ctx).output@ == composed_if(
                with_mark(old(ctx).output@),
                seq!['▽'] + old(self).composing.text(),
                old(self).composing.cursor(),
            ) && final(ctx).entry.is_made_of(
                old(self).composing.text().take(old(self).composing.pos()),
                Seq::empty(),
                Seq::empty(),
            ) && *final(ctx) == (InputContext { entry: final(ctx).entry, output: final(ctx).output, ..*old(ctx) }),
            id == EditorId::Okuri ==> final(ctx).output@ == composed_if(
                old(ctx).output@,
                seq!['*'] + old(self).okuri.okuri@,
                0,
            ) && final(ctx).entry.is_made_of(old(ctx).entry.reading(), old(self).okuri.prefix@, old(self).okuri.okuri@)
                && *final(ctx) == (InputContext { entry: final(ctx).entry, output: final(ctx).output, ..*old(ctx) }),
            id == EditorId::Candidate ==> final(ctx).output@ == (if old(ctx).output@.composing.len() <= i32::MAX {
                (OutputModel {
                    start: insert_pos(old(ctx).output@.composing.len() as int, old(ctx).output@.cursor) as nat,
                    length: old(self).candidate_editor.shown_text().len() + 1,
                    ..with_mark(old(ctx).output@)
                }).composed(seq!['▼'] + old(self).candidate_editor.shown_text(), 0)
            } else {
                old(ctx).output@
            }) && final(ctx).entry == old(self).candidate_editor.entry && final(ctx).candidate@
                == old(self).candidate_editor.candidate@ && *final(ctx) == (InputContext {
                entry: final(ctx).entry,
                candidate: final(ctx).candidate,
                output: final(ctx).output,
                ..*old(ctx)
            }),
            id == EditorId::EntryRemove ==> final(ctx).output@ == composed_if(
                OutputModel { composing: Seq::empty(), cursor: 0, mark: 0, start: 0, length: 0, ..old(ctx).output@ },
                old(self).entry_remove.prompt@ + old(self).entry_remove.input@,
                0,
            ) && final(ctx).entry == old(self).entry_remove.entry && *final(ctx) == (InputContext {
                entry: final(ctx).entry,
                output: final(ctx).output,
                ..*old(ctx)
            }),
            id == EditorId::Bottom ==> (old(self).bottom matches BottomEditor::Register(r) ==> final(ctx).output@
                == composed_if(old(ctx).output@, r.prompt@ + r.word.text(), r.word.cursor()) && *final(ctx) == (
            InputContext { output: final(ctx).output, ..*old(ctx) })),
            id == EditorId::Bottom && old(self).bottom is Primary ==> *final(ctx) == *old(ctx),
            final(self).input_state == old(self).input_state,
            (final(self).bottom is Primary) == (old(self).bottom is Primary),
            final(self).mode_changed == old(self).mode_changed,
            final(self).stack == old(self).stack,
            final(self).mode == old(self).mode,
            final(self).input_queue == old(self).input_queue,
            final(self).okuri == old(self).okuri,
    {
        match id {
            EditorId::Bottom => match &mut self.bottom {
                BottomEditor::Primary(_) => {},
                BottomEditor::Register(editor) => editor.write_context(ctx),
            },
            EditorId::Composing => self.composing.write_context(ctx),
            EditorId::Okuri => self.okuri.write_context(ctx),
            EditorId::Candidate => self.candidate_editor.write_context(ctx),
            EditorId::EntryRemove => self.entry_remove.write_context(ctx),
        }
    }

    fn editor_input(&mut self, id: EditorId, ctx: &mut InputContext, fixed: &str, input: &str, code: u8)
        ensures
            id == EditorId::Composing ==> final(self).composing.text() == typed_into(
                old(self).composing.text(),
                old(self).composing.pos(),
                fixed@,
            ) && final(self).composing.cursor() == old(self).composing.cursor() && final(ctx).entry.is_made_of(
                final(self).composing.text().take(final(self).composing.pos()),
                Seq::empty(),
                Seq::empty(),
            ),
            final(self).mode_changed == old(self).mode_changed,
            final(self).stack == old(self).stack,
            final(self).mode == old(self).mode,
            final(self).input_queue == old(self).input_queue,
            (final(self).bottom is Primary) == (old(self).bottom is Primary),
            id == EditorId::Bottom && old(self).bottom is Primary ==> final(ctx).output@ == (OutputModel {
                fixed: old(ctx).output@.fixed + fixed@,
                ..old(ctx).output@
            }) && final(ctx).event_handled == old(ctx).event_handled,
            id == EditorId::Bottom ==> final(self).composing == old(self).composing,
            id == EditorId::Bottom ==> (old(self).bottom matches BottomEditor::Register(r) ==> (final(self).bottom matches BottomEditor::Register(
                r2,
            ) && r2.word.text() == typed_into(r.word.text(), r.word.pos(), fixed@) && r2.word.cursor() == r.word.cursor()
                && *final(ctx) == *old(ctx))),
    {
        match id {
            EditorId::Bottom => match &mut self.bottom {
                BottomEditor::Primary(editor) => editor.input(ctx, fixed),
                BottomEditor::Register(editor) => editor.input(fixed),
            },
            EditorId::Composing => self.composing.input(ctx, fixed),
            EditorId::Okuri => {
                if let Some(append) = self.okuri.input(ctx, fixed, input, code) {
                    // The fixed part belongs to the reading ("KesSi").
                    self.composing.input(ctx, append.as_str());
                    self.okuri.update(ctx);
                }
            },
            EditorId::EntryRemove => self.entry_remove.input(fixed),
            EditorId::Candidate => {},
        }
    }

    fn editor_input_ascii(&mut self, id: EditorId, ctx: &mut InputContext, ascii: &str)
        ensures
            id == EditorId::Composing ==> final(self).composing.text() == typed_into(
                old(self).composing.text(),
                old(self).composing.pos(),
                ascii@,
            ) && final(self).composing.cursor() == old(self).composing.cursor() && final(ctx).entry.is_made_of(
                final(self).composing.text().take(final(self).composing.pos()),
                Seq::empty(),
                Seq::empty(),
            ),
            final(self).mode_changed == old(self).mode_changed,
            final(self).stack == old(self).stack,
            final(self).mode == old(self).mode,
            final(self).input_queue == old(self).input_queue,
            (final(self).bottom is Primary) == (old(self).bottom is Primary),
            id == EditorId::Bottom && old(self).bottom is Primary ==> !final(ctx).event_handled
                && final(ctx).output == old(ctx).output,
    {
        match id {
            EditorId::Bottom => match &mut self.bottom {
                BottomEditor::Primary(_) => {
                    ctx.event_handled = false;
                },
                BottomEditor::Register(editor) => editor.input(ascii),
            },
            EditorId::Composing => self.composing.input(ctx, ascii),
            EditorId::EntryRemove => self.entry_remove.input(ascii),
            EditorId::Okuri | EditorId::Candidate => {},
        }
    }

    fn editor_input_event(&mut self, id: EditorId, ctx: &mut InputContext, event: EditorEvent)
        ensures
            id == EditorId::Composing ==> {
                &&& (final(self).composing.text(), final(self).composing.cursor()) == edited(
                    old(self).composing.text(),
                    old(self).composing.cursor(),
                    event,
                )
                &&& final(ctx).entry.is_made_of(
                    final(self).composing.text().take(final(self).composing.pos()),
                    Seq::empty(),
                    Seq::empty(),
                )
                &&& final(ctx).output == old(ctx).output
                &&& final(ctx).event_handled == old(ctx).event_handled
                &&& final(ctx).needs_setback == (old(ctx).needs_setback || (event == EditorEvent::BackSpace
                    && old(self).composing.text().len() == 0))
            },
            final(self).stack == old(self).stack,
            final(self).mode == old(self).mode,
            final(self).input_queue == old(self).input_queue,
            final(self).mode_changed == old(self).mode_changed,
            (final(self).bottom is Primary) == (old(self).bottom is Primary),
            id == EditorId::Bottom && old(self).bottom is Primary ==> *final(ctx) == (InputContext {
                event_handled: false,
                ..*old(ctx)
            }),
    {
        match id {
            EditorId::Bottom => match &mut self.bottom {
                BottomEditor::Primary(editor) => editor.input_event(ctx),
                BottomEditor::Register(editor) => editor.input_event(event),
            },
            EditorId::Composing => self.composing.input_event(ctx, event),
            EditorId::Okuri => self.okuri.input_event(ctx, event),
            EditorId::EntryRemove => self.entry_remove.input_event(event),
            EditorId::Candidate => {},
        }
    }

    fn editor_commit(&mut self, id: EditorId, ctx: &mut InputContext, backend: &mut Backend, queue: &mut String)
        ensures
            id != EditorId::Bottom ==> final(self).bottom == old(self).bottom,
            id != EditorId::Composing ==> final(self).composing == old(self).composing,
            id != EditorId::Okuri ==> final(self).okuri == old(self).okuri,
            id != EditorId::Candidate ==> final(self).candidate_editor == old(self).candidate_editor,
            id != EditorId::EntryRemove ==> final(self).entry_remove == old(self).entry_remove,
            final(self).word == old(self).word,
            id != EditorId::Candidate && id != EditorId::EntryRemove ==> *final(backend) == *old(backend),
            id == EditorId::Composing ==> final(queue)@ == old(self).composing.text() && *final(ctx) == *old(ctx),
            id == EditorId::Okuri ==> final(self).okuri.prefix@ == Seq::<char>::empty() && final(self).okuri.okuri@
                == Seq::<char>::empty() && final(self).okuri.input == old(self).okuri.input && final(self).okuri.first
                == old(self).okuri.first && *final(queue) == *old(queue) && *final(ctx) == *old(ctx),
            id == EditorId::Candidate ==> registered(
                *old(backend),
                *final(backend),
                old(self).candidate_editor.entry,
                old(self).candidate_editor.candidate@,
            ) && final(queue)@ == old(self).candidate_editor.shown_text() && final(self).candidate_editor.candidate@
                == word_candidate(Seq::empty()) && final(self).candidate_editor.entry == old(self).candidate_editor.entry
                && *final(ctx) == *old(ctx),
            id == EditorId::EntryRemove ==> final(self).entry_remove == old(self).entry_remove && final(queue)@
                == Seq::<char>::empty() && (old(self).entry_remove.input@ != "yes"@ ==> *final(backend) == *old(backend)
                && *final(ctx) == (InputContext { needs_setback: true, ..*old(ctx) })) && (old(self).entry_remove.input@
                == "yes"@ ==> removed(
                *old(backend),
                *final(backend),
                old(self).entry_remove.entry,
                old(self).entry_remove.candidate@,
            ) && *final(ctx) == *old(ctx)),
            id == EditorId::Bottom && old(self).bottom is Primary ==> final(ctx).output@ == (OutputModel {
                fixed: old(ctx).output@.fixed + old(queue)@,
                ..old(ctx).output@
            }) && final(queue)@ == Seq::<char>::empty() && final(ctx).entry.is_made_of(
                Seq::empty(),
                Seq::empty(),
                Seq::empty(),
            ) && *final(ctx) == (InputContext { entry: final(ctx).entry, output: final(ctx).output, ..*old(ctx) }),
            id == EditorId::Bottom ==> (old(self).bottom matches BottomEditor::Register(r) ==> (final(self).bottom matches BottomEditor::Register(
                r2,
            ) && r2.word.text() == typed_into(r.word.text(), r.word.pos(), old(queue)@) && r2.word.cursor()
                == r.word.cursor() && r2.entry == r.entry && r2.prompt == r.prompt && final(queue)@ == r2.word.text()
                && *final(ctx) == (InputContext { entry: r.entry, ..*old(ctx) }))),
            (final(self).bottom is Primary) == (old(self).bottom is Primary),
            final(self).mode_changed == old(self).mode_changed,
            final(self).stack == old(self).stack,
            final(self).mode == old(self).mode,
            final(self).input_queue == old(self).input_queue,
    {
        match id {
            EditorId::Bottom => match &mut self.bottom {
                BottomEditor::Primary(editor) => editor.commit(ctx, queue),
                BottomEditor::Register(editor) => editor.commit(ctx, queue),
            },
            EditorId::Composing => self.composing.commit(queue),
            EditorId::Okuri => self.okuri.commit(),
            EditorId::Candidate => self.candidate_editor.commit(backend, queue),
            EditorId::EntryRemove => self.entry_remove.commit(ctx, backend, queue),
        }
    }
}

} // verus!
