//! State shared across the editor stack: the output buffer, word
//! registration and re-conversion.

use vstd::prelude::*;
use crate::backend::Backend;
use crate::bridge::{FrontEnd, Marking};
use crate::candidate::Candidate;
use crate::entry::Entry;
use crate::text::{chars_of, copy_str, push_chars, push_str_chars, str_eq, string_of};

verus! {

/// The mathematical content of an output buffer.
pub struct OutputModel {
    /// Committed text not yet handed to the front end.
    pub fixed: Seq<char>,
    pub composing: Seq<char>,
    /// The composing text last shown.
    pub last: Seq<char>,
    /// Accumulated cursor offset from the end (never positive).
    pub cursor: int,
    pub mark: nat,
    /// Highlighted candidate range.
    pub start: nat,
    pub length: nat,
}

/// Where text is inserted into `c` for a cursor `cursor` characters back
/// from the end.
pub open spec fn insert_pos(len: int, cursor: int) -> int {
    if len + cursor > 0 {
        len + cursor
    } else {
        0
    }
}

/// `c` with `s` inserted at the cursor (appended when the cursor is at the
/// end or `c` is empty).
pub open spec fn composed_text(c: Seq<char>, cursor: int, s: Seq<char>) -> Seq<char> {
    if cursor >= 0 || c.len() == 0 {
        c + s
    } else {
        c.take(insert_pos(c.len() as int, cursor)) + s + c.skip(insert_pos(c.len() as int, cursor))
    }
}

impl OutputModel {
    /// The buffer after composing `s` and moving the cursor by `cursor`.
    pub open spec fn composed(self, s: Seq<char>, cursor: int) -> OutputModel {
        OutputModel { composing: composed_text(self.composing, self.cursor, s), cursor: self.cursor + cursor, ..self }
    }

    /// Composing `s` may be done: the text length and the cursor stay
    /// within `i32`.
    pub open spec fn can_compose(self, cursor: int) -> bool {
        &&& self.composing.len() <= i32::MAX
        &&& i32::MIN <= self.cursor + cursor
        &&& cursor <= 0
    }
}

/// Composing-text output assembled during an event. Committed text is
/// buffered until `output` hands it to the front end.
#[derive(Debug)]
pub struct OutputBuffer {
    fixed: String,
    composing: String,
    last: String,
    cursor: i32,
    mark: usize,
    start: usize,
    length: usize,
}

impl View for OutputBuffer {
    type V = OutputModel;

    closed spec fn view(&self) -> OutputModel {
        OutputModel {
            fixed: self.fixed@,
            composing: self.composing@,
            last: self.last@,
            cursor: self.cursor as int,
            mark: self.mark as nat,
            start: self.start as nat,
            length: self.length as nat,
        }
    }
}

/// `v` with `s` inserted at index `pos`.
fn inserted(v: &[char], pos: usize, s: &str) -> (r: String)
    requires
        pos <= v@.len(),
    ensures
        r@ == v@.take(pos as int) + s@ + v@.skip(pos as int),
{
    let mut out: Vec<char> = Vec::new();
    let mut i: usize = 0;
    while i < pos
        invariant
            i <= pos <= v@.len(),
            out@ == v@.take(i as int),
        decreases pos - i,
    {
        out.push(v[i]);
        assert(v@.take(i + 1) =~= v@.take(i as int).push(v@[i as int]));
        i += 1;
    }
    push_str_chars(&mut out, s);
    let mut j: usize = pos;
    let ghost head = out@;
    while j < v.len()
        invariant
            pos <= j <= v@.len(),
            out@ == head + v@.subrange(pos as int, j as int),
        decreases v.len() - j,
    {
        out.push(v[j]);
        assert(v@.subrange(pos as int, j + 1) =~= v@.subrange(pos as int, j as int).push(v@[j as int]));
        j += 1;
    }
    assert(v@.subrange(pos as int, v@.len() as int) =~= v@.skip(pos as int));
    string_of(out.as_slice())
}

impl OutputBuffer {
    #[verifier::type_invariant]
    closed spec fn cursor_not_ahead(self) -> bool {
        self.cursor <= 0
    }

    pub fn new() -> (b: OutputBuffer)
        ensures
            b@ == (OutputModel {
                fixed: Seq::empty(),
                composing: Seq::empty(),
                last: Seq::empty(),
                cursor: 0,
                mark: 0,
                start: 0,
                length: 0,
            }),
    {
        OutputBuffer {
            fixed: String::new(),
            composing: String::new(),
            last: String::new(),
            cursor: 0,
            mark: 0,
            start: 0,
            length: 0,
        }
    }

    /// Commit text (handed over on `output`).
    pub fn fix(&mut self, str_: &str)
        ensures
            final(self)@ == (OutputModel { fixed: old(self)@.fixed + str_@, ..old(self)@ }),
    {
        proof {
            use_type_invariant(&*self);
        }
        let mut f = copy_str(self.fixed.as_str());
        f.append(str_);
        self.fixed = f;
    }

    /// Add to the composing string at the cursor; `cursor` (never positive)
    /// moves the cursor back and accumulates.
    pub fn compose(&mut self, str_: &str, cursor: i32)
        requires
            old(self)@.can_compose(cursor as int),
        ensures
            final(self)@ == old(self)@.composed(str_@, cursor as int),
    {
        proof {
            use_type_invariant(&*self);
        }
        let n = self.composing.as_str().unicode_len();
        if self.cursor >= 0 || n == 0 {
            let mut c = copy_str(self.composing.as_str());
            c.append(str_);
            self.composing = c;
        } else {
            let v = chars_of(self.composing.as_str());
            let sum = (n as i32) + self.cursor;
            let pos: usize = if sum > 0 { sum as usize } else { 0 };
            self.composing = inserted(v.as_slice(), pos, str_);
        }
        self.cursor = self.cursor + cursor;
    }

    /// Add the selected candidate, remembering its range for highlight.
    pub fn convert(&mut self, str_: &str)
        requires
            old(self)@.composing.len() <= i32::MAX,
        ensures
            final(self)@ == (OutputModel {
                start: insert_pos(old(self)@.composing.len() as int, old(self)@.cursor) as nat,
                length: str_@.len(),
                ..old(self)@
            }).composed(str_@, 0),
    {
        proof {
            use_type_invariant(&*self);
        }
        let n = self.composing.as_str().unicode_len();
        let sum = (n as i32) + self.cursor;
        self.start = if sum > 0 { sum as usize } else { 0 };
        self.length = str_.unicode_len();
        self.compose(str_, 0);
    }

    /// Record where an annotation or completion should anchor.
    pub fn set_mark(&mut self)
        requires
            old(self)@.composing.len() <= i32::MAX,
        ensures
            final(self)@ == (OutputModel {
                mark: insert_pos(old(self)@.composing.len() as int, old(self)@.cursor) as nat,
                ..old(self)@
            }),
    {
        proof {
            use_type_invariant(&*self);
        }
        let n = self.composing.as_str().unicode_len();
        let sum = (n as i32) + self.cursor;
        self.mark = if sum > 0 { sum as usize } else { 0 };
    }

    /// Whether composing with a cursor move of `cursor` stays within the
    /// buffer's `i32` cursor arithmetic.
    pub fn can_compose(&self, cursor: i32) -> (r: bool)
        ensures
            r == self@.can_compose(cursor as int),
    {
        let n = self.composing.as_str().unicode_len();
        n <= 0x7fff_ffff && cursor <= 0 && (self.cursor as i64) + (cursor as i64) >= -0x8000_0000i64
    }

    pub fn mark(&self) -> (r: usize)
        ensures
            r == self@.mark,
    {
        self.mark
    }

    /// Empty the composing text and reset cursor, mark and highlight.
    pub fn clear(&mut self)
        ensures
            final(self)@ == (OutputModel {
                composing: Seq::empty(),
                cursor: 0,
                mark: 0,
                start: 0,
                length: 0,
                ..old(self)@
            }),
    {
        proof {
            use_type_invariant(&*self);
        }
        self.composing = String::new();
        self.cursor = 0;
        self.mark = 0;
        self.start = 0;
        self.length = 0;
    }

    /// Hand buffered output to the front end: committed text, then the
    /// composing text unless nothing was and is being composed.
    pub fn output<F: FrontEnd>(&mut self, frontend: &mut F)
        ensures
            final(frontend).committed() == old(frontend).committed() + old(self)@.fixed,
            final(frontend).selection() == old(frontend).selection(),
            old(self)@.composing == old(self)@.last && old(self)@.composing.len() == 0 ==> final(frontend).preedit()
                == old(frontend).preedit(),
            !(old(self)@.composing == old(self)@.last && old(self)@.composing.len() == 0) ==> final(frontend).preedit()
                == old(self)@.composing && final(frontend).marking() == if old(self)@.length != 0 {
                Marking::Range(old(self)@.start, old(self)@.length)
            } else {
                Marking::Caret(old(self)@.cursor)
            },
            old(self)@.composing == old(self)@.last && old(self)@.composing.len() == 0 ==> final(frontend).marking()
                == old(frontend).marking(),
            final(self)@ == (OutputModel {
                fixed: Seq::empty(),
                last: if old(self)@.composing == old(self)@.last && old(self)@.composing.len() == 0 {
                    old(self)@.last
                } else {
                    old(self)@.composing
                },
                ..old(self)@
            }),
    {
        proof {
            use_type_invariant(&*self);
        }
        if self.fixed.as_str().unicode_len() > 0 {
            frontend.insert_string(self.fixed.as_str());
            self.fixed = String::new();
        }
        assert(self.fixed@ =~= Seq::<char>::empty());
        if str_eq(self.composing.as_str(), self.last.as_str()) && self.composing.as_str().unicode_len() == 0 {
            return;
        }
        if self.length != 0 {
            frontend.compose_string_with_range(self.composing.as_str(), self.start, self.length);
        } else {
            frontend.compose_string(self.composing.as_str(), self.cursor);
        }
        self.last = copy_str(self.composing.as_str());
    }

    pub fn is_composing(&self) -> (r: bool)
        ensures
            r == (self@.composing.len() > 0),
    {
        self.composing.as_str().unicode_len() > 0
    }

    pub fn composing_string(&self) -> (r: &str)
        ensures
            r@ == self@.composing,
    {
        self.composing.as_str()
    }
}

impl Default for OutputBuffer {
    fn default() -> (b: Self)
        ensures
            b@ == (OutputModel {
                fixed: Seq::empty(),
                composing: Seq::empty(),
                last: Seq::empty(),
                cursor: 0,
                mark: 0,
                start: 0,
                length: 0,
            }),
    {
        OutputBuffer::new()
    }
}

/// Word registration progress shared between nested sessions.
#[derive(Debug, Clone, Copy, PartialEq, Eq, Structural)]
pub enum RegistrationState {
    NotStarted,
    Started,
    Finished,
    Aborted,
}

impl Default for RegistrationState {
    fn default() -> (s: Self)
        ensures
            s == RegistrationState::NotStarted,
    {
        RegistrationState::NotStarted
    }
}

/// Word registration: its progress and the registered word.
#[derive(Debug)]
pub struct Registration {
    state: RegistrationState,
    word: String,
}

impl Registration {
    pub closed spec fn progress(self) -> RegistrationState {
        self.state
    }

    pub closed spec fn text(self) -> Seq<char> {
        self.word@
    }

    pub fn new() -> (r: Registration)
        ensures
            r.progress() == RegistrationState::NotStarted,
            r.text() == Seq::<char>::empty(),
    {
        Registration { state: RegistrationState::NotStarted, word: String::new() }
    }

    pub fn start(&mut self)
        ensures
            final(self).progress() == RegistrationState::Started,
            final(self).text() == old(self).text(),
    {
        self.state = RegistrationState::Started;
    }

    pub fn finish(&mut self, word: &str)
        ensures
            final(self).progress() == RegistrationState::Finished,
            final(self).text() == word@,
    {
        self.state = RegistrationState::Finished;
        self.word = copy_str(word);
    }

    pub fn abort(&mut self)
        ensures
            final(self).progress() == RegistrationState::Aborted,
            final(self).text() == Seq::<char>::empty(),
    {
        self.state = RegistrationState::Aborted;
        self.word = String::new();
    }

    pub fn clear(&mut self)
        ensures
            final(self).progress() == RegistrationState::NotStarted,
            final(self).text() == Seq::<char>::empty(),
    {
        self.state = RegistrationState::NotStarted;
        self.word = String::new();
    }

    pub fn state(&self) -> (r: RegistrationState)
        ensures
            r == self.progress(),
    {
        self.state
    }

    pub fn word(&self) -> (r: &str)
        ensures
            r@ == self.text(),
    {
        self.word.as_str()
    }
}

impl Default for Registration {
    fn default() -> (r: Self)
        ensures
            r.progress() == RegistrationState::NotStarted,
            r.text() == Seq::<char>::empty(),
    {
        Registration::new()
    }
}

/// How re-conversion of selected text may go on.
#[derive(Debug, Clone, Copy, PartialEq, Eq, Structural)]
pub enum UndoResult {
    Failed,
    KanaEntry,
    AsciiEntry,
}

/// A character that is neither printable ASCII nor a space.
pub open spec fn is_kana_char(c: char) -> bool {
    !('!' <= c <= '~') && c != ' '
}

/// The outcome of re-converting `selection`: its reading and the selection
/// when a reading is recorded, and which kind of entry the reading makes.
pub open spec fn undone(selection: Seq<char>, reading: Option<Seq<char>>) -> (Seq<char>, Seq<char>, UndoResult) {
    match reading {
        Some(k) => (
            k,
            selection,
            if exists|i: int| 0 <= i < k.len() && is_kana_char(#[trigger] k[i]) {
                UndoResult::KanaEntry
            } else {
                UndoResult::AsciiEntry
            },
        ),
        None => (Seq::empty(), Seq::empty(), UndoResult::Failed),
    }
}

/// Re-conversion of committed text.
#[derive(Debug)]
pub struct UndoContext {
    entry: String,
    candidate: String,
}

impl UndoContext {
    pub closed spec fn reading(self) -> Seq<char> {
        self.entry@
    }

    pub closed spec fn word(self) -> Seq<char> {
        self.candidate@
    }

    pub fn new() -> (u: UndoContext)
        ensures
            u.reading() == Seq::<char>::empty(),
            u.word() == Seq::<char>::empty(),
    {
        UndoContext { entry: String::new(), candidate: String::new() }
    }

    /// Look up the reading of `selection` and prepare its re-conversion.
    pub fn undo_selection(&mut self, selection: &str, backend: &Backend) -> (r: UndoResult)
        ensures
            (final(self).reading(), final(self).word(), r) == undone(selection@, backend.reading_for(selection@)),
    {
        self.candidate = copy_str(selection);
        match backend.reverse_lookup(selection) {
            Some(entry) => {
                self.entry = entry;
            },
            None => {
                self.candidate = String::new();
                self.entry = String::new();
                return UndoResult::Failed;
            },
        }
        let v = chars_of(self.entry.as_str());
        let mut i: usize = 0;
        while i < v.len()
            invariant
                i <= v@.len(),
                v@ == self.entry@,
                self.candidate@ == selection@,
                backend.reading_for(selection@) == Some(self.entry@),
                forall|k: int| 0 <= k < i ==> !is_kana_char(#[trigger] v@[k]),
            decreases v.len() - i,
        {
            let c = v[i];
            if !('!' <= c && c <= '~') && c != ' ' {
                assert(is_kana_char(v@[i as int]));
                return UndoResult::KanaEntry;
            }
            i += 1;
        }
        UndoResult::AsciiEntry
    }

    /// Re-convert the front end's selected text.
    pub fn undo<F: FrontEnd>(&mut self, frontend: &F, backend: &Backend) -> (r: UndoResult)
        ensures
            (final(self).reading(), final(self).word(), r) == undone(
                frontend.selection(),
                backend.reading_for(frontend.selection()),
            ),
    {
        let selection = frontend.selected_string();
        self.undo_selection(selection.as_str(), backend)
    }

    pub fn is_active(&self) -> (r: bool)
        ensures
            r == (self.reading().len() > 0),
    {
        self.entry.as_str().unicode_len() > 0
    }

    pub fn clear(&mut self)
        ensures
            final(self).reading() == Seq::<char>::empty(),
            final(self).word() == Seq::<char>::empty(),
    {
        self.entry = String::new();
        self.candidate = String::new();
    }

    pub fn entry(&self) -> (r: &str)
        ensures
            r@ == self.reading(),
    {
        self.entry.as_str()
    }

    pub fn candidate(&self) -> (r: &str)
        ensures
            r@ == self.word(),
    {
        self.candidate.as_str()
    }
}

impl Default for UndoContext {
    fn default() -> (u: Self)
        ensures
            u.reading() == Seq::<char>::empty(),
            u.word() == Seq::<char>::empty(),
    {
        UndoContext::new()
    }
}

/// State shared across the editor stack.
#[derive(Debug)]
pub struct InputContext {
    pub entry: Entry,
    pub candidate: Candidate,
    pub output: OutputBuffer,
    pub undo: UndoContext,
    pub registration: Registration,
    pub event_handled: bool,
    pub needs_setback: bool,
    pub dynamic_completion: bool,
    pub annotation: bool,
}

impl InputContext {
    pub fn new() -> (c: InputContext)
        ensures
            c.entry.is_made_of(Seq::empty(), Seq::empty(), Seq::empty()),
            c.candidate@.word.len() == 0,
            c.output@.composing.len() == 0,
            c.output@.fixed.len() == 0,
            c.output@.cursor == 0,
            c.undo.reading().len() == 0,
            c.registration.progress() == RegistrationState::NotStarted,
            !c.event_handled,
            !c.needs_setback,
            !c.dynamic_completion,
            !c.annotation,
    {
        InputContext {
            entry: Entry::empty(),
            candidate: Candidate::empty(),
            output: OutputBuffer::new(),
            undo: UndoContext::new(),
            registration: Registration::new(),
            event_handled: false,
            needs_setback: false,
            dynamic_completion: false,
            annotation: false,
        }
    }
}

impl Default for InputContext {
    fn default() -> (c: Self)
        ensures
            c.entry.is_made_of(Seq::empty(), Seq::empty(), Seq::empty()),
            c.output@.composing.len() == 0,
            c.registration.progress() == RegistrationState::NotStarted,
    {
        InputContext::new()
    }
}

} // verus!
