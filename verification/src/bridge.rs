//! Host-application interfaces.
//!
//! The engine drives the user interface through these traits; the null
//! implementations allow headless use (tests, servers).

use vstd::prelude::*;
use crate::candidate::Candidate;
use crate::text::copy_str;

verus! {

/// Text output to the client application.
/// How a composing string is marked: a caret at a character offset from
/// its end (0 = end), or a highlighted range (start and length in
/// characters).
pub enum Marking {
    Caret(int),
    Range(nat, nat),
}

pub trait FrontEnd {
    /// All text committed to the client so far.
    spec fn committed(&self) -> Seq<char>;

    /// The marked (composing) string last shown.
    spec fn preedit(&self) -> Seq<char>;

    /// How the composing string last shown is marked.
    spec fn marking(&self) -> Marking;

    /// The text the client has selected.
    spec fn selection(&self) -> Seq<char>;

    /// Commit text at the caret.
    fn insert_string(&mut self, str_: &str)
        ensures
            final(self).committed() == old(self).committed() + str_@,
            final(self).preedit() == old(self).preedit(),
            final(self).marking() == old(self).marking(),
            final(self).selection() == old(self).selection(),
    ;

    /// Show a marked (composing) string. `cursor` is a character offset
    /// relative to the string end (0 = end).
    fn compose_string(&mut self, str_: &str, cursor: i32)
        ensures
            final(self).preedit() == str_@,
            final(self).marking() == Marking::Caret(cursor as int),
            final(self).committed() == old(self).committed(),
            final(self).selection() == old(self).selection(),
    ;

    /// Show a marked string highlighting the candidate range
    /// (`start`/`length` in characters).
    fn compose_string_with_range(&mut self, str_: &str, start: usize, length: usize)
        ensures
            final(self).preedit() == str_@,
            final(self).marking() == Marking::Range(start as nat, length as nat),
            final(self).committed() == old(self).committed(),
            final(self).selection() == old(self).selection(),
    ;

    /// The currently selected text (used for re-conversion).
    fn selected_string(&self) -> (r: String)
        ensures
            r@ == self.selection(),
    ;
}

/// The label keys of a candidate window page, in order.
pub open spec fn labels() -> Seq<u8> {
    seq![0x61u8, 0x73u8, 0x64u8, 0x66u8, 0x6au8, 0x6bu8, 0x6cu8]
}

/// Page sizes for `n` candidates: pages of seven, the last one holding the
/// rest.
pub open spec fn pages_of_seven(n: nat) -> Seq<usize>
    decreases n,
{
    if n == 0 {
        Seq::empty()
    } else if n <= 7 {
        seq![n as usize]
    } else {
        seq![7usize] + pages_of_seven((n - 7) as nat)
    }
}

/// The number of candidates on pages `p`.
pub open spec fn page_total(p: Seq<usize>) -> int
    decreases p.len(),
{
    if p.len() == 0 {
        0
    } else {
        page_total(p.drop_last()) + p.last()
    }
}

/// Candidate window.
pub trait CandidateWindow {
    /// Divide the candidates into pages, returning the number of candidates
    /// on each page.
    fn setup(&mut self, candidates: &[Candidate]) -> (pages: Vec<usize>)
        ensures
            pages@.len() > 0 <==> candidates@.len() > 0,
            forall|i: int| 0 <= i < pages@.len() ==> #[trigger] pages@[i] > 0,
            page_total(pages@) == candidates@.len(),
        default_ensures
            pages@ == pages_of_seven(candidates@.len()),
    {
        let mut pages: Vec<usize> = Vec::new();
        let mut remain: usize = candidates.len();
        while remain > 0
            invariant
                pages@ + pages_of_seven(remain as nat) == pages_of_seven(candidates@.len()),
                forall|i: int| 0 <= i < pages@.len() ==> #[trigger] pages@[i] > 0,
                remain <= candidates@.len(),
                remain < candidates@.len() ==> pages@.len() > 0,
                page_total(pages@) + remain == candidates@.len(),
            decreases remain,
        {
            let count = if remain < 7 { remain } else { 7 };
            let ghost before = pages@;
            pages.push(count);
            assert(pages@.drop_last() =~= before);
            if remain <= 7 {
                assert(pages_of_seven(remain as nat) == seq![remain]);
            } else {
                assert(pages_of_seven(remain as nat) == seq![7usize] + pages_of_seven((remain - 7) as nat));
            }
            remain = remain - count;
            assert(pages@ + pages_of_seven(remain as nat) =~= before + pages_of_seven((remain + count) as nat));
        }
        assert(pages@ + pages_of_seven(0) =~= pages@);
        pages
    }

    /// Show the current page.
    fn update(&mut self, view: &[Candidate], cursor: usize, page: usize, page_count: usize) {
    }

    /// Map a selection label key to an index in the current page.
    fn label_index(&self, label: u8) -> (r: Option<usize>)
        ensures
            r matches Some(i) ==> i < 7,
        default_ensures
            match r {
                Some(i) => i < labels().len() && labels()[i as int] == label && forall|k: int|
                    0 <= k < i ==> labels()[k] != label,
                None => !labels().contains(label),
            },
    {
        let keys: [u8; 7] = [0x61, 0x73, 0x64, 0x66, 0x6a, 0x6b, 0x6c];
        assert(keys@ == labels());
        let mut i: usize = 0;
        while i < 7
            invariant
                i <= 7,
                keys@ == labels(),
                forall|k: int| 0 <= k < i ==> labels()[k] != label,
            decreases 7 - i,
        {
            if keys[i] == label {
                return Some(i);
            }
            i += 1;
        }
        None
    }

    fn show(&mut self) {
    }

    fn close(&mut self) {
    }
}

/// Status and feedback messages.
pub trait Messenger {
    fn send_message(&mut self, message: &str) {
    }

    fn beep(&mut self) {
    }
}

/// Clipboard access.
pub trait Clipboard {
    fn paste_string(&mut self) -> String {
        String::new()
    }
}

/// Annotation display.
pub trait Annotator {
    fn update(&mut self, candidate: &Candidate, mark: usize) {
    }

    fn show(&mut self) {
    }

    fn close(&mut self) {
    }
}

/// Dynamic completion display.
pub trait DynamicCompletor {
    /// `completions` is newline-joined; `common_prefix_length` in chars.
    fn update(&mut self, completions: &str, common_prefix_length: usize, mark: usize) {
    }

    fn show(&mut self) {
    }

    fn close(&mut self) {
    }
}

/// A front end that collects committed and composed text, for tests and
/// servers.
#[derive(Debug, Default)]
pub struct BufferedFrontEnd {
    pub fixed: String,
    pub composing: String,
    /// Cursor within `composing`, as a character offset from the end
    /// (0 = end, -1 = before the last character).
    pub cursor: i32,
    /// The highlighted range (start, length) of `composing`, when one was
    /// asked for.
    pub highlight: Option<(usize, usize)>,
    pub selection: String,
}

impl FrontEnd for BufferedFrontEnd {
    open spec fn committed(&self) -> Seq<char> {
        self.fixed@
    }

    open spec fn preedit(&self) -> Seq<char> {
        self.composing@
    }

    open spec fn selection(&self) -> Seq<char> {
        self.selection@
    }

    open spec fn marking(&self) -> Marking {
        match self.highlight {
            Some((start, length)) => Marking::Range(start as nat, length as nat),
            None => Marking::Caret(self.cursor as int),
        }
    }

    fn insert_string(&mut self, str_: &str)
        ensures
            final(self).fixed@ == old(self).fixed@ + str_@,
            final(self).composing == old(self).composing,
            final(self).cursor == old(self).cursor,
            final(self).highlight == old(self).highlight,
            final(self).selection == old(self).selection,
    {
        self.fixed.append(str_);
    }

    fn compose_string(&mut self, str_: &str, cursor: i32)
        ensures
            final(self).composing@ == str_@,
            final(self).cursor == cursor,
            final(self).highlight is None,
            final(self).fixed == old(self).fixed,
            final(self).selection == old(self).selection,
    {
        self.composing = copy_str(str_);
        self.cursor = cursor;
        self.highlight = None;
    }

    /// Keeps the string with the caret at its end, and the range.
    fn compose_string_with_range(&mut self, str_: &str, start: usize, length: usize)
        ensures
            final(self).composing@ == str_@,
            final(self).cursor == 0,
            final(self).highlight == Some((start, length)),
            final(self).fixed == old(self).fixed,
            final(self).selection == old(self).selection,
    {
        self.composing = copy_str(str_);
        self.cursor = 0;
        self.highlight = Some((start, length));
    }

    fn selected_string(&self) -> (r: String)
        ensures
            r@ == self.selection@,
    {
        copy_str(self.selection.as_str())
    }
}

/// No-op implementations for headless use.
#[derive(Debug, Clone, Copy, Default)]
pub struct NullWidgets;

impl CandidateWindow for NullWidgets {
}

impl Messenger for NullWidgets {
}

impl Clipboard for NullWidgets {
}

impl Annotator for NullWidgets {
}

impl DynamicCompletor for NullWidgets {
}

} // verus!
