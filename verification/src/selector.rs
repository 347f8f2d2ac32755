//! Candidate selection: the first candidates are offered inline, the rest
//! page by page in the candidate window.

use vstd::prelude::*;
use crate::backend::Backend;
use crate::bridge::{page_total, CandidateWindow};
use crate::candidate::{models, Candidate, CandidateModel, CandidateSuite};
use crate::entry::Entry;

verus! {

/// The mathematical content of a selector.
pub struct SelectorModel {
    pub candidates: Seq<CandidateModel>,
    /// The inline cursor is active (else the window's).
    pub inline: bool,
    /// Candidates offered inline, and the inline cursor.
    pub inline_count: nat,
    pub inline_pos: nat,
    /// Index of the first window candidate, and the number of them.
    pub base: nat,
    pub total: nat,
    /// Page sizes, the current page, the cursor on it, and the number of
    /// window candidates before it.
    pub pages: Seq<usize>,
    pub page_pos: nat,
    pub cursor: nat,
    pub offset: nat,
}

impl SelectorModel {
    /// Candidates on the current page.
    pub open spec fn view_len(self) -> nat {
        if self.page_pos < self.pages.len() {
            self.pages[self.page_pos as int] as nat
        } else {
            0
        }
    }

    /// Index of the selected candidate.
    pub open spec fn index(self) -> int {
        if self.inline {
            self.inline_pos as int
        } else {
            (self.base + self.offset + self.cursor) as int
        }
    }

    /// The selected candidate.
    pub open spec fn selected(self) -> Option<CandidateModel> {
        if self.candidates.len() > 0 && 0 <= self.index() < self.candidates.len() {
            Some(self.candidates[self.index()])
        } else {
            None
        }
    }

    /// Moving the active cursor forward: the state after, and whether it
    /// moved.
    pub open spec fn step_next(self) -> (SelectorModel, bool) {
        if self.inline {
            if self.inline_count == 0 || self.inline_pos + 1 == self.inline_count {
                (self, false)
            } else {
                (SelectorModel { inline_pos: self.inline_pos + 1, ..self }, true)
            }
        } else {
            if self.pages.len() == 0 || self.page_pos + 1 == self.pages.len() {
                (self, false)
            } else {
                (SelectorModel {
                    offset: (self.offset + self.pages[self.page_pos as int]) as nat,
                    page_pos: self.page_pos + 1,
                    cursor: 0,
                    ..self
                }, true)
            }
        }
    }

    /// Moving the active cursor back.
    pub open spec fn step_prev(self) -> (SelectorModel, bool) {
        if self.inline {
            if self.inline_count == 0 || self.inline_pos == 0 {
                (self, false)
            } else {
                (SelectorModel { inline_pos: (self.inline_pos - 1) as nat, ..self }, true)
            }
        } else {
            if self.page_pos == 0 {
                (self, false)
            } else {
                (SelectorModel {
                    offset: (self.offset - self.pages[self.page_pos - 1]) as nat,
                    page_pos: (self.page_pos - 1) as nat,
                    cursor: 0,
                    ..self
                }, true)
            }
        }
    }

    /// `next`: move forward; past the last inline candidate, go on to the
    /// window when it has candidates.
    pub open spec fn next(self) -> (SelectorModel, bool) {
        if self.step_next().1 {
            self.step_next()
        } else if !self.inline || self.total == 0 {
            (self, false)
        } else {
            (SelectorModel { inline: false, ..self }, true)
        }
    }

    /// `prev`: move back; before the first window page, go back inline when
    /// there are inline candidates.
    pub open spec fn prev(self) -> (SelectorModel, bool) {
        if self.step_prev().1 {
            self.step_prev()
        } else if self.inline || self.inline_count == 0 {
            (self, false)
        } else {
            (SelectorModel { inline: true, ..self }, true)
        }
    }

    /// The selector's consistency: cursors within their ranges and the
    /// pages covering the window candidates.
    pub open spec fn wf(self) -> bool {
        &&& self.inline_count <= self.candidates.len()
        &&& (self.inline_pos < self.inline_count || self.inline_pos == 0)
        &&& self.base <= self.candidates.len()
        &&& self.total == self.candidates.len() - self.base
        &&& page_total(self.pages) == self.total
        &&& forall|i: int| 0 <= i < self.pages.len() ==> #[trigger] self.pages[i] > 0
        &&& (self.page_pos < self.pages.len() || self.page_pos == 0)
        &&& self.offset == page_total(self.pages.take(self.page_pos as int))
        &&& (self.cursor < self.view_len() || self.cursor == 0)
        &&& (self.inline ==> self.page_pos == 0 && (self.inline_count > 0 || self.total == 0))
        &&& (!self.inline && self.inline_count > 0 ==> self.inline_pos + 1 == self.inline_count && self.total > 0)
    }
}

/// Going back right after going forward returns to the candidate the
/// selector was on; in the window, to the start of that page.
pub proof fn law_prev_undoes_next(m: SelectorModel)
    requires
        m.wf(),
        m.next().1,
    ensures
        m.next().0.prev() == (if m.inline { m } else { SelectorModel { cursor: 0, ..m } }, true),
{
}

/// Going forward right after going back returns to the candidate the
/// selector was on; on a later window page, to the start of that page.
pub proof fn law_next_undoes_prev(m: SelectorModel)
    requires
        m.wf(),
        m.prev().1,
    ensures
        m.prev().0.next() == (if m.inline || m.page_pos == 0 { m } else { SelectorModel { cursor: 0, ..m } }, true),
{
    if !m.inline && m.page_pos > 0 {
        lemma_page_total_take(m.pages, m.page_pos - 1);
        lemma_page_total_nonneg(m.pages.take(m.page_pos - 1));
        let p = m.step_prev().0;
        assert(p.page_pos + 1 < p.pages.len());
    }
}

proof fn lemma_page_total_take(p: Seq<usize>, k: int)
    requires
        0 <= k < p.len(),
        forall|i: int| 0 <= i < p.len() ==> #[trigger] p[i] > 0,
    ensures
        page_total(p.take(k + 1)) == page_total(p.take(k)) + p[k],
        page_total(p.take(k + 1)) <= page_total(p),
    decreases p.len(),
{
    assert(p.take(k + 1).drop_last() =~= p.take(k));
    if k + 1 < p.len() {
        lemma_page_total_take(p.drop_last(), k);
        assert(p.drop_last().take(k + 1) =~= p.take(k + 1));
        assert(p.drop_last().take(k) =~= p.take(k));
        assert(page_total(p) == page_total(p.drop_last()) + p.last());
    } else {
        assert(p.take(k + 1) =~= p);
    }
}

proof fn lemma_page_total_nonneg(p: Seq<usize>)
    ensures
        page_total(p) >= 0,
    decreases p.len(),
{
    if p.len() > 0 {
        lemma_page_total_nonneg(p.drop_last());
    }
}

proof fn lemma_window_bounds(m: SelectorModel)
    requires
        m.wf(),
    ensures
        m.base + m.offset + m.view_len() <= m.candidates.len(),
        m.base + m.offset + m.cursor <= m.candidates.len(),
        m.view_len() > 0 ==> m.base + m.offset + m.cursor < m.candidates.len(),
        m.inline_count > 0 ==> m.inline_pos < m.candidates.len(),
{
    lemma_page_total_nonneg(m.pages.take(m.page_pos as int));
    if m.page_pos < m.pages.len() {
        lemma_page_total_take(m.pages, m.page_pos as int);
    } else {
        assert(m.pages.take(0) =~= Seq::<usize>::empty());
    }
}

/// Candidate selection over inline display plus the candidate window.
#[derive(Debug)]
pub struct Selector {
    suite: CandidateSuite,
    inline: bool,
    inline_count: usize,
    inline_pos: usize,
    base: usize,
    total: usize,
    pages: Vec<usize>,
    pos: WindowPos,
}

/// Where the window cursor is.
#[derive(Debug, Clone, Copy)]
struct WindowPos {
    page_pos: usize,
    cursor: usize,
    offset: usize,
}

impl View for Selector {
    type V = SelectorModel;

    closed spec fn view(&self) -> SelectorModel {
        SelectorModel {
            candidates: self.suite@.candidates,
            inline: self.inline,
            inline_count: self.inline_count as nat,
            inline_pos: self.inline_pos as nat,
            base: self.base as nat,
            total: self.total as nat,
            pages: self.pages@,
            page_pos: self.pos.page_pos as nat,
            cursor: self.pos.cursor as nat,
            offset: self.pos.offset as nat,
        }
    }
}

impl Selector {
    #[verifier::type_invariant]
    closed spec fn consistent(self) -> bool {
        self@.wf()
    }

    pub fn new() -> (s: Selector)
        ensures
            s@.candidates == Seq::<CandidateModel>::empty(),
            s@.inline,
            s@.inline_count == 0,
            s@.total == 0,
            s@.pages == Seq::<usize>::empty(),
    {
        let s = Selector {
            suite: CandidateSuite::new(),
            inline: true,
            inline_count: 0,
            inline_pos: 0,
            base: 0,
            total: 0,
            pages: Vec::new(),
            pos: WindowPos { page_pos: 0, cursor: 0, offset: 0 },
        };
        assert(s@.pages.take(0) =~= Seq::<usize>::empty());
        s
    }

    pub fn is_inline(&self) -> (r: bool)
        ensures
            r == self@.inline,
    {
        self.inline
    }

    fn view_len(&self) -> (r: usize)
        ensures
            r == self@.view_len(),
    {
        proof {
            use_type_invariant(self);
            lemma_window_bounds(self@);
        }
        if self.pos.page_pos < self.pages.len() {
            self.pages[self.pos.page_pos]
        } else {
            0
        }
    }

    /// Look up candidates for the entry: the first `inline_count` are
    /// offered inline, the rest in pages the window chooses. Returns
    /// whether any candidate was found.
    pub fn execute<W: CandidateWindow>(
        &mut self,
        backend: &Backend,
        window: &mut W,
        entry: &Entry,
        inline_count: usize,
    ) -> (r: bool)
        ensures
            final(self)@.candidates == backend.found_for(entry.key(), entry.okuri()).candidates,
            final(self)@.inline_count == if inline_count < final(self)@.candidates.len() {
                inline_count as nat
            } else {
                final(self)@.candidates.len()
            },
            final(self)@.base == final(self)@.inline_count,
            final(self)@.inline_pos == 0,
            final(self)@.page_pos == 0,
            final(self)@.cursor == 0,
            final(self)@.offset == 0,
            final(self)@.inline == (final(self)@.inline_count > 0),
            page_total(final(self)@.pages) == final(self)@.total,
            r == (final(self)@.candidates.len() > 0),
    {
        let mut suite = CandidateSuite::new();
        backend.find(entry, &mut suite);
        let items = suite.candidates();
        let total = items.len();
        let count = if inline_count < total { inline_count } else { total };
        let pages = window.setup(&items[count..total]);
        assert(pages@.take(0) =~= Seq::<usize>::empty());
        *self = Selector {
            suite,
            inline: count > 0,
            inline_count: count,
            inline_pos: 0,
            base: count,
            total: total - count,
            pages,
            pos: WindowPos { page_pos: 0, cursor: 0, offset: 0 },
        };
        total > 0
    }

    /// The selected candidate.
    pub fn current(&self) -> (r: Option<&Candidate>)
        ensures
            match r {
                Some(c) => self@.selected() == Some(c@),
                None => self@.selected() is None,
            },
    {
        proof {
            use_type_invariant(self);
            lemma_window_bounds(self@);
        }
        let items = self.suite.candidates();
        if items.len() == 0 {
            return None;
        }
        let index = if self.inline { self.inline_pos } else { self.base + self.pos.offset + self.pos.cursor };
        if index < items.len() {
            Some(&items[index])
        } else {
            None
        }
    }

    fn step_next(&mut self) -> (moved: bool)
        ensures
            (final(self)@, moved) == old(self)@.step_next(),
    {
        proof {
            use_type_invariant(&*self);
        }
        if self.inline {
            if self.inline_count == 0 || self.inline_pos + 1 == self.inline_count {
                return false;
            }
            self.inline_pos = self.inline_pos + 1;
            true
        } else {
            if self.pages.len() == 0 || self.pos.page_pos + 1 == self.pages.len() {
                return false;
            }
            proof {
                lemma_page_total_take(self.pages@, self.pos.page_pos as int);
            }
            let add = self.pages[self.pos.page_pos];
            self.pos = WindowPos { page_pos: self.pos.page_pos + 1, cursor: 0, offset: self.pos.offset + add };
            true
        }
    }

    fn step_prev(&mut self) -> (moved: bool)
        ensures
            (final(self)@, moved) == old(self)@.step_prev(),
    {
        proof {
            use_type_invariant(&*self);
        }
        if self.inline {
            if self.inline_count == 0 || self.inline_pos == 0 {
                return false;
            }
            self.inline_pos = self.inline_pos - 1;
            true
        } else {
            if self.pos.page_pos == 0 {
                return false;
            }
            proof {
                lemma_page_total_take(self.pages@, self.pos.page_pos - 1);
                lemma_page_total_nonneg(self.pages@.take(self.pos.page_pos - 1));
                assert(self.pos.page_pos - 1 + 1 == self.pos.page_pos);
                assert(self.pos.offset == page_total(self.pages@.take(self.pos.page_pos as int)));
            }
            let sub = self.pages[self.pos.page_pos - 1];
            assert(sub <= self.pos.offset);
            self.pos = WindowPos { page_pos: self.pos.page_pos - 1, cursor: 0, offset: self.pos.offset - sub };
            true
        }
    }

    /// Move to the next candidate: inline, then on into the window, then
    /// page by page. Returns whether the selection moved.
    pub fn next<W: CandidateWindow>(&mut self, window: &mut W) -> (moved: bool)
        ensures
            (final(self)@, moved) == old(self)@.next(),
    {
        proof {
            use_type_invariant(&*self);
            lemma_window_bounds(self@);
        }
        let was_inline = self.inline;
        let moved = self.step_next();
        if !moved {
            if !was_inline || self.total == 0 {
                return false;
            }
            self.inline = false;
        }
        if !self.inline {
            self.show(window);
        }
        true
    }

    /// Move to the previous candidate: page by page, then back inline.
    /// Returns whether the selection moved.
    pub fn prev<W: CandidateWindow>(&mut self, window: &mut W) -> (moved: bool)
        ensures
            (final(self)@, moved) == old(self)@.prev(),
    {
        proof {
            use_type_invariant(&*self);
            lemma_window_bounds(self@);
        }
        let was_inline = self.inline;
        let moved = self.step_prev();
        if !moved {
            if was_inline || self.inline_count == 0 {
                return false;
            }
            self.inline = true;
            window.close();
        } else if !self.inline {
            self.show(window);
        }
        true
    }

    pub fn cursor_left<W: CandidateWindow>(&mut self, window: &mut W)
        ensures
            final(self)@ == if !old(self)@.inline && old(self)@.cursor != 0 {
                SelectorModel { cursor: (old(self)@.cursor - 1) as nat, ..old(self)@ }
            } else {
                old(self)@
            },
    {
        proof {
            use_type_invariant(&*self);
            lemma_window_bounds(self@);
        }
        if !self.inline && self.pos.cursor != 0 {
            self.pos = WindowPos { cursor: self.pos.cursor - 1, ..self.pos };
            self.show(window);
        }
    }

    pub fn cursor_right<W: CandidateWindow>(&mut self, window: &mut W)
        ensures
            final(self)@ == if !old(self)@.inline && old(self)@.cursor + 1 < old(self)@.view_len() {
                SelectorModel { cursor: old(self)@.cursor + 1, ..old(self)@ }
            } else {
                old(self)@
            },
    {
        proof {
            use_type_invariant(&*self);
            lemma_window_bounds(self@);
        }
        if !self.inline && self.pos.cursor + 1 < self.view_len() {
            self.pos = WindowPos { cursor: self.pos.cursor + 1, ..self.pos };
            self.show(window);
        }
    }

    pub fn cursor_up<W: CandidateWindow>(&mut self, window: &mut W)
        ensures
            final(self)@ == if !old(self)@.inline {
                SelectorModel { cursor: 0, ..old(self)@ }
            } else {
                old(self)@
            },
    {
        proof {
            use_type_invariant(&*self);
            lemma_window_bounds(self@);
        }
        if !self.inline {
            self.pos = WindowPos { cursor: 0, ..self.pos };
            self.show(window);
        }
    }

    pub fn cursor_down<W: CandidateWindow>(&mut self, window: &mut W)
        ensures
            final(self)@ == if !old(self)@.inline {
                SelectorModel { cursor: if old(self)@.view_len() > 0 { (old(self)@.view_len() - 1) as nat } else { 0 }, ..old(self)@ }
            } else {
                old(self)@
            },
    {
        proof {
            use_type_invariant(&*self);
            lemma_window_bounds(self@);
        }
        if !self.inline {
            let n = self.view_len();
            self.pos = WindowPos { cursor: if n > 0 { n - 1 } else { 0 }, ..self.pos };
            self.show(window);
        }
    }

    /// Select the window candidate with the given label key on the current
    /// page. Returns whether one was selected; the window maps labels to
    /// positions.
    pub fn select<W: CandidateWindow>(&mut self, window: &mut W, label: u8) -> (r: bool)
        ensures
            old(self)@.inline ==> !r,
            !r ==> final(self)@ == old(self)@,
            r ==> final(self)@.cursor < old(self)@.view_len() && final(self)@ == (SelectorModel {
                cursor: final(self)@.cursor,
                ..old(self)@
            }),
    {
        if self.inline {
            return false;
        }
        let index = window.label_index(label);
        self.select_at(window, index)
    }

    /// Select the candidate at `index` on the current window page, as the
    /// window answered for a label: nothing happens inline, for no index,
    /// or for one past the page.
    pub fn select_at<W: CandidateWindow>(&mut self, window: &mut W, index: Option<usize>) -> (r: bool)
        ensures
            r == (!old(self)@.inline && (index matches Some(i) && i < old(self)@.view_len())),
            r ==> final(self)@ == (SelectorModel { cursor: index->0 as nat, ..old(self)@ }),
            !r ==> final(self)@ == old(self)@,
    {
        proof {
            use_type_invariant(&*self);
            lemma_window_bounds(self@);
        }
        if self.inline {
            return false;
        }
        if let Some(i) = index {
            if i < self.view_len() {
                self.pos = WindowPos { cursor: i, ..self.pos };
                self.show(window);
                return true;
            }
        }
        false
    }

    /// Show the current window page.
    pub fn show<W: CandidateWindow>(&mut self, window: &mut W)
        ensures
            final(self)@ == old(self)@,
    {
        proof {
            use_type_invariant(&*self);
            lemma_window_bounds(self@);
        }
        if self.inline {
            return;
        }
        proof {
            if self.pos.page_pos < self.pages.len() {
                lemma_page_total_take(self.pages@, self.pos.page_pos as int);
            }
        }
        let items = self.suite.candidates();
        let n = items.len();
        assert(n == self@.candidates.len());
        let start = self.base + self.pos.offset;
        let limit = self.base + self.total;
        let end = if start + self.view_len() < limit { start + self.view_len() } else { limit };
        window.update(&items[start..end], self.pos.cursor, self.pos.page_pos + 1, self.pages.len());
        window.show();
    }

    /// Close the candidate window.
    pub fn close<W: CandidateWindow>(&mut self, window: &mut W)
        ensures
            final(self)@ == old(self)@,
    {
        if self.inline {
            return;
        }
        window.close();
    }
}

impl Default for Selector {
    fn default() -> (s: Self)
        ensures
            s@.candidates == Seq::<CandidateModel>::empty(),
            s@.inline,
    {
        Selector::new()
    }
}

} // verus!
