//! Reading completion: a cyclic cursor over the completions of a query.

use vstd::prelude::*;
use crate::backend::Backend;
use crate::candidate::{Candidate, CandidateSuite};
use crate::dictionary::user::removed_nasi;
use crate::entry::Entry;

verus! {

/// The cursor after moving forward over `n` completions, wrapping to the
/// first.
pub open spec fn next_position(pos: nat, n: nat) -> nat {
    if n == 0 {
        pos
    } else if pos + 1 < n {
        pos + 1
    } else {
        0
    }
}

/// The cursor after moving back over `n` completions, wrapping to the last.
pub open spec fn prev_position(pos: nat, n: nat) -> nat {
    if n == 0 {
        pos
    } else if pos == 0 {
        (n - 1) as nat
    } else {
        (pos - 1) as nat
    }
}

/// Moving back right after moving forward returns to the same completion.
pub proof fn law_prev_undoes_next(pos: nat, n: nat)
    requires
        pos < n,
    ensures
        prev_position(next_position(pos, n), n) == pos,
{
}

/// Moving forward right after moving back returns to the same completion.
pub proof fn law_next_undoes_prev(pos: nat, n: nat)
    requires
        pos < n,
    ensures
        next_position(prev_position(pos, n), n) == pos,
{
}

/// Completions of a query and a cursor over them.
#[derive(Debug)]
pub struct Completer {
    completions: Vec<String>,
    pos: usize,
}

impl Completer {
    pub closed spec fn items(self) -> Seq<Seq<char>> {
        self.completions@.map_values(|s: String| s@)
    }

    pub closed spec fn position(self) -> nat {
        self.pos as nat
    }

    /// The completion under the cursor.
    pub open spec fn selected(self) -> Option<Seq<char>> {
        if self.position() < self.items().len() {
            Some(self.items()[self.position() as int])
        } else {
            None
        }
    }

    pub fn new() -> (c: Completer)
        ensures
            c.items() == Seq::<Seq<char>>::empty(),
            c.position() == 0,
    {
        let c = Completer { completions: Vec::new(), pos: 0 };
        assert(c.items() =~= Seq::<Seq<char>>::empty());
        c
    }

    /// Complete `query` with at most `limit` results (0: no limit).
    /// Returns whether there is any completion.
    pub fn execute(&mut self, backend: &Backend, query: &str, limit: usize) -> (r: bool)
        ensures
            final(self).items() == backend.completed(query@, limit as nat).result,
            final(self).position() == 0,
            r == (final(self).items().len() > 0),
    {
        self.pos = 0;
        self.completions = backend.complete(query, limit);
        self.completions.len() > 0
    }

    pub fn current(&self) -> (r: Option<&str>)
        ensures
            match r {
                Some(s) => self.selected() == Some(s@),
                None => self.selected() is None,
            },
    {
        if self.pos < self.completions.len() {
            Some(self.completions[self.pos].as_str())
        } else {
            None
        }
    }

    /// Move to the next completion, wrapping to the first.
    pub fn next(&mut self)
        ensures
            final(self).items() == old(self).items(),
            final(self).position() == next_position(old(self).position(), old(self).items().len()),
    {
        if self.completions.len() == 0 {
            return;
        }
        self.pos = if self.pos < self.completions.len() - 1 { self.pos + 1 } else { 0 };
    }

    /// Move to the previous completion, wrapping to the last.
    pub fn prev(&mut self)
        ensures
            final(self).items() == old(self).items(),
            final(self).position() == prev_position(old(self).position(), old(self).items().len()),
    {
        if self.completions.len() == 0 {
            return;
        }
        self.pos = if self.pos == 0 { self.completions.len() - 1 } else { self.pos - 1 };
    }

    /// Remove the current completion's entry from the user dictionary.
    /// Returns true when no dictionary has the reading any more.
    pub fn remove(&mut self, backend: &mut Backend) -> (r: bool)
        ensures
            *final(self) == *old(self),
            old(self).selected() is None ==> !r && *final(backend) == *old(backend),
            old(self).selected() matches Some(k) ==> {
                &&& final(backend).dictionaries() == old(backend).dictionaries()
                &&& final(backend).numeric() == old(backend).numeric()
                &&& k.len() == 0 ==> final(backend).user() == old(backend).user()
                &&& k.len() > 0 ==> final(backend).user().nasi() == removed_nasi(
                    old(backend).user().nasi(),
                    old(backend).recorded_key_of(k),
                    crate::candidate::word_candidate(Seq::empty()),
                ) && final(backend).user().ari() == old(backend).user().ari()
                &&& r == (final(backend).found_for(k, Seq::empty()).candidates.len() == 0)
            },
    {
        if self.pos >= self.completions.len() {
            return false;
        }
        let entry = Entry::from_entry(self.completions[self.pos].as_str());
        let blank = Candidate::empty();
        backend.remove(&entry, &blank);
        let mut suite = CandidateSuite::new();
        !backend.find(&entry, &mut suite)
    }
}

impl Default for Completer {
    fn default() -> (c: Self)
        ensures
            c.items() == Seq::<Seq<char>>::empty(),
            c.position() == 0,
    {
        Completer::new()
    }
}

} // verus!
