//! SKK dictionaries.

pub mod auto_update;
pub mod common;
pub mod factory;
pub mod file;
pub mod gadget;
pub mod order;
pub mod proxy;
pub mod user;

pub use common::CommonDictionary;
pub use factory::{DictionaryKey, DictionaryType, NullDictionary};
pub use proxy::ProxyDictionary;
pub use file::{DictionaryEntry, DictionaryFile, Encoding};
pub use gadget::{GadgetDictionary, LocalTime};
pub use user::LocalUserDictionary;

use vstd::prelude::*;
use crate::candidate::CandidateSuite;
use crate::entry::Entry;
use crate::text::{chars_eq, chars_of, copy_str};

verus! {

/// A dictionary. All strings are UTF-8.
pub trait Dictionary {
    /// Look up candidates for an entry.
    fn find(&self, entry: &Entry, result: &mut CandidateSuite);

    /// Look up the reading for a candidate word.
    fn reverse_lookup(&self, candidate: &str) -> Option<String> {
        None
    }

    /// Collect completions for the helper's entry prefix.
    fn complete(&self, helper: &mut CompletionHelper) {
    }
}

/// The mathematical content of a completion helper.
pub struct HelperModel {
    pub entry: Seq<char>,
    pub minimum_length: nat,
    pub limit: nat,
    pub needs_length_check: bool,
    pub result: Seq<Seq<char>>,
}

impl HelperModel {
    /// More completions may be collected.
    pub open spec fn can_continue(self) -> bool {
        self.limit == 0 || self.result.len() < self.limit
    }

    /// The effect of offering one completion.
    pub open spec fn add(self, c: Seq<char>) -> HelperModel {
        if !self.can_continue() {
            self
        } else if self.needs_length_check && c.len() <= self.minimum_length {
            self
        } else if c == self.entry || self.result.contains(c) {
            self
        } else {
            HelperModel { result: self.result.push(c), ..self }
        }
    }

    /// The effect of offering each completion of `cs` in turn.
    pub open spec fn add_all(self, cs: Seq<Seq<char>>) -> HelperModel
        decreases cs.len(),
    {
        if cs.len() == 0 {
            self
        } else {
            self.add_all(cs.drop_last()).add(cs.last())
        }
    }
}

/// Offering completions leaves the entry and limits as they were.
pub proof fn lemma_add_all_keeps_entry(h: HelperModel, cs: Seq<Seq<char>>)
    ensures
        h.add_all(cs).entry == h.entry,
        h.add_all(cs).minimum_length == h.minimum_length,
        h.add_all(cs).limit == h.limit,
        h.add_all(cs).needs_length_check == h.needs_length_check,
    decreases cs.len(),
{
    if cs.len() > 0 {
        lemma_add_all_keeps_entry(h, cs.drop_last());
    }
}

/// The completions gathered hold none twice, never the entry, and no more
/// than the limit (when there is one).
pub open spec fn well_gathered(h: HelperModel) -> bool {
    &&& forall|i: int, j: int| 0 <= i < j < h.result.len() ==> #[trigger] h.result[i] != #[trigger] h.result[j]
    &&& !h.result.contains(h.entry)
    &&& h.limit > 0 ==> h.result.len() <= h.limit
}

/// Offering completions one after another keeps what was gathered and
/// appends the accepted ones in the order offered, each one offered; the
/// result never holds a completion twice nor the entry, and stays within
/// the limit.
pub proof fn law_offers_gathered(h: HelperModel, cs: Seq<Seq<char>>)
    requires
        well_gathered(h),
    ensures
        well_gathered(h.add_all(cs)),
        h.result.is_prefix_of(h.add_all(cs).result),
        forall|i: int| h.result.len() <= i < h.add_all(cs).result.len() ==> cs.contains(#[trigger] h.add_all(cs).result[i]),
    decreases cs.len(),
{
    if cs.len() > 0 {
        let d = cs.drop_last();
        law_offers_gathered(h, d);
        lemma_add_all_keeps_entry(h, d);
        let p = h.add_all(d);
        let r = h.add_all(cs);
        let x = cs.last();
        assert(r == p.add(x));
        assert forall|i: int| h.result.len() <= i < r.result.len() implies cs.contains(#[trigger] r.result[i]) by {
            if i < p.result.len() {
                assert(r.result[i] == p.result[i]);
                assert(d.contains(p.result[i]));
                let k = choose|k: int| 0 <= k < d.len() && d[k] == p.result[i];
                assert(cs[k] == d[k]);
            } else {
                assert(cs[cs.len() - 1] == x);
            }
        }
        if r.result.len() > p.result.len() {
            assert(r.result == p.result.push(x));
            assert(r.result.subrange(0, h.result.len() as int) =~= p.result.subrange(0, h.result.len() as int));
            assert forall|i: int, j: int| 0 <= i < j < r.result.len() implies #[trigger] r.result[i]
                != #[trigger] r.result[j] by {
                if j == p.result.len() {
                    assert(p.result.contains(p.result[i]));
                }
            }
            assert(!r.result.contains(r.entry)) by {
                if r.result.contains(r.entry) {
                    let k = choose|k: int| 0 <= k < r.result.len() && r.result[k] == r.entry;
                    if k < p.result.len() {
                        assert(p.result.contains(p.entry));
                    }
                }
            }
        }
    } else {
        assert(h.result.subrange(0, h.result.len() as int) =~= h.result);
    }
}

/// Completion accumulator: de-duplicates and applies length/count limits.
#[derive(Debug)]
pub struct CompletionHelper {
    entry: String,
    minimum_length: usize,
    limit: usize,
    needs_length_check: bool,
    result: Vec<String>,
}

impl View for CompletionHelper {
    type V = HelperModel;

    closed spec fn view(&self) -> HelperModel {
        HelperModel {
            entry: self.entry@,
            minimum_length: self.minimum_length as nat,
            limit: self.limit as nat,
            needs_length_check: self.needs_length_check,
            result: self.result@.map_values(|s: String| s@),
        }
    }
}

impl CompletionHelper {
    /// `limit` == 0 means unlimited.
    pub fn new(entry: &str, minimum_length: usize, limit: usize) -> (h: CompletionHelper)
        ensures
            h@ == (HelperModel {
                entry: entry@,
                minimum_length: minimum_length as nat,
                limit: limit as nat,
                needs_length_check: entry@.len() < minimum_length,
                result: Seq::empty(),
            }),
    {
        let h = CompletionHelper {
            entry: copy_str(entry),
            minimum_length,
            limit,
            needs_length_check: entry.unicode_len() < minimum_length,
            result: Vec::new(),
        };
        assert(h@.result =~= Seq::<Seq<char>>::empty());
        h
    }

    pub fn entry(&self) -> (r: &str)
        ensures
            r@ == self@.entry,
    {
        self.entry.as_str()
    }

    fn seen(&self, c: &[char]) -> (r: bool)
        ensures
            r == (c@ == self@.entry || self@.result.contains(c@)),
    {
        let e = chars_of(self.entry.as_str());
        if chars_eq(e.as_slice(), c) {
            return true;
        }
        let mut i: usize = 0;
        while i < self.result.len()
            invariant
                i <= self.result.len(),
                forall|k: int| 0 <= k < i ==> self.result@[k]@ != c@,
            decreases self.result.len() - i,
        {
            let r = chars_of(self.result[i].as_str());
            if chars_eq(r.as_slice(), c) {
                assert(self@.result[i as int] == c@);
                return true;
            }
            i += 1;
        }
        assert(!self@.result.contains(c@)) by {
            if self@.result.contains(c@) {
                let k = choose|k: int| 0 <= k < self@.result.len() && self@.result[k] == c@;
                assert(self.result@[k]@ == c@);
            }
        }
        false
    }

    /// Offer a completion.
    pub fn add(&mut self, completion: &str)
        ensures
            final(self)@ == old(self)@.add(completion@),
    {
        if !self.can_continue() {
            return;
        }
        if self.needs_length_check && completion.unicode_len() <= self.minimum_length {
            return;
        }
        let c = chars_of(completion);
        if !self.seen(c.as_slice()) {
            let ghost before = self.result@;
            self.result.push(copy_str(completion));
            assert(self.result@.map_values(|s: String| s@) =~= before.map_values(|s: String| s@).push(completion@));
        }
    }

    pub fn can_continue(&self) -> (r: bool)
        ensures
            r == self@.can_continue(),
    {
        self.limit == 0 || self.result.len() < self.limit
    }

    pub fn into_result(self) -> (r: Vec<String>)
        ensures
            r@.map_values(|s: String| s@) == self@.result,
    {
        self.result
    }
}

} // verus!
