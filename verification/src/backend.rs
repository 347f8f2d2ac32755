//! Dictionary search front end.
//!
//! Owns the user dictionary and the configured system dictionaries, and
//! layers numeric conversion, candidate filtering and completion on top.

use vstd::prelude::*;
use crate::candidate::{
    models, removed_where, split_candidate, Candidate, CandidateModel, CandidateSuite, SuiteModel,
};
use crate::dictionary::common::{line_for, lookup_suite, merge_suite, prefixed_keys, reverse_key};
use crate::dictionary::gadget::{add_words, prefixes_from};
use crate::dictionary::user::{registered_ari, registered_nasi, removed_ari, removed_nasi, user_lookup};
use crate::dictionary::auto_update::AutoUpdateDictionary;
use crate::dictionary::{
    CommonDictionary, CompletionHelper, Dictionary, GadgetDictionary, HelperModel, LocalTime,
    LocalUserDictionary, NullDictionary,
};
use crate::entry::Entry;
use crate::numeric::{setup_result, substituted, substitutes_safely, NumericConverter};
use crate::text::{has_prefix, has_suffix, str_eq, str_starts_with};

verus! {

/// A system dictionary held by the back end.
#[derive(Debug)]
pub enum SystemDictionary {
    Common(CommonDictionary),
    AutoUpdate(AutoUpdateDictionary),
    Gadget(GadgetDictionary),
    Null(NullDictionary),
}

/// The empty suite.
pub open spec fn no_suite() -> SuiteModel {
    SuiteModel { candidates: Seq::empty(), hints: Seq::empty() }
}

impl SystemDictionary {
    /// The suite after this dictionary's lookup of reading `key` with
    /// okurigana `okuri` has added to `r`.
    pub open spec fn found(self, r: SuiteModel, key: Seq<char>, okuri: Seq<char>) -> SuiteModel {
        match self {
            SystemDictionary::Common(d) => merge_suite(
                r,
                lookup_suite(okuri.len() > 0, okuri, line_for(if okuri.len() > 0 { d.ari() } else { d.nasi() }, key)),
            ),
            SystemDictionary::AutoUpdate(a) => merge_suite(
                r,
                lookup_suite(
                    okuri.len() > 0,
                    okuri,
                    line_for(if okuri.len() > 0 { a.copy().ari() } else { a.copy().nasi() }, key),
                ),
            ),
            SystemDictionary::Gadget(g) => if g.clock().year > i32::MIN && okuri.len() == 0 {
                SuiteModel { candidates: add_words(r.candidates, g.words_for(key)), hints: r.hints }
            } else {
                r
            },
            SystemDictionary::Null(_) => r,
        }
    }

    /// The completions this dictionary offers for prefix `p`, in order.
    pub open spec fn completions(self, p: Seq<char>) -> Seq<Seq<char>> {
        match self {
            SystemDictionary::Common(d) => prefixed_keys(d.nasi(), p),
            SystemDictionary::AutoUpdate(a) => prefixed_keys(a.copy().nasi(), p),
            SystemDictionary::Gadget(_) => prefixes_from(p, 0),
            SystemDictionary::Null(_) => Seq::empty(),
        }
    }

    /// The reading this dictionary records for candidate word `cand`.
    pub open spec fn reading_of(self, cand: Seq<char>) -> Option<Seq<char>> {
        match self {
            SystemDictionary::Common(d) => reverse_key(d.nasi(), cand),
            SystemDictionary::AutoUpdate(a) => reverse_key(a.copy().nasi(), cand),
            _ => None,
        }
    }
}

impl Dictionary for SystemDictionary {
    fn find(&self, entry: &Entry, result: &mut CandidateSuite)
        ensures
            final(result)@ == self.found(old(result)@, entry.key(), entry.okuri()),
    {
        match self {
            SystemDictionary::Common(d) => d.find(entry, result),
            SystemDictionary::AutoUpdate(a) => a.find(entry, result),
            SystemDictionary::Gadget(g) => g.find(entry, result),
            SystemDictionary::Null(n) => n.find(entry, result),
        }
    }

    fn reverse_lookup(&self, candidate: &str) -> (r: Option<String>)
        ensures
            match r {
                Some(k) => self.reading_of(candidate@) == Some(k@),
                None => self.reading_of(candidate@) is None,
            },
    {
        match self {
            SystemDictionary::Common(d) => d.reverse_lookup(candidate),
            SystemDictionary::AutoUpdate(a) => a.reverse_lookup(candidate),
            _ => None,
        }
    }

    fn complete(&self, helper: &mut CompletionHelper)
        ensures
            final(helper)@ == old(helper)@.add_all(self.completions(old(helper)@.entry)),
    {
        match self {
            SystemDictionary::Common(d) => d.complete(helper),
            SystemDictionary::AutoUpdate(a) => a.complete(helper),
            SystemDictionary::Gadget(g) => g.complete(helper),
            SystemDictionary::Null(n) => n.complete(helper),
        }
    }
}

/// The suite after each dictionary of `ds`, in order, has added to `r`.
pub open spec fn found_in(ds: Seq<SystemDictionary>, r: SuiteModel, key: Seq<char>, okuri: Seq<char>) -> SuiteModel
    decreases ds.len(),
{
    if ds.len() == 0 {
        r
    } else {
        ds.last().found(found_in(ds.drop_last(), r, key, okuri), key, okuri)
    }
}

/// The suite after the user dictionary and then each of `ds` has added to `r`.
pub open spec fn lookup_all(
    u: LocalUserDictionary,
    ds: Seq<SystemDictionary>,
    r: SuiteModel,
    key: Seq<char>,
    okuri: Seq<char>,
) -> SuiteModel {
    found_in(ds, merge_suite(r, user_lookup(u.ari(), u.nasi(), key, okuri)), key, okuri)
}

/// The completions of each of `ds` in turn.
pub open spec fn all_completions(ds: Seq<SystemDictionary>, p: Seq<char>) -> Seq<Seq<char>>
    decreases ds.len(),
{
    if ds.len() == 0 {
        Seq::empty()
    } else {
        all_completions(ds.drop_last(), p) + ds.last().completions(p)
    }
}

/// The first reading recorded for `cand` by one of `ds`.
pub open spec fn first_reading(ds: Seq<SystemDictionary>, cand: Seq<char>) -> Option<Seq<char>>
    decreases ds.len(),
{
    if ds.len() == 0 {
        None
    } else {
        match ds[0].reading_of(cand) {
            Some(k) => Some(k),
            None => first_reading(ds.skip(1), cand),
        }
    }
}

/// Candidates converted with numbers `params`: those whose placeholders can
/// all be converted, each with its converted text as variant.
pub open spec fn numeric_variants(c: Seq<CandidateModel>, params: Seq<Seq<char>>) -> Seq<CandidateModel>
    decreases c.len(),
{
    if c.len() == 0 {
        Seq::empty()
    } else if substitutes_safely(c.last().word, params) {
        numeric_variants(c.drop_last(), params).push(
            CandidateModel { variant: substituted(c.last().word, params), ..c.last() },
        )
    } else {
        numeric_variants(c.drop_last(), params)
    }
}

/// A candidate that only tells the dictionary to hide a word.
pub open spec fn ignores_word(c: CandidateModel) -> bool {
    has_prefix(c.word, "(skk-ignore-dic-word "@)
}

/// Which candidates of `c` only hide a word.
pub open spec fn ignore_flags(c: Seq<CandidateModel>) -> Seq<bool> {
    Seq::new(c.len(), |i: int| ignores_word(c[i]))
}

/// A gadget dictionary set to time `t`; other dictionaries unchanged.
pub open spec fn retimed(after: SystemDictionary, before: SystemDictionary, t: LocalTime) -> bool {
    match before {
        SystemDictionary::Gadget(_) => after matches SystemDictionary::Gadget(g) && g.clock() == t && (before matches SystemDictionary::Gadget(
            g0,
        ) && g.evaluated() == g0.evaluated()),
        _ => after == before,
    }
}

/// A gadget dictionary with the evaluation of `key` recorded as `word`;
/// other dictionaries unchanged.
pub open spec fn recalculated(after: SystemDictionary, before: SystemDictionary, key: Seq<char>, word: Seq<char>) -> bool {
    match before {
        SystemDictionary::Gadget(g0) => after matches SystemDictionary::Gadget(g) && g.evaluated() == Some((key, word))
            && g.clock() == g0.clock(),
        _ => after == before,
    }
}

/// The dictionary search front end.
#[derive(Debug)]
pub struct Backend {
    user_dictionary: LocalUserDictionary,
    dictionaries: Vec<SystemDictionary>,
    use_numeric_conversion: bool,
    enable_extended_completion: bool,
    minimum_completion_length: usize,
}

/// The effect of `Backend::register` of `c` for `entry` on `o`, giving `n`.
pub open spec fn registered(o: Backend, n: Backend, entry: Entry, c: CandidateModel) -> bool {
    &&& n.dictionaries() == o.dictionaries()
    &&& n.numeric() == o.numeric()
    &&& n.extended() == o.extended()
    &&& n.min_completion() == o.min_completion()
    &&& (entry.key().len() == 0 || (entry.okuri().len() > 0 && c.word.len() == 0) || c.avoid_study) ==> n.user()
        == o.user()
    &&& !(entry.key().len() == 0 || (entry.okuri().len() > 0 && c.word.len() == 0) || c.avoid_study) ==> {
        &&& entry.okuri().len() > 0 ==> n.user().ari() == registered_ari(
            o.user().ari(),
            o.recorded_key(entry),
            entry.okuri(),
            c,
        ) && n.user().nasi() == o.user().nasi()
        &&& entry.okuri().len() == 0 ==> n.user().nasi() == registered_nasi(
            o.user().nasi(),
            o.recorded_key(entry),
            c,
        ) && n.user().ari() == o.user().ari()
        &&& n.user().is_dirty()
        &&& n.user().is_private() == o.user().is_private()
        &&& n.user().changes() == if o.user().changes() < u32::MAX {
            o.user().changes() + 1
        } else {
            o.user().changes()
        }
        &&& n.user().stored_encoding() == o.user().stored_encoding()
    }
}

/// The effect of `Backend::remove` of `c` for `entry` on `o`, giving `n`.
pub open spec fn removed(o: Backend, n: Backend, entry: Entry, c: CandidateModel) -> bool {
    &&& n.dictionaries() == o.dictionaries()
    &&& n.numeric() == o.numeric()
    &&& n.extended() == o.extended()
    &&& n.min_completion() == o.min_completion()
    &&& entry.key().len() == 0 ==> n.user() == o.user()
    &&& entry.key().len() > 0 ==> {
        &&& entry.okuri().len() > 0 ==> n.user().ari() == removed_ari(
            o.user().ari(),
            o.recorded_key(entry),
            c,
        ) && n.user().nasi() == o.user().nasi()
        &&& entry.okuri().len() == 0 ==> n.user().nasi() == removed_nasi(
            o.user().nasi(),
            o.recorded_key(entry),
            c,
        ) && n.user().ari() == o.user().ari()
        &&& n.user().is_dirty()
        &&& n.user().is_private() == o.user().is_private()
        &&& n.user().changes() == if o.user().changes() < u32::MAX {
            o.user().changes() + 1
        } else {
            o.user().changes()
        }
        &&& n.user().stored_encoding() == o.user().stored_encoding()
    }
}

impl Backend {
    pub closed spec fn user(self) -> LocalUserDictionary {
        self.user_dictionary
    }

    pub closed spec fn dictionaries(self) -> Seq<SystemDictionary> {
        self.dictionaries@
    }

    /// Numeric conversion is on.
    pub closed spec fn numeric(self) -> bool {
        self.use_numeric_conversion
    }

    /// Completion searches the system dictionaries too.
    pub closed spec fn extended(self) -> bool {
        self.enable_extended_completion
    }

    pub closed spec fn min_completion(self) -> nat {
        self.minimum_completion_length as nat
    }

    /// The suite found for reading `key` with okurigana `okuri`: the user
    /// dictionary's and then each system dictionary's candidates; for an
    /// okuri-nasi reading with numbers, the candidates of the reading with
    /// numbers as '#' converted; a candidate showing the reading itself
    /// dropped (numeric conversion on); and word-hiding candidates dropped.
    pub open spec fn found_for(self, key: Seq<char>, okuri: Seq<char>) -> SuiteModel {
        let base = lookup_all(self.user(), self.dictionaries(), no_suite(), key, okuri);
        let with_numbers = if okuri.len() > 0 {
            base
        } else {
            let norm = setup_result(key).0;
            let params = setup_result(key).1;
            let numeric = if self.numeric() && params.len() > 0 {
                SuiteModel {
                    candidates: base.candidates + numeric_variants(
                        lookup_all(self.user(), self.dictionaries(), no_suite(), norm, Seq::empty()).candidates,
                        params,
                    ),
                    hints: base.hints,
                }
            } else {
                base
            };
            crate::dictionary::user::remove_model(
                numeric,
                split_candidate(if self.numeric() { key } else { Seq::empty() }),
            )
        };
        removed_where(with_numbers, ignore_flags(with_numbers.candidates))
    }

    /// The completion state after completing `key` with at most `limit`
    /// results (0: no limit).
    pub open spec fn completed(self, key: Seq<char>, limit: nat) -> HelperModel {
        let h0 = HelperModel {
            entry: key,
            minimum_length: self.min_completion(),
            limit,
            needs_length_check: key.len() < self.min_completion(),
            result: Seq::empty(),
        };
        if key.len() == 0 || !self.extended() {
            h0.add_all(prefixed_keys(self.user().nasi(), key))
        } else {
            h0.add_all(prefixed_keys(self.user().nasi(), key) + all_completions(self.dictionaries(), key))
        }
    }

    /// The reading recorded for `cand` by the user dictionary or else the
    /// first system dictionary that has one.
    pub open spec fn reading_for(self, cand: Seq<char>) -> Option<Seq<char>> {
        if cand.len() == 0 {
            None
        } else {
            match reverse_key(self.user().nasi(), cand) {
                Some(k) => Some(k),
                None => first_reading(self.dictionaries(), cand),
            }
        }
    }

    /// The reading an entry is recorded under: okuri-nasi readings with
    /// numbers are kept with '#' for each number when numeric conversion is
    /// on, unless the reading is a bare number.
    pub open spec fn recorded_key(self, entry: Entry) -> Seq<char> {
        let norm = setup_result(entry.key()).0;
        if entry.okuri().len() == 0 && self.numeric() && setup_result(entry.key()).1.len() > 0 && norm != seq!['#'] {
            if entry.okuri_prefix().len() > 0 && has_suffix(norm, entry.okuri_prefix()) {
                norm.take(norm.len() - entry.okuri_prefix().len())
            } else {
                norm
            }
        } else {
            entry.key()
        }
    }

    /// The reading a plain okuri-nasi reading `k` is recorded under.
    pub open spec fn recorded_key_of(self, k: Seq<char>) -> Seq<char> {
        let norm = setup_result(k).0;
        if self.numeric() && setup_result(k).1.len() > 0 && norm != seq!['#'] {
            norm
        } else {
            k
        }
    }

    pub fn new(user_dictionary: LocalUserDictionary) -> (b: Backend)
        ensures
            b.user() == user_dictionary,
            b.dictionaries() == Seq::<SystemDictionary>::empty(),
            !b.numeric(),
            !b.extended(),
            b.min_completion() == 0,
    {
        Backend {
            user_dictionary,
            dictionaries: Vec::new(),
            use_numeric_conversion: false,
            enable_extended_completion: false,
            minimum_completion_length: 0,
        }
    }

    /// Add a system dictionary. Search order is the user dictionary first,
    /// then added dictionaries in order.
    pub fn add_dictionary(&mut self, dictionary: SystemDictionary)
        ensures
            final(self).dictionaries() == old(self).dictionaries().push(dictionary),
            final(self).user() == old(self).user(),
            final(self).numeric() == old(self).numeric(),
            final(self).extended() == old(self).extended(),
            final(self).min_completion() == old(self).min_completion(),
    {
        self.dictionaries.push(dictionary);
    }

    pub fn user_dictionary(&self) -> (r: &LocalUserDictionary)
        ensures
            *r == self.user(),
    {
        &self.user_dictionary
    }

    pub fn user_dictionary_mut(&mut self) -> (r: &mut LocalUserDictionary)
        ensures
            *r == old(self).user(),
            final(self).user() == *final(r),
            final(self).dictionaries() == old(self).dictionaries(),
            final(self).numeric() == old(self).numeric(),
            final(self).extended() == old(self).extended(),
            final(self).min_completion() == old(self).min_completion(),
    {
        &mut self.user_dictionary
    }

    /// Set the clock of every gadget dictionary.
    pub fn set_time(&mut self, time: LocalTime)
        ensures
            final(self).dictionaries().len() == old(self).dictionaries().len(),
            forall|i: int| 0 <= i < old(self).dictionaries().len() ==> retimed(
                #[trigger] final(self).dictionaries()[i],
                old(self).dictionaries()[i],
                time,
            ),
            final(self).user() == old(self).user(),
            final(self).numeric() == old(self).numeric(),
            final(self).extended() == old(self).extended(),
            final(self).min_completion() == old(self).min_completion(),
    {
        let mut rest: Vec<SystemDictionary> = Vec::new();
        std::mem::swap(&mut rest, &mut self.dictionaries);
        let ghost d0 = rest@;
        let mut out: Vec<SystemDictionary> = Vec::new();
        while rest.len() > 0
            invariant
                out@.len() + rest@.len() == d0.len(),
                rest@ == d0.skip(out@.len() as int),
                forall|i: int| 0 <= i < out@.len() ==> retimed(#[trigger] out@[i], d0[i], time),
            decreases rest.len(),
        {
            let ghost k = out@.len() as int;
            let d = rest.remove(0);
            assert(d == d0[k]);
            assert(rest@ =~= d0.skip(k + 1));
            let d2 = match d {
                SystemDictionary::Gadget(mut g) => {
                    g.set_time(time);
                    SystemDictionary::Gadget(g)
                },
                other => other,
            };
            out.push(d2);
        }
        self.dictionaries = out;
    }

    /// Record in every gadget dictionary that the "=expr" reading `key`
    /// evaluates to `word`.
    pub fn set_calculation(&mut self, key: &str, word: &str)
        ensures
            final(self).dictionaries().len() == old(self).dictionaries().len(),
            forall|i: int| 0 <= i < old(self).dictionaries().len() ==> recalculated(
                #[trigger] final(self).dictionaries()[i],
                old(self).dictionaries()[i],
                key@,
                word@,
            ),
            final(self).user() == old(self).user(),
            final(self).numeric() == old(self).numeric(),
            final(self).extended() == old(self).extended(),
            final(self).min_completion() == old(self).min_completion(),
    {
        let mut rest: Vec<SystemDictionary> = Vec::new();
        std::mem::swap(&mut rest, &mut self.dictionaries);
        let ghost d0 = rest@;
        let mut out: Vec<SystemDictionary> = Vec::new();
        while rest.len() > 0
            invariant
                out@.len() + rest@.len() == d0.len(),
                rest@ == d0.skip(out@.len() as int),
                forall|i: int| 0 <= i < out@.len() ==> recalculated(#[trigger] out@[i], d0[i], key@, word@),
            decreases rest.len(),
        {
            let ghost k = out@.len() as int;
            let d = rest.remove(0);
            assert(d == d0[k]);
            assert(rest@ =~= d0.skip(k + 1));
            let d2 = match d {
                SystemDictionary::Gadget(mut g) => {
                    g.set_calculation(key, word);
                    SystemDictionary::Gadget(g)
                },
                other => other,
            };
            out.push(d2);
        }
        self.dictionaries = out;
    }

    /// Complete readings beginning with `key`; `limit` == 0 means no limit.
    /// Only the user dictionary is searched unless extended completion is
    /// on and the key is not empty.
    pub fn complete(&self, key: &str, limit: usize) -> (r: Vec<String>)
        ensures
            r@.map_values(|s: String| s@) == self.completed(key@, limit as nat).result,
    {
        let mut helper = CompletionHelper::new(key, self.minimum_completion_length, limit);
        let ghost h0 = helper@;
        proof {
            crate::dictionary::lemma_add_all_keeps_entry(h0, prefixed_keys(self.user().nasi(), key@));
        }
        let ghost user_keys = prefixed_keys(self.user().nasi(), key@);
        if key.unicode_len() == 0 || !self.enable_extended_completion {
            self.user_dictionary.complete(&mut helper);
        } else {
            self.user_dictionary.complete(&mut helper);
            let ghost ds = self.dictionaries@;
            let mut i: usize = 0;
            assert(ds.take(0) =~= Seq::<SystemDictionary>::empty());
            assert(user_keys + all_completions(ds.take(0), key@) =~= user_keys);
            while i < self.dictionaries.len()
                invariant
                    i <= ds.len(),
                    ds == self.dictionaries@,
                    helper@.entry == key@,
                    h0.entry == key@,
                    helper@ == h0.add_all(user_keys + all_completions(ds.take(i as int), key@)),
                decreases self.dictionaries.len() - i,
            {
                let ghost before = helper@;
                self.dictionaries[i].complete(&mut helper);
                proof {
                    assert(ds.take(i + 1).drop_last() =~= ds.take(i as int));
                    assert(ds.take(i + 1).last() == ds[i as int]);
                    crate::dictionary::lemma_add_all_keeps_entry(before, ds[i as int].completions(key@));
                    crate::dictionary::common::lemma_add_all_append(
                        h0,
                        user_keys + all_completions(ds.take(i as int), key@),
                        ds[i as int].completions(key@),
                    );
                    assert(user_keys + all_completions(ds.take(i + 1), key@) =~= (user_keys + all_completions(
                        ds.take(i as int),
                        key@,
                    )) + ds[i as int].completions(key@));
                }
                i += 1;
            }
            assert(ds.take(ds.len() as int) =~= ds);
        }
        helper.into_result()
    }

    /// The reading recorded for a candidate word.
    pub fn reverse_lookup(&self, candidate: &str) -> (r: Option<String>)
        ensures
            match r {
                Some(k) => self.reading_for(candidate@) == Some(k@),
                None => self.reading_for(candidate@) is None,
            },
    {
        if candidate.unicode_len() == 0 {
            return None;
        }
        if let Some(k) = self.user_dictionary.reverse_lookup(candidate) {
            return Some(k);
        }
        let ghost ds = self.dictionaries@;
        let mut i: usize = 0;
        assert(ds.skip(0) =~= ds);
        while i < self.dictionaries.len()
            invariant
                i <= ds.len(),
                ds == self.dictionaries@,
                first_reading(ds, candidate@) == first_reading(ds.skip(i as int), candidate@),
                candidate@.len() > 0,
                reverse_key(self.user().nasi(), candidate@) is None,
            decreases self.dictionaries.len() - i,
        {
            assert(ds.skip(i as int)[0] == ds[i as int]);
            assert(ds.skip(i as int).skip(1) =~= ds.skip(i + 1));
            if let Some(k) = self.dictionaries[i].reverse_lookup(candidate) {
                return Some(k);
            }
            i += 1;
        }
        assert(ds.skip(ds.len() as int) =~= Seq::<SystemDictionary>::empty());
        None
    }

    /// The entry a registration or removal is recorded under.
    fn normalize(&self, entry: &Entry) -> (e: Entry)
        ensures
            e.key() == self.recorded_key(*entry),
            e.okuri() == entry.okuri(),
    {
        if entry.is_okuri_ari() {
            return entry.duplicate();
        }
        let mut converter = NumericConverter::new();
        let mut result = entry.duplicate();
        if self.use_numeric_conversion && converter.setup(entry.entry_string()) {
            let normalized = converter.normalized_key();
            let hash = "#";
            proof {
                reveal_strlit("#");
            }
            assert(hash@ =~= seq!['#']);
            if !str_eq(normalized, hash) {
                result.set_entry(normalized);
            }
        }
        result
    }

    /// Record a selected candidate in the user dictionary. Malformed
    /// registrations and study-avoiding candidates are ignored.
    pub fn register(&mut self, entry: &Entry, candidate: &Candidate)
        ensures
            final(self).dictionaries() == old(self).dictionaries(),
            final(self).numeric() == old(self).numeric(),
            final(self).extended() == old(self).extended(),
            final(self).min_completion() == old(self).min_completion(),
            (entry.key().len() == 0 || (entry.okuri().len() > 0 && candidate@.word.len() == 0)
                || candidate@.avoid_study) ==> final(self).user() == old(self).user(),
            !(entry.key().len() == 0 || (entry.okuri().len() > 0 && candidate@.word.len() == 0)
                || candidate@.avoid_study) ==> {
                &&& entry.okuri().len() > 0 ==> final(self).user().ari() == registered_ari(
                    old(self).user().ari(),
                    old(self).recorded_key(*entry),
                    entry.okuri(),
                    candidate@,
                ) && final(self).user().nasi() == old(self).user().nasi()
                &&& entry.okuri().len() == 0 ==> final(self).user().nasi() == registered_nasi(
                    old(self).user().nasi(),
                    old(self).recorded_key(*entry),
                    candidate@,
                ) && final(self).user().ari() == old(self).user().ari()
                &&& final(self).user().is_dirty()
                &&& final(self).user().is_private() == old(self).user().is_private()
                &&& final(self).user().changes() == if old(self).user().changes() < u32::MAX {
                    old(self).user().changes() + 1
                } else {
                    old(self).user().changes()
                }
                &&& final(self).user().stored_encoding() == old(self).user().stored_encoding()
            },
    {
        if entry.entry_string().unicode_len() == 0 || (entry.is_okuri_ari() && (entry.okuri_string().unicode_len() == 0
            || candidate.is_empty())) {
            return;
        }
        if candidate.avoid_study() {
            return;
        }
        let e = self.normalize(entry);
        self.user_dictionary.register(&e, candidate);
    }

    /// Remove a candidate from the user dictionary. An entry without a
    /// reading is ignored.
    pub fn remove(&mut self, entry: &Entry, candidate: &Candidate)
        ensures
            final(self).dictionaries() == old(self).dictionaries(),
            final(self).numeric() == old(self).numeric(),
            final(self).extended() == old(self).extended(),
            final(self).min_completion() == old(self).min_completion(),
            entry.key().len() == 0 ==> final(self).user() == old(self).user(),
            entry.key().len() > 0 ==> {
                &&& entry.okuri().len() > 0 ==> final(self).user().ari() == removed_ari(
                    old(self).user().ari(),
                    old(self).recorded_key(*entry),
                    candidate@,
                ) && final(self).user().nasi() == old(self).user().nasi()
                &&& entry.okuri().len() == 0 ==> final(self).user().nasi() == removed_nasi(
                    old(self).user().nasi(),
                    old(self).recorded_key(*entry),
                    candidate@,
                ) && final(self).user().ari() == old(self).user().ari()
                &&& final(self).user().is_dirty()
                &&& final(self).user().is_private() == old(self).user().is_private()
                &&& final(self).user().changes() == if old(self).user().changes() < u32::MAX {
                    old(self).user().changes() + 1
                } else {
                    old(self).user().changes()
                }
                &&& final(self).user().stored_encoding() == old(self).user().stored_encoding()
            },
    {
        if entry.entry_string().unicode_len() == 0 {
            return;
        }
        let e = self.normalize(entry);
        self.user_dictionary.remove(&e, candidate);
    }

    pub fn use_numeric_conversion(&mut self, flag: bool)
        ensures
            final(self).numeric() == flag,
            final(self).user() == old(self).user(),
            final(self).dictionaries() == old(self).dictionaries(),
            final(self).extended() == old(self).extended(),
            final(self).min_completion() == old(self).min_completion(),
    {
        self.use_numeric_conversion = flag;
    }

    pub fn enable_extended_completion(&mut self, flag: bool)
        ensures
            final(self).extended() == flag,
            final(self).user() == old(self).user(),
            final(self).dictionaries() == old(self).dictionaries(),
            final(self).numeric() == old(self).numeric(),
            final(self).min_completion() == old(self).min_completion(),
    {
        self.enable_extended_completion = flag;
    }

    /// Enter or leave private mode in the user dictionary.
    pub fn enable_private_mode(&mut self, flag: bool)
        ensures
            final(self).user().is_private() == flag,
            final(self).user().ari() == old(self).user().ari(),
            final(self).user().nasi() == old(self).user().nasi(),
            final(self).user().is_dirty() == old(self).user().is_dirty(),
            final(self).user().changes() == old(self).user().changes(),
            final(self).user().stored_encoding() == old(self).user().stored_encoding(),
            final(self).dictionaries() == old(self).dictionaries(),
            final(self).numeric() == old(self).numeric(),
            final(self).extended() == old(self).extended(),
            final(self).min_completion() == old(self).min_completion(),
    {
        self.user_dictionary.set_private_mode(flag);
    }

    pub fn set_minimum_completion_length(&mut self, length: usize)
        ensures
            final(self).min_completion() == length,
            final(self).user() == old(self).user(),
            final(self).dictionaries() == old(self).dictionaries(),
            final(self).numeric() == old(self).numeric(),
            final(self).extended() == old(self).extended(),
    {
        self.minimum_completion_length = length;
    }

    /// Look up `entry` in the user dictionary and then each system
    /// dictionary, adding to `result`.
    fn find_all(&self, entry: &Entry, result: &mut CandidateSuite)
        ensures
            final(result)@ == lookup_all(self.user(), self.dictionaries(), old(result)@, entry.key(), entry.okuri()),
    {
        self.user_dictionary.find(entry, result);
        let ghost r0 = result@;
        let ghost ds = self.dictionaries@;
        let mut i: usize = 0;
        assert(ds.take(0) =~= Seq::<SystemDictionary>::empty());
        while i < self.dictionaries.len()
            invariant
                i <= ds.len(),
                ds == self.dictionaries@,
                result@ == found_in(ds.take(i as int), r0, entry.key(), entry.okuri()),
            decreases self.dictionaries.len() - i,
        {
            self.dictionaries[i].find(entry, result);
            assert(ds.take(i + 1).drop_last() =~= ds.take(i as int));
            assert(ds.take(i + 1).last() == ds[i as int]);
            i += 1;
        }
        assert(ds.take(ds.len() as int) =~= ds);
    }

    /// Look up candidates across all dictionaries. Returns whether any was
    /// found.
    pub fn find(&self, entry: &Entry, result: &mut CandidateSuite) -> (found: bool)
        ensures
            final(result)@ == self.found_for(entry.key(), entry.okuri()),
            found == (final(result)@.candidates.len() > 0),
    {
        result.clear();
        assert(result@ == no_suite());
        self.find_all(entry, result);
        let ghost base = result@;
        if !entry.is_okuri_ari() {
            let mut converter = NumericConverter::new();
            if self.use_numeric_conversion && converter.setup(entry.entry_string()) {
                let numeric_entry = Entry::from_entry(converter.normalized_key());
                let mut suite = CandidateSuite::new();
                assert(suite@ == no_suite());
                self.find_all(&numeric_entry, &mut suite);
                let ghost params = converter.params();
                let items = suite.candidates();
                let ghost ms = models(items@);
                let mut k: usize = 0;
                assert(ms.take(0) =~= Seq::<CandidateModel>::empty());
                assert(base.candidates + numeric_variants(ms.take(0), params) =~= base.candidates);
                while k < items.len()
                    invariant
                        k <= items@.len(),
                        ms == models(items@),
                        params == converter.params(),
                        params.len() > 0,
                        converter.params_are_digits(),
                        result@.candidates == base.candidates + numeric_variants(ms.take(k as int), params),
                        result@.hints == base.hints,
                    decreases items.len() - k,
                {
                    assert(ms.take(k + 1).drop_last() =~= ms.take(k as int));
                    assert(ms.take(k + 1).last() == items@[k as int]@);
                    let mut c = items[k].duplicate();
                    if converter.can_apply(&c) {
                        converter.apply(&mut c);
                        let ghost before = result@.candidates;
                        let v = result.candidates_mut();
                        let ghost cm = c@;
                        v.push(c);
                        assert(models(v@) =~= before.push(cm));
                        assert(before.push(cm) =~= base.candidates + numeric_variants(ms.take(k + 1), params));
                    }
                    k += 1;
                }
                assert(ms.take(items.len() as int) =~= ms);
            }
            let target = Candidate::new(converter.original_key());
            result.remove_candidate(&target);
        }
        let ghost before_ignore = result@;
        let ghost items0 = result.items();
        let ignore = |c: &Candidate| -> (r: bool)
            ensures
                r == ignores_word(c@),
            { str_starts_with(c.word(), "(skk-ignore-dic-word ") };
        result.remove_if(ignore);
        proof {
            let sel = choose|sel: Seq<bool>| {
                &&& sel.len() == before_ignore.candidates.len()
                &&& forall|i: int| 0 <= i < sel.len() ==> ignore.ensures((&items0[i],), #[trigger] sel[i])
                &&& result@ == removed_where(before_ignore, sel)
            };
            assert forall|i: int| 0 <= i < sel.len() implies #[trigger] sel[i] == ignores_word(before_ignore.candidates[i]) by {
                assert(ignore.ensures((&items0[i],), sel[i]));
                assert(models(items0)[i] == items0[i]@);
            }
            assert(sel =~= ignore_flags(before_ignore.candidates));
        }
        !result.is_empty()
    }
}

} // verus!
