//! The user dictionary: learned conversions, most recent first.
//!
//! Writing the dictionary file is left to the host; this type keeps the
//! entries, records changes and decides when a save is due.

use vstd::prelude::*;
use crate::candidate::{
    law_line_reparses, law_remove_removes, lemma_encoded_plain, plain_candidate, plain_hint, written,
    written_all,
    decoded, encoded, line_of, models, parse_run, split_candidate, to_front, update_hint_model,
    without_shown, Candidate, CandidateModel, CandidateSuite, HintModel, OkuriHint, SuiteModel,
    word_candidate,
};
use crate::dictionary::common::{
    key_index_from, line_for, lookup_suite, merge_suite, parsed_suite, reverse_key,
    reverse_lookup_in, find_with, prefixed_keys, lemma_prefixed_keys_append,
};
use crate::dictionary::file::{entries_view, DictionaryEntry, DictionaryFile, Encoding};
use crate::dictionary::{CompletionHelper, Dictionary, HelperModel};
use crate::entry::Entry;
use crate::text::{replace_all, chars_eq, chars_of, chars_starts_with, copy_str, has_prefix, str_eq};

verus! {

/// Changes after which a save is due even within the save interval.
pub const MAX_IDLE_COUNT: u32 = 20;
/// Seconds after which a pending change is saved.
pub const MAX_SAVE_INTERVAL_SECS: u64 = 300;

/// Position of the first entry whose reading is `query`.
fn find_entry(c: &[DictionaryEntry], query: &str) -> (r: Option<usize>)
    ensures
        match r {
            Some(i) => key_index_from(entries_view(c@), query@, 0) == Some(i as int) && i < c@.len(),
            None => key_index_from(entries_view(c@), query@, 0) is None,
        },
{
    let mut i: usize = 0;
    while i < c.len()
        invariant
            i <= c@.len(),
            key_index_from(entries_view(c@), query@, 0) == key_index_from(entries_view(c@), query@, i as int),
        decreases c.len() - i,
    {
        if str_eq(c[i].0.as_str(), query) {
            return Some(i);
        }
        i += 1;
    }
    None
}

/// Entries with the entry for `key` rebuilt by `f` and moved to the front.
pub open spec fn updated_entries(
    c: Seq<(Seq<char>, Seq<char>)>,
    key: Seq<char>,
    suite: SuiteModel,
) -> Seq<(Seq<char>, Seq<char>)> {
    let rest = match key_index_from(c, key, 0) {
        Some(i) => c.remove(i),
        None => c,
    };
    seq![(key, line_of(suite, false))] + rest
}

/// The suite currently recorded for `key`.
pub open spec fn recorded_suite(c: Seq<(Seq<char>, Seq<char>)>, key: Seq<char>) -> SuiteModel {
    parsed_suite(line_for(c, key))
}

/// Entries with `cand` removed from the entry for `key` (the entry goes when
/// no candidate is left).
pub open spec fn pruned_entries(
    c: Seq<(Seq<char>, Seq<char>)>,
    key: Seq<char>,
    pruned: SuiteModel,
) -> Seq<(Seq<char>, Seq<char>)> {
    match key_index_from(c, key, 0) {
        Some(i) => if pruned.candidates.len() == 0 {
            c.remove(i)
        } else {
            c.update(i, (key, line_of(pruned, false)))
        },
        None => c,
    }
}

/// A suite with candidate words decoded.
pub open spec fn decode_suite(s: SuiteModel) -> SuiteModel {
    SuiteModel {
        candidates: s.candidates.map_values(|c: CandidateModel| CandidateModel { word: decoded(c.word), ..c }),
        hints: s.hints,
    }
}

/// The result of a candidate-removal on a suite (see `remove_candidate`).
pub open spec fn remove_model(s: SuiteModel, cand: CandidateModel) -> SuiteModel {
    SuiteModel {
        candidates: without_shown(s.candidates, cand.shown()),
        hints: if crate::candidate::shows(s.candidates, cand.shown()) {
            crate::candidate::prune_hints(s.hints, cand.shown())
        } else {
            s.hints
        },
    }
}

/// The okuri-ari entries after registering `cand` for `key` with okurigana
/// `okuri`: the entry moves to the front with the candidate first in its
/// okuri hint.
pub open spec fn registered_ari(
    ari: Seq<(Seq<char>, Seq<char>)>,
    key: Seq<char>,
    okuri: Seq<char>,
    cand: CandidateModel,
) -> Seq<(Seq<char>, Seq<char>)> {
    updated_entries(
        ari,
        key,
        update_hint_model(
            recorded_suite(ari, key),
            HintModel { okuri, candidates: seq![split_candidate(cand.serialized())] },
        ),
    )
}

/// The okuri-nasi entries after registering `cand` for `key`: the entry
/// moves to the front with the (escaped) candidate first.
pub open spec fn registered_nasi(
    nasi: Seq<(Seq<char>, Seq<char>)>,
    key: Seq<char>,
    cand: CandidateModel,
) -> Seq<(Seq<char>, Seq<char>)> {
    updated_entries(
        nasi,
        key,
        SuiteModel {
            candidates: to_front(recorded_suite(nasi, key).candidates, CandidateModel { word: encoded(cand.word), ..cand }),
            ..recorded_suite(nasi, key)
        },
    )
}

/// No candidate of the suite, at top level or in an okuri hint, has an
/// empty word.
pub open spec fn worded(s: SuiteModel) -> bool {
    &&& forall|i: int| 0 <= i < s.candidates.len() ==> #[trigger] s.candidates[i].word.len() > 0
    &&& forall|i: int, j: int|
        0 <= i < s.hints.len() && 0 <= j < s.hints[i].candidates.len() ==> #[trigger] s.hints[i].candidates[j].word.len()
            > 0
}

proof fn lemma_recorded_plain(nasi: Seq<(Seq<char>, Seq<char>)>, key: Seq<char>)
    requires
        worded(recorded_suite(nasi, key)),
    ensures
        forall|i: int| 0 <= i < recorded_suite(nasi, key).candidates.len()
            ==> plain_candidate(#[trigger] recorded_suite(nasi, key).candidates[i]),
        forall|i: int| 0 <= i < recorded_suite(nasi, key).hints.len()
            ==> plain_hint(#[trigger] recorded_suite(nasi, key).hints[i]),
{
    let r = recorded_suite(nasi, key);
    if let Some(l) = line_for(nasi, key) {
        crate::candidate::law_parse_fields(l);
        assert forall|i: int| 0 <= i < r.candidates.len() implies plain_candidate(#[trigger] r.candidates[i]) by {
            assert(r.candidates[i].word.len() > 0);
        }
        assert forall|i: int| 0 <= i < r.hints.len() implies plain_hint(#[trigger] r.hints[i]) by {
            assert forall|j: int| 0 <= j < r.hints[i].candidates.len() implies #[trigger] r.hints[i].candidates[j].word.len()
                > 0 by {}
        }
    }
}

/// Registering a candidate for an okuri-nasi reading puts the reading's
/// entry first, with the registered candidate (escaped) first in it; the
/// other candidates of the entry follow. This holds whenever no candidate
/// of the entry has an empty word, the annotation holds no '/', and the
/// word does not begin with '[', '/' or ';' (an escaped word beginning so
/// would begin with '[').
pub proof fn law_register_puts_first(
    nasi: Seq<(Seq<char>, Seq<char>)>,
    key: Seq<char>,
    cand: CandidateModel,
)
    requires
        cand.word.len() > 0,
        cand.word[0] != '[' && cand.word[0] != '/' && cand.word[0] != ';',
        forall|i: int| 0 <= i < cand.annotation.len() ==> #[trigger] cand.annotation[i] != '/',
        worded(recorded_suite(nasi, key)),
    ensures
        registered_nasi(nasi, key, cand)[0].0 == key,
        recorded_suite(registered_nasi(nasi, key, cand), key).candidates == written_all(
            to_front(recorded_suite(nasi, key).candidates, CandidateModel { word: encoded(cand.word), ..cand }),
        ),
        recorded_suite(registered_nasi(nasi, key, cand), key).candidates[0] == written(
            CandidateModel { word: encoded(cand.word), ..cand },
        ),
{
    lemma_recorded_plain(nasi, key);
    let r = recorded_suite(nasi, key);
    let stored = CandidateModel { word: encoded(cand.word), ..cand };
    lemma_encoded_plain(cand);
    let cs = to_front(r.candidates, stored);
    crate::candidate::law_remove_removes(r.candidates, stored.shown());
    let w = without_shown(r.candidates, stored.shown());
    assert forall|i: int| 0 <= i < cs.len() implies plain_candidate(#[trigger] cs[i]) by {
        if i > 0 {
            assert(cs[i] == w[i - 1]);
            assert(r.candidates.contains(w[i - 1]));
        }
    }
    let suite = SuiteModel { candidates: cs, ..r };
    crate::candidate::law_line_reparses(suite);
    let new = registered_nasi(nasi, key, cand);
    assert(new[0] == (key, line_of(suite, false)));
    assert(key_index_from(new, key, 0) == Some(0int));
}

/// Removing a candidate from an okuri-nasi entry leaves no candidate with
/// its (escaped) word under the reading; the entry goes when nothing is
/// left. This holds whenever the reading has one entry and no candidate of
/// it has an empty word.
pub proof fn law_remove_takes_out(
    nasi: Seq<(Seq<char>, Seq<char>)>,
    key: Seq<char>,
    cand: CandidateModel,
)
    requires
        forall|i: int, j: int| 0 <= i < j < nasi.len() && nasi[i].0 == key ==> nasi[j].0 != key,
        worded(recorded_suite(nasi, key)),
    ensures
        !crate::candidate::shows(recorded_suite(removed_nasi(nasi, key, cand), key).candidates, encoded(cand.word)),
{
    lemma_recorded_plain(nasi, key);
    let r = recorded_suite(nasi, key);
    let stored = CandidateModel { word: encoded(cand.word), ..cand };
    let target = split_candidate(stored.serialized());
    // The escaped word has no ';', so it is the target's word.
    reveal_strlit("[3b]");
    assert(crate::text::lacks("[3b]"@, ';'));
    crate::text::lemma_replace_removes(
        replace_all(replace_all(cand.word, seq!['['], "[5b]"@), seq!['/'], "[2f]"@),
        ';',
        "[3b]"@,
    );
    assert(crate::text::lacks(encoded(cand.word), ';'));
    if stored.annotation.len() == 0 {
        crate::text::lemma_first_index_none(encoded(cand.word), ';');
    } else {
        let sv = stored.serialized();
        assert forall|k: int| 0 <= k < encoded(cand.word).len() implies sv[k] != ';' by {
            assert(sv[k] == encoded(cand.word)[k]);
        }
        crate::text::lemma_first_index_unique(sv, ';', encoded(cand.word).len() as int);
        assert(sv.take(encoded(cand.word).len() as int) =~= encoded(cand.word));
    }
    let t = target.shown();
    assert(t == encoded(cand.word));
    let pruned = remove_model(r, target);
    crate::dictionary::common::lemma_key_index_found(nasi, key, 0);
    let new = removed_nasi(nasi, key, cand);
    match key_index_from(nasi, key, 0) {
        None => {
            assert(new == nasi);
        },
        Some(i) => {
            if pruned.candidates.len() == 0 {
                assert(new == nasi.remove(i));
                assert forall|j: int| 0 <= j < new.len() implies new[j].0 != key by {
                    if j < i {
                        assert(new[j] == nasi[j]);
                    } else {
                        assert(new[j] == nasi[j + 1]);
                    }
                }
                crate::dictionary::common::lemma_key_index_none(new, key, 0);
            } else {
                assert(new == nasi.update(i, (key, line_of(pruned, false))));
                crate::dictionary::common::lemma_key_index_at(new, key, 0, i);
                assert(line_for(new, key) == Some(line_of(pruned, false)));
                law_remove_removes(r.candidates, t);
                let w = without_shown(r.candidates, t);
                assert forall|k: int| 0 <= k < w.len() implies plain_candidate(#[trigger] w[k]) by {
                    assert(r.candidates.contains(w[k]));
                }
                crate::candidate::lemma_prune_hints_plain(r.hints, t);
                law_line_reparses(pruned);
                crate::candidate::lemma_parse_run_variants(line_for(nasi, key).unwrap());
                let out = recorded_suite(new, key).candidates;
                assert(out == written_all(w));
                if crate::candidate::shows(out, t) {
                    let k = choose|k: int| 0 <= k < out.len() && out[k].shown() == t;
                    assert(out[k] == written(w[k]));
                    assert(r.candidates.contains(w[k]));
                    let m = choose|m: int| 0 <= m < r.candidates.len() && r.candidates[m] == w[k];
                    assert(r.candidates[m].variant.len() == 0);
                    assert(!crate::candidate::shows(w, t));
                    assert(w[k].shown() == t);
                }
            }
        },
    }
}

/// The okuri-ari entries after removing `cand` from the entry for `key`.
pub open spec fn removed_ari(
    ari: Seq<(Seq<char>, Seq<char>)>,
    key: Seq<char>,
    cand: CandidateModel,
) -> Seq<(Seq<char>, Seq<char>)> {
    pruned_entries(ari, key, remove_model(recorded_suite(ari, key), split_candidate(cand.serialized())))
}

/// The okuri-nasi entries after removing `cand` from the entry for `key`.
pub open spec fn removed_nasi(
    nasi: Seq<(Seq<char>, Seq<char>)>,
    key: Seq<char>,
    cand: CandidateModel,
) -> Seq<(Seq<char>, Seq<char>)> {
    pruned_entries(
        nasi,
        key,
        remove_model(recorded_suite(nasi, key), split_candidate(CandidateModel { word: encoded(cand.word), ..cand }.serialized())),
    )
}

/// The user dictionary.
#[derive(Debug)]
pub struct LocalUserDictionary {
    encoding: Encoding,
    idle_count: u32,
    file: DictionaryFile,
    private_mode: bool,
    dirty: bool,
}

impl LocalUserDictionary {
    pub closed spec fn ari(self) -> Seq<(Seq<char>, Seq<char>)> {
        self.file.ari()
    }

    pub closed spec fn nasi(self) -> Seq<(Seq<char>, Seq<char>)> {
        self.file.nasi()
    }

    /// Changes are neither recorded for saving nor saved.
    pub closed spec fn is_private(self) -> bool {
        self.private_mode
    }

    /// There are changes not yet saved.
    pub closed spec fn is_dirty(self) -> bool {
        self.dirty
    }

    /// Changes since the last save.
    pub closed spec fn changes(self) -> nat {
        self.idle_count as nat
    }

    pub closed spec fn stored_encoding(self) -> Encoding {
        self.encoding
    }

    /// An empty user dictionary.
    pub fn new(encoding: Encoding) -> (d: LocalUserDictionary)
        ensures
            d.ari() == Seq::<(Seq<char>, Seq<char>)>::empty(),
            d.nasi() == Seq::<(Seq<char>, Seq<char>)>::empty(),
            !d.is_private(),
            !d.is_dirty(),
            d.changes() == 0,
            d.stored_encoding() == encoding,
    {
        LocalUserDictionary { encoding, idle_count: 0, file: DictionaryFile::new(), private_mode: false, dirty: false }
    }

    /// A user dictionary holding the entries of a dictionary text. A bare
    /// "#" okuri-nasi entry is meaningless and dropped.
    pub fn from_text(text: &str, encoding: Encoding) -> (d: LocalUserDictionary)
        ensures
            d.ari() == crate::dictionary::file::load_text(text@).okuri_ari,
            d.nasi() == match key_index_from(crate::dictionary::file::load_text(text@).okuri_nasi, seq!['#'], 0) {
                Some(i) => crate::dictionary::file::load_text(text@).okuri_nasi.remove(i),
                None => crate::dictionary::file::load_text(text@).okuri_nasi,
            },
            !d.is_private(),
            !d.is_dirty(),
            d.changes() == 0,
            d.stored_encoding() == encoding,
    {
        let mut file = DictionaryFile::new();
        file.load_from_str(text);
        let mut d = LocalUserDictionary { encoding, idle_count: 0, file, private_mode: false, dirty: false };
        d.fix();
        d
    }

    fn fix(&mut self)
        ensures
            final(self).ari() == old(self).ari(),
            final(self).nasi() == match key_index_from(old(self).nasi(), seq!['#'], 0) {
                Some(i) => old(self).nasi().remove(i),
                None => old(self).nasi(),
            },
            final(self).private_mode == old(self).private_mode,
            final(self).dirty == old(self).dirty,
            final(self).idle_count == old(self).idle_count,
            final(self).encoding == old(self).encoding,
    {
        let hash = "#";
        proof {
            reveal_strlit("#");
        }
        assert(hash@ =~= seq!['#']);
        let container = self.file.okuri_nasi_mut();
        if let Some(pos) = find_entry(container.as_slice(), hash) {
            let ghost before = container@;
            container.remove(pos);
            assert(entries_view(container@) =~= entries_view(before).remove(pos as int));
        }
    }

    /// The entries, for saving.
    pub fn file(&self) -> (f: &DictionaryFile)
        ensures
            f.ari() == self.ari(),
            f.nasi() == self.nasi(),
    {
        &self.file
    }

    pub fn encoding(&self) -> (e: Encoding)
        ensures
            e == self.stored_encoding(),
    {
        self.encoding
    }

    fn update_with(container: &mut Vec<DictionaryEntry>, index: &str, hint: Option<&OkuriHint>, candidate: &Candidate)
        ensures
            entries_view(final(container)@) == updated_entries(
                entries_view(old(container)@),
                index@,
                match hint {
                    Some(h) => update_hint_model(recorded_suite(entries_view(old(container)@), index@), h@),
                    None => SuiteModel {
                        candidates: to_front(recorded_suite(entries_view(old(container)@), index@).candidates, candidate@),
                        ..recorded_suite(entries_view(old(container)@), index@)
                    },
                },
            ),
    {
        let ghost cv = entries_view(container@);
        let mut suite = CandidateSuite::new();
        match find_entry(container.as_slice(), index) {
            Some(pos) => {
                suite.parse(container[pos].1.as_str());
                let ghost before = container@;
                container.remove(pos);
                assert(entries_view(container@) =~= entries_view(before).remove(pos as int));
            },
            None => {},
        }
        assert(suite@ == recorded_suite(cv, index@));
        match hint {
            Some(h) => suite.update_hint(h),
            None => suite.update_candidate(candidate),
        }
        let line = suite.to_line(false);
        let ghost before = container@;
        container.insert(0, (copy_str(index), line));
        assert(entries_view(container@) =~= seq![(index@, line@)] + entries_view(before));
    }

    /// Register a selected candidate, moving it to the front.
    pub fn register(&mut self, entry: &Entry, candidate: &Candidate)
        ensures
            entry.okuri().len() > 0 ==> {
                &&& final(self).ari() == registered_ari(old(self).ari(), entry.key(), entry.okuri(), candidate@)
                &&& final(self).nasi() == old(self).nasi()
            },
            entry.okuri().len() == 0 ==> {
                &&& final(self).nasi() == registered_nasi(old(self).nasi(), entry.key(), candidate@)
                &&& final(self).ari() == old(self).ari()
            },
            final(self).is_dirty(),
            final(self).is_private() == old(self).is_private(),
            final(self).changes() == if old(self).changes() < u32::MAX { old(self).changes() + 1 } else { old(self).changes() },
            final(self).stored_encoding() == old(self).stored_encoding(),
    {
        if entry.is_okuri_ari() {
            let s = candidate.to_string();
            let c = Candidate::new(s.as_str());
            let mut cands: Vec<Candidate> = Vec::new();
            cands.push(c);
            let hint = OkuriHint { okuri: copy_str(entry.okuri_string()), candidates: cands };
            assert(hint@.candidates =~= seq![split_candidate(candidate@.serialized())]);
            Self::update_with(self.file.okuri_ari_mut(), entry.entry_string(), Some(&hint), candidate);
        } else {
            let mut tmp = candidate.duplicate();
            tmp.encode_word();
            Self::update_with(self.file.okuri_nasi_mut(), entry.entry_string(), None, &tmp);
        }
        self.record_change();
    }

    fn record_change(&mut self)
        ensures
            final(self).file == old(self).file,
            final(self).dirty,
            final(self).private_mode == old(self).private_mode,
            final(self).encoding == old(self).encoding,
            final(self).idle_count == if old(self).idle_count < u32::MAX { old(self).idle_count + 1 } else { old(self).idle_count as int },
    {
        self.dirty = true;
        if self.idle_count < u32::MAX {
            self.idle_count += 1;
        }
    }

    fn remove_with(container: &mut Vec<DictionaryEntry>, index: &str, candidate: &Candidate)
        ensures
            entries_view(final(container)@) == pruned_entries(
                entries_view(old(container)@),
                index@,
                remove_model(recorded_suite(entries_view(old(container)@), index@), candidate@),
            ),
    {
        let ghost cv = entries_view(container@);
        match find_entry(container.as_slice(), index) {
            Some(pos) => {
                let mut suite = CandidateSuite::new();
                suite.parse(container[pos].1.as_str());
                assert(suite@ == recorded_suite(cv, index@));
                suite.remove_candidate(candidate);
                let ghost before = container@;
                if suite.is_empty() {
                    container.remove(pos);
                    assert(entries_view(container@) =~= entries_view(before).remove(pos as int));
                } else {
                    let line = suite.to_line(false);
                    let key = copy_str(index);
                    container.set(pos, (key, line));
                    assert(entries_view(container@) =~= entries_view(before).update(pos as int, (index@, line@)));
                }
            },
            None => {},
        }
    }

    /// Remove a candidate from the entry.
    pub fn remove(&mut self, entry: &Entry, candidate: &Candidate)
        ensures
            entry.okuri().len() > 0 ==> {
                &&& final(self).ari() == removed_ari(old(self).ari(), entry.key(), candidate@)
                &&& final(self).nasi() == old(self).nasi()
            },
            entry.okuri().len() == 0 ==> {
                &&& final(self).nasi() == removed_nasi(old(self).nasi(), entry.key(), candidate@)
                &&& final(self).ari() == old(self).ari()
            },
            final(self).is_dirty(),
            final(self).is_private() == old(self).is_private(),
            final(self).changes() == if old(self).changes() < u32::MAX { old(self).changes() + 1 } else { old(self).changes() },
            final(self).stored_encoding() == old(self).stored_encoding(),
    {
        if entry.is_okuri_ari() {
            let s = candidate.to_string();
            let target = Candidate::new(s.as_str());
            Self::remove_with(self.file.okuri_ari_mut(), entry.entry_string(), &target);
        } else {
            let mut tmp = candidate.duplicate();
            tmp.encode_word();
            let s = tmp.to_string();
            let target = Candidate::new(s.as_str());
            Self::remove_with(self.file.okuri_nasi_mut(), entry.entry_string(), &target);
        }
        self.record_change();
    }

    /// Enter or leave private mode. Returns true when the mode changed; the
    /// host then saves pending changes (entering) or reloads the file
    /// (leaving).
    pub fn set_private_mode(&mut self, flag: bool) -> (changed: bool)
        ensures
            changed == (old(self).is_private() != flag),
            final(self).is_private() == flag,
            final(self).ari() == old(self).ari(),
            final(self).nasi() == old(self).nasi(),
            final(self).is_dirty() == old(self).is_dirty(),
            final(self).changes() == old(self).changes(),
            final(self).stored_encoding() == old(self).stored_encoding(),
    {
        let changed = self.private_mode != flag;
        self.private_mode = flag;
        changed
    }

    /// Whether the dictionary should be written now: never in private mode
    /// or without changes; otherwise when forced, after enough changes, or
    /// when the last save is old enough. A due save restarts the change
    /// count.
    pub fn save_due(&mut self, force: bool, seconds_since_save: u64) -> (due: bool)
        ensures
            due == (!old(self).is_private() && old(self).is_dirty() && (force || old(self).changes()
                >= MAX_IDLE_COUNT || seconds_since_save >= MAX_SAVE_INTERVAL_SECS)),
            final(self).changes() == if due { 0 } else { old(self).changes() },
            final(self).ari() == old(self).ari(),
            final(self).nasi() == old(self).nasi(),
            final(self).is_private() == old(self).is_private(),
            final(self).is_dirty() == old(self).is_dirty(),
            final(self).stored_encoding() == old(self).stored_encoding(),
    {
        if self.private_mode || !self.dirty {
            return false;
        }
        if !force && self.idle_count < MAX_IDLE_COUNT && seconds_since_save < MAX_SAVE_INTERVAL_SECS {
            return false;
        }
        self.idle_count = 0;
        true
    }

    /// Record that the entries were written.
    pub fn mark_saved(&mut self)
        ensures
            !final(self).is_dirty(),
            final(self).changes() == old(self).changes(),
            final(self).ari() == old(self).ari(),
            final(self).nasi() == old(self).nasi(),
            final(self).is_private() == old(self).is_private(),
            final(self).stored_encoding() == old(self).stored_encoding(),
    {
        self.dirty = false;
    }

    /// Replace the entries with those of a re-read file.
    pub fn reload_from_text(&mut self, text: &str)
        ensures
            final(self).ari() == crate::dictionary::file::load_text(text@).okuri_ari,
            final(self).nasi() == crate::dictionary::file::load_text(text@).okuri_nasi,
            final(self).is_private() == old(self).is_private(),
            final(self).is_dirty() == old(self).is_dirty(),
            final(self).changes() == old(self).changes(),
            final(self).stored_encoding() == old(self).stored_encoding(),
    {
        self.file.load_from_str(text);
    }

    fn fetch(&self, entry: &Entry, okuri_ari: bool) -> (r: Option<String>)
        ensures
            match r {
                Some(l) => line_for(if okuri_ari { self.ari() } else { self.nasi() }, entry.key()) == Some(l@),
                None => line_for(if okuri_ari { self.ari() } else { self.nasi() }, entry.key()) is None,
            },
    {
        let v = if okuri_ari { self.file.okuri_ari() } else { self.file.okuri_nasi() };
        match find_entry(v, entry.entry_string()) {
            Some(pos) => Some(v[pos].1.clone()),
            None => None,
        }
    }
}

/// What the user dictionary yields for reading `key` with okurigana `okuri`.
pub open spec fn user_lookup(
    ari: Seq<(Seq<char>, Seq<char>)>,
    nasi: Seq<(Seq<char>, Seq<char>)>,
    key: Seq<char>,
    okuri: Seq<char>,
) -> SuiteModel {
    let empty = SuiteModel { candidates: Seq::empty(), hints: Seq::empty() };
    if okuri.len() > 0 {
        merge_suite(empty, lookup_suite(true, okuri, line_for(ari, key)))
    } else {
        decode_suite(merge_suite(empty, lookup_suite(false, okuri, line_for(nasi, key))))
    }
}

impl Dictionary for LocalUserDictionary {
    fn find(&self, entry: &Entry, result: &mut CandidateSuite)
        ensures
            final(result)@ == merge_suite(old(result)@, user_lookup(self.ari(), self.nasi(), entry.key(), entry.okuri())),
    {
        let mut suite = CandidateSuite::new();
        let line = self.fetch(entry, entry.is_okuri_ari());
        find_with(entry, &mut suite, line);
        let ghost looked = suite@;
        assert(looked == merge_suite(
            SuiteModel { candidates: Seq::empty(), hints: Seq::empty() },
            lookup_suite(entry.okuri().len() > 0, entry.okuri(), line_for(if entry.okuri().len() > 0 { self.ari() } else { self.nasi() }, entry.key())),
        ));
        if !entry.is_okuri_ari() {
            let cands = suite.candidates_mut();
            let ghost c0 = cands@;
            assert(models(c0) == looked.candidates);
            let mut i: usize = 0;
            while i < cands.len()
                invariant
                    i <= cands@.len(),
                    cands@.len() == c0.len(),
                    forall|k: int| 0 <= k < i ==> #[trigger] cands@[k]@ == (CandidateModel { word: decoded(c0[k]@.word), ..c0[k]@ }),
                    forall|k: int| i <= k < cands@.len() ==> #[trigger] cands@[k] == c0[k],
                decreases cands.len() - i,
            {
                let mut c = cands.remove(i);
                c.decode_word();
                cands.insert(i, c);
                i += 1;
            }
            assert(models(cands@) =~= decode_suite(looked).candidates);
        }
        result.add_suite(&suite);
    }

    fn reverse_lookup(&self, candidate: &str) -> (r: Option<String>)
        ensures
            match r {
                Some(k) => reverse_key(self.nasi(), candidate@) == Some(k@),
                None => reverse_key(self.nasi(), candidate@) is None,
            },
    {
        reverse_lookup_in(self.file.okuri_nasi(), candidate)
    }

    fn complete(&self, helper: &mut CompletionHelper)
        ensures
            final(helper)@ == old(helper)@.add_all(prefixed_keys(self.nasi(), old(helper)@.entry)),
    {
        let p = chars_of(helper.entry());
        let c = self.file.okuri_nasi();
        let ghost cv = entries_view(c@);
        let ghost h0 = helper@;
        let mut i: usize = 0;
        assert(cv.take(0) =~= Seq::<(Seq<char>, Seq<char>)>::empty());
        while i < c.len()
            invariant
                i <= c@.len(),
                cv == entries_view(c@),
                cv == self.nasi(),
                p@ == h0.entry,
                helper@.entry == h0.entry,
                h0 == old(helper)@,
                helper@ == h0.add_all(prefixed_keys(cv.take(i as int), p@)),
            decreases c.len() - i,
        {
            let key = chars_of(c[i].0.as_str());
            assert(cv.take(i + 1).drop_last() =~= cv.take(i as int));
            assert(cv.take(i + 1).last() == cv[i as int]);
            assert(cv[i as int].0 == key@);
            if chars_starts_with(key.as_slice(), p.as_slice()) {
                helper.add(c[i].0.as_str());
                assert(prefixed_keys(cv.take(i + 1), p@) == prefixed_keys(cv.take(i as int), p@).push(key@));
                assert(prefixed_keys(cv.take(i + 1), p@).drop_last() =~= prefixed_keys(cv.take(i as int), p@));
                if !helper.can_continue() {
                    proof {
                        lemma_prefixed_keys_append(cv.take(i + 1), cv.skip(i + 1), p@);
                        assert(cv.take(i + 1) + cv.skip(i + 1) =~= cv);
                        crate::dictionary::common::lemma_add_all_append(
                            h0,
                            prefixed_keys(cv.take(i + 1), p@),
                            prefixed_keys(cv.skip(i + 1), p@),
                        );
                        crate::dictionary::common::lemma_add_all_full(helper@, prefixed_keys(cv.skip(i + 1), p@));
                    }
                    return;
                }
            }
            i += 1;
        }
        assert(cv.take(c.len() as int) =~= cv);
    }
}

} // verus!
