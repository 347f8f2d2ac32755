//! Read-only SKK dictionaries held in memory, and the lookup rules shared
//! by all file-based dictionaries.

use vstd::prelude::*;
use crate::candidate::{
    add_all, add_hint_models, models, parse_run, CandidateModel, CandidateSuite, HintModel,
    SuiteModel, hint_index, parse_candidates,
};
use crate::dictionary::file::{entries_view, DictionaryEntry, DictionaryFile, Encoding};
use crate::dictionary::order::{entries_sorted, lemma_sorted_le};
use crate::dictionary::{CompletionHelper, Dictionary, HelperModel};
use crate::entry::Entry;
use crate::text::{
    chars_contains, chars_eq, chars_of, compare_chars, has_prefix, chars_starts_with, occurs_in,
    seq_le, seq_lt, lemma_seq_lt_transitive, lemma_seq_lt_total, lemma_seq_lt_irreflexive,
    lemma_seq_lt_asymmetric, lemma_prefix_between, lemma_prefix_not_below,
};

verus! {

/// The first index at or after `i` whose reading is `q`.
pub open spec fn key_index_from(c: Seq<(Seq<char>, Seq<char>)>, q: Seq<char>, i: int) -> Option<int>
    decreases c.len() - i,
{
    if i < 0 || i >= c.len() {
        None
    } else if c[i].0 == q {
        Some(i)
    } else {
        key_index_from(c, q, i + 1)
    }
}

/// The candidate line recorded for reading `q` (the first such entry).
pub open spec fn line_for(c: Seq<(Seq<char>, Seq<char>)>, q: Seq<char>) -> Option<Seq<char>> {
    match key_index_from(c, q, 0) {
        Some(i) => Some(c[i].1),
        None => None,
    }
}

/// The suite parsed from an optional line.
pub open spec fn parsed_suite(line: Option<Seq<char>>) -> SuiteModel {
    match line {
        Some(l) => SuiteModel { candidates: parse_run(l).candidates, hints: parse_run(l).hints },
        None => SuiteModel { candidates: Seq::empty(), hints: Seq::empty() },
    }
}

/// Candidates recorded for exactly the okurigana `okuri`, if there are any.
pub open spec fn strict_candidates(s: SuiteModel, okuri: Seq<char>) -> Option<Seq<CandidateModel>> {
    match hint_index(s.hints, okuri) {
        Some(i) => {
            let c = add_all(Seq::empty(), s.hints[i].candidates);
            if c.len() > 0 { Some(c) } else { None }
        },
        None => None,
    }
}

/// The suite a file dictionary yields for an entry whose line is `line`:
/// okuri-ari lookups prefer the candidates of the exact okurigana.
pub open spec fn lookup_suite(okuri_ari: bool, okuri: Seq<char>, line: Option<Seq<char>>) -> SuiteModel {
    let s = parsed_suite(line);
    if okuri_ari {
        match strict_candidates(s, okuri) {
            Some(c) => SuiteModel { candidates: c, hints: add_hint_models(Seq::empty(), s.hints) },
            None => s,
        }
    } else {
        s
    }
}

/// Merge a suite into a result (candidates, then hints).
pub open spec fn merge_suite(r: SuiteModel, s: SuiteModel) -> SuiteModel {
    SuiteModel { candidates: add_all(r.candidates, s.candidates), hints: add_hint_models(r.hints, s.hints) }
}

/// Merge the lookup of `line` for `entry` into `result`.
pub fn find_with(entry: &Entry, result: &mut CandidateSuite, line: Option<String>)
    ensures
        final(result)@ == merge_suite(
            old(result)@,
            lookup_suite(entry.okuri().len() > 0, entry.okuri(), match line { Some(l) => Some(l@), None => None }),
        ),
{
    let mut suite = CandidateSuite::new();
    if let Some(l) = &line {
        suite.parse(l.as_str());
    }
    if entry.is_okuri_ari() {
        match suite.find_okuri_strictly(entry.okuri_string()) {
            Some(mut strict) => {
                strict.add_hints(suite.hints());
                suite = strict;
            },
            None => {},
        }
    }
    result.add_suite(&suite);
}

/// First index whose reading is not below `q`, in a sorted list.
pub fn lower_bound(c: &[DictionaryEntry], q: &[char]) -> (r: usize)
    requires
        entries_sorted(c@),
    ensures
        r <= c@.len(),
        forall|k: int| 0 <= k < r ==> seq_lt(#[trigger] c@[k].0@, q@),
        forall|k: int| r <= k < c@.len() ==> !seq_lt(#[trigger] c@[k].0@, q@),
{
    let mut lo: usize = 0;
    let mut hi: usize = c.len();
    while lo < hi
        invariant
            lo <= hi <= c@.len(),
            entries_sorted(c@),
            forall|k: int| 0 <= k < lo ==> seq_lt(#[trigger] c@[k].0@, q@),
            forall|k: int| hi <= k < c@.len() ==> !seq_lt(#[trigger] c@[k].0@, q@),
        decreases hi - lo,
    {
        let mid = lo + (hi - lo) / 2;
        let key = chars_of(c[mid].0.as_str());
        if compare_chars(key.as_slice(), q) == -1 {
            assert forall|k: int| 0 <= k < mid + 1 implies seq_lt(#[trigger] c@[k].0@, q@) by {
                if k >= lo {
                    lemma_sorted_le(c@, k, mid as int);
                    if c@[k].0@ != c@[mid as int].0@ {
                        lemma_seq_lt_transitive(c@[k].0@, c@[mid as int].0@, q@);
                    }
                }
            }
            lo = mid + 1;
        } else {
            assert forall|k: int| mid <= k < c@.len() implies !seq_lt(#[trigger] c@[k].0@, q@) by {
                if k < hi {
                    lemma_sorted_le(c@, mid as int, k);
                    if seq_lt(c@[k].0@, q@) {
                        if c@[mid as int].0@ != c@[k].0@ {
                            lemma_seq_lt_transitive(c@[mid as int].0@, c@[k].0@, q@);
                        }
                    }
                }
            }
            hi = mid;
        }
    }
    lo
}

pub proof fn lemma_key_index_none(c: Seq<(Seq<char>, Seq<char>)>, q: Seq<char>, i: int)
    requires
        0 <= i,
        forall|k: int| i <= k < c.len() ==> c[k].0 != q,
    ensures
        key_index_from(c, q, i) is None,
    decreases c.len() - i,
{
    if i < c.len() {
        lemma_key_index_none(c, q, i + 1);
    }
}

pub proof fn lemma_key_index_at(c: Seq<(Seq<char>, Seq<char>)>, q: Seq<char>, i: int, k: int)
    requires
        0 <= i <= k < c.len(),
        c[k].0 == q,
        forall|j: int| i <= j < k ==> c[j].0 != q,
    ensures
        key_index_from(c, q, i) == Some(k),
    decreases k - i,
{
    if i < k {
        lemma_key_index_at(c, q, i + 1, k);
    }
}

/// The entry found for a reading has it, and no entry before it does.
pub proof fn lemma_key_index_found(c: Seq<(Seq<char>, Seq<char>)>, q: Seq<char>, i: int)
    requires
        0 <= i,
    ensures
        key_index_from(c, q, i) matches Some(k) ==> i <= k < c.len() && c[k].0 == q && forall|j: int|
            i <= j < k ==> c[j].0 != q,
        key_index_from(c, q, i) is None ==> forall|j: int| i <= j < c.len() ==> c[j].0 != q,
    decreases c.len() - i,
{
    if i < c.len() && c[i].0 != q {
        lemma_key_index_found(c, q, i + 1);
    }
}

/// The line recorded for a reading, by binary search in a sorted list.
pub fn fetch(c: &[DictionaryEntry], query: &str) -> (r: Option<String>)
    requires
        entries_sorted(c@),
    ensures
        match r {
            Some(l) => line_for(entries_view(c@), query@) == Some(l@),
            None => line_for(entries_view(c@), query@) is None,
        },
{
    let q = chars_of(query);
    let lb = lower_bound(c, q.as_slice());
    let ghost cv = entries_view(c@);
    if lb < c.len() {
        let key = chars_of(c[lb].0.as_str());
        if chars_eq(key.as_slice(), q.as_slice()) {
            proof {
                assert(cv[lb as int].0 == q@);
                assert forall|j: int| 0 <= j < lb implies cv[j].0 != q@ by {
                    assert(seq_lt(c@[j].0@, q@));
                    lemma_seq_lt_irreflexive(q@);
                }
                lemma_key_index_at(cv, q@, 0, lb as int);
            }
            return Some(c[lb].1.clone());
        }
        proof {
            assert forall|k: int| 0 <= k < cv.len() implies cv[k].0 != q@ by {
                if k < lb {
                    assert(seq_lt(c@[k].0@, q@));
                    lemma_seq_lt_irreflexive(q@);
                } else if k > lb {
                    lemma_sorted_le(c@, lb as int, k);
                    assert(!seq_lt(c@[lb as int].0@, q@));
                    if cv[k].0 == q@ {
                        lemma_seq_lt_total(c@[lb as int].0@, q@);
                    }
                }
            }
            lemma_key_index_none(cv, q@, 0);
        }
        return None;
    }
    proof {
        assert forall|k: int| 0 <= k < cv.len() implies cv[k].0 != q@ by {
            assert(seq_lt(c@[k].0@, q@));
            lemma_seq_lt_irreflexive(q@);
        }
        lemma_key_index_none(cv, q@, 0);
    }
    None
}

/// The run of readings from `start` on that begin with `p`.
pub open spec fn prefix_run(c: Seq<(Seq<char>, Seq<char>)>, start: int, p: Seq<char>) -> Seq<Seq<char>>
    decreases c.len() - start,
{
    if start < 0 || start >= c.len() || !has_prefix(c[start].0, p) {
        Seq::empty()
    } else {
        seq![c[start].0] + prefix_run(c, start + 1, p)
    }
}

pub proof fn lemma_add_all_append(h: HelperModel, a: Seq<Seq<char>>, b: Seq<Seq<char>>)
    ensures
        h.add_all(a + b) == h.add_all(a).add_all(b),
    decreases b.len(),
{
    if b.len() == 0 {
        assert(a + b =~= a);
    } else {
        lemma_add_all_append(h, a, b.drop_last());
        assert((a + b).drop_last() =~= a + b.drop_last());
    }
}

pub proof fn lemma_add_all_full(h: HelperModel, b: Seq<Seq<char>>)
    requires
        !h.can_continue(),
    ensures
        h.add_all(b) == h,
    decreases b.len(),
{
    if b.len() > 0 {
        lemma_add_all_full(h, b.drop_last());
    }
}

proof fn lemma_prefix_run_step(c: Seq<(Seq<char>, Seq<char>)>, s: int, k: int, p: Seq<char>)
    requires
        0 <= s <= k < c.len(),
        forall|j: int| s <= j <= k ==> has_prefix(#[trigger] c[j].0, p),
    ensures
        prefix_run(c, s, p).len() >= k - s + 1,
        prefix_run(c, s, p).take(k - s + 1) == prefix_run(c, s, p).take(k - s).push(c[k].0),
    decreases k - s,
{
    if s < k {
        lemma_prefix_run_step(c, s + 1, k, p);
        assert(has_prefix(c[s].0, p));
        let r = prefix_run(c, s + 1, p);
        assert(prefix_run(c, s, p) == seq![c[s].0] + r);
        assert(prefix_run(c, s, p).take(k - s) =~= seq![c[s].0] + r.take(k - s - 1));
        assert(prefix_run(c, s, p).take(k - s + 1) =~= seq![c[s].0] + r.take(k - s));
    } else {
        assert(has_prefix(c[k].0, p));
        assert(prefix_run(c, s, p) == seq![c[k].0] + prefix_run(c, k + 1, p));
        assert(prefix_run(c, s, p).take(0) =~= Seq::<Seq<char>>::empty());
        assert(prefix_run(c, s, p).take(1) =~= seq![c[k].0]);
    }
}

pub proof fn lemma_prefixed_keys_append(a: Seq<(Seq<char>, Seq<char>)>, b: Seq<(Seq<char>, Seq<char>)>, p: Seq<char>)
    ensures
        prefixed_keys(a + b, p) == prefixed_keys(a, p) + prefixed_keys(b, p),
    decreases b.len(),
{
    if b.len() == 0 {
        assert(a + b =~= a);
        assert(prefixed_keys(a, p) + prefixed_keys(b, p) =~= prefixed_keys(a, p));
    } else {
        lemma_prefixed_keys_append(a, b.drop_last(), p);
        assert((a + b).drop_last() =~= a + b.drop_last());
        assert((a + b).last() == b.last());
        if has_prefix(b.last().0, p) {
            assert(prefixed_keys(a, p) + prefixed_keys(b, p) =~= (prefixed_keys(a, p) + prefixed_keys(b.drop_last(), p)).push(b.last().0));
        }
    }
}

/// The readings of `c` that begin with `p`, in order.
pub open spec fn prefixed_keys(c: Seq<(Seq<char>, Seq<char>)>, p: Seq<char>) -> Seq<Seq<char>>
    decreases c.len(),
{
    if c.len() == 0 {
        Seq::empty()
    } else if has_prefix(c.last().0, p) {
        prefixed_keys(c.drop_last(), p).push(c.last().0)
    } else {
        prefixed_keys(c.drop_last(), p)
    }
}

proof fn lemma_run_facts(c: Seq<(Seq<char>, Seq<char>)>, s: int, p: Seq<char>)
    requires
        0 <= s <= c.len(),
    ensures
        s + prefix_run(c, s, p).len() <= c.len(),
        forall|k: int| s <= k < s + prefix_run(c, s, p).len() ==> has_prefix(#[trigger] c[k].0, p)
            && prefix_run(c, s, p)[k - s] == c[k].0,
        s + prefix_run(c, s, p).len() < c.len() ==> !has_prefix(c[s + prefix_run(c, s, p).len()].0, p),
    decreases c.len() - s,
{
    if s < c.len() && has_prefix(c[s].0, p) {
        lemma_run_facts(c, s + 1, p);
        let r = prefix_run(c, s + 1, p);
        assert(prefix_run(c, s, p) == seq![c[s].0] + r);
        assert forall|k: int| s <= k < s + prefix_run(c, s, p).len() implies has_prefix(#[trigger] c[k].0, p)
            && prefix_run(c, s, p)[k - s] == c[k].0 by {
            if k > s {
                assert(prefix_run(c, s, p)[k - s] == r[k - s - 1]);
            }
        }
    }
}

proof fn lemma_keys_take(c: Seq<(Seq<char>, Seq<char>)>, lb: int, p: Seq<char>, n: int)
    requires
        0 <= lb <= c.len(),
        0 <= n <= c.len(),
        forall|i: int, j: int| 0 <= i <= j < c.len() ==> seq_le(#[trigger] c[i].0, #[trigger] c[j].0),
        forall|k: int| 0 <= k < lb ==> seq_lt(#[trigger] c[k].0, p),
        forall|k: int| lb <= k < c.len() ==> !seq_lt(#[trigger] c[k].0, p),
    ensures
        prefixed_keys(c.take(n), p) == prefix_run(c, lb, p).take(
            if n <= lb { 0 } else if n - lb <= prefix_run(c, lb, p).len() { n - lb } else { prefix_run(c, lb, p).len() as int },
        ),
    decreases n,
{
    let r = prefix_run(c, lb, p);
    lemma_run_facts(c, lb, p);
    if n == 0 {
        assert(c.take(0) =~= Seq::<(Seq<char>, Seq<char>)>::empty());
        assert(r.take(0) =~= Seq::<Seq<char>>::empty());
    } else {
        let m = n - 1;
        lemma_keys_take(c, lb, p, m);
        assert(c.take(n).drop_last() =~= c.take(m));
        assert(c.take(n).last() == c[m]);
        let e = lb + r.len();
        if m < lb {
            if has_prefix(c[m].0, p) {
                lemma_prefix_not_below(c[m].0, p);
            }
        } else if m < e {
            assert(has_prefix(c[m].0, p));
            assert(r.take(m - lb + 1) =~= r.take(m - lb).push(r[m - lb]));
        } else {
            if has_prefix(c[m].0, p) {
                assert(e < c.len());
                assert(!has_prefix(c[e].0, p));
                assert(!seq_lt(c[e].0, p));
                lemma_seq_lt_total(c[e].0, p);
                assert(seq_le(c[e].0, c[m].0));
                assert(p.take(p.len() as int) =~= p);
                lemma_prefix_between(p, c[e].0, c[m].0, p);
            }
        }
    }
}

/// In a sorted list, the run of readings beginning with `p` from the lower
/// bound of `p` on holds every reading beginning with `p`.
proof fn lemma_sorted_run(c: Seq<(Seq<char>, Seq<char>)>, lb: int, p: Seq<char>)
    requires
        0 <= lb <= c.len(),
        forall|i: int, j: int| 0 <= i <= j < c.len() ==> seq_le(#[trigger] c[i].0, #[trigger] c[j].0),
        forall|k: int| 0 <= k < lb ==> seq_lt(#[trigger] c[k].0, p),
        forall|k: int| lb <= k < c.len() ==> !seq_lt(#[trigger] c[k].0, p),
    ensures
        prefix_run(c, lb, p) == prefixed_keys(c, p),
{
    lemma_run_facts(c, lb, p);
    lemma_keys_take(c, lb, p, c.len() as int);
    assert(c.take(c.len() as int) =~= c);
    assert(prefix_run(c, lb, p).take(prefix_run(c, lb, p).len() as int) =~= prefix_run(c, lb, p));
}

/// Offer the readings of a sorted list that begin with the helper's entry.
pub open spec fn completes_from(c: Seq<DictionaryEntry>, h0: HelperModel, h1: HelperModel, lb: int) -> bool {
    &&& 0 <= lb <= c.len()
    &&& forall|k: int| 0 <= k < lb ==> seq_lt(#[trigger] c[k].0@, h0.entry)
    &&& forall|k: int| lb <= k < c.len() ==> !seq_lt(#[trigger] c[k].0@, h0.entry)
    &&& h1 == h0.add_all(prefix_run(entries_view(c), lb, h0.entry))
}

proof fn lemma_prefix_run_items(c: Seq<(Seq<char>, Seq<char>)>, s: int, p: Seq<char>)
    requires
        0 <= s,
    ensures
        s + prefix_run(c, s, p).len() <= c.len() || prefix_run(c, s, p).len() == 0,
        forall|i: int|
            0 <= i < prefix_run(c, s, p).len() ==> #[trigger] prefix_run(c, s, p)[i] == c[s + i].0 && has_prefix(
                prefix_run(c, s, p)[i],
                p,
            ),
    decreases c.len() - s,
{
    if s < c.len() && has_prefix(c[s].0, p) {
        lemma_prefix_run_items(c, s + 1, p);
        let r = prefix_run(c, s + 1, p);
        let q = prefix_run(c, s, p);
        assert(q == seq![c[s].0] + r);
        assert forall|i: int| 0 <= i < q.len() implies #[trigger] q[i] == c[s + i].0 && has_prefix(q[i], p) by {
            if i > 0 {
                assert(q[i] == r[i - 1]);
            }
        }
    } else {
        assert(prefix_run(c, s, p) =~= Seq::<Seq<char>>::empty());
    }
}

proof fn lemma_add_all_ordered(h: HelperModel, cs: Seq<Seq<char>>)
    requires
        forall|i: int, j: int| 0 <= i <= j < cs.len() ==> seq_le(#[trigger] cs[i], #[trigger] cs[j]),
    ensures
        h.add_all(cs).entry == h.entry,
        h.result.len() <= h.add_all(cs).result.len(),
        h.add_all(cs).result.take(h.result.len() as int) == h.result,
        forall|i: int|
            h.result.len() <= i < h.add_all(cs).result.len() ==> #[trigger] h.add_all(cs).result[i] != h.entry
                && exists|k: int| 0 <= k < cs.len() && cs[k] == h.add_all(cs).result[i],
        forall|i: int, j: int|
            h.result.len() <= i < j < h.add_all(cs).result.len() ==> seq_lt(
                #[trigger] h.add_all(cs).result[i],
                #[trigger] h.add_all(cs).result[j],
            ),
    decreases cs.len(),
{
    let n0 = h.result.len() as int;
    if cs.len() == 0 {
        assert(h.result.take(n0) =~= h.result);
        return;
    }
    let d = cs.drop_last();
    let x = cs.last();
    assert forall|i: int, j: int| 0 <= i <= j < d.len() implies seq_le(#[trigger] d[i], #[trigger] d[j]) by {
        assert(d[i] == cs[i] && d[j] == cs[j]);
    }
    lemma_add_all_ordered(h, d);
    let prev = h.add_all(d);
    let r = prev.add(x);
    assert(h.add_all(cs) == r);
    if r.result.len() > prev.result.len() {
        let m = prev.result.len() as int;
        assert(r.result == prev.result.push(x));
        assert(!prev.result.contains(x) && x != prev.entry);
        assert(r.result.take(n0) =~= prev.result.take(n0));
        assert forall|i: int| n0 <= i < r.result.len() implies #[trigger] r.result[i] != h.entry && exists|k: int|
            0 <= k < cs.len() && cs[k] == r.result[i] by {
            if i < m {
                assert(r.result[i] == prev.result[i]);
                assert(prev.result[i] != h.entry);
                let k = choose|k: int| 0 <= k < d.len() && d[k] == prev.result[i];
                assert(cs[k] == r.result[i]);
            } else {
                assert(cs[cs.len() - 1] == r.result[i]);
            }
        }
        assert forall|i: int, j: int| n0 <= i < j < r.result.len() implies seq_lt(
            #[trigger] r.result[i],
            #[trigger] r.result[j],
        ) by {
            assert(r.result[i] == prev.result[i]);
            if j < m {
                assert(r.result[j] == prev.result[j]);
            } else {
                assert(prev.result[i] != h.entry);
                let k = choose|k: int| 0 <= k < d.len() && d[k] == prev.result[i];
                assert(seq_le(cs[k], cs[cs.len() - 1]));
                assert(prev.result.contains(prev.result[i]));
                assert(prev.result[i] != x);
            }
        }
    } else {
        assert(r == prev);
        assert forall|i: int| n0 <= i < r.result.len() implies #[trigger] r.result[i] != h.entry && exists|k: int|
            0 <= k < cs.len() && cs[k] == r.result[i] by {
            assert(prev.result[i] != h.entry);
            let k = choose|k: int| 0 <= k < d.len() && d[k] == prev.result[i];
            assert(cs[k] == r.result[i]);
        }
    }
}

/// Completion from a sorted list keeps what the helper held, then offers
/// readings that begin with the entry, as the list holds them: never the
/// entry itself, each once, and in increasing order.
pub proof fn law_completion_in_order(c: Seq<DictionaryEntry>, h0: HelperModel, h1: HelperModel, lb: int)
    requires
        entries_sorted(c),
        completes_from(c, h0, h1, lb),
    ensures
        h1 == h0.add_all(prefixed_keys(entries_view(c), h0.entry)),
        h0.result.len() <= h1.result.len(),
        h1.result.take(h0.result.len() as int) == h0.result,
        forall|i: int|
            h0.result.len() <= i < h1.result.len() ==> has_prefix(#[trigger] h1.result[i], h0.entry) && h1.result[i]
                != h0.entry,
        forall|i: int, j: int|
            h0.result.len() <= i < j < h1.result.len() ==> seq_lt(#[trigger] h1.result[i], #[trigger] h1.result[j]),
{
    let cv = entries_view(c);
    let p = h0.entry;
    assert forall|i: int, j: int| 0 <= i <= j < cv.len() implies seq_le(#[trigger] cv[i].0, #[trigger] cv[j].0) by {
        lemma_sorted_le(c, i, j);
    }
    assert forall|k: int| 0 <= k < lb implies seq_lt(#[trigger] cv[k].0, p) by {
        assert(cv[k].0 == c[k].0@);
    }
    assert forall|k: int| lb <= k < cv.len() implies !seq_lt(#[trigger] cv[k].0, p) by {
        assert(cv[k].0 == c[k].0@);
    }
    lemma_sorted_run(cv, lb, p);
    let run = prefix_run(cv, lb, p);
    lemma_prefix_run_items(cv, lb, p);
    assert forall|i: int, j: int| 0 <= i <= j < run.len() implies seq_le(#[trigger] run[i], #[trigger] run[j]) by {
        assert(run[i] == cv[lb + i].0 && run[j] == cv[lb + j].0);
        assert(lb + j < cv.len());
    }
    lemma_add_all_ordered(h0, run);
    assert forall|i: int| h0.result.len() <= i < h1.result.len() implies has_prefix(#[trigger] h1.result[i], p)
        && h1.result[i] != p by {
        let k = choose|k: int| 0 <= k < run.len() && run[k] == h1.result[i];
        assert(has_prefix(run[k], p));
    }
}

/// Offer the readings of a sorted list that begin with the helper's entry:
/// the run of readings from the lower bound of the entry on.
pub fn complete_sorted(c: &[DictionaryEntry], helper: &mut CompletionHelper)
    requires
        entries_sorted(c@),
    ensures
        exists|lb: int| completes_from(c@, old(helper)@, final(helper)@, lb),
{
    let p = chars_of(helper.entry());
    let lb = lower_bound(c, p.as_slice());
    let ghost cv = entries_view(c@);
    let ghost h0 = helper@;
    assert(h0 == old(helper)@);
    let ghost run = prefix_run(cv, lb as int, p@);
    let mut k: usize = lb;
    assert(run.take(0) =~= Seq::<Seq<char>>::empty());
    while k < c.len()
        invariant
            lb <= k <= c@.len(),
            cv == entries_view(c@),
            run == prefix_run(cv, lb as int, p@),
            helper@.entry == p@,
            h0.entry == p@,
            h0 == old(helper)@,
            forall|j: int| 0 <= j < lb ==> seq_lt(#[trigger] c@[j].0@, p@),
            forall|j: int| lb <= j < c@.len() ==> !seq_lt(#[trigger] c@[j].0@, p@),
            forall|j: int| lb <= j < k ==> has_prefix(#[trigger] cv[j].0, p@),
            helper@ == h0.add_all(run.take(k - lb)),
        decreases c.len() - k,
    {
        let key = chars_of(c[k].0.as_str());
        if !chars_starts_with(key.as_slice(), p.as_slice()) {
            proof {
                assert(cv[k as int].0 == key@);
                lemma_run_ends(cv, lb as int, k as int, p@);
                assert(run.take(k - lb) == run);
                assert(helper@ == h0.add_all(run));
                assert(forall|j: int| 0 <= j < lb ==> seq_lt(#[trigger] c@[j].0@, h0.entry));
                assert(forall|j: int| lb <= j < c@.len() ==> !seq_lt(#[trigger] c@[j].0@, h0.entry));
                assert(completes_from(c@, h0, helper@, lb as int));
            }
            return;
        }
        proof {
            assert(cv[k as int].0 == key@);
            lemma_prefix_run_step(cv, lb as int, k as int, p@);
        }
        helper.add(c[k].0.as_str());
        proof {
            let t = run.take(k - lb + 1);
            assert(t == run.take(k - lb).push(cv[k as int].0));
            assert(t.drop_last() =~= run.take(k - lb));
            assert(t.last() == cv[k as int].0);
            assert(cv[k as int].0 == c@[k as int].0@);
            assert(helper@ == h0.add_all(t));
        }
        k += 1;
        if !helper.can_continue() {
            proof {
                lemma_run_split(cv, lb as int, k as int, p@);
                lemma_add_all_append(h0, run.take(k - lb), run.skip(k - lb));
                assert(run =~= run.take(k - lb) + run.skip(k - lb));
                lemma_add_all_full(helper@, run.skip(k - lb));
                assert(completes_from(c@, h0, helper@, lb as int));
            }
            return;
        }
    }
    proof {
        lemma_run_ends(cv, lb as int, k as int, p@);
        assert(completes_from(c@, h0, helper@, lb as int));
    }
}

proof fn lemma_run_ends(c: Seq<(Seq<char>, Seq<char>)>, s: int, k: int, p: Seq<char>)
    requires
        0 <= s <= k <= c.len(),
        forall|j: int| s <= j < k ==> has_prefix(#[trigger] c[j].0, p),
        k == c.len() || !has_prefix(c[k].0, p),
    ensures
        prefix_run(c, s, p).len() == k - s,
        prefix_run(c, s, p).take(k - s) == prefix_run(c, s, p),
    decreases k - s,
{
    if s < k {
        lemma_run_ends(c, s + 1, k, p);
        assert(has_prefix(c[s].0, p));
        assert(prefix_run(c, s, p) == seq![c[s].0] + prefix_run(c, s + 1, p));
    } else {
        assert(prefix_run(c, s, p) =~= Seq::<Seq<char>>::empty());
    }
    assert(prefix_run(c, s, p).take(k - s) =~= prefix_run(c, s, p));
}

proof fn lemma_run_split(c: Seq<(Seq<char>, Seq<char>)>, s: int, k: int, p: Seq<char>)
    requires
        0 <= s <= k,
    ensures
        prefix_run(c, s, p).len() >= 0,
{
}

/// The first index at or after `i` of an entry whose line holds "/cand" and
/// whose parsed candidates include the word `cand`.
pub open spec fn reverse_index_from(c: Seq<(Seq<char>, Seq<char>)>, cand: Seq<char>, i: int) -> Option<int>
    decreases c.len() - i,
{
    if i < 0 || i >= c.len() {
        None
    } else if occurs_in(c[i].1, seq!['/'] + cand) && exists|j: int|
        0 <= j < parse_run(c[i].1).candidates.len() && #[trigger] parse_run(c[i].1).candidates[j].word == cand {
        Some(i)
    } else {
        reverse_index_from(c, cand, i + 1)
    }
}

/// The reading whose line lists `cand`.
pub open spec fn reverse_key(c: Seq<(Seq<char>, Seq<char>)>, cand: Seq<char>) -> Option<Seq<char>> {
    match reverse_index_from(c, cand, 0) {
        Some(i) => Some(c[i].0),
        None => None,
    }
}

/// Look up the reading for a candidate word.
pub fn reverse_lookup_in(c: &[DictionaryEntry], candidate: &str) -> (r: Option<String>)
    ensures
        match r {
            Some(k) => reverse_key(entries_view(c@), candidate@) == Some(k@),
            None => reverse_key(entries_view(c@), candidate@) is None,
        },
{
    let ghost cv = entries_view(c@);
    let cand = chars_of(candidate);
    let mut needle: Vec<char> = Vec::new();
    needle.push('/');
    crate::text::push_chars(&mut needle, cand.as_slice());
    assert(needle@ =~= seq!['/'] + cand@);
    let mut i: usize = 0;
    while i < c.len()
        invariant
            i <= c@.len(),
            cv == entries_view(c@),
            needle@ == seq!['/'] + candidate@,
            cand@ == candidate@,
            reverse_index_from(cv, candidate@, 0) == reverse_index_from(cv, candidate@, i as int),
        decreases c.len() - i,
    {
        let line = chars_of(c[i].1.as_str());
        assert(cv[i as int].1 == line@);
        if chars_contains(line.as_slice(), needle.as_slice()) {
            let (cands, _hints) = parse_candidates(c[i].1.as_str());
            let mut j: usize = 0;
            while j < cands.len()
                invariant
                    i < c@.len(),
                    cv == entries_view(c@),
                    cand@ == candidate@,
                    reverse_index_from(cv, candidate@, 0) == reverse_index_from(cv, candidate@, i as int),
                    occurs_in(cv[i as int].1, seq!['/'] + candidate@),
                    j <= cands@.len(),
                    models(cands@) == parse_run(c@[i as int].1@).candidates,
                    forall|m: int| 0 <= m < j ==> #[trigger] cands@[m]@.word != cand@,
                decreases cands.len() - j,
            {
                let w = chars_of(cands[j].word());
                if chars_eq(w.as_slice(), cand.as_slice()) {
                    assert(models(cands@)[j as int].word == cand@);
                    assert(parse_run(cv[i as int].1).candidates[j as int].word == candidate@);
                    assert(reverse_index_from(cv, candidate@, i as int) == Some(i as int));
                    return Some(c[i].0.clone());
                }
                j += 1;
            }
            assert(!exists|m: int| 0 <= m < parse_run(cv[i as int].1).candidates.len()
                && #[trigger] parse_run(cv[i as int].1).candidates[m].word == candidate@) by {
                if exists|m: int| 0 <= m < parse_run(cv[i as int].1).candidates.len()
                    && #[trigger] parse_run(cv[i as int].1).candidates[m].word == candidate@ {
                    let m = choose|m: int| 0 <= m < parse_run(cv[i as int].1).candidates.len()
                        && #[trigger] parse_run(cv[i as int].1).candidates[m].word == candidate@;
                    assert(models(cands@)[m] == cands@[m]@);
                }
            }
        }
        i += 1;
    }
    None
}

/// An SKK dictionary held in memory, sorted by reading.
#[derive(Debug)]
pub struct CommonDictionary {
    encoding: Encoding,
    file: DictionaryFile,
}

impl CommonDictionary {
    #[verifier::type_invariant]
    spec fn sorted(self) -> bool {
        entries_sorted(self.file.ari_raw()) && entries_sorted(self.file.nasi_raw())
    }

    /// The encoding the text was stored in.
    pub closed spec fn stored_encoding(self) -> Encoding {
        self.encoding
    }

    /// The okuri-ari entries, sorted by reading.
    pub closed spec fn ari(self) -> Seq<(Seq<char>, Seq<char>)> {
        self.file.ari()
    }

    /// The okuri-nasi entries, sorted by reading.
    pub closed spec fn nasi(self) -> Seq<(Seq<char>, Seq<char>)> {
        self.file.nasi()
    }

    /// An empty dictionary.
    pub fn new(encoding: Encoding) -> (d: CommonDictionary)
        ensures
            d.ari() == Seq::<(Seq<char>, Seq<char>)>::empty(),
            d.nasi() == Seq::<(Seq<char>, Seq<char>)>::empty(),
    {
        let file = DictionaryFile::new();
        assert(file.ari().len() == 0 && file.nasi().len() == 0);
        assert(file.ari_raw() =~= Seq::<DictionaryEntry>::empty());
        assert(file.nasi_raw() =~= Seq::<DictionaryEntry>::empty());
        CommonDictionary { encoding, file }
    }

    /// A dictionary holding the entries of an SKK-JISYO text, in reading
    /// order.
    pub fn from_text(text: &str) -> (d: CommonDictionary)
        ensures
            same_entries(d.ari(), load_text_ari(text@)),
            same_entries(d.nasi(), load_text_nasi(text@)),
    {
        Self::from_text_with(text, Encoding::Utf8)
    }

    /// Like `from_text`, remembering the encoding the text was stored in.
    pub fn from_text_with(text: &str, encoding: Encoding) -> (d: CommonDictionary)
        ensures
            same_entries(d.ari(), load_text_ari(text@)),
            same_entries(d.nasi(), load_text_nasi(text@)),
    {
        let mut file = DictionaryFile::new();
        file.load_from_str(text);
        let ghost a0 = file.ari_raw();
        let ghost n0 = file.nasi_raw();
        file.sort();
        proof {
            lemma_view_multiset(a0, file.ari_raw());
            lemma_view_multiset(n0, file.nasi_raw());
        }
        CommonDictionary { encoding, file }
    }

    /// The encoding the dictionary text was stored in.
    pub fn encoding(&self) -> (e: Encoding)
        ensures
            e == self.stored_encoding(),
    {
        self.encoding
    }

    pub fn file(&self) -> (f: &DictionaryFile)
        ensures
            f.ari() == self.ari(),
            f.nasi() == self.nasi(),
    {
        &self.file
    }

    fn find_okuri_ari(&self, query: &str) -> (r: Option<String>)
        ensures
            match r {
                Some(l) => line_for(self.ari(), query@) == Some(l@),
                None => line_for(self.ari(), query@) is None,
            },
    {
        proof {
            use_type_invariant(self);
        }
        fetch(self.file.okuri_ari(), query)
    }

    fn find_okuri_nasi(&self, query: &str) -> (r: Option<String>)
        ensures
            match r {
                Some(l) => line_for(self.nasi(), query@) == Some(l@),
                None => line_for(self.nasi(), query@) is None,
            },
    {
        proof {
            use_type_invariant(self);
        }
        fetch(self.file.okuri_nasi(), query)
    }
}

/// The okuri-ari entries of a text.
pub open spec fn load_text_ari(s: Seq<char>) -> Seq<(Seq<char>, Seq<char>)> {
    crate::dictionary::file::load_text(s).okuri_ari
}

/// The okuri-nasi entries of a text.
pub open spec fn load_text_nasi(s: Seq<char>) -> Seq<(Seq<char>, Seq<char>)> {
    crate::dictionary::file::load_text(s).okuri_nasi
}

/// Two entry lists hold the same entries (in any order).
pub open spec fn same_entries(a: Seq<(Seq<char>, Seq<char>)>, b: Seq<(Seq<char>, Seq<char>)>) -> bool {
    &&& a.len() == b.len()
    &&& forall|e: (Seq<char>, Seq<char>)| a.contains(e) <==> b.contains(e)
}

proof fn lemma_view_multiset(a: Seq<DictionaryEntry>, b: Seq<DictionaryEntry>)
    requires
        a.to_multiset() == b.to_multiset(),
    ensures
        same_entries(entries_view(b), entries_view(a)),
{
    broadcast use vstd::seq_lib::group_to_multiset_ensures;
    a.to_multiset_ensures();
    b.to_multiset_ensures();
    assert(a.len() == b.len());
    assert forall|e: (Seq<char>, Seq<char>)| entries_view(a).contains(e) implies entries_view(b).contains(e) by {
        let i = choose|i: int| 0 <= i < entries_view(a).len() && entries_view(a)[i] == e;
        assert(a.contains(a[i]));
        assert(b.to_multiset().count(a[i]) > 0);
        assert(b.contains(a[i]));
        let j = choose|j: int| 0 <= j < b.len() && b[j] == a[i];
        assert(entries_view(b)[j] == e);
    }
    assert forall|e: (Seq<char>, Seq<char>)| entries_view(b).contains(e) implies entries_view(a).contains(e) by {
        let i = choose|i: int| 0 <= i < entries_view(b).len() && entries_view(b)[i] == e;
        assert(b.contains(b[i]));
        assert(a.to_multiset().count(b[i]) > 0);
        assert(a.contains(b[i]));
        let j = choose|j: int| 0 <= j < a.len() && a[j] == b[i];
        assert(entries_view(a)[j] == e);
    }
}

/// The result of looking reading `key` with okurigana `okuri` up in entries
/// `ari` / `nasi`.
pub open spec fn file_lookup(
    ari: Seq<(Seq<char>, Seq<char>)>,
    nasi: Seq<(Seq<char>, Seq<char>)>,
    key: Seq<char>,
    okuri: Seq<char>,
) -> SuiteModel {
    if okuri.len() > 0 {
        lookup_suite(true, okuri, line_for(ari, key))
    } else {
        lookup_suite(false, okuri, line_for(nasi, key))
    }
}

impl Dictionary for CommonDictionary {
    fn find(&self, entry: &Entry, result: &mut CandidateSuite)
        ensures
            final(result)@ == merge_suite(old(result)@, file_lookup(self.ari(), self.nasi(), entry.key(), entry.okuri())),
    {
        let key = entry.entry_string();
        let line = if entry.is_okuri_ari() {
            self.find_okuri_ari(key)
        } else {
            self.find_okuri_nasi(key)
        };
        find_with(entry, result, line);
    }

    fn reverse_lookup(&self, candidate: &str) -> (r: Option<String>)
        ensures
            match r {
                Some(k) => reverse_key(self.nasi(), candidate@) == Some(k@),
                None => reverse_key(self.nasi(), candidate@) is None,
            },
    {
        reverse_lookup_in(self.file.okuri_nasi(), candidate)
    }

    fn complete(&self, helper: &mut CompletionHelper)
        ensures
            final(helper)@ == old(helper)@.add_all(prefixed_keys(self.nasi(), old(helper)@.entry)),
    {
        proof {
            use_type_invariant(self);
        }
        complete_sorted(self.file.okuri_nasi(), helper);
        proof {
            let cv = self.nasi();
            let raw = self.file.nasi_raw();
            assert forall|k: int| 0 <= k < cv.len() implies cv[k].0 == raw[k].0@ by {}
            let lb = choose|lb: int| completes_from(raw, old(helper)@, helper@, lb);
            assert forall|i: int, j: int| 0 <= i <= j < cv.len() implies seq_le(#[trigger] cv[i].0, #[trigger] cv[j].0) by {
                lemma_sorted_le(raw, i, j);
            }
            assert forall|k: int| 0 <= k < lb implies seq_lt(#[trigger] cv[k].0, old(helper)@.entry) by {
                assert(seq_lt(raw[k].0@, old(helper)@.entry));
            }
            assert forall|k: int| lb <= k < cv.len() implies !seq_lt(#[trigger] cv[k].0, old(helper)@.entry) by {
                assert(!seq_lt(raw[k].0@, old(helper)@.entry));
            }
            assert(entries_view(raw) == cv);
            lemma_sorted_run(cv, lb, old(helper)@.entry);
        }
    }
}

} // verus!
