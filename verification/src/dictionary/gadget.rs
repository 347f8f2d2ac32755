//! Program-execution dictionary: today's date, the time, and Japanese era
//! years ("jdate:2019").
//!
//! The clock is read by the host and handed over as a `LocalTime`; the
//! `=expr` arithmetic conversion works on floating point and is provided
//! by the host as well.

use vstd::prelude::*;
use crate::candidate::{add_one, split_candidate, Candidate, CandidateModel, CandidateSuite, SuiteModel};
use crate::dictionary::{CompletionHelper, Dictionary, HelperModel};
use crate::entry::Entry;
use crate::text::{
    chars_of, has_prefix, padded, padded_signed, parse_i32, parse_i32_chars, push_padded,
    push_padded_signed, push_str_chars, string_of, decimal, push_decimal, str_starts_with,
};

verus! {

/// A broken-down local time.
#[derive(Debug, Clone, Copy, PartialEq, Eq, Structural)]
pub struct LocalTime {
    pub year: i32,
    /// 1-12
    pub month: u32,
    /// 1-31
    pub day: u32,
    pub hour: u32,
    pub minute: u32,
    pub second: u32,
    /// 0 = Sunday
    pub weekday: u32,
}

impl Default for LocalTime {
    fn default() -> (t: Self)
        ensures
            t == (LocalTime { year: 0, month: 0, day: 0, hour: 0, minute: 0, second: 0, weekday: 0 }),
    {
        LocalTime { year: 0, month: 0, day: 0, hour: 0, minute: 0, second: 0, weekday: 0 }
    }
}

pub open spec fn weekday_en(w: int) -> Seq<char> {
    if w == 0 { "Sun"@ } else if w == 1 { "Mon"@ } else if w == 2 { "Tue"@ } else if w == 3 { "Wed"@ }
    else if w == 4 { "Thu"@ } else if w == 5 { "Fri"@ } else { "Sat"@ }
}

pub open spec fn weekday_ja(w: int) -> Seq<char> {
    if w == 0 { "日"@ } else if w == 1 { "月"@ } else if w == 2 { "火"@ } else if w == 3 { "水"@ }
    else if w == 4 { "木"@ } else if w == 5 { "金"@ } else { "土"@ }
}

fn weekday_en_str(w: u32) -> (r: &'static str)
    requires w < 7,
    ensures r@ == weekday_en(w as int),
{
    match w { 0 => "Sun", 1 => "Mon", 2 => "Tue", 3 => "Wed", 4 => "Thu", 5 => "Fri", _ => "Sat" }
}

fn weekday_ja_str(w: u32) -> (r: &'static str)
    requires w < 7,
    ensures r@ == weekday_ja(w as int),
{
    match w { 0 => "日", 1 => "月", 2 => "火", 3 => "水", 4 => "木", 5 => "金", _ => "土" }
}

/// "2024/01/02(Tue)" and "2024 年 01 月 02 日(火)".
pub open spec fn today_words(t: LocalTime) -> Seq<Seq<char>> {
    let w = (t.weekday % 7) as int;
    seq![
        padded_signed(t.year as int, 4) + seq!['/'] + padded(t.month as nat, 2) + seq!['/'] + padded(t.day as nat, 2)
            + seq!['('] + weekday_en(w) + seq![')'],
        padded_signed(t.year as int, 4) + " 年 "@ + padded(t.month as nat, 2) + " 月 "@ + padded(t.day as nat, 2)
            + " 日("@ + weekday_ja(w) + seq![')'],
    ]
}

/// "12:34:56" and "12 時 34 分 56 秒".
pub open spec fn now_words(t: LocalTime) -> Seq<Seq<char>> {
    seq![
        padded(t.hour as nat, 2) + seq![':'] + padded(t.minute as nat, 2) + seq![':'] + padded(t.second as nat, 2),
        padded(t.hour as nat, 2) + " 時 "@ + padded(t.minute as nat, 2) + " 分 "@ + padded(t.second as nat, 2) + " 秒"@,
    ]
}

/// The eras, newest first: name and first (Gregorian) year.
pub open spec fn era(i: int) -> (Seq<char>, int) {
    if i == 0 { ("令和"@, 2019) } else if i == 1 { ("平成"@, 1989) } else if i == 2 { ("昭和"@, 1926) }
    else if i == 3 { ("大正"@, 1912) } else { ("明治"@, 1868) }
}

pub const ERA_COUNT: usize = 5;

fn era_exec(i: usize) -> (r: (&'static str, i32))
    requires i < ERA_COUNT,
    ensures r.0@ == era(i as int).0, r.1 as int == era(i as int).1,
{
    match i { 0 => ("令和", 2019), 1 => ("平成", 1989), 2 => ("昭和", 1926), 3 => ("大正", 1912), _ => ("明治", 1868) }
}

/// "令和2年", or "令和元年" for the first year.
pub open spec fn era_year_word(name: Seq<char>, n: int) -> Seq<char> {
    if n == 1 {
        name + "元年"@
    } else {
        name + decimal(n as nat) + "年"@
    }
}

/// Era names for `year` from era `i` on: the newest era that began by
/// `year`, and also the previous one when `year` is its first year.
pub open spec fn era_words_from(year: int, i: int) -> Seq<Seq<char>>
    decreases 5 - i,
{
    if i < 0 || i >= 5 {
        Seq::empty()
    } else if year >= era(i).1 {
        let w = seq![era_year_word(era(i).0, year - era(i).1 + 1)];
        if year > era(i).1 {
            w
        } else {
            w + era_words_from(year, i + 1)
        }
    } else {
        era_words_from(year, i + 1)
    }
}

/// The words for a "jdate:YEAR" key.
pub open spec fn jdate_words(key: Seq<char>) -> Seq<Seq<char>> {
    match parse_i32(key.skip(6)) {
        Some(y) => era_words_from(y, 0),
        None => Seq::empty(),
    }
}

/// The handler prefixes, in order.
pub open spec fn handler_prefix(i: int) -> Seq<char> {
    if i == 0 { "today"@ } else if i == 1 { "now"@ } else if i == 2 { "jdate:"@ } else { "="@ }
}

pub const HANDLER_COUNT: usize = 4;

fn handler_prefix_str(i: usize) -> (r: &'static str)
    requires i < HANDLER_COUNT,
    ensures r@ == handler_prefix(i as int),
{
    match i { 0 => "today", 1 => "now", 2 => "jdate:", _ => "=" }
}

/// The words produced for `key` at time `t`; the arithmetic handler has no
/// words here.
pub open spec fn gadget_words(key: Seq<char>, t: LocalTime) -> Seq<Seq<char>> {
    (if has_prefix(key, "today"@) { today_words(t) } else { Seq::empty() })
        + (if has_prefix(key, "now"@) { now_words(t) } else { Seq::empty() })
        + (if has_prefix(key, "jdate:"@) { jdate_words(key) } else { Seq::empty() })
}

/// The word an "=expr" reading gets from the evaluation recorded for it.
pub open spec fn calc_words(key: Seq<char>, evaluated: Option<(Seq<char>, Seq<char>)>) -> Seq<Seq<char>> {
    match evaluated {
        Some((k, w)) => if key.len() > 0 && key[0] == '=' && k == key {
            seq![w]
        } else {
            Seq::empty()
        },
        None => Seq::empty(),
    }
}

/// Add each word as a study-avoiding candidate.
pub open spec fn add_words(c: Seq<CandidateModel>, words: Seq<Seq<char>>) -> Seq<CandidateModel>
    decreases words.len(),
{
    if words.len() == 0 {
        c
    } else {
        add_one(
            add_words(c, words.drop_last()),
            CandidateModel { avoid_study: true, ..split_candidate(words.last()) },
        )
    }
}

fn push_word(words: &mut Vec<String>, v: &Vec<char>)
    ensures
        final(words)@.map_values(|s: String| s@) == old(words)@.map_values(|s: String| s@).push(v@),
{
    let ghost before = words@;
    words.push(string_of(v.as_slice()));
    assert(words@.map_values(|s: String| s@) =~= before.map_values(|s: String| s@).push(v@));
}

fn today(t: LocalTime, words: &mut Vec<String>)
    requires
        t.year > i32::MIN,
    ensures
        final(words)@.map_values(|s: String| s@) == old(words)@.map_values(|s: String| s@) + today_words(t),
{
    let w = t.weekday % 7;
    let mut a: Vec<char> = Vec::new();
    push_padded_signed(&mut a, t.year as i64, 4);
    a.push('/');
    push_padded(&mut a, t.month as u64, 2);
    a.push('/');
    push_padded(&mut a, t.day as u64, 2);
    a.push('(');
    push_str_chars(&mut a, weekday_en_str(w));
    a.push(')');
    let mut b: Vec<char> = Vec::new();
    push_padded_signed(&mut b, t.year as i64, 4);
    push_str_chars(&mut b, " 年 ");
    push_padded(&mut b, t.month as u64, 2);
    push_str_chars(&mut b, " 月 ");
    push_padded(&mut b, t.day as u64, 2);
    push_str_chars(&mut b, " 日(");
    push_str_chars(&mut b, weekday_ja_str(w));
    b.push(')');
    let ghost before = words@.map_values(|s: String| s@);
    push_word(words, &a);
    push_word(words, &b);
    assert(a@ =~= today_words(t)[0]);
    assert(b@ =~= today_words(t)[1]);
    assert(words@.map_values(|s: String| s@) =~= before + today_words(t));
}

fn now(t: LocalTime, words: &mut Vec<String>)
    ensures
        final(words)@.map_values(|s: String| s@) == old(words)@.map_values(|s: String| s@) + now_words(t),
{
    let mut a: Vec<char> = Vec::new();
    push_padded(&mut a, t.hour as u64, 2);
    a.push(':');
    push_padded(&mut a, t.minute as u64, 2);
    a.push(':');
    push_padded(&mut a, t.second as u64, 2);
    let mut b: Vec<char> = Vec::new();
    push_padded(&mut b, t.hour as u64, 2);
    push_str_chars(&mut b, " 時 ");
    push_padded(&mut b, t.minute as u64, 2);
    push_str_chars(&mut b, " 分 ");
    push_padded(&mut b, t.second as u64, 2);
    push_str_chars(&mut b, " 秒");
    let ghost before = words@.map_values(|s: String| s@);
    push_word(words, &a);
    push_word(words, &b);
    assert(a@ =~= now_words(t)[0]);
    assert(b@ =~= now_words(t)[1]);
    assert(words@.map_values(|s: String| s@) =~= before + now_words(t));
}

fn jdate(key: &[char], words: &mut Vec<String>)
    requires
        key@.len() >= 6,
    ensures
        final(words)@.map_values(|s: String| s@) == old(words)@.map_values(|s: String| s@) + jdate_words(key@),
{
    let mut rest: Vec<char> = Vec::new();
    let mut k: usize = 6;
    while k < key.len()
        invariant
            6 <= k <= key@.len(),
            rest@ == key@.subrange(6, k as int),
        decreases key.len() - k,
    {
        rest.push(key[k]);
        assert(key@.subrange(6, k + 1) =~= key@.subrange(6, k as int).push(key@[k as int]));
        k += 1;
    }
    assert(rest@ =~= key@.skip(6));
    let year = match parse_i32_chars(rest.as_slice()) {
        Some(y) => y,
        None => {
            assert(words@.map_values(|s: String| s@) + jdate_words(key@) =~= words@.map_values(|s: String| s@));
            return;
        },
    };
    let ghost start = words@.map_values(|s: String| s@);
    let mut i: usize = 0;
    while i < ERA_COUNT
        invariant
            i <= ERA_COUNT,
            start == old(words)@.map_values(|s: String| s@),
            start + jdate_words(key@) == words@.map_values(|s: String| s@) + era_words_from(year as int, i as int),
        decreases ERA_COUNT - i,
    {
        let (name, first) = era_exec(i);
        if year >= first {
            let n = year - first + 1;
            let mut w: Vec<char> = Vec::new();
            push_str_chars(&mut w, name);
            if n == 1 {
                push_str_chars(&mut w, "元年");
            } else {
                push_decimal(&mut w, n as u64);
                push_str_chars(&mut w, "年");
            }
            assert(w@ =~= era_year_word(era(i as int).0, year - era(i as int).1 + 1));
            let ghost before = words@.map_values(|s: String| s@);
            push_word(words, &w);
            if year > first {
                assert(era_words_from(year as int, i as int) == seq![w@]);
                assert(start + jdate_words(key@) =~= words@.map_values(|s: String| s@));
                return;
            }
            assert(before + era_words_from(year as int, i as int) =~= words@.map_values(|s: String| s@) + era_words_from(year as int, i + 1));
        }
        i += 1;
    }
    assert(words@.map_values(|s: String| s@) + era_words_from(year as int, 5) =~= words@.map_values(|s: String| s@));
}

/// The program-execution dictionary.
#[derive(Debug)]
pub struct GadgetDictionary {
    time: LocalTime,
    calculation: Option<(String, String)>,
}

impl GadgetDictionary {
    /// The time the date and time words are made from.
    pub closed spec fn clock(self) -> LocalTime {
        self.time
    }

    /// The evaluation recorded for an "=expr" reading: the reading and the
    /// word it gives.
    pub closed spec fn evaluated(self) -> Option<(Seq<char>, Seq<char>)> {
        match self.calculation {
            Some((k, w)) => Some((k@, w@)),
            None => None,
        }
    }

    /// The words for `key`: the date and time words, then the recorded
    /// evaluation of an "=expr" reading.
    pub open spec fn words_for(self, key: Seq<char>) -> Seq<Seq<char>> {
        gadget_words(key, self.clock()) + calc_words(key, self.evaluated())
    }

    pub fn new() -> (d: GadgetDictionary)
        ensures
            d.clock() == (LocalTime { year: 0, month: 0, day: 0, hour: 0, minute: 0, second: 0, weekday: 0 }),
            d.evaluated() is None,
    {
        GadgetDictionary { time: LocalTime::default(), calculation: None }
    }

    /// A dictionary answering with the given time.
    pub fn with_time(time: LocalTime) -> (d: GadgetDictionary)
        ensures
            d.clock() == time,
            d.evaluated() is None,
    {
        GadgetDictionary { time, calculation: None }
    }

    /// Set the current local time.
    pub fn set_time(&mut self, time: LocalTime)
        ensures
            final(self).clock() == time,
            final(self).evaluated() == old(self).evaluated(),
    {
        self.time = time;
    }

    /// Record what the "=expr" reading `key` evaluates to (the value or the
    /// error message), for the next lookup of that reading.
    pub fn set_calculation(&mut self, key: &str, word: &str)
        ensures
            final(self).clock() == old(self).clock(),
            final(self).evaluated() == Some((key@, word@)),
    {
        self.calculation = Some((crate::text::copy_str(key), crate::text::copy_str(word)));
    }

    fn words(&self, key: &[char]) -> (r: Vec<String>)
        requires
            self.clock().year > i32::MIN,
        ensures
            r@.map_values(|s: String| s@) == self.words_for(key@),
    {
        let mut words: Vec<String> = Vec::new();
        assert(words@.map_values(|s: String| s@) =~= Seq::<Seq<char>>::empty());
        let today_p = chars_of("today");
        let now_p = chars_of("now");
        let jdate_p = chars_of("jdate:");
        if crate::text::chars_starts_with(key, today_p.as_slice()) {
            today(self.time, &mut words);
        }
        let ghost a = words@.map_values(|s: String| s@);
        if crate::text::chars_starts_with(key, now_p.as_slice()) {
            now(self.time, &mut words);
        }
        let ghost b = words@.map_values(|s: String| s@);
        if crate::text::chars_starts_with(key, jdate_p.as_slice()) {
            proof {
                reveal_strlit("jdate:");
            }
            jdate(key, &mut words);
        }
        assert(words@.map_values(|s: String| s@) =~= gadget_words(key@, self.clock()));
        let ghost g = words@.map_values(|s: String| s@);
        if key.len() > 0 && key[0] == '=' {
            if let Some((k, w)) = &self.calculation {
                let kv = chars_of(k.as_str());
                if crate::text::chars_eq(kv.as_slice(), key) {
                    let wv = chars_of(w.as_str());
                    push_word(&mut words, &wv);
                }
            }
        }
        assert(words@.map_values(|s: String| s@) =~= g + calc_words(key@, self.evaluated()));
        words
    }
}

impl Default for GadgetDictionary {
    fn default() -> (d: Self)
        ensures
            d.clock() == (LocalTime { year: 0, month: 0, day: 0, hour: 0, minute: 0, second: 0, weekday: 0 }),
    {
        GadgetDictionary::new()
    }
}

/// Handler prefixes from `i` on that begin with `entry`.
pub open spec fn prefixes_from(entry: Seq<char>, i: int) -> Seq<Seq<char>>
    decreases 4 - i,
{
    if i < 0 || i >= 4 {
        Seq::empty()
    } else if has_prefix(handler_prefix(i), entry) {
        seq![handler_prefix(i)] + prefixes_from(entry, i + 1)
    } else {
        prefixes_from(entry, i + 1)
    }
}

impl Dictionary for GadgetDictionary {
    fn find(&self, entry: &Entry, result: &mut CandidateSuite)
        ensures
            self.clock().year > i32::MIN && entry.okuri().len() == 0 ==> final(result)@ == (SuiteModel {
                candidates: add_words(old(result)@.candidates, self.words_for(entry.key())),
                hints: old(result)@.hints,
            }),
            !(self.clock().year > i32::MIN && entry.okuri().len() == 0) ==> final(result)@ == old(result)@,
    {
        if entry.is_okuri_ari() || self.time.year == i32::MIN {
            return;
        }
        let key = chars_of(entry.entry_string());
        let words = self.words(key.as_slice());
        let ghost ws = words@.map_values(|s: String| s@);
        let ghost r0 = result@;
        let mut i: usize = 0;
        assert(ws.take(0) =~= Seq::<Seq<char>>::empty());
        while i < words.len()
            invariant
                i <= words@.len(),
                ws == words@.map_values(|s: String| s@),
                result@ == (SuiteModel { candidates: add_words(r0.candidates, ws.take(i as int)), hints: r0.hints }),
            decreases words.len() - i,
        {
            let mut c = Candidate::new(words[i].as_str());
            c.set_avoid_study();
            result.add_candidate(&c);
            assert(ws.take(i + 1).drop_last() =~= ws.take(i as int));
            assert(ws.take(i + 1).last() == words@[i as int]@);
            i += 1;
        }
        assert(ws.take(words.len() as int) =~= ws);
    }

    fn complete(&self, helper: &mut CompletionHelper)
        ensures
            final(helper)@ == old(helper)@.add_all(prefixes_from(old(helper)@.entry, 0)),
    {
        let e = chars_of(helper.entry());
        let ghost h0 = helper@;
        let mut i: usize = 0;
        while i < HANDLER_COUNT
            invariant
                i <= HANDLER_COUNT,
                e@ == h0.entry,
                helper@.entry == h0.entry,
                h0.add_all(prefixes_from(h0.entry, 0)) == helper@.add_all(prefixes_from(h0.entry, i as int)),
            decreases HANDLER_COUNT - i,
        {
            let p = handler_prefix_str(i);
            let pv = chars_of(p);
            if crate::text::chars_starts_with(pv.as_slice(), e.as_slice()) {
                let ghost before = helper@;
                helper.add(p);
                proof {
                    lemma_add_all_front(before, pv@, prefixes_from(h0.entry, i + 1));
                }
            }
            i += 1;
        }
    }
}

proof fn lemma_add_all_front(h: HelperModel, x: Seq<char>, rest: Seq<Seq<char>>)
    ensures
        h.add_all(seq![x] + rest) == h.add(x).add_all(rest),
    decreases rest.len(),
{
    if rest.len() == 0 {
        assert(seq![x] + rest =~= seq![x]);
        assert(seq![x].drop_last() =~= Seq::<Seq<char>>::empty());
        assert(h.add_all(Seq::<Seq<char>>::empty()) == h);
        assert(h.add_all(seq![x]) == h.add_all(seq![x].drop_last()).add(x));
    } else {
        lemma_add_all_front(h, x, rest.drop_last());
        assert((seq![x] + rest).drop_last() =~= seq![x] + rest.drop_last());
        assert((seq![x] + rest).last() == rest.last());
    }
}

} // verus!
