//! Numeric conversion.
//!
//! SKK dictionaries record numeric entries with `#` placeholders
//! (e.g. "だい#1" -> "第１"). This module normalizes lookup keys and
//! applies the recorded conversion type to candidates.

use vstd::prelude::*;
use crate::candidate::{Candidate, CandidateModel};
use crate::text::{chars_of, copy_str, push_str_chars, string_of};

verus! {

/// An ASCII decimal digit.
pub open spec fn is_digit(c: char) -> bool {
    '0' <= c <= '9'
}

pub open spec fn digit_value(c: char) -> int {
    c as int - '0' as int
}

/// All characters are ASCII digits.
pub open spec fn all_digits(s: Seq<char>) -> bool {
    forall|i: int| 0 <= i < s.len() ==> is_digit(#[trigger] s[i])
}

/// Full-width digit.
pub open spec fn zenkaku_digit(d: int) -> Seq<char> {
    if d == 0 { "０"@ } else if d == 1 { "１"@ } else if d == 2 { "２"@ } else if d == 3 { "３"@ }
    else if d == 4 { "４"@ } else if d == 5 { "５"@ } else if d == 6 { "６"@ } else if d == 7 { "７"@ }
    else if d == 8 { "８"@ } else { "９"@ }
}

/// Kanji digit.
pub open spec fn kanji_digit(d: int) -> Seq<char> {
    if d == 0 { "〇"@ } else if d == 1 { "一"@ } else if d == 2 { "二"@ } else if d == 3 { "三"@ }
    else if d == 4 { "四"@ } else if d == 5 { "五"@ } else if d == 6 { "六"@ } else if d == 7 { "七"@ }
    else if d == 8 { "八"@ } else { "九"@ }
}

/// Formal (daiji) digit; zero has no digit.
pub open spec fn daiji_digit(d: int) -> Seq<char> {
    if d == 0 { ""@ } else if d == 1 { "壱"@ } else if d == 2 { "弐"@ } else if d == 3 { "参"@ }
    else if d == 4 { "四"@ } else if d == 5 { "伍"@ } else if d == 6 { "六"@ } else if d == 7 { "七"@ }
    else if d == 8 { "八"@ } else { "九"@ }
}

fn zenkaku_digit_str(d: u32) -> (r: &'static str)
    requires d < 10,
    ensures r@ == zenkaku_digit(d as int),
{
    match d { 0 => "０", 1 => "１", 2 => "２", 3 => "３", 4 => "４", 5 => "５", 6 => "６", 7 => "７", 8 => "８", _ => "９" }
}

fn kanji_digit_str(d: u32) -> (r: &'static str)
    requires d < 10,
    ensures r@ == kanji_digit(d as int),
{
    match d { 0 => "〇", 1 => "一", 2 => "二", 3 => "三", 4 => "四", 5 => "五", 6 => "六", 7 => "七", 8 => "八", _ => "九" }
}

fn daiji_digit_str(d: u32) -> (r: &'static str)
    requires d < 10,
    ensures r@ == daiji_digit(d as int),
{
    match d { 0 => "", 1 => "壱", 2 => "弐", 3 => "参", 4 => "四", 5 => "伍", 6 => "六", 7 => "七", 8 => "八", _ => "九" }
}

/// The two positional numeral styles.
#[derive(Debug, Clone, Copy, PartialEq, Eq, Structural)]
pub enum Numerals {
    /// 千二十四
    Kanji,
    /// 壱阡弐拾四
    Daiji,
}

pub open spec fn numeral_digit(n: Numerals, d: int) -> Seq<char> {
    match n {
        Numerals::Kanji => kanji_digit(d),
        Numerals::Daiji => daiji_digit(d),
    }
}

/// Unit for each group of four digits (万, 億, ...).
pub open spec fn group_unit(n: Numerals, k: int) -> Seq<char> {
    match n {
        Numerals::Kanji => if k == 0 { ""@ } else if k == 1 { "万"@ } else if k == 2 { "億"@ }
            else if k == 3 { "兆"@ } else if k == 4 { "京"@ } else { "垓"@ },
        Numerals::Daiji => if k == 0 { ""@ } else if k == 1 { "萬"@ } else if k == 2 { "億"@ }
            else if k == 3 { "兆"@ } else if k == 4 { "京"@ } else { "垓"@ },
    }
}

/// Unit within a group of four digits (十, 百, 千).
pub open spec fn place_unit(n: Numerals, k: int) -> Seq<char> {
    match n {
        Numerals::Kanji => if k == 0 { "十"@ } else if k == 1 { "百"@ } else { "千"@ },
        Numerals::Daiji => if k == 0 { "拾"@ } else if k == 1 { "百"@ } else { "阡"@ },
    }
}

/// Whether a leading 一 is written before 十, 百, 千 and the units.
pub open spec fn explicit_one(n: Numerals) -> bool {
    n == Numerals::Kanji
}

fn numeral_digit_str(n: Numerals, d: u32) -> (r: &'static str)
    requires d < 10,
    ensures r@ == numeral_digit(n, d as int),
{
    match n {
        Numerals::Kanji => kanji_digit_str(d),
        Numerals::Daiji => daiji_digit_str(d),
    }
}

fn group_unit_str(n: Numerals, k: usize) -> (r: &'static str)
    requires k <= 5,
    ensures r@ == group_unit(n, k as int),
{
    match n {
        Numerals::Kanji => match k { 0 => "", 1 => "万", 2 => "億", 3 => "兆", 4 => "京", _ => "垓" },
        Numerals::Daiji => match k { 0 => "", 1 => "萬", 2 => "億", 3 => "兆", 4 => "京", _ => "垓" },
    }
}

fn place_unit_str(n: Numerals, k: usize) -> (r: &'static str)
    requires k <= 2,
    ensures r@ == place_unit(n, k as int),
{
    match n {
        Numerals::Kanji => match k { 0 => "十", 1 => "百", _ => "千" },
        Numerals::Daiji => match k { 0 => "拾", 1 => "百", _ => "阡" },
    }
}

/// Map each digit through a one-digit table.
pub open spec fn map_digits(s: Seq<char>, kanji: bool) -> Seq<char>
    decreases s.len(),
{
    if s.len() == 0 {
        Seq::empty()
    } else {
        map_digits(s.drop_last(), kanji) + if !is_digit(s.last()) {
            Seq::empty()
        } else if kanji {
            kanji_digit(digit_value(s.last()))
        } else {
            zenkaku_digit(digit_value(s.last()))
        }
    }
}

fn convert_digits(src: &[char], kanji: bool) -> (r: Vec<char>)
    ensures
        r@ == map_digits(src@, kanji),
{
    let mut out: Vec<char> = Vec::new();
    let mut i: usize = 0;
    assert(src@.take(0) =~= Seq::<char>::empty());
    while i < src.len()
        invariant
            i <= src.len(),
            out@ == map_digits(src@.take(i as int), kanji),
        decreases src.len() - i,
    {
        assert(src@.take(i + 1).drop_last() =~= src@.take(i as int));
        let c = src[i];
        if '0' <= c && c <= '9' {
            let d = (c as u32) - ('0' as u32);
            if kanji {
                push_str_chars(&mut out, kanji_digit_str(d));
            } else {
                push_str_chars(&mut out, zenkaku_digit_str(d));
            }
        } else {
            assert(out@ + Seq::<char>::empty() =~= out@);
        }
        i += 1;
    }
    assert(src@.take(src.len() as int) =~= src@);
    out
}

/// The state of positional numeral conversion: output and its length at
/// the last group unit.
pub struct PositionalState {
    pub result: Seq<char>,
    pub previous_len: int,
}

/// One digit of positional numeral conversion (`i` indexes `s`).
pub open spec fn positional_step(n: Numerals, s: Seq<char>, st: PositionalState, i: int) -> PositionalState {
    let d = digit_value(s[i]);
    let distance = s.len() - i;
    let r1 = if d >= 2 || (!explicit_one(n) && d == 1) {
        st.result + numeral_digit(n, d)
    } else {
        st.result
    };
    if distance > 4 && (distance - 1) % 4 == 0 {
        let r2 = if explicit_one(n) && d == 1 { r1 + numeral_digit(n, 1) } else { r1 };
        if st.previous_len < r2.len() {
            let r3 = r2 + group_unit(n, (distance - 1) / 4);
            PositionalState { result: r3, previous_len: r3.len() as int }
        } else {
            PositionalState { result: r2, ..st }
        }
    } else if distance > 1 {
        if d != 0 {
            let r2 = if explicit_one(n) && d == 1 && distance > 4 && (distance - 2) % 4 == 2 {
                r1 + numeral_digit(n, 1)
            } else {
                r1
            };
            PositionalState { result: r2 + place_unit(n, (distance - 2) % 4), ..st }
        } else {
            PositionalState { result: r1, ..st }
        }
    } else if explicit_one(n) && d == 1 {
        PositionalState { result: r1 + numeral_digit(n, 1), ..st }
    } else {
        PositionalState { result: r1, ..st }
    }
}

/// Index of the first non-'0' character (the length if there is none).
pub open spec fn first_nonzero(s: Seq<char>, i: int) -> int
    decreases s.len() - i,
{
    if i >= s.len() || i < 0 {
        s.len() as int
    } else if s[i] != '0' {
        i
    } else {
        first_nonzero(s, i + 1)
    }
}

/// Positional conversion over digits `start..j`.
pub open spec fn positional_run(n: Numerals, s: Seq<char>, start: int, j: int) -> PositionalState
    decreases j - start,
{
    if j <= start {
        PositionalState { result: Seq::empty(), previous_len: 0 }
    } else {
        positional_step(n, s, positional_run(n, s, start, j - 1), j - 1)
    }
}

/// Positional kanji numerals of a digit string.
pub open spec fn positional(n: Numerals, s: Seq<char>) -> Seq<char> {
    if s == seq!['0'] {
        match n {
            Numerals::Kanji => "〇"@,
            Numerals::Daiji => "零"@,
        }
    } else {
        positional_run(n, s, first_nonzero(s, 0), s.len() as int).result
    }
}

/// `m` zeros.
pub open spec fn zeros(m: nat) -> Seq<char> {
    Seq::new(m, |i: int| '0')
}

/// The ASCII digit for `d`.
pub open spec fn digit_char(d: int) -> char {
    (('0' as int) + d) as char
}

/// The kanji for the digits two to nine.
pub open spec fn kanji_name(d: int) -> Seq<char> {
    if d == 2 { "二"@ } else if d == 3 { "三"@ } else if d == 4 { "四"@ } else if d == 5 { "五"@ }
    else if d == 6 { "六"@ } else if d == 7 { "七"@ } else if d == 8 { "八"@ } else { "九"@ }
}

/// The name of the `q`-th four-digit group (none for the lowest).
pub open spec fn kanji_group_name(q: int) -> Seq<char> {
    if q == 0 { ""@ } else if q == 1 { "万"@ } else if q == 2 { "億"@ } else if q == 3 { "兆"@ }
    else if q == 4 { "京"@ } else { "垓"@ }
}

/// The positional kanji numeral of digit `d` (1 to 9) followed by `m`
/// zeros: the digit, the place within its four-digit group (十, 百, 千)
/// and the group's name (万, 億, ...). The digit 1 is written (一) only for
/// a group by itself (一万) and before 千 of an upper group (一千万), never
/// before 十 or 百 (十万, 百万) nor before 千 of the lowest group (千).
pub open spec fn digit_then_zeros_kanji(d: int, m: nat) -> Seq<char> {
    let q = (m / 4) as int;
    let r = m % 4;
    let lead = if d >= 2 {
        kanji_name(d)
    } else if r == 0 || (r == 3 && q >= 1) {
        "一"@
    } else {
        ""@
    };
    let place = if r == 0 { ""@ } else if r == 1 { "十"@ } else if r == 2 { "百"@ } else { "千"@ };
    lead + place + kanji_group_name(q)
}

proof fn lemma_digit_names(d: int)
    requires
        1 <= d <= 9,
    ensures
        d >= 2 ==> numeral_digit(Numerals::Kanji, d) == kanji_name(d),
        numeral_digit(Numerals::Kanji, 1) == "一"@,
        digit_value(digit_char(d)) == d,
        d >= 2 ==> kanji_name(d).len() == 1,
{
    reveal_strlit("二");
    reveal_strlit("三");
    reveal_strlit("四");
    reveal_strlit("五");
    reveal_strlit("六");
    reveal_strlit("七");
    reveal_strlit("八");
    reveal_strlit("九");
}

proof fn lemma_group_names(q: int)
    requires
        0 <= q <= 5,
    ensures
        group_unit(Numerals::Kanji, q) == kanji_group_name(q),
{
}

proof fn lemma_zeros_run_group(d: int, m: nat, j: int)
    requires
        1 <= d <= 9,
        m >= 4,
        m % 4 == 0,
        1 <= j <= m + 1,
    ensures
        ({
            let lead = if d >= 2 { kanji_name(d) } else { "一"@ };
            let g = lead + group_unit(Numerals::Kanji, (m / 4) as int);
            positional_run(Numerals::Kanji, seq![digit_char(d)] + zeros(m), 0, j) == (PositionalState {
                result: g,
                previous_len: g.len() as int,
            })
        }),
    decreases j,
{
    let s = seq![digit_char(d)] + zeros(m);
    assert(s.len() == m + 1);
    reveal_strlit("一");
    lemma_digit_names(d);
    if j == 1 {
        assert(s[0] == digit_char(d));
        assert(positional_run(Numerals::Kanji, s, 0, 0) == PositionalState { result: Seq::<char>::empty(), previous_len: 0 });
        assert(Seq::<char>::empty() + numeral_digit(Numerals::Kanji, 1) =~= "一"@);
        assert(Seq::<char>::empty() + numeral_digit(Numerals::Kanji, d) =~= numeral_digit(Numerals::Kanji, d));
    } else {
        lemma_zeros_run_group(d, m, j - 1);
        assert(s[j - 1] == '0');
    }
}

proof fn lemma_zeros_run_place(d: int, m: nat, j: int)
    requires
        1 <= d <= 9,
        m >= 1,
        m % 4 != 0,
        1 <= j <= m + 1,
    ensures
        ({
            let q = (m / 4) as int;
            let place = if m % 4 == 1 { "十"@ } else if m % 4 == 2 { "百"@ } else { "千"@ };
            let lead = if d >= 2 {
                kanji_name(d)
            } else if m % 4 == 3 && q >= 1 {
                "一"@
            } else {
                ""@
            };
            let p = lead + place;
            let g = p + group_unit(Numerals::Kanji, q);
            positional_run(Numerals::Kanji, seq![digit_char(d)] + zeros(m), 0, j) == if q >= 1 && j > m - 4 * q {
                PositionalState { result: g, previous_len: g.len() as int }
            } else {
                PositionalState { result: p, previous_len: 0 }
            }
        }),
    decreases j,
{
    let s = seq![digit_char(d)] + zeros(m);
    assert(s.len() == m + 1);
    reveal_strlit("一");
    reveal_strlit("十");
    reveal_strlit("百");
    reveal_strlit("千");
    reveal_strlit("");
    lemma_digit_names(d);
    if j == 1 {
        assert(s[0] == digit_char(d));
        assert(positional_run(Numerals::Kanji, s, 0, 0) == PositionalState { result: Seq::<char>::empty(), previous_len: 0 });
        let e = Seq::<char>::empty();
        assert(e + "一"@ =~= "一"@);
        assert(e + numeral_digit(Numerals::Kanji, d) =~= numeral_digit(Numerals::Kanji, d));
        assert(""@ + "十"@ =~= "十"@);
        assert(""@ + "百"@ =~= "百"@);
        assert(""@ + "千"@ =~= "千"@);
    } else {
        lemma_zeros_run_place(d, m, j - 1);
        assert(s[j - 1] == '0');
    }
}

/// A digit from 1 to 9 followed by `m >= 1` zeros, in positional kanji:
/// the digit (written for 1 only as 一万 and 一千万 show), the place
/// within its four-digit group and the group's name. So 10 → 十, 100 →
/// 百, 1000 → 千, 10000 → 一万, 100000 → 十万, 1000000 → 百万,
/// 10000000 → 一千万, 300000000 → 三億.
pub proof fn law_digit_then_zeros_kanji(d: int, m: nat)
    requires
        1 <= d <= 9,
        1 <= m <= 23,
    ensures
        positional(Numerals::Kanji, seq![digit_char(d)] + zeros(m)) == digit_then_zeros_kanji(d, m),
{
    let s = seq![digit_char(d)] + zeros(m);
    let q = (m / 4) as int;
    assert(s.len() == m + 1);
    assert(s[0] == digit_char(d));
    assert(s != seq!['0']) by {
        if s == seq!['0'] {
            assert(s.len() == 1);
        }
    }
    assert(first_nonzero(s, 0) == 0);
    lemma_group_names(q);
    lemma_digit_names(d);
    reveal_strlit("");
    if m % 4 == 0 {
        lemma_zeros_run_group(d, m, (m + 1) as int);
        if d >= 2 {
            assert(kanji_name(d) + ""@ + kanji_group_name(q) =~= kanji_name(d) + kanji_group_name(q));
        } else {
            assert("一"@ + ""@ + kanji_group_name(q) =~= "一"@ + kanji_group_name(q));
        }
    } else {
        lemma_zeros_run_place(d, m, (m + 1) as int);
        if q == 0 {
            let place = if m % 4 == 1 { "十"@ } else if m % 4 == 2 { "百"@ } else { "千"@ };
            let lead = if d >= 2 { kanji_name(d) } else { ""@ };
            assert(lead + place + ""@ =~= lead + place);
        }
    }
}

proof fn lemma_first_nonzero(s: Seq<char>, i: int)
    requires
        0 <= i <= s.len(),
    ensures
        i <= first_nonzero(s, i) <= s.len(),
    decreases s.len() - i,
{
    if i < s.len() && s[i] == '0' {
        lemma_first_nonzero(s, i + 1);
    }
}

fn positional_kanji(src: &[char], n: Numerals) -> (r: Vec<char>)
    requires
        all_digits(src@),
        significant_len(src@) <= 24,
    ensures
        r@ == positional(n, src@),
{
    if src.len() == 1 && src[0] == '0' {
        assert(src@ =~= seq!['0']);
        let z = match n {
            Numerals::Kanji => "〇",
            Numerals::Daiji => "零",
        };
        return chars_of(z);
    }
    assert(src@ != seq!['0']);
    let mut start: usize = 0;
    while start < src.len() && src[start] == '0'
        invariant
            start <= src.len(),
            first_nonzero(src@, 0) == first_nonzero(src@, start as int),
        decreases src.len() - start,
    {
        start += 1;
    }
    assert(first_nonzero(src@, start as int) == start);
    let mut result: Vec<char> = Vec::new();
    let mut previous_len: usize = 0;
    let mut i: usize = start;
    while i < src.len()
        invariant
            start <= i <= src.len(),
            src.len() - start <= 24,
            all_digits(src@),
            first_nonzero(src@, 0) == start,
            ({
                let st = positional_run(n, src@, start as int, i as int);
                result@ == st.result && previous_len == st.previous_len
            }),
        decreases src.len() - i,
    {
        let ghost st0 = positional_run(n, src@, start as int, i as int);
        let c = src[i];
        assert(is_digit(src@[i as int]));
        let d = (c as u32) - ('0' as u32);
        let distance = src.len() - i;
        let explicit = n == Numerals::Kanji;
        if d >= 2 || (!explicit && d == 1) {
            push_str_chars(&mut result, numeral_digit_str(n, d));
        }
        if distance > 4 && (distance - 1) % 4 == 0 {
            if explicit && d == 1 {
                push_str_chars(&mut result, numeral_digit_str(n, 1));
            }
            if previous_len < result.len() {
                push_str_chars(&mut result, group_unit_str(n, (distance - 1) / 4));
                previous_len = result.len();
            }
        } else if distance > 1 {
            if d != 0 {
                if explicit && d == 1 && distance > 4 && (distance - 2) % 4 == 2 {
                    push_str_chars(&mut result, numeral_digit_str(n, 1));
                }
                push_str_chars(&mut result, place_unit_str(n, (distance - 2) % 4));
            }
        } else if explicit && d == 1 {
            push_str_chars(&mut result, numeral_digit_str(n, 1));
        }
        proof {
            let st1 = positional_step(n, src@, st0, i as int);
            assert(digit_value(src@[i as int]) == d as int);
            assert(result@ == st1.result);
            assert(previous_len == st1.previous_len);
        }
        i += 1;
    }
    result
}

/// Shogi-kifu style: first digit full-width, second digit kanji.
pub open spec fn kifu(s: Seq<char>) -> Seq<char> {
    map_digits(s.take(if s.len() >= 1 { 1 } else { 0 }), false) + map_digits(
        if s.len() >= 2 { s.subrange(1, 2) } else { Seq::empty() },
        true,
    )
}

/// The conversion of parameter `p` for placeholder type `t`.
pub open spec fn converted_param(t: char, p: Seq<char>) -> Seq<char> {
    if t == '1' {
        map_digits(p, false)
    } else if t == '2' {
        map_digits(p, true)
    } else if t == '3' {
        positional(Numerals::Kanji, p)
    } else if t == '5' {
        positional(Numerals::Daiji, p)
    } else if t == '9' {
        kifu(p)
    } else {
        p
    }
}

/// A supported placeholder type.
pub open spec fn is_placeholder_type(c: char) -> bool {
    ('0' <= c <= '5') || c == '9'
}

/// The state of the key normalizer: normalized key, numbers found, and the
/// number being read.
pub struct SetupState {
    pub normalized: Seq<char>,
    pub params: Seq<Seq<char>>,
    pub current: Seq<char>,
}

pub open spec fn setup_step(st: SetupState, c: char) -> SetupState {
    if is_digit(c) {
        SetupState { current: st.current.push(c), ..st }
    } else if st.current.len() > 0 {
        SetupState {
            normalized: st.normalized.push('#').push(c),
            params: st.params.push(st.current),
            current: Seq::empty(),
        }
    } else {
        SetupState { normalized: st.normalized.push(c), ..st }
    }
}

pub open spec fn setup_run(s: Seq<char>) -> SetupState
    decreases s.len(),
{
    if s.len() == 0 {
        SetupState { normalized: Seq::empty(), params: Seq::empty(), current: Seq::empty() }
    } else {
        setup_step(setup_run(s.drop_last()), s.last())
    }
}

/// The key with digit runs replaced by '#', and the runs.
pub open spec fn setup_result(s: Seq<char>) -> (Seq<char>, Seq<Seq<char>>) {
    let st = setup_run(s);
    if st.current.len() > 0 {
        (st.normalized.push('#'), st.params.push(st.current))
    } else {
        (st.normalized, st.params)
    }
}

/// The state of placeholder substitution: output so far and parameters used.
pub struct ApplyState {
    pub result: Seq<char>,
    pub used: int,
}

/// Substitution over `src[i..]` given the state reached at `i`.
pub open spec fn apply_from(src: Seq<char>, params: Seq<Seq<char>>, st: ApplyState, i: int) -> Seq<char>
    decreases src.len() - i,
{
    if i >= src.len() || i < 0 {
        st.result
    } else if src[i] == '#' && i + 1 < src.len() && is_placeholder_type(src[i + 1]) && 0 <= st.used
        < params.len() {
        apply_from(
            src,
            params,
            ApplyState {
                result: st.result + converted_param(src[i + 1], params[st.used]),
                used: st.used + 1,
            },
            i + 2,
        )
    } else {
        apply_from(src, params, ApplyState { result: st.result.push(src[i]), ..st }, i + 1)
    }
}

/// The candidate word with `#N` placeholders substituted.
pub open spec fn substituted(src: Seq<char>, params: Seq<Seq<char>>) -> Seq<char> {
    apply_from(src, params, ApplyState { result: Seq::empty(), used: 0 }, 0)
}

/// Digits of a number after its leading zeros.
pub open spec fn significant_len(p: Seq<char>) -> int {
    p.len() - first_nonzero(p, 0)
}

/// Converting `p` for placeholder type `t` stays within the numeral unit
/// tables: positional numerals name groups up to 10^20.
pub open spec fn param_fits(t: char, p: Seq<char>) -> bool {
    (t == '3' || t == '5') ==> significant_len(p) <= 24
}

/// Every placeholder of `src[i..]`, taken with the parameter it consumes,
/// fits (the substitution walk of `apply_from`).
pub open spec fn fits_from(src: Seq<char>, params: Seq<Seq<char>>, used: int, i: int) -> bool
    decreases src.len() - i,
{
    if i >= src.len() || i < 0 {
        true
    } else if src[i] == '#' && i + 1 < src.len() && is_placeholder_type(src[i + 1]) && 0 <= used < params.len() {
        param_fits(src[i + 1], params[used]) && fits_from(src, params, used + 1, i + 2)
    } else {
        fits_from(src, params, used, i + 1)
    }
}

/// Substituting into `src` converts only numbers that fit.
pub open spec fn substitutes_safely(src: Seq<char>, params: Seq<Seq<char>>) -> bool {
    fits_from(src, params, 0, 0)
}

/// The key rebuilt from a normalized key: each `#` filled, in order, with
/// the next number.
pub open spec fn refilled(norm: Seq<char>, params: Seq<Seq<char>>) -> Seq<char>
    decreases norm.len(),
{
    if norm.len() == 0 {
        Seq::empty()
    } else if norm.last() == '#' && params.len() > 0 {
        refilled(norm.drop_last(), params.drop_last()) + params.last()
    } else {
        refilled(norm.drop_last(), params).push(norm.last())
    }
}

/// No character is `#`.
pub open spec fn hash_free(s: Seq<char>) -> bool {
    forall|i: int| 0 <= i < s.len() ==> #[trigger] s[i] != '#'
}

/// No two `#` stand next to each other.
pub open spec fn no_adjacent_hashes(s: Seq<char>) -> bool {
    forall|i: int, j: int| 0 <= i && j == i + 1 && j < s.len() ==> !(#[trigger] s[i] == '#' && #[trigger] s[j] == '#')
}

spec fn setup_invariant(s: Seq<char>) -> bool {
    let st = setup_run(s);
    &&& refilled(st.normalized, st.params) + st.current == s
    &&& all_digits(st.current)
    &&& forall|i: int| 0 <= i < st.normalized.len() ==> !is_digit(#[trigger] st.normalized[i])
    &&& no_adjacent_hashes(st.normalized)
    &&& st.normalized.len() > 0 ==> st.normalized.last() != '#'
    &&& forall|k: int| 0 <= k < st.params.len() ==> #[trigger] st.params[k].len() > 0 && all_digits(st.params[k])
}

proof fn lemma_setup_invariant(s: Seq<char>)
    requires
        hash_free(s),
    ensures
        setup_invariant(s),
    decreases s.len(),
{
    if s.len() == 0 {
        assert(refilled(Seq::empty(), Seq::empty()) + Seq::<char>::empty() =~= s);
        return;
    }
    let prev = s.drop_last();
    let c = s.last();
    assert(hash_free(prev)) by {
        assert forall|i: int| 0 <= i < prev.len() implies #[trigger] prev[i] != '#' by {
            assert(prev[i] == s[i]);
        }
    }
    lemma_setup_invariant(prev);
    let st = setup_run(prev);
    let n = st.normalized;
    let p = st.params;
    let cur = st.current;
    assert(c == s[s.len() - 1]);
    assert(c != '#');
    assert(prev.push(c) =~= s);
    if is_digit(c) {
        assert(refilled(n, p) + cur.push(c) =~= (refilled(n, p) + cur).push(c));
    } else if cur.len() > 0 {
        let n2 = n.push('#').push(c);
        let p2 = p.push(cur);
        assert(n2.drop_last() =~= n.push('#'));
        assert(n.push('#').drop_last() =~= n);
        assert(p2.drop_last() =~= p);
        assert(refilled(n2, p2) == refilled(n.push('#'), p2).push(c));
        assert(refilled(n.push('#'), p2) == refilled(n, p) + cur);
        assert(refilled(n2, p2) + Seq::<char>::empty() =~= s);
        assert forall|i: int| 0 <= i < n2.len() implies !is_digit(#[trigger] n2[i]) by {
            if i < n.len() {
                assert(n2[i] == n[i]);
            }
        }
        assert forall|i: int, j: int| 0 <= i && j == i + 1 && j < n2.len() implies !(#[trigger] n2[i] == '#'
            && #[trigger] n2[j] == '#') by {
            if j < n.len() {
                assert(n2[i] == n[i] && n2[j] == n[j]);
            } else if j == n.len() && n.len() > 0 {
                assert(n2[i] == n.last());
            }
        }
        assert forall|k: int| 0 <= k < p2.len() implies #[trigger] p2[k].len() > 0 && all_digits(p2[k]) by {
            if k < p.len() {
                assert(p2[k] == p[k]);
            }
        }
    } else {
        let n2 = n.push(c);
        assert(n2.drop_last() =~= n);
        assert(refilled(n2, p) == refilled(n, p).push(c));
        assert(refilled(n, p) + cur =~= refilled(n, p));
        assert(refilled(n2, p) + cur =~= s);
        assert forall|i: int| 0 <= i < n2.len() implies !is_digit(#[trigger] n2[i]) by {
            if i < n.len() {
                assert(n2[i] == n[i]);
            }
        }
        assert forall|i: int, j: int| 0 <= i && j == i + 1 && j < n2.len() implies !(#[trigger] n2[i] == '#'
            && #[trigger] n2[j] == '#') by {
            if j < n.len() {
                assert(n2[i] == n[i] && n2[j] == n[j]);
            }
        }
    }
}

/// Setup cuts a key without `#` at its maximal runs of digits: the
/// normalized key holds no digit and no two `#` in a row, each number is a
/// non-empty run of digits, and filling the `#`s with the numbers in order
/// gives the key back.
pub proof fn law_setup_splits_digit_runs(s: Seq<char>)
    requires
        hash_free(s),
    ensures
        refilled(setup_result(s).0, setup_result(s).1) == s,
        forall|i: int| 0 <= i < setup_result(s).0.len() ==> !is_digit(#[trigger] setup_result(s).0[i]),
        no_adjacent_hashes(setup_result(s).0),
        forall|k: int|
            0 <= k < setup_result(s).1.len() ==> #[trigger] setup_result(s).1[k].len() > 0 && all_digits(
                setup_result(s).1[k],
            ),
{
    lemma_setup_invariant(s);
    let st = setup_run(s);
    let n = st.normalized;
    let p = st.params;
    let cur = st.current;
    if cur.len() > 0 {
        let n2 = n.push('#');
        let p2 = p.push(cur);
        assert(n2.drop_last() =~= n);
        assert(p2.drop_last() =~= p);
        assert(refilled(n2, p2) == refilled(n, p) + cur);
        assert forall|i: int| 0 <= i < n2.len() implies !is_digit(#[trigger] n2[i]) by {
            if i < n.len() {
                assert(n2[i] == n[i]);
            }
        }
        assert forall|i: int, j: int| 0 <= i && j == i + 1 && j < n2.len() implies !(#[trigger] n2[i] == '#'
            && #[trigger] n2[j] == '#') by {
            if j < n.len() {
                assert(n2[i] == n[i] && n2[j] == n[j]);
            } else {
                assert(n2[i] == n.last());
            }
        }
        assert forall|k: int| 0 <= k < p2.len() implies #[trigger] p2[k].len() > 0 && all_digits(p2[k]) by {
            if k < p.len() {
                assert(p2[k] == p[k]);
            }
        }
    } else {
        assert(refilled(n, p) + cur =~= refilled(n, p));
    }
}

/// `s` with each maximal run of ASCII digits replaced by one `#`.
pub open spec fn hashed(s: Seq<char>) -> Seq<char>
    decreases s.len(),
{
    if s.len() == 0 {
        Seq::empty()
    } else if is_digit(s.last()) {
        if s.len() >= 2 && is_digit(s[s.len() - 2]) {
            hashed(s.drop_last())
        } else {
            hashed(s.drop_last()).push('#')
        }
    } else {
        hashed(s.drop_last()).push(s.last())
    }
}

/// Some character of `s` is an ASCII digit.
pub open spec fn has_digit(s: Seq<char>) -> bool {
    exists|i: int| 0 <= i < s.len() && is_digit(#[trigger] s[i])
}

proof fn lemma_setup_hashed(s: Seq<char>)
    ensures
        ({
            let st = setup_run(s);
            &&& (st.current.len() > 0) == (s.len() > 0 && is_digit(s.last()))
            &&& (if st.current.len() > 0 { st.normalized.push('#') } else { st.normalized }) == hashed(s)
            &&& (st.params.len() > 0 || st.current.len() > 0) == has_digit(s)
        }),
    decreases s.len(),
{
    if s.len() > 0 {
        let prev = s.drop_last();
        lemma_setup_hashed(prev);
        let c = s.last();
        if prev.len() > 0 {
            assert(prev.last() == s[s.len() - 2]);
        }
        assert(has_digit(s) == (has_digit(prev) || is_digit(c))) by {
            if has_digit(s) {
                let i = choose|i: int| 0 <= i < s.len() && is_digit(#[trigger] s[i]);
                if i < prev.len() {
                    assert(prev[i] == s[i]);
                }
            }
            if has_digit(prev) {
                let i = choose|i: int| 0 <= i < prev.len() && is_digit(#[trigger] prev[i]);
                assert(s[i] == prev[i]);
            }
            if is_digit(c) {
                assert(s[s.len() - 1] == c);
            }
        }
    } else {
        assert(!has_digit(s));
    }
}

/// Setup puts one `#` in place of each maximal run of ASCII digits of the
/// key, and finds a number exactly when the key holds a digit.
pub proof fn law_setup_hashes_digit_runs(s: Seq<char>)
    ensures
        setup_result(s).0 == hashed(s),
        (setup_result(s).1.len() > 0) == has_digit(s),
{
    lemma_setup_hashed(s);
}

proof fn lemma_apply_plain(src: Seq<char>, params: Seq<Seq<char>>, st: ApplyState, i: int, j: int)
    requires
        0 <= i <= j <= src.len(),
        forall|k: int| i <= k < j ==> #[trigger] src[k] != '#',
    ensures
        apply_from(src, params, st, i) == apply_from(
            src,
            params,
            ApplyState { result: st.result + src.subrange(i, j), used: st.used },
            j,
        ),
    decreases j - i,
{
    if i == j {
        assert(st.result + src.subrange(i, j) =~= st.result);
    } else {
        let st2 = ApplyState { result: st.result.push(src[i]), used: st.used };
        lemma_apply_plain(src, params, st2, i + 1, j);
        assert(st2.result + src.subrange(i + 1, j) =~= st.result + src.subrange(i, j));
    }
}

/// A word without `#` is its own substitution.
pub proof fn law_no_placeholder_unchanged(w: Seq<char>, params: Seq<Seq<char>>)
    requires
        hash_free(w),
    ensures
        substituted(w, params) == w,
{
    let st = ApplyState { result: Seq::empty(), used: 0 };
    lemma_apply_plain(w, params, st, 0, w.len() as int);
    assert(Seq::<char>::empty() + w.subrange(0, w.len() as int) =~= w);
}

/// A word with one placeholder `#t` amid text without `#` becomes that text
/// with the first number, converted by type `t`, in the placeholder's
/// place.
pub proof fn law_single_placeholder(
    pre: Seq<char>,
    t: char,
    post: Seq<char>,
    params: Seq<Seq<char>>,
)
    requires
        hash_free(pre),
        hash_free(post),
        is_placeholder_type(t),
        params.len() > 0,
    ensures
        substituted(pre + seq!['#', t] + post, params) == pre + converted_param(t, params[0]) + post,
{
    let w = pre + seq!['#', t] + post;
    let n = pre.len() as int;
    let st = ApplyState { result: Seq::empty(), used: 0 };
    assert forall|k: int| 0 <= k < n implies #[trigger] w[k] != '#' by {
        assert(w[k] == pre[k]);
    }
    lemma_apply_plain(w, params, st, 0, n);
    assert(w.subrange(0, n) =~= pre);
    assert(w[n] == '#' && w[n + 1] == t);
    let st2 = ApplyState { result: Seq::empty() + pre + converted_param(t, params[0]), used: 1 };
    assert forall|k: int| n + 2 <= k < w.len() implies #[trigger] w[k] != '#' by {
        assert(w[k] == post[k - n - 2]);
    }
    lemma_apply_plain(w, params, st2, n + 2, w.len() as int);
    assert(w.subrange(n + 2, w.len() as int) =~= post);
    lemma_apply_plain(w, params, ApplyState { result: st2.result + post, used: 1 }, w.len() as int, w.len() as int);
    assert(st2.result + post =~= pre + converted_param(t, params[0]) + post);
}

/// Full-width digits: "1024" -> "１０２４" (other characters are dropped).
pub fn convert_type1(src: &str) -> (r: String)
    ensures
        r@ == map_digits(src@, false),
{
    let v = chars_of(src);
    let out = convert_digits(v.as_slice(), false);
    string_of(out.as_slice())
}

/// Kanji digits: "1024" -> "一〇二四" (other characters are dropped).
pub fn convert_type2(src: &str) -> (r: String)
    ensures
        r@ == map_digits(src@, true),
{
    let v = chars_of(src);
    let out = convert_digits(v.as_slice(), true);
    string_of(out.as_slice())
}

/// Positional kanji numerals: "1024" -> "千二十四".
pub fn convert_type3(src: &str) -> (r: String)
    requires
        all_digits(src@),
        significant_len(src@) <= 24,
    ensures
        r@ == positional(Numerals::Kanji, src@),
{
    let v = chars_of(src);
    let out = positional_kanji(v.as_slice(), Numerals::Kanji);
    string_of(out.as_slice())
}

/// Formal (daiji) numerals: "1024" -> "壱阡弐拾四".
pub fn convert_type5(src: &str) -> (r: String)
    requires
        all_digits(src@),
        significant_len(src@) <= 24,
    ensures
        r@ == positional(Numerals::Daiji, src@),
{
    let v = chars_of(src);
    let out = positional_kanji(v.as_slice(), Numerals::Daiji);
    string_of(out.as_slice())
}

/// Shogi notation: "34" -> "３四".
pub fn convert_type9(src: &str) -> (r: String)
    ensures
        r@ == kifu(src@),
{
    let p = chars_of(src);
    let first: usize = if p.len() >= 1 { 1 } else { 0 };
    let mut head: Vec<char> = Vec::new();
    if first == 1 {
        head.push(p[0]);
    }
    let mut second: Vec<char> = Vec::new();
    if p.len() >= 2 {
        second.push(p[1]);
    }
    assert(head@ =~= p@.take(first as int));
    assert(second@ =~= if p@.len() >= 2 { p@.subrange(1, 2) } else { Seq::<char>::empty() });
    let mut r = convert_digits(head.as_slice(), false);
    let t = convert_digits(second.as_slice(), true);
    crate::text::push_chars(&mut r, t.as_slice());
    string_of(r.as_slice())
}

/// Splits numbers out of a lookup key and applies conversions to candidates.
#[derive(Debug)]
pub struct NumericConverter {
    original: String,
    normalized: String,
    params: Vec<Vec<char>>,
}

impl NumericConverter {
    /// The key given to `setup`.
    pub closed spec fn original(self) -> Seq<char> {
        self.original@
    }

    /// The key with digit runs replaced by '#'.
    pub closed spec fn normalized(self) -> Seq<char> {
        self.normalized@
    }

    /// The digit runs of the key.
    pub closed spec fn params(self) -> Seq<Seq<char>> {
        self.params@.map_values(|p: Vec<char>| p@)
    }

    /// Every number found is short enough for positional numerals.
    pub open spec fn params_are_digits(self) -> bool {
        forall|k: int| 0 <= k < self.params().len() ==> all_digits(#[trigger] self.params()[k])
    }

    pub fn new() -> (c: NumericConverter)
        ensures
            c.original() == Seq::<char>::empty(),
            c.normalized() == Seq::<char>::empty(),
            c.params() == Seq::<Seq<char>>::empty(),
    {
        let c = NumericConverter { original: String::new(), normalized: String::new(), params: Vec::new() };
        assert(c.params() =~= Seq::<Seq<char>>::empty());
        c
    }

    /// Normalize the key, replacing digit runs with `#`.
    /// Returns true if the key contained numbers.
    pub fn setup(&mut self, query: &str) -> (r: bool)
        ensures
            final(self).original() == query@,
            final(self).normalized() == setup_result(query@).0,
            final(self).params() == setup_result(query@).1,
            r == (setup_result(query@).1.len() > 0),
            (forall|k: int| 0 <= k < final(self).params().len() ==> all_digits(#[trigger] final(self).params()[k])),
    {
        let v = chars_of(query);
        let mut normalized: Vec<char> = Vec::new();
        let mut params: Vec<Vec<char>> = Vec::new();
        let mut current: Vec<char> = Vec::new();
        let mut i: usize = 0;
        assert(v@.take(0) =~= Seq::<char>::empty());
        assert(params@.map_values(|p: Vec<char>| p@) =~= Seq::<Seq<char>>::empty());
        while i < v.len()
            invariant
                i <= v.len(),
                ({
                    let st = setup_run(v@.take(i as int));
                    &&& normalized@ == st.normalized
                    &&& params@.map_values(|p: Vec<char>| p@) == st.params
                    &&& current@ == st.current
                }),
                all_digits(current@),
                forall|k: int| 0 <= k < params@.len() ==> all_digits(#[trigger] params@[k]@),
            decreases v.len() - i,
        {
            assert(v@.take(i + 1).drop_last() =~= v@.take(i as int));
            let c = v[i];
            if '0' <= c && c <= '9' {
                current.push(c);
            } else {
                if current.len() > 0 {
                    let ghost before = params@;
                    params.push(current);
                    assert(params@.map_values(|p: Vec<char>| p@) =~= before.map_values(|p: Vec<char>| p@).push(current@));
                    current = Vec::new();
                    normalized.push('#');
                }
                normalized.push(c);
            }
            i += 1;
        }
        assert(v@.take(v.len() as int) =~= v@);
        if current.len() > 0 {
            let ghost before = params@;
            params.push(current);
            assert(params@.map_values(|p: Vec<char>| p@) =~= before.map_values(|p: Vec<char>| p@).push(current@));
            normalized.push('#');
        }
        self.original = copy_str(query);
        self.normalized = string_of(normalized.as_slice());
        self.params = params;
        assert forall|k: int| 0 <= k < self.params().len() implies all_digits(#[trigger] self.params()[k]) by {
            assert(self.params()[k] == self.params@[k]@);
        }
        self.params.len() > 0
    }

    pub fn original_key(&self) -> (r: &str)
        ensures
            r@ == self.original(),
    {
        self.original.as_str()
    }

    /// The normalized key when numbers were found, else the original key.
    pub fn normalized_key(&self) -> (r: &str)
        ensures
            r@ == if self.params().len() > 0 { self.normalized() } else { self.original() },
    {
        if self.params.len() == 0 {
            self.original.as_str()
        } else {
            self.normalized.as_str()
        }
    }

    fn convert_param(&self, t: char, k: usize) -> (r: Vec<char>)
        requires
            k < self.params().len(),
            self.params_are_digits(),
            param_fits(t, self.params()[k as int]),
        ensures
            r@ == converted_param(t, self.params()[k as int]),
    {
        let p = &self.params[k];
        assert(p@ == self.params()[k as int]);
        assert(all_digits(p@));
        if t == '1' {
            convert_digits(p.as_slice(), false)
        } else if t == '2' {
            convert_digits(p.as_slice(), true)
        } else if t == '3' {
            positional_kanji(p.as_slice(), Numerals::Kanji)
        } else if t == '5' {
            positional_kanji(p.as_slice(), Numerals::Daiji)
        } else if t == '9' {
            let first: usize = if p.len() >= 1 { 1 } else { 0 };
            let mut head: Vec<char> = Vec::new();
            if first == 1 {
                head.push(p[0]);
            }
            let mut second: Vec<char> = Vec::new();
            if p.len() >= 2 {
                second.push(p[1]);
            }
            assert(head@ =~= p@.take(first as int));
            assert(second@ =~= if p@.len() >= 2 { p@.subrange(1, 2) } else { Seq::<char>::empty() });
            let mut r = convert_digits(head.as_slice(), false);
            let s = convert_digits(second.as_slice(), true);
            crate::text::push_chars(&mut r, s.as_slice());
            r
        } else {
            let mut r: Vec<char> = Vec::new();
            crate::text::push_chars(&mut r, p.as_slice());
            r
        }
    }

    /// Whether `apply` can convert every placeholder of the candidate: a
    /// positional numeral of more than 24 significant digits has no unit.
    pub fn can_apply(&self, candidate: &Candidate) -> (r: bool)
        requires
            self.params_are_digits(),
        ensures
            r == substitutes_safely(candidate@.word, self.params()),
    {
        let src = chars_of(candidate.word());
        let mut used: usize = 0;
        let mut i: usize = 0;
        while i < src.len()
            invariant
                i <= src.len(),
                used <= self.params().len(),
                self.params_are_digits(),
                self.params@.len() == self.params().len(),
                src@ == candidate@.word,
                substitutes_safely(src@, self.params()) == fits_from(src@, self.params(), used as int, i as int),
            decreases src.len() - i,
        {
            if src[i] == '#' && i + 1 < src.len() && (('0' <= src[i + 1] && src[i + 1] <= '5') || src[i + 1] == '9')
                && used < self.params.len() {
                let t = src[i + 1];
                if t == '3' || t == '5' {
                    let p = &self.params[used];
                    assert(p@ == self.params()[used as int]);
                    let mut start: usize = 0;
                    while start < p.len() && p[start] == '0'
                        invariant
                            start <= p.len(),
                            first_nonzero(p@, 0) == first_nonzero(p@, start as int),
                        decreases p.len() - start,
                    {
                        start += 1;
                    }
                    assert(first_nonzero(p@, start as int) == start);
                    if p.len() - start > 24 {
                        assert(significant_len(self.params()[used as int]) > 24);
                        assert(!fits_from(src@, self.params(), used as int, i as int));
                        return false;
                    }
                }
                used += 1;
                i += 2;
            } else {
                i += 1;
            }
        }
        true
    }

    /// Replace `#N` placeholders in the candidate with converted numbers,
    /// storing the result as the candidate's variant.
    pub fn apply(&self, candidate: &mut Candidate)
        requires
            self.params_are_digits(),
            substitutes_safely(old(candidate)@.word, self.params()),
        ensures
            self.params().len() == 0 ==> final(candidate)@ == old(candidate)@,
            self.params().len() > 0 ==> final(candidate)@ == (CandidateModel {
                variant: substituted(old(candidate)@.word, self.params()),
                ..old(candidate)@
            }),
    {
        if self.params.len() == 0 {
            return;
        }
        let src = chars_of(candidate.word());
        let mut result: Vec<char> = Vec::new();
        let mut used: usize = 0;
        let mut i: usize = 0;
        while i < src.len()
            invariant
                i <= src.len(),
                used <= self.params().len(),
                self.params_are_digits(),
                self.params@.len() == self.params().len(),
                fits_from(src@, self.params(), used as int, i as int),
                apply_from(src@, self.params(), ApplyState { result: result@, used: used as int }, i as int)
                    == substituted(src@, self.params()),
            decreases src.len() - i,
        {
            if src[i] == '#' && i + 1 < src.len() && (('0' <= src[i + 1] && src[i + 1] <= '5') || src[i + 1] == '9')
                && used < self.params.len() {
                let conv = self.convert_param(src[i + 1], used);
                crate::text::push_chars(&mut result, conv.as_slice());
                used += 1;
                i += 2;
            } else {
                result.push(src[i]);
                i += 1;
            }
        }
        let s = string_of(result.as_slice());
        candidate.set_variant(s.as_str());
    }
}

impl Default for NumericConverter {
    fn default() -> (c: Self)
        ensures
            c.original() == Seq::<char>::empty(),
            c.normalized() == Seq::<char>::empty(),
            c.params() == Seq::<Seq<char>>::empty(),
    {
        NumericConverter::new()
    }
}

} // verus!
