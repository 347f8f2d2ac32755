//! Character-sequence helpers shared by the engine.
//!
//! Text is modelled as `Seq<char>` (the view of `String` and `&str`).

use vstd::prelude::*;

verus! {

/// What `String::from_utf8_lossy` makes of `bytes`.
pub uninterp spec fn lossy_decoded(bytes: Seq<u8>) -> Seq<char>;

/// Decode bytes as UTF-8 with `String::from_utf8_lossy`: invalid sequences
/// become U+FFFD; valid UTF-8 decodes to the characters it encodes.
#[verifier::external_body]
pub(crate) fn decode_lossy(bytes: &[u8]) -> (r: String)
    ensures
        r@ == lossy_decoded(bytes@),
        vstd::utf8::valid_utf8(bytes@) ==> r@ == vstd::utf8::decode_utf8(bytes@),
{
    String::from_utf8_lossy(bytes).into_owned()
}

/// Whether `bytes` are valid UTF-8, by `std::str::from_utf8`.
#[verifier::external_body]
pub(crate) fn is_valid_utf8(bytes: &[u8]) -> (r: bool)
    ensures
        r == vstd::utf8::valid_utf8(bytes@),
{
    std::str::from_utf8(bytes).is_ok()
}

pub assume_specification[ String::push ](string: &mut String, ch: char)
    ensures
        final(string)@ == old(string)@.push(ch),
;

/// `p` is a prefix of `s`.
pub open spec fn has_prefix(s: Seq<char>, p: Seq<char>) -> bool {
    p.len() <= s.len() && s.take(p.len() as int) == p
}

/// `p` is a suffix of `s`.
pub open spec fn has_suffix(s: Seq<char>, p: Seq<char>) -> bool {
    p.len() <= s.len() && s.skip(s.len() - p.len()) == p
}

/// `sub` occurs in `s` starting at index `i`.
pub open spec fn occurs_at(s: Seq<char>, sub: Seq<char>, i: int) -> bool {
    0 <= i && i + sub.len() <= s.len() && s.subrange(i, i + sub.len()) == sub
}

/// `sub` occurs somewhere in `s`.
pub open spec fn occurs_in(s: Seq<char>, sub: Seq<char>) -> bool {
    exists|i: int| occurs_at(s, sub, i)
}

/// Left-to-right, non-overlapping replacement of every occurrence of `from`
/// by `to` (the meaning of `str::replace`).
pub open spec fn replace_all(s: Seq<char>, from: Seq<char>, to: Seq<char>) -> Seq<char>
    decreases s.len(),
{
    if s.len() == 0 {
        Seq::empty()
    } else if from.len() > 0 && has_prefix(s, from) {
        to + replace_all(s.skip(from.len() as int), from, to)
    } else {
        seq![s[0]] + replace_all(s.skip(1), from, to)
    }
}

/// `s` has no character `x`.
pub open spec fn lacks(s: Seq<char>, x: char) -> bool {
    forall|i: int| 0 <= i < s.len() ==> #[trigger] s[i] != x
}

/// Replacing within a text without `x`, by text without `x`, brings no `x`.
pub proof fn lemma_replace_keeps_lack(s: Seq<char>, from: Seq<char>, to: Seq<char>, x: char)
    requires
        lacks(s, x),
        lacks(to, x),
    ensures
        lacks(replace_all(s, from, to), x),
    decreases s.len(),
{
    if s.len() > 0 {
        if from.len() > 0 && has_prefix(s, from) {
            assert(lacks(s.skip(from.len() as int), x)) by {
                assert forall|i: int| 0 <= i < s.skip(from.len() as int).len() implies #[trigger] s.skip(
                    from.len() as int,
                )[i] != x by {
                    assert(s.skip(from.len() as int)[i] == s[i + from.len()]);
                }
            }
            lemma_replace_keeps_lack(s.skip(from.len() as int), from, to, x);
            let r = replace_all(s.skip(from.len() as int), from, to);
            assert forall|i: int| 0 <= i < (to + r).len() implies #[trigger] (to + r)[i] != x by {
                if i >= to.len() {
                    assert((to + r)[i] == r[i - to.len()]);
                }
            }
        } else {
            assert(lacks(s.skip(1), x)) by {
                assert forall|i: int| 0 <= i < s.skip(1).len() implies #[trigger] s.skip(1)[i] != x by {
                    assert(s.skip(1)[i] == s[i + 1]);
                }
            }
            lemma_replace_keeps_lack(s.skip(1), from, to, x);
            let r = replace_all(s.skip(1), from, to);
            assert forall|i: int| 0 <= i < (seq![s[0]] + r).len() implies #[trigger] (seq![s[0]] + r)[i] != x by {
                if i >= 1 {
                    assert((seq![s[0]] + r)[i] == r[i - 1]);
                }
            }
        }
    }
}

/// Replacing every `x` by text without `x` leaves no `x`.
pub proof fn lemma_replace_removes(s: Seq<char>, x: char, to: Seq<char>)
    requires
        lacks(to, x),
    ensures
        lacks(replace_all(s, seq![x], to), x),
    decreases s.len(),
{
    if s.len() > 0 {
        let from = seq![x];
        if has_prefix(s, from) {
            lemma_replace_removes(s.skip(1), x, to);
            let r = replace_all(s.skip(1), from, to);
            assert forall|i: int| 0 <= i < (to + r).len() implies #[trigger] (to + r)[i] != x by {
                if i >= to.len() {
                    assert((to + r)[i] == r[i - to.len()]);
                }
            }
        } else {
            assert(s[0] != x) by {
                if s[0] == x {
                    assert(s.take(1) =~= from);
                }
            }
            lemma_replace_removes(s.skip(1), x, to);
            let r = replace_all(s.skip(1), from, to);
            assert forall|i: int| 0 <= i < (seq![s[0]] + r).len() implies #[trigger] (seq![s[0]] + r)[i] != x by {
                if i >= 1 {
                    assert((seq![s[0]] + r)[i] == r[i - 1]);
                }
            }
        }
    }
}

/// Text within which no occurrence of `pat` starts passes a replacement
/// unchanged.
pub proof fn lemma_replace_passes(p: Seq<char>, y: Seq<char>, pat: Seq<char>, t: Seq<char>)
    requires
        pat.len() > 0,
        forall|i: int| 0 <= i < p.len() ==> !has_prefix(#[trigger] (p + y).skip(i), pat),
    ensures
        replace_all(p + y, pat, t) == p + replace_all(y, pat, t),
    decreases p.len(),
{
    if p.len() == 0 {
        assert(p + y =~= y);
        assert(p + replace_all(y, pat, t) =~= replace_all(y, pat, t));
    } else {
        assert((p + y).skip(0) =~= p + y);
        assert(!has_prefix((p + y).skip(0), pat));
        let q = p.skip(1);
        assert((p + y).skip(1) =~= q + y);
        assert forall|i: int| 0 <= i < q.len() implies !has_prefix(#[trigger] (q + y).skip(i), pat) by {
            assert((q + y).skip(i) =~= (p + y).skip(i + 1));
        }
        lemma_replace_passes(q, y, pat, t);
        assert((p + y)[0] == p[0]);
        assert(seq![p[0]] + (q + replace_all(y, pat, t)) =~= p + replace_all(y, pat, t));
    }
}

/// An occurrence of `pat` in front is replaced.
pub proof fn lemma_replace_hits(y: Seq<char>, pat: Seq<char>, t: Seq<char>)
    requires
        pat.len() > 0,
    ensures
        replace_all(pat + y, pat, t) == t + replace_all(y, pat, t),
{
    assert((pat + y).take(pat.len() as int) =~= pat);
    assert((pat + y).skip(pat.len() as int) =~= y);
}

/// Replacing a character other than the first keeps the first character.
pub proof fn lemma_replace_keeps_first(s: Seq<char>, x: char, to: Seq<char>)
    requires
        s.len() > 0,
        s[0] != x,
    ensures
        replace_all(s, seq![x], to).len() > 0,
        replace_all(s, seq![x], to)[0] == s[0],
{
    assert(!has_prefix(s, seq![x])) by {
        if has_prefix(s, seq![x]) {
            assert(s.take(1)[0] == x);
        }
    }
}

/// Index of the first occurrence of `c` in `s`, if any.
pub open spec fn first_index_of(s: Seq<char>, c: char) -> Option<int>
    decreases s.len(),
{
    if s.len() == 0 {
        None
    } else if s[0] == c {
        Some(0)
    } else {
        match first_index_of(s.skip(1), c) {
            Some(i) => Some(i + 1),
            None => None,
        }
    }
}

pub proof fn lemma_first_index_of(s: Seq<char>, c: char)
    ensures
        first_index_of(s, c) matches Some(i) ==> 0 <= i < s.len() && s[i] == c && forall|j: int|
            0 <= j < i ==> s[j] != c,
        first_index_of(s, c) is None ==> forall|j: int| 0 <= j < s.len() ==> s[j] != c,
    decreases s.len(),
{
    if s.len() > 0 {
        lemma_first_index_of(s.skip(1), c);
        if s[0] != c {
            assert forall|j: int| 1 <= j < s.len() implies s[j] == s.skip(1)[j - 1] by {}
        }
    }
}

/// The characters of a string.
pub fn chars_of(s: &str) -> (v: Vec<char>)
    ensures
        v@ == s@,
{
    let mut v: Vec<char> = Vec::new();
    for c in it: s.chars()
        invariant
            v@ == it.seq().take(it.index() as int),
            it.seq() == s@,
    {
        v.push(c);
    }
    v
}

/// A string made of the given characters.
pub fn string_of(v: &[char]) -> (s: String)
    ensures
        s@ == v@,
{
    let mut s = String::new();
    let mut i: usize = 0;
    while i < v.len()
        invariant
            i <= v.len(),
            s@ == v@.take(i as int),
        decreases v.len() - i,
    {
        s.push(v[i]);
        assert(v@.take(i + 1) == v@.take(i as int).push(v@[i as int]));
        i += 1;
    }
    assert(v@.take(v.len() as int) == v@);
    s
}

/// A string made of `v[start..end]`.
pub fn string_of_range(v: &[char], start: usize, end: usize) -> (s: String)
    requires
        start <= end <= v.len(),
    ensures
        s@ == v@.subrange(start as int, end as int),
{
    let mut s = String::new();
    let mut i: usize = start;
    while i < end
        invariant
            start <= i <= end <= v.len(),
            s@ == v@.subrange(start as int, i as int),
        decreases end - i,
    {
        s.push(v[i]);
        assert(v@.subrange(start as int, i + 1) == v@.subrange(start as int, i as int).push(
            v@[i as int],
        ));
        i += 1;
    }
    s
}

/// The characters `v[start..end]`.
pub fn chars_range(v: &[char], start: usize, end: usize) -> (r: Vec<char>)
    requires
        start <= end <= v.len(),
    ensures
        r@ == v@.subrange(start as int, end as int),
{
    let mut r: Vec<char> = Vec::new();
    let mut i: usize = start;
    while i < end
        invariant
            start <= i <= end <= v@.len(),
            r@ == v@.subrange(start as int, i as int),
        decreases end - i,
    {
        r.push(v[i]);
        assert(v@.subrange(start as int, i + 1) =~= v@.subrange(start as int, i as int).push(v@[i as int]));
        i += 1;
    }
    r
}

/// A copy of a string.
pub fn copy_str(s: &str) -> (r: String)
    ensures
        r@ == s@,
{
    s.to_owned()
}

/// Append the characters of `v` to `dst`.
pub fn push_chars(dst: &mut Vec<char>, v: &[char])
    ensures
        final(dst)@ == old(dst)@ + v@,
{
    let mut i: usize = 0;
    while i < v.len()
        invariant
            i <= v.len(),
            dst@ == old(dst)@ + v@.take(i as int),
        decreases v.len() - i,
    {
        dst.push(v[i]);
        assert(v@.take(i + 1) == v@.take(i as int).push(v@[i as int]));
        i += 1;
    }
    assert(v@.take(v.len() as int) == v@);
}

/// Append a string to a character vector.
pub fn push_str_chars(dst: &mut Vec<char>, s: &str)
    ensures
        final(dst)@ == old(dst)@ + s@,
{
    let v = chars_of(s);
    push_chars(dst, v.as_slice());
}

/// Append `v` to a string.
pub fn append_chars(dst: &mut String, v: &[char])
    ensures
        final(dst)@ == old(dst)@ + v@,
{
    let mut i: usize = 0;
    while i < v.len()
        invariant
            i <= v.len(),
            dst@ == old(dst)@ + v@.take(i as int),
        decreases v.len() - i,
    {
        dst.push(v[i]);
        assert(v@.take(i + 1) == v@.take(i as int).push(v@[i as int]));
        i += 1;
    }
    assert(v@.take(v.len() as int) == v@);
}

/// Character-wise equality of two sequences.
pub fn chars_eq(a: &[char], b: &[char]) -> (r: bool)
    ensures
        r == (a@ == b@),
{
    if a.len() != b.len() {
        return false;
    }
    let mut i: usize = 0;
    while i < a.len()
        invariant
            i <= a.len() == b.len(),
            forall|j: int| 0 <= j < i ==> a@[j] == b@[j],
        decreases a.len() - i,
    {
        if a[i] != b[i] {
            return false;
        }
        i += 1;
    }
    assert(a@ =~= b@);
    true
}

/// String equality.
pub fn str_eq(a: &str, b: &str) -> (r: bool)
    ensures
        r == (a@ == b@),
{
    let va = chars_of(a);
    let vb = chars_of(b);
    chars_eq(va.as_slice(), vb.as_slice())
}

/// `p` occurs in `s` at index `i`.
pub fn chars_occur_at(s: &[char], p: &[char], i: usize) -> (r: bool)
    ensures
        r == occurs_at(s@, p@, i as int),
{
    if i > s.len() || p.len() > s.len() - i {
        return false;
    }
    let mut j: usize = 0;
    while j < p.len()
        invariant
            i + p.len() <= s.len(),
            j <= p.len(),
            forall|k: int| 0 <= k < j ==> s@[i + k] == p@[k],
        decreases p.len() - j,
    {
        if s[i + j] != p[j] {
            assert(s@.subrange(i as int, i + p.len())[j as int] != p@[j as int]);
            return false;
        }
        j += 1;
    }
    assert(s@.subrange(i as int, i + p.len()) =~= p@);
    true
}

/// `p` is a prefix of `s`.
pub fn chars_starts_with(s: &[char], p: &[char]) -> (r: bool)
    ensures
        r == has_prefix(s@, p@),
{
    let r = chars_occur_at(s, p, 0);
    assert(s@.subrange(0, p@.len() as int) == s@.take(p@.len() as int));
    r
}

/// `p` is a prefix of `s`.
pub fn str_starts_with(s: &str, p: &str) -> (r: bool)
    ensures
        r == has_prefix(s@, p@),
{
    let vs = chars_of(s);
    let vp = chars_of(p);
    chars_starts_with(vs.as_slice(), vp.as_slice())
}

/// `p` is a suffix of `s`.
pub fn chars_ends_with(s: &[char], p: &[char]) -> (r: bool)
    ensures
        r == has_suffix(s@, p@),
{
    if p.len() > s.len() {
        return false;
    }
    let r = chars_occur_at(s, p, s.len() - p.len());
    assert(s@.subrange(s.len() - p.len(), s.len() as int) == s@.skip(s.len() - p.len()));
    r
}

/// `p` occurs somewhere in `s`.
pub fn chars_contains(s: &[char], p: &[char]) -> (r: bool)
    ensures
        r == occurs_in(s@, p@),
{
    let mut i: usize = 0;
    while i < s.len()
        invariant
            i <= s.len(),
            forall|k: int| 0 <= k < i ==> !occurs_at(s@, p@, k),
        decreases s.len() - i,
    {
        if chars_occur_at(s, p, i) {
            return true;
        }
        i += 1;
    }
    if chars_occur_at(s, p, i) {
        return true;
    }
    assert forall|k: int| !occurs_at(s@, p@, k) by {
        if 0 <= k <= i {
        }
    }
    false
}

/// Index of the first occurrence of `c`.
pub fn chars_find(s: &[char], c: char) -> (r: Option<usize>)
    ensures
        r matches Some(i) ==> first_index_of(s@, c) == Some(i as int),
        r is None ==> first_index_of(s@, c) is None,
{
    proof {
        lemma_first_index_of(s@, c);
    }
    let mut i: usize = 0;
    while i < s.len()
        invariant
            i <= s.len(),
            forall|k: int| 0 <= k < i ==> s@[k] != c,
        decreases s.len() - i,
    {
        if s[i] == c {
            proof {
                lemma_first_index_unique(s@, c, i as int);
            }
            return Some(i);
        }
        i += 1;
    }
    proof {
        lemma_first_index_none(s@, c);
    }
    None
}

pub proof fn lemma_first_index_unique(s: Seq<char>, c: char, i: int)
    requires
        0 <= i < s.len(),
        s[i] == c,
        forall|k: int| 0 <= k < i ==> s[k] != c,
    ensures
        first_index_of(s, c) == Some(i),
    decreases s.len(),
{
    if i > 0 {
        lemma_first_index_unique(s.skip(1), c, i - 1);
    }
}

pub proof fn lemma_first_index_none(s: Seq<char>, c: char)
    requires
        forall|k: int| 0 <= k < s.len() ==> s[k] != c,
    ensures
        first_index_of(s, c) is None,
    decreases s.len(),
{
    if s.len() > 0 {
        lemma_first_index_none(s.skip(1), c);
    }
}

pub proof fn lemma_replace_all_step(s: Seq<char>, from: Seq<char>, to: Seq<char>, i: int)
    requires
        0 <= i < s.len(),
    ensures
        from.len() > 0 && has_prefix(s.skip(i), from) ==> replace_all(s.skip(i), from, to) == to
            + replace_all(s.skip(i + from.len()), from, to),
        !(from.len() > 0 && has_prefix(s.skip(i), from)) ==> replace_all(s.skip(i), from, to)
            == seq![s[i]] + replace_all(s.skip(i + 1), from, to),
{
    let t = s.skip(i);
    if from.len() > 0 && has_prefix(t, from) {
        assert(t.skip(from.len() as int) =~= s.skip(i + from.len()));
    } else {
        assert(t.skip(1) =~= s.skip(i + 1));
    }
}

/// Replace every occurrence of `from` by `to`, scanning left to right.
pub fn chars_replace(s: &[char], from: &[char], to: &[char]) -> (r: Vec<char>)
    ensures
        r@ == replace_all(s@, from@, to@),
{
    let mut out: Vec<char> = Vec::new();
    let mut i: usize = 0;
    assert(s@.skip(0) =~= s@);
    while i < s.len()
        invariant
            i <= s.len(),
            out@ + replace_all(s@.skip(i as int), from@, to@) == replace_all(s@, from@, to@),
        decreases s.len() - i,
    {
        proof {
            lemma_replace_all_step(s@, from@, to@, i as int);
        }
        let hit = from.len() > 0 && chars_occur_at(s, from, i);
        assert(hit == (from@.len() > 0 && has_prefix(s@.skip(i as int), from@))) by {
            if from@.len() > 0 && i + from@.len() <= s@.len() {
                assert(s@.skip(i as int).take(from@.len() as int) =~= s@.subrange(
                    i as int,
                    i + from@.len(),
                ));
            }
        }
        if hit {
            let ghost before = out@;
            push_chars(&mut out, to);
            assert(out@ + replace_all(s@.skip(i + from@.len()), from@, to@) =~= before + (to@
                + replace_all(s@.skip(i + from@.len()), from@, to@)));
            i += from.len();
        } else {
            let ghost before = out@;
            out.push(s[i]);
            assert(out@ + replace_all(s@.skip(i + 1), from@, to@) =~= before + (seq![s@[i as int]]
                + replace_all(s@.skip(i + 1), from@, to@)));
            i += 1;
        }
    }
    assert(s@.skip(s@.len() as int) =~= Seq::<char>::empty());
    assert(out@ + Seq::<char>::empty() =~= out@);
    out
}

/// `str::replace` on strings.
pub fn str_replace(s: &str, from: &str, to: &str) -> (r: String)
    ensures
        r@ == replace_all(s@, from@, to@),
{
    let vs = chars_of(s);
    let vf = chars_of(from);
    let vt = chars_of(to);
    let r = chars_replace(vs.as_slice(), vf.as_slice(), vt.as_slice());
    string_of(r.as_slice())
}

/// Lexicographic order of character sequences by code point (the order of
/// `str`, whose UTF-8 byte order agrees with code point order).
pub open spec fn seq_lt(a: Seq<char>, b: Seq<char>) -> bool
    decreases a.len(),
{
    if a.len() == 0 {
        b.len() > 0
    } else if b.len() == 0 {
        false
    } else if a[0] != b[0] {
        a[0] < b[0]
    } else {
        seq_lt(a.skip(1), b.skip(1))
    }
}

pub open spec fn seq_le(a: Seq<char>, b: Seq<char>) -> bool {
    a == b || seq_lt(a, b)
}

pub proof fn lemma_seq_lt_irreflexive(a: Seq<char>)
    ensures
        !seq_lt(a, a),
    decreases a.len(),
{
    if a.len() > 0 {
        lemma_seq_lt_irreflexive(a.skip(1));
    }
}

pub proof fn lemma_seq_lt_transitive(a: Seq<char>, b: Seq<char>, c: Seq<char>)
    requires
        seq_lt(a, b),
        seq_lt(b, c),
    ensures
        seq_lt(a, c),
    decreases a.len(),
{
    if a.len() > 0 && b.len() > 0 && c.len() > 0 && a[0] == b[0] && b[0] == c[0] {
        lemma_seq_lt_transitive(a.skip(1), b.skip(1), c.skip(1));
    }
}

pub proof fn lemma_seq_lt_total(a: Seq<char>, b: Seq<char>)
    ensures
        seq_lt(a, b) || a == b || seq_lt(b, a),
    decreases a.len(),
{
    if a.len() > 0 && b.len() > 0 && a[0] == b[0] {
        lemma_seq_lt_total(a.skip(1), b.skip(1));
        if a.skip(1) == b.skip(1) {
            assert(a =~= seq![a[0]] + a.skip(1));
            assert(b =~= seq![b[0]] + b.skip(1));
        }
    } else if a.len() == 0 && b.len() == 0 {
        assert(a =~= b);
    }
}

pub proof fn lemma_seq_lt_asymmetric(a: Seq<char>, b: Seq<char>)
    requires
        seq_lt(a, b),
    ensures
        !seq_lt(b, a),
{
    if seq_lt(b, a) {
        lemma_seq_lt_transitive(a, b, a);
        lemma_seq_lt_irreflexive(a);
    }
}

/// A string is never below its own prefix.
pub proof fn lemma_prefix_not_below(s: Seq<char>, p: Seq<char>)
    requires
        has_prefix(s, p),
    ensures
        !seq_lt(s, p),
    decreases p.len(),
{
    if p.len() > 0 {
        assert(s[0] == s.take(p.len() as int)[0]);
        assert(s.skip(1).take(p.len() - 1) =~= p.skip(1)) by {
            assert forall|k: int| 0 <= k < p.len() - 1 implies s.skip(1).take(p.len() - 1)[k] == p.skip(1)[k] by {
                assert(s.take(p.len() as int)[k + 1] == p[k + 1]);
            }
        }
        lemma_prefix_not_below(s.skip(1), p.skip(1));
    }
}

/// Strings between two strings with prefix `p` have prefix `p`.
pub proof fn lemma_prefix_between(a: Seq<char>, b: Seq<char>, c: Seq<char>, p: Seq<char>)
    requires
        has_prefix(a, p),
        has_prefix(c, p),
        seq_le(a, b),
        seq_le(b, c),
    ensures
        has_prefix(b, p),
    decreases p.len(),
{
    if p.len() == 0 {
        assert(b.take(0) =~= p);
    } else if a == b || b == c {
    } else {
        assert(a[0] == a.take(p.len() as int)[0]);
        assert(c[0] == c.take(p.len() as int)[0]);
        assert(b.len() > 0);
        assert(b[0] == a[0]);
        assert(a.skip(1).take(p.len() - 1) =~= p.skip(1)) by {
            assert forall|k: int| 0 <= k < p.len() - 1 implies a.skip(1).take(p.len() - 1)[k] == p.skip(1)[k] by {
                assert(a.take(p.len() as int)[k + 1] == p[k + 1]);
            }
        }
        assert(c.skip(1).take(p.len() - 1) =~= p.skip(1)) by {
            assert forall|k: int| 0 <= k < p.len() - 1 implies c.skip(1).take(p.len() - 1)[k] == p.skip(1)[k] by {
                assert(c.take(p.len() as int)[k + 1] == p[k + 1]);
            }
        }
        lemma_prefix_between(a.skip(1), b.skip(1), c.skip(1), p.skip(1));
        assert(b.take(p.len() as int) =~= p) by {
            assert forall|k: int| 0 <= k < p.len() implies b.take(p.len() as int)[k] == p[k] by {
                if k > 0 {
                    assert(b.skip(1).take(p.len() - 1)[k - 1] == p.skip(1)[k - 1]);
                }
            }
        }
    }
}

/// Three-way comparison: -1, 0 or 1.
pub fn compare_chars(a: &[char], b: &[char]) -> (r: i8)
    ensures
        r == -1 <==> seq_lt(a@, b@),
        r == 0 <==> a@ == b@,
        r == 1 <==> seq_lt(b@, a@),
        -1 <= r <= 1,
{
    let mut i: usize = 0;
    assert(a@.skip(0) =~= a@);
    assert(b@.skip(0) =~= b@);
    while i < a.len() && i < b.len()
        invariant
            i <= a.len(),
            i <= b.len(),
            a@.take(i as int) == b@.take(i as int),
            seq_lt(a@, b@) == seq_lt(a@.skip(i as int), b@.skip(i as int)),
            seq_lt(b@, a@) == seq_lt(b@.skip(i as int), a@.skip(i as int)),
        decreases a.len() - i,
    {
        if a[i] != b[i] {
            let r: i8 = if a[i] < b[i] { -1 } else { 1 };
            proof {
                if a@ == b@ {
                    assert(a@[i as int] == b@[i as int]);
                }
            }
            return r;
        }
        assert(a@.skip(i as int).skip(1) =~= a@.skip(i + 1));
        assert(b@.skip(i as int).skip(1) =~= b@.skip(i + 1));
        assert(a@.take(i + 1) =~= a@.take(i as int).push(a@[i as int]));
        assert(b@.take(i + 1) =~= b@.take(i as int).push(b@[i as int]));
        i += 1;
    }
    if a.len() == b.len() {
        assert(a@ =~= a@.take(i as int));
        assert(b@ =~= b@.take(i as int));
        proof {
            lemma_seq_lt_irreflexive(a@);
        }
        0
    } else if a.len() < b.len() {
        proof {
            if a@ == b@ {
                assert(a@.len() == b@.len());
            }
        }
        -1
    } else {
        proof {
            if a@ == b@ {
                assert(a@.len() == b@.len());
            }
        }
        1
    }
}

/// Unicode White_Space (the meaning of `char::is_whitespace`).
pub open spec fn is_white_space(c: char) -> bool {
    ('\u{9}' <= c <= '\u{d}') || c == ' ' || c == '\u{85}' || c == '\u{a0}' || c == '\u{1680}'
        || ('\u{2000}' <= c <= '\u{200a}') || c == '\u{2028}' || c == '\u{2029}' || c == '\u{202f}'
        || c == '\u{205f}' || c == '\u{3000}'
}

pub fn char_is_white_space(c: char) -> (r: bool)
    ensures
        r == is_white_space(c),
{
    ('\u{9}' <= c && c <= '\u{d}') || c == ' ' || c == '\u{85}' || c == '\u{a0}' || c == '\u{1680}'
        || ('\u{2000}' <= c && c <= '\u{200a}') || c == '\u{2028}' || c == '\u{2029}' || c == '\u{202f}'
        || c == '\u{205f}' || c == '\u{3000}'
}

/// `s` without trailing white space (the meaning of `str::trim_end`).
pub open spec fn trim_end(s: Seq<char>) -> Seq<char>
    decreases s.len(),
{
    if s.len() > 0 && is_white_space(s.last()) {
        trim_end(s.drop_last())
    } else {
        s
    }
}

pub fn chars_trim_end(v: &[char]) -> (r: usize)
    ensures
        r <= v@.len(),
        v@.take(r as int) == trim_end(v@),
{
    let mut n: usize = v.len();
    assert(v@.take(n as int) =~= v@);
    while n > 0 && char_is_white_space(v[n - 1])
        invariant
            n <= v@.len(),
            trim_end(v@.take(n as int)) == trim_end(v@),
        decreases n,
    {
        assert(v@.take(n as int).drop_last() =~= v@.take(n - 1));
        n -= 1;
    }
    n
}

/// The decimal digit character for `d` (0..9).
pub open spec fn digit_char(d: int) -> char {
    (('0' as int) + d) as char
}

/// Decimal representation of a natural number.
pub open spec fn decimal(n: nat) -> Seq<char>
    decreases n,
{
    if n < 10 {
        seq![digit_char(n as int)]
    } else {
        decimal(n / 10).push(digit_char((n % 10) as int))
    }
}

/// Decimal representation left-padded with '0' to at least `width`.
pub open spec fn padded(n: nat, width: nat) -> Seq<char> {
    let d = decimal(n);
    if d.len() < width {
        Seq::new((width - d.len()) as nat, |i: int| '0') + d
    } else {
        d
    }
}

/// Decimal representation of a signed integer padded like `{:0width}`:
/// the sign counts towards the width.
pub open spec fn padded_signed(n: int, width: nat) -> Seq<char> {
    if n < 0 {
        seq!['-'] + padded((-n) as nat, if width > 0 { (width - 1) as nat } else { 0 })
    } else {
        padded(n as nat, width)
    }
}

fn digit_char_exec(d: u64) -> (c: char)
    requires
        d < 10,
    ensures
        c == digit_char(d as int),
{
    let c = ((48 + d) as u8) as char;
    c
}

/// Append the decimal digits of `n`.
pub fn push_decimal(out: &mut Vec<char>, n: u64)
    ensures
        final(out)@ == old(out)@ + decimal(n as nat),
    decreases n,
{
    if n < 10 {
        out.push(digit_char_exec(n));
        assert(old(out)@ + decimal(n as nat) =~= old(out)@.push(digit_char(n as int)));
    } else {
        push_decimal(out, n / 10);
        out.push(digit_char_exec(n % 10));
        assert(old(out)@ + decimal(n as nat) =~= old(out)@ + decimal((n / 10) as nat) + seq![digit_char((n % 10) as int)]);
    }
}

/// Append `n` in decimal, left-padded with '0' to `width`.
pub fn push_padded(out: &mut Vec<char>, n: u64, width: usize)
    ensures
        final(out)@ == old(out)@ + padded(n as nat, width as nat),
{
    let mut digits: Vec<char> = Vec::new();
    push_decimal(&mut digits, n);
    assert(digits@ =~= decimal(n as nat));
    if digits.len() < width {
        let mut k: usize = 0;
        let pad = width - digits.len();
        while k < pad
            invariant
                k <= pad,
                out@ == old(out)@ + Seq::new(k as nat, |i: int| '0'),
            decreases pad - k,
        {
            out.push('0');
            assert(Seq::new((k + 1) as nat, |i: int| '0') =~= Seq::new(k as nat, |i: int| '0').push('0'));
            k += 1;
        }
        let ghost mid = out@;
        push_chars(out, digits.as_slice());
        assert(out@ =~= old(out)@ + (Seq::new(pad as nat, |i: int| '0') + decimal(n as nat)));
    } else {
        push_chars(out, digits.as_slice());
    }
}

/// Append a signed integer padded like `{:0width}`.
pub fn push_padded_signed(out: &mut Vec<char>, n: i64, width: usize)
    requires
        n > i64::MIN,
    ensures
        final(out)@ == old(out)@ + padded_signed(n as int, width as nat),
{
    if n < 0 {
        out.push('-');
        let w: usize = if width > 0 { width - 1 } else { 0 };
        let ghost mid = out@;
        push_padded(out, (-n) as u64, w);
        assert(out@ =~= old(out)@ + (seq!['-'] + padded((-n) as nat, w as nat)));
    } else {
        push_padded(out, n as u64, width);
    }
}

/// The value of an optionally signed decimal numeral, as `i32::from_str`
/// accepts it: an optional '+' or '-', then one or more ASCII digits, and a
/// value within the range of `i32`.
pub open spec fn digits_value(s: Seq<char>) -> int
    decreases s.len(),
{
    if s.len() == 0 {
        0
    } else {
        digits_value(s.drop_last()) * 10 + (s.last() as int - '0' as int)
    }
}

pub open spec fn all_ascii_digits(s: Seq<char>) -> bool {
    forall|i: int| 0 <= i < s.len() ==> '0' <= #[trigger] s[i] <= '9'
}

pub open spec fn parse_i32(s: Seq<char>) -> Option<int> {
    let neg = s.len() > 0 && s[0] == '-';
    let body = if s.len() > 0 && (s[0] == '-' || s[0] == '+') { s.skip(1) } else { s };
    if body.len() == 0 || !all_ascii_digits(body) {
        None
    } else {
        let v = if neg { -digits_value(body) } else { digits_value(body) };
        if i32::MIN <= v <= i32::MAX {
            Some(v)
        } else {
            None
        }
    }
}

proof fn lemma_digits_value_nonneg(s: Seq<char>)
    requires
        all_ascii_digits(s),
    ensures
        digits_value(s) >= 0,
    decreases s.len(),
{
    if s.len() > 0 {
        assert(all_ascii_digits(s.drop_last()));
        lemma_digits_value_nonneg(s.drop_last());
        assert('0' <= s[s.len() - 1] <= '9');
    }
}

proof fn lemma_digits_value_grows(s: Seq<char>)
    requires
        all_ascii_digits(s),
        s.len() > 0,
    ensures
        digits_value(s) >= digits_value(s.drop_last()) * 10,
{
    assert('0' <= s[s.len() - 1] <= '9');
}

/// Parse an `i32` the way `str::parse::<i32>` does.
pub fn parse_i32_chars(s: &[char]) -> (r: Option<i32>)
    ensures
        match r {
            Some(v) => parse_i32(s@) == Some(v as int),
            None => parse_i32(s@) is None,
        },
{
    let neg = s.len() > 0 && s[0] == '-';
    let start: usize = if s.len() > 0 && (s[0] == '-' || s[0] == '+') { 1 } else { 0 };
    let ghost body = if s@.len() > 0 && (s@[0] == '-' || s@[0] == '+') { s@.skip(1) } else { s@ };
    assert(body =~= s@.skip(start as int));
    if start >= s.len() {
        assert(body.len() == 0);
        return None;
    }
    let mut value: i64 = 0;
    let mut i: usize = start;
    assert(s@.subrange(start as int, start as int) =~= Seq::<char>::empty());
    while i < s.len()
        invariant
            start <= i <= s@.len(),
            body == s@.skip(start as int),
            body == (if s@.len() > 0 && (s@[0] == '-' || s@[0] == '+') { s@.skip(1) } else { s@ }),
            neg == (s@.len() > 0 && s@[0] == '-'),
            all_ascii_digits(s@.subrange(start as int, i as int)),
            value == digits_value(s@.subrange(start as int, i as int)),
            0 <= value <= 0x8000_0000,
        decreases s.len() - i,
    {
        let c = s[i];
        assert(s@.subrange(start as int, i + 1).drop_last() =~= s@.subrange(start as int, i as int));
        if !('0' <= c && c <= '9') {
            assert(body[i - start] == c);
            assert(!all_ascii_digits(body));
            return None;
        }
        let d = (c as u32 - '0' as u32) as i64;
        value = value * 10 + d;
        assert(all_ascii_digits(s@.subrange(start as int, i + 1)));
        if value > 0x8000_0000 {
            proof {
                assert(body.take((i + 1 - start) as int) =~= s@.subrange(start as int, i + 1));
                lemma_prefix_value_exceeds(body, (i + 1 - start) as int, 0x8000_0000);
            }
            return None;
        }
        i += 1;
    }
    assert(s@.subrange(start as int, s@.len() as int) =~= body);
    if neg {
        Some((-value) as i32)
    } else if value > 0x7fff_ffff {
        None
    } else {
        Some(value as i32)
    }
}

proof fn lemma_prefix_value_exceeds(s: Seq<char>, n: int, bound: int)
    requires
        0 < n <= s.len(),
        bound >= 0,
        all_ascii_digits(s.take(n)),
        digits_value(s.take(n)) > bound,
    ensures
        all_ascii_digits(s) ==> digits_value(s) > bound,
    decreases s.len() - n,
{
    if n < s.len() && all_ascii_digits(s) {
        assert(s.take(n + 1).drop_last() =~= s.take(n));
        assert(all_ascii_digits(s.take(n + 1)));
        lemma_digits_value_grows(s.take(n + 1));
        lemma_digits_value_nonneg(s.take(n));
        lemma_prefix_value_exceeds(s, n + 1, bound);
    } else if n == s.len() {
        assert(s.take(n) =~= s);
    }
}

/// The value of a numeral as `usize::from_str` accepts it: an optional
/// '+', then one or more ASCII digits, and a value within `usize`.
pub open spec fn parse_count(s: Seq<char>) -> Option<int> {
    let body = if s.len() > 0 && s[0] == '+' { s.skip(1) } else { s };
    if body.len() == 0 || !all_ascii_digits(body) || digits_value(body) > usize::MAX {
        None
    } else {
        Some(digits_value(body))
    }
}

/// Parse a `usize` the way `str::parse::<usize>` does.
pub fn parse_count_chars(s: &[char]) -> (r: Option<usize>)
    ensures
        match r {
            Some(v) => parse_count(s@) == Some(v as int),
            None => parse_count(s@) is None,
        },
{
    let start: usize = if s.len() > 0 && s[0] == '+' { 1 } else { 0 };
    let ghost body = if s@.len() > 0 && s@[0] == '+' { s@.skip(1) } else { s@ };
    assert(body =~= s@.skip(start as int));
    if start >= s.len() {
        assert(body.len() == 0);
        return None;
    }
    let mut value: u128 = 0;
    let mut i: usize = start;
    assert(s@.subrange(start as int, start as int) =~= Seq::<char>::empty());
    while i < s.len()
        invariant
            start <= i <= s@.len(),
            start < s@.len(),
            body == s@.skip(start as int),
            body == (if s@.len() > 0 && s@[0] == '+' { s@.skip(1) } else { s@ }),
            all_ascii_digits(s@.subrange(start as int, i as int)),
            value == digits_value(s@.subrange(start as int, i as int)),
            0 <= value <= usize::MAX,
        decreases s.len() - i,
    {
        let c = s[i];
        assert(s@.subrange(start as int, i + 1).drop_last() =~= s@.subrange(start as int, i as int));
        if !('0' <= c && c <= '9') {
            assert(body[i - start] == c);
            assert(!all_ascii_digits(body));
            return None;
        }
        let d = (c as u32 - '0' as u32) as u128;
        value = value * 10 + d;
        assert(all_ascii_digits(s@.subrange(start as int, i + 1)));
        if value > usize::MAX as u128 {
            proof {
                assert(body.take((i + 1 - start) as int) =~= s@.subrange(start as int, i + 1));
                lemma_prefix_value_exceeds(body, (i + 1 - start) as int, usize::MAX as int);
            }
            return None;
        }
        i += 1;
    }
    assert(s@.subrange(start as int, s@.len() as int) =~= body);
    Some(value as usize)
}

} // verus!
