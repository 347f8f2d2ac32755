//! SKK-JISYO files: parsing and serialization of the okuri-ari and
//! okuri-nasi sections.

use vstd::prelude::*;
use vstd::utf8::{encode_utf8, valid_utf8};
use crate::jconv::eucjp::{euc_decoded, euc_encoded, eucj_from_utf8, utf8_from_eucj, EucTable};
use crate::text::{decode_lossy, is_valid_utf8, lossy_decoded};
use crate::dictionary::order::{entries_sorted, sort_entries, stably_placed};
use crate::text::{chars_contains, chars_find, chars_of, first_index_of, occurs_in, string_of,
    string_of_range};

verus! {

/// A dictionary line: reading and candidate line body.
pub type DictionaryEntry = (String, String);

/// Text encoding of a dictionary file.
#[derive(Debug, Clone, Copy, PartialEq, Eq, Structural)]
pub enum Encoding {
    EucJp,
    Utf8,
    /// Decided per file: the `coding:` cookie of the first line, else
    /// whether the content is valid UTF-8.
    Auto,
}

impl Default for Encoding {
    fn default() -> (e: Self)
        ensures
            e == Encoding::Utf8,
    {
        Encoding::Utf8
    }
}

/// The index of the first line feed at or after `i`, or the length.
pub open spec fn line_end(b: Seq<u8>, i: int) -> int
    decreases b.len() - i,
{
    if i < 0 || i >= b.len() || b[i] == 0x0a {
        if i < 0 { 0 } else if i > b.len() { b.len() as int } else { i }
    } else {
        line_end(b, i + 1)
    }
}

/// `b[i..]` starts with `pat`.
pub open spec fn bytes_at(b: Seq<u8>, i: int, pat: Seq<u8>) -> bool {
    0 <= i && i + pat.len() <= b.len() && b.subrange(i, i + pat.len()) == pat
}

/// The first index in `i..` at which `pat` starts and ends by `end`.
pub open spec fn find_before(b: Seq<u8>, pat: Seq<u8>, i: int, end: int) -> Option<int>
    decreases end - i,
{
    if i < 0 || i >= end || i + pat.len() > end || end > b.len() {
        None
    } else if bytes_at(b, i, pat) {
        Some(i)
    } else {
        find_before(b, pat, i + 1, end)
    }
}

pub open spec fn is_blank(c: u8) -> bool {
    c == 0x20 || c == 0x09
}

/// The first index in `i..end` that is no blank, or `end`.
pub open spec fn skip_blanks(b: Seq<u8>, i: int, end: int) -> int
    decreases end - i,
{
    if i < 0 || i >= end || end > b.len() || !is_blank(b[i]) {
        i
    } else {
        skip_blanks(b, i + 1, end)
    }
}

/// The first index in `i..end` holding a blank or ';', or `end`.
pub open spec fn value_end(b: Seq<u8>, i: int, end: int) -> int
    decreases end - i,
{
    if i < 0 || i >= end || end > b.len() || is_blank(b[i]) || b[i] == 0x3b {
        i
    } else {
        value_end(b, i + 1, end)
    }
}

pub open spec fn lower_byte(c: u8) -> u8 {
    if 0x41 <= c <= 0x5a { (c + 0x20) as u8 } else { c }
}

/// `v` begins with `p`, letters compared without case.
pub open spec fn starts_ci(v: Seq<u8>, p: Seq<u8>) -> bool {
    p.len() <= v.len() && forall|k: int| 0 <= k < p.len() ==> lower_byte(#[trigger] v[k]) == p[k]
}

/// The bytes of "coding:".
pub open spec fn cookie_key() -> Seq<u8> {
    seq![0x63u8, 0x6f, 0x64, 0x69, 0x6e, 0x67, 0x3a]
}

/// The value of the `coding:` cookie on the first line of `b`.
pub open spec fn cookie_value(b: Seq<u8>) -> Option<Seq<u8>> {
    let end = line_end(b, 0);
    match find_before(b, cookie_key(), 0, end) {
        Some(k) => {
            let from = skip_blanks(b, k + 7, end);
            Some(b.subrange(from, value_end(b, from, end)))
        },
        None => None,
    }
}

/// The encoding the first line's `coding:` cookie names, if it names one:
/// UTF-8 for "utf-8" or "utf8", EUC-JP for a name beginning "euc".
pub open spec fn cookie_encoding(b: Seq<u8>) -> Option<Encoding> {
    match cookie_value(b) {
        Some(v) => if starts_ci(v, seq![0x75u8, 0x74, 0x66, 0x2d, 0x38]) || starts_ci(v, seq![0x75u8, 0x74, 0x66, 0x38]) {
            Some(Encoding::Utf8)
        } else if starts_ci(v, seq![0x65u8, 0x75, 0x63]) {
            Some(Encoding::EucJp)
        } else {
            None
        },
        None => None,
    }
}

/// The encoding a text in `bytes` is read with: `Auto` follows the first
/// line's `coding:` cookie, and without one is UTF-8 when the bytes are
/// valid UTF-8, else EUC-JP.
pub open spec fn resolved(e: Encoding, bytes: Seq<u8>) -> Encoding {
    match e {
        Encoding::Auto => match cookie_encoding(bytes) {
            Some(c) => c,
            None => if valid_utf8(bytes) {
                Encoding::Utf8
            } else {
                Encoding::EucJp
            },
        },
        _ => e,
    }
}

fn find_line_end(b: &[u8]) -> (r: usize)
    ensures
        r == line_end(b@, 0),
{
    let mut i: usize = 0;
    while i < b.len() && b[i] != 0x0a
        invariant
            i <= b@.len(),
            line_end(b@, i as int) == line_end(b@, 0),
        decreases b.len() - i,
    {
        i += 1;
    }
    i
}

fn find_cookie(b: &[u8], end: usize) -> (r: Option<usize>)
    requires
        end <= b@.len(),
    ensures
        r matches Some(k) ==> find_before(b@, cookie_key(), 0, end as int) == Some(k as int),
        r is None ==> find_before(b@, cookie_key(), 0, end as int) is None,
{
    let pat: [u8; 7] = [0x63, 0x6f, 0x64, 0x69, 0x6e, 0x67, 0x3a];
    let ghost p = cookie_key();
    proof {
        assert(pat@ =~= p);
    }
    let mut i: usize = 0;
    while i <= end && end - i >= 7
        invariant
            i <= end + 1,
            end <= b@.len(),
            pat@ == p,
            p == cookie_key(),
            p.len() == 7,
            find_before(b@, p, i as int, end as int) == find_before(b@, p, 0, end as int),
        decreases end + 1 - i,
    {
        let mut j: usize = 0;
        while j < 7 && b[i + j] == pat[j]
            invariant
                j <= 7,
                i + 7 <= end,
                end <= b@.len(),
                pat@ == p,
                p == cookie_key(),
                find_before(b@, p, i as int, end as int) == find_before(b@, p, 0, end as int),
                forall|k: int| 0 <= k < j ==> b@[i + k] == p[k],
            decreases 7 - j,
        {
            j += 1;
        }
        if j == 7 {
            assert(b@.subrange(i as int, i + 7) =~= p);
            assert(bytes_at(b@, i as int, p));
            assert(find_before(b@, p, i as int, end as int) == Some(i as int));
            return Some(i);
        }
        assert(!bytes_at(b@, i as int, p)) by {
            if bytes_at(b@, i as int, p) {
                assert(b@.subrange(i as int, i + 7)[j as int] == b@[i + j]);
            }
        }
        i += 1;
    }
    None
}

fn skip_blank_bytes(b: &[u8], i: usize, end: usize) -> (r: usize)
    requires
        i <= end <= b@.len(),
    ensures
        r == skip_blanks(b@, i as int, end as int),
        i <= r <= end,
{
    let mut k = i;
    while k < end && (b[k] == 0x20 || b[k] == 0x09)
        invariant
            i <= k <= end,
            end <= b@.len(),
            skip_blanks(b@, k as int, end as int) == skip_blanks(b@, i as int, end as int),
        decreases end - k,
    {
        k += 1;
    }
    k
}

fn find_value_end(b: &[u8], i: usize, end: usize) -> (r: usize)
    requires
        i <= end <= b@.len(),
    ensures
        r == value_end(b@, i as int, end as int),
        i <= r <= end,
{
    let mut k = i;
    while k < end && !(b[k] == 0x20 || b[k] == 0x09 || b[k] == 0x3b)
        invariant
            i <= k <= end,
            end <= b@.len(),
            value_end(b@, k as int, end as int) == value_end(b@, i as int, end as int),
        decreases end - k,
    {
        k += 1;
    }
    k
}

fn begins_ci(b: &[u8], from: usize, to: usize, p: &[u8]) -> (r: bool)
    requires
        from <= to <= b@.len(),
    ensures
        r == starts_ci(b@.subrange(from as int, to as int), p@),
{
    let ghost v = b@.subrange(from as int, to as int);
    if p.len() > to - from {
        return false;
    }
    let mut k: usize = 0;
    while k < p.len()
        invariant
            k <= p@.len(),
            p@.len() <= to - from,
            from <= to <= b@.len(),
            v == b@.subrange(from as int, to as int),
            forall|m: int| 0 <= m < k ==> lower_byte(#[trigger] v[m]) == p@[m],
        decreases p.len() - k,
    {
        let c = b[from + k];
        let l: u8 = if 0x41 <= c && c <= 0x5a { c + 0x20 } else { c };
        assert(v[k as int] == c);
        if l != p[k] {
            return false;
        }
        k += 1;
    }
    true
}

/// The encoding named by the first line's `coding:` cookie.
fn cookie_of(b: &[u8]) -> (r: Option<Encoding>)
    ensures
        r == cookie_encoding(b@),
{
    let end = find_line_end(b);
    proof {
        assert(line_end(b@, 0) <= b@.len()) by {
            lemma_line_end_bound(b@, 0);
        }
    }
    match find_cookie(b, end) {
        Some(k) => {
            proof {
                lemma_find_before_bound(b@, cookie_key(), 0, end as int);
            }
            let from = skip_blank_bytes(b, k + 7, end);
            let to = find_value_end(b, from, end);
            let utf_dash: [u8; 5] = [0x75, 0x74, 0x66, 0x2d, 0x38];
            let utf: [u8; 4] = [0x75, 0x74, 0x66, 0x38];
            let euc: [u8; 3] = [0x65, 0x75, 0x63];
            proof {
                assert(utf_dash@ =~= seq![0x75u8, 0x74, 0x66, 0x2d, 0x38]);
                assert(utf@ =~= seq![0x75u8, 0x74, 0x66, 0x38]);
                assert(euc@ =~= seq![0x65u8, 0x75, 0x63]);
            }
            if begins_ci(b, from, to, &utf_dash) || begins_ci(b, from, to, &utf) {
                Some(Encoding::Utf8)
            } else if begins_ci(b, from, to, &euc) {
                Some(Encoding::EucJp)
            } else {
                None
            }
        },
        None => None,
    }
}

proof fn lemma_line_end_bound(b: Seq<u8>, i: int)
    requires
        0 <= i,
    ensures
        line_end(b, i) <= b.len(),
    decreases b.len() - i,
{
    if i < b.len() && b[i] != 0x0a {
        lemma_line_end_bound(b, i + 1);
    }
}

proof fn lemma_find_before_bound(b: Seq<u8>, pat: Seq<u8>, i: int, end: int)
    ensures
        find_before(b, pat, i, end) matches Some(k) ==> i <= k && k + pat.len() <= end,
    decreases end - i,
{
    if !(i < 0 || i >= end || i + pat.len() > end || end > b.len()) && !bytes_at(b, i, pat) {
        lemma_find_before_bound(b, pat, i + 1, end);
    }
}

/// The characters of a text stored in encoding `e`.
pub open spec fn decoded_text(e: Encoding, bytes: Seq<u8>, table: Seq<(u32, u32)>) -> Seq<char> {
    match e {
        Encoding::EucJp => euc_decoded(table, bytes),
        _ => lossy_decoded(bytes),
    }
}

/// The bytes a text is stored as in encoding `e` (`Auto` writes UTF-8).
pub open spec fn encoded_text(e: Encoding, text: Seq<char>, table: Seq<(u32, u32)>) -> Seq<u8> {
    match e {
        Encoding::EucJp => euc_encoded(table, text),
        _ => encode_utf8(text),
    }
}

impl Encoding {
    /// The encoding `bytes` are read with (see `resolved`).
    pub fn resolve(&self, bytes: &[u8]) -> (r: Encoding)
        ensures
            r == resolved(*self, bytes@),
    {
        match self {
            Encoding::Auto => match cookie_of(bytes) {
                Some(e) => e,
                None => if is_valid_utf8(bytes) {
                    Encoding::Utf8
                } else {
                    Encoding::EucJp
                },
            },
            Encoding::EucJp => Encoding::EucJp,
            Encoding::Utf8 => Encoding::Utf8,
        }
    }

    /// The text stored in `bytes`; EUC-JP goes through `table`.
    pub fn decode(&self, bytes: &[u8], table: &EucTable) -> (r: String)
        ensures
            r@ == decoded_text(resolved(*self, bytes@), bytes@, table.decoding()),
    {
        match self.resolve(bytes) {
            Encoding::EucJp => utf8_from_eucj(bytes, table),
            _ => decode_lossy(bytes),
        }
    }

    /// The bytes `text` is stored as; EUC-JP goes through `table`.
    pub fn encode(&self, text: &str, table: &EucTable) -> (r: Vec<u8>)
        ensures
            r@ == encoded_text(*self, text@, table.encoding()),
    {
        match self {
            Encoding::EucJp => eucj_from_utf8(text, table),
            _ => text.as_bytes_vec(),
        }
    }
}

/// The pieces of `s` between line feeds (at least one piece).
pub open spec fn split_lf(s: Seq<char>) -> Seq<Seq<char>>
    decreases s.len(),
{
    if s.len() == 0 {
        seq![Seq::empty()]
    } else {
        let rest = split_lf(s.drop_last());
        if s.last() == '\n' {
            rest.push(Seq::empty())
        } else {
            rest.update(rest.len() - 1, rest.last().push(s.last()))
        }
    }
}

proof fn lemma_split_lf_nonempty(s: Seq<char>)
    ensures
        split_lf(s).len() >= 1,
    decreases s.len(),
{
    if s.len() > 0 {
        lemma_split_lf_nonempty(s.drop_last());
    }
}

/// A line without its trailing carriage return.
pub open spec fn strip_cr(l: Seq<char>) -> Seq<char> {
    if l.len() > 0 && l.last() == '\r' {
        l.drop_last()
    } else {
        l
    }
}

/// The lines of `s`, as `str::lines` yields them.
pub open spec fn lines_of(s: Seq<char>) -> Seq<Seq<char>> {
    let pieces = split_lf(s);
    let kept = if pieces.last().len() == 0 { pieces.drop_last() } else { pieces };
    kept.map_values(|l: Seq<char>| strip_cr(l))
}

/// The lines of a text.
pub fn split_lines(v: &[char]) -> (r: Vec<Vec<char>>)
    ensures
        r@.map_values(|l: Vec<char>| l@) == lines_of(v@),
{
    let mut done: Vec<Vec<char>> = Vec::new();
    let mut current: Vec<char> = Vec::new();
    let mut i: usize = 0;
    let ghost mut raw: Seq<Seq<char>> = Seq::empty();
    assert(v@.take(0) =~= Seq::<char>::empty());
    while i < v.len()
        invariant
            i <= v.len(),
            split_lf(v@.take(i as int)) == raw.push(current@),
            done@.map_values(|l: Vec<char>| l@) == raw.map_values(|l: Seq<char>| strip_cr(l)),
        decreases v.len() - i,
    {
        assert(v@.take(i + 1).drop_last() =~= v@.take(i as int));
        let c = v[i];
        if c == '\n' {
            let ghost before = done@;
            let line = if current.len() > 0 && current[current.len() - 1] == '\r' {
                let mut l = current;
                l.pop();
                l
            } else {
                current
            };
            proof {
                assert(line@ == strip_cr(raw.push(current@).last()));
            }
            done.push(line);
            proof {
                raw = raw.push(current@);
            }
            assert(done@.map_values(|l: Vec<char>| l@) =~= before.map_values(|l: Vec<char>| l@).push(line@));
            assert(raw.map_values(|l: Seq<char>| strip_cr(l)) =~= raw.drop_last().map_values(|l: Seq<char>| strip_cr(l)).push(strip_cr(raw.last())));
            current = Vec::new();
        } else {
            let ghost old_current = current@;
            current.push(c);
            assert(raw.push(old_current).update(raw.len() as int, old_current.push(c)) =~= raw.push(current@));
        }
        i += 1;
    }
    assert(v@.take(v.len() as int) =~= v@);
    if current.len() > 0 {
        let ghost before = done@;
        let line = if current[current.len() - 1] == '\r' {
            let mut l = current;
            l.pop();
            l
        } else {
            current
        };
        done.push(line);
        proof {
            let pieces = raw.push(current@);
            assert(pieces.drop_last() =~= raw);
            assert(done@.map_values(|l: Vec<char>| l@) =~= before.map_values(|l: Vec<char>| l@).push(line@));
            assert(pieces.map_values(|l: Seq<char>| strip_cr(l)) =~= raw.map_values(|l: Seq<char>| strip_cr(l)).push(strip_cr(current@)));
        }
    } else {
        proof {
            assert(raw.push(current@).drop_last() =~= raw);
        }
    }
    done
}

/// Which section of the file a line belongs to.
pub enum Section {
    Header,
    OkuriAri,
    OkuriNasi,
}

/// The parse of a dictionary text so far.
pub struct FileModel {
    pub okuri_ari: Seq<(Seq<char>, Seq<char>)>,
    pub okuri_nasi: Seq<(Seq<char>, Seq<char>)>,
    pub section: Section,
}

/// The effect of one line on the parse.
pub open spec fn load_line(st: FileModel, line: Seq<char>) -> FileModel {
    if line.len() > 0 && line[0] == ';' {
        if occurs_in(line, "okuri-ari entries"@) {
            FileModel { section: Section::OkuriAri, ..st }
        } else if occurs_in(line, "okuri-nasi entries"@) {
            FileModel { section: Section::OkuriNasi, ..st }
        } else {
            st
        }
    } else {
        match first_index_of(line, ' ') {
            Some(i) => {
                let key = line.take(i);
                let value = line.skip(i + 1);
                if key.len() == 0 || value.len() == 0 {
                    st
                } else {
                    match st.section {
                        Section::Header => st,
                        Section::OkuriAri => FileModel { okuri_ari: st.okuri_ari.push((key, value)), ..st },
                        Section::OkuriNasi => FileModel { okuri_nasi: st.okuri_nasi.push((key, value)), ..st },
                    }
                }
            },
            None => st,
        }
    }
}

/// The parse of the first `n` lines.
pub open spec fn load_lines(lines: Seq<Seq<char>>) -> FileModel
    decreases lines.len(),
{
    if lines.len() == 0 {
        FileModel { okuri_ari: Seq::empty(), okuri_nasi: Seq::empty(), section: Section::Header }
    } else {
        load_line(load_lines(lines.drop_last()), lines.last())
    }
}

/// The entries of a dictionary text.
pub open spec fn load_text(s: Seq<char>) -> FileModel {
    load_lines(lines_of(s))
}

/// The view of an entry list.
pub open spec fn entries_view(v: Seq<DictionaryEntry>) -> Seq<(Seq<char>, Seq<char>)> {
    v.map_values(|e: DictionaryEntry| (e.0@, e.1@))
}

/// The serialized form of a list of entries: "key value\n" each.
pub open spec fn entries_text(v: Seq<(Seq<char>, Seq<char>)>) -> Seq<char>
    decreases v.len(),
{
    if v.len() == 0 {
        Seq::empty()
    } else {
        entries_text(v.drop_last()) + v.last().0 + seq![' '] + v.last().1 + seq!['\n']
    }
}

/// The serialized form of a dictionary file.
pub open spec fn file_text(ari: Seq<(Seq<char>, Seq<char>)>, nasi: Seq<(Seq<char>, Seq<char>)>) -> Seq<char> {
    ";; okuri-ari entries."@ + seq!['\n'] + entries_text(ari) + ";; okuri-nasi entries."@ + seq!['\n']
        + entries_text(nasi)
}

/// Lines joined, each ended by a line feed.
pub open spec fn joined(ls: Seq<Seq<char>>) -> Seq<char>
    decreases ls.len(),
{
    if ls.len() == 0 {
        Seq::empty()
    } else {
        joined(ls.drop_last()) + ls.last() + seq!['\n']
    }
}

/// The line of an entry: key, a space, value.
pub open spec fn entry_line(e: (Seq<char>, Seq<char>)) -> Seq<char> {
    e.0 + seq![' '] + e.1
}

/// An entry that a dictionary text can hold: a key that is not empty, does
/// not start a comment and has no space or line feed; a value that is not
/// empty, has no line feed and does not end in a carriage return.
pub open spec fn storable(e: (Seq<char>, Seq<char>)) -> bool {
    &&& e.0.len() > 0
    &&& e.0[0] != ';'
    &&& forall|i: int| 0 <= i < e.0.len() ==> #[trigger] e.0[i] != ' ' && e.0[i] != '\n'
    &&& e.1.len() > 0
    &&& e.1.last() != '\r'
    &&& forall|i: int| 0 <= i < e.1.len() ==> #[trigger] e.1[i] != '\n'
}

/// The parse of lines `ls` from state `st`.
pub open spec fn load_from(st: FileModel, ls: Seq<Seq<char>>) -> FileModel
    decreases ls.len(),
{
    if ls.len() == 0 {
        st
    } else {
        load_line(load_from(st, ls.drop_last()), ls.last())
    }
}

proof fn lemma_split_lf_append(t: Seq<char>, l: Seq<char>)
    requires
        forall|i: int| 0 <= i < l.len() ==> #[trigger] l[i] != '\n',
    ensures
        split_lf(t + l) == split_lf(t).update(split_lf(t).len() - 1, split_lf(t).last() + l),
    decreases l.len(),
{
    lemma_split_lf_nonempty(t);
    if l.len() == 0 {
        assert(t + l =~= t);
        assert(split_lf(t).last() + l =~= split_lf(t).last());
        assert(split_lf(t).update(split_lf(t).len() - 1, split_lf(t).last()) =~= split_lf(t));
    } else {
        assert((t + l).drop_last() =~= t + l.drop_last());
        assert((t + l).last() == l.last());
        lemma_split_lf_append(t, l.drop_last());
        assert(split_lf(t).last() + l.drop_last() + seq![l.last()] =~= split_lf(t).last() + l);
        let r = split_lf(t + l.drop_last());
        let sp = split_lf(t);
        assert(r.len() == sp.len());
        assert(r.last() == sp.last() + l.drop_last());
        assert(r.last().push(l.last()) =~= sp.last() + l);
        assert(r.update(r.len() - 1, r.last().push(l.last())) =~= sp.update(sp.len() - 1, sp.last() + l));
    }
}

proof fn lemma_split_lf_joined(ls: Seq<Seq<char>>)
    requires
        forall|k: int, i: int| 0 <= k < ls.len() && 0 <= i < ls[k].len() ==> #[trigger] ls[k][i] != '\n',
    ensures
        split_lf(joined(ls)) == ls.push(Seq::empty()),
    decreases ls.len(),
{
    if ls.len() == 0 {
        assert(split_lf(Seq::<char>::empty()) =~= seq![Seq::<char>::empty()]);
        assert(ls.push(Seq::empty()) =~= seq![Seq::<char>::empty()]);
    } else {
        let d = ls.drop_last();
        assert forall|k: int, i: int| 0 <= k < d.len() && 0 <= i < d[k].len() implies #[trigger] d[k][i] != '\n' by {
            assert(d[k] == ls[k]);
        }
        lemma_split_lf_joined(d);
        let l = ls.last();
        assert forall|i: int| 0 <= i < l.len() implies #[trigger] l[i] != '\n' by {
            assert(ls[ls.len() - 1][i] != '\n');
        }
        lemma_split_lf_append(joined(d), l);
        let t = joined(d) + l;
        assert((t + seq!['\n']).drop_last() =~= t);
        assert(Seq::<char>::empty() + l =~= l);
        assert(d.push(Seq::empty()).update(d.len() as int, l) =~= ls);
    }
}

proof fn lemma_lines_of_joined(ls: Seq<Seq<char>>)
    requires
        forall|k: int, i: int| 0 <= k < ls.len() && 0 <= i < ls[k].len() ==> #[trigger] ls[k][i] != '\n',
        forall|k: int| 0 <= k < ls.len() ==> strip_cr(#[trigger] ls[k]) == ls[k],
    ensures
        lines_of(joined(ls)) == ls,
{
    lemma_split_lf_joined(ls);
    assert(ls.push(Seq::empty()).drop_last() =~= ls);
    assert(ls.map_values(|l: Seq<char>| strip_cr(l)) =~= ls);
}

proof fn lemma_joined_append(a: Seq<Seq<char>>, b: Seq<Seq<char>>)
    ensures
        joined(a + b) == joined(a) + joined(b),
    decreases b.len(),
{
    if b.len() == 0 {
        assert(a + b =~= a);
        assert(joined(a) + joined(b) =~= joined(a));
    } else {
        assert((a + b).drop_last() =~= a + b.drop_last());
        assert((a + b).last() == b.last());
        lemma_joined_append(a, b.drop_last());
        assert(joined(a) + joined(b.drop_last()) + b.last() + seq!['\n'] =~= joined(a) + joined(b));
    }
}

proof fn lemma_entries_text(v: Seq<(Seq<char>, Seq<char>)>)
    ensures
        entries_text(v) == joined(v.map_values(|e: (Seq<char>, Seq<char>)| entry_line(e))),
    decreases v.len(),
{
    if v.len() > 0 {
        lemma_entries_text(v.drop_last());
        assert(v.drop_last().map_values(|e: (Seq<char>, Seq<char>)| entry_line(e)) =~= v.map_values(
            |e: (Seq<char>, Seq<char>)| entry_line(e),
        ).drop_last());
        assert(entries_text(v.drop_last()) + v.last().0 + seq![' '] + v.last().1 + seq!['\n'] =~= entries_text(
            v.drop_last(),
        ) + entry_line(v.last()) + seq!['\n']);
    }
}

proof fn lemma_load_from_append(st: FileModel, a: Seq<Seq<char>>, b: Seq<Seq<char>>)
    ensures
        load_from(st, a + b) == load_from(load_from(st, a), b),
    decreases b.len(),
{
    if b.len() == 0 {
        assert(a + b =~= a);
    } else {
        assert((a + b).drop_last() =~= a + b.drop_last());
        lemma_load_from_append(st, a, b.drop_last());
    }
}

proof fn lemma_load_lines_from(ls: Seq<Seq<char>>)
    ensures
        load_lines(ls) == load_from(
            FileModel { okuri_ari: Seq::empty(), okuri_nasi: Seq::empty(), section: Section::Header },
            ls,
        ),
    decreases ls.len(),
{
    if ls.len() > 0 {
        lemma_load_lines_from(ls.drop_last());
    }
}

proof fn lemma_entry_line_loads(st: FileModel, e: (Seq<char>, Seq<char>))
    requires
        storable(e),
    ensures
        load_line(st, entry_line(e)) == match st.section {
            Section::Header => st,
            Section::OkuriAri => FileModel { okuri_ari: st.okuri_ari.push(e), ..st },
            Section::OkuriNasi => FileModel { okuri_nasi: st.okuri_nasi.push(e), ..st },
        },
{
    let line = entry_line(e);
    assert(line[0] == e.0[0]);
    assert forall|k: int| 0 <= k < e.0.len() implies line[k] != ' ' by {
        assert(line[k] == e.0[k]);
    }
    crate::text::lemma_first_index_unique(line, ' ', e.0.len() as int);
    assert(line.take(e.0.len() as int) =~= e.0);
    assert(line.skip(e.0.len() + 1int) =~= e.1);
}

proof fn lemma_entries_load(st: FileModel, v: Seq<(Seq<char>, Seq<char>)>)
    requires
        forall|k: int| 0 <= k < v.len() ==> storable(#[trigger] v[k]),
    ensures
        load_from(st, v.map_values(|e: (Seq<char>, Seq<char>)| entry_line(e))) == match st.section {
            Section::Header => st,
            Section::OkuriAri => FileModel { okuri_ari: st.okuri_ari + v, ..st },
            Section::OkuriNasi => FileModel { okuri_nasi: st.okuri_nasi + v, ..st },
        },
    decreases v.len(),
{
    if v.len() == 0 {
        assert(st.okuri_ari + v =~= st.okuri_ari);
        assert(st.okuri_nasi + v =~= st.okuri_nasi);
    } else {
        let d = v.drop_last();
        assert forall|k: int| 0 <= k < d.len() implies storable(#[trigger] d[k]) by {
            assert(d[k] == v[k]);
        }
        lemma_entries_load(st, d);
        assert(v.map_values(|e: (Seq<char>, Seq<char>)| entry_line(e)).drop_last() =~= d.map_values(
            |e: (Seq<char>, Seq<char>)| entry_line(e),
        ));
        assert(storable(v[v.len() - 1]));
        let mid = load_from(st, d.map_values(|e: (Seq<char>, Seq<char>)| entry_line(e)));
        lemma_entry_line_loads(mid, v.last());
        assert(st.okuri_ari + d.push(v.last()) =~= st.okuri_ari + v);
        assert(st.okuri_nasi + d.push(v.last()) =~= st.okuri_nasi + v);
        assert((st.okuri_ari + d).push(v.last()) =~= st.okuri_ari + v);
        assert((st.okuri_nasi + d).push(v.last()) =~= st.okuri_nasi + v);
    }
}

proof fn lemma_section_lines()
    ensures
        load_line(
            FileModel { okuri_ari: Seq::empty(), okuri_nasi: Seq::empty(), section: Section::Header },
            ";; okuri-ari entries."@,
        ) == (FileModel { okuri_ari: Seq::empty(), okuri_nasi: Seq::empty(), section: Section::OkuriAri }),
        forall|st: FileModel| #[trigger] load_line(st, ";; okuri-nasi entries."@) == (FileModel {
            section: Section::OkuriNasi,
            ..st
        }),
{
    reveal_strlit(";; okuri-ari entries.");
    reveal_strlit(";; okuri-nasi entries.");
    reveal_strlit("okuri-ari entries");
    reveal_strlit("okuri-nasi entries");
    let a = ";; okuri-ari entries."@;
    let n = ";; okuri-nasi entries."@;
    assert(crate::text::occurs_at(a, "okuri-ari entries"@, 3)) by {
        assert(a.subrange(3, 20) =~= "okuri-ari entries"@);
    }
    assert(crate::text::occurs_at(n, "okuri-nasi entries"@, 3)) by {
        assert(n.subrange(3, 21) =~= "okuri-nasi entries"@);
    }
    assert forall|i: int| !crate::text::occurs_at(n, "okuri-ari entries"@, i) by {
        if crate::text::occurs_at(n, "okuri-ari entries"@, i) {
            assert(0 <= i <= 5);
            assert(n.subrange(i, i + 17)[6] == "okuri-ari entries"@[6]);
            assert(n.subrange(i, i + 17)[7] == "okuri-ari entries"@[7]);
            assert(n.subrange(i, i + 17)[0] == "okuri-ari entries"@[0]);
        }
    }
}

/// A dictionary text written from entries reads back as those entries,
/// whenever each entry is one that a dictionary text can hold.
pub proof fn law_file_text_reloads(ari: Seq<(Seq<char>, Seq<char>)>, nasi: Seq<(Seq<char>, Seq<char>)>)
    requires
        forall|k: int| 0 <= k < ari.len() ==> storable(#[trigger] ari[k]),
        forall|k: int| 0 <= k < nasi.len() ==> storable(#[trigger] nasi[k]),
    ensures
        load_text(file_text(ari, nasi)) == (FileModel { okuri_ari: ari, okuri_nasi: nasi, section: Section::OkuriNasi }),
{
    reveal_strlit(";; okuri-ari entries.");
    reveal_strlit(";; okuri-nasi entries.");
    let h1 = ";; okuri-ari entries."@;
    let h2 = ";; okuri-nasi entries."@;
    let la = ari.map_values(|e: (Seq<char>, Seq<char>)| entry_line(e));
    let ln = nasi.map_values(|e: (Seq<char>, Seq<char>)| entry_line(e));
    let ls = seq![h1] + la + seq![h2] + ln;
    lemma_entries_text(ari);
    lemma_entries_text(nasi);
    lemma_joined_append(seq![h1] + la + seq![h2], ln);
    lemma_joined_append(seq![h1] + la, seq![h2]);
    lemma_joined_append(seq![h1], la);
    assert(joined(Seq::<Seq<char>>::empty()) == Seq::<char>::empty());
    assert(joined(seq![h1]) =~= h1 + seq!['\n']) by {
        assert(seq![h1].drop_last() =~= Seq::<Seq<char>>::empty());
        assert(Seq::<char>::empty() + h1 + seq!['\n'] =~= h1 + seq!['\n']);
    }
    assert(joined(seq![h2]) =~= h2 + seq!['\n']) by {
        assert(seq![h2].drop_last() =~= Seq::<Seq<char>>::empty());
        assert(Seq::<char>::empty() + h2 + seq!['\n'] =~= h2 + seq!['\n']);
    }
    assert(joined(ls) =~= file_text(ari, nasi));
    assert forall|k: int, i: int| 0 <= k < ls.len() && 0 <= i < ls[k].len() implies #[trigger] ls[k][i] != '\n' by {
        if 1 <= k < 1 + la.len() {
            let e = ari[k - 1];
            assert(ls[k] == entry_line(e));
            assert(storable(e));
            if i < e.0.len() {
                assert(ls[k][i] == e.0[i]);
            } else if i > e.0.len() {
                assert(ls[k][i] == e.1[i - e.0.len() - 1]);
            }
        } else if k > 1 + la.len() {
            let e = nasi[k - 2 - la.len()];
            assert(ls[k] == entry_line(e));
            assert(storable(e));
            if i < e.0.len() {
                assert(ls[k][i] == e.0[i]);
            } else if i > e.0.len() {
                assert(ls[k][i] == e.1[i - e.0.len() - 1]);
            }
        }
    }
    assert forall|k: int| 0 <= k < ls.len() implies strip_cr(#[trigger] ls[k]) == ls[k] by {
        if 1 <= k < 1 + la.len() {
            let e = ari[k - 1];
            assert(ls[k] == entry_line(e));
            assert(storable(e));
            assert(ls[k].last() == e.1.last());
        } else if k > 1 + la.len() {
            let e = nasi[k - 2 - la.len()];
            assert(ls[k] == entry_line(e));
            assert(storable(e));
            assert(ls[k].last() == e.1.last());
        }
    }
    lemma_lines_of_joined(ls);
    let st0 = FileModel { okuri_ari: Seq::empty(), okuri_nasi: Seq::empty(), section: Section::Header };
    lemma_load_lines_from(ls);
    lemma_load_from_append(st0, seq![h1] + la + seq![h2], ln);
    lemma_load_from_append(st0, seq![h1] + la, seq![h2]);
    lemma_load_from_append(st0, seq![h1], la);
    lemma_section_lines();
    assert(load_from(st0, seq![h1]) == load_line(st0, h1)) by {
        assert(seq![h1].drop_last() =~= Seq::<Seq<char>>::empty());
        assert(load_from(st0, Seq::<Seq<char>>::empty()) == st0);
    }
    let st1 = FileModel { okuri_ari: Seq::empty(), okuri_nasi: Seq::empty(), section: Section::OkuriAri };
    lemma_entries_load(st1, ari);
    let st2 = FileModel { okuri_ari: Seq::empty() + ari, okuri_nasi: Seq::empty(), section: Section::OkuriAri };
    assert(load_from(st2, seq![h2]) == load_line(st2, h2)) by {
        assert(seq![h2].drop_last() =~= Seq::<Seq<char>>::empty());
        assert(load_from(st2, Seq::<Seq<char>>::empty()) == st2);
    }
    let st3 = FileModel { okuri_ari: Seq::empty() + ari, okuri_nasi: Seq::empty(), section: Section::OkuriNasi };
    lemma_entries_load(st3, nasi);
    assert(Seq::<(Seq<char>, Seq<char>)>::empty() + ari =~= ari);
    assert(Seq::<(Seq<char>, Seq<char>)>::empty() + nasi =~= nasi);
}

/// The two sections of an SKK dictionary file.
#[derive(Debug)]
pub struct DictionaryFile {
    okuri_ari: Vec<DictionaryEntry>,
    okuri_nasi: Vec<DictionaryEntry>,
}

fn append_entries(out: &mut String, v: &Vec<DictionaryEntry>)
    ensures
        final(out)@ == old(out)@ + entries_text(entries_view(v@)),
{
    let mut i: usize = 0;
    assert(entries_view(v@).take(0) =~= Seq::<(Seq<char>, Seq<char>)>::empty());
    assert(out@ =~= old(out)@ + entries_text(entries_view(v@).take(0)));
    while i < v.len()
        invariant
            i <= v.len(),
            out@ == old(out)@ + entries_text(entries_view(v@).take(i as int)),
        decreases v.len() - i,
    {
        assert(entries_view(v@).take(i + 1).drop_last() =~= entries_view(v@).take(i as int));
        let ghost before = out@;
        out.append(v[i].0.as_str());
        out.push(' ');
        out.append(v[i].1.as_str());
        out.push('\n');
        assert(out@ =~= before + (v@[i as int].0@ + seq![' '] + v@[i as int].1@ + seq!['\n']));
        i += 1;
    }
    assert(entries_view(v@).take(v.len() as int) =~= entries_view(v@));
}

impl DictionaryFile {
    /// The okuri-ari entries.
    pub closed spec fn ari_raw(self) -> Seq<DictionaryEntry> {
        self.okuri_ari@
    }

    /// The okuri-nasi entries.
    pub closed spec fn nasi_raw(self) -> Seq<DictionaryEntry> {
        self.okuri_nasi@
    }

    pub open spec fn ari(self) -> Seq<(Seq<char>, Seq<char>)> {
        entries_view(self.ari_raw())
    }

    pub open spec fn nasi(self) -> Seq<(Seq<char>, Seq<char>)> {
        entries_view(self.nasi_raw())
    }

    pub fn new() -> (f: DictionaryFile)
        ensures
            f.ari() == Seq::<(Seq<char>, Seq<char>)>::empty(),
            f.nasi() == Seq::<(Seq<char>, Seq<char>)>::empty(),
    {
        let f = DictionaryFile { okuri_ari: Vec::new(), okuri_nasi: Vec::new() };
        assert(f.ari() =~= Seq::<(Seq<char>, Seq<char>)>::empty());
        assert(f.nasi() =~= Seq::<(Seq<char>, Seq<char>)>::empty());
        f
    }

    /// Replace the contents with the entries of a dictionary text.
    pub fn load_from_str(&mut self, text: &str)
        ensures
            final(self).ari() == load_text(text@).okuri_ari,
            final(self).nasi() == load_text(text@).okuri_nasi,
    {
        let v = chars_of(text);
        let lines = split_lines(v.as_slice());
        let ghost ls = lines@.map_values(|l: Vec<char>| l@);
        let mut ari: Vec<DictionaryEntry> = Vec::new();
        let mut nasi: Vec<DictionaryEntry> = Vec::new();
        let mut section = Section::Header;
        let ari_mark = chars_of("okuri-ari entries");
        let nasi_mark = chars_of("okuri-nasi entries");
        let mut i: usize = 0;
        assert(ls.take(0) =~= Seq::<Seq<char>>::empty());
        assert(entries_view(ari@) =~= Seq::<(Seq<char>, Seq<char>)>::empty());
        assert(entries_view(nasi@) =~= Seq::<(Seq<char>, Seq<char>)>::empty());
        while i < lines.len()
            invariant
                i <= lines.len(),
                ls == lines@.map_values(|l: Vec<char>| l@),
                ari_mark@ == "okuri-ari entries"@,
                nasi_mark@ == "okuri-nasi entries"@,
                ({
                    let st = load_lines(ls.take(i as int));
                    &&& entries_view(ari@) == st.okuri_ari
                    &&& entries_view(nasi@) == st.okuri_nasi
                    &&& section == st.section
                }),
            decreases lines.len() - i,
        {
            assert(ls.take(i + 1).drop_last() =~= ls.take(i as int));
            let line = &lines[i];
            assert(ls.take(i + 1).last() == line@);
            if line.len() > 0 && line[0] == ';' {
                if chars_contains(line.as_slice(), ari_mark.as_slice()) {
                    section = Section::OkuriAri;
                } else if chars_contains(line.as_slice(), nasi_mark.as_slice()) {
                    section = Section::OkuriNasi;
                }
            } else {
                proof {
                    crate::text::lemma_first_index_of(line@, ' ');
                }
                match chars_find(line.as_slice(), ' ') {
                    Some(k) => {
                        assert(first_index_of(line@, ' ') == Some(k as int));
                        if k > 0 && k + 1 < line.len() {
                            let key = string_of_range(line.as_slice(), 0, k);
                            let value = string_of_range(line.as_slice(), k + 1, line.len());
                            assert(line@.subrange(0, k as int) == line@.take(k as int));
                            assert(line@.subrange(k + 1, line@.len() as int) == line@.skip(k + 1));
                            match section {
                                Section::Header => {},
                                Section::OkuriAri => {
                                    let ghost before = ari@;
                                    ari.push((key, value));
                                    assert(entries_view(ari@) =~= entries_view(before).push((line@.take(k as int), line@.skip(k + 1))));
                                },
                                Section::OkuriNasi => {
                                    let ghost before = nasi@;
                                    nasi.push((key, value));
                                    assert(entries_view(nasi@) =~= entries_view(before).push((line@.take(k as int), line@.skip(k + 1))));
                                },
                            }
                        }
                    },
                    None => {},
                }
            }
            i += 1;
        }
        assert(ls.take(lines.len() as int) =~= ls);
        self.okuri_ari = ari;
        self.okuri_nasi = nasi;
    }

    /// The file text: both section markers and "key value" lines.
    pub fn to_text(&self) -> (r: String)
        ensures
            r@ == file_text(self.ari(), self.nasi()),
    {
        let mut text = String::new();
        text.append(";; okuri-ari entries.");
        text.push('\n');
        append_entries(&mut text, &self.okuri_ari);
        text.append(";; okuri-nasi entries.");
        text.push('\n');
        append_entries(&mut text, &self.okuri_nasi);
        text
    }

    pub fn is_empty(&self) -> (r: bool)
        ensures
            r == (self.ari().len() == 0 && self.nasi().len() == 0),
    {
        self.okuri_ari.len() == 0 && self.okuri_nasi.len() == 0
    }

    /// Sort both sections by reading, for binary search.
    pub fn sort(&mut self)
        ensures
            final(self).ari_raw().to_multiset() == old(self).ari_raw().to_multiset(),
            final(self).nasi_raw().to_multiset() == old(self).nasi_raw().to_multiset(),
            entries_sorted(final(self).ari_raw()),
            entries_sorted(final(self).nasi_raw()),
            exists|p: Seq<int>| stably_placed(final(self).ari_raw(), old(self).ari_raw(), p),
            exists|p: Seq<int>| stably_placed(final(self).nasi_raw(), old(self).nasi_raw(), p),
    {
        sort_entries(&mut self.okuri_ari);
        sort_entries(&mut self.okuri_nasi);
    }

    pub fn okuri_ari(&self) -> (r: &[DictionaryEntry])
        ensures
            r@ == self.ari_raw(),
    {
        self.okuri_ari.as_slice()
    }

    pub fn okuri_nasi(&self) -> (r: &[DictionaryEntry])
        ensures
            r@ == self.nasi_raw(),
    {
        self.okuri_nasi.as_slice()
    }

    pub fn okuri_ari_mut(&mut self) -> (r: &mut Vec<DictionaryEntry>)
        ensures
            r@ == old(self).ari_raw(),
            final(self).ari_raw() == final(r)@,
            final(self).nasi_raw() == old(self).nasi_raw(),
    {
        &mut self.okuri_ari
    }

    pub fn okuri_nasi_mut(&mut self) -> (r: &mut Vec<DictionaryEntry>)
        ensures
            r@ == old(self).nasi_raw(),
            final(self).nasi_raw() == final(r)@,
            final(self).ari_raw() == old(self).ari_raw(),
    {
        &mut self.okuri_nasi
    }
}

impl Default for DictionaryFile {
    fn default() -> (f: Self)
        ensures
            f.ari() == Seq::<(Seq<char>, Seq<char>)>::empty(),
            f.nasi() == Seq::<(Seq<char>, Seq<char>)>::empty(),
    {
        DictionaryFile::new()
    }
}

} // verus!
