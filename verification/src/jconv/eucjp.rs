//! EUC-JP (JIS X 0213) and UTF-8.
//!
//! ASCII and half-width kana follow from the encoding itself; the other
//! characters go through a code table held by an `EucTable`. Undecodable
//! bytes become U+3013 (〓) and unencodable characters its EUC-JP code.

use vstd::prelude::*;

verus! {

/// U+3013 GETA MARK, put for undecodable bytes.
pub const SUBST_CHAR: char = '\u{3013}';
/// The EUC-JP code of the geta mark, put for unencodable characters.
pub const SUBST_EUC: u32 = 0xa2ae;

/// The Unicode scalar values (`char::from_u32` gives `Some` exactly for
/// these).
pub open spec fn is_scalar_value(u: int) -> bool {
    0 <= u <= 0x10FFFF && !(0xD800 <= u <= 0xDFFF)
}

/// `char::from_u32`: the character with code point `i` when `i` is a
/// Unicode scalar value (at most 0x10FFFF and no surrogate), else `None`.
pub assume_specification[ char::from_u32 ](i: u32) -> (r: Option<char>)
    ensures
        r == (if is_scalar_value(i as int) { Some(i as char) } else { None }),
;

/// Keys strictly increasing.
pub open spec fn strictly_sorted(t: Seq<(u32, u32)>) -> bool {
    forall|i: int, j: int| 0 <= i < j < t.len() ==> t[i].0 < t[j].0
}

/// The value recorded for key `k`.
pub open spec fn table_value(t: Seq<(u32, u32)>, k: u32) -> Option<u32> {
    if exists|i: int| 0 <= i < t.len() && t[i].0 == k {
        Some(t[choose|i: int| 0 <= i < t.len() && t[i].0 == k].1)
    } else {
        None
    }
}

/// The code tables: EUC-JP code to Unicode, and Unicode to EUC-JP code,
/// each sorted by key. A Unicode value above 0xFFFF packs a character and
/// a combining mark (`first * 0x10000 + second`).
#[derive(Debug)]
pub struct EucTable {
    to_ucs: Vec<(u32, u32)>,
    to_euc: Vec<(u32, u32)>,
}

impl EucTable {
    #[verifier::type_invariant]
    closed spec fn sorted(self) -> bool {
        strictly_sorted(self.to_ucs@) && strictly_sorted(self.to_euc@)
    }

    pub closed spec fn decoding(self) -> Seq<(u32, u32)> {
        self.to_ucs@
    }

    pub closed spec fn encoding(self) -> Seq<(u32, u32)> {
        self.to_euc@
    }

    /// A table with no entries.
    pub fn empty() -> (t: EucTable)
        ensures
            t.decoding() == Seq::<(u32, u32)>::empty(),
            t.encoding() == Seq::<(u32, u32)>::empty(),
    {
        EucTable { to_ucs: Vec::new(), to_euc: Vec::new() }
    }

    /// A table from its two lists; `None` unless each is sorted by key with
    /// no key twice.
    pub fn new(to_ucs: Vec<(u32, u32)>, to_euc: Vec<(u32, u32)>) -> (r: Option<EucTable>)
        ensures
            match r {
                Some(t) => t.decoding() == to_ucs@ && t.encoding() == to_euc@,
                None => !(strictly_sorted(to_ucs@) && strictly_sorted(to_euc@)),
            },
    {
        if check_sorted(&to_ucs) && check_sorted(&to_euc) {
            Some(EucTable { to_ucs, to_euc })
        } else {
            None
        }
    }

    fn decode_code(&self, k: u32) -> (r: Option<u32>)
        ensures
            r == table_value(self.decoding(), k),
    {
        proof {
            use_type_invariant(self);
        }
        search(&self.to_ucs, k)
    }

    /// Whether each entry of the encoding table is a code that the decoding
    /// table maps back to the entry's key: the tables for which encoding
    /// then decoding gives the text back (`law_euc_round_trip`).
    pub fn is_inverse(&self) -> (r: bool)
        ensures
            r == tables_inverse(self.decoding(), self.encoding()),
    {
        let mut i: usize = 0;
        while i < self.to_euc.len()
            invariant
                i <= self.to_euc@.len(),
                forall|j: int|
                    #![trigger self.to_euc@[j]]
                    0 <= j < i ==> is_euc_code(self.to_euc@[j].1 as int) && table_value(self.to_ucs@, self.to_euc@[j].1)
                        == Some(self.to_euc@[j].0),
            decreases self.to_euc.len() - i,
        {
            let (k, e) = self.to_euc[i];
            let hi = (e / 0x100) % 0x100;
            let lo = e % 0x100;
            let top = e / 0x10000;
            if !(0xa1 <= hi && hi <= 0xfe && 0xa1 <= lo && lo <= 0xfe && (top == 0 || top == 0x8f)) {
                assert(!is_euc_code(self.to_euc@[i as int].1 as int));
                return false;
            }
            match self.decode_code(e) {
                Some(u) => {
                    if u != k {
                        return false;
                    }
                },
                None => {
                    return false;
                },
            }
            i += 1;
        }
        true
    }

    fn encode_code(&self, k: u32) -> (r: Option<u32>)
        ensures
            r == table_value(self.encoding(), k),
    {
        proof {
            use_type_invariant(self);
        }
        search(&self.to_euc, k)
    }
}

fn check_sorted(t: &Vec<(u32, u32)>) -> (r: bool)
    ensures
        r == strictly_sorted(t@),
{
    let mut i: usize = 1;
    if t.len() == 0 {
        return true;
    }
    while i < t.len()
        invariant
            1 <= i <= t@.len(),
            forall|a: int, b: int| 0 <= a < b < i ==> t@[a].0 < t@[b].0,
        decreases t.len() - i,
    {
        if t[i - 1].0 >= t[i].0 {
            return false;
        }
        assert forall|a: int, b: int| 0 <= a < b < i + 1 implies t@[a].0 < t@[b].0 by {
            if b == i && a < i - 1 {
                assert(t@[a].0 < t@[i - 1].0);
            }
        }
        i += 1;
    }
    true
}

/// Binary search of a strictly sorted table.
fn search(t: &Vec<(u32, u32)>, k: u32) -> (r: Option<u32>)
    requires
        strictly_sorted(t@),
    ensures
        r == table_value(t@, k),
{
    let mut lo: usize = 0;
    let mut hi: usize = t.len();
    while lo < hi
        invariant
            0 <= lo <= hi <= t@.len(),
            strictly_sorted(t@),
            forall|i: int| 0 <= i < lo ==> t@[i].0 < k,
            forall|i: int| hi <= i < t@.len() ==> t@[i].0 > k,
        decreases hi - lo,
    {
        let mid = lo + (hi - lo) / 2;
        let key = t[mid].0;
        if key == k {
            proof {
                assert(exists|i: int| 0 <= i < t@.len() && t@[i].0 == k);
                let j = choose|i: int| 0 <= i < t@.len() && t@[i].0 == k;
                if j != mid as int {
                    if j < mid {
                        assert(t@[j].0 < t@[mid as int].0);
                    } else {
                        assert(t@[mid as int].0 < t@[j].0);
                    }
                }
            }
            return Some(t[mid].1);
        } else if key < k {
            assert forall|i: int| 0 <= i < mid + 1 implies t@[i].0 < k by {
                if i < mid {
                    assert(t@[i].0 < t@[mid as int].0);
                }
            }
            lo = mid + 1;
        } else {
            assert forall|i: int| mid <= i < t@.len() implies t@[i].0 > k by {
                if i > mid {
                    assert(t@[mid as int].0 < t@[i].0);
                }
            }
            hi = mid;
        }
    }
    proof {
        if exists|i: int| 0 <= i < t@.len() && t@[i].0 == k {
            let j = choose|i: int| 0 <= i < t@.len() && t@[i].0 == k;
            assert(j < lo || j >= hi);
        }
    }
    None
}

/// The character for `u`, or the geta mark when `u` is no scalar value.
pub open spec fn scalar_char(u: int) -> char {
    if is_scalar_value(u) {
        u as char
    } else {
        SUBST_CHAR
    }
}

/// The characters of a table value: one, or a character and a combining
/// mark when the value is above 0xFFFFF.
pub open spec fn ucs_chars(v: Option<u32>) -> Seq<char> {
    match v {
        None => seq![SUBST_CHAR],
        Some(p) => if p >= 0x100000 {
            seq![scalar_char((p / 0x10000) as int), scalar_char((p % 0x10000) as int)]
        } else {
            seq![scalar_char(p as int)]
        },
    }
}

pub open spec fn is_euc_byte(b: u8) -> bool {
    0xa1 <= b <= 0xfe
}

/// The characters EUC-JP bytes stand for.
pub open spec fn euc_decoded(t: Seq<(u32, u32)>, b: Seq<u8>) -> Seq<char>
    decreases b.len(),
{
    if b.len() == 0 {
        Seq::empty()
    } else {
        let x = b[0];
        if x <= 0x7f {
            seq![x as char] + euc_decoded(t, b.skip(1))
        } else if x == 0x8e {
            if b.len() >= 2 && 0xa1 <= b[1] <= 0xdf {
                seq![scalar_char(0xff61 + b[1] - 0xa1)] + euc_decoded(t, b.skip(2))
            } else {
                seq![SUBST_CHAR] + euc_decoded(t, b.skip(1))
            }
        } else if x == 0x8f {
            if b.len() >= 3 && is_euc_byte(b[1]) && is_euc_byte(b[2]) {
                ucs_chars(table_value(t, (0x8f0000 + b[1] * 0x100 + b[2]) as u32)) + euc_decoded(t, b.skip(3))
            } else {
                seq![SUBST_CHAR] + euc_decoded(t, b.skip(1))
            }
        } else if is_euc_byte(x) {
            if b.len() >= 2 && is_euc_byte(b[1]) {
                ucs_chars(table_value(t, (x * 0x100 + b[1]) as u32)) + euc_decoded(t, b.skip(2))
            } else {
                seq![SUBST_CHAR] + euc_decoded(t, b.skip(1))
            }
        } else {
            seq![SUBST_CHAR] + euc_decoded(t, b.skip(1))
        }
    }
}

/// The bytes of an EUC-JP code: three for the second plane (0x8f....),
/// else two.
pub open spec fn euc_bytes(e: int) -> Seq<u8> {
    let tail = seq![((e / 0x100) % 0x100) as u8, (e % 0x100) as u8];
    if (e / 0x10000) % 0x100 == 0x8f {
        seq![0x8fu8] + tail
    } else {
        tail
    }
}

/// The EUC-JP bytes of characters.
pub open spec fn euc_encoded(t: Seq<(u32, u32)>, s: Seq<char>) -> Seq<u8>
    decreases s.len(),
{
    if s.len() == 0 {
        Seq::empty()
    } else {
        let u = s[0] as u32;
        if u < 0x80 {
            seq![u as u8] + euc_encoded(t, s.skip(1))
        } else if 0xff61 <= u <= 0xff9f {
            seq![0x8eu8, (0xa1 + u - 0xff61) as u8] + euc_encoded(t, s.skip(1))
        } else if s.len() >= 2 && u < 0x10000 && (s[1] as u32) < 0x10000 && table_value(
            t,
            (u * 0x10000 + s[1] as u32) as u32,
        ) is Some {
            euc_bytes(table_value(t, (u * 0x10000 + s[1] as u32) as u32).unwrap() as int) + euc_encoded(t, s.skip(2))
        } else {
            match table_value(t, u) {
                Some(e) => euc_bytes(e as int) + euc_encoded(t, s.skip(1)),
                None => euc_bytes(SUBST_EUC as int) + euc_encoded(t, s.skip(1)),
            }
        }
    }
}

fn push_scalar(out: &mut Vec<char>, u: u32)
    ensures
        final(out)@ == old(out)@.push(scalar_char(u as int)),
{
    match char::from_u32(u) {
        Some(c) => out.push(c),
        None => out.push(SUBST_CHAR),
    }
}

fn push_ucs(out: &mut Vec<char>, v: Option<u32>)
    ensures
        final(out)@ == old(out)@ + ucs_chars(v),
{
    match v {
        None => {
            out.push(SUBST_CHAR);
            assert(old(out)@.push(SUBST_CHAR) =~= old(out)@ + seq![SUBST_CHAR]);
        },
        Some(p) => {
            if p >= 0x100000 {
                push_scalar(out, p / 0x10000);
                push_scalar(out, p % 0x10000);
                assert(old(out)@.push(scalar_char((p / 0x10000) as int)).push(scalar_char((p % 0x10000) as int))
                    =~= old(out)@ + ucs_chars(v));
            } else {
                push_scalar(out, p);
                assert(old(out)@.push(scalar_char(p as int)) =~= old(out)@ + ucs_chars(v));
            }
        },
    }
}

/// Decode EUC-JP (JIS X 0213) bytes with the code table, putting U+3013
/// for undecodable bytes.
pub fn utf8_from_eucj(bytes: &[u8], table: &EucTable) -> (r: String)
    ensures
        r@ == euc_decoded(table.decoding(), bytes@),
{
    let ghost t = table.decoding();
    let mut out: Vec<char> = Vec::new();
    let mut i: usize = 0;
    assert(out@ + euc_decoded(t, bytes@.skip(0)) =~= euc_decoded(t, bytes@)) by {
        assert(bytes@.skip(0) =~= bytes@);
    }
    while i < bytes.len()
        invariant
            i <= bytes@.len(),
            t == table.decoding(),
            out@ + euc_decoded(t, bytes@.skip(i as int)) == euc_decoded(t, bytes@),
        decreases bytes.len() - i,
    {
        let ghost rest = bytes@.skip(i as int);
        let ghost before = out@;
        let b = bytes[i];
        assert(rest[0] == b);
        let step: usize;
        if b <= 0x7f {
            out.push(b as char);
            step = 1;
        } else if b == 0x8e {
            if i + 1 < bytes.len() && 0xa1 <= bytes[i + 1] && bytes[i + 1] <= 0xdf {
                assert(rest[1] == bytes@[i + 1]);
                push_scalar(&mut out, 0xff61 + (bytes[i + 1] - 0xa1) as u32);
                step = 2;
            } else {
                out.push(SUBST_CHAR);
                step = 1;
            }
        } else if b == 0x8f {
            if bytes.len() - i > 2 && 0xa1 <= bytes[i + 1] && bytes[i + 1] <= 0xfe && 0xa1 <= bytes[i + 2]
                && bytes[i + 2] <= 0xfe {
                assert(rest[1] == bytes@[i + 1] && rest[2] == bytes@[i + 2]);
                let key: u32 = 0x8f0000 + (bytes[i + 1] as u32) * 0x100 + bytes[i + 2] as u32;
                push_ucs(&mut out, table.decode_code(key));
                step = 3;
            } else {
                out.push(SUBST_CHAR);
                step = 1;
            }
        } else if 0xa1 <= b && b <= 0xfe {
            if i + 1 < bytes.len() && 0xa1 <= bytes[i + 1] && bytes[i + 1] <= 0xfe {
                assert(rest[1] == bytes@[i + 1]);
                let key: u32 = (b as u32) * 0x100 + bytes[i + 1] as u32;
                push_ucs(&mut out, table.decode_code(key));
                step = 2;
            } else {
                out.push(SUBST_CHAR);
                step = 1;
            }
        } else {
            out.push(SUBST_CHAR);
            step = 1;
        }
        assert(rest.skip(step as int) =~= bytes@.skip(i + step));
        assert(out@ + euc_decoded(t, bytes@.skip(i + step)) =~= before + euc_decoded(t, rest));
        i = i + step;
    }
    assert(bytes@.skip(i as int) =~= Seq::<u8>::empty());
    assert(out@ + Seq::<char>::empty() =~= out@);
    crate::text::string_of(out.as_slice())
}

fn push_euc(out: &mut Vec<u8>, e: u32)
    ensures
        final(out)@ == old(out)@ + euc_bytes(e as int),
{
    if (e / 0x10000) % 0x100 == 0x8f {
        out.push(0x8f);
    }
    out.push(((e / 0x100) % 0x100) as u8);
    out.push((e % 0x100) as u8);
    assert(final(out)@ =~= old(out)@ + euc_bytes(e as int));
}

/// Encode characters as EUC-JP (JIS X 0213) with the code table, putting
/// the geta mark for unencodable characters.
pub fn eucj_from_utf8(s: &str, table: &EucTable) -> (r: Vec<u8>)
    ensures
        r@ == euc_encoded(table.encoding(), s@),
{
    let ghost t = table.encoding();
    let v = crate::text::chars_of(s);
    let mut out: Vec<u8> = Vec::new();
    let mut i: usize = 0;
    assert(out@ + euc_encoded(t, v@.skip(0)) =~= euc_encoded(t, v@)) by {
        assert(v@.skip(0) =~= v@);
    }
    while i < v.len()
        invariant
            i <= v@.len(),
            v@ == s@,
            t == table.encoding(),
            out@ + euc_encoded(t, v@.skip(i as int)) == euc_encoded(t, v@),
        decreases v.len() - i,
    {
        let ghost rest = v@.skip(i as int);
        let ghost before = out@;
        let c = v[i];
        assert(rest[0] == c);
        let u = c as u32;
        let step: usize;
        if u < 0x80 {
            out.push(u as u8);
            step = 1;
        } else if 0xff61 <= u && u <= 0xff9f {
            out.push(0x8e);
            out.push((0xa1 + (u - 0xff61)) as u8);
            step = 1;
        } else {
            let pair = if i + 1 < v.len() && u < 0x10000 && (v[i + 1] as u32) < 0x10000 {
                assert(rest[1] == v@[i + 1]);
                table.encode_code(u * 0x10000 + v[i + 1] as u32)
            } else {
                None
            };
            match pair {
                Some(e) => {
                    push_euc(&mut out, e);
                    step = 2;
                },
                None => {
                    match table.encode_code(u) {
                        Some(e) => push_euc(&mut out, e),
                        None => push_euc(&mut out, SUBST_EUC),
                    }
                    step = 1;
                },
            }
        }
        assert(rest.skip(step as int) =~= v@.skip(i + step));
        assert(out@ + euc_encoded(t, v@.skip(i + step)) =~= before + euc_encoded(t, rest));
        i = i + step;
    }
    assert(v@.skip(i as int) =~= Seq::<char>::empty());
    assert(out@ + Seq::<u8>::empty() =~= out@);
    out
}

/// A code that the decoder reads back whole: two bytes in 0xa1..=0xfe, or
/// 0x8f followed by two such bytes.
pub open spec fn is_euc_code(e: int) -> bool {
    &&& 0xa1 <= (e / 0x100) % 0x100 <= 0xfe
    &&& 0xa1 <= e % 0x100 <= 0xfe
    &&& (e / 0x10000 == 0 || e / 0x10000 == 0x8f)
}

/// Each entry of the encoding table is a code that the decoding table maps
/// back to the entry's key.
pub open spec fn tables_inverse(dec: Seq<(u32, u32)>, enc: Seq<(u32, u32)>) -> bool {
    forall|i: int|
        #![trigger enc[i]]
        0 <= i < enc.len() ==> is_euc_code(enc[i].1 as int) && table_value(dec, enc[i].1) == Some(
            enc[i].0,
        )
}

/// A character that the encoder writes without the geta mark: ASCII,
/// half-width kana, or a character below U+100000 that has an entry of its
/// own in the encoding table.
pub open spec fn encodable(enc: Seq<(u32, u32)>, c: char) -> bool {
    ||| (c as u32) < 0x80
    ||| 0xff61 <= (c as u32) <= 0xff9f
    ||| (c as u32) < 0x100000 && table_value(enc, c as u32) is Some
}

proof fn lemma_code_of(dec: Seq<(u32, u32)>, enc: Seq<(u32, u32)>, k: u32)
    requires
        tables_inverse(dec, enc),
        table_value(enc, k) is Some,
    ensures
        is_euc_code(table_value(enc, k).unwrap() as int),
        table_value(dec, table_value(enc, k).unwrap()) == Some(k),
{
    assert(exists|i: int| 0 <= i < enc.len() && enc[i].0 == k);
}

proof fn lemma_decode_code(dec: Seq<(u32, u32)>, e: u32, rest: Seq<u8>)
    requires
        is_euc_code(e as int),
    ensures
        euc_decoded(dec, euc_bytes(e as int) + rest) == ucs_chars(table_value(dec, e)) + euc_decoded(
            dec,
            rest,
        ),
{
    let b = euc_bytes(e as int) + rest;
    let hi = ((e / 0x100) % 0x100) as u8;
    let lo = (e % 0x100) as u8;
    if e / 0x10000 == 0 {
        assert(e == hi * 0x100 + lo);
        assert(b[0] == hi && b[1] == lo);
        assert(b.skip(2) =~= rest);
    } else {
        assert(e == 0x8f0000 + hi * 0x100 + lo);
        assert(b[0] == 0x8f && b[1] == hi && b[2] == lo);
        assert(b.skip(3) =~= rest);
    }
}

proof fn lemma_char_round_trip(c: char)
    ensures
        scalar_char(c as u32 as int) == c,
        (c as u32) < 0x80 ==> (c as u32 as u8) as char == c,
{
}

/// Encoding and then decoding gives the characters back, when the two
/// tables are inverse to each other and each character is one that the
/// encoder can write.
pub proof fn law_euc_round_trip(table: EucTable, s: Seq<char>)
    requires
        tables_inverse(table.decoding(), table.encoding()),
        forall|i: int| 0 <= i < s.len() ==> encodable(table.encoding(), #[trigger] s[i]),
    ensures
        euc_decoded(table.decoding(), euc_encoded(table.encoding(), s)) == s,
{
    lemma_round_trip(table.decoding(), table.encoding(), s);
}

proof fn lemma_round_trip(dec: Seq<(u32, u32)>, enc: Seq<(u32, u32)>, s: Seq<char>)
    requires
        tables_inverse(dec, enc),
        forall|i: int| 0 <= i < s.len() ==> encodable(enc, #[trigger] s[i]),
    ensures
        euc_decoded(dec, euc_encoded(enc, s)) == s,
    decreases s.len(),
{
    if s.len() == 0 {
        assert(euc_encoded(enc, s) =~= Seq::<u8>::empty());
        return;
    }
    let c = s[0];
    let u = c as u32;
    assert(encodable(enc, s[0]));
    lemma_char_round_trip(c);
    let pair = s.len() >= 2 && u < 0x10000 && (s[1] as u32) < 0x10000 && table_value(
        enc,
        (u * 0x10000 + s[1] as u32) as u32,
    ) is Some;
    let k: int = if u >= 0x80 && !(0xff61 <= u <= 0xff9f) && pair { 2 } else { 1 };
    let tail = s.skip(k);
    assert forall|i: int| 0 <= i < tail.len() implies encodable(enc, #[trigger] tail[i]) by {
        assert(tail[i] == s[i + k]);
    }
    lemma_round_trip(dec, enc, tail);
    let rest = euc_encoded(enc, tail);
    if u < 0x80 {
        let b = seq![u as u8] + rest;
        assert(euc_encoded(enc, s) == b);
        assert(b[0] == u as u8);
        assert(b.skip(1) =~= rest);
        assert(euc_decoded(dec, b) == seq![c] + tail);
    } else if 0xff61 <= u <= 0xff9f {
        let b = seq![0x8eu8, (0xa1 + u - 0xff61) as u8] + rest;
        assert(euc_encoded(enc, s) == b);
        assert(b[0] == 0x8e && b[1] == (0xa1 + u - 0xff61) as u8);
        assert(b.skip(2) =~= rest);
        assert(euc_decoded(dec, b) == seq![c] + tail);
    } else if pair {
        let p = (u * 0x10000 + s[1] as u32) as u32;
        lemma_code_of(dec, enc, p);
        let e = table_value(enc, p).unwrap();
        assert(euc_encoded(enc, s) == euc_bytes(e as int) + rest);
        lemma_decode_code(dec, e, rest);
        let v = s[1] as u32;
        assert(p / 0x10000 == u && p % 0x10000 == v && p >= 0x100000) by (nonlinear_arith)
            requires
                p == u * 0x10000 + v,
                0x80 <= u < 0x10000,
                v < 0x10000,
        ;
        lemma_char_round_trip(s[1]);
        assert(ucs_chars(table_value(dec, e)) =~= seq![c, s[1]]);
    } else {
        lemma_code_of(dec, enc, u);
        let e = table_value(enc, u).unwrap();
        assert(euc_encoded(enc, s) == euc_bytes(e as int) + rest);
        lemma_decode_code(dec, e, rest);
        assert(ucs_chars(table_value(dec, e)) =~= seq![c]);
    }
    assert(seq![c] + s.skip(1) =~= s);
    if k == 2 {
        assert(seq![c, s[1]] + s.skip(2) =~= s);
    }
}

} // verus!
