//! Automatically updated dictionaries: the location setting, the HTTP
//! request with its `If-Modified-Since` date, the reading of the reply
//! header, and lookups in the downloaded copy.
//!
//! The connection and the file are the host's: it sends `request`, feeds
//! the reply through `status_ok` and `header_step`, stores the body and
//! hands the local copy to `set_dictionary`.

use vstd::prelude::*;
use crate::candidate::CandidateSuite;
use crate::dictionary::common::CommonDictionary;
use crate::dictionary::file::Encoding;
use crate::dictionary::{CompletionHelper, Dictionary};
use crate::entry::Entry;
use crate::text::{parse_count, parse_count_chars, chars_range,
    chars_find, chars_of, chars_trim_end, char_is_white_space, first_index_of, is_white_space,
    lemma_first_index_none, lemma_first_index_unique, padded, padded_signed, push_chars, push_padded,
    push_padded_signed, push_str_chars, string_of, string_of_range, trim_end,
};
use crate::trie::{split_words, words_of};

verus! {

/// The civil (proleptic Gregorian) date `days` days after 1970-01-01, as
/// (year, month, day), by Howard Hinnant's days-to-civil conversion.
pub open spec fn civil_from_days(days: int) -> (int, int, int) {
    let z = days + 719468;
    let era = z / 146097;
    let doe = z % 146097;
    let yoe = (doe - doe / 1460 + doe / 36524 - doe / 146096) / 365;
    let y = yoe + era * 400;
    let doy = doe - (365 * yoe + yoe / 4 - yoe / 100);
    let mp = (5 * doy + 2) / 153;
    let d = doy - (153 * mp + 2) / 5 + 1;
    let m = if mp < 10 { mp + 3 } else { mp - 9 };
    (if m <= 2 { y + 1 } else { y }, m, d)
}

pub open spec fn weekday_name(w: int) -> Seq<char> {
    if w == 0 {
        "Sun"@
    } else if w == 1 {
        "Mon"@
    } else if w == 2 {
        "Tue"@
    } else if w == 3 {
        "Wed"@
    } else if w == 4 {
        "Thu"@
    } else if w == 5 {
        "Fri"@
    } else {
        "Sat"@
    }
}

pub open spec fn month_name(m: int) -> Seq<char> {
    if m == 1 {
        "Jan"@
    } else if m == 2 {
        "Feb"@
    } else if m == 3 {
        "Mar"@
    } else if m == 4 {
        "Apr"@
    } else if m == 5 {
        "May"@
    } else if m == 6 {
        "Jun"@
    } else if m == 7 {
        "Jul"@
    } else if m == 8 {
        "Aug"@
    } else if m == 9 {
        "Sep"@
    } else if m == 10 {
        "Oct"@
    } else if m == 11 {
        "Nov"@
    } else {
        "Dec"@
    }
}

/// The RFC 1123 date of `secs` seconds after the Unix epoch:
/// "Sun, 06 Nov 1994 08:49:37 GMT".
pub open spec fn http_date_text(secs: int) -> Seq<char> {
    let days = secs / 86400;
    let tod = secs % 86400;
    let (y, m, d) = civil_from_days(days);
    weekday_name((days + 4) % 7) + ", "@ + padded(d as nat, 2) + " "@ + month_name(m) + " "@ + padded_signed(y, 4)
        + " "@ + padded((tod / 3600) as nat, 2) + ":"@ + padded(((tod % 3600) / 60) as nat, 2) + ":"@ + padded(
        (tod % 60) as nat,
        2,
    ) + " GMT"@
}

/// Euclidean quotient and remainder.
fn div_mod_euclid(x: i64, n: i64) -> (r: (i64, i64))
    requires
        n > 0,
    ensures
        r.0 == x / n,
        r.1 == x % n,
{
    if x >= 0 {
        let q = ((x as u64) / (n as u64)) as i64;
        let m = ((x as u64) % (n as u64)) as i64;
        assert(x == q * n + m && 0 <= m < n) by (nonlinear_arith)
            requires
                q == (x as u64) / (n as u64),
                m == (x as u64) % (n as u64),
                x >= 0,
                n > 0,
        ;
        proof {
            vstd::arithmetic::div_mod::lemma_fundamental_div_mod_converse(x as int, n as int, q as int, m as int);
        }
        (q, m)
    } else {
        let a = ((-(x + 1)) as u64) as u64;
        let q0 = (a / (n as u64)) as i64;
        let r0 = (a % (n as u64)) as i64;
        let q = -q0 - 1;
        let m = n - r0 - 1;
        assert(x == q * n + m && 0 <= m < n) by (nonlinear_arith)
            requires
                a == -(x + 1),
                q0 == a / (n as u64),
                r0 == a % (n as u64),
                q == -q0 - 1,
                m == n - r0 - 1,
                n > 0,
        ;
        proof {
            vstd::arithmetic::div_mod::lemma_fundamental_div_mod_converse(x as int, n as int, q as int, m as int);
        }
        (q, m)
    }
}

/// The civil date `days` days after 1970-01-01.
fn civil(days: i64) -> (r: (i64, i64, i64))
    requires
        -0x4_0000_0000_0000 < days < 0x4_0000_0000_0000,
    ensures
        (r.0 as int, r.1 as int, r.2 as int) == civil_from_days(days as int),
        1 <= r.1 <= 12,
        1 <= r.2 <= 31,
        r.0 > i64::MIN,
{
    let z = days + 719468;
    let (era, doe) = div_mod_euclid(z, 146097);
    assert(-0x4_0000_0000 <= era <= 0x4_0000_0000) by (nonlinear_arith)
        requires
            era == z / 146097,
            -0x4_0000_0000_0000 < z < 0x4_0000_0000_0000 + 719468,
    ;
    let u = doe as u64;
    let yoe = ((u - u / 1460 + u / 36524 - u / 146096) / 365) as i64;
    assert(0 <= yoe <= 400) by (nonlinear_arith)
        requires
            yoe == (u - u / 1460 + u / 36524 - u / 146096) / 365,
            0 <= u < 146097,
    ;
    let y = yoe + era * 400;
    let yu = yoe as u64;
    let doy = (u - (365 * yu + yu / 4 - yu / 100)) as i64;
    assert(0 <= doy <= 365) by (nonlinear_arith)
        requires
            doy == u - (365 * yu + yu / 4 - yu / 100),
            yu == (u - u / 1460 + u / 36524 - u / 146096) / 365,
            0 <= u < 146097,
    ;
    let mp = ((5 * (doy as u64) + 2) / 153) as i64;
    assert(0 <= mp <= 11) by (nonlinear_arith)
        requires
            mp == (5 * doy + 2) / 153,
            0 <= doy <= 365,
    ;
    let d = doy - (((153 * (mp as u64) + 2) / 5) as i64) + 1;
    assert(1 <= d <= 31) by (nonlinear_arith)
        requires
            d == doy - (153 * mp + 2) / 5 + 1,
            mp == (5 * doy + 2) / 153,
            0 <= doy <= 365,
    ;
    let m = if mp < 10 { mp + 3 } else { mp - 9 };
    let year = if m <= 2 { y + 1 } else { y };
    (year, m, d)
}

/// Format `secs` seconds after the Unix epoch as an RFC 1123 HTTP date.
pub fn http_date(secs: i64) -> (r: String)
    ensures
        r@ == http_date_text(secs as int),
{
    let (days, tod) = div_mod_euclid(secs, 86400);
    assert(-0x4_0000_0000_0000 < days < 0x4_0000_0000_0000) by (nonlinear_arith)
        requires
            days == secs / 86400,
            i64::MIN <= secs <= i64::MAX,
    ;
    let (year, m, d) = civil(days);
    let (_, w) = div_mod_euclid(days + 4, 7);
    format_date(w, d, m, year, tod)
}

fn format_date(w: i64, d: i64, m: i64, year: i64, tod: i64) -> (r: String)
    requires
        0 <= w < 7,
        1 <= d <= 31,
        1 <= m <= 12,
        year > i64::MIN,
        0 <= tod < 86400,
    ensures
        r@ == weekday_name(w as int) + ", "@ + padded(d as nat, 2) + " "@ + month_name(m as int) + " "@ + padded_signed(
            year as int,
            4,
        ) + " "@ + padded((tod / 3600) as nat, 2) + ":"@ + padded(((tod % 3600) / 60) as nat, 2) + ":"@ + padded(
            (tod % 60) as nat,
            2,
        ) + " GMT"@,
{
    let mut out: Vec<char> = Vec::new();
    let wname = match w {
        0 => "Sun",
        1 => "Mon",
        2 => "Tue",
        3 => "Wed",
        4 => "Thu",
        5 => "Fri",
        _ => "Sat",
    };
    push_str_chars(&mut out, wname);
    push_str_chars(&mut out, ", ");
    push_padded(&mut out, d as u64, 2);
    push_str_chars(&mut out, " ");
    let mname = match m {
        1 => "Jan",
        2 => "Feb",
        3 => "Mar",
        4 => "Apr",
        5 => "May",
        6 => "Jun",
        7 => "Jul",
        8 => "Aug",
        9 => "Sep",
        10 => "Oct",
        11 => "Nov",
        _ => "Dec",
    };
    push_str_chars(&mut out, mname);
    push_str_chars(&mut out, " ");
    push_padded_signed(&mut out, year, 4);
    push_str_chars(&mut out, " ");
    push_padded(&mut out, (tod / 3600) as u64, 2);
    push_str_chars(&mut out, ":");
    push_padded(&mut out, ((tod % 3600) / 60) as u64, 2);
    push_str_chars(&mut out, ":");
    push_padded(&mut out, (tod % 60) as u64, 2);
    push_str_chars(&mut out, " GMT");
    string_of(out.as_slice())
}


/// The three fields of a location "host[:port] url local-path": the text up
/// to the first space, the text up to the next space, and the rest, which
/// must not be empty.
pub open spec fn location_parts(l: Seq<char>) -> Option<(Seq<char>, Seq<char>, Seq<char>)> {
    match first_index_of(l, ' ') {
        None => None,
        Some(i) => {
            let rest = l.skip(i + 1);
            match first_index_of(rest, ' ') {
                None => None,
                Some(j) => if j + 1 == rest.len() {
                    None
                } else {
                    Some((l.take(i), rest.take(j), rest.skip(j + 1)))
                },
            }
        },
    }
}

/// A host with a port: as given when it names one, else on port 80.
pub open spec fn with_port(h: Seq<char>) -> Seq<char> {
    if first_index_of(h, ':') is Some {
        h
    } else {
        h + ":80"@
    }
}

/// A host without its port.
pub open spec fn host_name(h: Seq<char>) -> Seq<char> {
    match first_index_of(h, ':') {
        Some(i) => h.take(i),
        None => h,
    }
}

/// The request for `url` on `host`, asking for a copy newer than `secs`
/// seconds after the Unix epoch.
pub open spec fn request_text(url: Seq<char>, host: Seq<char>, secs: int) -> Seq<char> {
    "GET "@ + url + " HTTP/1.1\r\nHost: "@ + host_name(host) + "\r\nIf-Modified-Since: "@ + http_date_text(secs)
        + "\r\nConnection: close\r\n\r\n"@
}

/// A reply status line whose second word is "200".
pub open spec fn status_is_ok(line: Seq<char>) -> bool {
    words_of(line).len() > 1 && words_of(line)[1] == "200"@
}

pub open spec fn ascii_lower(c: char) -> char {
    if 'A' <= c <= 'Z' {
        ((c as int) + 32) as char
    } else {
        c
    }
}

/// A header name equal to "content-length" up to ASCII case.
pub open spec fn names_content_length(name: Seq<char>) -> bool {
    name.len() == 14 && forall|i: int| 0 <= i < 14 ==> ascii_lower(#[trigger] name[i]) == "content-length"@[i]
}

/// `s` without leading white space.
pub open spec fn trim_start(s: Seq<char>) -> Seq<char>
    decreases s.len(),
{
    if s.len() > 0 && is_white_space(s[0]) {
        trim_start(s.skip(1))
    } else {
        s
    }
}

/// The content length after one reply header line, given the length so
/// far: `None` at the blank line that ends the header; the line's value
/// (0 when it is no number) when it is a Content-Length header; else the
/// length so far.
pub open spec fn header_length(line: Seq<char>, length: int) -> Option<int> {
    let t = trim_end(line);
    if t.len() == 0 {
        None
    } else {
        match first_index_of(t, ':') {
            Some(i) => if names_content_length(t.take(i)) {
                Some(
                    match parse_count(trim_start(trim_end(t.skip(i + 1)))) {
                        Some(v) => v,
                        None => 0,
                    },
                )
            } else {
                Some(length)
            },
            None => Some(length),
        }
    }
}

fn chars_trim_start(v: &[char]) -> (r: usize)
    ensures
        r <= v@.len(),
        v@.skip(r as int) == trim_start(v@),
{
    let mut i: usize = 0;
    assert(v@.skip(0) =~= v@);
    while i < v.len() && char_is_white_space(v[i])
        invariant
            i <= v@.len(),
            trim_start(v@.skip(i as int)) == trim_start(v@),
        decreases v.len() - i,
    {
        assert(v@.skip(i as int).skip(1) =~= v@.skip(i + 1));
        i += 1;
    }
    i
}

fn names_content_length_chars(name: &[char]) -> (r: bool)
    ensures
        r == names_content_length(name@),
{
    let target = chars_of("content-length");
    proof {
        reveal_strlit("content-length");
    }
    if name.len() != 14 {
        return false;
    }
    let mut i: usize = 0;
    while i < 14
        invariant
            i <= 14,
            name@.len() == 14,
            target@ == "content-length"@,
            target@.len() == 14,
            forall|k: int| 0 <= k < i ==> ascii_lower(#[trigger] name@[k]) == "content-length"@[k],
        decreases 14 - i,
    {
        let c = name[i];
        let lower = if 'A' <= c && c <= 'Z' { ((c as u32) + 32) as u8 as char } else { c };
        assert(lower == ascii_lower(c)) by {
            if 'A' <= c <= 'Z' {
                assert((c as u32) + 32 < 128);
            }
        }
        if lower != target[i] {
            return false;
        }
        i += 1;
    }
    true
}

/// A dictionary downloaded over HTTP and read from its local copy.
#[derive(Debug)]
pub struct AutoUpdateDictionary {
    host: String,
    url: String,
    path: String,
    dictionary: CommonDictionary,
}

impl AutoUpdateDictionary {
    /// The server, with its port.
    pub closed spec fn server(self) -> Seq<char> {
        self.host@
    }

    /// The path of the dictionary on the server.
    pub closed spec fn remote(self) -> Seq<char> {
        self.url@
    }

    /// The path of the local copy.
    pub closed spec fn local(self) -> Seq<char> {
        self.path@
    }

    /// The dictionary read from the local copy.
    pub closed spec fn copy(self) -> CommonDictionary {
        self.dictionary
    }

    /// Set up from a location "host[:port] url local-path"; `None` when one
    /// of the three is missing. The local copy is empty until the host
    /// reads it into `set_dictionary`.
    pub fn open(location: &str) -> (r: Option<AutoUpdateDictionary>)
        ensures
            match location_parts(location@) {
                None => r is None,
                Some((h, u, p)) => r matches Some(d) && d.server() == with_port(h) && d.remote() == u
                    && d.local() == p && d.copy().ari().len() == 0 && d.copy().nasi().len() == 0,
            },
    {
        let v = chars_of(location);
        let i = match chars_find(v.as_slice(), ' ') {
            Some(i) => i,
            None => {
                return None;
            },
        };
        proof {
            crate::text::lemma_first_index_of(v@, ' ');
        }
        let rest = chars_range(v.as_slice(), i + 1, v.len());
        assert(rest@ =~= v@.skip(i + 1));
        let j = match chars_find(rest.as_slice(), ' ') {
            Some(j) => j,
            None => {
                return None;
            },
        };
        proof {
            crate::text::lemma_first_index_of(rest@, ' ');
        }
        if j + 1 == rest.len() {
            return None;
        }
        let host = string_of_range(v.as_slice(), 0, i);
        let url = string_of_range(rest.as_slice(), 0, j);
        let path = string_of_range(rest.as_slice(), j + 1, rest.len());
        assert(host@ =~= v@.take(i as int));
        assert(url@ =~= rest@.take(j as int));
        assert(path@ =~= rest@.skip(j + 1));
        let hv = chars_of(host.as_str());
        let host = match chars_find(hv.as_slice(), ':') {
            Some(_) => host,
            None => {
                let mut w: Vec<char> = Vec::new();
                push_chars(&mut w, hv.as_slice());
                push_str_chars(&mut w, ":80");
                proof {
                    reveal_strlit(":80");
                }
                string_of(w.as_slice())
            },
        };
        Some(AutoUpdateDictionary { host, url, path, dictionary: CommonDictionary::new(Encoding::Auto) })
    }

    pub fn host(&self) -> (r: &str)
        ensures
            r@ == self.server(),
    {
        self.host.as_str()
    }

    pub fn url(&self) -> (r: &str)
        ensures
            r@ == self.remote(),
    {
        self.url.as_str()
    }

    pub fn path(&self) -> (r: &str)
        ensures
            r@ == self.local(),
    {
        self.path.as_str()
    }

    /// Replace the dictionary with the one read from the local copy.
    pub fn set_dictionary(&mut self, dictionary: CommonDictionary)
        ensures
            final(self).copy() == dictionary,
            final(self).server() == old(self).server(),
            final(self).remote() == old(self).remote(),
            final(self).local() == old(self).local(),
    {
        self.dictionary = dictionary;
    }

    /// The HTTP request for a copy newer than `modified_since` seconds
    /// after the Unix epoch.
    pub fn request(&self, modified_since: i64) -> (r: String)
        ensures
            r@ == request_text(self.remote(), self.server(), modified_since as int),
    {
        let hv = chars_of(self.host.as_str());
        let end = match chars_find(hv.as_slice(), ':') {
            Some(k) => k,
            None => hv.len(),
        };
        proof {
            crate::text::lemma_first_index_of(hv@, ':');
        }
        let mut w: Vec<char> = Vec::new();
        push_str_chars(&mut w, "GET ");
        push_str_chars(&mut w, self.url.as_str());
        push_str_chars(&mut w, " HTTP/1.1\r\nHost: ");
        let name = chars_range(hv.as_slice(), 0, end);
        push_chars(&mut w, name.as_slice());
        push_str_chars(&mut w, "\r\nIf-Modified-Since: ");
        let date = http_date(modified_since);
        push_str_chars(&mut w, date.as_str());
        push_str_chars(&mut w, "\r\nConnection: close\r\n\r\n");
        proof {
            assert(hv@.subrange(0, end as int) =~= host_name(self.host@));
        }
        string_of(w.as_slice())
    }

    /// Whether a reply status line reports success ("200").
    pub fn status_ok(line: &str) -> (r: bool)
        ensures
            r == status_is_ok(line@),
    {
        let v = chars_of(line);
        let words = split_words(v.as_slice());
        proof {
            reveal_strlit("200");
        }
        if words.len() < 2 {
            return false;
        }
        let w = &words[1];
        assert(words@.map_values(|x: Vec<char>| x@)[1] == w@);
        let target = chars_of("200");
        crate::text::chars_eq(w.as_slice(), target.as_slice())
    }

    /// Read one reply header line: `None` at the end of the header, else
    /// the content length known after it, starting from `length`.
    pub fn header_step(line: &str, length: usize) -> (r: Option<usize>)
        ensures
            match header_length(line@, length as int) {
                None => r is None,
                Some(n) => r == Some(n as usize),
            },
    {
        let v = chars_of(line);
        let n = chars_trim_end(v.as_slice());
        if n == 0 {
            return None;
        }
        let t = chars_range(v.as_slice(), 0, n);
        assert(t@ =~= trim_end(line@));
        let i = match chars_find(t.as_slice(), ':') {
            Some(i) => i,
            None => {
                return Some(length);
            },
        };
        proof {
            crate::text::lemma_first_index_of(t@, ':');
        }
        let name = chars_range(t.as_slice(), 0, i);
        assert(name@ =~= t@.take(i as int));
        if !names_content_length_chars(name.as_slice()) {
            return Some(length);
        }
        let value = chars_range(t.as_slice(), i + 1, t.len());
        assert(value@ =~= t@.skip(i + 1));
        let m = chars_trim_end(value.as_slice());
        let trimmed = chars_range(value.as_slice(), 0, m);
        assert(trimmed@ =~= trim_end(value@));
        let k = chars_trim_start(trimmed.as_slice());
        let digits = chars_range(trimmed.as_slice(), k, trimmed.len());
        assert(digits@ =~= trim_start(trimmed@));
        match parse_count_chars(digits.as_slice()) {
            Some(c) => Some(c),
            None => Some(0),
        }
    }
}

impl Dictionary for AutoUpdateDictionary {
    fn find(&self, entry: &Entry, result: &mut CandidateSuite)
        ensures
            final(result)@ == crate::dictionary::common::merge_suite(
                old(result)@,
                crate::dictionary::common::file_lookup(self.copy().ari(), self.copy().nasi(), entry.key(), entry.okuri()),
            ),
    {
        self.dictionary.find(entry, result);
    }

    fn reverse_lookup(&self, candidate: &str) -> (r: Option<String>)
        ensures
            match r {
                Some(k) => crate::dictionary::common::reverse_key(self.copy().nasi(), candidate@) == Some(k@),
                None => crate::dictionary::common::reverse_key(self.copy().nasi(), candidate@) is None,
            },
    {
        self.dictionary.reverse_lookup(candidate)
    }

    fn complete(&self, helper: &mut CompletionHelper)
        ensures
            final(helper)@ == old(helper)@.add_all(
                crate::dictionary::common::prefixed_keys(self.copy().nasi(), old(helper)@.entry),
            ),
    {
        self.dictionary.complete(helper);
    }
}

} // verus!
