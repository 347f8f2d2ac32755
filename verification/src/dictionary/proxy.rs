//! skkserv dictionaries: addressing, request text and response parsing,
//! and the server side's reading of requested keys and writing of
//! completion replies. The connections themselves are the host's.

use vstd::prelude::*;
use crate::candidate::{parse_run, CandidateSuite, SuiteModel};
use crate::dictionary::common::merge_suite;
use crate::dictionary::file::Encoding;
use crate::dictionary::{CompletionHelper, HelperModel};
use crate::entry::Entry;
use crate::text::{chars_contains, chars_of, chars_trim_end, copy_str, occurs_in, string_of,
    string_of_range, trim_end};

verus! {

/// The server address for a location: "host:port", or "host" on port 1178.
pub open spec fn proxy_address(location: Seq<char>) -> Seq<char> {
    if occurs_in(location, seq![':']) {
        location
    } else {
        location + ":1178"@
    }
}

/// The encoding spoken with the server; `Auto` means EUC-JP.
pub open spec fn proxy_encoding(e: Encoding) -> Encoding {
    match e {
        Encoding::Utf8 => Encoding::Utf8,
        _ => Encoding::EucJp,
    }
}

/// The body of a positive skkserv reply ("1/..../\n" without the "1" and
/// trailing white space), if the reply is positive.
pub open spec fn reply_body(response: Seq<char>) -> Option<Seq<char>> {
    let r = trim_end(response);
    if r.len() < 2 || r[0] != '1' {
        None
    } else {
        Some(r.skip(1))
    }
}

/// The non-empty pieces of `s` between '/' characters.
pub open spec fn slash_pieces_run(s: Seq<char>) -> (Seq<Seq<char>>, Seq<char>)
    decreases s.len(),
{
    if s.len() == 0 {
        (Seq::empty(), Seq::empty())
    } else {
        let (done, cur) = slash_pieces_run(s.drop_last());
        if s.last() == '/' {
            (if cur.len() > 0 { done.push(cur) } else { done }, Seq::empty())
        } else {
            (done, cur.push(s.last()))
        }
    }
}

pub open spec fn slash_pieces(s: Seq<char>) -> Seq<Seq<char>> {
    let (done, cur) = slash_pieces_run(s);
    if cur.len() > 0 { done.push(cur) } else { done }
}

/// A dictionary served by skkserv.
#[derive(Debug, Clone)]
pub struct ProxyDictionary {
    address: String,
    encoding: Encoding,
}

impl ProxyDictionary {
    pub closed spec fn server(self) -> Seq<char> {
        self.address@
    }

    pub closed spec fn speaks(self) -> Encoding {
        self.encoding
    }

    /// `location` is "host:port" or "host" (port 1178). The server is
    /// assumed to speak EUC-JP.
    pub fn new(location: &str) -> (d: ProxyDictionary)
        ensures
            d.server() == proxy_address(location@),
            d.speaks() == Encoding::EucJp,
    {
        Self::with_encoding(location, Encoding::EucJp)
    }

    /// Like `new`, with the encoding the server speaks.
    pub fn with_encoding(location: &str, encoding: Encoding) -> (d: ProxyDictionary)
        ensures
            d.server() == proxy_address(location@),
            d.speaks() == proxy_encoding(encoding),
    {
        let v = chars_of(location);
        let colon = chars_of(":");
        proof {
            reveal_strlit(":");
        }
        assert(colon@ =~= seq![':']);
        let address = if chars_contains(v.as_slice(), colon.as_slice()) {
            copy_str(location)
        } else {
            let mut a = copy_str(location);
            a.append(":1178");
            a
        };
        let encoding = match encoding {
            Encoding::Utf8 => Encoding::Utf8,
            _ => Encoding::EucJp,
        };
        ProxyDictionary { address, encoding }
    }

    pub fn address(&self) -> (r: &str)
        ensures
            r@ == self.server(),
    {
        self.address.as_str()
    }

    pub fn encoding(&self) -> (e: Encoding)
        ensures
            e == self.speaks(),
    {
        self.encoding
    }

    /// The request text for a command ('1' lookup, '4' completion):
    /// the command, the key and a space.
    pub fn request(command: char, key: &str) -> (r: String)
        ensures
            r@ == seq![command] + key@ + seq![' '],
    {
        let mut r = String::new();
        r.push(command);
        r.append(key);
        r.push(' ');
        assert(r@ =~= seq![command] + key@ + seq![' ']);
        r
    }

    /// Merge the candidates of a lookup reply into `result`.
    pub fn merge_find_response(response: &str, result: &mut CandidateSuite)
        ensures
            match reply_body(response@) {
                Some(body) => final(result)@ == merge_suite(
                    old(result)@,
                    SuiteModel { candidates: parse_run(body).candidates, hints: parse_run(body).hints },
                ),
                None => final(result)@ == old(result)@,
            },
    {
        let v = chars_of(response);
        let n = chars_trim_end(v.as_slice());
        if n < 2 || v[0] != '1' {
            return;
        }
        let body = string_of_range(v.as_slice(), 1, n);
        assert(body@ =~= trim_end(response@).skip(1));
        let suite = CandidateSuite::from_line(body.as_str());
        result.add_suite(&suite);
    }

    /// Offer the completions of a completion reply to `helper`.
    pub fn merge_complete_response(response: &str, helper: &mut CompletionHelper)
        ensures
            match reply_body(response@) {
                Some(body) => final(helper)@ == old(helper)@.add_all(slash_pieces(body)),
                None => final(helper)@ == old(helper)@,
            },
    {
        let v = chars_of(response);
        let n = chars_trim_end(v.as_slice());
        if n < 2 || v[0] != '1' {
            return;
        }
        let ghost body = trim_end(response@).skip(1);
        let ghost h0 = helper@;
        let mut cur: Vec<char> = Vec::new();
        let mut i: usize = 1;
        assert(v@.subrange(1, 1) =~= Seq::<char>::empty());
        while i < n
            invariant
                1 <= i <= n <= v@.len(),
                v@ == response@,
                v@.take(n as int) == trim_end(response@),
                body == trim_end(response@).skip(1),
                helper@ == h0.add_all(slash_pieces_run(v@.subrange(1, i as int)).0),
                cur@ == slash_pieces_run(v@.subrange(1, i as int)).1,
            decreases n - i,
        {
            assert(v@.subrange(1, i + 1).drop_last() =~= v@.subrange(1, i as int));
            assert(v@.subrange(1, i + 1).last() == v@[i as int]);
            if v[i] == '/' {
                if cur.len() > 0 {
                    let s = string_of(cur.as_slice());
                    helper.add(s.as_str());
                    let ghost done = slash_pieces_run(v@.subrange(1, i as int)).0;
                    assert(done.push(cur@).drop_last() =~= done);
                }
                cur = Vec::new();
            } else {
                cur.push(v[i]);
            }
            i += 1;
        }
        assert(v@.subrange(1, n as int) =~= body);
        if cur.len() > 0 {
            let s = string_of(cur.as_slice());
            helper.add(s.as_str());
            let ghost done = slash_pieces_run(body).0;
            assert(done.push(cur@).drop_last() =~= done);
        }
    }
}

/// A requested key the server reads as okuri-ari: more than one
/// character, the first not ASCII and the last an ASCII letter.
pub open spec fn marks_okuri(k: Seq<char>) -> bool {
    &&& k.len() > 1
    &&& (k[0] as u32) >= 0x80
    &&& ('a' <= k.last() <= 'z') || ('A' <= k.last() <= 'Z')
}

/// The entry a server looks a requested key up with; an okuri-ari key gets
/// placeholder okurigana.
pub fn server_entry(key: &str) -> (e: Entry)
    ensures
        marks_okuri(key@) ==> e.is_made_of(key@, Seq::empty(), "dummy"@),
        !marks_okuri(key@) ==> e.is_made_of(key@, Seq::empty(), Seq::empty()),
{
    let v = chars_of(key);
    let n = v.len();
    if n > 1 && (v[0] as u32) >= 0x80 && (('a' <= v[n - 1] && v[n - 1] <= 'z') || ('A' <= v[n - 1] && v[n - 1] <= 'Z')) {
        Entry::new(key, "dummy")
    } else {
        Entry::from_entry(key)
    }
}

/// "/c1/c2/.../": each completion followed by '/'.
pub open spec fn slash_joined(cs: Seq<Seq<char>>) -> Seq<char>
    decreases cs.len(),
{
    if cs.len() == 0 {
        seq!['/']
    } else {
        slash_joined(cs.drop_last()) + cs.last() + seq!['/']
    }
}

/// The body of a server's completion reply.
pub fn completion_line(completions: &[String]) -> (r: String)
    ensures
        r@ == slash_joined(completions@.map_values(|c: String| c@)),
{
    let mut out: Vec<char> = Vec::new();
    out.push('/');
    let ghost cs = completions@.map_values(|c: String| c@);
    let mut i: usize = 0;
    assert(cs.take(0) =~= Seq::<Seq<char>>::empty());
    while i < completions.len()
        invariant
            i <= completions@.len(),
            cs == completions@.map_values(|c: String| c@),
            out@ == slash_joined(cs.take(i as int)),
        decreases completions.len() - i,
    {
        crate::text::push_str_chars(&mut out, completions[i].as_str());
        out.push('/');
        assert(cs.take(i + 1).drop_last() =~= cs.take(i as int));
        i += 1;
    }
    assert(cs.take(completions.len() as int) =~= cs);
    string_of(out.as_slice())
}

} // verus!
