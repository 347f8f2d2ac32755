//! The skkserv protocol: one reply for each request command.

use vstd::prelude::*;
use vstd::string::StringSliceAdditionalSpecFns;
use crate::backend::Backend;
use crate::candidate::{line_of, CandidateSuite};
use crate::dictionary::proxy::{completion_line, marks_okuri, server_entry, slash_joined};
use crate::jconv::eucjp::{euc_decoded, euc_encoded, eucj_from_utf8, utf8_from_eucj, EucTable};

verus! {

/// What the server answers to command '2'.
pub const SERVER_VERSION: &'static str = "rust-skkserv/0.1.0 ";

/// What the server answers to command '3'.
pub const SERVER_HOST: &'static str = "127.0.0.1:0.0.0.0: ";

/// The okurigana a server looks a requested key up with.
pub open spec fn served_okuri(k: Seq<char>) -> Seq<char> {
    if marks_okuri(k) {
        "dummy"@
    } else {
        Seq::empty()
    }
}

/// "4", the requested token and a newline: nothing found.
pub open spec fn not_found_reply(token: Seq<u8>) -> Seq<u8> {
    seq![0x34u8] + token + seq![0x0au8]
}

/// "1", an EUC-JP body and a newline.
pub open spec fn found_reply(body: Seq<u8>) -> Seq<u8> {
    seq![0x31u8] + body + seq![0x0au8]
}

/// The reply to one request `cmd` with its EUC-JP `token` (the key of
/// commands '1' and '4'), and whether the connection stays open.
pub fn server_reply(backend: &Backend, table: &EucTable, cmd: u8, token: &[u8]) -> (r: (Vec<u8>, bool))
    ensures
        cmd == 0x30 ==> r.0@ == Seq::<u8>::empty() && !r.1,
        cmd == 0x31 ==> {
            let key = euc_decoded(table.decoding(), token@);
            let suite = backend.found_for(key, served_okuri(key));
            &&& r.1
            &&& suite.candidates.len() == 0 ==> r.0@ == not_found_reply(token@)
            &&& suite.candidates.len() > 0 ==> r.0@ == found_reply(
                euc_encoded(table.encoding(), line_of(suite, true)),
            )
        },
        cmd == 0x32 ==> r.0@ == SERVER_VERSION.spec_bytes() && r.1,
        cmd == 0x33 ==> r.0@ == SERVER_HOST.spec_bytes() && r.1,
        cmd == 0x34 ==> {
            let key = euc_decoded(table.decoding(), token@);
            let found = backend.completed(key, 0).result;
            &&& r.1
            &&& found.len() == 0 ==> r.0@ == not_found_reply(token@)
            &&& found.len() > 0 ==> r.0@ == found_reply(euc_encoded(table.encoding(), slash_joined(found)))
        },
        !(0x30 <= cmd <= 0x34) ==> r.0@ == seq![0x30u8] && r.1,
{
    let mut out: Vec<u8> = Vec::new();
    if cmd == 0x30 {
        return (out, false);
    } else if cmd == 0x31 {
        let key = utf8_from_eucj(token, table);
        let entry = server_entry(key.as_str());
        let mut suite = CandidateSuite::new();
        backend.find(&entry, &mut suite);
        if suite.is_empty() {
            out.push(0x34);
            append_bytes(&mut out, token);
        } else {
            out.push(0x31);
            let line = suite.to_line(true);
            let body = eucj_from_utf8(line.as_str(), table);
            append_bytes(&mut out, body.as_slice());
        }
        out.push(0x0a);
    } else if cmd == 0x32 {
        append_bytes(&mut out, SERVER_VERSION.as_bytes());
    } else if cmd == 0x33 {
        append_bytes(&mut out, SERVER_HOST.as_bytes());
    } else if cmd == 0x34 {
        let key = utf8_from_eucj(token, table);
        let completions = backend.complete(key.as_str(), 0);
        if completions.len() == 0 {
            out.push(0x34);
            append_bytes(&mut out, token);
        } else {
            out.push(0x31);
            let line = completion_line(completions.as_slice());
            let body = eucj_from_utf8(line.as_str(), table);
            append_bytes(&mut out, body.as_slice());
        }
        out.push(0x0a);
    } else {
        out.push(0x30);
    }
    (out, true)
}

fn append_bytes(out: &mut Vec<u8>, b: &[u8])
    ensures
        final(out)@ == old(out)@ + b@,
{
    let mut i: usize = 0;
    while i < b.len()
        invariant
            i <= b@.len(),
            out@ == old(out)@ + b@.take(i as int),
        decreases b.len() - i,
    {
        out.push(b[i]);
        assert(b@.take(i + 1) =~= b@.take(i as int).push(b@[i as int]));
        i += 1;
    }
    assert(b@.take(b@.len() as int) =~= b@);
}

} // verus!
