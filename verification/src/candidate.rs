//! Conversion candidates, okuri hints and candidate suites, with the parser
//! and serializer of dictionary line bodies ("/word1/word2;annotation/[okuri/word/]/").

use vstd::prelude::*;
use crate::text::{has_prefix,
    append_chars, chars_eq, chars_find, chars_of, chars_replace, copy_str, first_index_of,
    replace_all, str_eq, string_of, string_of_range,
};

verus! {

/// The mathematical content of a candidate.
pub struct CandidateModel {
    pub word: Seq<char>,
    pub annotation: Seq<char>,
    pub variant: Seq<char>,
    pub avoid_study: bool,
}

impl CandidateModel {
    /// The text shown for the candidate: its numeric variant, or the word.
    pub open spec fn shown(self) -> Seq<char> {
        if self.variant.len() == 0 {
            self.word
        } else {
            self.variant
        }
    }

    /// The dictionary form: "word" or "word;annotation".
    pub open spec fn serialized(self) -> Seq<char> {
        if self.annotation.len() == 0 {
            self.word
        } else {
            self.word + seq![';'] + self.annotation
        }
    }
}

/// The candidate that `Candidate::new` builds from "word;annotation".
pub open spec fn split_candidate(s: Seq<char>) -> CandidateModel {
    match first_index_of(s, ';') {
        Some(i) => CandidateModel {
            word: s.take(i),
            annotation: s.skip(i + 1),
            variant: Seq::empty(),
            avoid_study: false,
        },
        None => CandidateModel {
            word: s,
            annotation: Seq::empty(),
            variant: Seq::empty(),
            avoid_study: false,
        },
    }
}

/// A plain candidate with the given word.
pub open spec fn word_candidate(s: Seq<char>) -> CandidateModel {
    CandidateModel { word: s, annotation: Seq::empty(), variant: Seq::empty(), avoid_study: false }
}

/// Escape characters that conflict with dictionary syntax.
pub open spec fn encoded(s: Seq<char>) -> Seq<char> {
    replace_all(
        replace_all(replace_all(s, seq!['['], "[5b]"@), seq!['/'], "[2f]"@),
        seq![';'],
        "[3b]"@,
    )
}

/// Undo `encoded`.
pub open spec fn decoded(s: Seq<char>) -> Seq<char> {
    replace_all(
        replace_all(replace_all(s, "[5b]"@, seq!['[']), "[2f]"@, seq!['/']),
        "[3b]"@,
        seq![';'],
    )
}

/// The escaped form of one character.
pub open spec fn escape_char(c: char) -> Seq<char> {
    if c == '[' {
        "[5b]"@
    } else if c == '/' {
        "[2f]"@
    } else if c == ';' {
        "[3b]"@
    } else {
        seq![c]
    }
}

/// An escaped text after the first steps of unescaping: brackets back,
/// and slashes too when `slash`.
pub open spec fn partly_decoded(s: Seq<char>, slash: bool) -> Seq<char>
    decreases s.len(),
{
    if s.len() == 0 {
        Seq::empty()
    } else {
        let c = s[0];
        let piece = if c == '[' {
            seq!['[']
        } else if c == '/' {
            if slash { seq!['/'] } else { "[2f]"@ }
        } else if c == ';' {
            "[3b]"@
        } else {
            seq![c]
        };
        piece + partly_decoded(s.skip(1), slash)
    }
}

proof fn lemma_escape_literals()
    ensures
        "[5b]"@ == seq!['[', '5', 'b', ']'],
        "[2f]"@ == seq!['[', '2', 'f', ']'],
        "[3b]"@ == seq!['[', '3', 'b', ']'],
{
    reveal_strlit("[5b]");
    reveal_strlit("[2f]");
    reveal_strlit("[3b]");
    assert("[5b]"@ =~= seq!['[', '5', 'b', ']']);
    assert("[2f]"@ =~= seq!['[', '2', 'f', ']']);
    assert("[3b]"@ =~= seq!['[', '3', 'b', ']']);
}

/// A piece without the pattern's first character passes a replacement.
proof fn lemma_piece_passes(p: Seq<char>, y: Seq<char>, pat: Seq<char>, t: Seq<char>)
    requires
        pat.len() > 0,
        forall|i: int| 0 <= i < p.len() ==> #[trigger] p[i] != pat[0],
    ensures
        replace_all(p + y, pat, t) == p + replace_all(y, pat, t),
{
    assert forall|i: int| 0 <= i < p.len() implies !has_prefix(#[trigger] (p + y).skip(i), pat) by {
        assert((p + y).skip(i)[0] == p[i]);
    }
    crate::text::lemma_replace_passes(p, y, pat, t);
}

/// An escape other than the pattern (differing in its second character)
/// passes a replacement of a four-character escape.
proof fn lemma_escape_passes(e: Seq<char>, y: Seq<char>, pat: Seq<char>, t: Seq<char>)
    requires
        e.len() == 4,
        pat.len() == 4,
        e[0] == '[' && pat[0] == '[',
        e[1] != pat[1],
        e[1] != '[' && e[2] != '[' && e[3] != '[',
    ensures
        replace_all(e + y, pat, t) == e + replace_all(y, pat, t),
{
    assert forall|i: int| 0 <= i < e.len() implies !has_prefix(#[trigger] (e + y).skip(i), pat) by {
        if i == 0 {
            assert((e + y).skip(0).take(4)[1] == e[1]);
        } else {
            assert((e + y).skip(i)[0] == e[i]);
        }
    }
    crate::text::lemma_replace_passes(e, y, pat, t);
}

proof fn lemma_encoded_cons(c: char, r: Seq<char>)
    ensures
        encoded(seq![c] + r) == escape_char(c) + encoded(r),
{
    lemma_escape_literals();
    let s = seq![c] + r;
    let r1 = replace_all(r, seq!['['], "[5b]"@);
    let r2 = replace_all(r1, seq!['/'], "[2f]"@);
    // First step: brackets.
    let e1 = if c == '[' { "[5b]"@ } else { seq![c] };
    if c == '[' {
        crate::text::lemma_replace_hits(r, seq!['['], "[5b]"@);
    } else {
        lemma_piece_passes(seq![c], r, seq!['['], "[5b]"@);
    }
    assert(replace_all(s, seq!['['], "[5b]"@) == e1 + r1);
    // Second step: slashes.
    let e2 = if c == '/' { "[2f]"@ } else { e1 };
    if c == '/' {
        crate::text::lemma_replace_hits(r1, seq!['/'], "[2f]"@);
    } else {
        lemma_piece_passes(e1, r1, seq!['/'], "[2f]"@);
    }
    assert(replace_all(e1 + r1, seq!['/'], "[2f]"@) == e2 + r2);
    // Third step: semicolons.
    if c == ';' {
        crate::text::lemma_replace_hits(r2, seq![';'], "[3b]"@);
    } else {
        lemma_piece_passes(e2, r2, seq![';'], "[3b]"@);
    }
    assert(e2 == escape_char(c) || c == ';');
}

proof fn lemma_first_unescape(s: Seq<char>)
    ensures
        replace_all(encoded(s), "[5b]"@, seq!['[']) == partly_decoded(s, false),
    decreases s.len(),
{
    lemma_escape_literals();
    if s.len() == 0 {
        reveal_strlit("[5b]");
        assert(encoded(s) == Seq::<char>::empty()) by {
            assert(s =~= Seq::<char>::empty());
        }
    } else {
        let c = s[0];
        let r = s.skip(1);
        assert(s =~= seq![c] + r);
        lemma_encoded_cons(c, r);
        lemma_first_unescape(r);
        let y = encoded(r);
        if c == '[' {
            crate::text::lemma_replace_hits(y, "[5b]"@, seq!['[']);
        } else if c == '/' {
            lemma_escape_passes("[2f]"@, y, "[5b]"@, seq!['[']);
        } else if c == ';' {
            lemma_escape_passes("[3b]"@, y, "[5b]"@, seq!['[']);
        } else {
            lemma_piece_passes(seq![c], y, "[5b]"@, seq!['[']);
        }
    }
}

/// A partly unescaped text begins with plain characters only where the
/// text itself does.
proof fn lemma_partly_decoded_prefix(s: Seq<char>, slash: bool, w: Seq<char>)
    requires
        forall|i: int| 0 <= i < w.len() ==> #[trigger] w[i] != '[' && w[i] != '/',
        has_prefix(partly_decoded(s, slash), w),
    ensures
        has_prefix(s, w),
    decreases w.len(),
{
    lemma_escape_literals();
    if w.len() > 0 {
        assert(s.len() > 0) by {
            if s.len() == 0 {
                assert(partly_decoded(s, slash) == Seq::<char>::empty());
            }
        }
        let c = s[0];
        let rest = partly_decoded(s.skip(1), slash);
        assert(partly_decoded(s, slash)[0] == w[0]);
        assert(c != '[' && c != '/' && c != ';') by {
            if c == '[' || c == ';' || (c == '/' && !slash) {
                assert(partly_decoded(s, slash)[0] == '[');
            } else if c == '/' {
                assert(partly_decoded(s, slash)[0] == '/');
            }
        }
        assert(partly_decoded(s, slash) == seq![c] + rest);
        assert(c == w[0]);
        let w1 = w.skip(1);
        assert(has_prefix(rest, w1)) by {
            assert(rest.take(w1.len() as int) =~= partly_decoded(s, slash).take(w.len() as int).skip(1));
        }
        assert forall|i: int| 0 <= i < w1.len() implies #[trigger] w1[i] != '[' && w1[i] != '/' by {
            assert(w1[i] == w[i + 1]);
        }
        lemma_partly_decoded_prefix(s.skip(1), slash, w1);
        assert(w =~= seq![w[0]] + w1);
        assert(s.take(w.len() as int) =~= seq![c] + s.skip(1).take(w1.len() as int));
    } else {
        assert(s.take(0) =~= w);
    }
}

proof fn lemma_second_unescape(s: Seq<char>)
    requires
        !crate::text::occurs_in(s, "[2f]"@),
    ensures
        replace_all(partly_decoded(s, false), "[2f]"@, seq!['/']) == partly_decoded(s, true),
    decreases s.len(),
{
    lemma_escape_literals();
    if s.len() > 0 {
        let c = s[0];
        let r = s.skip(1);
        assert(!crate::text::occurs_in(r, "[2f]"@)) by {
            if crate::text::occurs_in(r, "[2f]"@) {
                let j = choose|j: int| crate::text::occurs_at(r, "[2f]"@, j);
                assert(s.subrange(j + 1, j + 5) =~= r.subrange(j, j + 4));
                assert(crate::text::occurs_at(s, "[2f]"@, j + 1));
            }
        }
        lemma_second_unescape(r);
        let y = partly_decoded(r, false);
        if c == '[' {
            let w = seq!['2', 'f', ']'];
            assert(!has_prefix(y, w)) by {
                if has_prefix(y, w) {
                    lemma_partly_decoded_prefix(r, false, w);
                    assert(s.subrange(0, 4) =~= "[2f]"@);
                    assert(crate::text::occurs_at(s, "[2f]"@, 0));
                }
            }
            assert(!has_prefix(seq!['['] + y, "[2f]"@)) by {
                if has_prefix(seq!['['] + y, "[2f]"@) {
                    assert(y.len() >= 3);
                    assert(y.take(3) =~= (seq!['['] + y).take(4).skip(1));
                    assert("[2f]"@.skip(1) =~= w);
                    assert(has_prefix(y, w));
                }
            }
            assert((seq!['['] + y).skip(0) =~= seq!['['] + y);
            crate::text::lemma_replace_passes(seq!['['], y, "[2f]"@, seq!['/']);
        } else if c == '/' {
            crate::text::lemma_replace_hits(y, "[2f]"@, seq!['/']);
        } else if c == ';' {
            lemma_escape_passes("[3b]"@, y, "[2f]"@, seq!['/']);
        } else {
            lemma_piece_passes(seq![c], y, "[2f]"@, seq!['/']);
        }
    }
}

proof fn lemma_third_unescape(s: Seq<char>)
    requires
        !crate::text::occurs_in(s, "[3b]"@),
    ensures
        replace_all(partly_decoded(s, true), "[3b]"@, seq![';']) == s,
    decreases s.len(),
{
    lemma_escape_literals();
    if s.len() == 0 {
        assert(s =~= Seq::<char>::empty());
    } else {
        let c = s[0];
        let r = s.skip(1);
        assert(!crate::text::occurs_in(r, "[3b]"@)) by {
            if crate::text::occurs_in(r, "[3b]"@) {
                let j = choose|j: int| crate::text::occurs_at(r, "[3b]"@, j);
                assert(s.subrange(j + 1, j + 5) =~= r.subrange(j, j + 4));
                assert(crate::text::occurs_at(s, "[3b]"@, j + 1));
            }
        }
        lemma_third_unescape(r);
        let y = partly_decoded(r, true);
        if c == '[' {
            let w = seq!['3', 'b', ']'];
            assert(!has_prefix(y, w)) by {
                if has_prefix(y, w) {
                    lemma_partly_decoded_prefix(r, true, w);
                    assert(s.subrange(0, 4) =~= "[3b]"@);
                    assert(crate::text::occurs_at(s, "[3b]"@, 0));
                }
            }
            assert(!has_prefix(seq!['['] + y, "[3b]"@)) by {
                if has_prefix(seq!['['] + y, "[3b]"@) {
                    assert(y.len() >= 3);
                    assert(y.take(3) =~= (seq!['['] + y).take(4).skip(1));
                    assert("[3b]"@.skip(1) =~= w);
                    assert(has_prefix(y, w));
                }
            }
            assert((seq!['['] + y).skip(0) =~= seq!['['] + y);
            crate::text::lemma_replace_passes(seq!['['], y, "[3b]"@, seq![';']);
        } else if c == '/' {
            lemma_piece_passes(seq!['/'], y, "[3b]"@, seq![';']);
        } else if c == ';' {
            crate::text::lemma_replace_hits(y, "[3b]"@, seq![';']);
        } else {
            lemma_piece_passes(seq![c], y, "[3b]"@, seq![';']);
        }
        assert(seq![c] + r =~= s);
    }
}

/// Unescaping an escaped word gives the word back, unless the word itself
/// contains "[2f]" or "[3b]" (which unescape to '/' and ';').
pub proof fn law_decode_undoes_encode(s: Seq<char>)
    requires
        !crate::text::occurs_in(s, "[2f]"@),
        !crate::text::occurs_in(s, "[3b]"@),
    ensures
        decoded(encoded(s)) == s,
{
    lemma_first_unescape(s);
    lemma_second_unescape(s);
    lemma_third_unescape(s);
}

/// A single conversion candidate: word plus optional annotation.
#[derive(Debug)]
pub struct Candidate {
    word: String,
    annotation: String,
    /// Numeric-conversion variant of the word.
    variant: String,
    /// Dynamically generated candidates are not saved to the user dictionary.
    avoid_study: bool,
}

impl View for Candidate {
    type V = CandidateModel;

    closed spec fn view(&self) -> CandidateModel {
        CandidateModel {
            word: self.word@,
            annotation: self.annotation@,
            variant: self.variant@,
            avoid_study: self.avoid_study,
        }
    }
}

/// The models of a sequence of candidates.
pub open spec fn models(s: Seq<Candidate>) -> Seq<CandidateModel> {
    s.map_values(|c: Candidate| c@)
}

impl Candidate {
    /// Parse "word;annotation" form.
    pub fn new(candidate: &str) -> (c: Candidate)
        ensures
            c@ == split_candidate(candidate@),
    {
        let v = chars_of(candidate);
        proof {
            crate::text::lemma_first_index_of(v@, ';');
        }
        match chars_find(v.as_slice(), ';') {
            Some(i) => {
                assert(first_index_of(v@, ';') == Some(i as int));
                assert(i < v.len());
                assert(v@.subrange(0, i as int) == v@.take(i as int));
                assert(v@.subrange(i + 1, v@.len() as int) == v@.skip(i + 1));
                Candidate {
                    word: string_of_range(v.as_slice(), 0, i),
                    annotation: string_of_range(v.as_slice(), i + 1, v.len()),
                    variant: String::new(),
                    avoid_study: false,
                }
            },
            None => Candidate {
                word: copy_str(candidate),
                annotation: String::new(),
                variant: String::new(),
                avoid_study: false,
            },
        }
    }

    /// Use the string as the word verbatim, without annotation splitting.
    pub fn from_word(word: &str) -> (c: Candidate)
        ensures
            c@ == word_candidate(word@),
    {
        Candidate {
            word: copy_str(word),
            annotation: String::new(),
            variant: String::new(),
            avoid_study: false,
        }
    }

    /// The empty candidate.
    pub fn empty() -> (c: Candidate)
        ensures
            c@ == word_candidate(Seq::empty()),
    {
        Candidate {
            word: String::new(),
            annotation: String::new(),
            variant: String::new(),
            avoid_study: false,
        }
    }

    pub fn duplicate(&self) -> (c: Candidate)
        ensures
            c == *self,
            c@ == self@,
    {
        Candidate {
            word: self.word.clone(),
            annotation: self.annotation.clone(),
            variant: self.variant.clone(),
            avoid_study: self.avoid_study,
        }
    }

    pub fn is_empty(&self) -> (r: bool)
        ensures
            r == (self@.word.len() == 0),
    {
        self.word.as_str().unicode_len() == 0
    }

    pub fn word(&self) -> (r: &str)
        ensures
            r@ == self@.word,
    {
        self.word.as_str()
    }

    pub fn annotation(&self) -> (r: &str)
        ensures
            r@ == self@.annotation,
    {
        self.annotation.as_str()
    }

    /// The numeric variant if one was set, else the word.
    pub fn variant(&self) -> (r: &str)
        ensures
            r@ == self@.shown(),
    {
        if self.variant.as_str().unicode_len() == 0 {
            self.word.as_str()
        } else {
            self.variant.as_str()
        }
    }

    pub fn avoid_study(&self) -> (r: bool)
        ensures
            r == self@.avoid_study,
    {
        self.avoid_study
    }

    pub fn set_variant(&mut self, variant: &str)
        ensures
            final(self)@ == (CandidateModel { variant: variant@, ..old(self)@ }),
    {
        self.variant = copy_str(variant);
    }

    pub fn set_avoid_study(&mut self)
        ensures
            final(self)@ == (CandidateModel { avoid_study: true, ..old(self)@ }),
    {
        self.avoid_study = true;
    }

    /// Escape characters that conflict with dictionary syntax.
    pub fn encode(src: &str) -> (r: String)
        ensures
            r@ == encoded(src@),
    {
        let a = chars_of(src);
        let f1 = chars_of("[");
        let t1 = chars_of("[5b]");
        let f2 = chars_of("/");
        let t2 = chars_of("[2f]");
        let f3 = chars_of(";");
        let t3 = chars_of("[3b]");
        proof {
            reveal_strlit("[");
            reveal_strlit("/");
            reveal_strlit(";");
        }
        assert(f1@ =~= seq!['[']);
        assert(f2@ =~= seq!['/']);
        assert(f3@ =~= seq![';']);
        let b = chars_replace(a.as_slice(), f1.as_slice(), t1.as_slice());
        let c = chars_replace(b.as_slice(), f2.as_slice(), t2.as_slice());
        let d = chars_replace(c.as_slice(), f3.as_slice(), t3.as_slice());
        string_of(d.as_slice())
    }

    /// Undo `encode`.
    pub fn decode(src: &str) -> (r: String)
        ensures
            r@ == decoded(src@),
    {
        let a = chars_of(src);
        let f1 = chars_of("[5b]");
        let t1 = chars_of("[");
        let f2 = chars_of("[2f]");
        let t2 = chars_of("/");
        let f3 = chars_of("[3b]");
        let t3 = chars_of(";");
        proof {
            reveal_strlit("[");
            reveal_strlit("/");
            reveal_strlit(";");
        }
        assert(t1@ =~= seq!['[']);
        assert(t2@ =~= seq!['/']);
        assert(t3@ =~= seq![';']);
        let b = chars_replace(a.as_slice(), f1.as_slice(), t1.as_slice());
        let c = chars_replace(b.as_slice(), f2.as_slice(), t2.as_slice());
        let d = chars_replace(c.as_slice(), f3.as_slice(), t3.as_slice());
        string_of(d.as_slice())
    }

    pub fn encode_word(&mut self)
        ensures
            final(self)@ == (CandidateModel { word: encoded(old(self)@.word), ..old(self)@ }),
    {
        self.word = Self::encode(self.word.as_str());
    }

    pub fn decode_word(&mut self)
        ensures
            final(self)@ == (CandidateModel { word: decoded(old(self)@.word), ..old(self)@ }),
    {
        self.word = Self::decode(self.word.as_str());
    }

    /// Serialize to the "word;annotation" dictionary form.
    pub fn to_string(&self) -> (r: String)
        ensures
            r@ == self@.serialized(),
    {
        let mut r = copy_str(self.word.as_str());
        if self.annotation.as_str().unicode_len() > 0 {
            r.push(';');
            r.append(self.annotation.as_str());
            assert(self.word@ + seq![';'] == self.word@.push(';'));
        }
        r
    }

    /// Candidates are equal when they show the same text; the annotation is
    /// not compared.
    pub fn same(&self, other: &Candidate) -> (r: bool)
        ensures
            r == (self@.shown() == other@.shown()),
    {
        str_eq(self.variant(), other.variant())
    }
}

impl Clone for Candidate {
    fn clone(&self) -> (c: Self)
        ensures
            c == *self,
    {
        self.duplicate()
    }
}

impl Default for Candidate {
    fn default() -> (c: Self)
        ensures
            c@ == word_candidate(Seq::empty()),
    {
        Candidate::empty()
    }
}

/// The mathematical content of an okuri hint.
pub struct HintModel {
    pub okuri: Seq<char>,
    pub candidates: Seq<CandidateModel>,
}

/// Okuri hint: okurigana string paired with its candidates.
#[derive(Debug)]
pub struct OkuriHint {
    pub okuri: String,
    pub candidates: Vec<Candidate>,
}

impl View for OkuriHint {
    type V = HintModel;

    open spec fn view(&self) -> HintModel {
        HintModel { okuri: self.okuri@, candidates: models(self.candidates@) }
    }
}

/// The models of a sequence of hints.
pub open spec fn hint_models(s: Seq<OkuriHint>) -> Seq<HintModel> {
    s.map_values(|h: OkuriHint| h@)
}

/// A copy of a candidate list.
pub fn copy_candidates(src: &[Candidate]) -> (r: Vec<Candidate>)
    ensures
        r@ == src@,
{
    let mut r: Vec<Candidate> = Vec::new();
    let mut i: usize = 0;
    while i < src.len()
        invariant
            i <= src.len(),
            r@ == src@.take(i as int),
        decreases src.len() - i,
    {
        r.push(src[i].duplicate());
        assert(src@.take(i + 1) == src@.take(i as int).push(src@[i as int]));
        i += 1;
    }
    assert(src@.take(src.len() as int) == src@);
    r
}

impl OkuriHint {
    pub fn empty() -> (h: OkuriHint)
        ensures
            h.okuri@ == Seq::<char>::empty(),
            h.candidates@ == Seq::<Candidate>::empty(),
    {
        OkuriHint { okuri: String::new(), candidates: Vec::new() }
    }

    pub fn duplicate(&self) -> (h: OkuriHint)
        ensures
            h.okuri == self.okuri,
            h.candidates@ == self.candidates@,
            h@ == self@,
    {
        OkuriHint { okuri: self.okuri.clone(), candidates: copy_candidates(self.candidates.as_slice()) }
    }
}

impl Clone for OkuriHint {
    fn clone(&self) -> (h: Self)
        ensures
            h@ == self@,
    {
        self.duplicate()
    }
}

impl Default for OkuriHint {
    fn default() -> (h: Self)
        ensures
            h.okuri@ == Seq::<char>::empty(),
            h.candidates@ == Seq::<Candidate>::empty(),
    {
        OkuriHint::empty()
    }
}

// ---------------------------------------------------------------------------
// Parser
// ---------------------------------------------------------------------------

/// The state of the line parser after some characters.
pub struct ParseModel {
    pub candidates: Seq<CandidateModel>,
    pub hints: Seq<HintModel>,
    pub tmp: Seq<char>,
    pub hint_okuri: Seq<char>,
    pub hint_candidates: Seq<CandidateModel>,
    pub in_hint: bool,
}

/// The parser's reaction to one character.
pub open spec fn parse_step(st: ParseModel, ch: char) -> ParseModel {
    if st.in_hint {
        if st.tmp.len() == 0 && (ch == '/' || ch == '[') {
            st
        } else if st.tmp.len() == 0 && ch == ']' {
            ParseModel {
                hints: if st.hint_candidates.len() > 0 {
                    st.hints.push(HintModel { okuri: st.hint_okuri, candidates: st.hint_candidates })
                } else {
                    st.hints
                },
                tmp: Seq::empty(),
                hint_okuri: Seq::empty(),
                hint_candidates: Seq::empty(),
                in_hint: false,
                ..st
            }
        } else if ch == '/' {
            if st.hint_okuri.len() == 0 {
                ParseModel { hint_okuri: st.tmp, tmp: Seq::empty(), ..st }
            } else {
                ParseModel {
                    hint_candidates: st.hint_candidates.push(split_candidate(st.tmp)),
                    tmp: Seq::empty(),
                    ..st
                }
            }
        } else {
            ParseModel { tmp: st.tmp.push(ch), ..st }
        }
    } else {
        if ch == '/' {
            if st.tmp.len() > 0 {
                ParseModel {
                    candidates: st.candidates.push(split_candidate(st.tmp)),
                    tmp: Seq::empty(),
                    ..st
                }
            } else {
                st
            }
        } else if ch == '[' && st.tmp.len() == 0 {
            ParseModel { in_hint: true, ..st }
        } else {
            ParseModel { tmp: st.tmp.push(ch), ..st }
        }
    }
}

pub open spec fn parse_start() -> ParseModel {
    ParseModel {
        candidates: Seq::empty(),
        hints: Seq::empty(),
        tmp: Seq::empty(),
        hint_okuri: Seq::empty(),
        hint_candidates: Seq::empty(),
        in_hint: false,
    }
}

/// The parser state after the characters of `s`.
pub open spec fn parse_run(s: Seq<char>) -> ParseModel
    decreases s.len(),
{
    if s.len() == 0 {
        parse_start()
    } else {
        parse_step(parse_run(s.drop_last()), s.last())
    }
}

/// No character is '/'.
pub open spec fn slash_free(s: Seq<char>) -> bool {
    forall|i: int| 0 <= i < s.len() ==> #[trigger] s[i] != '/'
}

/// A candidate whose word and annotation hold no '/'.
pub open spec fn fields_slash_free(c: CandidateModel) -> bool {
    slash_free(c.word) && slash_free(c.annotation)
}

/// An okurigana a hint line can hold.
pub open spec fn okuri_writable(o: Seq<char>) -> bool {
    o.len() > 0 && o[0] != '[' && o[0] != ']' && slash_free(o)
}

spec fn top_ok(c: CandidateModel) -> bool {
    fields_slash_free(c) && (c.word.len() > 0 ==> plain_candidate(c))
}

spec fn hinted_ok(c: CandidateModel) -> bool {
    fields_slash_free(c) && (c.word.len() > 0 ==> plain_candidate(c) && c.word[0] != ']')
}

spec fn parse_invariant(st: ParseModel) -> bool {
    &&& slash_free(st.tmp)
    &&& !st.in_hint && st.tmp.len() > 0 ==> st.tmp[0] != '['
    &&& st.in_hint && st.tmp.len() > 0 ==> st.tmp[0] != '[' && st.tmp[0] != ']'
    &&& !st.in_hint ==> st.hint_okuri.len() == 0 && st.hint_candidates.len() == 0
    &&& st.hint_okuri.len() > 0 ==> okuri_writable(st.hint_okuri)
    &&& st.hint_candidates.len() > 0 ==> st.hint_okuri.len() > 0
    &&& forall|i: int| 0 <= i < st.candidates.len() ==> top_ok(#[trigger] st.candidates[i])
    &&& forall|i: int| 0 <= i < st.hint_candidates.len() ==> hinted_ok(#[trigger] st.hint_candidates[i])
    &&& forall|i: int|
        0 <= i < st.hints.len() ==> #[trigger] st.hints[i].candidates.len() > 0 && okuri_writable(st.hints[i].okuri)
            && (forall|j: int| 0 <= j < st.hints[i].candidates.len() ==> hinted_ok(#[trigger] st.hints[i].candidates[j]))
}

proof fn lemma_split_slash_free(s: Seq<char>)
    requires
        slash_free(s),
    ensures
        fields_slash_free(split_candidate(s)),
        split_candidate(s).word.len() > 0 ==> split_candidate(s).word[0] == s[0],
        split_candidate(s).word.len() > 0 && s[0] != '[' ==> plain_candidate(split_candidate(s)),
{
    crate::text::lemma_first_index_of(s, ';');
    let c = split_candidate(s);
    if let Some(i) = first_index_of(s, ';') {
        assert forall|k: int| 0 <= k < s.take(i).len() implies #[trigger] s.take(i)[k] != '/' by {
            assert(s.take(i)[k] == s[k]);
        }
        assert forall|k: int| 0 <= k < s.skip(i + 1).len() implies #[trigger] s.skip(i + 1)[k] != '/' by {
            assert(s.skip(i + 1)[k] == s[k + i + 1]);
        }
        assert forall|k: int| 0 <= k < c.word.len() implies #[trigger] c.word[k] != '/' && c.word[k] != ';' by {
            assert(c.word[k] == s[k]);
        }
        if c.word.len() > 0 {
            assert(c.word[0] == s[0]);
        }
    } else {
        assert forall|k: int| 0 <= k < c.word.len() implies #[trigger] c.word[k] != '/' && c.word[k] != ';' by {
            assert(c.word[k] == s[k]);
        }
    }
}

proof fn lemma_parse_invariant(line: Seq<char>)
    ensures
        parse_invariant(parse_run(line)),
    decreases line.len(),
{
    if line.len() > 0 {
        lemma_parse_invariant(line.drop_last());
        let st = parse_run(line.drop_last());
        let ch = line.last();
        let r = parse_step(st, ch);
        assert(r == parse_run(line));
        lemma_split_slash_free(st.tmp);
        let pushed = st.tmp.push(ch);
        if ch != '/' {
            assert forall|k: int| 0 <= k < pushed.len() implies #[trigger] pushed[k] != '/' by {
                if k < st.tmp.len() {
                    assert(pushed[k] == st.tmp[k]);
                }
            }
        }
        if st.tmp.len() > 0 {
            assert(pushed[0] == st.tmp[0]);
        } else {
            assert(pushed[0] == ch);
        }
        assert(slash_free(Seq::<char>::empty()));
        if st.in_hint && st.tmp.len() > 0 && ch == '/' && st.hint_okuri.len() == 0 {
            assert(okuri_writable(st.tmp));
        }
        assert forall|i: int| 0 <= i < r.candidates.len() implies top_ok(#[trigger] r.candidates[i]) by {
            if i < st.candidates.len() {
                assert(r.candidates[i] == st.candidates[i]);
            }
        }
        assert forall|i: int| 0 <= i < r.hint_candidates.len() implies hinted_ok(#[trigger] r.hint_candidates[i]) by {
            if i < st.hint_candidates.len() {
                assert(r.hint_candidates[i] == st.hint_candidates[i]);
            }
        }
        assert forall|i: int| 0 <= i < r.hints.len() implies #[trigger] r.hints[i].candidates.len() > 0
            && okuri_writable(r.hints[i].okuri) && (forall|j: int|
            0 <= j < r.hints[i].candidates.len() ==> hinted_ok(#[trigger] r.hints[i].candidates[j])) by {
            if i < st.hints.len() {
                assert(r.hints[i] == st.hints[i]);
            }
        }
    }
}

/// Whatever the line, no candidate parsed from it, at top level or in an
/// okuri hint, holds '/' in its word or annotation, and no okuri hint is
/// left without candidates or without okurigana. Every parsed candidate
/// with a non-empty word is one a line can hold, and so is every okuri hint
/// whose candidates all have non-empty words.
pub proof fn law_parse_fields(line: Seq<char>)
    ensures
        forall|i: int|
            0 <= i < parse_run(line).candidates.len() ==> fields_slash_free(#[trigger] parse_run(line).candidates[i]),
        forall|i: int|
            0 <= i < parse_run(line).hints.len() ==> #[trigger] parse_run(line).hints[i].candidates.len() > 0
                && parse_run(line).hints[i].okuri.len() > 0,
        forall|i: int, j: int|
            0 <= i < parse_run(line).hints.len() && 0 <= j < parse_run(line).hints[i].candidates.len()
                ==> fields_slash_free(#[trigger] parse_run(line).hints[i].candidates[j]),
        forall|i: int|
            0 <= i < parse_run(line).candidates.len() && #[trigger] parse_run(line).candidates[i].word.len() > 0
                ==> plain_candidate(parse_run(line).candidates[i]),
        forall|i: int|
            0 <= i < parse_run(line).hints.len() && (forall|j: int|
                0 <= j < parse_run(line).hints[i].candidates.len() ==> #[trigger] parse_run(line).hints[i].candidates[j].word.len()
                    > 0) ==> plain_hint(#[trigger] parse_run(line).hints[i]),
{
    lemma_parse_invariant(line);
    let st = parse_run(line);
    assert forall|i: int, j: int|
        0 <= i < st.hints.len() && 0 <= j < st.hints[i].candidates.len() implies fields_slash_free(
        #[trigger] st.hints[i].candidates[j],
    ) by {
        assert(hinted_ok(st.hints[i].candidates[j]));
    }
    assert forall|i: int| 0 <= i < st.candidates.len() && #[trigger] st.candidates[i].word.len() > 0 implies plain_candidate(
        st.candidates[i],
    ) by {
        assert(top_ok(st.candidates[i]));
    }
    assert forall|i: int|
        0 <= i < st.hints.len() && (forall|j: int|
            0 <= j < st.hints[i].candidates.len() ==> #[trigger] st.hints[i].candidates[j].word.len() > 0) implies plain_hint(
        #[trigger] st.hints[i],
    ) by {
        let h = st.hints[i];
        assert forall|j: int| 0 <= j < h.candidates.len() implies plain_candidate(#[trigger] h.candidates[j])
            && h.candidates[j].word[0] != ']' by {
            assert(hinted_ok(h.candidates[j]));
            assert(st.hints[i].candidates[j].word.len() > 0);
        }
    }
}

/// Parse one dictionary line body of the form
/// "/word1/word2;annotation/.../[okuri/word/]/".
pub fn parse_candidates(line: &str) -> (r: (Vec<Candidate>, Vec<OkuriHint>))
    ensures
        models(r.0@) == parse_run(line@).candidates,
        hint_models(r.1@) == parse_run(line@).hints,
{
    let v = chars_of(line);
    let mut candidates: Vec<Candidate> = Vec::new();
    let mut hints: Vec<OkuriHint> = Vec::new();
    let mut tmp: Vec<char> = Vec::new();
    let mut hint_okuri: Vec<char> = Vec::new();
    let mut hint_candidates: Vec<Candidate> = Vec::new();
    let mut in_hint = false;
    let mut i: usize = 0;
    assert(v@.take(0) =~= Seq::<char>::empty());
    while i < v.len()
        invariant
            i <= v.len(),
            v@ == line@,
            ({
                let st = parse_run(v@.take(i as int));
                &&& models(candidates@) == st.candidates
                &&& hint_models(hints@) == st.hints
                &&& tmp@ == st.tmp
                &&& hint_okuri@ == st.hint_okuri
                &&& models(hint_candidates@) == st.hint_candidates
                &&& in_hint == st.in_hint
            }),
        decreases v.len() - i,
    {
        let ch = v[i];
        assert(v@.take(i + 1).drop_last() =~= v@.take(i as int));
        assert(v@.take(i + 1).last() == ch);
        let ghost cands0 = candidates@;
        let ghost hints0 = hints@;
        let ghost hc0 = hint_candidates@;
        if in_hint {
            if tmp.len() == 0 && (ch == '/' || ch == '[') {
            } else if tmp.len() == 0 && ch == ']' {
                if hint_candidates.len() > 0 {
                    let h = OkuriHint {
                        okuri: string_of(hint_okuri.as_slice()),
                        candidates: hint_candidates,
                    };
                    hints.push(h);
                    assert(hint_models(hints@) =~= hint_models(hints0).push(h@));
                }
                hint_candidates = Vec::new();
                hint_okuri = Vec::new();
                tmp = Vec::new();
                in_hint = false;
                assert(models(hint_candidates@) =~= Seq::<CandidateModel>::empty());
            } else if ch == '/' {
                if hint_okuri.len() == 0 {
                    hint_okuri = tmp;
                    tmp = Vec::new();
                } else {
                    let s = string_of(tmp.as_slice());
                    let c = Candidate::new(s.as_str());
                    hint_candidates.push(c);
                    assert(models(hint_candidates@) =~= models(hc0).push(c@));
                    tmp = Vec::new();
                }
            } else {
                tmp.push(ch);
            }
        } else {
            if ch == '/' {
                if tmp.len() > 0 {
                    let s = string_of(tmp.as_slice());
                    let c = Candidate::new(s.as_str());
                    candidates.push(c);
                    assert(models(candidates@) =~= models(cands0).push(c@));
                    tmp = Vec::new();
                }
            } else if ch == '[' && tmp.len() == 0 {
                in_hint = true;
            } else {
                tmp.push(ch);
            }
        }
        i += 1;
    }
    assert(v@.take(v.len() as int) =~= v@);
    (candidates, hints)
}

// ---------------------------------------------------------------------------
// Candidate suite
// ---------------------------------------------------------------------------

/// Some candidate of `c` shows `s`.
pub open spec fn shows(c: Seq<CandidateModel>, s: Seq<char>) -> bool {
    exists|i: int| 0 <= i < c.len() && c[i].shown() == s
}

/// Add `x` unless it is empty or already shown.
pub open spec fn add_one(c: Seq<CandidateModel>, x: CandidateModel) -> Seq<CandidateModel> {
    if x.word.len() > 0 && !shows(c, x.shown()) {
        c.push(x)
    } else {
        c
    }
}

/// Add each candidate of `src` in turn.
pub open spec fn add_all(c: Seq<CandidateModel>, src: Seq<CandidateModel>) -> Seq<CandidateModel>
    decreases src.len(),
{
    if src.len() == 0 {
        c
    } else {
        add_one(add_all(c, src.drop_last()), src.last())
    }
}

/// `c` without the candidates that show `s`, order kept.
pub open spec fn without_shown(c: Seq<CandidateModel>, s: Seq<char>) -> Seq<CandidateModel>
    decreases c.len(),
{
    if c.len() == 0 {
        c
    } else if c.last().shown() == s {
        without_shown(c.drop_last(), s)
    } else {
        without_shown(c.drop_last(), s).push(c.last())
    }
}

/// `x` moved (or inserted) to the front of `c`.
pub open spec fn to_front(c: Seq<CandidateModel>, x: CandidateModel) -> Seq<CandidateModel> {
    seq![x] + without_shown(c, x.shown())
}

/// Removing what shows `s` leaves nothing that shows `s`, keeps everything
/// else in order, and changes nothing when nothing showed `s`.
pub proof fn law_remove_removes(c: Seq<CandidateModel>, s: Seq<char>)
    ensures
        !shows(without_shown(c, s), s),
        forall|i: int| 0 <= i < without_shown(c, s).len() ==> c.contains(#[trigger] without_shown(c, s)[i]),
        !shows(c, s) ==> without_shown(c, s) == c,
    decreases c.len(),
{
    if c.len() > 0 {
        law_remove_removes(c.drop_last(), s);
        let w = without_shown(c.drop_last(), s);
        assert forall|i: int| 0 <= i < without_shown(c, s).len() implies c.contains(#[trigger] without_shown(c, s)[i]) by {
            if i < w.len() {
                assert(c.drop_last().contains(w[i]));
                let k = choose|k: int| 0 <= k < c.drop_last().len() && c.drop_last()[k] == w[i];
                assert(c[k] == w[i]);
            } else {
                assert(c[c.len() - 1] == without_shown(c, s)[i]);
            }
        }
        if !shows(c, s) {
            assert(!shows(c.drop_last(), s)) by {
                if shows(c.drop_last(), s) {
                    let k = choose|k: int| 0 <= k < c.drop_last().len() && c.drop_last()[k].shown() == s;
                    assert(c[k].shown() == s);
                }
            }
            assert(c.last().shown() != s) by {
                if c.last().shown() == s {
                    assert(c[c.len() - 1].shown() == s);
                }
            }
            assert(c.drop_last().push(c.last()) =~= c);
        }
        if shows(without_shown(c, s), s) {
            let k = choose|k: int| 0 <= k < without_shown(c, s).len() && without_shown(c, s)[k].shown() == s;
            if k < w.len() {
                assert(w[k].shown() == s);
            }
        }
    }
}

/// A candidate moved to the front comes first and is shown nowhere else;
/// moving it to the front again changes nothing.
pub proof fn law_update_puts_first(c: Seq<CandidateModel>, x: CandidateModel)
    ensures
        to_front(c, x)[0] == x,
        !shows(to_front(c, x).skip(1), x.shown()),
        to_front(to_front(c, x), x) == to_front(c, x),
{
    law_remove_removes(c, x.shown());
    let w = without_shown(c, x.shown());
    assert(to_front(c, x).skip(1) =~= w);
    lemma_without_front(w, x);
    law_remove_removes(w, x.shown());
}

proof fn lemma_without_front(w: Seq<CandidateModel>, x: CandidateModel)
    ensures
        without_shown(seq![x] + w, x.shown()) == without_shown(w, x.shown()),
    decreases w.len(),
{
    if w.len() == 0 {
        assert(seq![x] + w =~= seq![x]);
        assert(seq![x].drop_last() =~= Seq::<CandidateModel>::empty());
        assert(without_shown(Seq::<CandidateModel>::empty(), x.shown()) == Seq::<CandidateModel>::empty());
    } else {
        assert((seq![x] + w).drop_last() =~= seq![x] + w.drop_last());
        assert((seq![x] + w).last() == w.last());
        lemma_without_front(w.drop_last(), x);
    }
}

/// Adding a candidate that is already shown changes nothing, so adding
/// twice is adding once.
pub proof fn law_add_twice_is_add_once(c: Seq<CandidateModel>, x: CandidateModel)
    ensures
        add_one(add_one(c, x), x) == add_one(c, x),
        x.word.len() > 0 ==> shows(add_one(c, x), x.shown()),
{
    if x.word.len() > 0 && !shows(c, x.shown()) {
        let d = c.push(x);
        assert(d[d.len() - 1].shown() == x.shown());
    }
}

/// The first hint for `okuri`, searching from index `i`.
pub open spec fn hint_index_from(h: Seq<HintModel>, okuri: Seq<char>, i: int) -> Option<int>
    decreases h.len() - i,
{
    if i < 0 || i >= h.len() {
        None
    } else if h[i].okuri == okuri {
        Some(i)
    } else {
        hint_index_from(h, okuri, i + 1)
    }
}

pub open spec fn hint_index(h: Seq<HintModel>, okuri: Seq<char>) -> Option<int> {
    hint_index_from(h, okuri, 0)
}

pub proof fn lemma_hint_index_from(h: Seq<HintModel>, okuri: Seq<char>, i: int)
    ensures
        hint_index_from(h, okuri, i) matches Some(k) ==> i <= k < h.len() && h[k].okuri == okuri,
    decreases h.len() - i,
{
    if 0 <= i < h.len() && h[i].okuri != okuri {
        lemma_hint_index_from(h, okuri, i + 1);
    }
}

/// Merge a hint into a hint list.
pub open spec fn add_hint_model(h: Seq<HintModel>, x: HintModel) -> Seq<HintModel> {
    match hint_index(h, x.okuri) {
        Some(i) => h.update(
            i,
            HintModel { okuri: h[i].okuri, candidates: add_all(h[i].candidates, x.candidates) },
        ),
        None => h.push(x),
    }
}

/// Merge each hint of `src` in turn.
pub open spec fn add_hint_models(h: Seq<HintModel>, src: Seq<HintModel>) -> Seq<HintModel>
    decreases src.len(),
{
    if src.len() == 0 {
        h
    } else {
        add_hint_model(add_hint_models(h, src.drop_last()), src.last())
    }
}

/// Remove candidates showing `s` from every hint, then drop empty hints.
pub open spec fn prune_hints(h: Seq<HintModel>, s: Seq<char>) -> Seq<HintModel>
    decreases h.len(),
{
    if h.len() == 0 {
        h
    } else {
        let rest = prune_hints(h.drop_last(), s);
        let last = HintModel { okuri: h.last().okuri, candidates: without_shown(h.last().candidates, s) };
        if last.candidates.len() > 0 {
            rest.push(last)
        } else {
            rest
        }
    }
}

/// The dictionary form of a candidate list: "/c1/c2", skipping
/// study-avoiding candidates when `exclude` is set.
pub open spec fn flatten(c: Seq<CandidateModel>, exclude: bool) -> Seq<char>
    decreases c.len(),
{
    if c.len() == 0 {
        Seq::empty()
    } else if exclude && c.last().avoid_study {
        flatten(c.drop_last(), exclude)
    } else {
        flatten(c.drop_last(), exclude) + seq!['/'] + c.last().serialized()
    }
}

/// The dictionary form of the okuri hints: "/[okuri/c1/]...".
pub open spec fn flatten_hints(h: Seq<HintModel>, exclude: bool) -> Seq<char>
    decreases h.len(),
{
    if h.len() == 0 {
        Seq::empty()
    } else {
        flatten_hints(h.drop_last(), exclude) + seq!['/', '['] + h.last().okuri + flatten(
            h.last().candidates,
            exclude,
        ) + seq!['/', ']']
    }
}

/// The mathematical content of a candidate suite.
pub struct SuiteModel {
    pub candidates: Seq<CandidateModel>,
    pub hints: Seq<HintModel>,
}

/// The dictionary line body of a suite.
pub open spec fn line_of(s: SuiteModel, exclude: bool) -> Seq<char> {
    let body = flatten(s.candidates, exclude) + flatten_hints(s.hints, exclude);
    if body.len() > 0 {
        body.push('/')
    } else {
        body
    }
}

/// The parser state after the characters of `s`, from state `st`.
pub open spec fn parse_from(st: ParseModel, s: Seq<char>) -> ParseModel
    decreases s.len(),
{
    if s.len() == 0 {
        st
    } else {
        parse_step(parse_from(st, s.drop_last()), s.last())
    }
}

/// A candidate a dictionary line can hold: a word that is not empty, has
/// no '/' or ';' and does not begin with '[', and an annotation without
/// '/'.
pub open spec fn plain_candidate(c: CandidateModel) -> bool {
    &&& c.word.len() > 0
    &&& c.word[0] != '['
    &&& forall|i: int| 0 <= i < c.word.len() ==> #[trigger] c.word[i] != '/' && c.word[i] != ';'
    &&& forall|i: int| 0 <= i < c.annotation.len() ==> #[trigger] c.annotation[i] != '/'
}

/// What a line keeps of a candidate: its word and annotation.
pub open spec fn written(c: CandidateModel) -> CandidateModel {
    CandidateModel { word: c.word, annotation: c.annotation, variant: Seq::empty(), avoid_study: false }
}

/// What a line keeps of a list of candidates.
pub open spec fn written_all(cs: Seq<CandidateModel>) -> Seq<CandidateModel> {
    cs.map_values(|c: CandidateModel| written(c))
}

/// What a line keeps of a list of okuri hints.
pub open spec fn written_hints(hs: Seq<HintModel>) -> Seq<HintModel> {
    hs.map_values(|h: HintModel| HintModel { okuri: h.okuri, candidates: written_all(h.candidates) })
}

/// An okuri hint a dictionary line can hold: okurigana that are not empty,
/// have no '/' and do not begin with '[' or ']', and plain candidates, at
/// least one, whose words do not begin with ']' either.
pub open spec fn plain_hint(h: HintModel) -> bool {
    &&& h.okuri.len() > 0
    &&& h.okuri[0] != '[' && h.okuri[0] != ']'
    &&& forall|i: int| 0 <= i < h.okuri.len() ==> #[trigger] h.okuri[i] != '/'
    &&& h.candidates.len() > 0
    &&& forall|i: int| 0 <= i < h.candidates.len() ==> plain_candidate(#[trigger] h.candidates[i])
        && h.candidates[i].word[0] != ']'
}

proof fn lemma_parse_from_append(st: ParseModel, a: Seq<char>, b: Seq<char>)
    ensures
        parse_from(st, a + b) == parse_from(parse_from(st, a), b),
    decreases b.len(),
{
    if b.len() == 0 {
        assert(a + b =~= a);
    } else {
        assert((a + b).drop_last() =~= a + b.drop_last());
        assert((a + b).last() == b.last());
        lemma_parse_from_append(st, a, b.drop_last());
    }
}

proof fn lemma_parse_run_from(s: Seq<char>)
    ensures
        parse_run(s) == parse_from(parse_start(), s),
    decreases s.len(),
{
    if s.len() > 0 {
        lemma_parse_run_from(s.drop_last());
    }
}

proof fn lemma_tail_keeps_candidates(st: ParseModel, tail: Seq<char>)
    requires
        slash_free(tail),
    ensures
        parse_from(st, tail).candidates == st.candidates,
    decreases tail.len(),
{
    if tail.len() > 0 {
        assert(slash_free(tail.drop_last())) by {
            assert forall|k: int| 0 <= k < tail.drop_last().len() implies #[trigger] tail.drop_last()[k] != '/' by {
                assert(tail.drop_last()[k] == tail[k]);
            }
        }
        lemma_tail_keeps_candidates(st, tail.drop_last());
        assert(tail.last() == tail[tail.len() - 1]);
    }
}

/// Text after the last '/' of a line adds no candidate: a line followed by
/// text without '/' parses to the line's candidates.
pub proof fn law_parse_drops_unterminated(line: Seq<char>, tail: Seq<char>)
    requires
        slash_free(tail),
    ensures
        parse_run(line + tail).candidates == parse_run(line).candidates,
{
    lemma_parse_run_from(line + tail);
    lemma_parse_run_from(line);
    lemma_parse_from_append(parse_start(), line, tail);
    lemma_tail_keeps_candidates(parse_run(line), tail);
}

/// Characters other than '/' gather in the pending text; a first
/// character that would open or close a hint must not come first.
proof fn lemma_parse_gathers(st: ParseModel, w: Seq<char>)
    requires
        forall|i: int| 0 <= i < w.len() ==> #[trigger] w[i] != '/',
        w.len() > 0 && st.tmp.len() == 0 ==> w[0] != '[' && (st.in_hint ==> w[0] != ']'),
    ensures
        parse_from(st, w) == (ParseModel { tmp: st.tmp + w, ..st }),
    decreases w.len(),
{
    if w.len() == 0 {
        assert(st.tmp + w =~= st.tmp);
    } else {
        let d = w.drop_last();
        assert forall|i: int| 0 <= i < d.len() implies #[trigger] d[i] != '/' by {
            assert(d[i] == w[i]);
        }
        if d.len() > 0 {
            assert(d[0] == w[0]);
        }
        lemma_parse_gathers(st, d);
        assert(w[w.len() - 1] != '/');
        assert((st.tmp + d).push(w.last()) =~= st.tmp + w);
        if st.tmp.len() == 0 && d.len() == 0 {
            assert(w.last() == w[0]);
        }
    }
}

proof fn lemma_split_serialized(c: CandidateModel)
    requires
        plain_candidate(c),
    ensures
        split_candidate(c.serialized()) == written(c),
{
    if c.annotation.len() == 0 {
        crate::text::lemma_first_index_none(c.word, ';');
        assert(c.annotation =~= Seq::<char>::empty());
    } else {
        let s = c.word + seq![';'] + c.annotation;
        assert forall|k: int| 0 <= k < c.word.len() implies s[k] != ';' by {
            assert(s[k] == c.word[k]);
        }
        crate::text::lemma_first_index_unique(s, ';', c.word.len() as int);
        assert(s.take(c.word.len() as int) =~= c.word);
        assert(s.skip(c.word.len() + 1int) =~= c.annotation);
    }
}

proof fn lemma_serialized_chars(c: CandidateModel)
    requires
        plain_candidate(c),
    ensures
        forall|i: int| 0 <= i < c.serialized().len() ==> #[trigger] c.serialized()[i] != '/',
        c.serialized().len() > 0,
        c.serialized()[0] == c.word[0],
{
    let s = c.serialized();
    assert forall|i: int| 0 <= i < s.len() implies #[trigger] s[i] != '/' by {
        if c.annotation.len() > 0 {
            if i < c.word.len() {
                assert(s[i] == c.word[i]);
            } else if i > c.word.len() {
                assert(s[i] == c.annotation[i - c.word.len() - 1]);
            }
        }
    }
}

/// Candidates written one by one, each followed by '/', are read into the
/// candidate list (outside a hint) or the hint's list (inside one).
proof fn lemma_parse_candidates(st: ParseModel, cs: Seq<CandidateModel>)
    requires
        st.tmp.len() == 0,
        st.in_hint ==> st.hint_okuri.len() > 0,
        forall|i: int| 0 <= i < cs.len() ==> plain_candidate(#[trigger] cs[i]) && (st.in_hint ==> cs[i].word[0] != ']'),
    ensures
        parse_from(st, flatten(cs, false) + seq!['/']) == (if st.in_hint {
            ParseModel { hint_candidates: st.hint_candidates + written_all(cs), ..st }
        } else {
            ParseModel { candidates: st.candidates + written_all(cs), ..st }
        }),
    decreases cs.len(),
{
    if cs.len() == 0 {
        assert(flatten(cs, false) + seq!['/'] =~= seq!['/']);
        assert(seq!['/'].drop_last() =~= Seq::<char>::empty());
        assert(parse_from(st, Seq::<char>::empty()) == st);
        assert(st.candidates + written_all(cs) =~= st.candidates);
        assert(st.hint_candidates + written_all(cs) =~= st.hint_candidates);
    } else {
        let d = cs.drop_last();
        let c = cs.last();
        assert forall|i: int| 0 <= i < d.len() implies plain_candidate(#[trigger] d[i]) && (st.in_hint ==> d[i].word[0] != ']') by {
            assert(d[i] == cs[i]);
        }
        assert(plain_candidate(cs[cs.len() - 1]));
        assert(st.in_hint ==> cs[cs.len() - 1].word[0] != ']');
        assert(written_all(d).push(written(c)) =~= written_all(cs));
        lemma_parse_candidates(st, d);
        let mid = parse_from(st, flatten(d, false) + seq!['/']);
        let ser = c.serialized();
        assert(flatten(cs, false) + seq!['/'] =~= (flatten(d, false) + seq!['/']) + ser + seq!['/']);
        lemma_parse_from_append(st, flatten(d, false) + seq!['/'] + ser, seq!['/']);
        lemma_parse_from_append(st, flatten(d, false) + seq!['/'], ser);
        lemma_serialized_chars(c);
        lemma_parse_gathers(mid, ser);
        let g = ParseModel { tmp: mid.tmp + ser, ..mid };
        assert(mid.tmp + ser =~= ser);
        assert(parse_from(g, seq!['/']) == parse_step(g, '/')) by {
            assert(seq!['/'].drop_last() =~= Seq::<char>::empty());
            assert(parse_from(g, Seq::<char>::empty()) == g);
        }
        lemma_split_serialized(c);
        assert(mid.tmp.len() == 0);
        assert(st.tmp =~= Seq::<char>::empty());
        assert(mid.in_hint == st.in_hint);
        assert(mid.hint_okuri == st.hint_okuri);
        assert(parse_from(st, flatten(d, false) + seq!['/'] + ser) == g);
        assert(parse_from(st, flatten(cs, false) + seq!['/']) == parse_step(g, '/'));
        if st.in_hint {
            assert(mid.hint_candidates == st.hint_candidates + written_all(d));
            assert((st.hint_candidates + written_all(d)).push(written(c)) =~= st.hint_candidates + written_all(cs));
            assert(parse_step(g, '/') == ParseModel { hint_candidates: st.hint_candidates + written_all(cs), ..st });
        } else {
            assert(mid.candidates == st.candidates + written_all(d));
            assert((st.candidates + written_all(d)).push(written(c)) =~= st.candidates + written_all(cs));
            assert(parse_step(g, '/') == ParseModel { candidates: st.candidates + written_all(cs), ..st });
        }
    }
}

/// Okuri hints written one by one are read into the hint list.
proof fn lemma_parse_hints(st: ParseModel, hs: Seq<HintModel>)
    requires
        st.tmp.len() == 0,
        !st.in_hint,
        st.hint_okuri.len() == 0,
        st.hint_candidates.len() == 0,
        forall|i: int| 0 <= i < hs.len() ==> plain_hint(#[trigger] hs[i]),
    ensures
        parse_from(st, flatten_hints(hs, false) + seq!['/']) == (ParseModel { hints: st.hints + written_hints(hs), ..st }),
    decreases hs.len(),
{
    if hs.len() == 0 {
        assert(flatten_hints(hs, false) + seq!['/'] =~= seq!['/']);
        assert(seq!['/'].drop_last() =~= Seq::<char>::empty());
        assert(parse_from(st, Seq::<char>::empty()) == st);
        assert(st.hints + written_hints(hs) =~= st.hints);
    } else {
        let d = hs.drop_last();
        let h = hs.last();
        assert forall|i: int| 0 <= i < d.len() implies plain_hint(#[trigger] d[i]) by {
            assert(d[i] == hs[i]);
        }
        assert(plain_hint(hs[hs.len() - 1]));
        lemma_parse_hints(st, d);
        let prefix = flatten_hints(d, false) + seq!['/'];
        let s0 = parse_from(st, prefix);
        let body = flatten(h.candidates, false);
        assert(flatten_hints(hs, false) + seq!['/'] =~= prefix + seq!['['] + h.okuri + (body + seq!['/'])
            + seq![']', '/']);
        lemma_parse_from_append(st, prefix + seq!['['] + h.okuri + (body + seq!['/']), seq![']', '/']);
        lemma_parse_from_append(st, prefix + seq!['['] + h.okuri, body + seq!['/']);
        lemma_parse_from_append(st, prefix + seq!['['], h.okuri);
        lemma_parse_from_append(st, prefix, seq!['[']);
        assert(parse_from(s0, seq!['[']) == parse_step(s0, '[')) by {
            assert(seq!['['].drop_last() =~= Seq::<char>::empty());
            assert(parse_from(s0, Seq::<char>::empty()) == s0);
        }
        let s1 = ParseModel { in_hint: true, ..s0 };
        assert(parse_step(s0, '[') == s1);
        assert(h.okuri[0] != '[' && h.okuri[0] != ']');
        lemma_parse_gathers(s1, h.okuri);
        assert(s1.tmp + h.okuri =~= h.okuri);
        let s2 = ParseModel { tmp: h.okuri, ..s1 };
        // The '/' that opens the hint's candidates sets the okurigana; the
        // same '/' read with the okurigana already set changes nothing.
        let s3 = ParseModel { hint_okuri: h.okuri, tmp: Seq::empty(), ..s2 };
        assert(parse_step(s2, '/') == s3);
        assert(parse_step(s3, '/') == s3);
        assert(body + seq!['/'] =~= seq!['/'] + (body + seq!['/']).skip(1)) by {
            assert(body.len() > 0 && body[0] == '/') by {
                lemma_flatten_starts(h.candidates);
            }
        }
        let tail = (body + seq!['/']).skip(1);
        lemma_parse_from_append(s2, seq!['/'], tail);
        lemma_parse_from_append(s3, seq!['/'], tail);
        assert(parse_from(s2, seq!['/']) == s3) by {
            assert(seq!['/'].drop_last() =~= Seq::<char>::empty());
            assert(parse_from(s2, Seq::<char>::empty()) == s2);
        }
        assert(parse_from(s3, seq!['/']) == s3) by {
            assert(seq!['/'].drop_last() =~= Seq::<char>::empty());
            assert(parse_from(s3, Seq::<char>::empty()) == s3);
        }
        lemma_parse_candidates(s3, h.candidates);
        let s4 = ParseModel { hint_candidates: s3.hint_candidates + written_all(h.candidates), ..s3 };
        assert(s3.hint_candidates + written_all(h.candidates) =~= written_all(h.candidates));
        assert(parse_from(s4, seq![']']) == parse_step(s4, ']')) by {
            assert(seq![']'].drop_last() =~= Seq::<char>::empty());
            assert(parse_from(s4, Seq::<char>::empty()) == s4);
        }
        assert(parse_from(s4, seq![']', '/']) == parse_step(parse_step(s4, ']'), '/')) by {
            assert(seq![']', '/'].drop_last() =~= seq![']']);
        }
        assert(st.tmp =~= Seq::<char>::empty());
        assert(st.hint_okuri =~= Seq::<char>::empty());
        assert(st.hint_candidates =~= Seq::<CandidateModel>::empty());
        assert(s0 == ParseModel { hints: st.hints + written_hints(d), ..st });
        let wh = HintModel { okuri: h.okuri, candidates: written_all(h.candidates) };
        let s5 = parse_step(s4, ']');
        assert(s5 == ParseModel { hints: (st.hints + written_hints(d)).push(wh), ..st });
        assert(parse_step(s5, '/') == s5);
        assert(written_hints(d).push(wh) =~= written_hints(hs));
        assert((st.hints + written_hints(d)).push(wh) =~= st.hints + written_hints(hs));
    }
}

proof fn lemma_flatten_starts(cs: Seq<CandidateModel>)
    requires
        cs.len() > 0,
    ensures
        flatten(cs, false).len() > 0,
        flatten(cs, false)[0] == '/',
    decreases cs.len(),
{
    if cs.len() > 1 {
        lemma_flatten_starts(cs.drop_last());
    } else {
        assert(cs.drop_last().len() == 0);
        assert(flatten(cs.drop_last(), false) == Seq::<char>::empty());
    }
}

/// The escaped form of a word has no '/' or ';' and keeps the first
/// character when that is none of '[', '/' and ';'.
pub proof fn lemma_encoded_plain(c: CandidateModel)
    requires
        c.word.len() > 0,
        c.word[0] != '[' && c.word[0] != '/' && c.word[0] != ';',
        forall|i: int| 0 <= i < c.annotation.len() ==> #[trigger] c.annotation[i] != '/',
    ensures
        plain_candidate(CandidateModel { word: encoded(c.word), ..c }),
        encoded(c.word)[0] == c.word[0],
{
    reveal_strlit("[5b]");
    reveal_strlit("[2f]");
    reveal_strlit("[3b]");
    let r1 = replace_all(c.word, seq!['['], "[5b]"@);
    let r2 = replace_all(r1, seq!['/'], "[2f]"@);
    let r3 = replace_all(r2, seq![';'], "[3b]"@);
    crate::text::lemma_replace_keeps_first(c.word, '[', "[5b]"@);
    crate::text::lemma_replace_keeps_first(r1, '/', "[2f]"@);
    crate::text::lemma_replace_keeps_first(r2, ';', "[3b]"@);
    assert(crate::text::lacks("[2f]"@, '/'));
    assert(crate::text::lacks("[3b]"@, '/'));
    assert(crate::text::lacks("[3b]"@, ';'));
    crate::text::lemma_replace_removes(r1, '/', "[2f]"@);
    crate::text::lemma_replace_keeps_lack(r2, seq![';'], "[3b]"@, '/');
    crate::text::lemma_replace_removes(r2, ';', "[3b]"@);
    assert(encoded(c.word) == r3);
}

/// A suite written as a dictionary line reads back as the same suite (the
/// words and annotations of its candidates, and its okuri hints), when its
/// candidates and hints are ones a line can hold.
pub proof fn law_line_reparses(s: SuiteModel)
    requires
        forall|i: int| 0 <= i < s.candidates.len() ==> plain_candidate(#[trigger] s.candidates[i]),
        forall|i: int| 0 <= i < s.hints.len() ==> plain_hint(#[trigger] s.hints[i]),
    ensures
        parse_run(line_of(s, false)).candidates == written_all(s.candidates),
        parse_run(line_of(s, false)).hints == written_hints(s.hints),
{
    let body = flatten(s.candidates, false) + flatten_hints(s.hints, false);
    lemma_parse_run_from(line_of(s, false));
    let st0 = parse_start();
    if body.len() == 0 {
        assert(s.candidates.len() == 0) by {
            if s.candidates.len() > 0 {
                lemma_flatten_starts(s.candidates);
            }
        }
        assert(s.hints.len() == 0) by {
            if s.hints.len() > 0 {
                assert(flatten_hints(s.hints, false).len() > 0);
            }
        }
        assert(parse_from(st0, Seq::<char>::empty()) == st0);
        assert(written_all(s.candidates) =~= Seq::<CandidateModel>::empty());
        assert(written_hints(s.hints) =~= Seq::<HintModel>::empty());
    } else {
        let fc = flatten(s.candidates, false);
        let fh = flatten_hints(s.hints, false);
        assert(line_of(s, false) == fc + fh + seq!['/']);
        lemma_parse_candidates(st0, s.candidates);
        let a = ParseModel { candidates: st0.candidates + written_all(s.candidates), ..st0 };
        assert(st0.candidates + written_all(s.candidates) =~= written_all(s.candidates));
        if s.hints.len() == 0 {
            assert(fh =~= Seq::<char>::empty());
            assert(fc + fh + seq!['/'] =~= fc + seq!['/']);
        } else {
            lemma_flatten_hints_starts(s.hints);
            let tail = (fh + seq!['/']).skip(1);
            assert(fh + seq!['/'] =~= seq!['/'] + tail);
            assert(fc + fh + seq!['/'] =~= (fc + seq!['/']) + tail);
            lemma_parse_from_append(st0, fc + seq!['/'], tail);
            lemma_parse_from_append(a, seq!['/'], tail);
            assert(parse_from(a, seq!['/']) == a) by {
                assert(seq!['/'].drop_last() =~= Seq::<char>::empty());
                assert(parse_from(a, Seq::<char>::empty()) == a);
            }
            lemma_parse_hints(a, s.hints);
            assert(a.hints + written_hints(s.hints) =~= written_hints(s.hints));
        }
    }
}

proof fn lemma_flatten_hints_starts(hs: Seq<HintModel>)
    requires
        hs.len() > 0,
    ensures
        flatten_hints(hs, false).len() > 0,
        flatten_hints(hs, false)[0] == '/',
    decreases hs.len(),
{
    if hs.len() > 1 {
        lemma_flatten_hints_starts(hs.drop_last());
    } else {
        assert(flatten_hints(hs.drop_last(), false) == Seq::<char>::empty());
    }
}

/// Candidates read from a line carry no numeric variant.
pub proof fn lemma_parse_run_variants(s: Seq<char>)
    ensures
        forall|i: int| 0 <= i < parse_run(s).candidates.len() ==> (#[trigger] parse_run(s).candidates[i]).variant.len()
            == 0,
    decreases s.len(),
{
    if s.len() > 0 {
        lemma_parse_run_variants(s.drop_last());
        let p = parse_run(s.drop_last());
        let q = parse_run(s);
        assert(q == parse_step(p, s.last()));
        assert forall|i: int| 0 <= i < q.candidates.len() implies (#[trigger] q.candidates[i]).variant.len()
            == 0 by {
            if i < p.candidates.len() {
                assert(q.candidates[i] == p.candidates[i]);
            } else {
                assert(q.candidates[i] == split_candidate(p.tmp));
            }
        }
    }
}

/// Pruning a word from plain hints leaves plain hints.
pub proof fn lemma_prune_hints_plain(h: Seq<HintModel>, t: Seq<char>)
    requires
        forall|i: int| 0 <= i < h.len() ==> plain_hint(#[trigger] h[i]),
    ensures
        forall|i: int| 0 <= i < prune_hints(h, t).len() ==> plain_hint(#[trigger] prune_hints(h, t)[i]),
    decreases h.len(),
{
    if h.len() > 0 {
        let d = h.drop_last();
        assert forall|i: int| 0 <= i < d.len() implies plain_hint(#[trigger] d[i]) by {
            assert(d[i] == h[i]);
        }
        lemma_prune_hints_plain(d, t);
        let last = h.last();
        assert(plain_hint(h[h.len() - 1]));
        law_remove_removes(last.candidates, t);
        let w = without_shown(last.candidates, t);
        assert forall|i: int| 0 <= i < w.len() implies plain_candidate(#[trigger] w[i]) && w[i].word[0] != ']' by {
            assert(last.candidates.contains(w[i]));
            let k = choose|k: int| 0 <= k < last.candidates.len() && last.candidates[k] == w[i];
            assert(plain_candidate(last.candidates[k]) && last.candidates[k].word[0] != ']');
        }
        let rest = prune_hints(d, t);
        let nh = HintModel { okuri: last.okuri, candidates: w };
        let r = prune_hints(h, t);
        if w.len() > 0 {
            assert(plain_hint(nh));
            assert(r == rest.push(nh));
            assert forall|i: int| 0 <= i < r.len() implies plain_hint(#[trigger] r[i]) by {
                if i < rest.len() {
                    assert(r[i] == rest[i]);
                } else {
                    assert(r[i] == nh);
                }
            }
        } else {
            assert(r == rest);
        }
    }
}

/// The effect of `CandidateSuite::update_hint`: the hint's first candidate
/// moves to the front of the candidates and of the hint for the same
/// okurigana (the hint is prepended when there is none).
pub open spec fn update_hint_model(s: SuiteModel, h: HintModel) -> SuiteModel {
    if h.candidates.len() == 0 {
        s
    } else {
        let first = h.candidates[0];
        SuiteModel {
            candidates: to_front(s.candidates, first),
            hints: match hint_index(s.hints, h.okuri) {
                Some(i) => s.hints.update(
                    i,
                    HintModel { okuri: s.hints[i].okuri, candidates: to_front(s.hints[i].candidates, first) },
                ),
                None => seq![h] + s.hints,
            },
        }
    }
}

/// The candidates of `c` whose flag in `sel` is clear, order kept.
pub open spec fn unselected(c: Seq<CandidateModel>, sel: Seq<bool>) -> Seq<CandidateModel>
    decreases c.len(),
{
    if c.len() == 0 {
        c
    } else if sel[c.len() - 1] {
        unselected(c.drop_last(), sel)
    } else {
        unselected(c.drop_last(), sel).push(c.last())
    }
}

/// The shown texts of the candidates of `c` whose flag in `sel` is set.
pub open spec fn selected_shown(c: Seq<CandidateModel>, sel: Seq<bool>) -> Seq<Seq<char>>
    decreases c.len(),
{
    if c.len() == 0 {
        Seq::empty()
    } else if sel[c.len() - 1] {
        selected_shown(c.drop_last(), sel).push(c.last().shown())
    } else {
        selected_shown(c.drop_last(), sel)
    }
}

/// Hints pruned of each shown text of `ss` in turn.
pub open spec fn prune_hints_all(h: Seq<HintModel>, ss: Seq<Seq<char>>) -> Seq<HintModel>
    decreases ss.len(),
{
    if ss.len() == 0 {
        h
    } else {
        prune_hints(prune_hints_all(h, ss.drop_last()), ss.last())
    }
}

/// A suite without the candidates flagged in `sel`; the flagged candidates
/// also leave every okuri hint.
pub open spec fn removed_where(s: SuiteModel, sel: Seq<bool>) -> SuiteModel {
    SuiteModel {
        candidates: unselected(s.candidates, sel),
        hints: prune_hints_all(s.hints, selected_shown(s.candidates, sel)),
    }
}

proof fn lemma_unselected(c: Seq<CandidateModel>, sel: Seq<bool>)
    requires
        sel.len() == c.len(),
    ensures
        forall|i: int| 0 <= i < c.len() && !sel[i] ==> unselected(c, sel).contains(#[trigger] c[i]),
        forall|x: CandidateModel|
            #[trigger] unselected(c, sel).contains(x) ==> exists|i: int| 0 <= i < c.len() && !sel[i] && c[i] == x,
    decreases c.len(),
{
    if c.len() > 0 {
        let d = c.drop_last();
        let n = c.len() - 1;
        lemma_unselected_prefix(c, sel);
        lemma_unselected(d, sel.take(n));
        let u = unselected(d, sel.take(n));
        assert(unselected(d, sel) == u);
        assert forall|i: int| 0 <= i < c.len() && !sel[i] implies unselected(c, sel).contains(#[trigger] c[i]) by {
            if i < n {
                assert(d[i] == c[i] && sel.take(n)[i] == sel[i]);
                assert(u.contains(d[i]));
                let k = choose|k: int| 0 <= k < u.len() && u[k] == d[i];
                assert(unselected(c, sel)[k] == u[k]);
            } else {
                assert(unselected(c, sel) == u.push(c.last()));
                assert(unselected(c, sel)[u.len() as int] == c[i]);
            }
        }
        assert forall|x: CandidateModel| #[trigger] unselected(c, sel).contains(x) implies exists|i: int|
            0 <= i < c.len() && !sel[i] && c[i] == x by {
            let k = choose|k: int| 0 <= k < unselected(c, sel).len() && unselected(c, sel)[k] == x;
            if k < u.len() {
                assert(unselected(c, sel)[k] == u[k]);
                assert(u.contains(x));
                let i = choose|i: int| 0 <= i < d.len() && !sel.take(n)[i] && d[i] == x;
                assert(c[i] == x && !sel[i]);
            } else {
                assert(c[n] == x && !sel[n]);
            }
        }
    }
}

proof fn lemma_unselected_prefix(c: Seq<CandidateModel>, sel: Seq<bool>)
    requires
        sel.len() == c.len(),
        c.len() > 0,
    ensures
        unselected(c.drop_last(), sel) == unselected(c.drop_last(), sel.take(c.len() - 1)),
        selected_shown(c.drop_last(), sel) == selected_shown(c.drop_last(), sel.take(c.len() - 1)),
{
    lemma_unselected_flags(c.drop_last(), sel, sel.take(c.len() - 1));
}

proof fn lemma_unselected_flags(c: Seq<CandidateModel>, a: Seq<bool>, b: Seq<bool>)
    requires
        c.len() <= a.len(),
        c.len() <= b.len(),
        forall|i: int| 0 <= i < c.len() ==> a[i] == b[i],
    ensures
        unselected(c, a) == unselected(c, b),
        selected_shown(c, a) == selected_shown(c, b),
    decreases c.len(),
{
    if c.len() > 0 {
        lemma_unselected_flags(c.drop_last(), a, b);
        assert(a[c.len() - 1] == b[c.len() - 1]);
    }
}

proof fn lemma_selected_shown(c: Seq<CandidateModel>, sel: Seq<bool>)
    requires
        sel.len() == c.len(),
    ensures
        forall|i: int| 0 <= i < c.len() && sel[i] ==> selected_shown(c, sel).contains(#[trigger] c[i].shown()),
    decreases c.len(),
{
    if c.len() > 0 {
        let d = c.drop_last();
        let n = c.len() - 1;
        lemma_unselected_prefix(c, sel);
        lemma_selected_shown(d, sel.take(n));
        let u = selected_shown(d, sel.take(n));
        assert forall|i: int| 0 <= i < c.len() && sel[i] implies selected_shown(c, sel).contains(#[trigger] c[i].shown()) by {
            if i < n {
                assert(d[i] == c[i] && sel.take(n)[i] == sel[i]);
                assert(u.contains(d[i].shown()));
                let k = choose|k: int| 0 <= k < u.len() && u[k] == d[i].shown();
                assert(selected_shown(c, sel)[k] == u[k]);
            } else {
                assert(selected_shown(c, sel) == u.push(c.last().shown()));
                assert(selected_shown(c, sel)[u.len() as int] == c[i].shown());
            }
        }
    }
}

proof fn lemma_prune_keeps_avoiding(h: Seq<HintModel>, t: Seq<char>, t2: Seq<char>)
    ensures
        (forall|i: int| 0 <= i < h.len() ==> !shows(#[trigger] h[i].candidates, t2)) ==> (forall|i: int|
            0 <= i < prune_hints(h, t).len() ==> !shows(#[trigger] prune_hints(h, t)[i].candidates, t2)),
        forall|i: int| 0 <= i < prune_hints(h, t).len() ==> !shows(#[trigger] prune_hints(h, t)[i].candidates, t),
        forall|i: int| 0 <= i < prune_hints(h, t).len() ==> #[trigger] prune_hints(h, t)[i].candidates.len() > 0,
    decreases h.len(),
{
    if h.len() > 0 {
        let d = h.drop_last();
        let avoids = forall|i: int| 0 <= i < h.len() ==> !shows(#[trigger] h[i].candidates, t2);
        if avoids {
            assert forall|i: int| 0 <= i < d.len() implies !shows(#[trigger] d[i].candidates, t2) by {
                assert(d[i] == h[i]);
            }
        }
        lemma_prune_keeps_avoiding(d, t, t2);
        let last = h.last();
        law_remove_removes(last.candidates, t);
        let w = without_shown(last.candidates, t);
        assert(avoids ==> !shows(w, t2)) by {
            if avoids {
                assert(!shows(h[h.len() - 1].candidates, t2));
            }
            if avoids && shows(w, t2) {
                let k = choose|k: int| 0 <= k < w.len() && w[k].shown() == t2;
                assert(last.candidates.contains(w[k]));
                let j = choose|j: int| 0 <= j < last.candidates.len() && last.candidates[j] == w[k];
                assert(last.candidates[j].shown() == t2);
            }
        }
        let rest = prune_hints(d, t);
        let r = prune_hints(h, t);
        if w.len() > 0 {
            assert(r == rest.push(HintModel { okuri: last.okuri, candidates: w }));
            assert forall|i: int| 0 <= i < r.len() implies (avoids ==> !shows(#[trigger] r[i].candidates, t2)) && !shows(
                r[i].candidates,
                t,
            ) && r[i].candidates.len() > 0 by {
                if i < rest.len() {
                    assert(r[i] == rest[i]);
                }
            }
        }
    }
}

proof fn lemma_prune_all(h: Seq<HintModel>, ss: Seq<Seq<char>>)
    requires
        forall|i: int| 0 <= i < h.len() ==> #[trigger] h[i].candidates.len() > 0,
    ensures
        forall|i: int| 0 <= i < prune_hints_all(h, ss).len() ==> #[trigger] prune_hints_all(h, ss)[i].candidates.len() > 0,
        forall|i: int, k: int|
            0 <= i < prune_hints_all(h, ss).len() && 0 <= k < ss.len() ==> !shows(
                #[trigger] prune_hints_all(h, ss)[i].candidates,
                #[trigger] ss[k],
            ),
    decreases ss.len(),
{
    if ss.len() > 0 {
        let d = ss.drop_last();
        lemma_prune_all(h, d);
        let prev = prune_hints_all(h, d);
        let r = prune_hints_all(h, ss);
        assert forall|i: int, k: int| 0 <= i < r.len() && 0 <= k < ss.len() implies !shows(
            #[trigger] r[i].candidates,
            #[trigger] ss[k],
        ) by {
            if k < d.len() {
                assert(ss[k] == d[k]);
                assert forall|j: int| 0 <= j < prev.len() implies !shows(#[trigger] prev[j].candidates, ss[k]) by {
                    assert(!shows(prev[j].candidates, d[k]));
                }
                lemma_prune_keeps_avoiding(prev, ss.last(), ss[k]);
            } else {
                lemma_prune_keeps_avoiding(prev, ss.last(), ss.last());
            }
        }
        lemma_prune_keeps_avoiding(prev, ss.last(), ss.last());
    }
}

proof fn lemma_none_selected(c: Seq<CandidateModel>, sel: Seq<bool>)
    requires
        sel.len() == c.len(),
        forall|i: int| 0 <= i < sel.len() ==> !#[trigger] sel[i],
    ensures
        unselected(c, sel) == c,
        selected_shown(c, sel) == Seq::<Seq<char>>::empty(),
    decreases c.len(),
{
    if c.len() > 0 {
        let n = c.len() - 1;
        lemma_unselected_prefix(c, sel);
        lemma_none_selected(c.drop_last(), sel.take(n));
        assert(!sel[n]);
        assert(c.drop_last().push(c.last()) =~= c);
    }
}

/// Removing where no candidate is flagged changes nothing, hints included.
pub proof fn law_removed_where_none(s: SuiteModel, sel: Seq<bool>)
    requires
        sel.len() == s.candidates.len(),
        forall|i: int| 0 <= i < sel.len() ==> !#[trigger] sel[i],
    ensures
        removed_where(s, sel) == s,
{
    lemma_none_selected(s.candidates, sel);
}

/// Removing the candidates flagged in `sel` keeps exactly the unflagged
/// ones, and leaves no okuri hint empty or holding a candidate that shows
/// the text of a removed one (when no hint was empty before).
pub proof fn law_removed_where(s: SuiteModel, sel: Seq<bool>)
    requires
        sel.len() == s.candidates.len(),
        forall|i: int| 0 <= i < s.hints.len() ==> #[trigger] s.hints[i].candidates.len() > 0,
    ensures
        forall|i: int|
            0 <= i < s.candidates.len() && !sel[i] ==> removed_where(s, sel).candidates.contains(
                #[trigger] s.candidates[i],
            ),
        forall|x: CandidateModel|
            #[trigger] removed_where(s, sel).candidates.contains(x) ==> exists|i: int|
                0 <= i < s.candidates.len() && !sel[i] && s.candidates[i] == x,
        forall|i: int| 0 <= i < removed_where(s, sel).hints.len() ==> #[trigger] removed_where(s, sel).hints[i].candidates.len() > 0,
        forall|i: int, j: int|
            0 <= i < removed_where(s, sel).hints.len() && 0 <= j < s.candidates.len() && sel[j] ==> !shows(
                #[trigger] removed_where(s, sel).hints[i].candidates,
                #[trigger] s.candidates[j].shown(),
            ),
{
    lemma_unselected(s.candidates, sel);
    lemma_selected_shown(s.candidates, sel);
    let ss = selected_shown(s.candidates, sel);
    lemma_prune_all(s.hints, ss);
    let r = removed_where(s, sel);
    assert forall|i: int, j: int|
        0 <= i < r.hints.len() && 0 <= j < s.candidates.len() && sel[j] implies !shows(
            #[trigger] r.hints[i].candidates,
            #[trigger] s.candidates[j].shown(),
        ) by {
        assert(ss.contains(s.candidates[j].shown()));
        let k = choose|k: int| 0 <= k < ss.len() && ss[k] == s.candidates[j].shown();
        assert(!shows(r.hints[i].candidates, ss[k]));
    }
}

/// The full set of candidates for one dictionary entry.
#[derive(Debug)]
pub struct CandidateSuite {
    candidates: Vec<Candidate>,
    hints: Vec<OkuriHint>,
}

impl View for CandidateSuite {
    type V = SuiteModel;

    closed spec fn view(&self) -> SuiteModel {
        SuiteModel { candidates: models(self.candidates@), hints: hint_models(self.hints@) }
    }
}

/// The position of the first candidate showing `s`, if any.
fn position_shown(c: &Vec<Candidate>, x: &Candidate) -> (r: Option<usize>)
    ensures
        r matches Some(i) ==> i < c@.len() && c@[i as int]@.shown() == x@.shown(),
        r is None ==> !shows(models(c@), x@.shown()),
{
    let mut i: usize = 0;
    while i < c.len()
        invariant
            i <= c.len(),
            forall|k: int| 0 <= k < i ==> c@[k]@.shown() != x@.shown(),
        decreases c.len() - i,
    {
        if c[i].same(x) {
            return Some(i);
        }
        i += 1;
    }
    None
}

fn add_to(container: &mut Vec<Candidate>, src: &[Candidate])
    ensures
        models(final(container)@) == add_all(models(old(container)@), models(src@)),
{
    let mut i: usize = 0;
    assert(models(src@).take(0) =~= Seq::<CandidateModel>::empty());
    while i < src.len()
        invariant
            i <= src.len(),
            models(container@) == add_all(models(old(container)@), models(src@).take(i as int)),
        decreases src.len() - i,
    {
        let item = &src[i];
        assert(models(src@).take(i + 1).drop_last() =~= models(src@).take(i as int));
        assert(models(src@).take(i + 1).last() == item@);
        let pos = position_shown(container, item);
        if !item.is_empty() && pos.is_none() {
            let ghost before = container@;
            container.push(item.duplicate());
            assert(models(container@) =~= models(before).push(item@));
        } else if let Some(k) = pos {
            assert(models(container@)[k as int] == container@[k as int]@);
        }
        i += 1;
    }
    assert(models(src@).take(src.len() as int) =~= models(src@));
}

fn remove_shown_in(container: &mut Vec<Candidate>, x: &Candidate)
    ensures
        models(final(container)@) == without_shown(models(old(container)@), x@.shown()),
{
    let mut out: Vec<Candidate> = Vec::new();
    let mut i: usize = 0;
    assert(models(container@).take(0) =~= Seq::<CandidateModel>::empty());
    while i < container.len()
        invariant
            i <= container.len(),
            container@ == old(container)@,
            models(out@) == without_shown(models(container@).take(i as int), x@.shown()),
        decreases container.len() - i,
    {
        assert(models(container@).take(i + 1).drop_last() =~= models(container@).take(i as int));
        if !container[i].same(x) {
            let ghost before = out@;
            out.push(container[i].duplicate());
            assert(models(out@) =~= models(before).push(container@[i as int]@));
        }
        i += 1;
    }
    assert(models(container@).take(container.len() as int) =~= models(container@));
    *container = out;
}

fn prune_hints_in(hints: &mut Vec<OkuriHint>, x: &Candidate)
    ensures
        hint_models(final(hints)@) == prune_hints(hint_models(old(hints)@), x@.shown()),
{
    let mut kept: Vec<OkuriHint> = Vec::new();
    let mut i: usize = 0;
    let ghost hs = hint_models(hints@);
    assert(hs.take(0) =~= Seq::<HintModel>::empty());
    while i < hints.len()
        invariant
            i <= hints.len(),
            hints@ == old(hints)@,
            hs == hint_models(hints@),
            hint_models(kept@) == prune_hints(hs.take(i as int), x@.shown()),
        decreases hints.len() - i,
    {
        assert(hs.take(i + 1).drop_last() =~= hs.take(i as int));
        let mut h = hints[i].duplicate();
        remove_shown_in(&mut h.candidates, x);
        if h.candidates.len() > 0 {
            let ghost before = kept@;
            kept.push(h);
            assert(hint_models(kept@) =~= hint_models(before).push(h@));
        }
        i += 1;
    }
    assert(hs.take(hints.len() as int) =~= hs);
    *hints = kept;
}

fn update_in(container: &mut Vec<Candidate>, candidate: &Candidate)
    ensures
        models(final(container)@) == to_front(models(old(container)@), candidate@),
{
    remove_shown_in(container, candidate);
    let ghost before = container@;
    container.insert(0, candidate.duplicate());
    assert(models(container@) =~= seq![candidate@] + models(before));
}

fn hint_position(hints: &Vec<OkuriHint>, okuri: &str) -> (r: Option<usize>)
    ensures
        r matches Some(i) ==> hint_index(hint_models(hints@), okuri@) == Some(i as int),
        r is None ==> hint_index(hint_models(hints@), okuri@) is None,
        r matches Some(i) ==> i < hints@.len() && hints@[i as int].okuri@ == okuri@,
{
    proof {
        lemma_hint_index_from(hint_models(hints@), okuri@, 0);
    }
    let mut i: usize = 0;
    while i < hints.len()
        invariant
            i <= hints.len(),
            hint_index(hint_models(hints@), okuri@) == hint_index_from(hint_models(hints@), okuri@, i as int),
        decreases hints.len() - i,
    {
        if str_eq(hints[i].okuri.as_str(), okuri) {
            return Some(i);
        }
        i += 1;
    }
    None
}

impl CandidateSuite {
    pub fn new() -> (s: CandidateSuite)
        ensures
            s@.candidates == Seq::<CandidateModel>::empty(),
            s@.hints == Seq::<HintModel>::empty(),
    {
        let s = CandidateSuite { candidates: Vec::new(), hints: Vec::new() };
        assert(s@.candidates =~= Seq::<CandidateModel>::empty());
        assert(s@.hints =~= Seq::<HintModel>::empty());
        s
    }

    pub fn duplicate(&self) -> (s: CandidateSuite)
        ensures
            s@ == self@,
    {
        let mut hints: Vec<OkuriHint> = Vec::new();
        let mut i: usize = 0;
        while i < self.hints.len()
            invariant
                i <= self.hints.len(),
                hint_models(hints@) == hint_models(self.hints@).take(i as int),
            decreases self.hints.len() - i,
        {
            let ghost before = hints@;
            let h = self.hints[i].duplicate();
            hints.push(h);
            assert(hint_models(hints@) =~= hint_models(before).push(h@));
            assert(hint_models(self.hints@).take(i + 1) =~= hint_models(self.hints@).take(i as int).push(self.hints@[i as int]@));
            i += 1;
        }
        assert(hint_models(self.hints@).take(self.hints.len() as int) =~= hint_models(self.hints@));
        CandidateSuite { candidates: copy_candidates(self.candidates.as_slice()), hints }
    }

    pub fn from_line(line: &str) -> (s: CandidateSuite)
        ensures
            s@.candidates == parse_run(line@).candidates,
            s@.hints == parse_run(line@).hints,
    {
        let mut suite = Self::new();
        suite.parse(line);
        suite
    }

    /// Replace the suite with the parse of a dictionary line body.
    pub fn parse(&mut self, line: &str)
        ensures
            final(self)@.candidates == parse_run(line@).candidates,
            final(self)@.hints == parse_run(line@).hints,
    {
        let (candidates, hints) = parse_candidates(line);
        self.candidates = candidates;
        self.hints = hints;
    }

    pub fn clear(&mut self)
        ensures
            final(self)@.candidates == Seq::<CandidateModel>::empty(),
            final(self)@.hints == Seq::<HintModel>::empty(),
    {
        self.candidates = Vec::new();
        self.hints = Vec::new();
        assert(models(self.candidates@) =~= Seq::<CandidateModel>::empty());
        assert(hint_models(self.hints@) =~= Seq::<HintModel>::empty());
    }

    pub fn is_empty(&self) -> (r: bool)
        ensures
            r == (self@.candidates.len() == 0),
    {
        self.candidates.len() == 0
    }

    pub fn candidates(&self) -> (r: &[Candidate])
        ensures
            models(r@) == self@.candidates,
    {
        self.candidates.as_slice()
    }

    /// The candidates, for in-place updates (numeric variants).
    pub fn candidates_mut(&mut self) -> (r: &mut Vec<Candidate>)
        ensures
            models(r@) == old(self)@.candidates,
            final(self)@.hints == old(self)@.hints,
            final(self)@.candidates == models(final(r)@),
    {
        &mut self.candidates
    }

    pub fn hints(&self) -> (r: &[OkuriHint])
        ensures
            hint_models(r@) == self@.hints,
    {
        self.hints.as_slice()
    }

    pub fn add_candidate(&mut self, candidate: &Candidate)
        ensures
            final(self)@.candidates == add_one(old(self)@.candidates, candidate@),
            final(self)@.hints == old(self)@.hints,
    {
        let one = [candidate.duplicate()];
        assert(models(one@) =~= seq![candidate@]);
        assert(models(one@).drop_last() =~= Seq::<CandidateModel>::empty());
        assert(models(one@).last() == candidate@);
        assert(add_all(self@.candidates, Seq::<CandidateModel>::empty()) == self@.candidates);
        assert(add_all(self@.candidates, models(one@)) == add_one(self@.candidates, candidate@));
        add_to(&mut self.candidates, &one);
    }

    pub fn add_candidates(&mut self, candidates: &[Candidate])
        ensures
            final(self)@.candidates == add_all(old(self)@.candidates, models(candidates@)),
            final(self)@.hints == old(self)@.hints,
    {
        add_to(&mut self.candidates, candidates);
    }

    /// Merge a hint: its candidates join the hint of the same okurigana, or
    /// the hint is appended.
    pub fn add_hint(&mut self, hint: &OkuriHint)
        ensures
            final(self)@.candidates == old(self)@.candidates,
            final(self)@.hints == add_hint_model(old(self)@.hints, hint@),
    {
        match hint_position(&self.hints, hint.okuri.as_str()) {
            Some(i) => {
                let ghost before = self.hints@;
                let mut existing = self.hints.remove(i);
                add_to(&mut existing.candidates, hint.candidates.as_slice());
                self.hints.insert(i, existing);
                assert(hint_models(self.hints@) =~= hint_models(before).update(
                    i as int,
                    HintModel {
                        okuri: before[i as int]@.okuri,
                        candidates: add_all(before[i as int]@.candidates, hint@.candidates),
                    },
                ));
            },
            None => {
                let ghost before = self.hints@;
                self.hints.push(hint.duplicate());
                assert(hint_models(self.hints@) =~= hint_models(before).push(hint@));
            },
        }
    }

    pub fn add_hints(&mut self, hints: &[OkuriHint])
        ensures
            final(self)@.candidates == old(self)@.candidates,
            final(self)@.hints == add_hint_models(old(self)@.hints, hint_models(hints@)),
    {
        let mut i: usize = 0;
        assert(hint_models(hints@).take(0) =~= Seq::<HintModel>::empty());
        while i < hints.len()
            invariant
                i <= hints.len(),
                self@.candidates == old(self)@.candidates,
                self@.hints == add_hint_models(old(self)@.hints, hint_models(hints@).take(i as int)),
            decreases hints.len() - i,
        {
            assert(hint_models(hints@).take(i + 1).drop_last() =~= hint_models(hints@).take(i as int));
            self.add_hint(&hints[i]);
            i += 1;
        }
        assert(hint_models(hints@).take(hints.len() as int) =~= hint_models(hints@));
    }

    /// Merge another suite's candidates and hints.
    pub fn add_suite(&mut self, suite: &CandidateSuite)
        ensures
            final(self)@.candidates == add_all(old(self)@.candidates, suite@.candidates),
            final(self)@.hints == add_hint_models(old(self)@.hints, suite@.hints),
    {
        add_to(&mut self.candidates, suite.candidates.as_slice());
        self.add_hints(suite.hints.as_slice());
    }

    /// Move (or insert) the candidate to the front.
    pub fn update_candidate(&mut self, candidate: &Candidate)
        ensures
            final(self)@.candidates == to_front(old(self)@.candidates, candidate@),
            final(self)@.hints == old(self)@.hints,
    {
        update_in(&mut self.candidates, candidate);
    }

    /// Move the hint's first candidate to the front, updating okuri hints.
    pub fn update_hint(&mut self, hint: &OkuriHint)
        ensures
            final(self)@ == update_hint_model(old(self)@, hint@),
    {
        if hint.candidates.len() == 0 {
            return;
        }
        let first = &hint.candidates[0];
        update_in(&mut self.candidates, first);
        match hint_position(&self.hints, hint.okuri.as_str()) {
            Some(i) => {
                let ghost before = self.hints@;
                let mut existing = self.hints.remove(i);
                update_in(&mut existing.candidates, first);
                self.hints.insert(i, existing);
                assert(hint_models(self.hints@) =~= hint_models(before).update(
                    i as int,
                    HintModel {
                        okuri: before[i as int]@.okuri,
                        candidates: to_front(before[i as int]@.candidates, first@),
                    },
                ));
            },
            None => {
                let ghost before = self.hints@;
                self.hints.insert(0, hint.duplicate());
                assert(hint_models(self.hints@) =~= seq![hint@] + hint_models(before));
            },
        }
    }

    /// Remove every candidate showing the same text as `candidate`. When one
    /// was present and the suite has okuri hints, it is also removed from
    /// every hint and hints left empty are dropped.
    pub fn remove_candidate(&mut self, candidate: &Candidate)
        ensures
            final(self)@.candidates == without_shown(old(self)@.candidates, candidate@.shown()),
            final(self)@.hints == if shows(old(self)@.candidates, candidate@.shown()) {
                prune_hints(old(self)@.hints, candidate@.shown())
            } else {
                old(self)@.hints
            },
    {
        let pos = position_shown(&self.candidates, candidate);
        if let Some(k) = pos {
            assert(models(self.candidates@)[k as int] == self.candidates@[k as int]@);
        }
        if pos.is_some() {
            prune_hints_in(&mut self.hints, candidate);
        }
        remove_shown_in(&mut self.candidates, candidate);
    }

    /// The candidates as held.
    pub closed spec fn items(self) -> Seq<Candidate> {
        self.candidates@
    }

    /// Remove every candidate for which `pred` holds; each removed
    /// candidate also leaves every okuri hint, and hints left empty go.
    pub fn remove_if<F: Fn(&Candidate) -> bool>(&mut self, pred: F)
        requires
            forall|c: &Candidate| #[trigger] pred.requires((c,)),
        ensures
            models(old(self).items()) == old(self)@.candidates,
            exists|sel: Seq<bool>| {
                &&& sel.len() == old(self)@.candidates.len()
                &&& forall|i: int| 0 <= i < sel.len() ==> pred.ensures((&old(self).items()[i],), #[trigger] sel[i])
                &&& final(self)@ == removed_where(old(self)@, sel)
            },
    {
        let ghost c0 = models(self.candidates@);
        let ghost h0 = hint_models(self.hints@);
        let mut sel: Vec<bool> = Vec::new();
        let mut i: usize = 0;
        while i < self.candidates.len()
            invariant
                i <= self.candidates.len(),
                sel@.len() == i,
                self.candidates@ == old(self).candidates@,
                forall|c: &Candidate| #[trigger] pred.requires((c,)),
                forall|k: int| 0 <= k < i ==> pred.ensures((&old(self).items()[k],), #[trigger] sel@[k]),
            decreases self.candidates.len() - i,
        {
            let b = pred(&self.candidates[i]);
            sel.push(b);
            i += 1;
        }
        let n = self.candidates.len();
        let mut out: Vec<Candidate> = Vec::new();
        let mut j: usize = 0;
        assert(c0.take(0) =~= Seq::<CandidateModel>::empty());
        while j < n
            invariant
                j <= n,
                n == self.candidates@.len(),
                n == sel@.len(),
                c0 == models(self.candidates@),
                hint_models(self.hints@) == prune_hints_all(h0, selected_shown(c0.take(j as int), sel@)),
                models(out@) == unselected(c0.take(j as int), sel@),
            decreases n - j,
        {
            let ghost hb = hint_models(self.hints@);
            assert(c0.take(j + 1).drop_last() =~= c0.take(j as int));
            assert(c0.take(j + 1).last() == self.candidates@[j as int]@);
            if sel[j] {
                prune_hints_in(&mut self.hints, &self.candidates[j]);
                assert(selected_shown(c0.take(j + 1), sel@).drop_last() =~= selected_shown(c0.take(j as int), sel@));
            } else {
                let ghost before = out@;
                out.push(self.candidates[j].duplicate());
                assert(models(out@) =~= models(before).push(self.candidates@[j as int]@));
            }
            j += 1;
        }
        assert(c0.take(n as int) =~= c0);
        self.candidates = out;
        assert(c0 == old(self)@.candidates);
        assert(self@.candidates == removed_where(old(self)@, sel@).candidates);
        assert(self@.hints == removed_where(old(self)@, sel@).hints);
        assert(self@ == removed_where(old(self)@, sel@));
        assert(forall|k: int| 0 <= k < sel@.len() ==> pred.ensures((&old(self).items()[k],), #[trigger] sel@[k]));
    }

    /// Candidates recorded for exactly this okurigana.
    pub fn find_okuri_strictly(&self, okuri: &str) -> (r: Option<CandidateSuite>)
        ensures
            match hint_index(self@.hints, okuri@) {
                Some(i) => if add_all(Seq::empty(), self@.hints[i].candidates).len() > 0 {
                    r matches Some(s) && s@.candidates == add_all(Seq::empty(), self@.hints[i].candidates)
                        && s@.hints == Seq::<HintModel>::empty()
                } else {
                    r is None
                },
                None => r is None,
            },
    {
        match hint_position(&self.hints, okuri) {
            Some(i) => {
                let mut suite = CandidateSuite::new();
                suite.add_candidates(self.hints[i].candidates.as_slice());
                if suite.is_empty() {
                    None
                } else {
                    Some(suite)
                }
            },
            None => None,
        }
    }

    /// Serialize back to the dictionary line body.
    pub fn to_line(&self, exclude_avoid_study: bool) -> (r: String)
        ensures
            r@ == line_of(self@, exclude_avoid_study),
    {
        let mut result: Vec<char> = Vec::new();
        flatten_into(&mut result, self.candidates.as_slice(), exclude_avoid_study);
        let ghost head = result@;
        let mut i: usize = 0;
        let ghost hs = hint_models(self.hints@);
        assert(hs.take(0) =~= Seq::<HintModel>::empty());
        assert(result@ =~= head + flatten_hints(hs.take(0), exclude_avoid_study));
        while i < self.hints.len()
            invariant
                i <= self.hints.len(),
                hs == hint_models(self.hints@),
                head == flatten(self@.candidates, exclude_avoid_study),
                result@ == head + flatten_hints(hs.take(i as int), exclude_avoid_study),
            decreases self.hints.len() - i,
        {
            assert(hs.take(i + 1).drop_last() =~= hs.take(i as int));
            let ghost before = result@;
            result.push('/');
            result.push('[');
            let ok = chars_of(self.hints[i].okuri.as_str());
            crate::text::push_chars(&mut result, ok.as_slice());
            let ghost mid = result@;
            flatten_into(&mut result, self.hints[i].candidates.as_slice(), exclude_avoid_study);
            result.push('/');
            result.push(']');
            assert(result@ =~= before + (seq!['/', '['] + hs[i as int].okuri + flatten(
                hs[i as int].candidates,
                exclude_avoid_study,
            ) + seq!['/', ']']));
            i += 1;
        }
        assert(hs.take(self.hints.len() as int) =~= hs);
        if result.len() > 0 {
            result.push('/');
        }
        string_of(result.as_slice())
    }
}

fn flatten_into(out: &mut Vec<char>, c: &[Candidate], exclude: bool)
    ensures
        final(out)@ == old(out)@ + flatten(models(c@), exclude),
{
    let mut i: usize = 0;
    assert(models(c@).take(0) =~= Seq::<CandidateModel>::empty());
    assert(out@ =~= old(out)@ + flatten(models(c@).take(0), exclude));
    while i < c.len()
        invariant
            i <= c.len(),
            out@ == old(out)@ + flatten(models(c@).take(i as int), exclude),
        decreases c.len() - i,
    {
        assert(models(c@).take(i + 1).drop_last() =~= models(c@).take(i as int));
        if !(exclude && c[i].avoid_study()) {
            let ghost before = out@;
            out.push('/');
            let s = c[i].to_string();
            let sv = chars_of(s.as_str());
            crate::text::push_chars(out, sv.as_slice());
            assert(out@ =~= before + (seq!['/'] + c@[i as int]@.serialized()));
        }
        i += 1;
    }
    assert(models(c@).take(c.len() as int) =~= models(c@));
}

impl Clone for CandidateSuite {
    fn clone(&self) -> (s: Self)
        ensures
            s@ == self@,
    {
        self.duplicate()
    }
}

impl Default for CandidateSuite {
    fn default() -> (s: Self)
        ensures
            s@.candidates == Seq::<CandidateModel>::empty(),
            s@.hints == Seq::<HintModel>::empty(),
    {
        CandidateSuite::new()
    }
}

} // verus!
