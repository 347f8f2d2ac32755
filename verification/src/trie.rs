//! Romaji to kana conversion rules.
//!
//! The rules form a tree keyed by the bytes of the romaji; it is held as
//! the list of rules in the order they were loaded, a later rule for the
//! same romaji replacing an earlier one.

use vstd::prelude::*;
use vstd::utf8::encode_utf8;
use crate::dictionary::file::{lines_of, split_lines};
use crate::input_mode::InputMode;
use crate::text::{decode_lossy, lossy_decoded,
    char_is_white_space, chars_of, copy_str, is_white_space, replace_all, str_replace, string_of,
};

verus! {

/// The kana of one rule for each kana mode, and the text left pending
/// after it (the consonant of a doubled-consonant rule).
pub struct RuleModel {
    pub hirakana: Seq<char>,
    pub katakana: Seq<char>,
    pub jisx0201kana: Seq<char>,
    pub next: Seq<char>,
}

impl RuleModel {
    /// The kana for `mode`; nothing in the non-kana modes.
    pub open spec fn kana(self, mode: InputMode) -> Seq<char> {
        match mode {
            InputMode::Hirakana => self.hirakana,
            InputMode::Katakana => self.katakana,
            InputMode::Jisx0201Kana => self.jisx0201kana,
            _ => Seq::empty(),
        }
    }
}

/// `p` is a prefix of `s`.
pub open spec fn key_has_prefix(s: Seq<u8>, p: Seq<u8>) -> bool {
    p.len() <= s.len() && s.take(p.len() as int) == p
}

/// The rule for romaji `k`: the last one loaded.
pub open spec fn rule_for(rules: Seq<(Seq<u8>, RuleModel)>, k: Seq<u8>) -> Option<RuleModel>
    decreases rules.len(),
{
    if rules.len() == 0 {
        None
    } else if rules.last().0 == k {
        Some(rules.last().1)
    } else {
        rule_for(rules.drop_last(), k)
    }
}

/// Some rule's romaji begins with `p` (the tree has a node for `p`).
pub open spec fn has_path(rules: Seq<(Seq<u8>, RuleModel)>, p: Seq<u8>) -> bool {
    exists|i: int| 0 <= i < rules.len() && key_has_prefix(#[trigger] rules[i].0, p)
}

/// Some rule's romaji strictly extends `p` (the node for `p` has children).
pub open spec fn extends(rules: Seq<(Seq<u8>, RuleModel)>, p: Seq<u8>) -> bool {
    exists|i: int| 0 <= i < rules.len() && key_has_prefix(#[trigger] rules[i].0, p) && rules[i].0.len() > p.len()
}

/// One step of matching the front of a queue against the tree.
pub enum StepModel {
    /// `skip` bytes consumed; no rule on a partial match without one.
    Converted(Option<RuleModel>, nat),
    /// The first byte matches nothing and passes through.
    NotConverted(u8),
    /// The queue ended inside the tree; the rule of the node reached, if any.
    Short(Option<RuleModel>),
}

/// Matching `q` from depth `d`: follow the tree while the next node has
/// children; stop at a leaf, before a byte with no node, or at the end.
pub open spec fn walk(rules: Seq<(Seq<u8>, RuleModel)>, q: Seq<u8>, d: int) -> StepModel
    decreases q.len() - d,
{
    if d < 0 || d >= q.len() {
        StepModel::Short(rule_for(rules, q))
    } else if has_path(rules, q.take(d + 1)) && extends(rules, q.take(d + 1)) {
        walk(rules, q, d + 1)
    } else if has_path(rules, q.take(d + 1)) {
        StepModel::Converted(rule_for(rules, q.take(d + 1)), (d + 1) as nat)
    } else if d > 0 {
        StepModel::Converted(rule_for(rules, q.take(d)), d as nat)
    } else {
        StepModel::NotConverted(q[0])
    }
}

/// The state of a conversion: bytes output, pending text, the kana of an
/// incomplete prefix that is itself a rule, and whether the last step
/// matched a rule.
pub struct ConversionModel {
    pub output: Seq<u8>,
    pub next: Seq<char>,
    pub intermediate: Seq<char>,
    pub converted: bool,
}

/// Converting queue `q` from state `st` step by step.
pub open spec fn convert_from(
    rules: Seq<(Seq<u8>, RuleModel)>,
    mode: InputMode,
    q: Seq<u8>,
    st: ConversionModel,
) -> ConversionModel
    decreases q.len(),
{
    if q.len() == 0 {
        st
    } else {
        let st0 = ConversionModel { next: Seq::empty(), intermediate: Seq::empty(), ..st };
        match walk(rules, q, 0) {
            StepModel::Converted(r, skip) => {
                let st1 = match r {
                    Some(rule) => ConversionModel {
                        output: st0.output + encode_utf8(rule.kana(mode)),
                        next: rule.next,
                        converted: true,
                        ..st0
                    },
                    None => ConversionModel { converted: false, ..st0 },
                };
                if 1 <= skip <= q.len() {
                    convert_from(rules, mode, q.skip(skip as int), st1)
                } else {
                    st1
                }
            },
            StepModel::NotConverted(c) => convert_from(
                rules,
                mode,
                q.skip(1),
                ConversionModel { output: st0.output.push(c), converted: false, ..st0 },
            ),
            StepModel::Short(r) => ConversionModel {
                converted: false,
                intermediate: match r {
                    Some(rule) => rule.kana(mode),
                    None => Seq::empty(),
                },
                next: lossy_decoded(q),
                ..st0
            },
        }
    }
}

/// A rule loaded later for the same romaji replaces the earlier one; the
/// rules for other romaji stay as they were.
pub proof fn law_later_rule_wins(
    rules: Seq<(Seq<u8>, RuleModel)>,
    k: Seq<u8>,
    r: RuleModel,
    other: Seq<u8>,
)
    ensures
        rule_for(rules.push((k, r)), k) == Some(r),
        other != k ==> rule_for(rules.push((k, r)), other) == rule_for(rules, other),
{
    assert(rules.push((k, r)).drop_last() =~= rules);
}

proof fn lemma_rule_for_found(rules: Seq<(Seq<u8>, RuleModel)>, k: Seq<u8>)
    requires
        rule_for(rules, k) is Some,
    ensures
        exists|i: int| 0 <= i < rules.len() && rules[i].0 == k,
    decreases rules.len(),
{
    if rules.last().0 == k {
        assert(rules[rules.len() - 1].0 == k);
    } else {
        lemma_rule_for_found(rules.drop_last(), k);
        let i = choose|i: int| 0 <= i < rules.drop_last().len() && rules.drop_last()[i].0 == k;
        assert(rules[i].0 == k);
    }
}

proof fn lemma_walk_to_leaf(rules: Seq<(Seq<u8>, RuleModel)>, q: Seq<u8>, d: int, i: int)
    requires
        0 <= d < q.len(),
        0 <= i < rules.len(),
        rules[i].0 == q,
        !extends(rules, q),
    ensures
        walk(rules, q, d) == StepModel::Converted(rule_for(rules, q), q.len()),
    decreases q.len() - d,
{
    assert(key_has_prefix(rules[i].0, q.take(d + 1)));
    assert(has_path(rules, q.take(d + 1)));
    if d + 1 < q.len() {
        assert(extends(rules, q.take(d + 1)));
        lemma_walk_to_leaf(rules, q, d + 1, i);
    } else {
        assert(q.take(d + 1) =~= q);
    }
}

/// Romaji that is a rule of its own and begins no longer rule converts, in
/// one step, to that rule's kana, leaving the rule's pending text.
pub proof fn law_leaf_rule_converts(rules: Seq<(Seq<u8>, RuleModel)>, mode: InputMode, q: Seq<u8>, r: RuleModel)
    requires
        q.len() > 0,
        rule_for(rules, q) == Some(r),
        !extends(rules, q),
    ensures
        convert_from(
            rules,
            mode,
            q,
            ConversionModel { output: Seq::empty(), next: Seq::empty(), intermediate: Seq::empty(), converted: false },
        ) == (ConversionModel { output: encode_utf8(r.kana(mode)), next: r.next, intermediate: Seq::empty(), converted: true }),
{
    lemma_rule_for_found(rules, q);
    let i = choose|i: int| 0 <= i < rules.len() && rules[i].0 == q;
    lemma_walk_to_leaf(rules, q, 0, i);
    let st1 = ConversionModel { output: encode_utf8(r.kana(mode)), next: r.next, intermediate: Seq::empty(), converted: true };
    assert(q.skip(q.len() as int) =~= Seq::<u8>::empty());
    assert(convert_from(rules, mode, q.skip(q.len() as int), st1) == st1);
    assert(Seq::<u8>::empty() + encode_utf8(r.kana(mode)) =~= encode_utf8(r.kana(mode)));
}

/// The conversion of `input` with `rules`.
pub open spec fn converted(rules: Seq<(Seq<u8>, RuleModel)>, mode: InputMode, input: Seq<char>) -> ConversionModel {
    convert_from(
        rules,
        mode,
        encode_utf8(input),
        ConversionModel { output: Seq::empty(), next: Seq::empty(), intermediate: Seq::empty(), converted: false },
    )
}

// ---------------------------------------------------------------------------
// Rule text
// ---------------------------------------------------------------------------

/// Tokens of `s` separated by white space: the tokens done and the one
/// being read.
pub open spec fn ws_run(s: Seq<char>) -> (Seq<Seq<char>>, Seq<char>)
    decreases s.len(),
{
    if s.len() == 0 {
        (Seq::empty(), Seq::empty())
    } else {
        let (done, cur) = ws_run(s.drop_last());
        if is_white_space(s.last()) {
            if cur.len() > 0 {
                (done.push(cur), Seq::empty())
            } else {
                (done, cur)
            }
        } else {
            (done, cur.push(s.last()))
        }
    }
}

/// The white-space separated words of `s` (`str::split_whitespace`).
pub open spec fn words_of(s: Seq<char>) -> Seq<Seq<char>> {
    let (done, cur) = ws_run(s);
    if cur.len() > 0 {
        done.push(cur)
    } else {
        done
    }
}

/// A rule field with its escapes replaced.
pub open spec fn unescaped(f: Seq<char>) -> Seq<char> {
    replace_all(replace_all(replace_all(f, "&comma;"@, ","@), "&space;"@, " "@), "&sharp;"@, "#"@)
}

/// The fields of a rule line: spaces escaped, commas as separators,
/// escapes replaced.
pub open spec fn fields_of(line: Seq<char>) -> Seq<Seq<char>> {
    words_of(replace_all(replace_all(line, " "@, "&space;"@), ","@, " "@)).map_values(|f: Seq<char>| unescaped(f))
}

/// The rule a line of rule text gives: romaji, hiragana, katakana, half-width
/// katakana and an optional pending text; empty lines, comments and short
/// lines give none.
pub open spec fn rule_line(line: Seq<char>) -> Option<(Seq<u8>, RuleModel)> {
    let f = fields_of(line);
    if line.len() == 0 || line[0] == '#' || f.len() < 4 {
        None
    } else {
        Some((encode_utf8(f[0]), RuleModel {
            hirakana: f[1],
            katakana: f[2],
            jisx0201kana: f[3],
            next: if f.len() > 4 { f[4] } else { Seq::empty() },
        }))
    }
}

/// The rules given by lines `ls`, in order.
pub open spec fn rules_of(ls: Seq<Seq<char>>) -> Seq<(Seq<u8>, RuleModel)>
    decreases ls.len(),
{
    if ls.len() == 0 {
        Seq::empty()
    } else {
        match rule_line(ls.last()) {
            Some(r) => rules_of(ls.drop_last()).push(r),
            None => rules_of(ls.drop_last()),
        }
    }
}

#[derive(Debug)]
struct Rule {
    hirakana: String,
    katakana: String,
    jisx0201kana: String,
    next: String,
}

impl View for Rule {
    type V = RuleModel;

    closed spec fn view(&self) -> RuleModel {
        RuleModel {
            hirakana: self.hirakana@,
            katakana: self.katakana@,
            jisx0201kana: self.jisx0201kana@,
            next: self.next@,
        }
    }
}

impl Rule {
    fn kana(&self, mode: InputMode) -> (r: &str)
        ensures
            r@ == self@.kana(mode),
    {
        match mode {
            InputMode::Hirakana => self.hirakana.as_str(),
            InputMode::Katakana => self.katakana.as_str(),
            InputMode::Jisx0201Kana => self.jisx0201kana.as_str(),
            _ => {
                let e = "";
                proof {
                    reveal_strlit("");
                }
                assert(e@ =~= Seq::<char>::empty());
                e
            },
        }
    }
}

/// The result of converting romaji.
#[derive(Debug, PartialEq, Eq)]
pub struct ConversionResult {
    /// Converted (or passed-through) output.
    pub output: String,
    /// Unconsumed romaji, or the pending text of the last rule.
    pub next: String,
    /// Kana for an incomplete prefix that is itself a rule ("n" while it
    /// could still become "ny").
    pub intermediate: String,
}

enum Step {
    Converted(Option<usize>, usize),
    NotConverted(u8),
    Short(Option<usize>),
}

/// Romaji to kana conversion rules.
#[derive(Debug)]
pub struct RomanKanaConverter {
    rules: Vec<(Vec<u8>, Rule)>,
}

/// The mathematical rules of a rule list.
spec fn rule_models(v: Seq<(Vec<u8>, Rule)>) -> Seq<(Seq<u8>, RuleModel)> {
    v.map_values(|e: (Vec<u8>, Rule)| (e.0@, e.1@))
}

impl RomanKanaConverter {
    /// The rules in the order loaded.
    pub closed spec fn rules(self) -> Seq<(Seq<u8>, RuleModel)> {
        rule_models(self.rules@)
    }

    pub fn new() -> (c: RomanKanaConverter)
        ensures
            c.rules() == Seq::<(Seq<u8>, RuleModel)>::empty(),
    {
        let c = RomanKanaConverter { rules: Vec::new() };
        assert(c.rules() =~= Seq::<(Seq<u8>, RuleModel)>::empty());
        c
    }

    /// Add the rules of UTF-8 rule text; a rule for romaji already known
    /// replaces the old one.
    pub fn load(&mut self, text: &str)
        ensures
            final(self).rules() == old(self).rules() + rules_of(lines_of(text@)),
    {
        let v = chars_of(text);
        let lines = split_lines(v.as_slice());
        let ghost ls = lines@.map_values(|l: Vec<char>| l@);
        let ghost r0 = self.rules();
        let mut i: usize = 0;
        assert(ls.take(0) =~= Seq::<Seq<char>>::empty());
        assert(r0 + rules_of(ls.take(0)) =~= r0);
        while i < lines.len()
            invariant
                i <= lines@.len(),
                ls == lines@.map_values(|l: Vec<char>| l@),
                self.rules() == r0 + rules_of(ls.take(i as int)),
            decreases lines.len() - i,
        {
            assert(ls.take(i + 1).drop_last() =~= ls.take(i as int));
            assert(ls.take(i + 1).last() == lines@[i as int]@);
            match parse_rule_line(lines[i].as_slice()) {
                Some(entry) => {
                    let ghost before = self.rules@;
                    self.rules.push(entry);
                    assert(rule_models(self.rules@) =~= rule_models(before).push((self.rules@.last().0@, self.rules@.last().1@)));
                },
                None => {},
            }
            i += 1;
        }
        assert(ls.take(lines.len() as int) =~= ls);
    }

    /// The index of the rule for romaji `k`.
    fn find_rule(&self, k: &[u8]) -> (r: Option<usize>)
        ensures
            match r {
                Some(i) => i < self.rules@.len() && rule_for(self.rules(), k@) == Some(self.rules()[i as int].1),
                None => rule_for(self.rules(), k@) is None,
            },
    {
        let mut i: usize = self.rules.len();
        let ghost rs = self.rules();
        assert(rs.take(i as int) =~= rs);
        while i > 0
            invariant
                i <= self.rules@.len(),
                rs == self.rules(),
                rule_for(rs, k@) == rule_for(rs.take(i as int), k@),
            decreases i,
        {
            assert(rs.take(i as int).drop_last() =~= rs.take(i - 1));
            assert(rs.take(i as int).last() == rs[i - 1]);
            if bytes_eq(self.rules[i - 1].0.as_slice(), k) {
                return Some(i - 1);
            }
            i -= 1;
        }
        None
    }

    /// Whether some romaji begins with `p`, and whether some strictly
    /// extends it.
    fn node_at(&self, p: &[u8]) -> (r: (bool, bool))
        ensures
            r.0 == has_path(self.rules(), p@),
            r.1 == extends(self.rules(), p@),
    {
        let mut found = false;
        let mut longer = false;
        let mut i: usize = 0;
        let ghost rs = self.rules();
        while i < self.rules.len()
            invariant
                i <= self.rules@.len(),
                rs == self.rules(),
                found == exists|j: int| 0 <= j < i && key_has_prefix(#[trigger] rs[j].0, p@),
                longer == exists|j: int| 0 <= j < i && key_has_prefix(#[trigger] rs[j].0, p@) && rs[j].0.len() > p@.len(),
            decreases self.rules.len() - i,
        {
            let k = self.rules[i].0.as_slice();
            assert(rs[i as int].0 == k@);
            if bytes_starts_with(k, p) {
                found = true;
                if k.len() > p.len() {
                    longer = true;
                }
            }
            i += 1;
        }
        (found, longer)
    }

    fn traverse(&self, q: &[u8]) -> (r: Step)
        requires
            q@.len() > 0,
        ensures
            match (r, walk(self.rules(), q@, 0)) {
                (Step::Converted(Some(i), skip), StepModel::Converted(Some(m), s)) => i < self.rules@.len()
                    && self.rules()[i as int].1 == m && skip == s,
                (Step::Converted(None, skip), StepModel::Converted(None, s)) => skip == s,
                (Step::NotConverted(c), StepModel::NotConverted(m)) => c == m,
                (Step::Short(Some(i)), StepModel::Short(Some(m))) => i < self.rules@.len() && self.rules()[i as int].1 == m,
                (Step::Short(None), StepModel::Short(None)) => true,
                _ => false,
            },
            match r {
                Step::Converted(_, skip) => 1 <= skip <= q@.len(),
                _ => true,
            },
    {
        let mut d: usize = 0;
        while d < q.len()
            invariant
                d <= q@.len(),
                q@.len() > 0,
                walk(self.rules(), q@, 0) == walk(self.rules(), q@, d as int),
            decreases q.len() - d,
        {
            let child = &q[0..d + 1];
            assert(child@ =~= q@.take(d + 1));
            let (exists_child, has_children) = self.node_at(child);
            if exists_child && has_children {
                d += 1;
            } else if exists_child {
                return Step::Converted(self.find_rule(child), d + 1);
            } else if d > 0 {
                let node = &q[0..d];
                assert(node@ =~= q@.take(d as int));
                return Step::Converted(self.find_rule(node), d);
            } else {
                return Step::NotConverted(q[0]);
            }
        }
        Step::Short(self.find_rule(q))
    }

    /// Convert romaji. Returns the result and whether the last step matched
    /// a rule.
    pub fn convert(&self, mode: InputMode, input: &str) -> (r: (ConversionResult, bool))
        ensures
            r.0.output@ == lossy_decoded(converted(self.rules(), mode, input@).output),
            r.0.next@ == converted(self.rules(), mode, input@).next,
            r.0.intermediate@ == converted(self.rules(), mode, input@).intermediate,
            r.1 == converted(self.rules(), mode, input@).converted,
    {
        let bytes = input.as_bytes();
        let mut output: Vec<u8> = Vec::new();
        let mut next = String::new();
        let mut intermediate = String::new();
        let mut done = false;
        let mut matched = false;
        let mut pos: usize = 0;
        let ghost goal = convert_from(
            self.rules(),
            mode,
            bytes@,
            ConversionModel { output: Seq::empty(), next: Seq::empty(), intermediate: Seq::empty(), converted: false },
        );
        assert(bytes@.skip(0) =~= bytes@);
        while pos < bytes.len() && !done
            invariant
                pos <= bytes@.len(),
                goal == converted(self.rules(), mode, input@),
                bytes@ == encode_utf8(input@),
                done ==> goal == (ConversionModel {
                    output: output@,
                    next: next@,
                    intermediate: intermediate@,
                    converted: matched,
                }),
                !done ==> goal == convert_from(
                    self.rules(),
                    mode,
                    bytes@.skip(pos as int),
                    ConversionModel { output: output@, next: next@, intermediate: intermediate@, converted: matched },
                ),
            decreases (bytes.len() - pos) as int + if done { 0int } else { 1int },
        {
            let q = &bytes[pos..bytes.len()];
            assert(q@ =~= bytes@.skip(pos as int));
            next = String::new();
            intermediate = String::new();
            match self.traverse(q) {
                Step::Converted(rule, skip) => {
                    match rule {
                        Some(i) => {
                            let kana = self.rules[i].1.kana(mode);
                            let kb = kana.as_bytes();
                            let ghost before = output@;
                            let mut k: usize = 0;
                            while k < kb.len()
                                invariant
                                    k <= kb@.len(),
                                    output@ == before + kb@.take(k as int),
                                decreases kb.len() - k,
                            {
                                output.push(kb[k]);
                                assert(kb@.take(k + 1) =~= kb@.take(k as int).push(kb@[k as int]));
                                k += 1;
                            }
                            assert(kb@.take(kb@.len() as int) =~= kb@);
                            next = copy_str(self.rules[i].1.next.as_str());
                            matched = true;
                        },
                        None => {
                            matched = false;
                        },
                    }
                    assert(q@.skip(skip as int) =~= bytes@.skip(pos + skip));
                    pos = pos + skip;
                },
                Step::NotConverted(code) => {
                    matched = false;
                    output.push(code);
                    assert(q@.skip(1) =~= bytes@.skip(pos + 1));
                    pos = pos + 1;
                },
                Step::Short(rule) => {
                    matched = false;
                    match rule {
                        Some(i) => {
                            intermediate = copy_str(self.rules[i].1.kana(mode));
                        },
                        None => {},
                    }
                    next = decode_lossy(q);
                    done = true;
                },
            }
        }
        let result = ConversionResult { output: decode_lossy(output.as_slice()), next, intermediate };
        (result, matched)
    }
}

impl Default for RomanKanaConverter {
    fn default() -> (c: Self)
        ensures
            c.rules() == Seq::<(Seq<u8>, RuleModel)>::empty(),
    {
        RomanKanaConverter::new()
    }
}

fn bytes_eq(a: &[u8], b: &[u8]) -> (r: bool)
    ensures
        r == (a@ == b@),
{
    if a.len() != b.len() {
        return false;
    }
    let mut i: usize = 0;
    while i < a.len()
        invariant
            i <= a@.len(),
            a@.len() == b@.len(),
            forall|k: int| 0 <= k < i ==> a@[k] == b@[k],
        decreases a.len() - i,
    {
        if a[i] != b[i] {
            return false;
        }
        i += 1;
    }
    assert(a@ =~= b@);
    true
}

fn bytes_starts_with(s: &[u8], p: &[u8]) -> (r: bool)
    ensures
        r == key_has_prefix(s@, p@),
{
    if p.len() > s.len() {
        return false;
    }
    let mut i: usize = 0;
    while i < p.len()
        invariant
            i <= p@.len() <= s@.len(),
            forall|k: int| 0 <= k < i ==> s@[k] == p@[k],
        decreases p.len() - i,
    {
        if s[i] != p[i] {
            assert(s@.take(p@.len() as int)[i as int] != p@[i as int]);
            return false;
        }
        i += 1;
    }
    assert(s@.take(p@.len() as int) =~= p@);
    true
}

/// The white-space separated words of `v`.
pub(crate) fn split_words(v: &[char]) -> (r: Vec<Vec<char>>)
    ensures
        r@.map_values(|w: Vec<char>| w@) == words_of(v@),
{
    let mut done: Vec<Vec<char>> = Vec::new();
    let mut cur: Vec<char> = Vec::new();
    let mut i: usize = 0;
    assert(v@.take(0) =~= Seq::<char>::empty());
    assert(done@.map_values(|w: Vec<char>| w@) =~= Seq::<Seq<char>>::empty());
    while i < v.len()
        invariant
            i <= v@.len(),
            ws_run(v@.take(i as int)) == (done@.map_values(|w: Vec<char>| w@), cur@),
        decreases v.len() - i,
    {
        assert(v@.take(i + 1).drop_last() =~= v@.take(i as int));
        assert(v@.take(i + 1).last() == v@[i as int]);
        let c = v[i];
        if char_is_white_space(c) {
            if cur.len() > 0 {
                let ghost before = done@;
                done.push(cur);
                assert(done@.map_values(|w: Vec<char>| w@) =~= before.map_values(|w: Vec<char>| w@).push(
                    done@.last()@,
                ));
                cur = Vec::new();
            }
        } else {
            cur.push(c);
        }
        i += 1;
    }
    assert(v@.take(v.len() as int) =~= v@);
    if cur.len() > 0 {
        let ghost before = done@;
        let ghost last = cur@;
        done.push(cur);
        assert(done@.map_values(|w: Vec<char>| w@) =~= before.map_values(|w: Vec<char>| w@).push(last));
    }
    done
}

/// A rule field with its escapes replaced.
fn unescape(field: &str) -> (r: String)
    ensures
        r@ == unescaped(field@),
{
    let a = str_replace(field, "&comma;", ",");
    let b = str_replace(a.as_str(), "&space;", " ");
    str_replace(b.as_str(), "&sharp;", "#")
}

/// The rule a line of rule text gives.
fn parse_rule_line(line: &[char]) -> (r: Option<(Vec<u8>, Rule)>)
    ensures
        match r {
            Some(e) => rule_line(line@) == Some((e.0@, e.1@)),
            None => rule_line(line@) is None,
        },
{
    if line.len() == 0 || line[0] == '#' {
        return None;
    }
    let s = string_of(line);
    let escaped = str_replace(s.as_str(), " ", "&space;");
    let separated = str_replace(escaped.as_str(), ",", " ");
    let sv = chars_of(separated.as_str());
    let words = split_words(sv.as_slice());
    let ghost ws = words@.map_values(|w: Vec<char>| w@);
    let mut fields: Vec<String> = Vec::new();
    let mut i: usize = 0;
    while i < words.len()
        invariant
            i <= words@.len(),
            ws == words@.map_values(|w: Vec<char>| w@),
            fields@.len() == i,
            forall|k: int| 0 <= k < i ==> #[trigger] fields@[k]@ == unescaped(ws[k]),
        decreases words.len() - i,
    {
        let w = string_of(words[i].as_slice());
        fields.push(unescape(w.as_str()));
        i += 1;
    }
    let ghost f = fields_of(line@);
    assert(f.len() == fields@.len());
    assert(forall|k: int| 0 <= k < f.len() ==> #[trigger] f[k] == fields@[k]@);
    if fields.len() < 4 {
        return None;
    }
    let next = if fields.len() > 4 { copy_str(fields[4].as_str()) } else { String::new() };
    let rule = Rule {
        hirakana: copy_str(fields[1].as_str()),
        katakana: copy_str(fields[2].as_str()),
        jisx0201kana: copy_str(fields[3].as_str()),
        next,
    };
    let roman = fields[0].as_str().as_bytes();
    let mut key: Vec<u8> = Vec::new();
    let mut k: usize = 0;
    while k < roman.len()
        invariant
            k <= roman@.len(),
            key@ == roman@.take(k as int),
        decreases roman.len() - k,
    {
        key.push(roman[k]);
        assert(roman@.take(k + 1) =~= roman@.take(k as int).push(roman@[k as int]));
        k += 1;
    }
    assert(roman@.take(roman@.len() as int) =~= roman@);
    Some((key, rule))
}

} // verus!
