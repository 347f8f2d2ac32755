//! Dictionary lookup keys.

use vstd::prelude::*;
use crate::input_mode::InputMode;
use crate::jconv;
use crate::jconv::{kana_convert, KanaColumn};
use crate::text::{chars_ends_with, chars_of, copy_str, has_suffix, string_of_range};

verus! {

/// A dictionary lookup key: the reading, plus okurigana information for
/// okuri-ari entries.
#[derive(Debug, PartialEq, Eq)]
pub struct Entry {
    normal_entry: String,
    okuri_entry: String,
    prefix: String,
    kana: String,
    prompt: String,
}

/// The okuri-ari lookup key and the display prompt derived from a reading,
/// an okuri prefix and okurigana.
pub open spec fn derived_key(normal: Seq<char>, prefix: Seq<char>) -> Seq<char> {
    normal + prefix
}

pub open spec fn derived_prompt(normal: Seq<char>, kana: Seq<char>) -> Seq<char> {
    if kana.len() > 0 {
        normal + seq!['*'] + kana
    } else {
        normal
    }
}

impl Entry {
    /// The reading (without okuri prefix).
    pub closed spec fn reading(self) -> Seq<char> {
        self.normal_entry@
    }

    /// The okuri prefix consonant ("k" of "かk").
    pub closed spec fn okuri_prefix(self) -> Seq<char> {
        self.prefix@
    }

    /// The okurigana.
    pub closed spec fn okuri(self) -> Seq<char> {
        self.kana@
    }

    /// The okuri-ari key as last derived.
    pub closed spec fn stored_key(self) -> Seq<char> {
        self.okuri_entry@
    }

    /// The prompt as last derived.
    pub closed spec fn stored_prompt(self) -> Seq<char> {
        self.prompt@
    }

    /// Derived fields agree with the reading, prefix and okurigana.
    pub open spec fn synced(self) -> bool {
        &&& self.stored_key() == derived_key(self.reading(), self.okuri_prefix())
        &&& self.stored_prompt() == derived_prompt(self.reading(), self.okuri())
    }

    /// The dictionary key: "かk" for okuri-ari, the reading otherwise.
    pub open spec fn key(self) -> Seq<char> {
        if self.okuri().len() > 0 {
            self.stored_key()
        } else {
            self.reading()
        }
    }

    /// The entry built from its parts, with derived fields in sync.
    pub open spec fn is_made_of(self, normal: Seq<char>, prefix: Seq<char>, kana: Seq<char>) -> bool {
        &&& self.reading() == normal
        &&& self.okuri_prefix() == prefix
        &&& self.okuri() == kana
        &&& self.synced()
    }

    fn make(normal: String, prefix: String, kana: String) -> (e: Entry)
        ensures
            e.is_made_of(normal@, prefix@, kana@),
    {
        let mut okuri_entry = copy_str(normal.as_str());
        okuri_entry.append(prefix.as_str());
        let mut prompt = copy_str(normal.as_str());
        if kana.as_str().unicode_len() > 0 {
            prompt.push('*');
            prompt.append(kana.as_str());
        }
        assert(normal@ + seq!['*'] == normal@.push('*'));
        Entry { normal_entry: normal, okuri_entry, prefix, kana, prompt }
    }

    /// An empty entry.
    pub fn empty() -> (e: Entry)
        ensures
            e.is_made_of(Seq::empty(), Seq::empty(), Seq::empty()),
    {
        Entry::make(String::new(), String::new(), String::new())
    }

    /// A copy of the entry.
    pub fn duplicate(&self) -> (e: Entry)
        ensures
            e == *self,
    {
        Entry {
            normal_entry: self.normal_entry.clone(),
            okuri_entry: self.okuri_entry.clone(),
            prefix: self.prefix.clone(),
            kana: self.kana.clone(),
            prompt: self.prompt.clone(),
        }
    }

    pub fn new(entry: &str, okuri: &str) -> (e: Entry)
        ensures
            e.is_made_of(entry@, Seq::empty(), okuri@),
    {
        Entry::make(copy_str(entry), String::new(), copy_str(okuri))
    }

    pub fn from_entry(entry: &str) -> (e: Entry)
        ensures
            e.is_made_of(entry@, Seq::empty(), Seq::empty()),
    {
        let empty = "";
        proof {
            reveal_strlit("");
        }
        assert(empty@ =~= Seq::<char>::empty());
        Self::new(entry, empty)
    }

    /// Replace the reading, removing a trailing okuri prefix ("かk" -> "か").
    pub fn set_entry(&mut self, entry: &str)
        ensures
            final(self).is_made_of(
                if old(self).okuri_prefix().len() > 0 && has_suffix(entry@, old(self).okuri_prefix()) {
                    entry@.take(entry@.len() - old(self).okuri_prefix().len())
                } else {
                    entry@
                },
                old(self).okuri_prefix(),
                old(self).okuri(),
            ),
    {
        let v = chars_of(entry);
        let p = chars_of(self.prefix.as_str());
        let normal = if p.len() > 0 && chars_ends_with(v.as_slice(), p.as_slice()) {
            string_of_range(v.as_slice(), 0, v.len() - p.len())
        } else {
            copy_str(entry)
        };
        assert(v@.subrange(0, v@.len() - p@.len()) == v@.take(v@.len() - p@.len()));
        let prefix = copy_str(self.prefix.as_str());
        let kana = copy_str(self.kana.as_str());
        *self = Entry::make(normal, prefix, kana);
    }

    /// Append to the reading. The derived key and prompt are left as they
    /// were until the next update of the okurigana or reading.
    pub fn append_entry(&mut self, s: &str)
        ensures
            final(self).reading() == old(self).reading() + s@,
            final(self).okuri_prefix() == old(self).okuri_prefix(),
            final(self).okuri() == old(self).okuri(),
            final(self).stored_key() == old(self).stored_key(),
            final(self).stored_prompt() == old(self).stored_prompt(),
    {
        self.normal_entry.append(s);
    }

    pub fn set_okuri(&mut self, prefix: &str, kana: &str)
        ensures
            final(self).is_made_of(old(self).reading(), prefix@, kana@),
    {
        let normal = copy_str(self.normal_entry.as_str());
        *self = Entry::make(normal, copy_str(prefix), copy_str(kana));
    }

    /// The dictionary key: "かk" for okuri-ari, the reading otherwise.
    pub fn entry_string(&self) -> (r: &str)
        ensures
            r@ == self.key(),
    {
        if self.is_okuri_ari() {
            self.okuri_entry.as_str()
        } else {
            self.normal_entry.as_str()
        }
    }

    pub fn okuri_string(&self) -> (r: &str)
        ensures
            r@ == self.okuri(),
    {
        self.kana.as_str()
    }

    /// Display form: "か*かった" style for okuri-ari.
    pub fn prompt_string(&self) -> (r: &str)
        ensures
            r@ == self.stored_prompt(),
    {
        self.prompt.as_str()
    }

    /// The reading translated for the kana-toggle command in `mode`.
    pub fn toggle_kana(&self, mode: InputMode) -> (r: String)
        ensures
            r@ == match mode {
                InputMode::Hirakana => kana_convert(self.reading(), KanaColumn::Hirakana, KanaColumn::Katakana),
                InputMode::Katakana => kana_convert(self.reading(), KanaColumn::Katakana, KanaColumn::Hirakana),
                InputMode::Jisx0201Kana => kana_convert(self.reading(), KanaColumn::Jisx0201Kana, KanaColumn::Katakana),
                _ => Seq::empty(),
            },
    {
        match mode {
            InputMode::Hirakana => jconv::hirakana_to_katakana(self.normal_entry.as_str()),
            InputMode::Katakana => jconv::katakana_to_hirakana(self.normal_entry.as_str()),
            InputMode::Jisx0201Kana => jconv::jisx0201_kana_to_katakana(self.normal_entry.as_str()),
            _ => String::new(),
        }
    }

    /// The reading translated for the half-width-kana toggle in `mode`.
    pub fn toggle_jisx0201_kana(&self, mode: InputMode) -> (r: String)
        ensures
            r@ == match mode {
                InputMode::Hirakana => kana_convert(self.reading(), KanaColumn::Hirakana, KanaColumn::Jisx0201Kana),
                InputMode::Katakana => kana_convert(self.reading(), KanaColumn::Katakana, KanaColumn::Jisx0201Kana),
                InputMode::Jisx0201Kana => kana_convert(self.reading(), KanaColumn::Jisx0201Kana, KanaColumn::Hirakana),
                InputMode::Ascii => self.reading().map_values(|c: char| jconv::to_jisx0208_latin(c)),
                _ => Seq::empty(),
            },
    {
        match mode {
            InputMode::Hirakana => jconv::hirakana_to_jisx0201_kana(self.normal_entry.as_str()),
            InputMode::Katakana => jconv::katakana_to_jisx0201_kana(self.normal_entry.as_str()),
            InputMode::Jisx0201Kana => jconv::jisx0201_kana_to_hirakana(self.normal_entry.as_str()),
            InputMode::Ascii => jconv::ascii_to_jisx0208_latin(self.normal_entry.as_str()),
            _ => String::new(),
        }
    }

    /// The reading normalized to hiragana for `mode`, and the romaji of the
    /// okurigana.
    pub open spec fn normalized_parts(self, mode: InputMode) -> (Seq<char>, Seq<char>) {
        match mode {
            InputMode::Katakana => (
                kana_convert(self.reading(), KanaColumn::Katakana, KanaColumn::Hirakana),
                kana_convert(self.okuri(), KanaColumn::Katakana, KanaColumn::Roman),
            ),
            InputMode::Jisx0201Kana => (
                kana_convert(self.reading(), KanaColumn::Jisx0201Kana, KanaColumn::Hirakana),
                kana_convert(self.okuri(), KanaColumn::Jisx0201Kana, KanaColumn::Roman),
            ),
            _ => (self.reading(), kana_convert(self.okuri(), KanaColumn::Hirakana, KanaColumn::Roman)),
        }
    }

    /// `e` is this entry normalized for lookup in input mode `mode`.
    pub open spec fn normalizes_to(self, mode: InputMode, e: Entry) -> bool {
        let (reading, roman) = self.normalized_parts(mode);
        let stripped = if self.okuri_prefix().len() > 0 && has_suffix(reading, self.okuri_prefix()) {
            reading.take(reading.len() - self.okuri_prefix().len())
        } else {
            reading
        };
        if roman.len() > 0 {
            e.is_made_of(stripped, roman.take(1), self.okuri())
        } else {
            e.is_made_of(stripped, self.okuri_prefix(), self.okuri())
        }
    }

    /// Normalize the reading to hiragana for dictionary lookup. In katakana
    /// or half-width kana modes both the reading and the okuri prefix are
    /// re-derived: the prefix becomes the first romaji letter of the
    /// okurigana.
    pub fn normalize(&self, mode: InputMode) -> (e: Entry)
        ensures
            self.normalizes_to(mode, e),
    {
        let mut entry = self.duplicate();
        let (result, roman) = match mode {
            InputMode::Katakana => (
                jconv::katakana_to_hirakana(self.normal_entry.as_str()),
                jconv::katakana_to_roman(self.kana.as_str()),
            ),
            InputMode::Jisx0201Kana => (
                jconv::jisx0201_kana_to_hirakana(self.normal_entry.as_str()),
                jconv::jisx0201_kana_to_roman(self.kana.as_str()),
            ),
            _ => (copy_str(self.normal_entry.as_str()), jconv::hirakana_to_roman(self.kana.as_str())),
        };
        entry.set_entry(result.as_str());
        let r = chars_of(roman.as_str());
        if r.len() > 0 {
            let prefix = string_of_range(r.as_slice(), 0, 1);
            assert(r@.subrange(0, 1) == r@.take(1));
            entry.set_okuri(prefix.as_str(), self.kana.as_str());
        }
        entry
    }

    pub fn is_empty(&self) -> (r: bool)
        ensures
            r == (self.reading().len() == 0),
    {
        self.normal_entry.as_str().unicode_len() == 0
    }

    pub fn is_okuri_ari(&self) -> (r: bool)
        ensures
            r == (self.okuri().len() > 0),
    {
        self.kana.as_str().unicode_len() > 0
    }
}

impl Clone for Entry {
    fn clone(&self) -> (e: Self)
        ensures
            e == *self,
    {
        self.duplicate()
    }
}

impl Default for Entry {
    fn default() -> (e: Self)
        ensures
            e.is_made_of(Seq::empty(), Seq::empty(), Seq::empty()),
    {
        Entry::empty()
    }
}

} // verus!
