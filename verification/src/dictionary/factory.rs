//! Dictionary kinds as numbered in dictionary settings.

use vstd::prelude::*;
use crate::candidate::CandidateSuite;
use crate::dictionary::{CompletionHelper, Dictionary};
use crate::dictionary::file::Encoding;
use crate::entry::Entry;
use crate::text::copy_str;

verus! {

/// The kinds of dictionary a settings line can name.
#[derive(Debug, Clone, Copy, PartialEq, Eq, Hash, Structural)]
pub enum DictionaryType {
    /// SKK dictionary file (encoding detected)
    Common,
    /// SKK dictionary downloaded and kept up to date
    AutoUpdate,
    /// skkserv server
    Proxy,
    /// Kotoeri dictionary (not supported)
    Kotoeri,
    /// Program-execution dictionary
    Gadget,
    /// SKK dictionary file in UTF-8
    CommonUtf8,
}

impl DictionaryType {
    /// The settings number of a kind.
    pub open spec fn number(self) -> int {
        match self {
            DictionaryType::Common => 0,
            DictionaryType::AutoUpdate => 1,
            DictionaryType::Proxy => 2,
            DictionaryType::Kotoeri => 3,
            DictionaryType::Gadget => 4,
            DictionaryType::CommonUtf8 => 5,
        }
    }

    /// The kind with settings number `id`.
    pub fn from_id(id: i32) -> (r: Option<DictionaryType>)
        ensures
            match r {
                Some(t) => t.number() == id,
                None => !(0 <= id <= 5),
            },
    {
        match id {
            0 => Some(DictionaryType::Common),
            1 => Some(DictionaryType::AutoUpdate),
            2 => Some(DictionaryType::Proxy),
            3 => Some(DictionaryType::Kotoeri),
            4 => Some(DictionaryType::Gadget),
            5 => Some(DictionaryType::CommonUtf8),
            _ => None,
        }
    }

    /// The encoding a dictionary file of this kind is read with: detected
    /// per file for `Common`, UTF-8 for `CommonUtf8`; the other kinds read
    /// no file and get none.
    pub fn file_encoding(&self) -> (r: Option<Encoding>)
        ensures
            r == match *self {
                DictionaryType::Common => Some(Encoding::Auto),
                DictionaryType::CommonUtf8 => Some(Encoding::Utf8),
                _ => None,
            },
    {
        match self {
            DictionaryType::Common => Some(Encoding::Auto),
            DictionaryType::CommonUtf8 => Some(Encoding::Utf8),
            _ => None,
        }
    }

    /// The settings number.
    pub fn id(&self) -> (r: i32)
        ensures
            r == self.number(),
    {
        match self {
            DictionaryType::Common => 0,
            DictionaryType::AutoUpdate => 1,
            DictionaryType::Proxy => 2,
            DictionaryType::Kotoeri => 3,
            DictionaryType::Gadget => 4,
            DictionaryType::CommonUtf8 => 5,
        }
    }
}

/// A dictionary setting: kind and location.
#[derive(Debug, PartialEq, Eq, Hash)]
pub struct DictionaryKey {
    pub dictionary_type: DictionaryType,
    pub location: String,
}

impl DictionaryKey {
    pub fn new(dictionary_type: DictionaryType, location: &str) -> (k: DictionaryKey)
        ensures
            k.dictionary_type == dictionary_type,
            k.location@ == location@,
    {
        DictionaryKey { dictionary_type, location: copy_str(location) }
    }
}

/// A dictionary with no entries.
#[derive(Debug, Clone, Copy, Default)]
pub struct NullDictionary;

impl Dictionary for NullDictionary {
    fn find(&self, entry: &Entry, result: &mut CandidateSuite)
        ensures
            final(result)@ == old(result)@,
    {
    }

    fn complete(&self, helper: &mut CompletionHelper)
        ensures
            final(helper)@ == old(helper)@,
    {
    }
}

} // verus!
