//! NablaSKK engine: SKK kana-kanji input method logic.

pub mod backend;
pub mod bridge;
pub mod calculator;
pub mod candidate;
pub mod completer;
pub mod config;
pub mod context;
pub mod dictionary;
pub mod editor;
pub mod entry;
pub mod event;
pub mod input_mode;
pub mod jconv;
pub mod keymap;
pub mod machine;
pub mod numeric;
pub mod selector;
pub mod session;
pub mod skkserv;
pub mod terminal;
pub mod text;
pub mod trie;
