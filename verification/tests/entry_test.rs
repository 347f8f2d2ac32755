use nablaskk_core::entry::Entry;
use nablaskk_core::input_mode::InputMode;

#[test]
fn okuri_nasi() {
    let entry = Entry::from_entry("かんじ");
    assert!(!entry.is_okuri_ari());
    assert_eq!(entry.entry_string(), "かんじ");
    assert_eq!(entry.prompt_string(), "かんじ");
}

#[test]
fn okuri_ari() {
    let mut entry = Entry::from_entry("おく");
    entry.set_okuri("r", "り");
    assert!(entry.is_okuri_ari());
    assert_eq!(entry.entry_string(), "おくr");
    assert_eq!(entry.prompt_string(), "おく*り");
    assert_eq!(entry.okuri_string(), "り");
}

#[test]
fn set_entry_strips_prefix() {
    let mut entry = Entry::from_entry("");
    entry.set_okuri("k", "き");
    entry.set_entry("かk");
    assert_eq!(entry.entry_string(), "かk");
    assert_eq!(entry.prompt_string(), "か*き");
}

#[test]
fn toggle() {
    let entry = Entry::from_entry("かんじ");
    assert_eq!(entry.toggle_kana(InputMode::Hirakana), "カンジ");
    assert_eq!(entry.toggle_jisx0201_kana(InputMode::Hirakana), "ｶﾝｼﾞ");
}

#[test]
fn normalize_katakana() {
    let entry = Entry::new("オク", "リ");
    let normalized = entry.normalize(InputMode::Katakana);
    assert_eq!(normalized.entry_string(), "おくr");
    assert_eq!(normalized.okuri_string(), "リ");
}

#[test]
fn empty_entry() {
    let entry = Entry::empty();
    assert!(entry.is_empty());
    assert!(!entry.is_okuri_ari());
    assert_eq!(entry.entry_string(), "");
}
