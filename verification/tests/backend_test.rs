use nablaskk_core::backend::{Backend, SystemDictionary};
use nablaskk_core::candidate::{Candidate, CandidateSuite};
use nablaskk_core::dictionary::common::CommonDictionary;
use nablaskk_core::dictionary::file::Encoding;
use nablaskk_core::dictionary::user::LocalUserDictionary;
use nablaskk_core::dictionary::Dictionary;
use nablaskk_core::entry::Entry;

const SYSTEM_DICT: &str = "\
;; okuri-ari entries.
つk /付/就/[く/付/就/]/
;; okuri-nasi entries.
かんじ /漢字/幹事/
だい# /第#0/第#1/第#3/
";

fn user_dict() -> LocalUserDictionary {
    LocalUserDictionary::new(Encoding::Utf8)
}

fn test_backend() -> Backend {
    let mut backend = Backend::new(user_dict());
    backend.add_dictionary(SystemDictionary::Common(CommonDictionary::from_text(SYSTEM_DICT)));
    backend
}

#[test]
fn register_and_find() {
    let mut dict = user_dict();

    dict.register(&Entry::from_entry("かんじ"), &Candidate::new("漢字"));
    dict.register(&Entry::from_entry("かんじ"), &Candidate::new("幹事"));

    let mut suite = CandidateSuite::new();
    dict.find(&Entry::from_entry("かんじ"), &mut suite);

    assert_eq!(suite.candidates()[0].word(), "幹事");
    assert_eq!(suite.candidates()[1].word(), "漢字");
}

#[test]
fn register_okuri_ari() {
    let mut dict = user_dict();

    let mut entry = Entry::from_entry("おく");
    entry.set_okuri("r", "り");

    dict.register(&entry, &Candidate::new("送"));

    let mut suite = CandidateSuite::new();
    dict.find(&entry, &mut suite);
    assert_eq!(suite.candidates()[0].word(), "送");
}

#[test]
fn remove() {
    let mut dict = user_dict();

    dict.register(&Entry::from_entry("かんじ"), &Candidate::new("漢字"));
    dict.remove(&Entry::from_entry("かんじ"), &Candidate::new("漢字"));

    let mut suite = CandidateSuite::new();
    dict.find(&Entry::from_entry("かんじ"), &mut suite);
    assert!(suite.is_empty());
}

#[test]
fn candidate_escaping() {
    let mut dict = user_dict();

    dict.register(&Entry::from_entry("すらっしゅ"), &Candidate::new("a/b"));

    let mut suite = CandidateSuite::new();
    dict.find(&Entry::from_entry("すらっしゅ"), &mut suite);
    assert_eq!(suite.candidates()[0].word(), "a/b");
}

#[test]
fn reload_from_saved_text() {
    let mut dict = user_dict();
    dict.register(&Entry::from_entry("かんじ"), &Candidate::new("漢字"));
    let text = dict.file().to_text();

    let reloaded = LocalUserDictionary::from_text(&text, Encoding::Utf8);
    let mut suite = CandidateSuite::new();
    reloaded.find(&Entry::from_entry("かんじ"), &mut suite);
    assert_eq!(suite.candidates()[0].word(), "漢字");
}

#[test]
fn private_mode_keeps_changes_unsaved() {
    let mut dict = user_dict();
    assert!(dict.set_private_mode(true));
    assert!(!dict.set_private_mode(true));
    dict.register(&Entry::from_entry("かんじ"), &Candidate::new("漢字"));
    let mut suite = CandidateSuite::new();
    dict.find(&Entry::from_entry("かんじ"), &mut suite);
    assert_eq!(suite.candidates()[0].word(), "漢字");
    assert!(!dict.save_due(true, 0));
    assert!(dict.set_private_mode(false));
    assert!(dict.save_due(true, 0));
}

#[test]
fn find_and_learn() {
    let mut backend = test_backend();
    let entry = Entry::from_entry("かんじ");
    let mut suite = CandidateSuite::new();

    assert!(backend.find(&entry, &mut suite));
    assert_eq!(suite.candidates()[0].word(), "漢字");

    backend.register(&entry, &Candidate::new("幹事"));

    assert!(backend.find(&entry, &mut suite));
    assert_eq!(suite.candidates()[0].word(), "幹事");
}

#[test]
fn numeric_conversion() {
    let mut backend = test_backend();
    backend.use_numeric_conversion(true);

    let entry = Entry::from_entry("だい12");
    let mut suite = CandidateSuite::new();

    assert!(backend.find(&entry, &mut suite));

    let variants: Vec<&str> = suite.candidates().iter().map(|c| c.variant()).collect();
    assert!(variants.contains(&"第12"));
    assert!(variants.contains(&"第１２"));
    assert!(variants.contains(&"第十二"));
}

#[test]
fn backend_completion() {
    let mut backend = test_backend();

    backend.register(&Entry::from_entry("かんり"), &Candidate::new("管理"));
    backend.register(&Entry::from_entry("かんとう"), &Candidate::new("関東"));

    let result = backend.complete("かん", 0);
    assert_eq!(result, vec!["かんとう", "かんり"]);

    backend.enable_extended_completion(true);
    let result = backend.complete("かん", 0);
    assert!(result.contains(&"かんじ".to_string()));
}

#[test]
fn ignore_dic_word() {
    let mut backend = Backend::new(user_dict());
    backend.add_dictionary(SystemDictionary::Common(CommonDictionary::from_text(
        ";; okuri-nasi entries.\nてすと /(skk-ignore-dic-word \"テスト\")/試験/\n",
    )));

    let mut suite = CandidateSuite::new();
    assert!(backend.find(&Entry::from_entry("てすと"), &mut suite));
    assert_eq!(suite.candidates().len(), 1);
    assert_eq!(suite.candidates()[0].word(), "試験");
}

#[test]
fn reverse_lookup_through_backend() {
    let backend = test_backend();
    assert_eq!(backend.reverse_lookup("幹事"), Some("かんじ".to_string()));
}

#[test]
fn find_unknown_entry_fails() {
    let mut backend = test_backend();
    let mut suite = CandidateSuite::new();
    assert!(!backend.find(&Entry::from_entry("みかん"), &mut suite));
    assert!(suite.is_empty());
}

use nablaskk_core::completer::Completer;

#[test]
fn completer_cycles_and_steps_back() {
    let mut backend = test_backend();
    backend.register(&Entry::from_entry("かんり"), &Candidate::new("管理"));
    backend.register(&Entry::from_entry("かんとう"), &Candidate::new("関東"));
    let mut completer = Completer::new();
    assert!(completer.execute(&backend, "かん", 0));
    assert_eq!(completer.current(), Some("かんとう"));
    completer.next();
    assert_eq!(completer.current(), Some("かんり"));
    completer.prev();
    assert_eq!(completer.current(), Some("かんとう"));
    completer.prev();
    assert_eq!(completer.current(), Some("かんり"));
    completer.next();
    assert_eq!(completer.current(), Some("かんとう"));
}

#[test]
fn remove_takes_the_word_out_of_the_entry() {
    let mut dict = user_dict();
    dict.register(&Entry::from_entry("かんじ"), &Candidate::new("漢字"));
    dict.register(&Entry::from_entry("かんじ"), &Candidate::new("幹事"));
    dict.remove(&Entry::from_entry("かんじ"), &Candidate::new("漢字"));
    let mut suite = CandidateSuite::new();
    dict.find(&Entry::from_entry("かんじ"), &mut suite);
    assert_eq!(suite.candidates().len(), 1);
    assert_eq!(suite.candidates()[0].word(), "幹事");
}
