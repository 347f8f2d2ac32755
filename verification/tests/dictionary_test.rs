use nablaskk_core::dictionary::factory::DictionaryType;
use nablaskk_core::backend::{Backend, SystemDictionary};
use nablaskk_core::dictionary::file::Encoding;
use nablaskk_core::dictionary::user::LocalUserDictionary;
use nablaskk_core::candidate::CandidateSuite;
use nablaskk_core::dictionary::common::CommonDictionary;
use nablaskk_core::dictionary::file::DictionaryFile;
use nablaskk_core::dictionary::{CompletionHelper, Dictionary};
use nablaskk_core::entry::Entry;

const SAMPLE: &str = "\
;; okuri-ari entries.
つk /付/就/着/[く/付/就/着/]/[け/付/]/
;; okuri-nasi entries.
かんじ /漢字/幹事/
かんとう /関東/巻頭/
かんり /管理/
";

const FILE_SAMPLE: &str = "\
;; -*- mode: fundamental; coding: utf-8 -*-
;; okuri-ari entries.
おくr /送/贈/[り/送/]/
;; okuri-nasi entries.
かんじ /漢字/幹事/
きかん /期間/機関/
";

#[test]
fn find_okuri_nasi() {
    let dict = CommonDictionary::from_text(SAMPLE);
    let mut suite = CandidateSuite::new();

    dict.find(&Entry::from_entry("かんじ"), &mut suite);
    assert_eq!(suite.candidates().len(), 2);
    assert_eq!(suite.candidates()[0].word(), "漢字");

    let mut suite = CandidateSuite::new();
    dict.find(&Entry::from_entry("そんざいしない"), &mut suite);
    assert!(suite.is_empty());
}

#[test]
fn find_okuri_ari_strict() {
    let dict = CommonDictionary::from_text(SAMPLE);

    let mut entry = Entry::from_entry("つ");
    entry.set_okuri("k", "け");

    let mut suite = CandidateSuite::new();
    dict.find(&entry, &mut suite);

    assert_eq!(suite.candidates()[0].word(), "付");
    assert_eq!(suite.candidates().len(), 1);
}

#[test]
fn find_okuri_ari_without_hint_keeps_all() {
    let dict = CommonDictionary::from_text(SAMPLE);
    let mut entry = Entry::from_entry("つ");
    entry.set_okuri("k", "か");
    let mut suite = CandidateSuite::new();
    dict.find(&entry, &mut suite);
    assert_eq!(suite.candidates().len(), 3);
    assert_eq!(suite.candidates()[2].word(), "着");
}

#[test]
fn reverse() {
    let dict = CommonDictionary::from_text(SAMPLE);
    assert_eq!(dict.reverse_lookup("幹事"), Some("かんじ".to_string()));
    assert_eq!(dict.reverse_lookup("ない"), None);
}

#[test]
fn complete() {
    let dict = CommonDictionary::from_text(SAMPLE);

    let mut helper = CompletionHelper::new("かん", 0, 0);
    dict.complete(&mut helper);
    assert_eq!(helper.into_result(), vec!["かんじ", "かんとう", "かんり"]);

    let mut helper = CompletionHelper::new("かん", 0, 2);
    dict.complete(&mut helper);
    assert_eq!(helper.into_result().len(), 2);
}

#[test]
fn complete_respects_minimum_length() {
    let dict = CommonDictionary::from_text(SAMPLE);
    let mut helper = CompletionHelper::new("か", 3, 0);
    dict.complete(&mut helper);
    assert_eq!(helper.into_result(), vec!["かんとう"]);
}

#[test]
fn load_sections() {
    let mut file = DictionaryFile::new();
    file.load_from_str(FILE_SAMPLE);

    assert_eq!(file.okuri_ari().len(), 1);
    assert_eq!(file.okuri_ari()[0].0, "おくr");
    assert_eq!(file.okuri_nasi().len(), 2);
    assert_eq!(
        file.okuri_nasi()[0],
        ("かんじ".to_string(), "/漢字/幹事/".to_string())
    );
}

#[test]
fn file_text_reloads_to_same_entries() {
    let mut file = DictionaryFile::new();
    file.load_from_str(FILE_SAMPLE);
    let text = file.to_text();
    let mut reloaded = DictionaryFile::new();
    reloaded.load_from_str(&text);
    assert_eq!(reloaded.okuri_ari(), file.okuri_ari());
    assert_eq!(reloaded.okuri_nasi(), file.okuri_nasi());
}

use nablaskk_core::dictionary::auto_update::http_date;
use nablaskk_core::dictionary::gadget::{GadgetDictionary, LocalTime};

fn gadget_find(dictionary: &GadgetDictionary, key: &str) -> Vec<String> {
    let mut suite = CandidateSuite::new();
    dictionary.find(&Entry::from_entry(key), &mut suite);
    suite.candidates().iter().map(|c| c.word().to_string()).collect()
}

fn find(key: &str) -> Vec<String> {
    gadget_find(&GadgetDictionary::new(), key)
}

#[test]
fn today_and_now() {
    let words = find("today");
    assert_eq!(words.len(), 2);
    assert!(words[0].contains('/'));
    assert!(words[1].contains("年"));

    let words = find("now");
    assert_eq!(words.len(), 2);
    assert!(words[0].contains(':'));
}

#[test]
fn today_and_now_with_given_time() {
    let time = LocalTime { year: 2024, month: 3, day: 9, hour: 7, minute: 5, second: 4, weekday: 6 };
    let dictionary = GadgetDictionary::with_time(time);
    let today = gadget_find(&dictionary, "today");
    assert_eq!(today, vec!["2024/03/09(Sat)", "2024 年 03 月 09 日(土)"]);
    let now = gadget_find(&dictionary, "now");
    assert_eq!(now, vec!["07:05:04", "07 時 05 分 04 秒"]);
}

#[test]
fn japanese_era() {
    assert_eq!(find("jdate:2020"), vec!["令和2年"]);
    assert_eq!(find("jdate:2019"), vec!["令和元年", "平成31年"]);
    assert_eq!(find("jdate:1989"), vec!["平成元年", "昭和64年"]);
    assert_eq!(find("jdate:1970"), vec!["昭和45年"]);
}

#[test]
fn gadget_candidates_avoid_study() {
    let dictionary = GadgetDictionary::new();
    let mut suite = CandidateSuite::new();
    dictionary.find(&Entry::from_entry("jdate:2020"), &mut suite);
    assert!(suite.candidates()[0].avoid_study());
}

#[test]
fn gadget_unknown_key_gives_nothing() {
    assert!(find("unknown").is_empty());
}

#[test]
fn gadget_completion() {
    let dictionary = GadgetDictionary::new();
    let mut helper = CompletionHelper::new("to", 0, 0);
    dictionary.complete(&mut helper);
    assert_eq!(helper.into_result(), vec!["today"]);
}

#[test]
fn http_date_format() {
    assert_eq!(http_date(784_111_777), "Sun, 06 Nov 1994 08:49:37 GMT");
    assert_eq!(http_date(0), "Thu, 01 Jan 1970 00:00:00 GMT");
}

#[test]
fn http_date_before_epoch() {
    assert_eq!(http_date(-1), "Wed, 31 Dec 1969 23:59:59 GMT");
}

use nablaskk_core::dictionary::auto_update::AutoUpdateDictionary;

#[test]
fn auto_update_location() {
    let dict = AutoUpdateDictionary::open("openlab.jp /skk/dict/SKK-JISYO.L /tmp/SKK-JISYO.L").unwrap();
    assert_eq!(dict.host(), "openlab.jp:80");
    assert_eq!(dict.url(), "/skk/dict/SKK-JISYO.L");
    assert_eq!(dict.path(), "/tmp/SKK-JISYO.L");

    let dict = AutoUpdateDictionary::open("example.org:8080 /a.dic /tmp/my dict").unwrap();
    assert_eq!(dict.host(), "example.org:8080");
    assert_eq!(dict.path(), "/tmp/my dict");

    assert!(AutoUpdateDictionary::open("openlab.jp /skk/dict/SKK-JISYO.L").is_none());
    assert!(AutoUpdateDictionary::open("openlab.jp /skk/dict/SKK-JISYO.L ").is_none());
    assert!(AutoUpdateDictionary::open("openlab.jp").is_none());
}

#[test]
fn auto_update_request() {
    let dict = AutoUpdateDictionary::open("example.org:8080 /a.dic /tmp/a.dic").unwrap();
    assert_eq!(
        dict.request(784_111_777),
        "GET /a.dic HTTP/1.1\r\nHost: example.org\r\nIf-Modified-Since: Sun, 06 Nov 1994 08:49:37 GMT\r\nConnection: close\r\n\r\n"
    );
}

#[test]
fn auto_update_reply_header() {
    assert!(AutoUpdateDictionary::status_ok("HTTP/1.1 200 OK\r\n"));
    assert!(!AutoUpdateDictionary::status_ok("HTTP/1.1 304 Not Modified\r\n"));
    assert!(!AutoUpdateDictionary::status_ok("HTTP/1.1"));

    assert_eq!(AutoUpdateDictionary::header_step("Content-Length: 42\r\n", 0), Some(42));
    assert_eq!(AutoUpdateDictionary::header_step("content-LENGTH:7", 3), Some(7));
    assert_eq!(AutoUpdateDictionary::header_step("Content-Length: many\r\n", 5), Some(0));
    assert_eq!(AutoUpdateDictionary::header_step("Connection: close\r\n", 5), Some(5));
    assert_eq!(AutoUpdateDictionary::header_step("\r\n", 5), None);
}

#[test]
fn auto_update_lookup_in_local_copy() {
    let mut dict = AutoUpdateDictionary::open("openlab.jp /SKK-JISYO.S /tmp/SKK-JISYO.S").unwrap();
    let mut suite = CandidateSuite::new();
    dict.find(&Entry::from_entry("かんじ"), &mut suite);
    assert!(suite.is_empty());

    dict.set_dictionary(CommonDictionary::from_text(SAMPLE));
    dict.find(&Entry::from_entry("かんじ"), &mut suite);
    assert_eq!(suite.candidates()[0].word(), "漢字");
    assert_eq!(dict.reverse_lookup("関東"), Some("かんとう".to_string()));
}

#[test]
fn avoid_study() {
    let mut dictionary = GadgetDictionary::new();
    dictionary.set_calculation("=1+1", "2");
    let mut suite = CandidateSuite::new();
    dictionary.find(&Entry::from_entry("=1+1"), &mut suite);
    assert_eq!(suite.candidates()[0].word(), "2");
    assert!(suite.candidates()[0].avoid_study());
}

#[test]
fn recorded_calculation_answers_only_its_reading() {
    let mut dictionary = GadgetDictionary::new();
    dictionary.set_calculation("=(3+2)*5", "25");
    assert_eq!(gadget_find(&dictionary, "=(3+2)*5"), vec!["25"]);
    assert!(gadget_find(&dictionary, "=1+2").is_empty());
    assert!(find("=1+2").is_empty());
}

#[test]
fn backend_passes_calculation_to_gadgets() {
    let mut backend = Backend::new(LocalUserDictionary::new(Encoding::Utf8));
    backend.add_dictionary(SystemDictionary::Gadget(GadgetDictionary::new()));
    backend.set_calculation("=9.6/2", "4.8");
    let mut suite = CandidateSuite::new();
    assert!(backend.find(&Entry::from_entry("=9.6/2"), &mut suite));
    assert_eq!(suite.candidates()[0].word(), "4.8");
}

#[test]
fn file_encoding_by_kind() {
    assert_eq!(DictionaryType::Common.file_encoding(), Some(Encoding::Auto));
    assert_eq!(DictionaryType::CommonUtf8.file_encoding(), Some(Encoding::Utf8));
    assert_eq!(DictionaryType::Gadget.file_encoding(), None);
}
