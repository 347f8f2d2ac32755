use nablaskk_core::input_mode::InputMode;
use nablaskk_core::jconv::{hirakana_to_jisx0201_kana, hirakana_to_katakana};
use nablaskk_core::trie::RomanKanaConverter;

fn rule_line(roman: &str, hirakana: &str, next: &str) -> String {
    let roman = roman.replace(',', "&comma;");
    let mut line = format!(
        "{},{},{},{}",
        roman,
        hirakana,
        hirakana_to_katakana(hirakana),
        hirakana_to_jisx0201_kana(hirakana)
    );
    if !next.is_empty() {
        line.push(',');
        line.push_str(next);
    }
    line.push('\n');
    line
}

/// A kana rule table in the kana-rule.conf format, built from a few
/// row tables.
fn kana_rules() -> String {
    let mut text = String::from("# roman,hirakana,katakana,jisx0201kana[,next]\n");
    let rows: &[(&str, [&str; 5])] = &[
        ("", ["あ", "い", "う", "え", "お"]),
        ("k", ["か", "き", "く", "け", "こ"]),
        ("g", ["が", "ぎ", "ぐ", "げ", "ご"]),
        ("s", ["さ", "し", "す", "せ", "そ"]),
        ("z", ["ざ", "じ", "ず", "ぜ", "ぞ"]),
        ("t", ["た", "ち", "つ", "て", "と"]),
        ("d", ["だ", "ぢ", "づ", "で", "ど"]),
        ("n", ["な", "に", "ぬ", "ね", "の"]),
        ("h", ["は", "ひ", "ふ", "へ", "ほ"]),
        ("b", ["ば", "び", "ぶ", "べ", "ぼ"]),
        ("p", ["ぱ", "ぴ", "ぷ", "ぺ", "ぽ"]),
        ("m", ["ま", "み", "む", "め", "も"]),
        ("r", ["ら", "り", "る", "れ", "ろ"]),
        ("x", ["ぁ", "ぃ", "ぅ", "ぇ", "ぉ"]),
        ("f", ["ふぁ", "ふぃ", "ふ", "ふぇ", "ふぉ"]),
        ("sh", ["しゃ", "し", "しゅ", "しぇ", "しょ"]),
        ("ch", ["ちゃ", "ち", "ちゅ", "ちぇ", "ちょ"]),
        ("j", ["じゃ", "じ", "じゅ", "じぇ", "じょ"]),
    ];
    let vowels = ["a", "i", "u", "e", "o"];
    for (consonant, kana) in rows {
        for (v, k) in vowels.iter().zip(kana.iter()) {
            text.push_str(&rule_line(&format!("{}{}", consonant, v), k, ""));
        }
    }
    let youon: &[(&str, &str)] = &[
        ("ky", "き"), ("gy", "ぎ"), ("sy", "し"), ("zy", "じ"), ("ty", "ち"), ("dy", "ぢ"),
        ("ny", "に"), ("hy", "ひ"), ("by", "び"), ("py", "ぴ"), ("my", "み"), ("ry", "り"),
    ];
    for (prefix, base) in youon {
        text.push_str(&rule_line(&format!("{}a", prefix), &format!("{}ゃ", base), ""));
        text.push_str(&rule_line(&format!("{}u", prefix), &format!("{}ゅ", base), ""));
        text.push_str(&rule_line(&format!("{}o", prefix), &format!("{}ょ", base), ""));
    }
    for (roman, kana) in [
        ("ya", "や"), ("yu", "ゆ"), ("yo", "よ"), ("wa", "わ"), ("wo", "を"),
        ("tsu", "つ"), ("xtu", "っ"), ("nn", "ん"), ("n'", "ん"), ("n", "ん"),
        (",", "、"), (".", "。"), ("-", "ー"),
    ] {
        text.push_str(&rule_line(roman, kana, ""));
    }
    for c in "bcdfghjkmprstwyz".chars() {
        text.push_str(&rule_line(&format!("{}{}", c, c), "っ", &c.to_string()));
    }
    text
}

fn converter() -> RomanKanaConverter {
    let mut conv = RomanKanaConverter::new();
    conv.load(&kana_rules());
    conv
}

#[test]
fn simple() {
    let conv = converter();

    let (result, converted) = conv.convert(InputMode::Hirakana, "a");
    assert!(converted);
    assert_eq!(result.output, "あ");
    assert_eq!(result.next, "");

    let (result, converted) = conv.convert(InputMode::Hirakana, "gya");
    assert!(converted);
    assert_eq!(result.output, "ぎゃ");
}

#[test]
fn intermediate_and_short() {
    let conv = converter();

    let (result, converted) = conv.convert(InputMode::Hirakana, "k");
    assert!(!converted);
    assert_eq!(result.output, "");
    assert_eq!(result.next, "k");

    let (result, _) = conv.convert(InputMode::Hirakana, "n");
    assert_eq!(result.intermediate, "ん");
    assert_eq!(result.next, "n");
}

#[test]
fn partial_match() {
    let conv = converter();

    let (result, converted) = conv.convert(InputMode::Hirakana, "nk");
    assert!(!converted);
    assert_eq!(result.output, "ん");
    assert_eq!(result.next, "k");
}

#[test]
fn sokuon_next_state() {
    let conv = converter();

    let (result, converted) = conv.convert(InputMode::Hirakana, "tt");
    assert!(converted);
    assert_eq!(result.output, "っ");
    assert_eq!(result.next, "t");
}

#[test]
fn katakana_and_jisx0201() {
    let conv = converter();

    let (result, _) = conv.convert(InputMode::Katakana, "a");
    assert_eq!(result.output, "ア");

    let (result, _) = conv.convert(InputMode::Jisx0201Kana, "ga");
    assert_eq!(result.output, "ｶﾞ");
}

#[test]
fn patch_overrides_rule() {
    let mut conv = converter();
    let (before, _) = conv.convert(InputMode::Hirakana, ",");
    assert_eq!(before.output, "、");

    conv.load("&comma;,，,，,&comma;\n.,．,．,.\n");
    let (comma, _) = conv.convert(InputMode::Hirakana, ",");
    let (period, _) = conv.convert(InputMode::Hirakana, ".");
    assert_eq!(comma.output, "，");
    assert_eq!(period.output, "．");
    let (kana, _) = conv.convert(InputMode::Hirakana, "ka");
    assert_eq!(kana.output, "か");
}

#[test]
fn passthrough() {
    let conv = converter();

    let (result, converted) = conv.convert(InputMode::Hirakana, "q1");
    assert!(!converted);
    assert!(result.output.contains('1') || !result.output.is_empty());
}

#[test]
fn several_rules_in_one_pass() {
    let conv = converter();
    let (result, converted) = conv.convert(InputMode::Hirakana, "kanji");
    assert!(converted);
    assert_eq!(result.output, "かんじ");
    assert_eq!(result.next, "");
}

#[test]
fn empty_converter_passes_everything_through() {
    let conv = RomanKanaConverter::new();
    let (result, converted) = conv.convert(InputMode::Hirakana, "ab");
    assert!(!converted);
    assert_eq!(result.output, "ab");
}
