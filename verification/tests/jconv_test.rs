use nablaskk_core::jconv::{
    ascii_to_jisx0208_latin, hirakana_to_jisx0201_kana, hirakana_to_katakana, hirakana_to_roman,
    jisx0201_kana_to_hirakana, jisx0201_kana_to_katakana, jisx0208_latin_to_ascii, katakana_to_hirakana,
    katakana_to_roman,
};

#[test]
fn kana_roundtrip() {
    assert_eq!(hirakana_to_katakana("がんばる"), "ガンバル");
    assert_eq!(katakana_to_hirakana("ガンバル"), "がんばる");
    assert_eq!(hirakana_to_jisx0201_kana("がんばる"), "ｶﾞﾝﾊﾞﾙ");
    assert_eq!(jisx0201_kana_to_hirakana("ｶﾞﾝﾊﾞﾙ"), "がんばる");
    assert_eq!(jisx0201_kana_to_katakana("ｶﾞﾝﾊﾞﾙ"), "ガンバル");
}

#[test]
fn kana_to_roman() {
    assert_eq!(hirakana_to_roman("か"), "ka");
    assert_eq!(hirakana_to_roman("っ"), "tt");
    assert_eq!(hirakana_to_roman("ん"), "nn");
    assert_eq!(katakana_to_roman("リ"), "ri");
}

#[test]
fn latin() {
    assert_eq!(ascii_to_jisx0208_latin("Abc 1!"), "Ａｂｃ　１！");
    assert_eq!(jisx0208_latin_to_ascii("Ａｂｃ　１！"), "Abc 1!");
}

#[test]
fn other_characters_pass_through() {
    assert_eq!(hirakana_to_katakana("漢字かな"), "漢字カナ");
    assert_eq!(ascii_to_jisx0208_latin("漢"), "漢");
}
