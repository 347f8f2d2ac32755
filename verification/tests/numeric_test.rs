use nablaskk_core::candidate::Candidate;
use nablaskk_core::numeric::{
    convert_type1, convert_type2, convert_type3, convert_type5, convert_type9, NumericConverter,
};

#[test]
fn setup() {
    let mut conv = NumericConverter::new();
    assert!(conv.setup("だい12かい"));
    assert_eq!(conv.normalized_key(), "だい#かい");
    assert_eq!(conv.original_key(), "だい12かい");

    assert!(!conv.setup("かんじ"));
    assert_eq!(conv.normalized_key(), "かんじ");
}

#[test]
fn conversions() {
    assert_eq!(convert_type1("1024"), "１０２４");
    assert_eq!(convert_type2("1024"), "一〇二四");
    assert_eq!(convert_type3("1024"), "千二十四");
    assert_eq!(convert_type3("0"), "〇");
    assert_eq!(convert_type3("10000"), "一万");
    assert_eq!(convert_type3("100000000"), "一億");
    assert_eq!(convert_type3("10000000"), "一千万");
    assert_eq!(convert_type3("111"), "百十一");
    assert_eq!(convert_type5("1024"), "壱阡弐拾四");
    assert_eq!(convert_type5("0"), "零");
    assert_eq!(convert_type9("34"), "３四");
}

#[test]
fn apply() {
    let mut conv = NumericConverter::new();
    conv.setup("だい12かい");

    let mut candidate = Candidate::new("第#1回");
    conv.apply(&mut candidate);
    assert_eq!(candidate.variant(), "第１２回");
    assert_eq!(candidate.word(), "第#1回");

    let mut candidate = Candidate::new("第#3回");
    conv.apply(&mut candidate);
    assert_eq!(candidate.variant(), "第十二回");
}

#[test]
fn two_numbers_in_order() {
    let mut conv = NumericConverter::new();
    assert!(conv.setup("12がつ3にち"));
    assert_eq!(conv.normalized_key(), "#がつ#にち");
    let mut candidate = Candidate::new("#1月#0日");
    conv.apply(&mut candidate);
    assert_eq!(candidate.variant(), "１２月3日");
}

#[test]
fn positional_limit_is_checked() {
    let mut conv = NumericConverter::new();
    assert!(conv.setup("1000000000000000000000000"));
    assert!(!conv.can_apply(&Candidate::new("#3")));
    assert!(conv.can_apply(&Candidate::new("#1")));
    assert!(conv.can_apply(&Candidate::new("#3#3")) == false);
}

#[test]
fn setup_splits_each_digit_run() {
    let mut conv = NumericConverter::new();
    assert!(conv.setup("a1b22c333"));
    assert_eq!(conv.normalized_key(), "a#b#c#");
    assert_eq!(conv.original_key(), "a1b22c333");
}

#[test]
fn word_without_placeholder_keeps_its_text() {
    let mut conv = NumericConverter::new();
    conv.setup("だい12かい");
    let mut candidate = Candidate::new("第一回");
    conv.apply(&mut candidate);
    assert_eq!(candidate.variant(), "第一回");
    assert_eq!(candidate.word(), "第一回");
}

#[test]
fn setup_without_digits_keeps_key() {
    let mut conv = NumericConverter::new();
    assert!(!conv.setup("かな#"));
    assert_eq!(conv.normalized_key(), "かな#");
    assert!(conv.setup("1a23"));
    assert_eq!(conv.normalized_key(), "#a#");
}
