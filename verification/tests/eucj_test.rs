use nablaskk_core::jconv::{eucj_from_utf8, utf8_from_eucj, EucTable};

/// A few JIS X 0208 codes, enough for the texts below.
fn table() -> EucTable {
    let pairs: Vec<(u32, char)> = vec![
        (0xa4a2, 'あ'),
        (0xa4ab, 'か'),
        (0xa4ca, 'な'),
        (0xb0a1, '亜'),
        (0xb4c1, '漢'),
        (0xbad9, '細'),
        (0xbbfa, '字'),
    ];
    let to_ucs: Vec<(u32, u32)> = pairs.iter().map(|&(e, c)| (e, c as u32)).collect();
    let mut to_euc: Vec<(u32, u32)> = pairs.iter().map(|&(e, c)| (c as u32, e)).collect();
    to_euc.sort();
    EucTable::new(to_ucs, to_euc).unwrap()
}

#[test]
fn mod_eucj_roundtrip() {
    let table = table();
    let euc = eucj_from_utf8("漢字かなｶﾅ ASCII 亜細亜", &table);
    assert_eq!(utf8_from_eucj(&euc, &table), "漢字かなｶﾅ ASCII 亜細亜");
}

#[test]
fn eucj_known_bytes() {
    let table = table();
    assert_eq!(utf8_from_eucj(&[0xa4, 0xa2], &table), "あ");
    assert_eq!(eucj_from_utf8("あ", &table), vec![0xa4, 0xa2]);
    assert_eq!(utf8_from_eucj(&[0xb0, 0xa1], &table), "亜");
    assert_eq!(eucj_from_utf8("亜", &table), vec![0xb0, 0xa1]);
    assert_eq!(utf8_from_eucj(&[0x8e, 0xb1], &table), "ｱ");
    assert_eq!(eucj_from_utf8("ｱ", &table), vec![0x8e, 0xb1]);
}

#[test]
fn eucj_substitution() {
    let table = table();
    assert_eq!(utf8_from_eucj(&[0xff], &table), "〓");
    assert_eq!(eucj_from_utf8("\u{1F600}", &table), vec![0xa2, 0xae]);
}

#[test]
fn eucj_unknown_code_and_truncated_input() {
    let table = table();
    assert_eq!(utf8_from_eucj(&[0xa1, 0xa1], &table), "〓");
    assert_eq!(utf8_from_eucj(&[0xa4], &table), "〓");
    assert_eq!(utf8_from_eucj(&[0x8e, 0x41], &table), "〓A");
}

#[test]
fn eucj_second_plane_and_combining_pairs() {
    let to_ucs = vec![(0xa4f7, 0x304b_309a), (0x8fa1a1, 0x4e02)];
    let to_euc = vec![(0x4e02, 0x8fa1a1), (0x304b_309a, 0xa4f7)];
    let table = EucTable::new(to_ucs, to_euc).unwrap();
    assert_eq!(utf8_from_eucj(&[0x8f, 0xa1, 0xa1], &table), "\u{4e02}");
    assert_eq!(eucj_from_utf8("\u{4e02}", &table), vec![0x8f, 0xa1, 0xa1]);
    assert_eq!(utf8_from_eucj(&[0xa4, 0xf7], &table), "\u{304b}\u{309a}");
    assert_eq!(eucj_from_utf8("\u{304b}\u{309a}", &table), vec![0xa4, 0xf7]);
}

#[test]
fn eucj_table_must_be_sorted() {
    assert!(EucTable::new(vec![(2, 1), (1, 2)], vec![]).is_none());
    assert!(EucTable::new(vec![(1, 1), (1, 2)], vec![]).is_none());
    assert!(EucTable::new(vec![(1, 1), (2, 2)], vec![(1, 1)]).is_some());
}

use nablaskk_core::dictionary::file::Encoding;

#[test]
fn encoding_resolve_decode_encode() {
    let table = table();
    let utf8 = "かな".as_bytes();
    assert_eq!(Encoding::Auto.resolve(utf8), Encoding::Utf8);
    assert_eq!(Encoding::Auto.decode(utf8, &table), "かな");

    let euc = [0xa4, 0xab, 0xa4, 0xca];
    assert_eq!(Encoding::Auto.resolve(&euc), Encoding::EucJp);
    assert_eq!(Encoding::Auto.decode(&euc, &table), "かな");
    assert_eq!(Encoding::Utf8.decode(&euc, &table), "\u{fffd}\u{fffd}\u{fffd}\u{fffd}");

    assert_eq!(Encoding::EucJp.encode("かな", &table), euc.to_vec());
    assert_eq!(Encoding::Utf8.encode("かな", &table), utf8.to_vec());
    assert_eq!(Encoding::Auto.encode("かな", &table), utf8.to_vec());
}

#[test]
fn euc_round_trip_over_pairs_and_second_plane() {
    let to_ucs = vec![(0xa4ab, 0x304b), (0xa4f7, 0x304b_309a), (0x8fa1a1, 0x4e02)];
    let to_euc = vec![(0x304b, 0xa4ab), (0x4e02, 0x8fa1a1), (0x304b_309a, 0xa4f7)];
    let table = EucTable::new(to_ucs, to_euc).unwrap();
    let text = "\u{304b}\u{309a}x\u{4e02}\u{304b}ｶ";
    assert_eq!(utf8_from_eucj(&eucj_from_utf8(text, &table), &table), text);
}

#[test]
fn coding_cookie_decides_before_content() {
    let euc_marked = b";; -*- coding: euc-jp -*-\nabc /x/\n";
    assert_eq!(Encoding::Auto.resolve(euc_marked), Encoding::EucJp);
    let utf_marked = b";; -*- mode: fundamental; coding:  UTF-8 -*-\n\xa4\xa2 /x/\n";
    assert_eq!(Encoding::Auto.resolve(utf_marked), Encoding::Utf8);
    let cookie_on_second_line = b";; plain\n;; coding: euc-jp\n";
    assert_eq!(Encoding::Auto.resolve(cookie_on_second_line), Encoding::Utf8);
    let unknown_name = b";; coding: latin-1\n\xa4\xa2\n";
    assert_eq!(Encoding::Auto.resolve(unknown_name), Encoding::EucJp);
}

#[test]
fn table_inverse_check() {
    assert!(table().is_inverse());
    let broken = EucTable::new(vec![(0xa4a2, 0x3042)], vec![(0x3042, 0xa4a4)]).unwrap();
    assert!(!broken.is_inverse());
    let bad_code = EucTable::new(vec![(0x41, 0x3042)], vec![(0x3042, 0x41)]).unwrap();
    assert!(!bad_code.is_inverse());
}
