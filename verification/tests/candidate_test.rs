use nablaskk_core::candidate::{parse_candidates, Candidate, CandidateSuite};

#[test]
fn candidate_parse() {
    let c = Candidate::new("候補;注釈");
    assert_eq!(c.word(), "候補");
    assert_eq!(c.annotation(), "注釈");
    assert_eq!(c.to_string(), "候補;注釈");

    let c = Candidate::from_word("候補;注釈");
    assert_eq!(c.word(), "候補;注釈");
}

#[test]
fn candidate_encode() {
    assert_eq!(Candidate::encode("a/b;c[d"), "a[2f]b[3b]c[5b]d");
    assert_eq!(Candidate::decode("a[2f]b[3b]c[5b]d"), "a/b;c[d");
}

#[test]
fn parser() {
    let (candidates, hints) = parse_candidates("/尽/[く/尽/]/[くす/尽/]/");
    assert_eq!(candidates.len(), 1);
    assert_eq!(candidates[0].word(), "尽");
    assert_eq!(hints.len(), 2);
    assert_eq!(hints[0].okuri, "く");
    assert_eq!(hints[0].candidates[0].word(), "尽");
    assert_eq!(hints[1].okuri, "くす");
}

#[test]
fn parser_annotations() {
    let (candidates, _) = parse_candidates("/川;river/河;annotation/");
    assert_eq!(candidates.len(), 2);
    assert_eq!(candidates[0].annotation(), "river");
}

#[test]
fn suite_roundtrip() {
    let line = "/尽/[く/尽/]/";
    let suite = CandidateSuite::from_line(line);
    assert_eq!(suite.to_line(false), line);
}

#[test]
fn suite_update_and_remove() {
    let mut suite = CandidateSuite::from_line("/一/二/三/");

    suite.update_candidate(&Candidate::new("二"));
    assert_eq!(suite.to_line(false), "/二/一/三/");

    suite.remove_candidate(&Candidate::new("一"));
    assert_eq!(suite.to_line(false), "/二/三/");

    suite.add_candidate(&Candidate::new("三"));
    assert_eq!(suite.to_line(false), "/二/三/");
}

#[test]
fn suite_okuri_strict() {
    let suite = CandidateSuite::from_line("/尽/付/[く/尽/]/");

    let strict = suite.find_okuri_strictly("く").unwrap();
    assert_eq!(strict.candidates().len(), 1);
    assert_eq!(strict.candidates()[0].word(), "尽");

    assert!(suite.find_okuri_strictly("す").is_none());
}

#[test]
fn remove_if_prunes_hints() {
    let mut suite = CandidateSuite::from_line("/尽/付/[く/尽/]/[け/付/]/");
    suite.remove_if(|c: &Candidate| c.word() == "尽");
    assert_eq!(suite.to_line(false), "/付/[け/付/]/");
}

#[test]
fn variant_shown_and_study_flag() {
    let mut c = Candidate::new("第#1回");
    c.set_variant("第１回");
    assert_eq!(c.variant(), "第１回");
    assert_eq!(c.word(), "第#1回");
    assert!(!c.avoid_study());
    c.set_avoid_study();
    assert!(c.avoid_study());
}

#[test]
fn update_is_idempotent() {
    let mut suite = CandidateSuite::from_line("/一/二/三/");
    suite.update_candidate(&Candidate::new("三"));
    let once = suite.to_line(false);
    suite.update_candidate(&Candidate::new("三"));
    assert_eq!(suite.to_line(false), once);
    assert_eq!(once, "/三/一/二/");
}

#[test]
fn parse_drops_hint_without_candidates() {
    let (candidates, hints) = parse_candidates("/a;note/[x/]/[y/b/]/");
    assert_eq!(candidates.len(), 1);
    assert_eq!(candidates[0].word(), "a");
    assert_eq!(candidates[0].annotation(), "note");
    assert_eq!(hints.len(), 1);
    assert_eq!(hints[0].okuri, "y");
    assert_eq!(hints[0].candidates[0].word(), "b");
}

#[test]
fn parse_drops_text_after_last_slash() {
    let (candidates, _) = parse_candidates("/a/b");
    assert_eq!(candidates.len(), 1);
    assert_eq!(candidates[0].word(), "a");
    let (_, hints) = parse_candidates("/x/[く/]/");
    assert!(hints.is_empty());
}
