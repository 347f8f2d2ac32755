use nablaskk_core::backend::{Backend, SystemDictionary};
use nablaskk_core::bridge::{BufferedFrontEnd, NullWidgets};
use nablaskk_core::config::Config;
use nablaskk_core::dictionary::common::CommonDictionary;
use nablaskk_core::dictionary::file::Encoding;
use nablaskk_core::dictionary::user::LocalUserDictionary;
use nablaskk_core::event::modifier::CTRL;
use nablaskk_core::event::Event;
use nablaskk_core::input_mode::InputMode;
use nablaskk_core::jconv::{hirakana_to_jisx0201_kana, hirakana_to_katakana};
use nablaskk_core::keymap::Keymap;
use nablaskk_core::session::{Session, SessionParameter};
use nablaskk_core::trie::RomanKanaConverter;

const SYSTEM_DICT: &str = "\
;; okuri-ari entries.
おくr /送/贈/[り/送/]/
つk /付/就/着/[く/付/]/[け/付/]/
;; okuri-nasi entries.
かんじ /漢字/幹事/
かんとう /関東/
すう /一/二/三/四/五/六/七/八/九/十/
";

const KEYMAP_CONF: &str = "\
# event mapping
SKK_JMODE\t\tctrl::j
SKK_ENTER\t\tgroup::hex::0x03,0x0a,0x0d||ctrl::m
SKK_CANCEL\t\tctrl::g||hex::0x1b
SKK_BACKSPACE\t\thex::0x08||ctrl::h
SKK_DELETE\t\thex::0x7f||ctrl::d
SKK_TAB\t\t\thex::0x09||ctrl::i
SKK_PASTE\t\tmeta::v
SKK_LEFT\t\thex::0x1c||ctrl::b
SKK_RIGHT\t\thex::0x1d||ctrl::f
SKK_UP\t\t\thex::0x1e||ctrl::a
SKK_DOWN\t\thex::0x1f||ctrl::e
SKK_PING\t\tctrl::l

# attribute mapping
ToggleKana\t\tq
ToggleJisx0201Kana\tctrl::q
SwitchToAscii\t\tl
SwitchToJisx0208Latin\tL
EnterAbbrev\t\t/
EnterJapanese\t\tQ
NextCompletion\t\t.
PrevCompletion\t\t,
NextCandidate\t\thex::0x20||ctrl::n
PrevCandidate\t\tx||ctrl::p||shift::hex::0x20
RemoveTrigger\t\tX
UpperCases\t\tgroup::A-K,M-P,R-Z
Direct\t\t\tgroup::keycode::0x41,0x43,0x45,0x4b,0x4e,0x51-0x59,0x5b,0x5c,0x5f
InputChars\t\tgroup::hex::0x20-0x7e
CompConversion\t\talt::hex::0x20||shift::hex::0x20
";

fn rule_line(roman: &str, hirakana: &str, next: &str) -> String {
    let roman = roman.replace(',', "&comma;");
    let mut line = format!(
        "{},{},{},{}",
        roman,
        hirakana,
        hirakana_to_katakana(hirakana),
        hirakana_to_jisx0201_kana(hirakana)
    );
    if !next.is_empty() {
        line.push(',');
        line.push_str(next);
    }
    line.push('\n');
    line
}

/// A kana rule table in the kana-rule.conf format, built from a few
/// row tables.
fn kana_rules() -> String {
    let mut text = String::from("# roman,hirakana,katakana,jisx0201kana[,next]\n");
    let rows: &[(&str, [&str; 5])] = &[
        ("", ["あ", "い", "う", "え", "お"]),
        ("k", ["か", "き", "く", "け", "こ"]),
        ("g", ["が", "ぎ", "ぐ", "げ", "ご"]),
        ("s", ["さ", "し", "す", "せ", "そ"]),
        ("z", ["ざ", "じ", "ず", "ぜ", "ぞ"]),
        ("t", ["た", "ち", "つ", "て", "と"]),
        ("d", ["だ", "ぢ", "づ", "で", "ど"]),
        ("n", ["な", "に", "ぬ", "ね", "の"]),
        ("h", ["は", "ひ", "ふ", "へ", "ほ"]),
        ("b", ["ば", "び", "ぶ", "べ", "ぼ"]),
        ("p", ["ぱ", "ぴ", "ぷ", "ぺ", "ぽ"]),
        ("m", ["ま", "み", "む", "め", "も"]),
        ("r", ["ら", "り", "る", "れ", "ろ"]),
        ("x", ["ぁ", "ぃ", "ぅ", "ぇ", "ぉ"]),
        ("f", ["ふぁ", "ふぃ", "ふ", "ふぇ", "ふぉ"]),
        ("sh", ["しゃ", "し", "しゅ", "しぇ", "しょ"]),
        ("ch", ["ちゃ", "ち", "ちゅ", "ちぇ", "ちょ"]),
        ("j", ["じゃ", "じ", "じゅ", "じぇ", "じょ"]),
    ];
    let vowels = ["a", "i", "u", "e", "o"];
    for (consonant, kana) in rows {
        for (v, k) in vowels.iter().zip(kana.iter()) {
            text.push_str(&rule_line(&format!("{}{}", consonant, v), k, ""));
        }
    }
    let youon: &[(&str, &str)] = &[
        ("ky", "き"), ("gy", "ぎ"), ("sy", "し"), ("zy", "じ"), ("ty", "ち"), ("dy", "ぢ"),
        ("ny", "に"), ("hy", "ひ"), ("by", "び"), ("py", "ぴ"), ("my", "み"), ("ry", "り"),
    ];
    for (prefix, base) in youon {
        text.push_str(&rule_line(&format!("{}a", prefix), &format!("{}ゃ", base), ""));
        text.push_str(&rule_line(&format!("{}u", prefix), &format!("{}ゅ", base), ""));
        text.push_str(&rule_line(&format!("{}o", prefix), &format!("{}ょ", base), ""));
    }
    for (roman, kana) in [
        ("ya", "や"), ("yu", "ゆ"), ("yo", "よ"), ("wa", "わ"), ("wo", "を"),
        ("tsu", "つ"), ("xtu", "っ"), ("nn", "ん"), ("n'", "ん"), ("n", "ん"),
        (",", "、"), (".", "。"), ("-", "ー"),
    ] {
        text.push_str(&rule_line(roman, kana, ""));
    }
    for c in "bcdfghjkmprstwyz".chars() {
        text.push_str(&rule_line(&format!("{}{}", c, c), "っ", &c.to_string()));
    }
    text
}


type TestSession =
    Session<BufferedFrontEnd, NullWidgets, NullWidgets, NullWidgets, NullWidgets, NullWidgets>;

struct Harness {
    session: TestSession,
    keymap: Keymap,
}

impl Harness {
    fn new() -> Self {
        Self::with_config(Config::default())
    }

    fn with_config(config: Config) -> Self {
        let mut backend = Backend::new(LocalUserDictionary::new(Encoding::Utf8));
        backend.add_dictionary(SystemDictionary::Common(CommonDictionary::from_text(SYSTEM_DICT)));

        let mut converter = RomanKanaConverter::new();
        converter.load(&kana_rules());

        let mut keymap = Keymap::new();
        keymap.load(KEYMAP_CONF);

        let session = Session::new(SessionParameter {
            backend,
            converter,
            config,
            frontend: BufferedFrontEnd::default(),
            window: NullWidgets,
            messenger: NullWidgets,
            clipboard: NullWidgets,
            annotator: NullWidgets,
            completor: NullWidgets,
        });

        Self { session, keymap }
    }

    fn event(&self, c: u8, mods: u32) -> Event {
        self.keymap.fetch(c, 0, mods)
    }

    fn type_str(&mut self, text: &str) {
        for c in text.bytes() {
            let event = self.event(c, 0);
            self.session.handle_event(&event);
        }
    }

    fn press_ctrl(&mut self, c: u8) -> bool {
        let event = self.keymap.fetch(c, 0, CTRL);
        self.session.handle_event(&event)
    }

    fn press_enter(&mut self) -> bool {
        let event = self.event(0x0d, 0);
        self.session.handle_event(&event)
    }

    fn fixed(&self) -> String {
        self.session.frontend().fixed.clone()
    }

    fn composing(&self) -> String {
        self.session.composing_string().to_string()
    }
}

#[test]
fn direct_kana_input() {
    let mut h = Harness::new();

    h.type_str("konnnitiha");
    assert_eq!(h.fixed(), "こんにちは");
    assert_eq!(h.composing(), "");
}

#[test]
fn sokuon_and_youon() {
    let mut h = Harness::new();

    h.type_str("kitte");
    assert_eq!(h.fixed(), "きって");

    h.type_str("gyunyu");
    assert!(h.fixed().contains("ぎゅにゅ"));
}

#[test]
fn composing_display() {
    let mut h = Harness::new();

    h.type_str("Kanji");
    assert_eq!(h.composing(), "▽かんじ");
    assert_eq!(h.fixed(), "");
}

#[test]
fn conversion_and_commit() {
    let mut h = Harness::new();

    h.type_str("Kanji");
    h.type_str(" ");
    assert_eq!(h.composing(), "▼漢字");

    h.press_enter();
    assert_eq!(h.fixed(), "漢字");
    assert_eq!(h.composing(), "");
}

#[test]
fn candidate_cycling() {
    let mut h = Harness::new();

    h.type_str("Kanji");
    h.type_str(" ");
    assert_eq!(h.composing(), "▼漢字");
    h.type_str(" ");
    assert_eq!(h.composing(), "▼幹事");

    // x goes back to the previous candidate
    h.type_str("x");
    assert_eq!(h.composing(), "▼漢字");

    h.press_enter();
    assert_eq!(h.fixed(), "漢字");
}

#[test]
fn learning_moves_candidate_to_front() {
    let mut h = Harness::new();

    h.type_str("Kanji  \r"); // select 幹事
    assert_eq!(h.fixed(), "幹事");

    h.type_str("Kanji ");
    assert_eq!(h.composing(), "▼幹事");
}

#[test]
fn okuri_ari_conversion() {
    let mut h = Harness::new();

    h.type_str("OkuRi");
    assert_eq!(h.composing(), "▼送り");

    h.press_enter();
    assert_eq!(h.fixed(), "送り");
}

#[test]
fn okuri_strict_match() {
    let mut h = Harness::new();

    // つk with け okurigana: strict hint narrows to 付け
    h.type_str("TuKe");
    assert_eq!(h.composing(), "▼付け");
}

#[test]
fn cancel_returns_to_composing() {
    let mut h = Harness::new();

    h.type_str("Kanji ");
    assert_eq!(h.composing(), "▼漢字");

    h.press_ctrl(b'g');
    assert_eq!(h.composing(), "▽かんじ");

    h.press_ctrl(b'g');
    assert_eq!(h.composing(), "");
    assert_eq!(h.fixed(), "");
}

#[test]
fn toggle_katakana() {
    let mut h = Harness::new();

    h.type_str("Kanji");
    h.type_str("q");
    assert_eq!(h.fixed(), "カンジ");
    assert_eq!(h.composing(), "");
}

#[test]
fn katakana_mode() {
    let mut h = Harness::new();

    h.type_str("q"); // toggle to katakana mode
    assert_eq!(h.session.input_mode(), InputMode::Katakana);

    h.type_str("aiueo");
    assert_eq!(h.fixed(), "アイウエオ");

    h.type_str("q");
    assert_eq!(h.session.input_mode(), InputMode::Hirakana);
}

#[test]
fn ascii_mode_passthrough() {
    let mut h = Harness::new();

    let handled = h.session.handle_event(&h.event(b'l', 0));
    assert!(handled);
    assert_eq!(h.session.input_mode(), InputMode::Ascii);

    // In ascii mode ordinary keys are not consumed
    let handled = h.session.handle_event(&h.event(b'a', 0));
    assert!(!handled);

    // Ctrl-J returns to hiragana
    h.press_ctrl(b'j');
    assert_eq!(h.session.input_mode(), InputMode::Hirakana);
}

#[test]
fn jisx0208_latin_mode() {
    let mut h = Harness::new();

    h.type_str("L"); // 全角英数モード
    assert_eq!(h.session.input_mode(), InputMode::Jisx0208Latin);

    h.type_str("abc");
    assert_eq!(h.fixed(), "ａｂｃ");
}

#[test]
fn registration_flow() {
    let mut h = Harness::new();

    // Unknown word starts registration
    h.type_str("Mikan ");
    assert!(h.composing().contains("[登録：みかん]"));

    // Type the word (kana input works in the nested session)
    h.type_str("mikan");
    assert!(h.composing().contains("みかん"));

    // Enter finishes registration and commits the word
    h.press_enter();
    assert_eq!(h.fixed(), "みかん");
    assert_eq!(h.composing(), "");

    // The word is learned
    h.type_str("Mikan ");
    assert_eq!(h.composing(), "▼みかん");
}

#[test]
fn registration_cancel() {
    let mut h = Harness::new();

    h.type_str("Mikan ");
    assert!(h.composing().contains("[登録：みかん]"));

    h.press_ctrl(b'g');
    // Back to composing the original entry
    assert_eq!(h.composing(), "▽みかん");
}

#[test]
fn backspace_editing() {
    let mut h = Harness::new();

    h.type_str("Kanji");
    h.press_ctrl(b'h');
    assert_eq!(h.composing(), "▽かん");

    h.press_ctrl(b'h');
    h.press_ctrl(b'h');
    // Setback to direct input
    h.press_ctrl(b'h');
    assert_eq!(h.composing(), "");
}

#[test]
fn abbrev_mode() {
    let mut h = Harness::new();

    h.type_str("/");
    h.type_str("test");
    assert_eq!(h.composing(), "▽test");
}

#[test]
fn session_test_completion() {
    let mut h = Harness::new();

    // Learn some entries first
    h.type_str("Kanji \r");
    h.type_str("Kantou \r");
    let _ = h.fixed();

    h.type_str("Kan");
    let event = h.event(0x09, 0); // Tab
    h.session.handle_event(&event);

    // Completion replaces the composing text with a learned entry
    let composing = h.composing();
    assert!(
        composing == "▽かんじ" || composing == "▽かんとう",
        "unexpected completion: {composing}"
    );
}

#[test]
fn window_selection() {
    let mut h = Harness::new();

    h.type_str("Suu");
    // Cycle past the 3 inline candidates into the window
    h.type_str("    "); // 一 二 三 四(window)
    assert_eq!(h.composing(), "▼四");

    h.press_enter();
    assert_eq!(h.fixed(), "四");
}

#[test]
fn egg_like_newline_default() {
    let mut h = Harness::new();

    h.type_str("Kanji ");
    let handled = h.press_enter();
    // Default: the newline is suppressed -> the committing Enter is consumed
    assert!(handled);
    assert_eq!(h.fixed(), "漢字");
}

#[test]
fn egg_like_newline_passes_through() {
    let mut h = Harness::with_config(Config {
        suppress_newline_on_commit: false,
        ..Config::default()
    });

    h.type_str("Kanji ");
    let handled = h.press_enter();
    assert!(!handled);
    assert_eq!(h.fixed(), "漢字");
}

#[test]
fn egg_like_newline_suppressed() {
    let mut h = Harness::with_config(Config {
        suppress_newline_on_commit: true,
        ..Config::default()
    });

    h.type_str("Kanji ");
    let handled = h.press_enter();
    assert!(handled);
    assert_eq!(h.fixed(), "漢字");
}

#[test]
fn commit_leaves_nothing_composing() {
    let mut h = Harness::new();

    h.type_str("Kanji ");
    assert_eq!(h.composing(), "▼漢字");
    h.session.commit();
    assert_eq!(h.fixed(), "漢字");
    assert_eq!(h.composing(), "");

    h.type_str("Kan");
    h.session.commit();
    assert_eq!(h.composing(), "");
}

#[test]
fn clear_returns_to_hiragana_with_nothing_composing() {
    let mut h = Harness::new();

    h.type_str("Kanji");
    h.session.clear();
    assert_eq!(h.composing(), "");
    assert_eq!(h.session.input_mode(), InputMode::Hirakana);
}

#[test]
fn session_commit_fixes_the_selected_candidate() {
    let mut h = Harness::new();
    h.type_str("Kanji");
    h.type_str(" ");
    assert_eq!(h.composing(), "▼漢字");
    h.session.commit();
    assert_eq!(h.fixed(), "漢字");
    assert_eq!(h.composing(), "");
}

#[test]
fn composing_marks_reach_the_front_end() {
    let mut h = Harness::new();
    h.type_str("Kanji");
    assert_eq!(h.session.frontend().composing, "▽かんじ");
    assert_eq!(h.session.frontend().highlight, None);
    assert_eq!(h.session.frontend().cursor, 0);
}
