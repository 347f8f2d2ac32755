use nablaskk_core::candidate::Candidate;
use nablaskk_core::event::modifier::CTRL;
use nablaskk_core::input_mode::InputMode;
use nablaskk_core::terminal::{arrow_code, mode_label, terminal_key, window_line, TerminalKey};

#[test]
fn terminal_bytes() {
    assert_eq!(terminal_key(0x03), TerminalKey::Quit);
    assert_eq!(terminal_key(0x1b), TerminalKey::Escape);
    assert_eq!(terminal_key(0x7f), TerminalKey::Press(0x08, 0));
    assert_eq!(terminal_key(b'a'), TerminalKey::Press(b'a', 0));
    assert_eq!(terminal_key(0x0d), TerminalKey::Press(0x0d, 0));
    assert_eq!(terminal_key(0x07), TerminalKey::Press(b'g', CTRL));
    assert_eq!(terminal_key(0x80), TerminalKey::Ignore);
}

#[test]
fn terminal_arrows() {
    assert_eq!(arrow_code(b'[', b'A'), Some(0x1e));
    assert_eq!(arrow_code(b'[', b'D'), Some(0x1c));
    assert_eq!(arrow_code(b'[', b'Z'), None);
    assert_eq!(arrow_code(b'O', b'A'), None);
}

#[test]
fn terminal_labels_and_window() {
    assert_eq!(mode_label(InputMode::Hirakana), "かな");
    assert_eq!(mode_label(InputMode::Jisx0208Latin), "全英");
    let view = vec![Candidate::new("四"), Candidate::new("五")];
    assert_eq!(window_line(&view, 1, 2, 3), " a:四  [s:五] (2/3)");
}
