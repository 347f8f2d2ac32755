use nablaskk_core::backend::{Backend, SystemDictionary};
use nablaskk_core::bridge::BufferedFrontEnd;
use nablaskk_core::context::{OutputBuffer, Registration, RegistrationState, UndoContext, UndoResult};
use nablaskk_core::dictionary::common::CommonDictionary;
use nablaskk_core::dictionary::file::Encoding;
use nablaskk_core::dictionary::user::LocalUserDictionary;
use nablaskk_core::config::Config;
use nablaskk_core::context::InputContext;
use nablaskk_core::editor::{BottomEditor, InputEngine, PrimaryEditor, TextBuffer};
use nablaskk_core::trie::RomanKanaConverter;

#[test]
fn text_buffer_insert_and_cursor() {
    let mut buffer = TextBuffer::new();
    assert!(buffer.is_empty());
    buffer.insert("abc");
    assert_eq!(buffer.string(), "abc");
    buffer.cursor_left();
    buffer.cursor_left();
    assert_eq!(buffer.cursor_position(), -2);
    buffer.insert("X");
    assert_eq!(buffer.string(), "aXbc");
    assert_eq!(buffer.left_string(), "aX");
    assert_eq!(buffer.right_string(), "bc");
}

#[test]
fn text_buffer_backspace_undoes_insert() {
    let mut buffer = TextBuffer::new();
    buffer.insert("かな");
    buffer.cursor_left();
    let before = buffer.string();
    buffer.insert("ん");
    buffer.backspace();
    assert_eq!(buffer.string(), before);
    assert_eq!(buffer.cursor_position(), -1);
}

#[test]
fn text_buffer_delete_and_bounds() {
    let mut buffer = TextBuffer::new();
    buffer.insert("ab");
    buffer.delete();
    assert_eq!(buffer.string(), "ab");
    buffer.cursor_up();
    assert_eq!(buffer.cursor_position(), -2);
    buffer.backspace();
    assert_eq!(buffer.string(), "ab");
    buffer.delete();
    assert_eq!(buffer.string(), "b");
    buffer.cursor_down();
    assert_eq!(buffer.cursor_position(), 0);
    buffer.clear();
    assert!(buffer.is_empty());
}

#[test]
fn output_buffer_fix_compose_convert() {
    let mut buffer = OutputBuffer::new();
    buffer.fix("確定");
    buffer.compose("▽", 0);
    buffer.compose("かんじ", 0);
    assert!(buffer.is_composing());
    assert_eq!(buffer.composing_string(), "▽かんじ");

    let mut frontend = BufferedFrontEnd::default();
    buffer.output(&mut frontend);
    assert_eq!(frontend.fixed, "確定");
    assert_eq!(frontend.composing, "▽かんじ");

    buffer.clear();
    buffer.convert("漢字");
    assert_eq!(buffer.composing_string(), "漢字");
}

#[test]
fn registration_states() {
    let mut registration = Registration::new();
    assert_eq!(registration.state(), RegistrationState::NotStarted);
    registration.start();
    assert_eq!(registration.state(), RegistrationState::Started);
    registration.finish("みかん");
    assert_eq!(registration.state(), RegistrationState::Finished);
    assert_eq!(registration.word(), "みかん");
    registration.abort();
    assert_eq!(registration.state(), RegistrationState::Aborted);
    registration.clear();
    assert_eq!(registration.state(), RegistrationState::NotStarted);
}

#[test]
fn undo_selection_finds_reading() {
    let mut backend = Backend::new(LocalUserDictionary::new(Encoding::Utf8));
    backend.add_dictionary(SystemDictionary::Common(CommonDictionary::from_text(
        ";; okuri-nasi entries.\nかんじ /漢字/\nabc /エービーシー/\n",
    )));
    let mut undo = UndoContext::new();
    assert_eq!(undo.undo_selection("漢字", &backend), UndoResult::KanaEntry);
    assert_eq!(undo.entry(), "かんじ");
    assert_eq!(undo.candidate(), "漢字");
    assert!(undo.is_active());

    assert_eq!(undo.undo_selection("エービーシー", &backend), UndoResult::AsciiEntry);
    assert_eq!(undo.entry(), "abc");

    assert_eq!(undo.undo_selection("ない", &backend), UndoResult::Failed);
    assert!(!undo.is_active());
}

fn engine_rules() -> RomanKanaConverter {
    let mut converter = RomanKanaConverter::new();
    converter.load("a,あ,ア,ｱ\nka,か,カ,ｶ\nki,き,キ,ｷ\n");
    converter
}

#[test]
fn reading_editor_types_and_edits_at_the_cursor() {
    let converter = engine_rules();
    let config = Config::default();
    let mut ctx = InputContext::new();
    let mut engine = InputEngine::new(BottomEditor::Primary(PrimaryEditor));
    engine.set_state_composing(&mut ctx, &config);

    engine.handle_char(&mut ctx, &converter, b'k', false);
    engine.handle_char(&mut ctx, &converter, b'a', false);
    assert_eq!(ctx.entry.entry_string(), "か");

    engine.handle_cursor_left(&mut ctx);
    assert_eq!(ctx.entry.entry_string(), "");
    engine.handle_char(&mut ctx, &converter, b'k', false);
    engine.handle_char(&mut ctx, &converter, b'i', false);
    assert_eq!(ctx.entry.entry_string(), "き");

    engine.handle_cursor_down(&mut ctx);
    assert_eq!(ctx.entry.entry_string(), "きか");

    engine.handle_backspace(&mut ctx);
    assert_eq!(ctx.entry.entry_string(), "き");
    assert!(!ctx.needs_setback);

    engine.handle_backspace(&mut ctx);
    assert_eq!(ctx.entry.entry_string(), "");
    engine.handle_backspace(&mut ctx);
    assert!(ctx.needs_setback);
}
