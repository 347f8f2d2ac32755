use nablaskk_core::backend::{Backend, SystemDictionary};
use nablaskk_core::bridge::NullWidgets;
use nablaskk_core::dictionary::common::CommonDictionary;
use nablaskk_core::dictionary::file::Encoding;
use nablaskk_core::dictionary::user::LocalUserDictionary;
use nablaskk_core::entry::Entry;
use nablaskk_core::selector::Selector;

fn backend() -> Backend {
    let mut backend = Backend::new(LocalUserDictionary::new(Encoding::Utf8));
    backend.add_dictionary(SystemDictionary::Common(CommonDictionary::from_text(
        ";; okuri-nasi entries.\nすう /一/二/三/四/五/六/七/八/九/十/\n",
    )));
    backend
}

#[test]
fn inline_then_window() {
    let backend = backend();
    let mut selector = Selector::new();
    let mut window = NullWidgets;

    assert!(selector.execute(&backend, &mut window, &Entry::from_entry("すう"), 3));
    assert!(selector.is_inline());
    assert_eq!(selector.current().unwrap().word(), "一");

    assert!(selector.next(&mut window));
    assert!(selector.next(&mut window));
    assert_eq!(selector.current().unwrap().word(), "三");

    assert!(selector.next(&mut window));
    assert!(!selector.is_inline());
    assert_eq!(selector.current().unwrap().word(), "四");

    assert!(selector.prev(&mut window));
    assert!(selector.is_inline());
    assert_eq!(selector.current().unwrap().word(), "三");
}

#[test]
fn exhausted() {
    let backend = backend();
    let mut selector = Selector::new();
    let mut window = NullWidgets;

    selector.execute(&backend, &mut window, &Entry::from_entry("すう"), 0);
    assert!(!selector.is_inline());

    assert!(selector.next(&mut window));
    assert!(!selector.next(&mut window));

    assert!(selector.prev(&mut window));
    assert!(!selector.prev(&mut window));
}

#[test]
fn not_found() {
    let backend = backend();
    let mut selector = Selector::new();
    let mut window = NullWidgets;

    assert!(!selector.execute(&backend, &mut window, &Entry::from_entry("ない"), 3));
    assert!(selector.current().is_none());
}

#[test]
fn window_pages_move_the_current_candidate() {
    let backend = backend();
    let mut selector = Selector::new();
    let mut window = NullWidgets;

    selector.execute(&backend, &mut window, &Entry::from_entry("すう"), 0);
    assert_eq!(selector.current().unwrap().word(), "一");
    assert!(selector.next(&mut window));
    assert_eq!(selector.current().unwrap().word(), "八");
}

#[test]
fn select_at_picks_on_the_current_page() {
    let backend = backend();
    let mut selector = Selector::new();
    let mut window = NullWidgets;

    selector.execute(&backend, &mut window, &Entry::from_entry("すう"), 0);
    assert!(selector.select_at(&mut window, Some(2)));
    assert_eq!(selector.current().unwrap().word(), "三");
    assert!(!selector.select_at(&mut window, Some(7)));
    assert!(!selector.select_at(&mut window, None));
    assert_eq!(selector.current().unwrap().word(), "三");

    let mut inline = Selector::new();
    inline.execute(&backend, &mut window, &Entry::from_entry("すう"), 3);
    assert!(!inline.select_at(&mut window, Some(0)));
    assert_eq!(inline.current().unwrap().word(), "一");
}
