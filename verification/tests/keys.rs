//! The key bindings.
use pacpurge::app::Intent;
use pacpurge::filter::{SortKey, Toggle};
use pacpurge::keys::{intent, KeyCode, KeyEvent, KeyEventKind};

fn press(code: KeyCode) -> KeyEvent {
    KeyEvent::new(code, false)
}

#[test]
fn printable_keys_are_commands_when_not_typing() {
    assert_eq!(
        intent(press(KeyCode::Char('o')), false),
        Some(Intent::Filter(Toggle::Orphans))
    );
    assert_eq!(intent(press(KeyCode::Char('q')), false), Some(Intent::Quit));
}

#[test]
fn printable_keys_are_text_when_typing() {
    assert_eq!(
        intent(press(KeyCode::Char('o')), true),
        Some(Intent::SearchInput('o'))
    );
    assert_eq!(
        intent(press(KeyCode::Char('q')), true),
        Some(Intent::SearchInput('q'))
    );
}

#[test]
fn arrows_still_navigate_while_typing() {
    assert_eq!(intent(press(KeyCode::Down), true), Some(Intent::Down));
    assert_eq!(
        intent(press(KeyCode::Esc), true),
        Some(Intent::SearchCancel)
    );
}

#[test]
fn control_c_always_quits() {
    let key = KeyEvent::new(KeyCode::Char('c'), true);
    assert_eq!(intent(key, false), Some(Intent::Quit));
    assert_eq!(intent(key, true), Some(Intent::Quit));
}

#[test]
fn key_releases_are_ignored() {
    // Windows terminals and some Linux ones report both press and release;
    // acting on both would double every keystroke.
    let mut key = press(KeyCode::Char('q'));
    key.kind = KeyEventKind::Release;
    assert_eq!(intent(key, false), None);
}

#[test]
fn case_distinguishes_related_bindings() {
    // `p` hides protected packages; `P` marks one anyway; `D` widens the
    // search. Getting these confused would be destructive, so they are
    // pinned.
    assert_eq!(
        intent(press(KeyCode::Char('p')), false),
        Some(Intent::ToggleProtected)
    );
    assert_eq!(
        intent(press(KeyCode::Char('P')), false),
        Some(Intent::ForceSelect)
    );
    assert_eq!(
        intent(press(KeyCode::Char('D')), false),
        Some(Intent::ToggleDescriptions)
    );
}

#[test]
fn unbound_keys_produce_nothing() {
    assert_eq!(intent(press(KeyCode::F(7)), false), None);
    assert_eq!(intent(press(KeyCode::Insert), true), None);
}

#[test]
fn control_keys_page_and_plain_ones_do_not() {
    let control = |code| intent(KeyEvent::new(code, true), false);
    assert_eq!(control(KeyCode::Char('d')), Some(Intent::PageDown));
    assert_eq!(control(KeyCode::Char('u')), Some(Intent::PageUp));
    assert_eq!(intent(press(KeyCode::Char('u')), false), Some(Intent::Filter(Toggle::Stale)));
    assert_eq!(intent(press(KeyCode::PageDown), false), Some(Intent::PageDown));
}

#[test]
fn digits_pick_a_column() {
    assert_eq!(intent(press(KeyCode::Char('1')), false), Some(Intent::SortBy(SortKey::Name)));
    assert_eq!(
        intent(press(KeyCode::Char('6')), false),
        Some(Intent::SortBy(SortKey::RequiredBy))
    );
    assert_eq!(intent(press(KeyCode::Char('7')), false), None);
}
