//! The keymap: terminal key events to [`Intent`]s.
//!
//! Kept apart from [`crate::app`] so that the state machine only ever sees
//! intents it knows how to handle, and so that adding a binding cannot
//! accidentally change behaviour.
use vstd::prelude::*;

use crate::app::Intent;
use crate::filter::{SortKey, Toggle};

verus! {

/// A key of a terminal, as far as a keymap can have an opinion about it.
#[derive(Clone, Copy, Debug, PartialEq, Eq, Structural)]
pub enum KeyCode {
    /// A key that makes a character.
    Char(char),
    /// A function key.
    F(u8),
    /// Backspace.
    Backspace,
    /// Enter.
    Enter,
    /// Left arrow.
    Left,
    /// Right arrow.
    Right,
    /// Up arrow.
    Up,
    /// Down arrow.
    Down,
    /// Home.
    Home,
    /// End.
    End,
    /// Page up.
    PageUp,
    /// Page down.
    PageDown,
    /// Tab.
    Tab,
    /// Shift and tab.
    BackTab,
    /// Delete.
    Delete,
    /// Insert.
    Insert,
    /// Escape.
    Esc,
    /// Any other key.
    Other,
}

/// What happened to a key.
#[derive(Clone, Copy, Debug, PartialEq, Eq, Structural)]
pub enum KeyEventKind {
    /// It went down.
    Press,
    /// It is being held down.
    Repeat,
    /// It came up.
    Release,
}

/// A key event.
#[derive(Clone, Copy, Debug, PartialEq, Eq, Structural)]
pub struct KeyEvent {
    /// The key.
    pub code: KeyCode,
    /// Whether the control key was held.
    pub control: bool,
    /// What happened to it.
    pub kind: KeyEventKind,
}

impl KeyEvent {
    /// A key going down, with the control key held or not.
    pub fn new(code: KeyCode, control: bool) -> (r: KeyEvent)
        ensures
            r == (KeyEvent { code, control, kind: KeyEventKind::Press }),
    {
        KeyEvent { code, control, kind: KeyEventKind::Press }
    }
}

/// What a key means together with the control key.
pub open spec fn control_binding(code: KeyCode) -> Option<Intent> {
    match code {
        KeyCode::Char('c') => Some(Intent::Quit),
        KeyCode::Char('d') => Some(Intent::PageDown),
        KeyCode::Char('u') => Some(Intent::PageUp),
        _ => None,
    }
}

/// What a key means while the search field has focus.
pub open spec fn typing_binding(code: KeyCode) -> Option<Intent> {
    match code {
        KeyCode::Esc => Some(Intent::SearchCancel),
        KeyCode::Enter => Some(Intent::SearchCommit),
        KeyCode::Backspace => Some(Intent::SearchBackspace),
        KeyCode::Char(character) => Some(Intent::SearchInput(character)),
        KeyCode::Up => Some(Intent::Up),
        KeyCode::Down => Some(Intent::Down),
        _ => None,
    }
}

/// The command that a character stands for.
pub open spec fn character_binding(character: char) -> Option<Intent> {
    match character {
        'q' => Some(Intent::Quit),
        'j' => Some(Intent::Down),
        'k' => Some(Intent::Up),
        'g' => Some(Intent::First),
        'G' => Some(Intent::Last),
        ' ' => Some(Intent::ToggleSelect),
        'P' => Some(Intent::ForceSelect),
        'c' => Some(Intent::ClearSelection),
        '/' => Some(Intent::StartSearch),
        'o' => Some(Intent::Filter(Toggle::Orphans)),
        'a' => Some(Intent::Filter(Toggle::Foreign)),
        'e' => Some(Intent::Filter(Toggle::Explicit)),
        'n' => Some(Intent::Filter(Toggle::NeverUsed)),
        'u' => Some(Intent::Filter(Toggle::Stale)),
        'p' => Some(Intent::ToggleProtected),
        'D' => Some(Intent::ToggleDescriptions),
        's' => Some(Intent::CycleSort),
        'S' => Some(Intent::ReverseSort),
        '1' => Some(Intent::SortBy(SortKey::Name)),
        '2' => Some(Intent::SortBy(SortKey::Size)),
        '3' => Some(Intent::SortBy(SortKey::Reclaimable)),
        '4' => Some(Intent::SortBy(SortKey::LastUsed)),
        '5' => Some(Intent::SortBy(SortKey::Installed)),
        '6' => Some(Intent::SortBy(SortKey::RequiredBy)),
        'x' => Some(Intent::Review),
        'y' => Some(Intent::Accept),
        'r' => Some(Intent::Rescan),
        '?' => Some(Intent::Help),
        _ => None,
    }
}

/// The command that a key stands for.
pub open spec fn command_binding(code: KeyCode) -> Option<Intent> {
    match code {
        KeyCode::Char(character) => character_binding(character),
        KeyCode::Esc => Some(Intent::Cancel),
        KeyCode::Tab | KeyCode::Right => Some(Intent::NextTab),
        KeyCode::BackTab | KeyCode::Left => Some(Intent::PrevTab),
        KeyCode::Down => Some(Intent::Down),
        KeyCode::Up => Some(Intent::Up),
        KeyCode::PageDown => Some(Intent::PageDown),
        KeyCode::PageUp => Some(Intent::PageUp),
        KeyCode::Home => Some(Intent::First),
        KeyCode::End => Some(Intent::Last),
        KeyCode::Enter => Some(Intent::Review),
        _ => None,
    }
}

/// What a key event asks for.
pub open spec fn binding(key: KeyEvent, typing: bool) -> Option<Intent> {
    if key.kind == KeyEventKind::Release {
        None
    } else if key.control {
        control_binding(key.code)
    } else if typing {
        typing_binding(key.code)
    } else {
        command_binding(key.code)
    }
}

/// Translate a key press into an intent.
///
/// `typing` is true while the search field has focus, where printable
/// characters are text rather than commands.
pub fn intent(key: KeyEvent, typing: bool) -> (r: Option<Intent>)
    ensures
        r == binding(key, typing),
{
    if key.kind == KeyEventKind::Release {
        return None;
    }
    if key.control {
        return match key.code {
            KeyCode::Char('c') => Some(Intent::Quit),
            KeyCode::Char('d') => Some(Intent::PageDown),
            KeyCode::Char('u') => Some(Intent::PageUp),
            _ => None,
        };
    }
    if typing {
        return match key.code {
            KeyCode::Esc => Some(Intent::SearchCancel),
            KeyCode::Enter => Some(Intent::SearchCommit),
            KeyCode::Backspace => Some(Intent::SearchBackspace),
            KeyCode::Char(character) => Some(Intent::SearchInput(character)),
            KeyCode::Up => Some(Intent::Up),
            KeyCode::Down => Some(Intent::Down),
            _ => None,
        };
    }
    match key.code {
        KeyCode::Char('q') => Some(Intent::Quit),
        KeyCode::Esc => Some(Intent::Cancel),
        KeyCode::Tab | KeyCode::Right => Some(Intent::NextTab),
        KeyCode::BackTab | KeyCode::Left => Some(Intent::PrevTab),
        KeyCode::Char('j') | KeyCode::Down => Some(Intent::Down),
        KeyCode::Char('k') | KeyCode::Up => Some(Intent::Up),
        KeyCode::PageDown => Some(Intent::PageDown),
        KeyCode::PageUp => Some(Intent::PageUp),
        KeyCode::Char('g') | KeyCode::Home => Some(Intent::First),
        KeyCode::Char('G') | KeyCode::End => Some(Intent::Last),
        KeyCode::Char(' ') => Some(Intent::ToggleSelect),
        KeyCode::Char('P') => Some(Intent::ForceSelect),
        KeyCode::Char('c') => Some(Intent::ClearSelection),
        KeyCode::Char('/') => Some(Intent::StartSearch),
        KeyCode::Char('o') => Some(Intent::Filter(Toggle::Orphans)),
        KeyCode::Char('a') => Some(Intent::Filter(Toggle::Foreign)),
        KeyCode::Char('e') => Some(Intent::Filter(Toggle::Explicit)),
        KeyCode::Char('n') => Some(Intent::Filter(Toggle::NeverUsed)),
        KeyCode::Char('u') => Some(Intent::Filter(Toggle::Stale)),
        KeyCode::Char('p') => Some(Intent::ToggleProtected),
        KeyCode::Char('D') => Some(Intent::ToggleDescriptions),
        KeyCode::Char('s') => Some(Intent::CycleSort),
        KeyCode::Char('S') => Some(Intent::ReverseSort),
        KeyCode::Char('1') => Some(Intent::SortBy(SortKey::Name)),
        KeyCode::Char('2') => Some(Intent::SortBy(SortKey::Size)),
        KeyCode::Char('3') => Some(Intent::SortBy(SortKey::Reclaimable)),
        KeyCode::Char('4') => Some(Intent::SortBy(SortKey::LastUsed)),
        KeyCode::Char('5') => Some(Intent::SortBy(SortKey::Installed)),
        KeyCode::Char('6') => Some(Intent::SortBy(SortKey::RequiredBy)),
        KeyCode::Enter | KeyCode::Char('x') => Some(Intent::Review),
        KeyCode::Char('y') => Some(Intent::Accept),
        KeyCode::Char('r') => Some(Intent::Rescan),
        KeyCode::Char('?') => Some(Intent::Help),
        // The keys that this program has no opinion about are many.
        _ => None,
    }
}

/// Control and `c` always quit, whatever has focus.
pub proof fn control_c_always_quits(key: KeyEvent, typing: bool)
    requires
        key.code == KeyCode::Char('c'),
        key.control,
        key.kind != KeyEventKind::Release,
    ensures
        binding(key, typing) == Some(Intent::Quit),
{
}

/// A key coming up does nothing, so that no keystroke counts twice.
pub proof fn releases_are_ignored(key: KeyEvent, typing: bool)
    requires
        key.kind == KeyEventKind::Release,
    ensures
        binding(key, typing) is None,
{
}

/// While the search field has focus every character is text.
pub proof fn characters_are_text_while_typing(character: char, kind: KeyEventKind)
    requires
        kind != KeyEventKind::Release,
    ensures
        binding(
            KeyEvent { code: KeyCode::Char(character), control: false, kind },
            true,
        ) == Some(Intent::SearchInput(character)),
{
}

/// The key that a filter's label names turns that filter over, and no other
/// key does.
pub proof fn filters_have_their_key(character: char, toggle: Toggle)
    ensures
        binding(
            KeyEvent { code: KeyCode::Char(character), control: false, kind: KeyEventKind::Press },
            false,
        ) == Some(Intent::Filter(toggle)) <==> character == toggle.key_char(),
{
}

} // verus!
