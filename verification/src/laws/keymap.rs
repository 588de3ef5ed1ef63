//! What the keys do.
use vstd::prelude::*;

use crate::app::Intent;
use crate::filter::{SortKey, Toggle};
use crate::keys;
use crate::keys::{KeyCode, KeyEvent, KeyEventKind};

verus! {

/// What a key means while no text is typed.
pub open spec fn pressed(code: KeyCode, kind: KeyEventKind) -> Option<Intent> {
    keys::binding(KeyEvent { code, control: false, kind }, false)
}

/// Each character that is a command means what the list of keys says, however
/// long it is held, and every other character means nothing.
pub proof fn characters_are_commands(c: char, kind: KeyEventKind)
    requires
        kind != KeyEventKind::Release,
    ensures
        c == 'q' ==> pressed(KeyCode::Char(c), kind) == Some(Intent::Quit),
        c == 'j' ==> pressed(KeyCode::Char(c), kind) == Some(Intent::Down),
        c == 'k' ==> pressed(KeyCode::Char(c), kind) == Some(Intent::Up),
        c == 'g' ==> pressed(KeyCode::Char(c), kind) == Some(Intent::First),
        c == 'G' ==> pressed(KeyCode::Char(c), kind) == Some(Intent::Last),
        c == ' ' ==> pressed(KeyCode::Char(c), kind) == Some(Intent::ToggleSelect),
        c == 'P' ==> pressed(KeyCode::Char(c), kind) == Some(Intent::ForceSelect),
        c == 'c' ==> pressed(KeyCode::Char(c), kind) == Some(Intent::ClearSelection),
        c == '/' ==> pressed(KeyCode::Char(c), kind) == Some(Intent::StartSearch),
        c == 'o' ==> pressed(KeyCode::Char(c), kind) == Some(Intent::Filter(Toggle::Orphans)),
        c == 'a' ==> pressed(KeyCode::Char(c), kind) == Some(Intent::Filter(Toggle::Foreign)),
        c == 'e' ==> pressed(KeyCode::Char(c), kind) == Some(Intent::Filter(Toggle::Explicit)),
        c == 'n' ==> pressed(KeyCode::Char(c), kind) == Some(Intent::Filter(Toggle::NeverUsed)),
        c == 'u' ==> pressed(KeyCode::Char(c), kind) == Some(Intent::Filter(Toggle::Stale)),
        c == 'p' ==> pressed(KeyCode::Char(c), kind) == Some(Intent::ToggleProtected),
        c == 'D' ==> pressed(KeyCode::Char(c), kind) == Some(Intent::ToggleDescriptions),
        c == 's' ==> pressed(KeyCode::Char(c), kind) == Some(Intent::CycleSort),
        c == 'S' ==> pressed(KeyCode::Char(c), kind) == Some(Intent::ReverseSort),
        c == '1' ==> pressed(KeyCode::Char(c), kind) == Some(Intent::SortBy(SortKey::Name)),
        c == '2' ==> pressed(KeyCode::Char(c), kind) == Some(Intent::SortBy(SortKey::Size)),
        c == '3' ==> pressed(KeyCode::Char(c), kind) == Some(Intent::SortBy(SortKey::Reclaimable)),
        c == '4' ==> pressed(KeyCode::Char(c), kind) == Some(Intent::SortBy(SortKey::LastUsed)),
        c == '5' ==> pressed(KeyCode::Char(c), kind) == Some(Intent::SortBy(SortKey::Installed)),
        c == '6' ==> pressed(KeyCode::Char(c), kind) == Some(Intent::SortBy(SortKey::RequiredBy)),
        c == 'x' ==> pressed(KeyCode::Char(c), kind) == Some(Intent::Review),
        c == 'y' ==> pressed(KeyCode::Char(c), kind) == Some(Intent::Accept),
        c == 'r' ==> pressed(KeyCode::Char(c), kind) == Some(Intent::Rescan),
        c == '?' ==> pressed(KeyCode::Char(c), kind) == Some(Intent::Help),
        pressed(KeyCode::Char(c), kind) is Some ==> {
            ||| c == 'q'
            ||| c == 'j'
            ||| c == 'k'
            ||| c == 'g'
            ||| c == 'G'
            ||| c == ' '
            ||| c == 'P'
            ||| c == 'c'
            ||| c == '/'
            ||| c == 'o'
            ||| c == 'a'
            ||| c == 'e'
            ||| c == 'n'
            ||| c == 'u'
            ||| c == 'p'
            ||| c == 'D'
            ||| c == 's'
            ||| c == 'S'
            ||| c == '1'
            ||| c == '2'
            ||| c == '3'
            ||| c == '4'
            ||| c == '5'
            ||| c == '6'
            ||| c == 'x'
            ||| c == 'y'
            ||| c == 'r'
            ||| c == '?'
        },
{
}

/// The keys that are no characters move around, switch tabs, review and leave.
pub proof fn other_keys_move_and_review(kind: KeyEventKind)
    requires
        kind != KeyEventKind::Release,
    ensures
        pressed(KeyCode::Esc, kind) == Some(Intent::Cancel),
        pressed(KeyCode::Enter, kind) == Some(Intent::Review),
        pressed(KeyCode::Tab, kind) == Some(Intent::NextTab),
        pressed(KeyCode::Right, kind) == Some(Intent::NextTab),
        pressed(KeyCode::BackTab, kind) == Some(Intent::PrevTab),
        pressed(KeyCode::Left, kind) == Some(Intent::PrevTab),
        pressed(KeyCode::Up, kind) == Some(Intent::Up),
        pressed(KeyCode::Down, kind) == Some(Intent::Down),
        pressed(KeyCode::PageUp, kind) == Some(Intent::PageUp),
        pressed(KeyCode::PageDown, kind) == Some(Intent::PageDown),
        pressed(KeyCode::Home, kind) == Some(Intent::First),
        pressed(KeyCode::End, kind) == Some(Intent::Last),
{
}

/// With control held, only leaving and paging are left, typing or not.
pub proof fn control_leaves_and_pages(code: KeyCode, kind: KeyEventKind, typing: bool)
    requires
        kind != KeyEventKind::Release,
    ensures
        ({
            let meant = keys::binding(KeyEvent { code, control: true, kind }, typing);
            &&& code == KeyCode::Char('c') ==> meant == Some(Intent::Quit)
            &&& code == KeyCode::Char('d') ==> meant == Some(Intent::PageDown)
            &&& code == KeyCode::Char('u') ==> meant == Some(Intent::PageUp)
            &&& meant is Some ==> code == KeyCode::Char('c') || code == KeyCode::Char('d') || code
                == KeyCode::Char('u')
        }),
{
}

/// While text is typed, characters are text, Enter keeps it, Esc drops it, and
/// the rows can still be walked.
pub proof fn typing_edits_the_search(c: char, kind: KeyEventKind)
    requires
        kind != KeyEventKind::Release,
    ensures
        ({
            let typed = |code: KeyCode| keys::binding(KeyEvent { code, control: false, kind }, true);
            &&& typed(KeyCode::Char(c)) == Some(Intent::SearchInput(c))
            &&& typed(KeyCode::Backspace) == Some(Intent::SearchBackspace)
            &&& typed(KeyCode::Enter) == Some(Intent::SearchCommit)
            &&& typed(KeyCode::Esc) == Some(Intent::SearchCancel)
            &&& typed(KeyCode::Up) == Some(Intent::Up)
            &&& typed(KeyCode::Down) == Some(Intent::Down)
            &&& typed(KeyCode::Tab) is None
            &&& typed(KeyCode::PageUp) is None
            &&& typed(KeyCode::PageDown) is None
            &&& typed(KeyCode::Home) is None
            &&& typed(KeyCode::End) is None
        }),
{
}

} // verus!
