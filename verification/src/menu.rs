use vstd::prelude::*;
use crate::engine::Action;

verus! {

/// The entries of the title menu, in the order in which they are shown.
#[derive(Copy, Clone, PartialEq, Eq, Structural, Debug)]
pub enum TitleSelectOptions {
    Start,
    Controls,
    Exit,
}

/// A key as the rules see it: a character, the enter key, or any other key.
#[derive(Copy, Clone, PartialEq, Eq, Structural, Debug)]
pub enum Key {
    Char(char),
    Enter,
    Other,
}

/// What the title menu does on a key: it stays open with an entry marked, or
/// closes with the entry that was chosen.
#[derive(Copy, Clone, PartialEq, Eq, Structural, Debug)]
pub enum TitleStep {
    Stay(TitleSelectOptions),
    Leave(TitleSelectOptions),
}

/// The entry to the left of an entry, going round from the first to the last.
pub open spec fn entry_before(selected: TitleSelectOptions) -> TitleSelectOptions {
    match selected {
        TitleSelectOptions::Start => TitleSelectOptions::Exit,
        TitleSelectOptions::Controls => TitleSelectOptions::Start,
        TitleSelectOptions::Exit => TitleSelectOptions::Controls,
    }
}

/// The entry to the right of an entry, going round from the last to the first.
pub open spec fn entry_after(selected: TitleSelectOptions) -> TitleSelectOptions {
    match selected {
        TitleSelectOptions::Start => TitleSelectOptions::Controls,
        TitleSelectOptions::Controls => TitleSelectOptions::Exit,
        TitleSelectOptions::Exit => TitleSelectOptions::Start,
    }
}

/// What the title menu does on a key. Control with `c` leaves by the exit;
/// `a` and `d` move the mark to the left and to the right; enter chooses the
/// marked entry; any other key changes nothing.
pub open spec fn title_stepped(selected: TitleSelectOptions, key: Key, control: bool) -> TitleStep {
    if key == Key::Char('c') && control {
        TitleStep::Leave(TitleSelectOptions::Exit)
    } else if key == Key::Char('a') {
        TitleStep::Stay(entry_before(selected))
    } else if key == Key::Char('d') {
        TitleStep::Stay(entry_after(selected))
    } else if key == Key::Enter {
        TitleStep::Leave(selected)
    } else {
        TitleStep::Stay(selected)
    }
}

/// One step of the title menu: the marked entry and a key give the entry
/// that is marked next, or the entry with which the menu closes.
pub fn title_step(selected: TitleSelectOptions, key: Key, control: bool) -> (step: TitleStep)
    ensures
        step == title_stepped(selected, key, control),
{
    match key {
        Key::Char(c) => {
            if c == 'c' && control {
                TitleStep::Leave(TitleSelectOptions::Exit)
            } else if c == 'a' {
                TitleStep::Stay(
                    match selected {
                        TitleSelectOptions::Start => TitleSelectOptions::Exit,
                        TitleSelectOptions::Controls => TitleSelectOptions::Start,
                        TitleSelectOptions::Exit => TitleSelectOptions::Controls,
                    },
                )
            } else if c == 'd' {
                TitleStep::Stay(
                    match selected {
                        TitleSelectOptions::Start => TitleSelectOptions::Controls,
                        TitleSelectOptions::Controls => TitleSelectOptions::Exit,
                        TitleSelectOptions::Exit => TitleSelectOptions::Start,
                    },
                )
            } else {
                TitleStep::Stay(selected)
            }
        },
        Key::Enter => TitleStep::Leave(selected),
        Key::Other => TitleStep::Stay(selected),
    }
}

/// The action that a key asks for during play, if it asks for one.
pub open spec fn bound_action(key: Key, control: bool) -> Option<Action> {
    match key {
        Key::Char(c) => {
            if c == 'c' {
                if control {
                    Some(Action::Quit)
                } else {
                    None
                }
            } else if c == 'a' {
                Some(Action::MoveLeft)
            } else if c == 'd' {
                Some(Action::MoveRight)
            } else if c == 's' {
                Some(Action::SoftDrop)
            } else if c == 'q' {
                Some(Action::HardLeft)
            } else if c == 'e' {
                Some(Action::HardRight)
            } else if c == ' ' {
                Some(Action::HardDrop)
            } else if c == 'j' {
                Some(Action::RotateLeft)
            } else if c == 'k' {
                Some(Action::RotateRight)
            } else if c == 'l' {
                Some(Action::RotateDouble)
            } else if c == ';' {
                Some(Action::Hold)
            } else {
                None
            }
        },
        _ => None,
    }
}

/// The action that a key asks for during play: `a`, `d` and `s` move the
/// piece by one, `q` and `e` push it to a side, the space bar drops it, `j`,
/// `k` and `l` turn it, `;` holds it, and `c` with control ends the game.
pub fn key_action(key: Key, control: bool) -> (action: Option<Action>)
    ensures
        action == bound_action(key, control),
{
    match key {
        Key::Char(c) => {
            if c == 'c' {
                if control {
                    Some(Action::Quit)
                } else {
                    None
                }
            } else if c == 'a' {
                Some(Action::MoveLeft)
            } else if c == 'd' {
                Some(Action::MoveRight)
            } else if c == 's' {
                Some(Action::SoftDrop)
            } else if c == 'q' {
                Some(Action::HardLeft)
            } else if c == 'e' {
                Some(Action::HardRight)
            } else if c == ' ' {
                Some(Action::HardDrop)
            } else if c == 'j' {
                Some(Action::RotateLeft)
            } else if c == 'k' {
                Some(Action::RotateRight)
            } else if c == 'l' {
                Some(Action::RotateDouble)
            } else if c == ';' {
                Some(Action::Hold)
            } else {
                None
            }
        },
        _ => None,
    }
}

} // verus!
