//! Mapping from key presses to navigation commands. The event source hands
//! each key over as a plain value; everything it reports beyond these
//! fields, and every key not bound below, is ignored.

use vstd::prelude::*;

use crate::nav::NavCommand;

verus! {

/// A key as the navigation core reads it.
#[derive(Clone, Copy, Debug, PartialEq, Eq, Structural)]
pub enum Key {
    Char(char),
    Up,
    Down,
    Left,
    Right,
    Enter,
    Esc,
    Other,
}

/// One keyboard event: which key, and whether it was a press (as opposed
/// to a release or repeat report).
#[derive(Clone, Copy, Debug, PartialEq, Eq, Structural)]
pub struct KeyInput {
    pub key: Key,
    pub is_press: bool,
}

/// The conventional binding: `q`/escape quits, `j`/down and `k`/up move
/// the cursor, `l`/right descends, `h`/left ascends, enter confirms.
/// Non-press events and unbound keys map to nothing.
pub open spec fn command_for_key_spec(k: KeyInput) -> Option<NavCommand> {
    if !k.is_press {
        Option::None
    } else {
        match k.key {
            Key::Char(c) => if c == 'q' {
                Option::Some(NavCommand::Quit)
            } else if c == 'j' {
                Option::Some(NavCommand::MoveSelectionDown)
            } else if c == 'k' {
                Option::Some(NavCommand::MoveSelectionUp)
            } else if c == 'h' {
                Option::Some(NavCommand::Ascend)
            } else if c == 'l' {
                Option::Some(NavCommand::Descend)
            } else {
                Option::None
            },
            Key::Down => Option::Some(NavCommand::MoveSelectionDown),
            Key::Up => Option::Some(NavCommand::MoveSelectionUp),
            Key::Left => Option::Some(NavCommand::Ascend),
            Key::Right => Option::Some(NavCommand::Descend),
            Key::Enter => Option::Some(NavCommand::Confirm),
            Key::Esc => Option::Some(NavCommand::Quit),
            Key::Other => Option::None,
        }
    }
}

/// Turns one keyboard event into the command it is bound to, if any.
pub fn command_for_key(k: KeyInput) -> (c: Option<NavCommand>)
    ensures
        c == command_for_key_spec(k),
{
    if !k.is_press {
        return Option::None;
    }
    match k.key {
        Key::Char(c) => {
            if c == 'q' {
                Option::Some(NavCommand::Quit)
            } else if c == 'j' {
                Option::Some(NavCommand::MoveSelectionDown)
            } else if c == 'k' {
                Option::Some(NavCommand::MoveSelectionUp)
            } else if c == 'h' {
                Option::Some(NavCommand::Ascend)
            } else if c == 'l' {
                Option::Some(NavCommand::Descend)
            } else {
                Option::None
            }
        },
        Key::Down => Option::Some(NavCommand::MoveSelectionDown),
        Key::Up => Option::Some(NavCommand::MoveSelectionUp),
        Key::Left => Option::Some(NavCommand::Ascend),
        Key::Right => Option::Some(NavCommand::Descend),
        Key::Enter => Option::Some(NavCommand::Confirm),
        Key::Esc => Option::Some(NavCommand::Quit),
        Key::Other => Option::None,
    }
}

} // verus!
