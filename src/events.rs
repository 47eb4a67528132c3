//! What the user asks of the game, and how keys map to it.
use vstd::prelude::*;

use crate::world::{Movement, DOWN, LEFT, RIGHT, UP};

verus! {

/// A request of the user.
#[derive(Copy, Clone, Debug)]
pub enum ViewportEvent {
    Quit,
    Help,
    MovePlayer(Movement),
    DownStairs,
    UpStairs,
}

/// A key press, as far as the game tells keys apart.
#[derive(Copy, Clone, Debug, PartialEq, Eq, Structural)]
pub enum Key {
    Char(char),
    Up,
    Down,
    Left,
    Right,
}

/// The request that `key` stands for: `q` quits, `?` asks for help, the
/// arrows and `h`, `j`, `k`, `l` move, `>` and `<` take the stairs.
pub open spec fn key_event(key: Key) -> Option<ViewportEvent> {
    match key {
        Key::Char('q') => Some(ViewportEvent::Quit),
        Key::Char('?') => Some(ViewportEvent::Help),
        Key::Char('j') | Key::Down => Some(ViewportEvent::MovePlayer(DOWN)),
        Key::Char('k') | Key::Up => Some(ViewportEvent::MovePlayer(UP)),
        Key::Char('h') | Key::Left => Some(ViewportEvent::MovePlayer(LEFT)),
        Key::Char('l') | Key::Right => Some(ViewportEvent::MovePlayer(RIGHT)),
        Key::Char('>') => Some(ViewportEvent::DownStairs),
        Key::Char('<') => Some(ViewportEvent::UpStairs),
        _ => None,
    }
}

pub fn event_for_key(key: Key) -> (r: Option<ViewportEvent>)
    ensures
        r == key_event(key),
{
    match key {
        Key::Char('q') => Some(ViewportEvent::Quit),
        Key::Char('?') => Some(ViewportEvent::Help),
        Key::Char('j') | Key::Down => Some(ViewportEvent::MovePlayer(DOWN)),
        Key::Char('k') | Key::Up => Some(ViewportEvent::MovePlayer(UP)),
        Key::Char('h') | Key::Left => Some(ViewportEvent::MovePlayer(LEFT)),
        Key::Char('l') | Key::Right => Some(ViewportEvent::MovePlayer(RIGHT)),
        Key::Char('>') => Some(ViewportEvent::DownStairs),
        Key::Char('<') => Some(ViewportEvent::UpStairs),
        _ => None,
    }
}

} // verus!
