//! Events consumed by the menu application loop.

use vstd::prelude::*;

verus! {

/// A key press, reduced to what the menu reacts to: the two arrow keys,
/// a printable character, or anything else.
#[derive(Clone, Copy, Debug, PartialEq, Eq, Structural)]
pub enum Key {
    Up,
    Down,
    Char(char),
    Other,
}

/// One event delivered to the application loop: either a key press or a
/// periodic tick that carries no payload.
#[derive(Clone, Copy, Debug, PartialEq, Eq, Structural)]
pub enum Event {
    Input(Key),
    Tick,
}

/// The one terminal transition: a lowercase `q` key press ends the loop.
pub open spec fn quits(ev: Event) -> bool {
    ev == Event::Input(Key::Char('q'))
}

} // verus!
