//! What the input loop does with each event it reads.

use vstd::prelude::*;

verus! {

/// A key, as far as the engine and its games tell keys apart.
#[derive(Copy, Clone, Debug, PartialEq, Eq, Structural)]
pub enum Key {
    Up,
    Down,
    Left,
    Right,
    Enter,
    /// The key that ends the input loop.
    Esc,
    Char(char),
    /// Any other key.
    Other,
}

/// What the terminal reports.
#[derive(Copy, Clone, Debug, PartialEq, Eq, Structural)]
pub enum Event {
    Key(Key),
    /// A resize, the mouse, or whatever else is no key.
    Other,
}

/// What the input loop does next.
#[derive(Copy, Clone, Debug, PartialEq, Eq, Structural)]
pub enum Dispatch {
    /// Hand the key to the caller's callback and read on.
    Press(Key),
    /// Read on.
    Ignore,
    /// End the loop.
    Quit,
}

/// What the loop does with `event`.
pub open spec fn dispatched(event: Event) -> Dispatch {
    match event {
        Event::Key(Key::Esc) => Dispatch::Quit,
        Event::Key(key) => Dispatch::Press(key),
        Event::Other => Dispatch::Ignore,
    }
}

/// Decides what the input loop does with the event it has just read: the
/// escape key ends the loop, every other key goes to the callback, and what
/// is no key is passed over.
pub fn on_input(event: Event) -> (next: Dispatch)
    ensures
        next == dispatched(event),
{
    match event {
        Event::Key(Key::Esc) => Dispatch::Quit,
        Event::Key(key) => Dispatch::Press(key),
        Event::Other => Dispatch::Ignore,
    }
}

} // verus!
