//! Keys and gestures: which way a key press takes, and how long a swipe
//! holds.

use vstd::prelude::*;
use crate::text::{lowercase, same_text};

verus! {

/// The way a key press is delivered.
#[derive(Clone, Copy, Debug, PartialEq, Eq, Structural)]
pub enum KeyAction {
    /// The home button, pressed through the host's keyboard shortcut.
    Home,
    /// The lock button, pressed through the host's keyboard shortcut.
    Lock,
    /// The shake gesture, sent through the host's keyboard shortcut.
    Shake,
    /// Any other key, handed to the device manager under its own name.
    Other,
}

/// The way the key with the lowercase name `name` is delivered.
pub open spec fn action_named(name: Seq<char>) -> KeyAction {
    if name == "home"@ {
        KeyAction::Home
    } else if name == "lock"@ {
        KeyAction::Lock
    } else if name == "shake"@ {
        KeyAction::Shake
    } else {
        KeyAction::Other
    }
}

/// The way the key called `key` is delivered. The three special names are
/// known in any letter case.
pub open spec fn key_action_spec(key: Seq<char>) -> KeyAction {
    action_named(lowercase(key))
}

/// Decides how the key with the lowercase name `name` is delivered.
pub fn action_for(name: &str) -> (a: KeyAction)
    ensures
        a == action_named(name@),
{
    if same_text(name, "home") {
        KeyAction::Home
    } else if same_text(name, "lock") {
        KeyAction::Lock
    } else if same_text(name, "shake") {
        KeyAction::Shake
    } else {
        KeyAction::Other
    }
}

/// Decides how the key called `key` is delivered.
pub fn key_action(key: &str) -> (a: KeyAction)
    ensures
        a == key_action_spec(key@),
{
    let name: String = key.to_lowercase();
    action_for(name.as_str())
}

/// The shortest time, in milliseconds, that a swipe holds between its two
/// clicks.
pub const MIN_SWIPE_MILLIS: u32 = 100;

/// The time, in milliseconds, that a swipe of `duration` milliseconds holds:
/// the duration, but no less than the shortest hold.
pub fn swipe_hold_millis(duration: u32) -> (hold: u32)
    ensures
        hold == if duration < MIN_SWIPE_MILLIS {
            MIN_SWIPE_MILLIS
        } else {
            duration
        },
{
    if duration < MIN_SWIPE_MILLIS {
        MIN_SWIPE_MILLIS
    } else {
        duration
    }
}

} // verus!
