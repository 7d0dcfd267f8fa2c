//! Key presses, the repeat-key gesture, and the command each press stands for.

use vstd::prelude::*;

verus! {

/// A key press, reduced to what the rules distinguish.
#[derive(Clone, Copy, Debug, PartialEq, Eq, Structural)]
pub enum Key {
    /// Leaves the session.
    Quit,
    /// The delete trigger; acts on its second press in a row.
    Delete,
    /// The yank trigger; acts on its second press in a row.
    Yank,
    /// Pastes the clipboard after the selection.
    Paste,
    /// Moves the selection towards the first item.
    Up,
    /// Moves the selection towards the last item.
    Down,
    /// Any key without a meaning of its own.
    Other,
}

/// What the caller is to do after a key press.
#[derive(Clone, Copy, Debug, PartialEq, Eq, Structural)]
pub enum Command {
    Quit,
    DeleteSelected,
    YankSelected,
    PasteAfterSelected,
    SelectNext,
    SelectPrevious,
    Nothing,
}

/// The state of the repeat-key gesture between two presses.
#[derive(Clone, Copy, Debug, PartialEq, Eq, Structural)]
pub enum Gesture {
    /// No trigger is pending.
    Idle,
    /// The delete trigger was pressed once.
    ArmedDelete,
    /// The yank trigger was pressed once.
    ArmedYank,
}

/// The key that a typed character stands for.
pub open spec fn key_of_char(c: char) -> Key {
    if c == 'q' {
        Key::Quit
    } else if c == 'd' {
        Key::Delete
    } else if c == 'y' {
        Key::Yank
    } else if c == 'p' {
        Key::Paste
    } else if c == 'k' {
        Key::Up
    } else if c == 'j' {
        Key::Down
    } else {
        Key::Other
    }
}

/// The gesture state after `key` was pressed in state `gesture`: a pending
/// trigger is always spent, and an idle gesture is armed by a trigger key.
pub open spec fn gesture_after(gesture: Gesture, key: Key) -> Gesture {
    match gesture {
        Gesture::Idle => match key {
            Key::Delete => Gesture::ArmedDelete,
            Key::Yank => Gesture::ArmedYank,
            _ => Gesture::Idle,
        },
        _ => Gesture::Idle,
    }
}

/// The command that pressing `key` in state `gesture` stands for.
pub open spec fn command_for(gesture: Gesture, key: Key) -> Command {
    match key {
        Key::Quit => Command::Quit,
        Key::Delete => if gesture == Gesture::ArmedDelete {
            Command::DeleteSelected
        } else {
            Command::Nothing
        },
        Key::Yank => if gesture == Gesture::ArmedYank {
            Command::YankSelected
        } else {
            Command::Nothing
        },
        Key::Paste => Command::PasteAfterSelected,
        Key::Up => Command::SelectPrevious,
        Key::Down => Command::SelectNext,
        Key::Other => Command::Nothing,
    }
}

impl Key {
    /// Reads a typed character as a key.
    pub fn from_char(c: char) -> (key: Key)
        ensures
            key == key_of_char(c),
    {
        if c == 'q' {
            Key::Quit
        } else if c == 'd' {
            Key::Delete
        } else if c == 'y' {
            Key::Yank
        } else if c == 'p' {
            Key::Paste
        } else if c == 'k' {
            Key::Up
        } else if c == 'j' {
            Key::Down
        } else {
            Key::Other
        }
    }
}

impl Gesture {
    /// The gesture at the start of a session.
    pub fn new() -> (gesture: Gesture)
        ensures
            gesture == Gesture::Idle,
    {
        Gesture::Idle
    }

    /// Takes one key press: returns the gesture state that follows and the
    /// command to carry out.
    pub fn press(self, key: Key) -> (step: (Gesture, Command))
        ensures
            step.0 == gesture_after(self, key),
            step.1 == command_for(self, key),
    {
        let command = match key {
            Key::Quit => Command::Quit,
            Key::Delete => match self {
                Gesture::ArmedDelete => Command::DeleteSelected,
                _ => Command::Nothing,
            },
            Key::Yank => match self {
                Gesture::ArmedYank => Command::YankSelected,
                _ => Command::Nothing,
            },
            Key::Paste => Command::PasteAfterSelected,
            Key::Up => Command::SelectPrevious,
            Key::Down => Command::SelectNext,
            Key::Other => Command::Nothing,
        };
        let next = match self {
            Gesture::Idle => match key {
                Key::Delete => Gesture::ArmedDelete,
                Key::Yank => Gesture::ArmedYank,
                _ => Gesture::Idle,
            },
            _ => Gesture::Idle,
        };
        (next, command)
    }
}

/// A trigger fires exactly when the gesture is armed for it: from an idle
/// gesture, two presses of the same trigger in a row fire it on the second.
pub proof fn lemma_double_press_fires(key: Key)
    requires
        key == Key::Delete || key == Key::Yank,
    ensures
        command_for(Gesture::Idle, key) == Command::Nothing,
        command_for(gesture_after(Gesture::Idle, key), key) == (if key == Key::Delete {
            Command::DeleteSelected
        } else {
            Command::YankSelected
        }),
{
}

/// Whatever went before, a trigger pressed right after a different key does
/// not fire: the key in between breaks the gesture.
pub proof fn lemma_interleaved_key_breaks_gesture(start: Gesture, between: Key, trigger: Key)
    requires
        between != trigger,
    ensures
        command_for(gesture_after(start, between), trigger) != Command::DeleteSelected,
        command_for(gesture_after(start, between), trigger) != Command::YankSelected,
        command_for(
            gesture_after(gesture_after(start, trigger), between),
            trigger,
        ) != Command::DeleteSelected,
        command_for(
            gesture_after(gesture_after(start, trigger), between),
            trigger,
        ) != Command::YankSelected,
{
}

/// A trigger never fires on three presses in a row more than once: the press
/// that fires leaves the gesture idle.
pub proof fn lemma_fired_gesture_is_spent(gesture: Gesture, key: Key)
    requires
        command_for(gesture, key) == Command::DeleteSelected || command_for(gesture, key)
            == Command::YankSelected,
    ensures
        gesture_after(gesture, key) == Gesture::Idle,
        command_for(gesture_after(gesture, key), key) == Command::Nothing,
{
}

} // verus!
