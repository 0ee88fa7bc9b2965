//! The events that the host reports to the player, and the events that the
//! player reports to buttons and clips.

use crate::prelude::Twips;
use vstd::prelude::*;

verus! {

/// A key of the keyboard that has a meaning of its own for buttons, or any
/// other key by its code.
#[derive(Clone, Copy, Debug, PartialEq, Eq, Structural)]
pub enum KeyCode {
    Unknown,
    Backspace,
    Tab,
    Return,
    Escape,
    PgUp,
    PgDown,
    End,
    Home,
    Left,
    Up,
    Right,
    Down,
    Insert,
    Delete,
    Other(u8),
}

/// The code under which a button listens for a key: one of the codes of
/// the special keys, or a printable ASCII character.
#[derive(Clone, Copy, Debug, PartialEq, Eq, Structural)]
pub struct ButtonKeyCode {
    code: u8,
}

pub const BUTTON_KEY_LEFT: u8 = 1;

pub const BUTTON_KEY_RIGHT: u8 = 2;

pub const BUTTON_KEY_HOME: u8 = 3;

pub const BUTTON_KEY_END: u8 = 4;

pub const BUTTON_KEY_INSERT: u8 = 5;

pub const BUTTON_KEY_DELETE: u8 = 6;

pub const BUTTON_KEY_BACKSPACE: u8 = 8;

pub const BUTTON_KEY_RETURN: u8 = 13;

pub const BUTTON_KEY_UP: u8 = 14;

pub const BUTTON_KEY_DOWN: u8 = 15;

pub const BUTTON_KEY_PG_UP: u8 = 16;

pub const BUTTON_KEY_PG_DOWN: u8 = 17;

pub const BUTTON_KEY_TAB: u8 = 18;

pub const BUTTON_KEY_ESCAPE: u8 = 19;

/// Whether `code` is the code of a special key or of a printable ASCII
/// character.
pub open spec fn is_button_key_code(code: u8) -> bool {
    1 <= code <= 6 || code == 8 || 13 <= code <= 19 || 32 <= code <= 126
}

impl ButtonKeyCode {
    /// The code as a number.
    pub closed spec fn spec_code(self) -> u8 {
        self.code
    }

    /// The button key code with the number `code`.
    pub closed spec fn spec_new(code: u8) -> ButtonKeyCode {
        ButtonKeyCode { code }
    }

    /// The code as a number.
    #[verifier::when_used_as_spec(spec_code)]
    pub fn code(self) -> (code: u8)
        ensures
            code == self.spec_code(),
    {
        self.code
    }

    /// The button key code with the number `code`, if there is one.
    pub fn try_from(code: u8) -> (key: Option<ButtonKeyCode>)
        ensures
            key == (if is_button_key_code(code) {
                Some(ButtonKeyCode::spec_new(code))
            } else {
                None
            }),
            key.is_some() ==> key.unwrap().spec_code() == code,
    {
        if (1 <= code && code <= 6) || code == 8 || (13 <= code && code <= 19) || (32 <= code
            && code <= 126) {
            Some(ButtonKeyCode { code })
        } else {
            None
        }
    }
}

/// The number of the button key code that a key of the keyboard stands
/// for, if it stands for one.
pub open spec fn spec_key_code_to_button_key_code(key_code: KeyCode) -> Option<u8> {
    match key_code {
        KeyCode::Left => Some(BUTTON_KEY_LEFT),
        KeyCode::Right => Some(BUTTON_KEY_RIGHT),
        KeyCode::Home => Some(BUTTON_KEY_HOME),
        KeyCode::End => Some(BUTTON_KEY_END),
        KeyCode::Insert => Some(BUTTON_KEY_INSERT),
        KeyCode::Delete => Some(BUTTON_KEY_DELETE),
        KeyCode::Backspace => Some(BUTTON_KEY_BACKSPACE),
        KeyCode::Return => Some(BUTTON_KEY_RETURN),
        KeyCode::Up => Some(BUTTON_KEY_UP),
        KeyCode::Down => Some(BUTTON_KEY_DOWN),
        KeyCode::PgUp => Some(BUTTON_KEY_PG_UP),
        KeyCode::PgDown => Some(BUTTON_KEY_PG_DOWN),
        KeyCode::Tab => Some(BUTTON_KEY_TAB),
        KeyCode::Escape => Some(BUTTON_KEY_ESCAPE),
        _ => None,
    }
}

/// The button key code that a key of the keyboard stands for, if it stands
/// for one.
pub fn key_code_to_button_key_code(key_code: KeyCode) -> (key: Option<ButtonKeyCode>)
    ensures
        key == (match spec_key_code_to_button_key_code(key_code) {
            Some(code) => Some(ButtonKeyCode::spec_new(code)),
            None => None,
        }),
{
    let code: u8 = match key_code {
        KeyCode::Left => BUTTON_KEY_LEFT,
        KeyCode::Right => BUTTON_KEY_RIGHT,
        KeyCode::Home => BUTTON_KEY_HOME,
        KeyCode::End => BUTTON_KEY_END,
        KeyCode::Insert => BUTTON_KEY_INSERT,
        KeyCode::Delete => BUTTON_KEY_DELETE,
        KeyCode::Backspace => BUTTON_KEY_BACKSPACE,
        KeyCode::Return => BUTTON_KEY_RETURN,
        KeyCode::Up => BUTTON_KEY_UP,
        KeyCode::Down => BUTTON_KEY_DOWN,
        KeyCode::PgUp => BUTTON_KEY_PG_UP,
        KeyCode::PgDown => BUTTON_KEY_PG_DOWN,
        KeyCode::Tab => BUTTON_KEY_TAB,
        KeyCode::Escape => BUTTON_KEY_ESCAPE,
        _ => {
            return None;
        },
    };
    ButtonKeyCode::try_from(code)
}

/// What the host reports to the player. Mouse positions are in twips, in
/// the coordinates of the viewport.
#[derive(Clone, Copy, Debug, PartialEq, Eq, Structural)]
pub enum PlayerEvent {
    KeyDown { key_code: KeyCode },
    MouseMove { x: Twips, y: Twips },
    MouseUp { x: Twips, y: Twips },
    MouseDown { x: Twips, y: Twips },
    MouseLeft,
    TextInput { codepoint: char },
}

/// What the player reports to a button.
#[derive(Clone, Copy, Debug, PartialEq, Eq, Structural)]
pub enum ButtonEvent {
    Press,
    Release,
    RollOut,
    RollOver,
    KeyPress { key_code: ButtonKeyCode },
}

/// What the player reports to the clips of the scene.
#[derive(Clone, Copy, Debug, PartialEq, Eq, Structural)]
pub enum ClipEvent {
    KeyDown,
    MouseDown,
    MouseMove,
    MouseUp,
}

} // verus!
