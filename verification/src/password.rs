//! The screen with the password prompt and the on-screen keyboard.

use vstd::prelude::*;

use crate::state::{Scene, State};

verus! {

/// What the on-screen keyboard reports after a frame.
#[derive(Clone, Copy, PartialEq, Eq, Structural, Debug)]
pub enum KeyboardEvent {
    /// Text was changed.
    TextChanged,
    /// Default state when the keyboard is open.
    Open,
    /// Default state when the keyboard is closed.
    Closed,
    /// Keyboard was closed this update cycle.
    JustClosed,
    /// Input was just cancelled by the user.
    JustCancelled,
}

/// Outside work that the password screen asks for.
pub enum PasswordAction {
    Nothing,
    /// Open the on-screen keyboard.
    OpenKeyboard,
}

/// For how many frames the password is shown in clear after a character
/// was erased.
pub const SHOW_PASSWORD_FRAMES: u8 = 60;

/// Advances the password screen by one frame, after the keyboard reported
/// `event` and the password became `state.password`; `old_len` is the
/// password's length in bytes before the frame.
pub fn update_password(state: &mut State, event: KeyboardEvent, old_len: usize) -> (r:
    PasswordAction)
    ensures
        final(state).rom_state == old(state).rom_state,
        ({
            let s = State {
                cursor: (if old(state).cursor == usize::MAX {
                    0
                } else {
                    old(state).cursor + 1
                }) as usize,
                show_password: (if old(state).show_password > 0 {
                    old(state).show_password - 1
                } else {
                    0
                }) as u8,
                ..*old(state)
            };
            match event {
                KeyboardEvent::TextChanged => r is Nothing && *final(state) == (State {
                    show_password: if (vstd::utf8::encode_utf8(s.password@).len() as usize) < old_len {
                        SHOW_PASSWORD_FRAMES
                    } else {
                        s.show_password
                    },
                    ..s
                }),
                KeyboardEvent::Open => r is Nothing && *final(state) == s,
                KeyboardEvent::Closed => r is OpenKeyboard && *final(state) == s,
                KeyboardEvent::JustClosed => r is Nothing && *final(state) == (State {
                    rendered_message: false,
                    cursor: 0,
                    wifi_wait: 0,
                    tcp_wait: 0,
                    show_password: 0,
                    scene: Scene::Connection,
                    ..s
                }),
                KeyboardEvent::JustCancelled => r is Nothing && *final(state) == (State {
                    rendered_message: false,
                    cursor: 0,
                    wifi_wait: 0,
                    tcp_wait: 0,
                    show_password: 0,
                    scene: Scene::Points,
                    ..s
                }),
            }
        }),
{
    state.cursor = state.cursor.wrapping_add(1);
    state.show_password = if state.show_password > 0 {
        state.show_password - 1
    } else {
        0
    };
    match event {
        KeyboardEvent::TextChanged => {
            if state.password.as_str().len() < old_len {
                state.show_password = SHOW_PASSWORD_FRAMES;
            }
            PasswordAction::Nothing
        },
        KeyboardEvent::Open => PasswordAction::Nothing,
        KeyboardEvent::Closed => PasswordAction::OpenKeyboard,
        KeyboardEvent::JustClosed => {
            state.transition(Scene::Connection);
            PasswordAction::Nothing
        },
        KeyboardEvent::JustCancelled => {
            state.transition(Scene::Points);
            PasswordAction::Nothing
        },
    }
}

} // verus!
