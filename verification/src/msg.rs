//! Socket messages: the transport-facing envelope.
//!
//! `SocketInput` flows client to server, `SocketOutput` server to
//! client.  The first message on a newly upgraded socket is always the
//! full `State` snapshot; everything after it is a delta.  The state
//! maps are carried as key-ordered entry lists.

use vstd::prelude::*;

use crate::hid::{Button, Key, KeyboardState, KeyboardStateV, Led, MouseState, MouseStateV};
use crate::ids::{ButtonId, LedId};

verus! {

/// Incoming message
#[derive(Clone, Debug, PartialEq, Eq)]
pub enum SocketInput {
    /// Change a button's state
    Button {
        /// Target button
        button: ButtonId,
        /// Requested state
        state: bool,
    },
    /// Press or release a keyboard key
    KeyboardKey {
        /// Target key
        key: Key,
        /// Pressed or released
        state: bool,
    },
    /// Press or release a mouse button
    MouseButton {
        /// Target button
        button: Button,
        /// Pressed or released
        state: bool,
    },
    /// Move the mouse pointer
    MousePointer {
        /// Horizontal coordinate
        x: i16,
        /// Vertical coordinate
        y: i16,
    },
    /// Turn the mouse wheel
    MouseWheel {
        /// Wheel value
        wheel: i8,
    },
}

/// Model of an incoming message.
pub enum SocketInputV {
    /// Change a button's state
    Button { button: ButtonId, state: bool },
    /// Press or release a keyboard key
    KeyboardKey { key: u8, state: bool },
    /// Press or release a mouse button
    MouseButton { button: u8, state: bool },
    /// Move the mouse pointer
    MousePointer { x: i16, y: i16 },
    /// Turn the mouse wheel
    MouseWheel { wheel: i8 },
}

impl View for SocketInput {
    type V = SocketInputV;

    open spec fn view(&self) -> SocketInputV {
        match self {
            SocketInput::Button { button, state } => SocketInputV::Button {
                button: *button,
                state: *state,
            },
            SocketInput::KeyboardKey { key, state } => SocketInputV::KeyboardKey {
                key: key.code,
                state: *state,
            },
            SocketInput::MouseButton { button, state } => SocketInputV::MouseButton {
                button: button.code,
                state: *state,
            },
            SocketInput::MousePointer { x, y } => SocketInputV::MousePointer { x: *x, y: *y },
            SocketInput::MouseWheel { wheel } => SocketInputV::MouseWheel { wheel: *wheel },
        }
    }
}

/// Outgoing message
#[derive(Clone, Debug, PartialEq, Eq)]
pub enum SocketOutput {
    /// Initial state
    State {
        /// Led states
        leds: Vec<(LedId, bool)>,
        /// Button states
        buttons: Vec<(ButtonId, bool)>,
        /// Keyboard state
        keyboard: Option<KeyboardState>,
        /// Mouse state
        mouse: Option<MouseState>,
    },
    /// LED state change
    Led {
        /// Source LED
        led: LedId,
        /// New state
        state: bool,
    },
    /// Button state change
    Button {
        /// Source button
        button: ButtonId,
        /// New state
        state: bool,
    },
    /// Keyboard key state change
    KeyboardKey {
        /// The key
        key: Key,
        /// Pressed or released
        state: bool,
    },
    /// Keyboard led state change
    KeyboardLed {
        /// The LED
        led: Led,
        /// Lit or cleared
        state: bool,
    },
    /// Mouse button state change
    MouseButton {
        /// The button
        button: Button,
        /// Pressed or released
        state: bool,
    },
    /// Mouse pointer change
    MousePointer {
        /// Horizontal coordinate
        x: i16,
        /// Vertical coordinate
        y: i16,
    },
    /// Mouse wheel change
    MouseWheel {
        /// Wheel value
        wheel: i8,
    },
    /// Video frame
    VideoFrame {
        /// One MJPEG-encoded image
        frame: Vec<u8>,
    },
}

/// Model of an outgoing message.
pub enum SocketOutputV {
    /// Initial state
    State {
        leds: Seq<(LedId, bool)>,
        buttons: Seq<(ButtonId, bool)>,
        keyboard: Option<KeyboardStateV>,
        mouse: Option<MouseStateV>,
    },
    /// LED state change
    Led { led: LedId, state: bool },
    /// Button state change
    Button { button: ButtonId, state: bool },
    /// Keyboard key state change
    KeyboardKey { key: u8, state: bool },
    /// Keyboard led state change
    KeyboardLed { led: u8, state: bool },
    /// Mouse button state change
    MouseButton { button: u8, state: bool },
    /// Mouse pointer change
    MousePointer { x: i16, y: i16 },
    /// Mouse wheel change
    MouseWheel { wheel: i8 },
    /// Video frame
    VideoFrame { frame: Seq<u8> },
}

impl View for SocketOutput {
    type V = SocketOutputV;

    open spec fn view(&self) -> SocketOutputV {
        match self {
            SocketOutput::State { leds, buttons, keyboard, mouse } => SocketOutputV::State {
                leds: leds@,
                buttons: buttons@,
                keyboard: match keyboard {
                    Some(k) => Some(k@),
                    None => None,
                },
                mouse: match mouse {
                    Some(m) => Some(m@),
                    None => None,
                },
            },
            SocketOutput::Led { led, state } => SocketOutputV::Led { led: *led, state: *state },
            SocketOutput::Button { button, state } => SocketOutputV::Button {
                button: *button,
                state: *state,
            },
            SocketOutput::KeyboardKey { key, state } => SocketOutputV::KeyboardKey {
                key: key.code,
                state: *state,
            },
            SocketOutput::KeyboardLed { led, state } => SocketOutputV::KeyboardLed {
                led: led.code,
                state: *state,
            },
            SocketOutput::MouseButton { button, state } => SocketOutputV::MouseButton {
                button: button.code,
                state: *state,
            },
            SocketOutput::MousePointer { x, y } => SocketOutputV::MousePointer { x: *x, y: *y },
            SocketOutput::MouseWheel { wheel } => SocketOutputV::MouseWheel { wheel: *wheel },
            SocketOutput::VideoFrame { frame } => SocketOutputV::VideoFrame { frame: frame@ },
        }
    }
}

} // verus!
