//! Client-side command model.
//!
//! The command-line client shows peripheral status or pushes a button.
//! The argument shapes and the press/release decision are the logic;
//! reading the command line and talking to the bus happen outside.

use vstd::prelude::*;

use crate::ids::{ButtonId, LedId};

verus! {

/// Client action to do
#[derive(Clone, Debug, PartialEq, Eq)]
pub enum Action {
    /// Show status
    Status(StatusArgs),
    /// Push buttons
    Button(ButtonArgs),
}

/// Show status
#[derive(Clone, Copy, Debug, PartialEq, Eq, Structural)]
pub struct StatusArgs {
}

/// Push buttons
#[derive(Clone, Debug, PartialEq, Eq)]
pub struct ButtonArgs {
    /// Press button
    pub press: bool,
    /// Release button
    pub release: bool,
    /// Delay between press and release (milliseconds)
    pub delay: u32,
    /// Target button name
    pub button: String,
}

impl ButtonArgs {
    /// The default press-to-release delay, in milliseconds.
    pub fn default_delay() -> (r: u32)
        ensures
            r == 100,
    {
        100
    }

    /// Which of press and release to perform: both when neither was
    /// asked for, else exactly what was asked for.
    pub fn plan(&self) -> (r: (bool, bool))
        ensures
            r == if self.press || self.release {
                (self.press, self.release)
            } else {
                (true, true)
            },
    {
        if self.press || self.release {
            (self.press, self.release)
        } else {
            (true, true)
        }
    }
}

/// A state transition observed by a client.
#[derive(Clone, Copy, Debug, PartialEq, Eq, Structural)]
pub enum ClientEvent {
    /// A button changed state.
    Button {
        /// The button.
        id: ButtonId,
        /// Its new state.
        state: bool,
    },
    /// An LED changed state.
    Led {
        /// The LED.
        id: LedId,
        /// Its new state.
        state: bool,
    },
}

} // verus!
