//! The server hub: the aggregate of all peripherals.
//!
//! The hub is constructed once from configuration and owns the
//! authoritative state of every peripheral.  Transports read snapshots
//! and dispatch incoming socket messages through it; the device action
//! each dispatch returns is what the owning task must perform on the
//! hardware.

use vstd::prelude::*;

use crate::addr::BindAddr;
use crate::buttons::{ButtonConfig, Buttons};
use crate::hid::{KeyboardState, KeyboardStateV, MouseState, MouseStateV};
use crate::ids::{ButtonId, LedId};
use crate::leds::{LedConfig, Leds};
use crate::msg::{SocketInput, SocketOutput, SocketOutputV};
use crate::result::Error;
use crate::video::VideoConfig;

verus! {

/// HID gadget device paths.
#[derive(Clone, Debug, PartialEq, Eq)]
pub struct HidConfig {
    /// Keyboard gadget device, when present.
    pub keyboard: Option<String>,
    /// Mouse gadget device, when present.
    pub mouse: Option<String>,
}

/// Server configuration
#[derive(Clone, Debug, PartialEq, Eq)]
pub struct ServerConfig {
    /// Service bindings
    pub binds: Vec<BindAddr>,
    /// GPIO buttons
    pub buttons: Vec<(ButtonId, ButtonConfig)>,
    /// GPIO LEDs
    pub leds: Vec<(LedId, LedConfig)>,
    /// HID devices
    pub hid: Option<HidConfig>,
    /// Video device
    pub video: Option<VideoConfig>,
}

impl ServerConfig {
    /// Configuration keys are maps, so identifiers are unique.
    pub open spec fn wf(&self) -> bool {
        (forall|i: int, j: int|
            0 <= i < j < self.buttons@.len() ==> (#[trigger] self.buttons@[i]).0 != (
            #[trigger] self.buttons@[j]).0) && (forall|i: int, j: int|
            0 <= i < j < self.leds@.len() ==> (#[trigger] self.leds@[i]).0 != (
            #[trigger] self.leds@[j]).0)
    }
}

/// What a dispatched request asks the owning device task to do.
#[derive(Clone, Debug, PartialEq, Eq)]
pub enum DeviceAction {
    /// Drive a button's GPIO line; `write` is false when the line
    /// already carries the value and the write is elided.
    ButtonLine {
        /// The button.
        button: ButtonId,
        /// The level to drive.
        state: bool,
        /// Whether the line must actually be written.
        write: bool,
    },
    /// Send a keyboard input report to the gadget device.
    KeyboardReport {
        /// The full report after the change.
        state: KeyboardState,
    },
    /// Send a mouse input report to the gadget device.
    MouseReport {
        /// The full report after the change.
        state: MouseState,
    },
}

/// Server instance: the authoritative state of every peripheral.
pub struct Server {
    buttons: Buttons,
    leds: Leds,
    keyboard: Option<KeyboardState>,
    mouse: Option<MouseState>,
    video: bool,
}

impl Server {
    /// The keyboard image is well formed when present.
    pub open spec fn wf(&self) -> bool {
        self.buttons_ref().wf() && self.leds_ref().wf() && match self.keyboard_spec() {
            Some(k) => k.keys_unique(),
            None => true,
        }
    }

    /// The button collection.
    pub closed spec fn buttons_ref(&self) -> Buttons {
        self.buttons
    }

    /// The LED collection.
    pub closed spec fn leds_ref(&self) -> Leds {
        self.leds
    }

    /// The keyboard image, when a keyboard is configured.
    pub closed spec fn keyboard_spec(&self) -> Option<KeyboardState> {
        self.keyboard
    }

    /// The mouse image, when a mouse is configured.
    pub closed spec fn mouse_spec(&self) -> Option<MouseState> {
        self.mouse
    }

    /// Whether a video device is configured.
    pub closed spec fn video_spec(&self) -> bool {
        self.video
    }

    /// Instantiate the server: one button per configured button, one
    /// LED per configured LED seeded with the level read from its
    /// line, empty HID images when HID is configured, the video flag
    /// from configuration.
    pub fn new(config: &ServerConfig, led_levels: &Vec<(LedId, bool)>) -> (r: Server)
        requires
            config.wf(),
            led_levels@.len() == config.leds@.len(),
            forall|i: int| 0 <= i < led_levels@.len() ==> (#[trigger] led_levels@[i]).0
                == config.leds@[i].0,
        ensures
            r.wf(),
            r.buttons_ref().entries().len() == config.buttons@.len(),
            forall|i: int| 0 <= i < config.buttons@.len() ==> (
            #[trigger] r.buttons_ref().entries()[i]).0 == config.buttons@[i].0
                && r.buttons_ref().entries()[i].1.state_spec() == false,
            r.leds_ref().entries().len() == led_levels@.len(),
            forall|i: int| 0 <= i < led_levels@.len() ==> (
            #[trigger] r.leds_ref().entries()[i]).0 == led_levels@[i].0
                && r.leds_ref().entries()[i].1.state_spec() == led_levels@[i].1,
            r.keyboard_spec() is Some <==> (config.hid matches Some(h) && h.keyboard is Some),
            r.mouse_spec() is Some <==> (config.hid matches Some(h) && h.mouse is Some),
            r.keyboard_spec() matches Some(k) ==> k@.keys.len() == 0 && k@.leds.len() == 0,
            r.mouse_spec() matches Some(m) ==> m@.buttons.len() == 0 && m@.x == 0 && m@.y == 0
                && m@.wheel == 0,
            r.video_spec() == (config.video is Some),
    {
        let mut button_ids: Vec<ButtonId> = Vec::new();
        let mut k: usize = 0;
        while k < config.buttons.len()
            invariant
                k <= config.buttons@.len(),
                button_ids@.len() == k,
                forall|i: int| 0 <= i < k ==> #[trigger] button_ids@[i] == config.buttons@[i].0,
            decreases config.buttons@.len() - k,
        {
            button_ids.push(config.buttons[k].0);
            k += 1;
        }
        proof {
            assert forall|i: int, j: int| 0 <= i < j < button_ids@.len() implies button_ids@[i]
                != button_ids@[j] by {
                assert(config.buttons@[i].0 != config.buttons@[j].0);
            }
        }
        let buttons = Buttons::new(&button_ids);
        proof {
            assert forall|i: int, j: int| 0 <= i < j < led_levels@.len() implies (
            #[trigger] led_levels@[i]).0 != (#[trigger] led_levels@[j]).0 by {
                assert(config.leds@[i].0 != config.leds@[j].0);
            }
        }
        let leds = Leds::new(led_levels);
        let keyboard = match &config.hid {
            Some(h) => match &h.keyboard {
                Some(_) => Some(KeyboardState::new()),
                None => None,
            },
            None => None,
        };
        let mouse = match &config.hid {
            Some(h) => match &h.mouse {
                Some(_) => Some(MouseState::new()),
                None => None,
            },
            None => None,
        };
        let video = match &config.video {
            Some(_) => true,
            None => false,
        };
        Server { buttons, leds, keyboard, mouse, video }
    }

    /// Get buttons
    pub fn buttons(&self) -> (r: &Buttons)
        ensures
            r == self.buttons_ref(),
    {
        &self.buttons
    }

    /// Get LEDs
    pub fn leds(&self) -> (r: &Leds)
        ensures
            r == self.leds_ref(),
    {
        &self.leds
    }

    /// Get the keyboard image
    pub fn keyboard(&self) -> (r: &Option<KeyboardState>)
        ensures
            r == self.keyboard_spec(),
    {
        &self.keyboard
    }

    /// Get the mouse image
    pub fn mouse(&self) -> (r: &Option<MouseState>)
        ensures
            r == self.mouse_spec(),
    {
        &self.mouse
    }

    /// Whether video capture is configured
    pub fn video(&self) -> (r: bool)
        ensures
            r == self.video_spec(),
    {
        self.video
    }

    /// The snapshot's LED map: every LED with its current state, in
    /// construction order.
    pub open spec fn led_states(&self) -> Seq<(LedId, bool)> {
        self.leds_ref().entries().map_values(|e: (LedId, crate::leds::Led)| (e.0, e.1.state_spec()))
    }

    /// The snapshot's button map: every button with its current
    /// state, in construction order.
    pub open spec fn button_states(&self) -> Seq<(ButtonId, bool)> {
        self.buttons_ref().entries().map_values(
            |e: (ButtonId, crate::buttons::Button)| (e.0, e.1.state_spec()),
        )
    }

    /// What the snapshot of the current state looks like.
    pub open spec fn snapshot_spec(&self) -> SocketOutputV {
        SocketOutputV::State {
            leds: self.led_states(),
            buttons: self.button_states(),
            keyboard: match self.keyboard_spec() {
                Some(k) => Some(k@),
                None => None,
            },
            mouse: match self.mouse_spec() {
                Some(m) => Some(m@),
                None => None,
            },
        }
    }

    /// Build the full `State` snapshot: every LED and button with its
    /// current state, plus the HID images when configured.
    pub fn create_socket_state(&self) -> (r: SocketOutput)
        ensures
            r@ == self.snapshot_spec(),
            r is State,
    {
        let mut led_entries: Vec<(LedId, bool)> = Vec::new();
        let n = self.leds.len();
        let mut i: usize = 0;
        while i < n
            invariant
                i <= n,
                n == self.leds_ref().entries().len(),
                led_entries@.len() == i,
                forall|j: int| 0 <= j < i ==> #[trigger] led_entries@[j] == self.led_states()[j],
            decreases n - i,
        {
            led_entries.push(self.leds.get(i));
            i += 1;
        }
        let mut button_entries: Vec<(ButtonId, bool)> = Vec::new();
        let m = self.buttons.len();
        let mut i: usize = 0;
        while i < m
            invariant
                i <= m,
                m == self.buttons_ref().entries().len(),
                button_entries@.len() == i,
                forall|j: int| 0 <= j < i ==> #[trigger] button_entries@[j]
                    == self.button_states()[j],
            decreases m - i,
        {
            button_entries.push(self.buttons.get(i));
            i += 1;
        }
        let keyboard = match &self.keyboard {
            Some(k) => Some(k.duplicate()),
            None => None,
        };
        let mouse = match &self.mouse {
            Some(m) => Some(m.duplicate()),
            None => None,
        };
        let r = SocketOutput::State { leds: led_entries, buttons: button_entries, keyboard, mouse };
        proof {
            assert(led_entries@ =~= self.led_states());
            assert(button_entries@ =~= self.button_states());
        }
        r
    }

    /// Dispatch one incoming socket message: update the authoritative
    /// state and say what the owning device task must do.  Fails
    /// exactly on a button the configuration does not hold, or on a
    /// HID request when that endpoint is not configured.
    pub fn process_socket_input(&mut self, req: &SocketInput) -> (r: Result<DeviceAction, Error>)
        requires
            old(self).wf(),
        ensures
            final(self).wf(),
            final(self).leds_ref() == old(self).leds_ref(),
            final(self).video_spec() == old(self).video_spec(),
            match req {
                SocketInput::Button { button, state } => {
                    &&& (r is Ok <==> old(self).buttons_ref().has(*button))
                    &&& (r matches Ok(a) ==> a matches DeviceAction::ButtonLine {
                        button: b,
                        state: s,
                        write: _,
                    } && b == *button && s == *state)
                    &&& (r is Err ==> (r matches Err(e) && e is Other))
                    &&& final(self).buttons_ref().entries().len()
                        == old(self).buttons_ref().entries().len()
                    &&& (forall|i: int|
                        0 <= i < final(self).buttons_ref().entries().len() ==> (
                        #[trigger] final(self).buttons_ref().entries()[i]).0 == old(self).buttons_ref().entries()[i].0)
                    &&& (forall|i: int|
                        0 <= i < final(self).buttons_ref().entries().len() && old(self).buttons_ref().entries()[i].0 == *button ==> (#[trigger] final(self).buttons_ref().entries()[i]).1.state_spec() == *state)
                    &&& (forall|i: int|
                        0 <= i < final(self).buttons_ref().entries().len() && old(self).buttons_ref().entries()[i].0 != *button ==> (#[trigger] final(self).buttons_ref().entries()[i]).1 == old(self).buttons_ref().entries()[i].1)
                    &&& final(self).keyboard_spec() == old(self).keyboard_spec()
                    &&& final(self).mouse_spec() == old(self).mouse_spec()
                },
                SocketInput::KeyboardKey { key, state } => {
                    &&& (r is Ok <==> old(self).keyboard_spec() is Some)
                    &&& (r is Err ==> (r matches Err(e) && e is Other))
                    &&& (final(self).keyboard_spec() matches Some(k) ==> {
                        let k0 = old(self).keyboard_spec()->Some_0;
                        &&& crate::hid::has_code(k@.keys, key.code) == *state
                        &&& (forall|c: u8| c != key.code ==> crate::hid::has_code(k@.keys, c)
                            == crate::hid::has_code(k0@.keys, c))
                        &&& k@.leds == k0@.leds
                    })
                    &&& (final(self).keyboard_spec() is Some == old(self).keyboard_spec() is Some)
                    &&& (r matches Ok(a) ==> a matches DeviceAction::KeyboardReport { state: ks }
                        && final(self).keyboard_spec() matches Some(k) && ks@ == k@)
                    &&& final(self).buttons_ref() == old(self).buttons_ref()
                    &&& final(self).mouse_spec() == old(self).mouse_spec()
                },
                SocketInput::MouseButton { button, state } => {
                    &&& (r is Ok <==> old(self).mouse_spec() is Some)
                    &&& (r is Err ==> (r matches Err(e) && e is Other))
                    &&& (final(self).mouse_spec() matches Some(m) ==> {
                        let m0 = old(self).mouse_spec()->Some_0;
                        &&& crate::hid::has_code(m@.buttons, button.code) == *state
                        &&& (forall|c: u8| c != button.code ==> crate::hid::has_code(m@.buttons, c)
                            == crate::hid::has_code(m0@.buttons, c))
                        &&& m@.x == m0@.x
                        &&& m@.y == m0@.y
                        &&& m@.wheel == m0@.wheel
                    })
                    &&& (final(self).mouse_spec() is Some == old(self).mouse_spec() is Some)
                    &&& (r matches Ok(a) ==> a matches DeviceAction::MouseReport { state: ms }
                        && final(self).mouse_spec() matches Some(m) && ms@ == m@)
                    &&& final(self).buttons_ref() == old(self).buttons_ref()
                    &&& final(self).keyboard_spec() == old(self).keyboard_spec()
                },
                SocketInput::MousePointer { x, y } => {
                    &&& (r is Ok <==> old(self).mouse_spec() is Some)
                    &&& (r is Err ==> (r matches Err(e) && e is Other))
                    &&& (final(self).mouse_spec() matches Some(m) ==> {
                        let m0 = old(self).mouse_spec()->Some_0;
                        &&& m@.x == x
                        &&& m@.y == y
                        &&& m@.buttons == m0@.buttons
                        &&& m@.wheel == m0@.wheel
                    })
                    &&& (final(self).mouse_spec() is Some == old(self).mouse_spec() is Some)
                    &&& (r matches Ok(a) ==> a matches DeviceAction::MouseReport { state: ms }
                        && final(self).mouse_spec() matches Some(m) && ms@ == m@)
                    &&& final(self).buttons_ref() == old(self).buttons_ref()
                    &&& final(self).keyboard_spec() == old(self).keyboard_spec()
                },
                SocketInput::MouseWheel { wheel } => {
                    &&& (r is Ok <==> old(self).mouse_spec() is Some)
                    &&& (r is Err ==> (r matches Err(e) && e is Other))
                    &&& (final(self).mouse_spec() matches Some(m) ==> {
                        let m0 = old(self).mouse_spec()->Some_0;
                        &&& m@.wheel == wheel
                        &&& m@.buttons == m0@.buttons
                        &&& m@.x == m0@.x
                        &&& m@.y == m0@.y
                    })
                    &&& (final(self).mouse_spec() is Some == old(self).mouse_spec() is Some)
                    &&& (r matches Ok(a) ==> a matches DeviceAction::MouseReport { state: ms }
                        && final(self).mouse_spec() matches Some(m) && ms@ == m@)
                    &&& final(self).buttons_ref() == old(self).buttons_ref()
                    &&& final(self).keyboard_spec() == old(self).keyboard_spec()
                },
            },
    {
        match req {
            SocketInput::Button { button, state } => {
                match self.buttons.set_state(*button, *state) {
                    Some(write) => Ok(
                        DeviceAction::ButtonLine { button: *button, state: *state, write },
                    ),
                    None => Err(Error::Other("Unknown button".to_owned())),
                }
            },
            SocketInput::KeyboardKey { key, state } => {
                match &mut self.keyboard {
                    Some(k) => {
                        k.set_key(*key, *state);
                        Ok(DeviceAction::KeyboardReport { state: k.duplicate() })
                    },
                    None => Err(Error::Other("Keyboard disabled".to_owned())),
                }
            },
            SocketInput::MouseButton { button, state } => {
                match &mut self.mouse {
                    Some(m) => {
                        m.set_button(*button, *state);
                        Ok(DeviceAction::MouseReport { state: m.duplicate() })
                    },
                    None => Err(Error::Other("Mouse disabled".to_owned())),
                }
            },
            SocketInput::MousePointer { x, y } => {
                match &mut self.mouse {
                    Some(m) => {
                        m.set_pointer(*x, *y);
                        Ok(DeviceAction::MouseReport { state: m.duplicate() })
                    },
                    None => Err(Error::Other("Mouse disabled".to_owned())),
                }
            },
            SocketInput::MouseWheel { wheel } => {
                match &mut self.mouse {
                    Some(m) => {
                        m.set_wheel(*wheel);
                        Ok(DeviceAction::MouseReport { state: m.duplicate() })
                    },
                    None => Err(Error::Other("Mouse disabled".to_owned())),
                }
            },
        }
    }

    /// Record an LED edge event: the LED takes the edge's level.
    /// Returns the new level, or `None` when no such LED exists.
    pub fn apply_led_edge(&mut self, id: LedId, edge: crate::leds::Edge) -> (r: Option<bool>)
        requires
            old(self).wf(),
        ensures
            final(self).wf(),
            r is Some <==> old(self).leds_ref().has(id),
            r is Some ==> r == Some(edge is Rising),
            final(self).buttons_ref() == old(self).buttons_ref(),
            final(self).keyboard_spec() == old(self).keyboard_spec(),
            final(self).mouse_spec() == old(self).mouse_spec(),
            final(self).video_spec() == old(self).video_spec(),
            final(self).leds_ref().entries().len() == old(self).leds_ref().entries().len(),
            forall|i: int| 0 <= i < final(self).leds_ref().entries().len() ==> (#[trigger] final(self).leds_ref().entries()[i]).0 == old(self).leds_ref().entries()[i].0,
            forall|i: int|
                0 <= i < final(self).leds_ref().entries().len() && old(self).leds_ref().entries()[i].0 == id ==> (#[trigger] final(self).leds_ref().entries()[i]).1.state_spec() == (edge is Rising),
            forall|i: int|
                0 <= i < final(self).leds_ref().entries().len() && old(self).leds_ref().entries()[i].0 != id ==> (#[trigger] final(self).leds_ref().entries()[i]).1 == old(self).leds_ref().entries()[i].1,
    {
        self.leds.apply_edge(id, edge)
    }

    /// Build the message sequence of a fresh socket session: the full
    /// snapshot first, then the deltas in order.  No delta precedes
    /// the snapshot.
    pub fn session_messages(&self, deltas: Vec<SocketOutput>) -> (r: Vec<SocketOutput>)
        ensures
            r@.len() == deltas@.len() + 1,
            r@[0]@ == self.snapshot_spec(),
            r@[0] is State,
            forall|i: int| 1 <= i < r@.len() ==> r@[i] == deltas@[i - 1],
    {
        let snapshot = self.create_socket_state();
        let mut r: Vec<SocketOutput> = Vec::new();
        r.push(snapshot);
        let mut rest = deltas;
        let ghost deltas0 = rest@;
        while rest.len() > 0
            invariant
                rest@.len() <= deltas0.len(),
                rest@ == deltas0.skip(deltas0.len() - rest@.len()),
                r@.len() == 1 + deltas0.len() - rest@.len(),
                r@[0]@ == self.snapshot_spec(),
                r@[0] is State,
                forall|j: int| 1 <= j < r@.len() ==> r@[j] == deltas0[j - 1],
            decreases rest@.len(),
        {
            let ghost done = deltas0.len() - rest@.len();
            let d = rest.remove(0);
            proof {
                assert(d == deltas0.skip(done as int)[0]);
                assert(d == deltas0[done as int]);
                assert(rest@ =~= deltas0.skip(done + 1));
            }
            r.push(d);
        }
        r
    }
}

/// The stream of a fresh socket session: the snapshot, then deltas.
pub open spec fn session_stream(snapshot: SocketOutputV, deltas: Seq<SocketOutputV>) -> Seq<
    SocketOutputV,
> {
    seq![snapshot] + deltas
}

/// Snapshot-first: the first message of every fresh session stream is
/// the `State` snapshot, and every delta comes after it, in order.
pub proof fn lemma_snapshot_first(snapshot: SocketOutputV, deltas: Seq<SocketOutputV>)
    requires
        snapshot is State,
    ensures
        session_stream(snapshot, deltas).len() == deltas.len() + 1,
        session_stream(snapshot, deltas)[0] is State,
        session_stream(snapshot, deltas)[0] == snapshot,
        forall|i: int| 1 <= i <= deltas.len() ==> #[trigger] session_stream(snapshot, deltas)[i]
            == deltas[i - 1],
{
    assert forall|i: int| 1 <= i <= deltas.len() implies #[trigger] session_stream(
        snapshot,
        deltas,
    )[i] == deltas[i - 1] by {
        assert(session_stream(snapshot, deltas)[i] == deltas[i - 1]);
    }
}

} // verus!
