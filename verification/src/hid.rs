//! HID report models and report diffing.
//!
//! Keys, keyboard LEDs and mouse buttons are carried as their numeric
//! usage codes, the form they take on the wire.  An endpoint keeps the
//! last report in each direction; the diff of two consecutive reports
//! is the set of typed change events the fan-out layer emits.

use vstd::prelude::*;

verus! {

/// A keyboard key, by its numeric usage code.
#[derive(Clone, Copy, Debug, PartialEq, Eq, Structural, Hash)]
pub struct Key {
    /// Usage code; valid codes lie below `0xe8`.
    pub code: u8,
}

/// A keyboard LED, by its numeric code.
#[derive(Clone, Copy, Debug, PartialEq, Eq, Structural, Hash)]
pub struct Led {
    /// LED code; valid codes lie in `1..=5`.
    pub code: u8,
}

/// A mouse button, by its numeric code.
#[derive(Clone, Copy, Debug, PartialEq, Eq, Structural, Hash)]
pub struct Button {
    /// Button code; valid codes lie in `0..=3`.
    pub code: u8,
}

/// The largest valid key code.
pub const KEY_CODE_MAX: u8 = 0xe7;

/// The largest valid mouse button code.
pub const BUTTON_CODE_MAX: u8 = 3;

/// Keyboard state: pressed keys and lit LEDs.
#[derive(Clone, Debug, PartialEq, Eq)]
pub struct KeyboardState {
    /// Pressed keys.
    pub keys: Vec<Key>,
    /// Lit LEDs.
    pub leds: Vec<Led>,
}

/// Model of a keyboard state: the key and LED codes.
pub struct KeyboardStateV {
    /// Pressed key codes.
    pub keys: Seq<u8>,
    /// Lit LED codes.
    pub leds: Seq<u8>,
}

impl View for KeyboardState {
    type V = KeyboardStateV;

    open spec fn view(&self) -> KeyboardStateV {
        KeyboardStateV {
            keys: self.keys@.map_values(|k: Key| k.code),
            leds: self.leds@.map_values(|l: Led| l.code),
        }
    }
}

/// Mouse state: pressed buttons, pointer coordinates, wheel value.
#[derive(Clone, Debug, PartialEq, Eq)]
pub struct MouseState {
    /// Pressed buttons.
    pub buttons: Vec<Button>,
    /// Pointer horizontal coordinate.
    pub x: i16,
    /// Pointer vertical coordinate.
    pub y: i16,
    /// Wheel coordinate.
    pub wheel: i8,
}

/// Model of a mouse state.
pub struct MouseStateV {
    /// Pressed button codes.
    pub buttons: Seq<u8>,
    /// Pointer horizontal coordinate.
    pub x: i16,
    /// Pointer vertical coordinate.
    pub y: i16,
    /// Wheel coordinate.
    pub wheel: i8,
}

impl View for MouseState {
    type V = MouseStateV;

    open spec fn view(&self) -> MouseStateV {
        MouseStateV {
            buttons: self.buttons@.map_values(|b: Button| b.code),
            x: self.x,
            y: self.y,
            wheel: self.wheel,
        }
    }
}

impl KeyboardState {
    /// An empty report: no keys pressed, no LEDs lit.
    pub fn new() -> (r: KeyboardState)
        ensures
            r@.keys.len() == 0,
            r@.leds.len() == 0,
            r.keys_unique(),
    {
        let r = KeyboardState { keys: Vec::new(), leds: Vec::new() };
        proof {
            assert(r@.keys =~= Seq::<u8>::empty());
            assert(r@.leds =~= Seq::<u8>::empty());
        }
        r
    }

    /// Pressed keys are listed once each.
    pub open spec fn keys_unique(&self) -> bool {
        forall|i: int, j: int|
            0 <= i < j < self@.keys.len() ==> self@.keys[i] != self@.keys[j]
    }

    /// Press or release a key in the input image: afterwards the key
    /// is pressed exactly when requested, and no other key moved.
    pub fn set_key(&mut self, key: Key, pressed: bool)
        requires
            old(self).keys_unique(),
        ensures
            final(self).keys_unique(),
            has_code(final(self)@.keys, key.code) == pressed,
            forall|c: u8| c != key.code ==> has_code(final(self)@.keys, c) == has_code(
                old(self)@.keys,
                c,
            ),
            final(self)@.leds == old(self)@.leds,
    {
        let ghost old_codes = self@.keys;
        if pressed {
            if !keys_contain(&self.keys, key.code) {
                let ghost before = self.keys@;
                self.keys.push(key);
                proof {
                    assert(self@.keys =~= before.map_values(|k: Key| k.code).push(key.code));
                    assert(self@.keys[self@.keys.len() - 1] == key.code);
                    assert forall|c: u8| c != key.code implies has_code(self@.keys, c)
                        == has_code(old_codes, c) by {
                        if has_code(old_codes, c) {
                            let i = choose|i: int|
                                0 <= i < old_codes.len() && old_codes[i] == c;
                            assert(self@.keys[i] == c);
                        }
                        if has_code(self@.keys, c) {
                            let i = choose|i: int|
                                0 <= i < self@.keys.len() && self@.keys[i] == c;
                            assert(i < old_codes.len());
                            assert(old_codes[i] == c);
                        }
                    }
                }
            }
        } else {
            let mut out: Vec<Key> = Vec::new();
            let mut i: usize = 0;
            while i < self.keys.len()
                invariant
                    i <= self.keys@.len(),
                    old_codes == self.keys@.map_values(|k: Key| k.code),
                    old(self).keys_unique(),
                    self.keys@ == old(self).keys@,
                    forall|a: int, b: int|
                        0 <= a < b < out@.len() ==> out@[a].code != out@[b].code,
                    forall|a: int| 0 <= a < out@.len() ==> (#[trigger] out@[a]).code != key.code,
                    forall|c: u8| c != key.code ==> has_code(
                        out@.map_values(|k: Key| k.code),
                        c,
                    ) == has_code(old_codes.take(i as int), c),
                decreases self.keys@.len() - i,
            {
                let k = self.keys[i];
                let ghost out0 = out@;
                if k.code != key.code {
                    out.push(k);
                    proof {
                        assert(out@.map_values(|x: Key| x.code) =~= out0.map_values(
                            |x: Key| x.code,
                        ).push(k.code));
                        assert forall|a: int, b: int| 0 <= a < b < out@.len() implies out@[a].code
                            != out@[b].code by {
                            if b < out0.len() {
                            } else {
                                assert(out@[b] == k);
                                assert(out@[a] == out0[a]);
                                assert(has_code(out0.map_values(|x: Key| x.code), out0[a].code))
                                    by {
                                    assert(out0.map_values(|x: Key| x.code)[a] == out0[a].code);
                                }
                                if out0[a].code == k.code {
                                    assert(has_code(old_codes.take(i as int), k.code));
                                    let j = choose|j: int|
                                        0 <= j < old_codes.take(i as int).len()
                                            && old_codes.take(i as int)[j] == k.code;
                                    assert(old_codes[j] == k.code);
                                    assert(old_codes[i as int] == k.code);
                                    assert(old(self)@.keys[j] != old(self)@.keys[i as int]);
                                }
                            }
                        }
                    }
                }
                proof {
                    let codes_i1 = old_codes.take(i as int + 1);
                    assert(codes_i1 =~= old_codes.take(i as int).push(old_codes[i as int]));
                    assert(old_codes[i as int] == k.code);
                    assert forall|c: u8| c != key.code implies has_code(
                        out@.map_values(|x: Key| x.code),
                        c,
                    ) == has_code(codes_i1, c) by {
                        let oc = out@.map_values(|x: Key| x.code);
                        let oc0 = out0.map_values(|x: Key| x.code);
                        if has_code(codes_i1, c) {
                            let j = choose|j: int| 0 <= j < codes_i1.len() && codes_i1[j] == c;
                            if j < i {
                                assert(has_code(old_codes.take(i as int), c)) by {
                                    assert(old_codes.take(i as int)[j] == c);
                                }
                                assert(has_code(oc0, c));
                                let a = choose|a: int| 0 <= a < oc0.len() && oc0[a] == c;
                                assert(oc[a] == c);
                            } else {
                                assert(c == k.code);
                                assert(oc[oc.len() - 1] == k.code);
                            }
                        }
                        if has_code(oc, c) {
                            let a = choose|a: int| 0 <= a < oc.len() && oc[a] == c;
                            if a < oc0.len() {
                                assert(oc0[a] == c);
                                assert(has_code(old_codes.take(i as int), c));
                                let j = choose|j: int|
                                    0 <= j < old_codes.take(i as int).len() && old_codes.take(
                                        i as int,
                                    )[j] == c;
                                assert(codes_i1[j] == c);
                            } else {
                                assert(oc[a] == k.code);
                                assert(codes_i1[codes_i1.len() - 1] == k.code);
                            }
                        }
                    }
                }
                i += 1;
            }
            proof {
                assert(old_codes.take(old_codes.len() as int) =~= old_codes);
            }
            self.keys = out;
        }
    }
}

impl MouseState {
    /// An empty report: no buttons pressed, pointer at the origin,
    /// wheel at rest.
    pub fn new() -> (r: MouseState)
        ensures
            r@.buttons.len() == 0,
            r@.x == 0,
            r@.y == 0,
            r@.wheel == 0,
    {
        let r = MouseState { buttons: Vec::new(), x: 0, y: 0, wheel: 0 };
        proof {
            assert(r@.buttons =~= Seq::<u8>::empty());
        }
        r
    }

    /// Press or release a button: afterwards the button is pressed
    /// exactly when requested, and no other field moved.
    pub fn set_button(&mut self, button: Button, pressed: bool)
        ensures
            has_code(final(self)@.buttons, button.code) == pressed,
            forall|c: u8| c != button.code ==> has_code(final(self)@.buttons, c) == has_code(
                old(self)@.buttons,
                c,
            ),
            final(self)@.x == old(self)@.x,
            final(self)@.y == old(self)@.y,
            final(self)@.wheel == old(self)@.wheel,
    {
        let ghost old_codes = self@.buttons;
        if pressed {
            if !buttons_contain(&self.buttons, button.code) {
                let ghost before = self.buttons@;
                self.buttons.push(button);
                proof {
                    assert(self@.buttons =~= before.map_values(|b: Button| b.code).push(
                        button.code,
                    ));
                    assert(self@.buttons[self@.buttons.len() - 1] == button.code);
                    assert forall|c: u8| c != button.code implies has_code(self@.buttons, c)
                        == has_code(old_codes, c) by {
                        if has_code(old_codes, c) {
                            let i = choose|i: int|
                                0 <= i < old_codes.len() && old_codes[i] == c;
                            assert(self@.buttons[i] == c);
                        }
                        if has_code(self@.buttons, c) {
                            let i = choose|i: int|
                                0 <= i < self@.buttons.len() && self@.buttons[i] == c;
                            assert(i < old_codes.len());
                            assert(old_codes[i] == c);
                        }
                    }
                }
            }
        } else {
            let mut out: Vec<Button> = Vec::new();
            let mut i: usize = 0;
            while i < self.buttons.len()
                invariant
                    i <= self.buttons@.len(),
                    old_codes == self.buttons@.map_values(|b: Button| b.code),
                    self.buttons@ == old(self).buttons@,
                    self.x == old(self).x,
                    self.y == old(self).y,
                    self.wheel == old(self).wheel,
                    forall|a: int| 0 <= a < out@.len() ==> (#[trigger] out@[a]).code
                        != button.code,
                    forall|c: u8| c != button.code ==> has_code(
                        out@.map_values(|b: Button| b.code),
                        c,
                    ) == has_code(old_codes.take(i as int), c),
                decreases self.buttons@.len() - i,
            {
                let b = self.buttons[i];
                let ghost out0 = out@;
                if b.code != button.code {
                    out.push(b);
                    proof {
                        assert(out@.map_values(|x: Button| x.code) =~= out0.map_values(
                            |x: Button| x.code,
                        ).push(b.code));
                    }
                }
                proof {
                    let codes_i1 = old_codes.take(i as int + 1);
                    assert(codes_i1 =~= old_codes.take(i as int).push(old_codes[i as int]));
                    assert(old_codes[i as int] == b.code);
                    assert forall|c: u8| c != button.code implies has_code(
                        out@.map_values(|x: Button| x.code),
                        c,
                    ) == has_code(codes_i1, c) by {
                        let oc = out@.map_values(|x: Button| x.code);
                        let oc0 = out0.map_values(|x: Button| x.code);
                        if has_code(codes_i1, c) {
                            let j = choose|j: int| 0 <= j < codes_i1.len() && codes_i1[j] == c;
                            if j < i {
                                assert(has_code(old_codes.take(i as int), c)) by {
                                    assert(old_codes.take(i as int)[j] == c);
                                }
                                assert(has_code(oc0, c));
                                let a = choose|a: int| 0 <= a < oc0.len() && oc0[a] == c;
                                assert(oc[a] == c);
                            } else {
                                assert(c == b.code);
                                assert(oc[oc.len() - 1] == b.code);
                            }
                        }
                        if has_code(oc, c) {
                            let a = choose|a: int| 0 <= a < oc.len() && oc[a] == c;
                            if a < oc0.len() {
                                assert(oc0[a] == c);
                                assert(has_code(old_codes.take(i as int), c));
                                let j = choose|j: int|
                                    0 <= j < old_codes.take(i as int).len() && old_codes.take(
                                        i as int,
                                    )[j] == c;
                                assert(codes_i1[j] == c);
                            } else {
                                assert(oc[a] == b.code);
                                assert(codes_i1[codes_i1.len() - 1] == b.code);
                            }
                        }
                    }
                }
                i += 1;
            }
            proof {
                assert(old_codes.take(old_codes.len() as int) =~= old_codes);
            }
            self.buttons = out;
        }
    }

    /// Move the pointer to absolute coordinates.
    pub fn set_pointer(&mut self, x: i16, y: i16)
        ensures
            final(self)@.x == x,
            final(self)@.y == y,
            final(self)@.buttons == old(self)@.buttons,
            final(self)@.wheel == old(self)@.wheel,
    {
        self.x = x;
        self.y = y;
    }

    /// Set the wheel to an absolute value.
    pub fn set_wheel(&mut self, wheel: i8)
        ensures
            final(self)@.wheel == wheel,
            final(self)@.buttons == old(self)@.buttons,
            final(self)@.x == old(self)@.x,
            final(self)@.y == old(self)@.y,
    {
        self.wheel = wheel;
    }
}

/// Copy a vector of plain values.
fn dup_vec<T: Copy>(v: &Vec<T>) -> (r: Vec<T>)
    ensures
        r@ == v@,
{
    let mut r: Vec<T> = Vec::new();
    let mut i: usize = 0;
    while i < v.len()
        invariant
            i <= v@.len(),
            r@ == v@.take(i as int),
        decreases v@.len() - i,
    {
        r.push(v[i]);
        proof {
            assert(r@ =~= v@.take(i as int + 1));
        }
        i += 1;
    }
    proof {
        assert(v@.take(v@.len() as int) =~= v@);
    }
    r
}

impl KeyboardState {
    /// An exact copy of this report.
    pub fn duplicate(&self) -> (r: KeyboardState)
        ensures
            r@ == self@,
    {
        KeyboardState { keys: dup_vec(&self.keys), leds: dup_vec(&self.leds) }
    }
}

impl MouseState {
    /// An exact copy of this report.
    pub fn duplicate(&self) -> (r: MouseState)
        ensures
            r@ == self@,
    {
        MouseState { buttons: dup_vec(&self.buttons), x: self.x, y: self.y, wheel: self.wheel }
    }
}

/// A key was pressed or released.
#[derive(Clone, Copy, Debug, PartialEq, Eq, Structural)]
pub struct KeyStateChange {
    /// The key.
    pub key: Key,
    /// Pressed or released.
    pub state: bool,
}

/// A keyboard LED was lit or cleared.
#[derive(Clone, Copy, Debug, PartialEq, Eq, Structural)]
pub struct LedStateChange {
    /// The LED.
    pub led: Led,
    /// Lit or cleared.
    pub state: bool,
}

/// A mouse button was pressed or released.
#[derive(Clone, Copy, Debug, PartialEq, Eq, Structural)]
pub struct ButtonStateChange {
    /// The button.
    pub button: Button,
    /// Pressed or released.
    pub state: bool,
}

/// One typed change between two consecutive mouse reports.
#[derive(Clone, Copy, Debug, PartialEq, Eq)]
pub enum MouseStateChange {
    /// A button was pressed or released.
    Button(ButtonStateChange),
    /// The pointer moved.
    Pointer(i16, i16),
    /// The wheel turned.
    Wheel(i8),
}

/// Whether a code is among a report's pressed keys.
pub open spec fn has_code(codes: Seq<u8>, code: u8) -> bool {
    exists|i: int| 0 <= i < codes.len() && codes[i] == code
}

/// Whether a diff emits a change for a code.
pub open spec fn has_key_change(changes: Seq<KeyStateChange>, code: u8) -> bool {
    exists|i: int| 0 <= i < changes.len() && (#[trigger] changes[i]).key.code == code
}

/// Whether a mouse diff emits a button change for a code.
pub open spec fn has_button_change(changes: Seq<MouseStateChange>, code: u8) -> bool {
    exists|i: int|
        0 <= i < changes.len() && ((#[trigger] changes[i]) matches MouseStateChange::Button(bc)
            && bc.button.code == code)
}

/// Whether an LED diff emits a change for a code.
pub open spec fn has_led_change(changes: Seq<LedStateChange>, code: u8) -> bool {
    exists|i: int| 0 <= i < changes.len() && (#[trigger] changes[i]).led.code == code
}

/// Membership of a code in a key vector.
fn keys_contain(keys: &Vec<Key>, code: u8) -> (r: bool)
    ensures
        r == has_code(keys@.map_values(|k: Key| k.code), code),
{
    let ghost codes = keys@.map_values(|k: Key| k.code);
    let mut i: usize = 0;
    while i < keys.len()
        invariant
            i <= keys@.len(),
            codes == keys@.map_values(|k: Key| k.code),
            forall|j: int| 0 <= j < i ==> codes[j] != code,
        decreases keys@.len() - i,
    {
        if keys[i].code == code {
            proof {
                assert(codes[i as int] == code);
            }
            return true;
        }
        i += 1;
    }
    false
}

/// Membership of a code in a button vector.
fn buttons_contain(buttons: &Vec<Button>, code: u8) -> (r: bool)
    ensures
        r == has_code(buttons@.map_values(|b: Button| b.code), code),
{
    let ghost codes = buttons@.map_values(|b: Button| b.code);
    let mut i: usize = 0;
    while i < buttons.len()
        invariant
            i <= buttons@.len(),
            codes == buttons@.map_values(|b: Button| b.code),
            forall|j: int| 0 <= j < i ==> codes[j] != code,
        decreases buttons@.len() - i,
    {
        if buttons[i].code == code {
            proof {
                assert(codes[i as int] == code);
            }
            return true;
        }
        i += 1;
    }
    false
}

/// Diff two consecutive keyboard input reports into key changes: one
/// change for every key whose pressed-state flipped, none for any
/// other, each key at most once — the emitted multiset is exactly the
/// symmetric difference of the two pressed-key sets.
pub fn diff_keys(prev: &KeyboardState, next: &KeyboardState) -> (r: Vec<KeyStateChange>)
    ensures
        forall|c: u8| has_key_change(r@, c) == (has_code(prev@.keys, c) != has_code(
            next@.keys,
            c,
        )),
        forall|i: int| 0 <= i < r@.len() ==> (#[trigger] r@[i]).state == has_code(
            next@.keys,
            r@[i].key.code,
        ),
        forall|i: int, j: int| 0 <= i < j < r@.len() ==> r@[i].key.code != r@[j].key.code,
{
    let ghost prev_codes = prev@.keys;
    let ghost next_codes = next@.keys;
    let mut r: Vec<KeyStateChange> = Vec::new();
    let mut c: u16 = 0;
    while c < 256
        invariant
            c <= 256,
            prev_codes == prev@.keys,
            next_codes == next@.keys,
            forall|d: u8| d < c ==> has_key_change(r@, d) == (has_code(prev_codes, d) != has_code(
                next_codes,
                d,
            )),
            forall|d: u8| d >= c ==> !has_key_change(r@, d),
            forall|i: int| 0 <= i < r@.len() ==> (#[trigger] r@[i]).state == has_code(
                next_codes,
                r@[i].key.code,
            ),
            forall|i: int, j: int| 0 <= i < j < r@.len() ==> r@[i].key.code != r@[j].key.code,
            forall|i: int| 0 <= i < r@.len() ==> (#[trigger] r@[i]).key.code < c,
        decreases 256 - c,
    {
        let code = c as u8;
        let before = keys_contain(&prev.keys, code);
        let after = keys_contain(&next.keys, code);
        if before != after {
            let ghost r0 = r@;
            r.push(KeyStateChange { key: Key { code }, state: after });
            proof {
                assert(r@ == r0.push(KeyStateChange { key: Key { code }, state: after }));
                assert(r@[r0.len() as int].key.code == code);
                assert forall|d: u8| has_key_change(r0, d) implies has_key_change(r@, d) by {
                    let i = choose|i: int|
                        0 <= i < r0.len() && (#[trigger] r0[i]).key.code == d;
                    assert(r@[i].key.code == d);
                }
                assert forall|d: u8| d != code && has_key_change(r@, d) implies has_key_change(
                    r0,
                    d,
                ) by {
                    let i = choose|i: int|
                        0 <= i < r@.len() && (#[trigger] r@[i]).key.code == d;
                    assert(i < r0.len());
                    assert(r0[i].key.code == d);
                }
            }
        }
        c += 1;
    }
    r
}

/// Diff two consecutive mouse input reports into typed changes: one
/// button change per flipped button, a pointer change exactly when the
/// pointer differs (carrying the new coordinates), a wheel change
/// exactly when the wheel differs (carrying the new value).
pub fn diff_mouse(prev: &MouseState, next: &MouseState) -> (r: Vec<MouseStateChange>)
    ensures
        forall|c: u8| #[trigger] has_button_change(r@, c) == (c <= BUTTON_CODE_MAX && has_code(
            prev@.buttons,
            c,
        ) != has_code(next@.buttons, c)),
        forall|i: int|
            0 <= i < r@.len() ==> ((#[trigger] r@[i]) matches MouseStateChange::Button(bc)
                ==> bc.state == has_code(next@.buttons, bc.button.code)),
        (exists|i: int| 0 <= i < r@.len() && (#[trigger] r@[i]) is Pointer) == (prev@.x != next@.x
            || prev@.y != next@.y),
        forall|i: int| 0 <= i < r@.len() ==> ((#[trigger] r@[i])
            matches MouseStateChange::Pointer(px, py) ==> px == next@.x && py == next@.y),
        (exists|i: int| 0 <= i < r@.len() && (#[trigger] r@[i]) is Wheel) == (prev@.wheel
            != next@.wheel),
        forall|i: int| 0 <= i < r@.len() ==> ((#[trigger] r@[i]) matches MouseStateChange::Wheel(
            w,
        ) ==> w == next@.wheel),
{
    let ghost prev_codes = prev@.buttons;
    let ghost next_codes = next@.buttons;
    let mut r: Vec<MouseStateChange> = Vec::new();
    let mut c: u8 = 0;
    while c < 4
        invariant
            c <= 4,
            prev_codes == prev@.buttons,
            next_codes == next@.buttons,
            forall|d: u8| d < c ==> #[trigger] has_button_change(r@, d) == (has_code(
                prev_codes,
                d,
            ) != has_code(next_codes, d)),
            forall|d: u8| d >= c ==> !(#[trigger] has_button_change(r@, d)),
            forall|i: int|
                0 <= i < r@.len() ==> ((#[trigger] r@[i]) matches MouseStateChange::Button(bc)
                    ==> bc.state == has_code(next_codes, bc.button.code) && bc.button.code < c),
            forall|i: int| 0 <= i < r@.len() ==> (#[trigger] r@[i]) is Button,
        decreases 4 - c,
    {
        let before = buttons_contain(&prev.buttons, c);
        let after = buttons_contain(&next.buttons, c);
        if before != after {
            let ghost r0 = r@;
            r.push(
                MouseStateChange::Button(
                    ButtonStateChange { button: Button { code: c }, state: after },
                ),
            );
            proof {
                assert(r@ == r0.push(
                    MouseStateChange::Button(
                        ButtonStateChange { button: Button { code: c }, state: after },
                    ),
                ));
                assert(r@[r0.len() as int] == MouseStateChange::Button(
                    ButtonStateChange { button: Button { code: c }, state: after },
                ));
                assert(has_button_change(r@, c));
                assert forall|d: u8| has_button_change(r0, d) implies has_button_change(
                    r@,
                    d,
                ) by {
                    let i = choose|i: int|
                        0 <= i < r0.len() && ((#[trigger] r0[i]) matches MouseStateChange::Button(
                            bc,
                        ) && bc.button.code == d);
                    assert(r@[i] == r0[i]);
                }
                assert forall|d: u8| d != c && has_button_change(r@, d) implies has_button_change(
                    r0,
                    d,
                ) by {
                    let i = choose|i: int|
                        0 <= i < r@.len() && ((#[trigger] r@[i]) matches MouseStateChange::Button(
                            bc,
                        ) && bc.button.code == d);
                    assert(i < r0.len());
                    assert(r0[i] == r@[i]);
                }
                assert forall|d: u8| d < c + 1 implies #[trigger] has_button_change(r@, d) == (
                has_code(prev_codes, d) != has_code(next_codes, d)) by {
                    if d < c {
                        assert(has_button_change(r0, d) == (has_code(prev_codes, d) != has_code(
                            next_codes,
                            d,
                        )));
                    }
                }
            }
        } else {
            proof {
                assert(!has_button_change(r@, c));
                assert forall|d: u8| d < c + 1 implies #[trigger] has_button_change(r@, d) == (
                has_code(prev_codes, d) != has_code(next_codes, d)) by {}
            }
        }
        c += 1;
    }
    proof {
        assert forall|d: u8| d > BUTTON_CODE_MAX implies !has_button_change(r@, d) by {
            if has_button_change(r@, d) {
                let i = choose|i: int|
                    0 <= i < r@.len() && ((#[trigger] r@[i]) matches MouseStateChange::Button(bc)
                        && bc.button.code == d);
            }
        }
    }
    let ghost buttons_part = r@;
    let pushed_pointer = prev.x != next.x || prev.y != next.y;
    if pushed_pointer {
        r.push(MouseStateChange::Pointer(next.x, next.y));
        proof {
            assert(r@ == buttons_part.push(MouseStateChange::Pointer(next.x, next.y)));
        }
    }
    let ghost pointer_part = r@;
    let pushed_wheel = prev.wheel != next.wheel;
    if pushed_wheel {
        r.push(MouseStateChange::Wheel(next.wheel));
        proof {
            assert(r@ == pointer_part.push(MouseStateChange::Wheel(next.wheel)));
        }
    }
    proof {
        let rf = r@;
        let nb = buttons_part.len() as int;
        assert(forall|i: int| 0 <= i < nb ==> rf[i] == buttons_part[i]);
        assert forall|c0: u8| #[trigger] has_button_change(rf, c0) == (c0 <= BUTTON_CODE_MAX
            && has_code(prev@.buttons, c0) != has_code(next@.buttons, c0)) by {
            assert forall|d: u8| has_button_change(buttons_part, d) implies has_button_change(
                rf,
                d,
            ) by {
                let i = choose|i: int|
                    0 <= i < buttons_part.len() && ((#[trigger] buttons_part[i])
                        matches MouseStateChange::Button(bc) && bc.button.code == d);
                assert(rf[i] == buttons_part[i]);
            }
            assert forall|d: u8| has_button_change(rf, d) implies has_button_change(
                buttons_part,
                d,
            ) by {
                let i = choose|i: int|
                    0 <= i < rf.len() && ((#[trigger] rf[i]) matches MouseStateChange::Button(bc)
                        && bc.button.code == d);
                assert(i < nb);
                assert(buttons_part[i] == rf[i]);
            }
            if c0 > BUTTON_CODE_MAX {
                assert(!has_button_change(buttons_part, c0));
            }
        }
        if pushed_pointer {
            assert(rf[nb] is Pointer);
        } else {
            assert forall|i: int| 0 <= i < rf.len() implies !((#[trigger] rf[i]) is Pointer) by {
                if i < nb {
                    assert(buttons_part[i] is Button);
                }
            }
        }
        if pushed_wheel {
            assert(rf[rf.len() - 1] is Wheel);
        } else {
            assert forall|i: int| 0 <= i < rf.len() implies !((#[trigger] rf[i]) is Wheel) by {
                if i < nb {
                    assert(buttons_part[i] is Button);
                }
            }
        }
    }
    r
}

/// Diff two consecutive keyboard output reports into LED changes.
pub fn diff_leds(prev: &KeyboardState, next: &KeyboardState) -> (r: Vec<LedStateChange>)
    ensures
        forall|c: u8| #[trigger] has_led_change(r@, c) == (has_code(prev@.leds, c) != has_code(
            next@.leds,
            c,
        ) && 1 <= c <= 5),
        forall|i: int| 0 <= i < r@.len() ==> (#[trigger] r@[i]).state == has_code(
            next@.leds,
            r@[i].led.code,
        ) && 1 <= r@[i].led.code <= 5,
        forall|i: int, j: int| 0 <= i < j < r@.len() ==> r@[i].led.code != r@[j].led.code,
{
    let ghost prev_codes = prev@.leds;
    let ghost next_codes = next@.leds;
    let mut r: Vec<LedStateChange> = Vec::new();
    let mut c: u8 = 1;
    while c < 6
        invariant
            1 <= c <= 6,
            prev_codes == prev@.leds,
            next_codes == next@.leds,
            forall|d: u8| 1 <= d < c ==> #[trigger] has_led_change(r@, d) == (has_code(
                prev_codes,
                d,
            ) != has_code(next_codes, d)),
            forall|d: u8| (d >= c || d < 1) ==> !(#[trigger] has_led_change(r@, d)),
            forall|i: int| 0 <= i < r@.len() ==> (#[trigger] r@[i]).state == has_code(
                next_codes,
                r@[i].led.code,
            ) && 1 <= r@[i].led.code < c,
            forall|i: int, j: int| 0 <= i < j < r@.len() ==> r@[i].led.code != r@[j].led.code,
        decreases 6 - c,
    {
        let before = leds_contain(&prev.leds, c);
        let after = leds_contain(&next.leds, c);
        if before != after {
            let ghost r0 = r@;
            r.push(LedStateChange { led: Led { code: c }, state: after });
            proof {
                assert(r@ == r0.push(LedStateChange { led: Led { code: c }, state: after }));
                assert(r@[r0.len() as int].led.code == c);
                assert(has_led_change(r@, c));
                assert forall|d: u8| has_led_change(r0, d) implies has_led_change(r@, d) by {
                    let i = choose|i: int|
                        0 <= i < r0.len() && (#[trigger] r0[i]).led.code == d;
                    assert(r@[i] == r0[i]);
                }
                assert forall|d: u8| d != c && has_led_change(r@, d) implies has_led_change(
                    r0,
                    d,
                ) by {
                    let i = choose|i: int|
                        0 <= i < r@.len() && (#[trigger] r@[i]).led.code == d;
                    assert(i < r0.len());
                    assert(r0[i] == r@[i]);
                }
                assert forall|d: u8| 1 <= d < c + 1 implies #[trigger] has_led_change(r@, d) == (
                has_code(prev_codes, d) != has_code(next_codes, d)) by {
                    if d < c {
                        assert(has_led_change(r0, d) == (has_code(prev_codes, d) != has_code(
                            next_codes,
                            d,
                        )));
                    }
                }
            }
        } else {
            proof {
                assert(!has_led_change(r@, c));
                assert forall|d: u8| 1 <= d < c + 1 implies #[trigger] has_led_change(r@, d) == (
                has_code(prev_codes, d) != has_code(next_codes, d)) by {}
            }
        }
        c += 1;
    }
    r
}

/// Pushing a non-button change never adds a button change.
proof fn lemma_button_change_push_other(s: Seq<MouseStateChange>, m: MouseStateChange, d: u8)
    requires
        !(m is Button),
    ensures
        has_button_change(s.push(m), d) == has_button_change(s, d),
{
    if has_button_change(s, d) {
        let i = choose|i: int|
            0 <= i < s.len() && ((#[trigger] s[i]) matches MouseStateChange::Button(bc)
                && bc.button.code == d);
        assert(s.push(m)[i] == s[i]);
    }
    if has_button_change(s.push(m), d) {
        let i = choose|i: int|
            0 <= i < s.push(m).len() && ((#[trigger] s.push(m)[i])
                matches MouseStateChange::Button(bc) && bc.button.code == d);
        if i < s.len() {
            assert(s[i] == s.push(m)[i]);
        }
    }
}

/// Membership of a code in an LED vector.
fn leds_contain(leds: &Vec<Led>, code: u8) -> (r: bool)
    ensures
        r == has_code(leds@.map_values(|l: Led| l.code), code),
{
    let ghost codes = leds@.map_values(|l: Led| l.code);
    let mut i: usize = 0;
    while i < leds.len()
        invariant
            i <= leds@.len(),
            codes == leds@.map_values(|l: Led| l.code),
            forall|j: int| 0 <= j < i ==> codes[j] != code,
        decreases leds@.len() - i,
    {
        if leds[i].code == code {
            proof {
                assert(codes[i as int] == code);
            }
            return true;
        }
        i += 1;
    }
    false
}

} // verus!
