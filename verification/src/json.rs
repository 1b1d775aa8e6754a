//! The socket wire codec.
//!
//! Messages travel as JSON objects with a `$` tag and single-letter
//! payload fields.  The encoder produces the canonical form given by
//! the `ser_*` spec functions — fields in declaration order, no
//! whitespace, numbers in minimal decimal — and the decoder reads
//! exactly that grammar.  The mouse pointer and wheel carry distinct
//! tags (`p` and `w`); the upstream protocol reused `p` for both,
//! which cannot be decoded unambiguously.

use vstd::prelude::*;

use crate::ids::ButtonId;
use crate::hid::{KeyboardStateV, MouseStateV};
use crate::ids::LedId;
use crate::msg::{SocketInput, SocketInputV, SocketOutput, SocketOutputV};
use crate::result::Error;
use crate::text::{
    dec_digits, dec_u64, find_char, find_char_in, is_digit_char,
    lemma_dec_digits_no_leading_zero, lemma_dec_round_trip, lemma_find_char,
    lemma_find_char_none, parse_dec_bounded, parse_dec_u64, region_eq,
};

verus! {

/// The canonical form of a boolean.
pub open spec fn ser_bool(b: bool) -> Seq<char> {
    if b {
        "true"@
    } else {
        "false"@
    }
}

/// The canonical form of a signed number: minimal decimal, a leading
/// minus when negative.
pub open spec fn ser_int(v: int) -> Seq<char> {
    if v < 0 {
        seq!['-'] + dec_digits((-v) as nat)
    } else {
        dec_digits(v as nat)
    }
}

/// A canonical unsigned number within a bound: digits, no leading
/// zero, value at most the bound.
pub open spec fn parse_canon_nat(s: Seq<char>, bound: nat) -> Option<nat> {
    match parse_dec_bounded(s, bound) {
        Some(v) => if s.len() > 1 && s[0] == '0' {
            None
        } else {
            Some(v)
        },
        None => None,
    }
}

/// A canonical signed number within bounds.
pub open spec fn parse_canon_int(s: Seq<char>, lo: int, hi: int) -> Option<int> {
    if s.len() >= 1 && s[0] == '-' {
        match parse_canon_nat(s.skip(1), (-lo) as nat) {
            Some(n) => if n > 0 {
                Some(-(n as int))
            } else {
                None
            },
            None => None,
        }
    } else {
        match parse_canon_nat(s, hi as nat) {
            Some(n) => Some(n as int),
            None => None,
        }
    }
}

/// Printing a bounded number canonically and parsing it back yields
/// the number.
pub proof fn lemma_canon_nat_round_trip(n: nat, bound: nat)
    requires
        n <= bound,
    ensures
        parse_canon_nat(dec_digits(n), bound) == Some(n),
{
    lemma_dec_round_trip(n, bound);
    lemma_dec_digits_no_leading_zero(n);
}

/// Printing a signed number canonically and parsing it back yields
/// the number.
pub proof fn lemma_canon_int_round_trip(v: int, lo: int, hi: int)
    requires
        lo <= v <= hi,
        lo <= 0 <= hi,
    ensures
        parse_canon_int(ser_int(v), lo, hi) == Some(v),
{
    if v < 0 {
        let s = ser_int(v);
        assert(s[0] == '-');
        assert(s.skip(1) =~= dec_digits((-v) as nat));
        lemma_canon_nat_round_trip((-v) as nat, (-lo) as nat);
    } else {
        let s = ser_int(v);
        crate::text::lemma_dec_digits_all_digits(v as nat);
        assert(is_digit_char(s[0]));
        lemma_canon_nat_round_trip(v as nat, hi as nat);
    }
}

/// No character of a signed number's canonical form is punctuation.
pub proof fn lemma_ser_int_not_char(v: int, c: char)
    requires
        !is_digit_char(c),
        c != '-',
    ensures
        forall|j: int| 0 <= j < ser_int(v).len() ==> ser_int(v)[j] != c,
{
    if v < 0 {
        crate::text::lemma_dec_digits_all_digits((-v) as nat);
        assert forall|j: int| 0 <= j < ser_int(v).len() implies ser_int(v)[j] != c by {
            if j > 0 {
                assert(ser_int(v)[j] == dec_digits((-v) as nat)[j - 1]);
                assert(is_digit_char(dec_digits((-v) as nat)[j - 1]));
            }
        }
    } else {
        crate::text::lemma_dec_digits_all_digits(v as nat);
        assert forall|j: int| 0 <= j < ser_int(v).len() implies ser_int(v)[j] != c by {
            assert(is_digit_char(dec_digits(v as nat)[j]));
        }
    }
}

/// Print a signed sixteen-bit number canonically.
pub fn encode_i16(v: i16) -> (r: String)
    ensures
        r@ == ser_int(v as int),
{
    proof {
        reveal_strlit("-");
    }
    if v < 0 {
        let mut r = "-".to_owned();
        let m: u64 = if v == i16::MIN {
            32768
        } else {
            (-v) as u64
        };
        let d = dec_u64(m);
        r.append(d.as_str());
        proof {
            assert(r@ =~= seq!['-'] + dec_digits(m as nat));
        }
        r
    } else {
        dec_u64(v as u64)
    }
}

/// Print a signed eight-bit number canonically.
pub fn encode_i8(v: i8) -> (r: String)
    ensures
        r@ == ser_int(v as int),
{
    proof {
        reveal_strlit("-");
    }
    if v < 0 {
        let mut r = "-".to_owned();
        let m: u64 = if v == i8::MIN {
            128
        } else {
            (-v) as u64
        };
        let d = dec_u64(m);
        r.append(d.as_str());
        proof {
            assert(r@ =~= seq!['-'] + dec_digits(m as nat));
        }
        r
    } else {
        dec_u64(v as u64)
    }
}

/// Parse a canonical unsigned number region.
pub fn parse_canon_u64_str(s: &str, from: usize, to: usize, bound: u64) -> (r: Option<u64>)
    requires
        from <= to <= s@.len(),
        bound <= 0xFFFF_FFFF,
    ensures
        match r {
            Some(v) => parse_canon_nat(s@.subrange(from as int, to as int), bound as nat)
                == Some(v as nat) && v <= bound,
            None => parse_canon_nat(s@.subrange(from as int, to as int), bound as nat) is None,
        },
{
    let ghost sub = s@.subrange(from as int, to as int);
    match parse_dec_u64(s, from, to, bound) {
        Some(v) => {
            if to - from > 1 && s.get_char(from) == '0' {
                proof {
                    assert(sub[0] == s@[from as int]);
                }
                None
            } else {
                proof {
                    if sub.len() > 1 {
                        assert(sub[0] == s@[from as int]);
                    }
                }
                Some(v)
            }
        },
        None => None,
    }
}

/// Parse a canonical signed number region.
pub fn parse_canon_i64_str(s: &str, from: usize, to: usize, lo: i64, hi: i64) -> (r: Option<i64>)
    requires
        from <= to <= s@.len(),
        -0xFFFF_FFFF <= lo <= 0,
        0 <= hi <= 0xFFFF_FFFF,
    ensures
        match r {
            Some(v) => parse_canon_int(s@.subrange(from as int, to as int), lo as int, hi as int)
                == Some(v as int) && lo <= v <= hi,
            None => parse_canon_int(
                s@.subrange(from as int, to as int),
                lo as int,
                hi as int,
            ) is None,
        },
{
    let ghost sub = s@.subrange(from as int, to as int);
    if from < to && s.get_char(from) == '-' {
        proof {
            assert(sub[0] == s@[from as int]);
            assert(sub.skip(1) =~= s@.subrange(from + 1, to as int));
        }
        match parse_canon_u64_str(s, from + 1, to, (-lo) as u64) {
            Some(n) => {
                if n > 0 {
                    Some(-(n as i64))
                } else {
                    None
                }
            },
            None => None,
        }
    } else {
        proof {
            if sub.len() >= 1 {
                assert(sub[0] == s@[from as int]);
            }
        }
        match parse_canon_u64_str(s, from, to, hi as u64) {
            Some(n) => Some(n as i64),
            None => None,
        }
    }
}

/// The canonical form of an incoming message.
pub open spec fn ser_input(v: SocketInputV) -> Seq<char> {
    match v {
        SocketInputV::Button { button, state } => "{\"$\":\"b\",\"b\":\""@ + button.name_spec()
            + "\",\"s\":"@ + ser_bool(state) + "}"@,
        SocketInputV::KeyboardKey { key, state } => "{\"$\":\"k\",\"k\":"@ + dec_digits(key as nat)
            + ",\"s\":"@ + ser_bool(state) + "}"@,
        SocketInputV::MouseButton { button, state } => "{\"$\":\"m\",\"b\":"@ + dec_digits(
            button as nat,
        ) + ",\"s\":"@ + ser_bool(state) + "}"@,
        SocketInputV::MousePointer { x, y } => "{\"$\":\"p\",\"x\":"@ + ser_int(x as int)
            + ",\"y\":"@ + ser_int(y as int) + "}"@,
        SocketInputV::MouseWheel { wheel } => "{\"$\":\"w\",\"w\":"@ + ser_int(wheel as int)
            + "}"@,
    }
}

/// Whether a sequence starts with a prefix.
pub open spec fn starts_with(s: Seq<char>, p: Seq<char>) -> bool {
    s.len() >= p.len() && s.take(p.len() as int) == p
}

/// The suffix carrying a boolean and the closing brace after a quoted
/// name: `",\"s\":<bool>}`.
pub open spec fn quoted_bool_tail(b: bool) -> Seq<char> {
    if b {
        "\",\"s\":true}"@
    } else {
        "\",\"s\":false}"@
    }
}

/// The suffix carrying a boolean and the closing brace after a
/// number: `,\"s\":<bool>}`.
pub open spec fn comma_bool_tail(b: bool) -> Seq<char> {
    if b {
        ",\"s\":true}"@
    } else {
        ",\"s\":false}"@
    }
}

/// The incoming-message grammar: the canonical form, and it alone.
pub open spec fn parse_input(s: Seq<char>) -> Option<SocketInputV> {
    if starts_with(s, "{\"$\":\"b\",\"b\":\""@) {
        let rest = s.skip(14);
        match find_char(rest, '"') {
            Some(i) => {
                let name = rest.take(i);
                let tail = rest.skip(i);
                match ButtonId::from_name_spec(name) {
                    Some(button) => if tail == quoted_bool_tail(true) {
                        Some(SocketInputV::Button { button, state: true })
                    } else if tail == quoted_bool_tail(false) {
                        Some(SocketInputV::Button { button, state: false })
                    } else {
                        None
                    },
                    None => None,
                }
            },
            None => None,
        }
    } else if starts_with(s, "{\"$\":\"k\",\"k\":"@) {
        let rest = s.skip(13);
        match find_char(rest, ',') {
            Some(i) => {
                let tail = rest.skip(i);
                match parse_canon_nat(rest.take(i), 0xe7) {
                    Some(n) => if tail == comma_bool_tail(true) {
                        Some(SocketInputV::KeyboardKey { key: n as u8, state: true })
                    } else if tail == comma_bool_tail(false) {
                        Some(SocketInputV::KeyboardKey { key: n as u8, state: false })
                    } else {
                        None
                    },
                    None => None,
                }
            },
            None => None,
        }
    } else if starts_with(s, "{\"$\":\"m\",\"b\":"@) {
        let rest = s.skip(13);
        match find_char(rest, ',') {
            Some(i) => {
                let tail = rest.skip(i);
                match parse_canon_nat(rest.take(i), 3) {
                    Some(n) => if tail == comma_bool_tail(true) {
                        Some(SocketInputV::MouseButton { button: n as u8, state: true })
                    } else if tail == comma_bool_tail(false) {
                        Some(SocketInputV::MouseButton { button: n as u8, state: false })
                    } else {
                        None
                    },
                    None => None,
                }
            },
            None => None,
        }
    } else if starts_with(s, "{\"$\":\"p\",\"x\":"@) {
        let rest = s.skip(13);
        match find_char(rest, ',') {
            Some(i) => {
                let tail = rest.skip(i);
                match parse_canon_int(rest.take(i), -32768, 32767) {
                    Some(x) => if starts_with(tail, ",\"y\":"@) && tail.len() >= 6 && tail.last()
                        == '}' {
                        match parse_canon_int(
                            tail.subrange(5, tail.len() - 1),
                            -32768,
                            32767,
                        ) {
                            Some(y) => Some(
                                SocketInputV::MousePointer { x: x as i16, y: y as i16 },
                            ),
                            None => None,
                        }
                    } else {
                        None
                    },
                    None => None,
                }
            },
            None => None,
        }
    } else if starts_with(s, "{\"$\":\"w\",\"w\":"@) {
        let rest = s.skip(13);
        if rest.len() >= 1 && rest.last() == '}' {
            match parse_canon_int(rest.take(rest.len() - 1), -128, 127) {
                Some(w) => Some(SocketInputV::MouseWheel { wheel: w as i8 }),
                None => None,
            }
        } else {
            None
        }
    } else {
        None
    }
}

/// Encode an incoming message in its canonical form.
pub fn encode_input(v: &SocketInput) -> (r: String)
    ensures
        r@ == ser_input(v@),
{
    match v {
        SocketInput::Button { button, state } => {
            let mut r = "{\"$\":\"b\",\"b\":\"".to_owned();
            r.append(button.name());
            r.append("\",\"s\":");
            r.append(if *state {
                "true"
            } else {
                "false"
            });
            r.append("}");
            proof {
                assert(r@ =~= ser_input(v@));
            }
            r
        },
        SocketInput::KeyboardKey { key, state } => {
            let mut r = "{\"$\":\"k\",\"k\":".to_owned();
            let n = dec_u64(key.code as u64);
            r.append(n.as_str());
            r.append(",\"s\":");
            r.append(if *state {
                "true"
            } else {
                "false"
            });
            r.append("}");
            proof {
                assert(r@ =~= ser_input(v@));
            }
            r
        },
        SocketInput::MouseButton { button, state } => {
            let mut r = "{\"$\":\"m\",\"b\":".to_owned();
            let n = dec_u64(button.code as u64);
            r.append(n.as_str());
            r.append(",\"s\":");
            r.append(if *state {
                "true"
            } else {
                "false"
            });
            r.append("}");
            proof {
                assert(r@ =~= ser_input(v@));
            }
            r
        },
        SocketInput::MousePointer { x, y } => {
            let mut r = "{\"$\":\"p\",\"x\":".to_owned();
            let xs = encode_i16(*x);
            r.append(xs.as_str());
            r.append(",\"y\":");
            let ys = encode_i16(*y);
            r.append(ys.as_str());
            r.append("}");
            proof {
                assert(r@ =~= ser_input(v@));
            }
            r
        },
        SocketInput::MouseWheel { wheel } => {
            let mut r = "{\"$\":\"w\",\"w\":".to_owned();
            let ws = encode_i8(*wheel);
            r.append(ws.as_str());
            r.append("}");
            proof {
                assert(r@ =~= ser_input(v@));
            }
            r
        },
    }
}

/// Whether a string region equals a literal prefix of the text.
fn has_prefix(s: &str, n: usize, lit: &str) -> (r: bool)
    requires
        n == s@.len(),
    ensures
        r == starts_with(s@, lit@),
{
    let litlen = lit.unicode_len();
    if n < litlen {
        return false;
    }
    let r = region_eq(s, 0, litlen, lit);
    proof {
        assert(s@.take(lit@.len() as int) =~= s@.subrange(0, lit@.len() as int));
    }
    r
}

/// Decode one incoming message from its canonical form; fails on
/// everything else.
#[verifier::rlimit(100)]
pub fn decode_input(s: &str) -> (r: Result<SocketInput, Error>)
    ensures
        match r {
            Ok(m) => parse_input(s@) == Some(m@),
            Err(e) => parse_input(s@) is None && e is Json,
        },
{
    proof {
        reveal_strlit("{\"$\":\"b\",\"b\":\"");
        reveal_strlit("{\"$\":\"k\",\"k\":");
        reveal_strlit("{\"$\":\"m\",\"b\":");
        reveal_strlit("{\"$\":\"p\",\"x\":");
        reveal_strlit("{\"$\":\"w\",\"w\":");
        reveal_strlit("\",\"s\":true}");
        reveal_strlit("\",\"s\":false}");
        reveal_strlit(",\"s\":true}");
        reveal_strlit(",\"s\":false}");
        reveal_strlit(",\"y\":");
    }
    let n = s.unicode_len();
    if has_prefix(s, n, "{\"$\":\"b\",\"b\":\"") {
        let ghost rest = s@.skip(14);
        proof {
            assert(rest =~= s@.subrange(14, n as int));
        }
        match find_char_in(s, 14, n, '"') {
            Some(i) => {
                proof {
                    lemma_find_char(rest, '"');
                    assert(rest.take(i - 14) =~= s@.subrange(14, i as int));
                    assert(rest.skip(i - 14) =~= s@.subrange(i as int, n as int));
                }
                let name = s.substring_char(14, i);
                match ButtonId::from_name(name) {
                    Some(button) => {
                        if region_eq(s, i, n, "\",\"s\":true}") {
                            Ok(SocketInput::Button { button, state: true })
                        } else if region_eq(s, i, n, "\",\"s\":false}") {
                            Ok(SocketInput::Button { button, state: false })
                        } else {
                            Err(Error::Json("invalid button message".to_owned()))
                        }
                    },
                    None => Err(Error::Json("unknown button".to_owned())),
                }
            },
            None => Err(Error::Json("invalid button message".to_owned())),
        }
    } else if has_prefix(s, n, "{\"$\":\"k\",\"k\":") {
        let ghost rest = s@.skip(13);
        proof {
            assert(rest =~= s@.subrange(13, n as int));
        }
        match find_char_in(s, 13, n, ',') {
            Some(i) => {
                proof {
                    lemma_find_char(rest, ',');
                    assert(rest.take(i - 13) =~= s@.subrange(13, i as int));
                    assert(rest.skip(i - 13) =~= s@.subrange(i as int, n as int));
                }
                match parse_canon_u64_str(s, 13, i, 0xe7) {
                    Some(code) => {
                        if region_eq(s, i, n, ",\"s\":true}") {
                            Ok(
                                SocketInput::KeyboardKey {
                                    key: crate::hid::Key { code: code as u8 },
                                    state: true,
                                },
                            )
                        } else if region_eq(s, i, n, ",\"s\":false}") {
                            Ok(
                                SocketInput::KeyboardKey {
                                    key: crate::hid::Key { code: code as u8 },
                                    state: false,
                                },
                            )
                        } else {
                            Err(Error::Json("invalid key message".to_owned()))
                        }
                    },
                    None => Err(Error::Json("invalid key code".to_owned())),
                }
            },
            None => Err(Error::Json("invalid key message".to_owned())),
        }
    } else if has_prefix(s, n, "{\"$\":\"m\",\"b\":") {
        let ghost rest = s@.skip(13);
        proof {
            assert(rest =~= s@.subrange(13, n as int));
        }
        match find_char_in(s, 13, n, ',') {
            Some(i) => {
                proof {
                    lemma_find_char(rest, ',');
                    assert(rest.take(i - 13) =~= s@.subrange(13, i as int));
                    assert(rest.skip(i - 13) =~= s@.subrange(i as int, n as int));
                }
                match parse_canon_u64_str(s, 13, i, 3) {
                    Some(code) => {
                        if region_eq(s, i, n, ",\"s\":true}") {
                            Ok(
                                SocketInput::MouseButton {
                                    button: crate::hid::Button { code: code as u8 },
                                    state: true,
                                },
                            )
                        } else if region_eq(s, i, n, ",\"s\":false}") {
                            Ok(
                                SocketInput::MouseButton {
                                    button: crate::hid::Button { code: code as u8 },
                                    state: false,
                                },
                            )
                        } else {
                            Err(Error::Json("invalid mouse button message".to_owned()))
                        }
                    },
                    None => Err(Error::Json("invalid mouse button code".to_owned())),
                }
            },
            None => Err(Error::Json("invalid mouse button message".to_owned())),
        }
    } else if has_prefix(s, n, "{\"$\":\"p\",\"x\":") {
        let ghost rest = s@.skip(13);
        proof {
            assert(rest =~= s@.subrange(13, n as int));
        }
        match find_char_in(s, 13, n, ',') {
            Some(i) => {
                proof {
                    lemma_find_char(rest, ',');
                    assert(rest.take(i - 13) =~= s@.subrange(13, i as int));
                }
                let ghost tail = rest.skip(i - 13);
                proof {
                    assert(tail =~= s@.subrange(i as int, n as int));
                }
                match parse_canon_i64_str(s, 13, i, -32768, 32767) {
                    Some(x) => {
                        let tail_ok = if n - i >= 6 {
                            let last_ok = s.get_char(n - 1) == '}';
                            proof {
                                assert(tail.last() == s@[n - 1]);
                            }
                            last_ok && region_eq(s, i, i + 5, ",\"y\":")
                        } else {
                            false
                        };
                        proof {
                            if n - i >= 6 {
                                assert(tail.take(5) =~= s@.subrange(i as int, i + 5));
                            }
                        }
                        if tail_ok {
                            proof {
                                assert(tail.subrange(5, tail.len() - 1) =~= s@.subrange(
                                    i + 5,
                                    n - 1,
                                ));
                            }
                            match parse_canon_i64_str(s, i + 5, n - 1, -32768, 32767) {
                                Some(y) => Ok(
                                    SocketInput::MousePointer { x: x as i16, y: y as i16 },
                                ),
                                None => Err(Error::Json("invalid pointer message".to_owned())),
                            }
                        } else {
                            Err(Error::Json("invalid pointer message".to_owned()))
                        }
                    },
                    None => Err(Error::Json("invalid pointer message".to_owned())),
                }
            },
            None => Err(Error::Json("invalid pointer message".to_owned())),
        }
    } else if has_prefix(s, n, "{\"$\":\"w\",\"w\":") {
        let ghost rest = s@.skip(13);
        proof {
            assert(rest =~= s@.subrange(13, n as int));
        }
        if n > 13 && s.get_char(n - 1) == '}' {
            proof {
                assert(rest.last() == s@[n - 1]);
                assert(rest.take(rest.len() - 1) =~= s@.subrange(13, n - 1));
            }
            match parse_canon_i64_str(s, 13, n - 1, -128, 127) {
                Some(w) => Ok(SocketInput::MouseWheel { wheel: w as i8 }),
                None => Err(Error::Json("invalid wheel message".to_owned())),
            }
        } else {
            proof {
                if rest.len() >= 1 {
                    assert(rest.last() == s@[n - 1]);
                }
            }
            Err(Error::Json("invalid wheel message".to_owned()))
        }
    } else {
        Err(Error::Json("unknown message".to_owned()))
    }
}

/// Button and LED names hold no structural character of the wire
/// format.
pub proof fn lemma_name_plain(name: Seq<char>, c: char)
    requires
        name == "power"@ || name == "reset"@ || name == "clear"@ || name == "disk"@ || name
            == "ether"@,
        c == '"' || c == ',' || c == ':' || c == '}' || c == ']',
    ensures
        forall|j: int| 0 <= j < name.len() ==> name[j] != c,
{
    reveal_strlit("power");
    reveal_strlit("reset");
    reveal_strlit("clear");
    reveal_strlit("disk");
    reveal_strlit("ether");
}

/// The canonical form of a byte list, comma separated.
pub open spec fn ser_u8_list(s: Seq<u8>) -> Seq<char>
    decreases s.len(),
{
    if s.len() == 0 {
        Seq::<char>::empty()
    } else if s.len() == 1 {
        dec_digits(s[0] as nat)
    } else {
        dec_digits(s[0] as nat) + seq![','] + ser_u8_list(s.skip(1))
    }
}

/// The canonical form of the LED state map's entries.
pub open spec fn ser_led_entries(s: Seq<(LedId, bool)>) -> Seq<char>
    decreases s.len(),
{
    if s.len() == 0 {
        Seq::<char>::empty()
    } else {
        let entry = seq!['"'] + s[0].0.name_spec() + "\":"@ + ser_bool(s[0].1);
        if s.len() == 1 {
            entry
        } else {
            entry + seq![','] + ser_led_entries(s.skip(1))
        }
    }
}

/// The canonical form of the button state map's entries.
pub open spec fn ser_btn_entries(s: Seq<(ButtonId, bool)>) -> Seq<char>
    decreases s.len(),
{
    if s.len() == 0 {
        Seq::<char>::empty()
    } else {
        let entry = seq!['"'] + s[0].0.name_spec() + "\":"@ + ser_bool(s[0].1);
        if s.len() == 1 {
            entry
        } else {
            entry + seq![','] + ser_btn_entries(s.skip(1))
        }
    }
}

/// The canonical form of a keyboard state object.
pub open spec fn ser_kbd(k: KeyboardStateV) -> Seq<char> {
    "{\"k\":["@ + ser_u8_list(k.keys) + "],\"l\":["@ + ser_u8_list(k.leds) + "]}"@
}

/// The canonical form of a mouse state object.
pub open spec fn ser_mouse(m: MouseStateV) -> Seq<char> {
    "{\"b\":["@ + ser_u8_list(m.buttons) + "],\"p\":["@ + ser_int(m.x as int) + seq![','] + ser_int(
        m.y as int,
    ) + "],\"w\":"@ + ser_int(m.wheel as int) + "}"@
}

/// The canonical form of an optional keyboard state.
pub open spec fn ser_opt_kbd(k: Option<KeyboardStateV>) -> Seq<char> {
    match k {
        Some(k) => ser_kbd(k),
        None => "null"@,
    }
}

/// The canonical form of an optional mouse state.
pub open spec fn ser_opt_mouse(m: Option<MouseStateV>) -> Seq<char> {
    match m {
        Some(m) => ser_mouse(m),
        None => "null"@,
    }
}

/// The canonical form of an outgoing message.
pub open spec fn ser_output(v: SocketOutputV) -> Seq<char> {
    match v {
        SocketOutputV::State { leds, buttons, keyboard, mouse } => "{\"$\":\"s\",\"l\":{"@
            + ser_led_entries(leds) + "},\"b\":{"@ + ser_btn_entries(buttons) + "},\"k\":"@
            + ser_opt_kbd(keyboard) + ",\"m\":"@ + ser_opt_mouse(mouse) + "}"@,
        SocketOutputV::Led { led, state } => "{\"$\":\"l\",\"l\":\""@ + led.name_spec()
            + "\",\"s\":"@ + ser_bool(state) + "}"@,
        SocketOutputV::Button { button, state } => "{\"$\":\"b\",\"b\":\""@ + button.name_spec()
            + "\",\"s\":"@ + ser_bool(state) + "}"@,
        SocketOutputV::KeyboardKey { key, state } => "{\"$\":\"k\",\"k\":"@ + dec_digits(key as nat)
            + ",\"s\":"@ + ser_bool(state) + "}"@,
        SocketOutputV::KeyboardLed { led, state } => "{\"$\":\"i\",\"l\":"@ + dec_digits(led as nat)
            + ",\"s\":"@ + ser_bool(state) + "}"@,
        SocketOutputV::MouseButton { button, state } => "{\"$\":\"m\",\"b\":"@ + dec_digits(
            button as nat,
        ) + ",\"s\":"@ + ser_bool(state) + "}"@,
        SocketOutputV::MousePointer { x, y } => "{\"$\":\"p\",\"x\":"@ + ser_int(x as int)
            + ",\"y\":"@ + ser_int(y as int) + "}"@,
        SocketOutputV::MouseWheel { wheel } => "{\"$\":\"w\",\"w\":"@ + ser_int(wheel as int)
            + "}"@,
        SocketOutputV::VideoFrame { frame } => "{\"$\":\"v\",\"f\":["@ + ser_u8_list(frame)
            + "]}"@,
    }
}

/// Appending a byte extends its list form at the end.
proof fn lemma_u8_list_snoc(s: Seq<u8>, b: u8)
    ensures
        ser_u8_list(s.push(b)) == if s.len() == 0 {
            dec_digits(b as nat)
        } else {
            ser_u8_list(s) + seq![','] + dec_digits(b as nat)
        },
    decreases s.len(),
{
    if s.len() == 0 {
        assert(s.push(b)[0] == b);
        assert(ser_u8_list(s.push(b)) == dec_digits(b as nat));
    } else {
        assert(s.push(b).skip(1) =~= s.skip(1).push(b));
        lemma_u8_list_snoc(s.skip(1), b);
        if s.len() == 1 {
            assert(s.skip(1).len() == 0);
            assert(ser_u8_list(s.push(b)) == dec_digits(s[0] as nat) + seq![','] + ser_u8_list(
                s.skip(1).push(b),
            ));
        } else {
            assert(ser_u8_list(s.push(b)) == dec_digits(s[0] as nat) + seq![','] + ser_u8_list(
                s.skip(1).push(b),
            ));
            assert(ser_u8_list(s) + seq![','] + dec_digits(b as nat) =~= dec_digits(s[0] as nat)
                + seq![','] + (ser_u8_list(s.skip(1)) + seq![','] + dec_digits(b as nat)));
        }
    }
}

/// Appending an LED entry extends the map form at the end.
proof fn lemma_led_entries_snoc(s: Seq<(LedId, bool)>, e: (LedId, bool))
    ensures
        ser_led_entries(s.push(e)) == if s.len() == 0 {
            seq!['"'] + e.0.name_spec() + "\":"@ + ser_bool(e.1)
        } else {
            ser_led_entries(s) + seq![','] + (seq!['"'] + e.0.name_spec() + "\":"@ + ser_bool(e.1))
        },
    decreases s.len(),
{
    let entry = seq!['"'] + e.0.name_spec() + "\":"@ + ser_bool(e.1);
    if s.len() == 0 {
        assert(s.push(e)[0] == e);
        assert(ser_led_entries(s.push(e)) == entry);
    } else {
        assert(s.push(e).skip(1) =~= s.skip(1).push(e));
        lemma_led_entries_snoc(s.skip(1), e);
        let head = seq!['"'] + s[0].0.name_spec() + "\":"@ + ser_bool(s[0].1);
        if s.len() == 1 {
            assert(s.skip(1).len() == 0);
            assert(ser_led_entries(s.push(e)) == head + seq![','] + ser_led_entries(
                s.skip(1).push(e),
            ));
        } else {
            assert(ser_led_entries(s.push(e)) == head + seq![','] + ser_led_entries(
                s.skip(1).push(e),
            ));
            assert(ser_led_entries(s) + seq![','] + entry =~= head + seq![','] + (ser_led_entries(
                s.skip(1),
            ) + seq![','] + entry));
        }
    }
}

/// Appending a button entry extends the map form at the end.
proof fn lemma_btn_entries_snoc(s: Seq<(ButtonId, bool)>, e: (ButtonId, bool))
    ensures
        ser_btn_entries(s.push(e)) == if s.len() == 0 {
            seq!['"'] + e.0.name_spec() + "\":"@ + ser_bool(e.1)
        } else {
            ser_btn_entries(s) + seq![','] + (seq!['"'] + e.0.name_spec() + "\":"@ + ser_bool(e.1))
        },
    decreases s.len(),
{
    let entry = seq!['"'] + e.0.name_spec() + "\":"@ + ser_bool(e.1);
    if s.len() == 0 {
        assert(s.push(e)[0] == e);
        assert(ser_btn_entries(s.push(e)) == entry);
    } else {
        assert(s.push(e).skip(1) =~= s.skip(1).push(e));
        lemma_btn_entries_snoc(s.skip(1), e);
        let head = seq!['"'] + s[0].0.name_spec() + "\":"@ + ser_bool(s[0].1);
        if s.len() == 1 {
            assert(s.skip(1).len() == 0);
            assert(ser_btn_entries(s.push(e)) == head + seq![','] + ser_btn_entries(
                s.skip(1).push(e),
            ));
        } else {
            assert(ser_btn_entries(s.push(e)) == head + seq![','] + ser_btn_entries(
                s.skip(1).push(e),
            ));
            assert(ser_btn_entries(s) + seq![','] + entry =~= head + seq![','] + (ser_btn_entries(
                s.skip(1),
            ) + seq![','] + entry));
        }
    }
}

/// Print a byte list in canonical form.
fn encode_u8_list(s: &Vec<u8>) -> (r: String)
    ensures
        r@ == ser_u8_list(s@),
{
    proof {
        reveal_strlit(",");
    }
    let mut r = String::new();
    let mut i: usize = 0;
    while i < s.len()
        invariant
            i <= s@.len(),
            r@ == ser_u8_list(s@.take(i as int)),
        decreases s@.len() - i,
    {
        let ghost r0 = r@;
        if i > 0 {
            r.append(",");
        }
        let d = dec_u64(s[i] as u64);
        r.append(d.as_str());
        proof {
            reveal_strlit(",");
            assert(s@.take(i as int + 1) =~= s@.take(i as int).push(s@[i as int]));
            lemma_u8_list_snoc(s@.take(i as int), s@[i as int]);
            if i == 0 {
                assert(r@ =~= dec_digits(s@[i as int] as nat));
            } else {
                assert(r@ =~= r0 + seq![','] + dec_digits(s@[i as int] as nat));
            }
        }
        i += 1;
    }
    proof {
        assert(s@.take(s@.len() as int) =~= s@);
    }
    r
}

/// Print the LED state map's entries in canonical form.
fn encode_led_entries(s: &Vec<(LedId, bool)>) -> (r: String)
    ensures
        r@ == ser_led_entries(s@),
{
    proof {
        reveal_strlit(",");
        reveal_strlit("\"");
        reveal_strlit("\":");
        reveal_strlit("true");
        reveal_strlit("false");
    }
    let mut r = String::new();
    let mut i: usize = 0;
    while i < s.len()
        invariant
            i <= s@.len(),
            r@ == ser_led_entries(s@.take(i as int)),
        decreases s@.len() - i,
    {
        let ghost r0 = r@;
        if i > 0 {
            r.append(",");
        }
        let (id, st) = s[i];
        r.append("\"");
        r.append(id.name());
        r.append("\":");
        r.append(if st {
            "true"
        } else {
            "false"
        });
        proof {
            reveal_strlit(",");
            reveal_strlit("\"");
            reveal_strlit("\":");
            let entry = seq!['"'] + s@[i as int].0.name_spec() + "\":"@ + ser_bool(s@[i as int].1);
            assert(s@.take(i as int + 1) =~= s@.take(i as int).push(s@[i as int]));
            lemma_led_entries_snoc(s@.take(i as int), s@[i as int]);
            if i == 0 {
                assert(r@ =~= entry);
            } else {
                assert(r@ =~= r0 + seq![','] + entry);
            }
        }
        i += 1;
    }
    proof {
        assert(s@.take(s@.len() as int) =~= s@);
    }
    r
}

/// Print the button state map's entries in canonical form.
fn encode_btn_entries(s: &Vec<(ButtonId, bool)>) -> (r: String)
    ensures
        r@ == ser_btn_entries(s@),
{
    proof {
        reveal_strlit(",");
        reveal_strlit("\"");
        reveal_strlit("\":");
        reveal_strlit("true");
        reveal_strlit("false");
    }
    let mut r = String::new();
    let mut i: usize = 0;
    while i < s.len()
        invariant
            i <= s@.len(),
            r@ == ser_btn_entries(s@.take(i as int)),
        decreases s@.len() - i,
    {
        let ghost r0 = r@;
        if i > 0 {
            r.append(",");
        }
        let (id, st) = s[i];
        r.append("\"");
        r.append(id.name());
        r.append("\":");
        r.append(if st {
            "true"
        } else {
            "false"
        });
        proof {
            reveal_strlit(",");
            reveal_strlit("\"");
            reveal_strlit("\":");
            let entry = seq!['"'] + s@[i as int].0.name_spec() + "\":"@ + ser_bool(s@[i as int].1);
            assert(s@.take(i as int + 1) =~= s@.take(i as int).push(s@[i as int]));
            lemma_btn_entries_snoc(s@.take(i as int), s@[i as int]);
            if i == 0 {
                assert(r@ =~= entry);
            } else {
                assert(r@ =~= r0 + seq![','] + entry);
            }
        }
        i += 1;
    }
    proof {
        assert(s@.take(s@.len() as int) =~= s@);
    }
    r
}

/// Encode the full `State` snapshot in its canonical form.
fn encode_state(
    leds: &Vec<(LedId, bool)>,
    buttons: &Vec<(ButtonId, bool)>,
    keyboard: &Option<crate::hid::KeyboardState>,
    mouse: &Option<crate::hid::MouseState>,
) -> (r: String)
    ensures
        r@ == ser_output(
            SocketOutputV::State {
                leds: leds@,
                buttons: buttons@,
                keyboard: match keyboard {
                    Some(k) => Some(k@),
                    None => None,
                },
                mouse: match mouse {
                    Some(m) => Some(m@),
                    None => None,
                },
            },
        ),
{
    let mut r = "{\"$\":\"s\",\"l\":{".to_owned();
    let le = encode_led_entries(leds);
    r.append(le.as_str());
    r.append("},\"b\":{");
    let be = encode_btn_entries(buttons);
    r.append(be.as_str());
    r.append("},\"k\":");
    match keyboard {
        Some(k) => {
            r.append("{\"k\":[");
            let keys = encode_u8_list_keys(&k.keys);
            r.append(keys.as_str());
            r.append("],\"l\":[");
            let kleds = encode_u8_list_leds(&k.leds);
            r.append(kleds.as_str());
            r.append("]}");
        },
        None => {
            r.append("null");
        },
    }
    r.append(",\"m\":");
    match mouse {
        Some(m) => {
            r.append("{\"b\":[");
            let mb = encode_u8_list_buttons(&m.buttons);
            r.append(mb.as_str());
            r.append("],\"p\":[");
            let xs = encode_i16(m.x);
            r.append(xs.as_str());
            r.append(",");
            let ys = encode_i16(m.y);
            r.append(ys.as_str());
            r.append("],\"w\":");
            let ws = encode_i8(m.wheel);
            r.append(ws.as_str());
            r.append("}");
        },
        None => {
            r.append("null");
        },
    }
    r.append("}");
    proof {
        reveal_strlit(",");
        assert(r@ =~= ser_output(
            SocketOutputV::State {
                leds: leds@,
                buttons: buttons@,
                keyboard: match keyboard {
                    Some(k) => Some(k@),
                    None => None,
                },
                mouse: match mouse {
                    Some(m) => Some(m@),
                    None => None,
                },
            },
        ));
    }
    r
}

/// Encode an outgoing message in its canonical form.
pub fn encode_output(v: &SocketOutput) -> (r: String)
    ensures
        r@ == ser_output(v@),
{
    match v {
        SocketOutput::State { leds, buttons, keyboard, mouse } => {
            encode_state(leds, buttons, keyboard, mouse)
        },
        SocketOutput::Led { led, state } => {
            let mut r = "{\"$\":\"l\",\"l\":\"".to_owned();
            r.append(led.name());
            r.append("\",\"s\":");
            r.append(if *state {
                "true"
            } else {
                "false"
            });
            r.append("}");
            proof {
                assert(r@ =~= ser_output(v@));
            }
            r
        },
        SocketOutput::Button { button, state } => {
            let mut r = "{\"$\":\"b\",\"b\":\"".to_owned();
            r.append(button.name());
            r.append("\",\"s\":");
            r.append(if *state {
                "true"
            } else {
                "false"
            });
            r.append("}");
            proof {
                assert(r@ =~= ser_output(v@));
            }
            r
        },
        SocketOutput::KeyboardKey { key, state } => {
            let mut r = "{\"$\":\"k\",\"k\":".to_owned();
            let n = dec_u64(key.code as u64);
            r.append(n.as_str());
            r.append(",\"s\":");
            r.append(if *state {
                "true"
            } else {
                "false"
            });
            r.append("}");
            proof {
                assert(r@ =~= ser_output(v@));
            }
            r
        },
        SocketOutput::KeyboardLed { led, state } => {
            let mut r = "{\"$\":\"i\",\"l\":".to_owned();
            let n = dec_u64(led.code as u64);
            r.append(n.as_str());
            r.append(",\"s\":");
            r.append(if *state {
                "true"
            } else {
                "false"
            });
            r.append("}");
            proof {
                assert(r@ =~= ser_output(v@));
            }
            r
        },
        SocketOutput::MouseButton { button, state } => {
            let mut r = "{\"$\":\"m\",\"b\":".to_owned();
            let n = dec_u64(button.code as u64);
            r.append(n.as_str());
            r.append(",\"s\":");
            r.append(if *state {
                "true"
            } else {
                "false"
            });
            r.append("}");
            proof {
                assert(r@ =~= ser_output(v@));
            }
            r
        },
        SocketOutput::MousePointer { x, y } => {
            let mut r = "{\"$\":\"p\",\"x\":".to_owned();
            let xs = encode_i16(*x);
            r.append(xs.as_str());
            r.append(",\"y\":");
            let ys = encode_i16(*y);
            r.append(ys.as_str());
            r.append("}");
            proof {
                assert(r@ =~= ser_output(v@));
            }
            r
        },
        SocketOutput::MouseWheel { wheel } => {
            let mut r = "{\"$\":\"w\",\"w\":".to_owned();
            let ws = encode_i8(*wheel);
            r.append(ws.as_str());
            r.append("}");
            proof {
                assert(r@ =~= ser_output(v@));
            }
            r
        },
        SocketOutput::VideoFrame { frame } => {
            let mut r = "{\"$\":\"v\",\"f\":[".to_owned();
            let list = encode_u8_list(frame);
            r.append(list.as_str());
            r.append("]}");
            proof {
                assert(r@ =~= ser_output(v@));
            }
            r
        },
    }
}

/// Print the key codes of a report in canonical form.
fn encode_u8_list_keys(s: &Vec<crate::hid::Key>) -> (r: String)
    ensures
        r@ == ser_u8_list(s@.map_values(|k: crate::hid::Key| k.code)),
{
    proof {
        reveal_strlit(",");
    }
    let ghost codes = s@.map_values(|k: crate::hid::Key| k.code);
    let mut r = String::new();
    let mut i: usize = 0;
    while i < s.len()
        invariant
            i <= s@.len(),
            codes == s@.map_values(|k: crate::hid::Key| k.code),
            r@ == ser_u8_list(codes.take(i as int)),
        decreases s@.len() - i,
    {
        let ghost r0 = r@;
        if i > 0 {
            r.append(",");
        }
        let d = dec_u64(s[i].code as u64);
        r.append(d.as_str());
        proof {
            reveal_strlit(",");
            assert(codes.take(i as int + 1) =~= codes.take(i as int).push(codes[i as int]));
            assert(codes[i as int] == s@[i as int].code);
            lemma_u8_list_snoc(codes.take(i as int), codes[i as int]);
            if i == 0 {
                assert(r@ =~= dec_digits(codes[i as int] as nat));
            } else {
                assert(r@ =~= r0 + seq![','] + dec_digits(codes[i as int] as nat));
            }
        }
        i += 1;
    }
    proof {
        assert(codes.take(codes.len() as int) =~= codes);
    }
    r
}

/// Print the LED codes of a report in canonical form.
fn encode_u8_list_leds(s: &Vec<crate::hid::Led>) -> (r: String)
    ensures
        r@ == ser_u8_list(s@.map_values(|l: crate::hid::Led| l.code)),
{
    proof {
        reveal_strlit(",");
    }
    let ghost codes = s@.map_values(|l: crate::hid::Led| l.code);
    let mut r = String::new();
    let mut i: usize = 0;
    while i < s.len()
        invariant
            i <= s@.len(),
            codes == s@.map_values(|l: crate::hid::Led| l.code),
            r@ == ser_u8_list(codes.take(i as int)),
        decreases s@.len() - i,
    {
        let ghost r0 = r@;
        if i > 0 {
            r.append(",");
        }
        let d = dec_u64(s[i].code as u64);
        r.append(d.as_str());
        proof {
            reveal_strlit(",");
            assert(codes.take(i as int + 1) =~= codes.take(i as int).push(codes[i as int]));
            assert(codes[i as int] == s@[i as int].code);
            lemma_u8_list_snoc(codes.take(i as int), codes[i as int]);
            if i == 0 {
                assert(r@ =~= dec_digits(codes[i as int] as nat));
            } else {
                assert(r@ =~= r0 + seq![','] + dec_digits(codes[i as int] as nat));
            }
        }
        i += 1;
    }
    proof {
        assert(codes.take(codes.len() as int) =~= codes);
    }
    r
}

/// Print the button codes of a report in canonical form.
fn encode_u8_list_buttons(s: &Vec<crate::hid::Button>) -> (r: String)
    ensures
        r@ == ser_u8_list(s@.map_values(|b: crate::hid::Button| b.code)),
{
    proof {
        reveal_strlit(",");
    }
    let ghost codes = s@.map_values(|b: crate::hid::Button| b.code);
    let mut r = String::new();
    let mut i: usize = 0;
    while i < s.len()
        invariant
            i <= s@.len(),
            codes == s@.map_values(|b: crate::hid::Button| b.code),
            r@ == ser_u8_list(codes.take(i as int)),
        decreases s@.len() - i,
    {
        let ghost r0 = r@;
        if i > 0 {
            r.append(",");
        }
        let d = dec_u64(s[i].code as u64);
        r.append(d.as_str());
        proof {
            reveal_strlit(",");
            assert(codes.take(i as int + 1) =~= codes.take(i as int).push(codes[i as int]));
            assert(codes[i as int] == s@[i as int].code);
            lemma_u8_list_snoc(codes.take(i as int), codes[i as int]);
            if i == 0 {
                assert(r@ =~= dec_digits(codes[i as int] as nat));
            } else {
                assert(r@ =~= r0 + seq![','] + dec_digits(codes[i as int] as nat));
            }
        }
        i += 1;
    }
    proof {
        assert(codes.take(codes.len() as int) =~= codes);
    }
    r
}

/// A comma-separated list of canonical numbers within bounds; a
/// trailing comma is not canonical and is rejected.
pub open spec fn parse_u8_list(s: Seq<char>, lo: u8, hi: u8) -> Option<Seq<u8>>
    decreases s.len(),
{
    if s.len() == 0 {
        Some(Seq::<u8>::empty())
    } else {
        match find_char(s, ',') {
            Some(i) => if i < 0 || i >= s.len() {
                None
            } else {
                match parse_canon_nat(s.take(i), hi as nat) {
                Some(n) => if n >= lo as nat {
                    match parse_u8_list(s.skip(i + 1), lo, hi) {
                        Some(rest) => if rest.len() > 0 {
                            Some(seq![n as u8] + rest)
                        } else {
                            None
                        },
                        None => None,
                    }
                } else {
                    None
                },
                None => None,
                }
            },
            None => match parse_canon_nat(s, hi as nat) {
                Some(n) => if n >= lo as nat {
                    Some(seq![n as u8])
                } else {
                    None
                },
                None => None,
            },
        }
    }
}

/// The LED state map's entry grammar.
pub open spec fn parse_led_entries(s: Seq<char>) -> Option<Seq<(LedId, bool)>>
    decreases s.len(),
{
    if s.len() == 0 {
        Some(Seq::<(LedId, bool)>::empty())
    } else if s[0] == '"' {
        let rest = s.skip(1);
        match find_char(rest, '"') {
            Some(i) => if i < 0 || i >= rest.len() {
                None
            } else {
                match LedId::from_name_spec(rest.take(i)) {
                    Some(id) => {
                        let after = rest.skip(i);
                        if starts_with(after, "\":true"@) && after.len() >= 6 {
                            parse_led_entries_tail(id, true, after.skip(6))
                        } else if starts_with(after, "\":false"@) && after.len() >= 7 {
                            parse_led_entries_tail(id, false, after.skip(7))
                        } else {
                            None
                        }
                    },
                    None => None,
                }
            },
            None => None,
        }
    } else {
        None
    }
}

/// What follows one LED entry: the end, or a comma and more entries.
pub open spec fn parse_led_entries_tail(id: LedId, b: bool, s: Seq<char>) -> Option<
    Seq<(LedId, bool)>,
>
    decreases s.len(),
{
    if s.len() == 0 {
        Some(seq![(id, b)])
    } else if s[0] == ',' {
        match parse_led_entries(s.skip(1)) {
            Some(rest) => if rest.len() > 0 {
                Some(seq![(id, b)] + rest)
            } else {
                None
            },
            None => None,
        }
    } else {
        None
    }
}

/// The button state map's entry grammar.
pub open spec fn parse_btn_entries(s: Seq<char>) -> Option<Seq<(ButtonId, bool)>>
    decreases s.len(),
{
    if s.len() == 0 {
        Some(Seq::<(ButtonId, bool)>::empty())
    } else if s[0] == '"' {
        let rest = s.skip(1);
        match find_char(rest, '"') {
            Some(i) => if i < 0 || i >= rest.len() {
                None
            } else {
                match ButtonId::from_name_spec(rest.take(i)) {
                    Some(id) => {
                        let after = rest.skip(i);
                        if starts_with(after, "\":true"@) && after.len() >= 6 {
                            parse_btn_entries_tail(id, true, after.skip(6))
                        } else if starts_with(after, "\":false"@) && after.len() >= 7 {
                            parse_btn_entries_tail(id, false, after.skip(7))
                        } else {
                            None
                        }
                    },
                    None => None,
                }
            },
            None => None,
        }
    } else {
        None
    }
}

/// What follows one button entry: the end, or a comma and more
/// entries.
pub open spec fn parse_btn_entries_tail(id: ButtonId, b: bool, s: Seq<char>) -> Option<
    Seq<(ButtonId, bool)>,
>
    decreases s.len(),
{
    if s.len() == 0 {
        Some(seq![(id, b)])
    } else if s[0] == ',' {
        match parse_btn_entries(s.skip(1)) {
            Some(rest) => if rest.len() > 0 {
                Some(seq![(id, b)] + rest)
            } else {
                None
            },
            None => None,
        }
    } else {
        None
    }
}

/// The keyboard state object's grammar.
pub open spec fn parse_kbd(s: Seq<char>) -> Option<KeyboardStateV> {
    if starts_with(s, "{\"k\":["@) {
        let r1 = s.skip(6);
        match find_char(r1, ']') {
            Some(i) => match parse_u8_list(r1.take(i), 0, 0xe7) {
                Some(keys) => {
                    let t1 = r1.skip(i);
                    if starts_with(t1, "],\"l\":["@) {
                        let r2 = t1.skip(7);
                        match find_char(r2, ']') {
                            Some(j) => match parse_u8_list(r2.take(j), 1, 5) {
                                Some(leds) => if r2.skip(j) == "]}"@ {
                                    Some(KeyboardStateV { keys, leds })
                                } else {
                                    None
                                },
                                None => None,
                            },
                            None => None,
                        }
                    } else {
                        None
                    }
                },
                None => None,
            },
            None => None,
        }
    } else {
        None
    }
}

/// The mouse state object's grammar.
pub open spec fn parse_mouse(s: Seq<char>) -> Option<MouseStateV> {
    if starts_with(s, "{\"b\":["@) {
        let r1 = s.skip(6);
        match find_char(r1, ']') {
            Some(i) => match parse_u8_list(r1.take(i), 0, 3) {
                Some(buttons) => {
                    let t1 = r1.skip(i);
                    if starts_with(t1, "],\"p\":["@) {
                        parse_mouse_ptr(buttons, t1.skip(7))
                    } else {
                        None
                    }
                },
                None => None,
            },
            None => None,
        }
    } else {
        None
    }
}

/// The pointer and wheel part of the mouse object's grammar.
pub open spec fn parse_mouse_ptr(buttons: Seq<u8>, r2: Seq<char>) -> Option<MouseStateV> {
    match find_char(r2, ',') {
        Some(j) => match parse_canon_int(r2.take(j), -32768, 32767) {
            Some(x) => {
                let r3 = r2.skip(j + 1);
                match find_char(r3, ']') {
                    Some(k) => match parse_canon_int(r3.take(k), -32768, 32767) {
                        Some(y) => {
                            let t3 = r3.skip(k);
                            if starts_with(t3, "],\"w\":"@) && t3.len() >= 8 && t3.last()
                                == '}' {
                                match parse_canon_int(t3.subrange(6, t3.len() - 1), -128, 127) {
                                    Some(w) => Some(
                                        MouseStateV {
                                            buttons,
                                            x: x as i16,
                                            y: y as i16,
                                            wheel: w as i8,
                                        },
                                    ),
                                    None => None,
                                }
                            } else {
                                None
                            }
                        },
                        None => None,
                    },
                    None => None,
                }
            },
            None => None,
        },
        None => None,
    }
}

/// The optional keyboard object and what follows it in the snapshot.
pub open spec fn parse_opt_kbd(s: Seq<char>) -> Option<(Option<KeyboardStateV>, Seq<char>)> {
    if starts_with(s, "null"@) {
        Some((None, s.skip(4)))
    } else if s.len() > 0 && s[0] == '{' {
        match find_char(s, '}') {
            Some(i) => match parse_kbd(s.take(i + 1)) {
                Some(k) => Some((Some(k), s.skip(i + 1))),
                None => None,
            },
            None => None,
        }
    } else {
        None
    }
}

/// The optional mouse object and what follows it in the snapshot.
pub open spec fn parse_opt_mouse(s: Seq<char>) -> Option<(Option<MouseStateV>, Seq<char>)> {
    if starts_with(s, "null"@) {
        Some((None, s.skip(4)))
    } else if s.len() > 0 && s[0] == '{' {
        match find_char(s, '}') {
            Some(i) => match parse_mouse(s.take(i + 1)) {
                Some(m) => Some((Some(m), s.skip(i + 1))),
                None => None,
            },
            None => None,
        }
    } else {
        None
    }
}

/// The snapshot grammar, after its tag prefix.
pub open spec fn parse_state_body(rest: Seq<char>) -> Option<SocketOutputV> {
    match find_char(rest, '}') {
        Some(i) => match parse_led_entries(rest.take(i)) {
            Some(leds) => {
                let t1 = rest.skip(i);
                if starts_with(t1, "},\"b\":{"@) {
                    let r2 = t1.skip(7);
                    match find_char(r2, '}') {
                        Some(j) => match parse_btn_entries(r2.take(j)) {
                            Some(buttons) => {
                                let t2 = r2.skip(j);
                                if starts_with(t2, "},\"k\":"@) {
                                    parse_state_hid(leds, buttons, t2.skip(6))
                                } else {
                                    None
                                }
                            },
                            None => None,
                        },
                        None => None,
                    }
                } else {
                    None
                }
            },
            None => None,
        },
        None => None,
    }
}

/// The HID part of the snapshot grammar.
pub open spec fn parse_state_hid(
    leds: Seq<(LedId, bool)>,
    buttons: Seq<(ButtonId, bool)>,
    s: Seq<char>,
) -> Option<SocketOutputV> {
    match parse_opt_kbd(s) {
        Some((keyboard, t3)) => if starts_with(t3, ",\"m\":"@) {
            match parse_opt_mouse(t3.skip(5)) {
                Some((mouse, t4)) => if t4 == "}"@ {
                    Some(SocketOutputV::State { leds, buttons, keyboard, mouse })
                } else {
                    None
                },
                None => None,
            }
        } else {
            None
        },
        None => None,
    }
}

/// The outgoing-message grammar: the canonical form, and it alone.
pub open spec fn parse_output(s: Seq<char>) -> Option<SocketOutputV> {
    if starts_with(s, "{\"$\":\"s\",\"l\":{"@) {
        parse_state_body(s.skip(14))
    } else if starts_with(s, "{\"$\":\"l\",\"l\":\""@) {
        let rest = s.skip(14);
        match find_char(rest, '"') {
            Some(i) => match LedId::from_name_spec(rest.take(i)) {
                Some(led) => {
                    let tail = rest.skip(i);
                    if tail == quoted_bool_tail(true) {
                        Some(SocketOutputV::Led { led, state: true })
                    } else if tail == quoted_bool_tail(false) {
                        Some(SocketOutputV::Led { led, state: false })
                    } else {
                        None
                    }
                },
                None => None,
            },
            None => None,
        }
    } else if starts_with(s, "{\"$\":\"b\",\"b\":\""@) {
        let rest = s.skip(14);
        match find_char(rest, '"') {
            Some(i) => match ButtonId::from_name_spec(rest.take(i)) {
                Some(button) => {
                    let tail = rest.skip(i);
                    if tail == quoted_bool_tail(true) {
                        Some(SocketOutputV::Button { button, state: true })
                    } else if tail == quoted_bool_tail(false) {
                        Some(SocketOutputV::Button { button, state: false })
                    } else {
                        None
                    }
                },
                None => None,
            },
            None => None,
        }
    } else if starts_with(s, "{\"$\":\"k\",\"k\":"@) {
        let rest = s.skip(13);
        match find_char(rest, ',') {
            Some(i) => {
                let tail = rest.skip(i);
                match parse_canon_nat(rest.take(i), 0xe7) {
                    Some(n) => if tail == comma_bool_tail(true) {
                        Some(SocketOutputV::KeyboardKey { key: n as u8, state: true })
                    } else if tail == comma_bool_tail(false) {
                        Some(SocketOutputV::KeyboardKey { key: n as u8, state: false })
                    } else {
                        None
                    },
                    None => None,
                }
            },
            None => None,
        }
    } else if starts_with(s, "{\"$\":\"i\",\"l\":"@) {
        let rest = s.skip(13);
        match find_char(rest, ',') {
            Some(i) => {
                let tail = rest.skip(i);
                match parse_canon_nat(rest.take(i), 5) {
                    Some(n) => if n < 1 {
                        None
                    } else if tail == comma_bool_tail(true) {
                        Some(SocketOutputV::KeyboardLed { led: n as u8, state: true })
                    } else if tail == comma_bool_tail(false) {
                        Some(SocketOutputV::KeyboardLed { led: n as u8, state: false })
                    } else {
                        None
                    },
                    None => None,
                }
            },
            None => None,
        }
    } else if starts_with(s, "{\"$\":\"m\",\"b\":"@) {
        let rest = s.skip(13);
        match find_char(rest, ',') {
            Some(i) => {
                let tail = rest.skip(i);
                match parse_canon_nat(rest.take(i), 3) {
                    Some(n) => if tail == comma_bool_tail(true) {
                        Some(SocketOutputV::MouseButton { button: n as u8, state: true })
                    } else if tail == comma_bool_tail(false) {
                        Some(SocketOutputV::MouseButton { button: n as u8, state: false })
                    } else {
                        None
                    },
                    None => None,
                }
            },
            None => None,
        }
    } else if starts_with(s, "{\"$\":\"p\",\"x\":"@) {
        let rest = s.skip(13);
        match find_char(rest, ',') {
            Some(i) => {
                let tail = rest.skip(i);
                match parse_canon_int(rest.take(i), -32768, 32767) {
                    Some(x) => if starts_with(tail, ",\"y\":"@) && tail.len() >= 6 && tail.last()
                        == '}' {
                        match parse_canon_int(tail.subrange(5, tail.len() - 1), -32768, 32767) {
                            Some(y) => Some(
                                SocketOutputV::MousePointer { x: x as i16, y: y as i16 },
                            ),
                            None => None,
                        }
                    } else {
                        None
                    },
                    None => None,
                }
            },
            None => None,
        }
    } else if starts_with(s, "{\"$\":\"w\",\"w\":"@) {
        let rest = s.skip(13);
        if rest.len() >= 1 && rest.last() == '}' {
            match parse_canon_int(rest.take(rest.len() - 1), -128, 127) {
                Some(w) => Some(SocketOutputV::MouseWheel { wheel: w as i8 }),
                None => None,
            }
        } else {
            None
        }
    } else if starts_with(s, "{\"$\":\"v\",\"f\":["@) {
        let rest = s.skip(14);
        if rest.len() >= 2 && rest[rest.len() - 2] == ']' && rest.last() == '}' {
            match parse_u8_list(rest.take(rest.len() - 2), 0, 255) {
                Some(frame) => Some(SocketOutputV::VideoFrame { frame }),
                None => None,
            }
        } else {
            None
        }
    } else {
        None
    }
}

/// Every character of a byte list's form is a digit or a comma.
proof fn lemma_u8_list_chars(s: Seq<u8>)
    ensures
        forall|j: int| 0 <= j < ser_u8_list(s).len() ==> (is_digit_char(#[trigger] ser_u8_list(s)[j])
            || ser_u8_list(s)[j] == ','),
    decreases s.len(),
{
    if s.len() == 0 {
    } else if s.len() == 1 {
        crate::text::lemma_dec_digits_all_digits(s[0] as nat);
    } else {
        crate::text::lemma_dec_digits_all_digits(s[0] as nat);
        lemma_u8_list_chars(s.skip(1));
        let t = ser_u8_list(s);
        let head = dec_digits(s[0] as nat);
        assert forall|j: int| 0 <= j < t.len() implies (is_digit_char(#[trigger] t[j]) || t[j]
            == ',') by {
            if j < head.len() {
                assert(t[j] == head[j]);
            } else if j == head.len() {
            } else {
                assert(t[j] == ser_u8_list(s.skip(1))[j - head.len() - 1]);
            }
        }
    }
}

/// Printing a byte list whose values lie within bounds and parsing it
/// back yields the list.
proof fn lemma_u8_list_round_trip(s: Seq<u8>, lo: u8, hi: u8)
    requires
        forall|j: int| 0 <= j < s.len() ==> lo <= #[trigger] s[j] <= hi,
    ensures
        parse_u8_list(ser_u8_list(s), lo, hi) == Some(s),
    decreases s.len(),
{
    let t = ser_u8_list(s);
    if s.len() == 0 {
    } else if s.len() == 1 {
        crate::text::lemma_dec_digits_all_digits(s[0] as nat);
        crate::net::lemma_digits_not_char(t, ',');
        lemma_find_char_none(t, ',');
        lemma_canon_nat_round_trip(s[0] as nat, hi as nat);
        assert(s =~= seq![s[0]]);
    } else {
        let head = dec_digits(s[0] as nat);
        crate::text::lemma_dec_digits_all_digits(s[0] as nat);
        crate::net::lemma_digits_not_char(head, ',');
        assert(t =~= head + seq![','] + ser_u8_list(s.skip(1)));
        crate::net::lemma_find_char_concat(head, ser_u8_list(s.skip(1)), ',');
        assert(find_char(t, ',') == Some(head.len() as int));
        assert(t.take(head.len() as int) =~= head);
        lemma_canon_nat_round_trip(s[0] as nat, hi as nat);
        assert(t.skip(head.len() as int + 1) =~= ser_u8_list(s.skip(1)));
        assert(forall|j: int| 0 <= j < s.skip(1).len() ==> lo <= #[trigger] s.skip(1)[j] <= hi);
        lemma_u8_list_round_trip(s.skip(1), lo, hi);
        assert(s =~= seq![s[0]] + s.skip(1));
    }
}

/// No character of the LED map entries is a closing brace.
proof fn lemma_led_entries_chars(s: Seq<(LedId, bool)>)
    ensures
        forall|j: int| 0 <= j < ser_led_entries(s).len() ==> #[trigger] ser_led_entries(s)[j]
            != '}',
    decreases s.len(),
{
    reveal_strlit("\":");
    reveal_strlit("true");
    reveal_strlit("false");
    if s.len() == 0 {
    } else {
        let entry = seq!['"'] + s[0].0.name_spec() + "\":"@ + ser_bool(s[0].1);
        lemma_name_plain(s[0].0.name_spec(), '}');
        assert forall|j: int| 0 <= j < entry.len() implies entry[j] != '}' by {
            if j == 0 {
            } else if j < 1 + s[0].0.name_spec().len() {
                assert(entry[j] == s[0].0.name_spec()[j - 1]);
            } else if j < 3 + s[0].0.name_spec().len() {
                assert(entry[j] == "\":"@[j - 1 - s[0].0.name_spec().len()]);
            } else {
                assert(entry[j] == ser_bool(s[0].1)[j - 3 - s[0].0.name_spec().len()]);
            }
        }
        if s.len() == 1 {
        } else {
            lemma_led_entries_chars(s.skip(1));
            let t = ser_led_entries(s);
            assert forall|j: int| 0 <= j < t.len() implies t[j] != '}' by {
                if j < entry.len() {
                    assert(t[j] == entry[j]);
                } else if j == entry.len() {
                } else {
                    assert(t[j] == ser_led_entries(s.skip(1))[j - entry.len() - 1]);
                }
            }
        }
    }
}

/// No character of the button map entries is a closing brace.
proof fn lemma_btn_entries_chars(s: Seq<(ButtonId, bool)>)
    ensures
        forall|j: int| 0 <= j < ser_btn_entries(s).len() ==> #[trigger] ser_btn_entries(s)[j]
            != '}',
    decreases s.len(),
{
    reveal_strlit("\":");
    reveal_strlit("true");
    reveal_strlit("false");
    if s.len() == 0 {
    } else {
        let entry = seq!['"'] + s[0].0.name_spec() + "\":"@ + ser_bool(s[0].1);
        lemma_name_plain(s[0].0.name_spec(), '}');
        assert forall|j: int| 0 <= j < entry.len() implies entry[j] != '}' by {
            if j == 0 {
            } else if j < 1 + s[0].0.name_spec().len() {
                assert(entry[j] == s[0].0.name_spec()[j - 1]);
            } else if j < 3 + s[0].0.name_spec().len() {
                assert(entry[j] == "\":"@[j - 1 - s[0].0.name_spec().len()]);
            } else {
                assert(entry[j] == ser_bool(s[0].1)[j - 3 - s[0].0.name_spec().len()]);
            }
        }
        if s.len() == 1 {
        } else {
            lemma_btn_entries_chars(s.skip(1));
            let t = ser_btn_entries(s);
            assert forall|j: int| 0 <= j < t.len() implies t[j] != '}' by {
                if j < entry.len() {
                    assert(t[j] == entry[j]);
                } else if j == entry.len() {
                } else {
                    assert(t[j] == ser_btn_entries(s.skip(1))[j - entry.len() - 1]);
                }
            }
        }
    }
}

/// Printing LED map entries and parsing them back yields the entries.
#[verifier::rlimit(100)]
proof fn lemma_led_entries_round_trip(s: Seq<(LedId, bool)>)
    ensures
        parse_led_entries(ser_led_entries(s)) == Some(s),
    decreases s.len(), 1int,
{
    reveal_strlit("\":");
    reveal_strlit("\":true");
    reveal_strlit("\":false");
    reveal_strlit("true");
    reveal_strlit("false");
    if s.len() == 0 {
        assert(s =~= Seq::<(LedId, bool)>::empty());
    } else {
        let name = s[0].0.name_spec();
        let b = s[0].1;
        let entry = seq!['"'] + name + "\":"@ + ser_bool(b);
        let t = ser_led_entries(s);
        let more = if s.len() == 1 {
            Seq::<char>::empty()
        } else {
            seq![','] + ser_led_entries(s.skip(1))
        };
        assert(t =~= entry + more);
        assert(t[0] == '"');
        let rest = t.skip(1);
        assert(rest =~= name + seq!['"'] + (":"@ + ser_bool(b) + more)) by {
            reveal_strlit(":");
            assert(rest =~= name + "\":"@ + ser_bool(b) + more);
        }
        lemma_name_plain(name, '"');
        crate::net::lemma_find_char_concat(name, ":"@ + ser_bool(b) + more, '"');
        assert(find_char(rest, '"') == Some(name.len() as int));
        assert(rest.take(name.len() as int) =~= name);
        crate::ids::lemma_led_name_round_trip(s[0].0);
        let after = rest.skip(name.len() as int);
        assert(after =~= "\":"@ + ser_bool(b) + more);
        proof_led_after(s, after, b, more);
    }
}

/// The tail step of the LED entry round trip.
#[verifier::rlimit(100)]
proof fn proof_led_after(s: Seq<(LedId, bool)>, after: Seq<char>, b: bool, more: Seq<char>)
    requires
        s.len() >= 1,
        b == s[0].1,
        more == if s.len() == 1 {
            Seq::<char>::empty()
        } else {
            seq![','] + ser_led_entries(s.skip(1))
        },
        after == "\":"@ + ser_bool(b) + more,
    ensures
        (if starts_with(after, "\":true"@) && after.len() >= 6 {
            parse_led_entries_tail(s[0].0, true, after.skip(6))
        } else if starts_with(after, "\":false"@) && after.len() >= 7 {
            parse_led_entries_tail(s[0].0, false, after.skip(7))
        } else {
            None
        }) == Some(s),
    decreases s.len(), 0int,
{
    reveal_strlit("\":");
    reveal_strlit("\":true");
    reveal_strlit("\":false");
    reveal_strlit("true");
    reveal_strlit("false");
    if b {
        assert(starts_with(after, "\":true"@)) by {
            assert(after.take(6) =~= "\":true"@);
        }
        assert(after.skip(6) =~= more);
    } else {
        assert(!starts_with(after, "\":true"@)) by {
            if after.len() >= 6 && after.take(6) == "\":true"@ {
                assert(after.take(6)[2] == 't');
                assert(after[2] == 'f');
            }
        }
        assert(starts_with(after, "\":false"@)) by {
            assert(after.take(7) =~= "\":false"@);
        }
        assert(after.skip(7) =~= more);
    }
    if s.len() == 1 {
        assert(s =~= seq![(s[0].0, b)]);
    } else {
        assert(more[0] == ',');
        assert(more.skip(1) =~= ser_led_entries(s.skip(1)));
        lemma_led_entries_round_trip(s.skip(1));
        assert(s =~= seq![(s[0].0, b)] + s.skip(1));
    }
}

/// Printing button map entries and parsing them back yields the
/// entries.
#[verifier::rlimit(100)]
proof fn lemma_btn_entries_round_trip(s: Seq<(ButtonId, bool)>)
    ensures
        parse_btn_entries(ser_btn_entries(s)) == Some(s),
    decreases s.len(), 1int,
{
    reveal_strlit("\":");
    reveal_strlit("\":true");
    reveal_strlit("\":false");
    reveal_strlit("true");
    reveal_strlit("false");
    if s.len() == 0 {
        assert(s =~= Seq::<(ButtonId, bool)>::empty());
    } else {
        let name = s[0].0.name_spec();
        let b = s[0].1;
        let entry = seq!['"'] + name + "\":"@ + ser_bool(b);
        let t = ser_btn_entries(s);
        let more = if s.len() == 1 {
            Seq::<char>::empty()
        } else {
            seq![','] + ser_btn_entries(s.skip(1))
        };
        assert(t =~= entry + more);
        assert(t[0] == '"');
        let rest = t.skip(1);
        assert(rest =~= name + seq!['"'] + (":"@ + ser_bool(b) + more)) by {
            reveal_strlit(":");
            assert(rest =~= name + "\":"@ + ser_bool(b) + more);
        }
        lemma_name_plain(name, '"');
        crate::net::lemma_find_char_concat(name, ":"@ + ser_bool(b) + more, '"');
        assert(find_char(rest, '"') == Some(name.len() as int));
        assert(rest.take(name.len() as int) =~= name);
        crate::ids::lemma_button_name_round_trip(s[0].0);
        let after = rest.skip(name.len() as int);
        assert(after =~= "\":"@ + ser_bool(b) + more);
        proof_btn_after(s, after, b, more);
    }
}

/// The tail step of the button entry round trip.
#[verifier::rlimit(100)]
proof fn proof_btn_after(s: Seq<(ButtonId, bool)>, after: Seq<char>, b: bool, more: Seq<char>)
    requires
        s.len() >= 1,
        b == s[0].1,
        more == if s.len() == 1 {
            Seq::<char>::empty()
        } else {
            seq![','] + ser_btn_entries(s.skip(1))
        },
        after == "\":"@ + ser_bool(b) + more,
    ensures
        (if starts_with(after, "\":true"@) && after.len() >= 6 {
            parse_btn_entries_tail(s[0].0, true, after.skip(6))
        } else if starts_with(after, "\":false"@) && after.len() >= 7 {
            parse_btn_entries_tail(s[0].0, false, after.skip(7))
        } else {
            None
        }) == Some(s),
    decreases s.len(), 0int,
{
    reveal_strlit("\":");
    reveal_strlit("\":true");
    reveal_strlit("\":false");
    reveal_strlit("true");
    reveal_strlit("false");
    if b {
        assert(starts_with(after, "\":true"@)) by {
            assert(after.take(6) =~= "\":true"@);
        }
        assert(after.skip(6) =~= more);
    } else {
        assert(!starts_with(after, "\":true"@)) by {
            if after.len() >= 6 && after.take(6) == "\":true"@ {
                assert(after.take(6)[2] == 't');
                assert(after[2] == 'f');
            }
        }
        assert(starts_with(after, "\":false"@)) by {
            assert(after.take(7) =~= "\":false"@);
        }
        assert(after.skip(7) =~= more);
    }
    if s.len() == 1 {
        assert(s =~= seq![(s[0].0, b)]);
    } else {
        assert(more[0] == ',');
        assert(more.skip(1) =~= ser_btn_entries(s.skip(1)));
        lemma_btn_entries_round_trip(s.skip(1));
        assert(s =~= seq![(s[0].0, b)] + s.skip(1));
    }
}

/// Printing a keyboard object and parsing it back yields the object,
/// for valid key and LED codes.
#[verifier::rlimit(100)]
proof fn lemma_kbd_round_trip(k: KeyboardStateV)
    requires
        forall|j: int| 0 <= j < k.keys.len() ==> #[trigger] k.keys[j] <= 0xe7,
        forall|j: int| 0 <= j < k.leds.len() ==> 1 <= #[trigger] k.leds[j] <= 5,
    ensures
        parse_kbd(ser_kbd(k)) == Some(k),
{
    reveal_strlit("{\"k\":[");
    reveal_strlit("],\"l\":[");
    reveal_strlit("]}");
    let kt = ser_u8_list(k.keys);
    let lt = ser_u8_list(k.leds);
    let s = ser_kbd(k);
    assert(starts_with(s, "{\"k\":["@)) by {
        assert(s.take(6) =~= "{\"k\":["@);
    }
    let r1 = s.skip(6);
    assert(r1 =~= kt + seq![']'] + (",\"l\":["@ + lt + "]}"@)) by {
        reveal_strlit(",\"l\":[");
    }
    lemma_u8_list_chars(k.keys);
    assert forall|j: int| 0 <= j < kt.len() implies kt[j] != ']' by {
        assert(is_digit_char(kt[j]) || kt[j] == ',');
    }
    crate::net::lemma_find_char_concat(kt, ",\"l\":["@ + lt + "]}"@, ']');
    assert(find_char(r1, ']') == Some(kt.len() as int));
    assert(r1.take(kt.len() as int) =~= kt);
    lemma_u8_list_round_trip(k.keys, 0, 0xe7);
    let t1 = r1.skip(kt.len() as int);
    assert(t1 =~= "],\"l\":["@ + lt + "]}"@) by {
        reveal_strlit(",\"l\":[");
    }
    assert(starts_with(t1, "],\"l\":["@)) by {
        assert(t1.take(7) =~= "],\"l\":["@);
    }
    let r2 = t1.skip(7);
    assert(r2 =~= lt + seq![']'] + "}"@) by {
        reveal_strlit("}");
    }
    lemma_u8_list_chars(k.leds);
    assert forall|j: int| 0 <= j < lt.len() implies lt[j] != ']' by {
        assert(is_digit_char(lt[j]) || lt[j] == ',');
    }
    crate::net::lemma_find_char_concat(lt, "}"@, ']');
    assert(find_char(r2, ']') == Some(lt.len() as int));
    assert(r2.take(lt.len() as int) =~= lt);
    lemma_u8_list_round_trip(k.leds, 1, 5);
    assert(r2.skip(lt.len() as int) =~= "]}"@);
    assert(parse_kbd(s) == Some(KeyboardStateV { keys: k.keys, leds: k.leds }));
    assert(KeyboardStateV { keys: k.keys, leds: k.leds } == k);
}

/// Printing a mouse object and parsing it back yields the object, for
/// valid button codes.
#[verifier::rlimit(100)]
proof fn lemma_mouse_round_trip(m: MouseStateV)
    requires
        forall|j: int| 0 <= j < m.buttons.len() ==> #[trigger] m.buttons[j] <= 3,
    ensures
        parse_mouse(ser_mouse(m)) == Some(m),
{
    reveal_strlit("{\"b\":[");
    reveal_strlit("],\"p\":[");
    let bt = ser_u8_list(m.buttons);
    let xt = ser_int(m.x as int);
    let yt = ser_int(m.y as int);
    let wt = ser_int(m.wheel as int);
    let s = ser_mouse(m);
    assert(starts_with(s, "{\"b\":["@)) by {
        assert(s.take(6) =~= "{\"b\":["@);
    }
    let r1 = s.skip(6);
    assert(r1 =~= bt + seq![']'] + (",\"p\":["@ + xt + seq![','] + yt + "],\"w\":"@ + wt
        + "}"@)) by {
        reveal_strlit(",\"p\":[");
        reveal_strlit("],\"w\":");
        reveal_strlit("}");
    }
    lemma_u8_list_chars(m.buttons);
    assert forall|j: int| 0 <= j < bt.len() implies bt[j] != ']' by {
        assert(is_digit_char(bt[j]) || bt[j] == ',');
    }
    crate::net::lemma_find_char_concat(
        bt,
        ",\"p\":["@ + xt + seq![','] + yt + "],\"w\":"@ + wt + "}"@,
        ']',
    );
    assert(find_char(r1, ']') == Some(bt.len() as int));
    assert(r1.take(bt.len() as int) =~= bt);
    lemma_u8_list_round_trip(m.buttons, 0, 3);
    let t1 = r1.skip(bt.len() as int);
    assert(t1 =~= "],\"p\":["@ + (xt + seq![','] + yt + "],\"w\":"@ + wt + "}"@)) by {
        reveal_strlit(",\"p\":[");
        reveal_strlit("],\"w\":");
        reveal_strlit("}");
    }
    assert(starts_with(t1, "],\"p\":["@)) by {
        assert(t1.take(7) =~= "],\"p\":["@);
    }
    let r2 = t1.skip(7);
    assert(r2 =~= xt + seq![','] + yt + "],\"w\":"@ + wt + "}"@);
    lemma_mouse_ptr_round_trip(m, r2);
}

/// The pointer and wheel part of the mouse round trip.
#[verifier::rlimit(100)]
proof fn lemma_mouse_ptr_round_trip(m: MouseStateV, r2: Seq<char>)
    requires
        r2 == ser_int(m.x as int) + seq![','] + ser_int(m.y as int) + "],\"w\":"@ + ser_int(
            m.wheel as int,
        ) + "}"@,
    ensures
        parse_mouse_ptr(m.buttons, r2) == Some(m),
{
    reveal_strlit("],\"w\":");
    reveal_strlit("}");
    let xt = ser_int(m.x as int);
    let yt = ser_int(m.y as int);
    let wt = ser_int(m.wheel as int);
    assert(r2 =~= xt + seq![','] + (yt + "],\"w\":"@ + wt + "}"@));
    lemma_ser_int_not_char(m.x as int, ',');
    crate::net::lemma_find_char_concat(xt, yt + "],\"w\":"@ + wt + "}"@, ',');
    assert(find_char(r2, ',') == Some(xt.len() as int));
    assert(r2.take(xt.len() as int) =~= xt);
    lemma_canon_int_round_trip(m.x as int, -32768, 32767);
    let r3 = r2.skip(xt.len() as int + 1);
    assert(r3 =~= yt + seq![']'] + (",\"w\":"@ + wt + "}"@)) by {
        reveal_strlit(",\"w\":");
    }
    lemma_ser_int_not_char(m.y as int, ']');
    crate::net::lemma_find_char_concat(yt, ",\"w\":"@ + wt + "}"@, ']');
    assert(find_char(r3, ']') == Some(yt.len() as int));
    assert(r3.take(yt.len() as int) =~= yt);
    lemma_canon_int_round_trip(m.y as int, -32768, 32767);
    let t3 = r3.skip(yt.len() as int);
    assert(t3 =~= "],\"w\":"@ + wt + "}"@) by {
        reveal_strlit(",\"w\":");
    }
    assert(starts_with(t3, "],\"w\":"@)) by {
        assert(t3.take(6) =~= "],\"w\":"@);
    }
    assert(wt.len() >= 1) by {
        crate::text::lemma_dec_digits_all_digits(if m.wheel < 0 {
            (-m.wheel) as nat
        } else {
            m.wheel as nat
        });
    }
    assert(t3.last() == '}');
    assert(t3.subrange(6, t3.len() - 1) =~= wt);
    lemma_canon_int_round_trip(m.wheel as int, -128, 127);
    assert(parse_mouse_ptr(m.buttons, r2) == Some(
        MouseStateV { buttons: m.buttons, x: m.x, y: m.y, wheel: m.wheel },
    ));
    assert(MouseStateV { buttons: m.buttons, x: m.x, y: m.y, wheel: m.wheel } == m);
}

/// No interior character of a keyboard object is a closing brace, and
/// it ends with one.
#[verifier::rlimit(100)]
proof fn lemma_kbd_text_shape(k: KeyboardStateV)
    ensures
        ser_kbd(k).len() >= 2,
        ser_kbd(k).last() == '}',
        ser_kbd(k)[0] == '{',
        forall|j: int| 0 <= j < ser_kbd(k).len() - 1 ==> #[trigger] ser_kbd(k)[j] != '}',
{
    reveal_strlit("{\"k\":[");
    reveal_strlit("],\"l\":[");
    reveal_strlit("]}");
    let kt = ser_u8_list(k.keys);
    let lt = ser_u8_list(k.leds);
    let s = ser_kbd(k);
    lemma_u8_list_chars(k.keys);
    lemma_u8_list_chars(k.leds);
    assert forall|j: int| 0 <= j < s.len() - 1 implies s[j] != '}' by {
        if j < 6 {
            assert(s[j] == "{\"k\":["@[j]);
        } else if j < 6 + kt.len() {
            assert(s[j] == kt[j - 6]);
            assert(is_digit_char(kt[j - 6]) || kt[j - 6] == ',');
        } else if j < 13 + kt.len() {
            assert(s[j] == "],\"l\":["@[j - 6 - kt.len()]);
        } else if j < 13 + kt.len() + lt.len() {
            assert(s[j] == lt[j - 13 - kt.len()]);
            assert(is_digit_char(lt[j - 13 - kt.len()]) || lt[j - 13 - kt.len()] == ',');
        } else {
            assert(s[j] == "]}"@[j - 13 - kt.len() - lt.len()]);
        }
    }
    assert(s.last() == "]}"@[1]);
    assert(s[0] == "{\"k\":["@[0]);
}

/// No interior character of a mouse object is a closing brace, and it
/// ends with one.
#[verifier::rlimit(100)]
proof fn lemma_mouse_text_shape(m: MouseStateV)
    ensures
        ser_mouse(m).len() >= 2,
        ser_mouse(m).last() == '}',
        ser_mouse(m)[0] == '{',
        forall|j: int| 0 <= j < ser_mouse(m).len() - 1 ==> #[trigger] ser_mouse(m)[j] != '}',
{
    reveal_strlit("{\"b\":[");
    reveal_strlit("],\"p\":[");
    reveal_strlit("],\"w\":");
    reveal_strlit("}");
    let bt = ser_u8_list(m.buttons);
    let xt = ser_int(m.x as int);
    let yt = ser_int(m.y as int);
    let wt = ser_int(m.wheel as int);
    let s = ser_mouse(m);
    lemma_u8_list_chars(m.buttons);
    lemma_ser_int_not_char(m.x as int, '}');
    lemma_ser_int_not_char(m.y as int, '}');
    lemma_ser_int_not_char(m.wheel as int, '}');
    assert forall|j: int| 0 <= j < s.len() - 1 implies s[j] != '}' by {
        if j < 6 {
            assert(s[j] == "{\"b\":["@[j]);
        } else if j < 6 + bt.len() {
            assert(s[j] == bt[j - 6]);
            assert(is_digit_char(bt[j - 6]) || bt[j - 6] == ',');
        } else if j < 13 + bt.len() {
            assert(s[j] == "],\"p\":["@[j - 6 - bt.len()]);
        } else if j < 13 + bt.len() + xt.len() {
            assert(s[j] == xt[j - 13 - bt.len()]);
        } else if j == 13 + bt.len() + xt.len() {
            assert(s[j] == ',');
        } else if j < 14 + bt.len() + xt.len() + yt.len() {
            assert(s[j] == yt[j - 14 - bt.len() - xt.len()]);
        } else if j < 20 + bt.len() + xt.len() + yt.len() {
            assert(s[j] == "],\"w\":"@[j - 14 - bt.len() - xt.len() - yt.len()]);
        } else {
            assert(s[j] == wt[j - 20 - bt.len() - xt.len() - yt.len()]);
        }
    }
    assert(s.last() == "}"@[0]);
    assert(s[0] == "{\"b\":["@[0]);
}

/// The optional keyboard segment round-trips and hands back the rest.
#[verifier::rlimit(100)]
proof fn lemma_opt_kbd_round_trip(k: Option<KeyboardStateV>, rest: Seq<char>)
    requires
        k matches Some(kv) ==> (forall|j: int| 0 <= j < kv.keys.len() ==> #[trigger] kv.keys[j]
            <= 0xe7) && (forall|j: int| 0 <= j < kv.leds.len() ==> 1 <= #[trigger] kv.leds[j]
            <= 5),
        rest.len() >= 1 ==> rest[0] == ',',
    ensures
        parse_opt_kbd(ser_opt_kbd(k) + rest) == Some((k, rest)),
{
    reveal_strlit("null");
    reveal_strlit("{\"k\":[");
    let s = ser_opt_kbd(k) + rest;
    match k {
        None => {
            assert(starts_with(s, "null"@)) by {
                assert(s.take(4) =~= "null"@);
            }
            assert(s.skip(4) =~= rest);
        },
        Some(kv) => {
            let kt = ser_kbd(kv);
            lemma_kbd_text_shape(kv);
            assert(!starts_with(s, "null"@)) by {
                if s.len() >= 4 && s.take(4) == "null"@ {
                    assert(s.take(4)[0] == 'n');
                    assert(s[0] == '{');
                }
            }
            assert(s[0] == '{');
            assert(s =~= kt.take(kt.len() - 1) + seq!['}'] + rest);
            assert forall|j: int| 0 <= j < kt.len() - 1 implies #[trigger] kt.take(
                kt.len() - 1,
            )[j] != '}' by {
                assert(kt.take(kt.len() - 1)[j] == kt[j]);
            }
            crate::net::lemma_find_char_concat(kt.take(kt.len() - 1), rest, '}');
            assert(find_char(s, '}') == Some(kt.len() - 1));
            assert(s.take(kt.len() as int) =~= kt);
            lemma_kbd_round_trip(kv);
            assert(s.skip(kt.len() as int) =~= rest);
        },
    }
}

/// The optional mouse segment round-trips and hands back the rest.
#[verifier::rlimit(100)]
proof fn lemma_opt_mouse_round_trip(m: Option<MouseStateV>, rest: Seq<char>)
    requires
        m matches Some(mv) ==> forall|j: int| 0 <= j < mv.buttons.len() ==> #[trigger] mv.buttons[j]
            <= 3,
        rest.len() >= 1 ==> rest[0] == '}',
    ensures
        parse_opt_mouse(ser_opt_mouse(m) + rest) == Some((m, rest)),
{
    reveal_strlit("null");
    reveal_strlit("{\"b\":[");
    let s = ser_opt_mouse(m) + rest;
    match m {
        None => {
            assert(starts_with(s, "null"@)) by {
                assert(s.take(4) =~= "null"@);
            }
            assert(s.skip(4) =~= rest);
        },
        Some(mv) => {
            let mt = ser_mouse(mv);
            lemma_mouse_text_shape(mv);
            assert(!starts_with(s, "null"@)) by {
                if s.len() >= 4 && s.take(4) == "null"@ {
                    assert(s.take(4)[0] == 'n');
                    assert(s[0] == '{');
                }
            }
            assert(s[0] == '{');
            assert(s =~= mt.take(mt.len() - 1) + seq!['}'] + rest);
            assert forall|j: int| 0 <= j < mt.len() - 1 implies #[trigger] mt.take(
                mt.len() - 1,
            )[j] != '}' by {
                assert(mt.take(mt.len() - 1)[j] == mt[j]);
            }
            crate::net::lemma_find_char_concat(mt.take(mt.len() - 1), rest, '}');
            assert(find_char(s, '}') == Some(mt.len() - 1));
            assert(s.take(mt.len() as int) =~= mt);
            lemma_mouse_round_trip(mv);
            assert(s.skip(mt.len() as int) =~= rest);
        },
    }
}

/// The HID part of the snapshot round trip.
#[verifier::rlimit(100)]
proof fn lemma_state_hid_round_trip(
    leds: Seq<(LedId, bool)>,
    buttons: Seq<(ButtonId, bool)>,
    keyboard: Option<KeyboardStateV>,
    mouse: Option<MouseStateV>,
)
    requires
        keyboard matches Some(kv) ==> (forall|j: int|
            0 <= j < kv.keys.len() ==> #[trigger] kv.keys[j] <= 0xe7) && (forall|j: int|
            0 <= j < kv.leds.len() ==> 1 <= #[trigger] kv.leds[j] <= 5),
        mouse matches Some(mv) ==> forall|j: int| 0 <= j < mv.buttons.len()
            ==> #[trigger] mv.buttons[j] <= 3,
    ensures
        parse_state_hid(
            leds,
            buttons,
            ser_opt_kbd(keyboard) + ",\"m\":"@ + ser_opt_mouse(mouse) + "}"@,
        ) == Some(SocketOutputV::State { leds, buttons, keyboard, mouse }),
{
    reveal_strlit(",\"m\":");
    reveal_strlit("}");
    let kt = ser_opt_kbd(keyboard);
    let mt = ser_opt_mouse(mouse);
    let s = kt + ",\"m\":"@ + mt + "}"@;
    assert(s =~= kt + (",\"m\":"@ + mt + "}"@));
    assert((",\"m\":"@ + mt + "}"@)[0] == ',');
    lemma_opt_kbd_round_trip(keyboard, ",\"m\":"@ + mt + "}"@);
    assert(s == ser_opt_kbd(keyboard) + (",\"m\":"@ + mt + "}"@));
    let t3 = ",\"m\":"@ + mt + "}"@;
    assert(starts_with(t3, ",\"m\":"@)) by {
        assert(t3.take(5) =~= ",\"m\":"@);
    }
    let r4 = t3.skip(5);
    assert(r4 =~= mt + "}"@);
    assert(("}"@)[0] == '}');
    lemma_opt_mouse_round_trip(mouse, "}"@);
    assert(r4 == ser_opt_mouse(mouse) + "}"@);
}

/// The snapshot body round-trips.
#[verifier::rlimit(100)]
proof fn lemma_state_body_round_trip(
    leds: Seq<(LedId, bool)>,
    buttons: Seq<(ButtonId, bool)>,
    keyboard: Option<KeyboardStateV>,
    mouse: Option<MouseStateV>,
)
    requires
        keyboard matches Some(kv) ==> (forall|j: int|
            0 <= j < kv.keys.len() ==> #[trigger] kv.keys[j] <= 0xe7) && (forall|j: int|
            0 <= j < kv.leds.len() ==> 1 <= #[trigger] kv.leds[j] <= 5),
        mouse matches Some(mv) ==> forall|j: int| 0 <= j < mv.buttons.len()
            ==> #[trigger] mv.buttons[j] <= 3,
    ensures
        parse_state_body(
            ser_led_entries(leds) + "},\"b\":{"@ + ser_btn_entries(buttons) + "},\"k\":"@
                + ser_opt_kbd(keyboard) + ",\"m\":"@ + ser_opt_mouse(mouse) + "}"@,
        ) == Some(SocketOutputV::State { leds, buttons, keyboard, mouse }),
{
    reveal_strlit("},\"b\":{");
    reveal_strlit("},\"k\":");
    reveal_strlit(",\"b\":{");
    reveal_strlit(",\"k\":");
    let lt = ser_led_entries(leds);
    let bt = ser_btn_entries(buttons);
    let kt = ser_opt_kbd(keyboard);
    let mt = ser_opt_mouse(mouse);
    let hid = kt + ",\"m\":"@ + mt + "}"@;
    let rest = lt + "},\"b\":{"@ + bt + "},\"k\":"@ + kt + ",\"m\":"@ + mt + "}"@;
    lemma_led_entries_chars(leds);
    assert(rest =~= lt + seq!['}'] + (",\"b\":{"@ + bt + "},\"k\":"@ + hid));
    crate::net::lemma_find_char_concat(lt, ",\"b\":{"@ + bt + "},\"k\":"@ + hid, '}');
    assert(find_char(rest, '}') == Some(lt.len() as int));
    assert(rest.take(lt.len() as int) =~= lt);
    lemma_led_entries_round_trip(leds);
    let t1 = rest.skip(lt.len() as int);
    assert(t1 =~= "},\"b\":{"@ + (bt + "},\"k\":"@ + hid));
    assert(starts_with(t1, "},\"b\":{"@)) by {
        assert(t1.take(7) =~= "},\"b\":{"@);
    }
    let r2 = t1.skip(7);
    assert(r2 =~= bt + seq!['}'] + (",\"k\":"@ + hid));
    lemma_btn_entries_chars(buttons);
    crate::net::lemma_find_char_concat(bt, ",\"k\":"@ + hid, '}');
    assert(find_char(r2, '}') == Some(bt.len() as int));
    assert(r2.take(bt.len() as int) =~= bt);
    lemma_btn_entries_round_trip(buttons);
    let t2 = r2.skip(bt.len() as int);
    assert(t2 =~= "},\"k\":"@ + hid);
    assert(starts_with(t2, "},\"k\":"@)) by {
        assert(t2.take(6) =~= "},\"k\":"@);
    }
    assert(t2.skip(6) =~= hid);
    lemma_state_hid_round_trip(leds, buttons, keyboard, mouse);
    assert(hid == ser_opt_kbd(keyboard) + ",\"m\":"@ + ser_opt_mouse(mouse) + "}"@);
}

/// Decode a comma-separated byte list region.
fn decode_u8_list(s: &str, from: usize, to: usize, lo: u8, hi: u8) -> (r: Option<Vec<u8>>)
    requires
        from <= to <= s@.len(),
    ensures
        match r {
            Some(v) => parse_u8_list(s@.subrange(from as int, to as int), lo, hi) == Some(v@),
            None => parse_u8_list(s@.subrange(from as int, to as int), lo, hi) is None,
        },
    decreases to - from,
{
    let ghost sub = s@.subrange(from as int, to as int);
    if from == to {
        let v: Vec<u8> = Vec::new();
        proof {
            assert(v@ =~= Seq::<u8>::empty());
        }
        return Some(v);
    }
    match find_char_in(s, from, to, ',') {
        Some(i) => {
            proof {
                lemma_find_char(sub, ',');
                assert(sub.take(i - from) =~= s@.subrange(from as int, i as int));
                assert(sub.skip(i - from + 1) =~= s@.subrange(i + 1, to as int));
            }
            match parse_canon_u64_str(s, from, i, hi as u64) {
                Some(n) => {
                    if n >= lo as u64 {
                        match decode_u8_list(s, i + 1, to, lo, hi) {
                            Some(rest) => {
                                if rest.len() > 0 {
                                    let mut v = rest;
                                    v.insert(0, n as u8);
                                    proof {
                                        assert(v@ =~= seq![n as u8] + v@.skip(1));
                                    }
                                    Some(v)
                                } else {
                                    None
                                }
                            },
                            None => None,
                        }
                    } else {
                        None
                    }
                },
                None => None,
            }
        },
        None => {
            match parse_canon_u64_str(s, from, to, hi as u64) {
                Some(n) => {
                    if n >= lo as u64 {
                        let mut v: Vec<u8> = Vec::new();
                        v.push(n as u8);
                        proof {
                            assert(v@ =~= seq![n as u8]);
                        }
                        Some(v)
                    } else {
                        None
                    }
                },
                None => None,
            }
        },
    }
}

/// Decode the LED state map's entries.
fn decode_led_entries(s: &str, from: usize, to: usize) -> (r: Option<Vec<(LedId, bool)>>)
    requires
        from <= to <= s@.len(),
    ensures
        match r {
            Some(v) => parse_led_entries(s@.subrange(from as int, to as int)) == Some(v@),
            None => parse_led_entries(s@.subrange(from as int, to as int)) is None,
        },
    decreases to - from, 1int,
{
    proof {
        reveal_strlit("\":true");
        reveal_strlit("\":false");
    }
    let ghost sub = s@.subrange(from as int, to as int);
    if from == to {
        let v: Vec<(LedId, bool)> = Vec::new();
        proof {
            assert(v@ =~= Seq::<(LedId, bool)>::empty());
        }
        return Some(v);
    }
    if s.get_char(from) != '"' {
        proof {
            assert(sub[0] == s@[from as int]);
        }
        return None;
    }
    proof {
        assert(sub[0] == s@[from as int]);
        assert(sub.skip(1) =~= s@.subrange(from + 1, to as int));
    }
    match find_char_in(s, from + 1, to, '"') {
        Some(i) => {
            proof {
                lemma_find_char(sub.skip(1), '"');
                assert(sub.skip(1).take(i - from - 1) =~= s@.subrange(from + 1, i as int));
                assert(sub.skip(1).skip(i - from - 1) =~= s@.subrange(i as int, to as int));
            }
            let name = s.substring_char(from + 1, i);
            match crate::ids::LedId::from_name(name) {
                Some(id) => {
                    if to - i >= 6 && region_eq(s, i, i + 6, "\":true") {
                        proof {
                            assert(s@.subrange(i as int, to as int).take(6) =~= s@.subrange(
                                i as int,
                                i + 6,
                            ));
                            assert(s@.subrange(i as int, to as int).skip(6) =~= s@.subrange(
                                i + 6,
                                to as int,
                            ));
                        }
                        decode_led_tail(s, id, true, i + 6, to)
                    } else if to - i >= 7 && region_eq(s, i, i + 7, "\":false") {
                        proof {
                            let after = s@.subrange(i as int, to as int);
                            assert(after.take(7) =~= s@.subrange(i as int, i + 7));
                            assert(after.skip(7) =~= s@.subrange(i + 7, to as int));
                            if after.len() >= 6 && after.take(6) == "\":true"@ {
                                assert(after.take(6)[2] == 't');
                                assert(after[2] == s@[i + 2]);
                                assert(after.take(7)[2] == 'f');
                            }
                        }
                        decode_led_tail(s, id, false, i + 7, to)
                    } else {
                        proof {
                            let after = s@.subrange(i as int, to as int);
                            if after.len() >= 6 && after.take(6) == "\":true"@ {
                                assert(after.take(6) =~= s@.subrange(i as int, i + 6));
                            }
                            if after.len() >= 7 && after.take(7) == "\":false"@ {
                                assert(after.take(7) =~= s@.subrange(i as int, i + 7));
                            }
                        }
                        None
                    }
                },
                None => None,
            }
        },
        None => None,
    }
}

/// Decode what follows one LED entry.
fn decode_led_tail(s: &str, id: LedId, b: bool, from: usize, to: usize) -> (r: Option<
    Vec<(LedId, bool)>,
>)
    requires
        from <= to <= s@.len(),
    ensures
        match r {
            Some(v) => parse_led_entries_tail(id, b, s@.subrange(from as int, to as int))
                == Some(v@),
            None => parse_led_entries_tail(id, b, s@.subrange(from as int, to as int)) is None,
        },
    decreases to - from, 0int,
{
    let ghost sub = s@.subrange(from as int, to as int);
    if from == to {
        let mut v: Vec<(LedId, bool)> = Vec::new();
        v.push((id, b));
        proof {
            assert(v@ =~= seq![(id, b)]);
        }
        return Some(v);
    }
    if s.get_char(from) != ',' {
        proof {
            assert(sub[0] == s@[from as int]);
        }
        return None;
    }
    proof {
        assert(sub[0] == s@[from as int]);
        assert(sub.skip(1) =~= s@.subrange(from + 1, to as int));
    }
    match decode_led_entries(s, from + 1, to) {
        Some(rest) => {
            if rest.len() > 0 {
                let mut v = rest;
                v.insert(0, (id, b));
                proof {
                    assert(v@ =~= seq![(id, b)] + v@.skip(1));
                }
                Some(v)
            } else {
                None
            }
        },
        None => None,
    }
}

/// Decode the button state map's entries.
fn decode_btn_entries(s: &str, from: usize, to: usize) -> (r: Option<Vec<(ButtonId, bool)>>)
    requires
        from <= to <= s@.len(),
    ensures
        match r {
            Some(v) => parse_btn_entries(s@.subrange(from as int, to as int)) == Some(v@),
            None => parse_btn_entries(s@.subrange(from as int, to as int)) is None,
        },
    decreases to - from, 1int,
{
    proof {
        reveal_strlit("\":true");
        reveal_strlit("\":false");
    }
    let ghost sub = s@.subrange(from as int, to as int);
    if from == to {
        let v: Vec<(ButtonId, bool)> = Vec::new();
        proof {
            assert(v@ =~= Seq::<(ButtonId, bool)>::empty());
        }
        return Some(v);
    }
    if s.get_char(from) != '"' {
        proof {
            assert(sub[0] == s@[from as int]);
        }
        return None;
    }
    proof {
        assert(sub[0] == s@[from as int]);
        assert(sub.skip(1) =~= s@.subrange(from + 1, to as int));
    }
    match find_char_in(s, from + 1, to, '"') {
        Some(i) => {
            proof {
                lemma_find_char(sub.skip(1), '"');
                assert(sub.skip(1).take(i - from - 1) =~= s@.subrange(from + 1, i as int));
                assert(sub.skip(1).skip(i - from - 1) =~= s@.subrange(i as int, to as int));
            }
            let name = s.substring_char(from + 1, i);
            match ButtonId::from_name(name) {
                Some(id) => {
                    if to - i >= 6 && region_eq(s, i, i + 6, "\":true") {
                        proof {
                            assert(s@.subrange(i as int, to as int).take(6) =~= s@.subrange(
                                i as int,
                                i + 6,
                            ));
                            assert(s@.subrange(i as int, to as int).skip(6) =~= s@.subrange(
                                i + 6,
                                to as int,
                            ));
                        }
                        decode_btn_tail(s, id, true, i + 6, to)
                    } else if to - i >= 7 && region_eq(s, i, i + 7, "\":false") {
                        proof {
                            let after = s@.subrange(i as int, to as int);
                            assert(after.take(7) =~= s@.subrange(i as int, i + 7));
                            assert(after.skip(7) =~= s@.subrange(i + 7, to as int));
                            if after.len() >= 6 && after.take(6) == "\":true"@ {
                                assert(after.take(6)[2] == 't');
                                assert(after[2] == s@[i + 2]);
                                assert(after.take(7)[2] == 'f');
                            }
                        }
                        decode_btn_tail(s, id, false, i + 7, to)
                    } else {
                        proof {
                            let after = s@.subrange(i as int, to as int);
                            if after.len() >= 6 && after.take(6) == "\":true"@ {
                                assert(after.take(6) =~= s@.subrange(i as int, i + 6));
                            }
                            if after.len() >= 7 && after.take(7) == "\":false"@ {
                                assert(after.take(7) =~= s@.subrange(i as int, i + 7));
                            }
                        }
                        None
                    }
                },
                None => None,
            }
        },
        None => None,
    }
}

/// Decode what follows one button entry.
fn decode_btn_tail(s: &str, id: ButtonId, b: bool, from: usize, to: usize) -> (r: Option<
    Vec<(ButtonId, bool)>,
>)
    requires
        from <= to <= s@.len(),
    ensures
        match r {
            Some(v) => parse_btn_entries_tail(id, b, s@.subrange(from as int, to as int))
                == Some(v@),
            None => parse_btn_entries_tail(id, b, s@.subrange(from as int, to as int)) is None,
        },
    decreases to - from, 0int,
{
    let ghost sub = s@.subrange(from as int, to as int);
    if from == to {
        let mut v: Vec<(ButtonId, bool)> = Vec::new();
        v.push((id, b));
        proof {
            assert(v@ =~= seq![(id, b)]);
        }
        return Some(v);
    }
    if s.get_char(from) != ',' {
        proof {
            assert(sub[0] == s@[from as int]);
        }
        return None;
    }
    proof {
        assert(sub[0] == s@[from as int]);
        assert(sub.skip(1) =~= s@.subrange(from + 1, to as int));
    }
    match decode_btn_entries(s, from + 1, to) {
        Some(rest) => {
            if rest.len() > 0 {
                let mut v = rest;
                v.insert(0, (id, b));
                proof {
                    assert(v@ =~= seq![(id, b)] + v@.skip(1));
                }
                Some(v)
            } else {
                None
            }
        },
        None => None,
    }
}

/// Wrap raw key codes in their report type.
fn codes_to_keys(v: Vec<u8>) -> (r: Vec<crate::hid::Key>)
    ensures
        r@.map_values(|k: crate::hid::Key| k.code) == v@,
{
    let mut r: Vec<crate::hid::Key> = Vec::new();
    let mut i: usize = 0;
    while i < v.len()
        invariant
            i <= v@.len(),
            r@.map_values(|k: crate::hid::Key| k.code) == v@.take(i as int),
        decreases v@.len() - i,
    {
        let ghost r0 = r@;
        r.push(crate::hid::Key { code: v[i] });
        proof {
            assert(r@ == r0.push(crate::hid::Key { code: v@[i as int] }));
            assert(r@.map_values(|k: crate::hid::Key| k.code) =~= r0.map_values(
                |k: crate::hid::Key| k.code,
            ).push(v@[i as int]));
            assert(v@.take(i as int + 1) =~= v@.take(i as int).push(v@[i as int]));
        }
        i += 1;
    }
    proof {
        assert(v@.take(v@.len() as int) =~= v@);
    }
    r
}

/// Wrap raw LED codes in their report type.
fn codes_to_leds(v: Vec<u8>) -> (r: Vec<crate::hid::Led>)
    ensures
        r@.map_values(|l: crate::hid::Led| l.code) == v@,
{
    let mut r: Vec<crate::hid::Led> = Vec::new();
    let mut i: usize = 0;
    while i < v.len()
        invariant
            i <= v@.len(),
            r@.map_values(|l: crate::hid::Led| l.code) == v@.take(i as int),
        decreases v@.len() - i,
    {
        let ghost r0 = r@;
        r.push(crate::hid::Led { code: v[i] });
        proof {
            assert(r@ == r0.push(crate::hid::Led { code: v@[i as int] }));
            assert(r@.map_values(|l: crate::hid::Led| l.code) =~= r0.map_values(
                |l: crate::hid::Led| l.code,
            ).push(v@[i as int]));
            assert(v@.take(i as int + 1) =~= v@.take(i as int).push(v@[i as int]));
        }
        i += 1;
    }
    proof {
        assert(v@.take(v@.len() as int) =~= v@);
    }
    r
}

/// Wrap raw button codes in their report type.
fn codes_to_buttons(v: Vec<u8>) -> (r: Vec<crate::hid::Button>)
    ensures
        r@.map_values(|b: crate::hid::Button| b.code) == v@,
{
    let mut r: Vec<crate::hid::Button> = Vec::new();
    let mut i: usize = 0;
    while i < v.len()
        invariant
            i <= v@.len(),
            r@.map_values(|b: crate::hid::Button| b.code) == v@.take(i as int),
        decreases v@.len() - i,
    {
        let ghost r0 = r@;
        r.push(crate::hid::Button { code: v[i] });
        proof {
            assert(r@ == r0.push(crate::hid::Button { code: v@[i as int] }));
            assert(r@.map_values(|b: crate::hid::Button| b.code) =~= r0.map_values(
                |b: crate::hid::Button| b.code,
            ).push(v@[i as int]));
            assert(v@.take(i as int + 1) =~= v@.take(i as int).push(v@[i as int]));
        }
        i += 1;
    }
    proof {
        assert(v@.take(v@.len() as int) =~= v@);
    }
    r
}

/// Decode a keyboard state object region.
#[verifier::rlimit(100)]
fn decode_kbd(s: &str, from: usize, to: usize) -> (r: Option<crate::hid::KeyboardState>)
    requires
        from <= to <= s@.len(),
    ensures
        match r {
            Some(k) => parse_kbd(s@.subrange(from as int, to as int)) == Some(k@),
            None => parse_kbd(s@.subrange(from as int, to as int)) is None,
        },
{
    proof {
        reveal_strlit("{\"k\":[");
        reveal_strlit("],\"l\":[");
        reveal_strlit("]}");
    }
    let ghost sub = s@.subrange(from as int, to as int);
    if to - from < 6 || !region_eq(s, from, from + 6, "{\"k\":[") {
        proof {
            if sub.len() >= 6 && sub.take(6) == "{\"k\":["@ {
                assert(sub.take(6) =~= s@.subrange(from as int, from + 6));
            }
        }
        return None;
    }
    proof {
        assert(sub.take(6) =~= s@.subrange(from as int, from + 6));
        assert(sub.skip(6) =~= s@.subrange(from + 6, to as int));
    }
    match find_char_in(s, from + 6, to, ']') {
        Some(i) => {
            proof {
                lemma_find_char(sub.skip(6), ']');
                assert(sub.skip(6).take(i - from - 6) =~= s@.subrange(from + 6, i as int));
                assert(sub.skip(6).skip(i - from - 6) =~= s@.subrange(i as int, to as int));
            }
            match decode_u8_list(s, from + 6, i, 0, 0xe7) {
                Some(keys) => {
                    if to - i >= 7 && region_eq(s, i, i + 7, "],\"l\":[") {
                        proof {
                            let t1 = s@.subrange(i as int, to as int);
                            assert(t1.take(7) =~= s@.subrange(i as int, i + 7));
                            assert(t1.skip(7) =~= s@.subrange(i + 7, to as int));
                        }
                        match find_char_in(s, i + 7, to, ']') {
                            Some(j) => {
                                proof {
                                    let r2 = s@.subrange(i + 7, to as int);
                                    lemma_find_char(r2, ']');
                                    assert(r2.take(j - i - 7) =~= s@.subrange(i + 7, j as int));
                                    assert(r2.skip(j - i - 7) =~= s@.subrange(
                                        j as int,
                                        to as int,
                                    ));
                                }
                                match decode_u8_list(s, i + 7, j, 1, 5) {
                                    Some(leds) => {
                                        if to - j == 2 && region_eq(s, j, to, "]}") {
                                            let k = crate::hid::KeyboardState {
                                                keys: codes_to_keys(keys),
                                                leds: codes_to_leds(leds),
                                            };
                                            Some(k)
                                        } else {
                                            proof {
                                                let rem = s@.subrange(j as int, to as int);
                                                if rem == "]}"@ {
                                                    assert(rem.len() == 2);
                                                    assert(rem =~= s@.subrange(j as int, to as int));
                                                }
                                            }
                                            None
                                        }
                                    },
                                    None => None,
                                }
                            },
                            None => None,
                        }
                    } else {
                        proof {
                            let t1 = s@.subrange(i as int, to as int);
                            if t1.len() >= 7 && t1.take(7) == "],\"l\":["@ {
                                assert(t1.take(7) =~= s@.subrange(i as int, i + 7));
                            }
                        }
                        None
                    }
                },
                None => None,
            }
        },
        None => None,
    }
}

/// Decode a mouse state object region.
#[verifier::rlimit(100)]
fn decode_mouse(s: &str, from: usize, to: usize) -> (r: Option<crate::hid::MouseState>)
    requires
        from <= to <= s@.len(),
    ensures
        match r {
            Some(m) => parse_mouse(s@.subrange(from as int, to as int)) == Some(m@),
            None => parse_mouse(s@.subrange(from as int, to as int)) is None,
        },
{
    proof {
        reveal_strlit("{\"b\":[");
        reveal_strlit("],\"p\":[");
        reveal_strlit("],\"w\":");
    }
    let ghost sub = s@.subrange(from as int, to as int);
    if to - from < 6 || !region_eq(s, from, from + 6, "{\"b\":[") {
        proof {
            if sub.len() >= 6 && sub.take(6) == "{\"b\":["@ {
                assert(sub.take(6) =~= s@.subrange(from as int, from + 6));
            }
        }
        return None;
    }
    proof {
        assert(sub.take(6) =~= s@.subrange(from as int, from + 6));
        assert(sub.skip(6) =~= s@.subrange(from + 6, to as int));
    }
    match find_char_in(s, from + 6, to, ']') {
        Some(i) => {
            proof {
                lemma_find_char(sub.skip(6), ']');
                assert(sub.skip(6).take(i - from - 6) =~= s@.subrange(from + 6, i as int));
                assert(sub.skip(6).skip(i - from - 6) =~= s@.subrange(i as int, to as int));
            }
            match decode_u8_list(s, from + 6, i, 0, 3) {
                Some(buttons) => {
                    if to - i >= 7 && region_eq(s, i, i + 7, "],\"p\":[") {
                        proof {
                            let t1 = s@.subrange(i as int, to as int);
                            assert(t1.take(7) =~= s@.subrange(i as int, i + 7));
                            assert(t1.skip(7) =~= s@.subrange(i + 7, to as int));
                        }
                        decode_mouse_ptr(s, buttons, i + 7, to)
                    } else {
                        proof {
                            let t1 = s@.subrange(i as int, to as int);
                            if t1.len() >= 7 && t1.take(7) == "],\"p\":["@ {
                                assert(t1.take(7) =~= s@.subrange(i as int, i + 7));
                            }
                        }
                        None
                    }
                },
                None => None,
            }
        },
        None => None,
    }
}

/// Decode the pointer and wheel part of a mouse object region.
#[verifier::rlimit(100)]
fn decode_mouse_ptr(s: &str, buttons: Vec<u8>, from: usize, to: usize) -> (r: Option<
    crate::hid::MouseState,
>)
    requires
        from <= to <= s@.len(),
    ensures
        match r {
            Some(m) => parse_mouse_ptr(buttons@, s@.subrange(from as int, to as int))
                == Some(m@),
            None => parse_mouse_ptr(buttons@, s@.subrange(from as int, to as int)) is None,
        },
{
    proof {
        reveal_strlit("],\"w\":");
    }
    let ghost sub = s@.subrange(from as int, to as int);
    match find_char_in(s, from, to, ',') {
        Some(j) => {
            proof {
                lemma_find_char(sub, ',');
                assert(sub.take(j - from) =~= s@.subrange(from as int, j as int));
                assert(sub.skip(j - from + 1) =~= s@.subrange(j + 1, to as int));
            }
            match parse_canon_i64_str(s, from, j, -32768, 32767) {
                Some(x) => {
                    match find_char_in(s, j + 1, to, ']') {
                        Some(k) => {
                            proof {
                                let r3 = s@.subrange(j + 1, to as int);
                                lemma_find_char(r3, ']');
                                assert(r3.take(k - j - 1) =~= s@.subrange(j + 1, k as int));
                                assert(r3.skip(k - j - 1) =~= s@.subrange(k as int, to as int));
                            }
                            match parse_canon_i64_str(s, j + 1, k, -32768, 32767) {
                                Some(y) => {
                                    let shape_ok = to - k >= 8 && region_eq(s, k, k + 6, "],\"w\":")
                                        && s.get_char(to - 1) == '}';
                                    proof {
                                        let t3 = s@.subrange(k as int, to as int);
                                        if to - k >= 6 {
                                            assert(t3.take(6) =~= s@.subrange(k as int, k + 6));
                                        }
                                        if t3.len() >= 1 {
                                            assert(t3.last() == s@[to - 1]);
                                        }
                                        if to - k >= 8 {
                                            assert(t3.subrange(6, t3.len() - 1) =~= s@.subrange(
                                                k + 6,
                                                to - 1,
                                            ));
                                        }
                                    }
                                    if shape_ok {
                                        match parse_canon_i64_str(s, k + 6, to - 1, -128, 127) {
                                            Some(w) => {
                                                let m = crate::hid::MouseState {
                                                    buttons: codes_to_buttons(buttons),
                                                    x: x as i16,
                                                    y: y as i16,
                                                    wheel: w as i8,
                                                };
                                                Some(m)
                                            },
                                            None => None,
                                        }
                                    } else {
                                        None
                                    }
                                },
                                None => None,
                            }
                        },
                        None => None,
                    }
                },
                None => None,
            }
        },
        None => None,
    }
}

/// Decode the optional keyboard segment; returns where the rest
/// begins.
fn decode_opt_kbd(s: &str, from: usize, to: usize) -> (r: Option<
    (Option<crate::hid::KeyboardState>, usize),
>)
    requires
        from <= to <= s@.len(),
    ensures
        match parse_opt_kbd(s@.subrange(from as int, to as int)) {
            Some((kv, rem)) => r matches Some((k, pos)) && from <= pos <= to && s@.subrange(
                pos as int,
                to as int,
            ) == rem && (match k {
                Some(ks) => kv == Some(ks@),
                None => kv is None,
            }),
            None => r is None,
        },
{
    proof {
        reveal_strlit("null");
    }
    let ghost sub = s@.subrange(from as int, to as int);
    if to - from >= 4 && region_eq(s, from, from + 4, "null") {
        proof {
            assert(sub.take(4) =~= s@.subrange(from as int, from + 4));
            assert(sub.skip(4) =~= s@.subrange(from + 4, to as int));
        }
        Some((None, from + 4))
    } else if from < to && s.get_char(from) == '{' {
        proof {
            if sub.len() >= 4 && sub.take(4) == "null"@ {
                assert(sub.take(4) =~= s@.subrange(from as int, from + 4));
            }
            assert(sub[0] == s@[from as int]);
        }
        match find_char_in(s, from, to, '}') {
            Some(m) => {
                proof {
                    lemma_find_char(sub, '}');
                    assert(sub.take(m - from + 1) =~= s@.subrange(from as int, m + 1));
                    assert(sub.skip(m - from + 1) =~= s@.subrange(m + 1, to as int));
                }
                match decode_kbd(s, from, m + 1) {
                    Some(k) => Some((Some(k), m + 1)),
                    None => None,
                }
            },
            None => None,
        }
    } else {
        proof {
            if sub.len() >= 4 && sub.take(4) == "null"@ {
                assert(sub.take(4) =~= s@.subrange(from as int, from + 4));
            }
            if sub.len() > 0 {
                assert(sub[0] == s@[from as int]);
            }
        }
        None
    }
}

/// Decode the optional mouse segment; returns where the rest begins.
fn decode_opt_mouse(s: &str, from: usize, to: usize) -> (r: Option<
    (Option<crate::hid::MouseState>, usize),
>)
    requires
        from <= to <= s@.len(),
    ensures
        match parse_opt_mouse(s@.subrange(from as int, to as int)) {
            Some((mv, rem)) => r matches Some((m, pos)) && from <= pos <= to && s@.subrange(
                pos as int,
                to as int,
            ) == rem && (match m {
                Some(ms) => mv == Some(ms@),
                None => mv is None,
            }),
            None => r is None,
        },
{
    proof {
        reveal_strlit("null");
    }
    let ghost sub = s@.subrange(from as int, to as int);
    if to - from >= 4 && region_eq(s, from, from + 4, "null") {
        proof {
            assert(sub.take(4) =~= s@.subrange(from as int, from + 4));
            assert(sub.skip(4) =~= s@.subrange(from + 4, to as int));
        }
        Some((None, from + 4))
    } else if from < to && s.get_char(from) == '{' {
        proof {
            if sub.len() >= 4 && sub.take(4) == "null"@ {
                assert(sub.take(4) =~= s@.subrange(from as int, from + 4));
            }
            assert(sub[0] == s@[from as int]);
        }
        match find_char_in(s, from, to, '}') {
            Some(m) => {
                proof {
                    lemma_find_char(sub, '}');
                    assert(sub.take(m - from + 1) =~= s@.subrange(from as int, m + 1));
                    assert(sub.skip(m - from + 1) =~= s@.subrange(m + 1, to as int));
                }
                match decode_mouse(s, from, m + 1) {
                    Some(m2) => Some((Some(m2), m + 1)),
                    None => None,
                }
            },
            None => None,
        }
    } else {
        proof {
            if sub.len() >= 4 && sub.take(4) == "null"@ {
                assert(sub.take(4) =~= s@.subrange(from as int, from + 4));
            }
            if sub.len() > 0 {
                assert(sub[0] == s@[from as int]);
            }
        }
        None
    }
}

/// Decode the snapshot body.
#[verifier::rlimit(100)]
fn decode_state_body(s: &str, from: usize, to: usize) -> (r: Option<SocketOutput>)
    requires
        from <= to <= s@.len(),
    ensures
        match r {
            Some(m) => parse_state_body(s@.subrange(from as int, to as int)) == Some(m@),
            None => parse_state_body(s@.subrange(from as int, to as int)) is None,
        },
{
    proof {
        reveal_strlit("},\"b\":{");
        reveal_strlit("},\"k\":");
        reveal_strlit(",\"m\":");
        reveal_strlit("}");
    }
    let ghost rest = s@.subrange(from as int, to as int);
    match find_char_in(s, from, to, '}') {
        Some(i) => {
            proof {
                lemma_find_char(rest, '}');
                assert(rest.take(i - from) =~= s@.subrange(from as int, i as int));
                assert(rest.skip(i - from) =~= s@.subrange(i as int, to as int));
            }
            match decode_led_entries(s, from, i) {
                Some(leds) => {
                    if to - i >= 7 && region_eq(s, i, i + 7, "},\"b\":{") {
                        proof {
                            let t1 = s@.subrange(i as int, to as int);
                            assert(t1.take(7) =~= s@.subrange(i as int, i + 7));
                            assert(t1.skip(7) =~= s@.subrange(i + 7, to as int));
                        }
                        match find_char_in(s, i + 7, to, '}') {
                            Some(j) => {
                                proof {
                                    let r2 = s@.subrange(i + 7, to as int);
                                    lemma_find_char(r2, '}');
                                    assert(r2.take(j - i - 7) =~= s@.subrange(i + 7, j as int));
                                    assert(r2.skip(j - i - 7) =~= s@.subrange(
                                        j as int,
                                        to as int,
                                    ));
                                }
                                match decode_btn_entries(s, i + 7, j) {
                                    Some(buttons) => {
                                        if to - j >= 6 && region_eq(s, j, j + 6, "},\"k\":") {
                                            proof {
                                                let t2 = s@.subrange(j as int, to as int);
                                                assert(t2.take(6) =~= s@.subrange(
                                                    j as int,
                                                    j + 6,
                                                ));
                                                assert(t2.skip(6) =~= s@.subrange(
                                                    j + 6,
                                                    to as int,
                                                ));
                                            }
                                            match decode_opt_kbd(s, j + 6, to) {
                                                Some((keyboard, p1)) => {
                                                    if to - p1 >= 5 && region_eq(
                                                        s,
                                                        p1,
                                                        p1 + 5,
                                                        ",\"m\":",
                                                    ) {
                                                        proof {
                                                            let t3 = s@.subrange(
                                                                p1 as int,
                                                                to as int,
                                                            );
                                                            assert(t3.take(5) =~= s@.subrange(
                                                                p1 as int,
                                                                p1 + 5,
                                                            ));
                                                            assert(t3.skip(5) =~= s@.subrange(
                                                                p1 + 5,
                                                                to as int,
                                                            ));
                                                        }
                                                        match decode_opt_mouse(s, p1 + 5, to) {
                                                            Some((mouse, p2)) => {
                                                                if to - p2 == 1 && s.get_char(p2)
                                                                    == '}' {
                                                                    proof {
                                                                        assert(s@.subrange(
                                                                            p2 as int,
                                                                            to as int,
                                                                        ) =~= "}"@);
                                                                    }
                                                                    Some(
                                                                        SocketOutput::State {
                                                                            leds,
                                                                            buttons,
                                                                            keyboard,
                                                                            mouse,
                                                                        },
                                                                    )
                                                                } else {
                                                                    proof {
                                                                        let t4 = s@.subrange(
                                                                            p2 as int,
                                                                            to as int,
                                                                        );
                                                                        if t4 == "}"@ {
                                                                            assert(t4.len() == 1);
                                                                            assert(t4[0] == s@[p2 as int]);
                                                                        }
                                                                    }
                                                                    None
                                                                }
                                                            },
                                                            None => None,
                                                        }
                                                    } else {
                                                        proof {
                                                            let t3 = s@.subrange(
                                                                p1 as int,
                                                                to as int,
                                                            );
                                                            if t3.len() >= 5 && t3.take(5)
                                                                == ",\"m\":"@ {
                                                                assert(t3.take(5) =~= s@.subrange(
                                                                    p1 as int,
                                                                    p1 + 5,
                                                                ));
                                                            }
                                                        }
                                                        None
                                                    }
                                                },
                                                None => None,
                                            }
                                        } else {
                                            proof {
                                                let t2 = s@.subrange(j as int, to as int);
                                                if t2.len() >= 6 && t2.take(6) == "},\"k\":"@ {
                                                    assert(t2.take(6) =~= s@.subrange(
                                                        j as int,
                                                        j + 6,
                                                    ));
                                                }
                                            }
                                            None
                                        }
                                    },
                                    None => None,
                                }
                            },
                            None => None,
                        }
                    } else {
                        proof {
                            let t1 = s@.subrange(i as int, to as int);
                            if t1.len() >= 7 && t1.take(7) == "},\"b\":{"@ {
                                assert(t1.take(7) =~= s@.subrange(i as int, i + 7));
                            }
                        }
                        None
                    }
                },
                None => None,
            }
        },
        None => None,
    }
}

/// Decode one outgoing message from its canonical form; fails on
/// everything else.
#[verifier::rlimit(100)]
pub fn decode_output(s: &str) -> (r: Result<SocketOutput, Error>)
    ensures
        match r {
            Ok(m) => parse_output(s@) == Some(m@),
            Err(e) => parse_output(s@) is None && e is Json,
        },
{
    proof {
        reveal_strlit("{\"$\":\"s\",\"l\":{");
        reveal_strlit("{\"$\":\"l\",\"l\":\"");
        reveal_strlit("{\"$\":\"b\",\"b\":\"");
        reveal_strlit("{\"$\":\"k\",\"k\":");
        reveal_strlit("{\"$\":\"i\",\"l\":");
        reveal_strlit("{\"$\":\"m\",\"b\":");
        reveal_strlit("{\"$\":\"p\",\"x\":");
        reveal_strlit("{\"$\":\"w\",\"w\":");
        reveal_strlit("{\"$\":\"v\",\"f\":[");
        reveal_strlit("\",\"s\":true}");
        reveal_strlit("\",\"s\":false}");
        reveal_strlit(",\"s\":true}");
        reveal_strlit(",\"s\":false}");
        reveal_strlit(",\"y\":");
        reveal_strlit("]}");
    }
    let n = s.unicode_len();
    if has_prefix(s, n, "{\"$\":\"s\",\"l\":{") {
        proof {
            assert(s@.skip(14) =~= s@.subrange(14, n as int));
        }
        match decode_state_body(s, 14, n) {
            Some(m) => Ok(m),
            None => Err(Error::Json("invalid state message".to_owned())),
        }
    } else if has_prefix(s, n, "{\"$\":\"l\",\"l\":\"") {
        let ghost rest = s@.skip(14);
        proof {
            assert(rest =~= s@.subrange(14, n as int));
        }
        match find_char_in(s, 14, n, '"') {
            Some(i) => {
                proof {
                    lemma_find_char(rest, '"');
                    assert(rest.take(i - 14) =~= s@.subrange(14, i as int));
                    assert(rest.skip(i - 14) =~= s@.subrange(i as int, n as int));
                }
                let name = s.substring_char(14, i);
                match crate::ids::LedId::from_name(name) {
                    Some(led) => {
                        if region_eq(s, i, n, "\",\"s\":true}") {
                            Ok(SocketOutput::Led { led, state: true })
                        } else if region_eq(s, i, n, "\",\"s\":false}") {
                            Ok(SocketOutput::Led { led, state: false })
                        } else {
                            Err(Error::Json("invalid led message".to_owned()))
                        }
                    },
                    None => Err(Error::Json("unknown led".to_owned())),
                }
            },
            None => Err(Error::Json("invalid led message".to_owned())),
        }
    } else if has_prefix(s, n, "{\"$\":\"b\",\"b\":\"") {
        let ghost rest = s@.skip(14);
        proof {
            assert(rest =~= s@.subrange(14, n as int));
        }
        match find_char_in(s, 14, n, '"') {
            Some(i) => {
                proof {
                    lemma_find_char(rest, '"');
                    assert(rest.take(i - 14) =~= s@.subrange(14, i as int));
                    assert(rest.skip(i - 14) =~= s@.subrange(i as int, n as int));
                }
                let name = s.substring_char(14, i);
                match ButtonId::from_name(name) {
                    Some(button) => {
                        if region_eq(s, i, n, "\",\"s\":true}") {
                            Ok(SocketOutput::Button { button, state: true })
                        } else if region_eq(s, i, n, "\",\"s\":false}") {
                            Ok(SocketOutput::Button { button, state: false })
                        } else {
                            Err(Error::Json("invalid button message".to_owned()))
                        }
                    },
                    None => Err(Error::Json("unknown button".to_owned())),
                }
            },
            None => Err(Error::Json("invalid button message".to_owned())),
        }
    } else if has_prefix(s, n, "{\"$\":\"k\",\"k\":") {
        let ghost rest = s@.skip(13);
        proof {
            assert(rest =~= s@.subrange(13, n as int));
        }
        match find_char_in(s, 13, n, ',') {
            Some(i) => {
                proof {
                    lemma_find_char(rest, ',');
                    assert(rest.take(i - 13) =~= s@.subrange(13, i as int));
                    assert(rest.skip(i - 13) =~= s@.subrange(i as int, n as int));
                }
                match parse_canon_u64_str(s, 13, i, 0xe7) {
                    Some(code) => {
                        if region_eq(s, i, n, ",\"s\":true}") {
                            Ok(
                                SocketOutput::KeyboardKey {
                                    key: crate::hid::Key { code: code as u8 },
                                    state: true,
                                },
                            )
                        } else if region_eq(s, i, n, ",\"s\":false}") {
                            Ok(
                                SocketOutput::KeyboardKey {
                                    key: crate::hid::Key { code: code as u8 },
                                    state: false,
                                },
                            )
                        } else {
                            Err(Error::Json("invalid key message".to_owned()))
                        }
                    },
                    None => Err(Error::Json("invalid key code".to_owned())),
                }
            },
            None => Err(Error::Json("invalid key message".to_owned())),
        }
    } else if has_prefix(s, n, "{\"$\":\"i\",\"l\":") {
        let ghost rest = s@.skip(13);
        proof {
            assert(rest =~= s@.subrange(13, n as int));
        }
        match find_char_in(s, 13, n, ',') {
            Some(i) => {
                proof {
                    lemma_find_char(rest, ',');
                    assert(rest.take(i - 13) =~= s@.subrange(13, i as int));
                    assert(rest.skip(i - 13) =~= s@.subrange(i as int, n as int));
                }
                match parse_canon_u64_str(s, 13, i, 5) {
                    Some(code) => {
                        if code < 1 {
                            Err(Error::Json("invalid led code".to_owned()))
                        } else if region_eq(s, i, n, ",\"s\":true}") {
                            Ok(
                                SocketOutput::KeyboardLed {
                                    led: crate::hid::Led { code: code as u8 },
                                    state: true,
                                },
                            )
                        } else if region_eq(s, i, n, ",\"s\":false}") {
                            Ok(
                                SocketOutput::KeyboardLed {
                                    led: crate::hid::Led { code: code as u8 },
                                    state: false,
                                },
                            )
                        } else {
                            Err(Error::Json("invalid led message".to_owned()))
                        }
                    },
                    None => Err(Error::Json("invalid led code".to_owned())),
                }
            },
            None => Err(Error::Json("invalid led message".to_owned())),
        }
    } else if has_prefix(s, n, "{\"$\":\"m\",\"b\":") {
        let ghost rest = s@.skip(13);
        proof {
            assert(rest =~= s@.subrange(13, n as int));
        }
        match find_char_in(s, 13, n, ',') {
            Some(i) => {
                proof {
                    lemma_find_char(rest, ',');
                    assert(rest.take(i - 13) =~= s@.subrange(13, i as int));
                    assert(rest.skip(i - 13) =~= s@.subrange(i as int, n as int));
                }
                match parse_canon_u64_str(s, 13, i, 3) {
                    Some(code) => {
                        if region_eq(s, i, n, ",\"s\":true}") {
                            Ok(
                                SocketOutput::MouseButton {
                                    button: crate::hid::Button { code: code as u8 },
                                    state: true,
                                },
                            )
                        } else if region_eq(s, i, n, ",\"s\":false}") {
                            Ok(
                                SocketOutput::MouseButton {
                                    button: crate::hid::Button { code: code as u8 },
                                    state: false,
                                },
                            )
                        } else {
                            Err(Error::Json("invalid mouse button message".to_owned()))
                        }
                    },
                    None => Err(Error::Json("invalid mouse button code".to_owned())),
                }
            },
            None => Err(Error::Json("invalid mouse button message".to_owned())),
        }
    } else if has_prefix(s, n, "{\"$\":\"p\",\"x\":") {
        let ghost rest = s@.skip(13);
        proof {
            assert(rest =~= s@.subrange(13, n as int));
        }
        match find_char_in(s, 13, n, ',') {
            Some(i) => {
                proof {
                    lemma_find_char(rest, ',');
                    assert(rest.take(i - 13) =~= s@.subrange(13, i as int));
                }
                let ghost tail = rest.skip(i - 13);
                proof {
                    assert(tail =~= s@.subrange(i as int, n as int));
                }
                match parse_canon_i64_str(s, 13, i, -32768, 32767) {
                    Some(x) => {
                        let tail_ok = if n - i >= 6 {
                            let last_ok = s.get_char(n - 1) == '}';
                            proof {
                                assert(tail.last() == s@[n - 1]);
                            }
                            last_ok && region_eq(s, i, i + 5, ",\"y\":")
                        } else {
                            false
                        };
                        proof {
                            if n - i >= 6 {
                                assert(tail.take(5) =~= s@.subrange(i as int, i + 5));
                            }
                        }
                        if tail_ok {
                            proof {
                                assert(tail.subrange(5, tail.len() - 1) =~= s@.subrange(
                                    i + 5,
                                    n - 1,
                                ));
                            }
                            match parse_canon_i64_str(s, i + 5, n - 1, -32768, 32767) {
                                Some(y) => Ok(
                                    SocketOutput::MousePointer { x: x as i16, y: y as i16 },
                                ),
                                None => Err(Error::Json("invalid pointer message".to_owned())),
                            }
                        } else {
                            Err(Error::Json("invalid pointer message".to_owned()))
                        }
                    },
                    None => Err(Error::Json("invalid pointer message".to_owned())),
                }
            },
            None => Err(Error::Json("invalid pointer message".to_owned())),
        }
    } else if has_prefix(s, n, "{\"$\":\"w\",\"w\":") {
        let ghost rest = s@.skip(13);
        proof {
            assert(rest =~= s@.subrange(13, n as int));
        }
        if n > 13 && s.get_char(n - 1) == '}' {
            proof {
                assert(rest.last() == s@[n - 1]);
                assert(rest.take(rest.len() - 1) =~= s@.subrange(13, n - 1));
            }
            match parse_canon_i64_str(s, 13, n - 1, -128, 127) {
                Some(w) => Ok(SocketOutput::MouseWheel { wheel: w as i8 }),
                None => Err(Error::Json("invalid wheel message".to_owned())),
            }
        } else {
            proof {
                if rest.len() >= 1 {
                    assert(rest.last() == s@[n - 1]);
                }
            }
            Err(Error::Json("invalid wheel message".to_owned()))
        }
    } else if has_prefix(s, n, "{\"$\":\"v\",\"f\":[") {
        let ghost rest = s@.skip(14);
        proof {
            assert(rest =~= s@.subrange(14, n as int));
        }
        if n - 14 >= 2 && s.get_char(n - 2) == ']' && s.get_char(n - 1) == '}' {
            proof {
                assert(rest[rest.len() - 2] == s@[n - 2]);
                assert(rest.last() == s@[n - 1]);
                assert(rest.take(rest.len() - 2) =~= s@.subrange(14, n - 2));
            }
            match decode_u8_list(s, 14, n - 2, 0, 255) {
                Some(frame) => Ok(SocketOutput::VideoFrame { frame }),
                None => Err(Error::Json("invalid frame message".to_owned())),
            }
        } else {
            proof {
                if rest.len() >= 2 {
                    assert(rest[rest.len() - 2] == s@[n - 2]);
                    assert(rest.last() == s@[n - 1]);
                }
            }
            Err(Error::Json("invalid frame message".to_owned()))
        }
    } else {
        Err(Error::Json("unknown message".to_owned()))
    }
}

/// A mismatching character refutes a prefix.
proof fn lemma_not_prefix(s: Seq<char>, p: Seq<char>, j: int)
    requires
        0 <= j < p.len(),
        j < s.len(),
        s[j] != p[j],
    ensures
        !starts_with(s, p),
{
    if s.len() >= p.len() && s.take(p.len() as int) == p {
        assert(s.take(p.len() as int)[j] == p[j]);
    }
}

/// The tag character at index six refutes every other message prefix.
#[verifier::rlimit(100)]
proof fn lemma_refute_by_tag(s: Seq<char>, c: char)
    requires
        s.len() > 6,
        s[6] == c,
    ensures
        c != 's' ==> !starts_with(s, "{\"$\":\"s\",\"l\":{"@),
        c != 'l' ==> !starts_with(s, "{\"$\":\"l\",\"l\":\""@),
        c != 'b' ==> !starts_with(s, "{\"$\":\"b\",\"b\":\""@),
        c != 'k' ==> !starts_with(s, "{\"$\":\"k\",\"k\":"@),
        c != 'i' ==> !starts_with(s, "{\"$\":\"i\",\"l\":"@),
        c != 'm' ==> !starts_with(s, "{\"$\":\"m\",\"b\":"@),
        c != 'p' ==> !starts_with(s, "{\"$\":\"p\",\"x\":"@),
        c != 'w' ==> !starts_with(s, "{\"$\":\"w\",\"w\":"@),
        c != 'v' ==> !starts_with(s, "{\"$\":\"v\",\"f\":["@),
{
    reveal_strlit("{\"$\":\"s\",\"l\":{");
    reveal_strlit("{\"$\":\"l\",\"l\":\"");
    reveal_strlit("{\"$\":\"b\",\"b\":\"");
    reveal_strlit("{\"$\":\"k\",\"k\":");
    reveal_strlit("{\"$\":\"i\",\"l\":");
    reveal_strlit("{\"$\":\"m\",\"b\":");
    reveal_strlit("{\"$\":\"p\",\"x\":");
    reveal_strlit("{\"$\":\"w\",\"w\":");
    reveal_strlit("{\"$\":\"v\",\"f\":[");
    if c != 's' {
        lemma_not_prefix(s, "{\"$\":\"s\",\"l\":{"@, 6);
    }
    if c != 'l' {
        lemma_not_prefix(s, "{\"$\":\"l\",\"l\":\""@, 6);
    }
    if c != 'b' {
        lemma_not_prefix(s, "{\"$\":\"b\",\"b\":\""@, 6);
    }
    if c != 'k' {
        lemma_not_prefix(s, "{\"$\":\"k\",\"k\":"@, 6);
    }
    if c != 'i' {
        lemma_not_prefix(s, "{\"$\":\"i\",\"l\":"@, 6);
    }
    if c != 'm' {
        lemma_not_prefix(s, "{\"$\":\"m\",\"b\":"@, 6);
    }
    if c != 'p' {
        lemma_not_prefix(s, "{\"$\":\"p\",\"x\":"@, 6);
    }
    if c != 'w' {
        lemma_not_prefix(s, "{\"$\":\"w\",\"w\":"@, 6);
    }
    if c != 'v' {
        lemma_not_prefix(s, "{\"$\":\"v\",\"f\":["@, 6);
    }
}

/// Round trip of the snapshot message.
#[verifier::rlimit(100)]
proof fn lemma_output_round_trip_state(v: SocketOutputV)
    requires
        v is State,
        v matches SocketOutputV::State { keyboard: Some(kv), .. } ==> (forall|j: int|
            0 <= j < kv.keys.len() ==> #[trigger] kv.keys[j] <= 0xe7) && (forall|j: int|
            0 <= j < kv.leds.len() ==> 1 <= #[trigger] kv.leds[j] <= 5),
        v matches SocketOutputV::State { mouse: Some(mv), .. } ==> forall|j: int|
            0 <= j < mv.buttons.len() ==> #[trigger] mv.buttons[j] <= 3,
    ensures
        parse_output(ser_output(v)) == Some(v),
{
    reveal_strlit("{\"$\":\"s\",\"l\":{");
    let s = ser_output(v);
    match v {
        SocketOutputV::State { leds, buttons, keyboard, mouse } => {
            let body = ser_led_entries(leds) + "},\"b\":{"@ + ser_btn_entries(buttons)
                + "},\"k\":"@ + ser_opt_kbd(keyboard) + ",\"m\":"@ + ser_opt_mouse(mouse) + "}"@;
            assert(s =~= "{\"$\":\"s\",\"l\":{"@ + body);
            assert(starts_with(s, "{\"$\":\"s\",\"l\":{"@)) by {
                assert(s.take(14) =~= "{\"$\":\"s\",\"l\":{"@);
            }
            assert(s.skip(14) =~= body);
            lemma_state_body_round_trip(leds, buttons, keyboard, mouse);
        },
        _ => {
            assert(false);
        },
    }
}

/// Round trip of the LED delta message.
#[verifier::rlimit(100)]
proof fn lemma_output_round_trip_led(v: SocketOutputV)
    requires
        v is Led,
    ensures
        parse_output(ser_output(v)) == Some(v),
{
    reveal_strlit("{\"$\":\"s\",\"l\":{");
    reveal_strlit("{\"$\":\"l\",\"l\":\"");
    reveal_strlit("\",\"s\":true}");
    reveal_strlit("\",\"s\":false}");
    reveal_strlit("\",\"s\":");
    reveal_strlit("true");
    reveal_strlit("false");
    reveal_strlit("}");
    let s = ser_output(v);
    match v {
        SocketOutputV::Led { led, state } => {
            let name = led.name_spec();
            let tail = quoted_bool_tail(state);
            assert(s =~= "{\"$\":\"l\",\"l\":\""@ + (name + tail));
            assert(s[6] == 'l');
            lemma_refute_by_tag(s, 'l');
            assert(starts_with(s, "{\"$\":\"l\",\"l\":\""@)) by {
                assert(s.take(14) =~= "{\"$\":\"l\",\"l\":\""@);
            }
            let rest = s.skip(14);
            assert(rest =~= name + tail);
            crate::ids::lemma_led_name_round_trip(led);
            lemma_name_plain(name, '"');
            assert(tail[0] == '"');
            assert(rest =~= name + seq!['"'] + tail.skip(1));
            crate::net::lemma_find_char_concat(name, tail.skip(1), '"');
            assert(find_char(rest, '"') == Some(name.len() as int));
            assert(rest.take(name.len() as int) =~= name);
            assert(rest.skip(name.len() as int) =~= tail);
            if state {
            } else {
                assert(quoted_bool_tail(false).len() != quoted_bool_tail(true).len());
            }
        },
        _ => {
            assert(false);
        },
    }
}

/// Round trip of the keyboard LED delta message.
#[verifier::rlimit(100)]
proof fn lemma_output_round_trip_kbd_led(v: SocketOutputV)
    requires
        v is KeyboardLed,
        v matches SocketOutputV::KeyboardLed { led, .. } ==> 1 <= led <= 5,
    ensures
        parse_output(ser_output(v)) == Some(v),
{
    reveal_strlit("{\"$\":\"s\",\"l\":{");
    reveal_strlit("{\"$\":\"l\",\"l\":\"");
    reveal_strlit("{\"$\":\"b\",\"b\":\"");
    reveal_strlit("{\"$\":\"k\",\"k\":");
    reveal_strlit("{\"$\":\"i\",\"l\":");
    reveal_strlit(",\"s\":true}");
    reveal_strlit(",\"s\":false}");
    reveal_strlit(",\"s\":");
    reveal_strlit("true");
    reveal_strlit("false");
    reveal_strlit("}");
    let s = ser_output(v);
    match v {
        SocketOutputV::KeyboardLed { led, state } => {
            let num = dec_digits(led as nat);
            let tail = comma_bool_tail(state);
            assert(s =~= "{\"$\":\"i\",\"l\":"@ + (num + tail));
            assert(s[6] == 'i');
            lemma_refute_by_tag(s, 'i');
            assert(starts_with(s, "{\"$\":\"i\",\"l\":"@)) by {
                assert(s.take(13) =~= "{\"$\":\"i\",\"l\":"@);
            }
            let rest = s.skip(13);
            assert(rest =~= num + tail);
            crate::text::lemma_dec_digits_all_digits(led as nat);
            crate::net::lemma_digits_not_char(num, ',');
            assert(tail[0] == ',');
            assert(rest =~= num + seq![','] + tail.skip(1));
            crate::net::lemma_find_char_concat(num, tail.skip(1), ',');
            assert(find_char(rest, ',') == Some(num.len() as int));
            assert(rest.take(num.len() as int) =~= num);
            assert(rest.skip(num.len() as int) =~= tail);
            lemma_canon_nat_round_trip(led as nat, 5);
            if state {
            } else {
                assert(comma_bool_tail(false).len() != comma_bool_tail(true).len());
            }
        },
        _ => {
            assert(false);
        },
    }
}

/// Round trip of the video frame message.
#[verifier::rlimit(100)]
proof fn lemma_output_round_trip_frame(v: SocketOutputV)
    requires
        v is VideoFrame,
    ensures
        parse_output(ser_output(v)) == Some(v),
{
    reveal_strlit("{\"$\":\"v\",\"f\":[");
    reveal_strlit("]}");
    let s = ser_output(v);
    match v {
        SocketOutputV::VideoFrame { frame } => {
            let list = ser_u8_list(frame);
            assert(s =~= "{\"$\":\"v\",\"f\":["@ + (list + "]}"@));
            assert(s[6] == 'v');
            lemma_refute_by_tag(s, 'v');
            assert(starts_with(s, "{\"$\":\"v\",\"f\":["@)) by {
                assert(s.take(14) =~= "{\"$\":\"v\",\"f\":["@);
            }
            let rest = s.skip(14);
            assert(rest =~= list + "]}"@);
            assert(rest[rest.len() - 2] == ']');
            assert(rest.last() == '}');
            assert(rest.take(rest.len() - 2) =~= list);
            assert(forall|j: int| 0 <= j < frame.len() ==> 0 <= #[trigger] frame[j] <= 255);
            lemma_u8_list_round_trip(frame, 0, 255);
        },
        _ => {
            assert(false);
        },
    }
}

/// Encoding any outgoing message and decoding the text yields the
/// message back, provided the HID codes it carries are valid usage
/// codes (an invalid code does not survive the trip, as the decoder
/// rejects it the way the device layer would).
pub proof fn lemma_output_round_trip(v: SocketOutputV)
    requires
        v matches SocketOutputV::KeyboardKey { key, .. } ==> key <= 0xe7,
        v matches SocketOutputV::KeyboardLed { led, .. } ==> 1 <= led <= 5,
        v matches SocketOutputV::MouseButton { button, .. } ==> button <= 3,
        v matches SocketOutputV::State { keyboard: Some(kv), .. } ==> (forall|j: int|
            0 <= j < kv.keys.len() ==> #[trigger] kv.keys[j] <= 0xe7) && (forall|j: int|
            0 <= j < kv.leds.len() ==> 1 <= #[trigger] kv.leds[j] <= 5),
        v matches SocketOutputV::State { mouse: Some(mv), .. } ==> forall|j: int|
            0 <= j < mv.buttons.len() ==> #[trigger] mv.buttons[j] <= 3,
    ensures
        parse_output(ser_output(v)) == Some(v),
{
    match v {
        SocketOutputV::State { .. } => lemma_output_round_trip_state(v),
        SocketOutputV::Led { .. } => lemma_output_round_trip_led(v),
        SocketOutputV::Button { .. } => lemma_output_round_trip_button(v),
        SocketOutputV::KeyboardKey { .. } => lemma_output_round_trip_key(v),
        SocketOutputV::KeyboardLed { .. } => lemma_output_round_trip_kbd_led(v),
        SocketOutputV::MouseButton { .. } => lemma_output_round_trip_mouse_button(v),
        SocketOutputV::MousePointer { .. } => lemma_output_round_trip_pointer(v),
        SocketOutputV::MouseWheel { .. } => lemma_output_round_trip_wheel(v),
        SocketOutputV::VideoFrame { .. } => lemma_output_round_trip_frame(v),
    }
}

/// Round trip of the button delta message.
#[verifier::rlimit(100)]
proof fn lemma_output_round_trip_button(v: SocketOutputV)
    requires
        v is Button,
    ensures
        parse_output(ser_output(v)) == Some(v),
{
    reveal_strlit("{\"$\":\"s\",\"l\":{");
    reveal_strlit("{\"$\":\"l\",\"l\":\"");
    reveal_strlit("{\"$\":\"b\",\"b\":\"");
    reveal_strlit("\",\"s\":true}");
    reveal_strlit("\",\"s\":false}");
    reveal_strlit("\",\"s\":");
    reveal_strlit("true");
    reveal_strlit("false");
    reveal_strlit("}");
    let s = ser_output(v);
    match v {
        SocketOutputV::Button { button, state } => {
            let name = button.name_spec();
            let tail = quoted_bool_tail(state);
            assert(s =~= "{\"$\":\"b\",\"b\":\""@ + (name + tail));
            assert(s[6] == 'b');
            lemma_refute_by_tag(s, 'b');
            assert(starts_with(s, "{\"$\":\"b\",\"b\":\""@)) by {
                assert(s.take(14) =~= "{\"$\":\"b\",\"b\":\""@);
            }
            let rest = s.skip(14);
            assert(rest =~= name + tail);
            crate::ids::lemma_button_name_round_trip(button);
            lemma_name_plain(name, '"');
            assert(tail[0] == '"');
            assert(rest =~= name + seq!['"'] + tail.skip(1));
            crate::net::lemma_find_char_concat(name, tail.skip(1), '"');
            assert(find_char(rest, '"') == Some(name.len() as int));
            assert(rest.take(name.len() as int) =~= name);
            assert(rest.skip(name.len() as int) =~= tail);
            if state {
            } else {
                assert(quoted_bool_tail(false).len() != quoted_bool_tail(true).len());
            }
        },
        _ => {
            assert(false);
        },
    }
}

/// Round trip of the keyboard key delta message.
#[verifier::rlimit(100)]
proof fn lemma_output_round_trip_key(v: SocketOutputV)
    requires
        v is KeyboardKey,
        v matches SocketOutputV::KeyboardKey { key, .. } ==> key <= 0xe7,
    ensures
        parse_output(ser_output(v)) == Some(v),
{
    reveal_strlit("{\"$\":\"s\",\"l\":{");
    reveal_strlit("{\"$\":\"l\",\"l\":\"");
    reveal_strlit("{\"$\":\"b\",\"b\":\"");
    reveal_strlit("{\"$\":\"k\",\"k\":");
    reveal_strlit(",\"s\":true}");
    reveal_strlit(",\"s\":false}");
    reveal_strlit(",\"s\":");
    reveal_strlit("true");
    reveal_strlit("false");
    reveal_strlit("}");
    let s = ser_output(v);
    match v {
        SocketOutputV::KeyboardKey { key, state } => {
            let num = dec_digits(key as nat);
            let tail = comma_bool_tail(state);
            assert(s =~= "{\"$\":\"k\",\"k\":"@ + (num + tail));
            assert(s[6] == 'k');
            lemma_refute_by_tag(s, 'k');
            assert(starts_with(s, "{\"$\":\"k\",\"k\":"@)) by {
                assert(s.take(13) =~= "{\"$\":\"k\",\"k\":"@);
            }
            let rest = s.skip(13);
            assert(rest =~= num + tail);
            crate::text::lemma_dec_digits_all_digits(key as nat);
            crate::net::lemma_digits_not_char(num, ',');
            assert(tail[0] == ',');
            assert(rest =~= num + seq![','] + tail.skip(1));
            crate::net::lemma_find_char_concat(num, tail.skip(1), ',');
            assert(find_char(rest, ',') == Some(num.len() as int));
            assert(rest.take(num.len() as int) =~= num);
            assert(rest.skip(num.len() as int) =~= tail);
            lemma_canon_nat_round_trip(key as nat, 0xe7);
            if state {
            } else {
                assert(comma_bool_tail(false).len() != comma_bool_tail(true).len());
            }
        },
        _ => {
            assert(false);
        },
    }
}

/// Round trip of the mouse button delta message.
#[verifier::rlimit(100)]
proof fn lemma_output_round_trip_mouse_button(v: SocketOutputV)
    requires
        v is MouseButton,
        v matches SocketOutputV::MouseButton { button, .. } ==> button <= 3,
    ensures
        parse_output(ser_output(v)) == Some(v),
{
    reveal_strlit("{\"$\":\"s\",\"l\":{");
    reveal_strlit("{\"$\":\"l\",\"l\":\"");
    reveal_strlit("{\"$\":\"b\",\"b\":\"");
    reveal_strlit("{\"$\":\"k\",\"k\":");
    reveal_strlit("{\"$\":\"i\",\"l\":");
    reveal_strlit("{\"$\":\"m\",\"b\":");
    reveal_strlit(",\"s\":true}");
    reveal_strlit(",\"s\":false}");
    reveal_strlit(",\"s\":");
    reveal_strlit("true");
    reveal_strlit("false");
    reveal_strlit("}");
    let s = ser_output(v);
    match v {
        SocketOutputV::MouseButton { button, state } => {
            let num = dec_digits(button as nat);
            let tail = comma_bool_tail(state);
            assert(s =~= "{\"$\":\"m\",\"b\":"@ + (num + tail));
            assert(s[6] == 'm');
            lemma_refute_by_tag(s, 'm');
            assert(starts_with(s, "{\"$\":\"m\",\"b\":"@)) by {
                assert(s.take(13) =~= "{\"$\":\"m\",\"b\":"@);
            }
            let rest = s.skip(13);
            assert(rest =~= num + tail);
            crate::text::lemma_dec_digits_all_digits(button as nat);
            crate::net::lemma_digits_not_char(num, ',');
            assert(tail[0] == ',');
            assert(rest =~= num + seq![','] + tail.skip(1));
            crate::net::lemma_find_char_concat(num, tail.skip(1), ',');
            assert(find_char(rest, ',') == Some(num.len() as int));
            assert(rest.take(num.len() as int) =~= num);
            assert(rest.skip(num.len() as int) =~= tail);
            lemma_canon_nat_round_trip(button as nat, 3);
            if state {
            } else {
                assert(comma_bool_tail(false).len() != comma_bool_tail(true).len());
            }
        },
        _ => {
            assert(false);
        },
    }
}

/// Round trip of the mouse pointer delta message.
#[verifier::rlimit(100)]
proof fn lemma_output_round_trip_pointer(v: SocketOutputV)
    requires
        v is MousePointer,
    ensures
        parse_output(ser_output(v)) == Some(v),
{
    reveal_strlit("{\"$\":\"p\",\"x\":");
    reveal_strlit(",\"y\":");
    reveal_strlit("}");
    let s = ser_output(v);
    match v {
        SocketOutputV::MousePointer { x, y } => {
            let xs = ser_int(x as int);
            let ys = ser_int(y as int);
            assert(s =~= "{\"$\":\"p\",\"x\":"@ + (xs + (",\"y\":"@ + ys + "}"@)));
            assert(s[6] == 'p');
            lemma_refute_by_tag(s, 'p');
            assert(starts_with(s, "{\"$\":\"p\",\"x\":"@)) by {
                assert(s.take(13) =~= "{\"$\":\"p\",\"x\":"@);
            }
            let rest = s.skip(13);
            let mid = ",\"y\":"@ + ys + "}"@;
            assert(rest =~= xs + mid);
            lemma_ser_int_not_char(x as int, ',');
            assert(mid[0] == ',');
            assert(rest =~= xs + seq![','] + mid.skip(1));
            crate::net::lemma_find_char_concat(xs, mid.skip(1), ',');
            assert(find_char(rest, ',') == Some(xs.len() as int));
            assert(rest.take(xs.len() as int) =~= xs);
            let tail = rest.skip(xs.len() as int);
            assert(tail =~= mid);
            lemma_canon_int_round_trip(x as int, -32768, 32767);
            assert(starts_with(tail, ",\"y\":"@)) by {
                assert(tail.take(5) =~= ",\"y\":"@);
            }
            assert(ys.len() >= 1) by {
                crate::text::lemma_dec_digits_all_digits(if y < 0 {
                    (-y) as nat
                } else {
                    y as nat
                });
            }
            assert(tail.last() == '}');
            assert(tail.subrange(5, tail.len() - 1) =~= ys);
            lemma_canon_int_round_trip(y as int, -32768, 32767);
        },
        _ => {
            assert(false);
        },
    }
}

/// Round trip of the mouse wheel delta message.
#[verifier::rlimit(100)]
proof fn lemma_output_round_trip_wheel(v: SocketOutputV)
    requires
        v is MouseWheel,
    ensures
        parse_output(ser_output(v)) == Some(v),
{
    reveal_strlit("{\"$\":\"w\",\"w\":");
    reveal_strlit("}");
    let s = ser_output(v);
    match v {
        SocketOutputV::MouseWheel { wheel } => {
            let ws = ser_int(wheel as int);
            assert(s =~= "{\"$\":\"w\",\"w\":"@ + (ws + "}"@));
            assert(s[6] == 'w');
            lemma_refute_by_tag(s, 'w');
            assert(starts_with(s, "{\"$\":\"w\",\"w\":"@)) by {
                assert(s.take(13) =~= "{\"$\":\"w\",\"w\":"@);
            }
            let rest = s.skip(13);
            assert(rest =~= ws + "}"@);
            assert(ws.len() >= 1) by {
                crate::text::lemma_dec_digits_all_digits(if wheel < 0 {
                    (-wheel) as nat
                } else {
                    wheel as nat
                });
            }
            assert(rest.last() == '}');
            assert(rest.take(rest.len() - 1) =~= ws);
            lemma_canon_int_round_trip(wheel as int, -128, 127);
        },
        _ => {
            assert(false);
        },
    }
}

/// Round trip of one incoming-message shape.
#[verifier::rlimit(100)]
proof fn lemma_input_round_trip_button(v: SocketInputV)
    requires
        v is Button,
    ensures
        parse_input(ser_input(v)) == Some(v),
{
    reveal_strlit("{\"$\":\"b\",\"b\":\"");
    reveal_strlit("{\"$\":\"k\",\"k\":");
    reveal_strlit("{\"$\":\"m\",\"b\":");
    reveal_strlit("{\"$\":\"p\",\"x\":");
    reveal_strlit("{\"$\":\"w\",\"w\":");
    reveal_strlit("\",\"s\":true}");
    reveal_strlit("\",\"s\":false}");
    reveal_strlit(",\"s\":true}");
    reveal_strlit(",\"s\":false}");
    reveal_strlit(",\"y\":");
    reveal_strlit("true");
    reveal_strlit("false");
    reveal_strlit("}");
    reveal_strlit("\",\"s\":");
    reveal_strlit(",\"s\":");
    let s = ser_input(v);
    match v {
        SocketInputV::Button { button, state } => {
            let name = button.name_spec();
            let tail = quoted_bool_tail(state);
            assert(s =~= "{\"$\":\"b\",\"b\":\""@ + (name + tail));
            assert(starts_with(s, "{\"$\":\"b\",\"b\":\""@)) by {
                assert(s.take(14) =~= "{\"$\":\"b\",\"b\":\""@);
            }
            let rest = s.skip(14);
            assert(rest =~= name + tail);
            crate::ids::lemma_button_name_round_trip(button);
            lemma_name_plain(name, '"');
            assert(tail[0] == '"');
            assert(rest =~= name + seq!['"'] + tail.skip(1));
            crate::net::lemma_find_char_concat(name, tail.skip(1), '"');
            assert(find_char(rest, '"') == Some(name.len() as int));
            assert(rest.take(name.len() as int) =~= name);
            assert(rest.skip(name.len() as int) =~= tail);
            if state {
            } else {
                assert(quoted_bool_tail(false).len() != quoted_bool_tail(true).len());
            }
        
        },
        _ => { assert(false); },
    }
}

/// Round trip of one incoming-message shape.
#[verifier::rlimit(100)]
proof fn lemma_input_round_trip_key(v: SocketInputV)
    requires
        v is KeyboardKey,
        v matches SocketInputV::KeyboardKey { key, .. } ==> key <= 0xe7,
    ensures
        parse_input(ser_input(v)) == Some(v),
{
    reveal_strlit("{\"$\":\"b\",\"b\":\"");
    reveal_strlit("{\"$\":\"k\",\"k\":");
    reveal_strlit("{\"$\":\"m\",\"b\":");
    reveal_strlit("{\"$\":\"p\",\"x\":");
    reveal_strlit("{\"$\":\"w\",\"w\":");
    reveal_strlit("\",\"s\":true}");
    reveal_strlit("\",\"s\":false}");
    reveal_strlit(",\"s\":true}");
    reveal_strlit(",\"s\":false}");
    reveal_strlit(",\"y\":");
    reveal_strlit("true");
    reveal_strlit("false");
    reveal_strlit("}");
    reveal_strlit("\",\"s\":");
    reveal_strlit(",\"s\":");
    let s = ser_input(v);
    match v {
        SocketInputV::KeyboardKey { key, state } => {
            let num = dec_digits(key as nat);
            let tail = comma_bool_tail(state);
            assert(!starts_with(s, "{\"$\":\"b\",\"b\":\""@)) by {
                assert(s[6] == 'k');
                if s.len() >= 14 && s.take(14) == "{\"$\":\"b\",\"b\":\""@ {
                    assert(s.take(14)[6] == 'b');
                }
            }
            assert(s =~= "{\"$\":\"k\",\"k\":"@ + (num + tail));
            assert(starts_with(s, "{\"$\":\"k\",\"k\":"@)) by {
                assert(s.take(13) =~= "{\"$\":\"k\",\"k\":"@);
            }
            let rest = s.skip(13);
            assert(rest =~= num + tail);
            crate::text::lemma_dec_digits_all_digits(key as nat);
            crate::net::lemma_digits_not_char(num, ',');
            assert(tail[0] == ',');
            assert(rest =~= num + seq![','] + tail.skip(1));
            crate::net::lemma_find_char_concat(num, tail.skip(1), ',');
            assert(find_char(rest, ',') == Some(num.len() as int));
            assert(rest.take(num.len() as int) =~= num);
            assert(rest.skip(num.len() as int) =~= tail);
            lemma_canon_nat_round_trip(key as nat, 0xe7);
            if state {
            } else {
                assert(comma_bool_tail(false).len() != comma_bool_tail(true).len());
            }
        
        },
        _ => { assert(false); },
    }
}

/// Round trip of one incoming-message shape.
#[verifier::rlimit(100)]
proof fn lemma_input_round_trip_mouse_button(v: SocketInputV)
    requires
        v is MouseButton,
        v matches SocketInputV::MouseButton { button, .. } ==> button <= 3,
    ensures
        parse_input(ser_input(v)) == Some(v),
{
    reveal_strlit("{\"$\":\"b\",\"b\":\"");
    reveal_strlit("{\"$\":\"k\",\"k\":");
    reveal_strlit("{\"$\":\"m\",\"b\":");
    reveal_strlit("{\"$\":\"p\",\"x\":");
    reveal_strlit("{\"$\":\"w\",\"w\":");
    reveal_strlit("\",\"s\":true}");
    reveal_strlit("\",\"s\":false}");
    reveal_strlit(",\"s\":true}");
    reveal_strlit(",\"s\":false}");
    reveal_strlit(",\"y\":");
    reveal_strlit("true");
    reveal_strlit("false");
    reveal_strlit("}");
    reveal_strlit("\",\"s\":");
    reveal_strlit(",\"s\":");
    let s = ser_input(v);
    match v {
        SocketInputV::MouseButton { button, state } => {
            let num = dec_digits(button as nat);
            let tail = comma_bool_tail(state);
            assert(!starts_with(s, "{\"$\":\"b\",\"b\":\""@)) by {
                assert(s[6] == 'm');
                if s.len() >= 14 && s.take(14) == "{\"$\":\"b\",\"b\":\""@ {
                    assert(s.take(14)[6] == 'b');
                }
            }
            assert(!starts_with(s, "{\"$\":\"k\",\"k\":"@)) by {
                assert(s[6] == 'm');
                if s.len() >= 13 && s.take(13) == "{\"$\":\"k\",\"k\":"@ {
                    assert(s.take(13)[6] == 'k');
                }
            }
            assert(s =~= "{\"$\":\"m\",\"b\":"@ + (num + tail));
            assert(starts_with(s, "{\"$\":\"m\",\"b\":"@)) by {
                assert(s.take(13) =~= "{\"$\":\"m\",\"b\":"@);
            }
            let rest = s.skip(13);
            assert(rest =~= num + tail);
            crate::text::lemma_dec_digits_all_digits(button as nat);
            crate::net::lemma_digits_not_char(num, ',');
            assert(tail[0] == ',');
            assert(rest =~= num + seq![','] + tail.skip(1));
            crate::net::lemma_find_char_concat(num, tail.skip(1), ',');
            assert(find_char(rest, ',') == Some(num.len() as int));
            assert(rest.take(num.len() as int) =~= num);
            assert(rest.skip(num.len() as int) =~= tail);
            lemma_canon_nat_round_trip(button as nat, 3);
            if state {
            } else {
                assert(comma_bool_tail(false).len() != comma_bool_tail(true).len());
            }
        
        },
        _ => { assert(false); },
    }
}

/// Round trip of one incoming-message shape.
#[verifier::rlimit(100)]
proof fn lemma_input_round_trip_pointer(v: SocketInputV)
    requires
        v is MousePointer,
    ensures
        parse_input(ser_input(v)) == Some(v),
{
    reveal_strlit("{\"$\":\"b\",\"b\":\"");
    reveal_strlit("{\"$\":\"k\",\"k\":");
    reveal_strlit("{\"$\":\"m\",\"b\":");
    reveal_strlit("{\"$\":\"p\",\"x\":");
    reveal_strlit("{\"$\":\"w\",\"w\":");
    reveal_strlit("\",\"s\":true}");
    reveal_strlit("\",\"s\":false}");
    reveal_strlit(",\"s\":true}");
    reveal_strlit(",\"s\":false}");
    reveal_strlit(",\"y\":");
    reveal_strlit("true");
    reveal_strlit("false");
    reveal_strlit("}");
    reveal_strlit("\",\"s\":");
    reveal_strlit(",\"s\":");
    let s = ser_input(v);
    match v {
        SocketInputV::MousePointer { x, y } => {
            let xs = ser_int(x as int);
            let ys = ser_int(y as int);
            assert(!starts_with(s, "{\"$\":\"b\",\"b\":\""@)) by {
                assert(s[6] == 'p');
                if s.len() >= 14 && s.take(14) == "{\"$\":\"b\",\"b\":\""@ {
                    assert(s.take(14)[6] == 'b');
                }
            }
            assert(!starts_with(s, "{\"$\":\"k\",\"k\":"@)) by {
                assert(s[6] == 'p');
                if s.len() >= 13 && s.take(13) == "{\"$\":\"k\",\"k\":"@ {
                    assert(s.take(13)[6] == 'k');
                }
            }
            assert(!starts_with(s, "{\"$\":\"m\",\"b\":"@)) by {
                assert(s[6] == 'p');
                if s.len() >= 13 && s.take(13) == "{\"$\":\"m\",\"b\":"@ {
                    assert(s.take(13)[6] == 'm');
                }
            }
            assert(s =~= "{\"$\":\"p\",\"x\":"@ + (xs + (",\"y\":"@ + ys + "}"@)));
            assert(starts_with(s, "{\"$\":\"p\",\"x\":"@)) by {
                assert(s.take(13) =~= "{\"$\":\"p\",\"x\":"@);
            }
            let rest = s.skip(13);
            let mid = ",\"y\":"@ + ys + "}"@;
            assert(rest =~= xs + mid);
            lemma_ser_int_not_char(x as int, ',');
            assert(mid[0] == ',');
            assert(rest =~= xs + seq![','] + mid.skip(1));
            crate::net::lemma_find_char_concat(xs, mid.skip(1), ',');
            assert(find_char(rest, ',') == Some(xs.len() as int));
            assert(rest.take(xs.len() as int) =~= xs);
            let tail = rest.skip(xs.len() as int);
            assert(tail =~= mid);
            lemma_canon_int_round_trip(x as int, -32768, 32767);
            assert(starts_with(tail, ",\"y\":"@)) by {
                assert(tail.take(5) =~= ",\"y\":"@);
            }
            assert(ys.len() >= 1) by {
                crate::text::lemma_dec_digits_all_digits(if y < 0 {
                    (-y) as nat
                } else {
                    y as nat
                });
            }
            assert(tail.last() == '}');
            assert(tail.subrange(5, tail.len() - 1) =~= ys);
            lemma_canon_int_round_trip(y as int, -32768, 32767);
        
        },
        _ => { assert(false); },
    }
}

/// Round trip of one incoming-message shape.
#[verifier::rlimit(100)]
proof fn lemma_input_round_trip_wheel(v: SocketInputV)
    requires
        v is MouseWheel,
    ensures
        parse_input(ser_input(v)) == Some(v),
{
    reveal_strlit("{\"$\":\"b\",\"b\":\"");
    reveal_strlit("{\"$\":\"k\",\"k\":");
    reveal_strlit("{\"$\":\"m\",\"b\":");
    reveal_strlit("{\"$\":\"p\",\"x\":");
    reveal_strlit("{\"$\":\"w\",\"w\":");
    reveal_strlit("\",\"s\":true}");
    reveal_strlit("\",\"s\":false}");
    reveal_strlit(",\"s\":true}");
    reveal_strlit(",\"s\":false}");
    reveal_strlit(",\"y\":");
    reveal_strlit("true");
    reveal_strlit("false");
    reveal_strlit("}");
    reveal_strlit("\",\"s\":");
    reveal_strlit(",\"s\":");
    let s = ser_input(v);
    match v {
        SocketInputV::MouseWheel { wheel } => {
            let ws = ser_int(wheel as int);
            assert(!starts_with(s, "{\"$\":\"b\",\"b\":\""@)) by {
                assert(s[6] == 'w');
                if s.len() >= 14 && s.take(14) == "{\"$\":\"b\",\"b\":\""@ {
                    assert(s.take(14)[6] == 'b');
                }
            }
            assert(!starts_with(s, "{\"$\":\"k\",\"k\":"@)) by {
                assert(s[6] == 'w');
                if s.len() >= 13 && s.take(13) == "{\"$\":\"k\",\"k\":"@ {
                    assert(s.take(13)[6] == 'k');
                }
            }
            assert(!starts_with(s, "{\"$\":\"m\",\"b\":"@)) by {
                assert(s[6] == 'w');
                if s.len() >= 13 && s.take(13) == "{\"$\":\"m\",\"b\":"@ {
                    assert(s.take(13)[6] == 'm');
                }
            }
            assert(!starts_with(s, "{\"$\":\"p\",\"x\":"@)) by {
                assert(s[6] == 'w');
                if s.len() >= 13 && s.take(13) == "{\"$\":\"p\",\"x\":"@ {
                    assert(s.take(13)[6] == 'p');
                }
            }
            assert(s =~= "{\"$\":\"w\",\"w\":"@ + (ws + "}"@));
            assert(starts_with(s, "{\"$\":\"w\",\"w\":"@)) by {
                assert(s.take(13) =~= "{\"$\":\"w\",\"w\":"@);
            }
            let rest = s.skip(13);
            assert(rest =~= ws + "}"@);
            assert(ws.len() >= 1) by {
                crate::text::lemma_dec_digits_all_digits(if wheel < 0 {
                    (-wheel) as nat
                } else {
                    wheel as nat
                });
            }
            assert(rest.last() == '}');
            assert(rest.take(rest.len() - 1) =~= ws);
            lemma_canon_int_round_trip(wheel as int, -128, 127);
        
        },
        _ => { assert(false); },
    }
}

/// Encoding any incoming message and decoding the text yields the
/// message back, provided its key and button codes are valid usage
/// codes (an invalid code does not survive the trip, as the decoder
/// rejects it the way the device layer would).
pub proof fn lemma_input_round_trip(v: SocketInputV)
    requires
        v matches SocketInputV::KeyboardKey { key, .. } ==> key <= 0xe7,
        v matches SocketInputV::MouseButton { button, .. } ==> button <= 3,
    ensures
        parse_input(ser_input(v)) == Some(v),
{
    match v {
        SocketInputV::Button { .. } => lemma_input_round_trip_button(v),
        SocketInputV::KeyboardKey { .. } => lemma_input_round_trip_key(v),
        SocketInputV::MouseButton { .. } => lemma_input_round_trip_mouse_button(v),
        SocketInputV::MousePointer { .. } => lemma_input_round_trip_pointer(v),
        SocketInputV::MouseWheel { .. } => lemma_input_round_trip_wheel(v),
    }
}

} // verus!
