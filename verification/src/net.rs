//! Network addresses as plain values.
//!
//! The service describes TCP endpoints textually inside bind URIs.
//! The resource part is split at the first `:`; the left side must be
//! a dotted-quad IPv4 address and the right side a port number.  (An
//! IPv6 literal always contains a colon, so it can never survive that
//! split; the `V6` form exists only to carry addresses handed over
//! from configuration.)

use vstd::prelude::*;

use crate::text::{
    all_digits, char_of_digit, dec_digits, dec_u64, digit_str, find_char, find_char_in,
    is_digit_char, lemma_dec_digits_no_leading_zero, lemma_dec_round_trip, lemma_find_char,
    parse_dec_bounded, parse_dec_u64,
};

verus! {

/// An IP address as plain values.
#[derive(Clone, Copy, Debug, PartialEq, Eq, Structural, Hash)]
pub enum IpAddr {
    /// IPv4 dotted quad.
    V4(u8, u8, u8, u8),
    /// IPv6 groups, most significant first.
    V6(u16, u16, u16, u16, u16, u16, u16, u16),
}

/// A socket address: an IP address and a port.
#[derive(Clone, Copy, Debug, PartialEq, Eq, Structural, Hash)]
pub struct SocketAddr {
    /// Host address.
    pub ip: IpAddr,
    /// TCP port.
    pub port: u16,
}

/// Which part of a socket address failed to parse.
#[derive(Clone, Copy, Debug, PartialEq, Eq, Structural)]
pub enum AddrError {
    /// The host part is not a valid IP address.
    Ip,
    /// The port part is not a valid port number.
    Port,
}

/// One decimal octet: digits without a leading zero, value at most 255.
pub open spec fn parse_octet(s: Seq<char>) -> Option<u8> {
    match parse_dec_bounded(s, 255) {
        Some(v) => if s.len() > 1 && s[0] == '0' {
            None
        } else {
            Some(v as u8)
        },
        None => None,
    }
}

/// A dotted-quad IPv4 address.
pub open spec fn parse_ipv4(s: Seq<char>) -> Option<IpAddr> {
    match find_char(s, '.') {
        None => None,
        Some(i1) => {
            let r1 = s.skip(i1 + 1);
            match find_char(r1, '.') {
                None => None,
                Some(i2) => {
                    let r2 = r1.skip(i2 + 1);
                    match find_char(r2, '.') {
                        None => None,
                        Some(i3) => {
                            let r3 = r2.skip(i3 + 1);
                            if find_char(r3, '.') is None {
                                match (
                                    parse_octet(s.take(i1)),
                                    parse_octet(r1.take(i2)),
                                    parse_octet(r2.take(i3)),
                                    parse_octet(r3),
                                ) {
                                    (Some(a), Some(b), Some(c), Some(d)) => Some(
                                        IpAddr::V4(a, b, c, d),
                                    ),
                                    _ => None,
                                }
                            } else {
                                None
                            }
                        },
                    }
                },
            }
        },
    }
}

/// A port number, as the standard unsigned parser reads it: an
/// optional leading plus sign, then digits, value at most 65535.
pub open spec fn parse_port(s: Seq<char>) -> Option<u16> {
    let digits = if s.len() >= 1 && s[0] == '+' {
        s.skip(1)
    } else {
        s
    };
    match parse_dec_bounded(digits, 65535) {
        Some(v) => Some(v as u16),
        None => None,
    }
}

/// A socket address resource: split at the first colon when present,
/// the port parsed before the host (so a bad port is reported first),
/// the whole text is the host and the port defaults.
pub open spec fn parse_socket_addr(s: Seq<char>, default_port: u16) -> Result<
    SocketAddr,
    AddrError,
> {
    match find_char(s, ':') {
        Some(i) => match parse_port(s.skip(i + 1)) {
            Some(p) => match parse_ipv4(s.take(i)) {
                Some(ip) => Ok(SocketAddr { ip, port: p }),
                None => Err(AddrError::Ip),
            },
            None => Err(AddrError::Port),
        },
        None => match parse_ipv4(s) {
            Some(ip) => Ok(SocketAddr { ip, port: default_port }),
            None => Err(AddrError::Ip),
        },
    }
}

/// Parse one octet of a region.
fn parse_octet_str(s: &str, from: usize, to: usize) -> (r: Option<u8>)
    requires
        from <= to <= s@.len(),
    ensures
        r == parse_octet(s@.subrange(from as int, to as int)),
{
    let ghost sub = s@.subrange(from as int, to as int);
    match parse_dec_u64(s, from, to, 255) {
        Some(v) => {
            if to - from > 1 && s.get_char(from) == '0' {
                proof {
                    assert(sub[0] == s@[from as int]);
                }
                None
            } else {
                proof {
                    if sub.len() > 1 {
                        assert(sub[0] == s@[from as int]);
                    }
                }
                Some(v as u8)
            }
        },
        None => None,
    }
}

/// Parse a dotted-quad IPv4 region.
pub fn parse_ipv4_str(s: &str, from: usize, to: usize) -> (r: Option<IpAddr>)
    requires
        from <= to <= s@.len(),
    ensures
        r == parse_ipv4(s@.subrange(from as int, to as int)),
{
    let ghost sub = s@.subrange(from as int, to as int);
    let i1 = match find_char_in(s, from, to, '.') {
        Some(i) => i,
        None => {
            return None;
        },
    };
    proof {
        lemma_find_char(sub, '.');
        assert(sub.skip(i1 - from + 1) =~= s@.subrange(i1 + 1, to as int));
    }
    let ghost r1 = sub.skip(i1 - from + 1);
    let i2 = match find_char_in(s, i1 + 1, to, '.') {
        Some(i) => i,
        None => {
            return None;
        },
    };
    proof {
        lemma_find_char(r1, '.');
        assert(r1.skip(i2 - i1) =~= s@.subrange(i2 + 1, to as int));
    }
    let ghost r2 = r1.skip(i2 - (i1 + 1) + 1);
    let i3 = match find_char_in(s, i2 + 1, to, '.') {
        Some(i) => i,
        None => {
            return None;
        },
    };
    proof {
        lemma_find_char(r2, '.');
        assert(r2.skip(i3 - i2) =~= s@.subrange(i3 + 1, to as int));
    }
    let ghost r3 = r2.skip(i3 - (i2 + 1) + 1);
    if let Some(_) = find_char_in(s, i3 + 1, to, '.') {
        return None;
    }
    proof {
        assert(sub.take(i1 - from) =~= s@.subrange(from as int, i1 as int));
        assert(r1.take(i2 - (i1 + 1)) =~= s@.subrange(i1 + 1, i2 as int));
        assert(r2.take(i3 - (i2 + 1)) =~= s@.subrange(i2 + 1, i3 as int));
    }
    let a = parse_octet_str(s, from, i1);
    let b = parse_octet_str(s, i1 + 1, i2);
    let c = parse_octet_str(s, i2 + 1, i3);
    let d = parse_octet_str(s, i3 + 1, to);
    match (a, b, c, d) {
        (Some(a), Some(b), Some(c), Some(d)) => Some(IpAddr::V4(a, b, c, d)),
        _ => None,
    }
}

/// Parse a port region.
fn parse_port_str(s: &str, from: usize, to: usize) -> (r: Option<u16>)
    requires
        from <= to <= s@.len(),
    ensures
        r == parse_port(s@.subrange(from as int, to as int)),
{
    let ghost sub = s@.subrange(from as int, to as int);
    let start = if from < to && s.get_char(from) == '+' {
        proof {
            assert(sub[0] == s@[from as int]);
            assert(sub.skip(1) =~= s@.subrange(from + 1, to as int));
        }
        from + 1
    } else {
        proof {
            if sub.len() >= 1 {
                assert(sub[0] == s@[from as int]);
            }
        }
        from
    };
    match parse_dec_u64(s, start, to, 65535) {
        Some(v) => Some(v as u16),
        None => None,
    }
}

/// Parse a socket address region.
pub fn parse_socket_addr_str(s: &str, from: usize, to: usize, default_port: u16) -> (r: Result<
    SocketAddr,
    AddrError,
>)
    requires
        from <= to <= s@.len(),
    ensures
        r == parse_socket_addr(s@.subrange(from as int, to as int), default_port),
{
    let ghost sub = s@.subrange(from as int, to as int);
    match find_char_in(s, from, to, ':') {
        Some(i) => {
            proof {
                lemma_find_char(sub, ':');
                assert(sub.skip(i - from + 1) =~= s@.subrange(i + 1, to as int));
                assert(sub.take(i - from) =~= s@.subrange(from as int, i as int));
            }
            match parse_port_str(s, i + 1, to) {
                Some(p) => match parse_ipv4_str(s, from, i) {
                    Some(ip) => Ok(SocketAddr { ip, port: p }),
                    None => Err(AddrError::Ip),
                },
                None => Err(AddrError::Port),
            }
        },
        None => match parse_ipv4_str(s, from, to) {
            Some(ip) => Ok(SocketAddr { ip, port: default_port }),
            None => Err(AddrError::Ip),
        },
    }
}

/// The hexadecimal digit character for a value below sixteen.
pub open spec fn char_of_hex(d: nat) -> char {
    if d < 10 {
        char_of_digit(d)
    } else if d == 10 {
        'a'
    } else if d == 11 {
        'b'
    } else if d == 12 {
        'c'
    } else if d == 13 {
        'd'
    } else if d == 14 {
        'e'
    } else {
        'f'
    }
}

/// Minimal lowercase hexadecimal form of a number.
pub open spec fn hex_digits(n: nat) -> Seq<char>
    decreases n,
{
    if n < 16 {
        seq![char_of_hex(n)]
    } else {
        hex_digits(n / 16).push(char_of_hex(n % 16))
    }
}

/// Print a number in minimal lowercase hexadecimal.
fn hex_u16(n: u16) -> (r: String)
    ensures
        r@ == hex_digits(n as nat),
    decreases n,
{
    if n < 16 {
        let s = if n < 10 {
            digit_str(n as u64)
        } else {
            proof {
                reveal_strlit("a");
                reveal_strlit("b");
                reveal_strlit("c");
                reveal_strlit("d");
                reveal_strlit("e");
                reveal_strlit("f");
            }
            match n {
                10 => "a",
                11 => "b",
                12 => "c",
                13 => "d",
                14 => "e",
                _ => "f",
            }
        };
        let r = s.to_owned();
        proof {
            assert(r@ =~= seq![char_of_hex(n as nat)]);
        }
        r
    } else {
        let prefix = hex_u16(n / 16);
        let d = n % 16;
        let last = if d < 10 {
            digit_str(d as u64)
        } else {
            proof {
                reveal_strlit("a");
                reveal_strlit("b");
                reveal_strlit("c");
                reveal_strlit("d");
                reveal_strlit("e");
                reveal_strlit("f");
            }
            match d {
                10 => "a",
                11 => "b",
                12 => "c",
                13 => "d",
                14 => "e",
                _ => "f",
            }
        };
        proof {
            assert(last@ =~= seq![char_of_hex((n % 16) as nat)]);
        }
        let r = prefix.concat(last);
        proof {
            assert(r@ =~= hex_digits((n / 16) as nat).push(char_of_hex((n % 16) as nat)));
        }
        r
    }
}

impl IpAddr {
    /// Textual form: dotted quad for IPv4; bracketless uncompressed
    /// lowercase-hex groups for IPv6.
    pub open spec fn text_spec(&self) -> Seq<char> {
        match self {
            IpAddr::V4(a, b, c, d) => dec_digits(*a as nat) + seq!['.'] + dec_digits(*b as nat)
                + seq!['.'] + dec_digits(*c as nat) + seq!['.'] + dec_digits(*d as nat),
            IpAddr::V6(g0, g1, g2, g3, g4, g5, g6, g7) => hex_digits(*g0 as nat) + seq![':']
                + hex_digits(*g1 as nat) + seq![':'] + hex_digits(*g2 as nat) + seq![':']
                + hex_digits(*g3 as nat) + seq![':'] + hex_digits(*g4 as nat) + seq![':']
                + hex_digits(*g5 as nat) + seq![':'] + hex_digits(*g6 as nat) + seq![':']
                + hex_digits(*g7 as nat),
        }
    }

    /// Print this address in its textual form.
    pub fn text(&self) -> (r: String)
        ensures
            r@ == self.text_spec(),
    {
        proof {
            reveal_strlit(".");
            reveal_strlit(":");
        }
        match self {
            IpAddr::V4(a, b, c, d) => {
                let mut r = dec_u64(*a as u64);
                r.append(".");
                let bs = dec_u64(*b as u64);
                r.append(bs.as_str());
                r.append(".");
                let cs = dec_u64(*c as u64);
                r.append(cs.as_str());
                r.append(".");
                let ds = dec_u64(*d as u64);
                r.append(ds.as_str());
                proof {
                    assert(r@ =~= self.text_spec());
                }
                r
            },
            IpAddr::V6(g0, g1, g2, g3, g4, g5, g6, g7) => {
                let mut r = hex_u16(*g0);
                let s1 = hex_u16(*g1);
                let s2 = hex_u16(*g2);
                let s3 = hex_u16(*g3);
                let s4 = hex_u16(*g4);
                let s5 = hex_u16(*g5);
                let s6 = hex_u16(*g6);
                let s7 = hex_u16(*g7);
                r.append(":");
                r.append(s1.as_str());
                r.append(":");
                r.append(s2.as_str());
                r.append(":");
                r.append(s3.as_str());
                r.append(":");
                r.append(s4.as_str());
                r.append(":");
                r.append(s5.as_str());
                r.append(":");
                r.append(s6.as_str());
                r.append(":");
                r.append(s7.as_str());
                proof {
                    assert(r@ =~= self.text_spec());
                }
                r
            },
        }
    }
}

impl SocketAddr {
    /// Textual form: host, colon, port; an IPv6 host in brackets.
    pub open spec fn text_spec(&self) -> Seq<char> {
        match self.ip {
            IpAddr::V4(..) => self.ip.text_spec() + seq![':'] + dec_digits(self.port as nat),
            IpAddr::V6(..) => seq!['['] + self.ip.text_spec() + seq![']'] + seq![':'] + dec_digits(
                self.port as nat,
            ),
        }
    }

    /// Print this socket address in its textual form.
    pub fn text(&self) -> (r: String)
        ensures
            r@ == self.text_spec(),
    {
        proof {
            reveal_strlit(":");
            reveal_strlit("[");
            reveal_strlit("]:");
        }
        let host = self.ip.text();
        let port = dec_u64(self.port as u64);
        match self.ip {
            IpAddr::V4(..) => {
                let mut r = host;
                r.append(":");
                r.append(port.as_str());
                proof {
                    assert(r@ =~= self.text_spec());
                }
                r
            },
            IpAddr::V6(..) => {
                let mut r = "[".to_owned();
                r.append(host.as_str());
                r.append("]:");
                r.append(port.as_str());
                proof {
                    assert(r@ =~= self.text_spec());
                }
                r
            },
        }
    }
}

/// A character sequence that never holds the given character keeps
/// `find_char` pointing at an appended occurrence.
pub proof fn lemma_find_char_concat(x: Seq<char>, y: Seq<char>, c: char)
    requires
        forall|j: int| 0 <= j < x.len() ==> x[j] != c,
    ensures
        find_char(x + seq![c] + y, c) == Some(x.len() as int),
{
    let t = x + seq![c] + y;
    lemma_find_char(t, c);
    assert(t[x.len() as int] == c);
    match find_char(t, c) {
        Some(k) => {
            if k < x.len() {
                assert(t[k] == x[k]);
            }
            if k > x.len() {
                assert(t[x.len() as int] != c);
            }
        },
        None => {
            assert(t[x.len() as int] != c);
        },
    }
}

/// A character never occurring in a sequence leaves `find_char` empty.
pub proof fn lemma_find_char_absent(x: Seq<char>, c: char)
    requires
        forall|j: int| 0 <= j < x.len() ==> x[j] != c,
    ensures
        find_char(x, c) is None,
{
    lemma_find_char(x, c);
    match find_char(x, c) {
        Some(k) => {
            assert(x[k] == c);
        },
        None => {},
    }
}

/// Digit strings contain no punctuation.
pub proof fn lemma_digits_not_char(s: Seq<char>, c: char)
    requires
        all_digits(s),
        !is_digit_char(c),
    ensures
        forall|j: int| 0 <= j < s.len() ==> s[j] != c,
{
    assert forall|j: int| 0 <= j < s.len() implies s[j] != c by {
        assert(is_digit_char(s[j]));
    }
}

/// Printing an octet and parsing it back yields the octet.
pub proof fn lemma_octet_round_trip(v: u8)
    ensures
        parse_octet(dec_digits(v as nat)) == Some(v),
{
    lemma_dec_round_trip(v as nat, 255);
    lemma_dec_digits_no_leading_zero(v as nat);
}

/// Printing an IPv4 address and parsing it back yields the address.
pub proof fn lemma_ipv4_round_trip(a: u8, b: u8, c: u8, d: u8)
    ensures
        parse_ipv4(IpAddr::V4(a, b, c, d).text_spec()) == Some(IpAddr::V4(a, b, c, d)),
{
    let ta = dec_digits(a as nat);
    let tb = dec_digits(b as nat);
    let tc = dec_digits(c as nat);
    let td = dec_digits(d as nat);
    let s = IpAddr::V4(a, b, c, d).text_spec();
    crate::text::lemma_dec_digits_all_digits(a as nat);
    crate::text::lemma_dec_digits_all_digits(b as nat);
    crate::text::lemma_dec_digits_all_digits(c as nat);
    crate::text::lemma_dec_digits_all_digits(d as nat);
    lemma_digits_not_char(ta, '.');
    lemma_digits_not_char(tb, '.');
    lemma_digits_not_char(tc, '.');
    lemma_digits_not_char(td, '.');
    assert(s =~= ta + seq!['.'] + (tb + seq!['.'] + tc + seq!['.'] + td));
    lemma_find_char_concat(ta, tb + seq!['.'] + tc + seq!['.'] + td, '.');
    let i1 = ta.len() as int;
    assert(find_char(s, '.') == Some(i1));
    assert(s.take(i1) =~= ta);
    let r1 = s.skip(i1 + 1);
    assert(r1 =~= tb + seq!['.'] + (tc + seq!['.'] + td));
    lemma_find_char_concat(tb, tc + seq!['.'] + td, '.');
    let i2 = tb.len() as int;
    assert(find_char(r1, '.') == Some(i2));
    assert(r1.take(i2) =~= tb);
    let r2 = r1.skip(i2 + 1);
    assert(r2 =~= tc + seq!['.'] + td);
    lemma_find_char_concat(tc, td, '.');
    let i3 = tc.len() as int;
    assert(find_char(r2, '.') == Some(i3));
    assert(r2.take(i3) =~= tc);
    let r3 = r2.skip(i3 + 1);
    assert(r3 =~= td);
    lemma_find_char_absent(td, '.');
    lemma_octet_round_trip(a);
    lemma_octet_round_trip(b);
    lemma_octet_round_trip(c);
    lemma_octet_round_trip(d);
}

/// Printing an IPv4 socket address and parsing it back yields the
/// address, whatever the default port.
pub proof fn lemma_socket_addr_round_trip(sa: SocketAddr, default_port: u16)
    requires
        sa.ip is V4,
    ensures
        parse_socket_addr(sa.text_spec(), default_port) == Ok::<SocketAddr, AddrError>(sa),
{
    let host = sa.ip.text_spec();
    let port = dec_digits(sa.port as nat);
    let s = sa.text_spec();
    let a = sa.ip->V4_0;
    let b = sa.ip->V4_1;
    let c = sa.ip->V4_2;
    let d = sa.ip->V4_3;
    crate::text::lemma_dec_digits_all_digits(a as nat);
    crate::text::lemma_dec_digits_all_digits(b as nat);
    crate::text::lemma_dec_digits_all_digits(c as nat);
    crate::text::lemma_dec_digits_all_digits(d as nat);
    crate::text::lemma_dec_digits_all_digits(sa.port as nat);
    assert forall|j: int| 0 <= j < host.len() implies host[j] != ':' by {
        assert(host =~= dec_digits(a as nat) + seq!['.'] + dec_digits(b as nat) + seq!['.']
            + dec_digits(c as nat) + seq!['.'] + dec_digits(d as nat));
        let ta = dec_digits(a as nat);
        let tb = dec_digits(b as nat);
        let tc = dec_digits(c as nat);
        let td = dec_digits(d as nat);
        if j < ta.len() {
            assert(is_digit_char(ta[j]));
        } else if j == ta.len() {
        } else if j < ta.len() + 1 + tb.len() {
            assert(host[j] == tb[j - ta.len() - 1]);
            assert(is_digit_char(tb[j - ta.len() - 1]));
        } else if j == ta.len() + 1 + tb.len() {
        } else if j < ta.len() + 1 + tb.len() + 1 + tc.len() {
            assert(host[j] == tc[j - ta.len() - 1 - tb.len() - 1]);
            assert(is_digit_char(tc[j - ta.len() - 1 - tb.len() - 1]));
        } else if j == ta.len() + 1 + tb.len() + 1 + tc.len() {
        } else {
            assert(host[j] == td[j - ta.len() - 1 - tb.len() - 1 - tc.len() - 1]);
            assert(is_digit_char(td[j - ta.len() - 1 - tb.len() - 1 - tc.len() - 1]));
        }
    }
    assert(s =~= host + seq![':'] + port);
    lemma_find_char_concat(host, port, ':');
    let i = host.len() as int;
    assert(find_char(s, ':') == Some(i));
    assert(s.skip(i + 1) =~= port);
    assert(s.take(i) =~= host);
    lemma_dec_round_trip(sa.port as nat, 65535);
    assert(port[0] != '+') by {
        assert(is_digit_char(port[0]));
    }
    assert(parse_port(port) == Some(sa.port));
    lemma_ipv4_round_trip(a, b, c, d);
    assert(sa.ip.text_spec() == IpAddr::V4(a, b, c, d).text_spec());
}

} // verus!
