//! D-Bus surface logic.
//!
//! The service claims one well-known name and exports one object per
//! button and LED.  The strings here — object paths, transport
//! addresses, error names — and the introspection scan a client uses
//! to discover the peripheral set are the verifiable part of that
//! surface; the bus connection itself lives outside.

use vstd::prelude::*;

use crate::ids::{ButtonId, LedId};
use crate::net::{IpAddr, SocketAddr};
use crate::result::Error;
use crate::text::{dec_digits, dec_u64, find_char, find_char_in, lemma_find_char, region_eq, region_to_string};

verus! {

/// The well-known bus name of the service.
pub fn control_bus_name() -> (r: &'static str)
    ensures
        r@ == "org.ukvm.Control"@,
{
    "org.ukvm.Control"
}

/// The object path of a button: `/org/ukvm/button/<id>`.
pub fn button_path(id: ButtonId) -> (r: String)
    ensures
        r@ == "/org/ukvm/button/"@ + id.name_spec(),
{
    let mut r = "/org/ukvm/button/".to_owned();
    r.append(id.name());
    r
}

/// The object path of an LED: `/org/ukvm/led/<id>`.
pub fn led_path(id: LedId) -> (r: String)
    ensures
        r@ == "/org/ukvm/led/"@ + id.name_spec(),
{
    let mut r = "/org/ukvm/led/".to_owned();
    r.append(id.name());
    r
}

/// The canonical bus address of a TCP endpoint:
/// `tcp:host=<ip>,port=<port>,family=ipv<4|6>`.
pub open spec fn tcp_bus_address(sa: SocketAddr) -> Seq<char> {
    "tcp:host="@ + sa.ip.text_spec() + ",port="@ + dec_digits(sa.port as nat) + ",family="@ + (
    match sa.ip {
        IpAddr::V4(..) => "ipv4"@,
        IpAddr::V6(..) => "ipv6"@,
    })
}

/// Render the bus address of a TCP endpoint.
pub fn tcp_address(sa: &SocketAddr) -> (r: String)
    ensures
        r@ == tcp_bus_address(*sa),
{
    let mut r = "tcp:host=".to_owned();
    let host = sa.ip.text();
    r.append(host.as_str());
    r.append(",port=");
    let port = dec_u64(sa.port as u64);
    r.append(port.as_str());
    r.append(",family=");
    match sa.ip {
        IpAddr::V4(..) => r.append("ipv4"),
        IpAddr::V6(..) => r.append("ipv6"),
    }
    r
}

/// Render the bus address of a Unix socket path: `unix:path=<path>`.
pub fn unix_address(path: &str) -> (r: String)
    ensures
        r@ == "unix:path="@ + path@,
{
    let mut r = "unix:path=".to_owned();
    r.append(path);
    r
}

impl Error {
    /// The standard D-Bus error name carrying this error across the
    /// bus: I/O failures keep their own name, everything else is a
    /// generic failure.  The kind stays readable through `label`.
    pub fn dbus_error_name(&self) -> (r: &'static str)
        ensures
            self is Io ==> r@ == "org.freedesktop.DBus.Error.IOError"@,
            !(self is Io) ==> r@ == "org.freedesktop.DBus.Error.Failed"@,
    {
        match self {
            Error::Io(_) => "org.freedesktop.DBus.Error.IOError",
            _ => "org.freedesktop.DBus.Error.Failed",
        }
    }
}

/// Whether a child-node tag opens at a position of an introspection
/// document.
pub open spec fn node_tag_at(s: Seq<char>, i: int) -> bool {
    0 <= i && i + 12 <= s.len() && s.subrange(i, i + 12) == "<node name=\""@
}

/// First position where a child-node tag opens.
pub open spec fn find_node_tag(s: Seq<char>) -> Option<int>
    decreases s.len(),
{
    if s.len() < 12 {
        None
    } else if s.subrange(0, 12) == "<node name=\""@ {
        Some(0)
    } else {
        match find_node_tag(s.skip(1)) {
            Some(i) => Some(i + 1),
            None => None,
        }
    }
}

/// What `find_node_tag` returns: the first tag, or none at all.
pub proof fn lemma_find_node_tag(s: Seq<char>)
    ensures
        match find_node_tag(s) {
            Some(i) => node_tag_at(s, i) && forall|j: int| 0 <= j < i ==> !node_tag_at(s, j),
            None => forall|j: int| !node_tag_at(s, j),
        },
    decreases s.len(),
{
    if s.len() < 12 {
    } else if s.subrange(0, 12) == "<node name=\""@ {
    } else {
        lemma_find_node_tag(s.skip(1));
        assert(forall|j: int| 0 <= j < s.skip(1).len() ==> s.skip(1)[j] == s[j + 1]);
        match find_node_tag(s.skip(1)) {
            Some(i) => {
                assert(node_tag_at(s.skip(1), i));
                assert(s.skip(1).subrange(i, i + 12) =~= s.subrange(i + 1, i + 13));
                assert(node_tag_at(s, i + 1));
                assert forall|j: int| 0 <= j < i + 1 implies !node_tag_at(s, j) by {
                    if j == 0 {
                        if node_tag_at(s, 0) {
                            assert(s.subrange(0, 12) == "<node name=\""@);
                        }
                    } else {
                        if node_tag_at(s, j) {
                            assert(s.skip(1).subrange(j - 1, j + 11) =~= s.subrange(j, j + 12));
                            assert(node_tag_at(s.skip(1), j - 1));
                        }
                    }
                }
            },
            None => {
                assert forall|j: int| 0 <= j implies !node_tag_at(s, j) by {
                    if j == 0 {
                        if node_tag_at(s, 0) {
                            assert(s.subrange(0, 12) == "<node name=\""@);
                        }
                    } else {
                        if node_tag_at(s, j) {
                            assert(s.skip(1).subrange(j - 1, j + 11) =~= s.subrange(j, j + 12));
                            assert(node_tag_at(s.skip(1), j - 1));
                        }
                    }
                }
            },
        }
    }
}

/// The child-node names of an introspection document, in order: what
/// stands between each `<node name="` opening and the next quote.
pub open spec fn scan_node_names(s: Seq<char>) -> Seq<Seq<char>>
    decreases s.len(),
{
    match find_node_tag(s) {
        None => Seq::<Seq<char>>::empty(),
        Some(i) => {
            if 0 <= i && i + 12 <= s.len() {
                let rest = s.skip(i + 12);
                match find_char(rest, '"') {
                    Some(j) => if 0 <= j < rest.len() {
                        seq![rest.take(j)] + scan_node_names(rest.skip(j))
                    } else {
                        seq![rest]
                    },
                    None => seq![rest],
                }
            } else {
                Seq::<Seq<char>>::empty()
            }
        },
    }
}

/// Search a child-node tag in a string region.
fn find_node_tag_in(s: &str, from: usize) -> (r: Option<usize>)
    requires
        from <= s@.len(),
    ensures
        match find_node_tag(s@.skip(from as int)) {
            Some(i) => r == Some((from + i) as usize),
            None => r is None,
        },
{
    proof {
        lemma_find_node_tag(s@.skip(from as int));
        reveal_strlit("<node name=\"");
    }
    let ghost sub = s@.skip(from as int);
    let n = s.unicode_len();
    if n - from < 12 {
        proof {
            if find_node_tag(sub) is Some {
                assert(node_tag_at(sub, find_node_tag(sub)->Some_0));
            }
        }
        return None;
    }
    let mut i: usize = from;
    while i <= n - 12
        invariant
            from <= i <= n,
            n == s@.len(),
            n - from >= 12,
            sub == s@.skip(from as int),
            forall|j: int| 0 <= j < i - from ==> !node_tag_at(sub, j),
        decreases n - i,
    {
        if region_eq(s, i, i + 12, "<node name=\"") {
            proof {
                assert(sub.subrange(i - from, i - from + 12) =~= s@.subrange(i as int, i + 12));
                assert(node_tag_at(sub, i - from));
                lemma_find_node_tag(sub);
                match find_node_tag(sub) {
                    Some(k) => {
                        assert(k >= i - from);
                        assert(k <= i - from);
                    },
                    None => {},
                }
            }
            return Some(i);
        }
        proof {
            assert(s@.subrange(i as int, i + 12) =~= sub.subrange(i - from, i - from + 12));
            assert(!node_tag_at(sub, i - from));
        }
        i += 1;
    }
    proof {
        if find_node_tag(sub) is Some {
            let k = find_node_tag(sub)->Some_0;
            assert(node_tag_at(sub, k));
        }
    }
    None
}

/// Scan an introspection document for the names of its child nodes —
/// how a client discovers which buttons and LEDs a server exports.
pub fn node_names(xml: &str) -> (r: Vec<String>)
    ensures
        r@.map_values(|s: String| s@) == scan_node_names(xml@),
{
    proof {
        assert(xml@.skip(0) =~= xml@);
    }
    node_names_from(xml, 0)
}

/// Scan for child-node names from a position on.
fn node_names_from(xml: &str, from: usize) -> (r: Vec<String>)
    requires
        from <= xml@.len(),
    ensures
        r@.map_values(|s: String| s@) == scan_node_names(xml@.skip(from as int)),
    decreases xml@.len() - from,
{
    let ghost sub = xml@.skip(from as int);
    let n = xml.unicode_len();
    match find_node_tag_in(xml, from) {
        None => {
            let r: Vec<String> = Vec::new();
            proof {
                assert(r@.map_values(|s: String| s@) =~= Seq::<Seq<char>>::empty());
            }
            r
        },
        Some(i) => {
            proof {
                lemma_find_node_tag(sub);
                assert(node_tag_at(sub, i - from));
                assert(sub.skip(i - from + 12) =~= xml@.skip(i + 12));
                assert(xml@.skip(i + 12) =~= xml@.subrange(i + 12, n as int));
            }
            let ghost rest = sub.skip(i - from + 12);
            match find_char_in(xml, i + 12, n, '"') {
                Some(j) => {
                    proof {
                        lemma_find_char(rest, '"');
                        assert(rest.take(j - i - 12) =~= xml@.subrange(i + 12, j as int));
                        assert(rest.skip(j - i - 12) =~= xml@.skip(j as int));
                    }
                    let name = region_to_string(xml, i + 12, j);
                    let mut more = node_names_from(xml, j);
                    let ghost more0 = more@;
                    more.insert(0, name);
                    proof {
                        assert(more@ =~= seq![name] + more0);
                        assert(more@.map_values(|s: String| s@) =~= seq![name@]
                            + more0.map_values(|s: String| s@));
                        assert(more@.map_values(|s: String| s@) =~= scan_node_names(sub));
                    }
                    more
                },
                None => {
                    let name = region_to_string(xml, i + 12, n);
                    let mut r: Vec<String> = Vec::new();
                    r.push(name);
                    proof {
                        assert(r@.map_values(|s: String| s@) =~= seq![rest]);
                    }
                    r
                },
            }
        },
    }
}

} // verus!
