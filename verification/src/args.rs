//! Service bindings given on the command line.
//!
//! A bind URI selects a transport: `http://addr[:port]`,
//! `http+unix://path`, `dbus://system`, `dbus://session`,
//! `dbus://user` (an alias of the session bus), `dbus+tcp://addr[:port]`
//! or `dbus+unix://path`.  `parse_bind` is the grammar, `bind_uri` the
//! printed form, and the round-trip law ties them together.

use vstd::prelude::*;

use crate::addr::{
    lift_addr_error, DBusAddr, DBusAddrV, HttpAddr, HttpAddrV, HttpBindAddr, HttpBindAddrV,
    UriError,
};
use crate::net::{parse_socket_addr, parse_socket_addr_str, AddrError};
use crate::result::Error;
use crate::text::{
    find_char, find_char_in, find_sep, find_sep_in, lemma_find_char, lemma_find_char_is,
    lemma_find_char_none, lemma_find_sep, lemma_find_sep_is, region_eq,
};

verus! {

/// Service binding
#[derive(Clone, Debug, PartialEq, Eq)]
pub enum Bind {
    /// HTTP server
    Http(HttpBindAddr),
    /// DBus service
    DBus(DBusAddr),
}

/// Model of a service binding.
pub enum BindV {
    /// HTTP server
    Http(HttpBindAddrV),
    /// DBus service
    DBus(DBusAddrV),
}

impl View for Bind {
    type V = BindV;

    open spec fn view(&self) -> BindV {
        match self {
            Bind::Http(h) => BindV::Http(h@),
            Bind::DBus(d) => BindV::DBus(d@),
        }
    }
}

/// The `http://addr[:port]` helper grammar.
pub open spec fn http_addr_spec(s: Seq<char>) -> Result<BindV, UriError> {
    match parse_socket_addr(s, 8080) {
        Ok(sa) => Ok(
            BindV::Http(HttpBindAddrV { addr: HttpAddrV::Addr(sa), tls: None }),
        ),
        Err(e) => Err(lift_addr_error(e)),
    }
}

/// The `dbus+tcp://addr[:port]` helper grammar.
pub open spec fn dbus_addr_spec(s: Seq<char>) -> Result<BindV, UriError> {
    match parse_socket_addr(s, 6667) {
        Ok(sa) => Ok(BindV::DBus(DBusAddrV::Addr(sa))),
        Err(e) => Err(lift_addr_error(e)),
    }
}

/// The well-known-bus helper grammar: `system`, `session`, or `user`
/// as an alias of the session bus.
pub open spec fn dbus_bus_spec(s: Seq<char>) -> Result<BindV, UriError> {
    if s == "system"@ {
        Ok(BindV::DBus(DBusAddrV::System))
    } else if s == "session"@ || s == "user"@ {
        Ok(BindV::DBus(DBusAddrV::Session))
    } else {
        Err(UriError::UnknownBus)
    }
}

/// The bind grammar: protocol up to the first `://`, resource after
/// it; a `+` in the protocol selects the sub-protocol.
pub open spec fn parse_bind(s: Seq<char>) -> Result<BindV, UriError> {
    match find_sep(s) {
        None => Err(UriError::NoSep),
        Some(i) => {
            let proto = s.take(i);
            let res = s.skip(i + 3);
            match find_char(proto, '+') {
                Some(j) => {
                    let base = proto.take(j);
                    let sub = proto.skip(j + 1);
                    if base == "http"@ {
                        if sub == "unix"@ {
                            Ok(
                                BindV::Http(
                                    HttpBindAddrV { addr: HttpAddrV::Path(res), tls: None },
                                ),
                            )
                        } else {
                            http_addr_spec(res)
                        }
                    } else if base == "dbus"@ {
                        if sub == "unix"@ {
                            Ok(BindV::DBus(DBusAddrV::Path(res)))
                        } else if sub == "tcp"@ {
                            dbus_addr_spec(res)
                        } else {
                            dbus_bus_spec(res)
                        }
                    } else {
                        Err(UriError::UnknownProto)
                    }
                },
                None => {
                    if proto == "http"@ {
                        http_addr_spec(res)
                    } else if proto == "dbus"@ {
                        dbus_bus_spec(res)
                    } else {
                        Err(UriError::UnknownProto)
                    }
                },
            }
        },
    }
}

/// Which error variant each parse failure carries.
pub open spec fn bind_err_matches(e: Error, k: UriError) -> bool {
    match k {
        UriError::NoSep => e is Other,
        UriError::UnknownProto => e is Other,
        UriError::UnknownBus => e is Other,
        UriError::Ip => e is Addr,
        UriError::Port => e is Int,
    }
}

/// Turn a socket-address failure into the matching error variant.
fn addr_error_to_error(e: AddrError) -> (r: Error)
    ensures
        bind_err_matches(r, lift_addr_error(e)),
{
    match e {
        AddrError::Ip => Error::Addr("invalid IP address syntax".to_owned()),
        AddrError::Port => Error::Int("invalid port number".to_owned()),
    }
}

/// Parse an `http://addr[:port]` resource into an HTTP binding.
pub fn http_addr(bind: &str) -> (r: Result<Bind, Error>)
    ensures
        match r {
            Ok(b) => http_addr_spec(bind@) == Ok::<BindV, UriError>(b@),
            Err(e) => match http_addr_spec(bind@) {
                Ok(_) => false,
                Err(k) => bind_err_matches(e, k),
            },
        },
{
    let n = bind.unicode_len();
    proof {
        assert(bind@.subrange(0, n as int) =~= bind@);
    }
    match parse_socket_addr_str(bind, 0, n, 8080) {
        Ok(sa) => Ok(
            Bind::Http(HttpBindAddr { addr: HttpAddr::Addr(sa), tls: None }),
        ),
        Err(e) => Err(addr_error_to_error(e)),
    }
}

/// Parse a `dbus+tcp://addr[:port]` resource into a D-Bus binding.
pub fn dbus_addr(bind: &str) -> (r: Result<Bind, Error>)
    ensures
        match r {
            Ok(b) => dbus_addr_spec(bind@) == Ok::<BindV, UriError>(b@),
            Err(e) => match dbus_addr_spec(bind@) {
                Ok(_) => false,
                Err(k) => bind_err_matches(e, k),
            },
        },
{
    let n = bind.unicode_len();
    proof {
        assert(bind@.subrange(0, n as int) =~= bind@);
    }
    match parse_socket_addr_str(bind, 0, n, 6667) {
        Ok(sa) => Ok(Bind::DBus(DBusAddr::Addr(sa))),
        Err(e) => Err(addr_error_to_error(e)),
    }
}

/// Parse a well-known bus name into a D-Bus binding.
pub fn dbus_bus(bind: &str) -> (r: Result<Bind, Error>)
    ensures
        match r {
            Ok(b) => dbus_bus_spec(bind@) == Ok::<BindV, UriError>(b@),
            Err(e) => match dbus_bus_spec(bind@) {
                Ok(_) => false,
                Err(k) => bind_err_matches(e, k),
            },
        },
{
    let n = bind.unicode_len();
    proof {
        assert(bind@.subrange(0, n as int) =~= bind@);
    }
    if region_eq(bind, 0, n, "system") {
        Ok(Bind::DBus(DBusAddr::System))
    } else if region_eq(bind, 0, n, "session") || region_eq(bind, 0, n, "user") {
        Ok(Bind::DBus(DBusAddr::Session))
    } else {
        let mut m = "Unknown DBus bus: ".to_owned();
        m.append(bind);
        Err(Error::Other(m))
    }
}

impl Bind {
    /// Parse a bind URI.  Returns `Ok` exactly on the grammar
    /// `parse_bind`; on failure the error variant matches the reason.
    pub fn parse_uri(s: &str) -> (r: Result<Bind, Error>)
        ensures
            match r {
                Ok(b) => parse_bind(s@) == Ok::<BindV, UriError>(b@),
                Err(e) => match parse_bind(s@) {
                    Ok(_) => false,
                    Err(k) => bind_err_matches(e, k),
                },
            },
    {
        let n = s.unicode_len();
        match find_sep_in(s) {
            None => Err(Error::Other("The <protocol>://<resource> expected".to_owned())),
            Some(i) => {
                proof {
                    lemma_find_sep(s@);
                    assert(s@.take(i as int) =~= s@.subrange(0, i as int));
                    assert(s@.skip(i + 3) =~= s@.subrange(i + 3, n as int));
                }
                let ghost proto = s@.take(i as int);
                let res = s.substring_char(i + 3, n);
                proof {
                    assert(res@ == s@.skip(i + 3));
                }
                match find_char_in(s, 0, i, '+') {
                    Some(j) => {
                        proof {
                            lemma_find_char(proto, '+');
                            assert(j < i);
                            assert(proto.take(j as int) =~= s@.subrange(0, j as int));
                            assert(proto.skip(j + 1) =~= s@.subrange(j + 1, i as int));
                        }
                        if region_eq(s, 0, j, "http") {
                            if region_eq(s, j + 1, i, "unix") {
                                Ok(
                                    Bind::Http(
                                        HttpBindAddr {
                                            addr: HttpAddr::Path(res.to_owned()),
                                            tls: None,
                                        },
                                    ),
                                )
                            } else {
                                http_addr(res)
                            }
                        } else if region_eq(s, 0, j, "dbus") {
                            if region_eq(s, j + 1, i, "unix") {
                                Ok(Bind::DBus(DBusAddr::Path(res.to_owned())))
                            } else if region_eq(s, j + 1, i, "tcp") {
                                dbus_addr(res)
                            } else {
                                dbus_bus(res)
                            }
                        } else {
                            let mut m = "Invalid binding URI: ".to_owned();
                            m.append(s);
                            Err(Error::Other(m))
                        }
                    },
                    None => {
                        if region_eq(s, 0, i, "http") {
                            http_addr(res)
                        } else if region_eq(s, 0, i, "dbus") {
                            dbus_bus(res)
                        } else {
                            let mut m = "Invalid binding URI: ".to_owned();
                            m.append(s);
                            Err(Error::Other(m))
                        }
                    },
                }
            },
        }
    }

    /// The printed URI of a binding.  TLS options have no URI form and
    /// are omitted; an alias bus never appears, the session bus is
    /// printed as `session`.
    pub fn to_uri(&self) -> (r: String)
        ensures
            r@ == bind_uri(self@),
    {
        match self {
            Bind::Http(h) => match &h.addr {
                HttpAddr::Addr(sa) => {
                    let mut r = "http://".to_owned();
                    let t = sa.text();
                    r.append(t.as_str());
                    r
                },
                HttpAddr::Path(p) => {
                    let mut r = "http+unix://".to_owned();
                    r.append(p.as_str());
                    r
                },
            },
            Bind::DBus(d) => match d {
                DBusAddr::System => "dbus://system".to_owned(),
                DBusAddr::Session => "dbus://session".to_owned(),
                DBusAddr::Addr(sa) => {
                    let mut r = "dbus+tcp://".to_owned();
                    let t = sa.text();
                    r.append(t.as_str());
                    r
                },
                DBusAddr::Path(p) => {
                    let mut r = "dbus+unix://".to_owned();
                    r.append(p.as_str());
                    r
                },
            },
        }
    }
}

impl core::str::FromStr for Bind {
    type Err = Error;

    fn from_str(s: &str) -> Result<Bind, Error> {
        Bind::parse_uri(s)
    }
}

/// The printed URI of a binding model.
pub open spec fn bind_uri(v: BindV) -> Seq<char> {
    match v {
        BindV::Http(h) => match h.addr {
            HttpAddrV::Addr(sa) => "http://"@ + sa.text_spec(),
            HttpAddrV::Path(p) => "http+unix://"@ + p,
        },
        BindV::DBus(d) => match d {
            DBusAddrV::System => "dbus://system"@,
            DBusAddrV::Session => "dbus://session"@,
            DBusAddrV::Addr(sa) => "dbus+tcp://"@ + sa.text_spec(),
            DBusAddrV::Path(p) => "dbus+unix://"@ + p,
        },
    }
}

/// Printing a binding and parsing the URI back yields an equal
/// binding.  TLS options are not representable in a URI, so the HTTP
/// side must carry none; TCP hosts must be IPv4, the only host form
/// the address grammar reads.
#[verifier::rlimit(60)]
pub proof fn lemma_bind_uri_round_trip(v: BindV)
    requires
        match v {
            BindV::Http(h) => h.tls is None && match h.addr {
                HttpAddrV::Addr(sa) => sa.ip is V4,
                HttpAddrV::Path(_) => true,
            },
            BindV::DBus(d) => match d {
                DBusAddrV::Addr(sa) => sa.ip is V4,
                _ => true,
            },
        },
    ensures
        parse_bind(bind_uri(v)) == Ok::<BindV, UriError>(v),
{
    reveal_strlit("http://");
    reveal_strlit("http+unix://");
    reveal_strlit("dbus://system");
    reveal_strlit("dbus://session");
    reveal_strlit("dbus+tcp://");
    reveal_strlit("dbus+unix://");
    reveal_strlit("http");
    reveal_strlit("http+unix");
    reveal_strlit("dbus+tcp");
    reveal_strlit("dbus+unix");
    reveal_strlit("dbus");
    reveal_strlit("unix");
    reveal_strlit("tcp");
    reveal_strlit("system");
    reveal_strlit("session");
    reveal_strlit("user");
    let s = bind_uri(v);
    match v {
        BindV::Http(h) => match h.addr {
            HttpAddrV::Addr(sa) => {
                let t = sa.text_spec();
                assert(s == "http://"@ + t);
                assert(s.len() == 7 + t.len());
                assert forall|j: int| 0 <= j < 4 implies !crate::text::sep_at(s, j) by {
                    assert(s[j] == "http://"@[j]);
                }
                assert(s[4] == ':' && s[5] == '/' && s[6] == '/');
                lemma_find_sep_is(s, 4);
                let proto = s.take(4);
                assert(proto =~= "http"@);
                lemma_find_char_none(proto, '+');
                assert(s.skip(7) =~= t);
                crate::net::lemma_socket_addr_round_trip(sa, 8080);
            },
            HttpAddrV::Path(p) => {
                assert(s == "http+unix://"@ + p);
                assert forall|j: int| 0 <= j < 9 implies !crate::text::sep_at(s, j) by {
                    assert(s[j] == "http+unix://"@[j]);
                }
                assert(s[9] == ':' && s[10] == '/' && s[11] == '/');
                lemma_find_sep_is(s, 9);
                let proto = s.take(9);
                assert(proto =~= "http+unix"@);
                assert(proto[4] == '+');
                assert(forall|j: int| 0 <= j < 4 ==> proto[j] != '+');
                lemma_find_char_is(proto, '+', 4);
                assert(proto.take(4) =~= "http"@);
                assert(proto.skip(5) =~= "unix"@);
                assert(s.skip(12) =~= p);
            },
        },
        BindV::DBus(d) => match d {
            DBusAddrV::System => {
                assert(s == "dbus://system"@);
                assert forall|j: int| 0 <= j < 4 implies !crate::text::sep_at(s, j) by {
                    assert(s[j] == "dbus://system"@[j]);
                }
                assert(s[4] == ':' && s[5] == '/' && s[6] == '/');
                lemma_find_sep_is(s, 4);
                let proto = s.take(4);
                assert(proto =~= "dbus"@);
                lemma_find_char_none(proto, '+');
                assert("dbus"@ != "http"@) by {
                    assert("dbus"@[0] != "http"@[0]);
                }
                assert(s.skip(7) =~= "system"@);
            },
            DBusAddrV::Session => {
                assert(s == "dbus://session"@);
                assert forall|j: int| 0 <= j < 4 implies !crate::text::sep_at(s, j) by {
                    assert(s[j] == "dbus://session"@[j]);
                }
                assert(s[4] == ':' && s[5] == '/' && s[6] == '/');
                lemma_find_sep_is(s, 4);
                let proto = s.take(4);
                assert(proto =~= "dbus"@);
                lemma_find_char_none(proto, '+');
                assert("dbus"@ != "http"@) by {
                    assert("dbus"@[0] != "http"@[0]);
                }
                let res = s.skip(7);
                assert(res =~= "session"@);
                assert("session"@ != "system"@) by {
                    assert("session"@[1] != "system"@[1]);
                }
            },
            DBusAddrV::Addr(sa) => {
                let t = sa.text_spec();
                assert(s == "dbus+tcp://"@ + t);
                assert forall|j: int| 0 <= j < 8 implies !crate::text::sep_at(s, j) by {
                    assert(s[j] == "dbus+tcp://"@[j]);
                }
                assert(s[8] == ':' && s[9] == '/' && s[10] == '/');
                lemma_find_sep_is(s, 8);
                let proto = s.take(8);
                assert(proto =~= "dbus+tcp"@);
                assert(proto[4] == '+');
                assert(forall|j: int| 0 <= j < 4 ==> proto[j] != '+');
                lemma_find_char_is(proto, '+', 4);
                assert(proto.take(4) =~= "dbus"@);
                assert("dbus"@ != "http"@) by {
                    assert("dbus"@[0] != "http"@[0]);
                }
                let sub = proto.skip(5);
                assert(sub =~= "tcp"@);
                assert("tcp"@ != "unix"@) by {
                    assert("tcp"@.len() != "unix"@.len());
                }
                assert(s.skip(11) =~= t);
                crate::net::lemma_socket_addr_round_trip(sa, 6667);
            },
            DBusAddrV::Path(p) => {
                assert(s == "dbus+unix://"@ + p);
                assert forall|j: int| 0 <= j < 9 implies !crate::text::sep_at(s, j) by {
                    assert(s[j] == "dbus+unix://"@[j]);
                }
                assert(s[9] == ':' && s[10] == '/' && s[11] == '/');
                lemma_find_sep_is(s, 9);
                let proto = s.take(9);
                assert(proto =~= "dbus+unix"@);
                assert(proto[4] == '+');
                assert(forall|j: int| 0 <= j < 4 ==> proto[j] != '+');
                lemma_find_char_is(proto, '+', 4);
                assert(proto.take(4) =~= "dbus"@);
                assert("dbus"@ != "http"@) by {
                    assert("dbus"@[0] != "http"@[0]);
                }
                assert(proto.skip(5) =~= "unix"@);
                assert(s.skip(12) =~= p);
            },
        },
    }
}

} // verus!
