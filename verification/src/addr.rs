//! Unified service addresses.
//!
//! A bind URI has the shape `<proto>[+<subproto>]://<resource>`.  The
//! types here mirror the configuration file: an HTTP endpoint is a TCP
//! socket address or a Unix socket path, optionally with TLS options;
//! a D-Bus endpoint is a well-known bus, a TCP address or a Unix
//! socket path.  Each parser's grammar is stated as a spec function
//! over the character sequence, and the exec parsers are proved
//! against it.

use vstd::prelude::*;

use crate::net::{parse_socket_addr, parse_socket_addr_str, AddrError, IpAddr, SocketAddr};
use crate::text::{find_char, find_char_in, find_sep, find_sep_in, lemma_find_char, lemma_find_sep, region_eq, region_to_string};

verus! {

/// HTTP service binding
#[derive(Clone, Debug, PartialEq, Eq)]
pub enum HttpAddr {
    /// Network socket
    Addr(SocketAddr),
    /// Unix socket
    Path(String),
}

/// Model of an HTTP binding.
pub enum HttpAddrV {
    /// Network socket
    Addr(SocketAddr),
    /// Unix socket
    Path(Seq<char>),
}

impl View for HttpAddr {
    type V = HttpAddrV;

    open spec fn view(&self) -> HttpAddrV {
        match self {
            HttpAddr::Addr(sa) => HttpAddrV::Addr(*sa),
            HttpAddr::Path(p) => HttpAddrV::Path(p@),
        }
    }
}

/// TLS options of an HTTP binding.
#[derive(Clone, Debug, PartialEq, Eq)]
pub struct HttpTlsOpts {
    /// Path to private key file
    pub key: String,
    /// Path to certificate file
    pub cert: String,
    /// Path to client auth file
    pub auth: Option<String>,
}

/// Model of TLS options.
pub struct HttpTlsOptsV {
    /// Path to private key file
    pub key: Seq<char>,
    /// Path to certificate file
    pub cert: Seq<char>,
    /// Path to client auth file
    pub auth: Option<Seq<char>>,
}

impl View for HttpTlsOpts {
    type V = HttpTlsOptsV;

    open spec fn view(&self) -> HttpTlsOptsV {
        HttpTlsOptsV {
            key: self.key@,
            cert: self.cert@,
            auth: match &self.auth {
                Some(a) => Some(a@),
                None => None,
            },
        }
    }
}

/// HTTP service options: a binding plus optional TLS.
#[derive(Clone, Debug, PartialEq, Eq)]
pub struct HttpBindAddr {
    /// Bind way
    pub addr: HttpAddr,
    /// Enable TLS encryption
    pub tls: Option<HttpTlsOpts>,
}

/// Model of HTTP service options.
pub struct HttpBindAddrV {
    /// Bind way
    pub addr: HttpAddrV,
    /// Enable TLS encryption
    pub tls: Option<HttpTlsOptsV>,
}

impl View for HttpBindAddr {
    type V = HttpBindAddrV;

    open spec fn view(&self) -> HttpBindAddrV {
        HttpBindAddrV {
            addr: self.addr@,
            tls: match &self.tls {
                Some(t) => Some(t@),
                None => None,
            },
        }
    }
}

/// DBus service binding
#[derive(Clone, Debug, PartialEq, Eq)]
pub enum DBusAddr {
    /// System bus
    System,
    /// Session bus
    Session,
    /// TCP socket address
    Addr(SocketAddr),
    /// Unix socket path
    Path(String),
}

/// Model of a D-Bus binding.
pub enum DBusAddrV {
    /// System bus
    System,
    /// Session bus
    Session,
    /// TCP socket address
    Addr(SocketAddr),
    /// Unix socket path
    Path(Seq<char>),
}

impl View for DBusAddr {
    type V = DBusAddrV;

    open spec fn view(&self) -> DBusAddrV {
        match self {
            DBusAddr::System => DBusAddrV::System,
            DBusAddr::Session => DBusAddrV::Session,
            DBusAddr::Addr(sa) => DBusAddrV::Addr(*sa),
            DBusAddr::Path(p) => DBusAddrV::Path(p@),
        }
    }
}

/// Unified address
#[derive(Clone, Debug, PartialEq, Eq)]
pub enum Addr {
    /// HTTP server
    Http(HttpAddr),
    /// DBus service
    DBus(DBusAddr),
}

/// Model of a unified address.
pub enum AddrV {
    /// HTTP server
    Http(HttpAddrV),
    /// DBus service
    DBus(DBusAddrV),
}

impl View for Addr {
    type V = AddrV;

    open spec fn view(&self) -> AddrV {
        match self {
            Addr::Http(h) => AddrV::Http(h@),
            Addr::DBus(d) => AddrV::DBus(d@),
        }
    }
}

/// Unified bind address
#[derive(Clone, Debug, PartialEq, Eq)]
pub enum BindAddr {
    /// HTTP server
    Http(HttpBindAddr),
    /// DBus service
    DBus(DBusAddr),
}

/// Model of a unified bind address.
pub enum BindAddrV {
    /// HTTP server
    Http(HttpBindAddrV),
    /// DBus service
    DBus(DBusAddrV),
}

impl View for BindAddr {
    type V = BindAddrV;

    open spec fn view(&self) -> BindAddrV {
        match self {
            BindAddr::Http(h) => BindAddrV::Http(h@),
            BindAddr::DBus(d) => BindAddrV::DBus(d@),
        }
    }
}

/// Why a URI failed to parse.
#[derive(Clone, Copy, Debug, PartialEq, Eq, Structural)]
pub enum UriError {
    /// No `://` separator.
    NoSep,
    /// Unknown protocol name.
    UnknownProto,
    /// Unknown well-known bus name.
    UnknownBus,
    /// Bad host part.
    Ip,
    /// Bad port part.
    Port,
}

/// Lift a socket-address failure to a URI failure.
pub open spec fn lift_addr_error(e: AddrError) -> UriError {
    match e {
        AddrError::Ip => UriError::Ip,
        AddrError::Port => UriError::Port,
    }
}

/// The HTTP resource grammar: `unix://<path>`, `tcp://<addr>` or
/// `://<addr>` (the protocol already consumed by the caller).
pub open spec fn http_addr_v(s: Seq<char>) -> Result<HttpAddrV, UriError> {
    match find_sep(s) {
        None => Err(UriError::NoSep),
        Some(i) => {
            let proto = s.take(i);
            let res = s.skip(i + 3);
            if proto == "unix"@ {
                Ok(HttpAddrV::Path(res))
            } else if proto == "tcp"@ || proto.len() == 0 {
                match parse_socket_addr(res, 8080) {
                    Ok(sa) => Ok(HttpAddrV::Addr(sa)),
                    Err(e) => Err(lift_addr_error(e)),
                }
            } else {
                Err(UriError::UnknownProto)
            }
        },
    }
}

/// The D-Bus resource grammar: `unix://<path>`, `tcp://<addr>`, or
/// `://<bus-or-addr>` where the bus is `system`, `session` or `user`
/// (an alias of the session bus).
pub open spec fn dbus_addr_v(s: Seq<char>) -> Result<DBusAddrV, UriError> {
    match find_sep(s) {
        None => Err(UriError::NoSep),
        Some(i) => {
            let proto = s.take(i);
            let res = s.skip(i + 3);
            if proto == "unix"@ {
                Ok(DBusAddrV::Path(res))
            } else if proto == "tcp"@ {
                match parse_socket_addr(res, 6667) {
                    Ok(sa) => Ok(DBusAddrV::Addr(sa)),
                    Err(e) => Err(lift_addr_error(e)),
                }
            } else if proto.len() == 0 {
                if res == "system"@ {
                    Ok(DBusAddrV::System)
                } else if res == "session"@ || res == "user"@ {
                    Ok(DBusAddrV::Session)
                } else {
                    match parse_socket_addr(res, 6667) {
                        Ok(sa) => Ok(DBusAddrV::Addr(sa)),
                        Err(e) => Err(lift_addr_error(e)),
                    }
                }
            } else {
                Err(UriError::UnknownProto)
            }
        },
    }
}

/// The unified grammar: take the protocol before the first `://`; if
/// it carries a `+`, hand everything after the `+` to the protocol's
/// own parser, else hand over from the separator on.
pub open spec fn addr_v(s: Seq<char>) -> Result<AddrV, UriError> {
    match find_sep(s) {
        None => Err(UriError::NoSep),
        Some(i) => {
            let proto = s.take(i);
            let base = match find_char(proto, '+') {
                Some(j) => proto.take(j),
                None => proto,
            };
            let rest = match find_char(proto, '+') {
                Some(j) => s.skip(j + 1),
                None => s.skip(i),
            };
            if base == "http"@ {
                match http_addr_v(rest) {
                    Ok(h) => Ok(AddrV::Http(h)),
                    Err(e) => Err(e),
                }
            } else if base == "dbus"@ {
                match dbus_addr_v(rest) {
                    Ok(d) => Ok(AddrV::DBus(d)),
                    Err(e) => Err(e),
                }
            } else {
                Err(UriError::UnknownProto)
            }
        },
    }
}

/// The unified grammar for bind addresses: as `addr_v`, with the HTTP
/// side wrapped in default (TLS-less) HTTP options.
pub open spec fn bind_addr_v(s: Seq<char>) -> Result<BindAddrV, UriError> {
    match addr_v(s) {
        Ok(AddrV::Http(h)) => Ok(BindAddrV::Http(HttpBindAddrV { addr: h, tls: None })),
        Ok(AddrV::DBus(d)) => Ok(BindAddrV::DBus(d)),
        Err(e) => Err(e),
    }
}

impl HttpAddr {
    /// Parse an HTTP resource URI.  Returns `Ok` exactly on the
    /// grammar `http_addr_v`; the error carries a rendered message.
    pub fn parse_uri(s: &str) -> (r: Result<HttpAddr, String>)
        ensures
            match r {
                Ok(v) => http_addr_v(s@) == Ok::<HttpAddrV, UriError>(v@),
                Err(_) => http_addr_v(s@) is Err,
            },
    {
        let n = s.unicode_len();
        match find_sep_in(s) {
            None => {
                let mut m = "The '<protocol>://<resource>' expected but given '".to_owned();
                m.append(s);
                m.append("'");
                Err(m)
            },
            Some(i) => {
                proof {
                    lemma_find_sep(s@);
                    assert(s@.take(i as int) =~= s@.subrange(0, i as int));
                    assert(s@.skip(i + 3) =~= s@.subrange(i + 3, n as int));
                }
                if region_eq(s, 0, i, "unix") {
                    let p = region_to_string(s, i + 3, n);
                    Ok(HttpAddr::Path(p))
                } else if region_eq(s, 0, i, "tcp") || i == 0 {
                    match parse_socket_addr_str(s, i + 3, n, 8080) {
                        Ok(sa) => Ok(HttpAddr::Addr(sa)),
                        Err(_) => Err("Invalid socket address".to_owned()),
                    }
                } else {
                    let mut m = "Unknown HTTP protocol: ".to_owned();
                    let proto = region_to_string(s, 0, i);
                    m.append(proto.as_str());
                    Err(m)
                }
            },
        }
    }
}

impl DBusAddr {
    /// Parse a D-Bus resource URI.  Returns `Ok` exactly on the
    /// grammar `dbus_addr_v`; the error carries a rendered message.
    pub fn parse_uri(s: &str) -> (r: Result<DBusAddr, String>)
        ensures
            match r {
                Ok(v) => dbus_addr_v(s@) == Ok::<DBusAddrV, UriError>(v@),
                Err(_) => dbus_addr_v(s@) is Err,
            },
    {
        let n = s.unicode_len();
        match find_sep_in(s) {
            None => {
                let mut m = "The '<protocol>://<resource>' expected but given '".to_owned();
                m.append(s);
                m.append("'");
                Err(m)
            },
            Some(i) => {
                proof {
                    lemma_find_sep(s@);
                    assert(s@.take(i as int) =~= s@.subrange(0, i as int));
                    assert(s@.skip(i + 3) =~= s@.subrange(i + 3, n as int));
                }
                if region_eq(s, 0, i, "unix") {
                    let p = region_to_string(s, i + 3, n);
                    Ok(DBusAddr::Path(p))
                } else if region_eq(s, 0, i, "tcp") {
                    match parse_socket_addr_str(s, i + 3, n, 6667) {
                        Ok(sa) => Ok(DBusAddr::Addr(sa)),
                        Err(_) => Err("Invalid socket address".to_owned()),
                    }
                } else if i == 0 {
                    if region_eq(s, i + 3, n, "system") {
                        Ok(DBusAddr::System)
                    } else if region_eq(s, i + 3, n, "session") || region_eq(s, i + 3, n, "user") {
                        Ok(DBusAddr::Session)
                    } else {
                        match parse_socket_addr_str(s, i + 3, n, 6667) {
                            Ok(sa) => Ok(DBusAddr::Addr(sa)),
                            Err(_) => Err("Invalid socket address".to_owned()),
                        }
                    }
                } else {
                    let mut m = "Unknown DBus protocol: ".to_owned();
                    let proto = region_to_string(s, 0, i);
                    m.append(proto.as_str());
                    Err(m)
                }
            },
        }
    }
}

impl Addr {
    /// Parse a unified address URI.  Returns `Ok` exactly on the
    /// grammar `addr_v`; the error carries a rendered message.
    pub fn parse_uri(s: &str) -> (r: Result<Addr, String>)
        ensures
            match r {
                Ok(v) => addr_v(s@) == Ok::<AddrV, UriError>(v@),
                Err(_) => addr_v(s@) is Err,
            },
    {
        let n = s.unicode_len();
        match find_sep_in(s) {
            None => {
                let mut m = "Invalid binding URI: ".to_owned();
                m.append(s);
                Err(m)
            },
            Some(i) => {
                proof {
                    lemma_find_sep(s@);
                    assert(s@.take(i as int) =~= s@.subrange(0, i as int));
                }
                let ghost proto = s@.take(i as int);
                let plus = find_char_in(s, 0, i, '+');
                let (is_http, is_dbus, off) = match plus {
                    Some(j) => {
                        proof {
                            lemma_find_char(proto, '+');
                            assert(j < i);
                            assert(proto.take(j as int) =~= s@.subrange(0, j as int));
                        }
                        (region_eq(s, 0, j, "http"), region_eq(s, 0, j, "dbus"), j + 1)
                    },
                    None => {
                        proof {
                            assert(proto.take(i as int) =~= s@.subrange(0, i as int));
                        }
                        (region_eq(s, 0, i, "http"), region_eq(s, 0, i, "dbus"), i)
                    },
                };
                let rest = s.substring_char(off, n);
                proof {
                    assert(rest@ =~= match find_char(proto, '+') {
                        Some(j) => s@.skip(j + 1),
                        None => s@.skip(i as int),
                    });
                }
                if is_http {
                    match HttpAddr::parse_uri(rest) {
                        Ok(h) => Ok(Addr::Http(h)),
                        Err(e) => Err(e),
                    }
                } else if is_dbus {
                    match DBusAddr::parse_uri(rest) {
                        Ok(d) => Ok(Addr::DBus(d)),
                        Err(e) => Err(e),
                    }
                } else {
                    let mut m = "Unknown protocol: ".to_owned();
                    let proto_s = region_to_string(s, 0, i);
                    m.append(proto_s.as_str());
                    Err(m)
                }
            },
        }
    }
}

impl BindAddr {
    /// Parse a unified bind-address URI.  Returns `Ok` exactly on the
    /// grammar `bind_addr_v`; the error carries a rendered message.
    pub fn parse_uri(s: &str) -> (r: Result<BindAddr, String>)
        ensures
            match r {
                Ok(v) => bind_addr_v(s@) == Ok::<BindAddrV, UriError>(v@),
                Err(_) => bind_addr_v(s@) is Err,
            },
    {
        match Addr::parse_uri(s) {
            Ok(Addr::Http(h)) => Ok(BindAddr::Http(HttpBindAddr { addr: h, tls: None })),
            Ok(Addr::DBus(d)) => Ok(BindAddr::DBus(d)),
            Err(e) => Err(e),
        }
    }
}

impl core::str::FromStr for HttpAddr {
    type Err = String;

    fn from_str(s: &str) -> Result<HttpAddr, String> {
        HttpAddr::parse_uri(s)
    }
}

impl core::str::FromStr for DBusAddr {
    type Err = String;

    fn from_str(s: &str) -> Result<DBusAddr, String> {
        DBusAddr::parse_uri(s)
    }
}

impl core::str::FromStr for Addr {
    type Err = String;

    fn from_str(s: &str) -> Result<Addr, String> {
        Addr::parse_uri(s)
    }
}

impl core::str::FromStr for BindAddr {
    type Err = String;

    fn from_str(s: &str) -> Result<BindAddr, String> {
        BindAddr::parse_uri(s)
    }
}

impl Default for HttpAddr {
    /// The default HTTP binding: TCP on 127.0.0.1, port 8080.
    fn default() -> (r: HttpAddr)
        ensures
            r@ == HttpAddrV::Addr(
                SocketAddr { ip: IpAddr::V4(127, 0, 0, 1), port: 8080 },
            ),
    {
        HttpAddr::Addr(SocketAddr { ip: IpAddr::V4(127, 0, 0, 1), port: 8080 })
    }
}

impl Default for HttpTlsOpts {
    /// The default TLS options: the stock key and certificate paths,
    /// no client authentication.
    fn default() -> (r: HttpTlsOpts)
        ensures
            r@.key == "/etc/ukvm/key.pem"@,
            r@.cert == "/etc/ukvm/cert.pem"@,
            r@.auth is None,
    {
        HttpTlsOpts {
            key: "/etc/ukvm/key.pem".to_owned(),
            cert: "/etc/ukvm/cert.pem".to_owned(),
            auth: None,
        }
    }
}

impl Default for HttpBindAddr {
    /// The default HTTP options: the default binding, no TLS.
    fn default() -> (r: HttpBindAddr)
        ensures
            r@.addr == HttpAddrV::Addr(
                SocketAddr { ip: IpAddr::V4(127, 0, 0, 1), port: 8080 },
            ),
            r@.tls is None,
    {
        HttpBindAddr { addr: HttpAddr::default(), tls: None }
    }
}

/// The core `socket_addr_parse` helper: split the resource at the
/// first colon, parse port then host, defaulting the port.
pub fn socket_addr_parse(bind: &str, default_port: u16) -> (r: Result<SocketAddr, String>)
    ensures
        match r {
            Ok(sa) => parse_socket_addr(bind@, default_port) == Ok::<SocketAddr, AddrError>(sa),
            Err(_) => parse_socket_addr(bind@, default_port) is Err,
        },
{
    let n = bind.unicode_len();
    proof {
        assert(bind@.subrange(0, n as int) =~= bind@);
    }
    match parse_socket_addr_str(bind, 0, n, default_port) {
        Ok(sa) => Ok(sa),
        Err(AddrError::Ip) => Err("invalid IP address syntax".to_owned()),
        Err(AddrError::Port) => Err("invalid port number".to_owned()),
    }
}

} // verus!
