use ukvm::net::{AddrError, IpAddr, SocketAddr};
use ukvm::{Addr, Bind, BindAddr, DBusAddr, Error, HttpAddr, HttpBindAddr, HttpTlsOpts};

#[test]
fn dbus_addr_from_str() {
    assert_eq!(
        "dbus://system".parse::<Addr>(),
        Ok(Addr::DBus(DBusAddr::System))
    );
    assert_eq!(
        "dbus://session".parse::<Addr>(),
        Ok(Addr::DBus(DBusAddr::Session))
    );
    assert_eq!(
        "dbus://user".parse::<Addr>(),
        Ok(Addr::DBus(DBusAddr::Session))
    );
    assert_eq!(
        "dbus://192.168.1.10:1818".parse::<Addr>(),
        Ok(Addr::DBus(DBusAddr::Addr(SocketAddr {
            ip: IpAddr::V4(192, 168, 1, 10),
            port: 1818,
        })))
    );
    assert_eq!(
        "dbus+unix:///run/bus".parse::<Addr>(),
        Ok(Addr::DBus(DBusAddr::Path("/run/bus".into())))
    );
}

#[test]
fn http_addr_from_str() {
    assert_eq!(
        "http://192.168.1.10:1818".parse::<Addr>(),
        Ok(Addr::Http(HttpAddr::Addr(SocketAddr {
            ip: IpAddr::V4(192, 168, 1, 10),
            port: 1818,
        })))
    );
    assert_eq!(
        "http+unix:///run/sock".parse::<Addr>(),
        Ok(Addr::Http(HttpAddr::Path("/run/sock".into())))
    );

    assert_eq!(
        "http://192.168.1.10:1818".parse::<BindAddr>(),
        Ok(BindAddr::Http(HttpBindAddr {
            addr: HttpAddr::Addr(SocketAddr {
                ip: IpAddr::V4(192, 168, 1, 10),
                port: 1818,
            }),
            ..Default::default()
        }))
    );
    assert_eq!(
        "http+unix:///run/sock".parse::<BindAddr>(),
        Ok(BindAddr::Http(HttpBindAddr {
            addr: HttpAddr::Path("/run/sock".into()),
            ..Default::default()
        }))
    );
}

#[test]
fn http_addr_default_port() {
    assert_eq!(
        "http://127.0.0.1".parse::<Addr>(),
        Ok(Addr::Http(HttpAddr::Addr(SocketAddr {
            ip: IpAddr::V4(127, 0, 0, 1),
            port: 8080,
        })))
    );
}

#[test]
fn dbus_tcp_default_port() {
    assert_eq!(
        "dbus+tcp://10.0.0.7".parse::<Bind>(),
        Ok(Bind::DBus(DBusAddr::Addr(SocketAddr {
            ip: IpAddr::V4(10, 0, 0, 7),
            port: 6667,
        })))
    );
}

#[test]
fn bind_uri_round_trips() {
    for uri in [
        "http://192.168.1.10:8080",
        "http+unix:///s",
        "dbus://system",
        "dbus://session",
        "dbus+tcp://10.1.2.3:6667",
        "dbus+unix:///b",
    ] {
        let bind: Bind = uri.parse().unwrap();
        assert_eq!(bind.to_uri(), uri);
        assert_eq!(bind.to_uri().parse::<Bind>().unwrap(), bind);
    }
}

#[test]
fn bind_user_is_session_alias() {
    let bind: Bind = "dbus://user".parse().unwrap();
    assert_eq!(bind, Bind::DBus(DBusAddr::Session));
    assert_eq!(bind.to_uri(), "dbus://session");
}

#[test]
fn bind_parse_errors() {
    assert!(matches!(
        "nonsense".parse::<Bind>(),
        Err(Error::Other(_))
    ));
    assert!(matches!(
        "ftp://1.2.3.4".parse::<Bind>(),
        Err(Error::Other(_))
    ));
    assert!(matches!(
        "dbus://machine".parse::<Bind>(),
        Err(Error::Other(_))
    ));
    assert!(matches!(
        "http://1.2.3.4:notaport".parse::<Bind>(),
        Err(Error::Int(_))
    ));
    assert!(matches!(
        "http://512.0.0.1:80".parse::<Bind>(),
        Err(Error::Addr(_))
    ));
    assert!(matches!(
        "http://01.2.3.4".parse::<Bind>(),
        Err(Error::Addr(_))
    ));
}

#[test]
fn socket_addr_parse_behaviour() {
    assert_eq!(
        ukvm::addr::socket_addr_parse("1.2.3.4:80", 9999),
        Ok(SocketAddr {
            ip: IpAddr::V4(1, 2, 3, 4),
            port: 80,
        })
    );
    assert_eq!(
        ukvm::addr::socket_addr_parse("1.2.3.4", 9999),
        Ok(SocketAddr {
            ip: IpAddr::V4(1, 2, 3, 4),
            port: 9999,
        })
    );
    assert_eq!(
        ukvm::addr::socket_addr_parse("1.2.3.4:+80", 9999),
        Ok(SocketAddr {
            ip: IpAddr::V4(1, 2, 3, 4),
            port: 80,
        })
    );
    assert!(ukvm::addr::socket_addr_parse("1.2.3:80", 0).is_err());
    assert!(ukvm::addr::socket_addr_parse("1.2.3.4:65536", 0).is_err());
    assert!(ukvm::addr::socket_addr_parse("", 0).is_err());
}

#[test]
fn socket_addr_text_round_trip() {
    let sa = SocketAddr {
        ip: IpAddr::V4(10, 0, 0, 1),
        port: 8080,
    };
    assert_eq!(sa.text(), "10.0.0.1:8080");
    assert_eq!(ukvm::net::parse_socket_addr_str(&sa.text(), 0, 13, 1), Ok(sa));
    assert_eq!(AddrError::Ip, AddrError::Ip);
}

#[test]
fn tls_defaults() {
    let tls = HttpTlsOpts::default();
    assert_eq!(tls.key, "/etc/ukvm/key.pem");
    assert_eq!(tls.cert, "/etc/ukvm/cert.pem");
    assert_eq!(tls.auth, None);
    let bind = HttpBindAddr::default();
    assert_eq!(
        bind.addr,
        HttpAddr::Addr(SocketAddr {
            ip: IpAddr::V4(127, 0, 0, 1),
            port: 8080,
        })
    );
    assert_eq!(bind.tls, None);
}
