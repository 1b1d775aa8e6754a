use ukvm::dbus::{button_path, control_bus_name, led_path, node_names, tcp_address, unix_address};
use ukvm::ids::{ButtonId, LedId};
use ukvm::net::{IpAddr, SocketAddr};
use ukvm::Error;

#[test]
fn object_paths() {
    assert_eq!(button_path(ButtonId::Power), "/org/ukvm/button/power");
    assert_eq!(button_path(ButtonId::Clear), "/org/ukvm/button/clear");
    assert_eq!(led_path(LedId::Ether), "/org/ukvm/led/ether");
    assert_eq!(control_bus_name(), "org.ukvm.Control");
}

#[test]
fn bus_addresses() {
    assert_eq!(
        tcp_address(&SocketAddr {
            ip: IpAddr::V4(192, 168, 1, 10),
            port: 6667,
        }),
        "tcp:host=192.168.1.10,port=6667,family=ipv4"
    );
    assert_eq!(unix_address("/run/bus"), "unix:path=/run/bus");
}

#[test]
fn error_names() {
    assert_eq!(
        Error::Io("gone".into()).dbus_error_name(),
        "org.freedesktop.DBus.Error.IOError"
    );
    assert_eq!(
        Error::Other("x".into()).dbus_error_name(),
        "org.freedesktop.DBus.Error.Failed"
    );
    assert_eq!(Error::Json("x".into()).label(), "JSON error");
    assert_eq!(Error::Toml("x".into()).message(), "x");
}

#[test]
fn introspection_discovery() {
    let xml = "<node>\
               <node name=\"power\"/>\
               <node name=\"disk\"/>\
               </node>";
    let names = node_names(xml);
    assert_eq!(names, vec!["power".to_string(), "disk".to_string()]);
    let ids: Vec<LedId> = names.iter().filter_map(|n| LedId::from_name(n)).collect();
    assert_eq!(ids, vec![LedId::Power, LedId::Disk]);
}

#[test]
fn id_names_round_trip() {
    for id in [ButtonId::Power, ButtonId::Reset, ButtonId::Clear] {
        assert_eq!(ButtonId::from_name(id.name()), Some(id));
    }
    for id in [LedId::Power, LedId::Disk, LedId::Ether] {
        assert_eq!(LedId::from_name(id.name()), Some(id));
    }
    assert_eq!(ButtonId::from_name("zzz"), None);
    assert_eq!(LedId::from_name(""), None);
}

#[test]
fn client_plan() {
    let args = ukvm::ButtonArgs {
        press: false,
        release: false,
        delay: ukvm::ButtonArgs::default_delay(),
        button: "power".into(),
    };
    assert_eq!(args.plan(), (true, true));
    let args = ukvm::ButtonArgs {
        press: true,
        release: false,
        delay: 100,
        button: "power".into(),
    };
    assert_eq!(args.plan(), (true, false));
    let args = ukvm::ButtonArgs {
        press: false,
        release: true,
        delay: 100,
        button: "power".into(),
    };
    assert_eq!(args.plan(), (false, true));
}
