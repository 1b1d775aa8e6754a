use ukvm::buttons::{Active, Bias, Button, ButtonConfig, Drive};
use ukvm::hid::{diff_keys, diff_leds, diff_mouse, Key, KeyboardState, Led, MouseState, MouseStateChange};
use ukvm::leds::Edge;
use ukvm::video::{frame_publishable, video_step, VideoAction};
use ukvm::{
    ButtonId, DeviceAction, Error, GracefulShutdown, HidConfig, LedId, Server, ServerConfig,
    SocketInput, SocketOutput,
};

fn sample_config() -> ServerConfig {
    ServerConfig {
        binds: vec![],
        buttons: vec![(
            ButtonId::Power,
            ButtonConfig {
                chip: "gpiochip0".into(),
                line: 17,
                active: Active::High,
                bias: Bias::Disable,
                drive: Drive::PushPull,
            },
        )],
        leds: vec![(
            LedId::Power,
            ukvm::leds::LedConfig {
                chip: "gpiochip0".into(),
                line: 24,
                active: Active::High,
                bias: Bias::Disable,
            },
        )],
        hid: None,
        video: None,
    }
}

#[test]
fn snapshot_on_connect() {
    let config = sample_config();
    let server = Server::new(&config, &vec![(LedId::Power, true)]);
    let snapshot = server.create_socket_state();
    assert_eq!(
        snapshot,
        SocketOutput::State {
            leds: vec![(LedId::Power, true)],
            buttons: vec![(ButtonId::Power, false)],
            keyboard: None,
            mouse: None,
        }
    );
}

#[test]
fn snapshot_is_first_message() {
    let config = sample_config();
    let server = Server::new(&config, &vec![(LedId::Power, true)]);
    let deltas = vec![
        SocketOutput::Button {
            button: ButtonId::Power,
            state: true,
        },
        SocketOutput::Led {
            led: LedId::Power,
            state: false,
        },
    ];
    let stream = server.session_messages(deltas.clone());
    assert_eq!(stream.len(), 3);
    assert!(matches!(stream[0], SocketOutput::State { .. }));
    assert_eq!(stream[1], deltas[0]);
    assert_eq!(stream[2], deltas[1]);
}

#[test]
fn button_echo() {
    let config = sample_config();
    let mut server = Server::new(&config, &vec![(LedId::Power, false)]);
    let action = server
        .process_socket_input(&SocketInput::Button {
            button: ButtonId::Power,
            state: true,
        })
        .unwrap();
    assert_eq!(
        action,
        DeviceAction::ButtonLine {
            button: ButtonId::Power,
            state: true,
            write: true,
        }
    );
    let snapshot = server.create_socket_state();
    assert_eq!(
        snapshot,
        SocketOutput::State {
            leds: vec![(LedId::Power, false)],
            buttons: vec![(ButtonId::Power, true)],
            keyboard: None,
            mouse: None,
        }
    );
}

#[test]
fn unknown_button_is_rejected() {
    let config = sample_config();
    let mut server = Server::new(&config, &vec![(LedId::Power, false)]);
    let r = server.process_socket_input(&SocketInput::Button {
        button: ButtonId::Reset,
        state: true,
    });
    assert!(matches!(r, Err(Error::Other(_))));
    let r = server.process_socket_input(&SocketInput::MouseWheel { wheel: 1 });
    assert!(matches!(r, Err(Error::Other(_))));
}

#[test]
fn hid_requests_update_images() {
    let config = ServerConfig {
        hid: Some(HidConfig {
            keyboard: Some("/dev/hidg0".into()),
            mouse: Some("/dev/hidg1".into()),
        }),
        ..sample_config()
    };
    let mut server = Server::new(&config, &vec![(LedId::Power, false)]);
    let action = server
        .process_socket_input(&SocketInput::KeyboardKey {
            key: Key { code: 4 },
            state: true,
        })
        .unwrap();
    match action {
        DeviceAction::KeyboardReport { state } => {
            assert_eq!(state.keys, vec![Key { code: 4 }]);
        }
        other => panic!("unexpected action {:?}", other),
    }
    let action = server
        .process_socket_input(&SocketInput::MousePointer { x: 5, y: -6 })
        .unwrap();
    match action {
        DeviceAction::MouseReport { state } => {
            assert_eq!(state.x, 5);
            assert_eq!(state.y, -6);
        }
        other => panic!("unexpected action {:?}", other),
    }
}

#[test]
fn set_state_elides_repeated_writes() {
    let mut button = Button::new();
    assert!(button.set_state(true));
    assert!(!button.set_state(true));
    assert!(!button.set_state(true));
    assert!(button.state());
    assert!(button.set_state(false));
    assert!(!button.set_state(false));
    assert!(!button.state());
}

#[test]
fn led_edges() {
    let mut led = ukvm::leds::Led::new(false);
    assert!(!led.state());
    assert!(led.apply_edge(Edge::Rising));
    assert!(led.state());
    assert!(!led.apply_edge(Edge::Falling));
    assert!(!led.state());
}

#[test]
fn video_policy_table() {
    assert_eq!(video_step(false, 1), VideoAction::Sleep);
    assert_eq!(video_step(false, 0), VideoAction::Sleep);
    assert_eq!(video_step(false, 2), VideoAction::Start);
    assert_eq!(video_step(true, 1), VideoAction::Stop);
    assert_eq!(video_step(true, 2), VideoAction::Read);
    assert!(!frame_publishable(4));
    assert!(frame_publishable(5));
}

#[test]
fn shutdown_counts() {
    let mut gs = GracefulShutdown::new();
    gs.register();
    gs.register();
    let permits = gs.announce();
    assert_eq!(permits, 2);
    assert!(!gs.complete());
    gs.acknowledge();
    assert!(!gs.complete());
    gs.acknowledge();
    assert!(gs.complete());
}

#[test]
fn key_diff_is_symmetric_difference() {
    let prev = KeyboardState {
        keys: vec![Key { code: 4 }, Key { code: 5 }],
        leds: vec![],
    };
    let next = KeyboardState {
        keys: vec![Key { code: 5 }, Key { code: 30 }],
        leds: vec![],
    };
    let mut changes = diff_keys(&prev, &next);
    changes.sort_by_key(|c| c.key.code);
    assert_eq!(changes.len(), 2);
    assert_eq!(changes[0].key, Key { code: 4 });
    assert!(!changes[0].state);
    assert_eq!(changes[1].key, Key { code: 30 });
    assert!(changes[1].state);
}

#[test]
fn led_diff() {
    let prev = KeyboardState {
        keys: vec![],
        leds: vec![Led { code: 1 }],
    };
    let next = KeyboardState {
        keys: vec![],
        leds: vec![Led { code: 2 }],
    };
    let mut changes = diff_leds(&prev, &next);
    changes.sort_by_key(|c| c.led.code);
    assert_eq!(changes.len(), 2);
    assert_eq!(changes[0].led, Led { code: 1 });
    assert!(!changes[0].state);
    assert_eq!(changes[1].led, Led { code: 2 });
    assert!(changes[1].state);
}

#[test]
fn mouse_diff() {
    let prev = MouseState {
        buttons: vec![],
        x: 0,
        y: 0,
        wheel: 0,
    };
    let next = MouseState {
        buttons: vec![ukvm::hid::Button { code: 1 }],
        x: 3,
        y: 4,
        wheel: 0,
    };
    let changes = diff_mouse(&prev, &next);
    assert_eq!(changes.len(), 2);
    assert!(changes.iter().any(|c| matches!(
        c,
        MouseStateChange::Button(bc) if bc.button.code == 1 && bc.state
    )));
    assert!(changes
        .iter()
        .any(|c| matches!(c, MouseStateChange::Pointer(3, 4))));
    assert!(!changes.iter().any(|c| matches!(c, MouseStateChange::Wheel(_))));
}

#[test]
fn unchanged_reports_diff_to_nothing() {
    let report = KeyboardState {
        keys: vec![Key { code: 9 }],
        leds: vec![Led { code: 3 }],
    };
    assert!(diff_keys(&report, &report).is_empty());
    assert!(diff_leds(&report, &report).is_empty());
    let mouse = MouseState {
        buttons: vec![],
        x: 1,
        y: 2,
        wheel: 3,
    };
    assert!(diff_mouse(&mouse, &mouse).is_empty());
}
