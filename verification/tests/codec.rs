use ukvm::hid::{Button, Key, KeyboardState, Led, MouseState};
use ukvm::json::{decode_input, decode_output, encode_input, encode_output};
use ukvm::{ButtonId, Error, LedId, SocketInput, SocketOutput};

#[test]
fn input_round_trips() {
    let cases = vec![
        SocketInput::Button {
            button: ButtonId::Power,
            state: true,
        },
        SocketInput::Button {
            button: ButtonId::Reset,
            state: false,
        },
        SocketInput::KeyboardKey {
            key: Key { code: 30 },
            state: true,
        },
        SocketInput::KeyboardKey {
            key: Key { code: 0 },
            state: false,
        },
        SocketInput::MouseButton {
            button: Button { code: 1 },
            state: true,
        },
        SocketInput::MousePointer { x: -3, y: 4 },
        SocketInput::MousePointer {
            x: i16::MIN,
            y: i16::MAX,
        },
        SocketInput::MouseWheel { wheel: -1 },
        SocketInput::MouseWheel { wheel: i8::MIN },
    ];
    for msg in cases {
        let text = encode_input(&msg);
        assert_eq!(decode_input(&text).unwrap(), msg);
    }
}

#[test]
fn input_wire_format() {
    assert_eq!(
        encode_input(&SocketInput::Button {
            button: ButtonId::Power,
            state: true,
        }),
        "{\"$\":\"b\",\"b\":\"power\",\"s\":true}"
    );
    assert_eq!(
        decode_input("{\"$\":\"b\",\"b\":\"power\",\"s\":true}").unwrap(),
        SocketInput::Button {
            button: ButtonId::Power,
            state: true,
        }
    );
    assert_eq!(
        encode_input(&SocketInput::KeyboardKey {
            key: Key { code: 30 },
            state: false,
        }),
        "{\"$\":\"k\",\"k\":30,\"s\":false}"
    );
    assert_eq!(
        encode_input(&SocketInput::MousePointer { x: -3, y: 4 }),
        "{\"$\":\"p\",\"x\":-3,\"y\":4}"
    );
    assert_eq!(
        encode_input(&SocketInput::MouseWheel { wheel: -1 }),
        "{\"$\":\"w\",\"w\":-1}"
    );
}

#[test]
fn input_decode_errors() {
    assert!(matches!(decode_input("garbage"), Err(Error::Json(_))));
    assert!(matches!(
        decode_input("{\"$\":\"b\",\"b\":\"zzz\",\"s\":true}"),
        Err(Error::Json(_))
    ));
    assert!(matches!(
        decode_input("{\"$\":\"k\",\"k\":500,\"s\":true}"),
        Err(Error::Json(_))
    ));
    assert!(matches!(
        decode_input("{\"$\":\"m\",\"b\":9,\"s\":true}"),
        Err(Error::Json(_))
    ));
}

#[test]
fn output_round_trips() {
    let cases = vec![
        SocketOutput::Led {
            led: LedId::Disk,
            state: true,
        },
        SocketOutput::Button {
            button: ButtonId::Clear,
            state: false,
        },
        SocketOutput::KeyboardKey {
            key: Key { code: 4 },
            state: true,
        },
        SocketOutput::KeyboardLed {
            led: Led { code: 2 },
            state: false,
        },
        SocketOutput::MouseButton {
            button: Button { code: 0 },
            state: true,
        },
        SocketOutput::MousePointer { x: 100, y: -200 },
        SocketOutput::MouseWheel { wheel: 5 },
        SocketOutput::VideoFrame {
            frame: vec![255, 216, 255, 224, 0],
        },
        SocketOutput::VideoFrame { frame: vec![] },
    ];
    for msg in cases {
        let text = encode_output(&msg);
        assert_eq!(decode_output(&text).unwrap(), msg);
    }
}

#[test]
fn state_round_trips() {
    let full = SocketOutput::State {
        leds: vec![(LedId::Power, true), (LedId::Disk, false)],
        buttons: vec![(ButtonId::Power, false), (ButtonId::Reset, true)],
        keyboard: Some(KeyboardState {
            keys: vec![Key { code: 4 }, Key { code: 30 }],
            leds: vec![Led { code: 1 }],
        }),
        mouse: Some(MouseState {
            buttons: vec![Button { code: 1 }],
            x: -7,
            y: 9,
            wheel: -2,
        }),
    };
    let text = encode_output(&full);
    assert_eq!(decode_output(&text).unwrap(), full);

    let bare = SocketOutput::State {
        leds: vec![],
        buttons: vec![],
        keyboard: None,
        mouse: None,
    };
    let text = encode_output(&bare);
    assert_eq!(decode_output(&text).unwrap(), bare);
}

#[test]
fn snapshot_wire_format() {
    let snapshot = SocketOutput::State {
        leds: vec![(LedId::Power, true)],
        buttons: vec![(ButtonId::Power, false)],
        keyboard: None,
        mouse: None,
    };
    assert_eq!(
        encode_output(&snapshot),
        "{\"$\":\"s\",\"l\":{\"power\":true},\"b\":{\"power\":false},\"k\":null,\"m\":null}"
    );
}

#[test]
fn led_delta_wire_format() {
    assert_eq!(
        encode_output(&SocketOutput::Led {
            led: LedId::Power,
            state: true,
        }),
        "{\"$\":\"l\",\"l\":\"power\",\"s\":true}"
    );
}
