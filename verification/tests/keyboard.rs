use ratty::keyboard::{
    ctrl_character_byte, ctrl_keycode_byte, encode_logical_keys, handle_keyboard_input,
    translate_key, ButtonState, Key, KeyCode, KeyboardInput, TerminalKeyboard,
};

fn press(key_code: KeyCode, logical_key: Key, text: Option<&str>) -> KeyboardInput {
    KeyboardInput {
        key_code,
        logical_key,
        text: text.map(|t| t.to_string()),
        state: ButtonState::Pressed,
    }
}

fn release(key_code: KeyCode) -> KeyboardInput {
    KeyboardInput { key_code, logical_key: Key::Other, text: None, state: ButtonState::Released }
}

#[test]
fn ctrl_letters_are_control_characters() {
    assert_eq!(ctrl_keycode_byte(KeyCode::KeyA), Some(0x01));
    assert_eq!(ctrl_keycode_byte(KeyCode::KeyC), Some(0x03));
    assert_eq!(ctrl_keycode_byte(KeyCode::KeyZ), Some(0x1a));
    assert_eq!(ctrl_keycode_byte(KeyCode::Enter), None);
}

#[test]
fn named_keys_send_their_sequences() {
    let t = |k| translate_key(k, &Key::Other, None, false, false);
    assert_eq!(t(KeyCode::Enter), b"\r".to_vec());
    assert_eq!(t(KeyCode::NumpadEnter), b"\r".to_vec());
    assert_eq!(t(KeyCode::Tab), b"\t".to_vec());
    assert_eq!(t(KeyCode::Space), b" ".to_vec());
    assert_eq!(t(KeyCode::Backspace), vec![0x7f]);
    assert_eq!(t(KeyCode::Escape), vec![0x1b]);
    assert_eq!(t(KeyCode::ArrowUp), b"\x1b[A".to_vec());
    assert_eq!(t(KeyCode::ArrowDown), b"\x1b[B".to_vec());
    assert_eq!(t(KeyCode::ArrowRight), b"\x1b[C".to_vec());
    assert_eq!(t(KeyCode::ArrowLeft), b"\x1b[D".to_vec());
    assert_eq!(t(KeyCode::Delete), b"\x1b[3~".to_vec());
    assert_eq!(t(KeyCode::Home), b"\x1b[H".to_vec());
    assert_eq!(t(KeyCode::End), b"\x1b[F".to_vec());
    assert_eq!(t(KeyCode::PageUp), b"\x1b[5~".to_vec());
    assert_eq!(t(KeyCode::PageDown), b"\x1b[6~".to_vec());
}

#[test]
fn other_keys_send_their_text() {
    let key = Key::Character("q".to_string());
    assert_eq!(translate_key(KeyCode::Other, &key, Some("é"), false, false), "é".as_bytes().to_vec());
    assert_eq!(translate_key(KeyCode::Other, &key, None, false, false), b"q".to_vec());
    assert_eq!(translate_key(KeyCode::Other, &Key::Other, None, false, false), Vec::<u8>::new());
    assert_eq!(translate_key(KeyCode::KeyQ, &key, Some("q"), false, false), b"q".to_vec());
}

#[test]
fn ctrl_and_alt() {
    let key = Key::Character("c".to_string());
    assert_eq!(translate_key(KeyCode::KeyC, &key, Some("c"), true, false), vec![0x03]);
    assert_eq!(translate_key(KeyCode::KeyC, &key, Some("c"), true, true), vec![0x1b, 0x03]);
    assert_eq!(translate_key(KeyCode::KeyC, &key, Some("c"), false, true), vec![0x1b, b'c']);
    assert_eq!(translate_key(KeyCode::Enter, &Key::Enter, None, true, false), b"\r".to_vec());
    assert_eq!(translate_key(KeyCode::ArrowUp, &Key::ArrowUp, None, false, true), b"\x1b\x1b[A".to_vec());
}

#[test]
fn alt_prefixes_with_esc() {
    let key = Key::Character("x".to_string());
    for (code, text) in [(KeyCode::KeyX, Some("x")), (KeyCode::Home, None), (KeyCode::Other, None)] {
        for ctrl in [false, true] {
            let plain = translate_key(code, &key, text, ctrl, false);
            let mut with_alt = vec![0x1b];
            with_alt.extend_from_slice(&plain);
            assert_eq!(translate_key(code, &key, text, ctrl, true), with_alt);
        }
    }
}

#[test]
fn keyboard_follows_modifiers() {
    let mut keyboard = TerminalKeyboard::default();
    let key = Key::Character("d".to_string());
    assert_eq!(keyboard.handle_event(&press(KeyCode::ControlLeft, Key::Other, None)), None);
    assert_eq!(keyboard.handle_event(&press(KeyCode::KeyD, key.clone(), Some("d"))), Some(vec![0x04]));
    assert_eq!(keyboard.handle_event(&release(KeyCode::KeyD)), None);
    assert_eq!(keyboard.handle_event(&release(KeyCode::ControlLeft)), None);
    assert_eq!(keyboard.handle_event(&press(KeyCode::KeyD, key.clone(), Some("d"))), Some(b"d".to_vec()));
    assert_eq!(keyboard.handle_event(&press(KeyCode::AltRight, Key::Other, None)), None);
    assert_eq!(keyboard.handle_event(&press(KeyCode::KeyD, key, Some("d"))), Some(vec![0x1b, b'd']));
}

#[test]
fn batch_of_events_gives_writes_in_order() {
    let mut keyboard = TerminalKeyboard::default();
    let events = vec![
        press(KeyCode::KeyL, Key::Character("l".to_string()), Some("l")),
        release(KeyCode::KeyL),
        press(KeyCode::ControlRight, Key::Other, None),
        press(KeyCode::KeyL, Key::Character("l".to_string()), Some("l")),
        release(KeyCode::ControlRight),
        press(KeyCode::Enter, Key::Enter, None),
    ];
    let writes = handle_keyboard_input(&mut keyboard, &events);
    assert_eq!(writes, vec![b"l".to_vec(), vec![0x0c], b"\r".to_vec()]);
}

#[test]
fn ctrl_character_of_typed_text() {
    assert_eq!(ctrl_character_byte("a"), Some(1));
    assert_eq!(ctrl_character_byte("A"), Some(1));
    assert_eq!(ctrl_character_byte("z"), Some(26));
    assert_eq!(ctrl_character_byte("Zq"), Some(26));
    assert_eq!(ctrl_character_byte("1"), None);
    assert_eq!(ctrl_character_byte("é"), None);
    assert_eq!(ctrl_character_byte(""), None);
}

#[test]
fn logical_keys_encoding() {
    let events = vec![
        press(KeyCode::Other, Key::Character("hé".to_string()), None),
        release(KeyCode::Other),
        press(KeyCode::Other, Key::Tab, None),
        press(KeyCode::Other, Key::PageDown, None),
        press(KeyCode::Other, Key::Other, None),
        press(KeyCode::Other, Key::Escape, None),
    ];
    let mut expected = "hé".as_bytes().to_vec();
    expected.extend_from_slice(b"\t\x1b[6~\x1b");
    assert_eq!(encode_logical_keys(&events, false), expected);
    let ctrl_events = vec![
        press(KeyCode::Other, Key::Character("c".to_string()), None),
        press(KeyCode::Other, Key::Character("7".to_string()), None),
        press(KeyCode::Other, Key::Backspace, None),
    ];
    assert_eq!(encode_logical_keys(&ctrl_events, true), vec![0x03, 0x7f]);
}
