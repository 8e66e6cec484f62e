//! Encoding key presses as the bytes a terminal sends to the shell: control
//! characters for Ctrl with a letter, an ESC prefix for Alt, and the escape
//! sequences of the named keys.
use vstd::prelude::*;

use vstd::std_specs::iter::IteratorSpec;
use vstd::utf8::encode_utf8;

verus! {

/// The physical keys that the encoding tells apart; every other key is
/// `Other`.
#[derive(Clone, Copy, Debug, PartialEq, Eq, Structural)]
pub enum KeyCode {
    ControlLeft,
    ControlRight,
    AltLeft,
    AltRight,
    Enter,
    NumpadEnter,
    Tab,
    Space,
    Backspace,
    Escape,
    ArrowUp,
    ArrowDown,
    ArrowRight,
    ArrowLeft,
    Delete,
    Home,
    End,
    PageUp,
    PageDown,
    KeyA,
    KeyB,
    KeyC,
    KeyD,
    KeyE,
    KeyF,
    KeyG,
    KeyH,
    KeyI,
    KeyJ,
    KeyK,
    KeyL,
    KeyM,
    KeyN,
    KeyO,
    KeyP,
    KeyQ,
    KeyR,
    KeyS,
    KeyT,
    KeyU,
    KeyV,
    KeyW,
    KeyX,
    KeyY,
    KeyZ,
    Other,
}

/// The logical keys that the encoding tells apart: a key that types text,
/// the named keys, and every other key as `Other`.
#[derive(Clone, Debug, PartialEq, Eq)]
pub enum Key {
    Character(String),
    Enter,
    Tab,
    Backspace,
    ArrowUp,
    ArrowDown,
    ArrowRight,
    ArrowLeft,
    Delete,
    Home,
    End,
    PageUp,
    PageDown,
    Escape,
    Other,
}

/// Whether a key went down or up.
#[derive(Clone, Copy, Debug, PartialEq, Eq, Structural)]
pub enum ButtonState {
    Pressed,
    Released,
}

/// A key going down or up: the physical key, the logical key, the text it
/// types, if any, and its state.
#[derive(Clone, Debug)]
pub struct KeyboardInput {
    pub key_code: KeyCode,
    pub logical_key: Key,
    pub text: Option<String>,
    pub state: ButtonState,
}

/// The letter keys A to Z in order, as 1 to 26.
pub open spec fn letter_number(key: KeyCode) -> Option<u8> {
    match key {
        KeyCode::KeyA => Some(1u8),
        KeyCode::KeyB => Some(2u8),
        KeyCode::KeyC => Some(3u8),
        KeyCode::KeyD => Some(4u8),
        KeyCode::KeyE => Some(5u8),
        KeyCode::KeyF => Some(6u8),
        KeyCode::KeyG => Some(7u8),
        KeyCode::KeyH => Some(8u8),
        KeyCode::KeyI => Some(9u8),
        KeyCode::KeyJ => Some(10u8),
        KeyCode::KeyK => Some(11u8),
        KeyCode::KeyL => Some(12u8),
        KeyCode::KeyM => Some(13u8),
        KeyCode::KeyN => Some(14u8),
        KeyCode::KeyO => Some(15u8),
        KeyCode::KeyP => Some(16u8),
        KeyCode::KeyQ => Some(17u8),
        KeyCode::KeyR => Some(18u8),
        KeyCode::KeyS => Some(19u8),
        KeyCode::KeyT => Some(20u8),
        KeyCode::KeyU => Some(21u8),
        KeyCode::KeyV => Some(22u8),
        KeyCode::KeyW => Some(23u8),
        KeyCode::KeyX => Some(24u8),
        KeyCode::KeyY => Some(25u8),
        KeyCode::KeyZ => Some(26u8),
        _ => None,
    }
}

/// The control character of a letter key: Ctrl-A is 0x01, ..., Ctrl-Z is
/// 0x1a.
pub fn ctrl_keycode_byte(key: KeyCode) -> (b: Option<u8>)
    ensures
        b == letter_number(key),
{
    match key {
        KeyCode::KeyA => Some(0x01),
        KeyCode::KeyB => Some(0x02),
        KeyCode::KeyC => Some(0x03),
        KeyCode::KeyD => Some(0x04),
        KeyCode::KeyE => Some(0x05),
        KeyCode::KeyF => Some(0x06),
        KeyCode::KeyG => Some(0x07),
        KeyCode::KeyH => Some(0x08),
        KeyCode::KeyI => Some(0x09),
        KeyCode::KeyJ => Some(0x0a),
        KeyCode::KeyK => Some(0x0b),
        KeyCode::KeyL => Some(0x0c),
        KeyCode::KeyM => Some(0x0d),
        KeyCode::KeyN => Some(0x0e),
        KeyCode::KeyO => Some(0x0f),
        KeyCode::KeyP => Some(0x10),
        KeyCode::KeyQ => Some(0x11),
        KeyCode::KeyR => Some(0x12),
        KeyCode::KeyS => Some(0x13),
        KeyCode::KeyT => Some(0x14),
        KeyCode::KeyU => Some(0x15),
        KeyCode::KeyV => Some(0x16),
        KeyCode::KeyW => Some(0x17),
        KeyCode::KeyX => Some(0x18),
        KeyCode::KeyY => Some(0x19),
        KeyCode::KeyZ => Some(0x1a),
        _ => None,
    }
}

/// The bytes of the keys that send a fixed sequence: carriage return,
/// tab, space, DEL, ESC, and the xterm sequences of the cursor and editing
/// keys.
pub open spec fn named_key_bytes(key: KeyCode) -> Option<Seq<u8>> {
    match key {
        KeyCode::Enter | KeyCode::NumpadEnter => Some(seq![0x0du8]),
        KeyCode::Tab => Some(seq![0x09u8]),
        KeyCode::Space => Some(seq![0x20u8]),
        KeyCode::Backspace => Some(seq![0x7fu8]),
        KeyCode::Escape => Some(seq![0x1bu8]),
        KeyCode::ArrowUp => Some(seq![0x1bu8, 0x5b, 0x41]),
        KeyCode::ArrowDown => Some(seq![0x1bu8, 0x5b, 0x42]),
        KeyCode::ArrowRight => Some(seq![0x1bu8, 0x5b, 0x43]),
        KeyCode::ArrowLeft => Some(seq![0x1bu8, 0x5b, 0x44]),
        KeyCode::Delete => Some(seq![0x1bu8, 0x5b, 0x33, 0x7e]),
        KeyCode::Home => Some(seq![0x1bu8, 0x5b, 0x48]),
        KeyCode::End => Some(seq![0x1bu8, 0x5b, 0x46]),
        KeyCode::PageUp => Some(seq![0x1bu8, 0x5b, 0x35, 0x7e]),
        KeyCode::PageDown => Some(seq![0x1bu8, 0x5b, 0x36, 0x7e]),
        _ => None,
    }
}

/// The text a key types: the text of the event, else the characters of
/// its logical key, else nothing.
pub open spec fn typed_bytes(logical_key: Key, text: Option<Seq<char>>) -> Seq<u8> {
    match text {
        Some(t) => encode_utf8(t),
        None => match logical_key {
            Key::Character(chars) => encode_utf8(chars@),
            _ => Seq::empty(),
        },
    }
}

pub open spec fn esc_if(alt: bool) -> Seq<u8> {
    if alt {
        seq![0x1bu8]
    } else {
        Seq::empty()
    }
}

/// The bytes of a key press: with Ctrl, a letter sends its control
/// character; otherwise a named key sends its sequence and any other key
/// its text.  With Alt, the bytes follow an ESC.
pub open spec fn key_bytes(
    key_code: KeyCode,
    logical_key: Key,
    text: Option<Seq<char>>,
    ctrl: bool,
    alt: bool,
) -> Seq<u8> {
    if ctrl && letter_number(key_code) is Some {
        esc_if(alt).push(letter_number(key_code)->0)
    } else {
        esc_if(alt) + match named_key_bytes(key_code) {
            Some(s) => s,
            None => typed_bytes(logical_key, text),
        }
    }
}

pub open spec fn str_chars(text: Option<&str>) -> Option<Seq<char>> {
    match text {
        Some(t) => Some(t@),
        None => None,
    }
}

fn push_all(bytes: &mut Vec<u8>, more: &[u8])
    ensures
        final(bytes)@ == old(bytes)@ + more@,
{
    let ghost start = bytes@;
    let mut i: usize = 0;
    while i < more.len()
        invariant
            i <= more@.len(),
            bytes@ == start + more@.take(i as int),
        decreases more@.len() - i,
    {
        bytes.push(more[i]);
        assert(more@.take(i as int + 1) =~= more@.take(i as int).push(more@[i as int]));
        i += 1;
    }
    assert(more@.take(i as int) =~= more@);
}

/// The bytes that a key press sends to the shell.
pub fn translate_key(
    key_code: KeyCode,
    logical_key: &Key,
    text: Option<&str>,
    ctrl_pressed: bool,
    alt_pressed: bool,
) -> (bytes: Vec<u8>)
    ensures
        bytes@ == key_bytes(key_code, *logical_key, str_chars(text), ctrl_pressed, alt_pressed),
{
    let mut bytes: Vec<u8> = Vec::new();
    if ctrl_pressed {
        if let Some(ctrl) = ctrl_keycode_byte(key_code) {
            if alt_pressed {
                bytes.push(0x1b);
            }
            bytes.push(ctrl);
            assert(bytes@ =~= key_bytes(key_code, *logical_key, str_chars(text), ctrl_pressed, alt_pressed));
            return bytes;
        }
    }
    if alt_pressed {
        bytes.push(0x1b);
    }
    let ghost prefix = bytes@;
    assert(prefix =~= esc_if(alt_pressed));
    match key_code {
        KeyCode::Enter | KeyCode::NumpadEnter => bytes.push(0x0d),
        KeyCode::Tab => bytes.push(0x09),
        KeyCode::Space => bytes.push(0x20),
        KeyCode::Backspace => bytes.push(0x7f),
        KeyCode::Escape => bytes.push(0x1b),
        KeyCode::ArrowUp => push_all(&mut bytes, &[0x1b, 0x5b, 0x41]),
        KeyCode::ArrowDown => push_all(&mut bytes, &[0x1b, 0x5b, 0x42]),
        KeyCode::ArrowRight => push_all(&mut bytes, &[0x1b, 0x5b, 0x43]),
        KeyCode::ArrowLeft => push_all(&mut bytes, &[0x1b, 0x5b, 0x44]),
        KeyCode::Delete => push_all(&mut bytes, &[0x1b, 0x5b, 0x33, 0x7e]),
        KeyCode::Home => push_all(&mut bytes, &[0x1b, 0x5b, 0x48]),
        KeyCode::End => push_all(&mut bytes, &[0x1b, 0x5b, 0x46]),
        KeyCode::PageUp => push_all(&mut bytes, &[0x1b, 0x5b, 0x35, 0x7e]),
        KeyCode::PageDown => push_all(&mut bytes, &[0x1b, 0x5b, 0x36, 0x7e]),
        _ => {
            if let Some(text) = text {
                push_all(&mut bytes, text.as_bytes());
            } else if let Key::Character(chars) = logical_key {
                push_all(&mut bytes, chars.as_str().as_bytes());
            }
        },
    }
    assert(bytes@ =~= key_bytes(key_code, *logical_key, str_chars(text), ctrl_pressed, alt_pressed));
    bytes
}

/// Which modifier keys are held.
pub struct TerminalKeyboard {
    ctrl_pressed: bool,
    alt_pressed: bool,
}

/// The modifier state of a keyboard: Ctrl held, Alt held.
pub struct ModifierState {
    pub ctrl: bool,
    pub alt: bool,
}

pub open spec fn event_text(event: KeyboardInput) -> Option<Seq<char>> {
    match event.text {
        Some(t) => Some(t@),
        None => None,
    }
}

/// One event: a Ctrl or Alt key sets its modifier to whether it went down
/// and sends nothing; any other key sends its bytes when it goes down and
/// nothing when it goes up.
pub open spec fn keyboard_step(state: ModifierState, event: KeyboardInput) -> (ModifierState, Option<Seq<u8>>) {
    let pressed = event.state == ButtonState::Pressed;
    match event.key_code {
        KeyCode::ControlLeft | KeyCode::ControlRight => (ModifierState { ctrl: pressed, ..state }, None),
        KeyCode::AltLeft | KeyCode::AltRight => (ModifierState { alt: pressed, ..state }, None),
        _ => if !pressed {
            (state, None)
        } else {
            (
                state,
                Some(key_bytes(event.key_code, event.logical_key, event_text(event), state.ctrl, state.alt)),
            )
        },
    }
}

/// A run of events: the final modifier state and the byte strings sent, in
/// order.
pub open spec fn keyboard_run(state: ModifierState, events: Seq<KeyboardInput>) -> (ModifierState, Seq<Seq<u8>>)
    decreases events.len(),
{
    if events.len() == 0 {
        (state, Seq::empty())
    } else {
        let (before, sent) = keyboard_run(state, events.drop_last());
        let (after, out) = keyboard_step(before, events.last());
        (after, match out {
            Some(bytes) => sent.push(bytes),
            None => sent,
        })
    }
}

impl View for TerminalKeyboard {
    type V = ModifierState;

    closed spec fn view(&self) -> ModifierState {
        ModifierState { ctrl: self.ctrl_pressed, alt: self.alt_pressed }
    }
}

impl Default for TerminalKeyboard {
    /// No modifier held.
    fn default() -> (k: TerminalKeyboard)
        ensures
            k@ == (ModifierState { ctrl: false, alt: false }),
    {
        TerminalKeyboard { ctrl_pressed: false, alt_pressed: false }
    }
}

impl TerminalKeyboard {
    /// Follows the Ctrl and Alt keys and returns the bytes that a key press
    /// sends, if any.
    pub fn handle_event(&mut self, event: &KeyboardInput) -> (bytes: Option<Vec<u8>>)
        ensures
            final(self)@ == keyboard_step(old(self)@, *event).0,
            match keyboard_step(old(self)@, *event).1 {
                Some(b) => bytes is Some && bytes->0@ == b,
                None => bytes is None,
            },
    {
        match event.key_code {
            KeyCode::ControlLeft | KeyCode::ControlRight => {
                self.ctrl_pressed = event.state == ButtonState::Pressed;
                return None;
            },
            KeyCode::AltLeft | KeyCode::AltRight => {
                self.alt_pressed = event.state == ButtonState::Pressed;
                return None;
            },
            _ => {},
        }
        if event.state != ButtonState::Pressed {
            return None;
        }
        let text = match &event.text {
            Some(t) => Some(t.as_str()),
            None => None,
        };
        Some(translate_key(event.key_code, &event.logical_key, text, self.ctrl_pressed, self.alt_pressed))
    }
}

/// Runs the keyboard over a batch of events and returns the byte strings
/// to write to the shell, in order.
pub fn handle_keyboard_input(keyboard: &mut TerminalKeyboard, events: &Vec<KeyboardInput>) -> (writes: Vec<Vec<u8>>)
    ensures
        final(keyboard)@ == keyboard_run(old(keyboard)@, events@).0,
        writes@.map_values(|w: Vec<u8>| w@) == keyboard_run(old(keyboard)@, events@).1,
{
    let ghost start = keyboard@;
    let mut writes: Vec<Vec<u8>> = Vec::new();
    let mut i: usize = 0;
    while i < events.len()
        invariant
            i <= events@.len(),
            keyboard@ == keyboard_run(start, events@.take(i as int)).0,
            writes@.map_values(|w: Vec<u8>| w@) == keyboard_run(start, events@.take(i as int)).1,
        decreases events@.len() - i,
    {
        proof {
            assert(events@.take(i as int + 1).drop_last() =~= events@.take(i as int));
        }
        if let Some(input) = keyboard.handle_event(&events[i]) {
            writes.push(input);
        }
        assert(writes@.map_values(|w: Vec<u8>| w@) =~= keyboard_run(start, events@.take(i as int + 1)).1);
        i += 1;
    }
    assert(events@.take(i as int) =~= events@);
    writes
}

/// The control character of the first character of `chars`, when that
/// is a letter of either case: a or A is 0x01, ..., z or Z is 0x1a.
pub open spec fn ctrl_char(chars: Seq<char>) -> Option<u8> {
    if chars.len() == 0 {
        None
    } else {
        let c = chars[0] as int;
        if 'a' as int <= c <= 'z' as int {
            Some((c - 'a' as int + 1) as u8)
        } else if 'A' as int <= c <= 'Z' as int {
            Some((c - 'A' as int + 1) as u8)
        } else {
            None
        }
    }
}

/// The control character that Ctrl with the key typing `chars` sends.
pub fn ctrl_character_byte(chars: &str) -> (b: Option<u8>)
    ensures
        b == ctrl_char(chars@),
{
    broadcast use vstd::string::group_string_axioms;

    let mut it = chars.chars();
    let first = it.next();
    match first {
        None => None,
        Some(ch) => {
            if 'a' <= ch && ch <= 'z' {
                Some((ch as u32 - 'a' as u32 + 1) as u8)
            } else if 'A' <= ch && ch <= 'Z' {
                Some((ch as u32 - 'A' as u32 + 1) as u8)
            } else {
                None
            }
        },
    }
}

/// The bytes that a named logical key sends, or its characters.
pub open spec fn logical_key_bytes(key: Key, ctrl: bool) -> Seq<u8> {
    match key {
        Key::Character(chars) => if ctrl {
            match ctrl_char(chars@) {
                Some(b) => seq![b],
                None => Seq::empty(),
            }
        } else {
            encode_utf8(chars@)
        },
        Key::Enter => seq![0x0du8],
        Key::Tab => seq![0x09u8],
        Key::Backspace => seq![0x7fu8],
        Key::ArrowUp => seq![0x1bu8, 0x5b, 0x41],
        Key::ArrowDown => seq![0x1bu8, 0x5b, 0x42],
        Key::ArrowRight => seq![0x1bu8, 0x5b, 0x43],
        Key::ArrowLeft => seq![0x1bu8, 0x5b, 0x44],
        Key::Delete => seq![0x1bu8, 0x5b, 0x33, 0x7e],
        Key::Home => seq![0x1bu8, 0x5b, 0x48],
        Key::End => seq![0x1bu8, 0x5b, 0x46],
        Key::PageUp => seq![0x1bu8, 0x5b, 0x35, 0x7e],
        Key::PageDown => seq![0x1bu8, 0x5b, 0x36, 0x7e],
        Key::Escape => seq![0x1bu8],
        Key::Other => Seq::empty(),
    }
}

/// The bytes of the key presses among `events`, in order.
pub open spec fn logical_keys_bytes(events: Seq<KeyboardInput>, ctrl: bool) -> Seq<u8>
    decreases events.len(),
{
    if events.len() == 0 {
        Seq::empty()
    } else {
        logical_keys_bytes(events.drop_last(), ctrl) + if events.last().state == ButtonState::Pressed {
            logical_key_bytes(events.last().logical_key, ctrl)
        } else {
            Seq::empty()
        }
    }
}

/// The bytes of a batch of key presses by their logical keys, Ctrl held or
/// not for the whole batch.
pub fn encode_logical_keys(events: &Vec<KeyboardInput>, ctrl_pressed: bool) -> (input: Vec<u8>)
    ensures
        input@ == logical_keys_bytes(events@, ctrl_pressed),
{
    let mut input: Vec<u8> = Vec::new();
    let mut i: usize = 0;
    while i < events.len()
        invariant
            i <= events@.len(),
            input@ == logical_keys_bytes(events@.take(i as int), ctrl_pressed),
        decreases events@.len() - i,
    {
        let ghost before = input@;
        proof {
            assert(events@.take(i as int + 1).drop_last() =~= events@.take(i as int));
        }
        let event = &events[i];
        if event.state == ButtonState::Pressed {
            match &event.logical_key {
                Key::Character(chars) => {
                    if ctrl_pressed {
                        if let Some(byte) = ctrl_character_byte(chars.as_str()) {
                            input.push(byte);
                        }
                    } else {
                        push_all(&mut input, chars.as_str().as_bytes());
                    }
                },
                Key::Enter => input.push(0x0d),
                Key::Tab => input.push(0x09),
                Key::Backspace => input.push(0x7f),
                Key::ArrowUp => push_all(&mut input, &[0x1b, 0x5b, 0x41]),
                Key::ArrowDown => push_all(&mut input, &[0x1b, 0x5b, 0x42]),
                Key::ArrowRight => push_all(&mut input, &[0x1b, 0x5b, 0x43]),
                Key::ArrowLeft => push_all(&mut input, &[0x1b, 0x5b, 0x44]),
                Key::Delete => push_all(&mut input, &[0x1b, 0x5b, 0x33, 0x7e]),
                Key::Home => push_all(&mut input, &[0x1b, 0x5b, 0x48]),
                Key::End => push_all(&mut input, &[0x1b, 0x5b, 0x46]),
                Key::PageUp => push_all(&mut input, &[0x1b, 0x5b, 0x35, 0x7e]),
                Key::PageDown => push_all(&mut input, &[0x1b, 0x5b, 0x36, 0x7e]),
                Key::Escape => input.push(0x1b),
                Key::Other => {},
            }
        }
        assert(input@ =~= logical_keys_bytes(events@.take(i as int + 1), ctrl_pressed));
        i += 1;
    }
    assert(events@.take(i as int) =~= events@);
    input
}

pub open spec fn is_modifier_key(key: KeyCode) -> bool {
    key == KeyCode::ControlLeft || key == KeyCode::ControlRight || key == KeyCode::AltLeft || key
        == KeyCode::AltRight
}

/// The Ctrl and Alt keys send nothing, and they are the only keys that
/// change the modifier state.
pub proof fn lemma_modifiers_silent(state: ModifierState, event: KeyboardInput)
    ensures
        is_modifier_key(event.key_code) ==> keyboard_step(state, event).1 is None,
        !is_modifier_key(event.key_code) ==> keyboard_step(state, event).0 == state,
{
}

/// A key going up sends nothing.
pub proof fn lemma_release_silent(state: ModifierState, event: KeyboardInput)
    requires
        event.state == ButtonState::Released,
    ensures
        keyboard_step(state, event).1 is None,
{
}

/// Ctrl with a letter sends exactly one control character, 0x01 to 0x1a,
/// after an ESC when Alt is held, whatever the key types.
pub proof fn lemma_ctrl_letter(key: KeyCode, logical_key: Key, text: Option<Seq<char>>, alt: bool)
    requires
        letter_number(key) is Some,
    ensures
        key_bytes(key, logical_key, text, true, alt) == esc_if(alt).push(letter_number(key)->0),
        1 <= letter_number(key)->0 <= 0x1a,
{
}

/// Alt sends ESC followed by what the key sends without Alt.
pub proof fn lemma_alt_prefix(key: KeyCode, logical_key: Key, text: Option<Seq<char>>, ctrl: bool)
    ensures
        key_bytes(key, logical_key, text, ctrl, true) == seq![0x1bu8] + key_bytes(key, logical_key, text, ctrl, false),
{
    let without = key_bytes(key, logical_key, text, ctrl, false);
    if ctrl && letter_number(key) is Some {
        assert(without =~= seq![letter_number(key)->0]);
        assert(seq![0x1bu8].push(letter_number(key)->0) =~= seq![0x1bu8] + without);
    } else {
        assert(Seq::<u8>::empty() + without =~= without);
        assert(without =~= Seq::<u8>::empty() + without);
    }
}

/// The logical key of a named key and the physical key of the same name.
pub open spec fn named_key_code(key: Key) -> Option<KeyCode> {
    match key {
        Key::Enter => Some(KeyCode::Enter),
        Key::Tab => Some(KeyCode::Tab),
        Key::Backspace => Some(KeyCode::Backspace),
        Key::ArrowUp => Some(KeyCode::ArrowUp),
        Key::ArrowDown => Some(KeyCode::ArrowDown),
        Key::ArrowRight => Some(KeyCode::ArrowRight),
        Key::ArrowLeft => Some(KeyCode::ArrowLeft),
        Key::Delete => Some(KeyCode::Delete),
        Key::Home => Some(KeyCode::Home),
        Key::End => Some(KeyCode::End),
        Key::PageUp => Some(KeyCode::PageUp),
        Key::PageDown => Some(KeyCode::PageDown),
        Key::Escape => Some(KeyCode::Escape),
        _ => None,
    }
}

/// The named keys send the xterm sequences: the arrows ESC [ A (up),
/// ESC [ B (down), ESC [ C (right) and ESC [ D (left); Home ESC [ H, End
/// ESC [ F; Delete, Page Up and Page Down ESC [ 3 ~, ESC [ 5 ~, ESC [ 6 ~;
/// Enter CR, Tab HT, Backspace DEL and Escape ESC.  The logical key and
/// the physical key of the same name send the same bytes, with or without
/// Ctrl.
pub proof fn lemma_named_key_sequences(key: Key, ctrl: bool)
    ensures
        logical_key_bytes(Key::ArrowUp, ctrl) == seq![0x1bu8, 0x5b, 0x41],
        logical_key_bytes(Key::ArrowDown, ctrl) == seq![0x1bu8, 0x5b, 0x42],
        logical_key_bytes(Key::ArrowRight, ctrl) == seq![0x1bu8, 0x5b, 0x43],
        logical_key_bytes(Key::ArrowLeft, ctrl) == seq![0x1bu8, 0x5b, 0x44],
        logical_key_bytes(Key::Home, ctrl) == seq![0x1bu8, 0x5b, 0x48],
        logical_key_bytes(Key::End, ctrl) == seq![0x1bu8, 0x5b, 0x46],
        logical_key_bytes(Key::Delete, ctrl) == seq![0x1bu8, 0x5b, 0x33, 0x7e],
        logical_key_bytes(Key::PageUp, ctrl) == seq![0x1bu8, 0x5b, 0x35, 0x7e],
        logical_key_bytes(Key::PageDown, ctrl) == seq![0x1bu8, 0x5b, 0x36, 0x7e],
        logical_key_bytes(Key::Enter, ctrl) == seq![0x0du8],
        logical_key_bytes(Key::Tab, ctrl) == seq![0x09u8],
        logical_key_bytes(Key::Backspace, ctrl) == seq![0x7fu8],
        logical_key_bytes(Key::Escape, ctrl) == seq![0x1bu8],
        named_key_code(key) matches Some(code) ==> named_key_bytes(code) == Some(logical_key_bytes(key, ctrl)),
{
}

/// One key press, pressed, sends what its logical key sends; released, it
/// sends nothing.
pub proof fn lemma_single_logical_key(event: KeyboardInput, ctrl: bool)
    ensures
        logical_keys_bytes(seq![event], ctrl) == if event.state == ButtonState::Pressed {
            logical_key_bytes(event.logical_key, ctrl)
        } else {
            Seq::empty()
        },
{
    assert(seq![event].drop_last() =~= Seq::<KeyboardInput>::empty());
    assert(logical_keys_bytes(seq![event].drop_last(), ctrl) == Seq::<u8>::empty());
    assert(seq![event].last() == event);
    assert(Seq::<u8>::empty() + logical_key_bytes(event.logical_key, ctrl) =~= logical_key_bytes(event.logical_key, ctrl));
    assert(Seq::<u8>::empty() + Seq::<u8>::empty() =~= Seq::<u8>::empty());
}

/// A batch of key presses sends the bytes of each press in order: the
/// bytes of a batch followed by one more event are the batch's bytes
/// followed by that event's.
pub proof fn lemma_logical_keys_concat(events: Seq<KeyboardInput>, more: Seq<KeyboardInput>, ctrl: bool)
    ensures
        logical_keys_bytes(events + more, ctrl) == logical_keys_bytes(events, ctrl) + logical_keys_bytes(more, ctrl),
    decreases more.len(),
{
    if more.len() == 0 {
        assert(events + more =~= events);
        assert(logical_keys_bytes(events, ctrl) + Seq::<u8>::empty() =~= logical_keys_bytes(events, ctrl));
    } else {
        lemma_logical_keys_concat(events, more.drop_last(), ctrl);
        assert((events + more).drop_last() =~= events + more.drop_last());
        assert((events + more).last() == more.last());
        let tail = if more.last().state == ButtonState::Pressed {
            logical_key_bytes(more.last().logical_key, ctrl)
        } else {
            Seq::empty()
        };
        assert(logical_keys_bytes(events, ctrl) + logical_keys_bytes(more.drop_last(), ctrl) + tail
            =~= logical_keys_bytes(events, ctrl) + (logical_keys_bytes(more.drop_last(), ctrl) + tail));
    }
}

/// The letter that a letter key types, in lower case.
pub open spec fn letter_key_char(key: KeyCode) -> Option<char> {
    match key {
        KeyCode::KeyA => Some('a'),
        KeyCode::KeyB => Some('b'),
        KeyCode::KeyC => Some('c'),
        KeyCode::KeyD => Some('d'),
        KeyCode::KeyE => Some('e'),
        KeyCode::KeyF => Some('f'),
        KeyCode::KeyG => Some('g'),
        KeyCode::KeyH => Some('h'),
        KeyCode::KeyI => Some('i'),
        KeyCode::KeyJ => Some('j'),
        KeyCode::KeyK => Some('k'),
        KeyCode::KeyL => Some('l'),
        KeyCode::KeyM => Some('m'),
        KeyCode::KeyN => Some('n'),
        KeyCode::KeyO => Some('o'),
        KeyCode::KeyP => Some('p'),
        KeyCode::KeyQ => Some('q'),
        KeyCode::KeyR => Some('r'),
        KeyCode::KeyS => Some('s'),
        KeyCode::KeyT => Some('t'),
        KeyCode::KeyU => Some('u'),
        KeyCode::KeyV => Some('v'),
        KeyCode::KeyW => Some('w'),
        KeyCode::KeyX => Some('x'),
        KeyCode::KeyY => Some('y'),
        KeyCode::KeyZ => Some('z'),
        _ => None,
    }
}

/// Ctrl with a letter key sends the control character of its letter, the
/// same one that Ctrl with that letter typed (in either case) sends: the
/// letter's place in the alphabet, Ctrl-A 0x01 to Ctrl-Z 0x1a.
pub proof fn lemma_ctrl_letters_agree(key: KeyCode)
    ensures
        letter_number(key) == match letter_key_char(key) {
            Some(ch) => ctrl_char(seq![ch]),
            None => None::<u8>,
        },
        letter_key_char(key) matches Some(ch) ==> ctrl_char(seq![ch]) == Some((ch as int - 0x60) as u8)
            && ctrl_char(seq![((ch as int) - 0x20) as char]) == ctrl_char(seq![ch]),
{
}

} // verus!
