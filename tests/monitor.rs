use xpander::keymaps::{
    KEY_0, KEY_1, KEY_2, KEY_7, KEY_9, KEY_A, KEY_BACKSPACE, KEY_CAPSLOCK, KEY_ENTER, KEY_ESC, KEY_KPENTER,
    KEY_LEFTSHIFT, KEY_M, KEY_Q, KEY_SEMICOLON, KEY_SPACE, KEY_TAB, KEY_W, KEY_Y, KEY_Z,
};
use xpander::{KeyMap, KeyNormalizer, KeyboardEvent};

#[test]
fn test_key_mapper() {
    let mapper = KeyMap::new("qwerty");

    assert_eq!(mapper.map_key(KEY_A, false, false), Some('a'));
    assert_eq!(mapper.map_key(KEY_A, true, false), Some('A'));
    assert_eq!(mapper.map_key(KEY_A, false, true), Some('A'));
    assert_eq!(mapper.map_key(KEY_A, true, true), Some('a'));

    assert_eq!(mapper.map_key(KEY_1, false, false), Some('1'));
    assert_eq!(mapper.map_key(KEY_1, true, false), Some('!'));

    assert_eq!(mapper.map_key(KEY_SEMICOLON, false, false), Some(';'));
    assert_eq!(mapper.map_key(KEY_SEMICOLON, true, false), Some(':'));
}

#[test]
fn azerty_and_qwertz_overrides() {
    let az = KeyMap::new("AZERTY");
    assert_eq!(az.map_key(KEY_A, false, false), Some('q'));
    assert_eq!(az.map_key(KEY_Q, false, false), Some('a'));
    assert_eq!(az.map_key(KEY_Z, false, false), Some('w'));
    assert_eq!(az.map_key(KEY_W, true, false), Some('Z'));
    assert_eq!(az.map_key(KEY_SEMICOLON, false, false), Some('m'));
    assert_eq!(az.map_key(KEY_M, false, false), Some(','));
    assert_eq!(az.map_key(KEY_2, false, false), Some('é'));
    assert_eq!(az.map_key(KEY_2, true, false), Some('2'));
    assert_eq!(az.map_key(KEY_2, false, true), Some('É'));
    assert_eq!(az.map_key(KEY_7, true, true), Some('7'));
    assert_eq!(az.map_key(KEY_9, false, true), Some('Ç'));
    assert_eq!(az.map_key(KEY_0, false, true), Some('À'));
    assert_eq!(az.map_key(KEY_0, false, false), Some('à'));
    let qz = KeyMap::new("qwertz");
    assert_eq!(qz.map_key(KEY_Y, false, false), Some('z'));
    assert_eq!(qz.map_key(KEY_Z, true, false), Some('Y'));
    let other = KeyMap::new("dvorak");
    assert_eq!(other.map_key(KEY_Q, false, false), Some('q'));
    assert_eq!(other.map_key(KEY_ENTER, false, false), None);
}

#[test]
fn normalizer_events() {
    let mut n = KeyNormalizer::new();
    assert_eq!(n.handle("qwerty", KEY_A, 1), Some(KeyboardEvent::Character('a')));
    assert_eq!(n.handle("qwerty", KEY_A, 0), None);
    assert_eq!(n.handle("qwerty", KEY_A, 2), None);
    assert_eq!(n.handle("qwerty", KEY_LEFTSHIFT, 1), None);
    assert!(n.shift_pressed);
    assert_eq!(n.handle("qwerty", KEY_1, 1), Some(KeyboardEvent::WordBoundary('!')));
    assert_eq!(n.handle("qwerty", KEY_LEFTSHIFT, 0), None);
    assert!(!n.shift_pressed);
    assert_eq!(n.handle("qwerty", KEY_CAPSLOCK, 1), None);
    assert!(n.caps_lock);
    assert_eq!(n.handle("qwerty", KEY_A, 1), Some(KeyboardEvent::Character('A')));
    assert_eq!(n.handle("qwerty", KEY_SPACE, 1), Some(KeyboardEvent::WordBoundary(' ')));
    assert_eq!(n.handle("qwerty", KEY_BACKSPACE, 2), Some(KeyboardEvent::Backspace));
    assert_eq!(n.handle("qwerty", KEY_BACKSPACE, 0), None);
    assert_eq!(n.handle("qwerty", KEY_KPENTER, 1), Some(KeyboardEvent::Enter));
    assert_eq!(n.handle("qwerty", KEY_TAB, 1), Some(KeyboardEvent::Tab));
    assert_eq!(n.handle("qwerty", KEY_ESC, 1), Some(KeyboardEvent::Escape));
    assert_eq!(n.handle("azerty", KEY_Q, 1), Some(KeyboardEvent::Character('A')));
    assert_eq!(n.handle("azerty", 200, 1), None);
}

#[test]
fn device_helpers() {
    assert!(xpander::is_event_node("event3"));
    assert!(!xpander::is_event_node("mouse0"));
    assert!(!xpander::is_event_node("even"));
    assert!(xpander::is_keyboard_keys(&vec![KEY_ESC, KEY_A, KEY_Z, KEY_ENTER, KEY_SPACE]));
    assert!(!xpander::is_keyboard_keys(&vec![KEY_A, KEY_Z, KEY_ENTER]));
    assert!(!xpander::is_keyboard_keys(&Vec::new()));
}
