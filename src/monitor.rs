//! Turning raw key events into the events the engine consumes: modifier
//! state, the current layout, and which presses count.

use vstd::prelude::*;

use crate::keymaps::{
    key_char, layout_kind, layout_table, KeyMap, KEY_BACKSPACE, KEY_CAPSLOCK, KEY_ENTER, KEY_ESC,
    KEY_KPENTER, KEY_LEFTSHIFT, KEY_RIGHTSHIFT, KEY_TAB, KEY_A, KEY_Z, KEY_SPACE,
};
use crate::text::{
    chars_of, is_ascii_punctuation, is_ascii_punctuation_spec, same_chars, starts_with,
    starts_with_chars,
};

verus! {

/// An event for the engine.
#[derive(Debug, Clone, Copy, PartialEq, Eq, Structural)]
pub enum KeyboardEvent {
    /// A character was typed.
    Character(char),
    /// Backspace was pressed.
    Backspace,
    /// A space or punctuation character was typed.
    WordBoundary(char),
    /// Enter was pressed.
    Enter,
    /// Tab was pressed.
    Tab,
    /// Escape was pressed.
    Escape,
}

/// The event for a press that is not a modifier: the named keys, then the
/// layout's character; space and punctuation end a word.
pub open spec fn press_event(normal: Map<u16, char>, shifted: Map<u16, char>, key: u16, shift: bool, caps_lock: bool) -> Option<KeyboardEvent> {
    if key == KEY_BACKSPACE {
        Some(KeyboardEvent::Backspace)
    } else if key == KEY_ENTER || key == KEY_KPENTER {
        Some(KeyboardEvent::Enter)
    } else if key == KEY_TAB {
        Some(KeyboardEvent::Tab)
    } else if key == KEY_ESC {
        Some(KeyboardEvent::Escape)
    } else {
        match key_char(normal, shifted, key, shift, caps_lock) {
            Some(ch) => if ch == ' ' || is_ascii_punctuation_spec(ch) {
                Some(KeyboardEvent::WordBoundary(ch))
            } else {
                Some(KeyboardEvent::Character(ch))
            },
            None => None,
        }
    }
}

/// The modifier state after a raw event `(key, value)` (0 release, 1 press,
/// 2 repeat), and the event it yields: Shift follows presses, a Caps Lock press
/// toggles Caps Lock, and only presses count, with Backspace's repeats.
pub open spec fn raw_event(normal: Map<u16, char>, shifted: Map<u16, char>, shift: bool, caps_lock: bool, key: u16, value: i32) -> (bool, bool, Option<KeyboardEvent>) {
    if key == KEY_LEFTSHIFT || key == KEY_RIGHTSHIFT {
        (value == 1, caps_lock, None)
    } else if key == KEY_CAPSLOCK && value == 1 {
        (shift, !caps_lock, None)
    } else if value != 1 && (key != KEY_BACKSPACE || value == 0) {
        (shift, caps_lock, None)
    } else {
        (shift, caps_lock, press_event(normal, shifted, key, shift, caps_lock))
    }
}

/// Whether a device node's file name names an event device (`event…`).
pub fn is_event_node(name: &str) -> (r: bool)
    ensures
        r == starts_with(name@, "event"@),
{
    let n = chars_of(name);
    let p = chars_of("event");
    starts_with_chars(&n, &p)
}

/// Whether a device with the given supported key codes is a keyboard: it
/// has the letter keys A and Z, Enter and Space.
pub fn is_keyboard_keys(keys: &Vec<u16>) -> (r: bool)
    ensures
        r == (keys@.contains(KEY_A) && keys@.contains(KEY_Z) && keys@.contains(KEY_ENTER)
            && keys@.contains(KEY_SPACE)),
{
    has_key(keys, KEY_A) && has_key(keys, KEY_Z) && has_key(keys, KEY_ENTER) && has_key(keys, KEY_SPACE)
}

fn has_key(keys: &Vec<u16>, k: u16) -> (r: bool)
    ensures
        r == keys@.contains(k),
{
    let mut i: usize = 0;
    while i < keys.len()
        invariant
            i <= keys.len(),
            forall|j: int| 0 <= j < i ==> keys@[j] != k,
        decreases keys.len() - i,
    {
        if keys[i] == k {
            assert(keys@[i as int] == k);
            return true;
        }
        i += 1;
    }
    false
}

/// The state that raw key events are read against.
pub struct KeyNormalizer {
    /// The tables of the layout below.
    pub keymap: KeyMap,
    /// The layout the tables were built for.
    pub layout: String,
    /// Whether a Shift key is held.
    pub shift_pressed: bool,
    /// Whether Caps Lock is on.
    pub caps_lock: bool,
}

impl KeyNormalizer {
    /// The tables in use.
    pub open spec fn tables(&self) -> (Map<u16, char>, Map<u16, char>) {
        (self.keymap.normal@, self.keymap.shifted@)
    }

    /// The layout the tables were built for.
    pub open spec fn layout_name(&self) -> Seq<char> {
        self.layout@
    }

    pub open spec fn wf(&self) -> bool {
        self.tables() == (layout_table(layout_kind(self.layout_name()), false), layout_table(
            layout_kind(self.layout_name()),
            true,
        ))
    }

    /// QWERTY, no modifier held, Caps Lock off.
    pub fn new() -> (r: KeyNormalizer)
        ensures
            r.wf(),
            !r.shift_pressed,
            !r.caps_lock,
    {
        KeyNormalizer {
            keymap: KeyMap::new("qwerty"),
            layout: "qwerty".to_owned(),
            shift_pressed: false,
            caps_lock: false,
        }
    }

    /// Reads a raw event `(key, value)` under the configured layout `layout`;
    /// the tables are rebuilt first where the layout changed.
    pub fn handle(&mut self, layout: &str, key: u16, value: i32) -> (r: Option<KeyboardEvent>)
        requires
            old(self).wf(),
        ensures
            final(self).wf(),
            final(self).layout_name() == layout@,
            ({
                let (n, s) = final(self).tables();
                let out = raw_event(n, s, old(self).shift_pressed, old(self).caps_lock, key, value);
                final(self).shift_pressed == out.0 && final(self).caps_lock == out.1 && r == out.2
            }),
    {
        if !same_chars(&chars_of(self.layout.as_str()), &chars_of(layout)) {
            self.keymap = KeyMap::new(layout);
            self.layout = layout.to_owned();
        }
        let is_press = value == 1;
        let is_release = value == 0;
        if key == KEY_LEFTSHIFT || key == KEY_RIGHTSHIFT {
            self.shift_pressed = is_press;
            return None;
        }
        if key == KEY_CAPSLOCK && is_press {
            self.caps_lock = !self.caps_lock;
            return None;
        }
        if !is_press && (key != KEY_BACKSPACE || is_release) {
            return None;
        }
        if key == KEY_BACKSPACE {
            Some(KeyboardEvent::Backspace)
        } else if key == KEY_ENTER || key == KEY_KPENTER {
            Some(KeyboardEvent::Enter)
        } else if key == KEY_TAB {
            Some(KeyboardEvent::Tab)
        } else if key == KEY_ESC {
            Some(KeyboardEvent::Escape)
        } else {
            match self.keymap.map_key(key, self.shift_pressed, self.caps_lock) {
                Some(ch) => {
                    if ch == ' ' || is_ascii_punctuation(ch) {
                        Some(KeyboardEvent::WordBoundary(ch))
                    } else {
                        Some(KeyboardEvent::Character(ch))
                    }
                },
                None => None,
            }
        }
    }
}

} // verus!
