//! Keyboard layouts: the character that a physical key gives, with and
//! without Shift, and how Caps Lock changes it.

use std::collections::HashMap;
use vstd::prelude::*;

use crate::casing::{alphabetic, is_alphabetic_char, lower_char, to_lower_char, to_upper_char, upper_char};
use crate::text::chars_of;

verus! {

broadcast use vstd::std_specs::hash::group_hash_axioms;

// Linux input key codes.
pub const KEY_ESC: u16 = 1;
pub const KEY_1: u16 = 2;
pub const KEY_2: u16 = 3;
pub const KEY_3: u16 = 4;
pub const KEY_4: u16 = 5;
pub const KEY_5: u16 = 6;
pub const KEY_6: u16 = 7;
pub const KEY_7: u16 = 8;
pub const KEY_8: u16 = 9;
pub const KEY_9: u16 = 10;
pub const KEY_0: u16 = 11;
pub const KEY_MINUS: u16 = 12;
pub const KEY_EQUAL: u16 = 13;
pub const KEY_BACKSPACE: u16 = 14;
pub const KEY_TAB: u16 = 15;
pub const KEY_Q: u16 = 16;
pub const KEY_W: u16 = 17;
pub const KEY_E: u16 = 18;
pub const KEY_R: u16 = 19;
pub const KEY_T: u16 = 20;
pub const KEY_Y: u16 = 21;
pub const KEY_U: u16 = 22;
pub const KEY_I: u16 = 23;
pub const KEY_O: u16 = 24;
pub const KEY_P: u16 = 25;
pub const KEY_LEFTBRACE: u16 = 26;
pub const KEY_RIGHTBRACE: u16 = 27;
pub const KEY_ENTER: u16 = 28;
pub const KEY_A: u16 = 30;
pub const KEY_S: u16 = 31;
pub const KEY_D: u16 = 32;
pub const KEY_F: u16 = 33;
pub const KEY_G: u16 = 34;
pub const KEY_H: u16 = 35;
pub const KEY_J: u16 = 36;
pub const KEY_K: u16 = 37;
pub const KEY_L: u16 = 38;
pub const KEY_SEMICOLON: u16 = 39;
pub const KEY_APOSTROPHE: u16 = 40;
pub const KEY_GRAVE: u16 = 41;
pub const KEY_LEFTSHIFT: u16 = 42;
pub const KEY_BACKSLASH: u16 = 43;
pub const KEY_Z: u16 = 44;
pub const KEY_X: u16 = 45;
pub const KEY_C: u16 = 46;
pub const KEY_V: u16 = 47;
pub const KEY_B: u16 = 48;
pub const KEY_N: u16 = 49;
pub const KEY_M: u16 = 50;
pub const KEY_COMMA: u16 = 51;
pub const KEY_DOT: u16 = 52;
pub const KEY_SLASH: u16 = 53;
pub const KEY_RIGHTSHIFT: u16 = 54;
pub const KEY_SPACE: u16 = 57;
pub const KEY_CAPSLOCK: u16 = 58;
pub const KEY_KPENTER: u16 = 96;

/// The QWERTY positions: key, character, character with Shift.
pub open spec fn qwerty_entries() -> Seq<(u16, char, char)> {
    seq![
        (KEY_Q, 'q', 'Q'), (KEY_W, 'w', 'W'), (KEY_E, 'e', 'E'), (KEY_R, 'r', 'R'),
        (KEY_T, 't', 'T'), (KEY_Y, 'y', 'Y'), (KEY_U, 'u', 'U'), (KEY_I, 'i', 'I'),
        (KEY_O, 'o', 'O'), (KEY_P, 'p', 'P'), (KEY_A, 'a', 'A'), (KEY_S, 's', 'S'),
        (KEY_D, 'd', 'D'), (KEY_F, 'f', 'F'), (KEY_G, 'g', 'G'), (KEY_H, 'h', 'H'),
        (KEY_J, 'j', 'J'), (KEY_K, 'k', 'K'), (KEY_L, 'l', 'L'), (KEY_Z, 'z', 'Z'),
        (KEY_X, 'x', 'X'), (KEY_C, 'c', 'C'), (KEY_V, 'v', 'V'), (KEY_B, 'b', 'B'),
        (KEY_N, 'n', 'N'), (KEY_M, 'm', 'M'),
        (KEY_1, '1', '!'), (KEY_2, '2', '@'), (KEY_3, '3', '#'), (KEY_4, '4', '$'),
        (KEY_5, '5', '%'), (KEY_6, '6', '^'), (KEY_7, '7', '&'), (KEY_8, '8', '*'),
        (KEY_9, '9', '('), (KEY_0, '0', ')'),
        (KEY_MINUS, '-', '_'), (KEY_EQUAL, '=', '+'), (KEY_LEFTBRACE, '[', '{'),
        (KEY_RIGHTBRACE, ']', '}'), (KEY_SEMICOLON, ';', ':'), (KEY_APOSTROPHE, '\'', '"'),
        (KEY_GRAVE, '`', '~'), (KEY_BACKSLASH, '\\', '|'), (KEY_COMMA, ',', '<'),
        (KEY_DOT, '.', '>'), (KEY_SLASH, '/', '?'), (KEY_SPACE, ' ', ' '),
    ]
}

/// The AZERTY keys that differ from QWERTY other than by a swap.
pub open spec fn azerty_entries() -> Seq<(u16, char, char)> {
    seq![
        (KEY_SEMICOLON, 'm', 'M'), (KEY_1, '&', '1'), (KEY_2, 'é', '2'), (KEY_3, '"', '3'),
        (KEY_4, '\'', '4'), (KEY_5, '(', '5'), (KEY_6, '-', '6'), (KEY_7, 'è', '7'),
        (KEY_8, '_', '8'), (KEY_9, 'ç', '9'), (KEY_0, 'à', '0'), (KEY_M, ',', '?'),
        (KEY_COMMA, ';', '.'), (KEY_DOT, ':', '/'), (KEY_SLASH, '!', '§'),
    ]
}

/// `m` with the entries of `es` written over it, in order.
pub open spec fn overlay(m: Map<u16, char>, es: Seq<(u16, char, char)>, shifted: bool) -> Map<u16, char>
    decreases es.len(),
{
    if es.len() == 0 {
        m
    } else {
        let e = es.last();
        overlay(m, es.drop_last(), shifted).insert(e.0, if shifted { e.2 } else { e.1 })
    }
}

/// `m` with the characters of two keys exchanged, where both have one.
pub open spec fn swapped(m: Map<u16, char>, a: u16, b: u16) -> Map<u16, char> {
    if m.contains_key(a) && m.contains_key(b) {
        m.insert(a, m[b]).insert(b, m[a])
    } else {
        m
    }
}

/// The layouts with their own overrides; the others use QWERTY.
pub enum LayoutKind {
    Qwerty,
    Azerty,
    Qwertz,
}

/// What `str::to_lowercase` makes of a string.
pub uninterp spec fn lower_text(s: Seq<char>) -> Seq<char>;

/// Relies on `str::to_lowercase`: the Unicode lowercase mapping of the string.
#[verifier::external_body]
fn to_lower_text(s: &str) -> (r: String)
    ensures
        r@ == lower_text(s@),
{
    s.to_lowercase()
}

/// The layout that a configured name selects, ignoring case.
pub open spec fn layout_kind(name: Seq<char>) -> LayoutKind {
    let l = lower_text(name);
    if l == "azerty"@ {
        LayoutKind::Azerty
    } else if l == "qwertz"@ {
        LayoutKind::Qwertz
    } else {
        LayoutKind::Qwerty
    }
}

/// The table of a layout, without Shift or with it.
pub open spec fn layout_table(k: LayoutKind, shifted: bool) -> Map<u16, char> {
    let base = overlay(Map::empty(), qwerty_entries(), shifted);
    match k {
        LayoutKind::Qwerty => base,
        LayoutKind::Azerty => overlay(
            swapped(swapped(base, KEY_A, KEY_Q), KEY_Z, KEY_W),
            azerty_entries(),
            shifted,
        ),
        LayoutKind::Qwertz => swapped(base, KEY_Y, KEY_Z),
    }
}

/// What Caps Lock makes of a character: a letter changes case, lowercase
/// with Shift and uppercase without, where that case is one character; the
/// rest stay.
pub open spec fn caps_applied(c: char, shift: bool, caps_lock: bool) -> char {
    if caps_lock && alphabetic(c) {
        let m = if shift {
            lower_char(c)
        } else {
            upper_char(c)
        };
        if m.len() == 1 {
            m[0]
        } else {
            c
        }
    } else {
        c
    }
}

fn caps_applied_exec(c: char, shift: bool, caps_lock: bool) -> (r: char)
    ensures
        r == caps_applied(c, shift, caps_lock),
{
    if caps_lock && is_alphabetic_char(c) {
        let m = if shift {
            chars_of(to_lower_char(c).as_str())
        } else {
            chars_of(to_upper_char(c).as_str())
        };
        if m.len() == 1 {
            m[0]
        } else {
            c
        }
    } else {
        c
    }
}

fn qwerty_list() -> (r: Vec<(u16, char, char)>)
    ensures
        r@ == qwerty_entries(),
{
    let r = vec![
        (KEY_Q, 'q', 'Q'), (KEY_W, 'w', 'W'), (KEY_E, 'e', 'E'), (KEY_R, 'r', 'R'),
        (KEY_T, 't', 'T'), (KEY_Y, 'y', 'Y'), (KEY_U, 'u', 'U'), (KEY_I, 'i', 'I'),
        (KEY_O, 'o', 'O'), (KEY_P, 'p', 'P'), (KEY_A, 'a', 'A'), (KEY_S, 's', 'S'),
        (KEY_D, 'd', 'D'), (KEY_F, 'f', 'F'), (KEY_G, 'g', 'G'), (KEY_H, 'h', 'H'),
        (KEY_J, 'j', 'J'), (KEY_K, 'k', 'K'), (KEY_L, 'l', 'L'), (KEY_Z, 'z', 'Z'),
        (KEY_X, 'x', 'X'), (KEY_C, 'c', 'C'), (KEY_V, 'v', 'V'), (KEY_B, 'b', 'B'),
        (KEY_N, 'n', 'N'), (KEY_M, 'm', 'M'),
        (KEY_1, '1', '!'), (KEY_2, '2', '@'), (KEY_3, '3', '#'), (KEY_4, '4', '$'),
        (KEY_5, '5', '%'), (KEY_6, '6', '^'), (KEY_7, '7', '&'), (KEY_8, '8', '*'),
        (KEY_9, '9', '('), (KEY_0, '0', ')'),
        (KEY_MINUS, '-', '_'), (KEY_EQUAL, '=', '+'), (KEY_LEFTBRACE, '[', '{'),
        (KEY_RIGHTBRACE, ']', '}'), (KEY_SEMICOLON, ';', ':'), (KEY_APOSTROPHE, '\'', '"'),
        (KEY_GRAVE, '`', '~'), (KEY_BACKSLASH, '\\', '|'), (KEY_COMMA, ',', '<'),
        (KEY_DOT, '.', '>'), (KEY_SLASH, '/', '?'), (KEY_SPACE, ' ', ' '),
    ];
    assert(r@ =~= qwerty_entries());
    r
}

fn azerty_list() -> (r: Vec<(u16, char, char)>)
    ensures
        r@ == azerty_entries(),
{
    let r = vec![
        (KEY_SEMICOLON, 'm', 'M'), (KEY_1, '&', '1'), (KEY_2, 'é', '2'), (KEY_3, '"', '3'),
        (KEY_4, '\'', '4'), (KEY_5, '(', '5'), (KEY_6, '-', '6'), (KEY_7, 'è', '7'),
        (KEY_8, '_', '8'), (KEY_9, 'ç', '9'), (KEY_0, 'à', '0'), (KEY_M, ',', '?'),
        (KEY_COMMA, ';', '.'), (KEY_DOT, ':', '/'), (KEY_SLASH, '!', '§'),
    ];
    assert(r@ =~= azerty_entries());
    r
}

/// Writes the entries of `es` into both tables.
fn setup_keys(normal: &mut HashMap<u16, char>, shifted: &mut HashMap<u16, char>, es: &Vec<(u16, char, char)>)
    ensures
        final(normal)@ == overlay(old(normal)@, es@, false),
        final(shifted)@ == overlay(old(shifted)@, es@, true),
{
    let mut i: usize = 0;
    while i < es.len()
        invariant
            i <= es.len(),
            normal@ == overlay(old(normal)@, es@.subrange(0, i as int), false),
            shifted@ == overlay(old(shifted)@, es@.subrange(0, i as int), true),
        decreases es.len() - i,
    {
        let (k, n, s) = es[i];
        assert(es@.subrange(0, i + 1).drop_last() =~= es@.subrange(0, i as int));
        normal.insert(k, n);
        shifted.insert(k, s);
        i += 1;
    }
    assert(es@.subrange(0, es.len() as int) =~= es@);
}

fn swap_in(m: &mut HashMap<u16, char>, a: u16, b: u16)
    ensures
        final(m)@ == swapped(old(m)@, a, b),
{
    let x = match m.get(&a) {
        Some(c) => Some(*c),
        None => None,
    };
    let y = match m.get(&b) {
        Some(c) => Some(*c),
        None => None,
    };
    match (x, y) {
        (Some(ca), Some(cb)) => {
            m.insert(a, cb);
            m.insert(b, ca);
        },
        _ => {},
    }
}

/// Exchanges the characters of two keys in both tables.
fn swap_keys(normal: &mut HashMap<u16, char>, shifted: &mut HashMap<u16, char>, a: u16, b: u16)
    ensures
        final(normal)@ == swapped(old(normal)@, a, b),
        final(shifted)@ == swapped(old(shifted)@, a, b),
{
    swap_in(normal, a, b);
    swap_in(shifted, a, b);
}

fn apply_azerty(normal: &mut HashMap<u16, char>, shifted: &mut HashMap<u16, char>)
    ensures
        final(normal)@ == overlay(swapped(swapped(old(normal)@, KEY_A, KEY_Q), KEY_Z, KEY_W), azerty_entries(), false),
        final(shifted)@ == overlay(swapped(swapped(old(shifted)@, KEY_A, KEY_Q), KEY_Z, KEY_W), azerty_entries(), true),
{
    swap_keys(normal, shifted, KEY_A, KEY_Q);
    swap_keys(normal, shifted, KEY_Z, KEY_W);
    let es = azerty_list();
    setup_keys(normal, shifted, &es);
}

fn apply_qwertz(normal: &mut HashMap<u16, char>, shifted: &mut HashMap<u16, char>)
    ensures
        final(normal)@ == swapped(old(normal)@, KEY_Y, KEY_Z),
        final(shifted)@ == swapped(old(shifted)@, KEY_Y, KEY_Z),
{
    swap_keys(normal, shifted, KEY_Y, KEY_Z);
}

/// The character of a key in the given tables, under the given Shift and Caps Lock state.
pub open spec fn key_char(normal: Map<u16, char>, shifted: Map<u16, char>, key: u16, shift: bool, caps_lock: bool) -> Option<char> {
    let m = if shift {
        shifted
    } else {
        normal
    };
    if m.contains_key(key) {
        Some(caps_applied(m[key], shift, caps_lock))
    } else {
        None
    }
}

/// The characters of a keyboard layout.
pub struct KeyMap {
    /// Key code to character, without Shift.
    pub normal: HashMap<u16, char>,
    /// Key code to character, with Shift.
    pub shifted: HashMap<u16, char>,
}

fn is_name(v: &Vec<char>, w: &str) -> (r: bool)
    ensures
        r == (v@ == w@),
{
    let wc = chars_of(w);
    crate::text::same_chars(v, &wc)
}

impl KeyMap {
    /// The tables of the named layout (QWERTY, AZERTY or QWERTZ; any other name gives QWERTY).
    pub fn new(layout: &str) -> (r: KeyMap)
        ensures
            r.normal@ == layout_table(layout_kind(layout@), false),
            r.shifted@ == layout_table(layout_kind(layout@), true),
    {
        let mut normal: HashMap<u16, char> = HashMap::new();
        let mut shifted: HashMap<u16, char> = HashMap::new();
        let base = qwerty_list();
        setup_keys(&mut normal, &mut shifted, &base);
        let lower = chars_of(to_lower_text(layout).as_str());
        if is_name(&lower, "azerty") {
            apply_azerty(&mut normal, &mut shifted);
        } else if is_name(&lower, "qwertz") {
            apply_qwertz(&mut normal, &mut shifted);
        }
        KeyMap { normal, shifted }
    }

    /// The character of a key under the given Shift and Caps Lock state, if the key has one.
    pub fn map_key(&self, key: u16, shift: bool, caps_lock: bool) -> (r: Option<char>)
        ensures
            r == key_char(self.normal@, self.shifted@, key, shift, caps_lock),
    {
        let base = if shift {
            self.shifted.get(&key)
        } else {
            self.normal.get(&key)
        };
        match base {
            Some(c) => Some(caps_applied_exec(*c, shift, caps_lock)),
            None => None,
        }
    }
}

} // verus!
