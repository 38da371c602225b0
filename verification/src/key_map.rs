//! Key mapping: physical keys to protocol keys, and the keybinding strings of
//! the configuration (`"ctrl+shift+p"`) to and from key presses.
//!
//! The physical key codes and modifier state mirror the windowing layer's; the
//! application converts its events into these types before asking.

use vstd::prelude::*;
use vstd::string::StringExecFns;
use crate::text::{is_ws, is_whitespace, trim, chars_of, trim_bounds, string_from_range, lemma_trim_start_at, lemma_trim_end_at, lowercase, lowercase_range, is_ascii_text, word_is};

verus! {

/// A physical key, named after its position on a US keyboard. Keys that none
/// of the mappings here know are `Other`.
#[derive(Clone, Copy, Debug, PartialEq, Eq, Structural)]
pub enum KeyCode {
    KeyA, KeyB, KeyC, KeyD, KeyE, KeyF, KeyG, KeyH, KeyI, KeyJ, KeyK, KeyL, KeyM,
    KeyN, KeyO, KeyP, KeyQ, KeyR, KeyS, KeyT, KeyU, KeyV, KeyW, KeyX, KeyY, KeyZ,
    Digit0, Digit1, Digit2, Digit3, Digit4, Digit5, Digit6, Digit7, Digit8, Digit9,
    Enter, Backspace, Delete, Escape, Tab, Space,
    ArrowUp, ArrowDown, ArrowLeft, ArrowRight,
    Home, End, PageUp, PageDown, Insert,
    F1, F2, F3, F4, F5, F6, F7, F8, F9, F10, F11, F12,
    Quote, BracketLeft, BracketRight, Backslash, Slash, Minus, Equal, Comma, Period,
    Semicolon, Backquote, ContextMenu,
    Other,
}

/// A key event's physical key: a known code, or one the platform could not
/// identify.
#[derive(Clone, Copy, Debug, PartialEq, Eq, Structural)]
pub enum PhysicalKey {
    Code(KeyCode),
    Unidentified,
}

/// Which modifier keys are held.
#[derive(Clone, Copy, Debug, PartialEq, Eq, Structural)]
pub struct ModifiersState {
    pub shift: bool,
    pub control: bool,
    pub alt: bool,
    pub meta: bool,
}

impl ModifiersState {
    /// No modifier held.
    pub fn empty() -> (m: Self)
        ensures
            !m.shift && !m.control && !m.alt && !m.meta,
    {
        ModifiersState { shift: false, control: false, alt: false, meta: false }
    }

    pub fn shift_key(&self) -> (r: bool)
        ensures
            r == self.shift,
    {
        self.shift
    }

    pub fn control_key(&self) -> (r: bool)
        ensures
            r == self.control,
    {
        self.control
    }

    pub fn alt_key(&self) -> (r: bool)
        ensures
            r == self.alt,
    {
        self.alt
    }

    pub fn super_key(&self) -> (r: bool)
        ensures
            r == self.meta,
    {
        self.meta
    }
}

/// A key as the terminal protocol carries it.
#[derive(Clone, Copy, Debug, PartialEq, Eq, Structural)]
pub enum ProtoKeyCode {
    Enter,
    Backspace,
    Delete,
    Escape,
    Tab,
    BackTab,
    Up,
    Down,
    Left,
    Right,
    Home,
    End,
    PageUp,
    PageDown,
    Insert,
    F(u8),
    Char(char),
}

/// The lowercase letter of a letter key.
pub open spec fn spec_winit_code_to_char(code: KeyCode) -> Option<char> {
    match code {
        KeyCode::KeyA => Some('a'),
        KeyCode::KeyB => Some('b'),
        KeyCode::KeyC => Some('c'),
        KeyCode::KeyD => Some('d'),
        KeyCode::KeyE => Some('e'),
        KeyCode::KeyF => Some('f'),
        KeyCode::KeyG => Some('g'),
        KeyCode::KeyH => Some('h'),
        KeyCode::KeyI => Some('i'),
        KeyCode::KeyJ => Some('j'),
        KeyCode::KeyK => Some('k'),
        KeyCode::KeyL => Some('l'),
        KeyCode::KeyM => Some('m'),
        KeyCode::KeyN => Some('n'),
        KeyCode::KeyO => Some('o'),
        KeyCode::KeyP => Some('p'),
        KeyCode::KeyQ => Some('q'),
        KeyCode::KeyR => Some('r'),
        KeyCode::KeyS => Some('s'),
        KeyCode::KeyT => Some('t'),
        KeyCode::KeyU => Some('u'),
        KeyCode::KeyV => Some('v'),
        KeyCode::KeyW => Some('w'),
        KeyCode::KeyX => Some('x'),
        KeyCode::KeyY => Some('y'),
        KeyCode::KeyZ => Some('z'),
        _ => None,
    }
}

/// The lowercase ASCII letter of a letter key (used for Ctrl sequences).
pub fn winit_code_to_char(code: KeyCode) -> (r: Option<char>)
    ensures
        r == spec_winit_code_to_char(code),
{
    match code {
        KeyCode::KeyA => Some('a'),
        KeyCode::KeyB => Some('b'),
        KeyCode::KeyC => Some('c'),
        KeyCode::KeyD => Some('d'),
        KeyCode::KeyE => Some('e'),
        KeyCode::KeyF => Some('f'),
        KeyCode::KeyG => Some('g'),
        KeyCode::KeyH => Some('h'),
        KeyCode::KeyI => Some('i'),
        KeyCode::KeyJ => Some('j'),
        KeyCode::KeyK => Some('k'),
        KeyCode::KeyL => Some('l'),
        KeyCode::KeyM => Some('m'),
        KeyCode::KeyN => Some('n'),
        KeyCode::KeyO => Some('o'),
        KeyCode::KeyP => Some('p'),
        KeyCode::KeyQ => Some('q'),
        KeyCode::KeyR => Some('r'),
        KeyCode::KeyS => Some('s'),
        KeyCode::KeyT => Some('t'),
        KeyCode::KeyU => Some('u'),
        KeyCode::KeyV => Some('v'),
        KeyCode::KeyW => Some('w'),
        KeyCode::KeyX => Some('x'),
        KeyCode::KeyY => Some('y'),
        KeyCode::KeyZ => Some('z'),
        _ => None,
    }
}

/// The protocol key of a special key press. Keys that produce text are left
/// to the input method (`None`), except letters with Ctrl held, which become
/// the lowercase letter.
pub open spec fn spec_physical_to_proto_key(key: PhysicalKey, mods: ModifiersState) -> Option<ProtoKeyCode> {
    match key {
        PhysicalKey::Unidentified => None,
        PhysicalKey::Code(code) => match code {
            KeyCode::Enter => Some(ProtoKeyCode::Enter),
            KeyCode::Backspace => Some(ProtoKeyCode::Backspace),
            KeyCode::Delete => Some(ProtoKeyCode::Delete),
            KeyCode::Escape => Some(ProtoKeyCode::Escape),
            KeyCode::Tab => if mods.shift { Some(ProtoKeyCode::BackTab) } else { Some(ProtoKeyCode::Tab) },
            KeyCode::ArrowUp => Some(ProtoKeyCode::Up),
            KeyCode::ArrowDown => Some(ProtoKeyCode::Down),
            KeyCode::ArrowLeft => Some(ProtoKeyCode::Left),
            KeyCode::ArrowRight => Some(ProtoKeyCode::Right),
            KeyCode::Home => Some(ProtoKeyCode::Home),
            KeyCode::End => Some(ProtoKeyCode::End),
            KeyCode::PageUp => Some(ProtoKeyCode::PageUp),
            KeyCode::PageDown => Some(ProtoKeyCode::PageDown),
            KeyCode::Insert => Some(ProtoKeyCode::Insert),
            KeyCode::F1 => Some(ProtoKeyCode::F(1)),
            KeyCode::F2 => Some(ProtoKeyCode::F(2)),
            KeyCode::F3 => Some(ProtoKeyCode::F(3)),
            KeyCode::F4 => Some(ProtoKeyCode::F(4)),
            KeyCode::F5 => Some(ProtoKeyCode::F(5)),
            KeyCode::F6 => Some(ProtoKeyCode::F(6)),
            KeyCode::F7 => Some(ProtoKeyCode::F(7)),
            KeyCode::F8 => Some(ProtoKeyCode::F(8)),
            KeyCode::F9 => Some(ProtoKeyCode::F(9)),
            KeyCode::F10 => Some(ProtoKeyCode::F(10)),
            KeyCode::F11 => Some(ProtoKeyCode::F(11)),
            KeyCode::F12 => Some(ProtoKeyCode::F(12)),
            c => if mods.control {
                match spec_winit_code_to_char(c) {
                    Some(ch) => Some(ProtoKeyCode::Char(ch)),
                    None => None,
                }
            } else {
                None
            },
        },
    }
}

/// Map a physical key press to the protocol key the server expects:
/// arrows, function and editing keys, Shift+Tab as back-tab, and Ctrl+letter.
/// Text-producing keys go through the input method and give `None`.
pub fn physical_to_proto_key(key: PhysicalKey, mods: ModifiersState) -> (r: Option<ProtoKeyCode>)
    ensures
        r == spec_physical_to_proto_key(key, mods),
{
    let ctrl = mods.control_key();
    let code = match key {
        PhysicalKey::Code(code) => code,
        PhysicalKey::Unidentified => {
            return None;
        },
    };
    match code {
        KeyCode::Enter => Some(ProtoKeyCode::Enter),
        KeyCode::Backspace => Some(ProtoKeyCode::Backspace),
        KeyCode::Delete => Some(ProtoKeyCode::Delete),
        KeyCode::Escape => Some(ProtoKeyCode::Escape),
        KeyCode::Tab => {
            if mods.shift_key() {
                Some(ProtoKeyCode::BackTab)
            } else {
                Some(ProtoKeyCode::Tab)
            }
        },
        KeyCode::ArrowUp => Some(ProtoKeyCode::Up),
        KeyCode::ArrowDown => Some(ProtoKeyCode::Down),
        KeyCode::ArrowLeft => Some(ProtoKeyCode::Left),
        KeyCode::ArrowRight => Some(ProtoKeyCode::Right),
        KeyCode::Home => Some(ProtoKeyCode::Home),
        KeyCode::End => Some(ProtoKeyCode::End),
        KeyCode::PageUp => Some(ProtoKeyCode::PageUp),
        KeyCode::PageDown => Some(ProtoKeyCode::PageDown),
        KeyCode::Insert => Some(ProtoKeyCode::Insert),
        KeyCode::F1 => Some(ProtoKeyCode::F(1)),
        KeyCode::F2 => Some(ProtoKeyCode::F(2)),
        KeyCode::F3 => Some(ProtoKeyCode::F(3)),
        KeyCode::F4 => Some(ProtoKeyCode::F(4)),
        KeyCode::F5 => Some(ProtoKeyCode::F(5)),
        KeyCode::F6 => Some(ProtoKeyCode::F(6)),
        KeyCode::F7 => Some(ProtoKeyCode::F(7)),
        KeyCode::F8 => Some(ProtoKeyCode::F(8)),
        KeyCode::F9 => Some(ProtoKeyCode::F(9)),
        KeyCode::F10 => Some(ProtoKeyCode::F(10)),
        KeyCode::F11 => Some(ProtoKeyCode::F(11)),
        KeyCode::F12 => Some(ProtoKeyCode::F(12)),
        c => {
            if ctrl {
                match winit_code_to_char(c) {
                    Some(ch) => Some(ProtoKeyCode::Char(ch)),
                    None => None,
                }
            } else {
                None
            }
        },
    }
}

/// Every named navigation, editing and function key goes to the protocol
/// key of the same name, whatever modifiers are held; Tab goes to back-tab
/// exactly when Shift is held; a key that is not identified sends nothing.
pub proof fn lemma_named_keys_keep_their_name(mods: ModifiersState)
    ensures
        spec_physical_to_proto_key(PhysicalKey::Code(KeyCode::Enter), mods) == Some(ProtoKeyCode::Enter),
        spec_physical_to_proto_key(PhysicalKey::Code(KeyCode::Backspace), mods) == Some(ProtoKeyCode::Backspace),
        spec_physical_to_proto_key(PhysicalKey::Code(KeyCode::Delete), mods) == Some(ProtoKeyCode::Delete),
        spec_physical_to_proto_key(PhysicalKey::Code(KeyCode::Escape), mods) == Some(ProtoKeyCode::Escape),
        spec_physical_to_proto_key(PhysicalKey::Code(KeyCode::Tab), mods) == if mods.shift {
            Some(ProtoKeyCode::BackTab)
        } else {
            Some(ProtoKeyCode::Tab)
        },
        spec_physical_to_proto_key(PhysicalKey::Code(KeyCode::ArrowUp), mods) == Some(ProtoKeyCode::Up),
        spec_physical_to_proto_key(PhysicalKey::Code(KeyCode::ArrowDown), mods) == Some(ProtoKeyCode::Down),
        spec_physical_to_proto_key(PhysicalKey::Code(KeyCode::ArrowLeft), mods) == Some(ProtoKeyCode::Left),
        spec_physical_to_proto_key(PhysicalKey::Code(KeyCode::ArrowRight), mods) == Some(ProtoKeyCode::Right),
        spec_physical_to_proto_key(PhysicalKey::Code(KeyCode::Home), mods) == Some(ProtoKeyCode::Home),
        spec_physical_to_proto_key(PhysicalKey::Code(KeyCode::End), mods) == Some(ProtoKeyCode::End),
        spec_physical_to_proto_key(PhysicalKey::Code(KeyCode::PageUp), mods) == Some(ProtoKeyCode::PageUp),
        spec_physical_to_proto_key(PhysicalKey::Code(KeyCode::PageDown), mods) == Some(ProtoKeyCode::PageDown),
        spec_physical_to_proto_key(PhysicalKey::Code(KeyCode::Insert), mods) == Some(ProtoKeyCode::Insert),
        spec_physical_to_proto_key(PhysicalKey::Code(KeyCode::F1), mods) == Some(ProtoKeyCode::F(1)),
        spec_physical_to_proto_key(PhysicalKey::Code(KeyCode::F2), mods) == Some(ProtoKeyCode::F(2)),
        spec_physical_to_proto_key(PhysicalKey::Code(KeyCode::F3), mods) == Some(ProtoKeyCode::F(3)),
        spec_physical_to_proto_key(PhysicalKey::Code(KeyCode::F4), mods) == Some(ProtoKeyCode::F(4)),
        spec_physical_to_proto_key(PhysicalKey::Code(KeyCode::F5), mods) == Some(ProtoKeyCode::F(5)),
        spec_physical_to_proto_key(PhysicalKey::Code(KeyCode::F6), mods) == Some(ProtoKeyCode::F(6)),
        spec_physical_to_proto_key(PhysicalKey::Code(KeyCode::F7), mods) == Some(ProtoKeyCode::F(7)),
        spec_physical_to_proto_key(PhysicalKey::Code(KeyCode::F8), mods) == Some(ProtoKeyCode::F(8)),
        spec_physical_to_proto_key(PhysicalKey::Code(KeyCode::F9), mods) == Some(ProtoKeyCode::F(9)),
        spec_physical_to_proto_key(PhysicalKey::Code(KeyCode::F10), mods) == Some(ProtoKeyCode::F(10)),
        spec_physical_to_proto_key(PhysicalKey::Code(KeyCode::F11), mods) == Some(ProtoKeyCode::F(11)),
        spec_physical_to_proto_key(PhysicalKey::Code(KeyCode::F12), mods) == Some(ProtoKeyCode::F(12)),
        spec_physical_to_proto_key(PhysicalKey::Unidentified, mods) is None,
{
}

/// Keys that type text other than letters (space, digits, punctuation) send
/// nothing, with or without modifiers: their text comes from the input
/// method.
pub proof fn lemma_text_keys_send_nothing(code: KeyCode, mods: ModifiersState)
    requires
        code == KeyCode::Space || code == KeyCode::Digit0 || code == KeyCode::Digit1 || code == KeyCode::Digit2
            || code == KeyCode::Digit3 || code == KeyCode::Digit4 || code == KeyCode::Digit5 || code == KeyCode::Digit6
            || code == KeyCode::Digit7 || code == KeyCode::Digit8 || code == KeyCode::Digit9 || code == KeyCode::Quote
            || code == KeyCode::BracketLeft || code == KeyCode::BracketRight || code == KeyCode::Backslash || code
            == KeyCode::Slash || code == KeyCode::Minus || code == KeyCode::Equal || code == KeyCode::Comma || code
            == KeyCode::Period || code == KeyCode::Semicolon || code == KeyCode::Backquote,
    ensures
        spec_physical_to_proto_key(PhysicalKey::Code(code), mods) is None,
{
}

/// A letter key sends its lowercase letter exactly when Ctrl is held, and
/// nothing otherwise: the letter is the one the key's binding name spells.
pub proof fn lemma_ctrl_letters(code: KeyCode, mods: ModifiersState)
    requires
        spec_winit_code_to_char(code) is Some,
    ensures
        spec_physical_to_proto_key(PhysicalKey::Code(code), mods) == if mods.control {
            Some(ProtoKeyCode::Char(spec_winit_code_to_char(code)->0))
        } else {
            None
        },
        spec_key_name(code) == Some(seq![spec_winit_code_to_char(code)->0]),
{
}

/// The key a single character names in a binding string: letters in either
/// case, digits, and a few punctuation keys (`%` is Shift+5).
pub open spec fn spec_char_to_keycode(ch: char) -> Option<KeyCode> {
    if ch == 'a' || ch == 'A' { Some(KeyCode::KeyA) }
    else if ch == 'b' || ch == 'B' { Some(KeyCode::KeyB) }
    else if ch == 'c' || ch == 'C' { Some(KeyCode::KeyC) }
    else if ch == 'd' || ch == 'D' { Some(KeyCode::KeyD) }
    else if ch == 'e' || ch == 'E' { Some(KeyCode::KeyE) }
    else if ch == 'f' || ch == 'F' { Some(KeyCode::KeyF) }
    else if ch == 'g' || ch == 'G' { Some(KeyCode::KeyG) }
    else if ch == 'h' || ch == 'H' { Some(KeyCode::KeyH) }
    else if ch == 'i' || ch == 'I' { Some(KeyCode::KeyI) }
    else if ch == 'j' || ch == 'J' { Some(KeyCode::KeyJ) }
    else if ch == 'k' || ch == 'K' { Some(KeyCode::KeyK) }
    else if ch == 'l' || ch == 'L' { Some(KeyCode::KeyL) }
    else if ch == 'm' || ch == 'M' { Some(KeyCode::KeyM) }
    else if ch == 'n' || ch == 'N' { Some(KeyCode::KeyN) }
    else if ch == 'o' || ch == 'O' { Some(KeyCode::KeyO) }
    else if ch == 'p' || ch == 'P' { Some(KeyCode::KeyP) }
    else if ch == 'q' || ch == 'Q' { Some(KeyCode::KeyQ) }
    else if ch == 'r' || ch == 'R' { Some(KeyCode::KeyR) }
    else if ch == 's' || ch == 'S' { Some(KeyCode::KeyS) }
    else if ch == 't' || ch == 'T' { Some(KeyCode::KeyT) }
    else if ch == 'u' || ch == 'U' { Some(KeyCode::KeyU) }
    else if ch == 'v' || ch == 'V' { Some(KeyCode::KeyV) }
    else if ch == 'w' || ch == 'W' { Some(KeyCode::KeyW) }
    else if ch == 'x' || ch == 'X' { Some(KeyCode::KeyX) }
    else if ch == 'y' || ch == 'Y' { Some(KeyCode::KeyY) }
    else if ch == 'z' || ch == 'Z' { Some(KeyCode::KeyZ) }
    else if ch == '0' { Some(KeyCode::Digit0) }
    else if ch == '1' { Some(KeyCode::Digit1) }
    else if ch == '2' { Some(KeyCode::Digit2) }
    else if ch == '3' { Some(KeyCode::Digit3) }
    else if ch == '4' { Some(KeyCode::Digit4) }
    else if ch == '5' { Some(KeyCode::Digit5) }
    else if ch == '6' { Some(KeyCode::Digit6) }
    else if ch == '7' { Some(KeyCode::Digit7) }
    else if ch == '8' { Some(KeyCode::Digit8) }
    else if ch == '9' { Some(KeyCode::Digit9) }
    else if ch == '%' { Some(KeyCode::Digit5) }
    else if ch == '"' || ch == '\'' { Some(KeyCode::Quote) }
    else if ch == '[' { Some(KeyCode::BracketLeft) }
    else if ch == ']' { Some(KeyCode::BracketRight) }
    else if ch == '\\' { Some(KeyCode::Backslash) }
    else if ch == '/' { Some(KeyCode::Slash) }
    else if ch == '-' { Some(KeyCode::Minus) }
    else if ch == '=' { Some(KeyCode::Equal) }
    else if ch == ',' { Some(KeyCode::Comma) }
    else if ch == '.' { Some(KeyCode::Period) }
    else if ch == ';' { Some(KeyCode::Semicolon) }
    else if ch == '`' { Some(KeyCode::Backquote) }
    else { None }
}

/// The key a single character names in a binding string.
pub fn char_to_keycode(ch: char) -> (r: Option<KeyCode>)
    ensures
        r == spec_char_to_keycode(ch),
{
    match ch {
        'a' | 'A' => Some(KeyCode::KeyA),
        'b' | 'B' => Some(KeyCode::KeyB),
        'c' | 'C' => Some(KeyCode::KeyC),
        'd' | 'D' => Some(KeyCode::KeyD),
        'e' | 'E' => Some(KeyCode::KeyE),
        'f' | 'F' => Some(KeyCode::KeyF),
        'g' | 'G' => Some(KeyCode::KeyG),
        'h' | 'H' => Some(KeyCode::KeyH),
        'i' | 'I' => Some(KeyCode::KeyI),
        'j' | 'J' => Some(KeyCode::KeyJ),
        'k' | 'K' => Some(KeyCode::KeyK),
        'l' | 'L' => Some(KeyCode::KeyL),
        'm' | 'M' => Some(KeyCode::KeyM),
        'n' | 'N' => Some(KeyCode::KeyN),
        'o' | 'O' => Some(KeyCode::KeyO),
        'p' | 'P' => Some(KeyCode::KeyP),
        'q' | 'Q' => Some(KeyCode::KeyQ),
        'r' | 'R' => Some(KeyCode::KeyR),
        's' | 'S' => Some(KeyCode::KeyS),
        't' | 'T' => Some(KeyCode::KeyT),
        'u' | 'U' => Some(KeyCode::KeyU),
        'v' | 'V' => Some(KeyCode::KeyV),
        'w' | 'W' => Some(KeyCode::KeyW),
        'x' | 'X' => Some(KeyCode::KeyX),
        'y' | 'Y' => Some(KeyCode::KeyY),
        'z' | 'Z' => Some(KeyCode::KeyZ),
        '0' => Some(KeyCode::Digit0),
        '1' => Some(KeyCode::Digit1),
        '2' => Some(KeyCode::Digit2),
        '3' => Some(KeyCode::Digit3),
        '4' => Some(KeyCode::Digit4),
        '5' => Some(KeyCode::Digit5),
        '6' => Some(KeyCode::Digit6),
        '7' => Some(KeyCode::Digit7),
        '8' => Some(KeyCode::Digit8),
        '9' => Some(KeyCode::Digit9),
        '%' => Some(KeyCode::Digit5),
        '"' => Some(KeyCode::Quote),
        '\'' => Some(KeyCode::Quote),
        '[' => Some(KeyCode::BracketLeft),
        ']' => Some(KeyCode::BracketRight),
        '\\' => Some(KeyCode::Backslash),
        '/' => Some(KeyCode::Slash),
        '-' => Some(KeyCode::Minus),
        '=' => Some(KeyCode::Equal),
        ',' => Some(KeyCode::Comma),
        '.' => Some(KeyCode::Period),
        ';' => Some(KeyCode::Semicolon),
        '`' => Some(KeyCode::Backquote),
        _ => None,
    }
}

/// Each punctuation character of a binding string names the key that types
/// it (`'` and `"` share the quote key; `%` is Shift+5).
pub proof fn lemma_punctuation_keys()
    ensures
        spec_key_str_to_keycode(seq!['-']) == Some(KeyCode::Minus),
        spec_key_str_to_keycode(seq!['=']) == Some(KeyCode::Equal),
        spec_key_str_to_keycode(seq!['[']) == Some(KeyCode::BracketLeft),
        spec_key_str_to_keycode(seq![']']) == Some(KeyCode::BracketRight),
        spec_key_str_to_keycode(seq!['\\']) == Some(KeyCode::Backslash),
        spec_key_str_to_keycode(seq!['/']) == Some(KeyCode::Slash),
        spec_key_str_to_keycode(seq![',']) == Some(KeyCode::Comma),
        spec_key_str_to_keycode(seq!['.']) == Some(KeyCode::Period),
        spec_key_str_to_keycode(seq![';']) == Some(KeyCode::Semicolon),
        spec_key_str_to_keycode(seq!['`']) == Some(KeyCode::Backquote),
        spec_key_str_to_keycode(seq!['\'']) == Some(KeyCode::Quote),
        spec_key_str_to_keycode(seq!['"']) == Some(KeyCode::Quote),
        spec_key_str_to_keycode(seq!['%']) == Some(KeyCode::Digit5),
{
}

/// A letter of a binding string names its letter key in either case, and a
/// digit names its digit key: the key a character names is the key whose
/// binding name is that character, lowercased.
pub proof fn lemma_characters_name_their_key(code: KeyCode)
    requires
        spec_key_name(code) matches Some(n) && n.len() == 1,
    ensures
        spec_char_to_keycode(spec_key_name(code)->0[0]) == Some(code),
        spec_winit_code_to_char(code) matches Some(c) ==> spec_char_to_keycode(
            ((c as u32) - 32) as char,
        ) == Some(code),
{
}

/// The special key a lowercase name spells in a binding string.
pub open spec fn spec_special_key(w: Seq<char>) -> Option<KeyCode> {
    if w == seq!['e', 'n', 't', 'e', 'r'] || w == seq!['r', 'e', 't', 'u', 'r', 'n'] {
        Some(KeyCode::Enter)
    } else if w == seq!['b', 'a', 'c', 'k', 's', 'p', 'a', 'c', 'e'] {
        Some(KeyCode::Backspace)
    } else if w == seq!['d', 'e', 'l', 'e', 't', 'e'] || w == seq!['d', 'e', 'l'] {
        Some(KeyCode::Delete)
    } else if w == seq!['e', 's', 'c', 'a', 'p', 'e'] || w == seq!['e', 's', 'c'] {
        Some(KeyCode::Escape)
    } else if w == seq!['t', 'a', 'b'] {
        Some(KeyCode::Tab)
    } else if w == seq!['s', 'p', 'a', 'c', 'e'] {
        Some(KeyCode::Space)
    } else if w == seq!['u', 'p'] {
        Some(KeyCode::ArrowUp)
    } else if w == seq!['d', 'o', 'w', 'n'] {
        Some(KeyCode::ArrowDown)
    } else if w == seq!['l', 'e', 'f', 't'] {
        Some(KeyCode::ArrowLeft)
    } else if w == seq!['r', 'i', 'g', 'h', 't'] {
        Some(KeyCode::ArrowRight)
    } else if w == seq!['h', 'o', 'm', 'e'] {
        Some(KeyCode::Home)
    } else if w == seq!['e', 'n', 'd'] {
        Some(KeyCode::End)
    } else if w == seq!['p', 'a', 'g', 'e', 'u', 'p'] {
        Some(KeyCode::PageUp)
    } else if w == seq!['p', 'a', 'g', 'e', 'd', 'o', 'w', 'n'] {
        Some(KeyCode::PageDown)
    } else if w == seq!['i', 'n', 's', 'e', 'r', 't'] {
        Some(KeyCode::Insert)
    } else if w == seq!['f', '1'] {
        Some(KeyCode::F1)
    } else if w == seq!['f', '2'] {
        Some(KeyCode::F2)
    } else if w == seq!['f', '3'] {
        Some(KeyCode::F3)
    } else if w == seq!['f', '4'] {
        Some(KeyCode::F4)
    } else if w == seq!['f', '5'] {
        Some(KeyCode::F5)
    } else if w == seq!['f', '6'] {
        Some(KeyCode::F6)
    } else if w == seq!['f', '7'] {
        Some(KeyCode::F7)
    } else if w == seq!['f', '8'] {
        Some(KeyCode::F8)
    } else if w == seq!['f', '9'] {
        Some(KeyCode::F9)
    } else if w == seq!['f', '1', '0'] {
        Some(KeyCode::F10)
    } else if w == seq!['f', '1', '1'] {
        Some(KeyCode::F11)
    } else if w == seq!['f', '1', '2'] {
        Some(KeyCode::F12)
    } else {
        None
    }
}

fn special_key(w: &Vec<char>) -> (r: Option<KeyCode>)
    ensures
        r == spec_special_key(w@),
{
    if word_is(w, &['e', 'n', 't', 'e', 'r']) || word_is(w, &['r', 'e', 't', 'u', 'r', 'n']) {
        Some(KeyCode::Enter)
    } else if word_is(w, &['b', 'a', 'c', 'k', 's', 'p', 'a', 'c', 'e']) {
        Some(KeyCode::Backspace)
    } else if word_is(w, &['d', 'e', 'l', 'e', 't', 'e']) || word_is(w, &['d', 'e', 'l']) {
        Some(KeyCode::Delete)
    } else if word_is(w, &['e', 's', 'c', 'a', 'p', 'e']) || word_is(w, &['e', 's', 'c']) {
        Some(KeyCode::Escape)
    } else if word_is(w, &['t', 'a', 'b']) {
        Some(KeyCode::Tab)
    } else if word_is(w, &['s', 'p', 'a', 'c', 'e']) {
        Some(KeyCode::Space)
    } else if word_is(w, &['u', 'p']) {
        Some(KeyCode::ArrowUp)
    } else if word_is(w, &['d', 'o', 'w', 'n']) {
        Some(KeyCode::ArrowDown)
    } else if word_is(w, &['l', 'e', 'f', 't']) {
        Some(KeyCode::ArrowLeft)
    } else if word_is(w, &['r', 'i', 'g', 'h', 't']) {
        Some(KeyCode::ArrowRight)
    } else if word_is(w, &['h', 'o', 'm', 'e']) {
        Some(KeyCode::Home)
    } else if word_is(w, &['e', 'n', 'd']) {
        Some(KeyCode::End)
    } else if word_is(w, &['p', 'a', 'g', 'e', 'u', 'p']) {
        Some(KeyCode::PageUp)
    } else if word_is(w, &['p', 'a', 'g', 'e', 'd', 'o', 'w', 'n']) {
        Some(KeyCode::PageDown)
    } else if word_is(w, &['i', 'n', 's', 'e', 'r', 't']) {
        Some(KeyCode::Insert)
    } else if word_is(w, &['f', '1']) {
        Some(KeyCode::F1)
    } else if word_is(w, &['f', '2']) {
        Some(KeyCode::F2)
    } else if word_is(w, &['f', '3']) {
        Some(KeyCode::F3)
    } else if word_is(w, &['f', '4']) {
        Some(KeyCode::F4)
    } else if word_is(w, &['f', '5']) {
        Some(KeyCode::F5)
    } else if word_is(w, &['f', '6']) {
        Some(KeyCode::F6)
    } else if word_is(w, &['f', '7']) {
        Some(KeyCode::F7)
    } else if word_is(w, &['f', '8']) {
        Some(KeyCode::F8)
    } else if word_is(w, &['f', '9']) {
        Some(KeyCode::F9)
    } else if word_is(w, &['f', '1', '0']) {
        Some(KeyCode::F10)
    } else if word_is(w, &['f', '1', '1']) {
        Some(KeyCode::F11)
    } else if word_is(w, &['f', '1', '2']) {
        Some(KeyCode::F12)
    } else {
        None
    }
}

/// A string whose UTF-8 encoding is a single byte: one ASCII character.
pub open spec fn is_single_byte(s: Seq<char>) -> bool {
    s.len() == 1 && s[0] <= '\u{7f}'
}

/// The key a binding string's key part names: a one-byte string names a
/// character key; anything else is matched, lowercased, against the special
/// key names.
pub open spec fn spec_key_str_to_keycode(s: Seq<char>) -> Option<KeyCode> {
    if is_single_byte(s) {
        spec_char_to_keycode(s[0])
    } else {
        spec_special_key(lowercase(s))
    }
}

fn key_chars_to_keycode(v: &Vec<char>, a: usize, b: usize) -> (r: Option<KeyCode>)
    requires
        a <= b <= v.len(),
    ensures
        r == spec_key_str_to_keycode(v@.subrange(a as int, b as int)),
{
    if b - a == 1 && v[a] <= '\u{7f}' {
        return char_to_keycode(v[a]);
    }
    let w = lowercase_range(v, a, b);
    special_key(&w)
}

/// The key a binding string's key part names (`"p"`, `"F5"`, `"pageup"`), if
/// any.
pub fn key_str_to_keycode(s: &str) -> (r: Option<KeyCode>)
    ensures
        r == spec_key_str_to_keycode(s@),
{
    let v = chars_of(s);
    let r = key_chars_to_keycode(&v, 0, v.len());
    assert(v@.subrange(0, v@.len() as int) =~= v@);
    r
}

/// The canonical lowercase name of a key in binding strings, for the keys
/// that have one.
pub open spec fn spec_key_name(code: KeyCode) -> Option<Seq<char>> {
    match code {
        KeyCode::KeyA => Some(seq!['a']),
        KeyCode::KeyB => Some(seq!['b']),
        KeyCode::KeyC => Some(seq!['c']),
        KeyCode::KeyD => Some(seq!['d']),
        KeyCode::KeyE => Some(seq!['e']),
        KeyCode::KeyF => Some(seq!['f']),
        KeyCode::KeyG => Some(seq!['g']),
        KeyCode::KeyH => Some(seq!['h']),
        KeyCode::KeyI => Some(seq!['i']),
        KeyCode::KeyJ => Some(seq!['j']),
        KeyCode::KeyK => Some(seq!['k']),
        KeyCode::KeyL => Some(seq!['l']),
        KeyCode::KeyM => Some(seq!['m']),
        KeyCode::KeyN => Some(seq!['n']),
        KeyCode::KeyO => Some(seq!['o']),
        KeyCode::KeyP => Some(seq!['p']),
        KeyCode::KeyQ => Some(seq!['q']),
        KeyCode::KeyR => Some(seq!['r']),
        KeyCode::KeyS => Some(seq!['s']),
        KeyCode::KeyT => Some(seq!['t']),
        KeyCode::KeyU => Some(seq!['u']),
        KeyCode::KeyV => Some(seq!['v']),
        KeyCode::KeyW => Some(seq!['w']),
        KeyCode::KeyX => Some(seq!['x']),
        KeyCode::KeyY => Some(seq!['y']),
        KeyCode::KeyZ => Some(seq!['z']),
        KeyCode::Digit0 => Some(seq!['0']),
        KeyCode::Digit1 => Some(seq!['1']),
        KeyCode::Digit2 => Some(seq!['2']),
        KeyCode::Digit3 => Some(seq!['3']),
        KeyCode::Digit4 => Some(seq!['4']),
        KeyCode::Digit5 => Some(seq!['5']),
        KeyCode::Digit6 => Some(seq!['6']),
        KeyCode::Digit7 => Some(seq!['7']),
        KeyCode::Digit8 => Some(seq!['8']),
        KeyCode::Digit9 => Some(seq!['9']),
        KeyCode::Enter => Some(seq!['e', 'n', 't', 'e', 'r']),
        KeyCode::Backspace => Some(seq!['b', 'a', 'c', 'k', 's', 'p', 'a', 'c', 'e']),
        KeyCode::Delete => Some(seq!['d', 'e', 'l', 'e', 't', 'e']),
        KeyCode::Escape => Some(seq!['e', 's', 'c', 'a', 'p', 'e']),
        KeyCode::Tab => Some(seq!['t', 'a', 'b']),
        KeyCode::Space => Some(seq!['s', 'p', 'a', 'c', 'e']),
        KeyCode::ArrowUp => Some(seq!['u', 'p']),
        KeyCode::ArrowDown => Some(seq!['d', 'o', 'w', 'n']),
        KeyCode::ArrowLeft => Some(seq!['l', 'e', 'f', 't']),
        KeyCode::ArrowRight => Some(seq!['r', 'i', 'g', 'h', 't']),
        KeyCode::Home => Some(seq!['h', 'o', 'm', 'e']),
        KeyCode::End => Some(seq!['e', 'n', 'd']),
        KeyCode::PageUp => Some(seq!['p', 'a', 'g', 'e', 'u', 'p']),
        KeyCode::PageDown => Some(seq!['p', 'a', 'g', 'e', 'd', 'o', 'w', 'n']),
        KeyCode::Insert => Some(seq!['i', 'n', 's', 'e', 'r', 't']),
        KeyCode::F1 => Some(seq!['f', '1']),
        KeyCode::F2 => Some(seq!['f', '2']),
        KeyCode::F3 => Some(seq!['f', '3']),
        KeyCode::F4 => Some(seq!['f', '4']),
        KeyCode::F5 => Some(seq!['f', '5']),
        KeyCode::F6 => Some(seq!['f', '6']),
        KeyCode::F7 => Some(seq!['f', '7']),
        KeyCode::F8 => Some(seq!['f', '8']),
        KeyCode::F9 => Some(seq!['f', '9']),
        KeyCode::F10 => Some(seq!['f', '1', '0']),
        KeyCode::F11 => Some(seq!['f', '1', '1']),
        KeyCode::F12 => Some(seq!['f', '1', '2']),
        _ => None,
    }
}

/// The canonical lowercase name of a key in binding strings (the inverse of
/// [`key_str_to_keycode`] on the keys it names).
pub fn keycode_to_key_str(code: KeyCode) -> (r: Option<&'static str>)
    ensures
        r is Some <==> spec_key_name(code) is Some,
        r is Some ==> r->0@ == spec_key_name(code)->0,
{
    match code {
        KeyCode::KeyA => {
            proof {
                reveal_strlit("a");
            }
            Some("a")
        },
        KeyCode::KeyB => {
            proof {
                reveal_strlit("b");
            }
            Some("b")
        },
        KeyCode::KeyC => {
            proof {
                reveal_strlit("c");
            }
            Some("c")
        },
        KeyCode::KeyD => {
            proof {
                reveal_strlit("d");
            }
            Some("d")
        },
        KeyCode::KeyE => {
            proof {
                reveal_strlit("e");
            }
            Some("e")
        },
        KeyCode::KeyF => {
            proof {
                reveal_strlit("f");
            }
            Some("f")
        },
        KeyCode::KeyG => {
            proof {
                reveal_strlit("g");
            }
            Some("g")
        },
        KeyCode::KeyH => {
            proof {
                reveal_strlit("h");
            }
            Some("h")
        },
        KeyCode::KeyI => {
            proof {
                reveal_strlit("i");
            }
            Some("i")
        },
        KeyCode::KeyJ => {
            proof {
                reveal_strlit("j");
            }
            Some("j")
        },
        KeyCode::KeyK => {
            proof {
                reveal_strlit("k");
            }
            Some("k")
        },
        KeyCode::KeyL => {
            proof {
                reveal_strlit("l");
            }
            Some("l")
        },
        KeyCode::KeyM => {
            proof {
                reveal_strlit("m");
            }
            Some("m")
        },
        KeyCode::KeyN => {
            proof {
                reveal_strlit("n");
            }
            Some("n")
        },
        KeyCode::KeyO => {
            proof {
                reveal_strlit("o");
            }
            Some("o")
        },
        KeyCode::KeyP => {
            proof {
                reveal_strlit("p");
            }
            Some("p")
        },
        KeyCode::KeyQ => {
            proof {
                reveal_strlit("q");
            }
            Some("q")
        },
        KeyCode::KeyR => {
            proof {
                reveal_strlit("r");
            }
            Some("r")
        },
        KeyCode::KeyS => {
            proof {
                reveal_strlit("s");
            }
            Some("s")
        },
        KeyCode::KeyT => {
            proof {
                reveal_strlit("t");
            }
            Some("t")
        },
        KeyCode::KeyU => {
            proof {
                reveal_strlit("u");
            }
            Some("u")
        },
        KeyCode::KeyV => {
            proof {
                reveal_strlit("v");
            }
            Some("v")
        },
        KeyCode::KeyW => {
            proof {
                reveal_strlit("w");
            }
            Some("w")
        },
        KeyCode::KeyX => {
            proof {
                reveal_strlit("x");
            }
            Some("x")
        },
        KeyCode::KeyY => {
            proof {
                reveal_strlit("y");
            }
            Some("y")
        },
        KeyCode::KeyZ => {
            proof {
                reveal_strlit("z");
            }
            Some("z")
        },
        KeyCode::Digit0 => {
            proof {
                reveal_strlit("0");
            }
            Some("0")
        },
        KeyCode::Digit1 => {
            proof {
                reveal_strlit("1");
            }
            Some("1")
        },
        KeyCode::Digit2 => {
            proof {
                reveal_strlit("2");
            }
            Some("2")
        },
        KeyCode::Digit3 => {
            proof {
                reveal_strlit("3");
            }
            Some("3")
        },
        KeyCode::Digit4 => {
            proof {
                reveal_strlit("4");
            }
            Some("4")
        },
        KeyCode::Digit5 => {
            proof {
                reveal_strlit("5");
            }
            Some("5")
        },
        KeyCode::Digit6 => {
            proof {
                reveal_strlit("6");
            }
            Some("6")
        },
        KeyCode::Digit7 => {
            proof {
                reveal_strlit("7");
            }
            Some("7")
        },
        KeyCode::Digit8 => {
            proof {
                reveal_strlit("8");
            }
            Some("8")
        },
        KeyCode::Digit9 => {
            proof {
                reveal_strlit("9");
            }
            Some("9")
        },
        KeyCode::Enter => {
            proof {
                reveal_strlit("enter");
            }
            Some("enter")
        },
        KeyCode::Backspace => {
            proof {
                reveal_strlit("backspace");
            }
            Some("backspace")
        },
        KeyCode::Delete => {
            proof {
                reveal_strlit("delete");
            }
            Some("delete")
        },
        KeyCode::Escape => {
            proof {
                reveal_strlit("escape");
            }
            Some("escape")
        },
        KeyCode::Tab => {
            proof {
                reveal_strlit("tab");
            }
            Some("tab")
        },
        KeyCode::Space => {
            proof {
                reveal_strlit("space");
            }
            Some("space")
        },
        KeyCode::ArrowUp => {
            proof {
                reveal_strlit("up");
            }
            Some("up")
        },
        KeyCode::ArrowDown => {
            proof {
                reveal_strlit("down");
            }
            Some("down")
        },
        KeyCode::ArrowLeft => {
            proof {
                reveal_strlit("left");
            }
            Some("left")
        },
        KeyCode::ArrowRight => {
            proof {
                reveal_strlit("right");
            }
            Some("right")
        },
        KeyCode::Home => {
            proof {
                reveal_strlit("home");
            }
            Some("home")
        },
        KeyCode::End => {
            proof {
                reveal_strlit("end");
            }
            Some("end")
        },
        KeyCode::PageUp => {
            proof {
                reveal_strlit("pageup");
            }
            Some("pageup")
        },
        KeyCode::PageDown => {
            proof {
                reveal_strlit("pagedown");
            }
            Some("pagedown")
        },
        KeyCode::Insert => {
            proof {
                reveal_strlit("insert");
            }
            Some("insert")
        },
        KeyCode::F1 => {
            proof {
                reveal_strlit("f1");
            }
            Some("f1")
        },
        KeyCode::F2 => {
            proof {
                reveal_strlit("f2");
            }
            Some("f2")
        },
        KeyCode::F3 => {
            proof {
                reveal_strlit("f3");
            }
            Some("f3")
        },
        KeyCode::F4 => {
            proof {
                reveal_strlit("f4");
            }
            Some("f4")
        },
        KeyCode::F5 => {
            proof {
                reveal_strlit("f5");
            }
            Some("f5")
        },
        KeyCode::F6 => {
            proof {
                reveal_strlit("f6");
            }
            Some("f6")
        },
        KeyCode::F7 => {
            proof {
                reveal_strlit("f7");
            }
            Some("f7")
        },
        KeyCode::F8 => {
            proof {
                reveal_strlit("f8");
            }
            Some("f8")
        },
        KeyCode::F9 => {
            proof {
                reveal_strlit("f9");
            }
            Some("f9")
        },
        KeyCode::F10 => {
            proof {
                reveal_strlit("f10");
            }
            Some("f10")
        },
        KeyCode::F11 => {
            proof {
                reveal_strlit("f11");
            }
            Some("f11")
        },
        KeyCode::F12 => {
            proof {
                reveal_strlit("f12");
            }
            Some("f12")
        },
        _ => None,
    }
}

/// No character of `s` is `+`.
pub open spec fn no_plus(s: Seq<char>) -> bool {
    forall|k: int| 0 <= k < s.len() ==> #[trigger] s[k] != '+'
}

/// No character of `s` is whitespace.
pub open spec fn no_ws(s: Seq<char>) -> bool {
    forall|k: int| 0 <= k < s.len() ==> !is_ws(#[trigger] s[k])
}

/// A word of lowercase ASCII letters and digits has no `+`, no whitespace,
/// and is its own lowercase.
proof fn lemma_plain_word(n: Seq<char>)
    requires
        forall|k: int| 0 <= k < n.len() ==> ('a' <= #[trigger] n[k] <= 'z') || ('0' <= n[k] <= '9'),
    ensures
        no_plus(n),
        no_ws(n),
        is_ascii_text(n),
        lowercase(n) == n,
{
    assert(lowercase(n) =~= n);
}

/// A key's canonical name is a non-empty lowercase word without `+` or
/// whitespace, and parsing it back gives the key again.
pub proof fn lemma_key_name(code: KeyCode)
    requires
        spec_key_name(code) is Some,
    ensures
        spec_key_name(code)->0.len() > 0,
        lowercase(spec_key_name(code)->0) == spec_key_name(code)->0,
        no_plus(spec_key_name(code)->0),
        no_ws(spec_key_name(code)->0),
        spec_key_str_to_keycode(spec_key_name(code)->0) == Some(code),
{
    let n = spec_key_name(code)->0;
    if n.len() == 1 {
        assert(is_single_byte(n));
        lemma_plain_word(n);
    } else {
        lemma_special_names_a(code);
        lemma_special_names_b(code);
    }
}

#[verifier::spinoff_prover]
proof fn lemma_special_names_a(code: KeyCode)
    ensures
        spec_key_name(code) is Some && spec_key_name(code)->0.len() > 1 ==> {
            let n = spec_key_name(code)->0;
            &&& no_plus(n) && no_ws(n) && is_ascii_text(n) && lowercase(n) == n
            &&& spec_special_key(n) == Some(code)
        },
{
    match code {
        KeyCode::Enter => {
            lemma_plain_word(seq!['e', 'n', 't', 'e', 'r']);
            assert(spec_special_key(seq!['e', 'n', 't', 'e', 'r']) == Some(KeyCode::Enter));
        },
        KeyCode::Backspace => {
            lemma_plain_word(seq!['b', 'a', 'c', 'k', 's', 'p', 'a', 'c', 'e']);
            assert(spec_special_key(seq!['b', 'a', 'c', 'k', 's', 'p', 'a', 'c', 'e']) == Some(KeyCode::Backspace));
        },
        KeyCode::Delete => {
            lemma_plain_word(seq!['d', 'e', 'l', 'e', 't', 'e']);
            assert(spec_special_key(seq!['d', 'e', 'l', 'e', 't', 'e']) == Some(KeyCode::Delete));
        },
        KeyCode::Escape => {
            lemma_plain_word(seq!['e', 's', 'c', 'a', 'p', 'e']);
            assert(spec_special_key(seq!['e', 's', 'c', 'a', 'p', 'e']) == Some(KeyCode::Escape));
        },
        KeyCode::Tab => {
            lemma_plain_word(seq!['t', 'a', 'b']);
            assert(spec_special_key(seq!['t', 'a', 'b']) == Some(KeyCode::Tab));
        },
        KeyCode::Space => {
            lemma_plain_word(seq!['s', 'p', 'a', 'c', 'e']);
            assert(spec_special_key(seq!['s', 'p', 'a', 'c', 'e']) == Some(KeyCode::Space));
        },
        KeyCode::ArrowUp => {
            lemma_plain_word(seq!['u', 'p']);
            assert(spec_special_key(seq!['u', 'p']) == Some(KeyCode::ArrowUp));
        },
        KeyCode::ArrowDown => {
            lemma_plain_word(seq!['d', 'o', 'w', 'n']);
            assert(spec_special_key(seq!['d', 'o', 'w', 'n']) == Some(KeyCode::ArrowDown));
        },
        KeyCode::ArrowLeft => {
            lemma_plain_word(seq!['l', 'e', 'f', 't']);
            assert(spec_special_key(seq!['l', 'e', 'f', 't']) == Some(KeyCode::ArrowLeft));
        },
        KeyCode::ArrowRight => {
            lemma_plain_word(seq!['r', 'i', 'g', 'h', 't']);
            assert(spec_special_key(seq!['r', 'i', 'g', 'h', 't']) == Some(KeyCode::ArrowRight));
        },
        KeyCode::Home => {
            lemma_plain_word(seq!['h', 'o', 'm', 'e']);
            assert(spec_special_key(seq!['h', 'o', 'm', 'e']) == Some(KeyCode::Home));
        },
        KeyCode::End => {
            lemma_plain_word(seq!['e', 'n', 'd']);
            assert(spec_special_key(seq!['e', 'n', 'd']) == Some(KeyCode::End));
        },
        KeyCode::PageUp => {
            lemma_plain_word(seq!['p', 'a', 'g', 'e', 'u', 'p']);
            assert(spec_special_key(seq!['p', 'a', 'g', 'e', 'u', 'p']) == Some(KeyCode::PageUp));
        },
        _ => {},
    }
}

#[verifier::spinoff_prover]
proof fn lemma_special_names_b(code: KeyCode)
    ensures
        spec_key_name(code) is Some && spec_key_name(code)->0.len() > 1 ==> {
            let n = spec_key_name(code)->0;
            &&& no_plus(n) && no_ws(n) && is_ascii_text(n) && lowercase(n) == n
            &&& spec_special_key(n) == Some(code)
        },
{
    match code {
        KeyCode::PageDown => {
            lemma_plain_word(seq!['p', 'a', 'g', 'e', 'd', 'o', 'w', 'n']);
            assert(spec_special_key(seq!['p', 'a', 'g', 'e', 'd', 'o', 'w', 'n']) == Some(KeyCode::PageDown));
        },
        KeyCode::Insert => {
            lemma_plain_word(seq!['i', 'n', 's', 'e', 'r', 't']);
            assert(spec_special_key(seq!['i', 'n', 's', 'e', 'r', 't']) == Some(KeyCode::Insert));
        },
        KeyCode::F1 => {
            lemma_plain_word(seq!['f', '1']);
            assert(spec_special_key(seq!['f', '1']) == Some(KeyCode::F1));
        },
        KeyCode::F2 => {
            lemma_plain_word(seq!['f', '2']);
            assert(spec_special_key(seq!['f', '2']) == Some(KeyCode::F2));
        },
        KeyCode::F3 => {
            lemma_plain_word(seq!['f', '3']);
            assert(spec_special_key(seq!['f', '3']) == Some(KeyCode::F3));
        },
        KeyCode::F4 => {
            lemma_plain_word(seq!['f', '4']);
            assert(spec_special_key(seq!['f', '4']) == Some(KeyCode::F4));
        },
        KeyCode::F5 => {
            lemma_plain_word(seq!['f', '5']);
            assert(spec_special_key(seq!['f', '5']) == Some(KeyCode::F5));
        },
        KeyCode::F6 => {
            lemma_plain_word(seq!['f', '6']);
            assert(spec_special_key(seq!['f', '6']) == Some(KeyCode::F6));
        },
        KeyCode::F7 => {
            lemma_plain_word(seq!['f', '7']);
            assert(spec_special_key(seq!['f', '7']) == Some(KeyCode::F7));
        },
        KeyCode::F8 => {
            lemma_plain_word(seq!['f', '8']);
            assert(spec_special_key(seq!['f', '8']) == Some(KeyCode::F8));
        },
        KeyCode::F9 => {
            lemma_plain_word(seq!['f', '9']);
            assert(spec_special_key(seq!['f', '9']) == Some(KeyCode::F9));
        },
        KeyCode::F10 => {
            lemma_plain_word(seq!['f', '1', '0']);
            assert(spec_special_key(seq!['f', '1', '0']) == Some(KeyCode::F10));
        },
        KeyCode::F11 => {
            lemma_plain_word(seq!['f', '1', '1']);
            assert(spec_special_key(seq!['f', '1', '1']) == Some(KeyCode::F11));
        },
        KeyCode::F12 => {
            lemma_plain_word(seq!['f', '1', '2']);
            assert(spec_special_key(seq!['f', '1', '2']) == Some(KeyCode::F12));
        },
        _ => {},
    }
}

/// `word` followed by `+` when `present`; empty otherwise.
pub open spec fn opt_word(present: bool, word: Seq<char>) -> Seq<char> {
    if present {
        word.push('+')
    } else {
        Seq::empty()
    }
}

/// The modifier part of a binding string: each held modifier's name followed
/// by `+`, in the fixed order ctrl, shift, alt, meta.
pub open spec fn mod_prefix(mods: ModifiersState) -> Seq<char> {
    opt_word(mods.control, seq!['c', 't', 'r', 'l'])
        + opt_word(mods.shift, seq!['s', 'h', 'i', 'f', 't'])
        + opt_word(mods.alt, seq!['a', 'l', 't'])
        + opt_word(mods.meta, seq!['m', 'e', 't', 'a'])
}

/// The binding string of a key press: the modifier part, then the key's
/// name; `None` for a key without a name.
pub open spec fn spec_format_key_event(code: KeyCode, mods: ModifiersState) -> Option<Seq<char>> {
    match spec_key_name(code) {
        None => None,
        Some(name) => Some(mod_prefix(mods) + name),
    }
}

fn modifier_prefix(mods: ModifiersState) -> (r: String)
    ensures
        r@ == mod_prefix(mods),
{
    let mut out = String::new();
    proof {
        reveal_strlit("ctrl+");
        reveal_strlit("shift+");
        reveal_strlit("alt+");
        reveal_strlit("meta+");
    }
    if mods.control_key() {
        out.append("ctrl+");
    }
    assert(out@ =~= opt_word(mods.control, seq!['c', 't', 'r', 'l']));
    let ghost a = out@;
    if mods.shift_key() {
        out.append("shift+");
    }
    assert(out@ =~= a + opt_word(mods.shift, seq!['s', 'h', 'i', 'f', 't']));
    let ghost b = out@;
    if mods.alt_key() {
        out.append("alt+");
    }
    assert(out@ =~= b + opt_word(mods.alt, seq!['a', 'l', 't']));
    let ghost c = out@;
    if mods.super_key() {
        out.append("meta+");
    }
    assert(out@ =~= c + opt_word(mods.meta, seq!['m', 'e', 't', 'a']));
    out
}

/// Format a key press as a canonical binding string (`"ctrl+shift+p"`,
/// `"f5"`, `"a"`). `None` for keys without a name, pure modifier presses
/// among them. Fed back to [`config_key_matches`] the string matches the same
/// press.
pub fn format_key_event(code: KeyCode, mods: ModifiersState) -> (r: Option<String>)
    ensures
        r is Some <==> spec_format_key_event(code, mods) is Some,
        r is Some ==> r->0@ == spec_format_key_event(code, mods)->0,
{
    let key_name = match keycode_to_key_str(code) {
        Some(n) => n,
        None => {
            return None;
        },
    };
    let mut out = modifier_prefix(mods);
    out.append(key_name);
    Some(out)
}

/// A modifier a binding string can require.
#[derive(Clone, Copy, Debug, PartialEq, Eq, Structural)]
pub enum Modifier {
    Ctrl,
    Shift,
    Alt,
    Meta,
}

/// The modifier a lowercase word names, if any.
pub open spec fn spec_modifier_name(w: Seq<char>) -> Option<Modifier> {
    if w == seq!['c', 't', 'r', 'l'] || w == seq!['c', 'o', 'n', 't', 'r', 'o', 'l'] {
        Some(Modifier::Ctrl)
    } else if w == seq!['s', 'h', 'i', 'f', 't'] {
        Some(Modifier::Shift)
    } else if w == seq!['a', 'l', 't'] || w == seq!['o', 'p', 't', 'i', 'o', 'n'] {
        Some(Modifier::Alt)
    } else if w == seq!['m', 'e', 't', 'a'] || w == seq!['s', 'u', 'p', 'e', 'r'] || w == seq!['c', 'm', 'd']
        || w == seq!['c', 'o', 'm', 'm', 'a', 'n', 'd'] {
        Some(Modifier::Meta)
    } else {
        None
    }
}

fn modifier_name(w: &Vec<char>) -> (r: Option<Modifier>)
    ensures
        r == spec_modifier_name(w@),
{
    if word_is(w, &['c', 't', 'r', 'l']) || word_is(w, &['c', 'o', 'n', 't', 'r', 'o', 'l']) {
        Some(Modifier::Ctrl)
    } else if word_is(w, &['s', 'h', 'i', 'f', 't']) {
        Some(Modifier::Shift)
    } else if word_is(w, &['a', 'l', 't']) || word_is(w, &['o', 'p', 't', 'i', 'o', 'n']) {
        Some(Modifier::Alt)
    } else if word_is(w, &['m', 'e', 't', 'a']) || word_is(w, &['s', 'u', 'p', 'e', 'r']) || word_is(w, &['c', 'm', 'd'])
        || word_is(w, &['c', 'o', 'm', 'm', 'a', 'n', 'd']) {
        Some(Modifier::Meta)
    } else {
        None
    }
}

/// `t[a..b]` is one of the `+`-separated parts of `t`.
pub open spec fn is_part(t: Seq<char>, a: int, b: int) -> bool {
    &&& 0 <= a <= b <= t.len()
    &&& a == 0 || t[a - 1] == '+'
    &&& b == t.len() || t[b] == '+'
    &&& forall|k: int| a <= k < b ==> #[trigger] t[k] != '+'
}

/// Some part of `t` that ends before position `i` and is not the last part
/// names modifier `m` (case-insensitively).
#[verifier::opaque]
pub open spec fn named_before(t: Seq<char>, i: int, m: Modifier) -> bool {
    exists|a: int, b: int|
        #[trigger] is_part(t, a, b) && b < i && b < t.len() && spec_modifier_name(
            lowercase(t.subrange(a, b)),
        ) == Some(m)
}

/// One of the parts of `t` before the last names modifier `m`. Words that name
/// no modifier are ignored.
pub open spec fn names_modifier(t: Seq<char>, m: Modifier) -> bool {
    named_before(t, t.len() as int, m)
}

/// Where the last `+`-separated part of `t` starts.
pub open spec fn last_part_start(t: Seq<char>) -> int
    decreases t.len(),
{
    if t.len() == 0 {
        0
    } else if t.last() == '+' {
        t.len() as int
    } else {
        last_part_start(t.drop_last())
    }
}

/// A `+`-separated binding token (`"ctrl+shift+p"`) matches a press when the
/// modifiers it names are exactly the ones held, and its last part names the
/// key.
pub open spec fn spec_token_matches(t: Seq<char>, code: KeyCode, mods: ModifiersState) -> bool {
    &&& names_modifier(t, Modifier::Ctrl) == mods.control
    &&& names_modifier(t, Modifier::Shift) == mods.shift
    &&& names_modifier(t, Modifier::Alt) == mods.alt
    &&& names_modifier(t, Modifier::Meta) == mods.meta
    &&& spec_key_str_to_keycode(t.subrange(last_part_start(t), t.len() as int)) == Some(code)
}

proof fn lemma_named_step(t: Seq<char>, i: int, start: int, m: Modifier)
    requires
        0 <= start <= i < t.len(),
        start == 0 || t[start - 1] == '+',
        forall|k: int| start <= k < i ==> #[trigger] t[k] != '+',
    ensures
        t[i] == '+' ==> (named_before(t, i + 1, m) <==> (named_before(t, i, m)
            || spec_modifier_name(lowercase(t.subrange(start, i))) == Some(m))),
        t[i] != '+' ==> (named_before(t, i + 1, m) <==> named_before(t, i, m)),
{
    reveal(named_before);
    if named_before(t, i + 1, m) && !named_before(t, i, m) {
        let (a, b) = choose|a: int, b: int|
            #[trigger] is_part(t, a, b) && b < i + 1 && b < t.len() && spec_modifier_name(
                lowercase(t.subrange(a, b)),
            ) == Some(m);
        assert(b == i);
        if a < start {
            assert(t[start - 1] == '+');
        } else if a > start {
            assert(t[a - 1] == '+');
        }
        assert(a == start);
    }
    if t[i] == '+' && spec_modifier_name(lowercase(t.subrange(start, i))) == Some(m) {
        assert(is_part(t, start, i));
    }
}

proof fn lemma_last_part_step(t: Seq<char>, i: int)
    requires
        0 <= i < t.len(),
    ensures
        last_part_start(t.subrange(0, i + 1)) == if t[i] == '+' { i + 1 } else { last_part_start(t.subrange(0, i)) },
{
    assert(t.subrange(0, i + 1).drop_last() =~= t.subrange(0, i));
}

fn token_matches(v: &Vec<char>, code: KeyCode, mods: ModifiersState) -> (r: bool)
    ensures
        r == spec_token_matches(v@, code, mods),
{
    let mut need_ctrl = false;
    let mut need_shift = false;
    let mut need_alt = false;
    let mut need_meta = false;
    let mut start: usize = 0;
    let mut i: usize = 0;
    proof {
        reveal(named_before);
    }
    while i < v.len()
        invariant
            start <= i <= v.len(),
            start == 0 || v@[start - 1] == '+',
            forall|k: int| start <= k < i ==> #[trigger] v@[k] != '+',
            start == last_part_start(v@.subrange(0, i as int)),
            need_ctrl == named_before(v@, i as int, Modifier::Ctrl),
            need_shift == named_before(v@, i as int, Modifier::Shift),
            need_alt == named_before(v@, i as int, Modifier::Alt),
            need_meta == named_before(v@, i as int, Modifier::Meta),
        decreases v.len() - i,
    {
        proof {
            lemma_named_step(v@, i as int, start as int, Modifier::Ctrl);
            lemma_named_step(v@, i as int, start as int, Modifier::Shift);
            lemma_named_step(v@, i as int, start as int, Modifier::Alt);
            lemma_named_step(v@, i as int, start as int, Modifier::Meta);
            lemma_last_part_step(v@, i as int);
        }
        if v[i] == '+' {
            let w = lowercase_range(v, start, i);
            match modifier_name(&w) {
                Some(Modifier::Ctrl) => {
                    need_ctrl = true;
                },
                Some(Modifier::Shift) => {
                    need_shift = true;
                },
                Some(Modifier::Alt) => {
                    need_alt = true;
                },
                Some(Modifier::Meta) => {
                    need_meta = true;
                },
                None => {},
            }
            start = i + 1;
        }
        i = i + 1;
    }
    assert(v@.subrange(0, v@.len() as int) =~= v@);
    if need_ctrl != mods.control_key() || need_shift != mods.shift_key() || need_alt != mods.alt_key()
        || need_meta != mods.super_key() {
        return false;
    }
    match key_chars_to_keycode(v, start, v.len()) {
        Some(k) => k == code,
        None => false,
    }
}

/// Match one `+`-separated binding token (`"ctrl+shift+p"`, no whitespace)
/// against a key press: the modifier names before the last `+` (`ctrl` or
/// `control`, `shift`, `alt` or `option`, `meta`, `super`, `cmd` or `command`,
/// in any case; other words are ignored) must be exactly the modifiers held,
/// and the last part must name the key.
pub fn config_key_matches_token(token: &str, code: KeyCode, mods: ModifiersState) -> (r: bool)
    ensures
        r == spec_token_matches(token@, code, mods),
{
    let v = chars_of(token);
    token_matches(&v, code, mods)
}

/// `s` holds more than one whitespace-separated word
/// (`split_whitespace().count() > 1`): some whitespace lies between two
/// non-whitespace characters.
pub open spec fn several_words(s: Seq<char>) -> bool {
    exists|i: int, j: int, k: int|
        #![trigger s[i], s[j], s[k]]
        0 <= i < j < k < s.len() && !is_ws(s[i]) && is_ws(s[j]) && !is_ws(s[k])
}

/// Whether a configured binding matches a key press. Only single bindings
/// match: a string of several whitespace-separated words (a prefix binding
/// such as `"ctrl+b d"`) never does, nor does an empty one; otherwise the
/// trimmed string is matched as a token.
pub open spec fn spec_config_key_matches(s: Seq<char>, code: KeyCode, mods: ModifiersState) -> bool {
    !several_words(s) && trim(s).len() > 0 && spec_token_matches(trim(s), code, mods)
}

/// Match a configured keybinding (`"ctrl+shift+p"`) against a key press.
/// Prefix bindings of several words (`"ctrl+b d"`) are the caller's to split
/// and never match here.
pub fn config_key_matches(key_str: &str, code: KeyCode, mods: ModifiersState) -> (r: bool)
    ensures
        r == spec_config_key_matches(key_str@, code, mods),
{
    let v = chars_of(key_str);
    let (a, b) = trim_bounds(&v);
    let ghost t = v@.subrange(a as int, b as int);
    let mut j = a;
    while j < b
        invariant
            a <= j <= b <= v.len(),
            t == v@.subrange(a as int, b as int),
            t == trim(key_str@),
            v@ == key_str@,
            a < b ==> !is_ws(v@[a as int]) && !is_ws(v@[b - 1]),
            forall|k: int| 0 <= k < j - a ==> !is_ws(#[trigger] t[k]),
        decreases b - j,
    {
        if is_whitespace(v[j]) {
            assert(is_ws(t[j - a]));
            proof {
                if j > a && j + 1 < b {
                    assert(!is_ws(v@[a as int]) && is_ws(v@[j as int]) && !is_ws(v@[b - 1]));
                    assert(several_words(key_str@));
                }
            }
            return false;
        }
        assert(t[j - a] == v@[j as int]);
        j = j + 1;
    }
    if a == b {
        return false;
    }
    proof {
        if several_words(key_str@) {
            let (i, j, k) = choose|i: int, j: int, k: int|
                #![trigger v@[i], v@[j], v@[k]]
                0 <= i < j < k < v@.len() && !is_ws(v@[i]) && is_ws(v@[j]) && !is_ws(v@[k]);
            assert(i >= a);
            assert(k < b);
            assert(t[j - a] == v@[j]);
        }
    }
    let token = chars_of(string_from_range(&v, a, b).as_str());
    token_matches(&token, code, mods)
}

/// A string without `+` is a single part: it names no modifier and is its own
/// last part.
proof fn lemma_single_part(n: Seq<char>, m: Modifier)
    requires
        no_plus(n),
    ensures
        !names_modifier(n, m),
        last_part_start(n) == 0,
    decreases n.len(),
{
    reveal(named_before);
    if names_modifier(n, m) {
        let (a, b) = choose|a: int, b: int|
            #[trigger] is_part(n, a, b) && b < n.len() && b < n.len() && spec_modifier_name(
                lowercase(n.subrange(a, b)),
            ) == Some(m);
        assert(n[b] == '+');
    }
    if n.len() > 0 {
        assert(n.last() == n[n.len() - 1]);
        lemma_single_part(n.drop_last(), m);
    }
}

/// Putting a part `w` and a `+` before `r` adds `w` to the modifier parts and
/// moves the last part along.
proof fn lemma_prefix_part(w: Seq<char>, r: Seq<char>, m: Modifier)
    requires
        no_plus(w),
    ensures
        names_modifier(w.push('+') + r, m) == (spec_modifier_name(lowercase(w)) == Some(m)
            || names_modifier(r, m)),
        last_part_start(w.push('+') + r) == w.len() + 1 + last_part_start(r),
    decreases r.len(),
{
    reveal(named_before);
    let s = w.push('+') + r;
    let l = w.len() as int;
    assert(s[l] == '+');
    assert forall|k: int| 0 <= k < l implies #[trigger] s[k] == w[k] by {}
    assert forall|k: int| 0 <= k < r.len() implies #[trigger] s[l + 1 + k] == r[k] by {}
    if spec_modifier_name(lowercase(w)) == Some(m) {
        assert(s.subrange(0, l) =~= w);
        assert(is_part(s, 0, l));
    }
    if names_modifier(r, m) {
        let (a, b) = choose|a: int, b: int|
            #[trigger] is_part(r, a, b) && b < r.len() && b < r.len() && spec_modifier_name(
                lowercase(r.subrange(a, b)),
            ) == Some(m);
        assert(s.subrange(a + l + 1, b + l + 1) =~= r.subrange(a, b));
        assert forall|k: int| a + l + 1 <= k < b + l + 1 implies #[trigger] s[k] != '+' by {
            assert(s[k] == r[k - l - 1]);
        }
        if a > 0 {
            assert(s[a + l] == r[a - 1]);
        }
        assert(s[b + l + 1] == r[b]);
        assert(is_part(s, a + l + 1, b + l + 1));
    }
    if names_modifier(s, m) && spec_modifier_name(lowercase(w)) != Some(m) {
        let (a, b) = choose|a: int, b: int|
            #[trigger] is_part(s, a, b) && b < s.len() && b < s.len() && spec_modifier_name(
                lowercase(s.subrange(a, b)),
            ) == Some(m);
        assert(s[b] == '+');
        if b < l {
            assert(s[b] == w[b]);
        } else if b == l {
            if a > 0 {
                assert(s[a - 1] == w[a - 1]);
            }
            assert(s.subrange(a, b) =~= w);
        } else {
            if a <= l {
                assert(s[l] == '+');
            }
            assert(a > l);
            let a2 = a - l - 1;
            let b2 = b - l - 1;
            assert forall|k: int| a2 <= k < b2 implies #[trigger] r[k] != '+' by {
                assert(s[k + l + 1] == r[k]);
            }
            if a2 > 0 {
                assert(s[a - 1] == r[a2 - 1]);
            }
            assert(s[b] == r[b2]);
            assert(is_part(r, a2, b2));
            assert(s.subrange(a, b) =~= r.subrange(a2, b2));
        }
    }
    if r.len() == 0 {
        assert(s.last() == '+');
    } else {
        assert(s.last() == r.last());
        if r.last() != '+' {
            assert(s.drop_last() =~= w.push('+') + r.drop_last());
            lemma_prefix_part(w, r.drop_last(), m);
        }
    }
}

/// One optional modifier word in front of `rest`.
proof fn lemma_level(present: bool, word: Seq<char>, rest: Seq<char>, m: Modifier)
    requires
        no_plus(word),
        no_ws(word),
        no_ws(rest),
        lowercase(word) == word,
    ensures
        names_modifier(opt_word(present, word) + rest, m) == ((present && spec_modifier_name(word)
            == Some(m)) || names_modifier(rest, m)),
        last_part_start(opt_word(present, word) + rest) == opt_word(present, word).len()
            + last_part_start(rest),
        no_ws(opt_word(present, word) + rest),
{
    let s = opt_word(present, word) + rest;
    if present {
        lemma_prefix_part(word, rest, m);
    } else {
        assert(s =~= rest);
    }
    assert forall|k: int| 0 <= k < s.len() implies !is_ws(#[trigger] s[k]) by {
        let o = opt_word(present, word);
        if k < o.len() {
            if k < word.len() {
                assert(s[k] == word[k]);
            } else {
                assert(s[k] == '+');
            }
        } else {
            assert(s[k] == rest[k - o.len()]);
        }
    }
}

/// The four optional modifier words in front of a single part.
proof fn lemma_levels(n: Seq<char>, mods: ModifiersState, m: Modifier)
    requires
        no_plus(n),
        no_ws(n),
    ensures
        names_modifier(mod_prefix(mods) + n, m) == match m {
            Modifier::Ctrl => mods.control,
            Modifier::Shift => mods.shift,
            Modifier::Alt => mods.alt,
            Modifier::Meta => mods.meta,
        },
        last_part_start(mod_prefix(mods) + n) == mod_prefix(mods).len(),
        no_ws(mod_prefix(mods) + n),
{
    let ctrl = seq!['c', 't', 'r', 'l'];
    let shift = seq!['s', 'h', 'i', 'f', 't'];
    let alt = seq!['a', 'l', 't'];
    let meta = seq!['m', 'e', 't', 'a'];
    lemma_plain_word(ctrl);
    lemma_plain_word(shift);
    lemma_plain_word(alt);
    lemma_plain_word(meta);
    let r4 = opt_word(mods.meta, meta) + n;
    let r3 = opt_word(mods.alt, alt) + r4;
    let r2 = opt_word(mods.shift, shift) + r3;
    let r1 = opt_word(mods.control, ctrl) + r2;
    lemma_single_part(n, m);
    lemma_level(mods.meta, meta, n, m);
    lemma_level(mods.alt, alt, r4, m);
    lemma_level(mods.shift, shift, r3, m);
    lemma_level(mods.control, ctrl, r2, m);
    assert(spec_modifier_name(ctrl) == Some(Modifier::Ctrl));
    assert(spec_modifier_name(shift) == Some(Modifier::Shift));
    assert(spec_modifier_name(alt) == Some(Modifier::Alt));
    assert(spec_modifier_name(meta) == Some(Modifier::Meta));
    assert(mod_prefix(mods) + n =~= r1);
}

/// The modifier part in front of a single-part key name gives a token that
/// requires exactly those modifiers and that key.
proof fn lemma_prefix_matches(n: Seq<char>, code: KeyCode, mods: ModifiersState)
    requires
        n.len() > 0,
        no_plus(n),
        no_ws(n),
        spec_key_str_to_keycode(n) == Some(code),
    ensures
        spec_token_matches(mod_prefix(mods) + n, code, mods),
        no_ws(mod_prefix(mods) + n),
{
    lemma_levels(n, mods, Modifier::Ctrl);
    lemma_levels(n, mods, Modifier::Shift);
    lemma_levels(n, mods, Modifier::Alt);
    lemma_levels(n, mods, Modifier::Meta);
    let p = mod_prefix(mods);
    let s = p + n;
    assert(s.subrange(p.len() as int, s.len() as int) =~= n);
}

/// A non-empty string without whitespace is its own trimmed form and holds a
/// single word.
proof fn lemma_one_word(s: Seq<char>)
    requires
        s.len() > 0,
        no_ws(s),
    ensures
        trim(s) == s,
        !several_words(s),
{
    assert(!is_ws(s[0]));
    assert(!is_ws(s[s.len() - 1]));
    lemma_trim_start_at(s, 0);
    assert(s.subrange(0, s.len() as int) =~= s);
    lemma_trim_end_at(s, s.len() as int);
}

/// Formatting and matching agree: the binding string that
/// [`format_key_event`] makes of a key press matches that same press under
/// [`config_key_matches`].
pub proof fn lemma_format_round_trips(code: KeyCode, mods: ModifiersState)
    requires
        spec_format_key_event(code, mods) is Some,
    ensures
        spec_config_key_matches(spec_format_key_event(code, mods)->0, code, mods),
{
    let n = spec_key_name(code)->0;
    lemma_key_name(code);
    lemma_prefix_matches(n, code, mods);
    let s = mod_prefix(mods) + n;
    lemma_one_word(s);
}

} // verus!
