//! Parsing the hotkey setting, such as "Ctrl+Alt+Space".

use vstd::prelude::*;
use crate::text::{
    char_seqs,
    chars_eq,
    chars_of,
    lowercase,
    split_chars,
    split_on,
    str_to_lowercase,
    string_from_chars,
    texts,
};

verus! {

/// A key that a hotkey can end in.
#[derive(Debug, Clone, Copy, PartialEq, Eq, Structural)]
pub enum KeyCode {
    KeyA,
    KeyB,
    KeyC,
    KeyD,
    KeyE,
    KeyF,
    KeyG,
    KeyH,
    KeyI,
    KeyJ,
    KeyK,
    KeyL,
    KeyM,
    KeyN,
    KeyO,
    KeyP,
    KeyQ,
    KeyR,
    KeyS,
    KeyT,
    KeyU,
    KeyV,
    KeyW,
    KeyX,
    KeyY,
    KeyZ,
    Digit0,
    Digit1,
    Digit2,
    Digit3,
    Digit4,
    Digit5,
    Digit6,
    Digit7,
    Digit8,
    Digit9,
    F1,
    F2,
    F3,
    F4,
    F5,
    F6,
    F7,
    F8,
    F9,
    F10,
    F11,
    F12,
    Space,
    Enter,
    Escape,
    Tab,
    Backspace,
    Delete,
}

/// The modifier keys held with the key.
#[derive(Debug, Clone, Copy, PartialEq, Eq, Structural)]
pub struct Modifiers {
    pub control: bool,
    pub alt: bool,
    pub shift: bool,
    pub super_key: bool,
}

/// A parsed hotkey.
#[derive(Debug, Clone, Copy, PartialEq, Eq, Structural)]
pub struct Shortcut {
    pub mods: Modifiers,
    pub key: KeyCode,
}

/// Why a hotkey setting could not be parsed.
#[derive(Debug)]
pub enum ShortcutError {
    /// A part is neither a modifier nor a known key (the part, lower-cased).
    UnknownKey { name: String },
    /// The setting names modifiers only.
    NoKey { shortcut: String },
}

/// `ShortcutError` with its text seen as a character sequence.
pub enum ShortcutFault {
    UnknownKey { name: Seq<char> },
    NoKey { shortcut: Seq<char> },
}

impl View for ShortcutError {
    type V = ShortcutFault;

    open spec fn view(&self) -> ShortcutFault {
        match self {
            ShortcutError::UnknownKey { name } => ShortcutFault::UnknownKey { name: name@ },
            ShortcutError::NoKey { shortcut } => ShortcutFault::NoKey { shortcut: shortcut@ },
        }
    }
}

/// The text of each error.
pub open spec fn fault_message(f: ShortcutFault) -> Seq<char> {
    match f {
        ShortcutFault::UnknownKey { name } => "Unknown key code: '"@ + name + "'"@,
        ShortcutFault::NoKey { shortcut } => "Shortcut '"@ + shortcut + "' has no key"@,
    }
}

impl ShortcutError {
    /// A human-readable description of the error.
    pub fn message(&self) -> (r: String)
        ensures
            r@ == fault_message(self@),
    {
        match self {
            ShortcutError::UnknownKey { name } => {
                let mut s = String::from_str("Unknown key code: '");
                s.append(name.as_str());
                s.append("'");
                s
            },
            ShortcutError::NoKey { shortcut } => {
                let mut s = String::from_str("Shortcut '");
                s.append(shortcut.as_str());
                s.append("' has no key");
                s
            },
        }
    }
}

/// The key named by a single (lower-case) letter or digit.
pub open spec fn single_key(c: char) -> Option<KeyCode> {
    match c {
        'a' => Some(KeyCode::KeyA),
        'b' => Some(KeyCode::KeyB),
        'c' => Some(KeyCode::KeyC),
        'd' => Some(KeyCode::KeyD),
        'e' => Some(KeyCode::KeyE),
        'f' => Some(KeyCode::KeyF),
        'g' => Some(KeyCode::KeyG),
        'h' => Some(KeyCode::KeyH),
        'i' => Some(KeyCode::KeyI),
        'j' => Some(KeyCode::KeyJ),
        'k' => Some(KeyCode::KeyK),
        'l' => Some(KeyCode::KeyL),
        'm' => Some(KeyCode::KeyM),
        'n' => Some(KeyCode::KeyN),
        'o' => Some(KeyCode::KeyO),
        'p' => Some(KeyCode::KeyP),
        'q' => Some(KeyCode::KeyQ),
        'r' => Some(KeyCode::KeyR),
        's' => Some(KeyCode::KeyS),
        't' => Some(KeyCode::KeyT),
        'u' => Some(KeyCode::KeyU),
        'v' => Some(KeyCode::KeyV),
        'w' => Some(KeyCode::KeyW),
        'x' => Some(KeyCode::KeyX),
        'y' => Some(KeyCode::KeyY),
        'z' => Some(KeyCode::KeyZ),
        '0' => Some(KeyCode::Digit0),
        '1' => Some(KeyCode::Digit1),
        '2' => Some(KeyCode::Digit2),
        '3' => Some(KeyCode::Digit3),
        '4' => Some(KeyCode::Digit4),
        '5' => Some(KeyCode::Digit5),
        '6' => Some(KeyCode::Digit6),
        '7' => Some(KeyCode::Digit7),
        '8' => Some(KeyCode::Digit8),
        '9' => Some(KeyCode::Digit9),
        _ => None,
    }
}

/// The key that a (lower-cased) part of a hotkey names, if any.
pub open spec fn key_code_of(s: Seq<char>) -> Option<KeyCode> {
    if s.len() == 1 {
        single_key(s[0])
    } else if s == "f1"@ {
        Some(KeyCode::F1)
    } else if s == "f2"@ {
        Some(KeyCode::F2)
    } else if s == "f3"@ {
        Some(KeyCode::F3)
    } else if s == "f4"@ {
        Some(KeyCode::F4)
    } else if s == "f5"@ {
        Some(KeyCode::F5)
    } else if s == "f6"@ {
        Some(KeyCode::F6)
    } else if s == "f7"@ {
        Some(KeyCode::F7)
    } else if s == "f8"@ {
        Some(KeyCode::F8)
    } else if s == "f9"@ {
        Some(KeyCode::F9)
    } else if s == "f10"@ {
        Some(KeyCode::F10)
    } else if s == "f11"@ {
        Some(KeyCode::F11)
    } else if s == "f12"@ {
        Some(KeyCode::F12)
    } else if s == "space"@ {
        Some(KeyCode::Space)
    } else if s == "enter"@ || s == "return"@ {
        Some(KeyCode::Enter)
    } else if s == "escape"@ || s == "esc"@ {
        Some(KeyCode::Escape)
    } else if s == "tab"@ {
        Some(KeyCode::Tab)
    } else if s == "backspace"@ {
        Some(KeyCode::Backspace)
    } else if s == "delete"@ {
        Some(KeyCode::Delete)
    } else {
        None
    }
}

/// The name of each key: its letter or digit, `f1` to `f12`, or its word.
pub open spec fn key_name(k: KeyCode) -> Seq<char> {
    match k {
        KeyCode::KeyA => seq!['a'],
        KeyCode::KeyB => seq!['b'],
        KeyCode::KeyC => seq!['c'],
        KeyCode::KeyD => seq!['d'],
        KeyCode::KeyE => seq!['e'],
        KeyCode::KeyF => seq!['f'],
        KeyCode::KeyG => seq!['g'],
        KeyCode::KeyH => seq!['h'],
        KeyCode::KeyI => seq!['i'],
        KeyCode::KeyJ => seq!['j'],
        KeyCode::KeyK => seq!['k'],
        KeyCode::KeyL => seq!['l'],
        KeyCode::KeyM => seq!['m'],
        KeyCode::KeyN => seq!['n'],
        KeyCode::KeyO => seq!['o'],
        KeyCode::KeyP => seq!['p'],
        KeyCode::KeyQ => seq!['q'],
        KeyCode::KeyR => seq!['r'],
        KeyCode::KeyS => seq!['s'],
        KeyCode::KeyT => seq!['t'],
        KeyCode::KeyU => seq!['u'],
        KeyCode::KeyV => seq!['v'],
        KeyCode::KeyW => seq!['w'],
        KeyCode::KeyX => seq!['x'],
        KeyCode::KeyY => seq!['y'],
        KeyCode::KeyZ => seq!['z'],
        KeyCode::Digit0 => seq!['0'],
        KeyCode::Digit1 => seq!['1'],
        KeyCode::Digit2 => seq!['2'],
        KeyCode::Digit3 => seq!['3'],
        KeyCode::Digit4 => seq!['4'],
        KeyCode::Digit5 => seq!['5'],
        KeyCode::Digit6 => seq!['6'],
        KeyCode::Digit7 => seq!['7'],
        KeyCode::Digit8 => seq!['8'],
        KeyCode::Digit9 => seq!['9'],
        KeyCode::F1 => "f1"@,
        KeyCode::F2 => "f2"@,
        KeyCode::F3 => "f3"@,
        KeyCode::F4 => "f4"@,
        KeyCode::F5 => "f5"@,
        KeyCode::F6 => "f6"@,
        KeyCode::F7 => "f7"@,
        KeyCode::F8 => "f8"@,
        KeyCode::F9 => "f9"@,
        KeyCode::F10 => "f10"@,
        KeyCode::F11 => "f11"@,
        KeyCode::F12 => "f12"@,
        KeyCode::Space => "space"@,
        KeyCode::Enter => "enter"@,
        KeyCode::Escape => "escape"@,
        KeyCode::Tab => "tab"@,
        KeyCode::Backspace => "backspace"@,
        KeyCode::Delete => "delete"@,
    }
}

/// The second name of a key, where it has one: `return` for Enter and
/// `esc` for Escape.
pub open spec fn key_alias(k: KeyCode) -> Option<Seq<char>> {
    match k {
        KeyCode::Enter => Some("return"@),
        KeyCode::Escape => Some("esc"@),
        _ => None,
    }
}

/// A part of a hotkey names a key exactly when it is that key's name (or
/// its second name): every key is reached by its own name, and no name
/// reaches a key that is not its own, so distinct keys have distinct names.
pub proof fn lemma_key_names(s: Seq<char>, k: KeyCode)
    ensures
        key_code_of(s) == Some(k) <==> (s == key_name(k) || key_alias(k) == Some(s)),
{
    reveal_strlit("f1");
    reveal_strlit("f2");
    reveal_strlit("f3");
    reveal_strlit("f4");
    reveal_strlit("f5");
    reveal_strlit("f6");
    reveal_strlit("f7");
    reveal_strlit("f8");
    reveal_strlit("f9");
    reveal_strlit("f10");
    reveal_strlit("f11");
    reveal_strlit("f12");
    reveal_strlit("space");
    reveal_strlit("enter");
    reveal_strlit("escape");
    reveal_strlit("tab");
    reveal_strlit("backspace");
    reveal_strlit("delete");
    reveal_strlit("return");
    reveal_strlit("esc");
    if s.len() == 1 {
        assert(s =~= seq![s[0]]);
    }
    match k {
        KeyCode::KeyA => {
            if s.len() == 1 {
                assert(s =~= seq![s[0]]);
            }
            if s == key_name(k) {
                assert(s[0] == 'a');
            }
            if s.len() == 1 && key_code_of(s) == Some(k) {
                assert(single_key(s[0]) == Some(k));
                assert(s[0] == 'a');
            }
        },
        KeyCode::KeyB => {
            if s.len() == 1 {
                assert(s =~= seq![s[0]]);
            }
            if s == key_name(k) {
                assert(s[0] == 'b');
            }
            if s.len() == 1 && key_code_of(s) == Some(k) {
                assert(single_key(s[0]) == Some(k));
                assert(s[0] == 'b');
            }
        },
        KeyCode::KeyC => {
            if s.len() == 1 {
                assert(s =~= seq![s[0]]);
            }
            if s == key_name(k) {
                assert(s[0] == 'c');
            }
            if s.len() == 1 && key_code_of(s) == Some(k) {
                assert(single_key(s[0]) == Some(k));
                assert(s[0] == 'c');
            }
        },
        KeyCode::KeyD => {
            if s.len() == 1 {
                assert(s =~= seq![s[0]]);
            }
            if s == key_name(k) {
                assert(s[0] == 'd');
            }
            if s.len() == 1 && key_code_of(s) == Some(k) {
                assert(single_key(s[0]) == Some(k));
                assert(s[0] == 'd');
            }
        },
        KeyCode::KeyE => {
            if s.len() == 1 {
                assert(s =~= seq![s[0]]);
            }
            if s == key_name(k) {
                assert(s[0] == 'e');
            }
            if s.len() == 1 && key_code_of(s) == Some(k) {
                assert(single_key(s[0]) == Some(k));
                assert(s[0] == 'e');
            }
        },
        KeyCode::KeyF => {
            if s.len() == 1 {
                assert(s =~= seq![s[0]]);
            }
            if s == key_name(k) {
                assert(s[0] == 'f');
            }
            if s.len() == 1 && key_code_of(s) == Some(k) {
                assert(single_key(s[0]) == Some(k));
                assert(s[0] == 'f');
            }
        },
        KeyCode::KeyG => {
            if s.len() == 1 {
                assert(s =~= seq![s[0]]);
            }
            if s == key_name(k) {
                assert(s[0] == 'g');
            }
            if s.len() == 1 && key_code_of(s) == Some(k) {
                assert(single_key(s[0]) == Some(k));
                assert(s[0] == 'g');
            }
        },
        KeyCode::KeyH => {
            if s.len() == 1 {
                assert(s =~= seq![s[0]]);
            }
            if s == key_name(k) {
                assert(s[0] == 'h');
            }
            if s.len() == 1 && key_code_of(s) == Some(k) {
                assert(single_key(s[0]) == Some(k));
                assert(s[0] == 'h');
            }
        },
        KeyCode::KeyI => {
            if s.len() == 1 {
                assert(s =~= seq![s[0]]);
            }
            if s == key_name(k) {
                assert(s[0] == 'i');
            }
            if s.len() == 1 && key_code_of(s) == Some(k) {
                assert(single_key(s[0]) == Some(k));
                assert(s[0] == 'i');
            }
        },
        KeyCode::KeyJ => {
            if s.len() == 1 {
                assert(s =~= seq![s[0]]);
            }
            if s == key_name(k) {
                assert(s[0] == 'j');
            }
            if s.len() == 1 && key_code_of(s) == Some(k) {
                assert(single_key(s[0]) == Some(k));
                assert(s[0] == 'j');
            }
        },
        KeyCode::KeyK => {
            if s.len() == 1 {
                assert(s =~= seq![s[0]]);
            }
            if s == key_name(k) {
                assert(s[0] == 'k');
            }
            if s.len() == 1 && key_code_of(s) == Some(k) {
                assert(single_key(s[0]) == Some(k));
                assert(s[0] == 'k');
            }
        },
        KeyCode::KeyL => {
            if s.len() == 1 {
                assert(s =~= seq![s[0]]);
            }
            if s == key_name(k) {
                assert(s[0] == 'l');
            }
            if s.len() == 1 && key_code_of(s) == Some(k) {
                assert(single_key(s[0]) == Some(k));
                assert(s[0] == 'l');
            }
        },
        KeyCode::KeyM => {
            if s.len() == 1 {
                assert(s =~= seq![s[0]]);
            }
            if s == key_name(k) {
                assert(s[0] == 'm');
            }
            if s.len() == 1 && key_code_of(s) == Some(k) {
                assert(single_key(s[0]) == Some(k));
                assert(s[0] == 'm');
            }
        },
        KeyCode::KeyN => {
            if s.len() == 1 {
                assert(s =~= seq![s[0]]);
            }
            if s == key_name(k) {
                assert(s[0] == 'n');
            }
            if s.len() == 1 && key_code_of(s) == Some(k) {
                assert(single_key(s[0]) == Some(k));
                assert(s[0] == 'n');
            }
        },
        KeyCode::KeyO => {
            if s.len() == 1 {
                assert(s =~= seq![s[0]]);
            }
            if s == key_name(k) {
                assert(s[0] == 'o');
            }
            if s.len() == 1 && key_code_of(s) == Some(k) {
                assert(single_key(s[0]) == Some(k));
                assert(s[0] == 'o');
            }
        },
        KeyCode::KeyP => {
            if s.len() == 1 {
                assert(s =~= seq![s[0]]);
            }
            if s == key_name(k) {
                assert(s[0] == 'p');
            }
            if s.len() == 1 && key_code_of(s) == Some(k) {
                assert(single_key(s[0]) == Some(k));
                assert(s[0] == 'p');
            }
        },
        KeyCode::KeyQ => {
            if s.len() == 1 {
                assert(s =~= seq![s[0]]);
            }
            if s == key_name(k) {
                assert(s[0] == 'q');
            }
            if s.len() == 1 && key_code_of(s) == Some(k) {
                assert(single_key(s[0]) == Some(k));
                assert(s[0] == 'q');
            }
        },
        KeyCode::KeyR => {
            if s.len() == 1 {
                assert(s =~= seq![s[0]]);
            }
            if s == key_name(k) {
                assert(s[0] == 'r');
            }
            if s.len() == 1 && key_code_of(s) == Some(k) {
                assert(single_key(s[0]) == Some(k));
                assert(s[0] == 'r');
            }
        },
        KeyCode::KeyS => {
            if s.len() == 1 {
                assert(s =~= seq![s[0]]);
            }
            if s == key_name(k) {
                assert(s[0] == 's');
            }
            if s.len() == 1 && key_code_of(s) == Some(k) {
                assert(single_key(s[0]) == Some(k));
                assert(s[0] == 's');
            }
        },
        KeyCode::KeyT => {
            if s.len() == 1 {
                assert(s =~= seq![s[0]]);
            }
            if s == key_name(k) {
                assert(s[0] == 't');
            }
            if s.len() == 1 && key_code_of(s) == Some(k) {
                assert(single_key(s[0]) == Some(k));
                assert(s[0] == 't');
            }
        },
        KeyCode::KeyU => {
            if s.len() == 1 {
                assert(s =~= seq![s[0]]);
            }
            if s == key_name(k) {
                assert(s[0] == 'u');
            }
            if s.len() == 1 && key_code_of(s) == Some(k) {
                assert(single_key(s[0]) == Some(k));
                assert(s[0] == 'u');
            }
        },
        KeyCode::KeyV => {
            if s.len() == 1 {
                assert(s =~= seq![s[0]]);
            }
            if s == key_name(k) {
                assert(s[0] == 'v');
            }
            if s.len() == 1 && key_code_of(s) == Some(k) {
                assert(single_key(s[0]) == Some(k));
                assert(s[0] == 'v');
            }
        },
        KeyCode::KeyW => {
            if s.len() == 1 {
                assert(s =~= seq![s[0]]);
            }
            if s == key_name(k) {
                assert(s[0] == 'w');
            }
            if s.len() == 1 && key_code_of(s) == Some(k) {
                assert(single_key(s[0]) == Some(k));
                assert(s[0] == 'w');
            }
        },
        KeyCode::KeyX => {
            if s.len() == 1 {
                assert(s =~= seq![s[0]]);
            }
            if s == key_name(k) {
                assert(s[0] == 'x');
            }
            if s.len() == 1 && key_code_of(s) == Some(k) {
                assert(single_key(s[0]) == Some(k));
                assert(s[0] == 'x');
            }
        },
        KeyCode::KeyY => {
            if s.len() == 1 {
                assert(s =~= seq![s[0]]);
            }
            if s == key_name(k) {
                assert(s[0] == 'y');
            }
            if s.len() == 1 && key_code_of(s) == Some(k) {
                assert(single_key(s[0]) == Some(k));
                assert(s[0] == 'y');
            }
        },
        KeyCode::KeyZ => {
            if s.len() == 1 {
                assert(s =~= seq![s[0]]);
            }
            if s == key_name(k) {
                assert(s[0] == 'z');
            }
            if s.len() == 1 && key_code_of(s) == Some(k) {
                assert(single_key(s[0]) == Some(k));
                assert(s[0] == 'z');
            }
        },
        KeyCode::Digit0 => {
            if s.len() == 1 {
                assert(s =~= seq![s[0]]);
            }
            if s == key_name(k) {
                assert(s[0] == '0');
            }
            if s.len() == 1 && key_code_of(s) == Some(k) {
                assert(single_key(s[0]) == Some(k));
                assert(s[0] == '0');
            }
        },
        KeyCode::Digit1 => {
            if s.len() == 1 {
                assert(s =~= seq![s[0]]);
            }
            if s == key_name(k) {
                assert(s[0] == '1');
            }
            if s.len() == 1 && key_code_of(s) == Some(k) {
                assert(single_key(s[0]) == Some(k));
                assert(s[0] == '1');
            }
        },
        KeyCode::Digit2 => {
            if s.len() == 1 {
                assert(s =~= seq![s[0]]);
            }
            if s == key_name(k) {
                assert(s[0] == '2');
            }
            if s.len() == 1 && key_code_of(s) == Some(k) {
                assert(single_key(s[0]) == Some(k));
                assert(s[0] == '2');
            }
        },
        KeyCode::Digit3 => {
            if s.len() == 1 {
                assert(s =~= seq![s[0]]);
            }
            if s == key_name(k) {
                assert(s[0] == '3');
            }
            if s.len() == 1 && key_code_of(s) == Some(k) {
                assert(single_key(s[0]) == Some(k));
                assert(s[0] == '3');
            }
        },
        KeyCode::Digit4 => {
            if s.len() == 1 {
                assert(s =~= seq![s[0]]);
            }
            if s == key_name(k) {
                assert(s[0] == '4');
            }
            if s.len() == 1 && key_code_of(s) == Some(k) {
                assert(single_key(s[0]) == Some(k));
                assert(s[0] == '4');
            }
        },
        KeyCode::Digit5 => {
            if s.len() == 1 {
                assert(s =~= seq![s[0]]);
            }
            if s == key_name(k) {
                assert(s[0] == '5');
            }
            if s.len() == 1 && key_code_of(s) == Some(k) {
                assert(single_key(s[0]) == Some(k));
                assert(s[0] == '5');
            }
        },
        KeyCode::Digit6 => {
            if s.len() == 1 {
                assert(s =~= seq![s[0]]);
            }
            if s == key_name(k) {
                assert(s[0] == '6');
            }
            if s.len() == 1 && key_code_of(s) == Some(k) {
                assert(single_key(s[0]) == Some(k));
                assert(s[0] == '6');
            }
        },
        KeyCode::Digit7 => {
            if s.len() == 1 {
                assert(s =~= seq![s[0]]);
            }
            if s == key_name(k) {
                assert(s[0] == '7');
            }
            if s.len() == 1 && key_code_of(s) == Some(k) {
                assert(single_key(s[0]) == Some(k));
                assert(s[0] == '7');
            }
        },
        KeyCode::Digit8 => {
            if s.len() == 1 {
                assert(s =~= seq![s[0]]);
            }
            if s == key_name(k) {
                assert(s[0] == '8');
            }
            if s.len() == 1 && key_code_of(s) == Some(k) {
                assert(single_key(s[0]) == Some(k));
                assert(s[0] == '8');
            }
        },
        KeyCode::Digit9 => {
            if s.len() == 1 {
                assert(s =~= seq![s[0]]);
            }
            if s == key_name(k) {
                assert(s[0] == '9');
            }
            if s.len() == 1 && key_code_of(s) == Some(k) {
                assert(single_key(s[0]) == Some(k));
                assert(s[0] == '9');
            }
        },
        KeyCode::F1 => {
            if s == key_name(k) {
                assert(s == key_name(k));
            }
            assert(s == key_name(k) ==> key_code_of(s) == Some(k));
            assert(key_code_of(s) == Some(k) ==> (s == key_name(k) || key_alias(k) == Some(s)));
        },
        KeyCode::F2 => {
            if s == key_name(k) {
                assert(s[1] != "f1"@[1]);
            }
            assert(s == key_name(k) ==> key_code_of(s) == Some(k));
            assert(key_code_of(s) == Some(k) ==> (s == key_name(k) || key_alias(k) == Some(s)));
        },
        KeyCode::F3 => {
            if s == key_name(k) {
                assert(s[1] != "f1"@[1]);
                assert(s[1] != "f2"@[1]);
            }
            assert(s == key_name(k) ==> key_code_of(s) == Some(k));
            assert(key_code_of(s) == Some(k) ==> (s == key_name(k) || key_alias(k) == Some(s)));
        },
        KeyCode::F4 => {
            if s == key_name(k) {
                assert(s[1] != "f1"@[1]);
                assert(s[1] != "f2"@[1]);
                assert(s[1] != "f3"@[1]);
            }
            assert(s == key_name(k) ==> key_code_of(s) == Some(k));
            assert(key_code_of(s) == Some(k) ==> (s == key_name(k) || key_alias(k) == Some(s)));
        },
        KeyCode::F5 => {
            if s == key_name(k) {
                assert(s[1] != "f1"@[1]);
                assert(s[1] != "f2"@[1]);
                assert(s[1] != "f3"@[1]);
                assert(s[1] != "f4"@[1]);
            }
            assert(s == key_name(k) ==> key_code_of(s) == Some(k));
            assert(key_code_of(s) == Some(k) ==> (s == key_name(k) || key_alias(k) == Some(s)));
        },
        KeyCode::F6 => {
            if s == key_name(k) {
                assert(s[1] != "f1"@[1]);
                assert(s[1] != "f2"@[1]);
                assert(s[1] != "f3"@[1]);
                assert(s[1] != "f4"@[1]);
                assert(s[1] != "f5"@[1]);
            }
            assert(s == key_name(k) ==> key_code_of(s) == Some(k));
            assert(key_code_of(s) == Some(k) ==> (s == key_name(k) || key_alias(k) == Some(s)));
        },
        KeyCode::F7 => {
            if s == key_name(k) {
                assert(s[1] != "f1"@[1]);
                assert(s[1] != "f2"@[1]);
                assert(s[1] != "f3"@[1]);
                assert(s[1] != "f4"@[1]);
                assert(s[1] != "f5"@[1]);
                assert(s[1] != "f6"@[1]);
            }
            assert(s == key_name(k) ==> key_code_of(s) == Some(k));
            assert(key_code_of(s) == Some(k) ==> (s == key_name(k) || key_alias(k) == Some(s)));
        },
        KeyCode::F8 => {
            if s == key_name(k) {
                assert(s[1] != "f1"@[1]);
                assert(s[1] != "f2"@[1]);
                assert(s[1] != "f3"@[1]);
                assert(s[1] != "f4"@[1]);
                assert(s[1] != "f5"@[1]);
                assert(s[1] != "f6"@[1]);
                assert(s[1] != "f7"@[1]);
            }
            assert(s == key_name(k) ==> key_code_of(s) == Some(k));
            assert(key_code_of(s) == Some(k) ==> (s == key_name(k) || key_alias(k) == Some(s)));
        },
        KeyCode::F9 => {
            if s == key_name(k) {
                assert(s[1] != "f1"@[1]);
                assert(s[1] != "f2"@[1]);
                assert(s[1] != "f3"@[1]);
                assert(s[1] != "f4"@[1]);
                assert(s[1] != "f5"@[1]);
                assert(s[1] != "f6"@[1]);
                assert(s[1] != "f7"@[1]);
                assert(s[1] != "f8"@[1]);
            }
            assert(s == key_name(k) ==> key_code_of(s) == Some(k));
            assert(key_code_of(s) == Some(k) ==> (s == key_name(k) || key_alias(k) == Some(s)));
        },
        KeyCode::F10 => {
            if s == key_name(k) {
                assert(s == key_name(k));
            }
            assert(s == key_name(k) ==> key_code_of(s) == Some(k));
            assert(key_code_of(s) == Some(k) ==> (s == key_name(k) || key_alias(k) == Some(s)));
        },
        KeyCode::F11 => {
            if s == key_name(k) {
                assert(s[2] != "f10"@[2]);
            }
            assert(s == key_name(k) ==> key_code_of(s) == Some(k));
            assert(key_code_of(s) == Some(k) ==> (s == key_name(k) || key_alias(k) == Some(s)));
        },
        KeyCode::F12 => {
            if s == key_name(k) {
                assert(s[2] != "f10"@[2]);
                assert(s[2] != "f11"@[2]);
            }
            assert(s == key_name(k) ==> key_code_of(s) == Some(k));
            assert(key_code_of(s) == Some(k) ==> (s == key_name(k) || key_alias(k) == Some(s)));
        },
        KeyCode::Space => {
            if s == key_name(k) {
                assert(s == key_name(k));
            }
            assert(s == key_name(k) ==> key_code_of(s) == Some(k));
            assert(key_code_of(s) == Some(k) ==> (s == key_name(k) || key_alias(k) == Some(s)));
        },
        KeyCode::Enter => {
            if s == key_name(k) {
                assert(s[0] != "space"@[0]);
            }
            assert(s == key_name(k) ==> key_code_of(s) == Some(k));
            assert(key_code_of(s) == Some(k) ==> (s == key_name(k) || key_alias(k) == Some(s)));
        },
        KeyCode::Escape => {
            if s == key_name(k) {
                assert(s[0] != "return"@[0]);
            }
            assert(s == key_name(k) ==> key_code_of(s) == Some(k));
            assert(key_code_of(s) == Some(k) ==> (s == key_name(k) || key_alias(k) == Some(s)));
        },
        KeyCode::Tab => {
            if s == key_name(k) {
                assert(s[0] != "f10"@[0]);
                assert(s[0] != "f11"@[0]);
                assert(s[0] != "f12"@[0]);
                assert(s[0] != "esc"@[0]);
            }
            assert(s == key_name(k) ==> key_code_of(s) == Some(k));
            assert(key_code_of(s) == Some(k) ==> (s == key_name(k) || key_alias(k) == Some(s)));
        },
        KeyCode::Backspace => {
            if s == key_name(k) {
                assert(s == key_name(k));
            }
            assert(s == key_name(k) ==> key_code_of(s) == Some(k));
            assert(key_code_of(s) == Some(k) ==> (s == key_name(k) || key_alias(k) == Some(s)));
        },
        KeyCode::Delete => {
            if s == key_name(k) {
                assert(s[0] != "return"@[0]);
                assert(s[0] != "escape"@[0]);
            }
            assert(s == key_name(k) ==> key_code_of(s) == Some(k));
            assert(key_code_of(s) == Some(k) ==> (s == key_name(k) || key_alias(k) == Some(s)));
        },
    }
}

/// The key named by a single character.
fn single_key_code(c: char) -> (r: Option<KeyCode>)
    ensures
        r == single_key(c),
{
    match c {
        'a' => Some(KeyCode::KeyA),
        'b' => Some(KeyCode::KeyB),
        'c' => Some(KeyCode::KeyC),
        'd' => Some(KeyCode::KeyD),
        'e' => Some(KeyCode::KeyE),
        'f' => Some(KeyCode::KeyF),
        'g' => Some(KeyCode::KeyG),
        'h' => Some(KeyCode::KeyH),
        'i' => Some(KeyCode::KeyI),
        'j' => Some(KeyCode::KeyJ),
        'k' => Some(KeyCode::KeyK),
        'l' => Some(KeyCode::KeyL),
        'm' => Some(KeyCode::KeyM),
        'n' => Some(KeyCode::KeyN),
        'o' => Some(KeyCode::KeyO),
        'p' => Some(KeyCode::KeyP),
        'q' => Some(KeyCode::KeyQ),
        'r' => Some(KeyCode::KeyR),
        's' => Some(KeyCode::KeyS),
        't' => Some(KeyCode::KeyT),
        'u' => Some(KeyCode::KeyU),
        'v' => Some(KeyCode::KeyV),
        'w' => Some(KeyCode::KeyW),
        'x' => Some(KeyCode::KeyX),
        'y' => Some(KeyCode::KeyY),
        'z' => Some(KeyCode::KeyZ),
        '0' => Some(KeyCode::Digit0),
        '1' => Some(KeyCode::Digit1),
        '2' => Some(KeyCode::Digit2),
        '3' => Some(KeyCode::Digit3),
        '4' => Some(KeyCode::Digit4),
        '5' => Some(KeyCode::Digit5),
        '6' => Some(KeyCode::Digit6),
        '7' => Some(KeyCode::Digit7),
        '8' => Some(KeyCode::Digit8),
        '9' => Some(KeyCode::Digit9),
        _ => None,
    }
}

/// Whether the characters spell the literal.
fn is_word(v: &[char], w: &str) -> (r: bool)
    ensures
        r == (v@ == w@),
{
    let lit = chars_of(w);
    chars_eq(v, lit.as_slice())
}

/// The key that a lower-cased part of a hotkey names, or an error naming
/// the part.
pub fn str_to_code(s: &str) -> (r: Result<KeyCode, ShortcutError>)
    ensures
        match r {
            Ok(k) => key_code_of(s@) == Some(k),
            Err(e) => key_code_of(s@) is None && e@ == (ShortcutFault::UnknownKey { name: s@ }),
        },
{
    let v = chars_of(s);
    let found = if v.len() == 1 {
        single_key_code(v[0])
    } else if is_word(v.as_slice(), "f1") {
        Some(KeyCode::F1)
    } else if is_word(v.as_slice(), "f2") {
        Some(KeyCode::F2)
    } else if is_word(v.as_slice(), "f3") {
        Some(KeyCode::F3)
    } else if is_word(v.as_slice(), "f4") {
        Some(KeyCode::F4)
    } else if is_word(v.as_slice(), "f5") {
        Some(KeyCode::F5)
    } else if is_word(v.as_slice(), "f6") {
        Some(KeyCode::F6)
    } else if is_word(v.as_slice(), "f7") {
        Some(KeyCode::F7)
    } else if is_word(v.as_slice(), "f8") {
        Some(KeyCode::F8)
    } else if is_word(v.as_slice(), "f9") {
        Some(KeyCode::F9)
    } else if is_word(v.as_slice(), "f10") {
        Some(KeyCode::F10)
    } else if is_word(v.as_slice(), "f11") {
        Some(KeyCode::F11)
    } else if is_word(v.as_slice(), "f12") {
        Some(KeyCode::F12)
    } else if is_word(v.as_slice(), "space") {
        Some(KeyCode::Space)
    } else if is_word(v.as_slice(), "enter") || is_word(v.as_slice(), "return") {
        Some(KeyCode::Enter)
    } else if is_word(v.as_slice(), "escape") || is_word(v.as_slice(), "esc") {
        Some(KeyCode::Escape)
    } else if is_word(v.as_slice(), "tab") {
        Some(KeyCode::Tab)
    } else if is_word(v.as_slice(), "backspace") {
        Some(KeyCode::Backspace)
    } else if is_word(v.as_slice(), "delete") {
        Some(KeyCode::Delete)
    } else {
        None
    };
    match found {
        Some(k) => Ok(k),
        None => Err(ShortcutError::UnknownKey { name: String::from_str(s) }),
    }
}

/// No modifier held.
pub open spec fn no_mods() -> Modifiers {
    Modifiers { control: false, alt: false, shift: false, super_key: false }
}

/// `m` with the modifier that the (lower-cased) part names added, or `None`
/// when the part names no modifier.
pub open spec fn add_modifier(m: Modifiers, p: Seq<char>) -> Option<Modifiers> {
    if p == "ctrl"@ || p == "control"@ {
        Some(Modifiers { control: true, alt: m.alt, shift: m.shift, super_key: m.super_key })
    } else if p == "alt"@ || p == "option"@ {
        Some(Modifiers { control: m.control, alt: true, shift: m.shift, super_key: m.super_key })
    } else if p == "shift"@ {
        Some(Modifiers { control: m.control, alt: m.alt, shift: true, super_key: m.super_key })
    } else if p == "super"@ || p == "meta"@ || p == "cmd"@ || p == "command"@ || p == "win"@
        || p == "windows"@ {
        Some(Modifiers { control: m.control, alt: m.alt, shift: m.shift, super_key: true })
    } else {
        None
    }
}

/// The first `k` (lower-cased) parts read in order: modifiers accumulate,
/// the last key named wins, and the first part that is neither stops the
/// reading with its name.
pub open spec fn read_parts(parts: Seq<Seq<char>>, k: int) -> Result<
    (Modifiers, Option<KeyCode>),
    Seq<char>,
>
    decreases k,
{
    if k <= 0 {
        Ok((no_mods(), None))
    } else {
        match read_parts(parts, k - 1) {
            Err(name) => Err(name),
            Ok((m, key)) => {
                let p = parts[k - 1];
                match add_modifier(m, p) {
                    Some(m2) => Ok((m2, key)),
                    None => match key_code_of(p) {
                        Some(code) => Ok((m, Some(code))),
                        None => Err(p),
                    },
                }
            },
        }
    }
}

/// The hotkey that the setting `s`, cut into the lower-cased `parts`,
/// stands for.
pub open spec fn shortcut_of(s: Seq<char>, parts: Seq<Seq<char>>) -> Result<
    Shortcut,
    ShortcutFault,
> {
    match read_parts(parts, parts.len() as int) {
        Err(name) => Err(ShortcutFault::UnknownKey { name }),
        Ok((_, None)) => Err(ShortcutFault::NoKey { shortcut: s }),
        Ok((m, Some(key))) => Ok(Shortcut { mods: m, key }),
    }
}

/// Once a part stops the reading, the later parts do not matter.
proof fn lemma_read_parts_stops(parts: Seq<Seq<char>>, k: int, j: int)
    requires
        0 <= k <= j,
        read_parts(parts, k) is Err,
    ensures
        read_parts(parts, j) == read_parts(parts, k),
    decreases j - k,
{
    if j > k {
        lemma_read_parts_stops(parts, k, j - 1);
    }
}

/// The lower-cased form of each part.
pub open spec fn lowered(parts: Seq<Seq<char>>) -> Seq<Seq<char>> {
    parts.map_values(|p: Seq<char>| lowercase(p))
}

/// `m` with the modifier that the part names added.
fn add_modifier_exec(m: Modifiers, p: &[char]) -> (r: Option<Modifiers>)
    ensures
        r == add_modifier(m, p@),
{
    if is_word(p, "ctrl") || is_word(p, "control") {
        Some(Modifiers { control: true, alt: m.alt, shift: m.shift, super_key: m.super_key })
    } else if is_word(p, "alt") || is_word(p, "option") {
        Some(Modifiers { control: m.control, alt: true, shift: m.shift, super_key: m.super_key })
    } else if is_word(p, "shift") {
        Some(Modifiers { control: m.control, alt: m.alt, shift: true, super_key: m.super_key })
    } else if is_word(p, "super") || is_word(p, "meta") || is_word(p, "cmd") || is_word(
        p,
        "command",
    ) || is_word(p, "win") || is_word(p, "windows") {
        Some(Modifiers { control: m.control, alt: m.alt, shift: m.shift, super_key: true })
    } else {
        None
    }
}

/// The hotkey that the setting `shortcut` stands for, given its parts
/// already cut at `+` and lower-cased.
pub fn shortcut_from_parts(shortcut: &str, parts: &[String]) -> (r: Result<Shortcut, ShortcutError>)
    ensures
        match r {
            Ok(sc) => shortcut_of(shortcut@, texts(parts@)) == Ok::<Shortcut, ShortcutFault>(sc),
            Err(e) => shortcut_of(shortcut@, texts(parts@)) == Err::<Shortcut, ShortcutFault>(e@),
        },
{
    let ghost ps = texts(parts@);
    let mut mods = Modifiers { control: false, alt: false, shift: false, super_key: false };
    let mut key: Option<KeyCode> = None;
    let mut i: usize = 0;
    while i < parts.len()
        invariant
            i <= parts@.len(),
            ps == texts(parts@),
            read_parts(ps, i as int) == Ok::<(Modifiers, Option<KeyCode>), Seq<char>>((mods, key)),
        decreases parts@.len() - i,
    {
        let part = &parts[i];
        let chars = chars_of(part.as_str());
        assert(ps[i as int] == part@);
        match add_modifier_exec(mods, chars.as_slice()) {
            Some(m2) => {
                mods = m2;
            },
            None => match str_to_code(part.as_str()) {
                Ok(code) => {
                    key = Some(code);
                },
                Err(e) => {
                    proof {
                        lemma_read_parts_stops(ps, i + 1, ps.len() as int);
                    }
                    return Err(e);
                },
            },
        }
        i += 1;
    }
    match key {
        Some(k) => Ok(Shortcut { mods, key: k }),
        None => Err(ShortcutError::NoKey { shortcut: String::from_str(shortcut) }),
    }
}

/// Parses a hotkey setting such as "Ctrl+Alt+Space" or "Ctrl+Shift+W":
/// parts separated by `+`, each lower-cased, modifiers in any order, one
/// key (the last one named counts).
pub fn parse_shortcut(s: &str) -> (r: Result<Shortcut, ShortcutError>)
    ensures
        match r {
            Ok(sc) => shortcut_of(s@, lowered(split_on(s@, '+'))) == Ok::<Shortcut, ShortcutFault>(
                sc,
            ),
            Err(e) => shortcut_of(s@, lowered(split_on(s@, '+'))) == Err::<Shortcut, ShortcutFault>(
                e@,
            ),
        },
{
    let chars = chars_of(s);
    let raw = split_chars(chars.as_slice(), '+');
    let mut parts: Vec<String> = Vec::new();
    let mut i: usize = 0;
    while i < raw.len()
        invariant
            i <= raw@.len(),
            char_seqs(raw@) == split_on(s@, '+'),
            texts(parts@) == lowered(char_seqs(raw@)).take(i as int),
        decreases raw@.len() - i,
    {
        let text = string_from_chars(raw[i].as_slice());
        let low = str_to_lowercase(text.as_str());
        let ghost prev = parts@;
        assert(char_seqs(raw@)[i as int] == raw@[i as int]@);
        assert(lowered(char_seqs(raw@))[i as int] == lowercase(text@));
        parts.push(low);
        assert(texts(parts@) =~= texts(prev).push(low@));
        assert(texts(parts@) =~= lowered(char_seqs(raw@)).take(i + 1));
        i += 1;
    }
    assert(texts(parts@) =~= lowered(split_on(s@, '+')));
    shortcut_from_parts(s, parts.as_slice())
}

} // verus!
