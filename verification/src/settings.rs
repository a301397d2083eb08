//! Settings: the global shortcuts written as text, the widget sequence and its cycling,
//! the visibility of plugins, and the scripts that start the app at login.
use crate::strmap::StrMap;
use crate::text::{
    chars_of, push_str_chars, lower_case, split_range, split_spec, str_eq, string_of, string_views,
    to_lowercase, trim, trim_str, seqs,
};
use vstd::prelude::*;

verus! {

/// The keys a global shortcut can end with.
#[derive(Debug, Clone, Copy, PartialEq, Eq, Structural)]
pub enum KeyCode {
    KeyA,
    KeyB,
    KeyC,
    KeyD,
    KeyE,
    KeyF,
    KeyG,
    KeyH,
    KeyI,
    KeyJ,
    KeyK,
    KeyL,
    KeyM,
    KeyN,
    KeyO,
    KeyP,
    KeyQ,
    KeyR,
    KeyS,
    KeyT,
    KeyU,
    KeyV,
    KeyW,
    KeyX,
    KeyY,
    KeyZ,
    Digit0,
    Digit1,
    Digit2,
    Digit3,
    Digit4,
    Digit5,
    Digit6,
    Digit7,
    Digit8,
    Digit9,
    F1,
    F2,
    F3,
    F4,
    F5,
    F6,
    F7,
    F8,
    F9,
    F10,
    F11,
    F12,
    Space,
    Tab,
    Enter,
    Escape,
    Backspace,
    Slash,
    Backslash,
    Period,
    Comma,
    Semicolon,
    Quote,
    BracketLeft,
    BracketRight,
    Minus,
    Equal,
    Backquote,
    ArrowUp,
    ArrowDown,
    ArrowLeft,
    ArrowRight,
    Delete,
    Insert,
    Home,
    End,
    PageUp,
    PageDown,
    Numpad0,
    Numpad1,
    Numpad2,
    Numpad3,
    Numpad4,
    Numpad5,
    Numpad6,
    Numpad7,
    Numpad8,
    Numpad9,
}

/// The key a lower-case key name stands for.
pub open spec fn key_code_spec(name: Seq<char>) -> Option<KeyCode> {
    if name == "a"@ {
        Some(KeyCode::KeyA)
    } else if name == "b"@ {
        Some(KeyCode::KeyB)
    } else if name == "c"@ {
        Some(KeyCode::KeyC)
    } else if name == "d"@ {
        Some(KeyCode::KeyD)
    } else if name == "e"@ {
        Some(KeyCode::KeyE)
    } else if name == "f"@ {
        Some(KeyCode::KeyF)
    } else if name == "g"@ {
        Some(KeyCode::KeyG)
    } else if name == "h"@ {
        Some(KeyCode::KeyH)
    } else if name == "i"@ {
        Some(KeyCode::KeyI)
    } else if name == "j"@ {
        Some(KeyCode::KeyJ)
    } else if name == "k"@ {
        Some(KeyCode::KeyK)
    } else if name == "l"@ {
        Some(KeyCode::KeyL)
    } else if name == "m"@ {
        Some(KeyCode::KeyM)
    } else if name == "n"@ {
        Some(KeyCode::KeyN)
    } else if name == "o"@ {
        Some(KeyCode::KeyO)
    } else if name == "p"@ {
        Some(KeyCode::KeyP)
    } else if name == "q"@ {
        Some(KeyCode::KeyQ)
    } else if name == "r"@ {
        Some(KeyCode::KeyR)
    } else if name == "s"@ {
        Some(KeyCode::KeyS)
    } else if name == "t"@ {
        Some(KeyCode::KeyT)
    } else if name == "u"@ {
        Some(KeyCode::KeyU)
    } else if name == "v"@ {
        Some(KeyCode::KeyV)
    } else if name == "w"@ {
        Some(KeyCode::KeyW)
    } else if name == "x"@ {
        Some(KeyCode::KeyX)
    } else if name == "y"@ {
        Some(KeyCode::KeyY)
    } else if name == "z"@ {
        Some(KeyCode::KeyZ)
    } else if name == "0"@ {
        Some(KeyCode::Digit0)
    } else if name == "1"@ {
        Some(KeyCode::Digit1)
    } else if name == "2"@ {
        Some(KeyCode::Digit2)
    } else if name == "3"@ {
        Some(KeyCode::Digit3)
    } else if name == "4"@ {
        Some(KeyCode::Digit4)
    } else if name == "5"@ {
        Some(KeyCode::Digit5)
    } else if name == "6"@ {
        Some(KeyCode::Digit6)
    } else if name == "7"@ {
        Some(KeyCode::Digit7)
    } else if name == "8"@ {
        Some(KeyCode::Digit8)
    } else if name == "9"@ {
        Some(KeyCode::Digit9)
    } else if name == "f1"@ {
        Some(KeyCode::F1)
    } else if name == "f2"@ {
        Some(KeyCode::F2)
    } else if name == "f3"@ {
        Some(KeyCode::F3)
    } else if name == "f4"@ {
        Some(KeyCode::F4)
    } else if name == "f5"@ {
        Some(KeyCode::F5)
    } else if name == "f6"@ {
        Some(KeyCode::F6)
    } else if name == "f7"@ {
        Some(KeyCode::F7)
    } else if name == "f8"@ {
        Some(KeyCode::F8)
    } else if name == "f9"@ {
        Some(KeyCode::F9)
    } else if name == "f10"@ {
        Some(KeyCode::F10)
    } else if name == "f11"@ {
        Some(KeyCode::F11)
    } else if name == "f12"@ {
        Some(KeyCode::F12)
    } else if name == "space"@ {
        Some(KeyCode::Space)
    } else if name == "tab"@ {
        Some(KeyCode::Tab)
    } else if name == "enter"@ {
        Some(KeyCode::Enter)
    } else if name == "escape"@ || name == "esc"@ {
        Some(KeyCode::Escape)
    } else if name == "backspace"@ {
        Some(KeyCode::Backspace)
    } else if name == "slash"@ {
        Some(KeyCode::Slash)
    } else if name == "backslash"@ {
        Some(KeyCode::Backslash)
    } else if name == "period"@ || name == "."@ {
        Some(KeyCode::Period)
    } else if name == "comma"@ || name == ","@ {
        Some(KeyCode::Comma)
    } else if name == "semicolon"@ || name == ";"@ {
        Some(KeyCode::Semicolon)
    } else if name == "quote"@ || name == "'"@ {
        Some(KeyCode::Quote)
    } else if name == "bracketleft"@ || name == "["@ {
        Some(KeyCode::BracketLeft)
    } else if name == "bracketright"@ || name == "]"@ {
        Some(KeyCode::BracketRight)
    } else if name == "minus"@ || name == "-"@ {
        Some(KeyCode::Minus)
    } else if name == "equal"@ || name == "="@ {
        Some(KeyCode::Equal)
    } else if name == "backquote"@ || name == "`"@ {
        Some(KeyCode::Backquote)
    } else if name == "up"@ {
        Some(KeyCode::ArrowUp)
    } else if name == "down"@ {
        Some(KeyCode::ArrowDown)
    } else if name == "left"@ {
        Some(KeyCode::ArrowLeft)
    } else if name == "right"@ {
        Some(KeyCode::ArrowRight)
    } else if name == "delete"@ {
        Some(KeyCode::Delete)
    } else if name == "insert"@ {
        Some(KeyCode::Insert)
    } else if name == "home"@ {
        Some(KeyCode::Home)
    } else if name == "end"@ {
        Some(KeyCode::End)
    } else if name == "pageup"@ {
        Some(KeyCode::PageUp)
    } else if name == "pagedown"@ {
        Some(KeyCode::PageDown)
    } else if name == "numpad0"@ {
        Some(KeyCode::Numpad0)
    } else if name == "numpad1"@ {
        Some(KeyCode::Numpad1)
    } else if name == "numpad2"@ {
        Some(KeyCode::Numpad2)
    } else if name == "numpad3"@ {
        Some(KeyCode::Numpad3)
    } else if name == "numpad4"@ {
        Some(KeyCode::Numpad4)
    } else if name == "numpad5"@ {
        Some(KeyCode::Numpad5)
    } else if name == "numpad6"@ {
        Some(KeyCode::Numpad6)
    } else if name == "numpad7"@ {
        Some(KeyCode::Numpad7)
    } else if name == "numpad8"@ {
        Some(KeyCode::Numpad8)
    } else if name == "numpad9"@ {
        Some(KeyCode::Numpad9)
    } else {
        None
    }
}

/// The name each key is written with in a shortcut (lower case, as `parse_shortcut` reads
/// it): letters and digits as themselves, `f1`-`f12`, and the key's name in words.
pub open spec fn key_name(k: KeyCode) -> Seq<char> {
    match k {
        KeyCode::KeyA => "a"@,
        KeyCode::KeyB => "b"@,
        KeyCode::KeyC => "c"@,
        KeyCode::KeyD => "d"@,
        KeyCode::KeyE => "e"@,
        KeyCode::KeyF => "f"@,
        KeyCode::KeyG => "g"@,
        KeyCode::KeyH => "h"@,
        KeyCode::KeyI => "i"@,
        KeyCode::KeyJ => "j"@,
        KeyCode::KeyK => "k"@,
        KeyCode::KeyL => "l"@,
        KeyCode::KeyM => "m"@,
        KeyCode::KeyN => "n"@,
        KeyCode::KeyO => "o"@,
        KeyCode::KeyP => "p"@,
        KeyCode::KeyQ => "q"@,
        KeyCode::KeyR => "r"@,
        KeyCode::KeyS => "s"@,
        KeyCode::KeyT => "t"@,
        KeyCode::KeyU => "u"@,
        KeyCode::KeyV => "v"@,
        KeyCode::KeyW => "w"@,
        KeyCode::KeyX => "x"@,
        KeyCode::KeyY => "y"@,
        KeyCode::KeyZ => "z"@,
        KeyCode::Digit0 => "0"@,
        KeyCode::Digit1 => "1"@,
        KeyCode::Digit2 => "2"@,
        KeyCode::Digit3 => "3"@,
        KeyCode::Digit4 => "4"@,
        KeyCode::Digit5 => "5"@,
        KeyCode::Digit6 => "6"@,
        KeyCode::Digit7 => "7"@,
        KeyCode::Digit8 => "8"@,
        KeyCode::Digit9 => "9"@,
        KeyCode::F1 => "f1"@,
        KeyCode::F2 => "f2"@,
        KeyCode::F3 => "f3"@,
        KeyCode::F4 => "f4"@,
        KeyCode::F5 => "f5"@,
        KeyCode::F6 => "f6"@,
        KeyCode::F7 => "f7"@,
        KeyCode::F8 => "f8"@,
        KeyCode::F9 => "f9"@,
        KeyCode::F10 => "f10"@,
        KeyCode::F11 => "f11"@,
        KeyCode::F12 => "f12"@,
        KeyCode::Space => "space"@,
        KeyCode::Tab => "tab"@,
        KeyCode::Enter => "enter"@,
        KeyCode::Escape => "escape"@,
        KeyCode::Backspace => "backspace"@,
        KeyCode::Slash => "slash"@,
        KeyCode::Backslash => "backslash"@,
        KeyCode::Period => "period"@,
        KeyCode::Comma => "comma"@,
        KeyCode::Semicolon => "semicolon"@,
        KeyCode::Quote => "quote"@,
        KeyCode::BracketLeft => "bracketleft"@,
        KeyCode::BracketRight => "bracketright"@,
        KeyCode::Minus => "minus"@,
        KeyCode::Equal => "equal"@,
        KeyCode::Backquote => "backquote"@,
        KeyCode::ArrowUp => "up"@,
        KeyCode::ArrowDown => "down"@,
        KeyCode::ArrowLeft => "left"@,
        KeyCode::ArrowRight => "right"@,
        KeyCode::Delete => "delete"@,
        KeyCode::Insert => "insert"@,
        KeyCode::Home => "home"@,
        KeyCode::End => "end"@,
        KeyCode::PageUp => "pageup"@,
        KeyCode::PageDown => "pagedown"@,
        KeyCode::Numpad0 => "numpad0"@,
        KeyCode::Numpad1 => "numpad1"@,
        KeyCode::Numpad2 => "numpad2"@,
        KeyCode::Numpad3 => "numpad3"@,
        KeyCode::Numpad4 => "numpad4"@,
        KeyCode::Numpad5 => "numpad5"@,
        KeyCode::Numpad6 => "numpad6"@,
        KeyCode::Numpad7 => "numpad7"@,
        KeyCode::Numpad8 => "numpad8"@,
        KeyCode::Numpad9 => "numpad9"@,
    }
}

/// The other name some keys may be written with: `esc`, or the punctuation character itself.
pub open spec fn key_alias(k: KeyCode) -> Option<Seq<char>> {
    match k {
        KeyCode::Escape => Some("esc"@),
        KeyCode::Period => Some("."@),
        KeyCode::Comma => Some(","@),
        KeyCode::Semicolon => Some(";"@),
        KeyCode::Quote => Some("'"@),
        KeyCode::BracketLeft => Some("["@),
        KeyCode::BracketRight => Some("]"@),
        KeyCode::Minus => Some("-"@),
        KeyCode::Equal => Some("="@),
        KeyCode::Backquote => Some("`"@),
        _ => None,
    }
}

/// Every key is read from its name, and from its other name where it has one: a key name
/// in a shortcut stands for the key of that name.
#[verifier::rlimit(100)]
pub proof fn law_key_names(k: KeyCode)
    ensures
        key_code_spec(key_name(k)) == Some(k),
        key_alias(k) matches Some(a) ==> key_code_spec(a) == Some(k),
{
    assert("a"@.len() == 1 && "a"@[0] == 'a') by {
        reveal_strlit("a");
    }
    assert("b"@.len() == 1 && "b"@[0] == 'b') by {
        reveal_strlit("b");
    }
    assert("c"@.len() == 1 && "c"@[0] == 'c') by {
        reveal_strlit("c");
    }
    assert("d"@.len() == 1 && "d"@[0] == 'd') by {
        reveal_strlit("d");
    }
    assert("e"@.len() == 1 && "e"@[0] == 'e') by {
        reveal_strlit("e");
    }
    assert("f"@.len() == 1 && "f"@[0] == 'f') by {
        reveal_strlit("f");
    }
    assert("g"@.len() == 1 && "g"@[0] == 'g') by {
        reveal_strlit("g");
    }
    assert("h"@.len() == 1 && "h"@[0] == 'h') by {
        reveal_strlit("h");
    }
    assert("i"@.len() == 1 && "i"@[0] == 'i') by {
        reveal_strlit("i");
    }
    assert("j"@.len() == 1 && "j"@[0] == 'j') by {
        reveal_strlit("j");
    }
    assert("k"@.len() == 1 && "k"@[0] == 'k') by {
        reveal_strlit("k");
    }
    assert("l"@.len() == 1 && "l"@[0] == 'l') by {
        reveal_strlit("l");
    }
    assert("m"@.len() == 1 && "m"@[0] == 'm') by {
        reveal_strlit("m");
    }
    assert("n"@.len() == 1 && "n"@[0] == 'n') by {
        reveal_strlit("n");
    }
    assert("o"@.len() == 1 && "o"@[0] == 'o') by {
        reveal_strlit("o");
    }
    assert("p"@.len() == 1 && "p"@[0] == 'p') by {
        reveal_strlit("p");
    }
    assert("q"@.len() == 1 && "q"@[0] == 'q') by {
        reveal_strlit("q");
    }
    assert("r"@.len() == 1 && "r"@[0] == 'r') by {
        reveal_strlit("r");
    }
    assert("s"@.len() == 1 && "s"@[0] == 's') by {
        reveal_strlit("s");
    }
    assert("t"@.len() == 1 && "t"@[0] == 't') by {
        reveal_strlit("t");
    }
    assert("u"@.len() == 1 && "u"@[0] == 'u') by {
        reveal_strlit("u");
    }
    assert("v"@.len() == 1 && "v"@[0] == 'v') by {
        reveal_strlit("v");
    }
    assert("w"@.len() == 1 && "w"@[0] == 'w') by {
        reveal_strlit("w");
    }
    assert("x"@.len() == 1 && "x"@[0] == 'x') by {
        reveal_strlit("x");
    }
    assert("y"@.len() == 1 && "y"@[0] == 'y') by {
        reveal_strlit("y");
    }
    assert("z"@.len() == 1 && "z"@[0] == 'z') by {
        reveal_strlit("z");
    }
    assert("0"@.len() == 1 && "0"@[0] == '0') by {
        reveal_strlit("0");
    }
    assert("1"@.len() == 1 && "1"@[0] == '1') by {
        reveal_strlit("1");
    }
    assert("2"@.len() == 1 && "2"@[0] == '2') by {
        reveal_strlit("2");
    }
    assert("3"@.len() == 1 && "3"@[0] == '3') by {
        reveal_strlit("3");
    }
    assert("4"@.len() == 1 && "4"@[0] == '4') by {
        reveal_strlit("4");
    }
    assert("5"@.len() == 1 && "5"@[0] == '5') by {
        reveal_strlit("5");
    }
    assert("6"@.len() == 1 && "6"@[0] == '6') by {
        reveal_strlit("6");
    }
    assert("7"@.len() == 1 && "7"@[0] == '7') by {
        reveal_strlit("7");
    }
    assert("8"@.len() == 1 && "8"@[0] == '8') by {
        reveal_strlit("8");
    }
    assert("9"@.len() == 1 && "9"@[0] == '9') by {
        reveal_strlit("9");
    }
    assert("f1"@.len() == 2 && "f1"@[0] == 'f' && "f1"@[1] == '1') by {
        reveal_strlit("f1");
    }
    assert("f2"@.len() == 2 && "f2"@[0] == 'f' && "f2"@[1] == '2') by {
        reveal_strlit("f2");
    }
    assert("f3"@.len() == 2 && "f3"@[0] == 'f' && "f3"@[1] == '3') by {
        reveal_strlit("f3");
    }
    assert("f4"@.len() == 2 && "f4"@[0] == 'f' && "f4"@[1] == '4') by {
        reveal_strlit("f4");
    }
    assert("f5"@.len() == 2 && "f5"@[0] == 'f' && "f5"@[1] == '5') by {
        reveal_strlit("f5");
    }
    assert("f6"@.len() == 2 && "f6"@[0] == 'f' && "f6"@[1] == '6') by {
        reveal_strlit("f6");
    }
    assert("f7"@.len() == 2 && "f7"@[0] == 'f' && "f7"@[1] == '7') by {
        reveal_strlit("f7");
    }
    assert("f8"@.len() == 2 && "f8"@[0] == 'f' && "f8"@[1] == '8') by {
        reveal_strlit("f8");
    }
    assert("f9"@.len() == 2 && "f9"@[0] == 'f' && "f9"@[1] == '9') by {
        reveal_strlit("f9");
    }
    assert("f10"@.len() == 3 && "f10"@[0] == 'f' && "f10"@[1] == '1' && "f10"@[2] == '0') by {
        reveal_strlit("f10");
    }
    assert("f11"@.len() == 3 && "f11"@[0] == 'f' && "f11"@[1] == '1' && "f11"@[2] == '1') by {
        reveal_strlit("f11");
    }
    assert("f12"@.len() == 3 && "f12"@[0] == 'f' && "f12"@[1] == '1' && "f12"@[2] == '2') by {
        reveal_strlit("f12");
    }
    assert("space"@.len() == 5 && "space"@[0] == 's' && "space"@[1] == 'p' && "space"@[2] == 'a' && "space"@[3] == 'c' && "space"@[4] == 'e') by {
        reveal_strlit("space");
    }
    assert("tab"@.len() == 3 && "tab"@[0] == 't' && "tab"@[1] == 'a' && "tab"@[2] == 'b') by {
        reveal_strlit("tab");
    }
    assert("enter"@.len() == 5 && "enter"@[0] == 'e' && "enter"@[1] == 'n' && "enter"@[2] == 't' && "enter"@[3] == 'e' && "enter"@[4] == 'r') by {
        reveal_strlit("enter");
    }
    assert("escape"@.len() == 6 && "escape"@[0] == 'e' && "escape"@[1] == 's' && "escape"@[2] == 'c' && "escape"@[3] == 'a' && "escape"@[4] == 'p' && "escape"@[5] == 'e') by {
        reveal_strlit("escape");
    }
    assert("esc"@.len() == 3 && "esc"@[0] == 'e' && "esc"@[1] == 's' && "esc"@[2] == 'c') by {
        reveal_strlit("esc");
    }
    assert("backspace"@.len() == 9 && "backspace"@[0] == 'b' && "backspace"@[1] == 'a' && "backspace"@[2] == 'c' && "backspace"@[3] == 'k' && "backspace"@[4] == 's' && "backspace"@[5] == 'p' && "backspace"@[6] == 'a' && "backspace"@[7] == 'c' && "backspace"@[8] == 'e') by {
        reveal_strlit("backspace");
    }
    assert("slash"@.len() == 5 && "slash"@[0] == 's' && "slash"@[1] == 'l' && "slash"@[2] == 'a' && "slash"@[3] == 's' && "slash"@[4] == 'h') by {
        reveal_strlit("slash");
    }
    assert("backslash"@.len() == 9 && "backslash"@[0] == 'b' && "backslash"@[1] == 'a' && "backslash"@[2] == 'c' && "backslash"@[3] == 'k' && "backslash"@[4] == 's' && "backslash"@[5] == 'l' && "backslash"@[6] == 'a' && "backslash"@[7] == 's' && "backslash"@[8] == 'h') by {
        reveal_strlit("backslash");
    }
    assert("period"@.len() == 6 && "period"@[0] == 'p' && "period"@[1] == 'e' && "period"@[2] == 'r' && "period"@[3] == 'i' && "period"@[4] == 'o' && "period"@[5] == 'd') by {
        reveal_strlit("period");
    }
    assert("."@.len() == 1 && "."@[0] == '.') by {
        reveal_strlit(".");
    }
    assert("comma"@.len() == 5 && "comma"@[0] == 'c' && "comma"@[1] == 'o' && "comma"@[2] == 'm' && "comma"@[3] == 'm' && "comma"@[4] == 'a') by {
        reveal_strlit("comma");
    }
    assert(","@.len() == 1 && ","@[0] == ',') by {
        reveal_strlit(",");
    }
    assert("semicolon"@.len() == 9 && "semicolon"@[0] == 's' && "semicolon"@[1] == 'e' && "semicolon"@[2] == 'm' && "semicolon"@[3] == 'i' && "semicolon"@[4] == 'c' && "semicolon"@[5] == 'o' && "semicolon"@[6] == 'l' && "semicolon"@[7] == 'o' && "semicolon"@[8] == 'n') by {
        reveal_strlit("semicolon");
    }
    assert(";"@.len() == 1 && ";"@[0] == ';') by {
        reveal_strlit(";");
    }
    assert("quote"@.len() == 5 && "quote"@[0] == 'q' && "quote"@[1] == 'u' && "quote"@[2] == 'o' && "quote"@[3] == 't' && "quote"@[4] == 'e') by {
        reveal_strlit("quote");
    }
    assert("'"@.len() == 1 && "'"@[0] == '\'') by {
        reveal_strlit("'");
    }
    assert("bracketleft"@.len() == 11 && "bracketleft"@[0] == 'b' && "bracketleft"@[1] == 'r' && "bracketleft"@[2] == 'a' && "bracketleft"@[3] == 'c' && "bracketleft"@[4] == 'k' && "bracketleft"@[5] == 'e' && "bracketleft"@[6] == 't' && "bracketleft"@[7] == 'l' && "bracketleft"@[8] == 'e' && "bracketleft"@[9] == 'f' && "bracketleft"@[10] == 't') by {
        reveal_strlit("bracketleft");
    }
    assert("["@.len() == 1 && "["@[0] == '[') by {
        reveal_strlit("[");
    }
    assert("bracketright"@.len() == 12 && "bracketright"@[0] == 'b' && "bracketright"@[1] == 'r' && "bracketright"@[2] == 'a' && "bracketright"@[3] == 'c' && "bracketright"@[4] == 'k' && "bracketright"@[5] == 'e' && "bracketright"@[6] == 't' && "bracketright"@[7] == 'r' && "bracketright"@[8] == 'i' && "bracketright"@[9] == 'g' && "bracketright"@[10] == 'h' && "bracketright"@[11] == 't') by {
        reveal_strlit("bracketright");
    }
    assert("]"@.len() == 1 && "]"@[0] == ']') by {
        reveal_strlit("]");
    }
    assert("minus"@.len() == 5 && "minus"@[0] == 'm' && "minus"@[1] == 'i' && "minus"@[2] == 'n' && "minus"@[3] == 'u' && "minus"@[4] == 's') by {
        reveal_strlit("minus");
    }
    assert("-"@.len() == 1 && "-"@[0] == '-') by {
        reveal_strlit("-");
    }
    assert("equal"@.len() == 5 && "equal"@[0] == 'e' && "equal"@[1] == 'q' && "equal"@[2] == 'u' && "equal"@[3] == 'a' && "equal"@[4] == 'l') by {
        reveal_strlit("equal");
    }
    assert("="@.len() == 1 && "="@[0] == '=') by {
        reveal_strlit("=");
    }
    assert("backquote"@.len() == 9 && "backquote"@[0] == 'b' && "backquote"@[1] == 'a' && "backquote"@[2] == 'c' && "backquote"@[3] == 'k' && "backquote"@[4] == 'q' && "backquote"@[5] == 'u' && "backquote"@[6] == 'o' && "backquote"@[7] == 't' && "backquote"@[8] == 'e') by {
        reveal_strlit("backquote");
    }
    assert("`"@.len() == 1 && "`"@[0] == '`') by {
        reveal_strlit("`");
    }
    assert("up"@.len() == 2 && "up"@[0] == 'u' && "up"@[1] == 'p') by {
        reveal_strlit("up");
    }
    assert("down"@.len() == 4 && "down"@[0] == 'd' && "down"@[1] == 'o' && "down"@[2] == 'w' && "down"@[3] == 'n') by {
        reveal_strlit("down");
    }
    assert("left"@.len() == 4 && "left"@[0] == 'l' && "left"@[1] == 'e' && "left"@[2] == 'f' && "left"@[3] == 't') by {
        reveal_strlit("left");
    }
    assert("right"@.len() == 5 && "right"@[0] == 'r' && "right"@[1] == 'i' && "right"@[2] == 'g' && "right"@[3] == 'h' && "right"@[4] == 't') by {
        reveal_strlit("right");
    }
    assert("delete"@.len() == 6 && "delete"@[0] == 'd' && "delete"@[1] == 'e' && "delete"@[2] == 'l' && "delete"@[3] == 'e' && "delete"@[4] == 't' && "delete"@[5] == 'e') by {
        reveal_strlit("delete");
    }
    assert("insert"@.len() == 6 && "insert"@[0] == 'i' && "insert"@[1] == 'n' && "insert"@[2] == 's' && "insert"@[3] == 'e' && "insert"@[4] == 'r' && "insert"@[5] == 't') by {
        reveal_strlit("insert");
    }
    assert("home"@.len() == 4 && "home"@[0] == 'h' && "home"@[1] == 'o' && "home"@[2] == 'm' && "home"@[3] == 'e') by {
        reveal_strlit("home");
    }
    assert("end"@.len() == 3 && "end"@[0] == 'e' && "end"@[1] == 'n' && "end"@[2] == 'd') by {
        reveal_strlit("end");
    }
    assert("pageup"@.len() == 6 && "pageup"@[0] == 'p' && "pageup"@[1] == 'a' && "pageup"@[2] == 'g' && "pageup"@[3] == 'e' && "pageup"@[4] == 'u' && "pageup"@[5] == 'p') by {
        reveal_strlit("pageup");
    }
    assert("pagedown"@.len() == 8 && "pagedown"@[0] == 'p' && "pagedown"@[1] == 'a' && "pagedown"@[2] == 'g' && "pagedown"@[3] == 'e' && "pagedown"@[4] == 'd' && "pagedown"@[5] == 'o' && "pagedown"@[6] == 'w' && "pagedown"@[7] == 'n') by {
        reveal_strlit("pagedown");
    }
    assert("numpad0"@.len() == 7 && "numpad0"@[0] == 'n' && "numpad0"@[1] == 'u' && "numpad0"@[2] == 'm' && "numpad0"@[3] == 'p' && "numpad0"@[4] == 'a' && "numpad0"@[5] == 'd' && "numpad0"@[6] == '0') by {
        reveal_strlit("numpad0");
    }
    assert("numpad1"@.len() == 7 && "numpad1"@[0] == 'n' && "numpad1"@[1] == 'u' && "numpad1"@[2] == 'm' && "numpad1"@[3] == 'p' && "numpad1"@[4] == 'a' && "numpad1"@[5] == 'd' && "numpad1"@[6] == '1') by {
        reveal_strlit("numpad1");
    }
    assert("numpad2"@.len() == 7 && "numpad2"@[0] == 'n' && "numpad2"@[1] == 'u' && "numpad2"@[2] == 'm' && "numpad2"@[3] == 'p' && "numpad2"@[4] == 'a' && "numpad2"@[5] == 'd' && "numpad2"@[6] == '2') by {
        reveal_strlit("numpad2");
    }
    assert("numpad3"@.len() == 7 && "numpad3"@[0] == 'n' && "numpad3"@[1] == 'u' && "numpad3"@[2] == 'm' && "numpad3"@[3] == 'p' && "numpad3"@[4] == 'a' && "numpad3"@[5] == 'd' && "numpad3"@[6] == '3') by {
        reveal_strlit("numpad3");
    }
    assert("numpad4"@.len() == 7 && "numpad4"@[0] == 'n' && "numpad4"@[1] == 'u' && "numpad4"@[2] == 'm' && "numpad4"@[3] == 'p' && "numpad4"@[4] == 'a' && "numpad4"@[5] == 'd' && "numpad4"@[6] == '4') by {
        reveal_strlit("numpad4");
    }
    assert("numpad5"@.len() == 7 && "numpad5"@[0] == 'n' && "numpad5"@[1] == 'u' && "numpad5"@[2] == 'm' && "numpad5"@[3] == 'p' && "numpad5"@[4] == 'a' && "numpad5"@[5] == 'd' && "numpad5"@[6] == '5') by {
        reveal_strlit("numpad5");
    }
    assert("numpad6"@.len() == 7 && "numpad6"@[0] == 'n' && "numpad6"@[1] == 'u' && "numpad6"@[2] == 'm' && "numpad6"@[3] == 'p' && "numpad6"@[4] == 'a' && "numpad6"@[5] == 'd' && "numpad6"@[6] == '6') by {
        reveal_strlit("numpad6");
    }
    assert("numpad7"@.len() == 7 && "numpad7"@[0] == 'n' && "numpad7"@[1] == 'u' && "numpad7"@[2] == 'm' && "numpad7"@[3] == 'p' && "numpad7"@[4] == 'a' && "numpad7"@[5] == 'd' && "numpad7"@[6] == '7') by {
        reveal_strlit("numpad7");
    }
    assert("numpad8"@.len() == 7 && "numpad8"@[0] == 'n' && "numpad8"@[1] == 'u' && "numpad8"@[2] == 'm' && "numpad8"@[3] == 'p' && "numpad8"@[4] == 'a' && "numpad8"@[5] == 'd' && "numpad8"@[6] == '8') by {
        reveal_strlit("numpad8");
    }
    assert("numpad9"@.len() == 7 && "numpad9"@[0] == 'n' && "numpad9"@[1] == 'u' && "numpad9"@[2] == 'm' && "numpad9"@[3] == 'p' && "numpad9"@[4] == 'a' && "numpad9"@[5] == 'd' && "numpad9"@[6] == '9') by {
        reveal_strlit("numpad9");
    }
}

/// The key a lower-case key name stands for, if any.
pub fn key_code(name: &str) -> (r: Option<KeyCode>)
    ensures
        r == key_code_spec(name@),
{
    if str_eq(name, "a") {
        Some(KeyCode::KeyA)
    } else if str_eq(name, "b") {
        Some(KeyCode::KeyB)
    } else if str_eq(name, "c") {
        Some(KeyCode::KeyC)
    } else if str_eq(name, "d") {
        Some(KeyCode::KeyD)
    } else if str_eq(name, "e") {
        Some(KeyCode::KeyE)
    } else if str_eq(name, "f") {
        Some(KeyCode::KeyF)
    } else if str_eq(name, "g") {
        Some(KeyCode::KeyG)
    } else if str_eq(name, "h") {
        Some(KeyCode::KeyH)
    } else if str_eq(name, "i") {
        Some(KeyCode::KeyI)
    } else if str_eq(name, "j") {
        Some(KeyCode::KeyJ)
    } else if str_eq(name, "k") {
        Some(KeyCode::KeyK)
    } else if str_eq(name, "l") {
        Some(KeyCode::KeyL)
    } else if str_eq(name, "m") {
        Some(KeyCode::KeyM)
    } else if str_eq(name, "n") {
        Some(KeyCode::KeyN)
    } else if str_eq(name, "o") {
        Some(KeyCode::KeyO)
    } else if str_eq(name, "p") {
        Some(KeyCode::KeyP)
    } else if str_eq(name, "q") {
        Some(KeyCode::KeyQ)
    } else if str_eq(name, "r") {
        Some(KeyCode::KeyR)
    } else if str_eq(name, "s") {
        Some(KeyCode::KeyS)
    } else if str_eq(name, "t") {
        Some(KeyCode::KeyT)
    } else if str_eq(name, "u") {
        Some(KeyCode::KeyU)
    } else if str_eq(name, "v") {
        Some(KeyCode::KeyV)
    } else if str_eq(name, "w") {
        Some(KeyCode::KeyW)
    } else if str_eq(name, "x") {
        Some(KeyCode::KeyX)
    } else if str_eq(name, "y") {
        Some(KeyCode::KeyY)
    } else if str_eq(name, "z") {
        Some(KeyCode::KeyZ)
    } else if str_eq(name, "0") {
        Some(KeyCode::Digit0)
    } else if str_eq(name, "1") {
        Some(KeyCode::Digit1)
    } else if str_eq(name, "2") {
        Some(KeyCode::Digit2)
    } else if str_eq(name, "3") {
        Some(KeyCode::Digit3)
    } else if str_eq(name, "4") {
        Some(KeyCode::Digit4)
    } else if str_eq(name, "5") {
        Some(KeyCode::Digit5)
    } else if str_eq(name, "6") {
        Some(KeyCode::Digit6)
    } else if str_eq(name, "7") {
        Some(KeyCode::Digit7)
    } else if str_eq(name, "8") {
        Some(KeyCode::Digit8)
    } else if str_eq(name, "9") {
        Some(KeyCode::Digit9)
    } else if str_eq(name, "f1") {
        Some(KeyCode::F1)
    } else if str_eq(name, "f2") {
        Some(KeyCode::F2)
    } else if str_eq(name, "f3") {
        Some(KeyCode::F3)
    } else if str_eq(name, "f4") {
        Some(KeyCode::F4)
    } else if str_eq(name, "f5") {
        Some(KeyCode::F5)
    } else if str_eq(name, "f6") {
        Some(KeyCode::F6)
    } else if str_eq(name, "f7") {
        Some(KeyCode::F7)
    } else if str_eq(name, "f8") {
        Some(KeyCode::F8)
    } else if str_eq(name, "f9") {
        Some(KeyCode::F9)
    } else if str_eq(name, "f10") {
        Some(KeyCode::F10)
    } else if str_eq(name, "f11") {
        Some(KeyCode::F11)
    } else if str_eq(name, "f12") {
        Some(KeyCode::F12)
    } else if str_eq(name, "space") {
        Some(KeyCode::Space)
    } else if str_eq(name, "tab") {
        Some(KeyCode::Tab)
    } else if str_eq(name, "enter") {
        Some(KeyCode::Enter)
    } else if str_eq(name, "escape") || str_eq(name, "esc") {
        Some(KeyCode::Escape)
    } else if str_eq(name, "backspace") {
        Some(KeyCode::Backspace)
    } else if str_eq(name, "slash") {
        Some(KeyCode::Slash)
    } else if str_eq(name, "backslash") {
        Some(KeyCode::Backslash)
    } else if str_eq(name, "period") || str_eq(name, ".") {
        Some(KeyCode::Period)
    } else if str_eq(name, "comma") || str_eq(name, ",") {
        Some(KeyCode::Comma)
    } else if str_eq(name, "semicolon") || str_eq(name, ";") {
        Some(KeyCode::Semicolon)
    } else if str_eq(name, "quote") || str_eq(name, "'") {
        Some(KeyCode::Quote)
    } else if str_eq(name, "bracketleft") || str_eq(name, "[") {
        Some(KeyCode::BracketLeft)
    } else if str_eq(name, "bracketright") || str_eq(name, "]") {
        Some(KeyCode::BracketRight)
    } else if str_eq(name, "minus") || str_eq(name, "-") {
        Some(KeyCode::Minus)
    } else if str_eq(name, "equal") || str_eq(name, "=") {
        Some(KeyCode::Equal)
    } else if str_eq(name, "backquote") || str_eq(name, "`") {
        Some(KeyCode::Backquote)
    } else if str_eq(name, "up") {
        Some(KeyCode::ArrowUp)
    } else if str_eq(name, "down") {
        Some(KeyCode::ArrowDown)
    } else if str_eq(name, "left") {
        Some(KeyCode::ArrowLeft)
    } else if str_eq(name, "right") {
        Some(KeyCode::ArrowRight)
    } else if str_eq(name, "delete") {
        Some(KeyCode::Delete)
    } else if str_eq(name, "insert") {
        Some(KeyCode::Insert)
    } else if str_eq(name, "home") {
        Some(KeyCode::Home)
    } else if str_eq(name, "end") {
        Some(KeyCode::End)
    } else if str_eq(name, "pageup") {
        Some(KeyCode::PageUp)
    } else if str_eq(name, "pagedown") {
        Some(KeyCode::PageDown)
    } else if str_eq(name, "numpad0") {
        Some(KeyCode::Numpad0)
    } else if str_eq(name, "numpad1") {
        Some(KeyCode::Numpad1)
    } else if str_eq(name, "numpad2") {
        Some(KeyCode::Numpad2)
    } else if str_eq(name, "numpad3") {
        Some(KeyCode::Numpad3)
    } else if str_eq(name, "numpad4") {
        Some(KeyCode::Numpad4)
    } else if str_eq(name, "numpad5") {
        Some(KeyCode::Numpad5)
    } else if str_eq(name, "numpad6") {
        Some(KeyCode::Numpad6)
    } else if str_eq(name, "numpad7") {
        Some(KeyCode::Numpad7)
    } else if str_eq(name, "numpad8") {
        Some(KeyCode::Numpad8)
    } else if str_eq(name, "numpad9") {
        Some(KeyCode::Numpad9)
    } else {
        None
    }
}

/// The modifier keys of a shortcut.
#[derive(Debug, Clone, Copy, PartialEq, Eq, Structural)]
pub struct ModifierSet {
    pub control: bool,
    pub shift: bool,
    pub alt: bool,
    pub super_key: bool,
}

/// A global shortcut: modifier keys and a key.
#[derive(Debug, Clone, Copy, PartialEq, Eq, Structural)]
pub struct ShortcutSpec {
    pub mods: ModifierSet,
    pub code: KeyCode,
}

/// What a part of a shortcut text names.
pub enum PartKind {
    Control,
    Shift,
    Alt,
    Super,
    Other,
}

/// What a lower-case part of a shortcut text names.
pub open spec fn part_kind(p: Seq<char>) -> PartKind {
    if p == "ctrl"@ || p == "control"@ {
        PartKind::Control
    } else if p == "shift"@ {
        PartKind::Shift
    } else if p == "alt"@ {
        PartKind::Alt
    } else if p == "super"@ || p == "win"@ || p == "meta"@ || p == "cmd"@ || p == "command"@ {
        PartKind::Super
    } else {
        PartKind::Other
    }
}

/// The modifiers named by the `+`-separated parts, and the last part that names none
/// (each part trimmed and put in lower case).
pub open spec fn shortcut_parts(parts: Seq<Seq<char>>) -> (ModifierSet, Seq<char>)
    decreases parts.len(),
{
    if parts.len() == 0 {
        (ModifierSet { control: false, shift: false, alt: false, super_key: false }, Seq::empty())
    } else {
        let (m, code) = shortcut_parts(parts.drop_last());
        let p = lower_case(trim(parts.last()));
        match part_kind(p) {
            PartKind::Control => (ModifierSet { control: true, ..m }, code),
            PartKind::Shift => (ModifierSet { shift: true, ..m }, code),
            PartKind::Alt => (ModifierSet { alt: true, ..m }, code),
            PartKind::Super => (ModifierSet { super_key: true, ..m }, code),
            PartKind::Other => (m, p),
        }
    }
}

/// The shortcut a text such as `Ctrl+Shift+1` stands for: the modifiers it names and
/// the key named by its last other part; none when that part names no key.
pub open spec fn parse_shortcut_spec(s: Seq<char>) -> Option<ShortcutSpec> {
    let (m, code) = shortcut_parts(split_spec(s, '+'));
    match key_code_spec(code) {
        Some(k) => Some(ShortcutSpec { mods: m, code: k }),
        None => None,
    }
}

/// Reads a shortcut text such as `Ctrl+Shift+1`.
pub fn parse_shortcut(s: &str) -> (r: Option<ShortcutSpec>)
    ensures
        r == parse_shortcut_spec(s@),
{
    let v = chars_of(s);
    assert(v@.subrange(0, v@.len() as int) =~= v@);
    let parts = split_range(&v, 0, v.len(), '+');
    let ghost ps = seqs(parts@);
    let mut mods = ModifierSet { control: false, shift: false, alt: false, super_key: false };
    let mut code_str = String::new();
    let mut i: usize = 0;
    while i < parts.len()
        invariant
            ps == seqs(parts@),
            ps == split_spec(s@, '+'),
            i <= parts@.len(),
            (mods, code_str@) == shortcut_parts(ps.take(i as int)),
        decreases parts@.len() - i,
    {
        assert(ps.take(i + 1).drop_last() =~= ps.take(i as int));
        assert(ps.take(i + 1).last() == parts@[i as int]@);
        let raw = string_of(parts[i].as_slice());
        let t = trim_str(raw.as_str());
        let p = to_lowercase(t.as_str());
        let ps_ = p.as_str();
        if str_eq(ps_, "ctrl") || str_eq(ps_, "control") {
            mods.control = true;
        } else if str_eq(ps_, "shift") {
            mods.shift = true;
        } else if str_eq(ps_, "alt") {
            mods.alt = true;
        } else if str_eq(ps_, "super") || str_eq(ps_, "win") || str_eq(ps_, "meta") || str_eq(ps_, "cmd") || str_eq(
            ps_,
            "command",
        ) {
            mods.super_key = true;
        } else {
            code_str = p;
        }
        i = i + 1;
    }
    assert(ps.take(parts@.len() as int) =~= ps);
    match key_code(code_str.as_str()) {
        Some(k) => Some(ShortcutSpec { mods, code: k }),
        None => None,
    }
}

/// The shortcut that cycles the widget sequence: registered only when the sequence is
/// not empty and the text names a shortcut.
pub fn sequence_shortcut(hotkey: &Option<String>, sequence_len: usize) -> (r: Option<ShortcutSpec>)
    ensures
        r == (match hotkey {
            Some(h) => if sequence_len > 0 {
                parse_shortcut_spec(h@)
            } else {
                None
            },
            None => None,
        }),
{
    match hotkey {
        Some(h) => if sequence_len > 0 {
            parse_shortcut(h.as_str())
        } else {
            None
        },
        None => None,
    }
}

/// The window label of a plugin's widget.
pub open spec fn widget_label_spec(plugin_id: Seq<char>) -> Seq<char> {
    "widget-"@ + plugin_id
}

/// The window label of a plugin's widget: `widget-` and its id.
pub fn widget_label(plugin_id: &str) -> (r: String)
    ensures
        r@ == widget_label_spec(plugin_id@),
{
    let mut out: Vec<char> = Vec::new();
    push_str_chars(&mut out, "widget-");
    push_str_chars(&mut out, plugin_id);
    string_of(out.as_slice())
}

/// The window labels of the widgets of a sequence, in order.
pub fn sequence_window_labels(sequence: &Vec<String>) -> (r: Vec<String>)
    ensures
        r@.len() == sequence@.len(),
        forall|i: int| 0 <= i < r@.len() ==> (#[trigger] r@[i])@ == widget_label_spec(sequence@[i]@),
{
    let mut out: Vec<String> = Vec::new();
    let mut i: usize = 0;
    while i < sequence.len()
        invariant
            i <= sequence@.len(),
            out@.len() == i,
            forall|j: int| 0 <= j < i ==> (#[trigger] out@[j])@ == widget_label_spec(sequence@[j]@),
        decreases sequence@.len() - i,
    {
        out.push(widget_label(sequence[i].as_str()));
        i = i + 1;
    }
    out
}

/// What cycling the widget sequence does: the widget to hide, the widget to show if any
/// window of the sequence exists, and the index remembered afterwards.
#[derive(Debug, Clone, Copy, PartialEq, Eq, Structural)]
pub struct CyclePlan {
    pub hide: usize,
    pub show: Option<usize>,
    pub next_index: usize,
}

/// The first index, going round from `j`, whose window exists, trying `exists.len() - k`
/// indices.
pub open spec fn find_existing(exists: Seq<bool>, j: int, k: int) -> Option<int>
    decreases exists.len() - k,
{
    if k >= exists.len() || exists.len() == 0 {
        None
    } else if exists[j] {
        Some(j)
    } else {
        find_existing(exists, (j + 1) % (exists.len() as int), k + 1)
    }
}

/// Cycling from the remembered index over a sequence whose windows exist as given: the
/// widget at the index (taken round the sequence) is hidden, and the next widget whose
/// window exists, going round, is shown and remembered; when none exists the next index
/// is remembered.
pub open spec fn cycle_spec(index: int, exists: Seq<bool>) -> CyclePlan {
    let n = exists.len() as int;
    let safe = index % n;
    let next = (safe + 1) % n;
    let show = find_existing(exists, next, 0);
    CyclePlan {
        hide: safe as usize,
        show: match show {
            Some(j) => Some(j as usize),
            None => None,
        },
        next_index: match show {
            Some(j) => j as usize,
            None => next as usize,
        },
    }
}

/// Plans one step of the widget sequence; nothing for an empty sequence.
pub fn plan_cycle(index: usize, exists: &Vec<bool>) -> (r: Option<CyclePlan>)
    ensures
        exists@.len() == 0 ==> r is None,
        exists@.len() > 0 ==> r == Some(cycle_spec(index as int, exists@)),
{
    let n = exists.len();
    if n == 0 {
        return None;
    }
    let safe = index % n;
    let next = (safe + 1) % n;
    let mut tried: usize = 0;
    let mut j = next;
    while tried < n
        invariant
            n == exists@.len(),
            n > 0,
            safe == index % n,
            next == (safe + 1) % (n as int),
            j < n,
            tried <= n,
            find_existing(exists@, next as int, 0) == find_existing(exists@, j as int, tried as int),
        decreases n - tried,
    {
        if exists[j] {
            let r = CyclePlan { hide: safe, show: Some(j), next_index: j };
            return Some(r);
        }
        j = (j + 1) % n;
        tried = tried + 1;
    }
    Some(CyclePlan { hide: safe, show: None, next_index: next })
}

/// What toggling a plugin by its shortcut does: show it if hidden, hide it if shown, and
/// for a plugin outside the sequence also remember its visibility.
#[derive(Debug, Clone, Copy, PartialEq, Eq, Structural)]
pub struct TogglePlan {
    pub show: bool,
    pub persist: Option<bool>,
}

/// Plans toggling a plugin's widget, given the sequence and whether it is shown now.
pub fn toggle_plan(sequence: &Vec<String>, plugin_id: &str, visible_now: bool) -> (r: TogglePlan)
    ensures
        r.show == !visible_now,
        string_views(sequence@).contains(plugin_id@) ==> r.persist is None,
        !string_views(sequence@).contains(plugin_id@) ==> r.persist == Some(!visible_now),
{
    let ghost sv = string_views(sequence@);
    let mut in_sequence = false;
    let mut i: usize = 0;
    while i < sequence.len()
        invariant
            sv == string_views(sequence@),
            i <= sequence@.len(),
            in_sequence == exists|j: int| 0 <= j < i && sv[j] == plugin_id@,
        decreases sequence@.len() - i,
    {
        assert(sv[i as int] == sequence@[i as int]@);
        if str_eq(sequence[i].as_str(), plugin_id) {
            in_sequence = true;
        }
        i = i + 1;
    }
    TogglePlan {
        show: !visible_now,
        persist: if in_sequence {
            None
        } else {
            Some(!visible_now)
        },
    }
}

/// Gives every listed plugin a visibility entry, hidden, keeping the entries already there.
pub fn ensure_plugin_visibility(visibility: &mut StrMap<bool>, plugin_ids: &Vec<String>)
    requires
        old(visibility).wf(),
    ensures
        final(visibility).wf(),
        final(visibility)@.dom() == old(visibility)@.dom().union(string_views(plugin_ids@).to_set()),
        forall|k: Seq<char>| #[trigger] final(visibility)@.dom().contains(k) ==> final(visibility)@[k] == (if old(visibility)@.dom().contains(k) {
            old(visibility)@[k]
        } else {
            false
        }),
{
    let ghost ids = string_views(plugin_ids@);
    let mut i: usize = 0;
    while i < plugin_ids.len()
        invariant
            visibility.wf(),
            ids == string_views(plugin_ids@),
            i <= plugin_ids@.len(),
            visibility@.dom() == old(visibility)@.dom().union(ids.take(i as int).to_set()),
            forall|k: Seq<char>| #[trigger] visibility@.dom().contains(k) ==> visibility@[k] == (if old(visibility)@.dom().contains(k) {
                old(visibility)@[k]
            } else {
                false
            }),
        decreases plugin_ids@.len() - i,
    {
        assert(ids[i as int] == plugin_ids@[i as int]@);
        proof {
            let pre = ids.take(i as int);
            let cur = ids.take(i + 1);
            assert(cur =~= pre.push(ids[i as int]));
            assert(cur.to_set() =~= pre.to_set().insert(ids[i as int])) by {
                assert forall|y: Seq<char>| cur.to_set().contains(y) <==> pre.to_set().insert(ids[i as int]).contains(y) by {
                    if cur.contains(y) {
                        let k = choose|k: int| 0 <= k < cur.len() && #[trigger] cur[k] == y;
                        if k < i {
                            assert(pre[k] == y);
                        }
                    }
                    if pre.contains(y) {
                        let k = choose|k: int| 0 <= k < pre.len() && #[trigger] pre[k] == y;
                        assert(cur[k] == y);
                    }
                    if y == ids[i as int] {
                        assert(cur[i as int] == y);
                    }
                }
            }
        }
        if !visibility.contains_key(plugin_ids[i].as_str()) {
            visibility.insert(plugin_ids[i].clone(), false);
        }
        assert(visibility@.dom() =~= old(visibility)@.dom().union(ids.take(i + 1).to_set()));
        i = i + 1;
    }
    assert(ids.take(plugin_ids@.len() as int) =~= ids);
}

/// A path in double quotes, as a Windows command line takes it.
pub fn quote_windows_path(path: &str) -> (r: String)
    ensures
        r@ == seq!['"'] + path@ + seq!['"'],
{
    let mut out: Vec<char> = Vec::new();
    out.push('"');
    push_str_chars(&mut out, path);
    out.push('"');
    let r = string_of(out.as_slice());
    assert(r@ =~= seq!['"'] + path@ + seq!['"']);
    r
}

/// `s` with every `c` replaced by `with`.
pub open spec fn replace_char(s: Seq<char>, c: char, with: Seq<char>) -> Seq<char>
    decreases s.len(),
{
    if s.len() == 0 {
        s
    } else {
        replace_char(s.drop_last(), c, with) + (if s.last() == c {
            with
        } else {
            seq![s.last()]
        })
    }
}

fn replace_char_exec(s: &str, c: char, with: &str) -> (r: String)
    ensures
        r@ == replace_char(s@, c, with@),
{
    let v = chars_of(s);
    let w = chars_of(with);
    let mut out: Vec<char> = Vec::new();
    let mut i: usize = 0;
    while i < v.len()
        invariant
            v@ == s@,
            w@ == with@,
            i <= v@.len(),
            out@ == replace_char(v@.take(i as int), c, with@),
        decreases v@.len() - i,
    {
        assert(v@.take(i + 1).drop_last() =~= v@.take(i as int));
        assert(v@.take(i + 1).last() == v@[i as int]);
        if v[i] == c {
            crate::text::push_all(&mut out, w.as_slice());
        } else {
            out.push(v[i]);
            assert(out@ =~= replace_char(v@.take(i as int), c, with@) + seq![v@[i as int]]);
        }
        i = i + 1;
    }
    assert(v@.take(v@.len() as int) =~= v@);
    string_of(out.as_slice())
}

/// A value for a single-quoted PowerShell string: each `'` doubled.
pub fn escape_single_quoted_powershell(value: &str) -> (r: String)
    ensures
        r@ == replace_char(value@, '\'', "''"@),
{
    replace_char_exec(value, '\'', "''")
}

/// The PowerShell script that starts the development frontend, hidden, unless it is
/// already serving, waits for it, and then starts the app.
pub open spec fn dev_startup_powershell_spec(root: Seq<char>, exe: Seq<char>) -> Seq<char> {
    "$ErrorActionPreference = 'SilentlyContinue'\n$projectRoot = '"@ + replace_char(root, '\'', "''"@) + "'\n$appExe = '"@ + replace_char(exe, '\'', "''"@)
        + "'\n$devUrl = 'http://127.0.0.1:1420'\n\nfunction Test-FrontendReady {\n    try {\n        Invoke-WebRequest -UseBasicParsing -Uri $devUrl -TimeoutSec 1 | Out-Null\n        return $true\n    } catch {\n        return $false\n    }\n}\n\nif (-not (Test-FrontendReady)) {\n    Start-Process -FilePath 'npm.cmd' -ArgumentList @('run', 'dev', '--', '--host', '127.0.0.1') -WorkingDirectory $projectRoot -WindowStyle Hidden\n}\n\nfor ($i = 0; $i -lt 60; $i++) {\n    if (Test-FrontendReady) { break }\n    Start-Sleep -Milliseconds 500\n}\n\nStart-Process -FilePath $appExe -WorkingDirectory $projectRoot -WindowStyle Hidden\n"@
}

/// Writes the PowerShell script that starts the app at login in a development build, for
/// the project directory and the executable given by their displayed paths.
pub fn dev_startup_powershell(project_root: &str, exe: &str) -> (r: String)
    ensures
        r@ == dev_startup_powershell_spec(project_root@, exe@),
{
    let root = escape_single_quoted_powershell(project_root);
    let exe_e = escape_single_quoted_powershell(exe);
    let mut out: Vec<char> = Vec::new();
    push_str_chars(&mut out, "$ErrorActionPreference = 'SilentlyContinue'\n$projectRoot = '");
    push_str_chars(&mut out, root.as_str());
    push_str_chars(&mut out, "'\n$appExe = '");
    push_str_chars(&mut out, exe_e.as_str());
    push_str_chars(
        &mut out,
        "'\n$devUrl = 'http://127.0.0.1:1420'\n\nfunction Test-FrontendReady {\n    try {\n        Invoke-WebRequest -UseBasicParsing -Uri $devUrl -TimeoutSec 1 | Out-Null\n        return $true\n    } catch {\n        return $false\n    }\n}\n\nif (-not (Test-FrontendReady)) {\n    Start-Process -FilePath 'npm.cmd' -ArgumentList @('run', 'dev', '--', '--host', '127.0.0.1') -WorkingDirectory $projectRoot -WindowStyle Hidden\n}\n\nfor ($i = 0; $i -lt 60; $i++) {\n    if (Test-FrontendReady) { break }\n    Start-Sleep -Milliseconds 500\n}\n\nStart-Process -FilePath $appExe -WorkingDirectory $projectRoot -WindowStyle Hidden\n",
    );
    string_of(out.as_slice())
}

/// The VBScript that runs the PowerShell script without a console window.
pub open spec fn dev_startup_vbs_spec(ps1: Seq<char>) -> Seq<char> {
    "Set shell = CreateObject(\"WScript.Shell\")\r\nshell.Run \"powershell.exe -NoProfile -ExecutionPolicy Bypass -WindowStyle Hidden -File \"\""@ + replace_char(ps1, '"', "\"\""@) + "\"\"\", 0, False\r\n"@
}

/// Writes the VBScript that runs the PowerShell script at the given displayed path
/// hidden (double quotes in the path doubled).
pub fn dev_startup_vbs(ps1_path: &str) -> (r: String)
    ensures
        r@ == dev_startup_vbs_spec(ps1_path@),
{
    let ps1 = replace_char_exec(ps1_path, '"', "\"\"");
    let mut out: Vec<char> = Vec::new();
    push_str_chars(&mut out, "Set shell = CreateObject(\"WScript.Shell\")\r\nshell.Run \"powershell.exe -NoProfile -ExecutionPolicy Bypass -WindowStyle Hidden -File \"\"");
    push_str_chars(&mut out, ps1.as_str());
    push_str_chars(&mut out, "\"\"\", 0, False\r\n");
    string_of(out.as_slice())
}

/// The command the login startup entry runs: in a development build the VBScript
/// launcher through `wscript.exe`, otherwise the executable itself, quoted.
pub fn startup_registry_command(launcher: Option<&str>, exe: &str) -> (r: String)
    ensures
        r@ == (match launcher {
            Some(l) => "wscript.exe //B //NoLogo "@ + seq!['"'] + l@ + seq!['"'],
            None => seq!['"'] + exe@ + seq!['"'],
        }),
{
    match launcher {
        Some(l) => {
            let q = quote_windows_path(l);
            let mut out: Vec<char> = Vec::new();
            push_str_chars(&mut out, "wscript.exe //B //NoLogo ");
            push_str_chars(&mut out, q.as_str());
            let r = string_of(out.as_slice());
            assert(r@ =~= "wscript.exe //B //NoLogo "@ + seq!['"'] + l@ + seq!['"']);
            r
        },
        None => quote_windows_path(exe),
    }
}

proof fn lemma_find_existing_found(exists: Seq<bool>, j: int, k: int)
    requires
        exists.len() > 0,
        0 <= j < exists.len(),
        0 <= k,
    ensures
        find_existing(exists, j, k) matches Some(m) ==> 0 <= m < exists.len() && exists[m],
    decreases exists.len() - k,
{
    if k < exists.len() && !exists[j] {
        lemma_find_existing_found(exists, (j + 1) % (exists.len() as int), k + 1);
    }
}

/// Cycling the sequence shows a widget whose window exists, and remembers an index inside
/// the sequence.
pub proof fn law_cycle_shows_existing(index: int, exists: Seq<bool>)
    requires
        0 < exists.len() <= usize::MAX,
        index >= 0,
    ensures
        cycle_spec(index, exists).show matches Some(j) ==> j < exists.len() && exists[j as int],
        cycle_spec(index, exists).next_index < exists.len(),
        cycle_spec(index, exists).hide < exists.len(),
{
    let n = exists.len() as int;
    let next = (index % n + 1) % n;
    lemma_find_existing_found(exists, next, 0);
}

/// The app's general settings, as a fresh install has them: refresh every 2 s, cards 360
/// pixels wide, 50 log entries, windows on top, no start at login, pull with rebase, no
/// saved repositories, no panel visibility or plugin shortcut recorded, no widget sequence
/// and no sequence shortcut.
#[derive(Debug)]
pub struct GeneralSettings {
    pub refresh_interval_ms: u32,
    pub card_width: u32,
    pub log_max_count: u32,
    pub always_on_top: bool,
    pub start_on_boot: bool,
    pub pull_rebase: bool,
    pub saved_repos: Vec<String>,
    pub panel_visibility: StrMap<bool>,
    pub plugin_hotkeys: StrMap<String>,
    pub widget_sequence: Vec<String>,
    pub sequence_hotkey: Option<String>,
}

impl Default for GeneralSettings {
    fn default() -> (s: Self)
        ensures
            s.refresh_interval_ms == 2000,
            s.card_width == 360,
            s.log_max_count == 50,
            s.always_on_top,
            !s.start_on_boot,
            s.pull_rebase,
            s.saved_repos@.len() == 0,
            s.panel_visibility.wf(),
            s.panel_visibility@ == Map::<Seq<char>, bool>::empty(),
            s.plugin_hotkeys.wf(),
            s.plugin_hotkeys@ == Map::<Seq<char>, String>::empty(),
            s.widget_sequence@.len() == 0,
            s.sequence_hotkey is None,
    {
        GeneralSettings {
            refresh_interval_ms: 2000,
            card_width: 360,
            log_max_count: 50,
            always_on_top: true,
            start_on_boot: false,
            pull_rebase: true,
            saved_repos: Vec::new(),
            panel_visibility: StrMap::new(),
            plugin_hotkeys: StrMap::new(),
            widget_sequence: Vec::new(),
            sequence_hotkey: None,
        }
    }
}

} // verus!
