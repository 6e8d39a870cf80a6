//! Key bindings as the menu shows them.

use vstd::prelude::*;
use vstd::string::*;

use crate::keymap::{GHOSTTY_MODS_ALT, GHOSTTY_MODS_CTRL, GHOSTTY_MODS_SHIFT, GHOSTTY_MODS_SUPER};
use crate::text::{hex_byte, push_hex_byte};

verus! {

/// A number is that of a character.
pub open spec fn is_scalar(i: u32) -> bool {
    i <= 0xd7ff || 0xe000 <= i <= 0x10ffff
}

/// `char::from_u32`: the character with the number `i`, where `i` is that of one; its documentation
/// excepts the surrogates and what lies above the last character.
pub assume_specification[ char::from_u32 ](i: u32) -> (r: Option<char>)
    ensures
        match r {
            Some(c) => is_scalar(i) && c == i as char,
            None => !is_scalar(i),
        },
;

/// The actions of the terminal that the menu shows, in the order in which they are written out.
pub const MENU_ACTIONS: [&'static str; 19] = [
    "quit",
    "toggle_visibility",
    "new_window",
    "new_tab",
    "close_surface",
    "new_split:right",
    "new_split:down",
    "toggle_split_zoom",
    "goto_split:left",
    "goto_split:right",
    "goto_split:up",
    "goto_split:down",
    "goto_split:previous",
    "goto_split:next",
    "previous_tab",
    "next_tab",
    "copy_to_clipboard",
    "paste_from_clipboard",
    "select_all",
];

/// A key as the terminal names it by its place on the keyboard.
#[derive(Clone, Copy, Debug, PartialEq, Eq, Structural)]
pub enum PhysicalKey {
    /// A letter; `a` is 0.
    Letter(u8),
    Digit(u8),
    Comma,
    Period,
    Slash,
    Semicolon,
    Quote,
    Minus,
    Equal,
    BracketLeft,
    BracketRight,
    Backslash,
    Backquote,
    Space,
    Enter,
    Tab,
    Backspace,
    Escape,
    ArrowUp,
    ArrowDown,
    ArrowLeft,
    ArrowRight,
    Home,
    End,
    PageUp,
    PageDown,
    Insert,
    Delete,
    /// A function key; the first is 1.
    Function(u8),
    Other,
}

/// What a binding is bound to.
#[derive(Clone, Copy, Debug, PartialEq, Eq, Structural)]
pub enum TriggerKey {
    /// A character, by its number.
    Unicode(u32),
    Physical(PhysicalKey),
    /// Any key, or no binding at all.
    CatchAll,
}

/// A binding: the key and the modifiers held with it.
#[derive(Clone, Copy, Debug, PartialEq, Eq, Structural)]
pub struct Trigger {
    pub key: TriggerKey,
    pub mods: u32,
}

/// A binding as the menu shows it: the character and the modifiers.
#[derive(Clone, Copy, Debug, PartialEq, Eq, Structural)]
pub struct KeyEquivalent {
    /// The character; function keys have characters of their own from 0xf700 on.
    pub key: u16,
    pub cmd: bool,
    pub ctrl: bool,
    pub alt: bool,
    pub shift: bool,
}

/// The character of a key.
pub open spec fn key_char(k: PhysicalKey) -> Option<u16> {
    match k {
        PhysicalKey::Letter(n) => if n < 26 {
            Some((0x61 + n) as u16)
        } else {
            None
        },
        PhysicalKey::Digit(n) => if n < 10 {
            Some((0x30 + n) as u16)
        } else {
            None
        },
        PhysicalKey::Comma => Some(0x2c),
        PhysicalKey::Period => Some(0x2e),
        PhysicalKey::Slash => Some(0x2f),
        PhysicalKey::Semicolon => Some(0x3b),
        PhysicalKey::Quote => Some(0x27),
        PhysicalKey::Minus => Some(0x2d),
        PhysicalKey::Equal => Some(0x3d),
        PhysicalKey::BracketLeft => Some(0x5b),
        PhysicalKey::BracketRight => Some(0x5d),
        PhysicalKey::Backslash => Some(0x5c),
        PhysicalKey::Backquote => Some(0x60),
        PhysicalKey::Space => Some(0x20),
        PhysicalKey::Enter => Some(0x0d),
        PhysicalKey::Tab => Some(0x09),
        PhysicalKey::Backspace => Some(0x08),
        PhysicalKey::Escape => Some(0x1b),
        PhysicalKey::ArrowUp => Some(0xf700),
        PhysicalKey::ArrowDown => Some(0xf701),
        PhysicalKey::ArrowLeft => Some(0xf702),
        PhysicalKey::ArrowRight => Some(0xf703),
        PhysicalKey::Home => Some(0xf729),
        PhysicalKey::End => Some(0xf72b),
        PhysicalKey::PageUp => Some(0xf72c),
        PhysicalKey::PageDown => Some(0xf72d),
        PhysicalKey::Insert => Some(0xf727),
        PhysicalKey::Delete => Some(0xf728),
        PhysicalKey::Function(n) => if 1 <= n <= 12 {
            Some((0xf703 + n) as u16)
        } else {
            None
        },
        PhysicalKey::Other => None,
    }
}

/// The character of a key; `None` for one that the menu cannot show.
pub fn physical_key_to_char(k: PhysicalKey) -> (r: Option<u16>)
    ensures
        r == key_char(k),
{
    match k {
        PhysicalKey::Letter(n) => if n < 26 {
            Some(0x61 + n as u16)
        } else {
            None
        },
        PhysicalKey::Digit(n) => if n < 10 {
            Some(0x30 + n as u16)
        } else {
            None
        },
        PhysicalKey::Comma => Some(0x2c),
        PhysicalKey::Period => Some(0x2e),
        PhysicalKey::Slash => Some(0x2f),
        PhysicalKey::Semicolon => Some(0x3b),
        PhysicalKey::Quote => Some(0x27),
        PhysicalKey::Minus => Some(0x2d),
        PhysicalKey::Equal => Some(0x3d),
        PhysicalKey::BracketLeft => Some(0x5b),
        PhysicalKey::BracketRight => Some(0x5d),
        PhysicalKey::Backslash => Some(0x5c),
        PhysicalKey::Backquote => Some(0x60),
        PhysicalKey::Space => Some(0x20),
        PhysicalKey::Enter => Some(0x0d),
        PhysicalKey::Tab => Some(0x09),
        PhysicalKey::Backspace => Some(0x08),
        PhysicalKey::Escape => Some(0x1b),
        PhysicalKey::ArrowUp => Some(0xf700),
        PhysicalKey::ArrowDown => Some(0xf701),
        PhysicalKey::ArrowLeft => Some(0xf702),
        PhysicalKey::ArrowRight => Some(0xf703),
        PhysicalKey::Home => Some(0xf729),
        PhysicalKey::End => Some(0xf72b),
        PhysicalKey::PageUp => Some(0xf72c),
        PhysicalKey::PageDown => Some(0xf72d),
        PhysicalKey::Insert => Some(0xf727),
        PhysicalKey::Delete => Some(0xf728),
        PhysicalKey::Function(n) => if 1 <= n && n <= 12 {
            Some(0xf703 + n as u16)
        } else {
            None
        },
        PhysicalKey::Other => None,
    }
}

/// The character that the menu shows for what a binding is bound to.
pub open spec fn trigger_char(k: TriggerKey) -> Option<u16> {
    match k {
        TriggerKey::Unicode(c) => if c <= 0xffff {
            Some(c as u16)
        } else {
            None
        },
        TriggerKey::Physical(p) => key_char(p),
        TriggerKey::CatchAll => None,
    }
}

/// The binding as the menu shows it.
pub open spec fn equivalent(t: Trigger) -> Option<KeyEquivalent> {
    match trigger_char(t.key) {
        Some(key) => Some(
            KeyEquivalent {
                key,
                cmd: t.mods & GHOSTTY_MODS_SUPER != 0,
                ctrl: t.mods & GHOSTTY_MODS_CTRL != 0,
                alt: t.mods & GHOSTTY_MODS_ALT != 0,
                shift: t.mods & GHOSTTY_MODS_SHIFT != 0,
            },
        ),
        None => None,
    }
}

/// A binding as the menu shows it; `None` where it has no key that the menu can show.
pub fn trigger_to_equivalent(t: Trigger) -> (r: Option<KeyEquivalent>)
    ensures
        r == equivalent(t),
{
    let key: Option<u16> = match t.key {
        TriggerKey::Unicode(c) => if c <= 0xffff {
            Some(c as u16)
        } else {
            None
        },
        TriggerKey::Physical(p) => physical_key_to_char(p),
        TriggerKey::CatchAll => None,
    };
    match key {
        Some(key) => Some(
            KeyEquivalent {
                key,
                cmd: t.mods & GHOSTTY_MODS_SUPER != 0,
                ctrl: t.mods & GHOSTTY_MODS_CTRL != 0,
                alt: t.mods & GHOSTTY_MODS_ALT != 0,
                shift: t.mods & GHOSTTY_MODS_SHIFT != 0,
            },
        ),
        None => None,
    }
}

/// Different keys have different characters: no two entries of the menu can be confused.
pub proof fn lemma_keys_differ(a: PhysicalKey, b: PhysicalKey)
    requires
        key_char(a) is Some,
        key_char(a) == key_char(b),
    ensures
        a == b,
{
}

/// A character as it stands in the text of a binding: one that does not show is escaped.
pub open spec fn key_text(key: u16) -> Seq<char> {
    if !is_scalar(key as u32) {
        "'?'"@
    } else if key < 0x20 || 0xe000 <= key <= 0xf8ff {
        "'\\u"@ + hex_byte((key / 256) as u8) + hex_byte((key % 256) as u8) + "'"@
    } else {
        "'"@ + seq![key as u32 as char] + "'"@
    }
}

/// The text `s` where `on`, else none.
pub open spec fn if_on(on: bool, s: Seq<char>) -> Seq<char> {
    if on {
        s
    } else {
        Seq::empty()
    }
}

/// A binding as text.
pub open spec fn plain(e: Option<KeyEquivalent>) -> Seq<char> {
    match e {
        Some(k) => if_on(k.cmd, "super+"@) + if_on(k.ctrl, "ctrl+"@) + if_on(k.alt, "alt+"@) + if_on(
            k.shift,
            "shift+"@,
        ) + key_text(k.key),
        None => "null"@,
    }
}

fn key_text_of(key: u16) -> (out: String)
    ensures
        out@ == key_text(key),
{
    match char::from_u32(key as u32) {
        None => "'?'".to_owned(),
        Some(c) => if key < 0x20 || (0xe000 <= key && key <= 0xf8ff) {
            let mut out: String = "'\\u".to_owned();
            push_hex_byte(&mut out, (key / 256) as u8);
            push_hex_byte(&mut out, (key % 256) as u8);
            out.concat("'")
        } else {
            let mut out: String = "'".to_owned();
            out.push(c);
            assert(out@ =~= "'"@ + seq![c]);
            out.concat("'")
        },
    }
}

/// A binding as text, such as `super+shift+'t'`; `null` where there is none.
pub fn equivalent_plain(e: Option<KeyEquivalent>) -> (out: String)
    ensures
        out@ == plain(e),
{
    match e {
        None => "null".to_owned(),
        Some(k) => {
            let mut s: String = String::new();
            if k.cmd {
                s = s.concat("super+");
            }
            assert(s@ =~= if_on(k.cmd, "super+"@));
            if k.ctrl {
                s = s.concat("ctrl+");
            }
            assert(s@ =~= if_on(k.cmd, "super+"@) + if_on(k.ctrl, "ctrl+"@));
            if k.alt {
                s = s.concat("alt+");
            }
            assert(s@ =~= if_on(k.cmd, "super+"@) + if_on(k.ctrl, "ctrl+"@) + if_on(k.alt, "alt+"@));
            if k.shift {
                s = s.concat("shift+");
            }
            assert(s@ =~= if_on(k.cmd, "super+"@) + if_on(k.ctrl, "ctrl+"@) + if_on(k.alt, "alt+"@)
                + if_on(k.shift, "shift+"@));
            s.concat(key_text_of(k.key).as_str())
        },
    }
}

} // verus!
