//! The keyboard as the plugins see it: names of keys, keys that plugins were granted, and where a
//! key goes.

use vstd::prelude::*;
use vstd::string::*;

use crate::keymap::{
    GHOSTTY_MODS_ALT, GHOSTTY_MODS_CTRL, GHOSTTY_MODS_NONE, GHOSTTY_MODS_SHIFT, GHOSTTY_MODS_SUPER,
};
use crate::plugins::hit::has_modifier;
use crate::protocol::{InputHotkey, InputKey, Message, Modifier};
use crate::text::{chars_of, decimal, decimal_of, same_text};

verus! {

/// The keys that have names, with their codes.
pub const NAMED_KEYS: [(&'static str, u16); 25] = [
    ("left", 123),
    ("right", 124),
    ("down", 125),
    ("up", 126),
    ("home", 115),
    ("end", 119),
    ("pageup", 116),
    ("pagedown", 121),
    ("delete", 117),
    ("backspace", 51),
    ("tab", 48),
    ("enter", 36),
    ("esc", 53),
    ("f1", 0x7a),
    ("f2", 0x78),
    ("f3", 0x63),
    ("f4", 0x76),
    ("f5", 0x60),
    ("f6", 0x61),
    ("f7", 0x62),
    ("f8", 0x64),
    ("f9", 0x65),
    ("f10", 0x6d),
    ("f11", 0x67),
    ("f12", 0x6f),
];

/// The codes of the letters.
pub const LETTER_CODES: [u16; 26] = [
    0x00,
    0x0b,
    0x08,
    0x02,
    0x0e,
    0x03,
    0x05,
    0x04,
    0x22,
    0x26,
    0x28,
    0x25,
    0x2e,
    0x2d,
    0x1f,
    0x23,
    0x0c,
    0x0f,
    0x01,
    0x11,
    0x20,
    0x09,
    0x0d,
    0x07,
    0x10,
    0x06,
];

/// The codes of the digits.
pub const DIGIT_CODES: [u16; 10] = [0x12, 0x13, 0x14, 0x15, 0x17, 0x16, 0x1a, 0x1c, 0x19, 0x1d];

/// The code of a named key, from the `i`th on.
pub open spec fn named_code(key: Seq<char>, i: int) -> Option<u16>
    decreases 25 - i,
{
    if i < 0 || i >= 25 {
        None
    } else if NAMED_KEYS[i].0@ == key {
        Some(NAMED_KEYS[i].1)
    } else {
        named_code(key, i + 1)
    }
}

/// The name of the key with a code, from the `i`th on.
pub open spec fn code_name(code: u16, i: int) -> Option<Seq<char>>
    decreases 25 - i,
{
    if i < 0 || i >= 25 {
        None
    } else if NAMED_KEYS[i].1 == code {
        Some(NAMED_KEYS[i].0@)
    } else {
        code_name(code, i + 1)
    }
}

/// The code of a letter or a digit.
pub open spec fn char_code(c: char) -> Option<u16> {
    let u = c as u32;
    if 97 <= u <= 122 {
        Some(LETTER_CODES[u - 97])
    } else if 65 <= u <= 90 {
        Some(LETTER_CODES[u - 65])
    } else if 48 <= u <= 57 {
        Some(DIGIT_CODES[u - 48])
    } else {
        None
    }
}

/// The code of the key with a name.
pub open spec fn key_code(key: Seq<char>) -> Option<u16> {
    match named_code(key, 0) {
        Some(c) => Some(c),
        None => if key.len() == 1 {
            char_code(key[0])
        } else {
            None
        },
    }
}

/// The code of the key with a name: one of the named keys, a letter of either case or a digit.
pub fn key_name_to_code(key: &str) -> (r: Option<u16>)
    ensures
        r == key_code(key@),
{
    let mut i: usize = 0;
    while i < 25
        invariant
            i <= 25,
            named_code(key@, 0) == named_code(key@, i as int),
        decreases 25 - i,
    {
        if same_text(NAMED_KEYS[i].0, key) {
            return Some(NAMED_KEYS[i].1);
        }
        i += 1;
    }
    let v: Vec<char> = chars_of(key);
    if v.len() != 1 {
        return None;
    }
    let u: u32 = v[0] as u32;
    if 97 <= u && u <= 122 {
        Some(LETTER_CODES[(u - 97) as usize])
    } else if 65 <= u && u <= 90 {
        Some(LETTER_CODES[(u - 65) as usize])
    } else if 48 <= u && u <= 57 {
        Some(DIGIT_CODES[(u - 48) as usize])
    } else {
        None
    }
}

/// A capital letter made small; anything else stays.
pub open spec fn lower(c: char) -> char {
    if 65 <= c as u32 <= 90 {
        (c as u32 + 32) as char
    } else {
        c
    }
}

/// A character that shows: ASCII, but neither a space nor a control character.
pub open spec fn is_graphic(c: char) -> bool {
    0x21 <= c as u32 <= 0x7e
}

/// The name of the key with a code that types a character.
pub open spec fn key_name(code: u16, typed: Option<char>) -> Seq<char> {
    match code_name(code, 0) {
        Some(n) => n,
        None => match typed {
            Some(c) if is_graphic(c) => seq![lower(c)],
            _ => "key"@ + decimal(code as nat),
        },
    }
}

/// The name of the key with a code: that of a named key, or the character that it types where that
/// shows, or else `key` and the code.
pub fn code_to_key_name(code: u16, fallback_char: Option<char>) -> (r: String)
    ensures
        r@ == key_name(code, fallback_char),
{
    let mut i: usize = 0;
    while i < 25
        invariant
            i <= 25,
            code_name(code, 0) == code_name(code, i as int),
        decreases 25 - i,
    {
        if NAMED_KEYS[i].1 == code {
            return NAMED_KEYS[i].0.to_owned();
        }
        i += 1;
    }
    if let Some(c) = fallback_char {
        let u: u32 = c as u32;
        if 0x21 <= u && u <= 0x7e {
            let mut s: String = String::new();
            if 65 <= u && u <= 90 {
                s.push((u as u8 + 32) as char);
            } else {
                s.push(c);
            }
            assert(s@ =~= seq![lower(c)]);
            return s;
        }
    }
    "key".to_owned().concat(decimal_of(code as u64).as_str())
}

/// Enough of a name to tell it from the others.
spec fn mark(s: Seq<char>) -> (nat, char, char, char) {
    (s.len(), s[0], s[1], s.last())
}

spec fn mark_at(i: int) -> (nat, char, char, char) {
    seq![
        (4nat, 'l', 'e', 't'),
        (5nat, 'r', 'i', 't'),
        (4nat, 'd', 'o', 'n'),
        (2nat, 'u', 'p', 'p'),
        (4nat, 'h', 'o', 'e'),
        (3nat, 'e', 'n', 'd'),
        (6nat, 'p', 'a', 'p'),
        (8nat, 'p', 'a', 'n'),
        (6nat, 'd', 'e', 'e'),
        (9nat, 'b', 'a', 'e'),
        (3nat, 't', 'a', 'b'),
        (5nat, 'e', 'n', 'r'),
        (3nat, 'e', 's', 'c'),
        (2nat, 'f', '1', '1'),
        (2nat, 'f', '2', '2'),
        (2nat, 'f', '3', '3'),
        (2nat, 'f', '4', '4'),
        (2nat, 'f', '5', '5'),
        (2nat, 'f', '6', '6'),
        (2nat, 'f', '7', '7'),
        (2nat, 'f', '8', '8'),
        (2nat, 'f', '9', '9'),
        (3nat, 'f', '1', '0'),
        (3nat, 'f', '1', '1'),
        (3nat, 'f', '1', '2'),
    ][i]
}

proof fn lemma_marks(i: int)
    requires
        0 <= i < 25,
    ensures
        mark(NAMED_KEYS[i].0@) == mark_at(i),
{
    reveal_strlit("left");
    reveal_strlit("right");
    reveal_strlit("down");
    reveal_strlit("up");
    reveal_strlit("home");
    reveal_strlit("end");
    reveal_strlit("pageup");
    reveal_strlit("pagedown");
    reveal_strlit("delete");
    reveal_strlit("backspace");
    reveal_strlit("tab");
    reveal_strlit("enter");
    reveal_strlit("esc");
    reveal_strlit("f1");
    reveal_strlit("f2");
    reveal_strlit("f3");
    reveal_strlit("f4");
    reveal_strlit("f5");
    reveal_strlit("f6");
    reveal_strlit("f7");
    reveal_strlit("f8");
    reveal_strlit("f9");
    reveal_strlit("f10");
    reveal_strlit("f11");
    reveal_strlit("f12");
}

proof fn lemma_named_from(i: int, k: int)
    requires
        0 <= k <= i < 25,
        forall|j: int| 0 <= j < i ==> #[trigger] NAMED_KEYS[j].0@ != NAMED_KEYS[i].0@,
    ensures
        named_code(NAMED_KEYS[i].0@, k) == Some(NAMED_KEYS[i].1),
    decreases i - k,
{
    if k < i {
        assert(NAMED_KEYS[k].0@ != NAMED_KEYS[i].0@);
        lemma_named_from(i, k + 1);
    }
}

/// The code of a named key's name is the key's code, and the name of that code is the key's name.
pub proof fn lemma_named_keys_round_trip(i: int)
    requires
        0 <= i < 25,
    ensures
        key_code(NAMED_KEYS[i].0@) == Some(NAMED_KEYS[i].1),
        key_name(NAMED_KEYS[i].1, None) == NAMED_KEYS[i].0@,
{
    reveal_with_fuel(code_name, 26);
    let name = NAMED_KEYS[i].0@;
    lemma_marks(i);
    assert forall|k: int| 0 <= k < i implies #[trigger] NAMED_KEYS[k].0@ != name by {
        lemma_marks(k);
    }
    lemma_named_from(i, 0);
}

/// The bit of a modifier.
pub open spec fn modifier_bit(m: Modifier) -> u32 {
    match m {
        Modifier::Shift => GHOSTTY_MODS_SHIFT,
        Modifier::Ctrl => GHOSTTY_MODS_CTRL,
        Modifier::Alt => GHOSTTY_MODS_ALT,
        Modifier::Cmd => GHOSTTY_MODS_SUPER,
    }
}

/// The bits of the modifiers.
pub open spec fn modifier_bits(mods: Seq<Modifier>) -> u32
    decreases mods.len(),
{
    if mods.len() == 0 {
        GHOSTTY_MODS_NONE
    } else {
        modifier_bits(mods.drop_last()) | modifier_bit(mods.last())
    }
}

/// A list of the one modifier where `on`.
pub open spec fn modifier_if(on: bool, m: Modifier) -> Seq<Modifier> {
    if on {
        seq![m]
    } else {
        Seq::empty()
    }
}

/// The modifiers of the bits, in a fixed order.
pub open spec fn modifiers_of(mods: u32) -> Seq<Modifier> {
    modifier_if(mods & GHOSTTY_MODS_SHIFT != 0, Modifier::Shift) + modifier_if(
        mods & GHOSTTY_MODS_CTRL != 0,
        Modifier::Ctrl,
    ) + modifier_if(mods & GHOSTTY_MODS_ALT != 0, Modifier::Alt) + modifier_if(
        mods & GHOSTTY_MODS_SUPER != 0,
        Modifier::Cmd,
    )
}

/// The modifiers of the terminal's bits; which side a key is on is left out.
pub fn modifiers_from_mods(mods: u32) -> (out: Vec<Modifier>)
    ensures
        out@ == modifiers_of(mods),
{
    let mut out: Vec<Modifier> = Vec::new();
    if mods & GHOSTTY_MODS_SHIFT != 0 {
        out.push(Modifier::Shift);
    }
    if mods & GHOSTTY_MODS_CTRL != 0 {
        out.push(Modifier::Ctrl);
    }
    if mods & GHOSTTY_MODS_ALT != 0 {
        out.push(Modifier::Alt);
    }
    if mods & GHOSTTY_MODS_SUPER != 0 {
        out.push(Modifier::Cmd);
    }
    assert(out@ =~= modifiers_of(mods));
    out
}

proof fn lemma_modifier_bit(mods: Seq<Modifier>, m: Modifier)
    ensures
        mods.contains(m) <==> modifier_bits(mods) & modifier_bit(m) != 0,
    decreases mods.len(),
{
    let b = modifier_bit(m);
    if mods.len() == 0 {
        assert(0u32 & b == 0) by (bit_vector);
    } else {
        let init = mods.drop_last();
        lemma_modifier_bit(init, m);
        let x = modifier_bits(init);
        let y = modifier_bit(mods.last());
        assert((x | y) & b != 0 <==> (x & b != 0 || y & b != 0)) by (bit_vector);
        assert(1u32 & 1u32 == 1 && 1u32 & 2u32 == 0 && 1u32 & 4u32 == 0 && 1u32 & 8u32 == 0 && 2u32
            & 1u32 == 0 && 2u32 & 2u32 == 2 && 2u32 & 4u32 == 0 && 2u32 & 8u32 == 0 && 4u32 & 1u32
            == 0 && 4u32 & 2u32 == 0 && 4u32 & 4u32 == 4 && 4u32 & 8u32 == 0 && 8u32 & 1u32 == 0
            && 8u32 & 2u32 == 0 && 8u32 & 4u32 == 0 && 8u32 & 8u32 == 8) by (bit_vector);
        if mods.contains(m) {
            let i = mods.index_of(m);
            if i < mods.len() - 1 {
                assert(init[i] == m);
            }
        }
        if init.contains(m) {
            let i = init.index_of(m);
            assert(mods[i] == m);
        }
        if mods.last() == m {
            assert(mods[mods.len() - 1] == m);
        }
    }
}

/// Modifiers turned into bits and back are the same modifiers.
pub proof fn lemma_modifiers_round_trip(mods: Seq<Modifier>, m: Modifier)
    ensures
        modifiers_of(modifier_bits(mods)).contains(m) <==> mods.contains(m),
{
    let b = modifier_bits(mods);
    lemma_modifier_bit(mods, Modifier::Shift);
    lemma_modifier_bit(mods, Modifier::Ctrl);
    lemma_modifier_bit(mods, Modifier::Alt);
    lemma_modifier_bit(mods, Modifier::Cmd);
    let s = modifier_if(b & GHOSTTY_MODS_SHIFT != 0, Modifier::Shift);
    let c = modifier_if(b & GHOSTTY_MODS_CTRL != 0, Modifier::Ctrl);
    let a = modifier_if(b & GHOSTTY_MODS_ALT != 0, Modifier::Alt);
    let d = modifier_if(b & GHOSTTY_MODS_SUPER != 0, Modifier::Cmd);
    let all = modifiers_of(b);
    assert(all =~= s + c + a + d);
    if mods.contains(m) {
        let at = match m {
            Modifier::Shift => 0,
            Modifier::Ctrl => s.len() as int,
            Modifier::Alt => (s.len() + c.len()) as int,
            Modifier::Cmd => (s.len() + c.len() + a.len()) as int,
        };
        assert(all[at] == m);
    }
}

/// A key pressed with modifiers, as the terminal is asked about it.
#[derive(Clone, Copy, Debug, PartialEq, Eq, Structural)]
pub struct KeyPress {
    pub keycode: u32,
    pub mods: u32,
}

/// The key with a name pressed with modifiers; `None` where no key has the name.
pub fn hotkey_to_key_event(key: &str, mods: &Vec<Modifier>) -> (r: Option<KeyPress>)
    ensures
        match key_code(key@) {
            Some(c) => r == Some(KeyPress { keycode: c as u32, mods: modifier_bits(mods@) }),
            None => r is None,
        },
{
    let code: u16 = match key_name_to_code(key) {
        Some(c) => c,
        None => {
            return None;
        },
    };
    let mut bits: u32 = GHOSTTY_MODS_NONE;
    let mut i: usize = 0;
    assert(mods@.take(0) =~= Seq::<Modifier>::empty());
    while i < mods.len()
        invariant
            i <= mods@.len(),
            bits == modifier_bits(mods@.take(i as int)),
        decreases mods@.len() - i,
    {
        assert(mods@.take(i + 1).drop_last() =~= mods@.take(i as int));
        bits = bits | match mods[i] {
            Modifier::Shift => GHOSTTY_MODS_SHIFT,
            Modifier::Ctrl => GHOSTTY_MODS_CTRL,
            Modifier::Alt => GHOSTTY_MODS_ALT,
            Modifier::Cmd => GHOSTTY_MODS_SUPER,
        };
        i += 1;
    }
    assert(mods@.take(i as int) =~= mods@);
    Some(KeyPress { keycode: code as u32, mods: bits })
}

/// A key that a plugin was granted.
#[derive(Clone, Debug, PartialEq)]
pub struct HotkeyGrant {
    pub conn: u64,
    pub key: String,
    pub modifiers: Vec<Modifier>,
}

/// A grant means this key with this set of modifiers.
pub open spec fn grant_means(g: HotkeyGrant, key: Seq<char>, mods: Seq<Modifier>) -> bool {
    &&& g.key@ == key
    &&& forall|m: Modifier| #[trigger] g.modifiers@.contains(m) <==> mods.contains(m)
}

/// Whether all of the modifiers are among the others.
fn all_among(a: &Vec<Modifier>, b: &Vec<Modifier>) -> (r: bool)
    ensures
        r == (forall|m: Modifier| #[trigger] a@.contains(m) ==> b@.contains(m)),
{
    let mut i: usize = 0;
    while i < a.len()
        invariant
            i <= a@.len(),
            forall|j: int| 0 <= j < i ==> b@.contains(#[trigger] a@[j]),
        decreases a@.len() - i,
    {
        if !has_modifier(b, a[i]) {
            assert(a@.contains(a@[i as int]));
            return false;
        }
        i += 1;
    }
    true
}

impl HotkeyGrant {
    /// Whether the grant means this key with these modifiers.
    pub fn matches(&self, key: &str, mods: &Vec<Modifier>) -> (r: bool)
        ensures
            r == grant_means(*self, key@, mods@),
    {
        same_text(self.key.as_str(), key) && all_among(&self.modifiers, mods) && all_among(
            mods,
            &self.modifiers,
        )
    }
}

/// The connection of the first grant of a key.
pub open spec fn owner_of(grants: Seq<HotkeyGrant>, key: Seq<char>, mods: Seq<Modifier>) -> Option<
    u64,
>
    decreases grants.len(),
{
    if grants.len() == 0 {
        None
    } else if grant_means(grants[0], key, mods) {
        Some(grants[0].conn)
    } else {
        owner_of(grants.drop_first(), key, mods)
    }
}

/// The connection that a key was granted to.
pub fn hotkey_owner(grants: &Vec<HotkeyGrant>, key: &str, mods: &Vec<Modifier>) -> (r: Option<u64>)
    ensures
        r == owner_of(grants@, key@, mods@),
{
    let mut i: usize = 0;
    assert(grants@.skip(0) =~= grants@);
    while i < grants.len()
        invariant
            i <= grants@.len(),
            owner_of(grants@, key@, mods@) == owner_of(grants@.skip(i as int), key@, mods@),
        decreases grants@.len() - i,
    {
        assert(grants@.skip(i as int).drop_first() =~= grants@.skip(i + 1));
        assert(grants@.skip(i as int)[0] == grants@[i as int]);
        if grants[i].matches(key, mods) {
            return Some(grants[i].conn);
        }
        i += 1;
    }
    None
}

/// The grants that are not this connection's for this key.
pub open spec fn without_grant(
    grants: Seq<HotkeyGrant>,
    conn: u64,
    key: Seq<char>,
    mods: Seq<Modifier>,
) -> Seq<HotkeyGrant>
    decreases grants.len(),
{
    if grants.len() == 0 {
        grants
    } else {
        let before = without_grant(grants.drop_last(), conn, key, mods);
        if grants.last().conn == conn && grant_means(grants.last(), key, mods) {
            before
        } else {
            before.push(grants.last())
        }
    }
}

/// The grants that are not this connection's.
pub open spec fn grants_of_others(grants: Seq<HotkeyGrant>, conn: u64) -> Seq<HotkeyGrant>
    decreases grants.len(),
{
    if grants.len() == 0 {
        grants
    } else if grants.last().conn == conn {
        grants_of_others(grants.drop_last(), conn)
    } else {
        grants_of_others(grants.drop_last(), conn).push(grants.last())
    }
}

/// Another connection has this key.
pub open spec fn taken_by_other(
    grants: Seq<HotkeyGrant>,
    conn: u64,
    key: Seq<char>,
    mods: Seq<Modifier>,
) -> bool {
    exists|i: int|
        0 <= i < grants.len() && (#[trigger] grants[i]).conn != conn && grant_means(
            grants[i],
            key,
            mods,
        )
}

/// Why a key is not granted, if it is not.
pub open spec fn denial(
    grants: Seq<HotkeyGrant>,
    conn: u64,
    key: Seq<char>,
    mods: Seq<Modifier>,
    bound: bool,
) -> Option<Seq<char>> {
    if key_code(key) is None {
        Some("未知键名"@)
    } else if taken_by_other(grants, conn, key, mods) {
        Some("已被另一个插件占用"@)
    } else if bound {
        Some("与 ghostty 键位绑定冲突"@)
    } else {
        None
    }
}

fn other_has(grants: &Vec<HotkeyGrant>, conn: u64, key: &str, mods: &Vec<Modifier>) -> (r: bool)
    ensures
        r == taken_by_other(grants@, conn, key@, mods@),
{
    let mut i: usize = 0;
    while i < grants.len()
        invariant
            i <= grants@.len(),
            forall|j: int|
                0 <= j < i ==> !((#[trigger] grants@[j]).conn != conn && grant_means(
                    grants@[j],
                    key@,
                    mods@,
                )),
        decreases grants@.len() - i,
    {
        if grants[i].conn != conn && grants[i].matches(key, mods) {
            return true;
        }
        i += 1;
    }
    false
}

/// Answers a plugin's request for a key: granted unless no key has the name, another plugin has the
/// key, or the terminal has it bound, which `bound` tells. A grant replaces the plugin's own earlier
/// one for the same key.
pub fn hotkey_decide(grants: &mut Vec<HotkeyGrant>, m: &InputHotkey, conn: u64, bound: bool) -> (r:
    Message)
    ensures
        match denial(old(grants)@, conn, m.key@, m.modifiers@, bound) {
            Some(why) => {
                &&& final(grants)@ == old(grants)@
                &&& r matches Message::InputHotkeyDenied(id, w)
                &&& id == m.id
                &&& w@ == why
            },
            None => {
                &&& r == Message::InputHotkeyGranted(m.id)
                &&& final(grants)@.len() > 0
                &&& final(grants)@.drop_last() == without_grant(
                    old(grants)@,
                    conn,
                    m.key@,
                    m.modifiers@,
                )
                &&& final(grants)@.last().conn == conn
                &&& final(grants)@.last().key@ == m.key@
                &&& final(grants)@.last().modifiers@ == m.modifiers@
            },
        },
{
    let key: &str = m.key.as_str();
    if key_name_to_code(key).is_none() {
        return Message::InputHotkeyDenied(m.id, "未知键名".to_owned());
    }
    if other_has(grants, conn, key, &m.modifiers) {
        return Message::InputHotkeyDenied(m.id, "已被另一个插件占用".to_owned());
    }
    if bound {
        return Message::InputHotkeyDenied(m.id, "与 ghostty 键位绑定冲突".to_owned());
    }
    let mut kept: Vec<HotkeyGrant> = Vec::new();
    let mut all: Vec<HotkeyGrant> = Vec::new();
    std::mem::swap(grants, &mut all);
    let ghost was = all@;
    let n: usize = all.len();
    let mut i: usize = 0;
    assert(was.take(0) =~= Seq::<HotkeyGrant>::empty());
    assert(was.skip(0) =~= was);
    while i < n
        invariant
            i <= n == was.len(),
            key@ == m.key@,
            all@ == was.skip(i as int),
            kept@ == without_grant(was.take(i as int), conn, m.key@, m.modifiers@),
        decreases n - i,
    {
        assert(was.take(i + 1).drop_last() =~= was.take(i as int));
        let g: HotkeyGrant = all.remove(0);
        assert(g == was[i as int]);
        assert(all@ =~= was.skip(i + 1));
        if !(g.conn == conn && g.matches(key, &m.modifiers)) {
            kept.push(g);
        }
        i += 1;
    }
    assert(was.take(n as int) =~= was);
    let ghost before = kept@;
    kept.push(HotkeyGrant { conn, key: m.key.clone(), modifiers: copy_modifiers(&m.modifiers) });
    assert(kept@.drop_last() =~= before);
    *grants = kept;
    Message::InputHotkeyGranted(m.id)
}

/// The same modifiers.
pub fn copy_modifiers(mods: &Vec<Modifier>) -> (out: Vec<Modifier>)
    ensures
        out@ == mods@,
{
    let mut out: Vec<Modifier> = Vec::new();
    let mut i: usize = 0;
    while i < mods.len()
        invariant
            i <= mods@.len(),
            out@ == mods@.take(i as int),
        decreases mods@.len() - i,
    {
        out.push(mods[i]);
        i += 1;
        assert(out@ =~= mods@.take(i as int));
    }
    assert(mods@.take(i as int) =~= mods@);
    out
}

/// Takes back all of a connection's keys.
pub fn drop_grants(grants: &mut Vec<HotkeyGrant>, conn: u64)
    ensures
        final(grants)@ == grants_of_others(old(grants)@, conn),
{
    let mut kept: Vec<HotkeyGrant> = Vec::new();
    let mut all: Vec<HotkeyGrant> = Vec::new();
    std::mem::swap(grants, &mut all);
    let ghost was = all@;
    let n: usize = all.len();
    let mut i: usize = 0;
    assert(was.take(0) =~= Seq::<HotkeyGrant>::empty());
    assert(was.skip(0) =~= was);
    while i < n
        invariant
            i <= n == was.len(),
            all@ == was.skip(i as int),
            kept@ == grants_of_others(was.take(i as int), conn),
        decreases n - i,
    {
        assert(was.take(i + 1).drop_last() =~= was.take(i as int));
        let g: HotkeyGrant = all.remove(0);
        assert(g == was[i as int]);
        assert(all@ =~= was.skip(i + 1));
        if g.conn != conn {
            kept.push(g);
        }
        i += 1;
    }
    assert(was.take(n as int) =~= was);
    *grants = kept;
}

/// No key of a connection outlives it.
pub proof fn lemma_dropped_grants(grants: Seq<HotkeyGrant>, conn: u64)
    ensures
        forall|i: int|
            0 <= i < grants_of_others(grants, conn).len() ==> (#[trigger] grants_of_others(
                grants,
                conn,
            )[i]).conn != conn,
    decreases grants.len(),
{
    if grants.len() > 0 {
        lemma_dropped_grants(grants.drop_last(), conn);
        let before = grants_of_others(grants.drop_last(), conn);
        let after = grants_of_others(grants, conn);
        assert forall|i: int| 0 <= i < after.len() implies (#[trigger] after[i]).conn != conn by {
            if i < before.len() {
                assert(before[i].conn != conn);
            }
        }
    }
}

/// The code of the escape key.
pub const ESC: u16 = 53;

/// Where a key goes that was pressed in a pane.
#[derive(Clone, Debug, PartialEq)]
pub enum KeyRoute {
    /// To the terminal.
    Terminal,
    /// Nowhere: it closes the pane's layers.
    CloseLayers,
    /// To the plugin at the connection.
    Plugin(u64, InputKey),
}

/// The first character of a text.
pub open spec fn first_char(s: Option<Seq<char>>) -> Option<char> {
    match s {
        Some(t) if t.len() > 0 => Some(t[0]),
        _ => None,
    }
}

fn first_char_of(s: Option<&str>) -> (r: Option<char>)
    ensures
        r == first_char(crate::text::opt_text(s)),
{
    match s {
        Some(t) => if t.unicode_len() > 0 {
            Some(t.get_char(0))
        } else {
            None
        },
        None => None,
    }
}

/// What a key types, as a text.
pub open spec fn typed_text(s: Option<Seq<char>>) -> Seq<char> {
    match s {
        Some(t) => t,
        None => Seq::empty(),
    }
}

/// A key is told to a plugin: which layer it is for, its name, what it types and the modifiers.
pub open spec fn key_told(k: InputKey, layer: u64, code: u16, mods: u32, chars: Option<Seq<char>>) -> bool {
    &&& k.layer == layer
    &&& k.key@ == key_name(code, first_char(chars))
    &&& k.text@ == typed_text(chars)
    &&& k.modifiers@ == modifiers_of(mods)
}

/// Where a key goes that was pressed in a pane. The pane's foremost layer gets it, but for the escape
/// key without the command key, which closes the layers; without a layer the plugin that it was
/// granted to gets it; else the terminal. `layer` is the foremost layer's handle and connection.
pub fn key_route(
    layer: Option<(u64, u64)>,
    grants: &Vec<HotkeyGrant>,
    keycode: u16,
    mods: u32,
    chars: Option<&str>,
) -> (r: KeyRoute)
    ensures
        match layer {
            Some(l) => if keycode == ESC && mods & GHOSTTY_MODS_SUPER == 0 {
                r is CloseLayers
            } else {
                r matches KeyRoute::Plugin(conn, k) && conn == l.1 && key_told(
                    k,
                    l.0,
                    keycode,
                    mods,
                    crate::text::opt_text(chars),
                )
            },
            None => match owner_of(
                grants@,
                key_name(keycode, first_char(crate::text::opt_text(chars))),
                modifiers_of(mods),
            ) {
                Some(c) => r matches KeyRoute::Plugin(conn, k) && conn == c && key_told(
                    k,
                    0,
                    keycode,
                    mods,
                    crate::text::opt_text(chars),
                ),
                None => r is Terminal,
            },
        },
{
    let modifiers: Vec<Modifier> = modifiers_from_mods(mods);
    let key: String = code_to_key_name(keycode, first_char_of(chars));
    let text: String = match chars {
        Some(t) => t.to_owned(),
        None => String::new(),
    };
    assert(text@ =~= typed_text(crate::text::opt_text(chars)));
    match layer {
        Some((handle, conn)) => if keycode == ESC && mods & GHOSTTY_MODS_SUPER == 0 {
            KeyRoute::CloseLayers
        } else {
            KeyRoute::Plugin(conn, InputKey { layer: handle, key, text, modifiers })
        },
        None => match hotkey_owner(grants, key.as_str(), &modifiers) {
            Some(conn) => KeyRoute::Plugin(conn, InputKey { layer: 0, key, text, modifiers }),
            None => KeyRoute::Terminal,
        },
    }
}

/// Whether a key closes a plugin's tab: the escape key without the command key, or `w` with the
/// command key and without the shift key.
pub fn closes_tab(key: &str, mods: &Vec<Modifier>) -> (r: bool)
    ensures
        r == ((key@ == "esc"@ && !mods@.contains(Modifier::Cmd)) || (key@ == "w"@ && mods@.contains(
            Modifier::Cmd,
        ) && !mods@.contains(Modifier::Shift))),
{
    (same_text(key, "esc") && !has_modifier(mods, Modifier::Cmd)) || (same_text(key, "w")
        && has_modifier(mods, Modifier::Cmd) && !has_modifier(mods, Modifier::Shift))
}

/// A key that does not close a plugin's tab, as it is told to the plugin; a layer without a handle
/// is told nothing.
pub fn tab_key(handle: u64, key: String, text: String, modifiers: Vec<Modifier>) -> (r: Option<InputKey>)
    ensures
        if handle == 0 {
            r is None
        } else {
            r == Some(InputKey { layer: handle, key, text, modifiers })
        },
{
    if handle == 0 {
        None
    } else {
        Some(InputKey { layer: handle, key, text, modifiers })
    }
}

/// The characters that the keys type, in the order of their codes; a space where a key types none.
pub open spec fn keyboard() -> Seq<char> {
    "asdfhgzxcv bqweryt123465=97-80]ou[ip lj'k;\\,/nm."@
}

/// A letter of either case has the code of the key that types it. The codes of the digits begin at the
/// key that types one: each has the code of the key that types the next digit, and nine that of the key
/// that types zero. No other character has a code.
pub proof fn lemma_codes_of_characters(c: char)
    ensures
        'a' <= c <= 'z' ==> (char_code(c) matches Some(k) && k < 48 && keyboard()[k as int] == c),
        '0' <= c <= '8' ==> (char_code(c) matches Some(k) && k < 48 && keyboard()[k as int] == (c as u8
            + 1) as char),
        c == '9' ==> (char_code(c) matches Some(k) && k < 48 && keyboard()[k as int] == '0'),
        'A' <= c <= 'Z' ==> char_code(c) is Some && char_code(c) == char_code((c as u8 + 32) as char),
        !('a' <= c <= 'z' || 'A' <= c <= 'Z' || '0' <= c <= '9') ==> char_code(c) is None,
{
    reveal_strlit("asdfhgzxcv bqweryt123465=97-80]ou[ip lj'k;\\,/nm.");
    if 'a' <= c <= 'z' {
        lemma_letter_codes((c as u32 - 97) as int);
        assert((97 + (c as u32 - 97)) as char == c);
    }
    if '0' <= c <= '9' {
        lemma_digit_codes((c as u32 - 48) as int);
    }
}

proof fn lemma_letter_codes(i: int)
    requires
        0 <= i < 26,
    ensures
        LETTER_CODES[i] < 48,
        keyboard()[LETTER_CODES[i] as int] == (97 + i) as char,
{
    reveal_strlit("asdfhgzxcv bqweryt123465=97-80]ou[ip lj'k;\\,/nm.");
}

proof fn lemma_digit_codes(i: int)
    requires
        0 <= i < 10,
    ensures
        DIGIT_CODES[i] < 48,
        keyboard()[DIGIT_CODES[i] as int] == (48 + (i + 1) % 10) as char,
{
    reveal_strlit("asdfhgzxcv bqweryt123465=97-80]ou[ip lj'k;\\,/nm.");
}

/// A key without a name of its own is called by the character that it types, in small letters, where
/// that is ASCII and shows; else by its code.
pub proof fn lemma_names_of_other_keys(code: u16, c: char)
    requires
        forall|i: int| 0 <= i < 25 ==> (#[trigger] NAMED_KEYS[i]).1 != code,
    ensures
        'A' <= c <= 'Z' ==> key_name(code, Some(c)) == seq![(c as u8 + 32) as char],
        '!' <= c <= '~' && !('A' <= c <= 'Z') ==> key_name(code, Some(c)) == seq![c],
        c < '!' || c > '~' ==> key_name(code, Some(c)) == "key"@ + decimal(code as nat),
        key_name(code, None) == "key"@ + decimal(code as nat),
{
    lemma_no_name(code, 0);
}

proof fn lemma_no_name(code: u16, k: int)
    requires
        0 <= k <= 25,
        forall|i: int| 0 <= i < 25 ==> (#[trigger] NAMED_KEYS[i]).1 != code,
    ensures
        code_name(code, k) is None,
    decreases 25 - k,
{
    if k < 25 {
        assert(NAMED_KEYS[k].1 != code);
        lemma_no_name(code, k + 1);
    }
}

/// A key with a name of its own is called by it, whatever it types.
pub proof fn lemma_named_whatever_is_typed(i: int, typed: Option<char>)
    requires
        0 <= i < 25,
    ensures
        key_name(NAMED_KEYS[i].1, typed) == NAMED_KEYS[i].0@,
{
    lemma_named_keys_round_trip(i);
    if code_name(NAMED_KEYS[i].1, 0) is None {
        lemma_has_name(i, 0);
    }
}

proof fn lemma_has_name(i: int, k: int)
    requires
        0 <= k <= i < 25,
    ensures
        code_name(NAMED_KEYS[i].1, k) is Some,
    decreases i - k,
{
    if k < i {
        lemma_has_name(i, k + 1);
    }
}

/// A modifier is told just where its bit is set: shift for the lowest, then control, option and command.
/// None is told twice, and they come in that order.
pub proof fn lemma_modifiers_of_bits(mods: u32)
    ensures
        modifiers_of(mods).contains(Modifier::Shift) <==> mods & 1 != 0,
        modifiers_of(mods).contains(Modifier::Ctrl) <==> mods & 2 != 0,
        modifiers_of(mods).contains(Modifier::Alt) <==> mods & 4 != 0,
        modifiers_of(mods).contains(Modifier::Cmd) <==> mods & 8 != 0,
        forall|i: int, j: int|
            0 <= i < j < modifiers_of(mods).len() ==> modifier_bit(#[trigger] modifiers_of(mods)[i])
                < modifier_bit(#[trigger] modifiers_of(mods)[j]),
{
    let s = modifier_if(mods & GHOSTTY_MODS_SHIFT != 0, Modifier::Shift);
    let c = modifier_if(mods & GHOSTTY_MODS_CTRL != 0, Modifier::Ctrl);
    let a = modifier_if(mods & GHOSTTY_MODS_ALT != 0, Modifier::Alt);
    let d = modifier_if(mods & GHOSTTY_MODS_SUPER != 0, Modifier::Cmd);
    let all = modifiers_of(mods);
    assert(all =~= s + c + a + d);
    if mods & 1 != 0 {
        assert(all[0] == Modifier::Shift);
    }
    if mods & 2 != 0 {
        assert(all[s.len() as int] == Modifier::Ctrl);
    }
    if mods & 4 != 0 {
        assert(all[(s.len() + c.len()) as int] == Modifier::Alt);
    }
    if mods & 8 != 0 {
        assert(all[(s.len() + c.len() + a.len()) as int] == Modifier::Cmd);
    }
}

/// A key belongs to whom it was granted first; to nobody where no grant means it.
pub proof fn lemma_first_grant_counts(grants: Seq<HotkeyGrant>, key: Seq<char>, mods: Seq<Modifier>)
    ensures
        match owner_of(grants, key, mods) {
            Some(conn) => exists|i: int|
                0 <= i < grants.len() && (#[trigger] grants[i]).conn == conn && grant_means(
                    grants[i],
                    key,
                    mods,
                ) && forall|j: int| 0 <= j < i ==> !grant_means(#[trigger] grants[j], key, mods),
            None => forall|j: int|
                0 <= j < grants.len() ==> !grant_means(#[trigger] grants[j], key, mods),
        },
    decreases grants.len(),
{
    if grants.len() > 0 {
        let rest = grants.drop_first();
        if grant_means(grants[0], key, mods) {
            assert(grants[0].conn == owner_of(grants, key, mods)->0);
        } else {
            lemma_first_grant_counts(rest, key, mods);
            if let Some(conn) = owner_of(rest, key, mods) {
                let i = choose|i: int|
                    0 <= i < rest.len() && (#[trigger] rest[i]).conn == conn && grant_means(
                        rest[i],
                        key,
                        mods,
                    ) && forall|j: int| 0 <= j < i ==> !grant_means(#[trigger] rest[j], key, mods);
                assert(grants[i + 1] == rest[i]);
                assert forall|j: int| 0 <= j < i + 1 implies !grant_means(
                    #[trigger] grants[j],
                    key,
                    mods,
                ) by {
                    if j > 0 {
                        assert(rest[j - 1] == grants[j]);
                    }
                }
            } else {
                assert forall|j: int| 0 <= j < grants.len() implies !grant_means(
                    #[trigger] grants[j],
                    key,
                    mods,
                ) by {
                    if j > 0 {
                        assert(rest[j - 1] == grants[j]);
                    }
                }
            }
        }
    }
}

/// Of all grants just those go that are this connection's; for a new grant, just those of them that mean
/// the same key. The others stay in their order.
pub proof fn lemma_which_grants_go(
    a: Seq<HotkeyGrant>,
    g: HotkeyGrant,
    b: Seq<HotkeyGrant>,
    conn: u64,
    key: Seq<char>,
    mods: Seq<Modifier>,
)
    ensures
        g.conn == conn ==> grants_of_others(a + seq![g] + b, conn) == grants_of_others(a, conn)
            + grants_of_others(b, conn),
        g.conn != conn ==> grants_of_others(a + seq![g] + b, conn) == grants_of_others(a, conn) + seq![g]
            + grants_of_others(b, conn),
        g.conn == conn && grant_means(g, key, mods) ==> without_grant(a + seq![g] + b, conn, key, mods)
            == without_grant(a, conn, key, mods) + without_grant(b, conn, key, mods),
        g.conn != conn || !grant_means(g, key, mods) ==> without_grant(
            a + seq![g] + b,
            conn,
            key,
            mods,
        ) == without_grant(a, conn, key, mods) + seq![g] + without_grant(b, conn, key, mods),
        grants_of_others(Seq::empty(), conn) == Seq::<HotkeyGrant>::empty(),
        without_grant(Seq::empty(), conn, key, mods) == Seq::<HotkeyGrant>::empty(),
    decreases b.len(),
{
    let none = Seq::<HotkeyGrant>::empty();
    if b.len() == 0 {
        assert(b =~= none);
        assert(a + seq![g] + b =~= a.push(g));
        assert(a.push(g).drop_last() =~= a);
        let x = grants_of_others(a, conn);
        let y = without_grant(a, conn, key, mods);
        assert(x + none =~= x);
        assert(y + none =~= y);
        assert(x + seq![g] + none =~= x.push(g));
        assert(y + seq![g] + none =~= y.push(g));
    } else {
        let c = b.drop_last();
        let l = b.last();
        lemma_which_grants_go(a, g, c, conn, key, mods);
        assert((a + seq![g] + b).drop_last() =~= a + seq![g] + c);
        assert((a + seq![g] + b).last() == l);
        let x = grants_of_others(a, conn);
        let y = without_grant(a, conn, key, mods);
        let xc = grants_of_others(c, conn);
        let yc = without_grant(c, conn, key, mods);
        assert((x + xc).push(l) =~= x + xc.push(l));
        assert((y + yc).push(l) =~= y + yc.push(l));
        assert((x + seq![g] + xc).push(l) =~= x + seq![g] + xc.push(l));
        assert((y + seq![g] + yc).push(l) =~= y + seq![g] + yc.push(l));
    }
}

/// A key is granted if and only if it has a name that is known, nobody else has it, and the terminal has
/// not bound it; each of these has an answer of its own, and the first that fails is told.
pub proof fn lemma_when_a_key_is_granted(
    grants: Seq<HotkeyGrant>,
    conn: u64,
    key: Seq<char>,
    mods: Seq<Modifier>,
    bound: bool,
)
    ensures
        denial(grants, conn, key, mods, bound) is None <==> {
            &&& key_code(key) is Some
            &&& forall|i: int|
                0 <= i < grants.len() && grant_means(#[trigger] grants[i], key, mods) ==> grants[i].conn
                    == conn
            &&& !bound
        },
        key_code(key) is None ==> denial(grants, conn, key, mods, bound) == Some("未知键名"@),
        key_code(key) is Some && !bound && denial(grants, conn, key, mods, bound) is Some ==> denial(
            grants,
            conn,
            key,
            mods,
            true,
        ) == Some("已被另一个插件占用"@),
        denial(grants, conn, key, mods, false) is None ==> denial(grants, conn, key, mods, true) == Some(
            "与 ghostty 键位绑定冲突"@,
        ),
{
    if !(forall|i: int|
        0 <= i < grants.len() && grant_means(#[trigger] grants[i], key, mods) ==> grants[i].conn == conn) {
        let i = choose|i: int|
            0 <= i < grants.len() && grant_means(#[trigger] grants[i], key, mods) && grants[i].conn
                != conn;
        assert(taken_by_other(grants, conn, key, mods));
    }
}

/// A key with a layer before it never reaches the terminal: the escape key without the command key closes
/// the layers, and any other goes to the layer's plugin, for that layer.
pub proof fn lemma_layers_take_keys(
    handle: u64,
    conn: u64,
    grants: &Vec<HotkeyGrant>,
    keycode: u16,
    mods: u32,
    chars: Option<&str>,
    r: KeyRoute,
)
    requires
        call_ensures(key_route, (Some((handle, conn)), grants, keycode, mods, chars), r),
    ensures
        r is CloseLayers <==> keycode == 53 && mods & 8 == 0,
        !(r is Terminal),
        r matches KeyRoute::Plugin(c, k) ==> c == conn && k.layer == handle,
{
}

/// A key without a layer goes to whom it was granted, for no layer; to the terminal just where no grant
/// means it. It closes nothing.
pub proof fn lemma_granted_keys_go_to_plugins(
    grants: &Vec<HotkeyGrant>,
    keycode: u16,
    mods: u32,
    chars: Option<&str>,
    r: KeyRoute,
)
    requires
        call_ensures(key_route, (None, grants, keycode, mods, chars), r),
    ensures
        !(r is CloseLayers),
        r is Terminal <==> forall|i: int|
            0 <= i < grants@.len() ==> !grant_means(
                #[trigger] grants@[i],
                key_name(keycode, first_char(crate::text::opt_text(chars))),
                modifiers_of(mods),
            ),
        r matches KeyRoute::Plugin(c, k) ==> k.layer == 0 && exists|i: int|
            0 <= i < grants@.len() && (#[trigger] grants@[i]).conn == c && grant_means(
                grants@[i],
                key_name(keycode, first_char(crate::text::opt_text(chars))),
                modifiers_of(mods),
            ),
{
    lemma_first_grant_counts(
        grants@,
        key_name(keycode, first_char(crate::text::opt_text(chars))),
        modifiers_of(mods),
    );
}

/// A plugin that gets a key is told what it types, as it was typed, and its modifiers by their bits; the
/// key is named by the first character, where it has no name of its own.
pub proof fn lemma_key_is_told_as_typed(
    layer: Option<(u64, u64)>,
    grants: &Vec<HotkeyGrant>,
    keycode: u16,
    mods: u32,
    text: &str,
    r: KeyRoute,
)
    requires
        call_ensures(key_route, (layer, grants, keycode, mods, Some(text)), r),
    ensures
        r matches KeyRoute::Plugin(_, k) ==> {
            &&& k.text@ == text@
            &&& k.modifiers@ == modifiers_of(mods)
            &&& text@.len() > 0 ==> k.key@ == key_name(keycode, Some(text@[0]))
            &&& text@.len() == 0 ==> k.key@ == key_name(keycode, None)
        },
{
}

/// A plugin's tab is closed by escape without the command key, and by `w` with it and without shift; by
/// no other key.
pub proof fn lemma_which_keys_close_a_tab(key: &str, mods: &Vec<Modifier>, r: bool)
    requires
        call_ensures(closes_tab, (key, mods), r),
    ensures
        mods@.contains(Modifier::Cmd) ==> (r <==> key@ == seq!['w'] && !mods@.contains(Modifier::Shift)),
        !mods@.contains(Modifier::Cmd) ==> (r <==> key@ == seq!['e', 's', 'c']),
{
    reveal_strlit("w");
    reveal_strlit("esc");
    assert("w"@ =~= seq!['w']);
    assert("esc"@ =~= seq!['e', 's', 'c']);
}

/// Any other key is told to the layer as it stands, as soon as the layer has a handle.
pub proof fn lemma_tab_gets_its_keys(
    handle: u64,
    key: String,
    text: String,
    modifiers: Vec<Modifier>,
    r: Option<InputKey>,
)
    requires
        call_ensures(tab_key, (handle, key, text, modifiers), r),
    ensures
        r is None <==> handle == 0,
        r matches Some(k) ==> k.layer == handle && k.key == key && k.text == text && k.modifiers
            == modifiers,
{
}

/// A key that is asked for by its name is the key with that name's code, held with just the modifiers
/// that were named.
pub proof fn lemma_key_is_asked_for(key: &str, mods: &Vec<Modifier>, r: Option<KeyPress>)
    requires
        call_ensures(hotkey_to_key_event, (key, mods), r),
    ensures
        r is Some <==> key_code(key@) is Some,
        r matches Some(k) ==> {
            &&& key_code(key@) == Some(k.keycode as u16) && k.keycode < 65536
            &&& k.mods & 1 != 0 <==> mods@.contains(Modifier::Shift)
            &&& k.mods & 2 != 0 <==> mods@.contains(Modifier::Ctrl)
            &&& k.mods & 4 != 0 <==> mods@.contains(Modifier::Alt)
            &&& k.mods & 8 != 0 <==> mods@.contains(Modifier::Cmd)
        },
{
    lemma_modifier_bit(mods@, Modifier::Shift);
    lemma_modifier_bit(mods@, Modifier::Ctrl);
    lemma_modifier_bit(mods@, Modifier::Alt);
    lemma_modifier_bit(mods@, Modifier::Cmd);
}

/// Once a key is granted it belongs to whom it was granted, and the others keep theirs; a request that is
/// denied changes nothing. The answer has the number of the request.
pub proof fn lemma_granted_key_is_owned(
    grants: &mut Vec<HotkeyGrant>,
    m: &InputHotkey,
    conn: u64,
    bound: bool,
    r: Message,
)
    requires
        call_ensures(hotkey_decide, (grants, m, conn, bound), r),
    ensures
        r == Message::InputHotkeyGranted(m.id) || (r matches Message::InputHotkeyDenied(id, _) && id
            == m.id),
        r is InputHotkeyDenied ==> final(grants)@ == old(grants)@,
        r is InputHotkeyGranted <==> key_code(m.key@) is Some && !bound && forall|i: int|
            0 <= i < old(grants)@.len() && grant_means(#[trigger] old(grants)@[i], m.key@, m.modifiers@)
                ==> old(grants)@[i].conn == conn,
        r is InputHotkeyGranted ==> owner_of(final(grants)@, m.key@, m.modifiers@) == Some(conn),
        r is InputHotkeyGranted ==> forall|g: HotkeyGrant|
            g.conn != conn ==> (#[trigger] final(grants)@.contains(g) <==> old(grants)@.contains(g)),
{
    lemma_when_a_key_is_granted(old(grants)@, conn, m.key@, m.modifiers@, bound);
    if r is InputHotkeyGranted {
        let was = old(grants)@;
        let now = final(grants)@;
        let kept = without_grant(was, conn, m.key@, m.modifiers@);
        let last = now.last();
        assert(now =~= kept.push(last));
        assert forall|i: int| 0 <= i < kept.len() implies !grant_means(
            #[trigger] kept[i],
            m.key@,
            m.modifiers@,
        ) by {
            assert(kept.contains(kept[i]));
            lemma_kept_grant(was, conn, m.key@, m.modifiers@, kept[i]);
            let j = was.index_of(kept[i]);
            if grant_means(was[j], m.key@, m.modifiers@) {
                assert(was[j].conn == conn);
            }
        }
        lemma_first_grant_counts(now, m.key@, m.modifiers@);
        assert(grant_means(now[kept.len() as int], m.key@, m.modifiers@));
        let i = choose|i: int|
            0 <= i < now.len() && (#[trigger] now[i]).conn == owner_of(now, m.key@, m.modifiers@)->0
                && grant_means(now[i], m.key@, m.modifiers@) && forall|j: int|
                0 <= j < i ==> !grant_means(#[trigger] now[j], m.key@, m.modifiers@);
        if i < kept.len() {
            assert(now[i] == kept[i]);
        }
        assert forall|g: HotkeyGrant| g.conn != conn implies (#[trigger] now.contains(g) <==> was.contains(
            g,
        )) by {
            lemma_kept_grant(was, conn, m.key@, m.modifiers@, g);
            if kept.contains(g) {
                assert(now[kept.index_of(g)] == g);
            }
            if now.contains(g) {
                let k = now.index_of(g);
                if k < kept.len() {
                    assert(kept[k] == g);
                }
            }
        }
    }
}

proof fn lemma_kept_grant(
    s: Seq<HotkeyGrant>,
    conn: u64,
    key: Seq<char>,
    mods: Seq<Modifier>,
    g: HotkeyGrant,
)
    ensures
        without_grant(s, conn, key, mods).contains(g) <==> s.contains(g) && !(g.conn == conn && grant_means(
            g,
            key,
            mods,
        )),
    decreases s.len(),
{
    if s.len() > 0 {
        let init = s.drop_last();
        lemma_kept_grant(init, conn, key, mods, g);
        let before = without_grant(init, conn, key, mods);
        let after = without_grant(s, conn, key, mods);
        if before.contains(g) {
            assert(after[before.index_of(g)] == g);
        }
        if after.contains(g) {
            let i = after.index_of(g);
            if i < before.len() {
                assert(before[i] == g);
            }
        }
        if init.contains(g) {
            assert(s[init.index_of(g)] == g);
        }
        if s.contains(g) {
            let i = s.index_of(g);
            if i < init.len() {
                assert(init[i] == g);
            } else if !(g.conn == conn && grant_means(g, key, mods)) {
                assert(after[before.len() as int] == g);
            }
        }
        if s.last() == g {
            assert(s[s.len() - 1] == g);
        }
    }
}

/// A name of one character is that of a letter or a digit; any longer one, and the empty one, is known
/// just where it is one of the named keys.
pub proof fn lemma_codes_of_names(key: Seq<char>)
    ensures
        key.len() == 1 ==> key_code(key) == char_code(key[0]),
        key.len() != 1 ==> (key_code(key) is Some <==> exists|i: int|
            0 <= i < 25 && (#[trigger] NAMED_KEYS[i]).0@ == key),
{
    if exists|i: int| 0 <= i < 25 && (#[trigger] NAMED_KEYS[i]).0@ == key {
        let i = choose|i: int| 0 <= i < 25 && (#[trigger] NAMED_KEYS[i]).0@ == key;
        lemma_marks(i);
        lemma_named_keys_round_trip(i);
        assert(mark(key).0 >= 2);
    } else {
        lemma_not_named(key, 0);
    }
}

proof fn lemma_not_named(key: Seq<char>, k: int)
    requires
        0 <= k <= 25,
        forall|i: int| 0 <= i < 25 ==> (#[trigger] NAMED_KEYS[i]).0@ != key,
    ensures
        named_code(key, k) is None,
    decreases 25 - k,
{
    if k < 25 {
        assert(NAMED_KEYS[k].0@ != key);
        lemma_not_named(key, k + 1);
    }
}

} // verus!
