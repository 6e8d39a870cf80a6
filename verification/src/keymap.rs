//! Key events: modifier flags of the window system to the terminal's modifier bits.

use vstd::prelude::*;

use crate::text::chars_of;

verus! {

/// Caps lock in the window system's modifier flags.
pub const MASK_ALPHA_SHIFT: u64 = 0x0001_0000;

/// Shift in the window system's modifier flags.
pub const MASK_SHIFT: u64 = 0x0002_0000;

/// Control in the window system's modifier flags.
pub const MASK_CTRL: u64 = 0x0004_0000;

/// Option in the window system's modifier flags.
pub const MASK_ALT: u64 = 0x0008_0000;

/// Command in the window system's modifier flags.
pub const MASK_CMD: u64 = 0x0010_0000;

/// The right shift key in the device part of the flags.
pub const NX_DEVICERSHIFTKEYMASK: u64 = 0x0000_0004;

/// The right command key in the device part of the flags.
pub const NX_DEVICERCMDKEYMASK: u64 = 0x0000_0010;

/// The right option key in the device part of the flags.
pub const NX_DEVICERALTKEYMASK: u64 = 0x0000_0040;

/// The right control key in the device part of the flags.
pub const NX_DEVICERCTLKEYMASK: u64 = 0x0000_2000;

/// No modifier.
pub const GHOSTTY_MODS_NONE: u32 = 0;

/// Shift.
pub const GHOSTTY_MODS_SHIFT: u32 = 1;

/// Control.
pub const GHOSTTY_MODS_CTRL: u32 = 2;

/// Option.
pub const GHOSTTY_MODS_ALT: u32 = 4;

/// Command.
pub const GHOSTTY_MODS_SUPER: u32 = 8;

/// Caps lock.
pub const GHOSTTY_MODS_CAPS: u32 = 16;

/// The shift key is the right one.
pub const GHOSTTY_MODS_SHIFT_RIGHT: u32 = 64;

/// The control key is the right one.
pub const GHOSTTY_MODS_CTRL_RIGHT: u32 = 128;

/// The option key is the right one.
pub const GHOSTTY_MODS_ALT_RIGHT: u32 = 256;

/// The command key is the right one.
pub const GHOSTTY_MODS_SUPER_RIGHT: u32 = 512;

/// What a key did.
#[derive(Clone, Copy, Debug, PartialEq, Eq, Structural)]
pub enum KeyAction {
    Release,
    Press,
    Repeat,
}

/// A key event as the terminal takes it; its text travels beside it.
#[derive(Clone, Copy, Debug, PartialEq, Eq, Structural)]
pub struct KeyEvent {
    pub action: KeyAction,
    pub mods: u32,
    pub consumed_mods: u32,
    /// The window system's own key code.
    pub keycode: u32,
    /// The character of the key without modifiers, 0 for none.
    pub unshifted_codepoint: u32,
    pub composing: bool,
}

/// The momentum phase of a scroll event.
#[derive(Clone, Copy, Debug, PartialEq, Eq, Structural)]
pub enum ScrollPhase {
    Absent,
    Began,
    Stationary,
    Changed,
    Ended,
    Cancelled,
    MayBegin,
    /// Any other combination of phases.
    Other,
}

/// `bit` where `flags` meets `mask`, else nothing.
pub open spec fn bit_if(flags: u64, mask: u64, bit: u32) -> u32 {
    if flags & mask != 0 {
        bit
    } else {
        0
    }
}

/// The terminal's modifier bits for the window system's flags.
pub open spec fn mods_of(flags: u64) -> u32 {
    0 | bit_if(flags, MASK_SHIFT, GHOSTTY_MODS_SHIFT) | bit_if(flags, MASK_CTRL, GHOSTTY_MODS_CTRL)
        | bit_if(flags, MASK_ALT, GHOSTTY_MODS_ALT) | bit_if(flags, MASK_CMD, GHOSTTY_MODS_SUPER)
        | bit_if(flags, MASK_ALPHA_SHIFT, GHOSTTY_MODS_CAPS) | bit_if(
        flags,
        NX_DEVICERSHIFTKEYMASK,
        GHOSTTY_MODS_SHIFT_RIGHT,
    ) | bit_if(flags, NX_DEVICERCTLKEYMASK, GHOSTTY_MODS_CTRL_RIGHT) | bit_if(
        flags,
        NX_DEVICERALTKEYMASK,
        GHOSTTY_MODS_ALT_RIGHT,
    ) | bit_if(flags, NX_DEVICERCMDKEYMASK, GHOSTTY_MODS_SUPER_RIGHT)
}

/// The modifiers that went into the text of a key: all but control and command.
pub open spec fn consumed_of(flags: u64) -> u32 {
    0 | bit_if(flags, MASK_SHIFT, GHOSTTY_MODS_SHIFT) | bit_if(flags, MASK_ALT, GHOSTTY_MODS_ALT)
        | bit_if(flags, MASK_ALPHA_SHIFT, GHOSTTY_MODS_CAPS)
}

fn pick(flags: u64, mask: u64, bit: u32) -> (r: u32)
    ensures
        r == bit_if(flags, mask, bit),
{
    if flags & mask != 0 {
        bit
    } else {
        0
    }
}

/// The terminal's modifier bits for the window system's flags.
pub fn mods_from_flags(flags: u64) -> (m: u32)
    ensures
        m == mods_of(flags),
{
    GHOSTTY_MODS_NONE | pick(flags, MASK_SHIFT, GHOSTTY_MODS_SHIFT) | pick(
        flags,
        MASK_CTRL,
        GHOSTTY_MODS_CTRL,
    ) | pick(flags, MASK_ALT, GHOSTTY_MODS_ALT) | pick(flags, MASK_CMD, GHOSTTY_MODS_SUPER) | pick(
        flags,
        MASK_ALPHA_SHIFT,
        GHOSTTY_MODS_CAPS,
    ) | pick(flags, NX_DEVICERSHIFTKEYMASK, GHOSTTY_MODS_SHIFT_RIGHT) | pick(
        flags,
        NX_DEVICERCTLKEYMASK,
        GHOSTTY_MODS_CTRL_RIGHT,
    ) | pick(flags, NX_DEVICERALTKEYMASK, GHOSTTY_MODS_ALT_RIGHT) | pick(
        flags,
        NX_DEVICERCMDKEYMASK,
        GHOSTTY_MODS_SUPER_RIGHT,
    )
}

/// Command alone: no shift, option or control with it.
pub fn is_bare_super(flags: u64) -> (r: bool)
    ensures
        r == (flags & MASK_CMD != 0 && flags & MASK_SHIFT == 0 && flags & MASK_ALT == 0 && flags
            & MASK_CTRL == 0),
{
    flags & MASK_CMD != 0 && flags & MASK_SHIFT == 0 && flags & MASK_ALT == 0 && flags & MASK_CTRL
        == 0
}

/// The modifiers that went into the text of a key: control and command never do.
pub fn consumed_mods_from_flags(flags: u64) -> (m: u32)
    ensures
        m == consumed_of(flags),
{
    GHOSTTY_MODS_NONE | pick(flags, MASK_SHIFT, GHOSTTY_MODS_SHIFT) | pick(
        flags,
        MASK_ALT,
        GHOSTTY_MODS_ALT,
    ) | pick(flags, MASK_ALPHA_SHIFT, GHOSTTY_MODS_CAPS)
}

/// Each modifier bit is set exactly when its flag is.
pub proof fn lemma_mods_bits(flags: u64)
    ensures
        mods_of(flags) & GHOSTTY_MODS_SHIFT != 0 <==> flags & MASK_SHIFT != 0,
        mods_of(flags) & GHOSTTY_MODS_CTRL != 0 <==> flags & MASK_CTRL != 0,
        mods_of(flags) & GHOSTTY_MODS_ALT != 0 <==> flags & MASK_ALT != 0,
        mods_of(flags) & GHOSTTY_MODS_SUPER != 0 <==> flags & MASK_CMD != 0,
        mods_of(flags) & GHOSTTY_MODS_CAPS != 0 <==> flags & MASK_ALPHA_SHIFT != 0,
        mods_of(flags) & GHOSTTY_MODS_SHIFT_RIGHT != 0 <==> flags & NX_DEVICERSHIFTKEYMASK != 0,
        mods_of(flags) & GHOSTTY_MODS_CTRL_RIGHT != 0 <==> flags & NX_DEVICERCTLKEYMASK != 0,
        mods_of(flags) & GHOSTTY_MODS_ALT_RIGHT != 0 <==> flags & NX_DEVICERALTKEYMASK != 0,
        mods_of(flags) & GHOSTTY_MODS_SUPER_RIGHT != 0 <==> flags & NX_DEVICERCMDKEYMASK != 0,
{
    let a = bit_if(flags, MASK_SHIFT, GHOSTTY_MODS_SHIFT);
    let b = bit_if(flags, MASK_CTRL, GHOSTTY_MODS_CTRL);
    let c = bit_if(flags, MASK_ALT, GHOSTTY_MODS_ALT);
    let d = bit_if(flags, MASK_CMD, GHOSTTY_MODS_SUPER);
    let e = bit_if(flags, MASK_ALPHA_SHIFT, GHOSTTY_MODS_CAPS);
    let f = bit_if(flags, NX_DEVICERSHIFTKEYMASK, GHOSTTY_MODS_SHIFT_RIGHT);
    let g = bit_if(flags, NX_DEVICERCTLKEYMASK, GHOSTTY_MODS_CTRL_RIGHT);
    let h = bit_if(flags, NX_DEVICERALTKEYMASK, GHOSTTY_MODS_ALT_RIGHT);
    let i = bit_if(flags, NX_DEVICERCMDKEYMASK, GHOSTTY_MODS_SUPER_RIGHT);
    let m = 0u32 | a | b | c | d | e | f | g | h | i;
    assert((m & 1 != 0 <==> a != 0) && (m & 2 != 0 <==> b != 0) && (m & 4 != 0 <==> c != 0) && (m & 8
        != 0 <==> d != 0) && (m & 16 != 0 <==> e != 0) && (m & 64 != 0 <==> f != 0) && (m & 128 != 0
        <==> g != 0) && (m & 256 != 0 <==> h != 0) && (m & 512 != 0 <==> i != 0)) by (bit_vector)
        requires
            m == 0u32 | a | b | c | d | e | f | g | h | i,
            a == 0 || a == 1,
            b == 0 || b == 2,
            c == 0 || c == 4,
            d == 0 || d == 8,
            e == 0 || e == 16,
            f == 0 || f == 64,
            g == 0 || g == 128,
            h == 0 || h == 256,
            i == 0 || i == 512,
    ;
}

/// Control and command never count as consumed; shift and option do.
pub proof fn lemma_consumed_bits(flags: u64)
    ensures
        consumed_of(flags) & GHOSTTY_MODS_CTRL == 0,
        consumed_of(flags) & GHOSTTY_MODS_SUPER == 0,
        consumed_of(flags) & GHOSTTY_MODS_SHIFT != 0 <==> flags & MASK_SHIFT != 0,
        consumed_of(flags) & GHOSTTY_MODS_ALT != 0 <==> flags & MASK_ALT != 0,
        consumed_of(flags) & GHOSTTY_MODS_CAPS != 0 <==> flags & MASK_ALPHA_SHIFT != 0,
{
    let a = bit_if(flags, MASK_SHIFT, GHOSTTY_MODS_SHIFT);
    let c = bit_if(flags, MASK_ALT, GHOSTTY_MODS_ALT);
    let e = bit_if(flags, MASK_ALPHA_SHIFT, GHOSTTY_MODS_CAPS);
    let m = 0u32 | a | c | e;
    assert(m & 2 == 0 && m & 8 == 0 && (m & 1 != 0 <==> a != 0) && (m & 4 != 0 <==> c != 0) && (m
        & 16 != 0 <==> e != 0)) by (bit_vector)
        requires
            m == 0u32 | a | c | e,
            a == 0 || a == 1,
            c == 0 || c == 4,
            e == 0 || e == 16,
    ;
}

/// A text that is a single control character, or a single function-key character of the private
/// use area: the terminal encodes those keys itself.
pub open spec fn is_key_only(s: Seq<char>) -> bool {
    s.len() == 1 && ((s[0] as u32) < 0x20 || 0xf700 <= s[0] as u32 <= 0xf8ff)
}

/// The text of a key event that is passed on, if any.
pub fn sanitize_text(s: &str) -> (out: Option<String>)
    ensures
        match out {
            Some(t) => t@ == s@ && !is_key_only(s@),
            None => is_key_only(s@),
        },
{
    let v: Vec<char> = chars_of(s);
    if v.len() == 1 {
        let u: u32 = v[0] as u32;
        if u < 0x20 || (0xf700 <= u && u <= 0xf8ff) {
            return None;
        }
    }
    Some(s.to_owned())
}

/// The key event for a key of the window system: its code as it stands, its modifiers, and what the
/// flags say of the consumed ones.
pub fn key_event(
    flags: u64,
    keycode: u16,
    unshifted: Option<char>,
    action: KeyAction,
    mods: u32,
) -> (e: KeyEvent)
    ensures
        e.action == action,
        e.mods == mods,
        e.consumed_mods == consumed_of(flags),
        e.keycode == keycode,
        e.unshifted_codepoint == match unshifted {
            Some(c) => c as u32,
            None => 0,
        },
        !e.composing,
{
    KeyEvent {
        action,
        mods,
        consumed_mods: consumed_mods_from_flags(flags),
        keycode: keycode as u32,
        unshifted_codepoint: match unshifted {
            Some(c) => c as u32,
            None => 0,
        },
        composing: false,
    }
}

/// The terminal's number for a momentum phase.
pub open spec fn momentum_of(p: ScrollPhase) -> int {
    match p {
        ScrollPhase::Absent | ScrollPhase::Other => 0,
        ScrollPhase::Began => 1,
        ScrollPhase::Stationary => 2,
        ScrollPhase::Changed => 3,
        ScrollPhase::Ended => 4,
        ScrollPhase::Cancelled => 5,
        ScrollPhase::MayBegin => 6,
    }
}

/// The scroll modifiers: the lowest bit tells a precise delta, the next three the momentum phase.
pub fn scroll_mods(precise: bool, momentum: ScrollPhase) -> (v: i32)
    ensures
        v == 2 * momentum_of(momentum) + if precise {
            1int
        } else {
            0int
        },
{
    let m: i32 = match momentum {
        ScrollPhase::Absent | ScrollPhase::Other => 0,
        ScrollPhase::Began => 1,
        ScrollPhase::Stationary => 2,
        ScrollPhase::Changed => 3,
        ScrollPhase::Ended => 4,
        ScrollPhase::Cancelled => 5,
        ScrollPhase::MayBegin => 6,
    };
    if precise {
        2 * m + 1
    } else {
        2 * m
    }
}

/// The modifier bit of a key code, for the codes of modifier keys.
pub open spec fn mod_key(code: u16) -> Option<u32> {
    if code == 0x39 {
        Some(GHOSTTY_MODS_CAPS)
    } else if code == 0x38 || code == 0x3c {
        Some(GHOSTTY_MODS_SHIFT)
    } else if code == 0x3b || code == 0x3e {
        Some(GHOSTTY_MODS_CTRL)
    } else if code == 0x3a || code == 0x3d {
        Some(GHOSTTY_MODS_ALT)
    } else if code == 0x37 || code == 0x36 {
        Some(GHOSTTY_MODS_SUPER)
    } else {
        None
    }
}

/// The modifier bit of a key code; `None` for a key that is no modifier.
pub fn mod_key_of_code(code: u16) -> (r: Option<u32>)
    ensures
        r == mod_key(code),
{
    match code {
        0x39 => Some(GHOSTTY_MODS_CAPS),
        0x38 | 0x3c => Some(GHOSTTY_MODS_SHIFT),
        0x3b | 0x3e => Some(GHOSTTY_MODS_CTRL),
        0x3a | 0x3d => Some(GHOSTTY_MODS_ALT),
        0x37 | 0x36 => Some(GHOSTTY_MODS_SUPER),
        _ => None,
    }
}

/// No other bit is ever set, and without flags there are none; what is consumed is part of what is held.
pub proof fn lemma_no_other_bits(flags: u64)
    ensures
        mods_of(flags) & 0xffff_fc20 == 0,
        consumed_of(flags) & 0xffff_ffea == 0,
        mods_of(0) == 0,
        mods_of(flags) & consumed_of(flags) == consumed_of(flags),
{
    let a = bit_if(flags, MASK_SHIFT, GHOSTTY_MODS_SHIFT);
    let b = bit_if(flags, MASK_CTRL, GHOSTTY_MODS_CTRL);
    let c = bit_if(flags, MASK_ALT, GHOSTTY_MODS_ALT);
    let d = bit_if(flags, MASK_CMD, GHOSTTY_MODS_SUPER);
    let e = bit_if(flags, MASK_ALPHA_SHIFT, GHOSTTY_MODS_CAPS);
    let f = bit_if(flags, NX_DEVICERSHIFTKEYMASK, GHOSTTY_MODS_SHIFT_RIGHT);
    let g = bit_if(flags, NX_DEVICERCTLKEYMASK, GHOSTTY_MODS_CTRL_RIGHT);
    let h = bit_if(flags, NX_DEVICERALTKEYMASK, GHOSTTY_MODS_ALT_RIGHT);
    let i = bit_if(flags, NX_DEVICERCMDKEYMASK, GHOSTTY_MODS_SUPER_RIGHT);
    let m = 0u32 | a | b | c | d | e | f | g | h | i;
    let n = 0u32 | a | c | e;
    assert(m & 0xffff_fc20 == 0 && n & 0xffff_ffea == 0 && m & n == n) by (bit_vector)
        requires
            m == 0u32 | a | b | c | d | e | f | g | h | i,
            n == 0u32 | a | c | e,
            a == 0 || a == 1,
            b == 0 || b == 2,
            c == 0 || c == 4,
            d == 0 || d == 8,
            e == 0 || e == 16,
            f == 0 || f == 64,
            g == 0 || g == 128,
            h == 0 || h == 256,
            i == 0 || i == 512,
    ;
    assert(0u64 & 0x0002_0000 == 0 && 0u64 & 0x0004_0000 == 0 && 0u64 & 0x0008_0000 == 0 && 0u64
        & 0x0010_0000 == 0 && 0u64 & 0x0001_0000 == 0 && 0u64 & 4 == 0 && 0u64 & 0x10 == 0 && 0u64
        & 0x40 == 0 && 0u64 & 0x2000 == 0 && 0u32 | 0 | 0 | 0 | 0 | 0 | 0 | 0 | 0 | 0 == 0) by (
    bit_vector);
}

/// A key code is that of a modifier if and only if it lies from 0x36 on: the right and the left command
/// key, shift, caps lock, option and control on the left, then shift, option and control on the right.
pub proof fn lemma_codes_of_modifiers(code: u16)
    ensures
        mod_key(code) is Some <==> 0x36 <= code <= 0x3e,
        mod_key(code) == Some(8u32) <==> code == 0x36 || code == 0x37,
        mod_key(code) == Some(1u32) <==> code == 0x38 || code == 0x3c,
        mod_key(code) == Some(16u32) <==> code == 0x39,
        mod_key(code) == Some(4u32) <==> code == 0x3a || code == 0x3d,
        mod_key(code) == Some(2u32) <==> code == 0x3b || code == 0x3e,
{
}

/// The text of a key is kept back just where it is one character, below the space or from U+F700 to
/// U+F8FF: a longer text is passed on whatever it begins with.
pub proof fn lemma_texts_that_are_kept_back(c: char, s: Seq<char>)
    ensures
        is_key_only(seq![c]) <==> c < ' ' || '\u{f700}' <= c <= '\u{f8ff}',
        s.len() != 1 ==> !is_key_only(s),
{
}

/// A momentum phase has a number from 1 on in the order in which phases are listed; none has 0, nor has
/// a mixture.
pub proof fn lemma_phases_in_order(p: ScrollPhase)
    ensures
        momentum_of(p) == 0 <==> p is Absent || p is Other,
        momentum_of(p) == 1 <==> p is Began,
        momentum_of(p) == 2 <==> p is Stationary,
        momentum_of(p) == 3 <==> p is Changed,
        momentum_of(p) == 4 <==> p is Ended,
        momentum_of(p) == 5 <==> p is Cancelled,
        momentum_of(p) == 6 <==> p is MayBegin,
{
}

/// The command key alone is held just where its flag is set and none of the other three is; caps lock and
/// the sides do not matter.
pub proof fn lemma_command_alone(flags: u64, r: bool)
    requires
        call_ensures(is_bare_super, (flags,), r),
    ensures
        r <==> mods_of(flags) & 8 != 0 && mods_of(flags) & 1 == 0 && mods_of(flags) & 2 == 0 && mods_of(flags)
            & 4 == 0,
{
    lemma_mods_bits(flags);
}

/// A key event has the key's own code, what the flags say of the modifiers in its text, and the character
/// of the key; it is never part of a composition.
pub proof fn lemma_event_of_a_key(flags: u64, keycode: u16, unshifted: Option<char>, action: KeyAction, mods: u32, e: KeyEvent)
    requires
        call_ensures(key_event, (flags, keycode, unshifted, action, mods), e),
    ensures
        e.keycode == keycode && e.action == action && e.mods == mods && !e.composing,
        e.consumed_mods == consumed_of(flags),
        unshifted matches Some(c) ==> e.unshifted_codepoint == c as u32,
        unshifted is None ==> e.unshifted_codepoint == 0,
{
}

/// The scroll modifiers tell both: whether the delta is precise in the lowest bit, and the phase above it.
pub proof fn lemma_scroll_tells_both(precise: bool, momentum: ScrollPhase, v: i32)
    requires
        call_ensures(scroll_mods, (precise, momentum), v),
    ensures
        0 <= v < 14,
        v % 2 == 1 <==> precise,
        v / 2 == momentum_of(momentum),
{
}

/// A text is passed on as it is, or not at all.
pub proof fn lemma_text_is_passed_on(s: &str, r: Option<String>)
    requires
        call_ensures(sanitize_text, (s,), r),
    ensures
        r matches Some(t) ==> t@ == s@,
        s@.len() != 1 ==> r is Some,
        s@.len() == 1 ==> (r is None <==> (s@[0] as u32) < 32 || 63232 <= s@[0] as u32 <= 63743),
{
}

} // verus!
