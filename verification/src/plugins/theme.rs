//! Colours that a plugin sets.

use vstd::prelude::*;
use vstd::string::*;

use crate::config::laws::has;
use crate::config::theme::{color_lines, push_colors};
use crate::protocol::ThemeSet;
use crate::text::{chars_of, decimal, hex_byte, hex_color, hex_digit, hex_value, hex_value_of};

verus! {

/// The byte that two hexadecimal digits stand for.
pub open spec fn byte_of(a: char, b: char) -> Option<u8> {
    match (hex_value(a), hex_value(b)) {
        (Some(x), Some(y)) => Some((16 * x + y) as u8),
        _ => None,
    }
}

/// The colour that a text stands for: `#` and six hexadecimal digits.
pub open spec fn color_of(s: Seq<char>) -> Option<(u8, u8, u8)> {
    if s.len() != 7 || s[0] != '#' {
        None
    } else {
        match (byte_of(s[1], s[2]), byte_of(s[3], s[4]), byte_of(s[5], s[6])) {
            (Some(r), Some(g), Some(b)) => Some((r, g, b)),
            _ => None,
        }
    }
}

fn byte_from(a: char, b: char) -> (r: Option<u8>)
    ensures
        r == byte_of(a, b),
{
    match (hex_value_of(a), hex_value_of(b)) {
        (Some(x), Some(y)) => Some(16 * x + y),
        _ => None,
    }
}

/// The colour that a text stands for; `None` where it is not `#` and six hexadecimal digits.
pub fn parse_hex_color(s: &str) -> (r: Option<(u8, u8, u8)>)
    ensures
        r == color_of(s@),
{
    let v: Vec<char> = chars_of(s);
    if v.len() != 7 || v[0] != '#' {
        return None;
    }
    match (byte_from(v[1], v[2]), byte_from(v[3], v[4]), byte_from(v[5], v[6])) {
        (Some(r), Some(g), Some(b)) => Some((r, g, b)),
        _ => None,
    }
}

/// A colour that was written out is read back.
pub proof fn lemma_color_round_trip(c: (u8, u8, u8))
    ensures
        color_of(hex_color(c)) == Some(c),
{
    let s = hex_color(c);
    assert forall|b: u8| byte_of(#[trigger] hex_byte(b)[0], hex_byte(b)[1]) == Some(b) by {
        assert(hex_byte(b)[0] == hex_digit((b / 16) as nat));
        assert(hex_byte(b)[1] == hex_digit((b % 16) as nat));
    }
    assert(s.len() == 7);
    assert(s[1] == hex_byte(c.0)[0] && s[2] == hex_byte(c.0)[1]);
    assert(s[3] == hex_byte(c.1)[0] && s[4] == hex_byte(c.1)[1]);
    assert(s[5] == hex_byte(c.2)[0] && s[6] == hex_byte(c.2)[1]);
}

/// `over` laid on `under` with the opacity `alpha` of 255, rounded to the nearest.
pub open spec fn blended(over: u8, under: u8, alpha: int) -> u8 {
    ((2 * (over * alpha + under * (255 - alpha)) + 255) / 510) as u8
}

/// A colour laid on another.
pub open spec fn blended_color(over: (u8, u8, u8), under: (u8, u8, u8), alpha: int) -> (u8, u8, u8) {
    (
        blended(over.0, under.0, alpha),
        blended(over.1, under.1, alpha),
        blended(over.2, under.2, alpha),
    )
}

/// Something laid on the same stays the same, and what is opaque hides what is under it.
pub proof fn lemma_blend_ends(over: u8, under: u8, alpha: int)
    requires
        0 <= alpha <= 255,
    ensures
        blended(over, over, alpha) == over,
        blended(over, under, 255) == over,
        blended(over, under, 0) == under,
{
    assert(over * alpha + over * (255 - alpha) == over * 255) by (nonlinear_arith);
}

/// What lies on something else has the whole number that is nearest to the mean of the two, weighted by
/// the opacity: no other is nearer, for any opacity.
pub proof fn lemma_blend_is_the_mean(over: u8, under: u8, alpha: int, other: int)
    requires
        0 <= alpha <= 255,
    ensures
        -127 <= 255 * blended(over, under, alpha) - (over * alpha + under * (255 - alpha)) <= 127,
        other != blended(over, under, alpha) ==> 255 * other - (over * alpha + under * (255 - alpha))
            < -127 || 255 * other - (over * alpha + under * (255 - alpha)) > 127,
{
    assert(0 <= over * alpha <= 255 * alpha && 0 <= under * (255 - alpha) <= 255 * (255 - alpha))
        by (nonlinear_arith)
        requires
            0 <= alpha <= 255,
            over <= 255,
            under <= 255,
    ;
    let x = over * alpha + under * (255 - alpha);
    assert(0 <= x <= 65025);
    assert(0 <= (2 * x + 255) / 510 <= 255);
}

/// The more opaque something is, the nearer it comes to its own colour, and it lies between the two.
pub proof fn lemma_blend_grows(over: u8, under: u8, alpha: int, more: int)
    requires
        0 <= alpha <= more <= 255,
        over >= under,
    ensures
        under <= blended(over, under, alpha) <= blended(over, under, more) <= over,
        over >= blended(under, over, alpha) >= blended(under, over, more) >= under,
{
    lemma_blend_is_the_mean(over, under, alpha, 0);
    lemma_blend_is_the_mean(over, under, more, 0);
    lemma_blend_is_the_mean(under, over, alpha, 0);
    lemma_blend_is_the_mean(under, over, more, 0);
    assert(over * alpha + under * (255 - alpha) <= over * more + under * (255 - more) && under * alpha
        + over * (255 - alpha) >= under * more + over * (255 - more) && 255 * under <= over * alpha
        + under * (255 - alpha) && over * more + under * (255 - more) <= 255 * over && under * alpha
        + over * (255 - alpha) <= 255 * over && 255 * under <= under * more + over * (255 - more))
        by (nonlinear_arith)
        requires
            0 <= alpha <= more <= 255,
            under <= over,
    ;
}

fn blend(over: u8, under: u8, alpha: u32) -> (r: u8)
    requires
        alpha <= 255,
    ensures
        r == blended(over, under, alpha as int),
{
    let rest: u32 = 255 - alpha;
    assert(0 <= over * alpha <= 255 * alpha && 0 <= under * rest <= 255 * rest) by (nonlinear_arith)
        requires
            over <= 255,
            under <= 255,
    ;
    let x: u32 = over as u32 * alpha + under as u32 * rest;
    assert(x <= 255 * 255);
    ((2 * x + 255) / 510) as u8
}

/// The palette's colours, where every one of them is a colour.
pub open spec fn all_colors(s: Seq<String>) -> Option<Seq<(u8, u8, u8)>>
    decreases s.len(),
{
    if s.len() == 0 {
        Some(Seq::empty())
    } else {
        match (all_colors(s.drop_last()), color_of(s.last()@)) {
            (Some(v), Some(c)) => Some(v.push(c)),
            _ => None,
        }
    }
}

/// The layer with a plugin's colours; `None` where one of them is no colour or the selection is more
/// than opaque. The selection is laid on the background.
pub open spec fn theme_layer(m: ThemeSet) -> Option<Seq<char>> {
    match (
        color_of(m.bg@),
        color_of(m.fg@),
        color_of(m.cursor@),
        color_of(m.selection_bg@),
        all_colors(m.ansi@),
    ) {
        (Some(bg), Some(fg), Some(cursor), Some(sel), Some(ansi)) => if m.selection_alpha > 255 {
            None
        } else {
            Some(
                "# ninja plugin theme layer (generated; theme.set)\n"@ + color_lines(
                    bg,
                    fg,
                    cursor,
                    blended_color(sel, bg, m.selection_alpha as int),
                    ansi,
                ),
            )
        },
        _ => None,
    }
}

/// A text is a colour if it has seven characters, `#` and two digits for each part: the first digit of a
/// part counts sixteen times. No other text is one.
pub proof fn lemma_texts_of_colors(s: Seq<char>, c: (u8, u8, u8))
    ensures
        color_of(s) == Some(c) <==> {
            &&& s.len() == 7
            &&& s[0] == '#'
            &&& hex_value(s[1]) is Some && hex_value(s[2]) is Some && c.0 == 16 * hex_value(s[1])->0
                + hex_value(s[2])->0
            &&& hex_value(s[3]) is Some && hex_value(s[4]) is Some && c.1 == 16 * hex_value(s[3])->0
                + hex_value(s[4])->0
            &&& hex_value(s[5]) is Some && hex_value(s[6]) is Some && c.2 == 16 * hex_value(s[5])->0
                + hex_value(s[6])->0
        },
{
}

proof fn lemma_all_colors(s: Seq<String>)
    ensures
        all_colors(s) is Some <==> forall|i: int|
            0 <= i < s.len() ==> color_of((#[trigger] s[i])@) is Some,
        all_colors(s) matches Some(v) ==> v.len() == s.len() && forall|i: int|
            0 <= i < s.len() ==> Some(v[i]) == color_of((#[trigger] s[i])@),
    decreases s.len(),
{
    if s.len() > 0 {
        let init = s.drop_last();
        lemma_all_colors(init);
        assert forall|i: int| 0 <= i < init.len() implies init[i] == #[trigger] s[i] by {}
        if all_colors(init) is None {
            let i = choose|i: int| 0 <= i < init.len() && color_of((#[trigger] init[i])@) is None;
            assert(color_of(s[i]@) is None);
        }
        if all_colors(s) is None && all_colors(init) is Some {
            assert(color_of(s[s.len() - 1]@) is None);
        }
        if all_colors(s) is Some {
            assert forall|i: int| 0 <= i < s.len() implies Some(all_colors(s)->0[i]) == color_of(
                (#[trigger] s[i])@,
            ) by {
                if i < init.len() {
                    assert(color_of(init[i]@) == Some(all_colors(init)->0[i]));
                }
            }
        }
    }
}

/// A part of a colour that is nearest to the mean of two others, weighted by the opacity of the first.
pub open spec fn is_mean(part: u8, over: u8, under: u8, alpha: int) -> bool {
    -127 <= 255 * part - (over * alpha + under * (255 - alpha)) <= 127
}

/// A plugin's colours are taken if and only if every one of them is a colour and the selection is at most
/// opaque. Their layer then sets each to what the plugin said, on a line of its own; only the selection
/// is the mean of what was said and the background.
pub proof fn lemma_theme_is_as_said(m: ThemeSet)
    ensures
        theme_layer(m) is Some <==> {
            &&& color_of(m.bg@) is Some
            &&& color_of(m.fg@) is Some
            &&& color_of(m.cursor@) is Some
            &&& color_of(m.selection_bg@) is Some
            &&& m.selection_alpha <= 255
            &&& forall|i: int| 0 <= i < 16 ==> color_of((#[trigger] m.ansi@[i])@) is Some
        },
        theme_layer(m) matches Some(t) ==> {
            let (bg, fg, cursor, sel) = (
                color_of(m.bg@)->0,
                color_of(m.fg@)->0,
                color_of(m.cursor@)->0,
                color_of(m.selection_bg@)->0,
            );
            &&& has(t, "\nbackground = "@ + hex_color(bg) + "\n"@)
            &&& has(t, "\nforeground = "@ + hex_color(fg) + "\n"@)
            &&& has(t, "\ncursor-color = "@ + hex_color(cursor) + "\n"@)
            &&& exists|c: (u8, u8, u8)|
                is_mean(c.0, sel.0, bg.0, m.selection_alpha as int) && is_mean(
                    c.1,
                    sel.1,
                    bg.1,
                    m.selection_alpha as int,
                ) && is_mean(c.2, sel.2, bg.2, m.selection_alpha as int) && has(
                    t,
                    "\nselection-background = "@ + #[trigger] hex_color(c) + "\n"@,
                )
            &&& forall|i: int|
                0 <= i < 16 ==> has(
                    t,
                    "\npalette = "@ + decimal(i as nat) + "="@ + hex_color(
                        color_of((#[trigger] m.ansi@[i])@)->0,
                    ) + "\n"@,
                )
        },
{
    lemma_all_colors(m.ansi@);
    if let Some(t) = theme_layer(m) {
        let (bg, fg, cursor, sel) = (
            color_of(m.bg@)->0,
            color_of(m.fg@)->0,
            color_of(m.cursor@)->0,
            color_of(m.selection_bg@)->0,
        );
        let a = m.selection_alpha as int;
        let c = blended_color(sel, bg, a);
        let ansi = all_colors(m.ansi@)->0;
        lemma_blend_is_the_mean(sel.0, bg.0, a, 0);
        lemma_blend_is_the_mean(sel.1, bg.1, a, 0);
        lemma_blend_is_the_mean(sel.2, bg.2, a, 0);
        let lines = color_lines(bg, fg, cursor, c, ansi);
        let u = "\n"@ + lines;
        crate::config::laws::lemma_lines_name_colors(bg, fg, cursor, c, ansi);
        assert(has(t, u)) by {
            let head = "# ninja plugin theme layer (generated; theme.set)\n"@;
            reveal_strlit("# ninja plugin theme layer (generated; theme.set)\n");
            reveal_strlit("\n");
            let k = head.len() - 1;
            assert(head[k] == '\n');
            assert(t.subrange(k, k + u.len()) =~= u);
            assert(crate::text::occurs_at(t, u, k));
        }
        crate::config::laws::lemma_part_of_part(t, u, "\nbackground = "@ + hex_color(bg) + "\n"@);
        crate::config::laws::lemma_part_of_part(t, u, "\nforeground = "@ + hex_color(fg) + "\n"@);
        crate::config::laws::lemma_part_of_part(
            t,
            u,
            "\ncursor-color = "@ + hex_color(cursor) + "\n"@,
        );
        crate::config::laws::lemma_part_of_part(
            t,
            u,
            "\nselection-background = "@ + hex_color(c) + "\n"@,
        );
        assert forall|i: int| 0 <= i < 16 implies has(
            t,
            "\npalette = "@ + decimal(i as nat) + "="@ + hex_color(
                color_of((#[trigger] m.ansi@[i])@)->0,
            ) + "\n"@,
        ) by {
            assert(ansi[i] == color_of(m.ansi@[i]@)->0);
            crate::config::laws::lemma_part_of_part(
                t,
                u,
                "\npalette = "@ + decimal(i as nat) + "="@ + hex_color(ansi[i]) + "\n"@,
            );
        }
    }
}

/// Where the sixteen colours are colours, their values.
fn colors_from(list: &[String; 16]) -> (r: Option<[(u8, u8, u8); 16]>)
    ensures
        match r {
            Some(v) => all_colors(list@) == Some(v@),
            None => all_colors(list@) is None,
        },
{
    let mut out: [(u8, u8, u8); 16] = [(0, 0, 0); 16];
    let mut i: usize = 0;
    assert(list@.take(0) =~= Seq::<String>::empty());
    assert(out@.take(0) =~= Seq::<(u8, u8, u8)>::empty());
    while i < 16
        invariant
            i <= 16 == list@.len(),
            out@.len() == 16,
            all_colors(list@.take(i as int)) == Some(out@.take(i as int)),
        decreases 16 - i,
    {
        assert(list@.take(i + 1).drop_last() =~= list@.take(i as int));
        match parse_hex_color(list[i].as_str()) {
            Some(c) => {
                let ghost was = out@;
                out[i] = c;
                assert(out@.take(i + 1) =~= was.take(i as int).push(c));
            },
            None => {
                proof {
                    lemma_bad_color(list@, i as int);
                }
                return None;
            },
        }
        i += 1;
    }
    assert(list@.take(16) =~= list@);
    assert(out@.take(16) =~= out@);
    Some(out)
}

/// One text that is no colour spoils the whole palette.
pub proof fn lemma_bad_color(s: Seq<String>, i: int)
    requires
        0 <= i < s.len(),
        color_of(s[i]@) is None,
    ensures
        all_colors(s) is None,
    decreases s.len(),
{
    if i < s.len() - 1 {
        assert(s.drop_last()[i] == s[i]);
        lemma_bad_color(s.drop_last(), i);
    }
}

/// The layer with a plugin's colours; `None` where any of its values is not valid.
pub fn theme_conf_text(m: &ThemeSet) -> (r: Option<String>)
    ensures
        match r {
            Some(t) => theme_layer(*m) == Some(t@),
            None => theme_layer(*m) is None,
        },
{
    let bg: (u8, u8, u8) = match parse_hex_color(m.bg.as_str()) {
        Some(c) => c,
        None => {
            return None;
        },
    };
    let fg: (u8, u8, u8) = match parse_hex_color(m.fg.as_str()) {
        Some(c) => c,
        None => {
            return None;
        },
    };
    let cursor: (u8, u8, u8) = match parse_hex_color(m.cursor.as_str()) {
        Some(c) => c,
        None => {
            return None;
        },
    };
    let sel: (u8, u8, u8) = match parse_hex_color(m.selection_bg.as_str()) {
        Some(c) => c,
        None => {
            return None;
        },
    };
    if m.selection_alpha > 255 {
        return None;
    }
    let ansi: [(u8, u8, u8); 16] = match colors_from(&m.ansi) {
        Some(v) => v,
        None => {
            return None;
        },
    };
    let a: u32 = m.selection_alpha;
    let selection: (u8, u8, u8) = (blend(sel.0, bg.0, a), blend(sel.1, bg.1, a), blend(sel.2, bg.2, a));
    Some(
        push_colors(
            "# ninja plugin theme layer (generated; theme.set)\n".to_owned(),
            bg,
            fg,
            cursor,
            selection,
            &ansi,
        ),
    )
}

/// The colours in effect that a plugin set: their name, their layer and the plugin's connection.
#[derive(Clone, Debug, PartialEq)]
pub struct ThemeOverride {
    pub name: String,
    pub text: String,
    pub conn: u64,
}

/// The name and the layer of the colours that a plugin set, if one did.
pub fn plugin_theme_override(slot: &Option<ThemeOverride>) -> (r: Option<(String, String)>)
    ensures
        match *slot {
            Some(t) => r matches Some(p) && p.0@ == t.name@ && p.1@ == t.text@,
            None => r is None,
        },
{
    match slot {
        Some(t) => Some((t.name.clone(), t.text.clone())),
        None => None,
    }
}

/// The connection of the plugin that set the colours.
pub fn theme_owner(slot: &Option<ThemeOverride>) -> (r: Option<u64>)
    ensures
        r == match *slot {
            Some(t) => Some(t.conn),
            None => None,
        },
{
    match slot {
        Some(t) => Some(t.conn),
        None => None,
    }
}

/// Sets a plugin's colours in place of any others; colours that are not valid change nothing.
/// Whether they were set, and the configuration is to be loaded anew.
pub fn handle_theme_set(slot: &mut Option<ThemeOverride>, m: &ThemeSet, conn: u64) -> (r: bool)
    ensures
        r == (theme_layer(*m) is Some),
        match theme_layer(*m) {
            Some(text) => *final(slot) matches Some(t) && t.name@ == m.name@ && t.text@ == text
                && t.conn == conn,
            None => *final(slot) == *old(slot),
        },
{
    match theme_conf_text(m) {
        Some(text) => {
            *slot = Some(ThemeOverride { name: m.name.clone(), text, conn });
            true
        },
        None => false,
    }
}

/// Takes back the colours that a plugin set. Whether there were any.
pub fn revoke_theme_override(slot: &mut Option<ThemeOverride>) -> (r: bool)
    ensures
        *final(slot) == None::<ThemeOverride>,
        r == (*old(slot) is Some),
{
    let had: bool = slot.is_some();
    *slot = None;
    had
}

/// The colours in effect are known by their name and their layer, and belong to the plugin that set them.
pub proof fn lemma_colors_in_effect(slot: &Option<ThemeOverride>, r: Option<(String, String)>, o: Option<u64>)
    requires
        call_ensures(plugin_theme_override, (slot,), r),
        call_ensures(theme_owner, (slot,), o),
    ensures
        r is Some <==> *slot is Some,
        o is Some <==> *slot is Some,
        *slot matches Some(t) ==> o == Some(t.conn) && (r->0).0@ == t.name@ && (r->0).1@ == t.text@,
{
}

/// Colours that are valid take the place of any others, and are their plugin's; others change nothing.
/// What is taken back is gone.
pub proof fn lemma_colors_are_set(slot: &mut Option<ThemeOverride>, m: &ThemeSet, conn: u64, r: bool)
    requires
        call_ensures(handle_theme_set, (slot, m, conn), r),
    ensures
        !r ==> *final(slot) == *old(slot),
        r ==> *final(slot) is Some && final(slot)->0.conn == conn && final(slot)->0.name@ == m.name@,
        r <==> theme_layer(*m) is Some,
        r ==> theme_layer(*m) == Some(final(slot)->0.text@),
{
}

} // verus!
