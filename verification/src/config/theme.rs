//! Generated configuration layers: colours, and the host's own key.

use vstd::prelude::*;
use vstd::string::*;

use crate::text::{begins, chars_of, decimal, decimal_of, hex, hex_color, trim_start};

verus! {

/// The terminal's default background.
pub const GHOSTTY_DEFAULT_BACKGROUND: (u8, u8, u8) = (0x28, 0x2c, 0x34);

/// The background of the default colours.
pub const ODP_BACKGROUND: (u8, u8, u8) = (0x28, 0x2c, 0x34);

/// The foreground of the default colours.
pub const ODP_FOREGROUND: (u8, u8, u8) = (0xab, 0xb2, 0xbf);

/// The cursor of the default colours.
pub const ODP_CURSOR: (u8, u8, u8) = (0x52, 0x8b, 0xff);

/// The selection of the default colours.
pub const ODP_SELECTION_BG: (u8, u8, u8) = (0x41, 0x45, 0x4e);

/// The sixteen palette colours of the default colours.
pub const ODP_ANSI: [(u8, u8, u8); 16] = [
    (0x3f, 0x44, 0x51),
    (0xe0, 0x55, 0x61),
    (0x8c, 0xc2, 0x65),
    (0xd1, 0x8f, 0x52),
    (0x4a, 0xa5, 0xf0),
    (0xc1, 0x62, 0xde),
    (0x42, 0xb3, 0xc2),
    (0xd7, 0xda, 0xe0),
    (0x4f, 0x56, 0x66),
    (0xff, 0x61, 0x6e),
    (0xa5, 0xe0, 0x75),
    (0xf0, 0xa4, 0x5d),
    (0x4d, 0xc4, 0xff),
    (0xde, 0x73, 0xff),
    (0x4c, 0xd1, 0xe0),
    (0xe6, 0xe6, 0xe6),
];

/// A line that sets a colour.
pub open spec fn color_line(key: Seq<char>, c: (u8, u8, u8)) -> Seq<char> {
    key + " = "@ + hex_color(c) + "\n"@
}

/// The line that sets a palette colour.
pub open spec fn palette_line(i: nat, c: (u8, u8, u8)) -> Seq<char> {
    "palette = "@ + decimal(i) + "="@ + hex_color(c) + "\n"@
}

/// The lines that set the palette colours.
pub open spec fn palette_lines(ansi: Seq<(u8, u8, u8)>) -> Seq<char>
    decreases ansi.len(),
{
    if ansi.len() == 0 {
        Seq::empty()
    } else {
        palette_lines(ansi.drop_last()) + palette_line((ansi.len() - 1) as nat, ansi.last())
    }
}

/// The lines that set all colours.
pub open spec fn color_lines(
    bg: (u8, u8, u8),
    fg: (u8, u8, u8),
    cursor: (u8, u8, u8),
    selection: (u8, u8, u8),
    ansi: Seq<(u8, u8, u8)>,
) -> Seq<char> {
    color_line("background"@, bg) + color_line("foreground"@, fg) + color_line(
        "cursor-color"@,
        cursor,
    ) + color_line("selection-background"@, selection) + palette_lines(ansi)
}

/// The default colours' layer.
pub open spec fn odp_layer() -> Seq<char> {
    "# ninja ODP default theme layer (generated)\n"@
        + "# One Dark Pro 钉值（官方主题源）。装载在用户默认文件之前：\n"@
        + "# 用户显式色键/theme= 覆盖这里。\n"@ + color_lines(
        ODP_BACKGROUND,
        ODP_FOREGROUND,
        ODP_CURSOR,
        ODP_SELECTION_BG,
        ODP_ANSI@,
    )
}

fn push_color(out: String, key: &str, c: (u8, u8, u8)) -> (r: String)
    ensures
        r@ == out@ + color_line(key@, c),
{
    let r: String = out.concat(key).concat(" = ").concat(hex(c).as_str()).concat("\n");
    assert(r@ =~= out@ + color_line(key@, c));
    r
}

/// Adds the lines that set all colours.
pub fn push_colors(
    out: String,
    bg: (u8, u8, u8),
    fg: (u8, u8, u8),
    cursor: (u8, u8, u8),
    selection: (u8, u8, u8),
    ansi: &[(u8, u8, u8); 16],
) -> (r: String)
    ensures
        r@ == out@ + color_lines(bg, fg, cursor, selection, ansi@),
{
    let mut r: String = push_color(
        push_color(
            push_color(push_color(out, "background", bg), "foreground", fg),
            "cursor-color",
            cursor,
        ),
        "selection-background",
        selection,
    );
    let ghost head = r@;
    let mut i: usize = 0;
    assert(ansi@.take(0) =~= Seq::<(u8, u8, u8)>::empty());
    assert(head + palette_lines(ansi@.take(0)) =~= head);
    while i < 16
        invariant
            i <= 16 == ansi@.len(),
            r@ == head + palette_lines(ansi@.take(i as int)),
        decreases 16 - i,
    {
        assert(ansi@.take(i + 1).drop_last() =~= ansi@.take(i as int));
        r = r.concat("palette = ").concat(decimal_of(i as u64).as_str()).concat("=").concat(
            hex(ansi[i]).as_str(),
        ).concat("\n");
        i += 1;
        assert(r@ =~= head + palette_lines(ansi@.take(i as int)));
    }
    assert(ansi@.take(i as int) =~= ansi@);
    assert(r@ =~= out@ + color_lines(bg, fg, cursor, selection, ansi@));
    r
}

/// The default colours' layer: explicit colours, which a user's own settings override.
pub fn odp_layer_text() -> (s: String)
    ensures
        s@ == odp_layer(),
{
    let head: String = "# ninja ODP default theme layer (generated)\n".to_owned().concat(
        "# One Dark Pro 钉值（官方主题源）。装载在用户默认文件之前：\n",
    ).concat("# 用户显式色键/theme= 覆盖这里。\n");
    push_colors(head, ODP_BACKGROUND, ODP_FOREGROUND, ODP_CURSOR, ODP_SELECTION_BG, &ODP_ANSI)
}

/// The host's own layer.
pub open spec fn host_layer() -> Seq<char> {
    "# ninja host layer (generated)\n"@
        + "# 宿主动作经 ghostty keybind 系统统一重绑：插件面板认领空闲动作\n"@
        + "# toggle_visibility；ghostty 动作集封闭，自定义动作名不可用\n"@
        + "#（Binding.zig InvalidAction）。\n"@ + "keybind = super+,=toggle_visibility\n"@
}

/// The host's own layer: binds the key of the plugin panel.
pub fn host_layer_text() -> (s: String)
    ensures
        s@ == host_layer(),
{
    "# ninja host layer (generated)\n".to_owned().concat(
        "# 宿主动作经 ghostty keybind 系统统一重绑：插件面板认领空闲动作\n",
    ).concat("# toggle_visibility；ghostty 动作集封闭，自定义动作名不可用\n").concat(
        "#（Binding.zig InvalidAction）。\n",
    ).concat("keybind = super+,=toggle_visibility\n")
}

/// A palette of any length has the line of each of its colours.
pub proof fn lemma_palette_has_every_line(ansi: Seq<(u8, u8, u8)>, i: int)
    requires
        0 <= i < ansi.len(),
    ensures
        exists|k: int| #[trigger]
            crate::text::occurs_at(palette_lines(ansi), palette_line(i as nat, ansi[i]), k),
    decreases ansi.len(),
{
    let all = palette_lines(ansi);
    let init = palette_lines(ansi.drop_last());
    let line = palette_line(i as nat, ansi[i]);
    if i == ansi.len() - 1 {
        let k = init.len() as int;
        assert(all.subrange(k, k + line.len()) =~= line);
        assert(crate::text::occurs_at(all, line, k));
    } else {
        assert(ansi.drop_last()[i] == ansi[i]);
        lemma_palette_has_every_line(ansi.drop_last(), i);
        let k = choose|k: int| #[trigger] crate::text::occurs_at(init, line, k);
        assert(all.subrange(k, k + line.len()) =~= init.subrange(k, k + line.len()));
        assert(crate::text::occurs_at(all, line, k));
    }
}

/// A line that sets the theme: `theme`, `=` and any value; no comment.
pub open spec fn sets_theme(line: Seq<char>) -> bool {
    let t = trim_start(line);
    begins(t, "theme"@) && begins(trim_start(t.skip(5)), "="@)
}

/// The characters of `v` from the first that is no white space on, at or behind `from`.
pub(crate) fn skip_white(v: &Vec<char>, from: usize) -> (lo: usize)
    requires
        from <= v@.len(),
    ensures
        from <= lo <= v@.len(),
        v@.skip(lo as int) == trim_start(v@.skip(from as int)),
{
    let n: usize = v.len();
    let mut lo: usize = from;
    while lo < n && crate::text::white(v[lo])
        invariant
            from <= lo <= n == v@.len(),
            trim_start(v@.skip(from as int)) == trim_start(v@.skip(lo as int)),
        decreases n - lo,
    {
        assert(v@.skip(lo as int).drop_first() =~= v@.skip(lo + 1));
        lo += 1;
    }
    lo
}

/// Whether `p` stands in `v` at `from`.
pub(crate) fn begins_at(v: &Vec<char>, from: usize, p: &str) -> (r: bool)
    requires
        from <= v@.len(),
    ensures
        r == begins(v@.skip(from as int), p@),
{
    let pat: Vec<char> = chars_of(p);
    let r: bool = crate::text::stands_at(v, &pat, from);
    proof {
        if from + p@.len() <= v@.len() {
            assert(v@.skip(from as int).take(p@.len() as int) =~= v@.subrange(
                from as int,
                from + p@.len(),
            ));
        }
    }
    r
}

/// Whether a line of a configuration file sets the theme.
pub fn line_sets_theme(line: &str) -> (r: bool)
    ensures
        r == sets_theme(line@),
{
    let v: Vec<char> = chars_of(line);
    assert(v@.skip(0) =~= v@);
    let lo: usize = skip_white(&v, 0);
    if !begins_at(&v, lo, "theme") {
        return false;
    }
    proof {
        reveal_strlit("theme");
    }
    let n: usize = v.len();
    assert(lo + 5 <= n);
    let from: usize = lo + 5;
    assert(v@.skip(lo as int).skip(5) =~= v@.skip(from as int));
    let eq: usize = skip_white(&v, from);
    begins_at(&v, eq, "=")
}

} // verus!
