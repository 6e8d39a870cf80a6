//! The configuration in effect, written out as JSON.

use vstd::prelude::*;
use vstd::string::*;

use crate::config::files::LoadInfo;
use crate::config::host::HostConfig;
use crate::config::keys::{equivalent_plain, plain, KeyEquivalent, MENU_ACTIONS};
use crate::text::{
    chars_of, decimal, decimal_of, hex_byte, hex_digit, hex_value, join, joined, push_hex_byte,
    texts,
};

verus! {

/// The values of the terminal's configuration that are written out.
#[derive(Clone, Debug, PartialEq)]
pub struct EffectiveConfig {
    pub resources_dir: String,
    pub background: Option<(u8, u8, u8)>,
    pub foreground: Option<(u8, u8, u8)>,
    pub cursor_color: Option<(u8, u8, u8)>,
    pub selection_background: Option<(u8, u8, u8)>,
    /// The font's size, as a decimal text.
    pub font_size: Option<String>,
    pub palette16: Option<Vec<(u8, u8, u8)>>,
    /// The bindings of the menu's actions, in their order.
    pub triggers: [Option<KeyEquivalent>; 19],
    pub link_previews: Option<bool>,
}

/// A character as it stands inside a JSON string: backslashes, quotes and control characters are
/// escaped.
pub open spec fn escaped_char(c: char) -> Seq<char> {
    if c == '\\' {
        seq!['\\', '\\']
    } else if c == '"' {
        seq!['\\', '"']
    } else if (c as u32) < 0x20 {
        "\\u00"@ + hex_byte(c as u32 as u8)
    } else {
        seq![c]
    }
}

/// `s` as it stands inside a JSON string.
pub open spec fn escaped(s: Seq<char>) -> Seq<char>
    decreases s.len(),
{
    if s.len() == 0 {
        Seq::empty()
    } else {
        escaped(s.drop_last()) + escaped_char(s.last())
    }
}

/// `s` in quotes.
pub open spec fn quoted(s: Seq<char>) -> Seq<char> {
    "\""@ + escaped(s) + "\""@
}

/// `s` in quotes, with backslashes, quotes and control characters escaped.
pub fn json_str(s: &str) -> (out: String)
    ensures
        out@ == quoted(s@),
{
    let v: Vec<char> = chars_of(s);
    let mut out: String = "\"".to_owned();
    let mut i: usize = 0;
    assert(v@.take(0) =~= Seq::<char>::empty());
    assert(out@ =~= "\""@ + escaped(v@.take(0)));
    while i < v.len()
        invariant
            i <= v@.len(),
            out@ == "\""@ + escaped(v@.take(i as int)),
        decreases v@.len() - i,
    {
        assert(v@.take(i + 1).drop_last() =~= v@.take(i as int));
        let ghost was = out@;
        let c: char = v[i];
        let n: u32 = c as u32;
        if c == '\\' {
            out.push('\\');
            out.push('\\');
        } else if c == '"' {
            out.push('\\');
            out.push('"');
        } else if n < 0x20 {
            out = out.concat("\\u00");
            push_hex_byte(&mut out, n as u8);
        } else {
            out.push(c);
        }
        assert(out@ =~= was + escaped_char(c));
        i += 1;
        assert(out@ =~= "\""@ + escaped(v@.take(i as int)));
    }
    assert(v@.take(i as int) =~= v@);
    out.concat("\"")
}

/// What a reader of JSON makes of what stands between the quotes of a string; `None` where that is
/// not legal: a quote or a control character that is not escaped, or an escape that is none.
pub open spec fn read_string(s: Seq<char>) -> Option<Seq<char>>
    decreases s.len(), 0nat,
{
    if s.len() == 0 {
        Some(Seq::empty())
    } else if s[0] == '\\' {
        if s.len() >= 2 && (s[1] == '\\' || s[1] == '"') {
            read_on(s[1], s.skip(2))
        } else if s.len() >= 6 && s[1] == 'u' && s[2] == '0' && s[3] == '0' && hex_value(s[4]) is Some
            && hex_value(s[5]) is Some {
            read_on((16 * hex_value(s[4])->0 + hex_value(s[5])->0) as u8 as char, s.skip(6))
        } else {
            None
        }
    } else if s[0] == '"' || (s[0] as u32) < 0x20 {
        None
    } else {
        read_on(s[0], s.skip(1))
    }
}

/// A character that was read, and what is read behind it.
pub open spec fn read_on(c: char, rest: Seq<char>) -> Option<Seq<char>>
    decreases rest.len(), 1nat,
{
    match read_string(rest) {
        Some(t) => Some(seq![c] + t),
        None => None,
    }
}

proof fn lemma_escaped_front(s: Seq<char>)
    requires
        s.len() > 0,
    ensures
        escaped(s) == escaped_char(s[0]) + escaped(s.skip(1)),
    decreases s.len(),
{
    if s.len() == 1 {
        assert(s.drop_last() =~= Seq::<char>::empty());
        assert(s.skip(1) =~= Seq::<char>::empty());
        assert(escaped(s) =~= escaped_char(s[0]) + escaped(s.skip(1)));
    } else {
        lemma_escaped_front(s.drop_last());
        assert(s.drop_last().skip(1) =~= s.skip(1).drop_last());
        assert(escaped(s) =~= escaped_char(s[0]) + escaped(s.skip(1)));
    }
}

proof fn lemma_read_char(c: char, rest: Seq<char>)
    ensures
        read_string(escaped_char(c) + rest) == read_on(c, rest),
{
    let s = escaped_char(c) + rest;
    reveal_strlit("\\u00");
    if c == '\\' || c == '"' {
        assert(s.skip(2) =~= rest);
    } else if (c as u32) < 0x20 {
        let b = c as u32 as u8;
        assert(s.skip(6) =~= rest);
        assert(hex_value(hex_digit((b / 16) as nat)) == Some((b / 16) as nat));
        assert(hex_value(hex_digit((b % 16) as nat)) == Some((b % 16) as nat));
        assert(s[4] == hex_digit((b / 16) as nat));
        assert(s[5] == hex_digit((b % 16) as nat));
        assert(16 * (b / 16) + b % 16 == b);
        assert(b as char == c);
    } else {
        assert(s.skip(1) =~= rest);
    }
}

/// What is written in quotes is a legal JSON string, and it is read as the text that was written.
pub proof fn lemma_quoted_is_read_back(s: Seq<char>)
    ensures
        quoted(s) == seq!['"'] + escaped(s) + seq!['"'],
        read_string(escaped(s)) == Some(s),
    decreases s.len(),
{
    reveal_strlit("\"");
    assert("\""@ =~= seq!['"']);
    if s.len() > 0 {
        lemma_escaped_front(s);
        lemma_quoted_is_read_back(s.skip(1));
        lemma_read_char(s[0], escaped(s.skip(1)));
        assert(seq![s[0]] + s.skip(1) =~= s);
    } else {
        assert(s =~= Seq::<char>::empty());
    }
}

/// A colour as a JSON array.
pub open spec fn rgb_text(c: (u8, u8, u8)) -> Seq<char> {
    "["@ + decimal(c.0 as nat) + ","@ + decimal(c.1 as nat) + ","@ + decimal(c.2 as nat) + "]"@
}

/// A colour as a JSON array.
pub fn json_rgb(c: (u8, u8, u8)) -> (out: String)
    ensures
        out@ == rgb_text(c),
{
    "[".to_owned().concat(decimal_of(c.0 as u64).as_str()).concat(",").concat(
        decimal_of(c.1 as u64).as_str(),
    ).concat(",").concat(decimal_of(c.2 as u64).as_str()).concat("]")
}

/// A colour as a JSON array, `null` where there is none.
pub open spec fn rgb_or_null(c: Option<(u8, u8, u8)>) -> Seq<char> {
    match c {
        Some(c) => rgb_text(c),
        None => "null"@,
    }
}

fn rgb_or_null_of(c: Option<(u8, u8, u8)>) -> (out: String)
    ensures
        out@ == rgb_or_null(c),
{
    match c {
        Some(c) => json_rgb(c),
        None => "null".to_owned(),
    }
}

/// A truth value as JSON.
pub open spec fn truth(b: bool) -> Seq<char> {
    if b {
        "true"@
    } else {
        "false"@
    }
}

fn truth_of(b: bool) -> (out: String)
    ensures
        out@ == truth(b),
{
    if b {
        "true".to_owned()
    } else {
        "false".to_owned()
    }
}

/// A binding as JSON.
pub open spec fn desc(e: Option<KeyEquivalent>) -> Seq<char> {
    match e {
        None => "null"@,
        Some(_) => quoted(plain(e)),
    }
}

/// A binding as JSON: its text in quotes, or `null`.
pub fn equivalent_desc(e: Option<KeyEquivalent>) -> (out: String)
    ensures
        out@ == desc(e),
{
    match e {
        None => "null".to_owned(),
        Some(_) => json_str(equivalent_plain(e).as_str()),
    }
}

/// The first `n` of the menu's actions with their bindings, one on a line.
pub open spec fn trigger_lines(t: Seq<Option<KeyEquivalent>>, n: int) -> Seq<char>
    decreases n,
{
    if n <= 0 {
        Seq::empty()
    } else {
        trigger_lines(t, n - 1) + "    "@ + quoted(MENU_ACTIONS[n - 1]@) + ": "@ + desc(t[n - 1])
            + (if n < 19 {
            ","@
        } else {
            Seq::empty()
        }) + "\n"@
    }
}

/// One member of the object, on a line of its own.
pub open spec fn member(name: Seq<char>, value: Seq<char>) -> Seq<char> {
    "  \""@ + name + "\": "@ + value + ",\n"@
}

/// Each text in quotes.
pub open spec fn all_quoted(s: Seq<Seq<char>>) -> Seq<Seq<char>> {
    s.map_values(|t: Seq<char>| quoted(t))
}

/// A list of strings as a JSON array.
pub open spec fn array_text(s: Seq<Seq<char>>) -> Seq<char> {
    "["@ + joined(all_quoted(s), ", "@) + "]"@
}

/// A palette as a JSON array.
pub open spec fn palette_text(p: Option<Vec<(u8, u8, u8)>>) -> Seq<char> {
    match p {
        Some(v) => "["@ + joined(v@.map_values(|c: (u8, u8, u8)| rgb_text(c)), ","@) + "]"@,
        None => "null"@,
    }
}

/// The configuration in effect as a JSON object.
pub open spec fn effective_text(e: EffectiveConfig, info: LoadInfo, host: HostConfig) -> Seq<char> {
    "{\n"@ + member("resources_dir"@, quoted(e.resources_dir@)) + member(
        "user_theme"@,
        truth(info.user_theme),
    ) + member("odp_applied"@, truth(info.odp_applied)) + member(
        "plugin_theme"@,
        match info.plugin_theme {
            Some(n) => quoted(n@),
            None => "null"@,
        },
    ) + member("layer_dir"@, quoted(info.layer_dir@)) + member(
        "watched"@,
        array_text(texts(info.watched@)),
    ) + member("background"@, rgb_or_null(e.background)) + member(
        "foreground"@,
        rgb_or_null(e.foreground),
    ) + member("cursor_color"@, rgb_or_null(e.cursor_color)) + member(
        "selection_background"@,
        rgb_or_null(e.selection_background),
    ) + member(
        "font_size"@,
        match e.font_size {
            Some(s) => s@,
            None => "null"@,
        },
    ) + member("palette16"@, palette_text(e.palette16)) + "  \"triggers\": {\n"@ + trigger_lines(
        e.triggers@,
        19,
    ) + "  },\n"@ + member("diagnostics"@, decimal(info.diagnostics as nat)) + member(
        "link_previews_readback"@,
        match e.link_previews {
            Some(b) => truth(b),
            None => "null"@,
        },
    ) + "  \"plugins_enabled\": "@ + array_text(texts(host.plugins.enabled@)) + "\n}\n"@
}

fn array_of(list: &Vec<String>) -> (out: String)
    ensures
        out@ == array_text(texts(list@)),
{
    let mut parts: Vec<String> = Vec::new();
    let ghost want = all_quoted(texts(list@));
    let mut i: usize = 0;
    while i < list.len()
        invariant
            i <= list@.len(),
            parts@.len() == i,
            want == all_quoted(texts(list@)),
            forall|j: int| 0 <= j < i ==> (#[trigger] parts@[j])@ == want[j],
        decreases list@.len() - i,
    {
        parts.push(json_str(list[i].as_str()));
        i += 1;
    }
    assert(texts(parts@) =~= want);
    "[".to_owned().concat(join(&parts, ", ").as_str()).concat("]")
}

fn palette_of(p: &Option<Vec<(u8, u8, u8)>>) -> (out: String)
    ensures
        out@ == palette_text(*p),
{
    match p {
        None => "null".to_owned(),
        Some(v) => {
            let mut parts: Vec<String> = Vec::new();
            let ghost want = v@.map_values(|c: (u8, u8, u8)| rgb_text(c));
            let mut i: usize = 0;
            while i < v.len()
                invariant
                    i <= v@.len(),
                    parts@.len() == i,
                    want == v@.map_values(|c: (u8, u8, u8)| rgb_text(c)),
                    forall|j: int| 0 <= j < i ==> (#[trigger] parts@[j])@ == want[j],
                decreases v@.len() - i,
            {
                parts.push(json_rgb(v[i]));
                i += 1;
            }
            assert(texts(parts@) =~= want);
            "[".to_owned().concat(join(&parts, ",").as_str()).concat("]")
        },
    }
}

fn trigger_lines_of(t: &[Option<KeyEquivalent>; 19]) -> (out: String)
    ensures
        out@ == trigger_lines(t@, 19),
{
    let mut out: String = String::new();
    let mut i: usize = 0;
    assert(out@ =~= trigger_lines(t@, 0));
    while i < 19
        invariant
            i <= 19 == t@.len(),
            out@ == trigger_lines(t@, i as int),
        decreases 19 - i,
    {
        out = out.concat("    ").concat(json_str(MENU_ACTIONS[i]).as_str()).concat(": ").concat(
            equivalent_desc(t[i]).as_str(),
        );
        if i + 1 < 19 {
            out = out.concat(",");
        }
        out = out.concat("\n");
        i += 1;
        assert(out@ =~= trigger_lines(t@, i as int));
    }
    out
}

fn add_member(out: String, name: &str, value: String) -> (r: String)
    ensures
        r@ == out@ + member(name@, value@),
{
    let r: String = out.concat("  \"").concat(name).concat("\": ").concat(value.as_str()).concat(
        ",\n",
    );
    assert(r@ =~= out@ + member(name@, value@));
    r
}

/// The configuration in effect as a JSON object.
pub fn dump_effective_config(e: &EffectiveConfig, info: &LoadInfo, host: &HostConfig) -> (out:
    String)
    ensures
        out@ == effective_text(*e, *info, *host),
{
    let s: String = add_member(
        "{\n".to_owned(),
        "resources_dir",
        json_str(e.resources_dir.as_str()),
    );
    let s: String = add_member(s, "user_theme", truth_of(info.user_theme));
    let s: String = add_member(s, "odp_applied", truth_of(info.odp_applied));
    let name: String = match &info.plugin_theme {
        Some(n) => json_str(n.as_str()),
        None => "null".to_owned(),
    };
    let s: String = add_member(s, "plugin_theme", name);
    let s: String = add_member(s, "layer_dir", json_str(info.layer_dir.as_str()));
    let s: String = add_member(s, "watched", array_of(&info.watched));
    let s: String = add_member(s, "background", rgb_or_null_of(e.background));
    let s: String = add_member(s, "foreground", rgb_or_null_of(e.foreground));
    let s: String = add_member(s, "cursor_color", rgb_or_null_of(e.cursor_color));
    let s: String = add_member(s, "selection_background", rgb_or_null_of(e.selection_background));
    let size: String = match &e.font_size {
        Some(t) => t.clone(),
        None => "null".to_owned(),
    };
    let s: String = add_member(s, "font_size", size);
    let s: String = add_member(s, "palette16", palette_of(&e.palette16));
    let s: String = s.concat("  \"triggers\": {\n").concat(
        trigger_lines_of(&e.triggers).as_str(),
    ).concat("  },\n");
    let s: String = add_member(s, "diagnostics", decimal_of(info.diagnostics as u64));
    let previews: String = match e.link_previews {
        Some(b) => truth_of(b),
        None => "null".to_owned(),
    };
    let s: String = add_member(s, "link_previews_readback", previews);
    s.concat("  \"plugins_enabled\": ").concat(array_of(&host.plugins.enabled).as_str()).concat(
        "\n}\n",
    )
}

} // verus!
