//! What the lines of configuration files mean, and what the generated texts say.

use vstd::prelude::*;
use vstd::string::*;

use crate::config::dump::{
    all_quoted, array_text, desc, effective_text, member, palette_text, quoted, rgb_or_null, rgb_text,
    trigger_lines, truth, EffectiveConfig,
};
use crate::config::files::{
    bundle_resources_dir, children, default_config_files, layer_dir, layer_file, lines, load_pipeline,
    load_steps, pushed, references, referred, resolve_resources_dir, resolved, until, watched_views, word,
    xdg_base, Collector, LoadInfo, LoadStep, WatchState, WatchedFile,
};
use crate::config::host::HostConfig;
use crate::config::keys::{equivalent, key_char, plain, KeyEquivalent, PhysicalKey, Trigger, TriggerKey};
use crate::config::theme::{color_lines, odp_layer, palette_line, palette_lines, sets_theme};
use crate::text::{
    begins, decimal, find, hex_color, is_blank, is_white, joined, lemma_find_from,
    lemma_trim_start_cuts, lemma_trim_start_exact, occurs_at, texts, trim_start,
};

verus! {

/// The line is made of a name, an equals sign and a value, with white space before the name and before
/// the sign.
pub open spec fn sets(
    line: Seq<char>,
    a: Seq<char>,
    name: Seq<char>,
    b: Seq<char>,
    value: Seq<char>,
) -> bool {
    is_blank(a) && is_blank(b) && line == a + name + b + seq!['='] + value
}

/// The name of the setting of the theme.
pub open spec fn theme() -> Seq<char> {
    seq!['t', 'h', 'e', 'm', 'e']
}

/// A line sets the theme if and only if it is made of `theme`, an equals sign and anything behind it,
/// with any white space before the name and before the sign.
pub proof fn lemma_lines_that_set_the_theme(line: Seq<char>)
    ensures
        sets_theme(line) <==> exists|a: Seq<char>, b: Seq<char>, value: Seq<char>| #[trigger]
            sets(line, a, theme(), b, value),
{
    reveal_strlit("theme");
    reveal_strlit("=");
    let name = theme();
    assert("theme"@ =~= name);
    if sets_theme(line) {
        let k = lemma_trim_start_cuts(line);
        let t = line.skip(k);
        let u = t.skip(5);
        let j = lemma_trim_start_cuts(u);
        let a = line.take(k);
        let b = u.take(j);
        let value = u.skip(j).skip(1);
        assert(t.take(5) =~= name);
        assert(u.skip(j).take(1)[0] == '=');
        assert(line =~= a + name + b + seq!['='] + value);
        assert(sets(line, a, name, b, value));
    }
    if exists|a: Seq<char>, b: Seq<char>, value: Seq<char>| #[trigger] sets(line, a, name, b, value) {
        let (a, b, value) = choose|a: Seq<char>, b: Seq<char>, value: Seq<char>| #[trigger]
            sets(line, a, name, b, value);
        lemma_sets(line, a, name, b, value);
    }
}

proof fn lemma_sets(line: Seq<char>, a: Seq<char>, name: Seq<char>, b: Seq<char>, value: Seq<char>)
    requires
        sets(line, a, name, b, value),
        name.len() > 0,
        97 <= name[0] as u32 <= 122,
    ensures
        begins(trim_start(line), name),
        begins(trim_start(trim_start(line).skip(name.len() as int)), "="@),
        trim_start(trim_start(line).skip(name.len() as int)) == seq!['='] + value,
{
    reveal_strlit("=");
    let n = name.len() as int;
    let t = name + b + seq!['='] + value;
    assert(line =~= a + t);
    assert(t[0] == name[0]);
    lemma_trim_start_exact(a, t);
    assert(t.take(n) =~= name);
    let u = seq!['='] + value;
    assert(t.skip(n) =~= b + u);
    lemma_trim_start_exact(b, u);
    assert(u.take(1) =~= "="@);
}

/// The name of the setting that refers to another file.
pub open spec fn config_file() -> Seq<char> {
    seq!['c', 'o', 'n', 'f', 'i', 'g', '-', 'f', 'i', 'l', 'e']
}

/// A line refers to a file if it is made of `config-file`, an equals sign and a value, with any white
/// space between them: to what stands in quotes of either kind, up to the closing one; else to what
/// stands up to the next white space. Without a value it refers to none.
pub proof fn lemma_lines_that_refer(
    line: Seq<char>,
    a: Seq<char>,
    b: Seq<char>,
    c: Seq<char>,
    inside: Seq<char>,
    behind: Seq<char>,
)
    requires
        is_blank(c),
    ensures
        !inside.contains('"') && (behind.len() == 0 || behind[0] == '"') && sets(
            line,
            a,
            config_file(),
            b,
            c + seq!['"'] + inside + behind,
        ) ==> referred(line) == Some(inside),
        !inside.contains('\'') && (behind.len() == 0 || behind[0] == '\'') && sets(
            line,
            a,
            config_file(),
            b,
            c + seq!['\''] + inside + behind,
        ) ==> referred(line) == Some(inside),
        inside.len() > 0 && inside[0] != '"' && inside[0] != '\'' && (forall|i: int|
            0 <= i < inside.len() ==> !is_white(#[trigger] inside[i])) && (behind.len() == 0
            || is_white(behind[0])) && sets(line, a, config_file(), b, c + inside + behind) ==> referred(
            line,
        ) == Some(inside),
        sets(line, a, config_file(), b, c) ==> referred(line) is None,
{
    reveal_strlit("config-file");
    reveal_strlit("=");
    assert("config-file"@ =~= config_file());
    if !inside.contains('"') && (behind.len() == 0 || behind[0] == '"') && sets(
        line,
        a,
        config_file(),
        b,
        c + seq!['"'] + inside + behind,
    ) {
        let v = seq!['"'] + inside + behind;
        assert(c + seq!['"'] + inside + behind =~= c + v);
        lemma_sets(line, a, config_file(), b, c + v);
        lemma_value(c, v);
        assert(v.skip(1) =~= inside + behind);
        lemma_until(inside, behind, '"');
    }
    if !inside.contains('\'') && (behind.len() == 0 || behind[0] == '\'') && sets(
        line,
        a,
        config_file(),
        b,
        c + seq!['\''] + inside + behind,
    ) {
        let v = seq!['\''] + inside + behind;
        assert(c + seq!['\''] + inside + behind =~= c + v);
        lemma_sets(line, a, config_file(), b, c + v);
        lemma_value(c, v);
        assert(v.skip(1) =~= inside + behind);
        lemma_until(inside, behind, '\'');
    }
    if inside.len() > 0 && inside[0] != '"' && inside[0] != '\'' && (forall|i: int|
        0 <= i < inside.len() ==> !is_white(#[trigger] inside[i])) && (behind.len() == 0 || is_white(
        behind[0],
    )) && sets(line, a, config_file(), b, c + inside + behind) {
        let v = inside + behind;
        assert(c + inside + behind =~= c + v);
        lemma_sets(line, a, config_file(), b, c + v);
        assert(v[0] == inside[0]);
        lemma_value(c, v);
        lemma_word(inside, behind);
    }
    if sets(line, a, config_file(), b, c) {
        lemma_sets(line, a, config_file(), b, c);
        let none = Seq::<char>::empty();
        assert(c + none =~= c);
        lemma_value(c, none);
    }
}

proof fn lemma_value(c: Seq<char>, v: Seq<char>)
    requires
        is_blank(c),
        v.len() > 0 ==> !is_white(v[0]),
    ensures
        trim_start((seq!['='] + (c + v)).skip(1)) == v,
{
    assert((seq!['='] + (c + v)).skip(1) =~= c + v);
    lemma_trim_start_exact(c, v);
}

proof fn lemma_until(inside: Seq<char>, behind: Seq<char>, stop: char)
    requires
        !inside.contains(stop),
        behind.len() == 0 || behind[0] == stop,
    ensures
        until(inside + behind, stop) == inside,
    decreases inside.len(),
{
    let s = inside + behind;
    if inside.len() > 0 {
        let rest = inside.drop_first();
        assert(inside.contains(inside[0]));
        assert(!rest.contains(stop)) by {
            if rest.contains(stop) {
                assert(inside[rest.index_of(stop) + 1] == stop);
            }
        }
        assert(s.drop_first() =~= rest + behind);
        lemma_until(rest, behind, stop);
        assert(seq![inside[0]] + rest =~= inside);
    } else {
        assert(s =~= behind);
        assert(inside =~= Seq::<char>::empty());
    }
}

proof fn lemma_word(inside: Seq<char>, behind: Seq<char>)
    requires
        forall|i: int| 0 <= i < inside.len() ==> !is_white(#[trigger] inside[i]),
        behind.len() == 0 || is_white(behind[0]),
    ensures
        word(inside + behind) == inside,
    decreases inside.len(),
{
    let s = inside + behind;
    if inside.len() > 0 {
        let rest = inside.drop_first();
        assert(!is_white(inside[0]));
        assert forall|i: int| 0 <= i < rest.len() implies !is_white(#[trigger] rest[i]) by {
            assert(rest[i] == inside[i + 1]);
        }
        assert(s.drop_first() =~= rest + behind);
        lemma_word(rest, behind);
        assert(seq![inside[0]] + rest =~= inside);
    } else {
        assert(s =~= behind);
        assert(inside =~= Seq::<char>::empty());
    }
}

/// Any other line refers to no file; among those are comments.
pub proof fn lemma_other_lines_refer_to_none(line: Seq<char>)
    ensures
        referred(line) is Some ==> exists|a: Seq<char>, b: Seq<char>, value: Seq<char>| #[trigger]
            sets(line, a, config_file(), b, value),
{
    reveal_strlit("config-file");
    reveal_strlit("=");
    let name = config_file();
    assert("config-file"@ =~= name);
    if referred(line) is Some {
        let k = lemma_trim_start_cuts(line);
        let t = line.skip(k);
        let u = t.skip(11);
        let j = lemma_trim_start_cuts(u);
        let a = line.take(k);
        let b = u.take(j);
        let value = u.skip(j).skip(1);
        assert(t.take(11) =~= name);
        assert(u.skip(j).take(1)[0] == '=');
        assert(line =~= a + name + b + seq!['='] + value);
        assert(sets(line, a, name, b, value));
    }
}

/// The lines of a text are what stands between the line feeds; a carriage return before one goes with
/// it; and there is no line behind the last one.
pub proof fn lemma_lines_of_a_text(line: Seq<char>, rest: Seq<char>)
    requires
        !line.contains('\n'),
    ensures
        lines(Seq::empty()) == Seq::<Seq<char>>::empty(),
        line.len() > 0 ==> lines(line) == seq![line],
        line.len() == 0 || line[line.len() - 1] != '\r' ==> lines(line + seq!['\n'] + rest) == seq![line]
            + lines(rest),
        lines(line + seq!['\r', '\n'] + rest) == seq![line] + lines(rest),
{
    lemma_first_line(line, rest);
    lemma_find_from(line, seq!['\n'], 0);
    if let Some(i) = find(line, seq!['\n']) {
        assert(line.subrange(i, i + 1)[0] == line[i]);
    }
    let l = line.push('\r');
    assert(!l.contains('\n')) by {
        if l.contains('\n') {
            let i = l.index_of('\n');
            assert(line[i] == '\n');
        }
    }
    lemma_first_line(l, rest);
    assert(line + seq!['\r', '\n'] + rest =~= l + seq!['\n'] + rest);
    assert(l.drop_last() =~= line);
}

proof fn lemma_first_line(line: Seq<char>, rest: Seq<char>)
    requires
        !line.contains('\n'),
    ensures
        lines(line + seq!['\n'] + rest) == seq![crate::config::files::without_return(line)] + lines(
            rest,
        ),
{
    let s = line + seq!['\n'] + rest;
    let n = line.len() as int;
    let pat = seq!['\n'];
    lemma_find_from(s, pat, 0);
    assert(s.subrange(n, n + 1) =~= pat);
    assert(occurs_at(s, pat, n));
    let i = find(s, pat)->0;
    if i < n {
        assert(s.subrange(i, i + 1)[0] == s[i]);
        assert(line[i] == '\n');
    }
    assert(s.take(n) =~= line);
    assert(s.skip(n + 1) =~= rest);
}

/// The files that lines refer to come in the order of the lines, one for each line that refers to one.
pub proof fn lemma_references_in_order(a: Seq<Seq<char>>, b: Seq<Seq<char>>, line: Seq<char>)
    ensures
        references(Seq::empty()) == Seq::<Seq<char>>::empty(),
        references(a + b) == references(a) + references(b),
        references(seq![line]) == match referred(line) {
            Some(p) => seq![p],
            None => Seq::empty(),
        },
    decreases b.len(),
{
    assert(seq![line].drop_last() =~= Seq::<Seq<char>>::empty());
    assert(references(seq![line].drop_last()) =~= Seq::<Seq<char>>::empty());
    assert(references(seq![line]) =~= match referred(line) {
        Some(p) => seq![p],
        None => Seq::empty(),
    });
    if b.len() > 0 {
        lemma_references_in_order(a, b.drop_last(), line);
        assert((a + b).drop_last() =~= a + b.drop_last());
        assert(references(a + b) =~= references(a) + references(b));
    } else {
        assert(a + b =~= a);
        assert(references(a) + references(b) =~= references(a));
    }
}

/// A path put behind another one has one slash between them, whether the other has one at its end or
/// not; behind nothing it stands alone.
pub proof fn lemma_one_slash_between(base: Seq<char>, name: Seq<char>)
    requires
        base.len() > 0 ==> base[base.len() - 1] != '/',
    ensures
        base.len() > 0 ==> pushed(base, name) == base + seq!['/'] + name,
        base.len() > 0 ==> pushed(base + seq!['/'], name) == base + seq!['/'] + name,
        base.len() == 0 ==> pushed(base, name) == name,
        pushed(seq!['/'], name) == seq!['/'] + name,
{
    reveal_strlit("/");
    assert("/"@ =~= seq!['/']);
    assert((base + seq!['/']).last() == '/');
}

/// A reference is taken from the directory of the file that it stands in, unless it begins with a slash
/// or that directory is not known; then it stays.
pub proof fn lemma_where_references_lead(dir: Seq<char>, path: Seq<char>)
    ensures
        path.len() > 0 && path[0] == '/' ==> resolved(Some(dir), path) == path,
        path.len() == 0 || path[0] != '/' ==> resolved(Some(dir), path) == pushed(dir, path),
        resolved(None, path) == path,
{
    reveal_strlit("/");
    if path.len() > 0 && path[0] == '/' {
        assert(path.take(1) =~= "/"@);
    } else if begins(path, "/"@) {
        assert(path.take(1)[0] == '/');
    }
}

/// The directory for configurations is the one that the environment names, else `.config` under the
/// home directory.
pub proof fn lemma_configuration_directory(named: Seq<char>, home: Option<Seq<char>>, h: Seq<char>)
    requires
        h.len() > 0 && h[h.len() - 1] != '/',
    ensures
        xdg_base(Some(named), home) == Some(named),
        xdg_base(None, Some(h)) == Some(h + seq!['/', '.', 'c', 'o', 'n', 'f', 'i', 'g']),
        xdg_base(None, None) is None,
{
    reveal_strlit(".config");
    lemma_one_slash_between(h, ".config"@);
    assert(h + seq!['/'] + ".config"@ =~= h + seq!['/', '.', 'c', 'o', 'n', 'f', 'i', 'g']);
}

/// When a step of loading comes: all layers are written before anything is loaded; then the host's own
/// layer, the default colours, the user's files, the files that those refer to, and a plugin's colours
/// on top.
pub open spec fn rank(s: LoadStep) -> int {
    match s {
        LoadStep::WriteHostLayer => 0,
        LoadStep::WriteOdpLayer => 1,
        LoadStep::WritePluginLayer => 2,
        LoadStep::DropPluginLayer => 2,
        LoadStep::LoadHostLayer => 3,
        LoadStep::LoadOdpLayer => 4,
        LoadStep::LoadDefaultFiles => 5,
        LoadStep::LoadReferredFiles => 6,
        LoadStep::LoadPluginLayer => 7,
        LoadStep::Finalize => 8,
    }
}

/// Which steps there are: the default colours are written and loaded just where the user sets no theme;
/// a plugin's colours are written and loaded where there are any, and deleted where there are none; all
/// the others always.
pub open spec fn belongs(s: LoadStep, user_theme: bool, plugin_theme: bool) -> bool {
    match s {
        LoadStep::WriteOdpLayer | LoadStep::LoadOdpLayer => !user_theme,
        LoadStep::WritePluginLayer | LoadStep::LoadPluginLayer => plugin_theme,
        LoadStep::DropPluginLayer => !plugin_theme,
        _ => true,
    }
}

/// The steps of loading are just those that belong, each once and in their order.
pub proof fn lemma_load_steps_in_order(user_theme: bool, plugin_theme: bool)
    ensures
        forall|s: LoadStep| #[trigger]
            load_steps(user_theme, plugin_theme).contains(s) <==> belongs(s, user_theme, plugin_theme),
        forall|i: int, j: int|
            0 <= i < j < load_steps(user_theme, plugin_theme).len() ==> rank(
                #[trigger] load_steps(user_theme, plugin_theme)[i],
            ) < rank(#[trigger] load_steps(user_theme, plugin_theme)[j]),
{
    let s = load_steps(user_theme, plugin_theme);
    if user_theme && plugin_theme {
        let t = seq![
            LoadStep::WriteHostLayer,
            LoadStep::WritePluginLayer,
            LoadStep::LoadHostLayer,
            LoadStep::LoadDefaultFiles,
            LoadStep::LoadReferredFiles,
            LoadStep::LoadPluginLayer,
            LoadStep::Finalize,
        ];
        assert(s =~= t);
        assert(t[0] == LoadStep::WriteHostLayer && t[1] == LoadStep::WritePluginLayer && t[2]
            == LoadStep::LoadHostLayer && t[3] == LoadStep::LoadDefaultFiles && t[4]
            == LoadStep::LoadReferredFiles && t[5] == LoadStep::LoadPluginLayer && t[6]
            == LoadStep::Finalize);
    } else if user_theme {
        let t = seq![
            LoadStep::WriteHostLayer,
            LoadStep::DropPluginLayer,
            LoadStep::LoadHostLayer,
            LoadStep::LoadDefaultFiles,
            LoadStep::LoadReferredFiles,
            LoadStep::Finalize,
        ];
        assert(s =~= t);
        assert(t[0] == LoadStep::WriteHostLayer && t[1] == LoadStep::DropPluginLayer && t[2]
            == LoadStep::LoadHostLayer && t[3] == LoadStep::LoadDefaultFiles && t[4]
            == LoadStep::LoadReferredFiles && t[5] == LoadStep::Finalize);
    } else if plugin_theme {
        let t = seq![
            LoadStep::WriteHostLayer,
            LoadStep::WriteOdpLayer,
            LoadStep::WritePluginLayer,
            LoadStep::LoadHostLayer,
            LoadStep::LoadOdpLayer,
            LoadStep::LoadDefaultFiles,
            LoadStep::LoadReferredFiles,
            LoadStep::LoadPluginLayer,
            LoadStep::Finalize,
        ];
        assert(s =~= t);
        assert(t[0] == LoadStep::WriteHostLayer && t[1] == LoadStep::WriteOdpLayer && t[2]
            == LoadStep::WritePluginLayer && t[3] == LoadStep::LoadHostLayer && t[4]
            == LoadStep::LoadOdpLayer && t[5] == LoadStep::LoadDefaultFiles && t[6]
            == LoadStep::LoadReferredFiles && t[7] == LoadStep::LoadPluginLayer && t[8]
            == LoadStep::Finalize);
    } else {
        let t = seq![
            LoadStep::WriteHostLayer,
            LoadStep::WriteOdpLayer,
            LoadStep::DropPluginLayer,
            LoadStep::LoadHostLayer,
            LoadStep::LoadOdpLayer,
            LoadStep::LoadDefaultFiles,
            LoadStep::LoadReferredFiles,
            LoadStep::Finalize,
        ];
        assert(s =~= t);
        assert(t[0] == LoadStep::WriteHostLayer && t[1] == LoadStep::WriteOdpLayer && t[2]
            == LoadStep::DropPluginLayer && t[3] == LoadStep::LoadHostLayer && t[4]
            == LoadStep::LoadOdpLayer && t[5] == LoadStep::LoadDefaultFiles && t[6]
            == LoadStep::LoadReferredFiles && t[7] == LoadStep::Finalize);
    }
}

/// A key that writes a character has the number of that character; letters are small.
pub proof fn lemma_keys_write_their_characters(n: u8)
    ensures
        n < 26 ==> key_char(PhysicalKey::Letter(n)) == Some(('a' as u32 + n) as u16),
        n < 10 ==> key_char(PhysicalKey::Digit(n)) == Some(('0' as u32 + n) as u16),
        n >= 26 ==> key_char(PhysicalKey::Letter(n)) is None,
        n >= 10 ==> key_char(PhysicalKey::Digit(n)) is None,
        key_char(PhysicalKey::Comma) == Some(',' as u16),
        key_char(PhysicalKey::Period) == Some('.' as u16),
        key_char(PhysicalKey::Slash) == Some('/' as u16),
        key_char(PhysicalKey::Semicolon) == Some(';' as u16),
        key_char(PhysicalKey::Quote) == Some('\'' as u16),
        key_char(PhysicalKey::Minus) == Some('-' as u16),
        key_char(PhysicalKey::Equal) == Some('=' as u16),
        key_char(PhysicalKey::BracketLeft) == Some('[' as u16),
        key_char(PhysicalKey::BracketRight) == Some(']' as u16),
        key_char(PhysicalKey::Backslash) == Some('\\' as u16),
        key_char(PhysicalKey::Backquote) == Some('`' as u16),
        key_char(PhysicalKey::Space) == Some(' ' as u16),
        key_char(PhysicalKey::Enter) == Some('\r' as u16),
        key_char(PhysicalKey::Tab) == Some('\t' as u16),
        key_char(PhysicalKey::Backspace) == Some(8u16),
        key_char(PhysicalKey::Escape) == Some(27u16),
        key_char(PhysicalKey::Other) is None,
{
}

/// The keys without characters have those that the window system gives them: the arrows first, then the
/// function keys in their order, then the keys that move.
pub proof fn lemma_function_keys(n: u8)
    ensures
        key_char(PhysicalKey::ArrowUp) == Some(0xf700u16),
        key_char(PhysicalKey::ArrowDown) == Some(0xf701u16),
        key_char(PhysicalKey::ArrowLeft) == Some(0xf702u16),
        key_char(PhysicalKey::ArrowRight) == Some(0xf703u16),
        1 <= n <= 12 ==> key_char(PhysicalKey::Function(n)) == Some((0xf704 + (n - 1)) as u16),
        n == 0 || n > 12 ==> key_char(PhysicalKey::Function(n)) is None,
        key_char(PhysicalKey::Insert) == Some(0xf727u16),
        key_char(PhysicalKey::Delete) == Some(0xf728u16),
        key_char(PhysicalKey::Home) == Some(0xf729u16),
        key_char(PhysicalKey::End) == Some(0xf72bu16),
        key_char(PhysicalKey::PageUp) == Some(0xf72cu16),
        key_char(PhysicalKey::PageDown) == Some(0xf72du16),
{
}

/// A binding shows the character that it is bound to, where there is one of at most sixteen bits, and
/// each modifier just where its bit is set: shift, control, option and command from the lowest on.
pub proof fn lemma_bindings_show(key: TriggerKey, mods: u32)
    ensures
        match equivalent(Trigger { key, mods }) {
            Some(e) => {
                &&& e.shift == (mods & 1 != 0)
                &&& e.ctrl == (mods & 2 != 0)
                &&& e.alt == (mods & 4 != 0)
                &&& e.cmd == (mods & 8 != 0)
                &&& match key {
                    TriggerKey::Unicode(c) => c < 65536 && e.key as u32 == c,
                    TriggerKey::Physical(p) => key_char(p) == Some(e.key),
                    TriggerKey::CatchAll => false,
                }
            },
            None => match key {
                TriggerKey::Unicode(c) => c >= 65536,
                TriggerKey::Physical(p) => key_char(p) is None,
                TriggerKey::CatchAll => true,
            },
        },
{
}

/// A modifier puts its name and a plus before the text of a binding, and before the modifiers that come
/// behind it: command first, then control, option and shift. A character that shows stands in quotes.
pub proof fn lemma_modifiers_before_the_key(k: KeyEquivalent)
    ensures
        !k.cmd ==> plain(Some(KeyEquivalent { cmd: true, ..k })) == "super+"@ + plain(Some(k)),
        !k.cmd && !k.ctrl ==> plain(Some(KeyEquivalent { ctrl: true, ..k })) == "ctrl+"@ + plain(
            Some(k),
        ),
        !k.cmd && !k.ctrl && !k.alt ==> plain(Some(KeyEquivalent { alt: true, ..k })) == "alt+"@
            + plain(Some(k)),
        !k.cmd && !k.ctrl && !k.alt && !k.shift ==> plain(Some(KeyEquivalent { shift: true, ..k }))
            == "shift+"@ + plain(Some(k)),
        !k.cmd && !k.ctrl && !k.alt && !k.shift && 0x20 <= k.key < 0xd800 ==> plain(Some(k)) == seq![
            '\'',
            k.key as u32 as char,
            '\'',
        ],
        !k.cmd && !k.ctrl && !k.alt && !k.shift && 0xf900 <= k.key ==> plain(Some(k)) == seq![
            '\'',
            k.key as u32 as char,
            '\'',
        ],
{
    reveal_strlit("'");
    let none = Seq::<char>::empty();
    let t = crate::config::keys::key_text(k.key);
    assert(plain(Some(KeyEquivalent { cmd: true, ..k })) =~= if !k.cmd {
        "super+"@ + plain(Some(k))
    } else {
        plain(Some(k))
    });
    if !k.cmd && !k.ctrl {
        assert(plain(Some(KeyEquivalent { ctrl: true, ..k })) =~= "ctrl+"@ + plain(Some(k)));
        if !k.alt {
            assert(plain(Some(KeyEquivalent { alt: true, ..k })) =~= "alt+"@ + plain(Some(k)));
            if !k.shift {
                assert(plain(Some(KeyEquivalent { shift: true, ..k })) =~= "shift+"@ + plain(Some(k)));
                assert(plain(Some(k)) =~= t);
                assert("'"@ =~= seq!['\'']);
                if 0x20 <= k.key < 0xd800 || 0xf900 <= k.key {
                    assert(t =~= seq!['\'', k.key as u32 as char, '\'']);
                }
            }
        }
    }
}

/// Some part of `s` is `part`.
pub open spec fn has(s: Seq<char>, part: Seq<char>) -> bool {
    exists|k: int| #[trigger] occurs_at(s, part, k)
}

/// The pieces put together.
pub open spec fn put_together(pieces: Seq<Seq<char>>) -> Seq<char>
    decreases pieces.len(),
{
    if pieces.len() == 0 {
        Seq::empty()
    } else {
        put_together(pieces.drop_last()) + pieces.last()
    }
}

pub(crate) proof fn lemma_piece(pieces: Seq<Seq<char>>, i: int)
    requires
        0 <= i < pieces.len(),
    ensures
        has(put_together(pieces), pieces[i]),
    decreases pieces.len(),
{
    let init = put_together(pieces.drop_last());
    let all = put_together(pieces);
    let part = pieces[i];
    if i == pieces.len() - 1 {
        let k = init.len() as int;
        assert(all.subrange(k, k + part.len()) =~= part);
        assert(occurs_at(all, part, k));
    } else {
        lemma_piece(pieces.drop_last(), i);
        assert(pieces.drop_last()[i] == part);
        let k = choose|k: int| #[trigger] occurs_at(init, part, k);
        assert(all.subrange(k, k + part.len()) =~= init.subrange(k, k + part.len()));
        assert(occurs_at(all, part, k));
    }
}

pub(crate) proof fn lemma_one_more(pieces: Seq<Seq<char>>, p: Seq<char>)
    ensures
        put_together(pieces.push(p)) == put_together(pieces) + p,
{
    assert(pieces.push(p).drop_last() =~= pieces);
}

pub(crate) proof fn lemma_part_of_part(s: Seq<char>, part: Seq<char>, inner: Seq<char>)
    requires
        has(s, part),
        has(part, inner),
    ensures
        has(s, inner),
{
    let k = choose|k: int| #[trigger] occurs_at(s, part, k);
    let j = choose|j: int| #[trigger] occurs_at(part, inner, j);
    assert(s.subrange(k + j, k + j + inner.len()) =~= part.subrange(j, j + inner.len()));
    assert(occurs_at(s, inner, k + j));
}

/// What stands between two other parts.
pub(crate) proof fn lemma_part(a: Seq<char>, part: Seq<char>, b: Seq<char>)
    ensures
        has(a + part + b, part),
{
    let s = a + part + b;
    let k = a.len() as int;
    assert(s.subrange(k, k + part.len()) =~= part);
    assert(occurs_at(s, part, k));
}

/// The lines that set colours have each colour on a line of its own, in the notation with `#`, and each
/// colour of the palette with its number.
pub proof fn lemma_lines_name_colors(
    bg: (u8, u8, u8),
    fg: (u8, u8, u8),
    cursor: (u8, u8, u8),
    selection: (u8, u8, u8),
    ansi: Seq<(u8, u8, u8)>,
)
    ensures
        ({
            let t = "\n"@ + color_lines(bg, fg, cursor, selection, ansi);
            &&& has(t, "\nbackground = "@ + hex_color(bg) + "\n"@)
            &&& has(t, "\nforeground = "@ + hex_color(fg) + "\n"@)
            &&& has(t, "\ncursor-color = "@ + hex_color(cursor) + "\n"@)
            &&& has(t, "\nselection-background = "@ + hex_color(selection) + "\n"@)
            &&& forall|i: int|
                0 <= i < ansi.len() ==> has(
                    t,
                    "\npalette = "@ + decimal(i as nat) + "="@ + hex_color(#[trigger] ansi[i]) + "\n"@,
                )
        }),
{
    let t = "\n"@ + color_lines(bg, fg, cursor, selection, ansi);
    let none = Seq::<char>::empty();
    reveal_strlit("\n");
    reveal_strlit(" = ");
    reveal_strlit("background");
    reveal_strlit("foreground");
    reveal_strlit("cursor-color");
    reveal_strlit("selection-background");
    reveal_strlit("\nbackground = ");
    reveal_strlit("\nforeground = ");
    reveal_strlit("\ncursor-color = ");
    reveal_strlit("\nselection-background = ");
    assert("\nbackground = "@ =~= "\n"@ + "background"@ + " = "@);
    assert("\nforeground = "@ =~= "\n"@ + "foreground"@ + " = "@);
    assert("\ncursor-color = "@ =~= "\n"@ + "cursor-color"@ + " = "@);
    assert("\nselection-background = "@ =~= "\n"@ + "selection-background"@ + " = "@);
    let l1 = "\nbackground = "@ + hex_color(bg);
    let l2 = "\nforeground = "@ + hex_color(fg);
    let l3 = "\ncursor-color = "@ + hex_color(cursor);
    let l4 = "\nselection-background = "@ + hex_color(selection);
    let n = "\n"@;
    let p = palette_lines(ansi);
    assert(t =~= l1 + l2 + l3 + l4 + n + p);
    assert(t =~= none + (l1 + n) + (l2 + l3 + l4 + n + p).skip(1));
    lemma_part(none, l1 + n, (l2 + l3 + l4 + n + p).skip(1));
    assert(t =~= l1 + (l2 + n) + (l3 + l4 + n + p).skip(1));
    lemma_part(l1, l2 + n, (l3 + l4 + n + p).skip(1));
    assert(t =~= (l1 + l2) + (l3 + n) + (l4 + n + p).skip(1));
    lemma_part(l1 + l2, l3 + n, (l4 + n + p).skip(1));
    assert(t =~= (l1 + l2 + l3) + (l4 + n) + p);
    lemma_part(l1 + l2 + l3, l4 + n, p);
    assert forall|i: int| 0 <= i < ansi.len() implies has(
        t,
        "\npalette = "@ + decimal(i as nat) + "="@ + hex_color(#[trigger] ansi[i]) + "\n"@,
    ) by {
        lemma_palette_entry(ansi, i);
        let head = l1 + l2 + l3 + l4;
        assert(t =~= head + (n + p) + none);
        lemma_part(head, n + p, none);
        lemma_part_of_part(
            t,
            n + p,
            "\npalette = "@ + decimal(i as nat) + "="@ + hex_color(ansi[i]) + "\n"@,
        );
    }
}

proof fn lemma_palette_entry(ansi: Seq<(u8, u8, u8)>, i: int)
    requires
        0 <= i < ansi.len(),
    ensures
        has(
            "\n"@ + palette_lines(ansi),
            "\npalette = "@ + decimal(i as nat) + "="@ + hex_color(ansi[i]) + "\n"@,
        ),
    decreases ansi.len(),
{
    reveal_strlit("\n");
    reveal_strlit("palette = ");
    reveal_strlit("\npalette = ");
    let n = "\n"@;
    let want = "\npalette = "@ + decimal(i as nat) + "="@ + hex_color(ansi[i]) + n;
    let init = n + palette_lines(ansi.drop_last());
    let all = n + palette_lines(ansi);
    let none = Seq::<char>::empty();
    assert(all =~= init + palette_line((ansi.len() - 1) as nat, ansi.last()));
    if i == ansi.len() - 1 {
        assert(want =~= n + palette_line(i as nat, ansi[i]));
        lemma_ends_in_line(ansi.drop_last());
        assert(init.last() == '\n');
        assert(init =~= init.drop_last() + n);
        assert(all =~= init.drop_last() + want + none);
        lemma_part(init.drop_last(), want, none);
    } else {
        assert(ansi.drop_last()[i] == ansi[i]);
        lemma_palette_entry(ansi.drop_last(), i);
        let last = palette_line((ansi.len() - 1) as nat, ansi.last());
        assert(all =~= none + init + last);
        lemma_part(none, init, last);
        lemma_part_of_part(all, init, want);
    }
}

proof fn lemma_ends_in_line(ansi: Seq<(u8, u8, u8)>)
    ensures
        ("\n"@ + palette_lines(ansi)).last() == '\n',
{
    reveal_strlit("\n");
    if ansi.len() > 0 {
        let last = palette_line((ansi.len() - 1) as nat, ansi.last());
        assert(last.last() == '\n');
        assert(("\n"@ + palette_lines(ansi)).last() == last.last());
    }
}

/// The word for a truth value.
pub open spec fn yes_or_no(b: bool) -> Seq<char> {
    match b {
        true => "true"@,
        false => "false"@,
    }
}

/// The text, or the word for none.
pub open spec fn or_null(t: Option<Seq<char>>) -> Seq<char> {
    if t is Some {
        t->0
    } else {
        "null"@
    }
}

/// A colour as an array of its three parts, red first.
pub open spec fn color_array(c: Option<(u8, u8, u8)>) -> Seq<char> {
    if c is Some {
        let (r, g, b) = c->0;
        "["@ + decimal(r as nat) + ","@ + decimal(g as nat) + ","@ + decimal(b as nat) + "]"@
    } else {
        "null"@
    }
}

/// The texts in quotes as an array.
pub open spec fn listed(t: Seq<Seq<char>>, comma: Seq<char>) -> Seq<char> {
    "["@ + joined(Seq::new(t.len(), |i: int| quoted(t[i])), comma) + "]"@
}

/// The colours as an array of arrays.
pub open spec fn color_arrays(p: Option<Vec<(u8, u8, u8)>>) -> Seq<char> {
    if p is Some {
        "["@ + joined(Seq::new(p->0@.len(), |i: int| color_array(Some(p->0@[i]))), ","@) + "]"@
    } else {
        "null"@
    }
}

/// Each part of the configuration in effect is written out on a line of its own, under its name.
pub proof fn lemma_every_member_is_written(e: EffectiveConfig, info: LoadInfo, host: HostConfig)
    ensures
        ({
            let t = effective_text(e, info, host);
            &&& has(t, "  \"resources_dir\": "@ + quoted(e.resources_dir@) + ",\n"@)
            &&& has(t, "  \"user_theme\": "@ + yes_or_no(info.user_theme) + ",\n"@)
            &&& has(t, "  \"odp_applied\": "@ + yes_or_no(info.odp_applied) + ",\n"@)
            &&& has(t, "  \"plugin_theme\": "@ + or_null(
                match info.plugin_theme {
                    Some(n) => Some(quoted(n@)),
                    None => None,
                },
            ) + ",\n"@)
            &&& has(t, "  \"layer_dir\": "@ + quoted(info.layer_dir@) + ",\n"@)
            &&& has(t, "  \"watched\": "@ + listed(texts(info.watched@), ", "@) + ",\n"@)
            &&& has(t, "  \"background\": "@ + color_array(e.background) + ",\n"@)
            &&& has(t, "  \"foreground\": "@ + color_array(e.foreground) + ",\n"@)
            &&& has(t, "  \"cursor_color\": "@ + color_array(e.cursor_color) + ",\n"@)
            &&& has(t, "  \"selection_background\": "@ + color_array(e.selection_background) + ",\n"@)
            &&& has(t, "  \"font_size\": "@ + or_null(
                match e.font_size {
                    Some(s) => Some(s@),
                    None => None,
                },
            ) + ",\n"@)
            &&& has(t, "  \"palette16\": "@ + color_arrays(e.palette16) + ",\n"@)
            &&& has(t, "  \"diagnostics\": "@ + decimal(info.diagnostics as nat) + ",\n"@)
            &&& has(t, "  \"link_previews_readback\": "@ + or_null(
                match e.link_previews {
                    Some(b) => Some(yes_or_no(b)),
                    None => None,
                },
            ) + ",\n"@)
            &&& has(t, "  \"plugins_enabled\": "@ + listed(texts(host.plugins.enabled@), ", "@) + "\n"@)
        }),
{
    let p = lemma_pieces(e, info, host);
    lemma_arrays(e, info, host);
    lemma_piece(p, 1);
    lemma_name_of_resources_dir();
    lemma_piece(p, 2);
    lemma_name_of_user_theme();
    lemma_piece(p, 3);
    lemma_name_of_odp_applied();
    lemma_piece(p, 4);
    lemma_name_of_plugin_theme();
    lemma_piece(p, 5);
    lemma_name_of_layer_dir();
    lemma_piece(p, 6);
    lemma_name_of_watched();
    lemma_piece(p, 7);
    lemma_name_of_background();
    lemma_piece(p, 8);
    lemma_name_of_foreground();
    lemma_piece(p, 9);
    lemma_name_of_cursor_color();
    lemma_piece(p, 10);
    lemma_name_of_selection_background();
    lemma_piece(p, 11);
    lemma_name_of_font_size();
    lemma_piece(p, 12);
    lemma_name_of_palette16();
    lemma_piece(p, 16);
    lemma_name_of_diagnostics();
    lemma_piece(p, 17);
    lemma_name_of_link_previews_readback();
    lemma_last_pieces(p);
}

proof fn lemma_name_of_resources_dir()
    ensures
        "  \"resources_dir\": "@ == "  \""@ + "resources_dir"@ + "\": "@,
{
    reveal_strlit("  \"");
    reveal_strlit("\": ");
    reveal_strlit("resources_dir");
    reveal_strlit("  \"resources_dir\": ");
    assert("  \"resources_dir\": "@ =~= "  \""@ + "resources_dir"@ + "\": "@);
}

proof fn lemma_name_of_user_theme()
    ensures
        "  \"user_theme\": "@ == "  \""@ + "user_theme"@ + "\": "@,
{
    reveal_strlit("  \"");
    reveal_strlit("\": ");
    reveal_strlit("user_theme");
    reveal_strlit("  \"user_theme\": ");
    assert("  \"user_theme\": "@ =~= "  \""@ + "user_theme"@ + "\": "@);
}

proof fn lemma_name_of_odp_applied()
    ensures
        "  \"odp_applied\": "@ == "  \""@ + "odp_applied"@ + "\": "@,
{
    reveal_strlit("  \"");
    reveal_strlit("\": ");
    reveal_strlit("odp_applied");
    reveal_strlit("  \"odp_applied\": ");
    assert("  \"odp_applied\": "@ =~= "  \""@ + "odp_applied"@ + "\": "@);
}

proof fn lemma_name_of_plugin_theme()
    ensures
        "  \"plugin_theme\": "@ == "  \""@ + "plugin_theme"@ + "\": "@,
{
    reveal_strlit("  \"");
    reveal_strlit("\": ");
    reveal_strlit("plugin_theme");
    reveal_strlit("  \"plugin_theme\": ");
    assert("  \"plugin_theme\": "@ =~= "  \""@ + "plugin_theme"@ + "\": "@);
}

proof fn lemma_name_of_layer_dir()
    ensures
        "  \"layer_dir\": "@ == "  \""@ + "layer_dir"@ + "\": "@,
{
    reveal_strlit("  \"");
    reveal_strlit("\": ");
    reveal_strlit("layer_dir");
    reveal_strlit("  \"layer_dir\": ");
    assert("  \"layer_dir\": "@ =~= "  \""@ + "layer_dir"@ + "\": "@);
}

proof fn lemma_name_of_watched()
    ensures
        "  \"watched\": "@ == "  \""@ + "watched"@ + "\": "@,
{
    reveal_strlit("  \"");
    reveal_strlit("\": ");
    reveal_strlit("watched");
    reveal_strlit("  \"watched\": ");
    assert("  \"watched\": "@ =~= "  \""@ + "watched"@ + "\": "@);
}

proof fn lemma_name_of_background()
    ensures
        "  \"background\": "@ == "  \""@ + "background"@ + "\": "@,
{
    reveal_strlit("  \"");
    reveal_strlit("\": ");
    reveal_strlit("background");
    reveal_strlit("  \"background\": ");
    assert("  \"background\": "@ =~= "  \""@ + "background"@ + "\": "@);
}

proof fn lemma_name_of_foreground()
    ensures
        "  \"foreground\": "@ == "  \""@ + "foreground"@ + "\": "@,
{
    reveal_strlit("  \"");
    reveal_strlit("\": ");
    reveal_strlit("foreground");
    reveal_strlit("  \"foreground\": ");
    assert("  \"foreground\": "@ =~= "  \""@ + "foreground"@ + "\": "@);
}

proof fn lemma_name_of_cursor_color()
    ensures
        "  \"cursor_color\": "@ == "  \""@ + "cursor_color"@ + "\": "@,
{
    reveal_strlit("  \"");
    reveal_strlit("\": ");
    reveal_strlit("cursor_color");
    reveal_strlit("  \"cursor_color\": ");
    assert("  \"cursor_color\": "@ =~= "  \""@ + "cursor_color"@ + "\": "@);
}

proof fn lemma_name_of_selection_background()
    ensures
        "  \"selection_background\": "@ == "  \""@ + "selection_background"@ + "\": "@,
{
    reveal_strlit("  \"");
    reveal_strlit("\": ");
    reveal_strlit("selection_background");
    reveal_strlit("  \"selection_background\": ");
    assert("  \"selection_background\": "@ =~= "  \""@ + "selection_background"@ + "\": "@);
}

proof fn lemma_name_of_font_size()
    ensures
        "  \"font_size\": "@ == "  \""@ + "font_size"@ + "\": "@,
{
    reveal_strlit("  \"");
    reveal_strlit("\": ");
    reveal_strlit("font_size");
    reveal_strlit("  \"font_size\": ");
    assert("  \"font_size\": "@ =~= "  \""@ + "font_size"@ + "\": "@);
}

proof fn lemma_name_of_palette16()
    ensures
        "  \"palette16\": "@ == "  \""@ + "palette16"@ + "\": "@,
{
    reveal_strlit("  \"");
    reveal_strlit("\": ");
    reveal_strlit("palette16");
    reveal_strlit("  \"palette16\": ");
    assert("  \"palette16\": "@ =~= "  \""@ + "palette16"@ + "\": "@);
}

proof fn lemma_name_of_diagnostics()
    ensures
        "  \"diagnostics\": "@ == "  \""@ + "diagnostics"@ + "\": "@,
{
    reveal_strlit("  \"");
    reveal_strlit("\": ");
    reveal_strlit("diagnostics");
    reveal_strlit("  \"diagnostics\": ");
    assert("  \"diagnostics\": "@ =~= "  \""@ + "diagnostics"@ + "\": "@);
}

proof fn lemma_name_of_link_previews_readback()
    ensures
        "  \"link_previews_readback\": "@ == "  \""@ + "link_previews_readback"@ + "\": "@,
{
    reveal_strlit("  \"");
    reveal_strlit("\": ");
    reveal_strlit("link_previews_readback");
    reveal_strlit("  \"link_previews_readback\": ");
    assert("  \"link_previews_readback\": "@ =~= "  \""@ + "link_previews_readback"@ + "\": "@);
}

proof fn lemma_last_pieces(p: Seq<Seq<char>>)
    requires
        p.len() == 21,
        p[20] == "\n}\n"@,
    ensures
        has(put_together(p), p[18] + p[19] + "\n"@),
{
    reveal_strlit("\n");
    reveal_strlit("}\n");
    reveal_strlit("\n}\n");
    let front = put_together(p.take(18));
    assert("\n}\n"@ =~= "\n"@ + "}\n"@);
    assert(p.take(19) =~= p.take(18).push(p[18]));
    assert(p.take(20) =~= p.take(19).push(p[19]));
    assert(p =~= p.take(20).push(p[20]));
    lemma_one_more(p.take(18), p[18]);
    lemma_one_more(p.take(19), p[19]);
    lemma_one_more(p.take(20), p[20]);
    assert(put_together(p) =~= front + p[18] + p[19] + p[20]);
    assert(put_together(p) =~= front + (p[18] + p[19] + "\n"@) + "}\n"@);
    lemma_part(front, p[18] + p[19] + "\n"@, "}\n"@);
}

proof fn lemma_pieces(e: EffectiveConfig, info: LoadInfo, host: HostConfig) -> (p: Seq<Seq<char>>)
    ensures
        p.len() == 21,
        put_together(p) == effective_text(e, info, host),
        p[1] == member("resources_dir"@, quoted(e.resources_dir@)),
        p[2] == member("user_theme"@, truth(info.user_theme)),
        p[3] == member("odp_applied"@, truth(info.odp_applied)),
        p[4] == member("plugin_theme"@, match info.plugin_theme { Some(n) => quoted(n@), None => "null"@ }),
        p[5] == member("layer_dir"@, quoted(info.layer_dir@)),
        p[6] == member("watched"@, array_text(texts(info.watched@))),
        p[7] == member("background"@, rgb_or_null(e.background)),
        p[8] == member("foreground"@, rgb_or_null(e.foreground)),
        p[9] == member("cursor_color"@, rgb_or_null(e.cursor_color)),
        p[10] == member("selection_background"@, rgb_or_null(e.selection_background)),
        p[11] == member("font_size"@, match e.font_size { Some(s) => s@, None => "null"@ }),
        p[12] == member("palette16"@, palette_text(e.palette16)),
        p[13] == "  \"triggers\": {\n"@,
        p[14] == trigger_lines(e.triggers@, 19),
        p[15] == "  },\n"@,
        p[16] == member("diagnostics"@, decimal(info.diagnostics as nat)),
        p[17] == member("link_previews_readback"@, match e.link_previews { Some(b) => truth(b), None => "null"@ }),
        p[18] == "  \"plugins_enabled\": "@,
        p[19] == array_text(texts(host.plugins.enabled@)),
        p[20] == "\n}\n"@,
{
    let p0 = Seq::<Seq<char>>::empty().push("{\n"@);
    lemma_one_more(Seq::empty(), "{\n"@);
    assert(put_together(Seq::<Seq<char>>::empty()) + "{\n"@ =~= "{\n"@);
    let m1 = member("resources_dir"@, quoted(e.resources_dir@));
    lemma_one_more(p0, m1);
    let p1 = p0.push(m1);
    let m2 = member("user_theme"@, truth(info.user_theme));
    lemma_one_more(p1, m2);
    let p2 = p1.push(m2);
    let m3 = member("odp_applied"@, truth(info.odp_applied));
    lemma_one_more(p2, m3);
    let p3 = p2.push(m3);
    let m4 = member("plugin_theme"@, match info.plugin_theme { Some(n) => quoted(n@), None => "null"@ });
    lemma_one_more(p3, m4);
    let p4 = p3.push(m4);
    let m5 = member("layer_dir"@, quoted(info.layer_dir@));
    lemma_one_more(p4, m5);
    let p5 = p4.push(m5);
    let m6 = member("watched"@, array_text(texts(info.watched@)));
    lemma_one_more(p5, m6);
    let p6 = p5.push(m6);
    let m7 = member("background"@, rgb_or_null(e.background));
    lemma_one_more(p6, m7);
    let p7 = p6.push(m7);
    let m8 = member("foreground"@, rgb_or_null(e.foreground));
    lemma_one_more(p7, m8);
    let p8 = p7.push(m8);
    let m9 = member("cursor_color"@, rgb_or_null(e.cursor_color));
    lemma_one_more(p8, m9);
    let p9 = p8.push(m9);
    let m10 = member("selection_background"@, rgb_or_null(e.selection_background));
    lemma_one_more(p9, m10);
    let p10 = p9.push(m10);
    let m11 = member("font_size"@, match e.font_size { Some(s) => s@, None => "null"@ });
    lemma_one_more(p10, m11);
    let p11 = p10.push(m11);
    let m12 = member("palette16"@, palette_text(e.palette16));
    lemma_one_more(p11, m12);
    let p12 = p11.push(m12);
    let m13 = "  \"triggers\": {\n"@;
    lemma_one_more(p12, m13);
    let p13 = p12.push(m13);
    let m14 = trigger_lines(e.triggers@, 19);
    lemma_one_more(p13, m14);
    let p14 = p13.push(m14);
    let m15 = "  },\n"@;
    lemma_one_more(p14, m15);
    let p15 = p14.push(m15);
    let m16 = member("diagnostics"@, decimal(info.diagnostics as nat));
    lemma_one_more(p15, m16);
    let p16 = p15.push(m16);
    let m17 = member("link_previews_readback"@, match e.link_previews { Some(b) => truth(b), None => "null"@ });
    lemma_one_more(p16, m17);
    let p17 = p16.push(m17);
    let m18 = "  \"plugins_enabled\": "@;
    lemma_one_more(p17, m18);
    let p18 = p17.push(m18);
    let m19 = array_text(texts(host.plugins.enabled@));
    lemma_one_more(p18, m19);
    let p19 = p18.push(m19);
    let m20 = "\n}\n"@;
    lemma_one_more(p19, m20);
    let p20 = p19.push(m20);
    p20
}

proof fn lemma_arrays(e: EffectiveConfig, info: LoadInfo, host: HostConfig)
    ensures
        array_text(texts(info.watched@)) == listed(texts(info.watched@), ", "@),
        array_text(texts(host.plugins.enabled@)) == listed(
            texts(host.plugins.enabled@),
            ", "@,
        ),
        palette_text(e.palette16) == color_arrays(e.palette16),
{
    let w = texts(info.watched@);
    assert(all_quoted(w) =~= Seq::new(w.len(), |i: int| quoted(w[i])));
    let n = texts(host.plugins.enabled@);
    assert(all_quoted(n) =~= Seq::new(n.len(), |i: int| quoted(n[i])));
    if let Some(v) = e.palette16 {
        assert(v@.map_values(|c: (u8, u8, u8)| rgb_text(c)) =~= Seq::new(
            v@.len(),
            |i: int| color_array(Some(v@[i])),
        ));
    }
}

/// The binding of an action stands under the action's name, in quotes; `null` where there is none.
pub proof fn lemma_every_binding_is_written(
    e: EffectiveConfig,
    info: LoadInfo,
    host: HostConfig,
    i: int,
)
    requires
        0 <= i < 19,
    ensures
        has(
            effective_text(e, info, host),
            "    "@ + quoted(crate::config::keys::MENU_ACTIONS[i]@) + ": "@ + match e.triggers@[i] {
                Some(k) => quoted(plain(Some(k))),
                None => "null"@,
            },
        ),
{
    let lines = trigger_lines(e.triggers@, 19);
    lemma_trigger_line(e.triggers@, i, 19);
    let t = effective_text(e, info, host);
    lemma_text_has_triggers(e, info, host);
    lemma_part_of_part(
        t,
        lines,
        "    "@ + quoted(crate::config::keys::MENU_ACTIONS[i]@) + ": "@ + match e.triggers@[i] {
            Some(k) => quoted(plain(Some(k))),
            None => "null"@,
        },
    );
}

proof fn lemma_trigger_line(t: Seq<Option<KeyEquivalent>>, i: int, n: int)
    requires
        0 <= i < n,
    ensures
        has(
            trigger_lines(t, n),
            "    "@ + quoted(crate::config::keys::MENU_ACTIONS[i]@) + ": "@ + match t[i] {
                Some(k) => quoted(plain(Some(k))),
                None => "null"@,
            },
        ),
    decreases n,
{
    let all = trigger_lines(t, n);
    let init = trigger_lines(t, n - 1);
    let want = "    "@ + quoted(crate::config::keys::MENU_ACTIONS[i]@) + ": "@ + match t[i] {
        Some(k) => quoted(plain(Some(k))),
        None => "null"@,
    };
    let end = (if n < 19 {
        ","@
    } else {
        Seq::empty()
    }) + "\n"@;
    if i == n - 1 {
        assert(all =~= init + want + end);
        lemma_part(init, want, end);
    } else {
        lemma_trigger_line(t, i, n - 1);
        let none = Seq::<char>::empty();
        let back = "    "@ + quoted(crate::config::keys::MENU_ACTIONS[n - 1]@) + ": "@
            + desc(t[n - 1]) + end;
        assert(all =~= none + init + back);
        lemma_part(none, init, back);
        lemma_part_of_part(all, init, want);
    }
}

proof fn lemma_text_has_triggers(e: EffectiveConfig, info: LoadInfo, host: HostConfig)
    ensures
        has(effective_text(e, info, host), trigger_lines(e.triggers@, 19)),
{
    let p = lemma_pieces(e, info, host);
    lemma_piece(p, 14);
}

/// The files that are read are those of the configuration directory, then those of the application: in
/// each first `config`, then `config.ghostty`.
pub proof fn lemma_files_that_are_read(
    named: Option<&str>,
    home: Option<&str>,
    support: Option<&str>,
    out: Vec<String>,
    base: Seq<char>,
    own: Seq<char>,
)
    requires
        call_ensures(default_config_files, (named, home, support), out),
        named is Some ==> base == named->0@,
        named is None && home is Some ==> base == pushed(home->0@, ".config"@),
        support is Some ==> own == support->0@,
    ensures
        named is None && home is None && support is None ==> out@.len() == 0,
        named is Some || home is Some ==> out@.len() >= 2 && out@[0]@ == pushed(base, "ghostty/config"@)
            && out@[1]@ == pushed(base, "ghostty/config.ghostty"@),
        support is Some ==> out@.len() >= 2 && out@[out@.len() - 2]@ == pushed(
            own,
            "com.mitchellh.ghostty/config"@,
        ) && out@[out@.len() - 1]@ == pushed(own, "com.mitchellh.ghostty/config.ghostty"@),
        (named is Some || home is Some) && support is Some ==> out@.len() == 4,
{
    let t = texts(out@);
    assert(t.len() == out@.len());
    if out@.len() >= 2 {
        assert(t[0] == out@[0]@);
        assert(t[1] == out@[1]@);
        assert(t[t.len() - 2] == out@[out@.len() - 2]@);
        assert(t[t.len() - 1] == out@[out@.len() - 1]@);
    }
}

/// A layer is written under a name of its own; only a plugin's has the plugin's text.
pub proof fn lemma_layers_have_names(step: LoadStep, text: &str, r: Option<(String, String)>)
    requires
        call_ensures(layer_file, (step, text), r),
    ensures
        r is Some <==> step is WriteHostLayer || step is WriteOdpLayer || step is WritePluginLayer,
        step is WriteHostLayer ==> (r->0).0@ == "host.conf"@ && (r->0).1@ == crate::config::theme::host_layer(),
        step is WriteOdpLayer ==> (r->0).0@ == "odp.conf"@ && (r->0).1@ == odp_layer(),
        step is WritePluginLayer ==> (r->0).0@ == "plugin-theme.conf"@ && (r->0).1@ == text@,
{
}

/// Each process has a directory of its own for its layers.
pub proof fn lemma_directories_differ(temp: &str, pid: u32, other: u32, a: String, b: String)
    requires
        call_ensures(layer_dir, (temp, pid), a),
        call_ensures(layer_dir, (temp, other), b),
    ensures
        a@ == b@ <==> pid == other,
        a@ == pushed(temp@, "ninja-"@ + decimal(pid as nat)),
{
    crate::text::lemma_decimal(pid as nat);
    crate::text::lemma_decimal(other as nat);
    reveal_strlit("ninja-");
    if a@ == b@ {
        let x = "ninja-"@ + decimal(pid as nat);
        let y = "ninja-"@ + decimal(other as nat);
        lemma_behind_the_same(temp@, x, y);
        assert(x.skip("ninja-"@.len() as int) =~= decimal(pid as nat));
        assert(y.skip("ninja-"@.len() as int) =~= decimal(other as nat));
    }
}

proof fn lemma_behind_the_same(base: Seq<char>, x: Seq<char>, y: Seq<char>)
    requires
        pushed(base, x) == pushed(base, y),
        x.len() > 0 && x[0] == y[0] && y.len() > 0,
    ensures
        x == y,
{
    let p = pushed(base, x);
    let q = pushed(base, y);
    let n = p.len() - x.len();
    assert(q.len() - y.len() == n) by {
        reveal_strlit("/");
    }
    assert(p.skip(n) =~= x);
    assert(q.skip(n) =~= y);
}

/// An installed program has its resources beside the directory `MacOS` that it stands in; any other has
/// none there. Those come first where they hold themes; then those that it was built with, where they do.
pub proof fn lemma_where_resources_are(
    dir: Option<&str>,
    contents: Option<&str>,
    r: Option<String>,
    bundle: Option<(String, bool)>,
    baked: &str,
    ok: bool,
    s: Option<String>,
)
    requires
        call_ensures(bundle_resources_dir, (dir, contents), r),
        call_ensures(resolve_resources_dir, (bundle, baked, ok), s),
    ensures
        r is Some <==> dir is Some && dir->0@ == "MacOS"@ && contents is Some,
        r matches Some(p) ==> p@ == pushed(contents->0@, "Resources/ghostty"@),
        bundle is Some && (bundle->0).1 ==> s == Some((bundle->0).0),
        bundle is None || !(bundle->0).1 ==> (s is Some <==> ok && baked@.len() > 0),
        bundle is None || !(bundle->0).1 ==> (s matches Some(p) ==> p@ == baked@),
{
}

/// A change of the files is told once: the same files again are no change.
pub proof fn lemma_change_is_told_once(
    a: &mut WatchState,
    b: &mut WatchState,
    now: Vec<WatchedFile>,
    x: bool,
    y: bool,
)
    requires
        call_ensures(WatchState::changed, (a, now), x),
        call_ensures(WatchState::changed, (b, now), y),
        *final(a) == *old(b),
    ensures
        !y,
        !x <==> old(a).files() == watched_views(now@),
        final(a).files() == watched_views(now@),
{
}

/// What is known of watched files is which they are, in their order, and when each last changed.
pub proof fn lemma_what_is_watched(s: Seq<WatchedFile>, t: Seq<WatchedFile>)
    ensures
        watched_views(s) == watched_views(t) <==> s.len() == t.len() && forall|i: int|
            0 <= i < s.len() ==> (#[trigger] s[i]).path@ == t[i].path@ && s[i].mtime == t[i].mtime,
{
    let a = watched_views(s);
    let b = watched_views(t);
    if a == b {
        assert(a.len() == s.len() && b.len() == t.len());
        assert forall|i: int| 0 <= i < s.len() implies (#[trigger] s[i]).path@ == t[i].path@ && s[i].mtime
            == t[i].mtime by {
            assert(a[i] == b[i]);
        }
    }
    if s.len() == t.len() && forall|i: int|
        0 <= i < s.len() ==> (#[trigger] s[i]).path@ == t[i].path@ && s[i].mtime == t[i].mtime {
        assert(a =~= b);
    }
}

/// Loading goes by what the files say: the default colours are applied just where no file sets a theme,
/// and all the files are watched, with the host's own behind them.
pub proof fn lemma_what_is_loaded(
    files: Vec<String>,
    read: &Vec<String>,
    own: String,
    theme: Option<String>,
    dir: String,
    r: (Vec<LoadStep>, LoadInfo),
)
    requires
        call_ensures(load_pipeline, (files, read, own, theme, dir), r),
    ensures
        r.1.user_theme <==> exists|i: int, k: int|
            0 <= i < read@.len() && 0 <= k < lines(read@[i]@).len() && sets_theme(
                #[trigger] lines(#[trigger] read@[i]@)[k],
            ),
        r.1.odp_applied <==> !r.1.user_theme,
        r.0@.contains(LoadStep::LoadOdpLayer) <==> r.1.odp_applied,
        r.0@.contains(LoadStep::LoadPluginLayer) <==> theme is Some,
        r.1.watched@.len() == files@.len() + 1,
        r.1.watched@.last()@ == own@,
        forall|i: int| 0 <= i < files@.len() ==> (#[trigger] r.1.watched@[i])@ == files@[i]@,
        r.1.plugin_theme == theme && r.1.layer_dir == dir && r.1.diagnostics == 0,
{
    crate::config::files::lemma_load_order(r.1.user_theme, theme is Some);
    let t = texts(read@);
    if crate::config::files::some_text_sets_theme(t) {
        let i = choose|i: int|
            0 <= i < t.len() && crate::config::files::any_sets_theme(lines(#[trigger] t[i]));
        let ls = lines(t[i]);
        let k = choose|k: int| 0 <= k < ls.len() && sets_theme(#[trigger] ls[k]);
        assert(t[i] == read@[i]@);
        assert(sets_theme(lines(read@[i]@)[k]));
    }
    if exists|i: int, k: int|
        0 <= i < read@.len() && 0 <= k < lines(read@[i]@).len() && sets_theme(
            #[trigger] lines(#[trigger] read@[i]@)[k],
        ) {
        let (i, k) = choose|i: int, k: int|
            0 <= i < read@.len() && 0 <= k < lines(read@[i]@).len() && sets_theme(
                #[trigger] lines(#[trigger] read@[i]@)[k],
            );
        assert(t[i] == read@[i]@);
        assert(crate::config::files::any_sets_theme(lines(t[i])));
    }
    let w = texts(r.1.watched@);
    assert(w.len() == r.1.watched@.len());
    assert(w[w.len() - 1] == r.1.watched@[w.len() - 1]@);
    assert forall|i: int| 0 <= i < files@.len() implies (#[trigger] r.1.watched@[i])@ == files@[i]@ by {
        assert(w[i] == r.1.watched@[i]@);
        assert(texts(files@)[i] == files@[i]@);
    }
}

/// The host's own file is the one that is named, else the usual one under the home directory.
pub proof fn lemma_where_the_own_file_is(named: Option<&str>, home: Option<&str>, r: String)
    requires
        call_ensures(crate::config::host::host_config_path, (named, home), r),
    ensures
        named matches Some(p) ==> r@ == p@,
        named is None ==> (home matches Some(h) ==> r@ == pushed(h@, ".config/ninja/ninja.toml"@)),
        named is None && home is None ==> r@ == ".config/ninja/ninja.toml"@,
{
}

/// A file that is not there, or is no TOML, says nothing of plugins.
pub proof fn lemma_nothing_from_nothing(text: Option<&str>, r: HostConfig)
    requires
        call_ensures(crate::config::host::load_host_config, (text,), r),
    ensures
        text is None || crate::config::document::toml_document(text->0@) is None
            ==> r.plugins.enabled@.len() == 0 && r.plugins.paths@.len() == 0 && r.plugins.memory_limit_mb
            is None,
{
    let v = r.plugins.view();
    assert(v.enabled.len() == r.plugins.enabled@.len());
    assert(v.paths.len() == r.plugins.paths@.len());
}

/// The next path to look at is the one that was found last, and only it is taken from those to look at.
pub proof fn lemma_last_found_is_next(c: &mut Collector, r: Option<String>)
    requires
        call_ensures(Collector::next, (c,), r),
    ensures
        r is Some <==> old(c)@.queue.len() > 0,
        r matches Some(p) ==> old(c)@.queue == final(c)@.queue + seq![p@],
        final(c)@.seen == old(c)@.seen && final(c)@.found == old(c)@.found,
{
    if let Some(p) = r {
        assert(old(c)@.queue =~= final(c)@.queue + seq![p@]);
    }
}

/// A file is taken in once, by its real path: the first time it is found, and what it refers to is to be
/// looked at; again, nothing changes.
pub proof fn lemma_taken_in_once(
    a: &mut Collector,
    b: &mut Collector,
    path: String,
    other: String,
    canon: String,
    dir: Option<&str>,
    text: Option<&str>,
)
    requires
        call_ensures(Collector::visit, (a, path, canon, dir, text), ()),
        call_ensures(Collector::visit, (b, other, canon, dir, text), ()),
        *final(a) == *old(b),
    ensures
        final(b)@ == final(a)@,
        final(a)@.seen.contains(canon@),
        !old(a)@.seen.contains(canon@) ==> final(a)@.found == old(a)@.found.push(path@),
        old(a)@.seen.contains(canon@) ==> final(a)@ == old(a)@,
{
    if !old(a)@.seen.contains(canon@) {
        assert(final(a)@.seen[old(a)@.seen.len() as int] == canon@);
    }
}

/// What a file refers to is to be looked at in the order of its lines, each from its directory.
pub proof fn lemma_what_a_file_refers_to(dir: Option<Seq<char>>, text: Seq<char>, i: int)
    requires
        0 <= i < references(lines(text)).len(),
    ensures
        children(dir, Some(text)).len() == references(lines(text)).len(),
        children(dir, Some(text))[i] == resolved(dir, references(lines(text))[i]),
        children(dir, None) == Seq::<Seq<char>>::empty(),
{
}

/// A colour is written as its three parts, and a binding as its text in quotes; what is missing is null.
pub proof fn lemma_parts_are_written(c: (u8, u8, u8), r: String, e: Option<KeyEquivalent>, d: String)
    requires
        call_ensures(crate::config::dump::json_rgb, (c,), r),
        call_ensures(crate::config::dump::equivalent_desc, (e,), d),
    ensures
        r@ == color_array(Some(c)),
        e is None ==> d@ == "null"@,
        e is Some ==> d@ == quoted(plain(e)),
{
}

} // verus!
