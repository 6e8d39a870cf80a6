//! The colours that the theme plugin sets, and what it answers the host.

use vstd::prelude::*;
use vstd::string::*;

use crate::plugins::theme::{all_colors, color_of, theme_layer};
use crate::protocol::{Envelope, HitIgnore, Message, ThemeSet};
use crate::text::{hex_value, same_text};

verus! {

/// The names of the colours that there are.
pub const PALETTE_NAMES: [&'static str; 3] = ["one-light", "solarized-dark", "solarized-light"];

/// The colours that are set where none are named.
pub const DEFAULT_PALETTE: &'static str = "solarized-dark";

/// Background, foreground, cursor, selection and divider.
pub const ONE_LIGHT: [&'static str; 5] = ["#fafafa", "#383a42", "#526fff", "#e5e5e5", "#d7dae0"];

/// The palette.
pub const ONE_LIGHT_ANSI: [&'static str; 16] = [
    "#383a42",
    "#e45649",
    "#50a14f",
    "#c18401",
    "#4078f2",
    "#a626a4",
    "#0184bc",
    "#fafafa",
    "#4f5666",
    "#e06c75",
    "#98c379",
    "#e5c07b",
    "#61afef",
    "#c678dd",
    "#56b6c2",
    "#ffffff",
];

/// Background, foreground, cursor, selection and divider.
pub const SOLARIZED_DARK: [&'static str; 5] = ["#002b36", "#839496", "#93a1a1", "#073642", "#586e75"];

/// The palette.
pub const SOLARIZED_DARK_ANSI: [&'static str; 16] = [
    "#073642",
    "#dc322f",
    "#859900",
    "#b58900",
    "#268bd2",
    "#d33682",
    "#2aa198",
    "#eee8d5",
    "#002b36",
    "#cb4b16",
    "#586e75",
    "#657b83",
    "#839496",
    "#6c71c4",
    "#93a1a1",
    "#fdf6e3",
];

/// Background, foreground, cursor, selection and divider.
pub const SOLARIZED_LIGHT: [&'static str; 5] = ["#fdf6e3", "#657b83", "#586e75", "#eee8d5", "#93a1a1"];

/// The palette.
pub const SOLARIZED_LIGHT_ANSI: [&'static str; 16] = [
    "#eee8d5",
    "#dc322f",
    "#859900",
    "#b58900",
    "#268bd2",
    "#d33682",
    "#2aa198",
    "#002b36",
    "#fdf6e3",
    "#cb4b16",
    "#93a1a1",
    "#657b83",
    "#839496",
    "#6c71c4",
    "#586e75",
    "#002b36",
];

/// The colours are these.
pub open spec fn is_palette(
    t: ThemeSet,
    name: Seq<char>,
    colors: [&'static str; 5],
    alpha: u32,
    ansi: [&'static str; 16],
) -> bool {
    &&& t.name@ == name
    &&& t.bg@ == colors[0]@
    &&& t.fg@ == colors[1]@
    &&& t.cursor@ == colors[2]@
    &&& t.selection_bg@ == colors[3]@
    &&& t.divider@ == colors[4]@
    &&& t.selection_alpha == alpha
    &&& forall|i: int| 0 <= i < 16 ==> (#[trigger] t.ansi[i])@ == ansi[i]@
}

/// Sixteen strings.
fn ansi16(v: &[&'static str; 16]) -> (out: [String; 16])
    ensures
        forall|i: int| 0 <= i < 16 ==> (#[trigger] out[i])@ == v[i]@,
{
    [
        v[0].to_owned(),
        v[1].to_owned(),
        v[2].to_owned(),
        v[3].to_owned(),
        v[4].to_owned(),
        v[5].to_owned(),
        v[6].to_owned(),
        v[7].to_owned(),
        v[8].to_owned(),
        v[9].to_owned(),
        v[10].to_owned(),
        v[11].to_owned(),
        v[12].to_owned(),
        v[13].to_owned(),
        v[14].to_owned(),
        v[15].to_owned(),
    ]
}

fn palette(name: &str, c: &[&'static str; 5], alpha: u32, ansi: &[&'static str; 16]) -> (t: ThemeSet)
    ensures
        is_palette(t, name@, *c, alpha, *ansi),
{
    ThemeSet {
        name: name.to_owned(),
        bg: c[0].to_owned(),
        fg: c[1].to_owned(),
        cursor: c[2].to_owned(),
        selection_bg: c[3].to_owned(),
        selection_alpha: alpha,
        divider: c[4].to_owned(),
        ansi: ansi16(ansi),
    }
}

/// A text that was read as a colour is one.
proof fn lemma_is_color(s: Seq<char>)
    requires
        s.len() == 7,
        s[0] == '#',
        forall|i: int| 1 <= i < 7 ==> hex_value(#[trigger] s[i]) is Some,
    ensures
        color_of(s) is Some,
{
    assert(hex_value(s[1]) is Some && hex_value(s[2]) is Some && hex_value(s[3]) is Some);
    assert(hex_value(s[4]) is Some && hex_value(s[5]) is Some && hex_value(s[6]) is Some);
}

proof fn lemma_all_colors(s: Seq<String>)
    requires
        forall|i: int| 0 <= i < s.len() ==> color_of((#[trigger] s[i])@) is Some,
    ensures
        all_colors(s) is Some,
    decreases s.len(),
{
    if s.len() > 0 {
        let init = s.drop_last();
        assert forall|i: int| 0 <= i < init.len() implies color_of((#[trigger] init[i])@) is Some by {
            assert(s[i] == init[i]);
        }
        lemma_all_colors(init);
        assert(color_of(s[s.len() - 1]@) is Some);
    }
}

proof fn lemma_one_light_colors()
    ensures
        forall|i: int| 0 <= i < 5 ==> color_of(#[trigger] ONE_LIGHT[i]@) is Some,
        forall|i: int| 0 <= i < 16 ==> color_of(#[trigger] ONE_LIGHT_ANSI[i]@) is Some,
{
    reveal_strlit("#fafafa");
    lemma_is_color("#fafafa"@);
    reveal_strlit("#383a42");
    lemma_is_color("#383a42"@);
    reveal_strlit("#526fff");
    lemma_is_color("#526fff"@);
    reveal_strlit("#e5e5e5");
    lemma_is_color("#e5e5e5"@);
    reveal_strlit("#d7dae0");
    lemma_is_color("#d7dae0"@);
    reveal_strlit("#e45649");
    lemma_is_color("#e45649"@);
    reveal_strlit("#50a14f");
    lemma_is_color("#50a14f"@);
    reveal_strlit("#c18401");
    lemma_is_color("#c18401"@);
    reveal_strlit("#4078f2");
    lemma_is_color("#4078f2"@);
    reveal_strlit("#a626a4");
    lemma_is_color("#a626a4"@);
    reveal_strlit("#0184bc");
    lemma_is_color("#0184bc"@);
    reveal_strlit("#4f5666");
    lemma_is_color("#4f5666"@);
    reveal_strlit("#e06c75");
    lemma_is_color("#e06c75"@);
    reveal_strlit("#98c379");
    lemma_is_color("#98c379"@);
    reveal_strlit("#e5c07b");
    lemma_is_color("#e5c07b"@);
    reveal_strlit("#61afef");
    lemma_is_color("#61afef"@);
    reveal_strlit("#c678dd");
    lemma_is_color("#c678dd"@);
    reveal_strlit("#56b6c2");
    lemma_is_color("#56b6c2"@);
    reveal_strlit("#ffffff");
    lemma_is_color("#ffffff"@);
}

proof fn lemma_solarized_dark_colors()
    ensures
        forall|i: int| 0 <= i < 5 ==> color_of(#[trigger] SOLARIZED_DARK[i]@) is Some,
        forall|i: int| 0 <= i < 16 ==> color_of(#[trigger] SOLARIZED_DARK_ANSI[i]@) is Some,
{
    reveal_strlit("#002b36");
    lemma_is_color("#002b36"@);
    reveal_strlit("#839496");
    lemma_is_color("#839496"@);
    reveal_strlit("#93a1a1");
    lemma_is_color("#93a1a1"@);
    reveal_strlit("#073642");
    lemma_is_color("#073642"@);
    reveal_strlit("#586e75");
    lemma_is_color("#586e75"@);
    reveal_strlit("#dc322f");
    lemma_is_color("#dc322f"@);
    reveal_strlit("#859900");
    lemma_is_color("#859900"@);
    reveal_strlit("#b58900");
    lemma_is_color("#b58900"@);
    reveal_strlit("#268bd2");
    lemma_is_color("#268bd2"@);
    reveal_strlit("#d33682");
    lemma_is_color("#d33682"@);
    reveal_strlit("#2aa198");
    lemma_is_color("#2aa198"@);
    reveal_strlit("#eee8d5");
    lemma_is_color("#eee8d5"@);
    reveal_strlit("#cb4b16");
    lemma_is_color("#cb4b16"@);
    reveal_strlit("#657b83");
    lemma_is_color("#657b83"@);
    reveal_strlit("#6c71c4");
    lemma_is_color("#6c71c4"@);
    reveal_strlit("#fdf6e3");
    lemma_is_color("#fdf6e3"@);
}

proof fn lemma_solarized_light_colors()
    ensures
        forall|i: int| 0 <= i < 5 ==> color_of(#[trigger] SOLARIZED_LIGHT[i]@) is Some,
        forall|i: int| 0 <= i < 16 ==> color_of(#[trigger] SOLARIZED_LIGHT_ANSI[i]@) is Some,
{
    reveal_strlit("#fdf6e3");
    lemma_is_color("#fdf6e3"@);
    reveal_strlit("#657b83");
    lemma_is_color("#657b83"@);
    reveal_strlit("#586e75");
    lemma_is_color("#586e75"@);
    reveal_strlit("#eee8d5");
    lemma_is_color("#eee8d5"@);
    reveal_strlit("#93a1a1");
    lemma_is_color("#93a1a1"@);
    reveal_strlit("#dc322f");
    lemma_is_color("#dc322f"@);
    reveal_strlit("#859900");
    lemma_is_color("#859900"@);
    reveal_strlit("#b58900");
    lemma_is_color("#b58900"@);
    reveal_strlit("#268bd2");
    lemma_is_color("#268bd2"@);
    reveal_strlit("#d33682");
    lemma_is_color("#d33682"@);
    reveal_strlit("#2aa198");
    lemma_is_color("#2aa198"@);
    reveal_strlit("#002b36");
    lemma_is_color("#002b36"@);
    reveal_strlit("#cb4b16");
    lemma_is_color("#cb4b16"@);
    reveal_strlit("#839496");
    lemma_is_color("#839496"@);
    reveal_strlit("#6c71c4");
    lemma_is_color("#6c71c4"@);
}

/// Every one of the colours can be set: the host takes them.
pub proof fn lemma_palettes_are_valid(t: ThemeSet, name: Seq<char>)
    requires
        is_palette(t, name, ONE_LIGHT, 0x99, ONE_LIGHT_ANSI) || is_palette(
            t,
            name,
            SOLARIZED_DARK,
            0x66,
            SOLARIZED_DARK_ANSI,
        ) || is_palette(t, name, SOLARIZED_LIGHT, 0x66, SOLARIZED_LIGHT_ANSI),
    ensures
        theme_layer(t) is Some,
        color_of(t.divider@) is Some,
{
    lemma_one_light_colors();
    lemma_solarized_dark_colors();
    lemma_solarized_light_colors();
    assert forall|i: int| 0 <= i < t.ansi@.len() implies color_of((#[trigger] t.ansi@[i])@) is Some by {
        assert(t.ansi[i] == t.ansi@[i]);
    }
    lemma_all_colors(t.ansi@);
}

/// A light theme.
pub fn one_light() -> (t: ThemeSet)
    ensures
        is_palette(t, "one-light"@, ONE_LIGHT, 0x99, ONE_LIGHT_ANSI),
{
    palette("one-light", &ONE_LIGHT, 0x99, &ONE_LIGHT_ANSI)
}

/// A dark theme.
pub fn solarized_dark() -> (t: ThemeSet)
    ensures
        is_palette(t, "solarized-dark"@, SOLARIZED_DARK, 0x66, SOLARIZED_DARK_ANSI),
{
    palette("solarized-dark", &SOLARIZED_DARK, 0x66, &SOLARIZED_DARK_ANSI)
}

/// The same theme in light.
pub fn solarized_light() -> (t: ThemeSet)
    ensures
        is_palette(t, "solarized-light"@, SOLARIZED_LIGHT, 0x66, SOLARIZED_LIGHT_ANSI),
{
    palette("solarized-light", &SOLARIZED_LIGHT, 0x66, &SOLARIZED_LIGHT_ANSI)
}

/// The colours with a name; `None` where there are none.
pub fn palette_by_name(name: &str) -> (r: Option<ThemeSet>)
    ensures
        if name@ == "one-light"@ {
            r matches Some(t) && is_palette(t, name@, ONE_LIGHT, 0x99, ONE_LIGHT_ANSI)
        } else if name@ == "solarized-dark"@ {
            r matches Some(t) && is_palette(t, name@, SOLARIZED_DARK, 0x66, SOLARIZED_DARK_ANSI)
        } else if name@ == "solarized-light"@ {
            r matches Some(t) && is_palette(t, name@, SOLARIZED_LIGHT, 0x66, SOLARIZED_LIGHT_ANSI)
        } else {
            r is None
        },
{
    if same_text(name, "one-light") {
        Some(one_light())
    } else if same_text(name, "solarized-dark") {
        Some(solarized_dark())
    } else if same_text(name, "solarized-light") {
        Some(solarized_light())
    } else {
        None
    }
}

/// The colours to set: those that the command line names, else those that the environment names,
/// else the usual ones.
pub fn chosen_palette(arg: Option<&str>, env: Option<&str>) -> (s: String)
    ensures
        s@ == match (arg, env) {
            (Some(a), _) => a@,
            (None, Some(e)) => e@,
            (None, None) => DEFAULT_PALETTE@,
        },
{
    match (arg, env) {
        (Some(a), _) => a.to_owned(),
        (None, Some(e)) => e.to_owned(),
        (None, None) => DEFAULT_PALETTE.to_owned(),
    }
}

/// What came from the host.
#[derive(Clone, Debug, PartialEq)]
pub enum HostEvent {
    /// The host is gone.
    Closed,
    /// The connection failed, or a frame is too large.
    Broken,
    /// A message of another version of the protocol.
    OtherVersion,
    /// A message that cannot be read.
    Unreadable,
    Message(Message),
}

/// What a message from the host means to the theme plugin. `m` is the message, where it could be
/// read.
pub fn host_event_of(e: Envelope, m: Option<Message>) -> (r: HostEvent)
    ensures
        r == match (e, m) {
            (Envelope::OtherVersion, _) => HostEvent::OtherVersion,
            (Envelope::Known, Some(m)) => HostEvent::Message(m),
            _ => HostEvent::Unreadable,
        },
{
    match e {
        Envelope::OtherVersion => HostEvent::OtherVersion,
        Envelope::UnknownType => HostEvent::Unreadable,
        Envelope::Known => match m {
            Some(m) => HostEvent::Message(m),
            None => HostEvent::Unreadable,
        },
    }
}

/// What the theme plugin does next.
#[derive(Clone, Debug, PartialEq)]
pub enum PluginStep {
    /// It ends with this code.
    Exit(i32),
    /// It waits on.
    Wait,
    /// It answers, and ends well where that cannot be sent.
    Answer(Message),
}

/// What the theme plugin does about what came from the host: it takes no hit, and cares about
/// nothing else; it ends with the host, and at once where the protocol is of another version.
pub fn plugin_step(e: &HostEvent) -> (r: PluginStep)
    ensures
        match *e {
            HostEvent::Closed => r == PluginStep::Exit(0),
            HostEvent::Broken => r == PluginStep::Exit(2),
            HostEvent::OtherVersion => r == PluginStep::Exit(78),
            HostEvent::Unreadable => r == PluginStep::Wait,
            HostEvent::Message(Message::Hit(h)) => r == PluginStep::Answer(
                Message::HitIgnore(HitIgnore { id: h.id }),
            ),
            HostEvent::Message(_) => r == PluginStep::Wait,
        },
{
    match e {
        HostEvent::Closed => PluginStep::Exit(0),
        HostEvent::Broken => PluginStep::Exit(2),
        HostEvent::OtherVersion => PluginStep::Exit(78),
        HostEvent::Unreadable => PluginStep::Wait,
        HostEvent::Message(Message::Hit(h)) => PluginStep::Answer(
            Message::HitIgnore(HitIgnore { id: h.id }),
        ),
        HostEvent::Message(_) => PluginStep::Wait,
    }
}

/// How often the plugin tries to reach the host.
pub const CONNECT_TRIES: u32 = 100;

/// How long it waits after a try that failed, in milliseconds.
pub const CONNECT_WAIT_MS: u64 = 50;

/// What is done when the host could not be reached.
#[derive(Clone, Copy, Debug, PartialEq, Eq, Structural)]
pub enum ConnectStep {
    /// Wait for these milliseconds and try again.
    Wait(u64),
    GiveUp,
}

/// What is done after this many tries to reach the host, all of which failed.
pub fn connect_step(failed: u32) -> (s: ConnectStep)
    ensures
        failed < 100 ==> s == ConnectStep::Wait(50),
        failed >= 100 ==> s == ConnectStep::GiveUp,
{
    if failed < CONNECT_TRIES {
        ConnectStep::Wait(CONNECT_WAIT_MS)
    } else {
        ConnectStep::GiveUp
    }
}

/// There are colours under just three names, and they have the name that was asked for.
pub proof fn lemma_names_of_palettes(name: &str, r: Option<ThemeSet>)
    requires
        call_ensures(palette_by_name, (name,), r),
    ensures
        r is Some <==> name@ == "one-light"@ || name@ == "solarized-dark"@ || name@ == "solarized-light"@,
        r matches Some(t) ==> t.name@ == name@ && theme_layer(t) is Some,
{
    if let Some(t) = r {
        lemma_palettes_are_valid(t, name@);
    }
}

/// What the command line names stands before what the environment names, and that before the usual one.
pub proof fn lemma_which_palette(arg: Option<&str>, env: Option<&str>, r: String)
    requires
        call_ensures(chosen_palette, (arg, env), r),
    ensures
        arg matches Some(a) ==> r@ == a@,
        arg is None ==> (env matches Some(e) ==> r@ == e@),
        arg is None && env is None ==> r@ == DEFAULT_PALETTE@,
{
}

/// A message is one just where its type is known and it can be read; the version is looked at first.
pub proof fn lemma_what_the_host_said(e: Envelope, m: Option<Message>, r: HostEvent)
    requires
        call_ensures(host_event_of, (e, m), r),
    ensures
        r is OtherVersion <==> e is OtherVersion,
        r is Message <==> e is Known && m is Some,
        r matches HostEvent::Message(x) ==> m == Some(x),
        !(r is Closed) && !(r is Broken),
{
}

/// The plugin answers just hits, each under its number and by leaving it alone; it ends well just with
/// the host, and waits on about everything else that keeps to the protocol.
pub proof fn lemma_what_the_plugin_does(e: &HostEvent, r: PluginStep)
    requires
        call_ensures(plugin_step, (e,), r),
    ensures
        r == PluginStep::Exit(0) <==> *e is Closed,
        r == PluginStep::Exit(2) <==> *e is Broken,
        r == PluginStep::Exit(78) <==> *e is OtherVersion,
        r is Answer <==> (*e matches HostEvent::Message(m) && m is Hit),
        *e matches HostEvent::Message(Message::Hit(h)) ==> r == PluginStep::Answer(
            Message::HitIgnore(HitIgnore { id: h.id }),
        ),
        r is Wait <==> *e is Unreadable || (*e matches HostEvent::Message(m) && !(m is Hit)),
{
}

/// The host is tried for a hundred times, with the same wait between each two.
pub proof fn lemma_how_long_the_host_is_tried(failed: u32, s: ConnectStep)
    requires
        call_ensures(connect_step, (failed,), s),
    ensures
        s is GiveUp <==> failed >= 100,
        s matches ConnectStep::Wait(ms) ==> ms == 50,
{
}

} // verus!
