//! The menu, the windows, and the commands that tests give.

use vstd::prelude::*;
use vstd::string::*;

use crate::config::keys::{is_scalar, KeyEquivalent, MENU_ACTIONS};
use crate::keymap::{MASK_ALT, MASK_CMD, MASK_CTRL, MASK_SHIFT};
use crate::text::{begins, chars_of, has_prefix, opt_string, same_text, string_of, trim, trimmed};

verus! {

/// The application's menu. An entry has a title, what it sends, and the terminal's action whose
/// binding it shows.
pub const APP_ITEMS: [(&'static str, &'static str, &'static str); 2] = [
    ("Plugins…", "ninjaPlugins:", "toggle_visibility"),
    ("Quit ninja", "terminate:", "quit"),
];

/// The menu of windows and tabs to open.
pub const FILE_ITEMS: [(&'static str, &'static str, &'static str); 3] = [
    ("New Window", "ninjaActNewWindow:", "new_window"),
    ("New Tab", "ninjaActNewTab:", "new_tab"),
    ("Close", "performClose:", "close_surface"),
];

/// The menu of panes.
pub const PANES_ITEMS: [(&'static str, &'static str, &'static str); 9] = [
    ("Split Right", "ninjaActSplitRight:", "new_split:right"),
    ("Split Down", "ninjaActSplitDown:", "new_split:down"),
    ("Zoom Pane", "ninjaActToggleZoom:", "toggle_split_zoom"),
    ("Focus Pane Left", "ninjaActFocusLeft:", "goto_split:left"),
    ("Focus Pane Right", "ninjaActFocusRight:", "goto_split:right"),
    ("Focus Pane Up", "ninjaActFocusUp:", "goto_split:up"),
    ("Focus Pane Down", "ninjaActFocusDown:", "goto_split:down"),
    ("Previous Pane", "ninjaActPrevPane:", "goto_split:previous"),
    ("Next Pane", "ninjaActNextPane:", "goto_split:next"),
];

/// The menu of tabs to go to.
pub const WINDOW_ITEMS: [(&'static str, &'static str, &'static str); 2] = [
    ("Next Tab", "selectNextTab:", "next_tab"),
    ("Previous Tab", "selectPreviousTab:", "previous_tab"),
];

/// The menu of the clipboard.
pub const EDIT_ITEMS: [(&'static str, &'static str, &'static str); 3] = [
    ("Copy", "copy:", "copy_to_clipboard"),
    ("Paste", "paste:", "paste_from_clipboard"),
    ("Select All", "selectAll:", "select_all"),
];

/// The action's binding is among those that are written out.
pub open spec fn is_menu_action(action: Seq<char>) -> bool {
    exists|i: int| 0 <= i < 19 && #[trigger] MENU_ACTIONS[i]@ == action
}

/// The bindings of all entries of the menu are among those that are written out.
pub proof fn lemma_menu_actions_are_listed(i: int)
    ensures
        0 <= i < 2 ==> is_menu_action(APP_ITEMS[i].2@) && is_menu_action(
            WINDOW_ITEMS[i].2@,
        ),
        0 <= i < 3 ==> is_menu_action(FILE_ITEMS[i].2@) && is_menu_action(EDIT_ITEMS[i].2@),
        0 <= i < 9 ==> is_menu_action(PANES_ITEMS[i].2@),
{
    assert(MENU_ACTIONS[0]@ == "quit"@);
    assert(MENU_ACTIONS[1]@ == "toggle_visibility"@);
    assert(MENU_ACTIONS[2]@ == "new_window"@);
    assert(MENU_ACTIONS[3]@ == "new_tab"@);
    assert(MENU_ACTIONS[4]@ == "close_surface"@);
    assert(MENU_ACTIONS[5]@ == "new_split:right"@);
    assert(MENU_ACTIONS[6]@ == "new_split:down"@);
    assert(MENU_ACTIONS[7]@ == "toggle_split_zoom"@);
    assert(MENU_ACTIONS[8]@ == "goto_split:left"@);
    assert(MENU_ACTIONS[9]@ == "goto_split:right"@);
    assert(MENU_ACTIONS[10]@ == "goto_split:up"@);
    assert(MENU_ACTIONS[11]@ == "goto_split:down"@);
    assert(MENU_ACTIONS[12]@ == "goto_split:previous"@);
    assert(MENU_ACTIONS[13]@ == "goto_split:next"@);
    assert(MENU_ACTIONS[14]@ == "previous_tab"@);
    assert(MENU_ACTIONS[15]@ == "next_tab"@);
    assert(MENU_ACTIONS[16]@ == "copy_to_clipboard"@);
    assert(MENU_ACTIONS[17]@ == "paste_from_clipboard"@);
    assert(MENU_ACTIONS[18]@ == "select_all"@);
}

/// A line of a menu.
#[derive(Clone, Copy, Debug, PartialEq, Eq, Structural)]
pub enum MenuLine {
    Separator,
    /// The entry with this number.
    Item(usize),
}

/// The lines of a menu of `n` entries, with separators before some of them.
pub open spec fn menu_lines(n: int, before: Seq<usize>) -> Seq<MenuLine>
    decreases n,
{
    if n <= 0 {
        Seq::empty()
    } else {
        menu_lines(n - 1, before) + (if before.contains((n - 1) as usize) {
            seq![MenuLine::Separator]
        } else {
            Seq::empty()
        }) + seq![MenuLine::Item((n - 1) as usize)]
    }
}

fn has_number(v: &Vec<usize>, x: usize) -> (r: bool)
    ensures
        r == v@.contains(x),
{
    let mut i: usize = 0;
    while i < v.len()
        invariant
            i <= v@.len(),
            forall|j: int| 0 <= j < i ==> v@[j] != x,
        decreases v@.len() - i,
    {
        if v[i] == x {
            return true;
        }
        i += 1;
    }
    false
}

/// The lines of a menu of `n` entries, with separators before some of them.
pub fn menu_layout(n: usize, before: &Vec<usize>) -> (out: Vec<MenuLine>)
    ensures
        out@ == menu_lines(n as int, before@),
{
    let mut out: Vec<MenuLine> = Vec::new();
    let mut i: usize = 0;
    while i < n
        invariant
            i <= n,
            out@ == menu_lines(i as int, before@),
        decreases n - i,
    {
        if has_number(before, i) {
            out.push(MenuLine::Separator);
        }
        out.push(MenuLine::Item(i));
        i += 1;
        assert(out@ =~= menu_lines(i as int, before@));
    }
    out
}

/// The menu bar: the title of each menu, none for the application's own, and its lines.
pub fn build_menu() -> (out: Vec<(&'static str, Vec<MenuLine>)>)
    ensures
        out@.len() == 5,
        out@[0].0@ == ""@ && out@[0].1@ == menu_lines(2, seq![1usize]),
        out@[1].0@ == "File"@ && out@[1].1@ == menu_lines(3, Seq::empty()),
        out@[2].0@ == "Panes"@ && out@[2].1@ == menu_lines(9, seq![3usize, 7usize]),
        out@[3].0@ == "Window"@ && out@[3].1@ == menu_lines(2, Seq::empty()),
        out@[4].0@ == "Edit"@ && out@[4].1@ == menu_lines(3, Seq::empty()),
{
    let none: Vec<usize> = Vec::new();
    let last: Vec<usize> = vec![1];
    let groups: Vec<usize> = vec![3, 7];
    assert(none@ =~= Seq::<usize>::empty());
    assert(last@ =~= seq![1usize]);
    assert(groups@ =~= seq![3usize, 7usize]);
    let mut out: Vec<(&'static str, Vec<MenuLine>)> = Vec::new();
    out.push(("", menu_layout(2, &last)));
    out.push(("File", menu_layout(3, &none)));
    out.push(("Panes", menu_layout(9, &groups)));
    out.push(("Window", menu_layout(2, &none)));
    out.push(("Edit", menu_layout(3, &none)));
    out
}

/// A menu has each of its entries once, and in order.
pub open spec fn items_of(s: Seq<MenuLine>) -> Seq<usize>
    decreases s.len(),
{
    if s.len() == 0 {
        Seq::empty()
    } else {
        match s.last() {
            MenuLine::Item(i) => items_of(s.drop_last()).push(i),
            MenuLine::Separator => items_of(s.drop_last()),
        }
    }
}

/// A menu has each of its entries once, and in order, wherever the separators are.
pub proof fn lemma_menu_has_every_item(n: int, before: Seq<usize>)
    requires
        0 <= n <= usize::MAX,
    ensures
        items_of(menu_lines(n, before)) == Seq::new(n as nat, |i: int| i as usize),
    decreases n,
{
    if n > 0 {
        lemma_menu_has_every_item(n - 1, before);
        let rest = menu_lines(n - 1, before);
        let all = menu_lines(n, before);
        if before.contains((n - 1) as usize) {
            assert(all.drop_last() =~= rest.push(MenuLine::Separator));
            assert(rest.push(MenuLine::Separator).drop_last() =~= rest);
            assert(items_of(rest.push(MenuLine::Separator)) == items_of(rest));
        } else {
            assert(all.drop_last() =~= rest);
        }
        assert(all.last() == MenuLine::Item((n - 1) as usize));
        assert(items_of(all) == items_of(rest).push((n - 1) as usize));
        assert(items_of(all) =~= Seq::new(n as nat, |i: int| i as usize));
    } else {
        assert(items_of(menu_lines(n, before)) =~= Seq::new(n as nat, |i: int| i as usize));
    }
}

/// The character that an entry of the menu shows, as a text; none where there is no binding or it
/// has no character.
pub fn menu_key(e: Option<KeyEquivalent>) -> (s: String)
    ensures
        match e {
            Some(k) if is_scalar(k.key as u32) => s@ == seq![k.key as u32 as char],
            _ => s@ == Seq::<char>::empty(),
        },
{
    let mut s: String = String::new();
    assert(s@ =~= Seq::<char>::empty());
    if let Some(k) = e {
        if let Some(c) = char::from_u32(k.key as u32) {
            s.push(c);
            assert(s@ =~= seq![c]);
        }
    }
    s
}

/// The mask where it holds.
pub open spec fn mask_if(on: bool, mask: u64) -> u64 {
    if on {
        mask
    } else {
        0
    }
}

/// The modifiers that an entry of the menu shows.
pub fn menu_flags(e: KeyEquivalent) -> (flags: u64)
    ensures
        flags == mask_if(e.cmd, MASK_CMD) | mask_if(e.shift, MASK_SHIFT) | mask_if(e.alt, MASK_ALT)
            | mask_if(e.ctrl, MASK_CTRL),
        flags & 0x0010_0000 != 0 <==> e.cmd,
        flags & 0x0002_0000 != 0 <==> e.shift,
        flags & 0x0008_0000 != 0 <==> e.alt,
        flags & 0x0004_0000 != 0 <==> e.ctrl,
        flags & !0x001e_0000u64 == 0,
{
    let cmd: u64 = if e.cmd {
        MASK_CMD
    } else {
        0
    };
    let shift: u64 = if e.shift {
        MASK_SHIFT
    } else {
        0
    };
    let alt: u64 = if e.alt {
        MASK_ALT
    } else {
        0
    };
    let ctrl: u64 = if e.ctrl {
        MASK_CTRL
    } else {
        0
    };
    let flags: u64 = cmd | shift | alt | ctrl;
    assert((flags & 0x0010_0000 != 0 <==> cmd != 0) && (flags & 0x0002_0000 != 0 <==> shift != 0) && (flags
        & 0x0008_0000 != 0 <==> alt != 0) && (flags & 0x0004_0000 != 0 <==> ctrl != 0) && flags
        & !0x001e_0000u64 == 0) by (bit_vector)
        requires
            flags == cmd | shift | alt | ctrl,
            cmd == 0 || cmd == 0x0010_0000,
            shift == 0 || shift == 0x0002_0000,
            alt == 0 || alt == 0x0008_0000,
            ctrl == 0 || ctrl == 0x0004_0000,
    ;
    flags
}

/// The parts of `s` between the commas.
pub open spec fn comma_parts(s: Seq<char>) -> Seq<Seq<char>>
    decreases s.len(),
{
    if s.len() == 0 {
        seq![s]
    } else {
        let before = comma_parts(s.drop_last());
        if s.last() == ',' {
            before.push(Seq::empty())
        } else {
            before.drop_last().push(before.last().push(s.last()))
        }
    }
}

/// A step that a test has the application take.
#[derive(Clone, Debug, PartialEq)]
pub enum SelfTestStep {
    NewTab,
    Split,
    NewWindow,
    /// Closes the window as the menu does.
    Close,
    ClosePane,
    /// Closes the pane as the terminal's binding does.
    CloseBinding,
    ReloadConfig,
    DumpConfig,
    /// One that is not known.
    Unknown(String),
}

/// A part of a test's text is this step.
pub open spec fn is_step(part: Seq<char>, step: SelfTestStep) -> bool {
    let t = trim(part);
    if t == "tab"@ {
        step is NewTab
    } else if t == "split"@ {
        step is Split
    } else if t == "win"@ {
        step is NewWindow
    } else if t == "close"@ {
        step is Close
    } else if t == "closepane"@ {
        step is ClosePane
    } else if t == "closebinding"@ {
        step is CloseBinding
    } else if t == "reloadcfg"@ {
        step is ReloadConfig
    } else if t == "cfgdump"@ {
        step is DumpConfig
    } else {
        step matches SelfTestStep::Unknown(s) && s@ == t
    }
}

fn step_of(part: &str) -> (r: SelfTestStep)
    ensures
        is_step(part@, r),
{
    let t: String = trimmed(part);
    let s: &str = t.as_str();
    if same_text(s, "tab") {
        SelfTestStep::NewTab
    } else if same_text(s, "split") {
        SelfTestStep::Split
    } else if same_text(s, "win") {
        SelfTestStep::NewWindow
    } else if same_text(s, "close") {
        SelfTestStep::Close
    } else if same_text(s, "closepane") {
        SelfTestStep::ClosePane
    } else if same_text(s, "closebinding") {
        SelfTestStep::CloseBinding
    } else if same_text(s, "reloadcfg") {
        SelfTestStep::ReloadConfig
    } else if same_text(s, "cfgdump") {
        SelfTestStep::DumpConfig
    } else {
        SelfTestStep::Unknown(t)
    }
}

/// The steps that a test has the application take, between commas.
pub fn selftest_steps(text: &str) -> (out: Vec<SelfTestStep>)
    ensures
        out@.len() == comma_parts(text@).len(),
        forall|i: int| 0 <= i < out@.len() ==> is_step(comma_parts(text@)[i], #[trigger] out@[i]),
{
    let v: Vec<char> = chars_of(text);
    let n: usize = v.len();
    let mut out: Vec<SelfTestStep> = Vec::new();
    let mut from: usize = 0;
    let mut i: usize = 0;
    assert(v@.take(0) =~= Seq::<char>::empty());
    assert(v@.subrange(0, 0) =~= Seq::<char>::empty());
    assert(comma_parts(v@.take(0)) =~= seq![v@.subrange(0, 0)]);
    while i < n
        invariant
            from <= i <= n == v@.len(),
            comma_parts(v@.take(i as int)).len() == out@.len() + 1,
            comma_parts(v@.take(i as int)).last() == v@.subrange(from as int, i as int),
            forall|j: int|
                0 <= j < out@.len() ==> is_step(
                    comma_parts(v@.take(i as int))[j],
                    #[trigger] out@[j],
                ),
        decreases n - i,
    {
        let ghost before = comma_parts(v@.take(i as int));
        let ghost was = out@;
        assert(v@.take(i + 1).drop_last() =~= v@.take(i as int));
        assert(v@.take(i + 1).last() == v@[i as int]);
        if v[i] == ',' {
            let part: String = string_of(&v, from, i);
            out.push(step_of(part.as_str()));
            from = i + 1;
            assert(v@.subrange(from as int, i + 1) =~= Seq::<char>::empty());
        } else {
            assert(v@.subrange(from as int, i + 1) =~= v@.subrange(from as int, i as int).push(
                v@[i as int],
            ));
        }
        i += 1;
        assert forall|j: int| 0 <= j < out@.len() implies is_step(
            comma_parts(v@.take(i as int))[j],
            #[trigger] out@[j],
        ) by {
            if j < was.len() {
                assert(out@[j] == was[j]);
                assert(comma_parts(v@.take(i as int))[j] == before[j]);
            }
        }
    }
    assert(v@.take(n as int) =~= v@);
    let part: String = string_of(&v, from, n);
    out.push(step_of(part.as_str()));
    out
}

/// A command that a test gives through a file.
#[derive(Clone, Debug, PartialEq)]
pub enum HookCommand {
    ToggleZoom,
    Zoom,
    Unzoom,
    Split,
    /// An action of the terminal, by its name.
    Bind(String),
    Panel,
    DumpConfig,
    ReloadConfig,
    /// Writes out the panes.
    Dump,
    /// One that is not known.
    Unknown(String),
}

/// The text of a file is this command.
pub open spec fn is_command(t: Seq<char>, c: HookCommand) -> bool {
    if t == "toggle"@ {
        c is ToggleZoom
    } else if t == "zoom"@ {
        c is Zoom
    } else if t == "unzoom"@ || t == "restore"@ {
        c is Unzoom
    } else if t == "split"@ {
        c is Split
    } else if begins(t, "bindact:"@) {
        c matches HookCommand::Bind(s) && s@ == t.skip(8)
    } else if t == "panel"@ {
        c is Panel
    } else if t == "cfgdump"@ {
        c is DumpConfig
    } else if t == "reloadcfg"@ {
        c is ReloadConfig
    } else if begins(t, "dump"@) {
        c is Dump
    } else {
        c matches HookCommand::Unknown(s) && s@ == t
    }
}

fn command_of(t: &str) -> (c: HookCommand)
    ensures
        is_command(t@, c),
{
    if same_text(t, "toggle") {
        HookCommand::ToggleZoom
    } else if same_text(t, "zoom") {
        HookCommand::Zoom
    } else if same_text(t, "unzoom") || same_text(t, "restore") {
        HookCommand::Unzoom
    } else if same_text(t, "split") {
        HookCommand::Split
    } else if has_prefix(t, "bindact:") {
        proof {
            reveal_strlit("bindact:");
        }
        let n: usize = t.unicode_len();
        let name: &str = t.substring_char(8, n);
        assert(name@ =~= t@.skip(8));
        HookCommand::Bind(name.to_owned())
    } else if same_text(t, "panel") {
        HookCommand::Panel
    } else if same_text(t, "cfgdump") {
        HookCommand::DumpConfig
    } else if same_text(t, "reloadcfg") {
        HookCommand::ReloadConfig
    } else if has_prefix(t, "dump") {
        HookCommand::Dump
    } else {
        HookCommand::Unknown(t.to_owned())
    }
}

/// The command in a file's text, if it is a new one: a text that is empty, or the same as the last
/// time, gives none.
pub fn zoom_tick(last: &mut Option<String>, raw: &str) -> (r: Option<HookCommand>)
    ensures
        if trim(raw@).len() == 0 || opt_string(*old(last)) == Some(trim(raw@)) {
            r is None && *final(last) == *old(last)
        } else {
            &&& r matches Some(c)
            &&& is_command(trim(raw@), c)
            &&& opt_string(*final(last)) == Some(trim(raw@))
        },
{
    let t: String = trimmed(raw);
    if t.as_str().is_empty() {
        return None;
    }
    let same: bool = match &*last {
        Some(s) => same_text(s.as_str(), t.as_str()),
        None => false,
    };
    if same {
        return None;
    }
    let c: HookCommand = command_of(t.as_str());
    *last = Some(t);
    Some(c)
}

/// The windows that are kept: a window that closes is let go only afterwards.
pub struct Windows {
    open: Vec<u64>,
    closing: Vec<u64>,
    scheduled: bool,
}

/// The windows that are not among those that closed.
pub open spec fn still_open(s: Seq<u64>, closing: Seq<u64>) -> Seq<u64>
    decreases s.len(),
{
    if s.len() == 0 {
        s
    } else if closing.contains(s.last()) {
        still_open(s.drop_last(), closing)
    } else {
        still_open(s.drop_last(), closing).push(s.last())
    }
}

impl Windows {
    /// The windows that are kept.
    pub closed spec fn open(self) -> Seq<u64> {
        self.open@
    }

    /// Those of them that closed.
    pub closed spec fn closing(self) -> Seq<u64> {
        self.closing@
    }

    /// They are about to be let go.
    pub closed spec fn scheduled(self) -> bool {
        self.scheduled
    }

    /// No windows.
    pub fn new() -> (w: Windows)
        ensures
            w.open() == Seq::<u64>::empty(),
            w.closing() == Seq::<u64>::empty(),
            !w.scheduled(),
    {
        Windows { open: Vec::new(), closing: Vec::new(), scheduled: false }
    }

    /// Keeps a window.
    pub fn register_window(&mut self, w: u64)
        ensures
            final(self).open() == old(self).open().push(w),
            final(self).closing() == old(self).closing(),
            final(self).scheduled() == old(self).scheduled(),
    {
        self.open.push(w);
    }

    /// A window closed. Whether letting it go is to be set for the next moment, which it is not where
    /// it is set already.
    pub fn schedule_release(&mut self, w: u64) -> (r: bool)
        ensures
            r == !old(self).scheduled(),
            final(self).scheduled(),
            final(self).open() == old(self).open(),
            final(self).closing() == old(self).closing().push(w),
    {
        self.closing.push(w);
        let first: bool = !self.scheduled;
        self.scheduled = true;
        first
    }

    /// Lets the windows go that closed.
    pub fn prune_closed(&mut self)
        ensures
            !final(self).scheduled(),
            final(self).closing() == Seq::<u64>::empty(),
            final(self).open() == still_open(old(self).open(), old(self).closing()),
    {
        self.scheduled = false;
        let mut closing: Vec<u64> = Vec::new();
        std::mem::swap(&mut self.closing, &mut closing);
        let ghost was = self.open@;
        let mut kept: Vec<u64> = Vec::new();
        let mut i: usize = 0;
        assert(was.take(0) =~= Seq::<u64>::empty());
        while i < self.open.len()
            invariant
                i <= self.open@.len(),
                was == self.open@,
                !self.scheduled,
                self.closing@ == Seq::<u64>::empty(),
                kept@ == still_open(was.take(i as int), closing@),
            decreases self.open@.len() - i,
        {
            assert(was.take(i + 1).drop_last() =~= was.take(i as int));
            if !has_window(&closing, self.open[i]) {
                kept.push(self.open[i]);
            }
            i += 1;
        }
        assert(was.take(i as int) =~= was);
        self.open = kept;
    }
}

fn has_window(v: &Vec<u64>, x: u64) -> (r: bool)
    ensures
        r == v@.contains(x),
{
    let mut i: usize = 0;
    while i < v.len()
        invariant
            i <= v@.len(),
            forall|j: int| 0 <= j < i ==> v@[j] != x,
        decreases v@.len() - i,
    {
        if v[i] == x {
            return true;
        }
        i += 1;
    }
    false
}

/// A separator stands before an entry just where one is asked for there, and never at the end.
pub proof fn lemma_where_separators_stand(n: int, before: Seq<usize>, k: int)
    requires
        0 <= n <= usize::MAX,
        0 <= k < menu_lines(n, before).len(),
    ensures
        menu_lines(n, before)[k] is Separator ==> k + 1 < menu_lines(n, before).len() && (menu_lines(
            n,
            before,
        )[k + 1] matches MenuLine::Item(i) && before.contains(i)),
        menu_lines(n, before)[k] matches MenuLine::Item(i) ==> (before.contains(i) <==> k > 0
            && menu_lines(n, before)[k - 1] is Separator),
    decreases n,
{
    if n > 0 {
        let rest = menu_lines(n - 1, before);
        let all = menu_lines(n, before);
        if k < rest.len() {
            lemma_where_separators_stand(n - 1, before, k);
            assert(all[k] == rest[k]);
            if k > 0 {
                assert(all[k - 1] == rest[k - 1]);
            }
            if k + 1 < rest.len() {
                assert(all[k + 1] == rest[k + 1]);
            }
        } else if rest.len() > 0 {
            lemma_where_separators_stand(n - 1, before, rest.len() - 1);
            assert(all[rest.len() - 1] == rest[rest.len() - 1]);
        }
    }
}

/// A comma parts a text: what stands before it and what stands behind it have their own parts; without a
/// comma there is one part.
pub proof fn lemma_parts_between_commas(a: Seq<char>, b: Seq<char>)
    ensures
        comma_parts(a + seq![','] + b) == comma_parts(a) + comma_parts(b),
        !a.contains(',') ==> comma_parts(a) == seq![a],
        comma_parts(a).len() > 0,
    decreases a.len() + b.len(),
{
    let s = a + seq![','] + b;
    if a.len() > 0 {
        let c = a.drop_last();
        lemma_parts_between_commas(c, Seq::empty());
        if !a.contains(',') {
            assert(a.last() != ',') by {
                if a.last() == ',' {
                    assert(a[a.len() - 1] == ',');
                }
            }
            assert(!c.contains(',')) by {
                if c.contains(',') {
                    assert(a[c.index_of(',')] == ',');
                }
            }
            assert(c.push(a.last()) =~= a);
            assert(comma_parts(a) =~= seq![a]);
        }
    } else {
        assert(comma_parts(a) =~= seq![a]);
    }
    if b.len() > 0 {
        let d = b.drop_last();
        lemma_parts_between_commas(a, d);
        assert(s.drop_last() =~= a + seq![','] + d);
        assert(s.last() == b.last());
        let x = comma_parts(a);
        let y = comma_parts(d);
        lemma_some_part(d);
        assert(comma_parts(s) =~= x + comma_parts(b));
    } else {
        assert(s.drop_last() =~= a);
        assert(s.last() == ',');
        assert(b =~= Seq::<char>::empty());
        assert(comma_parts(b) =~= seq![Seq::<char>::empty()]);
        assert(comma_parts(s) =~= comma_parts(a) + comma_parts(b));
    }
}

proof fn lemma_some_part(s: Seq<char>)
    ensures
        comma_parts(s).len() > 0,
    decreases s.len(),
{
    if s.len() > 0 {
        lemma_some_part(s.drop_last());
    }
}

/// A step is told by its word, with any white space around it, and by no other; what is no word of a step
/// is kept as it stands.
pub proof fn lemma_words_of_steps(part: Seq<char>, step: SelfTestStep)
    requires
        is_step(part, step),
    ensures
        step is NewTab <==> trim(part) == "tab"@,
        step is Split <==> trim(part) == "split"@,
        step is NewWindow <==> trim(part) == "win"@,
        step is Close <==> trim(part) == "close"@,
        step is ClosePane <==> trim(part) == "closepane"@,
        step is CloseBinding <==> trim(part) == "closebinding"@,
        step is ReloadConfig <==> trim(part) == "reloadcfg"@,
        step is DumpConfig <==> trim(part) == "cfgdump"@,
        step matches SelfTestStep::Unknown(s) ==> s@ == trim(part),
{
    lemma_step_words();
}

proof fn lemma_step_words()
    ensures
        "tab"@ != "split"@,
        "tab"@ != "win"@,
        "tab"@ != "close"@,
        "tab"@ != "closepane"@,
        "tab"@ != "closebinding"@,
        "tab"@ != "reloadcfg"@,
        "tab"@ != "cfgdump"@,
        "split"@ != "win"@,
        "split"@ != "close"@,
        "split"@ != "closepane"@,
        "split"@ != "closebinding"@,
        "split"@ != "reloadcfg"@,
        "split"@ != "cfgdump"@,
        "win"@ != "close"@,
        "win"@ != "closepane"@,
        "win"@ != "closebinding"@,
        "win"@ != "reloadcfg"@,
        "win"@ != "cfgdump"@,
        "close"@ != "closepane"@,
        "close"@ != "closebinding"@,
        "close"@ != "reloadcfg"@,
        "close"@ != "cfgdump"@,
        "closepane"@ != "closebinding"@,
        "closepane"@ != "reloadcfg"@,
        "closepane"@ != "cfgdump"@,
        "closebinding"@ != "reloadcfg"@,
        "closebinding"@ != "cfgdump"@,
        "reloadcfg"@ != "cfgdump"@,
{
    reveal_strlit("tab");
    reveal_strlit("split");
    reveal_strlit("win");
    reveal_strlit("close");
    reveal_strlit("closepane");
    reveal_strlit("closebinding");
    reveal_strlit("reloadcfg");
    reveal_strlit("cfgdump");
    assert("tab"@.len() != "split"@.len());
    assert("tab"@[0] != "win"@[0]);
    assert("tab"@.len() != "close"@.len());
    assert("tab"@.len() != "closepane"@.len());
    assert("tab"@.len() != "closebinding"@.len());
    assert("tab"@.len() != "reloadcfg"@.len());
    assert("tab"@.len() != "cfgdump"@.len());
    assert("split"@.len() != "win"@.len());
    assert("split"@[0] != "close"@[0]);
    assert("split"@.len() != "closepane"@.len());
    assert("split"@.len() != "closebinding"@.len());
    assert("split"@.len() != "reloadcfg"@.len());
    assert("split"@.len() != "cfgdump"@.len());
    assert("win"@.len() != "close"@.len());
    assert("win"@.len() != "closepane"@.len());
    assert("win"@.len() != "closebinding"@.len());
    assert("win"@.len() != "reloadcfg"@.len());
    assert("win"@.len() != "cfgdump"@.len());
    assert("close"@.len() != "closepane"@.len());
    assert("close"@.len() != "closebinding"@.len());
    assert("close"@.len() != "reloadcfg"@.len());
    assert("close"@.len() != "cfgdump"@.len());
    assert("closepane"@.len() != "closebinding"@.len());
    assert("closepane"@[0] != "reloadcfg"@[0]);
    assert("closepane"@.len() != "cfgdump"@.len());
    assert("closebinding"@.len() != "reloadcfg"@.len());
    assert("closebinding"@.len() != "cfgdump"@.len());
    assert("reloadcfg"@.len() != "cfgdump"@.len());
}

/// A command is told by its word, and by no other; what begins with `bindact:` binds what stands behind
/// it, what begins with `dump` writes out the panes, and anything else is kept as it stands.
pub proof fn lemma_words_of_commands(t: Seq<char>, c: HookCommand, name: Seq<char>)
    requires
        is_command(t, c),
    ensures
        c is ToggleZoom <==> t == "toggle"@,
        c is Zoom <==> t == "zoom"@,
        c is Unzoom <==> t == "unzoom"@ || t == "restore"@,
        c is Split <==> t == "split"@,
        c is Panel <==> t == "panel"@,
        c is DumpConfig <==> t == "cfgdump"@,
        c is ReloadConfig <==> t == "reloadcfg"@,
        t == "bindact:"@ + name ==> (c matches HookCommand::Bind(s) && s@ == name),
        c matches HookCommand::Bind(s) ==> t == "bindact:"@ + s@,
        t == "dump"@ + name ==> c is Dump,
        c is Dump ==> "dump"@.is_prefix_of(t),
        c matches HookCommand::Unknown(s) ==> s@ == t,
{
    lemma_command_words();
    lemma_begins_with_bind(t, name);
    lemma_begins_with_dump(t, name);
}

proof fn lemma_begins_with_bind(t: Seq<char>, name: Seq<char>)
    ensures
        t == "bindact:"@ + name ==> begins(t, "bindact:"@) && t.skip(8) == name,
        begins(t, "bindact:"@) ==> t == "bindact:"@ + t.skip(8),
        begins(t, "bindact:"@) ==> t[0] == 'b',
{
    reveal_strlit("bindact:");
    if t == "bindact:"@ + name {
        assert(t.take(8) =~= "bindact:"@);
        assert(t.skip(8) =~= name);
    }
    if begins(t, "bindact:"@) {
        assert(t.take(8)[0] == 'b');
        assert(t =~= t.take(8) + t.skip(8));
    }
}

proof fn lemma_begins_with_dump(t: Seq<char>, name: Seq<char>)
    ensures
        t == "dump"@ + name ==> begins(t, "dump"@),
        begins(t, "dump"@) ==> "dump"@.is_prefix_of(t) && t[0] == 'd',
{
    reveal_strlit("dump");
    if t == "dump"@ + name {
        assert(t.take(4) =~= "dump"@);
    }
    if begins(t, "dump"@) {
        assert(t.take(4)[0] == 'd');
        assert("dump"@.is_prefix_of(t));
    }
}

proof fn lemma_command_words()
    ensures
        "toggle"@[0] != 'b' && "toggle"@[0] != 'd',
        "toggle"@ != "zoom"@,
        "toggle"@ != "unzoom"@,
        "toggle"@ != "restore"@,
        "toggle"@ != "split"@,
        "toggle"@ != "panel"@,
        "toggle"@ != "cfgdump"@,
        "toggle"@ != "reloadcfg"@,
        "zoom"@[0] != 'b' && "zoom"@[0] != 'd',
        "zoom"@ != "unzoom"@,
        "zoom"@ != "restore"@,
        "zoom"@ != "split"@,
        "zoom"@ != "panel"@,
        "zoom"@ != "cfgdump"@,
        "zoom"@ != "reloadcfg"@,
        "unzoom"@[0] != 'b' && "unzoom"@[0] != 'd',
        "unzoom"@ != "restore"@,
        "unzoom"@ != "split"@,
        "unzoom"@ != "panel"@,
        "unzoom"@ != "cfgdump"@,
        "unzoom"@ != "reloadcfg"@,
        "restore"@[0] != 'b' && "restore"@[0] != 'd',
        "restore"@ != "split"@,
        "restore"@ != "panel"@,
        "restore"@ != "cfgdump"@,
        "restore"@ != "reloadcfg"@,
        "split"@[0] != 'b' && "split"@[0] != 'd',
        "split"@ != "panel"@,
        "split"@ != "cfgdump"@,
        "split"@ != "reloadcfg"@,
        "panel"@[0] != 'b' && "panel"@[0] != 'd',
        "panel"@ != "cfgdump"@,
        "panel"@ != "reloadcfg"@,
        "cfgdump"@[0] != 'b' && "cfgdump"@[0] != 'd',
        "cfgdump"@ != "reloadcfg"@,
        "reloadcfg"@[0] != 'b' && "reloadcfg"@[0] != 'd',
{
    reveal_strlit("toggle");
    reveal_strlit("zoom");
    reveal_strlit("unzoom");
    reveal_strlit("restore");
    reveal_strlit("split");
    reveal_strlit("panel");
    reveal_strlit("cfgdump");
    reveal_strlit("reloadcfg");
    assert("toggle"@.len() != "zoom"@.len());
    assert("toggle"@[0] != "unzoom"@[0]);
    assert("toggle"@.len() != "restore"@.len());
    assert("toggle"@.len() != "split"@.len());
    assert("toggle"@.len() != "panel"@.len());
    assert("toggle"@.len() != "cfgdump"@.len());
    assert("toggle"@.len() != "reloadcfg"@.len());
    assert("zoom"@.len() != "unzoom"@.len());
    assert("zoom"@.len() != "restore"@.len());
    assert("zoom"@.len() != "split"@.len());
    assert("zoom"@.len() != "panel"@.len());
    assert("zoom"@.len() != "cfgdump"@.len());
    assert("zoom"@.len() != "reloadcfg"@.len());
    assert("unzoom"@.len() != "restore"@.len());
    assert("unzoom"@.len() != "split"@.len());
    assert("unzoom"@.len() != "panel"@.len());
    assert("unzoom"@.len() != "cfgdump"@.len());
    assert("unzoom"@.len() != "reloadcfg"@.len());
    assert("restore"@.len() != "split"@.len());
    assert("restore"@.len() != "panel"@.len());
    assert("restore"@[0] != "cfgdump"@[0]);
    assert("restore"@.len() != "reloadcfg"@.len());
    assert("split"@[0] != "panel"@[0]);
    assert("split"@.len() != "cfgdump"@.len());
    assert("split"@.len() != "reloadcfg"@.len());
    assert("panel"@.len() != "cfgdump"@.len());
    assert("panel"@.len() != "reloadcfg"@.len());
    assert("cfgdump"@.len() != "reloadcfg"@.len());
}

/// A window stays just where it is not among those that closed, and in its place.
pub proof fn lemma_which_windows_stay(
    a: Seq<u64>,
    x: u64,
    b: Seq<u64>,
    closing: Seq<u64>,
)
    ensures
        !closing.contains(x) ==> still_open(a + seq![x] + b, closing) == still_open(a, closing) + seq![x] + still_open(b, closing),
        !(!closing.contains(x)) ==> still_open(a + seq![x] + b, closing) == still_open(a, closing) + still_open(b, closing),
        still_open(Seq::empty(), closing) == Seq::<u64>::empty(),
    decreases b.len(),
{
    let none = Seq::<u64>::empty();
    let f = still_open(a, closing);
    if b.len() == 0 {
        assert(b =~= none);
        assert(a + seq![x] + b =~= a.push(x));
        assert(a.push(x).drop_last() =~= a);
        assert(still_open(none, closing) =~= Seq::<u64>::empty());
        assert(f + Seq::<u64>::empty() =~= f);
        assert(f + seq![x] + Seq::<u64>::empty() =~= f.push(x));
    } else {
        let c = b.drop_last();
        lemma_which_windows_stay(a, x, c, closing);
        assert((a + seq![x] + b).drop_last() =~= a + seq![x] + c);
        assert((a + seq![x] + b).last() == b.last());
        assert(still_open(a + seq![x] + b, closing) =~= if !closing.contains(x) {
            f + seq![x] + still_open(b, closing)
        } else {
            f + still_open(b, closing)
        });
    }
}

/// An entry shows the character of its binding, where there is one that is a character, and nothing else.
pub proof fn lemma_entry_shows_its_key(e: Option<KeyEquivalent>, r: String)
    requires
        call_ensures(menu_key, (e,), r),
    ensures
        r@.len() <= 1,
        e is None ==> r@.len() == 0,
        e matches Some(k) ==> (r@.len() == 1 <==> k.key < 0xd800 || k.key > 0xdfff),
        r@.len() == 1 ==> r@[0] as u32 == e->0.key,
{
}

/// A command is taken once: a text that is blank or the same as the last one gives none and changes
/// nothing; any other is noted and is a command.
pub proof fn lemma_command_is_taken_once(last: &mut Option<String>, raw: &str, r: Option<HookCommand>)
    requires
        call_ensures(zoom_tick, (last, raw), r),
    ensures
        r is None ==> *final(last) == *old(last),
        r is None <==> trim(raw@).len() == 0 || (*old(last) is Some && old(last)->0@ == trim(raw@)),
        r is Some ==> *final(last) is Some && final(last)->0@ == trim(raw@) && is_command(trim(raw@), r->0),
{
}

} // verus!
