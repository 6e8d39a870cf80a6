//! A program that puts one terminal into a window, tries out what it can do, and reports.

use vstd::prelude::*;
use vstd::string::*;

use crate::config::files::{lines, split_lines};
use crate::config::laws::{
    has, lemma_one_more, lemma_part, lemma_part_of_part, lemma_piece, put_together,
};
use crate::text::{
    contains_text, decimal, decimal_of, holds, number, opt_string, parse_number, same_text, texts,
    trim, trim_end, trimmed, trimmed_end,
};

verus! {

/// What is tried out, in order.
#[derive(Clone, Copy, Debug, PartialEq, Eq, Structural)]
pub enum TimelineStep {
    SurfaceInfo,
    TypeCommand,
    ReadViewport,
    ReadRegion,
    HoverLink,
    CheckHover,
    ShotTerminal,
    AddOverlay,
    ShotOverlay,
    ChangeConfig,
    CheckConfig,
    CheckKeys,
    Report,
}

/// When the steps are taken, in milliseconds from the start.
pub const STEP_TIMES_MS: [u64; 13] = [
    400,
    800,
    1800,
    2300,
    2800,
    3400,
    3600,
    4100,
    4700,
    5200,
    6400,
    6600,
    7200,
];

/// When the program gives up, in milliseconds from the start.
pub const WATCHDOG_MS: u64 = 20000;

/// The step with a number.
pub open spec fn step_number(n: u32) -> TimelineStep {
    if n == 0 {
        TimelineStep::SurfaceInfo
    } else if n == 1 {
        TimelineStep::TypeCommand
    } else if n == 2 {
        TimelineStep::ReadViewport
    } else if n == 3 {
        TimelineStep::ReadRegion
    } else if n == 4 {
        TimelineStep::HoverLink
    } else if n == 5 {
        TimelineStep::CheckHover
    } else if n == 6 {
        TimelineStep::ShotTerminal
    } else if n == 7 {
        TimelineStep::AddOverlay
    } else if n == 8 {
        TimelineStep::ShotOverlay
    } else if n == 9 {
        TimelineStep::ChangeConfig
    } else if n == 10 {
        TimelineStep::CheckConfig
    } else if n == 11 {
        TimelineStep::CheckKeys
    } else {
        TimelineStep::Report
    }
}

fn step_of(n: u32) -> (s: TimelineStep)
    ensures
        s == step_number(n),
{
    if n == 0 {
        TimelineStep::SurfaceInfo
    } else if n == 1 {
        TimelineStep::TypeCommand
    } else if n == 2 {
        TimelineStep::ReadViewport
    } else if n == 3 {
        TimelineStep::ReadRegion
    } else if n == 4 {
        TimelineStep::HoverLink
    } else if n == 5 {
        TimelineStep::CheckHover
    } else if n == 6 {
        TimelineStep::ShotTerminal
    } else if n == 7 {
        TimelineStep::AddOverlay
    } else if n == 8 {
        TimelineStep::ShotOverlay
    } else if n == 9 {
        TimelineStep::ChangeConfig
    } else if n == 10 {
        TimelineStep::CheckConfig
    } else if n == 11 {
        TimelineStep::CheckKeys
    } else {
        TimelineStep::Report
    }
}

/// What is done at a moment.
#[derive(Clone, Copy, Debug, PartialEq, Eq, Structural)]
pub enum Tick {
    /// Nothing yet.
    Wait,
    Step(TimelineStep),
    /// The program gives up.
    Watchdog,
}

/// What is done at a moment, after the steps below `step` were taken.
pub open spec fn tick_at(step: u32, millis: u64) -> Tick {
    if step >= 13 {
        Tick::Wait
    } else if millis > STEP_TIMES_MS[step as int] {
        Tick::Step(step_number(step))
    } else if millis > WATCHDOG_MS {
        Tick::Watchdog
    } else {
        Tick::Wait
    }
}

/// An action of the terminal that is looked at.
#[derive(Clone, Debug, PartialEq)]
pub enum EmbedAction {
    MouseOverLink(String),
    CellSize(u32, u32),
    /// The least and the greatest size.
    SizeLimit(u32, u32, u32, u32),
    ConfigChange,
    KeySequence(bool),
    KeyTable,
    Pwd(String),
    SetTitle(String),
    /// The address and what kind it is.
    OpenUrl(String, u32),
    /// The mouse has another shape; whether it points.
    MouseShape(bool),
    Other,
}

/// What came of trying something out.
#[derive(Clone, Debug, PartialEq)]
pub struct CheckResult {
    pub name: String,
    pub ok: bool,
    pub detail: String,
}

/// What was seen so far.
pub struct Demo {
    over_link_url: Option<String>,
    cell_size: Option<(u32, u32)>,
    size_limit: Option<String>,
    config_changes: u32,
    key_sequences: u32,
    key_tables: u32,
    pwd: Option<String>,
    title: Option<String>,
    open_url: Option<String>,
    step: u32,
    results: Vec<CheckResult>,
    screen_note: String,
}

/// What was seen so far.
#[verifier::ext_equal]
pub struct DemoView {
    pub over_link_url: Option<Seq<char>>,
    pub cell_size: Option<(u32, u32)>,
    pub size_limit: Option<Seq<char>>,
    pub config_changes: u32,
    pub key_sequences: u32,
    pub key_tables: u32,
    pub pwd: Option<Seq<char>>,
    pub title: Option<Seq<char>>,
    pub open_url: Option<Seq<char>>,
    /// The number of the next step.
    pub step: u32,
    pub results: Seq<CheckResult>,
    pub screen_note: Seq<char>,
}

/// A size limit as text.
pub open spec fn limit_text(a: u32, b: u32, c: u32, d: u32) -> Seq<char> {
    "min "@ + decimal(a as nat) + "x"@ + decimal(b as nat) + " max "@ + decimal(c as nat) + "x"@
        + decimal(d as nat)
}

/// What is seen after an action.
pub open spec fn after_action(d: DemoView, a: EmbedAction) -> DemoView {
    match a {
        EmbedAction::MouseOverLink(u) => if u@.len() > 0 {
            DemoView { over_link_url: Some(u@), ..d }
        } else {
            d
        },
        EmbedAction::CellSize(w, h) => DemoView { cell_size: Some((w, h)), ..d },
        EmbedAction::SizeLimit(a, b, c, e) => DemoView { size_limit: Some(limit_text(a, b, c, e)), ..d },
        EmbedAction::ConfigChange => DemoView { config_changes: (d.config_changes + 1) as u32, ..d },
        EmbedAction::KeySequence(_) => DemoView { key_sequences: (d.key_sequences + 1) as u32, ..d },
        EmbedAction::KeyTable => DemoView { key_tables: (d.key_tables + 1) as u32, ..d },
        EmbedAction::Pwd(p) => DemoView { pwd: Some(p@), ..d },
        EmbedAction::SetTitle(t) => DemoView { title: Some(t@), ..d },
        EmbedAction::OpenUrl(u, _) => DemoView { open_url: Some(u@), ..d },
        EmbedAction::MouseShape(_) => d,
        EmbedAction::Other => d,
    }
}

/// What is written down about an action, if anything.
pub open spec fn action_note(a: EmbedAction) -> Option<Seq<char>> {
    match a {
        EmbedAction::MouseOverLink(u) => if u@.len() > 0 {
            Some("action MOUSE_OVER_LINK url="@ + u@)
        } else {
            None
        },
        EmbedAction::CellSize(w, h) => Some(
            "action CELL_SIZE "@ + decimal(w as nat) + "x"@ + decimal(h as nat) + "px"@,
        ),
        EmbedAction::SizeLimit(a, b, c, d) => Some("action SIZE_LIMIT "@ + limit_text(a, b, c, d)),
        EmbedAction::ConfigChange => Some("action CONFIG_CHANGE"@),
        EmbedAction::KeySequence(on) => Some(
            "action KEY_SEQUENCE active="@ + if on {
                "true"@
            } else {
                "false"@
            },
        ),
        EmbedAction::KeyTable => Some("action KEY_TABLE"@),
        EmbedAction::Pwd(p) => Some("action PWD "@ + p@),
        EmbedAction::SetTitle(t) => Some("action SET_TITLE "@ + t@),
        EmbedAction::OpenUrl(u, kind) => Some(
            "action OPEN_URL kind="@ + decimal(kind as nat) + " url="@ + u@,
        ),
        EmbedAction::MouseShape(points) => if points {
            Some("action MOUSE_SHAPE pointer（linkAtPos 命中链接）"@)
        } else {
            None
        },
        EmbedAction::Other => None,
    }
}

/// A verdict.
pub open spec fn verdict(ok: bool) -> Seq<char> {
    if ok {
        "PASS"@
    } else {
        "FAIL"@
    }
}

fn verdict_of(ok: bool) -> (s: &'static str)
    ensures
        s@ == verdict(ok),
{
    if ok {
        "PASS"
    } else {
        "FAIL"
    }
}

/// Everything that was tried out came out well.
pub open spec fn all_ok(s: Seq<CheckResult>) -> bool {
    forall|i: int| 0 <= i < s.len() ==> (#[trigger] s[i]).ok
}

/// A line of the report where there is something to report.
pub open spec fn line_if(head: Seq<char>, s: Option<Seq<char>>, tail: Seq<char>) -> Seq<char> {
    match s {
        Some(t) => head + t + tail,
        None => Seq::empty(),
    }
}

/// What came of the things that were tried out, one on a line.
pub open spec fn result_lines(s: Seq<CheckResult>) -> Seq<char>
    decreases s.len(),
{
    if s.len() == 0 {
        Seq::empty()
    } else {
        result_lines(s.drop_last()) + verdict(s.last().ok) + " "@ + s.last().name@ + " — "@
            + s.last().detail@ + "\n"@
    }
}

/// A size as text.
pub open spec fn size_text(s: Option<(u32, u32)>) -> Option<Seq<char>> {
    match s {
        Some(p) => Some(decimal(p.0 as nat) + "x"@ + decimal(p.1 as nat)),
        None => None,
    }
}

/// The report. `unix` is the time, and `wakeups` how often the terminal called.
pub open spec fn report_text(d: DemoView, unix: u64, wakeups: u64) -> Seq<char> {
    "# ninja q0 embed demo report\n# unix "@ + decimal(unix as nat)
        + "\n# libghostty a887df42 (zig 0.15.2, static libghostty-internal.a)\n\n"@
        + "wakeup_cb invocations: "@ + decimal(wakeups as nat) + "\nscreen: "@ + d.screen_note + "\n"@
        + line_if("cell size: "@, size_text(d.cell_size), "px (CELL_SIZE action)\n"@) + line_if(
        "size limit: "@,
        d.size_limit,
        " (SIZE_LIMIT action)\n"@,
    ) + "config_change actions: "@ + decimal(d.config_changes as nat) + "\nkey_sequence actions: "@
        + decimal(d.key_sequences as nat) + "\nkey_table actions: "@ + decimal(d.key_tables as nat)
        + "\n"@ + line_if("pwd action: "@, d.pwd, "\n"@) + line_if("title action: "@, d.title, "\n"@)
        + "\n[checks]\n"@ + result_lines(d.results) + "\noverall: "@ + verdict(all_ok(d.results))
        + "\n"@
}

fn add_line(out: String, head: &str, s: Option<&str>, tail: &str) -> (r: String)
    ensures
        r@ == out@ + line_if(head@, crate::text::opt_text(s), tail@),
{
    match s {
        Some(t) => {
            let r: String = out.concat(head).concat(t).concat(tail);
            assert(r@ =~= out@ + line_if(head@, Some(t@), tail@));
            r
        },
        None => {
            assert(out@ =~= out@ + line_if(head@, None, tail@));
            out
        },
    }
}

fn str_of(s: &Option<String>) -> (r: Option<&str>)
    ensures
        crate::text::opt_text(r) == opt_string(*s),
{
    match s {
        Some(t) => Some(t.as_str()),
        None => None,
    }
}

/// What a step of the trial brought to light.
#[derive(Clone, Debug, PartialEq)]
pub enum Finding {
    /// The text of the whole screen.
    Viewport(String),
    /// The line to read a part of the screen at is not shown.
    NoGridLine,
    /// The text of two rows of the screen, the first of them by its number.
    Region(u32, String),
    /// The line with the link is not shown.
    NoLinkLine,
    /// The mouse went over the screen; the address it was seen over, as it is written out.
    Hover(String),
    /// The configuration was changed.
    Config,
    /// What the configuration says of the bound key and of the other, and the terminal of the bound
    /// one.
    Keys(bool, bool, bool),
}

/// What the step is called that a finding belongs to.
pub open spec fn finding_name(f: Finding) -> Seq<char> {
    match f {
        Finding::Viewport(_) => "grid-read-viewport"@,
        Finding::NoGridLine | Finding::Region(_, _) => "grid-read-region"@,
        Finding::NoLinkLine | Finding::Hover(_) => "hyperlink-hover"@,
        Finding::Config => "config-runtime-change"@,
        Finding::Keys(_, _, _) => "key-binding-intercept"@,
    }
}

/// A finding is as it should be, after what was seen so far.
pub open spec fn finding_ok(f: Finding, d: DemoView) -> bool {
    match f {
        Finding::Viewport(t) => holds(t@, "GRID-READ-LINE-1"@) && holds(t@, "GRID-READ-LINE-2"@)
            && holds(t@, "TYPED-VIA-SURFACE-TEXT"@),
        Finding::NoGridLine | Finding::NoLinkLine => false,
        Finding::Region(_, t) => holds(t@, "GRID-READ-LINE-1"@) && holds(t@, "GRID-READ-LINE-2"@),
        Finding::Hover(_) => d.over_link_url matches Some(u) && holds(u, "ghostty.org/q0"@),
        Finding::Config => d.config_changes > 0,
        Finding::Keys(bound, plain, surface) => bound && !plain && surface,
    }
}

/// What is told of a finding.
pub open spec fn finding_detail(f: Finding, d: DemoView) -> Seq<char> {
    match f {
        Finding::Viewport(_) =>
            "read_text(POINT_VIEWPORT) 同时拿到 initial_input 输出与键盘输入回显"@,
        Finding::NoGridLine => "视口里找不到 GRID-READ-LINE-1"@,
        Finding::Region(row, _) => "read_text 精确网格区域（VIEWPORT 坐标 rows "@ + decimal(
            row as nat,
        ) + ".."@ + decimal((row + 1) as nat) + "）"@,
        Finding::NoLinkLine => "视口里找不到 CLICKABLE-LINK 行"@,
        Finding::Hover(shown) => "MOUSE_OVER_LINK url="@ + shown@,
        Finding::Config =>
            "surface_update_config 生效（见 shot3 背景变化），CONFIG_CHANGE 回调 "@ + decimal(
            d.config_changes as nat,
        ) + " 次"@,
        Finding::Keys(_, _, _) =>
            "config/surface_key_is_binding：⌘T 判定为绑定、A 不是（可在派发前拦截）"@,
    }
}

impl Demo {
    /// What was seen so far.
    pub closed spec fn view(self) -> DemoView {
        DemoView {
            over_link_url: opt_string(self.over_link_url),
            cell_size: self.cell_size,
            size_limit: opt_string(self.size_limit),
            config_changes: self.config_changes,
            key_sequences: self.key_sequences,
            key_tables: self.key_tables,
            pwd: opt_string(self.pwd),
            title: opt_string(self.title),
            open_url: opt_string(self.open_url),
            step: self.step,
            results: self.results@,
            screen_note: self.screen_note@,
        }
    }

    /// Nothing was seen yet. `screen_note` tells which screen the window is on.
    pub fn new(screen_note: String) -> (d: Demo)
        ensures
            d@ == (DemoView {
                over_link_url: None,
                cell_size: None,
                size_limit: None,
                config_changes: 0,
                key_sequences: 0,
                key_tables: 0,
                pwd: None,
                title: None,
                open_url: None,
                step: 0,
                results: Seq::empty(),
                screen_note: screen_note@,
            }),
    {
        Demo {
            over_link_url: None,
            cell_size: None,
            size_limit: None,
            config_changes: 0,
            key_sequences: 0,
            key_tables: 0,
            pwd: None,
            title: None,
            open_url: None,
            step: 0,
            results: Vec::new(),
            screen_note,
        }
    }

    /// Takes in an action of the terminal: whether it is dealt with here, and what is written down
    /// about it.
    pub fn observe(&mut self, a: EmbedAction) -> (r: (bool, Option<String>))
        requires
            old(self)@.config_changes < u32::MAX,
            old(self)@.key_sequences < u32::MAX,
            old(self)@.key_tables < u32::MAX,
        ensures
            final(self)@ == after_action(old(self)@, a),
            r.0 == !(a is MouseShape || a is Other),
            opt_string(r.1) == action_note(a),
    {
        match a {
            EmbedAction::MouseOverLink(u) => if u.as_str().is_empty() {
                (true, None)
            } else {
                let note: String = "action MOUSE_OVER_LINK url=".to_owned().concat(u.as_str());
                self.over_link_url = Some(u);
                (true, Some(note))
            },
            EmbedAction::CellSize(w, h) => {
                self.cell_size = Some((w, h));
                (
                    true,
                    Some(
                        "action CELL_SIZE ".to_owned().concat(decimal_of(w as u64).as_str()).concat(
                            "x",
                        ).concat(decimal_of(h as u64).as_str()).concat("px"),
                    ),
                )
            },
            EmbedAction::SizeLimit(a, b, c, d) => {
                let text: String = "min ".to_owned().concat(decimal_of(a as u64).as_str()).concat(
                    "x",
                ).concat(decimal_of(b as u64).as_str()).concat(" max ").concat(
                    decimal_of(c as u64).as_str(),
                ).concat("x").concat(decimal_of(d as u64).as_str());
                let note: String = "action SIZE_LIMIT ".to_owned().concat(text.as_str());
                self.size_limit = Some(text);
                (true, Some(note))
            },
            EmbedAction::ConfigChange => {
                self.config_changes = self.config_changes + 1;
                (true, Some("action CONFIG_CHANGE".to_owned()))
            },
            EmbedAction::KeySequence(on) => {
                self.key_sequences = self.key_sequences + 1;
                let word: &str = if on {
                    "true"
                } else {
                    "false"
                };
                (true, Some("action KEY_SEQUENCE active=".to_owned().concat(word)))
            },
            EmbedAction::KeyTable => {
                self.key_tables = self.key_tables + 1;
                (true, Some("action KEY_TABLE".to_owned()))
            },
            EmbedAction::Pwd(p) => {
                let note: String = "action PWD ".to_owned().concat(p.as_str());
                self.pwd = Some(p);
                (true, Some(note))
            },
            EmbedAction::SetTitle(t) => {
                let note: String = "action SET_TITLE ".to_owned().concat(t.as_str());
                self.title = Some(t);
                (true, Some(note))
            },
            EmbedAction::OpenUrl(u, kind) => {
                let note: String = "action OPEN_URL kind=".to_owned().concat(
                    decimal_of(kind as u64).as_str(),
                ).concat(" url=").concat(u.as_str());
                self.open_url = Some(u);
                (true, Some(note))
            },
            EmbedAction::MouseShape(points) => if points {
                (false, Some("action MOUSE_SHAPE pointer（linkAtPos 命中链接）".to_owned()))
            } else {
                (false, None)
            },
            EmbedAction::Other => (false, None),
        }
    }

    /// What is done now, `millis` after the start. A step that is taken is not taken again.
    pub fn tick(&mut self, millis: u64) -> (r: Tick)
        ensures
            r == tick_at(old(self)@.step, millis),
            final(self)@ == if r is Step {
                DemoView { step: (old(self)@.step + 1) as u32, ..old(self)@ }
            } else {
                old(self)@
            },
    {
        if self.step >= 13 {
            return Tick::Wait;
        }
        if millis > STEP_TIMES_MS[self.step as usize] {
            let s: TimelineStep = step_of(self.step);
            self.step = self.step + 1;
            return Tick::Step(s);
        }
        if millis > WATCHDOG_MS {
            return Tick::Watchdog;
        }
        Tick::Wait
    }

    /// Notes what came of trying something out. The result is what is written down about it.
    pub fn check(&mut self, name: &str, ok: bool, detail: String) -> (line: String)
        ensures
            line@ == "[check] "@ + name@ + ": "@ + verdict(ok) + " — "@ + detail@,
            final(self)@.results.len() == old(self)@.results.len() + 1,
            final(self)@.results.drop_last() == old(self)@.results,
            final(self)@.results.last().name@ == name@,
            final(self)@.results.last().ok == ok,
            final(self)@.results.last().detail == detail,
            final(self)@ == (DemoView { results: final(self)@.results, ..old(self)@ }),
    {
        let line: String = "[check] ".to_owned().concat(name).concat(": ").concat(
            verdict_of(ok),
        ).concat(" — ").concat(detail.as_str());
        let ghost was = self.results@;
        self.results.push(CheckResult { name: name.to_owned(), ok, detail });
        assert(self.results@.drop_last() =~= was);
        assert(self@ =~= DemoView { results: self@.results, ..old(self)@ });
        line
    }

    /// Notes a finding: what it is called, whether it is as it should be, and what is told of it. The
    /// result is what is written down about it.
    pub fn judge(&mut self, f: Finding) -> (line: String)
        ensures
            line@ == "[check] "@ + finding_name(f) + ": "@ + verdict(finding_ok(f, old(self)@))
                + " — "@ + finding_detail(f, old(self)@),
            final(self)@.results.len() == old(self)@.results.len() + 1,
            final(self)@.results.drop_last() == old(self)@.results,
            final(self)@.results.last().name@ == finding_name(f),
            final(self)@.results.last().ok == finding_ok(f, old(self)@),
            final(self)@.results.last().detail@ == finding_detail(f, old(self)@),
            final(self)@ == (DemoView { results: final(self)@.results, ..old(self)@ }),
    {
        match f {
            Finding::Viewport(t) => self.check(
                "grid-read-viewport",
                viewport_ok(t.as_str()),
                "read_text(POINT_VIEWPORT) 同时拿到 initial_input 输出与键盘输入回显".to_owned(),
            ),
            Finding::NoGridLine => self.check(
                "grid-read-region",
                false,
                "视口里找不到 GRID-READ-LINE-1".to_owned(),
            ),
            Finding::Region(row, t) => {
                let detail: String = "read_text 精确网格区域（VIEWPORT 坐标 rows ".to_owned().concat(
                    decimal_of(row as u64).as_str(),
                ).concat("..").concat(decimal_of(row as u64 + 1).as_str()).concat("）");
                self.check("grid-read-region", region_ok(t.as_str()), detail)
            },
            Finding::NoLinkLine => self.check(
                "hyperlink-hover",
                false,
                "视口里找不到 CLICKABLE-LINK 行".to_owned(),
            ),
            Finding::Hover(shown) => {
                let ok: bool = self.hover_ok();
                self.check(
                    "hyperlink-hover",
                    ok,
                    "MOUSE_OVER_LINK url=".to_owned().concat(shown.as_str()),
                )
            },
            Finding::Config => {
                let n: u32 = self.config_changes;
                let detail: String =
                    "surface_update_config 生效（见 shot3 背景变化），CONFIG_CHANGE 回调 ".to_owned().concat(
                    decimal_of(n as u64).as_str(),
                ).concat(" 次");
                self.check("config-runtime-change", n > 0, detail)
            },
            Finding::Keys(bound, plain, surface) => self.check(
                "key-binding-intercept",
                keys_ok(bound, plain, surface),
                "config/surface_key_is_binding：⌘T 判定为绑定、A 不是（可在派发前拦截）".to_owned(),
            ),
        }
    }

    /// The program's exit code at the end of the trial.
    pub fn exit_code(&self) -> (code: i32)
        ensures
            code == if all_ok(self@.results) {
                0int
            } else {
                1
            },
    {
        if self.all_pass() {
            0
        } else {
            1
        }
    }

    /// Whether the mouse was seen over the link that is tried out.
    pub fn hover_ok(&self) -> (r: bool)
        ensures
            r == (self@.over_link_url matches Some(u) && holds(u, "ghostty.org/q0"@)),
    {
        match &self.over_link_url {
            Some(u) => contains_text(u.as_str(), "ghostty.org/q0"),
            None => false,
        }
    }

    /// Whether everything that was tried out came out well.
    pub fn all_pass(&self) -> (r: bool)
        ensures
            r == all_ok(self@.results),
    {
        let mut i: usize = 0;
        while i < self.results.len()
            invariant
                i <= self.results@.len(),
                forall|j: int| 0 <= j < i ==> (#[trigger] self.results@[j]).ok,
            decreases self.results@.len() - i,
        {
            if !self.results[i].ok {
                return false;
            }
            i += 1;
        }
        true
    }

    /// The report.
    pub fn report(&self, unix: u64, wakeups: u64) -> (out: String)
        ensures
            out@ == report_text(self@, unix, wakeups),
    {
        let size: Option<String> = match self.cell_size {
            Some((w, h)) => Some(
                decimal_of(w as u64).concat("x").concat(decimal_of(h as u64).as_str()),
            ),
            None => None,
        };
        assert(opt_string(size) == size_text(self.cell_size));
        let s: String = "# ninja q0 embed demo report\n# unix ".to_owned().concat(
            decimal_of(unix).as_str(),
        ).concat("\n# libghostty a887df42 (zig 0.15.2, static libghostty-internal.a)\n\n").concat(
            "wakeup_cb invocations: ",
        ).concat(decimal_of(wakeups).as_str()).concat("\nscreen: ").concat(
            self.screen_note.as_str(),
        ).concat("\n");
        let s: String = add_line(s, "cell size: ", str_of(&size), "px (CELL_SIZE action)\n");
        let s: String = add_line(
            s,
            "size limit: ",
            str_of(&self.size_limit),
            " (SIZE_LIMIT action)\n",
        );
        let s: String = s.concat("config_change actions: ").concat(
            decimal_of(self.config_changes as u64).as_str(),
        ).concat("\nkey_sequence actions: ").concat(
            decimal_of(self.key_sequences as u64).as_str(),
        ).concat("\nkey_table actions: ").concat(decimal_of(self.key_tables as u64).as_str()).concat(
            "\n",
        );
        let s: String = add_line(s, "pwd action: ", str_of(&self.pwd), "\n");
        let s: String = add_line(s, "title action: ", str_of(&self.title), "\n");
        s.concat("\n[checks]\n").concat(self.result_text().as_str()).concat("\noverall: ").concat(
            verdict_of(self.all_pass()),
        ).concat("\n")
    }

    fn result_text(&self) -> (s: String)
        ensures
            s@ == result_lines(self@.results),
    {
        let ghost all = self.results@;
        let mut s: String = String::new();
        let mut i: usize = 0;
        assert(all.take(0) =~= Seq::<CheckResult>::empty());
        assert(s@ =~= result_lines(all.take(0)));
        while i < self.results.len()
            invariant
                i <= self.results@.len(),
                all == self.results@,
                s@ == result_lines(all.take(i as int)),
            decreases self.results@.len() - i,
        {
            assert(all.take(i + 1).drop_last() =~= all.take(i as int));
            let r: &CheckResult = &self.results[i];
            s = s.concat(verdict_of(r.ok)).concat(" ").concat(r.name.as_str()).concat(" — ").concat(
                r.detail.as_str(),
            ).concat("\n");
            i += 1;
            assert(s@ =~= result_lines(all.take(i as int)));
        }
        assert(all.take(i as int) =~= all);
        s
    }
}

/// Steps come one after the other: after a step the next one has the next number, and after the last
/// none comes.
pub proof fn lemma_steps_end(step: u32, millis: u64)
    ensures
        tick_at(step, millis) is Step ==> step < 13,
        step >= 13 ==> tick_at(step, millis) == Tick::Wait,
        step < 13 && millis > WATCHDOG_MS ==> tick_at(step, millis) is Step,
{
}

/// Whether the whole screen shows what was printed and what was typed.
pub fn viewport_ok(text: &str) -> (r: bool)
    ensures
        r == (holds(text@, "GRID-READ-LINE-1"@) && holds(text@, "GRID-READ-LINE-2"@) && holds(
            text@,
            "TYPED-VIA-SURFACE-TEXT"@,
        )),
{
    contains_text(text, "GRID-READ-LINE-1") && contains_text(text, "GRID-READ-LINE-2")
        && contains_text(text, "TYPED-VIA-SURFACE-TEXT")
}

/// Whether a part of the screen shows both lines that were printed.
pub fn region_ok(text: &str) -> (r: bool)
    ensures
        r == (holds(text@, "GRID-READ-LINE-1"@) && holds(text@, "GRID-READ-LINE-2"@)),
{
    contains_text(text, "GRID-READ-LINE-1") && contains_text(text, "GRID-READ-LINE-2")
}

/// The first of the lines that is this word, but for white space at its end.
pub open spec fn row_of(ls: Seq<Seq<char>>, word: Seq<char>) -> Option<int>
    decreases ls.len(),
{
    if ls.len() == 0 {
        None
    } else if trim_end(ls[0]) == word {
        Some(0)
    } else {
        match row_of(ls.drop_first(), word) {
            Some(i) => Some(i + 1),
            None => None,
        }
    }
}

/// The row of the screen that shows just this word.
pub fn find_row(text: &str, word: &str) -> (r: Option<usize>)
    ensures
        match r {
            Some(i) => row_of(lines(text@), word@) == Some(i as int),
            None => row_of(lines(text@), word@) is None,
        },
{
    let ls: Vec<String> = split_lines(text);
    let ghost all = texts(ls@);
    let mut i: usize = 0;
    assert(all.skip(0) =~= all);
    while i < ls.len()
        invariant
            i <= ls@.len(),
            all == texts(ls@),
            all == lines(text@),
            row_of(all, word@) == match row_of(all.skip(i as int), word@) {
                Some(k) => Some(k + i),
                None => None,
            },
        decreases ls@.len() - i,
    {
        assert(all.skip(i as int).drop_first() =~= all.skip(i + 1));
        assert(all.skip(i as int)[0] == ls@[i as int]@);
        if same_text(trimmed_end(ls[i].as_str()).as_str(), word) {
            return Some(i);
        }
        i += 1;
    }
    None
}

/// Whether the keys are told apart: the one that is bound is, for the configuration and the terminal,
/// and the one that is not is not.
pub fn keys_ok(bound_in_config: bool, plain_in_config: bool, bound_in_surface: bool) -> (r: bool)
    ensures
        r == (bound_in_config && !plain_in_config && bound_in_surface),
{
    bound_in_config && !plain_in_config && bound_in_surface
}

/// What the command line asks for.
#[derive(Clone, Debug, PartialEq)]
pub enum Args {
    /// The evidence goes to this directory.
    Dir(String),
    /// The directory is missing.
    MissingDir,
    /// An argument that is not known.
    Unknown(String),
}

/// What arguments ask for.
pub enum Asked {
    Dir(Seq<char>),
    MissingDir,
    Unknown(Seq<char>),
}

/// What the arguments from the `i`th on ask for, where `dir` was asked for so far.
pub open spec fn args_from(s: Seq<Seq<char>>, i: int, dir: Seq<char>) -> Asked
    decreases s.len() - i,
{
    if i < 0 || i >= s.len() {
        Asked::Dir(dir)
    } else if s[i] == "--evidence-dir"@ {
        if i + 1 < s.len() {
            args_from(s, i + 2, s[i + 1])
        } else {
            Asked::MissingDir
        }
    } else {
        Asked::Unknown(s[i])
    }
}

/// What the command line asks for: the directory that is named last, or the usual one. The first
/// argument is the program's name.
pub fn parse_args(args: &Vec<String>) -> (r: Args)
    ensures
        args_from(texts(args@), 1, "docs/q0-evidence"@) == match r {
            Args::Dir(d) => Asked::Dir(d@),
            Args::MissingDir => Asked::MissingDir,
            Args::Unknown(a) => Asked::Unknown(a@),
        },
{
    let n: usize = args.len();
    let ghost all = texts(args@);
    let mut dir: String = "docs/q0-evidence".to_owned();
    let mut i: usize = 1;
    while i < n
        invariant
            1 <= i,
            n == args@.len(),
            all == texts(args@),
            args_from(all, 1, "docs/q0-evidence"@) == args_from(all, i as int, dir@),
        decreases n - i,
    {
        assert(all[i as int] == args@[i as int]@);
        if same_text(args[i].as_str(), "--evidence-dir") {
            if n - i < 2 {
                return Args::MissingDir;
            }
            assert(all[i + 1] == args@[i + 1]@);
            dir = args[i + 1].clone();
            if n - i == 2 {
                assert(args_from(all, i + 2, dir@) == Asked::Dir(dir@));
                return Args::Dir(dir);
            }
            i += 2;
        } else {
            return Args::Unknown(args[i].clone());
        }
    }
    Args::Dir(dir)
}

/// The screen that the environment names.
pub open spec fn wanted_screen(id: Seq<char>) -> Option<nat> {
    number(trim(id), u32::MAX as nat)
}

/// The screen that the environment names, where it is a number.
pub fn screen_number(id: &str) -> (r: Option<u32>)
    ensures
        match r {
            Some(n) => wanted_screen(id@) == Some(n as nat),
            None => wanted_screen(id@) is None,
        },
{
    parse_number(trimmed(id).as_str(), u32::MAX)
}

/// What is told of the screen that the window is on: `id` is what the environment names, `shown` the
/// same text with quotes, and `matched` whether there is such a screen.
pub fn screen_note(id: Option<&str>, shown: &str, matched: bool) -> (s: String)
    ensures
        s@ == match id {
            None => "default(main)"@,
            Some(i) => match wanted_screen(i@) {
                Some(n) => "NINJA_E2E_SCREEN="@ + decimal(n) + if matched {
                    " (虚拟屏)"@
                } else {
                    " 未匹配，回退主屏"@
                },
                None => "NINJA_E2E_SCREEN="@ + shown@ + " 非法，回退主屏"@,
            },
        },
{
    match id {
        None => "default(main)".to_owned(),
        Some(i) => match screen_number(i) {
            Some(n) => {
                let head: String = "NINJA_E2E_SCREEN=".to_owned().concat(
                    decimal_of(n as u64).as_str(),
                );
                if matched {
                    head.concat(" (虚拟屏)")
                } else {
                    head.concat(" 未匹配，回退主屏")
                }
            },
            None => "NINJA_E2E_SCREEN=".to_owned().concat(shown).concat(" 非法，回退主屏"),
        },
    }
}

/// The columns at which a link is looked for in each row, in half cells.
pub const SCAN_COLUMNS: [u32; 4] = [7, 40, 80, 110];

/// The rows in which a link is looked for: those that show a line.
pub open spec fn scanned_rows(lines: usize, rows: u32) -> int {
    if lines < rows {
        lines as int
    } else {
        rows as int
    }
}

/// The point to which the mouse is moved next to find a link, after `tried` points: the row, half a
/// cell below its top, and the column in half cells. The rows are gone through from the top, each from
/// the left. There is none once the mouse is over a link, or all points were tried.
pub fn scan_point(tried: usize, lines: usize, rows: u32, over_link: bool) -> (p: Option<(u32, u32)>)
    ensures
        p is Some <==> !over_link && tried < 4 * scanned_rows(lines, rows),
        p matches Some(at) ==> at.0 == tried / 4 && at.1 == SCAN_COLUMNS[(tried % 4) as int],
{
    let row: usize = tried / 4;
    if over_link || row >= lines || row as u64 >= rows as u64 {
        return None;
    }
    Some((row as u32, SCAN_COLUMNS[tried % 4]))
}

/// Each step has a number of its own: first the surface is looked at, last the report is written.
pub proof fn lemma_steps_differ(n: u32, m: u32)
    requires
        n < m < 13,
    ensures
        step_number(n) != step_number(m),
        step_number(0) == TimelineStep::SurfaceInfo,
        step_number(12) == TimelineStep::Report,
        STEP_TIMES_MS[n as int] < STEP_TIMES_MS[m as int],
{
}

/// A step is taken just where there is one left and its time has passed. While there is one left, the
/// program never gives up: all times lie before that.
pub proof fn lemma_when_a_step_is_taken(step: u32, millis: u64)
    ensures
        tick_at(step, millis) is Step <==> step < 13 && millis > STEP_TIMES_MS[step as int],
        tick_at(step, millis) is Step ==> tick_at(step, millis) == Tick::Step(step_number(step)),
        tick_at(step, millis) is Wait <==> step >= 13 || millis <= STEP_TIMES_MS[step as int],
{
}

/// What an action tells is kept in its own place, and nothing else changes with it.
pub proof fn lemma_what_an_action_changes(d: DemoView, a: EmbedAction)
    ensures
        ({
            let e = after_action(d, a);
            &&& e.over_link_url == match a {
                EmbedAction::MouseOverLink(u) if u@.len() > 0 => Some(u@),
                _ => d.over_link_url,
            }
            &&& e.cell_size == match a {
                EmbedAction::CellSize(w, h) => Some((w, h)),
                _ => d.cell_size,
            }
            &&& e.size_limit == match a {
                EmbedAction::SizeLimit(w, x, y, z) => Some(
                    "min "@ + decimal(w as nat) + "x"@ + decimal(x as nat) + " max "@ + decimal(y as nat)
                        + "x"@ + decimal(z as nat),
                ),
                _ => d.size_limit,
            }
            &&& d.config_changes < u32::MAX ==> e.config_changes == d.config_changes + if a is ConfigChange {
                1int
            } else {
                0
            }
            &&& d.key_sequences < u32::MAX ==> e.key_sequences == d.key_sequences + if a is KeySequence {
                1int
            } else {
                0
            }
            &&& d.key_tables < u32::MAX ==> e.key_tables == d.key_tables + if a is KeyTable {
                1int
            } else {
                0
            }
            &&& e.pwd == match a {
                EmbedAction::Pwd(p) => Some(p@),
                _ => d.pwd,
            }
            &&& e.title == match a {
                EmbedAction::SetTitle(t) => Some(t@),
                _ => d.title,
            }
            &&& e.open_url == match a {
                EmbedAction::OpenUrl(u, _) => Some(u@),
                _ => d.open_url,
            }
            &&& e.step == d.step && e.results == d.results && e.screen_note == d.screen_note
        }),
{
}

/// Everything is written down about but what is not known, a mouse that does not point, and a mouse over
/// no link; each note begins with the same word.
pub proof fn lemma_what_is_noted(a: EmbedAction)
    ensures
        action_note(a) is None <==> {
            ||| a is Other
            ||| a == EmbedAction::MouseShape(false)
            ||| a matches EmbedAction::MouseOverLink(u) && u@.len() == 0
        },
        action_note(a) matches Some(n) ==> n.len() >= 7 && n.take(7) == seq!['a', 'c', 't', 'i', 'o', 'n', ' '],
{
    reveal_strlit("action MOUSE_OVER_LINK url=");
    reveal_strlit("action CELL_SIZE ");
    reveal_strlit("action SIZE_LIMIT ");
    reveal_strlit("action CONFIG_CHANGE");
    reveal_strlit("action KEY_SEQUENCE active=");
    reveal_strlit("action KEY_TABLE");
    reveal_strlit("action PWD ");
    reveal_strlit("action SET_TITLE ");
    reveal_strlit("action OPEN_URL kind=");
    reveal_strlit("action MOUSE_SHAPE pointer（linkAtPos 命中链接）");
    if let Some(n) = action_note(a) {
        assert(n.take(7) =~= seq!['a', 'c', 't', 'i', 'o', 'n', ' ']);
    }
}

/// What came of each trial stands on a line of its own, in order, with its verdict in front.
pub proof fn lemma_lines_of_results(a: Seq<CheckResult>, r: CheckResult)
    ensures
        result_lines(Seq::empty()) == Seq::<char>::empty(),
        result_lines(a.push(r)) == result_lines(a) + ((if r.ok {
            "PASS "@
        } else {
            "FAIL "@
        }) + r.name@ + " — "@ + r.detail@ + "\n"@),
        all_ok(a.push(r)) <==> all_ok(a) && r.ok,
{
    reveal_strlit("PASS");
    reveal_strlit("FAIL");
    reveal_strlit("PASS ");
    reveal_strlit("FAIL ");
    reveal_strlit(" ");
    assert("PASS "@ =~= "PASS"@ + " "@);
    assert("FAIL "@ =~= "FAIL"@ + " "@);
    let s = a.push(r);
    assert(s.drop_last() =~= a);
    assert(result_lines(s) =~= result_lines(a) + ((if r.ok {
        "PASS "@
    } else {
        "FAIL "@
    }) + r.name@ + " — "@ + r.detail@ + "\n"@));
    if all_ok(s) {
        assert forall|i: int| 0 <= i < a.len() implies (#[trigger] a[i]).ok by {
            assert(s[i].ok);
        }
        assert(s[a.len() as int].ok);
    }
    if all_ok(a) && r.ok {
        assert forall|i: int| 0 <= i < s.len() implies (#[trigger] s[i]).ok by {
            if i < a.len() {
                assert(a[i].ok);
            }
        }
    }
}

/// The report tells the time, the calls, the screen, how often each thing was seen, what came of the
/// trials, and that all of it is well just where each trial is.
pub proof fn lemma_what_the_report_tells(d: DemoView, unix: u64, wakeups: u64)
    ensures
        ({
            let t = report_text(d, unix, wakeups);
            &&& has(t, decimal(unix as nat))
            &&& has(t, "wakeup_cb invocations: "@ + decimal(wakeups as nat))
            &&& has(t, "\nscreen: "@ + d.screen_note)
            &&& has(t, "config_change actions: "@ + decimal(d.config_changes as nat))
            &&& has(t, "\nkey_sequence actions: "@ + decimal(d.key_sequences as nat))
            &&& has(t, "\nkey_table actions: "@ + decimal(d.key_tables as nat))
            &&& d.cell_size matches Some(c) ==> has(
                t,
                "cell size: "@ + (decimal(c.0 as nat) + "x"@ + decimal(c.1 as nat))
                    + "px (CELL_SIZE action)\n"@,
            )
            &&& d.size_limit matches Some(s) ==> has(t, "size limit: "@ + s + " (SIZE_LIMIT action)\n"@)
            &&& d.pwd matches Some(s) ==> has(t, "pwd action: "@ + s + "\n"@)
            &&& d.title matches Some(s) ==> has(t, "title action: "@ + s + "\n"@)
            &&& has(t, "\n[checks]\n"@ + result_lines(d.results))
            &&& all_ok(d.results) ==> has(t, "\noverall: "@ + "PASS"@)
            &&& !all_ok(d.results) ==> has(t, "\noverall: "@ + "FAIL"@)
        }),
{
    let p = lemma_pieces(d, unix, wakeups);
    lemma_piece(p, 1);
    lemma_two_pieces(p, 3);
    lemma_two_pieces(p, 5);
    lemma_piece(p, 8);
    lemma_piece(p, 9);
    lemma_two_pieces(p, 10);
    lemma_two_pieces(p, 12);
    lemma_two_pieces(p, 14);
    lemma_piece(p, 17);
    lemma_piece(p, 18);
    lemma_two_pieces(p, 19);
    lemma_two_pieces(p, 21);
}

proof fn lemma_two_pieces(p: Seq<Seq<char>>, i: int)
    requires
        0 <= i < p.len() - 1,
    ensures
        has(put_together(p), p[i] + p[i + 1]),
    decreases p.len(),
{
    let init = put_together(p.drop_last());
    let all = put_together(p);
    let none = Seq::<char>::empty();
    if i == p.len() - 2 {
        let front = put_together(p.drop_last().drop_last());
        assert(all =~= front + (p[i] + p[i + 1]) + none);
        lemma_part(front, p[i] + p[i + 1], none);
    } else {
        lemma_two_pieces(p.drop_last(), i);
        assert(all =~= none + init + p.last());
        lemma_part(none, init, p.last());
        lemma_part_of_part(all, init, p[i] + p[i + 1]);
    }
}

proof fn lemma_pieces(d: DemoView, unix: u64, wakeups: u64) -> (p: Seq<Seq<char>>)
    ensures
        p.len() == 24,
        put_together(p) == report_text(d, unix, wakeups),
        p[0] == "# ninja q0 embed demo report\n# unix "@,
        p[1] == decimal(unix as nat),
        p[2] == "\n# libghostty a887df42 (zig 0.15.2, static libghostty-internal.a)\n\n"@,
        p[3] == "wakeup_cb invocations: "@,
        p[4] == decimal(wakeups as nat),
        p[5] == "\nscreen: "@,
        p[6] == d.screen_note,
        p[7] == "\n"@,
        p[8] == line_if("cell size: "@, size_text(d.cell_size), "px (CELL_SIZE action)\n"@),
        p[9] == line_if("size limit: "@, d.size_limit, " (SIZE_LIMIT action)\n"@),
        p[10] == "config_change actions: "@,
        p[11] == decimal(d.config_changes as nat),
        p[12] == "\nkey_sequence actions: "@,
        p[13] == decimal(d.key_sequences as nat),
        p[14] == "\nkey_table actions: "@,
        p[15] == decimal(d.key_tables as nat),
        p[16] == "\n"@,
        p[17] == line_if("pwd action: "@, d.pwd, "\n"@),
        p[18] == line_if("title action: "@, d.title, "\n"@),
        p[19] == "\n[checks]\n"@,
        p[20] == result_lines(d.results),
        p[21] == "\noverall: "@,
        p[22] == verdict(all_ok(d.results)),
        p[23] == "\n"@,
{
    let m0 = "# ninja q0 embed demo report\n# unix "@;
    lemma_one_more(Seq::empty(), m0);
    assert(put_together(Seq::<Seq<char>>::empty()) + m0 =~= m0);
    let p0 = Seq::<Seq<char>>::empty().push(m0);
    let m1 = decimal(unix as nat);
    lemma_one_more(p0, m1);
    let p1 = p0.push(m1);
    let m2 = "\n# libghostty a887df42 (zig 0.15.2, static libghostty-internal.a)\n\n"@;
    lemma_one_more(p1, m2);
    let p2 = p1.push(m2);
    let m3 = "wakeup_cb invocations: "@;
    lemma_one_more(p2, m3);
    let p3 = p2.push(m3);
    let m4 = decimal(wakeups as nat);
    lemma_one_more(p3, m4);
    let p4 = p3.push(m4);
    let m5 = "\nscreen: "@;
    lemma_one_more(p4, m5);
    let p5 = p4.push(m5);
    let m6 = d.screen_note;
    lemma_one_more(p5, m6);
    let p6 = p5.push(m6);
    let m7 = "\n"@;
    lemma_one_more(p6, m7);
    let p7 = p6.push(m7);
    let m8 = line_if("cell size: "@, size_text(d.cell_size), "px (CELL_SIZE action)\n"@);
    lemma_one_more(p7, m8);
    let p8 = p7.push(m8);
    let m9 = line_if("size limit: "@, d.size_limit, " (SIZE_LIMIT action)\n"@);
    lemma_one_more(p8, m9);
    let p9 = p8.push(m9);
    let m10 = "config_change actions: "@;
    lemma_one_more(p9, m10);
    let p10 = p9.push(m10);
    let m11 = decimal(d.config_changes as nat);
    lemma_one_more(p10, m11);
    let p11 = p10.push(m11);
    let m12 = "\nkey_sequence actions: "@;
    lemma_one_more(p11, m12);
    let p12 = p11.push(m12);
    let m13 = decimal(d.key_sequences as nat);
    lemma_one_more(p12, m13);
    let p13 = p12.push(m13);
    let m14 = "\nkey_table actions: "@;
    lemma_one_more(p13, m14);
    let p14 = p13.push(m14);
    let m15 = decimal(d.key_tables as nat);
    lemma_one_more(p14, m15);
    let p15 = p14.push(m15);
    let m16 = "\n"@;
    lemma_one_more(p15, m16);
    let p16 = p15.push(m16);
    let m17 = line_if("pwd action: "@, d.pwd, "\n"@);
    lemma_one_more(p16, m17);
    let p17 = p16.push(m17);
    let m18 = line_if("title action: "@, d.title, "\n"@);
    lemma_one_more(p17, m18);
    let p18 = p17.push(m18);
    let m19 = "\n[checks]\n"@;
    lemma_one_more(p18, m19);
    let p19 = p18.push(m19);
    let m20 = result_lines(d.results);
    lemma_one_more(p19, m20);
    let p20 = p19.push(m20);
    let m21 = "\noverall: "@;
    lemma_one_more(p20, m21);
    let p21 = p20.push(m21);
    let m22 = verdict(all_ok(d.results));
    lemma_one_more(p21, m22);
    let p22 = p21.push(m22);
    let m23 = "\n"@;
    lemma_one_more(p22, m23);
    let p23 = p22.push(m23);
    p23
}

/// What is found is the first line that is the word, but for white space at its end; nothing is found
/// just where no line is.
pub proof fn lemma_first_row_counts(ls: Seq<Seq<char>>, word: Seq<char>)
    ensures
        match row_of(ls, word) {
            Some(i) => 0 <= i < ls.len() && trim_end(ls[i]) == word && forall|j: int|
                0 <= j < i ==> trim_end(#[trigger] ls[j]) != word,
            None => forall|j: int| 0 <= j < ls.len() ==> trim_end(#[trigger] ls[j]) != word,
        },
    decreases ls.len(),
{
    if ls.len() > 0 && trim_end(ls[0]) != word {
        let t = ls.drop_first();
        lemma_first_row_counts(t, word);
        match row_of(t, word) {
            Some(i) => {
                assert forall|j: int| 0 <= j < i + 1 implies trim_end(#[trigger] ls[j]) != word by {
                    if j > 0 {
                        assert(t[j - 1] == ls[j]);
                    }
                }
            },
            None => {
                assert forall|j: int| 0 <= j < ls.len() implies trim_end(#[trigger] ls[j]) != word by {
                    if j > 0 {
                        assert(t[j - 1] == ls[j]);
                    }
                }
            },
        }
    }
}

/// Every second argument from the `i`th on, below the `n`th, asks for the directory behind it.
pub open spec fn asks_for_dirs(s: Seq<Seq<char>>, i: int, n: int) -> bool {
    forall|k: int| i <= k < n && (k - i) % 2 == 0 ==> #[trigger] s[k] == "--evidence-dir"@
}

/// The directory that is asked for last counts, and the usual one where none is asked for. Where the last
/// one is missing that is told; and so is the first argument that asks for anything else.
pub proof fn lemma_what_arguments_ask_for(s: Seq<Seq<char>>, i: int, dir: Seq<char>, k: int)
    requires
        0 <= i <= k <= s.len(),
        (k - i) % 2 == 0,
        asks_for_dirs(s, i, k),
    ensures
        k == s.len() ==> args_from(s, i, dir) == Asked::Dir(
            if k > i {
                s[k - 1]
            } else {
                dir
            },
        ),
        k == s.len() - 1 && s[k] == "--evidence-dir"@ ==> args_from(s, i, dir) is MissingDir,
        k < s.len() && s[k] != "--evidence-dir"@ ==> args_from(s, i, dir) == Asked::Unknown(s[k]),
    decreases k - i,
{
    if i < k {
        assert(s[i] == "--evidence-dir"@);
        assert(asks_for_dirs(s, i + 2, k)) by {
            assert forall|j: int| i + 2 <= j < k && (j - (i + 2)) % 2 == 0 implies #[trigger] s[j]
                == "--evidence-dir"@ by {
                assert((j - i) % 2 == 0);
            }
        }
        lemma_what_arguments_ask_for(s, i + 2, s[i + 1], k);
    }
}

/// The rows to look at are those that show a line and are on the screen.
pub proof fn lemma_rows_to_look_at(lines: usize, rows: u32, row: int)
    ensures
        row < scanned_rows(lines, rows) <==> row < lines && row < rows,
{
}

/// A finding is well only by what it found: the screen with both lines and the typed one, a part of it
/// with both lines, a link that was pointed at, a configuration that changed, keys that are told apart.
pub proof fn lemma_when_a_finding_is_well(f: Finding, d: DemoView)
    ensures
        finding_ok(f, d) ==> !(f is NoGridLine) && !(f is NoLinkLine),
        f matches Finding::Viewport(t) ==> (finding_ok(f, d) <==> holds(t@, "GRID-READ-LINE-1"@) && holds(
            t@,
            "GRID-READ-LINE-2"@,
        ) && holds(t@, "TYPED-VIA-SURFACE-TEXT"@)),
        f matches Finding::Region(_, t) ==> (finding_ok(f, d) <==> holds(t@, "GRID-READ-LINE-1"@) && holds(
            t@,
            "GRID-READ-LINE-2"@,
        )),
        f is Hover ==> (finding_ok(f, d) <==> d.over_link_url is Some && holds(
            d.over_link_url->0,
            "ghostty.org/q0"@,
        )),
        f is Config ==> (finding_ok(f, d) <==> d.config_changes != 0),
        f matches Finding::Keys(a, b, c) ==> (finding_ok(f, d) <==> a && c && !b),
{
}

/// The points that are tried go through the rows from the top, four in each from the left, and end with
/// the last row or at a link.
pub proof fn lemma_points_in_order(tried: usize, rows_shown: usize, rows: u32, over: bool, p: Option<(u32, u32)>)
    requires
        call_ensures(scan_point, (tried, rows_shown, rows, over), p),
    ensures
        over ==> p is None,
        p matches Some(at) ==> at.0 < rows && at.0 < rows_shown && 4 * at.0 <= tried < 4 * at.0 + 4,
        p matches Some(at) ==> tried == 4 * at.0 ==> at.1 == 7,
        p matches Some(at) ==> tried == 4 * at.0 + 1 ==> at.1 == 40,
        p matches Some(at) ==> tried == 4 * at.0 + 2 ==> at.1 == 80,
        p matches Some(at) ==> tried == 4 * at.0 + 3 ==> at.1 == 110,
        p is None && !over ==> tried >= 4 * rows || tried >= 4 * rows_shown,
{
}

/// What is told of the screen: the main one where none is named, and also where the one that is named is
/// no number or is not there.
pub proof fn lemma_which_screen(id: Option<&str>, shown: &str, matched: bool, r: String)
    requires
        call_ensures(screen_note, (id, shown, matched), r),
    ensures
        id is None ==> r@ == "default(main)"@,
        id matches Some(i) ==> (number(trim(i@), u32::MAX as nat) matches Some(n) ==> matched ==> r@
            == "NINJA_E2E_SCREEN="@ + decimal(n) + " (虚拟屏)"@),
        id matches Some(i) ==> (number(trim(i@), u32::MAX as nat) matches Some(n) ==> !matched ==> r@
            == "NINJA_E2E_SCREEN="@ + decimal(n) + " 未匹配，回退主屏"@),
        id matches Some(i) ==> number(trim(i@), u32::MAX as nat) is None ==> r@ == "NINJA_E2E_SCREEN="@
            + shown@ + " 非法，回退主屏"@,
{
}

/// What is seen is well just where all of it is: the lines and what was typed, or the two lines; and the
/// keys where they are told apart.
pub proof fn lemma_when_it_is_seen(text: &str, v: bool, p: bool, a: bool, b: bool, c: bool, k: bool)
    requires
        call_ensures(viewport_ok, (text,), v),
        call_ensures(region_ok, (text,), p),
        call_ensures(keys_ok, (a, b, c), k),
    ensures
        v ==> p,
        p <==> holds(text@, "GRID-READ-LINE-1"@) && holds(text@, "GRID-READ-LINE-2"@),
        v <==> p && holds(text@, "TYPED-VIA-SURFACE-TEXT"@),
        k <==> a && c && !b,
{
}

/// The program ends well just where each trial did.
pub proof fn lemma_how_the_program_ends(d: &Demo, code: i32)
    requires
        call_ensures(Demo::exit_code, (d,), code),
    ensures
        code == 0 <==> forall|i: int| 0 <= i < d@.results.len() ==> (#[trigger] d@.results[i]).ok,
        code == 0 || code == 1,
{
}

/// A step that is taken is not taken again: the next one has the next number.
pub proof fn lemma_step_is_taken_once(d: &mut Demo, millis: u64, r: Tick)
    requires
        call_ensures(Demo::tick, (d, millis), r),
    ensures
        r is Step ==> final(d)@.step == old(d)@.step + 1 && r == Tick::Step(step_number(old(d)@.step)),
        !(r is Step) ==> final(d)@ == old(d)@,
{
}

/// A trial is one more of the results, under its name and with its verdict, which the line tells too.
pub proof fn lemma_trial_is_noted(d: &mut Demo, name: &str, ok: bool, detail: String, line: String)
    requires
        call_ensures(Demo::check, (d, name, ok, detail), line),
    ensures
        final(d)@.results.len() == old(d)@.results.len() + 1,
        final(d)@.results.last().ok == ok,
        final(d)@.results.last().name@ == name@,
        all_ok(final(d)@.results) <==> all_ok(old(d)@.results) && ok,
        ok ==> line@ == "[check] "@ + name@ + ": "@ + "PASS"@ + " — "@ + detail@,
        !ok ==> line@ == "[check] "@ + name@ + ": "@ + "FAIL"@ + " — "@ + detail@,
{
    let now = final(d)@.results;
    let was = old(d)@.results;
    assert(now =~= was.push(now.last()));
    lemma_lines_of_results(was, now.last());
}

/// A finding is judged under the name of its step; each kind of finding has the name of its own.
pub proof fn lemma_findings_are_judged(d: &mut Demo, f: Finding, line: String)
    requires
        call_ensures(Demo::judge, (d, f), line),
    ensures
        final(d)@.results.len() == old(d)@.results.len() + 1,
        final(d)@.results.last().ok == finding_ok(f, old(d)@),
        f is Viewport ==> final(d)@.results.last().name@ == "grid-read-viewport"@,
        f is NoGridLine || f is Region ==> final(d)@.results.last().name@ == "grid-read-region"@,
        f is NoLinkLine || f is Hover ==> final(d)@.results.last().name@ == "hyperlink-hover"@,
        f is Config ==> final(d)@.results.last().name@ == "config-runtime-change"@,
        f is Keys ==> final(d)@.results.last().name@ == "key-binding-intercept"@,
        all_ok(final(d)@.results) <==> all_ok(old(d)@.results) && finding_ok(f, old(d)@),
{
    let now = final(d)@.results;
    let was = old(d)@.results;
    assert(now =~= was.push(now.last()));
    lemma_lines_of_results(was, now.last());
}

/// The screen is named by a number, with any white space around it.
pub proof fn lemma_screen_is_read(id: &str, r: Option<u32>)
    requires
        call_ensures(screen_number, (id,), r),
    ensures
        r matches Some(n) ==> number(trim(id@), 0xffff_ffff) == Some(n as nat),
        r is None ==> number(trim(id@), 0xffff_ffff) is None,
{
}

} // verus!
