//! The settings window: one line for each plugin, with its switch and what there is to tell of it.

use vstd::prelude::*;
use vstd::string::*;

use crate::plugins::binary::{bare_name, is_bare_name};
use crate::plugins::host::{status_names, ChildState, PluginStatus};
use crate::plugins::session::{turned, Session, Toggle};
use crate::plugins::table::{add_in_order, in_order};
use crate::text::{begins, decimal, decimal_of, has_prefix, opt_string, same_text, texts};

verus! {

/// What is said of a plugin. `memory` is the memory of its process in megabytes, as a text.
pub open spec fn status_line(st: PluginStatus, memory: Option<Seq<char>>) -> Seq<char> {
    if st.running {
        match (st.pid, memory) {
            (Some(pid), Some(mb)) => "pid "@ + decimal(pid as nat) + " · "@ + mb + " MB"@,
            (Some(pid), None) => "pid "@ + decimal(pid as nat),
            (None, _) => "运行中"@,
        }
    } else if !st.enabled {
        "未启用"@
    } else {
        match st.last_error {
            Some(e) => "已停止（"@ + e@ + "）"@,
            None => "已停止"@,
        }
    }
}

/// What is said of a plugin: its process and its memory where it runs, else that it is off, or that
/// it stopped and why.
pub fn status_text(st: &PluginStatus, memory: Option<&str>) -> (s: String)
    ensures
        s@ == status_line(*st, crate::text::opt_text(memory)),
{
    if st.running {
        match st.pid {
            None => "运行中".to_owned(),
            Some(pid) => {
                let head: String = "pid ".to_owned().concat(decimal_of(pid as u64).as_str());
                match memory {
                    Some(mb) => head.concat(" · ").concat(mb).concat(" MB"),
                    None => head,
                }
            },
        }
    } else if !st.enabled {
        "未启用".to_owned()
    } else {
        match &st.last_error {
            Some(e) => "已停止（".to_owned().concat(e.as_str()).concat("）"),
            None => "已停止".to_owned(),
        }
    }
}

/// How a plugin's line is coloured.
#[derive(Clone, Copy, Debug, PartialEq, Eq, Structural)]
pub enum StatusColor {
    /// It runs.
    Green,
    /// It is on and does not run.
    Orange,
    /// It is off.
    Gray,
}

/// How a plugin's line is coloured.
pub fn status_colors(st: &PluginStatus) -> (c: StatusColor)
    ensures
        c == if st.running {
            StatusColor::Green
        } else if st.enabled {
            StatusColor::Orange
        } else {
            StatusColor::Gray
        },
{
    if st.running {
        StatusColor::Green
    } else if st.enabled {
        StatusColor::Orange
    } else {
        StatusColor::Gray
    }
}

/// A path as it is shown: a tilde in place of the home directory at its beginning.
pub open spec fn abbreviated(path: Seq<char>, home: Option<Seq<char>>) -> Seq<char> {
    match home {
        Some(h) if begins(path, h) => "~"@ + path.skip(h.len() as int),
        _ => path,
    }
}

/// A path as it is shown: a tilde in place of the home directory at its beginning.
pub fn abbreviate_home(path: &str, home: Option<&str>) -> (s: String)
    ensures
        s@ == abbreviated(path@, crate::text::opt_text(home)),
{
    if let Some(h) = home {
        if has_prefix(path, h) {
            let n: usize = path.unicode_len();
            let k: usize = h.unicode_len();
            let rest: &str = path.substring_char(k, n);
            assert(rest@ =~= path@.skip(k as int));
            return "~".to_owned().concat(rest);
        }
    }
    path.to_owned()
}

/// Turns a plugin on or off, as its switch does. `states` tells of each process of the supervisor's.
pub fn toggle_from_hook(
    session: &mut Session,
    name: &str,
    on: bool,
    states: &Vec<ChildState>,
) -> (r: Toggle)
    requires
        old(session).wf(),
        on ==> (old(session).host() matches Some(h) ==> states@.len() == h.children.len()),
    ensures
        final(session).wf(),
        turned(*old(session), *final(session), name@, on, states@, r),
{
    session.toggle_plugin(name, on, states)
}

/// What is to be done with the window.
#[derive(Clone, Copy, Debug, PartialEq, Eq, Structural)]
pub enum PanelStep {
    /// It is hidden.
    Hide,
    /// Its lines are made anew and it is shown; its lines are looked at once a second from here on
    /// where the part says so.
    Show(bool),
}

/// The settings window: whether it is shown, whether its lines are looked at, and the plugins that
/// they are for.
pub struct PluginPanel {
    visible: bool,
    refreshing: bool,
    rows: Vec<String>,
}

/// A line's new state: its text's number among the states, and whether the switch is to be set and
/// how.
#[derive(Clone, Copy, Debug, PartialEq, Eq, Structural)]
pub struct RowUpdate {
    pub row: usize,
    pub status: usize,
    pub enabled: bool,
}

/// The first state with a name.
pub open spec fn status_of(s: Seq<PluginStatus>, name: Seq<char>) -> Option<int>
    decreases s.len(),
{
    if s.len() == 0 {
        None
    } else if s[0].name@ == name {
        Some(0)
    } else {
        match status_of(s.drop_first(), name) {
            Some(i) => Some(i + 1),
            None => None,
        }
    }
}

/// The new states of the first `n` lines; a line whose plugin is not told of keeps its own.
pub open spec fn updates(rows: Seq<Seq<char>>, s: Seq<PluginStatus>, n: int) -> Seq<RowUpdate>
    decreases n,
{
    if n <= 0 {
        Seq::empty()
    } else {
        let before = updates(rows, s, n - 1);
        match status_of(s, rows[n - 1]) {
            Some(i) => before.push(
                RowUpdate { row: (n - 1) as usize, status: i as usize, enabled: s[i].enabled },
            ),
            None => before,
        }
    }
}

fn find_status(s: &Vec<PluginStatus>, name: &str) -> (r: Option<usize>)
    ensures
        match r {
            Some(i) => status_of(s@, name@) == Some(i as int) && i < s@.len(),
            None => status_of(s@, name@) is None,
        },
{
    let mut i: usize = 0;
    assert(s@.skip(0) =~= s@);
    while i < s.len()
        invariant
            i <= s@.len(),
            status_of(s@, name@) == match status_of(s@.skip(i as int), name@) {
                Some(k) => Some(k + i),
                None => None,
            },
        decreases s@.len() - i,
    {
        assert(s@.skip(i as int).drop_first() =~= s@.skip(i + 1));
        assert(s@.skip(i as int)[0] == s@[i as int]);
        if same_text(s[i].name.as_str(), name) {
            return Some(i);
        }
        i += 1;
    }
    None
}

/// The same is said of both.
pub open spec fn says_same(a: PluginStatus, b: PluginStatus) -> bool {
    &&& a.name@ == b.name@
    &&& a.enabled == b.enabled
    &&& a.running == b.running
    &&& a.pid == b.pid
    &&& a.memory_bytes == b.memory_bytes
    &&& opt_string(a.last_error) == opt_string(b.last_error)
}

/// The plugin is off, and there is nothing else to say of it.
pub open spec fn is_just_off(p: PluginStatus) -> bool {
    !p.enabled && !p.running && p.pid is None && p.memory_bytes is None && p.last_error is None
}

/// Adds the bare ones of the names to a list that stands in order.
fn add_all(list: &mut Vec<String>, names: &Vec<String>)
    requires
        in_order(texts(old(list)@)),
    ensures
        in_order(texts(final(list)@)),
        forall|k: Seq<char>| #[trigger]
            texts(final(list)@).contains(k) <==> texts(old(list)@).contains(k) || (is_bare_name(k)
                && texts(names@).contains(k)),
{
    let ghost first = texts(list@);
    let ghost all = texts(names@);
    let mut i: usize = 0;
    while i < names.len()
        invariant
            i <= names@.len(),
            all == texts(names@),
            in_order(texts(list@)),
            forall|k: Seq<char>| #[trigger]
                texts(list@).contains(k) <==> first.contains(k) || (is_bare_name(k) && exists|j: int|
                    0 <= j < i && all[j] == k),
        decreases names@.len() - i,
    {
        let ghost was = texts(list@);
        let name: &str = names[i].as_str();
        assert(all[i as int] == name@);
        if bare_name(name) {
            add_in_order(list, name);
        }
        i += 1;
        assert forall|k: Seq<char>| #[trigger]
            texts(list@).contains(k) <==> first.contains(k) || (is_bare_name(k) && exists|j: int|
                0 <= j < i && all[j] == k) by {
            if was.contains(k) && is_bare_name(k) && !first.contains(k) {
                let j = choose|j: int| 0 <= j < i - 1 && all[j] == k;
                assert(0 <= j < i && all[j] == k);
            }
            if is_bare_name(k) && exists|j: int| 0 <= j < i && all[j] == k {
                let j = choose|j: int| 0 <= j < i && all[j] == k;
                if j < i - 1 {
                    assert(was.contains(k));
                }
            }
        }
    }
    assert forall|k: Seq<char>| (exists|j: int| 0 <= j < i && all[j] == k) <==> all.contains(k) by {}
}

/// The plugins that the window has lines for, in order: those that there is something to tell of,
/// and those that are installed, which are off where nothing is told of them.
pub fn with_installed(statuses: &Vec<PluginStatus>, installed: &Vec<String>) -> (out: Vec<
    PluginStatus,
>)
    ensures
        in_order(status_names(out@)),
        forall|k: Seq<char>| #[trigger]
            status_names(out@).contains(k) <==> status_names(statuses@).contains(k) || (is_bare_name(k)
                && texts(installed@).contains(k)),
        forall|i: int|
            0 <= i < out@.len() ==> match status_of(statuses@, (#[trigger] out@[i]).name@) {
                Some(j) => says_same(out@[i], statuses@[j]),
                None => is_just_off(out@[i]),
            },
{
    let ghost told = status_names(statuses@);
    let mut names: Vec<String> = Vec::new();
    assert(texts(names@) =~= Seq::<Seq<char>>::empty());
    let mut i: usize = 0;
    while i < statuses.len()
        invariant
            i <= statuses@.len(),
            told == status_names(statuses@),
            in_order(texts(names@)),
            forall|k: Seq<char>| #[trigger]
                texts(names@).contains(k) <==> exists|j: int| 0 <= j < i && told[j] == k,
        decreases statuses@.len() - i,
    {
        let ghost was = texts(names@);
        assert(told[i as int] == statuses@[i as int].name@);
        add_in_order(&mut names, statuses[i].name.as_str());
        i += 1;
        assert forall|k: Seq<char>| #[trigger]
            texts(names@).contains(k) <==> exists|j: int| 0 <= j < i && told[j] == k by {
            if was.contains(k) {
                let j = choose|j: int| 0 <= j < i - 1 && told[j] == k;
                assert(0 <= j < i && told[j] == k);
            }
            if exists|j: int| 0 <= j < i && told[j] == k {
                let j = choose|j: int| 0 <= j < i && told[j] == k;
                if j < i - 1 {
                    assert(was.contains(k));
                }
            }
        }
    }
    assert forall|k: Seq<char>| texts(names@).contains(k) <==> told.contains(k) by {}
    add_all(&mut names, installed);
    let mut out: Vec<PluginStatus> = Vec::new();
    let mut n: usize = 0;
    while n < names.len()
        invariant
            n <= names@.len(),
            out@.len() == n,
            forall|j: int| 0 <= j < n ==> (#[trigger] out@[j]).name@ == names@[j]@,
            forall|j: int|
                0 <= j < n ==> match status_of(statuses@, (#[trigger] out@[j]).name@) {
                    Some(k) => says_same(out@[j], statuses@[k]),
                    None => is_just_off(out@[j]),
                },
        decreases names@.len() - n,
    {
        let name: String = names[n].clone();
        let p: PluginStatus = match find_status(statuses, name.as_str()) {
            Some(k) => {
                let s: &PluginStatus = &statuses[k];
                proof {
                    lemma_status_named(statuses@, name@);
                }
                PluginStatus {
                    name,
                    enabled: s.enabled,
                    running: s.running,
                    pid: s.pid,
                    memory_bytes: s.memory_bytes,
                    last_error: s.last_error.clone(),
                }
            },
            None => PluginStatus {
                name,
                enabled: false,
                running: false,
                pid: None,
                memory_bytes: None,
                last_error: None,
            },
        };
        out.push(p);
        n += 1;
    }
    assert(status_names(out@) =~= texts(names@));
    out
}

proof fn lemma_status_named(s: Seq<PluginStatus>, name: Seq<char>)
    ensures
        status_of(s, name) matches Some(i) ==> 0 <= i < s.len() && s[i].name@ == name,
    decreases s.len(),
{
    if s.len() > 0 && s[0].name@ != name {
        lemma_status_named(s.drop_first(), name);
    }
}

impl PluginPanel {
    /// Whether it is shown.
    pub closed spec fn visible(self) -> bool {
        self.visible
    }

    /// Whether its lines are looked at.
    pub closed spec fn refreshing(self) -> bool {
        self.refreshing
    }

    /// The plugins of its lines.
    pub closed spec fn rows(self) -> Seq<Seq<char>> {
        texts(self.rows@)
    }

    /// A window that was not shown yet.
    pub fn new() -> (p: PluginPanel)
        ensures
            !p.visible(),
            !p.refreshing(),
            p.rows() == Seq::<Seq<char>>::empty(),
    {
        let p: PluginPanel = PluginPanel { visible: false, refreshing: false, rows: Vec::new() };
        assert(p.rows() =~= Seq::<Seq<char>>::empty());
        p
    }

    /// Shows the window.
    pub fn show(&mut self)
        ensures
            final(self).visible(),
            final(self).refreshing() == old(self).refreshing(),
            final(self).rows() == old(self).rows(),
    {
        self.visible = true;
    }

    /// Shows the window, or hides it.
    pub fn toggle_visibility(&mut self) -> (r: PanelStep)
        ensures
            final(self).visible() == !old(self).visible(),
            final(self).rows() == old(self).rows(),
            if old(self).visible() {
                r == PanelStep::Hide && final(self).refreshing() == old(self).refreshing()
            } else {
                r == PanelStep::Show(!old(self).refreshing()) && final(self).refreshing()
            },
    {
        if self.visible {
            self.visible = false;
            PanelStep::Hide
        } else {
            self.show();
            let first: bool = !self.refreshing;
            self.refreshing = true;
            PanelStep::Show(first)
        }
    }

    /// Makes the lines anew, one for each plugin that is told of.
    pub fn rebuild(&mut self, statuses: &Vec<PluginStatus>)
        ensures
            final(self).visible() == old(self).visible(),
            final(self).refreshing() == old(self).refreshing(),
            final(self).rows() == statuses@.map_values(|s: PluginStatus| s.name@),
    {
        let ghost want = statuses@.map_values(|s: PluginStatus| s.name@);
        let mut rows: Vec<String> = Vec::new();
        let mut i: usize = 0;
        while i < statuses.len()
            invariant
                i <= statuses@.len(),
                rows@.len() == i,
                want == statuses@.map_values(|s: PluginStatus| s.name@),
                forall|j: int| 0 <= j < i ==> (#[trigger] rows@[j])@ == want[j],
            decreases statuses@.len() - i,
        {
            rows.push(statuses[i].name.clone());
            i += 1;
        }
        self.rows = rows;
        assert(self.rows() =~= want);
    }

    /// The lines that are to be set, and to what.
    pub fn refresh(&self, statuses: &Vec<PluginStatus>) -> (out: Vec<RowUpdate>)
        ensures
            out@ == updates(self.rows(), statuses@, self.rows().len() as int),
    {
        let mut out: Vec<RowUpdate> = Vec::new();
        let mut i: usize = 0;
        while i < self.rows.len()
            invariant
                i <= self.rows@.len(),
                out@ == updates(self.rows(), statuses@, i as int),
            decreases self.rows@.len() - i,
        {
            assert(self.rows()[i as int] == self.rows@[i as int]@);
            if let Some(k) = find_status(statuses, self.rows[i].as_str()) {
                out.push(RowUpdate { row: i, status: k, enabled: statuses[k].enabled });
            }
            i += 1;
        }
        out
    }
}

/// Of a plugin that runs its process is told, and its memory where that is known, whatever else there is;
/// of another, that it is off; and of one that is on and does not run, that it stopped, and why where
/// that is known.
pub proof fn lemma_what_is_said(st: PluginStatus, pid: u32, mb: Seq<char>, why: String)
    ensures
        st.running && st.pid == Some(pid) ==> status_line(st, None) == "pid "@ + decimal(pid as nat),
        st.running && st.pid == Some(pid) ==> status_line(st, Some(mb)) == "pid "@ + decimal(pid as nat)
            + " · "@ + mb + " MB"@,
        st.running && st.pid is None ==> status_line(st, Some(mb)) == "运行中"@ && status_line(st, None)
            == "运行中"@,
        !st.running && !st.enabled ==> status_line(st, Some(mb)) == "未启用"@ && status_line(st, None)
            == "未启用"@,
        !st.running && st.enabled && st.last_error == Some(why) ==> status_line(st, None) == "已停止（"@
            + why@ + "）"@ && status_line(st, Some(mb)) == status_line(st, None),
        !st.running && st.enabled && st.last_error is None ==> status_line(st, None) == "已停止"@
            && status_line(st, Some(mb)) == "已停止"@,
{
}

/// A path that begins with the home directory is shown with a tilde in its place; any other stays.
pub proof fn lemma_tilde_for_home(home: Seq<char>, rest: Seq<char>, path: Seq<char>)
    ensures
        abbreviated(home + rest, Some(home)) == seq!['~'] + rest,
        !home.is_prefix_of(path) ==> abbreviated(path, Some(home)) == path,
        abbreviated(path, None) == path,
{
    reveal_strlit("~");
    assert("~"@ =~= seq!['~']);
    let s = home + rest;
    assert(s.take(home.len() as int) =~= home);
    assert(s.skip(home.len() as int) =~= rest);
    if begins(path, home) {
        assert(path.take(home.len() as int) =~= home);
        assert(home.is_prefix_of(path));
    }
}

/// The state of a plugin is the first under its name; there is none just where none has the name.
pub proof fn lemma_first_state_counts(s: Seq<PluginStatus>, name: Seq<char>)
    ensures
        match status_of(s, name) {
            Some(i) => 0 <= i < s.len() && s[i].name@ == name && forall|j: int|
                0 <= j < i ==> (#[trigger] s[j]).name@ != name,
            None => forall|j: int| 0 <= j < s.len() ==> (#[trigger] s[j]).name@ != name,
        },
    decreases s.len(),
{
    if s.len() > 0 && s[0].name@ != name {
        let t = s.drop_first();
        lemma_first_state_counts(t, name);
        match status_of(t, name) {
            Some(i) => {
                assert forall|j: int| 0 <= j < i + 1 implies (#[trigger] s[j]).name@ != name by {
                    if j > 0 {
                        assert(t[j - 1].name@ != name);
                    }
                }
            },
            None => {
                assert forall|j: int| 0 <= j < s.len() implies (#[trigger] s[j]).name@ != name by {
                    if j > 0 {
                        assert(t[j - 1].name@ != name);
                    }
                }
            },
        }
    }
}

/// Just the lines of plugins that are told of are set, each once and from the top down, each to the first
/// state under its name and its switch to what that state says.
pub proof fn lemma_which_lines_are_set(rows: Seq<Seq<char>>, s: Seq<PluginStatus>, n: int)
    requires
        0 <= n <= rows.len() <= usize::MAX,
        s.len() <= usize::MAX,
    ensures
        forall|i: int|
            0 <= i < updates(rows, s, n).len() ==> {
                let u = #[trigger] updates(rows, s, n)[i];
                &&& u.row < n
                &&& u.status < s.len()
                &&& status_of(s, rows[u.row as int]) == Some(u.status as int)
                &&& s[u.status as int].name@ == rows[u.row as int]
                &&& u.enabled == s[u.status as int].enabled
            },
        forall|i: int, j: int|
            0 <= i < j < updates(rows, s, n).len() ==> (#[trigger] updates(rows, s, n)[i]).row < (
            #[trigger] updates(rows, s, n)[j]).row,
        forall|r: int|
            0 <= r < n && status_of(s, #[trigger] rows[r]) is Some ==> exists|i: int|
                0 <= i < updates(rows, s, n).len() && (#[trigger] updates(rows, s, n)[i]).row == r,
    decreases n,
{
    if n > 0 {
        lemma_which_lines_are_set(rows, s, n - 1);
        lemma_first_state_counts(s, rows[n - 1]);
        let before = updates(rows, s, n - 1);
        let all = updates(rows, s, n);
        assert forall|i: int, j: int| 0 <= i < j < all.len() implies (#[trigger] all[i]).row < (
        #[trigger] all[j]).row by {
            assert(all[i] == before[i]);
            if j < before.len() {
                assert(all[j] == before[j]);
            }
        }
        assert forall|r: int| 0 <= r < n && status_of(s, #[trigger] rows[r]) is Some implies exists|i: int|
            0 <= i < all.len() && (#[trigger] all[i]).row == r by {
            if r < n - 1 {
                let i = choose|i: int| 0 <= i < before.len() && (#[trigger] before[i]).row == r;
                assert(all[i].row == r);
            } else {
                assert(all[before.len() as int].row == r);
            }
        }
    }
}

/// A plugin's line is green just where it runs; else grey just where it is off.
pub proof fn lemma_colors_of_lines(st: &PluginStatus, r: StatusColor)
    requires
        call_ensures(status_colors, (st,), r),
    ensures
        r is Green <==> st.running,
        r is Gray <==> !st.running && !st.enabled,
        r is Orange <==> !st.running && st.enabled,
{
}

/// Showing and hiding alternate; the lines are looked at from the first showing on, and that is told once.
pub proof fn lemma_panel_alternates(p: &mut PluginPanel, r: PanelStep)
    requires
        call_ensures(PluginPanel::toggle_visibility, (p,), r),
    ensures
        final(p).visible() != old(p).visible(),
        r is Hide <==> old(p).visible(),
        r matches PanelStep::Show(first) ==> first == !old(p).refreshing() && final(p).refreshing(),
        r is Hide ==> final(p).refreshing() == old(p).refreshing(),
        final(p).rows() == old(p).rows(),
{
}

/// The window has a line for each plugin that there is something to tell of, which tells it, and for each
/// other that is installed, which is off; each once.
pub proof fn lemma_lines_of_the_window(
    statuses: &Vec<PluginStatus>,
    installed: &Vec<String>,
    out: Vec<PluginStatus>,
    i: int,
)
    requires
        call_ensures(with_installed, (statuses, installed), out),
        0 <= i < out@.len(),
    ensures
        status_of(statuses@, out@[i].name@) matches Some(j) ==> {
            let s = statuses@[j];
            &&& out@[i].enabled == s.enabled && out@[i].running == s.running && out@[i].pid == s.pid
            &&& out@[i].memory_bytes == s.memory_bytes && opt_string(out@[i].last_error) == opt_string(
                s.last_error,
            )
        },
        status_of(statuses@, out@[i].name@) is None ==> !out@[i].enabled && !out@[i].running && out@[i].pid
            is None && texts(installed@).contains(out@[i].name@) && is_bare_name(out@[i].name@),
        forall|k: Seq<char>|
            is_bare_name(k) && texts(installed@).contains(k) ==> #[trigger] status_names(out@).contains(k),
{
    let names = status_names(out@);
    assert(names[i] == out@[i].name@);
    assert(names.contains(names[i]));
    lemma_first_state_counts(statuses@, out@[i].name@);
    if status_of(statuses@, out@[i].name@) is None {
        if status_names(statuses@).contains(out@[i].name@) {
            let j = status_names(statuses@).index_of(out@[i].name@);
            assert(statuses@[j].name@ == out@[i].name@);
        }
    }
}

} // verus!
