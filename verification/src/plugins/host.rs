//! The supervisor of the plugins: which are on, which run, and who is connected.

use vstd::prelude::*;
use vstd::string::*;

use crate::layer::{
    close_all, close_by_conn, lemma_others_from, others, those, LayerEntry, Registry, Which,
};
use crate::plugins::binary::{bare_name, is_bare_name, PluginsConfig};
use crate::plugins::keys::{
    denial, drop_grants, grants_of_others, hotkey_decide, lemma_dropped_grants, without_grant,
    HotkeyGrant,
};
use crate::plugins::table::{
    add_in_order, add_name, copy_names, in_order, names_with, names_without, without_name, Notes,
};
use crate::plugins::theme::{revoke_theme_override, theme_owner, ThemeOverride};
use crate::protocol::{InputHotkey, Message};
use crate::text::{has_text, integer, integer_of, same_text, texts};

verus! {

/// What is told of a plugin.
#[derive(Clone, Debug, PartialEq)]
pub struct PluginStatus {
    pub name: String,
    /// It is on.
    pub enabled: bool,
    /// Its process is alive.
    pub running: bool,
    pub pid: Option<u32>,
    /// The memory of its process, in bytes.
    pub memory_bytes: Option<u64>,
    /// Why it does not run, where that is known.
    pub last_error: Option<String>,
}

/// What became of starting a plugin.
#[derive(Clone, Debug, PartialEq)]
pub enum SpawnOutcome {
    /// It has no program.
    NoBinary,
    /// It runs: its process, and when its program last changed.
    Started(u32, Option<i128>),
    /// It could not be started, and why.
    Failed(String),
}

/// What became of a plugin's process.
#[derive(Clone, Copy, Debug, PartialEq, Eq, Structural)]
pub enum ChildState {
    Running,
    /// It ended: well or not, and with which code.
    Exited(bool, Option<i32>),
}

/// The plugins' supervisor.
pub struct PluginHost {
    path: String,
    conns: Vec<u64>,
    next_hit_id: u64,
    next_conn_id: u64,
    spawned: Vec<String>,
    children: Vec<(String, u32)>,
    spawn_errors: Notes<String>,
    cfg: PluginsConfig,
    disabled: bool,
    hotkeys: Vec<HotkeyGrant>,
    bin_mtime: Notes<Option<i128>>,
    last_pane_sig: Option<String>,
}

/// What the supervisor knows.
#[verifier::ext_equal]
pub struct HostView {
    /// The socket's path.
    pub path: Seq<char>,
    /// The connections, in the order they came.
    pub conns: Seq<u64>,
    /// The number of the last hit.
    pub hits: u64,
    /// The number of the last connection.
    pub conn_ids: u64,
    /// The plugins that a start was tried for.
    pub tried: Seq<Seq<char>>,
    /// The plugins with processes.
    pub children: Seq<(Seq<char>, u32)>,
    /// Why plugins do not run.
    pub errors: Map<Seq<char>, Seq<char>>,
    /// The plugins that are on.
    pub enabled: Seq<Seq<char>>,
    /// The paths that are set for plugins.
    pub paths: Seq<(String, String)>,
    /// All plugins were turned off.
    pub disabled: bool,
    /// The keys that plugins were granted.
    pub grants: Seq<HotkeyGrant>,
    /// When the plugins' programs last changed, as of their starts.
    pub mtimes: Map<Seq<char>, Option<i128>>,
    /// What the plugins were last told of the panes.
    pub sig: Option<Seq<char>>,
}

/// The names and processes of children.
pub open spec fn child_views(s: Seq<(String, u32)>) -> Seq<(Seq<char>, u32)> {
    s.map_values(|c: (String, u32)| (c.0@, c.1))
}

/// The children with another name.
pub open spec fn other_children(s: Seq<(Seq<char>, u32)>, name: Seq<char>) -> Seq<(Seq<char>, u32)>
    decreases s.len(),
{
    if s.len() == 0 {
        s
    } else if s.last().0 == name {
        other_children(s.drop_last(), name)
    } else {
        other_children(s.drop_last(), name).push(s.last())
    }
}

/// The processes of the children with this name.
pub open spec fn pids_of(s: Seq<(Seq<char>, u32)>, name: Seq<char>) -> Seq<u32>
    decreases s.len(),
{
    if s.len() == 0 {
        Seq::empty()
    } else if s.last().0 == name {
        pids_of(s.drop_last(), name).push(s.last().1)
    } else {
        pids_of(s.drop_last(), name)
    }
}

/// The plugins that are on and that no start was tried for, in order and each once.
pub open spec fn untried(enabled: Seq<Seq<char>>, tried: Seq<Seq<char>>) -> Seq<Seq<char>>
    decreases enabled.len(),
{
    if enabled.len() == 0 {
        Seq::empty()
    } else {
        let first = untried(enabled.drop_last(), tried);
        if tried.contains(enabled.last()) || first.contains(enabled.last()) {
            first
        } else {
            first.push(enabled.last())
        }
    }
}

/// A supervisor that has done nothing yet.
pub open spec fn fresh(path: Seq<char>, enabled: Seq<Seq<char>>, paths: Seq<(String, String)>) -> HostView {
    HostView {
        path,
        conns: Seq::empty(),
        hits: 0,
        conn_ids: 0,
        tried: Seq::empty(),
        children: Seq::empty(),
        errors: Map::empty(),
        enabled,
        paths,
        disabled: false,
        grants: Seq::empty(),
        mtimes: Map::empty(),
        sig: None,
    }
}

/// The first process of a child with this name.
pub open spec fn pid_of(s: Seq<(Seq<char>, u32)>, name: Seq<char>) -> Option<u32>
    decreases s.len(),
{
    if s.len() == 0 {
        None
    } else if s[0].0 == name {
        Some(s[0].1)
    } else {
        pid_of(s.drop_first(), name)
    }
}

/// The memory of a process, where it is told.
pub open spec fn memory_of(s: Seq<(u32, u64)>, pid: u32) -> Option<u64>
    decreases s.len(),
{
    if s.len() == 0 {
        None
    } else if s[0].0 == pid {
        Some(s[0].1)
    } else {
        memory_of(s.drop_first(), pid)
    }
}

/// The memory of a process, where it is told.
fn memory_told(memory: &Vec<(u32, u64)>, pid: u32) -> (r: Option<u64>)
    ensures
        r == memory_of(memory@, pid),
{
    let mut i: usize = 0;
    assert(memory@.skip(0) =~= memory@);
    while i < memory.len()
        invariant
            i <= memory@.len(),
            memory_of(memory@, pid) == memory_of(memory@.skip(i as int), pid),
        decreases memory@.len() - i,
    {
        assert(memory@.skip(i as int).drop_first() =~= memory@.skip(i + 1));
        if memory[i].0 == pid {
            return Some(memory[i].1);
        }
        i += 1;
    }
    None
}

/// The plugin is on, has a process or has a note.
pub open spec fn is_known(h: HostView, name: Seq<char>) -> bool {
    ||| h.enabled.contains(name)
    ||| exists|i: int| 0 <= i < h.children.len() && (#[trigger] h.children[i]).0 == name
    ||| h.errors.dom().contains(name)
}

/// The names that are told of.
pub open spec fn status_names(s: Seq<PluginStatus>) -> Seq<Seq<char>> {
    s.map_values(|p: PluginStatus| p.name@)
}

/// What is told of a plugin is so: it runs where it has a process, and its note is told only where
/// it does not.
pub open spec fn tells(p: PluginStatus, h: HostView, memory: Seq<(u32, u64)>) -> bool {
    let pid = pid_of(h.children, p.name@);
    &&& p.enabled == h.enabled.contains(p.name@)
    &&& p.pid == pid
    &&& p.running == (pid is Some)
    &&& p.memory_bytes == match pid {
        Some(n) => memory_of(memory, n),
        None => None,
    }
    &&& match p.last_error {
        Some(e) => pid is None && h.errors.dom().contains(p.name@) && e@ == h.errors[p.name@],
        None => pid is Some || !h.errors.dom().contains(p.name@),
    }
}

/// What is noted of a process that did not end well.
pub open spec fn exit_note(code: Option<i32>) -> Seq<char> {
    "已退出（code "@ + integer(
        match code {
            Some(c) => c as int,
            None => -1,
        },
    ) + "）"@
}

/// The children whose processes are alive.
pub open spec fn alive(s: Seq<(Seq<char>, u32)>, states: Seq<ChildState>) -> Seq<(Seq<char>, u32)>
    decreases s.len(),
{
    if s.len() == 0 || states.len() == 0 {
        Seq::empty()
    } else if states.last() is Running {
        alive(s.drop_last(), states.drop_last()).push(s.last())
    } else {
        alive(s.drop_last(), states.drop_last())
    }
}

/// The notes with those of the processes that did not end well.
pub open spec fn with_exits(
    errors: Map<Seq<char>, Seq<char>>,
    s: Seq<(Seq<char>, u32)>,
    states: Seq<ChildState>,
) -> Map<Seq<char>, Seq<char>>
    decreases s.len(),
{
    if s.len() == 0 || states.len() == 0 {
        errors
    } else {
        let before = with_exits(errors, s.drop_last(), states.drop_last());
        match states.last() {
            ChildState::Exited(false, code) => before.insert(s.last().0, exit_note(code)),
            _ => before,
        }
    }
}

/// What the supervisor knows once the processes that ended are off the list; of those that did not
/// end well, a note is kept.
pub open spec fn reaped(h: HostView, states: Seq<ChildState>) -> HostView {
    HostView {
        children: alive(h.children, states),
        errors: with_exits(h.errors, h.children, states),
        ..h
    }
}

/// Where all processes run, none is taken off the list.
pub proof fn lemma_none_reaped(h: HostView, states: Seq<ChildState>)
    requires
        states.len() == h.children.len(),
        forall|i: int| 0 <= i < states.len() ==> #[trigger] states[i] is Running,
    ensures
        reaped(h, states) == h,
{
    lemma_all_alive(h.children, h.errors, states);
    assert(reaped(h, states) =~= h);
}

proof fn lemma_all_alive(
    s: Seq<(Seq<char>, u32)>,
    errors: Map<Seq<char>, Seq<char>>,
    states: Seq<ChildState>,
)
    requires
        states.len() == s.len(),
        forall|i: int| 0 <= i < states.len() ==> #[trigger] states[i] is Running,
    ensures
        alive(s, states) == s,
        with_exits(errors, s, states) == errors,
    decreases s.len(),
{
    if s.len() > 0 {
        assert(states[states.len() - 1] is Running);
        let rest = states.drop_last();
        assert forall|i: int| 0 <= i < rest.len() implies #[trigger] rest[i] is Running by {
            assert(rest[i] == states[i]);
        }
        lemma_all_alive(s.drop_last(), errors, rest);
        assert(s.drop_last().push(s.last()) =~= s);
    } else {
        assert(alive(s, states) =~= s);
    }
}

/// Connections have numbers that grow, up to the last one given.
pub open spec fn conns_grow(s: Seq<u64>, last: u64) -> bool {
    &&& forall|i: int, j: int| 0 <= i < j < s.len() ==> #[trigger] s[i] < #[trigger] s[j]
    &&& forall|i: int| 0 <= i < s.len() ==> #[trigger] s[i] <= last
}

/// The connections without one of them.
pub open spec fn conns_without(s: Seq<u64>, conn: u64) -> Seq<u64>
    decreases s.len(),
{
    if s.len() == 0 {
        s
    } else if s.last() == conn {
        conns_without(s.drop_last(), conn)
    } else {
        conns_without(s.drop_last(), conn).push(s.last())
    }
}

proof fn lemma_conns_without(s: Seq<u64>, conn: u64, last: u64)
    requires
        conns_grow(s, last),
    ensures
        conns_grow(conns_without(s, conn), last),
        forall|c: u64| #[trigger]
            conns_without(s, conn).contains(c) <==> c != conn && s.contains(c),
    decreases s.len(),
{
    if s.len() > 0 {
        let init = s.drop_last();
        assert(conns_grow(init, last)) by {
            assert forall|i: int, j: int| 0 <= i < j < init.len() implies #[trigger] init[i]
                < #[trigger] init[j] by {
                assert(s[i] < s[j]);
            }
            assert forall|i: int| 0 <= i < init.len() implies #[trigger] init[i] <= last by {
                assert(s[i] <= last);
            }
        }
        lemma_conns_without(init, conn, last);
        let before = conns_without(init, conn);
        let after = conns_without(s, conn);
        assert forall|i: int, j: int| 0 <= i < j < after.len() implies #[trigger] after[i]
            < #[trigger] after[j] by {
            if j < before.len() {
                assert(before[i] < before[j]);
            } else {
                assert(before.contains(before[i]));
                assert(init.contains(before[i]));
                let k = init.index_of(before[i]);
                assert(s[k] < s[s.len() - 1]);
            }
        }
        assert forall|i: int| 0 <= i < after.len() implies #[trigger] after[i] <= last by {
            if i < before.len() {
                assert(before[i] <= last);
            } else {
                assert(s[s.len() - 1] <= last);
            }
        }
        assert forall|c: u64| #[trigger] after.contains(c) <==> c != conn && s.contains(c) by {
            if after.contains(c) {
                let i = after.index_of(c);
                if i < before.len() {
                    assert(before.contains(c));
                    let k = init.index_of(c);
                    assert(s[k] == c);
                } else {
                    assert(s[s.len() - 1] == c);
                }
            }
            if c != conn && s.contains(c) {
                let k = s.index_of(c);
                if k < init.len() {
                    assert(init[k] == c);
                    assert(before.contains(c));
                    let i = before.index_of(c);
                    assert(after[i] == c);
                } else {
                    assert(after[after.len() - 1] == c);
                }
            }
        }
    }
}

/// What went with a connection.
#[derive(Clone, Debug, PartialEq)]
pub struct Dropped {
    /// The layers that are to be taken off the screen.
    pub layers: Vec<LayerEntry>,
    /// The colours were the plugin's; the configuration is to be loaded anew.
    pub revoked: bool,
}

/// What is to be done when all plugins are turned off, in this order: tell them of the panes a last
/// time where `told`; load the configuration anew where `revoked`; take the layers off the screen and
/// tell their plugins; close all connections; kill the processes; delete the socket.
#[derive(Clone, Debug, PartialEq)]
pub struct ShutdownPlan {
    pub told: bool,
    pub revoked: bool,
    pub layers: Vec<LayerEntry>,
    /// The connections that were open.
    pub conns: Vec<u64>,
    pub killed: Vec<u32>,
}

/// How telling the plugins of a hit begins.
#[derive(Clone, Debug, PartialEq)]
pub enum DispatchStart {
    /// There is no plugin to tell.
    NoPlugins,
    /// The hit is told to all connections.
    Broadcast,
    /// These plugins are started first.
    ColdStart(Vec<String>),
}

impl PluginHost {
    /// What the supervisor knows.
    pub closed spec fn view(self) -> HostView {
        HostView {
            path: self.path@,
            conns: self.conns@,
            hits: self.next_hit_id,
            conn_ids: self.next_conn_id,
            tried: texts(self.spawned@),
            children: child_views(self.children@),
            errors: Map::new(
                |k: Seq<char>| self.spawn_errors.under(k) is Some,
                |k: Seq<char>| (self.spawn_errors.under(k)->0)@,
            ),
            enabled: texts(self.cfg.enabled@),
            paths: self.cfg.paths@,
            disabled: self.disabled,
            grants: self.hotkeys@,
            mtimes: Map::new(
                |k: Seq<char>| self.bin_mtime.under(k) is Some,
                |k: Seq<char>| self.bin_mtime.under(k)->0,
            ),
            sig: match self.last_pane_sig {
                Some(s) => Some(s@),
                None => None,
            },
        }
    }

    /// Connections have numbers that grow.
    pub open spec fn wf(self) -> bool {
        conns_grow(self@.conns, self@.conn_ids)
    }

    /// A supervisor for a socket.
    pub fn bind(path: String, cfg: PluginsConfig) -> (h: PluginHost)
        ensures
            h.wf(),
            h@ == fresh(path@, texts(cfg.enabled@), cfg.paths@),
    {
        let h: PluginHost = PluginHost {
            path,
            conns: Vec::new(),
            next_hit_id: 0,
            next_conn_id: 0,
            spawned: Vec::new(),
            children: Vec::new(),
            spawn_errors: Notes::new(),
            cfg,
            disabled: false,
            hotkeys: Vec::new(),
            bin_mtime: Notes::new(),
            last_pane_sig: None,
        };
        assert(h@ =~= fresh(path@, texts(cfg.enabled@), cfg.paths@));
        h
    }

    /// A supervisor, unless no plugin is on: then there is none, and no socket is made.
    pub fn start(path: String, cfg: PluginsConfig) -> (r: Option<PluginHost>)
        ensures
            match r {
                Some(h) => cfg.enabled@.len() > 0 && h.wf() && h@ == fresh(
                    path@,
                    texts(cfg.enabled@),
                    cfg.paths@,
                ),
                None => cfg.enabled@.len() == 0,
            },
    {
        if cfg.enabled.len() == 0 {
            None
        } else {
            Some(PluginHost::bind(path, cfg))
        }
    }

    /// The socket's path.
    pub fn path(&self) -> (p: &str)
        ensures
            p@ == self@.path,
    {
        self.path.as_str()
    }

    /// Which plugins are on, and the paths that are set.
    pub fn cfg(&self) -> (c: &PluginsConfig)
        ensures
            texts(c.enabled@) == self@.enabled,
            c.paths@ == self@.paths,
    {
        &self.cfg
    }

    /// Whether all plugins were turned off.
    pub fn is_disabled(&self) -> (r: bool)
        ensures
            r == self@.disabled,
    {
        self.disabled
    }

    /// The keys that plugins were granted.
    pub fn grants(&self) -> (g: &Vec<HotkeyGrant>)
        ensures
            g@ == self@.grants,
    {
        &self.hotkeys
    }

    /// The connections, in the order they came.
    pub fn conns(&self) -> (c: &Vec<u64>)
        ensures
            c@ == self@.conns,
    {
        &self.conns
    }

    /// The plugins' processes, in the order they were started.
    pub fn pids(&self) -> (out: Vec<u32>)
        ensures
            out@ == self@.children.map_values(|c: (Seq<char>, u32)| c.1),
    {
        let ghost want = self@.children.map_values(|c: (Seq<char>, u32)| c.1);
        let mut out: Vec<u32> = Vec::new();
        let mut i: usize = 0;
        while i < self.children.len()
            invariant
                i <= self.children@.len(),
                want == self@.children.map_values(|c: (Seq<char>, u32)| c.1),
                out@ == want.take(i as int),
            decreases self.children@.len() - i,
        {
            assert(want[i as int] == self.children@[i as int].1);
            out.push(self.children[i].1);
            i += 1;
            assert(out@ =~= want.take(i as int));
        }
        assert(want.take(i as int) =~= want);
        out
    }

    /// Whether the connection is open.
    pub fn has_conn(&self, conn: u64) -> (r: bool)
        ensures
            r == self@.conns.contains(conn),
    {
        let mut i: usize = 0;
        while i < self.conns.len()
            invariant
                i <= self.conns@.len(),
                forall|j: int| 0 <= j < i ==> self.conns@[j] != conn,
            decreases self.conns@.len() - i,
        {
            if self.conns[i] == conn {
                return true;
            }
            i += 1;
        }
        false
    }

    /// Marks every plugin that is on as tried. The result are those that were not, which are to be
    /// started.
    fn take_untried(&mut self) -> (names: Vec<String>)
        ensures
            texts(names@) == untried(old(self)@.enabled, old(self)@.tried),
            final(self)@ == (HostView {
                tried: old(self)@.tried + untried(old(self)@.enabled, old(self)@.tried),
                ..old(self)@
            }),
    {
        let ghost enabled = texts(self.cfg.enabled@);
        let ghost tried = texts(self.spawned@);
        let mut names: Vec<String> = Vec::new();
        let mut i: usize = 0;
        assert(enabled.take(0) =~= Seq::<Seq<char>>::empty());
        assert(texts(names@) =~= Seq::<Seq<char>>::empty());
        while i < self.cfg.enabled.len()
            invariant
                i <= self.cfg.enabled@.len(),
                *self == *old(self),
                enabled == texts(self.cfg.enabled@),
                tried == texts(self.spawned@),
                texts(names@) == untried(enabled.take(i as int), tried),
            decreases self.cfg.enabled@.len() - i,
        {
            assert(enabled.take(i + 1).drop_last() =~= enabled.take(i as int));
            assert(enabled.take(i + 1).last() == self.cfg.enabled@[i as int]@);
            let name: &str = self.cfg.enabled[i].as_str();
            if !has_text(&self.spawned, name) && !has_text(&names, name) {
                let ghost was = names@;
                names.push(name.to_owned());
                assert(texts(names@) =~= texts(was).push(name@));
            }
            i += 1;
        }
        assert(enabled.take(i as int) =~= enabled);
        let mut copy: Vec<String> = copy_names(&names);
        let ghost added = copy@;
        self.spawned.append(&mut copy);
        assert(texts(self.spawned@) =~= tried + texts(added));
        assert(self@ =~= HostView { tried: tried + texts(added), ..old(self)@ });
        names
    }

    /// The plugins to start: those that are on and that no start was tried for; none where all are
    /// turned off. They count as tried from here on.
    pub fn spawn_enabled_now(&mut self) -> (names: Vec<String>)
        ensures
            if old(self)@.disabled {
                names@.len() == 0 && final(self)@ == old(self)@
            } else {
                &&& texts(names@) == untried(old(self)@.enabled, old(self)@.tried)
                &&& final(self)@ == HostView {
                    tried: old(self)@.tried + untried(old(self)@.enabled, old(self)@.tried),
                    ..old(self)@
                }
            },
    {
        if self.disabled {
            return Vec::new();
        }
        self.take_untried()
    }

    /// Notes what became of starting a plugin.
    pub fn note_spawn(&mut self, name: &str, outcome: SpawnOutcome)
        ensures
            match outcome {
                SpawnOutcome::NoBinary => final(self)@ == (HostView {
                    errors: old(self)@.errors.insert(name@, "找不到二进制"@),
                    ..old(self)@
                }),
                SpawnOutcome::Failed(why) => final(self)@ == (HostView {
                    errors: old(self)@.errors.insert(name@, "拉起失败："@ + why@),
                    ..old(self)@
                }),
                SpawnOutcome::Started(pid, mtime) => final(self)@ == (HostView {
                    errors: old(self)@.errors.remove(name@),
                    mtimes: old(self)@.mtimes.insert(name@, mtime),
                    children: old(self)@.children.push((name@, pid)),
                    ..old(self)@
                }),
            },
    {
        match outcome {
            SpawnOutcome::NoBinary => {
                self.spawn_errors.insert(name.to_owned(), "找不到二进制".to_owned());
                assert(self@ =~= HostView {
                    errors: old(self)@.errors.insert(name@, "找不到二进制"@),
                    ..old(self)@
                });
            },
            SpawnOutcome::Failed(why) => {
                self.spawn_errors.insert(
                    name.to_owned(),
                    "拉起失败：".to_owned().concat(why.as_str()),
                );
                assert(self@ =~= HostView {
                    errors: old(self)@.errors.insert(name@, "拉起失败："@ + why@),
                    ..old(self)@
                });
            },
            SpawnOutcome::Started(pid, mtime) => {
                self.spawn_errors.remove(name);
                self.bin_mtime.insert(name.to_owned(), mtime);
                let ghost was = self.children@;
                self.children.push((name.to_owned(), pid));
                assert(child_views(self.children@) =~= child_views(was).push((name@, pid)));
                assert(self@ =~= HostView {
                    errors: old(self)@.errors.remove(name@),
                    mtimes: old(self)@.mtimes.insert(name@, mtime),
                    children: old(self)@.children.push((name@, pid)),
                    ..old(self)@
                });
            },
        }
    }

    /// The process of a plugin, where one runs.
    pub fn running_pid(&self, name: &str) -> (pid: Option<u32>)
        ensures
            pid == pid_of(self@.children, name@),
    {
        let ghost all = self@.children;
        let mut i: usize = 0;
        assert(all.skip(0) =~= all);
        while i < self.children.len()
            invariant
                i <= self.children@.len(),
                all == self@.children,
                pid_of(all, name@) == pid_of(all.skip(i as int), name@),
            decreases self.children@.len() - i,
        {
            assert(all.skip(i as int).drop_first() =~= all.skip(i + 1));
            assert(all.skip(i as int)[0] == (self.children@[i as int].0@, self.children@[i as int].1));
            if same_text(self.children[i].0.as_str(), name) {
                return Some(self.children[i].1);
            }
            i += 1;
        }
        None
    }

    /// Turns a plugin on. `false` where all plugins are turned off or the name is not a bare one;
    /// then nothing changes. Where `true`, the processes that ended are off the list, `states` telling
    /// of each; and where the plugin does not run, a start is tried anew: the plugin is to be started.
    pub fn session_enable(&mut self, name: &str, states: &Vec<ChildState>) -> (r: bool)
        requires
            states@.len() == old(self)@.children.len(),
        ensures
            r == (!old(self)@.disabled && is_bare_name(name@)),
            ({
                let h = reaped(old(self)@, states@);
                final(self)@ == if !r {
                    old(self)@
                } else if pid_of(h.children, name@) is Some {
                    HostView { enabled: names_with(h.enabled, name@), ..h }
                } else {
                    HostView {
                        enabled: names_with(h.enabled, name@),
                        tried: names_without(h.tried, name@),
                        ..h
                    }
                }
            }),
    {
        if self.disabled || !bare_name(name) {
            return false;
        }
        self.reap(states);
        let ghost h = self@;
        add_name(&mut self.cfg.enabled, name);
        assert(self@ =~= HostView { enabled: names_with(h.enabled, name@), ..h });
        if self.running_pid(name).is_none() {
            self.spawned = without_name(&self.spawned, name);
            assert(self@ =~= HostView {
                enabled: names_with(h.enabled, name@),
                tried: names_without(h.tried, name@),
                ..h
            });
        }
        true
    }

    /// Takes a plugin's processes off the list. The result are those, which are to be killed.
    fn take_children(&mut self, name: &str) -> (killed: Vec<u32>)
        ensures
            killed@ == pids_of(old(self)@.children, name@),
            final(self)@ == (HostView {
                children: other_children(old(self)@.children, name@),
                ..old(self)@
            }),
    {
        let ghost all = child_views(self.children@);
        let mut killed: Vec<u32> = Vec::new();
        let mut kept: Vec<(String, u32)> = Vec::new();
        let mut i: usize = 0;
        assert(all.take(0) =~= Seq::<(Seq<char>, u32)>::empty());
        assert(child_views(kept@) =~= Seq::<(Seq<char>, u32)>::empty());
        while i < self.children.len()
            invariant
                i <= self.children@.len(),
                *self == *old(self),
                all == child_views(self.children@),
                killed@ == pids_of(all.take(i as int), name@),
                child_views(kept@) == other_children(all.take(i as int), name@),
            decreases self.children@.len() - i,
        {
            assert(all.take(i + 1).drop_last() =~= all.take(i as int));
            assert(all.take(i + 1).last() == (self.children@[i as int].0@, self.children@[i as int].1));
            if same_text(self.children[i].0.as_str(), name) {
                killed.push(self.children[i].1);
            } else {
                let ghost was = kept@;
                kept.push((self.children[i].0.clone(), self.children[i].1));
                assert(child_views(kept@) =~= child_views(was).push(all[i as int]));
            }
            i += 1;
        }
        assert(all.take(i as int) =~= all);
        self.children = kept;
        assert(self@ =~= HostView {
            children: other_children(old(self)@.children, name@),
            ..old(self)@
        });
        killed
    }

    /// Turns a plugin off. The result are its processes, which are to be killed, and whether no
    /// plugin is on any more: then all of it is to be shut down.
    pub fn session_disable(&mut self, name: &str) -> (r: (Vec<u32>, bool))
        ensures
            r.0@ == pids_of(old(self)@.children, name@),
            r.1 == (names_without(old(self)@.enabled, name@).len() == 0),
            final(self)@ == (HostView {
                enabled: names_without(old(self)@.enabled, name@),
                children: other_children(old(self)@.children, name@),
                ..old(self)@
            }),
    {
        self.cfg.enabled = without_name(&self.cfg.enabled, name);
        let ghost mid = self@;
        assert(mid =~= HostView {
            enabled: names_without(old(self)@.enabled, name@),
            ..old(self)@
        });
        let killed: Vec<u32> = self.take_children(name);
        let none_left: bool = self.cfg.enabled.len() == 0;
        assert(self@ =~= HostView {
            enabled: names_without(old(self)@.enabled, name@),
            children: other_children(old(self)@.children, name@),
            ..old(self)@
        });
        assert(texts(self.cfg.enabled@).len() == self.cfg.enabled@.len());
        (killed, none_left)
    }

    /// Prepares a plugin's restart, unless all are turned off. The result are its processes, which
    /// are to be killed before it is started again.
    pub fn restart_plugin(&mut self, name: &str) -> (r: Option<Vec<u32>>)
        ensures
            if old(self)@.disabled {
                r is None && final(self)@ == old(self)@
            } else {
                &&& r matches Some(killed)
                &&& killed@ == pids_of(old(self)@.children, name@)
                &&& final(self)@ == HostView {
                    children: other_children(old(self)@.children, name@),
                    ..old(self)@
                }
            },
    {
        if self.disabled {
            return None;
        }
        Some(self.take_children(name))
    }

    /// Whether a plugin is to be restarted because its program changed: `mtime` is when, where that
    /// is known, and `age_ms` how long ago. One that changed a moment ago is left for the next time;
    /// of one whose time was not known, the time is noted.
    pub fn is_stale(&mut self, name: &str, mtime: Option<i128>, age_ms: Option<u64>) -> (r: bool)
        ensures
            ({
                let known = old(self)@.mtimes.dom().contains(name@)
                    && old(self)@.mtimes[name@] is Some;
                let settled = !old(self)@.disabled && mtime is Some && !(age_ms matches Some(a) && a
                    < 300);
                &&& r == (settled && known && old(self)@.mtimes[name@] != mtime)
                &&& final(self)@ == if settled && !known {
                    HostView { mtimes: old(self)@.mtimes.insert(name@, mtime), ..old(self)@ }
                } else {
                    old(self)@
                }
            }),
    {
        if self.disabled {
            return false;
        }
        let at: i128 = match mtime {
            Some(t) => t,
            None => {
                return false;
            },
        };
        if let Some(a) = age_ms {
            if a < 300 {
                return false;
            }
        }
        let known: Option<i128> = match self.bin_mtime.get(name) {
            Some(t) => *t,
            None => None,
        };
        match known {
            Some(t) => t != at,
            None => {
                self.bin_mtime.insert(name.to_owned(), Some(at));
                assert(self@ =~= HostView {
                    mtimes: old(self)@.mtimes.insert(name@, mtime),
                    ..old(self)@
                });
                false
            },
        }
    }

    /// Takes the processes that ended off the list; of those that did not end well, a note is kept.
    /// `states` tells of each process.
    pub fn reap(&mut self, states: &Vec<ChildState>)
        requires
            states@.len() == old(self)@.children.len(),
        ensures
            final(self)@ == reaped(old(self)@, states@),
    {
        let ghost all = child_views(self.children@);
        let ghost errors = self@.errors;
        let mut children: Vec<(String, u32)> = Vec::new();
        std::mem::swap(&mut self.children, &mut children);
        let mut kept: Vec<(String, u32)> = Vec::new();
        let mut i: usize = 0;
        assert(all.take(0) =~= Seq::<(Seq<char>, u32)>::empty());
        assert(child_views(kept@) =~= Seq::<(Seq<char>, u32)>::empty());
        while i < children.len()
            invariant
                i <= children@.len() == states@.len(),
                all == child_views(children@),
                child_views(kept@) == alive(all.take(i as int), states@.take(i as int)),
                self@ == (HostView {
                    children: self@.children,
                    errors: with_exits(errors, all.take(i as int), states@.take(i as int)),
                    ..old(self)@
                }),
            decreases children@.len() - i,
        {
            assert(all.take(i + 1).drop_last() =~= all.take(i as int));
            assert(states@.take(i + 1).drop_last() =~= states@.take(i as int));
            assert(all.take(i + 1).last() == (children@[i as int].0@, children@[i as int].1));
            let ghost mid = self@;
            match states[i] {
                ChildState::Running => {
                    let ghost was = kept@;
                    kept.push((children[i].0.clone(), children[i].1));
                    assert(child_views(kept@) =~= child_views(was).push(all[i as int]));
                },
                ChildState::Exited(well, code) => {
                    if !well {
                        let n: i32 = match code {
                            Some(c) => c,
                            None => -1,
                        };
                        let note: String = "已退出（code ".to_owned().concat(
                            integer_of(n).as_str(),
                        ).concat("）");
                        self.spawn_errors.insert(children[i].0.clone(), note);
                        assert(self@ =~= HostView {
                            errors: mid.errors.insert(children@[i as int].0@, exit_note(code)),
                            ..mid
                        });
                    }
                },
            }
            i += 1;
        }
        assert(all.take(i as int) =~= all);
        assert(states@.take(i as int) =~= states@);
        self.children = kept;
        assert(self@ =~= HostView {
            children: alive(old(self)@.children, states@),
            errors: with_exits(old(self)@.errors, old(self)@.children, states@),
            ..old(self)@
        });
    }

    /// What there is to tell of every plugin that is on, has a process or has a note, in the order of
    /// their names. `memory` tells of processes.
    pub fn snapshot(&self, memory: &Vec<(u32, u64)>) -> (out: Vec<PluginStatus>)
        ensures
            in_order(status_names(out@)),
            forall|k: Seq<char>| #[trigger] status_names(out@).contains(k) <==> is_known(self@, k),
            forall|i: int| 0 <= i < out@.len() ==> tells(#[trigger] out@[i], self@, memory@),
    {
        let mut names: Vec<String> = Vec::new();
        assert(texts(names@) =~= Seq::<Seq<char>>::empty());
        let mut i: usize = 0;
        while i < self.cfg.enabled.len()
            invariant
                i <= self.cfg.enabled@.len(),
                in_order(texts(names@)),
                forall|k: Seq<char>| #[trigger]
                    texts(names@).contains(k) <==> exists|j: int|
                        0 <= j < i && self@.enabled[j] == k,
            decreases self.cfg.enabled@.len() - i,
        {
            let ghost was = texts(names@);
            add_in_order(&mut names, self.cfg.enabled[i].as_str());
            assert(self@.enabled[i as int] == self.cfg.enabled@[i as int]@);
            i += 1;
            assert forall|k: Seq<char>| #[trigger]
                texts(names@).contains(k) <==> exists|j: int|
                    0 <= j < i && self@.enabled[j] == k by {
                if texts(names@).contains(k) && k != self@.enabled[i - 1] {
                    assert(was.contains(k));
                }
                if exists|j: int| 0 <= j < i && self@.enabled[j] == k {
                    let j = choose|j: int| 0 <= j < i && self@.enabled[j] == k;
                    if j < i - 1 {
                        assert(was.contains(k));
                    }
                }
            }
        }
        let ghost on = texts(names@);
        assert forall|k: Seq<char>| #[trigger] on.contains(k) <==> self@.enabled.contains(k) by {}
        let mut i: usize = 0;
        while i < self.children.len()
            invariant
                i <= self.children@.len(),
                in_order(texts(names@)),
                forall|k: Seq<char>| #[trigger]
                    texts(names@).contains(k) <==> on.contains(k) || exists|j: int|
                        0 <= j < i && self@.children[j].0 == k,
            decreases self.children@.len() - i,
        {
            let ghost was = texts(names@);
            add_in_order(&mut names, self.children[i].0.as_str());
            assert(self@.children[i as int].0 == self.children@[i as int].0@);
            i += 1;
            assert forall|k: Seq<char>| #[trigger]
                texts(names@).contains(k) <==> on.contains(k) || exists|j: int|
                    0 <= j < i && self@.children[j].0 == k by {
                if texts(names@).contains(k) && k != self@.children[i - 1].0 {
                    assert(was.contains(k));
                }
                if on.contains(k) {
                    assert(was.contains(k));
                }
                if exists|j: int| 0 <= j < i && self@.children[j].0 == k {
                    let j = choose|j: int| 0 <= j < i && self@.children[j].0 == k;
                    if j < i - 1 {
                        assert(was.contains(k));
                    }
                }
            }
        }
        let ghost on_or_run = texts(names@);
        let mut i: usize = 0;
        while i < self.spawn_errors.len()
            invariant
                i <= self.spawn_errors.count(),
                in_order(texts(names@)),
                forall|k: Seq<char>| #[trigger]
                    texts(names@).contains(k) <==> on_or_run.contains(k) || exists|j: int|
                        0 <= j < i && self.spawn_errors.name_at(j) == k,
            decreases self.spawn_errors.count() - i,
        {
            let ghost was = texts(names@);
            add_in_order(&mut names, self.spawn_errors.name(i).as_str());
            i += 1;
            assert forall|k: Seq<char>| #[trigger]
                texts(names@).contains(k) <==> on_or_run.contains(k) || exists|j: int|
                    0 <= j < i && self.spawn_errors.name_at(j) == k by {
                if texts(names@).contains(k) && k != self.spawn_errors.name_at(i - 1) {
                    assert(was.contains(k));
                }
                if on_or_run.contains(k) {
                    assert(was.contains(k));
                }
                if exists|j: int| 0 <= j < i && self.spawn_errors.name_at(j) == k {
                    let j = choose|j: int| 0 <= j < i && self.spawn_errors.name_at(j) == k;
                    if j < i - 1 {
                        assert(was.contains(k));
                    }
                }
            }
        }
        assert forall|k: Seq<char>| #[trigger] texts(names@).contains(k) <==> is_known(self@, k) by {
            self.spawn_errors.lemma_places(k);
            assert(on.contains(k) <==> self@.enabled.contains(k));
            assert(on_or_run.contains(k) <==> on.contains(k) || exists|j: int|
                0 <= j < self.children@.len() && self@.children[j].0 == k);
        }
        let mut out: Vec<PluginStatus> = Vec::new();
        let mut i: usize = 0;
        while i < names.len()
            invariant
                i <= names@.len(),
                out@.len() == i,
                forall|j: int| 0 <= j < i ==> (#[trigger] out@[j]).name@ == names@[j]@,
                forall|j: int| 0 <= j < i ==> tells(#[trigger] out@[j], self@, memory@),
            decreases names@.len() - i,
        {
            out.push(self.status(names[i].as_str(), memory));
            i += 1;
        }
        assert(status_names(out@) =~= texts(names@));
        out
    }

    /// What there is to tell of one plugin.
    fn status(&self, name: &str, memory: &Vec<(u32, u64)>) -> (r: PluginStatus)
        ensures
            r.name@ == name@,
            tells(r, self@, memory@),
    {
        let pid: Option<u32> = self.running_pid(name);
        let memory_bytes: Option<u64> = match pid {
            Some(p) => memory_told(memory, p),
            None => None,
        };
        let last_error: Option<String> = if pid.is_some() {
            None
        } else {
            match self.spawn_errors.get(name) {
                Some(e) => Some(e.clone()),
                None => None,
            }
        };
        PluginStatus {
            name: name.to_owned(),
            enabled: has_text(&self.cfg.enabled, name),
            running: pid.is_some(),
            pid,
            memory_bytes,
            last_error,
        }
    }

    /// The number of the next hit.
    pub fn next_hit_id(&mut self) -> (id: u64)
        ensures
            id == if old(self)@.hits < u64::MAX {
                old(self)@.hits + 1
            } else {
                u64::MAX as int
            },
            final(self)@ == (HostView { hits: id, ..old(self)@ }),
    {
        if self.next_hit_id < u64::MAX {
            self.next_hit_id = self.next_hit_id + 1;
        }
        assert(self@ =~= HostView { hits: self.next_hit_id, ..old(self)@ });
        self.next_hit_id
    }

    /// Whether there is a number left for another connection.
    pub fn can_accept(&self) -> (r: bool)
        ensures
            r == (self@.conn_ids < u64::MAX),
    {
        self.next_conn_id < u64::MAX
    }

    /// Takes in a connection, unless all plugins are turned off. It is told of the panes anew.
    pub fn pump_accept(&mut self) -> (id: Option<u64>)
        requires
            old(self).wf(),
            old(self)@.conn_ids < u64::MAX,
        ensures
            final(self).wf(),
            if old(self)@.disabled {
                id is None && final(self)@ == old(self)@
            } else {
                &&& id == Some((old(self)@.conn_ids + 1) as u64)
                &&& final(self)@ == HostView {
                    conns: old(self)@.conns.push((old(self)@.conn_ids + 1) as u64),
                    conn_ids: (old(self)@.conn_ids + 1) as u64,
                    sig: None,
                    ..old(self)@
                }
            },
    {
        if self.disabled {
            return None;
        }
        self.next_conn_id = self.next_conn_id + 1;
        self.conns.push(self.next_conn_id);
        self.last_pane_sig = None;
        assert(self@ =~= HostView {
            conns: old(self)@.conns.push((old(self)@.conn_ids + 1) as u64),
            conn_ids: (old(self)@.conn_ids + 1) as u64,
            sig: None,
            ..old(self)@
        });
        Some(self.next_conn_id)
    }

    /// Answers a plugin's request for a key.
    pub fn decide_hotkey(&mut self, m: &InputHotkey, conn: u64, bound: bool) -> (r: Message)
        ensures
            final(self)@ == (HostView { grants: final(self)@.grants, ..old(self)@ }),
            match denial(old(self)@.grants, conn, m.key@, m.modifiers@, bound) {
                Some(why) => {
                    &&& final(self)@.grants == old(self)@.grants
                    &&& r matches Message::InputHotkeyDenied(id, w)
                    &&& id == m.id
                    &&& w@ == why
                },
                None => {
                    &&& r == Message::InputHotkeyGranted(m.id)
                    &&& final(self)@.grants.len() > 0
                    &&& final(self)@.grants.drop_last() == without_grant(
                        old(self)@.grants,
                        conn,
                        m.key@,
                        m.modifiers@,
                    )
                    &&& final(self)@.grants.last().conn == conn
                    &&& final(self)@.grants.last().key@ == m.key@
                    &&& final(self)@.grants.last().modifiers@ == m.modifiers@
                },
            },
    {
        let r: Message = hotkey_decide(&mut self.hotkeys, m, conn, bound);
        assert(self@ =~= HostView { grants: self@.grants, ..old(self)@ });
        r
    }

    /// How telling the plugins of a hit begins: with all connections; without any, with starting the
    /// plugins that no start was tried for; and not at all where there are none, or all are turned
    /// off.
    pub fn begin_dispatch(&mut self) -> (r: DispatchStart)
        ensures
            ({
                let names = untried(old(self)@.enabled, old(self)@.tried);
                if old(self)@.disabled {
                    r is NoPlugins && final(self)@ == old(self)@
                } else if old(self)@.conns.len() > 0 {
                    r is Broadcast && final(self)@ == old(self)@
                } else if names.len() == 0 {
                    r is NoPlugins && final(self)@ == old(self)@
                } else {
                    &&& r matches DispatchStart::ColdStart(v)
                    &&& texts(v@) == names
                    &&& final(self)@ == HostView { tried: old(self)@.tried + names, ..old(self)@ }
                }
            }),
    {
        if self.disabled {
            return DispatchStart::NoPlugins;
        }
        if self.conns.len() > 0 {
            return DispatchStart::Broadcast;
        }
        let names: Vec<String> = self.take_untried();
        assert(texts(names@).len() == names@.len());
        if names.len() == 0 {
            assert(old(self)@.tried + texts(names@) =~= old(self)@.tried);
            assert(self@ =~= old(self)@);
            DispatchStart::NoPlugins
        } else {
            DispatchStart::ColdStart(names)
        }
    }

    /// Whether the plugins are to be told of the panes: there is one connected, and what there is to
    /// tell, which `sig` stands for, differs from the last time or is told in any case.
    pub fn maybe_broadcast_pane_snapshot(&mut self, force: bool, sig: String) -> (r: bool)
        ensures
            r == (!old(self)@.disabled && old(self)@.conns.len() > 0 && (force || old(self)@.sig != Some(
                sig@,
            ))),
            final(self)@ == if r {
                HostView { sig: Some(sig@), ..old(self)@ }
            } else {
                old(self)@
            },
    {
        if self.disabled || self.conns.len() == 0 {
            return false;
        }
        let same: bool = match &self.last_pane_sig {
            Some(s) => same_text(s.as_str(), sig.as_str()),
            None => false,
        };
        if !force && same {
            return false;
        }
        self.last_pane_sig = Some(sig);
        assert(self@ =~= HostView { sig: Some(sig@), ..old(self)@ });
        true
    }

    /// Ends a connection: its layers go, its keys are free again, and its colours are taken back.
    pub fn drop_conn(
        &mut self,
        conn: u64,
        layers: &mut Registry,
        theme: &mut Option<ThemeOverride>,
    ) -> (r: Dropped)
        requires
            old(self).wf(),
            old(layers).wf(),
        ensures
            final(self).wf(),
            final(layers).wf(),
            final(layers).next() == old(layers).next(),
            if old(self)@.conns.contains(conn) {
                &&& final(self)@ == HostView {
                    conns: conns_without(old(self)@.conns, conn),
                    grants: grants_of_others(old(self)@.grants, conn),
                    ..old(self)@
                }
                &&& !final(self)@.conns.contains(conn)
                &&& forall|i: int|
                    0 <= i < final(self)@.grants.len() ==> (#[trigger] final(self)@.grants[i]).conn
                        != conn
                &&& forall|l: LayerEntry| #[trigger]
                    final(layers).layers().contains(l) ==> l.conn != conn
                &&& !(*final(theme) matches Some(t) && t.conn == conn)
                &&& final(layers).layers() == others(old(layers).layers(), Which::Conn(conn))
                &&& r.layers@ == those(old(layers).layers(), Which::Conn(conn))
                &&& r.revoked == (*old(theme) matches Some(t) && t.conn == conn)
                &&& *final(theme) == if r.revoked {
                    None
                } else {
                    *old(theme)
                }
            } else {
                &&& final(self)@ == old(self)@
                &&& final(layers).layers() == old(layers).layers()
                &&& *final(theme) == *old(theme)
                &&& r.layers@.len() == 0
                &&& !r.revoked
            },
    {
        if !self.has_conn(conn) {
            return Dropped { layers: Vec::new(), revoked: false };
        }
        let ghost was = self.conns@;
        let mut kept: Vec<u64> = Vec::new();
        let mut i: usize = 0;
        assert(was.take(0) =~= Seq::<u64>::empty());
        while i < self.conns.len()
            invariant
                i <= self.conns@.len(),
                was == self.conns@,
                *self == *old(self),
                kept@ == conns_without(was.take(i as int), conn),
            decreases self.conns@.len() - i,
        {
            assert(was.take(i + 1).drop_last() =~= was.take(i as int));
            if self.conns[i] != conn {
                kept.push(self.conns[i]);
            }
            i += 1;
        }
        assert(was.take(i as int) =~= was);
        proof {
            lemma_conns_without(was, conn, self@.conn_ids);
            assert(!conns_without(was, conn).contains(conn));
        }
        self.conns = kept;
        drop_grants(&mut self.hotkeys, conn);
        assert(self@ =~= HostView {
            conns: conns_without(old(self)@.conns, conn),
            grants: grants_of_others(old(self)@.grants, conn),
            ..old(self)@
        });
        let closed: Vec<LayerEntry> = close_by_conn(layers, conn);
        proof {
            lemma_dropped_grants(old(self)@.grants, conn);
            let s = old(layers).layers();
            assert forall|l: LayerEntry| #[trigger] layers.layers().contains(l) implies l.conn
                != conn by {
                lemma_others_from(s, Which::Conn(conn), l);
            }
        }
        let owner: Option<u64> = theme_owner(theme);
        let owned: bool = match owner {
            Some(c) => c == conn,
            None => false,
        };
        let revoked: bool = owned && revoke_theme_override(theme);
        Dropped { layers: closed, revoked }
    }

    /// Turns all plugins off, once: nothing is left of connections, processes, layers and colours.
    /// `sig` stands for what there is to tell of the panes.
    pub fn shutdown(
        &mut self,
        sig: String,
        layers: &mut Registry,
        theme: &mut Option<ThemeOverride>,
    ) -> (r: Option<ShutdownPlan>)
        requires
            old(self).wf(),
            old(layers).wf(),
        ensures
            final(self).wf(),
            final(layers).wf(),
            final(layers).next() == old(layers).next(),
            if old(self)@.disabled {
                &&& r is None
                &&& final(self)@ == old(self)@
                &&& final(layers).layers() == old(layers).layers()
                &&& *final(theme) == *old(theme)
            } else {
                &&& r matches Some(p)
                &&& p.told == (old(self)@.conns.len() > 0)
                &&& p.revoked == (*old(theme) is Some)
                &&& p.layers@ == old(layers).layers()
                &&& p.conns@ == old(self)@.conns
                &&& p.killed@ == old(self)@.children.map_values(|c: (Seq<char>, u32)| c.1)
                &&& final(self)@ == HostView {
                    conns: Seq::empty(),
                    children: Seq::empty(),
                    disabled: true,
                    sig: if p.told {
                        Some(sig@)
                    } else {
                        old(self)@.sig
                    },
                    ..old(self)@
                }
                &&& final(layers).layers() == Seq::<LayerEntry>::empty()
                &&& *final(theme) == None::<ThemeOverride>
            },
    {
        if self.disabled {
            return None;
        }
        let told: bool = self.maybe_broadcast_pane_snapshot(true, sig);
        let ghost mid = *self;
        self.disabled = true;
        let revoked: bool = revoke_theme_override(theme);
        let closed: Vec<LayerEntry> = close_all(layers);
        let mut conns: Vec<u64> = Vec::new();
        std::mem::swap(&mut self.conns, &mut conns);
        let killed: Vec<u32> = self.pids();
        self.children = Vec::new();
        assert(child_views(self.children@) =~= Seq::<(Seq<char>, u32)>::empty());
        assert(self@ =~= HostView {
            conns: Seq::empty(),
            children: Seq::empty(),
            disabled: true,
            ..mid@
        });
        Some(ShutdownPlan { told, revoked, layers: closed, conns, killed })
    }
}

/// What there is of the plugins: the supervisor, the layers and the colours.
pub type World = (HostView, Seq<LayerEntry>, Option<ThemeOverride>);

/// What there is once a connection ended.
pub open spec fn ended(w: World, conn: u64) -> World {
    if w.0.conns.contains(conn) {
        (
            HostView {
                conns: conns_without(w.0.conns, conn),
                grants: grants_of_others(w.0.grants, conn),
                ..w.0
            },
            others(w.1, Which::Conn(conn)),
            match w.2 {
                Some(t) if t.conn == conn => None,
                t => t,
            },
        )
    } else {
        w
    }
}

/// What there is once connections ended, the last of them first.
pub open spec fn all_ended(w: World, conns: Seq<u64>) -> World
    decreases conns.len(),
{
    if conns.len() == 0 {
        w
    } else {
        all_ended(ended(w, conns.last()), conns.drop_last())
    }
}

/// What goes with a connection that ends: its layers, and whether the colours were its plugin's.
pub open spec fn parted(w: World, conn: u64) -> (Seq<LayerEntry>, bool) {
    if w.0.conns.contains(conn) {
        (those(w.1, Which::Conn(conn)), w.2 matches Some(t) && t.conn == conn)
    } else {
        (Seq::empty(), false)
    }
}

/// What goes with each of the connections that end, the last of them first.
pub open spec fn partings(w: World, conns: Seq<u64>) -> Seq<(Seq<LayerEntry>, bool)>
    decreases conns.len(),
{
    if conns.len() == 0 {
        Seq::empty()
    } else {
        seq![parted(w, conns.last())] + partings(ended(w, conns.last()), conns.drop_last())
    }
}

/// What is told of connections that ended.
pub open spec fn losses(d: Seq<Dropped>) -> Seq<(Seq<LayerEntry>, bool)> {
    d.map_values(|x: Dropped| (x.layers@, x.revoked))
}

impl PluginHost {
    /// Ends connections, the last of them first. The result tells of each what went with it.
    pub fn drop_conns(
        &mut self,
        conns: &Vec<u64>,
        layers: &mut Registry,
        theme: &mut Option<ThemeOverride>,
    ) -> (out: Vec<Dropped>)
        requires
            old(self).wf(),
            old(layers).wf(),
        ensures
            final(self).wf(),
            final(layers).wf(),
            final(layers).next() == old(layers).next(),
            (final(self)@, final(layers).layers(), *final(theme)) == all_ended(
                (old(self)@, old(layers).layers(), *old(theme)),
                conns@,
            ),
            losses(out@) == partings((old(self)@, old(layers).layers(), *old(theme)), conns@),
    {
        let mut out: Vec<Dropped> = Vec::new();
        let mut i: usize = conns.len();
        let ghost first = (self@, layers.layers(), *theme);
        assert(losses(out@) =~= Seq::<(Seq<LayerEntry>, bool)>::empty());
        assert(partings(first, conns@) =~= losses(out@) + partings(first, conns@));
        assert(conns@.take(i as int) =~= conns@);
        while i > 0
            invariant
                i <= conns@.len(),
                self.wf(),
                layers.wf(),
                layers.next() == old(layers).next(),
                all_ended(first, conns@) == all_ended(
                    (self@, layers.layers(), *theme),
                    conns@.take(i as int),
                ),
                partings(first, conns@) == losses(out@) + partings(
                    (self@, layers.layers(), *theme),
                    conns@.take(i as int),
                ),
            decreases i,
        {
            assert(conns@.take(i as int).drop_last() =~= conns@.take(i - 1));
            let ghost now = (self@, layers.layers(), *theme);
            let ghost was = out@;
            let d: Dropped = self.drop_conn(conns[i - 1], layers, theme);
            assert((self@, layers.layers(), *theme) == ended(now, conns@[i - 1]));
            assert((d.layers@, d.revoked) == parted(now, conns@[i - 1]));
            out.push(d);
            assert(losses(out@) =~= losses(was).push(parted(now, conns@[i - 1])));
            assert(partings(first, conns@) =~= losses(out@) + partings(
                (self@, layers.layers(), *theme),
                conns@.take(i - 1),
            ));
            i -= 1;
        }
        assert(partings(first, conns@) =~= losses(out@));
        out
    }
}

proof fn lemma_untried(enabled: Seq<Seq<char>>, tried: Seq<Seq<char>>)
    ensures
        forall|k: Seq<char>| #[trigger]
            untried(enabled, tried).contains(k) <==> enabled.contains(k) && !tried.contains(k),
    decreases enabled.len(),
{
    if enabled.len() > 0 {
        let init = enabled.drop_last();
        lemma_untried(init, tried);
        let first = untried(init, tried);
        let all = untried(enabled, tried);
        assert forall|k: Seq<char>| #[trigger] all.contains(k) <==> enabled.contains(k)
            && !tried.contains(k) by {
            if all.contains(k) {
                let i = all.index_of(k);
                if i < first.len() {
                    assert(first.contains(k));
                    let j = init.index_of(k);
                    assert(enabled[j] == k);
                } else {
                    assert(enabled[enabled.len() - 1] == k);
                }
            }
            if enabled.contains(k) && !tried.contains(k) {
                let j = enabled.index_of(k);
                if j < init.len() {
                    assert(init[j] == k);
                    assert(first.contains(k));
                }
                if first.contains(k) {
                    let i = first.index_of(k);
                    assert(all[i] == k);
                } else {
                    assert(all[all.len() - 1] == k);
                }
            }
        }
    }
}

/// A plugin is started once: a second time, there is none left to start.
pub proof fn lemma_started_once(enabled: Seq<Seq<char>>, tried: Seq<Seq<char>>)
    ensures
        untried(enabled, tried + untried(enabled, tried)) == Seq::<Seq<char>>::empty(),
{
    let first = untried(enabled, tried);
    let now = tried + first;
    let again = untried(enabled, now);
    lemma_untried(enabled, tried);
    lemma_untried(enabled, now);
    if again.len() > 0 {
        let k = again[0];
        assert(again.contains(k));
        assert(enabled.contains(k) && !now.contains(k));
        if tried.contains(k) {
            let i = tried.index_of(k);
            assert(now[i] == k);
        } else {
            assert(first.contains(k));
            let i = first.index_of(k);
            assert(now[tried.len() + i] == k);
        }
    }
    assert(again =~= Seq::<Seq<char>>::empty());
}

/// A plugin that was turned off is not on and has no process.
pub proof fn lemma_turned_off(enabled: Seq<Seq<char>>, children: Seq<(Seq<char>, u32)>, name: Seq<char>)
    ensures
        !names_without(enabled, name).contains(name),
        pids_of(other_children(children, name), name) == Seq::<u32>::empty(),
        pid_of(other_children(children, name), name) is None,
    decreases enabled.len() + children.len(),
{
    if enabled.len() > 0 {
        lemma_turned_off(enabled.drop_last(), children, name);
        let before = names_without(enabled.drop_last(), name);
        let after = names_without(enabled, name);
        if after.contains(name) {
            let i = after.index_of(name);
            if i < before.len() {
                assert(before[i] == name);
            }
        }
    } else if children.len() > 0 {
        let before = other_children(children.drop_last(), name);
        lemma_turned_off(enabled, children.drop_last(), name);
        if children.last().0 != name {
            let after = before.push(children.last());
            assert(after.drop_last() =~= before);
            lemma_pid_of_push(before, children.last(), name);
        }
    }
}

/// A plugin whose processes all ended has none once they are off the list.
pub proof fn lemma_ended_has_no_process(
    children: Seq<(Seq<char>, u32)>,
    states: Seq<ChildState>,
    name: Seq<char>,
)
    requires
        states.len() == children.len(),
        forall|i: int|
            0 <= i < states.len() && (#[trigger] children[i]).0 == name ==> states[i] is Exited,
    ensures
        pid_of(alive(children, states), name) is None,
    decreases children.len(),
{
    if children.len() > 0 {
        let c = children.drop_last();
        let s = states.drop_last();
        assert forall|i: int| 0 <= i < s.len() && (#[trigger] c[i]).0 == name implies s[i] is Exited by {
            assert(c[i] == children[i] && s[i] == states[i]);
        }
        lemma_ended_has_no_process(c, s, name);
        if states.last() is Running {
            assert(children[children.len() - 1].0 != name);
            lemma_pid_of_push(alive(c, s), children.last(), name);
        }
    }
}

proof fn lemma_pid_of_push(s: Seq<(Seq<char>, u32)>, c: (Seq<char>, u32), name: Seq<char>)
    requires
        pid_of(s, name) is None,
        c.0 != name,
    ensures
        pid_of(s.push(c), name) is None,
    decreases s.len(),
{
    reveal_with_fuel(pid_of, 2);
    if s.len() > 0 {
        assert(s.push(c)[0] == s[0]);
        assert(s.push(c).drop_first() =~= s.drop_first().push(c));
        lemma_pid_of_push(s.drop_first(), c, name);
    } else {
        assert(s.push(c).drop_first() =~= Seq::<(Seq<char>, u32)>::empty());
    }
}

/// A child stays on the list just where it has another name, and in its place.
pub proof fn lemma_which_children_stay(
    a: Seq<(Seq<char>, u32)>,
    x: (Seq<char>, u32),
    b: Seq<(Seq<char>, u32)>,
    name: Seq<char>,
)
    ensures
        x.0 != name ==> other_children(a + seq![x] + b, name) == other_children(a, name) + seq![x] + other_children(b, name),
        !(x.0 != name) ==> other_children(a + seq![x] + b, name) == other_children(a, name) + other_children(b, name),
        other_children(Seq::empty(), name) == Seq::<(Seq<char>, u32)>::empty(),
    decreases b.len(),
{
    let none = Seq::<(Seq<char>, u32)>::empty();
    let f = other_children(a, name);
    if b.len() == 0 {
        assert(b =~= none);
        assert(a + seq![x] + b =~= a.push(x));
        assert(a.push(x).drop_last() =~= a);
        assert(other_children(none, name) =~= Seq::<(Seq<char>, u32)>::empty());
        assert(f + Seq::<(Seq<char>, u32)>::empty() =~= f);
        assert(f + seq![x] + Seq::<(Seq<char>, u32)>::empty() =~= f.push(x));
    } else {
        let c = b.drop_last();
        lemma_which_children_stay(a, x, c, name);
        assert((a + seq![x] + b).drop_last() =~= a + seq![x] + c);
        assert((a + seq![x] + b).last() == b.last());
        assert(other_children(a + seq![x] + b, name) =~= if x.0 != name {
            f + seq![x] + other_children(b, name)
        } else {
            f + other_children(b, name)
        });
    }
}

/// A process is one of a name's just where its child has that name; they come in the order of the list.
pub proof fn lemma_whose_processes(
    a: Seq<(Seq<char>, u32)>,
    x: (Seq<char>, u32),
    b: Seq<(Seq<char>, u32)>,
    name: Seq<char>,
)
    ensures
        x.0 == name ==> pids_of(a + seq![x] + b, name) == pids_of(a, name) + seq![x.1] + pids_of(b, name),
        !(x.0 == name) ==> pids_of(a + seq![x] + b, name) == pids_of(a, name) + pids_of(b, name),
        pids_of(Seq::empty(), name) == Seq::<u32>::empty(),
    decreases b.len(),
{
    let none = Seq::<(Seq<char>, u32)>::empty();
    let f = pids_of(a, name);
    if b.len() == 0 {
        assert(b =~= none);
        assert(a + seq![x] + b =~= a.push(x));
        assert(a.push(x).drop_last() =~= a);
        assert(pids_of(none, name) =~= Seq::<u32>::empty());
        assert(f + Seq::<u32>::empty() =~= f);
        assert(f + seq![x.1] + Seq::<u32>::empty() =~= f.push(x.1));
    } else {
        let c = b.drop_last();
        lemma_whose_processes(a, x, c, name);
        assert((a + seq![x] + b).drop_last() =~= a + seq![x] + c);
        assert((a + seq![x] + b).last() == b.last());
        assert(pids_of(a + seq![x] + b, name) =~= if x.0 == name {
            f + seq![x.1] + pids_of(b, name)
        } else {
            f + pids_of(b, name)
        });
    }
}

/// Just the one connection goes, wherever it stands.
pub proof fn lemma_which_connections_stay(
    a: Seq<u64>,
    x: u64,
    b: Seq<u64>,
    conn: u64,
)
    ensures
        x != conn ==> conns_without(a + seq![x] + b, conn) == conns_without(a, conn) + seq![x] + conns_without(b, conn),
        !(x != conn) ==> conns_without(a + seq![x] + b, conn) == conns_without(a, conn) + conns_without(b, conn),
        conns_without(Seq::empty(), conn) == Seq::<u64>::empty(),
    decreases b.len(),
{
    let none = Seq::<u64>::empty();
    let f = conns_without(a, conn);
    if b.len() == 0 {
        assert(b =~= none);
        assert(a + seq![x] + b =~= a.push(x));
        assert(a.push(x).drop_last() =~= a);
        assert(conns_without(none, conn) =~= Seq::<u64>::empty());
        assert(f + Seq::<u64>::empty() =~= f);
        assert(f + seq![x] + Seq::<u64>::empty() =~= f.push(x));
    } else {
        let c = b.drop_last();
        lemma_which_connections_stay(a, x, c, conn);
        assert((a + seq![x] + b).drop_last() =~= a + seq![x] + c);
        assert((a + seq![x] + b).last() == b.last());
        assert(conns_without(a + seq![x] + b, conn) =~= if x != conn {
            f + seq![x] + conns_without(b, conn)
        } else {
            f + conns_without(b, conn)
        });
    }
}

/// A plugin's process is that of the first child with its name; it has none where no child has the name.
pub proof fn lemma_first_process_counts(a: Seq<(Seq<char>, u32)>, b: Seq<(Seq<char>, u32)>, name: Seq<char>, pid: u32)
    requires
        forall|i: int| 0 <= i < a.len() ==> (#[trigger] a[i]).0 != name,
    ensures
        pid_of(a, name) is None,
        pid_of(a + seq![(name, pid)] + b, name) == Some(pid),
    decreases a.len(),
{
    let s = a + seq![(name, pid)] + b;
    if a.len() > 0 {
        let c = a.drop_first();
        assert(a[0].0 != name);
        assert forall|i: int| 0 <= i < c.len() implies (#[trigger] c[i]).0 != name by {
            assert(c[i] == a[i + 1]);
        }
        lemma_first_process_counts(c, b, name, pid);
        assert(s[0] == a[0]);
        assert(s.drop_first() =~= c + seq![(name, pid)] + b);
    } else {
        assert(s[0] == (name, pid));
    }
}

/// The memory of a process is what is told of it first; nothing where nothing is told of it.
pub proof fn lemma_first_memory_counts(a: Seq<(u32, u64)>, b: Seq<(u32, u64)>, pid: u32, bytes: u64)
    requires
        forall|i: int| 0 <= i < a.len() ==> (#[trigger] a[i]).0 != pid,
    ensures
        memory_of(a, pid) is None,
        memory_of(a + seq![(pid, bytes)] + b, pid) == Some(bytes),
    decreases a.len(),
{
    let s = a + seq![(pid, bytes)] + b;
    if a.len() > 0 {
        let c = a.drop_first();
        assert(a[0].0 != pid);
        assert forall|i: int| 0 <= i < c.len() implies (#[trigger] c[i]).0 != pid by {
            assert(c[i] == a[i + 1]);
        }
        lemma_first_memory_counts(c, b, pid, bytes);
        assert(s[0] == a[0]);
        assert(s.drop_first() =~= c + seq![(pid, bytes)] + b);
    } else {
        assert(s[0] == (pid, bytes));
    }
}

/// Of the children just those stay whose processes run, in their order; of each that ended badly its exit
/// is noted under its name, in place of an earlier note, and no other note changes.
pub proof fn lemma_what_is_reaped(
    s: Seq<(Seq<char>, u32)>,
    states: Seq<ChildState>,
    errors: Map<Seq<char>, Seq<char>>,
    c: (Seq<char>, u32),
    state: ChildState,
)
    requires
        s.len() == states.len(),
    ensures
        alive(Seq::empty(), Seq::empty()) == Seq::<(Seq<char>, u32)>::empty(),
        with_exits(errors, Seq::empty(), Seq::empty()) == errors,
        state is Running ==> alive(s.push(c), states.push(state)) == alive(s, states).push(c),
        state is Exited ==> alive(s.push(c), states.push(state)) == alive(s, states),
        match state {
            ChildState::Exited(well, code) => if well {
                with_exits(errors, s.push(c), states.push(state)) == with_exits(errors, s, states)
            } else {
                with_exits(errors, s.push(c), states.push(state)) == with_exits(errors, s, states).insert(
                    c.0,
                    match code {
                        Some(n) => "已退出（code "@ + integer(n as int) + "）"@,
                        None => "已退出（code -1）"@,
                    },
                )
            },
            _ => with_exits(errors, s.push(c), states.push(state)) == with_exits(errors, s, states),
        },
{
    assert(s.push(c).drop_last() =~= s);
    assert(states.push(state).drop_last() =~= states);
    reveal_strlit("已退出（code ");
    reveal_strlit("）");
    reveal_strlit("已退出（code -1）");
    crate::text::lemma_decimal_digits(0, 1);
    assert(integer(-1) =~= seq!['-', '1']);
    assert("已退出（code "@ + integer(-1) + "）"@ =~= "已退出（code -1）"@);
}

/// The plugins to start are those that are on and were not tried, each once, and in the order in which
/// each is first named.
pub proof fn lemma_which_are_started(enabled: Seq<Seq<char>>, tried: Seq<Seq<char>>, more: Seq<Seq<char>>)
    ensures
        forall|k: Seq<char>| #[trigger]
            untried(enabled, tried).contains(k) <==> enabled.contains(k) && !tried.contains(k),
        untried(enabled, tried).no_duplicates(),
        untried(enabled + more, tried).len() >= untried(enabled, tried).len(),
        untried(enabled + more, tried).take(untried(enabled, tried).len() as int) == untried(
            enabled,
            tried,
        ),
    decreases enabled.len(), more.len(),
{
    lemma_untried(enabled, tried);
    let u = untried(enabled, tried);
    let n = u.len() as int;
    if more.len() > 0 {
        lemma_which_are_started(enabled, tried, more.drop_last());
        assert((enabled + more).drop_last() =~= enabled + more.drop_last());
        let before = untried(enabled + more.drop_last(), tried);
        assert(untried(enabled + more, tried).take(n) =~= before.take(n));
    } else {
        assert(enabled + more =~= enabled);
        assert(u.take(n) =~= u);
        if enabled.len() > 0 {
            let init = enabled.drop_last();
            lemma_which_are_started(init, tried, more);
            let first = untried(init, tried);
            assert forall|i: int, j: int| 0 <= i < u.len() && 0 <= j < u.len() && i != j implies u[i]
                != u[j] by {
                if i < first.len() && j < first.len() {
                    assert(first[i] != first[j]);
                } else if i < first.len() {
                    assert(first.contains(first[i]));
                } else if j < first.len() {
                    assert(first.contains(first[j]));
                }
            }
        }
    }
}

/// Once a connection ended, nothing of it is left: not the connection, nor a key, a layer or the colours
/// of its plugin. What belongs to others stays, and what goes is told.
pub proof fn lemma_nothing_is_left(w: World, conn: u64, g: crate::plugins::keys::HotkeyGrant, l: LayerEntry)
    requires
        conns_grow(w.0.conns, w.0.conn_ids),
        w.0.conns.contains(conn),
    ensures
        ({
            let e = ended(w, conn);
            &&& !e.0.conns.contains(conn)
            &&& forall|c: u64| c != conn ==> (#[trigger] e.0.conns.contains(c) <==> w.0.conns.contains(c))
            &&& e.0.grants.contains(g) <==> w.0.grants.contains(g) && g.conn != conn
            &&& e.1.contains(l) <==> w.1.contains(l) && l.conn != conn
            &&& parted(w, conn).0.contains(l) <==> w.1.contains(l) && l.conn == conn
            &&& match w.2 {
                Some(t) => parted(w, conn).1 == (t.conn == conn) && e.2 == if t.conn == conn {
                    None
                } else {
                    Some(t)
                },
                None => !parted(w, conn).1 && e.2 is None,
            }
            &&& e.0 == HostView { conns: e.0.conns, grants: e.0.grants, ..w.0 }
            &&& ended(e, conn) == e
            &&& parted(e, conn) == (Seq::<LayerEntry>::empty(), false)
        }),
{
    lemma_conns_without(w.0.conns, conn, w.0.conn_ids);
    lemma_grants_left(w.0.grants, conn, g);
    crate::layer::lemma_close_splits(w.1, Which::Conn(conn));
    if w.1.contains(l) {
    } else {
        if others(w.1, Which::Conn(conn)).contains(l) {
            crate::layer::lemma_others_from(w.1, Which::Conn(conn), l);
        }
        if those(w.1, Which::Conn(conn)).contains(l) {
            crate::layer::lemma_those_from(w.1, Which::Conn(conn), l);
        }
    }
}

proof fn lemma_grants_left(
    s: Seq<crate::plugins::keys::HotkeyGrant>,
    conn: u64,
    g: crate::plugins::keys::HotkeyGrant,
)
    ensures
        grants_of_others(s, conn).contains(g) <==> s.contains(g) && g.conn != conn,
    decreases s.len(),
{
    if s.len() > 0 {
        let init = s.drop_last();
        lemma_grants_left(init, conn, g);
        let before = grants_of_others(init, conn);
        let after = grants_of_others(s, conn);
        if before.contains(g) {
            assert(after[before.index_of(g)] == g);
        }
        if after.contains(g) {
            let i = after.index_of(g);
            if i < before.len() {
                assert(before[i] == g);
            }
        }
        if init.contains(g) {
            assert(s[init.index_of(g)] == g);
        }
        if s.contains(g) {
            let i = s.index_of(g);
            if i < init.len() {
                assert(init[i] == g);
            } else if g.conn != conn {
                assert(after[before.len() as int] == g);
            }
        }
        if s.last() == g {
            assert(s[s.len() - 1] == g);
        }
    }
}

/// Connections end one after the other, the last of the list first.
pub proof fn lemma_last_ends_first(w: World, conns: Seq<u64>, conn: u64)
    ensures
        all_ended(w, Seq::empty()) == w,
        partings(w, Seq::empty()) == Seq::<(Seq<LayerEntry>, bool)>::empty(),
        all_ended(w, conns.push(conn)) == all_ended(ended(w, conn), conns),
        partings(w, conns.push(conn)) == seq![parted(w, conn)] + partings(ended(w, conn), conns),
{
    assert(conns.push(conn).drop_last() =~= conns);
}

/// There is a supervisor from the start just where some plugin is on, and it has done nothing yet.
pub proof fn lemma_supervisor_at_the_start(path: String, cfg: PluginsConfig, r: Option<PluginHost>)
    requires
        call_ensures(PluginHost::start, (path, cfg), r),
    ensures
        r is Some <==> cfg.enabled@.len() > 0,
        r matches Some(h) ==> h@.path == path@ && h@.enabled == texts(cfg.enabled@) && h@.conns.len() == 0
            && h@.children.len() == 0 && h@.tried.len() == 0 && !h@.disabled && h@.grants.len() == 0,
{
}

/// The plugins that are on are started once: asked again, none is left.
pub proof fn lemma_started_only_once(
    a: &mut PluginHost,
    b: &mut PluginHost,
    x: Vec<String>,
    y: Vec<String>,
    name: Seq<char>,
)
    requires
        call_ensures(PluginHost::spawn_enabled_now, (a,), x),
        call_ensures(PluginHost::spawn_enabled_now, (b,), y),
        *final(a) == *old(b),
    ensures
        y@.len() == 0,
        old(a)@.disabled ==> x@.len() == 0,
        !old(a)@.disabled ==> (texts(x@).contains(name) <==> old(a)@.enabled.contains(name)
            && !old(a)@.tried.contains(name)),
{
    lemma_started_once(old(a)@.enabled, old(a)@.tried);
    lemma_untried(old(a)@.enabled, old(a)@.tried);
    assert(texts(y@).len() == y@.len());
}

/// A plugin that was started runs with that process, and no note says why it does not; of one that could
/// not be started a note says so, and nothing else changes.
pub proof fn lemma_start_is_noted(h: &mut PluginHost, name: &str, outcome: SpawnOutcome)
    requires
        call_ensures(PluginHost::note_spawn, (h, name, outcome), ()),
    ensures
        outcome matches SpawnOutcome::Started(pid, mtime) ==> {
            &&& final(h)@.children == old(h)@.children.push((name@, pid))
            &&& !final(h)@.errors.dom().contains(name@)
            &&& final(h)@.mtimes.dom().contains(name@) && final(h)@.mtimes[name@] == mtime
        },
        !(outcome is Started) ==> final(h)@.children == old(h)@.children && final(h)@.mtimes
            == old(h)@.mtimes && final(h)@.errors.dom().contains(name@),
        outcome is NoBinary ==> final(h)@.errors[name@] == "找不到二进制"@,
        outcome matches SpawnOutcome::Failed(why) ==> final(h)@.errors[name@] == "拉起失败："@ + why@,
        forall|k: Seq<char>|
            k != name@ && old(h)@.errors.dom().contains(k) ==> #[trigger] final(h)@.errors.dom().contains(k)
                && final(h)@.errors[k] == old(h)@.errors[k],
        final(h)@.enabled == old(h)@.enabled && final(h)@.conns == old(h)@.conns && final(h)@.tried
            == old(h)@.tried,
{
}

/// Hits have numbers that go up by one.
pub proof fn lemma_hits_are_numbered(a: &mut PluginHost, b: &mut PluginHost, x: u64, y: u64)
    requires
        call_ensures(PluginHost::next_hit_id, (a,), x),
        call_ensures(PluginHost::next_hit_id, (b,), y),
        *final(a) == *old(b),
        old(a)@.hits < u64::MAX - 1,
    ensures
        x == old(a)@.hits + 1,
        y == x + 1,
        final(b)@ == (HostView { hits: y, ..old(a)@ }),
{
}

/// A connection that comes has a number that none has, stands behind the others, and is told of the panes
/// anew; none comes once all plugins were turned off.
pub proof fn lemma_connection_is_new(h: &mut PluginHost, id: Option<u64>)
    requires
        call_ensures(PluginHost::pump_accept, (h,), id),
        old(h).wf(),
        old(h)@.conn_ids < u64::MAX,
    ensures
        id is None <==> old(h)@.disabled,
        id is None ==> final(h)@ == old(h)@,
        id matches Some(c) ==> !old(h)@.conns.contains(c) && final(h)@.conns == old(h)@.conns + seq![c]
            && final(h)@.sig is None && final(h)@.grants == old(h)@.grants,
{
    if let Some(c) = id {
        if old(h)@.conns.contains(c) {
            let i = old(h)@.conns.index_of(c);
            assert(old(h)@.conns[i] <= old(h)@.conn_ids);
        }
        assert(old(h)@.conns.push(c) =~= old(h)@.conns + seq![c]);
    }
}

/// A hit is told to the connections where there are any; else the plugins that were not tried are started;
/// and where there are none, or all were turned off, it is told to nobody.
pub proof fn lemma_who_is_told_of_a_hit(h: &mut PluginHost, r: DispatchStart)
    requires
        call_ensures(PluginHost::begin_dispatch, (h,), r),
    ensures
        r is Broadcast <==> !old(h)@.disabled && old(h)@.conns.len() > 0,
        r is ColdStart <==> !old(h)@.disabled && old(h)@.conns.len() == 0 && exists|k: Seq<char>| #[trigger]
            old(h)@.enabled.contains(k) && !old(h)@.tried.contains(k),
        !(r is ColdStart) ==> final(h)@ == old(h)@,
        r matches DispatchStart::ColdStart(v) ==> final(h)@.tried == old(h)@.tried + texts(v@),
{
    let u = untried(old(h)@.enabled, old(h)@.tried);
    lemma_untried(old(h)@.enabled, old(h)@.tried);
    if u.len() > 0 {
        assert(u.contains(u[0]));
    }
    if exists|k: Seq<char>| #[trigger] old(h)@.enabled.contains(k) && !old(h)@.tried.contains(k) {
        let k = choose|k: Seq<char>| #[trigger] old(h)@.enabled.contains(k) && !old(h)@.tried.contains(k);
        assert(u.contains(k));
    }
}

/// The plugins are told of the panes just where there are any that listen, and something changed or they
/// are to be told anyway; told once, they are not told the same again.
pub proof fn lemma_panes_are_told_once(
    a: &mut PluginHost,
    b: &mut PluginHost,
    force: bool,
    sig: String,
    x: bool,
    y: bool,
)
    requires
        call_ensures(PluginHost::maybe_broadcast_pane_snapshot, (a, force, sig), x),
        call_ensures(PluginHost::maybe_broadcast_pane_snapshot, (b, false, sig), y),
        *final(a) == *old(b),
    ensures
        x ==> final(a)@.sig == Some(sig@),
        !x ==> final(a)@ == old(a)@,
        !y,
        force && !old(a)@.disabled && old(a)@.conns.len() > 0 ==> x,
        old(a)@.disabled || old(a)@.conns.len() == 0 ==> !x,
        !force && old(a)@.sig == Some(sig@) ==> !x,
{
}

/// Once a connection ended nothing of it is left, what was its is told, and nothing of the others
/// changes; a connection that is not there changes nothing.
pub proof fn lemma_ended_connection_is_gone(
    h: &mut PluginHost,
    conn: u64,
    layers: &mut Registry,
    theme: &mut Option<ThemeOverride>,
    r: Dropped,
)
    requires
        call_ensures(PluginHost::drop_conn, (h, conn, layers, theme), r),
        old(h).wf(),
    ensures
        !final(h)@.conns.contains(conn),
        forall|c: u64| c != conn ==> (#[trigger] final(h)@.conns.contains(c) <==> old(h)@.conns.contains(c)),
        old(h)@.conns.contains(conn) ==> {
            &&& forall|l: LayerEntry| #[trigger]
                final(layers).layers().contains(l) ==> l.conn != conn && old(layers).layers().contains(l)
            &&& forall|l: LayerEntry| #[trigger]
                r.layers@.contains(l) ==> l.conn == conn && old(layers).layers().contains(l)
            &&& r.layers@.len() + final(layers).layers().len() == old(layers).layers().len()
            &&& *old(theme) matches Some(t) ==> (t.conn == conn ==> r.revoked && *final(theme) is None) && (
            t.conn != conn ==> !r.revoked && *final(theme) == *old(theme))
        },
        !old(h)@.conns.contains(conn) ==> r.layers@.len() == 0 && !r.revoked && final(h)@ == old(h)@
            && *final(theme) == *old(theme),
{
    lemma_conns_without(old(h)@.conns, conn, old(h)@.conn_ids);
    let s = old(layers).layers();
    if old(h)@.conns.contains(conn) {
        crate::layer::lemma_close_splits(s, Which::Conn(conn));
        assert forall|l: LayerEntry| #[trigger] final(layers).layers().contains(l) implies l.conn != conn
            && s.contains(l) by {
            lemma_others_from(s, Which::Conn(conn), l);
        }
        assert forall|l: LayerEntry| #[trigger] r.layers@.contains(l) implies l.conn == conn && s.contains(
            l,
        ) by {
            crate::layer::lemma_those_from(s, Which::Conn(conn), l);
        }
    }
}

/// Turning all plugins off ends every connection, kills every process, closes every layer and takes the
/// colours back; it is done once, and none can be started afterwards.
pub proof fn lemma_all_off_is_off(
    a: &mut PluginHost,
    b: &mut PluginHost,
    sig: String,
    layers: &mut Registry,
    theme: &mut Option<ThemeOverride>,
    more: &mut Registry,
    other: &mut Option<ThemeOverride>,
    x: Option<ShutdownPlan>,
    y: Option<ShutdownPlan>,
)
    requires
        call_ensures(PluginHost::shutdown, (a, sig, layers, theme), x),
        call_ensures(PluginHost::shutdown, (b, sig, more, other), y),
        *final(a) == *old(b),
    ensures
        x is Some <==> !old(a)@.disabled,
        y is None,
        final(a)@.disabled,
        x matches Some(p) ==> {
            &&& final(a)@.conns.len() == 0 && p.conns@ == old(a)@.conns
            &&& final(a)@.children.len() == 0 && p.killed@.len() == old(a)@.children.len()
            &&& forall|i: int| 0 <= i < p.killed@.len() ==> #[trigger] p.killed@[i] == old(a)@.children[i].1
            &&& final(layers).layers().len() == 0 && p.layers@ == old(layers).layers()
            &&& *final(theme) is None
            &&& p.revoked <==> *old(theme) is Some
            &&& p.told <==> old(a)@.conns.len() > 0
        },
{
}

/// A plugin is turned on just where not all were turned off and its name is bare; it is then on, and is
/// tried again unless it runs. Turning it off takes its name and its processes off the lists.
pub proof fn lemma_plugin_on_and_off(
    a: &mut PluginHost,
    b: &mut PluginHost,
    name: &str,
    states: &Vec<ChildState>,
    x: bool,
    y: (Vec<u32>, bool),
)
    requires
        call_ensures(PluginHost::session_enable, (a, name, states), x),
        call_ensures(PluginHost::session_disable, (b, name), y),
        *final(a) == *old(b),
    ensures
        x <==> !old(a)@.disabled && name@.len() > 0 && !name@.contains('/'),
        !x ==> final(a)@ == old(a)@,
        x ==> final(a)@.enabled.contains(name@),
        x && pid_of(final(a)@.children, name@) is None ==> !final(a)@.tried.contains(name@),
        !final(b)@.enabled.contains(name@),
        pid_of(final(b)@.children, name@) is None,
        y.1 <==> final(b)@.enabled.len() == 0,
{
    crate::plugins::table::lemma_name_is_added_once(reaped(old(a)@, states@).enabled, name@, name@);
    lemma_turned_off(old(b)@.enabled, old(b)@.children, name@);
    lemma_turned_off(old(a)@.tried, old(b)@.children, name@);
}

/// Restarting a plugin kills all its processes and no other; nothing is killed once all were turned off.
pub proof fn lemma_restart_kills_its_own(h: &mut PluginHost, name: &str, r: Option<Vec<u32>>)
    requires
        call_ensures(PluginHost::restart_plugin, (h, name), r),
    ensures
        r is None <==> old(h)@.disabled,
        r matches Some(v) ==> v@ == pids_of(old(h)@.children, name@) && pid_of(final(h)@.children, name@) is None
            && final(h)@.enabled == old(h)@.enabled,
        r is None ==> final(h)@ == old(h)@,
{
    lemma_turned_off(Seq::empty(), old(h)@.children, name@);
}

/// What is told of the plugins is of each that is known, once and in order: whether it is on, its process
/// where it has one, the memory of that where it is told, and why it does not run where it does not and
/// that is noted.
pub proof fn lemma_what_is_told(h: &PluginHost, memory: &Vec<(u32, u64)>, out: Vec<PluginStatus>, i: int)
    requires
        call_ensures(PluginHost::snapshot, (h, memory), out),
        0 <= i < out@.len(),
    ensures
        ({
            let p = out@[i];
            let pid = pid_of(h@.children, p.name@);
            &&& p.enabled <==> h@.enabled.contains(p.name@)
            &&& p.pid == pid
            &&& p.running <==> p.pid is Some
            &&& pid matches Some(n) ==> p.memory_bytes == memory_of(memory@, n)
            &&& pid is None ==> p.memory_bytes is None
            &&& p.running ==> p.last_error is None
            &&& !p.running && h@.errors.dom().contains(p.name@) ==> p.last_error is Some
                && p.last_error->0@ == h@.errors[p.name@]
            &&& !h@.errors.dom().contains(p.name@) ==> p.last_error is None
            &&& h@.enabled.contains(p.name@) || pid is Some || h@.errors.dom().contains(p.name@)
        }),
        forall|k: Seq<char>|
            h@.enabled.contains(k) || h@.errors.dom().contains(k) || pid_of(h@.children, k) is Some
                ==> #[trigger] status_names(out@).contains(k),
        forall|a: int, b: int|
            0 <= a < b < out@.len() ==> crate::plugins::table::before(
                (#[trigger] out@[a]).name@,
                (#[trigger] out@[b]).name@,
            ),
{
    let names = status_names(out@);
    assert(names[i] == out@[i].name@);
    assert(names.contains(names[i]));
    let k = out@[i].name@;
    if exists|j: int| 0 <= j < h@.children.len() && (#[trigger] h@.children[j]).0 == k {
        lemma_has_process(h@.children, k);
    }
    assert forall|n: Seq<char>|
        h@.enabled.contains(n) || h@.errors.dom().contains(n) || pid_of(h@.children, n) is Some implies
        #[trigger] names.contains(n) by {
        lemma_has_process(h@.children, n);
        assert(is_known(h@, n));
    }
    assert forall|a: int, b: int| 0 <= a < b < out@.len() implies crate::plugins::table::before(
        (#[trigger] out@[a]).name@,
        (#[trigger] out@[b]).name@,
    ) by {
        assert(names[a] == out@[a].name@ && names[b] == out@[b].name@);
    }
}

proof fn lemma_has_process(s: Seq<(Seq<char>, u32)>, name: Seq<char>)
    ensures
        pid_of(s, name) is Some <==> exists|i: int| 0 <= i < s.len() && (#[trigger] s[i]).0 == name,
    decreases s.len(),
{
    if s.len() > 0 {
        let t = s.drop_first();
        lemma_has_process(t, name);
        if s[0].0 == name {
            assert(s[0].0 == name);
        } else {
            if pid_of(t, name) is Some {
                let i = choose|i: int| 0 <= i < t.len() && (#[trigger] t[i]).0 == name;
                assert(s[i + 1].0 == name);
            }
            if exists|i: int| 0 <= i < s.len() && (#[trigger] s[i]).0 == name {
                let i = choose|i: int| 0 <= i < s.len() && (#[trigger] s[i]).0 == name;
                assert(t[i - 1].0 == name);
            }
        }
    }
}

/// A program that changed is told as such just where its time is known, is another one, and it has been
/// the same for a while; a time that is not known is noted then.
pub proof fn lemma_when_a_plugin_is_stale(
    h: &mut PluginHost,
    name: &str,
    mtime: Option<i128>,
    age: Option<u64>,
    r: bool,
)
    requires
        call_ensures(PluginHost::is_stale, (h, name, mtime, age), r),
    ensures
        r ==> final(h)@ == old(h)@ && mtime is Some && old(h)@.mtimes.dom().contains(name@)
            && old(h)@.mtimes[name@] is Some && old(h)@.mtimes[name@] != mtime,
        age is Some && age->0 < 300 ==> !r && final(h)@ == old(h)@,
        old(h)@.disabled || mtime is None ==> !r && final(h)@ == old(h)@,
        (age is None || age->0 >= 300) && !old(h)@.disabled && mtime is Some && old(
            h,
        )@.mtimes.dom().contains(name@) && old(h)@.mtimes[name@] is Some ==> r == (old(h)@.mtimes[name@]
            != mtime),
        (age is None || age->0 >= 300) && !old(h)@.disabled && mtime is Some && !old(
            h,
        )@.mtimes.dom().contains(name@) ==> final(h)@.mtimes.dom().contains(name@)
            && final(h)@.mtimes[name@] == mtime,
{
}

} // verus!
