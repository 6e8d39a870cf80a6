//! The plugins of this session: what turning one on or off comes to.

use vstd::prelude::*;
use vstd::string::*;

use crate::plugins::binary::{is_bare_name, PluginsConfig};
use crate::layer::{LayerEntry, Registry};
use crate::plugins::host::{
    is_known, lemma_ended_has_no_process, lemma_none_reaped, lemma_turned_off, other_children,
    pid_of, pids_of, reaped, status_names, tells, untried, ChildState, HostView, PluginHost,
    PluginStatus, ShutdownPlan,
};
use crate::plugins::table::{
    add_name, copy_names, in_order, names_with, names_without, without_name,
};
use crate::plugins::theme::ThemeOverride;
use crate::text::{pair_texts, texts};

verus! {

/// The plugins of this session: their supervisor, where there is one, and the configuration that the
/// session began with.
pub struct Session {
    host: Option<PluginHost>,
    startup: PluginsConfig,
}

/// What turning a plugin on or off comes to.
#[derive(Debug, PartialEq)]
pub enum Toggle {
    /// It is done; whether it could be.
    Done(bool),
    /// These processes are to be killed, and what they leave behind is to be cleared up. Where the
    /// second part says so, no plugin is on any more and all of it is to be shut down.
    Stop(Vec<u32>, bool),
    /// The plugin is to be started.
    Start,
    /// A socket is to be made first, at the path where one is given, else at the usual one; then the
    /// supervisor is put in place and starts what is on.
    Bind(Option<String>, PluginsConfig),
}

fn copy_pairs(v: &Vec<(String, String)>) -> (out: Vec<(String, String)>)
    ensures
        pair_texts(out@) == pair_texts(v@),
{
    let mut out: Vec<(String, String)> = Vec::new();
    let mut i: usize = 0;
    while i < v.len()
        invariant
            i <= v@.len(),
            out@.len() == i,
            forall|j: int|
                0 <= j < i ==> (#[trigger] out@[j]).0@ == v@[j].0@ && out@[j].1@ == v@[j].1@,
        decreases v@.len() - i,
    {
        out.push((v[i].0.clone(), v[i].1.clone()));
        i += 1;
    }
    assert(pair_texts(out@) =~= pair_texts(v@));
    out
}

/// The same configuration.
pub fn copy_config(c: &PluginsConfig) -> (out: PluginsConfig)
    ensures
        texts(out.enabled@) == texts(c.enabled@),
        pair_texts(out.paths@) == pair_texts(c.paths@),
{
    PluginsConfig { enabled: copy_names(&c.enabled), paths: copy_pairs(&c.paths) }
}

/// The supervisor's view of a configuration.
pub fn plugins_config(c: &crate::config::host::PluginsConfig) -> (out: PluginsConfig)
    ensures
        texts(out.enabled@) == texts(c.enabled@),
        pair_texts(out.paths@) == pair_texts(c.paths@),
{
    PluginsConfig { enabled: copy_names(&c.enabled), paths: copy_pairs(&c.paths) }
}

/// What is known of a plugin's program: when it changed, and how long ago that is in milliseconds.
#[derive(Clone, Debug, PartialEq)]
pub struct BinaryFact {
    pub name: String,
    pub mtime: Option<i128>,
    pub age_ms: Option<u64>,
}

/// The program changed since the plugin was started, and not just now.
pub open spec fn changed(h: HostView, f: BinaryFact) -> bool {
    &&& is_settled(h, f)
    &&& knows_time(h, f)
    &&& h.mtimes[f.name@] != f.mtime
}

/// There is something to tell of the program, and it did not change just now.
pub open spec fn is_settled(h: HostView, f: BinaryFact) -> bool {
    !h.disabled && f.mtime is Some && !(f.age_ms matches Some(a) && a < 300)
}

/// It is known when the program changed, as of the plugin's start.
pub open spec fn knows_time(h: HostView, f: BinaryFact) -> bool {
    h.mtimes.dom().contains(f.name@) && h.mtimes[f.name@] is Some
}

/// What the supervisor knows once it looked at a program.
pub open spec fn looked_at(h: HostView, f: BinaryFact) -> HostView {
    if is_settled(h, f) && !knows_time(h, f) {
        HostView { mtimes: h.mtimes.insert(f.name@, f.mtime), ..h }
    } else {
        h
    }
}

/// What the supervisor knows once it looked at the programs.
pub open spec fn looked_at_all(h: HostView, s: Seq<BinaryFact>) -> HostView
    decreases s.len(),
{
    if s.len() == 0 {
        h
    } else {
        looked_at(looked_at_all(h, s.drop_last()), s.last())
    }
}

/// The plugins whose programs changed.
pub open spec fn changed_names(h: HostView, s: Seq<BinaryFact>) -> Seq<Seq<char>>
    decreases s.len(),
{
    if s.len() == 0 {
        Seq::empty()
    } else {
        let before = changed_names(h, s.drop_last());
        if changed(looked_at_all(h, s.drop_last()), s.last()) {
            before.push(s.last().name@)
        } else {
            before
        }
    }
}

/// What turning a plugin on or off comes to, for the session as it was and as it is afterwards.
/// Without a supervisor, turning one off is done at once, and turning one on takes a supervisor
/// first. With one, turning a plugin off stops its processes; turning one on starts it, unless it
/// runs, its name has parts of a path, or a supervisor that was shut down has to be made anew; whether
/// it runs shows in `states`, which tells of each process.
pub open spec fn turned(
    was: Session,
    now: Session,
    name: Seq<char>,
    on: bool,
    states: Seq<ChildState>,
    r: Toggle,
) -> bool {
    &&& now.startup_paths() == was.startup_paths()
    &&& match was.host() {
        Some(h) => {
            &&& now.startup_enabled() == was.startup_enabled()
            &&& if !on {
                &&& r matches Toggle::Stop(pids, none_left)
                &&& pids@ == pids_of(h.children, name)
                &&& none_left == (names_without(h.enabled, name).len() == 0)
                &&& now.host() == Some(
                    HostView {
                        enabled: names_without(h.enabled, name),
                        children: other_children(h.children, name),
                        ..h
                    },
                )
            } else if h.disabled {
                &&& r matches Toggle::Bind(path, cfg)
                &&& path matches Some(p)
                &&& p@ == h.path
                &&& texts(cfg.enabled@) == names_with(h.enabled, name)
                &&& pair_texts(cfg.paths@) == pair_texts(h.paths)
                &&& now.host() == was.host()
            } else if !is_bare_name(name) {
                &&& r == Toggle::Done(false)
                &&& now.host() == was.host()
            } else if pid_of(reaped(h, states).children, name) is Some {
                &&& r == Toggle::Done(true)
                &&& now.host() == Some(
                    HostView { enabled: names_with(h.enabled, name), ..reaped(h, states) },
                )
            } else {
                &&& r is Start
                &&& now.host() == Some(
                    HostView {
                        enabled: names_with(h.enabled, name),
                        tried: names_without(h.tried, name),
                        ..reaped(h, states)
                    },
                )
            }
        },
        None => {
            &&& now.host() is None
            &&& if !on {
                &&& r == Toggle::Done(true)
                &&& now.startup_enabled() == names_without(
                    was.startup_enabled(),
                    name,
                )
            } else {
                &&& r matches Toggle::Bind(path, cfg)
                &&& path is None
                &&& texts(cfg.enabled@) == names_with(was.startup_enabled(), name)
                &&& pair_texts(cfg.paths@) == was.startup_paths()
                &&& now.startup_enabled() == was.startup_enabled()
            }
        },
    }
}

/// Turning on a plugin that is on and runs, as all processes do, is done at once and changes nothing.
pub proof fn lemma_on_is_on(
    was: Session,
    now: Session,
    name: Seq<char>,
    states: Seq<ChildState>,
    r: Toggle,
)
    requires
        was.host() matches Some(h) && !h.disabled && h.enabled.contains(name) && pid_of(
            h.children,
            name,
        ) is Some && states.len() == h.children.len(),
        forall|i: int| 0 <= i < states.len() ==> #[trigger] states[i] is Running,
        is_bare_name(name),
        turned(was, now, name, true, states, r),
    ensures
        r == Toggle::Done(true),
        now.host() == was.host(),
        now.startup_enabled() == was.startup_enabled(),
        now.startup_paths() == was.startup_paths(),
{
    lemma_none_reaped(was.host()->0, states);
}

/// Turning on a plugin whose processes all ended starts it, though they are still on the list.
pub proof fn lemma_ended_is_started(
    was: Session,
    now: Session,
    name: Seq<char>,
    states: Seq<ChildState>,
    r: Toggle,
)
    requires
        was.host() matches Some(h) && !h.disabled && states.len() == h.children.len() && forall|
            i: int,
        |
            0 <= i < states.len() && (#[trigger] h.children[i]).0 == name ==> states[i] is Exited,
        is_bare_name(name),
        turned(was, now, name, true, states, r),
    ensures
        r == Toggle::Start,
        now.host() matches Some(g) && g.enabled.contains(name) && !g.tried.contains(name),
{
    let h = was.host()->0;
    lemma_ended_has_no_process(h.children, states, name);
    lemma_turned_off(h.tried, Seq::empty(), name);
    let g = names_with(h.enabled, name);
    if !h.enabled.contains(name) {
        assert(g[g.len() - 1] == name);
    }
}

impl Session {
    /// What the supervisor knows, where there is one.
    pub closed spec fn host(self) -> Option<HostView> {
        match self.host {
            Some(h) => Some(h@),
            None => None,
        }
    }

    /// The plugins that were on when the session began, less those that were turned off before there
    /// was a supervisor.
    pub closed spec fn startup_enabled(self) -> Seq<Seq<char>> {
        texts(self.startup.enabled@)
    }

    /// The paths that were set when the session began.
    pub closed spec fn startup_paths(self) -> Seq<(Seq<char>, Seq<char>)> {
        pair_texts(self.startup.paths@)
    }

    /// The supervisor is in order.
    pub closed spec fn wf(self) -> bool {
        self.host matches Some(h) ==> h.wf()
    }

    /// A session with this configuration and no supervisor yet.
    pub fn init(cfg: PluginsConfig) -> (s: Session)
        ensures
            s.wf(),
            s.host() is None,
            s.startup_enabled() == texts(cfg.enabled@),
            s.startup_paths() == pair_texts(cfg.paths@),
    {
        Session { host: None, startup: cfg }
    }

    /// Puts a supervisor in place.
    pub fn install(&mut self, host: PluginHost)
        requires
            host.wf(),
        ensures
            final(self).wf(),
            final(self).host() == Some(host@),
            final(self).startup_enabled() == old(self).startup_enabled(),
            final(self).startup_paths() == old(self).startup_paths(),
    {
        self.host = Some(host);
    }

    /// Takes the supervisor out, to work with it.
    pub fn take(&mut self) -> (r: Option<PluginHost>)
        requires
            old(self).wf(),
        ensures
            final(self).wf(),
            final(self).host() is None,
            match r {
                Some(h) => h.wf() && old(self).host() == Some(h@),
                None => old(self).host() is None,
            },
            final(self).startup_enabled() == old(self).startup_enabled(),
            final(self).startup_paths() == old(self).startup_paths(),
    {
        let mut out: Option<PluginHost> = None;
        std::mem::swap(&mut self.host, &mut out);
        out
    }

    /// The configuration of the session: the supervisor's, which turning plugins on and off changes,
    /// or the one that it began with.
    pub fn session_cfg(&self) -> (c: PluginsConfig)
        ensures
            match self.host() {
                Some(h) => texts(c.enabled@) == h.enabled && pair_texts(c.paths@) == pair_texts(h.paths),
                None => texts(c.enabled@) == self.startup_enabled() && pair_texts(c.paths@)
                    == self.startup_paths(),
            },
    {
        match &self.host {
            Some(h) => copy_config(h.cfg()),
            None => copy_config(&self.startup),
        }
    }

    /// The plugins to start when the program has begun; none without a supervisor.
    pub fn spawn_startup_plugins(&mut self) -> (names: Vec<String>)
        requires
            old(self).wf(),
        ensures
            final(self).wf(),
            final(self).startup_enabled() == old(self).startup_enabled(),
            final(self).startup_paths() == old(self).startup_paths(),
            match old(self).host() {
                Some(h) => if h.disabled {
                    names@.len() == 0 && final(self).host() == Some(h)
                } else {
                    &&& texts(names@) == untried(h.enabled, h.tried)
                    &&& final(self).host() == Some(
                        HostView { tried: h.tried + untried(h.enabled, h.tried), ..h },
                    )
                },
                None => names@.len() == 0 && final(self).host() is None,
            },
    {
        let mut host: Option<PluginHost> = None;
        std::mem::swap(&mut self.host, &mut host);
        match host {
            Some(mut h) => {
                let names: Vec<String> = h.spawn_enabled_now();
                self.host = Some(h);
                names
            },
            None => Vec::new(),
        }
    }

    /// The plugins to restart because their programs changed; none without a supervisor.
    pub fn watch_plugin_binaries(&mut self, facts: &Vec<BinaryFact>) -> (names: Vec<String>)
        requires
            old(self).wf(),
        ensures
            final(self).wf(),
            final(self).startup_enabled() == old(self).startup_enabled(),
            final(self).startup_paths() == old(self).startup_paths(),
            match old(self).host() {
                Some(h) => {
                    &&& texts(names@) == changed_names(h, facts@)
                    &&& final(self).host() == Some(looked_at_all(h, facts@))
                },
                None => names@.len() == 0 && final(self).host() is None,
            },
    {
        let mut host: Option<PluginHost> = None;
        std::mem::swap(&mut self.host, &mut host);
        match host {
            Some(mut h) => {
                let ghost first = h@;
                let mut names: Vec<String> = Vec::new();
                let mut i: usize = 0;
                assert(facts@.take(0) =~= Seq::<BinaryFact>::empty());
                assert(texts(names@) =~= Seq::<Seq<char>>::empty());
                while i < facts.len()
                    invariant
                        i <= facts@.len(),
                        h.wf(),
                        h@ == looked_at_all(first, facts@.take(i as int)),
                        texts(names@) == changed_names(first, facts@.take(i as int)),
                    decreases facts@.len() - i,
                {
                    assert(facts@.take(i + 1).drop_last() =~= facts@.take(i as int));
                    let f: &BinaryFact = &facts[i];
                    if h.is_stale(f.name.as_str(), f.mtime, f.age_ms) {
                        let ghost was = names@;
                        names.push(f.name.clone());
                        assert(texts(names@) =~= texts(was).push(f.name@));
                    }
                    i += 1;
                }
                assert(facts@.take(i as int) =~= facts@);
                self.host = Some(h);
                names
            },
            None => Vec::new(),
        }
    }

    /// What there is to tell of the plugins; nothing without a supervisor.
    pub fn status_snapshot(&self, memory: &Vec<(u32, u64)>) -> (out: Vec<PluginStatus>)
        ensures
            match self.host() {
                Some(h) => {
                    &&& in_order(status_names(out@))
                    &&& forall|k: Seq<char>| #[trigger]
                        status_names(out@).contains(k) <==> is_known(h, k)
                    &&& forall|i: int| 0 <= i < out@.len() ==> tells(#[trigger] out@[i], h, memory@)
                },
                None => out@.len() == 0,
            },
    {
        match &self.host {
            Some(h) => h.snapshot(memory),
            None => Vec::new(),
        }
    }

    /// Turns all plugins off at the end of the program. Nothing changes without a supervisor, or
    /// where that was done before.
    pub fn host_shutdown(
        &mut self,
        sig: String,
        layers: &mut Registry,
        theme: &mut Option<ThemeOverride>,
    ) -> (r: Option<ShutdownPlan>)
        requires
            old(self).wf(),
            old(layers).wf(),
        ensures
            final(self).wf(),
            final(layers).wf(),
            final(self).startup_enabled() == old(self).startup_enabled(),
            final(self).startup_paths() == old(self).startup_paths(),
            final(layers).next() == old(layers).next(),
            match old(self).host() {
                Some(h) if !h.disabled => {
                    &&& r matches Some(p)
                    &&& p.told == (h.conns.len() > 0)
                    &&& p.revoked == (*old(theme) is Some)
                    &&& p.layers@ == old(layers).layers()
                    &&& p.conns@ == h.conns
                    &&& p.killed@ == h.children.map_values(|c: (Seq<char>, u32)| c.1)
                    &&& final(self).host() == Some(
                        HostView {
                            conns: Seq::empty(),
                            children: Seq::empty(),
                            disabled: true,
                            sig: if p.told {
                                Some(sig@)
                            } else {
                                h.sig
                            },
                            ..h
                        },
                    )
                    &&& final(layers).layers() == Seq::<LayerEntry>::empty()
                    &&& *final(theme) == None::<ThemeOverride>
                },
                _ => {
                    &&& r is None
                    &&& final(self).host() == old(self).host()
                    &&& final(layers).layers() == old(layers).layers()
                    &&& *final(theme) == *old(theme)
                },
            },
    {
        let mut host: Option<PluginHost> = None;
        std::mem::swap(&mut self.host, &mut host);
        match host {
            Some(mut h) => {
                let r: Option<ShutdownPlan> = h.shutdown(sig, layers, theme);
                self.host = Some(h);
                r
            },
            None => None,
        }
    }

    /// Turns a plugin on or off. Off: the supervisor's plugin stops; without a supervisor it is only
    /// taken off the list. On: the supervisor starts it; where all plugins were turned off, or there
    /// is no supervisor, a socket is made first, with the plugin on the list.
    /// `states` tells of each process of the supervisor's.
    pub fn toggle_plugin(&mut self, name: &str, on: bool, states: &Vec<ChildState>) -> (r: Toggle)
        requires
            old(self).wf(),
            on ==> (old(self).host() matches Some(h) ==> states@.len() == h.children.len()),
        ensures
            final(self).wf(),
            turned(*old(self), *final(self), name@, on, states@, r),
    {
        let mut host: Option<PluginHost> = None;
        std::mem::swap(&mut self.host, &mut host);
        match host {
            Some(mut h) => {
                let r: Toggle = if !on {
                    let (pids, none_left) = h.session_disable(name);
                    Toggle::Stop(pids, none_left)
                } else if h.is_disabled() {
                    let mut cfg: PluginsConfig = copy_config(h.cfg());
                    add_name(&mut cfg.enabled, name);
                    Toggle::Bind(Some(h.path().to_owned()), cfg)
                } else if h.session_enable(name, states) {
                    if h.running_pid(name).is_some() {
                        Toggle::Done(true)
                    } else {
                        Toggle::Start
                    }
                } else {
                    Toggle::Done(false)
                };
                self.host = Some(h);
                r
            },
            None => if !on {
                self.startup.enabled = without_name(&self.startup.enabled, name);
                Toggle::Done(true)
            } else {
                let mut cfg: PluginsConfig = copy_config(&self.startup);
                add_name(&mut cfg.enabled, name);
                Toggle::Bind(None, cfg)
            },
        }
    }
}

/// A plugin is started anew just where all plugins are not shut down, its program is there, did not
/// change within the last 300 milliseconds, and has another time than the one known.
pub proof fn lemma_when_a_program_changed(h: HostView, f: BinaryFact)
    ensures
        changed(h, f) <==> {
            &&& !h.disabled
            &&& f.mtime is Some
            &&& f.age_ms is None || f.age_ms->0 >= 300
            &&& h.mtimes.dom().contains(f.name@)
            &&& h.mtimes[f.name@] is Some
            &&& h.mtimes[f.name@] != f.mtime
        },
{
}

/// A time is noted at the first look at a program that has been the same for a while, and never after:
/// a second look at the same tells of no change and notes nothing, and nothing else is ever noted.
pub proof fn lemma_times_are_noted_once(h: HostView, f: BinaryFact, name: Seq<char>)
    ensures
        name != f.name@ && h.mtimes.dom().contains(name) ==> looked_at(h, f).mtimes.dom().contains(name)
            && looked_at(h, f).mtimes[name] == h.mtimes[name],
        h.mtimes.dom().contains(f.name@) && h.mtimes[f.name@] is Some ==> looked_at(h, f) == h,
        !(h.mtimes.dom().contains(f.name@) && h.mtimes[f.name@] is Some) && !h.disabled && f.mtime is Some
            && (f.age_ms is None || f.age_ms->0 >= 300) ==> looked_at(h, f).mtimes == h.mtimes.insert(
            f.name@,
            f.mtime,
        ),
        looked_at(looked_at(h, f), f) == looked_at(h, f),
        changed(looked_at(h, f), f) == changed(h, f),
        h.disabled || f.mtime is None || (f.age_ms is Some && f.age_ms->0 < 300) ==> looked_at(h, f) == h,
        looked_at(h, f) == (HostView { mtimes: looked_at(h, f).mtimes, ..h }),
{
}

/// Programs are looked at one after the other, each with what the earlier looks noted; those that changed
/// are told in that order.
pub proof fn lemma_programs_in_order(
    h: HostView,
    a: Seq<BinaryFact>,
    b: Seq<BinaryFact>,
    f: BinaryFact,
)
    ensures
        looked_at_all(h, a + b) == looked_at_all(looked_at_all(h, a), b),
        changed_names(h, a + b) == changed_names(h, a) + changed_names(looked_at_all(h, a), b),
        looked_at_all(h, seq![f]) == looked_at(h, f),
        changed(h, f) ==> changed_names(h, seq![f]) == seq![f.name@],
        !changed(h, f) ==> changed_names(h, seq![f]) == Seq::<Seq<char>>::empty(),
    decreases b.len(),
{
    let none = Seq::<BinaryFact>::empty();
    assert(seq![f].drop_last() =~= none);
    assert(looked_at_all(h, none) == h);
    assert(changed_names(h, none) =~= Seq::<Seq<char>>::empty());
    assert(Seq::<Seq<char>>::empty().push(f.name@) =~= seq![f.name@]);
    if b.len() > 0 {
        lemma_programs_in_order(h, a, b.drop_last(), f);
        assert((a + b).drop_last() =~= a + b.drop_last());
        assert((a + b).last() == b.last());
        assert(changed_names(h, a + b) =~= changed_names(h, a) + changed_names(
            looked_at_all(h, a),
            b,
        ));
    } else {
        assert(a + b =~= a);
        assert(changed_names(h, a) + changed_names(looked_at_all(h, a), b) =~= changed_names(h, a));
    }
}

/// Turning a plugin off where there is a supervisor stops all its processes and no other, takes its name
/// off the list, and tells whether any plugin is still on; what was started with does not change.
pub proof fn lemma_off_is_off(
    was: Session,
    now: Session,
    name: Seq<char>,
    states: Seq<ChildState>,
    r: Toggle,
)
    requires
        was.host() is Some,
        turned(was, now, name, false, states, r),
    ensures
        now.startup_enabled() == was.startup_enabled(),
        now.startup_paths() == was.startup_paths(),
        now.host() is Some,
        !now.host()->0.enabled.contains(name),
        pid_of(now.host()->0.children, name) is None,
        r matches Toggle::Stop(pids, none_left) && pids@ == pids_of(was.host()->0.children, name)
            && none_left == (now.host()->0.enabled.len() == 0),
        now.host()->0 == (HostView {
            enabled: now.host()->0.enabled,
            children: now.host()->0.children,
            ..was.host()->0
        }),
{
    lemma_turned_off(was.host()->0.enabled, was.host()->0.children, name);
}

/// Without a supervisor nothing runs: turning a plugin off is done once its name is off the list that the
/// session began with, and turning one on asks for a supervisor with it on the list, at the usual place.
pub proof fn lemma_without_a_supervisor(
    was: Session,
    now: Session,
    name: Seq<char>,
    on: bool,
    states: Seq<ChildState>,
    r: Toggle,
)
    requires
        was.host() is None,
        turned(was, now, name, on, states, r),
    ensures
        now.host() is None,
        now.startup_paths() == was.startup_paths(),
        !on ==> r == Toggle::Done(true) && !now.startup_enabled().contains(name),
        on ==> now.startup_enabled() == was.startup_enabled(),
        on ==> (r matches Toggle::Bind(path, cfg) && path is None && texts(cfg.enabled@).contains(name)
            && pair_texts(cfg.paths@) == was.startup_paths()),
{
    lemma_turned_off(was.startup_enabled(), Seq::empty(), name);
    crate::plugins::table::lemma_name_is_added_once(was.startup_enabled(), name, name);
}

/// Once all plugins were turned off, turning one on asks for a supervisor at the same socket, with the
/// plugins that were on and this one; until then nothing changes. A name that is not bare changes nothing
/// and is told to be none.
pub proof fn lemma_on_again(
    was: Session,
    now: Session,
    name: Seq<char>,
    states: Seq<ChildState>,
    r: Toggle,
)
    requires
        was.host() is Some,
        turned(was, now, name, true, states, r),
    ensures
        was.host()->0.disabled ==> now.host() == was.host() && (r matches Toggle::Bind(path, cfg)
            && path is Some && path->0@ == was.host()->0.path && texts(cfg.enabled@).contains(name)
            && forall|k: Seq<char>|
            was.host()->0.enabled.contains(k) ==> #[trigger] texts(cfg.enabled@).contains(k)),
        !was.host()->0.disabled && !is_bare_name(name) ==> now.host() == was.host() && r == Toggle::Done(
            false,
        ),
        !was.host()->0.disabled && is_bare_name(name) ==> now.host() is Some
            && now.host()->0.enabled.contains(name) && (r is Start || r == Toggle::Done(true)) && (r
            is Start <==> pid_of(reaped(was.host()->0, states).children, name) is None),
{
    let h = was.host()->0;
    crate::plugins::table::lemma_name_is_added_once(h.enabled, name, name);
    assert forall|k: Seq<char>| h.enabled.contains(k) implies #[trigger] names_with(h.enabled, name).contains(
        k,
    ) by {
        crate::plugins::table::lemma_name_is_added_once(h.enabled, name, k);
    }
}

/// The configuration of the session is the supervisor's where there is one, else the one it began with.
pub proof fn lemma_configuration_of_the_session(s: &Session, c: PluginsConfig)
    requires
        call_ensures(Session::session_cfg, (s,), c),
    ensures
        s.host() matches Some(h) ==> texts(c.enabled@) == h.enabled,
        s.host() is None ==> texts(c.enabled@) == s.startup_enabled() && pair_texts(c.paths@)
            == s.startup_paths(),
{
}

/// Without a supervisor nothing is started, told or turned off, and no program is looked at.
pub proof fn lemma_nothing_without_a_supervisor(
    a: &mut Session,
    b: &mut Session,
    c: &Session,
    facts: &Vec<BinaryFact>,
    memory: &Vec<(u32, u64)>,
    x: Vec<String>,
    y: Vec<String>,
    z: Vec<PluginStatus>,
)
    requires
        call_ensures(Session::spawn_startup_plugins, (a,), x),
        call_ensures(Session::watch_plugin_binaries, (b, facts), y),
        call_ensures(Session::status_snapshot, (c, memory), z),
    ensures
        old(a).host() is None ==> x@.len() == 0 && final(a).host() is None,
        old(b).host() is None ==> y@.len() == 0 && final(b).host() is None,
        c.host() is None ==> z@.len() == 0,
        old(a).host() matches Some(h) ==> h.disabled ==> x@.len() == 0 && final(a).host() == Some(h),
        old(a).host() matches Some(h) ==> !h.disabled ==> texts(x@) == untried(h.enabled, h.tried),
        old(b).host() matches Some(h) ==> texts(y@) == changed_names(h, facts@) && final(b).host() == Some(
            looked_at_all(h, facts@),
        ),
{
}

/// A supervisor that is put in place is there, and is taken out as it was put in; what the session began
/// with does not change.
pub proof fn lemma_supervisor_in_and_out(a: &mut Session, b: &mut Session, h: PluginHost, r: Option<PluginHost>)
    requires
        call_ensures(Session::install, (a, h), ()),
        call_ensures(Session::take, (b,), r),
        *final(a) == *old(b),
    ensures
        r is Some && r->0@ == h@,
        final(b).host() is None,
        final(b).startup_enabled() == old(a).startup_enabled(),
        final(b).startup_paths() == old(a).startup_paths(),
{
}

} // verus!
