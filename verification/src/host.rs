//! The host of the terminal: its surfaces, its configuration and what it does about the terminal's
//! actions.

use vstd::prelude::*;
use vstd::string::*;
use vstd::utf8::*;

use crate::config::files::{watched_views, WatchState, WatchedFile};
use crate::pane::tree::Dir;
use crate::pane::ResizeDir;
use crate::url::utf8_text;

verus! {

/// The colour of the ring round the focused pane where the configuration has none.
pub const RING_FALLBACK: (u8, u8, u8) = (0x52, 0x8b, 0xff);

/// The background where the configuration has none.
pub const BG_FALLBACK: (u8, u8, u8) = (0x16, 0x16, 0x1e);

/// The colour of a divider where there is no host.
pub const DIVIDER_FALLBACK: (u8, u8, u8) = (0x3e, 0x44, 0x52);

/// A terminal's surface and the pane that shows it.
#[derive(Clone, Copy, Debug, PartialEq, Eq, Structural)]
pub struct LiveSurface {
    pub surface: u64,
    pub pane: u32,
}

/// The host. The terminal's application and its configuration are known by their handles.
pub struct Host {
    app: u64,
    config: u64,
    watch: WatchState,
    reload_scheduled: bool,
    live: Vec<LiveSurface>,
    pending_free: Vec<LiveSurface>,
    free_scheduled: bool,
    bg: (u8, u8, u8),
    ring: (u8, u8, u8),
    next_pane: u32,
}

/// What the host knows.
#[verifier::ext_equal]
pub struct HostState {
    pub app: u64,
    pub config: u64,
    /// The configuration files, and when they last changed.
    pub watched: Seq<(Seq<char>, Option<i128>)>,
    /// The configuration is about to be loaded anew.
    pub reload: bool,
    /// The surfaces in use.
    pub live: Seq<LiveSurface>,
    /// The surfaces that are to be freed.
    pub pending: Seq<LiveSurface>,
    /// They are about to be freed.
    pub freeing: bool,
    pub bg: (u8, u8, u8),
    pub ring: (u8, u8, u8),
    /// The number of the next pane.
    pub next_pane: u32,
}

/// The surfaces without one of them.
pub open spec fn surfaces_without(s: Seq<LiveSurface>, surface: u64) -> Seq<LiveSurface>
    decreases s.len(),
{
    if s.len() == 0 {
        s
    } else if s.last().surface == surface {
        surfaces_without(s.drop_last(), surface)
    } else {
        surfaces_without(s.drop_last(), surface).push(s.last())
    }
}

/// The place of the first entry of a surface.
pub open spec fn surface_at(s: Seq<LiveSurface>, surface: u64) -> Option<int>
    decreases s.len(),
{
    if s.len() == 0 {
        None
    } else if s[0].surface == surface {
        Some(0)
    } else {
        match surface_at(s.drop_first(), surface) {
            Some(i) => Some(i + 1),
            None => None,
        }
    }
}

/// A colour or the one to fall back on.
pub open spec fn color_or(c: Option<(u8, u8, u8)>, fallback: (u8, u8, u8)) -> (u8, u8, u8) {
    match c {
        Some(v) => v,
        None => fallback,
    }
}

/// The ring's colour: the cursor's, else the foreground's, else a fixed one.
pub open spec fn ring_color(cursor: Option<(u8, u8, u8)>, fg: Option<(u8, u8, u8)>) -> (u8, u8, u8) {
    color_or(cursor, color_or(fg, RING_FALLBACK))
}

impl Host {
    /// What the host knows.
    pub closed spec fn view(self) -> HostState {
        HostState {
            app: self.app,
            config: self.config,
            watched: self.watch.files(),
            reload: self.reload_scheduled,
            live: self.live@,
            pending: self.pending_free@,
            freeing: self.free_scheduled,
            bg: self.bg,
            ring: self.ring,
            next_pane: self.next_pane,
        }
    }

    /// A host for an application and its configuration. `watched` are the configuration files; the
    /// colours are what the configuration has.
    pub fn init(
        app: u64,
        config: u64,
        watched: Vec<WatchedFile>,
        background: Option<(u8, u8, u8)>,
        cursor: Option<(u8, u8, u8)>,
        foreground: Option<(u8, u8, u8)>,
    ) -> (h: Host)
        ensures
            h@ == (HostState {
                app,
                config,
                watched: watched_views(watched@),
                reload: false,
                live: Seq::empty(),
                pending: Seq::empty(),
                freeing: false,
                bg: color_or(background, BG_FALLBACK),
                ring: ring_color(cursor, foreground),
                next_pane: 1,
            }),
    {
        let mut h: Host = Host {
            app,
            config,
            watch: WatchState::new(watched),
            reload_scheduled: false,
            live: Vec::new(),
            pending_free: Vec::new(),
            free_scheduled: false,
            bg: BG_FALLBACK,
            ring: RING_FALLBACK,
            next_pane: 1,
        };
        h.refresh_derived(background, cursor, foreground);
        h
    }

    /// Takes the colours that follow from the configuration from it.
    pub fn refresh_derived(
        &mut self,
        background: Option<(u8, u8, u8)>,
        cursor: Option<(u8, u8, u8)>,
        foreground: Option<(u8, u8, u8)>,
    )
        ensures
            final(self)@ == (HostState {
                bg: color_or(background, BG_FALLBACK),
                ring: ring_color(cursor, foreground),
                ..old(self)@
            }),
    {
        self.bg = match background {
            Some(c) => c,
            None => BG_FALLBACK,
        };
        self.ring = match cursor {
            Some(c) => c,
            None => match foreground {
                Some(c) => c,
                None => RING_FALLBACK,
            },
        };
    }

    /// The number of a new pane. Numbers begin again once they are used up.
    pub fn next_pane_id(&mut self) -> (id: u32)
        ensures
            id == old(self)@.next_pane,
            final(self)@ == (HostState {
                next_pane: if id == u32::MAX {
                    0
                } else {
                    (id + 1) as u32
                },
                ..old(self)@
            }),
    {
        let id: u32 = self.next_pane;
        self.next_pane = if id == u32::MAX {
            0
        } else {
            id + 1
        };
        id
    }

    /// Takes in the surface of a pane.
    pub fn attach_surface(&mut self, surface: u64, pane: u32)
        ensures
            final(self)@ == (HostState {
                live: old(self)@.live.push((LiveSurface { surface, pane })),
                ..old(self)@
            }),
    {
        self.live.push(LiveSurface { surface, pane });
    }

    /// The place of a surface among those in use.
    fn position(&self, surface: u64) -> (r: Option<usize>)
        ensures
            match r {
                Some(i) => surface_at(self@.live, surface) == Some(i as int) && i < self@.live.len()
                    && self@.live[i as int].surface == surface,
                None => surface_at(self@.live, surface) is None,
            },
    {
        let mut i: usize = 0;
        assert(self.live@.skip(0) =~= self.live@);
        while i < self.live.len()
            invariant
                i <= self.live@.len(),
                surface_at(self.live@, surface) == match surface_at(
                    self.live@.skip(i as int),
                    surface,
                ) {
                    Some(k) => Some(k + i),
                    None => None,
                },
            decreases self.live@.len() - i,
        {
            assert(self.live@.skip(i as int).drop_first() =~= self.live@.skip(i + 1));
            if self.live[i].surface == surface {
                return Some(i);
            }
            i += 1;
        }
        None
    }

    /// Puts a surface in use on the list of those to be freed. Whether freeing them is to be set for
    /// the next moment, which it is not where it is set already.
    pub fn close_leaf_deferred(&mut self, surface: u64) -> (r: bool)
        ensures
            match surface_at(old(self)@.live, surface) {
                Some(i) => {
                    &&& r == !old(self)@.freeing
                    &&& 0 <= i < old(self)@.live.len()
                    &&& final(self)@ == HostState {
                        live: old(self)@.live.remove(i),
                        pending: old(self)@.pending.push(old(self)@.live[i]),
                        freeing: true,
                        ..old(self)@
                    }
                },
                None => !r && final(self)@ == old(self)@,
            },
    {
        match self.position(surface) {
            Some(i) => {
                let e: LiveSurface = self.live.remove(i);
                self.pending_free.push(e);
                let first: bool = !self.free_scheduled;
                self.free_scheduled = true;
                first
            },
            None => false,
        }
    }

    /// Takes a surface off the list of those in use; it is to be freed at once.
    pub fn close_leaf_now(&mut self, surface: u64)
        ensures
            final(self)@ == (HostState {
                live: surfaces_without(old(self)@.live, surface),
                ..old(self)@
            }),
    {
        let ghost was = self.live@;
        let mut kept: Vec<LiveSurface> = Vec::new();
        let mut i: usize = 0;
        assert(was.take(0) =~= Seq::<LiveSurface>::empty());
        while i < self.live.len()
            invariant
                i <= self.live@.len(),
                *self == *old(self),
                was == self.live@,
                kept@ == surfaces_without(was.take(i as int), surface),
            decreases self.live@.len() - i,
        {
            assert(was.take(i + 1).drop_last() =~= was.take(i as int));
            if self.live[i].surface != surface {
                kept.push(self.live[i]);
            }
            i += 1;
        }
        assert(was.take(i as int) =~= was);
        self.live = kept;
    }

    /// The surfaces to be freed now.
    pub fn free_tick(&mut self) -> (out: Vec<LiveSurface>)
        ensures
            out@ == old(self)@.pending,
            final(self)@ == (HostState { pending: Seq::empty(), freeing: false, ..old(self)@ }),
    {
        self.free_scheduled = false;
        let mut out: Vec<LiveSurface> = Vec::new();
        std::mem::swap(&mut self.pending_free, &mut out);
        out
    }

    /// The surfaces to be freed at the end: those in use, and those that were to be freed.
    pub fn shutdown(self) -> (out: Vec<LiveSurface>)
        ensures
            out@ == self@.live + self@.pending,
    {
        let mut out: Vec<LiveSurface> = self.live;
        let mut rest: Vec<LiveSurface> = self.pending_free;
        out.append(&mut rest);
        out
    }

    /// Sets loading the configuration anew for the next moment. Whether that is to be done, which it
    /// is not where it is set already.
    pub fn schedule_reload(&mut self) -> (r: bool)
        ensures
            r == !old(self)@.reload,
            final(self)@ == (HostState { reload: true, ..old(self)@ }),
    {
        let first: bool = !self.reload_scheduled;
        self.reload_scheduled = true;
        first
    }

    /// Whether the configuration is to be loaded anew now.
    pub fn reload_tick(&mut self) -> (r: bool)
        ensures
            r == old(self)@.reload,
            final(self)@ == (HostState { reload: false, ..old(self)@ }),
    {
        let due: bool = self.reload_scheduled;
        self.reload_scheduled = false;
        due
    }

    /// Takes the configuration that was loaded anew. The result is the one before, which is to be
    /// freed.
    pub fn apply_reload(&mut self, config: u64, watched: Vec<WatchedFile>) -> (before: u64)
        ensures
            before == old(self)@.config,
            final(self)@ == (HostState {
                config,
                watched: watched_views(watched@),
                ..old(self)@
            }),
    {
        let before: u64 = self.config;
        self.config = config;
        self.watch = WatchState::new(watched);
        before
    }

    /// Looks at the configuration files, whose times are `now`. Where they changed, the configuration
    /// is loaded anew; whether that is to be set for the next moment.
    pub fn watch_tick(&mut self, now: Vec<WatchedFile>) -> (r: bool)
        ensures
            ({
                let changed = watched_views(now@) != old(self)@.watched;
                &&& r == (changed && !old(self)@.reload)
                &&& final(self)@ == HostState {
                    watched: watched_views(now@),
                    reload: old(self)@.reload || changed,
                    ..old(self)@
                }
            }),
    {
        if self.watch.changed(now) {
            self.schedule_reload()
        } else {
            false
        }
    }
}

/// The configuration in effect, where there is a host.
pub fn config(host: &Option<Host>) -> (r: Option<u64>)
    ensures
        r == match *host {
            Some(h) => Some(h@.config),
            None => None,
        },
{
    match host {
        Some(h) => Some(h.config),
        None => None,
    }
}

/// The terminal's application, where there is a host.
pub fn with_app(host: &Option<Host>) -> (r: Option<u64>)
    ensures
        r == match *host {
            Some(h) => Some(h@.app),
            None => None,
        },
{
    match host {
        Some(h) => Some(h.app),
        None => None,
    }
}

/// The colour of the ring round the focused pane.
pub fn ring_rgb(host: &Option<Host>) -> (r: (u8, u8, u8))
    ensures
        r == match *host {
            Some(h) => h@.ring,
            None => RING_FALLBACK,
        },
{
    match host {
        Some(h) => h.ring,
        None => RING_FALLBACK,
    }
}

/// The background.
pub fn bg_rgb(host: &Option<Host>) -> (r: (u8, u8, u8))
    ensures
        r == match *host {
            Some(h) => h@.bg,
            None => BG_FALLBACK,
        },
{
    match host {
        Some(h) => h.bg,
        None => BG_FALLBACK,
    }
}

/// A part of a colour lifted by a quarter of the whole range, without going above it.
pub open spec fn lifted(c: u8) -> u8 {
    if 4 * c + 255 >= 4 * 255 {
        255
    } else {
        ((4 * c + 255) / 4) as u8
    }
}

fn lift(c: u8) -> (r: u8)
    ensures
        r == lifted(c),
{
    let x: u32 = 4 * c as u32 + 255;
    if x >= 1020 {
        255
    } else {
        (x / 4) as u8
    }
}

/// The colour of a divider: the background, lifted.
pub fn divider_rgb(host: &Option<Host>) -> (r: (u8, u8, u8))
    ensures
        r == match *host {
            Some(h) => (lifted(h@.bg.0), lifted(h@.bg.1), lifted(h@.bg.2)),
            None => DIVIDER_FALLBACK,
        },
{
    match host {
        Some(h) => (lift(h.bg.0), lift(h.bg.1), lift(h.bg.2)),
        None => DIVIDER_FALLBACK,
    }
}

/// The pane that the clipboard and the menu mean: the focused one of the foremost window, else its
/// first; where there is no such window, the first pane in any window. `front` tells of the foremost
/// window's panes, and `shown` of every surface in use whether it is in a window.
pub fn current_pane(front: Option<(Option<u32>, Option<u32>)>, shown: &Vec<(u32, bool)>) -> (r: Option<
    u32,
>)
    ensures
        match front {
            Some((Some(f), _)) => r == Some(f),
            Some((None, Some(f))) => r == Some(f),
            _ => r == first_shown(shown@),
        },
{
    match front {
        Some((Some(f), _)) => Some(f),
        Some((None, Some(f))) => Some(f),
        _ => first_in_window(shown),
    }
}

fn first_in_window(shown: &Vec<(u32, bool)>) -> (r: Option<u32>)
    ensures
        r == first_shown(shown@),
{
    let mut i: usize = 0;
    assert(shown@.skip(0) =~= shown@);
    while i < shown.len()
        invariant
            i <= shown@.len(),
            first_shown(shown@) == first_shown(shown@.skip(i as int)),
        decreases shown@.len() - i,
    {
        assert(shown@.skip(i as int).drop_first() =~= shown@.skip(i + 1));
        if shown[i].1 {
            return Some(shown[i].0);
        }
        i += 1;
    }
    None
}

/// The first pane that is in a window.
pub open spec fn first_shown(s: Seq<(u32, bool)>) -> Option<u32>
    decreases s.len(),
{
    if s.len() == 0 {
        None
    } else if s[0].1 {
        Some(s[0].0)
    } else {
        first_shown(s.drop_first())
    }
}

/// A direction on the screen.
#[derive(Clone, Copy, Debug, PartialEq, Eq, Structural)]
pub enum Side {
    Left,
    Right,
    Up,
    Down,
}

/// Where the focus goes.
#[derive(Clone, Copy, Debug, PartialEq, Eq, Structural)]
pub enum Goto {
    Previous,
    Next,
    To(Side),
    /// Somewhere that is not known here.
    Elsewhere,
}

/// An action of the terminal.
#[derive(Clone, Debug, PartialEq)]
pub enum Action {
    NewWindow,
    NewTab,
    /// A new pane; to which side, where that is known here.
    NewSplit(Option<Side>),
    CloseTab(u32),
    CloseWindow,
    CloseAllWindows,
    GotoTab(i32),
    MoveTab(i64),
    GotoWindow(u32),
    GotoSplit(Goto),
    /// A divider moves; to which side, where that is known here, and by how much.
    ResizeSplit(Option<Side>, u16),
    EqualizeSplits,
    ToggleSplitZoom,
    ToggleMaximize,
    SizeLimit(u32, u32, u32, u32),
    InitialSize(u32, u32),
    SetTitle(String),
    SetTabTitle(String),
    Pwd(String),
    CellSize(u32, u32),
    /// Load the configuration anew; softly where the terminal's state asks for it.
    ReloadConfig(bool),
    ConfigChange,
    ToggleVisibility,
    OpenConfig,
    OpenUrl(String),
    Quit,
    Render,
    /// One that is not known here.
    Other,
}

/// Where an action came from: the pane, whether it is in a window, whether the window holds panes,
/// and whether it is visible.
#[derive(Clone, Copy, Debug, PartialEq, Eq, Structural)]
pub struct Origin {
    pub pane: Option<u32>,
    pub window: bool,
    pub panes: bool,
    pub visible: bool,
}

/// What is done about an action.
#[derive(Clone, Debug, PartialEq)]
pub enum HostEffect {
    /// Nothing more.
    Nothing,
    /// A window, after the pane.
    OpenWindow(Option<u32>),
    OpenTab(Option<u32>),
    /// A new pane beside the pane: in which direction, and whether before it.
    Split(u32, Dir, bool),
    CloseTab(u32),
    CloseWindow,
    CloseAllWindows,
    GotoTab(i32),
    MoveTab(i64),
    GotoWindow(u32),
    /// The focus moves on, or back.
    CycleFocus(bool),
    /// The focus moves in a direction, forwards or back.
    FocusDir(Dir, bool),
    Resize(ResizeDir, u16),
    Equalize,
    ToggleZoom,
    Maximize,
    /// The least and the greatest size.
    SizeLimit(u32, u32, u32, u32),
    /// The size of a new window; whether a window takes it now.
    InitialSize(u32, u32, bool),
    Title(String),
    Pwd(u32, String),
    CellSize(u32, u32),
    Reload(bool),
    ToggleVisibility,
    OpenConfig,
    OpenUrl(u32, String),
    Quit,
    Draw,
}

/// The direction and the order of a new pane.
pub open spec fn split_dir(side: Side) -> (Dir, bool) {
    match side {
        Side::Left => (Dir::Horizontal, true),
        Side::Right => (Dir::Horizontal, false),
        Side::Up => (Dir::Vertical, true),
        Side::Down => (Dir::Vertical, false),
    }
}

/// What is done about an action; `None` where it is left to the terminal: it is not known here, or
/// what it is about is not there.
pub open spec fn effect_of(o: Origin, a: Action) -> Option<HostEffect> {
    let in_window = o.pane is Some && o.window;
    let in_panes = in_window && o.panes;
    let only = |cond: bool, e: HostEffect| if cond { Some(e) } else { None };
    match a {
        Action::NewWindow => Some(HostEffect::OpenWindow(o.pane)),
        Action::NewTab => Some(HostEffect::OpenTab(o.pane)),
        Action::NewSplit(side) => match side {
            Some(s) => only(in_panes, HostEffect::Split(o.pane->0, split_dir(s).0, split_dir(s).1)),
            None => None,
        },
        Action::CloseTab(mode) => only(in_window, HostEffect::CloseTab(mode)),
        Action::CloseWindow => only(in_window, HostEffect::CloseWindow),
        Action::CloseAllWindows => Some(HostEffect::CloseAllWindows),
        Action::GotoTab(n) => only(in_window, HostEffect::GotoTab(n)),
        Action::MoveTab(n) => only(in_window, HostEffect::MoveTab(n)),
        Action::GotoWindow(w) => Some(HostEffect::GotoWindow(w)),
        Action::GotoSplit(g) => only(
            in_panes,
            match g {
                Goto::Previous => HostEffect::CycleFocus(false),
                Goto::Next => HostEffect::CycleFocus(true),
                Goto::To(Side::Up) => HostEffect::FocusDir(Dir::Vertical, false),
                Goto::To(Side::Down) => HostEffect::FocusDir(Dir::Vertical, true),
                Goto::To(Side::Left) => HostEffect::FocusDir(Dir::Horizontal, false),
                Goto::To(Side::Right) => HostEffect::FocusDir(Dir::Horizontal, true),
                Goto::Elsewhere => HostEffect::Nothing,
            },
        ),
        Action::ResizeSplit(side, amount) => match side {
            Some(Side::Up) => only(in_panes, HostEffect::Resize(ResizeDir::Up, amount)),
            Some(Side::Down) => only(in_panes, HostEffect::Resize(ResizeDir::Down, amount)),
            Some(Side::Left) => only(in_panes, HostEffect::Resize(ResizeDir::Left, amount)),
            Some(Side::Right) => only(in_panes, HostEffect::Resize(ResizeDir::Right, amount)),
            None => None,
        },
        Action::EqualizeSplits => only(in_panes, HostEffect::Equalize),
        Action::ToggleSplitZoom => only(in_panes, HostEffect::ToggleZoom),
        Action::ToggleMaximize => only(in_window, HostEffect::Maximize),
        Action::SizeLimit(a, b, c, d) => only(o.pane is Some, HostEffect::SizeLimit(a, b, c, d)),
        Action::InitialSize(w, h) => only(
            o.pane is Some,
            HostEffect::InitialSize(w, h, o.window && !o.visible),
        ),
        Action::SetTitle(t) | Action::SetTabTitle(t) => Some(
            if in_window {
                HostEffect::Title(t)
            } else {
                HostEffect::Nothing
            },
        ),
        Action::Pwd(p) => Some(
            match o.pane {
                Some(n) => HostEffect::Pwd(n, p),
                None => HostEffect::Nothing,
            },
        ),
        Action::CellSize(w, h) => only(o.pane is Some, HostEffect::CellSize(w, h)),
        Action::ReloadConfig(soft) => Some(HostEffect::Reload(soft)),
        Action::ConfigChange => Some(HostEffect::Nothing),
        Action::ToggleVisibility => Some(HostEffect::ToggleVisibility),
        Action::OpenConfig => Some(HostEffect::OpenConfig),
        Action::OpenUrl(u) => match o.pane {
            Some(n) => Some(HostEffect::OpenUrl(n, u)),
            None => None,
        },
        Action::Quit => Some(HostEffect::Quit),
        Action::Render => Some(
            if o.pane is Some {
                HostEffect::Draw
            } else {
                HostEffect::Nothing
            },
        ),
        Action::Other => None,
    }
}

/// What is done about an action of the terminal; `None` where it is left to the terminal.
pub fn dispatch_action(o: Origin, a: Action) -> (r: Option<HostEffect>)
    ensures
        r == effect_of(o, a),
{
    let in_window: bool = o.pane.is_some() && o.window;
    let in_panes: bool = in_window && o.panes;
    let pane: u32 = match o.pane {
        Some(p) => p,
        None => 0,
    };
    let (holds, e): (bool, HostEffect) = match a {
        Action::NewWindow => (true, HostEffect::OpenWindow(o.pane)),
        Action::NewTab => (true, HostEffect::OpenTab(o.pane)),
        Action::NewSplit(side) => match side {
            Some(Side::Left) => (in_panes, HostEffect::Split(pane, Dir::Horizontal, true)),
            Some(Side::Right) => (in_panes, HostEffect::Split(pane, Dir::Horizontal, false)),
            Some(Side::Up) => (in_panes, HostEffect::Split(pane, Dir::Vertical, true)),
            Some(Side::Down) => (in_panes, HostEffect::Split(pane, Dir::Vertical, false)),
            None => (false, HostEffect::Nothing),
        },
        Action::CloseTab(mode) => (in_window, HostEffect::CloseTab(mode)),
        Action::CloseWindow => (in_window, HostEffect::CloseWindow),
        Action::CloseAllWindows => (true, HostEffect::CloseAllWindows),
        Action::GotoTab(n) => (in_window, HostEffect::GotoTab(n)),
        Action::MoveTab(n) => (in_window, HostEffect::MoveTab(n)),
        Action::GotoWindow(w) => (true, HostEffect::GotoWindow(w)),
        Action::GotoSplit(g) => (
            in_panes,
            match g {
                Goto::Previous => HostEffect::CycleFocus(false),
                Goto::Next => HostEffect::CycleFocus(true),
                Goto::To(Side::Up) => HostEffect::FocusDir(Dir::Vertical, false),
                Goto::To(Side::Down) => HostEffect::FocusDir(Dir::Vertical, true),
                Goto::To(Side::Left) => HostEffect::FocusDir(Dir::Horizontal, false),
                Goto::To(Side::Right) => HostEffect::FocusDir(Dir::Horizontal, true),
                Goto::Elsewhere => HostEffect::Nothing,
            },
        ),
        Action::ResizeSplit(side, amount) => match side {
            Some(Side::Up) => (in_panes, HostEffect::Resize(ResizeDir::Up, amount)),
            Some(Side::Down) => (in_panes, HostEffect::Resize(ResizeDir::Down, amount)),
            Some(Side::Left) => (in_panes, HostEffect::Resize(ResizeDir::Left, amount)),
            Some(Side::Right) => (in_panes, HostEffect::Resize(ResizeDir::Right, amount)),
            None => (false, HostEffect::Nothing),
        },
        Action::EqualizeSplits => (in_panes, HostEffect::Equalize),
        Action::ToggleSplitZoom => (in_panes, HostEffect::ToggleZoom),
        Action::ToggleMaximize => (in_window, HostEffect::Maximize),
        Action::SizeLimit(a, b, c, d) => (o.pane.is_some(), HostEffect::SizeLimit(a, b, c, d)),
        Action::InitialSize(w, h) => (
            o.pane.is_some(),
            HostEffect::InitialSize(w, h, o.window && !o.visible),
        ),
        Action::SetTitle(t) | Action::SetTabTitle(t) => (
            true,
            if in_window {
                HostEffect::Title(t)
            } else {
                HostEffect::Nothing
            },
        ),
        Action::Pwd(p) => (
            true,
            match o.pane {
                Some(n) => HostEffect::Pwd(n, p),
                None => HostEffect::Nothing,
            },
        ),
        Action::CellSize(w, h) => (o.pane.is_some(), HostEffect::CellSize(w, h)),
        Action::ReloadConfig(soft) => (true, HostEffect::Reload(soft)),
        Action::ConfigChange => (true, HostEffect::Nothing),
        Action::ToggleVisibility => (true, HostEffect::ToggleVisibility),
        Action::OpenConfig => (true, HostEffect::OpenConfig),
        Action::OpenUrl(u) => (o.pane.is_some(), HostEffect::OpenUrl(pane, u)),
        Action::Quit => (true, HostEffect::Quit),
        Action::Render => (
            true,
            if o.pane.is_some() {
                HostEffect::Draw
            } else {
                HostEffect::Nothing
            },
        ),
        Action::Other => (false, HostEffect::Nothing),
    };
    if holds {
        Some(e)
    } else {
        None
    }
}

/// An action on panes is left to the terminal wherever there are none.
pub proof fn lemma_pane_actions_need_panes(o: Origin, a: Action)
    requires
        !(o.pane is Some && o.window && o.panes),
        a is NewSplit || a is GotoSplit || a is ResizeSplit || a is EqualizeSplits
            || a is ToggleSplitZoom,
    ensures
        effect_of(o, a) is None,
{
}

/// What goes to the clipboard when the terminal writes to one: the text of the first content, where
/// it is the usual clipboard, there is a content and its bytes are a text.
pub fn clipboard_write(standard: bool, first: Option<Vec<u8>>) -> (r: Option<String>)
    ensures
        match first {
            Some(b) if standard && valid_utf8(b@) => r matches Some(s) && s@ == decode_utf8(b@),
            _ => r is None,
        },
{
    if !standard {
        return None;
    }
    match first {
        Some(b) => utf8_text(b),
        None => None,
    }
}

/// A surface that is closed goes wherever it stands, and no other does.
pub proof fn lemma_which_surfaces_stay(
    a: Seq<LiveSurface>,
    x: LiveSurface,
    b: Seq<LiveSurface>,
    surface: u64,
)
    ensures
        x.surface != surface ==> surfaces_without(a + seq![x] + b, surface) == surfaces_without(a, surface) + seq![x] + surfaces_without(b, surface),
        !(x.surface != surface) ==> surfaces_without(a + seq![x] + b, surface) == surfaces_without(a, surface) + surfaces_without(b, surface),
        surfaces_without(Seq::empty(), surface) == Seq::<LiveSurface>::empty(),
    decreases b.len(),
{
    let none = Seq::<LiveSurface>::empty();
    let f = surfaces_without(a, surface);
    if b.len() == 0 {
        assert(b =~= none);
        assert(a + seq![x] + b =~= a.push(x));
        assert(a.push(x).drop_last() =~= a);
        assert(surfaces_without(none, surface) =~= Seq::<LiveSurface>::empty());
        assert(f + Seq::<LiveSurface>::empty() =~= f);
        assert(f + seq![x] + Seq::<LiveSurface>::empty() =~= f.push(x));
    } else {
        let c = b.drop_last();
        lemma_which_surfaces_stay(a, x, c, surface);
        assert((a + seq![x] + b).drop_last() =~= a + seq![x] + c);
        assert((a + seq![x] + b).last() == b.last());
        assert(surfaces_without(a + seq![x] + b, surface) =~= if x.surface != surface {
            f + seq![x] + surfaces_without(b, surface)
        } else {
            f + surfaces_without(b, surface)
        });
    }
}

/// What is found is the first entry of the surface; nothing is found just where there is none.
pub proof fn lemma_first_entry_counts(s: Seq<LiveSurface>, surface: u64)
    ensures
        match surface_at(s, surface) {
            Some(i) => 0 <= i < s.len() && s[i].surface == surface && forall|j: int|
                0 <= j < i ==> (#[trigger] s[j]).surface != surface,
            None => forall|j: int| 0 <= j < s.len() ==> (#[trigger] s[j]).surface != surface,
        },
    decreases s.len(),
{
    if s.len() > 0 && s[0].surface != surface {
        let t = s.drop_first();
        lemma_first_entry_counts(t, surface);
        match surface_at(t, surface) {
            Some(i) => {
                assert forall|j: int| 0 <= j < i + 1 implies (#[trigger] s[j]).surface != surface by {
                    if j > 0 {
                        assert(t[j - 1].surface != surface);
                    }
                }
            },
            None => {
                assert forall|j: int| 0 <= j < s.len() implies (#[trigger] s[j]).surface != surface by {
                    if j > 0 {
                        assert(t[j - 1].surface != surface);
                    }
                }
            },
        }
    }
}

/// The first pane in a window is meant, whatever comes behind it; none where none is in a window.
pub proof fn lemma_first_shown_counts(a: Seq<(u32, bool)>, pane: u32, b: Seq<(u32, bool)>)
    requires
        forall|i: int| 0 <= i < a.len() ==> !(#[trigger] a[i]).1,
    ensures
        first_shown(a) is None,
        first_shown(a + seq![(pane, true)] + b) == Some(pane),
    decreases a.len(),
{
    let s = a + seq![(pane, true)] + b;
    if a.len() > 0 {
        let c = a.drop_first();
        assert(!a[0].1);
        assert forall|i: int| 0 <= i < c.len() implies !(#[trigger] c[i]).1 by {
            assert(c[i] == a[i + 1]);
        }
        lemma_first_shown_counts(c, pane, b);
        assert(s[0] == a[0]);
        assert(s.drop_first() =~= c + seq![(pane, true)] + b);
    } else {
        assert(s[0] == (pane, true));
    }
}

/// The ring has the cursor's colour where there is one, else the foreground's, else a fixed blue.
pub proof fn lemma_color_of_the_ring(c: (u8, u8, u8), d: (u8, u8, u8), fg: Option<(u8, u8, u8)>)
    ensures
        ring_color(Some(c), fg) == c,
        ring_color(None, Some(d)) == d,
        ring_color(None, None) == (82u8, 139u8, 255u8),
        color_or(Some(c), d) == c,
        color_or(None, d) == d,
{
}

/// A divider is lighter than the background by 63 in each part, as far as the range goes.
pub proof fn lemma_divider_is_lighter(c: u8)
    ensures
        c <= 192 ==> lifted(c) == c + 63,
        c > 192 ==> lifted(c) == 255,
{
}

/// Left and right go along the row, up and down along the column. A new pane to the left or above comes
/// first, the focus goes back to the left and above, and a divider goes to the side that is named.
pub proof fn lemma_sides(o: Origin, s: Side, pane: u32, amount: u16)
    requires
        o.pane == Some(pane),
        o.window,
        o.panes,
    ensures
        effect_of(o, Action::NewSplit(Some(s))) matches Some(HostEffect::Split(p, d, before)) && p == pane
            && (d == Dir::Horizontal <==> s is Left || s is Right) && (before <==> s is Left || s is Up),
        effect_of(o, Action::GotoSplit(Goto::To(s))) matches Some(HostEffect::FocusDir(d, on)) && (d
            == Dir::Horizontal <==> s is Left || s is Right) && (on <==> s is Right || s is Down),
        effect_of(o, Action::ResizeSplit(Some(s), amount)) matches Some(HostEffect::Resize(d, n)) && n
            == amount && (d == ResizeDir::Left <==> s is Left) && (d == ResizeDir::Right <==> s is Right)
            && (d == ResizeDir::Up <==> s is Up) && (d == ResizeDir::Down <==> s is Down),
        effect_of(o, Action::GotoSplit(Goto::Next)) == Some(HostEffect::CycleFocus(true)),
        effect_of(o, Action::GotoSplit(Goto::Previous)) == Some(HostEffect::CycleFocus(false)),
{
}

/// An action is left to the terminal just where it is not known or names no side; where it is about panes
/// and there are none; where it is about a window and there is none; or where it is about a pane and
/// comes from none.
pub proof fn lemma_what_is_left_to_the_terminal(o: Origin, a: Action)
    ensures
        effect_of(o, a) is None <==> {
            ||| a is Other
            ||| a == Action::NewSplit(None)
            ||| a matches Action::ResizeSplit(side, _) && side is None
            ||| !(o.pane is Some && o.window && o.panes) && (a is NewSplit || a is GotoSplit || a
                is ResizeSplit || a is EqualizeSplits || a is ToggleSplitZoom)
            ||| !(o.pane is Some && o.window) && (a is CloseTab || a is CloseWindow || a is GotoTab || a
                is MoveTab || a is ToggleMaximize)
            ||| o.pane is None && (a is SizeLimit || a is InitialSize || a is CellSize || a is OpenUrl)
        },
{
}

/// What is done about an action is about the pane that it came from, and carries what the action does.
pub proof fn lemma_effects_carry_on(o: Origin, a: Action)
    ensures
        match effect_of(o, a) {
            Some(HostEffect::OpenWindow(p)) => a is NewWindow && p == o.pane,
            Some(HostEffect::OpenTab(p)) => a is NewTab && p == o.pane,
            Some(HostEffect::Split(p, _, _)) => a is NewSplit && o.pane == Some(p),
            Some(HostEffect::CloseTab(mode)) => a == Action::CloseTab(mode),
            Some(HostEffect::CloseWindow) => a is CloseWindow,
            Some(HostEffect::CloseAllWindows) => a is CloseAllWindows,
            Some(HostEffect::GotoTab(n)) => a == Action::GotoTab(n),
            Some(HostEffect::MoveTab(n)) => a == Action::MoveTab(n),
            Some(HostEffect::GotoWindow(w)) => a == Action::GotoWindow(w),
            Some(HostEffect::CycleFocus(on)) => a == Action::GotoSplit(
                if on {
                    Goto::Next
                } else {
                    Goto::Previous
                },
            ),
            Some(HostEffect::FocusDir(_, _)) => a matches Action::GotoSplit(g) && g is To,
            Some(HostEffect::Resize(_, n)) => a matches Action::ResizeSplit(_, m) && m == n,
            Some(HostEffect::Equalize) => a is EqualizeSplits,
            Some(HostEffect::ToggleZoom) => a is ToggleSplitZoom,
            Some(HostEffect::Maximize) => a is ToggleMaximize,
            Some(HostEffect::SizeLimit(w, x, y, z)) => a == Action::SizeLimit(w, x, y, z),
            Some(HostEffect::InitialSize(w, h, now)) => a == Action::InitialSize(w, h) && now == (o.window
                && !o.visible),
            Some(HostEffect::Title(t)) => (a == Action::SetTitle(t) || a == Action::SetTabTitle(t))
                && o.pane is Some && o.window,
            Some(HostEffect::Pwd(p, d)) => a == Action::Pwd(d) && o.pane == Some(p),
            Some(HostEffect::CellSize(w, h)) => a == Action::CellSize(w, h),
            Some(HostEffect::Reload(soft)) => a == Action::ReloadConfig(soft),
            Some(HostEffect::ToggleVisibility) => a is ToggleVisibility,
            Some(HostEffect::OpenConfig) => a is OpenConfig,
            Some(HostEffect::OpenUrl(p, u)) => a == Action::OpenUrl(u) && o.pane == Some(p),
            Some(HostEffect::Quit) => a is Quit,
            Some(HostEffect::Draw) => a is Render && o.pane is Some,
            Some(HostEffect::Nothing) => a is ConfigChange || a == Action::GotoSplit(Goto::Elsewhere)
                || ((a is SetTitle || a is SetTabTitle) && !(o.pane is Some && o.window)) || ((a is Pwd
                || a is Render) && o.pane is None),
            None => true,
        },
{
}

/// Panes have numbers that go up by one from 1 on.
pub proof fn lemma_panes_are_numbered(a: &mut Host, b: &mut Host, x: u32, y: u32)
    requires
        call_ensures(Host::next_pane_id, (a,), x),
        call_ensures(Host::next_pane_id, (b,), y),
        *final(a) == *old(b),
        old(a)@.next_pane < u32::MAX,
    ensures
        x == old(a)@.next_pane,
        y == x + 1,
        final(a)@.live == old(a)@.live,
{
}

/// A surface that is closed later is no longer in use, is kept to be freed as it was, and the others stay;
/// the freeing is set once. What is freed then is just what was kept, and it is freed once.
pub proof fn lemma_closed_surface_is_freed_once(
    a: &mut Host,
    b: &mut Host,
    c: &mut Host,
    surface: u64,
    x: bool,
    y: Vec<LiveSurface>,
    z: Vec<LiveSurface>,
)
    requires
        call_ensures(Host::close_leaf_deferred, (a, surface), x),
        call_ensures(Host::free_tick, (b,), y),
        call_ensures(Host::free_tick, (c,), z),
        *final(a) == *old(b),
        *final(b) == *old(c),
    ensures
        (exists|i: int| 0 <= i < old(a)@.live.len() && (#[trigger] old(a)@.live[i]).surface == surface) ==> {
            &&& x == !old(a)@.freeing
            &&& final(a)@.freeing
            &&& y@.len() == old(a)@.pending.len() + 1 && y@.last().surface == surface
            &&& final(a)@.live.len() == old(a)@.live.len() - 1
        },
        (forall|i: int| 0 <= i < old(a)@.live.len() ==> (#[trigger] old(a)@.live[i]).surface != surface)
            ==> !x && final(a)@ == old(a)@ && y@ == old(a)@.pending,
        z@.len() == 0,
        !final(b)@.freeing,
{
    lemma_first_entry_counts(old(a)@.live, surface);
}

/// The configuration is loaded anew once for any number of changes until then, and not without one.
pub proof fn lemma_reloaded_once(
    a: &mut Host,
    b: &mut Host,
    c: &mut Host,
    d: &mut Host,
    w: bool,
    x: bool,
    y: bool,
    z: bool,
)
    requires
        call_ensures(Host::schedule_reload, (a,), w),
        call_ensures(Host::schedule_reload, (b,), x),
        call_ensures(Host::reload_tick, (c,), y),
        call_ensures(Host::reload_tick, (d,), z),
        *final(a) == *old(b),
        *final(b) == *old(c),
        *final(c) == *old(d),
    ensures
        w == !old(a)@.reload,
        !x,
        y,
        !z,
{
}

/// Files that changed set a reload, unless one is set; files that did not change set none, and looking
/// again at the same finds no change.
pub proof fn lemma_changed_files_reload(a: &mut Host, b: &mut Host, now: Vec<WatchedFile>, x: bool, y: bool)
    requires
        call_ensures(Host::watch_tick, (a, now), x),
        call_ensures(Host::watch_tick, (b, now), y),
        *final(a) == *old(b),
    ensures
        !y,
        final(a)@.watched == watched_views(now@),
        watched_views(now@) == old(a)@.watched ==> !x && final(a)@ == old(a)@,
        watched_views(now@) != old(a)@.watched ==> final(a)@.reload && x == !old(a)@.reload,
{
}

/// A configuration that is loaded takes the place of the one before, which is handed back to be freed.
pub proof fn lemma_configuration_is_replaced(h: &mut Host, config: u64, watched: Vec<WatchedFile>, before: u64)
    requires
        call_ensures(Host::apply_reload, (h, config, watched), before),
    ensures
        before == old(h)@.config,
        final(h)@.config == config,
        final(h)@.watched == watched_views(watched@),
        final(h)@.live == old(h)@.live && final(h)@.app == old(h)@.app,
{
}

/// The colours come from the configuration where it has them; else they are fixed ones.
pub proof fn lemma_colors_follow_the_configuration(
    h: &mut Host,
    bg: Option<(u8, u8, u8)>,
    cursor: Option<(u8, u8, u8)>,
    fg: Option<(u8, u8, u8)>,
)
    requires
        call_ensures(Host::refresh_derived, (h, bg, cursor, fg), ()),
    ensures
        bg matches Some(c) ==> final(h)@.bg == c,
        bg is None ==> final(h)@.bg == (22u8, 22u8, 30u8),
        cursor matches Some(c) ==> final(h)@.ring == c,
        cursor is None ==> (fg matches Some(c) ==> final(h)@.ring == c),
        cursor is None && fg is None ==> final(h)@.ring == (82u8, 139u8, 255u8),
        final(h)@.config == old(h)@.config,
{
}

/// What is asked of the host is what it knows; without a host there are fixed colours, and no application
/// or configuration. A divider is the background made lighter.
pub proof fn lemma_what_the_host_tells(
    host: &Option<Host>,
    c: Option<u64>,
    a: Option<u64>,
    ring: (u8, u8, u8),
    bg: (u8, u8, u8),
    divider: (u8, u8, u8),
)
    requires
        call_ensures(config, (host,), c),
        call_ensures(with_app, (host,), a),
        call_ensures(ring_rgb, (host,), ring),
        call_ensures(bg_rgb, (host,), bg),
        call_ensures(divider_rgb, (host,), divider),
    ensures
        *host is None ==> c is None && a is None,
        *host is None ==> ring == (82u8, 139u8, 255u8) && bg == (22u8, 22u8, 30u8) && divider == (
            62u8,
            68u8,
            82u8,
        ),
        *host matches Some(h) ==> c == Some(h@.config) && a == Some(h@.app) && ring == h@.ring && bg
            == h@.bg && divider.0 == lifted(bg.0) && divider.1 == lifted(bg.1) && divider.2 == lifted(
            bg.2,
        ),
{
}

/// What is meant is the focused pane of the foremost window, else its first, else the first pane that is
/// in any window.
pub proof fn lemma_which_pane_is_meant(
    front: Option<(Option<u32>, Option<u32>)>,
    shown: &Vec<(u32, bool)>,
    r: Option<u32>,
)
    requires
        call_ensures(current_pane, (front, shown), r),
    ensures
        front matches Some(w) ==> (w.0 matches Some(p) ==> r == Some(p)),
        front matches Some(w) ==> w.0 is None ==> (w.1 matches Some(p) ==> r == Some(p)),
        front is None || (front->0).0 is None && (front->0).1 is None ==> r == first_shown(shown@),
{
}

/// Only a text goes to the clipboard, and only to the usual one.
pub proof fn lemma_what_goes_to_the_clipboard(standard: bool, first: Option<Vec<u8>>, r: Option<String>)
    requires
        call_ensures(clipboard_write, (standard, first), r),
    ensures
        r is Some <==> standard && first is Some && valid_utf8(first->0@),
        r matches Some(s) ==> s@ == decode_utf8(first->0@),
{
}

} // verus!
