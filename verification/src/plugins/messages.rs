//! What is done with the messages of plugins.

use vstd::prelude::*;
use vstd::string::*;

use crate::layer::{close, others, those, LayerEntry, Registry, Which};
use crate::plugins::host::{HostView, PluginHost};
use crate::plugins::keys::{denial, without_grant};
use crate::plugins::round::Incoming;
use crate::plugins::theme::{handle_theme_set, theme_layer, ThemeOverride};
use crate::protocol::{LayerMsg, LayerOpen, Message, PaneInput, Surface};

verus! {

/// What is to be done about a message.
#[derive(Clone, Debug, PartialEq)]
pub enum Effect {
    Nothing,
    /// Load the configuration anew, and keep looking at the connections.
    Reload,
    /// Answer the plugin.
    Reply(Message),
    /// Take the layers off the screen.
    Close(Vec<LayerEntry>),
    /// Show the page in the layer.
    LoadHtml(u64, String),
    /// Hand the message to the page in its layer.
    PostMsg(LayerMsg),
    /// Type the text into the pane.
    Type(PaneInput),
}

impl PluginHost {
    /// What is done about a message that is no answer to a hit and asks for no layer. `bound` tells,
    /// of a request for a key, that the terminal has it bound. A key is answered only where the
    /// plugin is still there.
    pub fn handle_async_message(
        &mut self,
        msg: Message,
        conn: u64,
        bound: bool,
        layers: &mut Registry,
        theme: &mut Option<ThemeOverride>,
    ) -> (r: Effect)
        requires
            old(self).wf(),
            old(layers).wf(),
        ensures
            final(self).wf(),
            final(layers).wf(),
            final(layers).next() == old(layers).next(),
            final(self)@ == (HostView { grants: final(self)@.grants, ..old(self)@ }),
            final(layers).layers() == match msg {
                Message::LayerClose(h) => others(old(layers).layers(), Which::Handle(h)),
                _ => old(layers).layers(),
            },
            match msg {
                Message::ThemeSet(m) => match theme_layer(m) {
                    Some(text) => r is Reload && (*final(theme) matches Some(t) && t.name@ == m.name@
                        && t.text@ == text && t.conn == conn),
                    None => r is Nothing && *final(theme) == *old(theme),
                },
                _ => *final(theme) == *old(theme),
            },
            match msg {
                Message::InputHotkey(m) => match denial(
                    old(self)@.grants,
                    conn,
                    m.key@,
                    m.modifiers@,
                    bound,
                ) {
                    Some(_) => final(self)@.grants == old(self)@.grants,
                    None => {
                        &&& final(self)@.grants.len() > 0
                        &&& final(self)@.grants.drop_last() == without_grant(
                            old(self)@.grants,
                            conn,
                            m.key@,
                            m.modifiers@,
                        )
                        &&& final(self)@.grants.last().conn == conn
                        &&& final(self)@.grants.last().key@ == m.key@
                        &&& final(self)@.grants.last().modifiers@ == m.modifiers@
                    },
                },
                _ => final(self)@.grants == old(self)@.grants,
            },
            match msg {
                Message::ThemeSet(_) => r is Reload || r is Nothing,
                Message::InputHotkey(m) => if old(self)@.conns.contains(conn) {
                    match denial(old(self)@.grants, conn, m.key@, m.modifiers@, bound) {
                        Some(why) => r matches Effect::Reply(Message::InputHotkeyDenied(id, w)) && id
                            == m.id && w@ == why,
                        None => r == Effect::Reply(Message::InputHotkeyGranted(m.id)),
                    }
                } else {
                    r is Nothing
                },
                Message::LayerClose(h) => r matches Effect::Close(v) && v@ == those(
                    old(layers).layers(),
                    Which::Handle(h),
                ),
                Message::LayerHtml(h, page) => r == Effect::LoadHtml(h, page),
                Message::LayerMsg(m) => r == Effect::PostMsg(m),
                Message::PaneInput(m) => if m.text@.len() == 0 {
                    r is Nothing
                } else {
                    r == Effect::Type(m)
                },
                _ => r is Nothing,
            },
    {
        match msg {
            Message::ThemeSet(m) => if handle_theme_set(theme, &m, conn) {
                Effect::Reload
            } else {
                Effect::Nothing
            },
            Message::InputHotkey(m) => {
                let reply: Message = self.decide_hotkey(&m, conn, bound);
                if self.has_conn(conn) {
                    Effect::Reply(reply)
                } else {
                    Effect::Nothing
                }
            },
            Message::LayerClose(h) => Effect::Close(close(layers, h)),
            Message::LayerHtml(h, page) => Effect::LoadHtml(h, page),
            Message::LayerMsg(m) => Effect::PostMsg(m),
            Message::PaneInput(m) => if m.text.as_str().is_empty() {
                Effect::Nothing
            } else {
                Effect::Type(m)
            },
            _ => Effect::Nothing,
        }
    }
}

/// How asking the plugin that took a hit for its layer goes on.
#[derive(Clone, Copy, Debug, PartialEq, Eq, Structural)]
pub enum HandshakeStep {
    /// The next message is waited for.
    Continue,
    /// There is something on the screen; no more is waited for.
    Presented,
    /// The connection is to be ended.
    Dead,
}

/// What is done about a message of the plugin that took a hit.
#[derive(Clone, Debug, PartialEq)]
pub enum HandshakeAction {
    /// Nothing, and how it goes on.
    Skip(HandshakeStep),
    /// Open a layer; how it goes on depends on that.
    Open(LayerOpen),
    /// Show the layer's frame; no more is waited for.
    Present(u64),
    /// Show the page in the layer; no more is waited for.
    LoadHtml(u64, String),
    /// Close the layer, and wait.
    Close(u64),
    /// Do what is done about any other message, and wait.
    Async(Message),
}

/// What came of reading from a connection.
#[derive(Clone, Copy, Debug, PartialEq, Eq, Structural)]
pub enum ReadOutcome {
    /// The plugin closed it.
    Closed,
    /// Bytes came, and frames can be cut from them.
    Bytes,
    /// Bytes came, and they are more than a frame may have.
    Oversized,
    /// Nothing came in the time there was.
    Silent,
    /// The reading was interrupted.
    Interrupted,
    /// It failed, or the time for it could not be set.
    Broken,
}

/// What reading from a connection tells while replies to a hit are waited for; `None` where there may
/// be frames to look at now.
pub fn heard(r: ReadOutcome) -> (m: Option<Incoming>)
    ensures
        m == match r {
            ReadOutcome::Closed => Some(Incoming::Closed),
            ReadOutcome::Broken | ReadOutcome::Oversized => Some(Incoming::Broken),
            ReadOutcome::Silent => Some(Incoming::Silent),
            ReadOutcome::Bytes | ReadOutcome::Interrupted => None,
        },
{
    match r {
        ReadOutcome::Closed => Some(Incoming::Closed),
        ReadOutcome::Broken | ReadOutcome::Oversized => Some(Incoming::Broken),
        ReadOutcome::Silent => Some(Incoming::Silent),
        ReadOutcome::Bytes | ReadOutcome::Interrupted => None,
    }
}

/// What happened while the plugin that took a hit is asked for its layer.
#[derive(Clone, Debug, PartialEq)]
pub enum HandshakeEvent {
    /// It is about to begin.
    Begun,
    /// A frame was cut from the bytes that came.
    Frame(Incoming),
    /// There is no whole frame left; whether there is time left.
    NoFrame(bool),
    /// What came of reading.
    Read(ReadOutcome),
    /// What the last message asked for was done.
    Done(HandshakeAction),
    /// A layer was asked for: of which kind, whether it could be opened, and whether the plugin
    /// could be told.
    Opened(Surface, bool, bool),
}

/// What is done next while the plugin that took a hit is asked for its layer.
#[derive(Clone, Debug, PartialEq)]
pub enum HandshakeMove {
    /// Cut the next frame from the bytes that came.
    Pop,
    /// Wait for more bytes, for as long as there is time.
    Read,
    /// Do what a message asks for.
    Act(HandshakeAction),
    /// Ask no more; the connection stays.
    Stop,
    /// End the connection.
    Drop,
}

/// What a step comes to.
pub open spec fn move_of(s: HandshakeStep) -> HandshakeMove {
    match s {
        HandshakeStep::Continue => HandshakeMove::Pop,
        HandshakeStep::Presented => HandshakeMove::Stop,
        HandshakeStep::Dead => HandshakeMove::Drop,
    }
}

fn to_move(s: HandshakeStep) -> (m: HandshakeMove)
    ensures
        m == move_of(s),
{
    match s {
        HandshakeStep::Continue => HandshakeMove::Pop,
        HandshakeStep::Presented => HandshakeMove::Stop,
        HandshakeStep::Dead => HandshakeMove::Drop,
    }
}

/// How it goes on once what a message asked for was done.
pub open spec fn step_after(a: HandshakeAction) -> HandshakeStep {
    match a {
        HandshakeAction::Skip(s) => s,
        HandshakeAction::Present(_) | HandshakeAction::LoadHtml(_, _) => HandshakeStep::Presented,
        HandshakeAction::Open(_) | HandshakeAction::Close(_) | HandshakeAction::Async(_) =>
            HandshakeStep::Continue,
    }
}

/// What is done about a message.
pub open spec fn action_for(m: Incoming) -> HandshakeAction {
    match m {
        Incoming::Closed | Incoming::Broken => HandshakeAction::Skip(HandshakeStep::Dead),
        Incoming::Silent => HandshakeAction::Skip(HandshakeStep::Presented),
        Incoming::Unknown => HandshakeAction::Skip(HandshakeStep::Continue),
        Incoming::Message(Message::LayerOpen(o)) => HandshakeAction::Open(o),
        Incoming::Message(Message::LayerPresent(h)) => HandshakeAction::Present(h),
        Incoming::Message(Message::LayerHtml(h, page)) => HandshakeAction::LoadHtml(h, page),
        Incoming::Message(Message::LayerClose(h)) => HandshakeAction::Close(h),
        Incoming::Message(other) => HandshakeAction::Async(other),
    }
}

/// How it goes on once a layer was asked for.
pub open spec fn step_after_open(surface: Surface, opened: bool, told: bool) -> HandshakeStep {
    if !opened {
        HandshakeStep::Continue
    } else if !told {
        HandshakeStep::Dead
    } else if surface == Surface::Html {
        HandshakeStep::Presented
    } else {
        HandshakeStep::Continue
    }
}

/// What is done next. Frames that came already are looked at before more bytes are waited for.
pub open spec fn next_move(e: HandshakeEvent) -> HandshakeMove {
    match e {
        HandshakeEvent::Begun => HandshakeMove::Pop,
        HandshakeEvent::Frame(m) => match action_for(m) {
            HandshakeAction::Skip(s) => move_of(s),
            a => HandshakeMove::Act(a),
        },
        HandshakeEvent::NoFrame(time_left) => if time_left {
            HandshakeMove::Read
        } else {
            HandshakeMove::Stop
        },
        HandshakeEvent::Read(r) => match r {
            ReadOutcome::Closed | ReadOutcome::Broken | ReadOutcome::Oversized =>
                HandshakeMove::Drop,
            ReadOutcome::Bytes | ReadOutcome::Interrupted => HandshakeMove::Pop,
            ReadOutcome::Silent => HandshakeMove::Stop,
        },
        HandshakeEvent::Done(a) => move_of(step_after(a)),
        HandshakeEvent::Opened(surface, opened, told) => move_of(
            step_after_open(surface, opened, told),
        ),
    }
}

/// What is done next while the plugin that took a hit is asked for its layer.
pub fn layer_handshake(e: HandshakeEvent) -> (r: HandshakeMove)
    ensures
        r == next_move(e),
{
    match e {
        HandshakeEvent::Begun => HandshakeMove::Pop,
        HandshakeEvent::Frame(m) => match handshake_frame(m) {
            HandshakeAction::Skip(s) => to_move(s),
            a => HandshakeMove::Act(a),
        },
        HandshakeEvent::NoFrame(time_left) => if time_left {
            HandshakeMove::Read
        } else {
            HandshakeMove::Stop
        },
        HandshakeEvent::Read(o) => match o {
            ReadOutcome::Closed | ReadOutcome::Broken | ReadOutcome::Oversized =>
                HandshakeMove::Drop,
            ReadOutcome::Bytes | ReadOutcome::Interrupted => HandshakeMove::Pop,
            ReadOutcome::Silent => HandshakeMove::Stop,
        },
        HandshakeEvent::Done(a) => match a {
            HandshakeAction::Skip(s) => to_move(s),
            HandshakeAction::Present(_) | HandshakeAction::LoadHtml(_, _) => HandshakeMove::Stop,
            HandshakeAction::Open(_) | HandshakeAction::Close(_) | HandshakeAction::Async(_) =>
                HandshakeMove::Pop,
        },
        HandshakeEvent::Opened(surface, opened, told) => to_move(
            after_open(surface, opened, told),
        ),
    }
}

/// A plugin is never waited for where frames of its own may be left to look at: bytes are read only
/// once there is no whole frame, and while there is time.
pub proof fn lemma_frames_before_reading(e: HandshakeEvent)
    ensures
        next_move(e) is Read <==> e == HandshakeEvent::NoFrame(true),
{
}

/// What is done about a message of the plugin that took a hit.
pub fn handshake_frame(m: Incoming) -> (r: HandshakeAction)
    ensures
        r == action_for(m),
{
    match m {
        Incoming::Closed | Incoming::Broken => HandshakeAction::Skip(HandshakeStep::Dead),
        Incoming::Silent => HandshakeAction::Skip(HandshakeStep::Presented),
        Incoming::Unknown => HandshakeAction::Skip(HandshakeStep::Continue),
        Incoming::Message(Message::LayerOpen(o)) => HandshakeAction::Open(o),
        Incoming::Message(Message::LayerPresent(h)) => HandshakeAction::Present(h),
        Incoming::Message(Message::LayerHtml(h, page)) => HandshakeAction::LoadHtml(h, page),
        Incoming::Message(Message::LayerClose(h)) => HandshakeAction::Close(h),
        Incoming::Message(other) => HandshakeAction::Async(other),
    }
}

/// How it goes on once a layer was asked for: a plugin whose layer could not be opened may try
/// again, one that cannot be told is gone, and a web page is not waited for.
pub fn after_open(surface: Surface, opened: bool, told: bool) -> (r: HandshakeStep)
    ensures
        r == step_after_open(surface, opened, told),
{
    if !opened {
        HandshakeStep::Continue
    } else if !told {
        HandshakeStep::Dead
    } else if surface == Surface::Html {
        HandshakeStep::Presented
    } else {
        HandshakeStep::Continue
    }
}

/// What a plugin is told whose layer could not be opened: that it is closed, under no handle.
pub fn refusal() -> (m: Message)
    ensures
        m == Message::LayerClose(0),
{
    Message::LayerClose(0)
}

/// What is done about what came from a connection while nothing is waited for.
#[derive(Clone, Debug, PartialEq)]
pub enum PumpAction {
    /// Nothing.
    Skip,
    /// End the connection.
    Drop,
    /// Show the layer's frame.
    Present(u64),
    /// Close the layer.
    Close(u64),
    /// Do what is done about any other message, once all that came is read.
    Later(Message),
}

/// What is done about what came from a connection while nothing is waited for.
pub fn pump_incoming(m: Incoming) -> (r: PumpAction)
    ensures
        r == pumped(m),
{
    match m {
        Incoming::Closed | Incoming::Broken => PumpAction::Drop,
        Incoming::Silent | Incoming::Unknown => PumpAction::Skip,
        Incoming::Message(Message::LayerPresent(h)) => PumpAction::Present(h),
        Incoming::Message(Message::LayerClose(h)) => PumpAction::Close(h),
        Incoming::Message(other) => PumpAction::Later(other),
    }
}

/// What is done about everything that one reading brought.
#[derive(Clone, Debug, PartialEq)]
pub struct PumpPlan {
    /// What is done at once, in order: frames that are shown and layers that are closed.
    pub now: Vec<PumpAction>,
    /// The messages that are dealt with afterwards, in order.
    pub later: Vec<Message>,
    /// The connection is ended instead.
    pub dead: bool,
}

/// What is done about what came from a connection while nothing is waited for.
pub open spec fn pumped(m: Incoming) -> PumpAction {
    match m {
        Incoming::Closed | Incoming::Broken => PumpAction::Drop,
        Incoming::Silent | Incoming::Unknown => PumpAction::Skip,
        Incoming::Message(Message::LayerPresent(h)) => PumpAction::Present(h),
        Incoming::Message(Message::LayerClose(h)) => PumpAction::Close(h),
        Incoming::Message(other) => PumpAction::Later(other),
    }
}

/// What comes before the first that ends the connection.
pub open spec fn until_drop(s: Seq<Incoming>) -> Seq<Incoming>
    decreases s.len(),
{
    if s.len() == 0 {
        s
    } else {
        let before = until_drop(s.drop_last());
        if before.len() < s.len() - 1 || pumped(s.last()) is Drop {
            before
        } else {
            s
        }
    }
}

/// The frames that are shown and the layers that are closed.
pub open spec fn at_once(s: Seq<Incoming>) -> Seq<PumpAction>
    decreases s.len(),
{
    if s.len() == 0 {
        Seq::empty()
    } else {
        let before = at_once(s.drop_last());
        match pumped(s.last()) {
            PumpAction::Present(h) => before.push(PumpAction::Present(h)),
            PumpAction::Close(h) => before.push(PumpAction::Close(h)),
            _ => before,
        }
    }
}

/// The other messages.
pub open spec fn put_off(s: Seq<Incoming>) -> Seq<Message>
    decreases s.len(),
{
    if s.len() == 0 {
        Seq::empty()
    } else {
        let before = put_off(s.drop_last());
        match pumped(s.last()) {
            PumpAction::Later(m) => before.push(m),
            _ => before,
        }
    }
}

proof fn lemma_until_drop(s: Seq<Incoming>, n: int)
    requires
        0 <= n < s.len(),
        until_drop(s.take(n)) == s.take(n),
        pumped(s[n]) is Drop,
    ensures
        until_drop(s) == s.take(n),
    decreases s.len(),
{
    assert(s.take(n + 1).drop_last() =~= s.take(n));
    if s.len() == n + 1 {
        assert(s.take(n + 1) =~= s);
    } else {
        let init = s.drop_last();
        assert(init.take(n) =~= s.take(n));
        lemma_until_drop(init, n);
    }
}

/// What is done about everything that one reading brought: the frames are shown and the layers closed
/// as they come, up to the first thing that ends the connection; the other messages are dealt with
/// only where nothing ends it.
pub fn pump_plugins(frames: Vec<Incoming>) -> (p: PumpPlan)
    ensures
        p.now@ == at_once(until_drop(frames@)),
        p.dead == (until_drop(frames@) != frames@),
        p.later@ == if p.dead {
            Seq::empty()
        } else {
            put_off(frames@)
        },
{
    let ghost all = frames@;
    let n: usize = frames.len();
    let mut rest: Vec<Incoming> = frames;
    let mut now: Vec<PumpAction> = Vec::new();
    let mut later: Vec<Message> = Vec::new();
    let mut i: usize = 0;
    assert(all.take(0) =~= Seq::<Incoming>::empty());
    while i < n
        invariant
            i <= n == all.len(),
            all == frames@,
            rest@ == all.skip(i as int),
            until_drop(all.take(i as int)) == all.take(i as int),
            now@ == at_once(all.take(i as int)),
            later@ == put_off(all.take(i as int)),
        decreases n - i,
    {
        assert(all.take(i + 1).drop_last() =~= all.take(i as int));
        let m: Incoming = rest.remove(0);
        assert(m == all[i as int]);
        assert(rest@ =~= all.skip(i + 1));
        match pump_incoming(m) {
            PumpAction::Skip => {},
            PumpAction::Drop => {
                proof {
                    lemma_until_drop(all, i as int);
                    assert(all.take(i as int).len() < all.len());
                }
                return PumpPlan { now, later: Vec::new(), dead: true };
            },
            PumpAction::Present(h) => {
                now.push(PumpAction::Present(h));
            },
            PumpAction::Close(h) => {
                now.push(PumpAction::Close(h));
            },
            PumpAction::Later(m) => {
                later.push(m);
            },
        }
        i += 1;
    }
    assert(all.take(i as int) =~= all);
    PumpPlan { now, later, dead: false }
}

/// How looking at the connections goes on after reading from one.
#[derive(Clone, Copy, Debug, PartialEq, Eq, Structural)]
pub enum PumpTurn {
    /// The connection is ended; the next one has its place.
    Drop,
    /// What came is dealt with.
    Deal,
    /// The next connection is looked at.
    Next,
    /// The same connection is looked at again.
    Again,
}

/// How looking at the connections goes on after reading from one.
pub fn pump_turn(r: ReadOutcome) -> (t: PumpTurn)
    ensures
        t == match r {
            ReadOutcome::Closed | ReadOutcome::Broken | ReadOutcome::Oversized => PumpTurn::Drop,
            ReadOutcome::Bytes => PumpTurn::Deal,
            ReadOutcome::Silent => PumpTurn::Next,
            ReadOutcome::Interrupted => PumpTurn::Again,
        },
{
    match r {
        ReadOutcome::Closed | ReadOutcome::Broken | ReadOutcome::Oversized => PumpTurn::Drop,
        ReadOutcome::Bytes => PumpTurn::Deal,
        ReadOutcome::Silent => PumpTurn::Next,
        ReadOutcome::Interrupted => PumpTurn::Again,
    }
}

/// How long replies to a hit are waited for, in milliseconds, from when the plugins were told.
pub const HIT_REPLY_TIMEOUT_MS: u64 = 500;

/// How long the first connection is waited for after plugins were started for a hit, in milliseconds.
pub const COLD_CONNECT_TIMEOUT_MS: u64 = 2000;

/// How long a plugin that took a hit is asked for its layer, in milliseconds.
pub const LAYER_HANDSHAKE_TIMEOUT_MS: u64 = 1500;

/// How often the connections are looked at, in milliseconds.
pub const PUMP_INTERVAL_MS: u64 = 150;

/// How long plugins have for their last words before they are killed, in milliseconds.
pub const LAST_WORDS_MS: u64 = 80;

/// How long the connections are looked at after a start, in milliseconds, though none has come.
pub const SPAWN_CONNECT_WINDOW_MS: u64 = 5000;

/// The time until which the connections are looked at after a start at `now`, in milliseconds.
pub fn spawn_pending_until(now: u64) -> (t: u64)
    requires
        now <= u64::MAX - SPAWN_CONNECT_WINDOW_MS,
    ensures
        t == now + SPAWN_CONNECT_WINDOW_MS,
{
    now + SPAWN_CONNECT_WINDOW_MS
}

/// Whether connections are still waited for after a start.
pub fn spawn_pending_active(until: Option<u64>, now: u64) -> (r: bool)
    ensures
        r == (until matches Some(t) && now < t),
{
    match until {
        Some(t) => now < t,
        None => false,
    }
}

/// Whether the connections are looked at at all: while there are layers, a plugin's colours, a start
/// that was not waited for long enough, or connections.
pub fn keeps_pumping(layers: &Registry, theme: &Option<ThemeOverride>, pending: bool, conns: usize) -> (r:
    bool)
    ensures
        r == (layers.layers().len() > 0 || *theme is Some || pending || conns > 0),
{
    crate::layer::any_layers(layers) || theme.is_some() || pending || conns > 0
}

/// The connection is ended just where the plugin closed it or broke the protocol, or where it has a layer
/// but cannot be told so.
pub proof fn lemma_when_a_handshake_drops(e: HandshakeEvent)
    ensures
        next_move(e) is Drop <==> {
            ||| e == HandshakeEvent::Frame(Incoming::Closed)
            ||| e == HandshakeEvent::Frame(Incoming::Broken)
            ||| e == HandshakeEvent::Read(ReadOutcome::Closed)
            ||| e == HandshakeEvent::Read(ReadOutcome::Broken)
            ||| e == HandshakeEvent::Read(ReadOutcome::Oversized)
            ||| e == HandshakeEvent::Opened(Surface::Pixels, true, false)
            ||| e == HandshakeEvent::Opened(Surface::Html, true, false)
            ||| e == HandshakeEvent::Done(HandshakeAction::Skip(HandshakeStep::Dead))
        },
{
}

/// No more is waited for, with the connection kept, just where the time is over, nothing comes, or there
/// is something on the screen: a frame, or a page, or a layer for one of which the plugin was told.
pub proof fn lemma_when_a_handshake_stops(e: HandshakeEvent)
    ensures
        next_move(e) is Stop <==> {
            ||| e == HandshakeEvent::NoFrame(false)
            ||| e == HandshakeEvent::Read(ReadOutcome::Silent)
            ||| e == HandshakeEvent::Frame(Incoming::Silent)
            ||| e == HandshakeEvent::Opened(Surface::Html, true, true)
            ||| e matches HandshakeEvent::Done(a) && (a is Present || a is LoadHtml || a
                == HandshakeAction::Skip(HandshakeStep::Presented))
        },
{
}

/// Something is done just about a message, and what is done is what it asks for: a layer is opened, its
/// frame or its page shown, or it is closed, under the handle that the message has; any other message is
/// dealt with as it stands.
pub proof fn lemma_what_a_handshake_does(e: HandshakeEvent, m: Message)
    ensures
        next_move(e) is Act <==> (e matches HandshakeEvent::Frame(i) && i is Message),
        next_move(HandshakeEvent::Frame(Incoming::Message(m))) matches HandshakeMove::Act(a) && match a {
            HandshakeAction::Open(o) => m == Message::LayerOpen(o),
            HandshakeAction::Present(h) => m == Message::LayerPresent(h),
            HandshakeAction::LoadHtml(h, page) => m == Message::LayerHtml(h, page),
            HandshakeAction::Close(h) => m == Message::LayerClose(h),
            HandshakeAction::Async(o) => o == m && !(m is LayerOpen || m is LayerPresent || m
                is LayerHtml || m is LayerClose),
            HandshakeAction::Skip(_) => false,
        },
{
}

/// What is done about what came while nothing is waited for: the connection is ended just where the
/// plugin closed it or broke the protocol; a frame is shown and a layer closed under the handle of the
/// message; every other message waits as it stands; and only what is unknown, or nothing, is passed over.
pub proof fn lemma_what_is_pumped(i: Incoming, m: Message)
    ensures
        pumped(i) is Drop <==> i is Closed || i is Broken,
        pumped(i) is Skip <==> i is Silent || i is Unknown,
        match pumped(Incoming::Message(m)) {
            PumpAction::Present(h) => m == Message::LayerPresent(h),
            PumpAction::Close(h) => m == Message::LayerClose(h),
            PumpAction::Later(o) => o == m && !(m is LayerPresent) && !(m is LayerClose),
            _ => false,
        },
{
}

/// What counts is all that came up to the first thing that ends the connection, and that thing ends it;
/// all of it where there is none.
pub proof fn lemma_up_to_the_end(s: Seq<Incoming>)
    ensures
        until_drop(s).len() <= s.len(),
        until_drop(s) == s.take(until_drop(s).len() as int),
        forall|i: int| 0 <= i < until_drop(s).len() ==> !(#[trigger] s[i] is Closed || s[i] is Broken),
        until_drop(s).len() < s.len() ==> s[until_drop(s).len() as int] is Closed
            || s[until_drop(s).len() as int] is Broken,
    decreases s.len(),
{
    if s.len() > 0 {
        let init = s.drop_last();
        lemma_up_to_the_end(init);
        let n = until_drop(init).len() as int;
        assert forall|i: int| 0 <= i < n implies !(#[trigger] s[i] is Closed || s[i] is Broken) by {
            assert(init[i] == s[i]);
        }
        assert(s.take(s.len() as int) =~= s);
        if n < s.len() - 1 || pumped(s.last()) is Drop {
            assert(init.take(n) =~= s.take(n));
            if n < s.len() - 1 {
                assert(init[n] == s[n]);
            } else {
                assert(s[n] == s.last());
            }
        } else {
            assert(init.len() == n);
        }
    } else {
        assert(s.take(0) =~= s);
    }
}

/// Frames are shown and layers closed in the order in which it was asked for, and the other messages
/// wait in the order in which they came.
pub proof fn lemma_pumped_in_order(a: Seq<Incoming>, b: Seq<Incoming>, i: Incoming)
    ensures
        at_once(a + b) == at_once(a) + at_once(b),
        put_off(a + b) == put_off(a) + put_off(b),
        at_once(Seq::empty()) == Seq::<PumpAction>::empty(),
        put_off(Seq::empty()) == Seq::<Message>::empty(),
        at_once(seq![i]) == match i {
            Incoming::Message(Message::LayerPresent(h)) => seq![PumpAction::Present(h)],
            Incoming::Message(Message::LayerClose(h)) => seq![PumpAction::Close(h)],
            _ => Seq::empty(),
        },
        put_off(seq![i]) == match i {
            Incoming::Message(Message::LayerPresent(_)) | Incoming::Message(Message::LayerClose(_)) =>
                Seq::empty(),
            Incoming::Message(m) => seq![m],
            _ => Seq::empty(),
        },
    decreases b.len(),
{
    let none = Seq::<Incoming>::empty();
    assert(seq![i].drop_last() =~= none);
    assert(at_once(none) =~= Seq::<PumpAction>::empty());
    assert(put_off(none) =~= Seq::<Message>::empty());
    assert(at_once(seq![i]) =~= match i {
        Incoming::Message(Message::LayerPresent(h)) => seq![PumpAction::Present(h)],
        Incoming::Message(Message::LayerClose(h)) => seq![PumpAction::Close(h)],
        _ => Seq::empty(),
    });
    assert(put_off(seq![i]) =~= match i {
        Incoming::Message(Message::LayerPresent(_)) | Incoming::Message(Message::LayerClose(_)) =>
            Seq::empty(),
        Incoming::Message(m) => seq![m],
        _ => Seq::empty(),
    });
    if b.len() > 0 {
        lemma_pumped_in_order(a, b.drop_last(), i);
        assert((a + b).drop_last() =~= a + b.drop_last());
        assert((a + b).last() == b.last());
        assert(at_once(a + b) =~= at_once(a) + at_once(b));
        assert(put_off(a + b) =~= put_off(a) + put_off(b));
    } else {
        assert(a + b =~= a);
        assert(at_once(a) + at_once(b) =~= at_once(a));
        assert(put_off(a) + put_off(b) =~= put_off(a));
    }
}

/// What reading tells: just bytes and an interruption leave frames to look at; only a plugin that closed
/// the connection is told as closed, and nothing in the time as silence.
pub proof fn lemma_what_is_heard(r: ReadOutcome, m: Option<Incoming>, t: PumpTurn)
    requires
        call_ensures(heard, (r,), m),
        call_ensures(pump_turn, (r,), t),
    ensures
        m is None <==> r is Bytes || r is Interrupted,
        m == Some(Incoming::Closed) <==> r is Closed,
        m == Some(Incoming::Silent) <==> r is Silent,
        m == Some(Incoming::Broken) <==> r is Broken || r is Oversized,
        t is Drop <==> m == Some(Incoming::Closed) || m == Some(Incoming::Broken),
        t is Next <==> r is Silent,
        t is Deal <==> r is Bytes,
        t is Again <==> r is Interrupted,
{
}

/// Connections are waited for until five seconds after the start, and no longer.
pub proof fn lemma_how_long_starts_are_pending(start: u64, until: u64, now: u64, r: bool)
    requires
        call_ensures(spawn_pending_until, (start,), until),
        call_ensures(spawn_pending_active, (Some(until), now), r),
    ensures
        r <==> now < start + 5000,
{
}

/// Nothing is looked at just where there is no layer, no plugin's colours, no start to wait for and no
/// connection.
pub proof fn lemma_when_nothing_is_looked_at(
    layers: &Registry,
    theme: &Option<ThemeOverride>,
    pending: bool,
    conns: usize,
    r: bool,
)
    requires
        call_ensures(keeps_pumping, (layers, theme, pending, conns), r),
    ensures
        !r <==> layers.layers().len() == 0 && *theme is None && !pending && conns == 0,
{
}

/// A reading that brings the end of the connection has no message dealt with behind it; any other has all
/// of them dealt with.
pub proof fn lemma_no_message_behind_the_end(frames: Vec<Incoming>, p: PumpPlan)
    requires
        call_ensures(pump_plugins, (frames,), p),
    ensures
        p.dead <==> exists|i: int|
            0 <= i < frames@.len() && (#[trigger] frames@[i] is Closed || frames@[i] is Broken),
        p.dead ==> p.later@.len() == 0,
        !p.dead ==> p.later@ == put_off(frames@) && p.now@ == at_once(frames@),
        p.now@ == at_once(frames@.take(until_drop(frames@).len() as int)),
{
    let s = frames@;
    lemma_up_to_the_end(s);
    if until_drop(s).len() == s.len() {
        assert(s.take(s.len() as int) =~= s);
    } else {
        let n = until_drop(s).len() as int;
        assert(s[n] is Closed || s[n] is Broken);
        assert(until_drop(s).len() != s.len());
    }
}

/// How it goes on after a layer was asked for: the connection is ended just where the layer is open and
/// the plugin cannot be told; no more is waited for just where the plugin knows of a layer with a page.
pub proof fn lemma_after_a_layer_was_asked_for(surface: Surface, opened: bool, told: bool, r: HandshakeStep)
    requires
        call_ensures(after_open, (surface, opened, told), r),
    ensures
        r == HandshakeStep::Dead <==> opened && !told,
        r == HandshakeStep::Presented <==> opened && told && surface == Surface::Html,
{
}

/// Colours that are set are taken just where they are valid, and then the configuration is loaded anew;
/// nothing but a message that sets colours changes them.
pub proof fn lemma_messages_and_colors(
    h: &mut PluginHost,
    msg: Message,
    conn: u64,
    bound: bool,
    layers: &mut Registry,
    theme: &mut Option<ThemeOverride>,
    r: Effect,
)
    requires
        call_ensures(PluginHost::handle_async_message, (h, msg, conn, bound, layers, theme), r),
    ensures
        !(msg is ThemeSet) ==> *final(theme) == *old(theme) && !(r is Reload),
        msg matches Message::ThemeSet(m) ==> (r is Reload <==> theme_layer(m) is Some),
        r is Reload ==> *final(theme) is Some && final(theme)->0.conn == conn,
        msg is ThemeSet && !(r is Reload) ==> *final(theme) == *old(theme),
        final(h)@.conns == old(h)@.conns && final(h)@.enabled == old(h)@.enabled,
{
}

/// A request for a key is answered under its number just where the plugin is still there; nothing but
/// such a request changes who has which key.
pub proof fn lemma_messages_and_keys(
    h: &mut PluginHost,
    msg: Message,
    conn: u64,
    bound: bool,
    layers: &mut Registry,
    theme: &mut Option<ThemeOverride>,
    r: Effect,
)
    requires
        call_ensures(PluginHost::handle_async_message, (h, msg, conn, bound, layers, theme), r),
    ensures
        !(msg is InputHotkey) ==> final(h)@.grants == old(h)@.grants && !(r is Reply),
        msg is InputHotkey ==> (r is Reply <==> old(h)@.conns.contains(conn)),
        msg matches Message::InputHotkey(m) ==> (r matches Effect::Reply(a) ==> a
            == Message::InputHotkeyGranted(m.id) || (a matches Message::InputHotkeyDenied(id, _) && id
            == m.id)),
        msg matches Message::InputHotkey(m) ==> (denial(
            old(h)@.grants,
            conn,
            m.key@,
            m.modifiers@,
            bound,
        ) is Some ==> final(h)@.grants == old(h)@.grants),
        msg matches Message::InputHotkey(m) ==> (denial(
            old(h)@.grants,
            conn,
            m.key@,
            m.modifiers@,
            bound,
        ) is None ==> final(h)@.grants.last().conn == conn && final(h)@.grants.last().key@ == m.key@),
{
}

/// A layer is closed just by its handle; pages and messages go on as they came, to the layer they name;
/// and what is typed into a pane is typed just where it is not empty.
pub proof fn lemma_messages_and_layers(
    h: &mut PluginHost,
    msg: Message,
    conn: u64,
    bound: bool,
    layers: &mut Registry,
    theme: &mut Option<ThemeOverride>,
    r: Effect,
)
    requires
        call_ensures(PluginHost::handle_async_message, (h, msg, conn, bound, layers, theme), r),
    ensures
        !(msg is LayerClose) ==> final(layers).layers() == old(layers).layers() && !(r is Close),
        msg matches Message::LayerClose(n) ==> (r matches Effect::Close(v) && v@ == those(
            old(layers).layers(),
            Which::Handle(n),
        ) && final(layers).layers() == others(old(layers).layers(), Which::Handle(n))),
        msg matches Message::LayerHtml(n, page) ==> r == Effect::LoadHtml(n, page),
        msg matches Message::LayerMsg(m) ==> r == Effect::PostMsg(m),
        msg matches Message::PaneInput(m) ==> (r == Effect::Type(m) <==> m.text@.len() > 0),
        r is LoadHtml ==> msg is LayerHtml,
        r is PostMsg ==> msg is LayerMsg,
        r is Type ==> msg is PaneInput,
{
}

} // verus!
