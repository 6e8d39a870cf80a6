//! Telling the plugins of a hit, and finding out who takes it.

use vstd::prelude::*;

use crate::layer::Registry;
use crate::plugins::host::{
    all_ended, losses, partings, untried, DispatchStart, Dropped, HostView, PluginHost, World,
};
use crate::plugins::theme::ThemeOverride;
use crate::protocol::{Envelope, Message};
use crate::text::texts;

verus! {

/// What comes of telling the plugins of a hit.
#[derive(Clone, Copy, Debug, PartialEq, Eq, Structural)]
pub enum DispatchOutcome {
    /// No plugin is connected.
    NoPlugins,
    /// A plugin took it, with this priority.
    Claimed { priority: u32 },
    /// No plugin took it.
    AllIgnored,
}

/// What a read from a connection brought.
#[derive(Clone, Debug, PartialEq)]
pub enum Incoming {
    /// The plugin closed the connection, or it failed.
    Closed,
    /// The plugin does not keep to the protocol.
    Broken,
    /// Nothing, for as long as was allowed.
    Silent,
    /// A message of a type that is not known here.
    Unknown,
    Message(Message),
}

/// What a message from a plugin means to the host: one of another version ends the connection, as
/// does one that cannot be read; one of a type that is not known is passed over. `m` is the message,
/// where it could be read.
pub fn incoming_of(e: Envelope, m: Option<Message>) -> (r: Incoming)
    ensures
        r == match (e, m) {
            (Envelope::OtherVersion, _) => Incoming::Broken,
            (Envelope::UnknownType, _) => Incoming::Unknown,
            (Envelope::Known, Some(m)) => Incoming::Message(m),
            (Envelope::Known, None) => Incoming::Broken,
        },
{
    match e {
        Envelope::OtherVersion => Incoming::Broken,
        Envelope::UnknownType => Incoming::Unknown,
        Envelope::Known => match m {
            Some(m) => Incoming::Message(m),
            None => Incoming::Broken,
        },
    }
}

/// Which of the claims wins: the first of those with the highest priority.
pub open spec fn wins(claims: Seq<(u32, u64)>, i: int) -> bool {
    &&& 0 <= i < claims.len()
    &&& forall|j: int| 0 <= j < claims.len() ==> (#[trigger] claims[j]).0 <= claims[i].0
    &&& forall|j: int| 0 <= j < i ==> (#[trigger] claims[j]).0 < claims[i].0
}

/// The claim that wins, if there is one.
pub open spec fn winner(claims: Seq<(u32, u64)>) -> Option<(u32, u64)>
    decreases claims.len(),
{
    if claims.len() == 0 {
        None
    } else {
        match winner(claims.drop_last()) {
            Some(w) if w.0 >= claims.last().0 => Some(w),
            _ => Some(claims.last()),
        }
    }
}

/// Some claim wins wherever there is one, and it is the first of those with the highest priority.
pub proof fn lemma_winner(claims: Seq<(u32, u64)>)
    ensures
        winner(claims) is Some <==> claims.len() > 0,
        winner(claims) matches Some(w) ==> exists|i: int| #[trigger] wins(claims, i) && claims[i] == w,
    decreases claims.len(),
{
    if claims.len() > 0 {
        let init = claims.drop_last();
        let n = claims.len() - 1;
        lemma_winner(init);
        if init.len() > 0 {
            let i = choose|i: int| #[trigger] wins(init, i) && init[i] == winner(init)->0;
            assert forall|j: int| 0 <= j < init.len() implies (#[trigger] claims[j]).0
                <= claims[i].0 by {
                assert(init[j].0 <= init[i].0);
            }
            assert forall|j: int| 0 <= j < i implies (#[trigger] claims[j]).0 < claims[i].0 by {
                assert(init[j].0 < init[i].0);
            }
            if claims[i].0 >= claims[n].0 {
                assert(wins(claims, i));
            } else {
                assert(wins(claims, n));
            }
        } else {
            assert(wins(claims, n));
        }
    }
}

/// The replies to a hit, as far as they have come.
pub struct HitRound {
    id: u64,
    claims: Vec<(u32, u64)>,
    dead: Vec<u64>,
    deferred: Vec<(u64, Message)>,
}

/// The reply is a claim of the hit.
pub open spec fn claims_hit(r: Incoming, id: u64) -> bool {
    r matches Incoming::Message(Message::HitClaim(m)) && m.id == id
}

/// The reply leaves the hit alone.
pub open spec fn ignores_hit(r: Incoming, id: u64) -> bool {
    r matches Incoming::Message(Message::HitIgnore(m)) && m.id == id
}

/// The connection has nothing more to say about the hit.
pub open spec fn settles(r: Incoming, id: u64) -> bool {
    r is Closed || r is Broken || r is Silent || claims_hit(r, id) || ignores_hit(r, id)
}

impl HitRound {
    /// The number of the hit.
    pub closed spec fn id(self) -> u64 {
        self.id
    }

    /// The claims, in the order they came: priority and connection.
    pub closed spec fn claims(self) -> Seq<(u32, u64)> {
        self.claims@
    }

    /// The connections that are to be ended.
    pub closed spec fn dead(self) -> Seq<u64> {
        self.dead@
    }

    /// Messages about other things, with their connections.
    pub closed spec fn deferred(self) -> Seq<(u64, Message)> {
        self.deferred@
    }

    /// A hit that no reply came to yet.
    pub fn new(id: u64) -> (r: HitRound)
        ensures
            r.id() == id,
            r.claims() == Seq::<(u32, u64)>::empty(),
            r.dead() == Seq::<u64>::empty(),
            r.deferred() == Seq::<(u64, Message)>::empty(),
    {
        HitRound { id, claims: Vec::new(), dead: Vec::new(), deferred: Vec::new() }
    }

    /// Takes in what came from a connection. Whether it has nothing more to say about the hit. A
    /// connection that failed or does not keep to the protocol is to be ended; what is about other
    /// things is kept for later.
    pub fn reply(&mut self, conn: u64, r: Incoming) -> (done: bool)
        ensures
            done == settles(r, old(self).id()),
            final(self).id() == old(self).id(),
            final(self).claims() == match r {
                Incoming::Message(Message::HitClaim(m)) if m.id == old(self).id() => old(
                    self,
                ).claims().push((m.priority, conn)),
                _ => old(self).claims(),
            },
            final(self).dead() == if r is Closed || r is Broken {
                old(self).dead().push(conn)
            } else {
                old(self).dead()
            },
            final(self).deferred() == match r {
                Incoming::Message(m) if !settles(r, old(self).id()) => old(self).deferred().push(
                    (conn, m),
                ),
                _ => old(self).deferred(),
            },
    {
        match r {
            Incoming::Closed | Incoming::Broken => {
                self.dead.push(conn);
                true
            },
            Incoming::Silent => true,
            Incoming::Unknown => false,
            Incoming::Message(Message::HitClaim(m)) => if m.id == self.id {
                self.claims.push((m.priority, conn));
                true
            } else {
                self.deferred.push((conn, Message::HitClaim(m)));
                false
            },
            Incoming::Message(Message::HitIgnore(m)) => if m.id == self.id {
                true
            } else {
                self.deferred.push((conn, Message::HitIgnore(m)));
                false
            },
            Incoming::Message(m) => {
                self.deferred.push((conn, m));
                false
            },
        }
    }

    /// What came of it: the claim that wins, with its connection, which is then asked for its layer.
    pub fn outcome(&self) -> (r: (DispatchOutcome, Option<u64>))
        ensures
            match winner(self.claims()) {
                Some(w) => r.0 == (DispatchOutcome::Claimed { priority: w.0 }) && r.1 == Some(w.1),
                None => r.0 == DispatchOutcome::AllIgnored && r.1 is None,
            },
    {
        let mut best: Option<(u32, u64)> = None;
        let mut i: usize = 0;
        assert(self.claims@.take(0) =~= Seq::<(u32, u64)>::empty());
        while i < self.claims.len()
            invariant
                i <= self.claims@.len(),
                best == winner(self.claims@.take(i as int)),
            decreases self.claims@.len() - i,
        {
            assert(self.claims@.take(i + 1).drop_last() =~= self.claims@.take(i as int));
            best = match best {
                Some(w) => if self.claims[i].0 > w.0 {
                    Some(self.claims[i])
                } else {
                    Some(w)
                },
                None => Some(self.claims[i]),
            };
            i += 1;
        }
        assert(self.claims@.take(i as int) =~= self.claims@);
        match best {
            Some((priority, conn)) => (DispatchOutcome::Claimed { priority }, Some(conn)),
            None => (DispatchOutcome::AllIgnored, None),
        }
    }

    /// The connections that are to be ended, and the messages about other things.
    pub fn into_rest(self) -> (r: (Vec<u64>, Vec<(u64, Message)>))
        ensures
            r.0@ == self.dead(),
            r.1@ == self.deferred(),
    {
        (self.dead, self.deferred)
    }
}

/// What is done about a hit in the end: the system opens it, unless a plugin took it.
pub fn opens_by_default(outcome: DispatchOutcome) -> (r: bool)
    ensures
        r == !(outcome is Claimed),
{
    match outcome {
        DispatchOutcome::Claimed { .. } => false,
        _ => true,
    }
}

/// How far telling the plugins of a hit has come.
#[derive(Clone, Copy, Debug, PartialEq, Eq, Structural)]
pub enum Stage {
    /// Nothing was done yet.
    Fresh,
    /// A plugin was started, and its connection is waited for.
    Connecting,
    /// The hit is being told.
    Sending,
    /// The replies are read, one connection after the other.
    Collecting,
    Done,
}

/// What is to be done next about a hit.
#[derive(Debug, PartialEq)]
pub enum DispatchAction {
    /// Nothing: the event does not belong here.
    Nothing,
    /// Start these plugins, then take in the connections that come.
    Spawn(Vec<String>),
    /// Wait a moment, then take in the connections that come.
    Wait,
    /// Tell these connections of the hit.
    Send(Vec<u64>),
    /// Read from this connection.
    Read(u64),
    /// It is over: what came of it, the connection of the plugin that took it, and the messages about
    /// other things, which are dealt with now.
    Finish(DispatchOutcome, Option<u64>, Vec<(u64, Message)>),
}

/// The places name, one after the other, who claimed among the first `n` connections.
pub open spec fn is_pick(
    pick: Seq<int>,
    claims: Seq<(u32, u64)>,
    order: Seq<u64>,
    n: int,
) -> bool {
    &&& pick.len() == claims.len()
    &&& forall|i: int|
        0 <= i < pick.len() ==> 0 <= #[trigger] pick[i] < n && claims[i].1 == order[pick[i]]
    &&& forall|i: int, j: int| 0 <= i < j < pick.len() ==> #[trigger] pick[i] < #[trigger] pick[j]
}

/// Whoever claimed is among the first `n` connections, and the claims stand in the order of these.
pub open spec fn in_turn(claims: Seq<(u32, u64)>, order: Seq<u64>, n: int) -> bool {
    exists|pick: Seq<int>| #[trigger] is_pick(pick, claims, order, n)
}

/// Connections that came later have higher numbers.
pub open spec fn grows(order: Seq<u64>) -> bool {
    forall|i: int, j: int| 0 <= i < j < order.len() ==> #[trigger] order[i] < #[trigger] order[j]
}

proof fn lemma_no_claims(claims: Seq<(u32, u64)>, order: Seq<u64>, n: int)
    requires
        claims.len() == 0,
    ensures
        in_turn(claims, order, n),
{
    assert(is_pick(Seq::empty(), claims, order, n));
}

/// Claims that stand in the order of the first `n` connections stand in that of more of them, with the
/// next one's claim behind them.
proof fn lemma_in_turn(claims: Seq<(u32, u64)>, order: Seq<u64>, n: int, priority: u32)
    requires
        in_turn(claims, order, n),
        0 <= n < order.len(),
    ensures
        in_turn(claims, order, n + 1),
        in_turn(claims.push((priority, order[n])), order, n + 1),
{
    let pick = choose|pick: Seq<int>| #[trigger] is_pick(pick, claims, order, n);
    assert(is_pick(pick, claims, order, n + 1));
    assert(is_pick(pick.push(n), claims.push((priority, order[n])), order, n + 1));
}

/// Where there are claims, one with the highest priority wins, and among those the plugin that
/// connected first.
pub proof fn lemma_first_connected_wins(claims: Seq<(u32, u64)>, order: Seq<u64>, n: int)
    requires
        in_turn(claims, order, n),
        n <= order.len(),
        grows(order),
    ensures
        winner(claims) is Some <==> claims.len() > 0,
        winner(claims) matches Some(w) ==> claims.contains(w) && order.take(n).contains(w.1)
            && forall|c: (u32, u64)| #[trigger]
            claims.contains(c) ==> c.0 < w.0 || c.0 == w.0 && w.1 <= c.1,
{
    lemma_winner(claims);
    if let Some(w) = winner(claims) {
        let pick = choose|pick: Seq<int>| #[trigger] is_pick(pick, claims, order, n);
        let i = choose|i: int| #[trigger] wins(claims, i) && claims[i] == w;
        assert(0 <= pick[i] < n);
        assert(order.take(n)[pick[i]] == w.1);
        assert forall|c: (u32, u64)| #[trigger] claims.contains(c) implies c.0 < w.0 || c.0 == w.0
            && w.1 <= c.1 by {
            let j = claims.index_of(c);
            assert(claims[j].0 <= claims[i].0);
            if j < i {
                assert(claims[j].0 < claims[i].0);
            } else if i < j {
                assert(pick[i] < pick[j]);
                assert(order[pick[i]] < order[pick[j]]);
            }
        }
    }
}

/// Telling the plugins of a hit, from beginning to end.
pub struct HitDispatch {
    stage: Stage,
    order: Vec<u64>,
    at: usize,
    round: HitRound,
}

/// The connections that are to be ended went, what went with them is told, and what came of the hit
/// is known.
pub open spec fn finishes(
    d: HitDispatch,
    w: World,
    after: World,
    a: DispatchAction,
    lost: Seq<Dropped>,
) -> bool {
    &&& after == all_ended(w, d.dead())
    &&& losses(lost) == partings(w, d.dead())
    &&& match winner(d.claims()) {
        Some(c) => a matches DispatchAction::Finish(o, conn, rest) && o == (DispatchOutcome::Claimed {
            priority: c.0,
        }) && conn == Some(c.1) && rest@ == d.deferred(),
        None => a matches DispatchAction::Finish(o, conn, rest) && o == DispatchOutcome::AllIgnored
            && conn is None && rest@ == d.deferred(),
    }
}

fn copy_conns(v: &Vec<u64>) -> (out: Vec<u64>)
    ensures
        out@ == v@,
{
    let mut out: Vec<u64> = Vec::new();
    let mut i: usize = 0;
    while i < v.len()
        invariant
            i <= v@.len(),
            out@ == v@.take(i as int),
        decreases v@.len() - i,
    {
        out.push(v[i]);
        i += 1;
        assert(out@ =~= v@.take(i as int));
    }
    assert(v@.take(i as int) =~= v@);
    out
}

impl HitDispatch {
    /// How far it has come.
    pub closed spec fn stage(self) -> Stage {
        self.stage
    }

    /// The number of the hit.
    pub closed spec fn id(self) -> u64 {
        self.round.id()
    }

    /// The connections that were told, in order.
    pub closed spec fn order(self) -> Seq<u64> {
        self.order@
    }

    /// How many of them have nothing more to say.
    pub closed spec fn at(self) -> nat {
        self.at as nat
    }

    /// The claims so far: priority and connection.
    pub closed spec fn claims(self) -> Seq<(u32, u64)> {
        self.round.claims()
    }

    /// The connections that are to be ended.
    pub closed spec fn dead(self) -> Seq<u64> {
        self.round.dead()
    }

    /// Messages about other things, with their connections.
    pub closed spec fn deferred(self) -> Seq<(u64, Message)> {
        self.round.deferred()
    }

    /// While replies are read there is a connection to read from, the connections stand in the order
    /// in which they came, and the claims in that of those that were read.
    pub open spec fn wf(self) -> bool {
        &&& self.stage() is Collecting ==> self.at() < self.order().len() && grows(self.order())
        &&& !(self.stage() is Collecting) ==> self.claims().len() == 0
        &&& in_turn(self.claims(), self.order(), self.at() as int)
    }

    /// A hit that no plugin was told of yet.
    pub fn new(id: u64) -> (d: HitDispatch)
        ensures
            d.wf(),
            d.id() == id,
            d.stage() is Fresh,
            d.claims() == Seq::<(u32, u64)>::empty(),
            d.dead() == Seq::<u64>::empty(),
            d.deferred() == Seq::<(u64, Message)>::empty(),
    {
        let d: HitDispatch = HitDispatch {
            stage: Stage::Fresh,
            order: Vec::new(),
            at: 0,
            round: HitRound::new(id),
        };
        proof {
            lemma_no_claims(d.claims(), d.order(), d.at() as int);
        }
        d
    }

    /// Begins: the connections that there are are told; without any, plugins that no start was tried
    /// for are started first; where there are none, or all are turned off, it is over.
    pub fn begin(&mut self, host: &mut PluginHost) -> (a: DispatchAction)
        requires
            old(self).wf(),
            old(host).wf(),
        ensures
            final(self).wf(),
            final(host).wf(),
            final(self).claims() == old(self).claims(),
            final(self).dead() == old(self).dead(),
            final(self).deferred() == old(self).deferred(),
            final(self).id() == old(self).id(),
            ({
                let names = untried(old(host)@.enabled, old(host)@.tried);
                if !(old(self).stage() is Fresh) {
                    a is Nothing && final(host)@ == old(host)@ && *final(self) == *old(self)
                } else if !old(host)@.disabled && old(host)@.conns.len() > 0 {
                    &&& a matches DispatchAction::Send(v)
                    &&& v@ == old(host)@.conns
                    &&& final(self).stage() is Sending
                    &&& final(host)@ == old(host)@
                } else if !old(host)@.disabled && names.len() > 0 {
                    &&& a matches DispatchAction::Spawn(v)
                    &&& texts(v@) == names
                    &&& final(self).stage() is Connecting
                    &&& final(host)@ == HostView { tried: old(host)@.tried + names, ..old(host)@ }
                } else {
                    &&& a matches DispatchAction::Finish(o, conn, rest)
                    &&& o is NoPlugins
                    &&& conn is None
                    &&& rest@.len() == 0
                    &&& final(self).stage() is Done
                    &&& final(host)@ == old(host)@
                }
            }),
    {
        match self.stage {
            Stage::Fresh => {},
            _ => {
                return DispatchAction::Nothing;
            },
        }
        match host.begin_dispatch() {
            DispatchStart::NoPlugins => {
                self.stage = Stage::Done;
                DispatchAction::Finish(DispatchOutcome::NoPlugins, None, Vec::new())
            },
            DispatchStart::Broadcast => {
                self.stage = Stage::Sending;
                DispatchAction::Send(copy_conns(host.conns()))
            },
            DispatchStart::ColdStart(names) => {
                self.stage = Stage::Connecting;
                DispatchAction::Spawn(names)
            },
        }
    }

    /// Goes on after connections were taken in: those that there are are told; without any it goes
    /// on waiting, until the time is up.
    pub fn waited(&mut self, host: &PluginHost, time_up: bool) -> (a: DispatchAction)
        requires
            old(self).wf(),
        ensures
            final(self).wf(),
            final(self).claims() == old(self).claims(),
            final(self).dead() == old(self).dead(),
            final(self).deferred() == old(self).deferred(),
            final(self).id() == old(self).id(),
            if !(old(self).stage() is Connecting) {
                a is Nothing && *final(self) == *old(self)
            } else if host@.conns.len() > 0 {
                &&& a matches DispatchAction::Send(v)
                &&& v@ == host@.conns
                &&& final(self).stage() is Sending
            } else if time_up {
                &&& a matches DispatchAction::Finish(o, conn, rest)
                &&& o is NoPlugins
                &&& conn is None
                &&& rest@.len() == 0
                &&& final(self).stage() is Done
            } else {
                a is Wait && final(self).stage() is Connecting
            },
    {
        match self.stage {
            Stage::Connecting => {},
            _ => {
                return DispatchAction::Nothing;
            },
        }
        if host.conns().len() > 0 {
            self.stage = Stage::Sending;
            DispatchAction::Send(copy_conns(host.conns()))
        } else if time_up {
            self.stage = Stage::Done;
            DispatchAction::Finish(DispatchOutcome::NoPlugins, None, Vec::new())
        } else {
            DispatchAction::Wait
        }
    }

    /// Goes on after the hit was told: the connections that could not be told end. Where none is
    /// left it is over, and nobody took the hit; else the first one is read.
    pub fn sent(
        &mut self,
        failed: &Vec<u64>,
        host: &mut PluginHost,
        layers: &mut Registry,
        theme: &mut Option<ThemeOverride>,
    ) -> (r: (DispatchAction, Vec<Dropped>))
        requires
            old(self).wf(),
            old(host).wf(),
            old(layers).wf(),
        ensures
            final(self).wf(),
            final(host).wf(),
            final(layers).wf(),
            final(layers).next() == old(layers).next(),
            final(self).claims() == old(self).claims(),
            final(self).dead() == old(self).dead(),
            final(self).deferred() == old(self).deferred(),
            final(self).id() == old(self).id(),
            if !(old(self).stage() is Sending) {
                &&& r.0 is Nothing
                &&& r.1@.len() == 0
                &&& *final(self) == *old(self)
                &&& final(host)@ == old(host)@
                &&& final(layers).layers() == old(layers).layers()
                &&& *final(theme) == *old(theme)
            } else {
                &&& (final(host)@, final(layers).layers(), *final(theme)) == all_ended(
                    (old(host)@, old(layers).layers(), *old(theme)),
                    failed@,
                )
                &&& losses(r.1@) == partings(
                    (old(host)@, old(layers).layers(), *old(theme)),
                    failed@,
                )
                &&& if final(host)@.conns.len() == 0 {
                    &&& r.0 matches DispatchAction::Finish(o, conn, rest)
                    &&& o is AllIgnored
                    &&& conn is None
                    &&& rest@.len() == 0
                    &&& final(self).stage() is Done
                } else {
                    &&& r.0 == DispatchAction::Read(final(host)@.conns[0])
                    &&& final(self).stage() is Collecting
                    &&& final(self).order() == final(host)@.conns
                    &&& final(self).at() == 0
                }
            },
    {
        match self.stage {
            Stage::Sending => {},
            _ => {
                return (DispatchAction::Nothing, Vec::new());
            },
        }
        let dropped: Vec<Dropped> = host.drop_conns(failed, layers, theme);
        if host.conns().len() == 0 {
            self.stage = Stage::Done;
            return (
                DispatchAction::Finish(DispatchOutcome::AllIgnored, None, Vec::new()),
                dropped,
            );
        }
        self.order = copy_conns(host.conns());
        self.at = 0;
        self.stage = Stage::Collecting;
        proof {
            lemma_no_claims(self.claims(), self.order(), 0);
        }
        let first: u64 = self.order[0];
        (DispatchAction::Read(first), dropped)
    }

    /// Ends the connections that are to be ended, and finds out what came of the hit.
    fn finish(
        &mut self,
        host: &mut PluginHost,
        layers: &mut Registry,
        theme: &mut Option<ThemeOverride>,
    ) -> (r: (DispatchAction, Vec<Dropped>))
        requires
            old(host).wf(),
            old(layers).wf(),
        ensures
            final(self).wf(),
            final(self).stage() is Done,
            final(self).id() == old(self).id(),
            final(host).wf(),
            final(layers).wf(),
            final(layers).next() == old(layers).next(),
            finishes(
                *old(self),
                (old(host)@, old(layers).layers(), *old(theme)),
                (final(host)@, final(layers).layers(), *final(theme)),
                r.0,
                r.1@,
            ),
    {
        let (outcome, conn) = self.round.outcome();
        let mut round: HitRound = HitRound::new(self.round.id);
        std::mem::swap(&mut self.round, &mut round);
        let (dead, deferred) = round.into_rest();
        let dropped: Vec<Dropped> = host.drop_conns(&dead, layers, theme);
        self.stage = Stage::Done;
        proof {
            lemma_no_claims(self.claims(), self.order(), self.at as int);
        }
        (DispatchAction::Finish(outcome, conn, deferred), dropped)
    }

    /// Goes on with what came from the connection that is read. Where it has nothing more to say,
    /// the next one is read, or, behind the last, it is over.
    pub fn reply(
        &mut self,
        r: Incoming,
        host: &mut PluginHost,
        layers: &mut Registry,
        theme: &mut Option<ThemeOverride>,
    ) -> (out: (DispatchAction, Vec<Dropped>))
        requires
            old(self).wf(),
            old(host).wf(),
            old(layers).wf(),
        ensures
            final(self).wf(),
            final(self).id() == old(self).id(),
            final(host).wf(),
            final(layers).wf(),
            final(layers).next() == old(layers).next(),
            ({
                let w = (old(host)@, old(layers).layers(), *old(theme));
                let after = (final(host)@, final(layers).layers(), *final(theme));
                let conn = old(self).order()[old(self).at() as int];
                if !(old(self).stage() is Collecting) {
                    &&& out.0 is Nothing
                    &&& out.1@.len() == 0
                    &&& after == w
                    &&& *final(self) == *old(self)
                } else if settles(r, old(self).id()) && old(self).at() + 1 == old(self).order().len() {
                    &&& final(self).stage() is Done
                    &&& exists|told: HitDispatch|
                        {
                            &&& #[trigger] takes_in(*old(self), told, conn, r)
                            &&& in_turn(told.claims(), told.order(), told.order().len() as int)
                            &&& finishes(told, w, after, out.0, out.1@)
                        }
                } else {
                    &&& after == w
                    &&& out.1@.len() == 0
                    &&& final(self).stage() is Collecting
                    &&& takes_in(*old(self), *final(self), conn, r)
                    &&& if settles(r, old(self).id()) {
                        &&& final(self).at() == old(self).at() + 1
                        &&& out.0 == DispatchAction::Read(
                            old(self).order()[old(self).at() as int + 1],
                        )
                    } else {
                        &&& final(self).at() == old(self).at()
                        &&& out.0 == DispatchAction::Read(conn)
                    }
                }
            }),
    {
        match self.stage {
            Stage::Collecting => {},
            _ => {
                return (DispatchAction::Nothing, Vec::new());
            },
        }
        let conn: u64 = self.order[self.at];
        let done: bool = self.round.reply(conn, r);
        let ghost told = *self;
        assert(takes_in(*old(self), told, conn, r));
        proof {
            let priority = told.claims().last().0;
            lemma_in_turn(old(self).claims(), self.order(), self.at as int, priority);
            assert(in_turn(told.claims(), told.order(), self.at + 1));
        }
        if !done {
            return (DispatchAction::Read(conn), Vec::new());
        }
        let n: usize = self.order.len();
        if self.at + 1 < n {
            self.at = self.at + 1;
            let next: u64 = self.order[self.at];
            return (DispatchAction::Read(next), Vec::new());
        }
        self.finish(host, layers, theme)
    }

    /// The time for replies is up: whoever did not reply leaves the hit alone.
    pub fn out_of_time(
        &mut self,
        host: &mut PluginHost,
        layers: &mut Registry,
        theme: &mut Option<ThemeOverride>,
    ) -> (out: (DispatchAction, Vec<Dropped>))
        requires
            old(self).wf(),
            old(host).wf(),
            old(layers).wf(),
        ensures
            final(self).wf(),
            final(self).id() == old(self).id(),
            final(host).wf(),
            final(layers).wf(),
            final(layers).next() == old(layers).next(),
            ({
                let w = (old(host)@, old(layers).layers(), *old(theme));
                let after = (final(host)@, final(layers).layers(), *final(theme));
                if old(self).stage() is Collecting {
                    final(self).stage() is Done && finishes(
                        *old(self),
                        w,
                        after,
                        out.0,
                        out.1@,
                    )
                } else {
                    out.0 is Nothing && out.1@.len() == 0 && after == w && *final(self) == *old(self)
                }
            }),
    {
        match self.stage {
            Stage::Collecting => self.finish(host, layers, theme),
            _ => (DispatchAction::Nothing, Vec::new()),
        }
    }
}

/// What came from a connection is taken in: a claim of the hit is noted, a connection that failed is
/// to be ended, and what is about other things is kept.
pub open spec fn takes_in(before: HitDispatch, after: HitDispatch, conn: u64, r: Incoming) -> bool {
    &&& after.id() == before.id()
    &&& after.order() == before.order()
    &&& after.claims() == match r {
        Incoming::Message(Message::HitClaim(m)) if m.id == before.id() => before.claims().push(
            (m.priority, conn),
        ),
        _ => before.claims(),
    }
    &&& after.dead() == if r is Closed || r is Broken {
        before.dead().push(conn)
    } else {
        before.dead()
    }
    &&& after.deferred() == match r {
        Incoming::Message(m) if !settles(r, before.id()) => before.deferred().push((conn, m)),
        _ => before.deferred(),
    }
}

/// Whoever wins was told of the hit and is the first that connected of those with the highest priority,
/// at every moment while replies are read.
pub proof fn lemma_winner_was_told(d: HitDispatch)
    requires
        d.wf(),
    ensures
        winner(d.claims()) matches Some(w) ==> d.order().contains(w.1) && forall|c: (u32, u64)| #[trigger]
            d.claims().contains(c) ==> c.0 < w.0 || c.0 == w.0 && w.1 <= c.1,
{
    if d.stage() is Collecting {
        lemma_first_connected_wins(d.claims(), d.order(), d.at() as int);
        if let Some(w) = winner(d.claims()) {
            let i = d.order().take(d.at() as int).index_of(w.1);
            assert(d.order()[i] == w.1);
        }
    }
}

/// A connection has nothing more to say just where it is closed, broke the protocol, said nothing in its
/// time, or answered this very hit.
pub proof fn lemma_what_settles(id: u64, other: u64, priority: u32, m: Message)
    ensures
        settles(Incoming::Closed, id),
        settles(Incoming::Broken, id),
        settles(Incoming::Silent, id),
        !settles(Incoming::Unknown, id),
        settles(Incoming::Message(m), id) <==> (m matches Message::HitClaim(c) && c.id == id) || (m
            matches Message::HitIgnore(c) && c.id == id),
        claims_hit(Incoming::Message(m), id) <==> (m matches Message::HitClaim(c) && c.id == id),
        ignores_hit(Incoming::Message(m), id) <==> (m matches Message::HitIgnore(c) && c.id == id),
{
}

/// Of all that comes just a claim of the hit is a claim, with its priority and the connection that it
/// came from; just a connection that is closed or broke the protocol is to be ended; and just a message
/// that does not answer the hit waits. Each joins the end of its list, and nothing leaves one.
pub proof fn lemma_what_is_taken_in(before: HitDispatch, after: HitDispatch, conn: u64, r: Incoming)
    requires
        takes_in(before, after, conn, r),
    ensures
        after.id() == before.id(),
        after.order() == before.order(),
        r matches Incoming::Message(Message::HitClaim(m)) ==> m.id == before.id() ==> after.claims()
            == before.claims() + seq![(m.priority, conn)] && after.deferred() == before.deferred(),
        !claims_hit(r, before.id()) ==> after.claims() == before.claims(),
        r is Closed || r is Broken ==> after.dead() == before.dead() + seq![conn],
        !(r is Closed || r is Broken) ==> after.dead() == before.dead(),
        r matches Incoming::Message(m) ==> !claims_hit(r, before.id()) && !ignores_hit(r, before.id())
            ==> after.deferred() == before.deferred() + seq![(conn, m)],
        !(r is Message) || ignores_hit(r, before.id()) ==> after.deferred() == before.deferred(),
{
    assert(before.dead().push(conn) =~= before.dead() + seq![conn]);
    if let Incoming::Message(m) = r {
        assert(before.deferred().push((conn, m)) =~= before.deferred() + seq![(conn, m)]);
        if let Message::HitClaim(c) = m {
            assert(before.claims().push((c.priority, conn)) =~= before.claims() + seq![(c.priority, conn)]);
        }
    }
}

/// In the end the hit is taken just where some plugin claimed it, by one that claimed it with the highest
/// priority; the messages about other things are all handed on, and the connections that are to be ended
/// are ended.
pub proof fn lemma_how_a_hit_ends(
    d: HitDispatch,
    w: World,
    after: World,
    a: DispatchAction,
    lost: Seq<Dropped>,
)
    requires
        finishes(d, w, after, a, lost),
    ensures
        a matches DispatchAction::Finish(o, conn, rest) && {
            &&& rest@ == d.deferred()
            &&& d.claims().len() == 0 ==> o == DispatchOutcome::AllIgnored && conn is None
            &&& d.claims().len() > 0 ==> (o matches DispatchOutcome::Claimed { priority }) && conn is Some
            &&& o matches DispatchOutcome::Claimed { priority } ==> conn is Some && d.claims().contains(
                (priority, conn->0),
            ) && forall|c: (u32, u64)| #[trigger] d.claims().contains(c) ==> c.0 <= priority
        },
        after == all_ended(w, d.dead()),
        losses(lost) == partings(w, d.dead()),
{
    lemma_winner(d.claims());
    if let Some(c) = winner(d.claims()) {
        let claims = d.claims();
        let i = choose|i: int| #[trigger] wins(claims, i) && claims[i] == c;
        assert(claims.contains(c));
        assert forall|x: (u32, u64)| #[trigger] claims.contains(x) implies x.0 <= c.0 by {
            let j = claims.index_of(x);
            assert(claims[j].0 <= claims[i].0);
        }
    }
}

/// A message of another version ends the connection, and so does one of a known type that cannot be read;
/// one of an unknown type does not.
pub proof fn lemma_what_a_message_means(e: Envelope, m: Option<Message>, r: Incoming)
    requires
        call_ensures(incoming_of, (e, m), r),
    ensures
        r is Unknown <==> e is UnknownType,
        r is Broken <==> e is OtherVersion || (e is Known && m is None),
        r is Message <==> e is Known && m is Some,
        r matches Incoming::Message(x) ==> m == Some(x),
{
}

/// The system opens a hit just where no plugin took it.
pub proof fn lemma_when_the_system_opens(outcome: DispatchOutcome, r: bool)
    requires
        call_ensures(opens_by_default, (outcome,), r),
    ensures
        r <==> outcome == DispatchOutcome::NoPlugins || outcome == DispatchOutcome::AllIgnored,
{
}

/// A hit is told first to whoever is connected; else plugins that were not tried are started; else it is
/// over at once. It begins once.
pub proof fn lemma_how_a_hit_begins(d: &mut HitDispatch, host: &mut PluginHost, a: DispatchAction)
    requires
        call_ensures(HitDispatch::begin, (d, host), a),
        old(d).stage() is Fresh,
    ensures
        a is Send <==> !old(host)@.disabled && old(host)@.conns.len() > 0,
        a matches DispatchAction::Send(v) ==> v@ == old(host)@.conns && final(d).stage() is Sending,
        a is Spawn ==> old(host)@.conns.len() == 0 && final(d).stage() is Connecting,
        old(host)@.disabled ==> (a matches DispatchAction::Finish(o, conn, rest) && o
            == DispatchOutcome::NoPlugins && conn is None && rest@.len() == 0),
        a is Finish ==> final(d).stage() is Done && final(host)@ == old(host)@,
        a is Send || a is Spawn || a is Finish,
{
}

/// While a plugin's connection is waited for, the first that comes is told; without one it is over once
/// the time is.
pub proof fn lemma_how_a_hit_waits(d: &mut HitDispatch, host: &PluginHost, time_up: bool, a: DispatchAction)
    requires
        call_ensures(HitDispatch::waited, (d, host, time_up), a),
        old(d).stage() is Connecting,
    ensures
        a is Send <==> host@.conns.len() > 0,
        a is Wait <==> host@.conns.len() == 0 && !time_up,
        a is Finish <==> host@.conns.len() == 0 && time_up,
        a matches DispatchAction::Send(v) ==> v@ == host@.conns,
        a matches DispatchAction::Finish(o, conn, _) ==> o == DispatchOutcome::NoPlugins && conn is None,
{
}

/// Once the hit is told, the connections that are left are read from the first on; where none is left,
/// nobody took it.
pub proof fn lemma_how_a_hit_is_read(
    d: &mut HitDispatch,
    failed: &Vec<u64>,
    host: &mut PluginHost,
    layers: &mut Registry,
    theme: &mut Option<ThemeOverride>,
    r: (DispatchAction, Vec<Dropped>),
)
    requires
        call_ensures(HitDispatch::sent, (d, failed, host, layers, theme), r),
        old(d).stage() is Sending,
    ensures
        (final(host)@, final(layers).layers(), *final(theme)) == all_ended(
            (old(host)@, old(layers).layers(), *old(theme)),
            failed@,
        ),
        final(host)@.conns.len() > 0 ==> r.0 == DispatchAction::Read(final(host)@.conns[0])
            && final(d).stage() is Collecting && final(d).order() == final(host)@.conns && final(d).at()
            == 0,
        final(host)@.conns.len() == 0 ==> final(d).stage() is Done && (r.0 matches DispatchAction::Finish(
            o,
            conn,
            _,
        ) && o == DispatchOutcome::AllIgnored && conn is None),
{
}

/// A connection is read until it has nothing more to say; then the next one is, and behind the last it is
/// over.
pub proof fn lemma_how_reading_goes_on(
    d: &mut HitDispatch,
    m: Incoming,
    host: &mut PluginHost,
    layers: &mut Registry,
    theme: &mut Option<ThemeOverride>,
    r: (DispatchAction, Vec<Dropped>),
)
    requires
        call_ensures(HitDispatch::reply, (d, m, host, layers, theme), r),
        old(d).stage() is Collecting,
    ensures
        !settles(m, old(d).id()) ==> r.0 == DispatchAction::Read(old(d).order()[old(d).at() as int])
            && final(d).at() == old(d).at(),
        settles(m, old(d).id()) && old(d).at() + 1 != old(d).order().len() ==> r.0 == DispatchAction::Read(
            old(d).order()[old(d).at() as int + 1],
        ) && final(d).at() == old(d).at() + 1,
        settles(m, old(d).id()) && old(d).at() + 1 == old(d).order().len() ==> r.0 is Finish
            && final(d).stage() is Done,
        r.0 is Finish || final(d).stage() is Collecting,
{
}

} // verus!
