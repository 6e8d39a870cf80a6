//! What the plugins are told of the panes.

use vstd::prelude::*;
use vstd::string::*;

use crate::plugins::hit::{as_cwd, click_cwd, usable_cwd};
use crate::protocol::PaneInfo;
use crate::text::{decimal, decimal_of, opt_string};

verus! {

/// What is known of a live pane without looking at its window: its number, the process in its
/// foreground and the working directory that its shell told, empty where it told none.
#[derive(Clone, Debug, PartialEq)]
pub struct LivePane {
    pub pane: u32,
    pub pid: u32,
    pub cwd: String,
}

/// A pane's part of the mark.
pub open spec fn pane_mark(p: LivePane) -> Seq<char> {
    decimal(p.pane as nat) + ":"@ + decimal(p.pid as nat) + ":"@ + p.cwd@ + ";"@
}

/// The place in a list in order where a pane goes: behind all with the same number or a lower one.
pub open spec fn place(s: Seq<LivePane>, p: LivePane) -> int
    decreases s.len(),
{
    if s.len() == 0 || s.last().pane <= p.pane {
        s.len() as int
    } else {
        place(s.drop_last(), p)
    }
}

/// The panes in the order of their numbers; those with the same number keep theirs.
pub open spec fn by_number(s: Seq<LivePane>) -> Seq<LivePane>
    decreases s.len(),
{
    if s.len() == 0 {
        s
    } else {
        let before = by_number(s.drop_last());
        before.insert(place(before, s.last()), s.last())
    }
}

/// The marks of the panes, one behind the other.
pub open spec fn marks(s: Seq<LivePane>) -> Seq<char>
    decreases s.len(),
{
    if s.len() == 0 {
        Seq::empty()
    } else {
        marks(s.drop_last()) + pane_mark(s.last())
    }
}

proof fn lemma_place(s: Seq<LivePane>, p: LivePane)
    requires
        ascending(s),
    ensures
        0 <= place(s, p) <= s.len(),
        forall|i: int| 0 <= i < place(s, p) ==> (#[trigger] s[i]).pane <= p.pane,
        forall|i: int| place(s, p) <= i < s.len() ==> p.pane < (#[trigger] s[i]).pane,
    decreases s.len(),
{
    if s.len() > 0 && s.last().pane > p.pane {
        let init = s.drop_last();
        lemma_place(init, p);
        assert forall|i: int| 0 <= i < place(s, p) implies (#[trigger] s[i]).pane <= p.pane by {
            assert(init[i].pane <= p.pane);
        }
        assert forall|i: int| place(s, p) <= i < s.len() implies p.pane < (#[trigger] s[i]).pane by {
            if i < init.len() {
                assert(p.pane < init[i].pane);
            }
        }
    } else if s.len() > 0 {
        assert forall|i: int| 0 <= i < s.len() implies (#[trigger] s[i]).pane <= p.pane by {
            assert(s[i].pane <= s[s.len() - 1].pane);
        }
    }
}

/// The panes stand in the order of their numbers.
pub open spec fn ascending(s: Seq<LivePane>) -> bool {
    forall|i: int, j: int| 0 <= i <= j < s.len() ==> (#[trigger] s[i]).pane <= (#[trigger] s[j]).pane
}

/// Putting the panes in order loses none and adds none.
pub proof fn lemma_by_number(s: Seq<LivePane>)
    ensures
        ascending(by_number(s)),
        by_number(s).to_multiset() == s.to_multiset(),
        by_number(s).len() == s.len(),
    decreases s.len(),
{
    broadcast use vstd::seq_lib::group_to_multiset_ensures;

    if s.len() > 0 {
        let init = s.drop_last();
        let p = s.last();
        lemma_by_number(init);
        let before = by_number(init);
        lemma_place(before, p);
        let at = place(before, p);
        let after = before.insert(at, p);
        assert forall|i: int, j: int| 0 <= i <= j < after.len() implies (#[trigger] after[i]).pane <= (
        #[trigger] after[j]).pane by {
            if j < at {
                assert(after[i] == before[i] && after[j] == before[j]);
            } else if i < at && j == at {
                assert(after[i] == before[i]);
            } else if i < at {
                assert(after[i] == before[i] && after[j] == before[j - 1]);
            } else if i == at && j > at {
                assert(after[j] == before[j - 1]);
            } else if i > at {
                assert(after[i] == before[i - 1] && after[j] == before[j - 1]);
            }
        }
        assert(s =~= init.push(p));
        assert(before.insert(at, p).to_multiset() =~= before.to_multiset().insert(p));
        assert(init.push(p).to_multiset() =~= init.to_multiset().insert(p));
    }
}

/// A mark of the live panes: it changes when a pane comes or goes, or its process or its directory
/// changes, and not with the order in which the panes are looked at.
pub fn cheap_pane_sig(panes: Vec<LivePane>) -> (s: String)
    ensures
        s@ == marks(by_number(panes@)),
{
    let n: usize = panes.len();
    let ghost all = panes@;
    let mut rest: Vec<LivePane> = panes;
    let mut sorted: Vec<LivePane> = Vec::new();
    let mut i: usize = 0;
    assert(all.take(0) =~= Seq::<LivePane>::empty());
    assert(all.skip(0) =~= all);
    while i < n
        invariant
            i <= n == all.len(),
            rest@ == all.skip(i as int),
            sorted@ == by_number(all.take(i as int)),
            sorted@.len() == i,
        decreases n - i,
    {
        assert(all.take(i + 1).drop_last() =~= all.take(i as int));
        let p: LivePane = rest.remove(0);
        assert(p == all[i as int]);
        assert(rest@ =~= all.skip(i + 1));
        let mut at: usize = sorted.len();
        assert(sorted@.take(at as int) =~= sorted@);
        while at > 0 && sorted[at - 1].pane > p.pane
            invariant
                at <= sorted@.len(),
                place(sorted@, p) == place(sorted@.take(at as int), p),
            decreases at,
        {
            assert(sorted@.take(at as int).drop_last() =~= sorted@.take(at - 1));
            at -= 1;
        }
        assert(place(sorted@, p) == at) by {
            if at > 0 {
                assert(sorted@.take(at as int).last() == sorted@[at - 1]);
            }
        }
        sorted.insert(at, p);
        i += 1;
    }
    assert(all.take(n as int) =~= all);
    let mut s: String = String::new();
    let mut k: usize = 0;
    assert(sorted@.take(0) =~= Seq::<LivePane>::empty());
    assert(s@ =~= marks(sorted@.take(0)));
    while k < sorted.len()
        invariant
            k <= sorted@.len(),
            s@ == marks(sorted@.take(k as int)),
        decreases sorted@.len() - k,
    {
        assert(sorted@.take(k + 1).drop_last() =~= sorted@.take(k as int));
        let p: &LivePane = &sorted[k];
        s = s.concat(decimal_of(p.pane as u64).as_str()).concat(":").concat(
            decimal_of(p.pid as u64).as_str(),
        ).concat(":").concat(p.cwd.as_str()).concat(";");
        k += 1;
        assert(s@ =~= marks(sorted@.take(k as int)));
    }
    assert(sorted@.take(k as int) =~= sorted@);
    s
}

/// A pane as it stands in its tab; `live` where it has a terminal.
#[derive(Clone, Debug, PartialEq)]
pub struct LeafFact {
    pub pane: u32,
    pub live: bool,
    /// The working directory that its shell told, as it was told.
    pub told: Option<String>,
    /// The working directory of the process in its foreground.
    pub process_cwd: Option<String>,
    pub fg_pid: u32,
}

/// The working directory of a pane: the one that its shell told, if it is usable, else that of the
/// process in its foreground, else none.
pub open spec fn leaf_cwd(leaf: LeafFact) -> Seq<char> {
    match opt_string(leaf.told) {
        Some(t) if usable_cwd(as_cwd(t)) => as_cwd(t),
        _ => or_none(leaf.process_cwd),
    }
}

/// A text, or the empty one.
pub open spec fn or_none(s: Option<String>) -> Seq<char> {
    match s {
        Some(t) => t@,
        None => Seq::empty(),
    }
}

/// A pane of a tab is told of.
pub open spec fn told_pane(info: PaneInfo, leaf: LeafFact, window: int, tab: int, at: int) -> bool {
    &&& info.pane == leaf.pane
    &&& info.window == window as u32
    &&& info.tab == tab as u32
    &&& info.leaf == at as u32
    &&& info.cwd@ == leaf_cwd(leaf)
    &&& info.fg_pid == leaf.fg_pid
}

/// Where the live panes of the first `n` of a tab's panes stand.
pub open spec fn leaf_spots(leaves: Seq<LeafFact>, window: int, tab: int, n: int) -> Seq<(int, int, int)>
    decreases n,
{
    if n <= 0 {
        Seq::empty()
    } else if leaves[n - 1].live {
        leaf_spots(leaves, window, tab, n - 1).push((window, tab, n - 1))
    } else {
        leaf_spots(leaves, window, tab, n - 1)
    }
}

/// Where the live panes of the first `n` tabs of a window stand.
pub open spec fn tab_spots(tabs: Seq<Vec<LeafFact>>, window: int, n: int) -> Seq<(int, int, int)>
    decreases n,
{
    if n <= 0 {
        Seq::empty()
    } else {
        tab_spots(tabs, window, n - 1) + leaf_spots(
            tabs[n - 1]@,
            window,
            n - 1,
            tabs[n - 1]@.len() as int,
        )
    }
}

/// Where the live panes of the first `n` windows stand: window, tab and place in the tab.
pub open spec fn window_spots(windows: Seq<Vec<Vec<LeafFact>>>, n: int) -> Seq<(int, int, int)>
    decreases n,
{
    if n <= 0 {
        Seq::empty()
    } else {
        window_spots(windows, n - 1) + tab_spots(
            windows[n - 1]@,
            n - 1,
            windows[n - 1]@.len() as int,
        )
    }
}

/// How many of the first `n` tabs have panes.
pub open spec fn tabs_with_panes(tabs: Seq<Vec<LeafFact>>, n: int) -> int
    decreases n,
{
    if n <= 0 {
        0
    } else if tabs[n - 1]@.len() > 0 {
        tabs_with_panes(tabs, n - 1) + 1
    } else {
        tabs_with_panes(tabs, n - 1)
    }
}

/// The panes are told of by where they stand; a tab goes by its number among those with panes.
pub open spec fn tell_spots(
    out: Seq<PaneInfo>,
    windows: Seq<Vec<Vec<LeafFact>>>,
    spots: Seq<(int, int, int)>,
) -> bool {
    &&& out.len() == spots.len()
    &&& forall|i: int|
        0 <= i < out.len() ==> told_pane(
            #[trigger] out[i],
            windows[spots[i].0]@[spots[i].1]@[spots[i].2],
            spots[i].0,
            tabs_with_panes(windows[spots[i].0]@, spots[i].1),
            spots[i].2,
        )
}

/// The live pane is the one that stands there; its directory is what its shell told, and nothing where
/// that told none.
pub open spec fn is_live_pane(
    p: LivePane,
    windows: Seq<Vec<Vec<LeafFact>>>,
    spot: (int, int, int),
) -> bool {
    let leaf = windows[spot.0]@[spot.1]@[spot.2];
    p.pane == leaf.pane && p.pid == leaf.fg_pid && p.cwd@ == or_none(leaf.told)
}

/// The live panes are those that stand there.
pub open spec fn live_at(
    out: Seq<LivePane>,
    windows: Seq<Vec<Vec<LeafFact>>>,
    spots: Seq<(int, int, int)>,
) -> bool {
    &&& out.len() == spots.len()
    &&& forall|i: int| 0 <= i < out.len() ==> is_live_pane(#[trigger] out[i], windows, spots[i])
}

fn text_or_none(s: &Option<String>) -> (r: String)
    ensures
        r@ == or_none(*s),
{
    match s {
        Some(t) => t.clone(),
        None => {
            let r: String = String::new();
            assert(r@ =~= Seq::<char>::empty());
            r
        },
    }
}

fn cwd_of(leaf: &LeafFact) -> (r: String)
    ensures
        r@ == leaf_cwd(*leaf),
{
    let told: Option<&str> = match &leaf.told {
        Some(t) => Some(t.as_str()),
        None => None,
    };
    let process: Option<&str> = match &leaf.process_cwd {
        Some(p) => Some(p.as_str()),
        None => None,
    };
    click_cwd(told, process)
}

/// The live panes, as the plugins are told of them and as their mark is made.
fn walk_panes(windows: &Vec<Vec<Vec<LeafFact>>>) -> (r: (Vec<PaneInfo>, Vec<LivePane>))
    ensures
        tell_spots(r.0@, windows@, window_spots(windows@, windows@.len() as int)),
        live_at(r.1@, windows@, window_spots(windows@, windows@.len() as int)),
{
    let mut out: Vec<PaneInfo> = Vec::new();
    let mut marks: Vec<LivePane> = Vec::new();
    let mut w: usize = 0;
    while w < windows.len()
        invariant
            w <= windows@.len(),
            tell_spots(out@, windows@, window_spots(windows@, w as int)),
            live_at(marks@, windows@, window_spots(windows@, w as int)),
        decreases windows@.len() - w,
    {
        let ghost first = window_spots(windows@, w as int);
        let mut t: usize = 0;
        let mut number: usize = 0;
        assert(first + tab_spots(windows@[w as int]@, w as int, 0) =~= first);
        while t < windows[w].len()
            invariant
                w < windows@.len(),
                t <= windows@[w as int]@.len(),
                number <= t,
                number == tabs_with_panes(windows@[w as int]@, t as int),
                tell_spots(
                    out@,
                    windows@,
                    first + tab_spots(windows@[w as int]@, w as int, t as int),
                ),
                live_at(
                    marks@,
                    windows@,
                    first + tab_spots(windows@[w as int]@, w as int, t as int),
                ),
            decreases windows@[w as int]@.len() - t,
        {
            let ghost second = first + tab_spots(windows@[w as int]@, w as int, t as int);
            let leaves: &Vec<LeafFact> = &windows[w][t];
            let mut l: usize = 0;
            assert(second + leaf_spots(leaves@, w as int, t as int, 0) =~= second);
            while l < leaves.len()
                invariant
                    w < windows@.len(),
                    t < windows@[w as int]@.len(),
                    leaves@ == windows@[w as int]@[t as int]@,
                    l <= leaves@.len(),
                    number == tabs_with_panes(windows@[w as int]@, t as int),
                    tell_spots(
                        out@,
                        windows@,
                        second + leaf_spots(leaves@, w as int, t as int, l as int),
                    ),
                    live_at(
                        marks@,
                        windows@,
                        second + leaf_spots(leaves@, w as int, t as int, l as int),
                    ),
                decreases leaves@.len() - l,
            {
                let ghost spots = second + leaf_spots(leaves@, w as int, t as int, l as int);
                if leaves[l].live {
                    let ghost was = out@;
                    let ghost marked = marks@;
                    out.push(
                        PaneInfo {
                            pane: leaves[l].pane,
                            window: #[verifier::truncate] (w as u32),
                            tab: #[verifier::truncate] (number as u32),
                            leaf: #[verifier::truncate] (l as u32),
                            cwd: cwd_of(&leaves[l]),
                            fg_pid: leaves[l].fg_pid,
                        },
                    );
                    marks.push(
                        LivePane {
                            pane: leaves[l].pane,
                            pid: leaves[l].fg_pid,
                            cwd: text_or_none(&leaves[l].told),
                        },
                    );
                    proof {
                        let now = second + leaf_spots(leaves@, w as int, t as int, l + 1);
                        assert(now =~= spots.push((w as int, t as int, l as int)));
                        assert forall|i: int| 0 <= i < out@.len() implies told_pane(
                            #[trigger] out@[i],
                            windows@[now[i].0]@[now[i].1]@[now[i].2],
                            now[i].0,
                            tabs_with_panes(windows@[now[i].0]@, now[i].1),
                            now[i].2,
                        ) by {
                            if i < was.len() {
                                assert(out@[i] == was[i]);
                                assert(now[i] == spots[i]);
                            }
                        }
                        assert forall|i: int| 0 <= i < marks@.len() implies is_live_pane(
                            #[trigger] marks@[i],
                            windows@,
                            now[i],
                        ) by {
                            if i < marked.len() {
                                assert(marks@[i] == marked[i]);
                                assert(now[i] == spots[i]);
                            }
                        }
                    }
                } else {
                    assert(second + leaf_spots(leaves@, w as int, t as int, l + 1) =~= spots);
                }
                l += 1;
            }
            if leaves.len() > 0 {
                number += 1;
            }
            t += 1;
            assert(first + tab_spots(windows@[w as int]@, w as int, t as int) =~= second
                + leaf_spots(leaves@, w as int, t - 1, leaves@.len() as int));
        }
        w += 1;
    }
    (out, marks)
}

/// What the plugins are told of the panes: of each that is live its window, its tab and its place in
/// the tab. A tab without panes takes no number, and a pane that is not live keeps its place.
pub fn collect_pane_snapshot(windows: &Vec<Vec<Vec<LeafFact>>>) -> (out: Vec<PaneInfo>)
    ensures
        tell_spots(out@, windows@, window_spots(windows@, windows@.len() as int)),
{
    walk_panes(windows).0
}

/// The live panes of all windows, in the order in which the plugins are told of them.
pub fn live_panes(windows: &Vec<Vec<Vec<LeafFact>>>) -> (out: Vec<LivePane>)
    ensures
        live_at(out@, windows@, window_spots(windows@, windows@.len() as int)),
{
    walk_panes(windows).1
}

/// The mark of panes tells any of them from another: it changes whenever the number, the process or the
/// directory of one pane does.
pub proof fn lemma_mark_changes(a: Seq<LivePane>, p: LivePane, q: LivePane, b: Seq<LivePane>)
    ensures
        marks(a + seq![p] + b) == marks(a + seq![q] + b) <==> p.pane == q.pane && p.pid == q.pid && p.cwd@
            == q.cwd@,
{
    lemma_marks_parts(a, p, b);
    lemma_marks_parts(a, q, b);
    let x = pane_mark(p);
    let y = pane_mark(q);
    if marks(a + seq![p] + b) == marks(a + seq![q] + b) {
        let m = marks(a);
        let n = marks(b);
        assert((m + x + n).len() == m.len() + x.len() + n.len());
        assert((m + y + n).len() == m.len() + y.len() + n.len());
        assert(x =~= (m + x + n).subrange(m.len() as int, (m.len() + x.len()) as int));
        assert(y =~= (m + y + n).subrange(m.len() as int, (m.len() + y.len()) as int));
        lemma_mark_tells(p, q);
    }
}

proof fn lemma_marks_parts(a: Seq<LivePane>, p: LivePane, b: Seq<LivePane>)
    ensures
        marks(a + seq![p] + b) == marks(a) + pane_mark(p) + marks(b),
    decreases b.len(),
{
    let s = a + seq![p] + b;
    if b.len() > 0 {
        lemma_marks_parts(a, p, b.drop_last());
        assert(s.drop_last() =~= a + seq![p] + b.drop_last());
        assert(s.last() == b.last());
        assert(marks(s) =~= marks(a) + pane_mark(p) + marks(b));
    } else {
        assert(s.drop_last() =~= a);
        assert(s.last() == p);
        assert(marks(s) =~= marks(a) + pane_mark(p) + marks(b));
    }
}

proof fn lemma_mark_tells(p: LivePane, q: LivePane)
    requires
        pane_mark(p) == pane_mark(q),
    ensures
        p.pane == q.pane,
        p.pid == q.pid,
        p.cwd@ == q.cwd@,
{
    reveal_strlit(":");
    reveal_strlit(";");
    let (a, b, c) = (decimal(p.pane as nat), decimal(p.pid as nat), p.cwd@ + ";"@);
    let (d, e, f) = (decimal(q.pane as nat), decimal(q.pid as nat), q.cwd@ + ";"@);
    assert(pane_mark(p) =~= a + ":"@ + (b + ":"@ + c));
    assert(pane_mark(q) =~= d + ":"@ + (e + ":"@ + f));
    crate::text::lemma_decimal(p.pane as nat);
    crate::text::lemma_decimal(q.pane as nat);
    crate::text::lemma_decimal(p.pid as nat);
    crate::text::lemma_decimal(q.pid as nat);
    lemma_up_to_colon(a, b + ":"@ + c, d, e + ":"@ + f);
    lemma_up_to_colon(b, c, e, f);
    assert(c.drop_last() =~= p.cwd@);
    assert(f.drop_last() =~= q.cwd@);
}

proof fn lemma_up_to_colon(a: Seq<char>, b: Seq<char>, c: Seq<char>, d: Seq<char>)
    requires
        a + ":"@ + b == c + ":"@ + d,
        crate::text::all_digits(a),
        crate::text::all_digits(c),
    ensures
        a == c,
        b == d,
{
    reveal_strlit(":");
    let s = a + ":"@ + b;
    assert(s[a.len() as int] == ':');
    assert(s[c.len() as int] == ':');
    if a.len() < c.len() {
        assert(s[a.len() as int] == c[a.len() as int]);
        assert(crate::text::is_ascii_digit(c[a.len() as int]));
    }
    if c.len() < a.len() {
        assert(s[c.len() as int] == a[c.len() as int]);
        assert(crate::text::is_ascii_digit(a[c.len() as int]));
    }
    assert(a =~= s.take(a.len() as int));
    assert(c =~= s.take(a.len() as int));
    assert(b =~= s.skip(a.len() as int + 1));
    assert(d =~= s.skip(a.len() as int + 1));
}

/// The order in which panes are looked at leaves no trace in their mark, where each has a number of its
/// own.
pub proof fn lemma_mark_without_order(s: Seq<LivePane>, t: Seq<LivePane>)
    requires
        s.to_multiset() == t.to_multiset(),
        forall|i: int, j: int| 0 <= i < j < s.len() ==> (#[trigger] s[i]).pane != (#[trigger] s[j]).pane,
    ensures
        marks(by_number(s)) == marks(by_number(t)),
{
    lemma_by_number(s);
    lemma_by_number(t);
    let a = by_number(s);
    let b = by_number(t);
    assert forall|p: LivePane, q: LivePane| #[trigger] a.contains(p) && #[trigger] a.contains(q) && p.pane
        == q.pane implies p == q by {
        broadcast use vstd::seq_lib::group_to_multiset_ensures;

        assert(s.to_multiset().count(p) > 0);
        assert(s.to_multiset().count(q) > 0);
        let i = s.index_of(p);
        let j = s.index_of(q);
        assert(s[i].pane == s[j].pane);
    }
    lemma_one_ascending(a, b);
}

proof fn lemma_one_ascending(a: Seq<LivePane>, b: Seq<LivePane>)
    requires
        ascending(a),
        ascending(b),
        a.to_multiset() == b.to_multiset(),
        forall|p: LivePane, q: LivePane| #[trigger]
            a.contains(p) && #[trigger] a.contains(q) && p.pane == q.pane ==> p == q,
    ensures
        a == b,
    decreases a.len(),
{
    broadcast use vstd::seq_lib::group_to_multiset_ensures;

    assert(a.to_multiset().len() == a.len());
    assert(b.to_multiset().len() == b.len());
    if a.len() > 0 {
        let p = a.last();
        let q = b.last();
        assert(a.contains(p)) by {
            assert(a[a.len() - 1] == p);
        }
        assert(b.contains(q)) by {
            assert(b[b.len() - 1] == q);
        }
        assert(b.to_multiset().count(q) > 0);
        assert(a.to_multiset().count(p) > 0);
        assert(a.contains(q));
        assert(b.contains(p));
        let i = a.index_of(q);
        let j = b.index_of(p);
        assert(a[i].pane <= a[a.len() - 1].pane);
        assert(b[j].pane <= b[b.len() - 1].pane);
        assert(p == q);
        let c = a.drop_last();
        let d = b.drop_last();
        assert(a =~= c.push(p));
        assert(b =~= d.push(p));
        assert(c.push(p).to_multiset() =~= c.to_multiset().insert(p));
        assert(d.push(p).to_multiset() =~= d.to_multiset().insert(p));
        assert(c.to_multiset() =~= c.to_multiset().insert(p).remove(p));
        assert(d.to_multiset() =~= d.to_multiset().insert(p).remove(p));
        assert forall|x: LivePane, y: LivePane| #[trigger] c.contains(x) && #[trigger] c.contains(y)
            && x.pane == y.pane implies x == y by {
            assert(a[c.index_of(x)] == x);
            assert(a[c.index_of(y)] == y);
            assert(a.contains(x) && a.contains(y));
        }
        assert(ascending(c)) by {
            assert forall|x: int, y: int| 0 <= x <= y < c.len() implies (#[trigger] c[x]).pane <= (
            #[trigger] c[y]).pane by {
                assert(a[x].pane <= a[y].pane);
            }
        }
        assert(ascending(d)) by {
            assert forall|x: int, y: int| 0 <= x <= y < d.len() implies (#[trigger] d[x]).pane <= (
            #[trigger] d[y]).pane by {
                assert(b[x].pane <= b[y].pane);
            }
        }
        lemma_one_ascending(c, d);
    } else {
        assert(a =~= b);
    }
}

/// The directory of a pane is what its shell told where that is a path that begins with a slash or a
/// tilde, else that of its process, else nothing.
pub proof fn lemma_directory_of_a_pane(leaf: LeafFact)
    ensures
        leaf.told is None ==> leaf_cwd(leaf) == or_none(leaf.process_cwd),
        leaf.told matches Some(t) ==> {
            let d = as_cwd(t@);
            &&& d.len() > 0 && (d[0] == '/' || d[0] == '~') ==> leaf_cwd(leaf) == d
            &&& d.len() == 0 || (d[0] != '/' && d[0] != '~') ==> leaf_cwd(leaf) == or_none(
                leaf.process_cwd,
            )
        },
        leaf.process_cwd is None ==> or_none(leaf.process_cwd) == Seq::<char>::empty(),
        leaf.process_cwd matches Some(p) ==> or_none(leaf.process_cwd) == p@,
{
    if let Some(t) = leaf.told {
        let d = as_cwd(t@);
        if d.len() > 0 {
            crate::plugins::hit::lemma_usable_paths(d[0], d.skip(1));
            assert(seq![d[0]] + d.skip(1) =~= d);
        } else {
            crate::plugins::hit::lemma_usable_paths(' ', d);
            assert(d =~= Seq::<char>::empty());
        }
    }
}

/// One place comes before another: by the window, then the tab, then the place in the tab.
pub open spec fn spot_before(a: (int, int, int), b: (int, int, int)) -> bool {
    a.0 < b.0 || (a.0 == b.0 && (a.1 < b.1 || (a.1 == b.1 && a.2 < b.2)))
}

/// There is a live pane at the place, in one of the first `n` windows.
pub open spec fn is_live_spot(windows: Seq<Vec<Vec<LeafFact>>>, n: int, s: (int, int, int)) -> bool {
    &&& 0 <= s.0 < n
    &&& 0 <= s.1 < windows[s.0]@.len()
    &&& 0 <= s.2 < windows[s.0]@[s.1]@.len()
    &&& windows[s.0]@[s.1]@[s.2].live
}

/// Places in order, none of them twice.
pub open spec fn spots_in_order(s: Seq<(int, int, int)>) -> bool {
    forall|i: int, j: int| 0 <= i < j < s.len() ==> spot_before(#[trigger] s[i], #[trigger] s[j])
}

proof fn lemma_joined_spots(a: Seq<(int, int, int)>, b: Seq<(int, int, int)>)
    requires
        spots_in_order(a),
        spots_in_order(b),
        forall|i: int, j: int|
            0 <= i < a.len() && 0 <= j < b.len() ==> spot_before(#[trigger] a[i], #[trigger] b[j]),
    ensures
        spots_in_order(a + b),
        forall|s: (int, int, int)| #[trigger] (a + b).contains(s) <==> a.contains(s) || b.contains(s),
{
    let c = a + b;
    assert forall|i: int, j: int| 0 <= i < j < c.len() implies spot_before(
        #[trigger] c[i],
        #[trigger] c[j],
    ) by {
        if j < a.len() {
            assert(spot_before(a[i], a[j]));
        } else if i < a.len() {
            assert(spot_before(a[i], b[j - a.len()]));
        } else {
            assert(spot_before(b[i - a.len()], b[j - a.len()]));
        }
    }
    assert forall|s: (int, int, int)| #[trigger] c.contains(s) <==> a.contains(s) || b.contains(s) by {
        if a.contains(s) {
            assert(c[a.index_of(s)] == s);
        }
        if b.contains(s) {
            assert(c[a.len() + b.index_of(s)] == s);
        }
        if c.contains(s) {
            let i = c.index_of(s);
            if i < a.len() {
                assert(a[i] == s);
            } else {
                assert(b[i - a.len()] == s);
            }
        }
    }
}

proof fn lemma_leaf_spots(leaves: Seq<LeafFact>, w: int, t: int, n: int)
    requires
        0 <= n <= leaves.len(),
    ensures
        spots_in_order(leaf_spots(leaves, w, t, n)),
        forall|s: (int, int, int)| #[trigger]
            leaf_spots(leaves, w, t, n).contains(s) <==> s.0 == w && s.1 == t && 0 <= s.2 < n
                && leaves[s.2].live,
    decreases n,
{
    if n > 0 {
        lemma_leaf_spots(leaves, w, t, n - 1);
        let a = leaf_spots(leaves, w, t, n - 1);
        if leaves[n - 1].live {
            let b = seq![(w, t, n - 1)];
            assert(leaf_spots(leaves, w, t, n) =~= a + b);
            assert forall|i: int, j: int| 0 <= i < a.len() && 0 <= j < b.len() implies spot_before(
                #[trigger] a[i],
                #[trigger] b[j],
            ) by {
                assert(a.contains(a[i]));
            }
            lemma_joined_spots(a, b);
            assert(b[0] == (w, t, n - 1));
            assert forall|s: (int, int, int)| #[trigger]
                leaf_spots(leaves, w, t, n).contains(s) <==> s.0 == w && s.1 == t && 0 <= s.2 < n
                    && leaves[s.2].live by {
                assert((a + b).contains(s) <==> a.contains(s) || b.contains(s));
                if s.0 == w && s.1 == t && s.2 == n - 1 {
                    assert(b[0] == s);
                }
                assert(b.contains(s) ==> s == b[0]);
            }
        }
    }
}

proof fn lemma_tab_spots(tabs: Seq<Vec<LeafFact>>, w: int, n: int)
    requires
        0 <= n <= tabs.len(),
    ensures
        spots_in_order(tab_spots(tabs, w, n)),
        forall|s: (int, int, int)| #[trigger]
            tab_spots(tabs, w, n).contains(s) <==> s.0 == w && 0 <= s.1 < n && 0 <= s.2
                < tabs[s.1]@.len() && tabs[s.1]@[s.2].live,
    decreases n,
{
    if n > 0 {
        let a = tab_spots(tabs, w, n - 1);
        let m = tabs[n - 1]@.len() as int;
        let b = leaf_spots(tabs[n - 1]@, w, n - 1, m);
        lemma_tab_spots(tabs, w, n - 1);
        lemma_leaf_spots(tabs[n - 1]@, w, n - 1, m);
        assert forall|i: int, j: int| 0 <= i < a.len() && 0 <= j < b.len() implies spot_before(
            #[trigger] a[i],
            #[trigger] b[j],
        ) by {
            assert(a.contains(a[i]));
            assert(b.contains(b[j]));
        }
        lemma_joined_spots(a, b);
        assert forall|s: (int, int, int)| #[trigger]
            tab_spots(tabs, w, n).contains(s) <==> s.0 == w && 0 <= s.1 < n && 0 <= s.2
                < tabs[s.1]@.len() && tabs[s.1]@[s.2].live by {
            assert((a + b).contains(s) <==> a.contains(s) || b.contains(s));
        }
    }
}

/// The plugins are told of just the live panes of all windows, each once: window by window, in a window
/// tab by tab, and in a tab in the order of its panes.
pub proof fn lemma_all_live_panes_are_told(windows: Seq<Vec<Vec<LeafFact>>>, n: int)
    requires
        0 <= n <= windows.len(),
    ensures
        spots_in_order(window_spots(windows, n)),
        forall|s: (int, int, int)| #[trigger]
            window_spots(windows, n).contains(s) <==> is_live_spot(windows, n, s),
    decreases n,
{
    if n > 0 {
        let a = window_spots(windows, n - 1);
        let m = windows[n - 1]@.len() as int;
        let b = tab_spots(windows[n - 1]@, n - 1, m);
        lemma_all_live_panes_are_told(windows, n - 1);
        lemma_tab_spots(windows[n - 1]@, n - 1, m);
        assert forall|i: int, j: int| 0 <= i < a.len() && 0 <= j < b.len() implies spot_before(
            #[trigger] a[i],
            #[trigger] b[j],
        ) by {
            assert(a.contains(a[i]));
            assert(b.contains(b[j]));
        }
        lemma_joined_spots(a, b);
        assert forall|s: (int, int, int)| #[trigger]
            window_spots(windows, n).contains(s) <==> is_live_spot(windows, n, s) by {
            assert((a + b).contains(s) <==> a.contains(s) || b.contains(s));
        }
    }
}

/// A tab's number is how many tabs before it have panes: the tabs with panes are numbered from 0 on
/// without gaps.
pub proof fn lemma_tabs_are_numbered(tabs: Seq<Vec<LeafFact>>, n: int)
    requires
        0 <= n <= tabs.len(),
    ensures
        tabs_with_panes(tabs, n) == tabs.take(n).filter(|t: Vec<LeafFact>| t@.len() > 0).len(),
    decreases n,
{
    reveal(Seq::filter);
    if n > 0 {
        lemma_tabs_are_numbered(tabs, n - 1);
        assert(tabs.take(n).drop_last() =~= tabs.take(n - 1));
    }
}

/// Of each live pane the plugins are told its number, its process, its directory and where it stands: its
/// window, its place in the tab, and its tab counted among those with panes.
pub proof fn lemma_what_is_told_of_panes(
    windows: &Vec<Vec<Vec<LeafFact>>>,
    out: Vec<PaneInfo>,
    marks: Vec<LivePane>,
    i: int,
)
    requires
        call_ensures(collect_pane_snapshot, (windows,), out),
        call_ensures(live_panes, (windows,), marks),
        0 <= i < out@.len(),
        windows@.len() <= u32::MAX,
        forall|w: int| 0 <= w < windows@.len() ==> (#[trigger] windows@[w])@.len() <= u32::MAX,
        forall|w: int, t: int|
            0 <= w < windows@.len() && 0 <= t < windows@[w]@.len() ==> (#[trigger] windows@[w]@[t])@.len()
                <= u32::MAX,
    ensures
        marks@.len() == out@.len(),
        exists|w: int, t: int, l: int|
            {
                &&& 0 <= w < windows@.len() && 0 <= t < windows@[w]@.len() && 0 <= l < windows@[w]@[t]@.len()
                &&& #[trigger] windows@[w]@[t]@[l].live
                &&& out@[i].window == w && out@[i].leaf == l
                &&& out@[i].tab == tabs_with_panes(windows@[w]@, t)
                &&& out@[i].pane == windows@[w]@[t]@[l].pane
                &&& out@[i].fg_pid == windows@[w]@[t]@[l].fg_pid
                &&& out@[i].cwd@ == leaf_cwd(windows@[w]@[t]@[l])
                &&& marks@[i].pane == out@[i].pane && marks@[i].pid == out@[i].fg_pid
                &&& marks@[i].cwd@ == or_none(windows@[w]@[t]@[l].told)
            },
        out@.len() == window_spots(windows@, windows@.len() as int).len(),
{
    let spots = window_spots(windows@, windows@.len() as int);
    lemma_all_live_panes_are_told(windows@, windows@.len() as int);
    let s = spots[i];
    assert(spots.contains(s));
    assert(is_live_spot(windows@, windows@.len() as int, s));
    lemma_tab_number_fits(windows@[s.0]@, s.1);
    assert(windows@[s.0]@.len() <= u32::MAX);
    assert(windows@[s.0]@[s.1]@.len() <= u32::MAX);
    assert(told_pane(
        out@[i],
        windows@[s.0]@[s.1]@[s.2],
        s.0,
        tabs_with_panes(windows@[s.0]@, s.1),
        s.2,
    ));
    assert(is_live_pane(marks@[i], windows@, s));
    assert(windows@[s.0]@[s.1]@[s.2].live);
}

proof fn lemma_tab_number_fits(tabs: Seq<Vec<LeafFact>>, n: int)
    requires
        0 <= n,
    ensures
        0 <= tabs_with_panes(tabs, n) <= n,
    decreases n,
{
    if n > 0 {
        lemma_tab_number_fits(tabs, n - 1);
    }
}

} // verus!
