//! Desktop notifications of panes: which are still shown, and which pane a click asks for.

use vstd::prelude::*;
use vstd::string::*;

use crate::text::{
    decimal, decimal_of, lemma_decimal, number, opt_string, parse_number, same_text, texts,
};

verus! {

/// The notifications that are still shown, by the pane that sent them.
pub struct Delivered {
    entries: Vec<(u32, Vec<String>)>,
}

/// The identifiers of one pane's notifications, in the order they were sent.
pub open spec fn ids_in(entries: Seq<(u32, Vec<String>)>, pane: u32) -> Seq<Seq<char>>
    decreases entries.len(),
{
    if entries.len() == 0 {
        Seq::empty()
    } else if entries.last().0 == pane {
        texts(entries.last().1@)
    } else {
        ids_in(entries.drop_last(), pane)
    }
}

/// The list without the identifier `id`.
pub open spec fn without_id(ids: Seq<Seq<char>>, id: Seq<char>) -> Seq<Seq<char>> {
    ids.filter(|s: Seq<char>| s != id)
}

impl Delivered {
    /// No pane has two entries.
    pub closed spec fn wf(self) -> bool {
        forall|i: int, j: int|
            0 <= i < j < self.entries@.len() ==> (#[trigger] self.entries@[i]).0 != (
            #[trigger] self.entries@[j]).0
    }

    /// The identifiers of a pane's notifications, in the order they were sent.
    pub closed spec fn ids(self, pane: u32) -> Seq<Seq<char>> {
        ids_in(self.entries@, pane)
    }

    /// No notification is shown.
    pub fn new() -> (d: Delivered)
        ensures
            d.wf(),
            forall|p: u32| #[trigger] d.ids(p) == Seq::<Seq<char>>::empty(),
    {
        Delivered { entries: Vec::new() }
    }

    /// The position of a pane's entry.
    fn entry_of(&self, pane: u32) -> (r: Option<usize>)
        requires
            self.wf(),
        ensures
            match r {
                Some(i) => i < self.entries@.len() && self.entries@[i as int].0 == pane && self.ids(
                    pane,
                ) == texts(self.entries@[i as int].1@),
                None => self.ids(pane) == Seq::<Seq<char>>::empty() && forall|i: int|
                    0 <= i < self.entries@.len() ==> (#[trigger] self.entries@[i]).0 != pane,
            },
    {
        let mut i: usize = self.entries.len();
        assert(self.entries@.take(i as int) =~= self.entries@);
        while i > 0
            invariant
                i <= self.entries@.len(),
                ids_in(self.entries@, pane) == ids_in(self.entries@.take(i as int), pane),
                forall|j: int| i <= j < self.entries@.len() ==> (#[trigger] self.entries@[j]).0 != pane,
            decreases i,
        {
            assert(self.entries@.take(i as int).drop_last() =~= self.entries@.take(i - 1));
            if self.entries[i - 1].0 == pane {
                return Some(i - 1);
            }
            i -= 1;
        }
        None
    }
}

proof fn lemma_ids_at(entries: Seq<(u32, Vec<String>)>, i: int)
    requires
        0 <= i < entries.len(),
        forall|a: int, b: int|
            0 <= a < b < entries.len() ==> (#[trigger] entries[a]).0 != (#[trigger] entries[b]).0,
    ensures
        ids_in(entries, entries[i].0) == texts(entries[i].1@),
    decreases entries.len(),
{
    if i < entries.len() - 1 {
        assert(entries[i].0 != entries[entries.len() - 1].0);
        let init = entries.drop_last();
        assert forall|a: int, b: int| 0 <= a < b < init.len() implies (#[trigger] init[a]).0 != (
        #[trigger] init[b]).0 by {
            assert(init[a] == entries[a] && init[b] == entries[b]);
        }
        lemma_ids_at(init, i);
    }
}

proof fn lemma_ids_absent(entries: Seq<(u32, Vec<String>)>, pane: u32)
    requires
        forall|a: int| 0 <= a < entries.len() ==> (#[trigger] entries[a]).0 != pane,
    ensures
        ids_in(entries, pane) == Seq::<Seq<char>>::empty(),
    decreases entries.len(),
{
    if entries.len() > 0 {
        let init = entries.drop_last();
        assert forall|a: int| 0 <= a < init.len() implies (#[trigger] init[a]).0 != pane by {
            assert(init[a] == entries[a]);
        }
        assert(entries[entries.len() - 1].0 != pane);
        lemma_ids_absent(init, pane);
    }
}

/// Notes that `pane` sent the notification `id`.
pub fn remember_id(delivered: &mut Delivered, pane: u32, id: String)
    requires
        old(delivered).wf(),
    ensures
        final(delivered).wf(),
        final(delivered).ids(pane) == old(delivered).ids(pane).push(id@),
        forall|p: u32| p != pane ==> #[trigger] final(delivered).ids(p) == old(delivered).ids(p),
{
    let ghost before = delivered.entries@;
    match delivered.entry_of(pane) {
        Some(i) => {
            let mut entry: (u32, Vec<String>) = delivered.entries.remove(i);
            let ghost rest = delivered.entries@;
            let ghost was = entry.1@;
            entry.1.push(id);
            delivered.entries.push(entry);
            proof {
                assert(texts(was.push(id)) =~= texts(was).push(id@));
                assert forall|p: u32| p != pane implies #[trigger] delivered.ids(p) == ids_in(
                    before,
                    p,
                ) by {
                    lemma_ids_removed(before, i as int, p);
                    assert(delivered.entries@.drop_last() =~= rest);
                }
                assert(before.len() == rest.len() + 1);
                assert forall|a: int, b: int| 0 <= a < b < delivered.entries@.len() implies (
                #[trigger] delivered.entries@[a]).0 != (#[trigger] delivered.entries@[b]).0 by {
                    let oa = if a < i { a } else { a + 1 };
                    let ob = if b == delivered.entries@.len() - 1 { i as int } else if b < i { b } else { b + 1 };
                    assert(before[oa].0 != before[ob].0) by {
                        if oa < ob {
                        } else {
                            assert(before[ob].0 != before[oa].0);
                        }
                    }
                }
            }
        },
        None => {
            let mut ids: Vec<String> = Vec::new();
            ids.push(id);
            assert(texts(ids@) =~= Seq::<Seq<char>>::empty().push(id@));
            delivered.entries.push((pane, ids));
            assert(delivered.entries@.drop_last() =~= before);
        },
    }
}

/// Taking one entry out leaves the lists of the other panes.
proof fn lemma_ids_removed(entries: Seq<(u32, Vec<String>)>, i: int, p: u32)
    requires
        0 <= i < entries.len(),
        entries[i].0 != p,
    ensures
        ids_in(entries.remove(i), p) == ids_in(entries, p),
    decreases entries.len(),
{
    if i == entries.len() - 1 {
        assert(entries.remove(i) =~= entries.drop_last());
    } else {
        assert(entries.remove(i).drop_last() =~= entries.drop_last().remove(i));
        assert(entries.remove(i).last() == entries.last());
        lemma_ids_removed(entries.drop_last(), i, p);
    }
}

/// Takes the identifiers of a pane's notifications out.
pub fn take_ids(delivered: &mut Delivered, pane: u32) -> (ids: Vec<String>)
    requires
        old(delivered).wf(),
    ensures
        final(delivered).wf(),
        texts(ids@) == old(delivered).ids(pane),
        final(delivered).ids(pane) == Seq::<Seq<char>>::empty(),
        forall|p: u32| p != pane ==> #[trigger] final(delivered).ids(p) == old(delivered).ids(p),
{
    let ghost before = delivered.entries@;
    match delivered.entry_of(pane) {
        Some(i) => {
            let entry: (u32, Vec<String>) = delivered.entries.remove(i);
            proof {
                let rest = delivered.entries@;
                assert forall|p: u32| p != pane implies #[trigger] delivered.ids(p) == ids_in(
                    before,
                    p,
                ) by {
                    lemma_ids_removed(before, i as int, p);
                }
                assert forall|a: int, b: int| 0 <= a < b < rest.len() implies (
                #[trigger] rest[a]).0 != (#[trigger] rest[b]).0 by {
                    let oa = if a < i { a } else { a + 1 };
                    let ob = if b < i { b } else { b + 1 };
                    assert(before[oa].0 != before[ob].0);
                }
                assert forall|a: int| 0 <= a < rest.len() implies (#[trigger] rest[a]).0 != pane by {
                    let oa = if a < i { a } else { a + 1 };
                    if oa < i {
                        assert(before[oa].0 != before[i as int].0);
                    } else {
                        assert(before[i as int].0 != before[oa].0);
                    }
                }
                lemma_ids_absent(rest, pane);
            }
            entry.1
        },
        None => {
            let ids: Vec<String> = Vec::new();
            assert(texts(ids@) =~= Seq::<Seq<char>>::empty());
            ids
        },
    }
}

/// A pane took the keyboard: its notifications are to be withdrawn.
pub fn clear_delivered(delivered: &mut Delivered, pane: u32) -> (ids: Vec<String>)
    requires
        old(delivered).wf(),
    ensures
        final(delivered).wf(),
        texts(ids@) == old(delivered).ids(pane),
        final(delivered).ids(pane) == Seq::<Seq<char>>::empty(),
        forall|p: u32| p != pane ==> #[trigger] final(delivered).ids(p) == old(delivered).ids(p),
{
    take_ids(delivered, pane)
}

/// A pane is gone: its notifications are to be withdrawn and nothing of it is kept.
pub fn forget_pane(delivered: &mut Delivered, pane: u32) -> (ids: Vec<String>)
    requires
        old(delivered).wf(),
    ensures
        final(delivered).wf(),
        texts(ids@) == old(delivered).ids(pane),
        final(delivered).ids(pane) == Seq::<Seq<char>>::empty(),
        forall|p: u32| p != pane ==> #[trigger] final(delivered).ids(p) == old(delivered).ids(p),
{
    take_ids(delivered, pane)
}

/// The list without the identifier `id`.
fn drop_id(ids: Vec<String>, id: &str) -> (out: Vec<String>)
    ensures
        texts(out@) == without_id(texts(ids@), id@),
{
    let mut out: Vec<String> = Vec::new();
    let mut i: usize = 0;
    let ghost keep = |s: Seq<char>| s != id@;
    reveal(Seq::filter);
    assert(texts(ids@).take(0).filter(keep) =~= Seq::<Seq<char>>::empty());
    assert(texts(out@) =~= Seq::<Seq<char>>::empty());
    while i < ids.len()
        invariant
            i <= ids@.len(),
            keep == (|s: Seq<char>| s != id@),
            texts(out@) == texts(ids@).take(i as int).filter(keep),
        decreases ids@.len() - i,
    {
        reveal(Seq::filter);
        let ghost before = out@;
        assert(texts(ids@).take(i + 1).drop_last() =~= texts(ids@).take(i as int));
        assert(texts(ids@).take(i + 1).last() == ids@[i as int]@);
        if !same_text(ids[i].as_str(), id) {
            out.push(ids[i].clone());
            assert(texts(out@) =~= texts(before).push(ids@[i as int]@));
        }
        i += 1;
    }
    assert(texts(ids@).take(i as int) =~= texts(ids@));
    out
}

/// A notification was answered: it is shown no longer, whichever pane sent it.
pub fn forget_notification(delivered: &mut Delivered, id: &str)
    requires
        old(delivered).wf(),
    ensures
        final(delivered).wf(),
        forall|p: u32| #[trigger]
            final(delivered).ids(p) == without_id(old(delivered).ids(p), id@),
{
    let ghost before = delivered.entries@;
    let n: usize = delivered.entries.len();
    let mut kept: Vec<(u32, Vec<String>)> = Vec::new();
    let mut i: usize = 0;
    proof {
        reveal(Seq::filter);
        assert(without_id(Seq::empty(), id@) =~= Seq::<Seq<char>>::empty());
        assert(before.take(0) =~= Seq::<(u32, Vec<String>)>::empty());
    }
    while i < n
        invariant
            i <= n == before.len(),
            delivered.entries@ == before,
            without_id(Seq::empty(), id@) == Seq::<Seq<char>>::empty(),
            forall|a: int, b: int|
                0 <= a < b < before.len() ==> (#[trigger] before[a]).0 != (#[trigger] before[b]).0,
            forall|a: int| 0 <= a < kept@.len() ==> exists|b: int|
                0 <= b < i && (#[trigger] kept@[a]).0 == (#[trigger] before[b]).0,
            forall|a: int, b: int|
                0 <= a < b < kept@.len() ==> (#[trigger] kept@[a]).0 != (#[trigger] kept@[b]).0,
            forall|p: u32| #[trigger]
                ids_in(kept@, p) == without_id(ids_in(before.take(i as int), p), id@),
        decreases n - i,
    {
        let ghost was = kept@;
        let pane: u32 = delivered.entries[i].0;
        let ids: Vec<String> = drop_id(delivered.entries[i].1.clone(), id);
        proof {
            assert(before.take(i + 1).drop_last() =~= before.take(i as int));
            assert(before.take(i + 1).last() == before[i as int]);
            assert forall|a: int| 0 <= a < i implies (#[trigger] before.take(i as int)[a]).0 != pane by {
                assert(before[a].0 != before[i as int].0);
            }
            lemma_ids_absent(before.take(i as int), pane);
        }
        let gone: bool = ids.len() == 0;
        if !gone {
            kept.push((pane, ids));
            assert(kept@.drop_last() =~= was);
        }
        proof {
            assert forall|p: u32| #[trigger] ids_in(kept@, p) == without_id(
                ids_in(before.take(i + 1), p),
                id@,
            ) by {
                if p == pane {
                    assert(ids_in(was, p) == without_id(Seq::empty(), id@));
                    if gone {
                        assert(texts(ids@) =~= Seq::<Seq<char>>::empty());
                    }
                } else {
                    assert(ids_in(was, p) == without_id(ids_in(before.take(i as int), p), id@));
                }
            }
            assert forall|a: int| 0 <= a < kept@.len() implies exists|b: int|
                0 <= b < i + 1 && (#[trigger] kept@[a]).0 == (#[trigger] before[b]).0 by {
                if a < was.len() {
                    assert(kept@[a] == was[a]);
                    let b = choose|b: int| 0 <= b < i && was[a].0 == (#[trigger] before[b]).0;
                    assert(kept@[a].0 == before[b].0);
                } else {
                    assert(kept@[a].0 == before[i as int].0);
                }
            }
            assert forall|a: int, b: int| 0 <= a < b < kept@.len() implies (#[trigger] kept@[a]).0
                != (#[trigger] kept@[b]).0 by {
                assert(kept@[a] == was[a]);
                if b < was.len() {
                    assert(kept@[b] == was[b]);
                } else {
                    let c = choose|c: int| 0 <= c < i && was[a].0 == (#[trigger] before[c]).0;
                    assert(before[c].0 != before[i as int].0);
                }
            }
        }
        i += 1;
    }
    assert(before.take(n as int) =~= before);
    delivered.entries = kept;
}

/// The host quits: nothing is shown any longer.
pub fn shutdown(delivered: &mut Delivered)
    ensures
        final(delivered).wf(),
        forall|p: u32| #[trigger] final(delivered).ids(p) == Seq::<Seq<char>>::empty(),
{
    delivered.entries = Vec::new();
}

/// The identifier of the `n`-th notification, sent by `pane`.
pub open spec fn notice_id(pane: nat, n: nat) -> Seq<char> {
    "ninja-pane-"@ + decimal(pane) + "-"@ + decimal(n)
}

/// The identifier of the `n`-th notification, sent by `pane`.
pub fn notification_id(pane: u32, n: u64) -> (id: String)
    ensures
        id@ == notice_id(pane as nat, n as nat),
{
    "ninja-pane-".to_owned().concat(decimal_of(pane as u64).as_str()).concat("-").concat(
        decimal_of(n).as_str(),
    )
}

/// A notification: its name, its texts, and the pane that it is about.
#[derive(Clone, Debug, PartialEq)]
pub struct Notice {
    pub id: String,
    pub title: String,
    /// What it says, where it says anything.
    pub body: Option<String>,
    /// The window's title, where it has one.
    pub subtitle: Option<String>,
    /// The pane's number, by which a click on it finds the pane.
    pub pane: String,
}

/// A text that is not empty.
pub open spec fn said(s: Seq<char>) -> Option<Seq<char>> {
    if s.len() > 0 {
        Some(s)
    } else {
        None
    }
}

fn if_said(s: String) -> (r: Option<String>)
    ensures
        opt_string(r) == said(s@),
{
    if s.as_str().is_empty() {
        None
    } else {
        Some(s)
    }
}

/// Makes the `n`th notification, and notes that the pane has it.
pub fn post(
    delivered: &mut Delivered,
    pane: u32,
    n: u64,
    title: String,
    body: String,
    subtitle: String,
) -> (notice: Notice)
    requires
        old(delivered).wf(),
    ensures
        final(delivered).wf(),
        notice.id@ == notice_id(pane as nat, n as nat),
        notice.title == title,
        opt_string(notice.body) == said(body@),
        opt_string(notice.subtitle) == said(subtitle@),
        notice.pane@ == decimal(pane as nat),
        final(delivered).ids(pane) == old(delivered).ids(pane).push(notice.id@),
        forall|p: u32| p != pane ==> #[trigger] final(delivered).ids(p) == old(delivered).ids(p),
{
    let id: String = notification_id(pane, n);
    remember_id(delivered, pane, id.clone());
    Notice {
        id,
        title,
        body: if_said(body),
        subtitle: if_said(subtitle),
        pane: decimal_of(pane as u64),
    }
}

/// Shows a notification about a pane, where that is allowed and the pane has a number.
pub fn show(
    granted: bool,
    delivered: &mut Delivered,
    pane: u32,
    n: u64,
    title: String,
    body: String,
    subtitle: String,
) -> (notice: Option<Notice>)
    requires
        old(delivered).wf(),
    ensures
        final(delivered).wf(),
        forall|p: u32| p != pane ==> #[trigger] final(delivered).ids(p) == old(delivered).ids(p),
        match notice {
            Some(x) => {
                &&& granted && pane != 0
                &&& x.id@ == notice_id(pane as nat, n as nat)
                &&& x.title == title
                &&& opt_string(x.body) == said(body@)
                &&& opt_string(x.subtitle) == said(subtitle@)
                &&& x.pane@ == decimal(pane as nat)
                &&& final(delivered).ids(pane) == old(delivered).ids(pane).push(x.id@)
            },
            None => {
                &&& !granted || pane == 0
                &&& final(delivered).ids(pane) == old(delivered).ids(pane)
            },
        },
{
    if !granted || pane == 0 {
        return None;
    }
    Some(post(delivered, pane, n, title, body, subtitle))
}

/// A notification leads back to its pane: the number that it carries is read as the pane's.
pub proof fn lemma_notice_finds_pane(pane: u32)
    requires
        pane != 0,
    ensures
        number(decimal(pane as nat), u32::MAX as nat) == Some(pane as nat),
{
    lemma_decimal(pane as nat);
}

/// A click on a notification asks for `pane`; 0 stands for no request.
pub fn request_focus(pending: &mut u32, pane: u32)
    ensures
        *final(pending) == pane,
{
    *pending = pane;
}

/// Takes the pane that a click asked for, if any.
pub fn drain_focus(pending: &mut u32) -> (pane: Option<u32>)
    ensures
        *final(pending) == 0,
        pane == if *old(pending) != 0 {
            Some(*old(pending))
        } else {
            None
        },
{
    let p: u32 = *pending;
    *pending = 0;
    if p != 0 {
        Some(p)
    } else {
        None
    }
}

/// A banner is shown unless its pane has the keyboard in the front window.
pub fn should_present_banner(window_is_key: bool, surface_focused: bool) -> (r: bool)
    ensures
        r == !(window_is_key && surface_focused),
{
    !window_is_key || !surface_focused
}

/// Whether a pane's notification is shown, as far as the host can tell: off the main thread it is;
/// a pane that is in no window has none. `window` tells of the pane's window whether it is in front
/// and whether the pane has its keyboard.
pub fn should_present_for_pane(on_main_thread: bool, window: Option<(bool, bool)>) -> (r: bool)
    ensures
        r == (!on_main_thread || (window matches Some(w) && !(w.0 && w.1))),
{
    if !on_main_thread {
        return true;
    }
    match window {
        Some((key, focused)) => should_present_banner(key, focused),
        None => false,
    }
}

/// The pane number in a notification; 0 is none.
pub fn parse_pane_id(s: &str) -> (r: Option<u32>)
    ensures
        match r {
            Some(n) => n != 0 && number(s@, u32::MAX as nat) == Some(n as nat),
            None => match number(s@, u32::MAX as nat) {
                Some(n) => n == 0,
                None => true,
            },
        },
{
    match parse_number(s, 0xffff_ffff) {
        Some(n) => if n != 0 {
            Some(n)
        } else {
            None
        },
        None => None,
    }
}

/// Whether the pane's window has to leave the zoom of another pane before it can show `pane`.
pub fn must_unzoom(zoomed: Option<u32>, pane: u32) -> (r: bool)
    ensures
        r == (zoomed is Some && zoomed != Some(pane)),
{
    match zoomed {
        Some(z) => z != pane,
        None => false,
    }
}

/// No two notifications have the same identifier: it tells the pane and the number, behind the host's
/// own name.
pub proof fn lemma_identifiers_differ(pane: nat, n: nat, other: nat, m: nat)
    ensures
        notice_id(pane, n) == notice_id(other, m) <==> pane == other && n == m,
        notice_id(pane, n).take(11) == seq!['n', 'i', 'n', 'j', 'a', '-', 'p', 'a', 'n', 'e', '-'],
        notice_id(pane, n).subrange(11, 11 + decimal(pane).len() as int) == decimal(pane),
        notice_id(pane, n).skip(12 + decimal(pane).len() as int) == decimal(n),
{
    reveal_strlit("ninja-pane-");
    reveal_strlit("-");
    lemma_decimal(pane);
    lemma_decimal(n);
    lemma_decimal(other);
    lemma_decimal(m);
    let a = notice_id(pane, n);
    let b = notice_id(other, m);
    let p = decimal(pane);
    let q = decimal(other);
    assert(a.take(11) =~= seq!['n', 'i', 'n', 'j', 'a', '-', 'p', 'a', 'n', 'e', '-']);
    assert(a.subrange(11, 11 + p.len() as int) =~= p);
    assert(a.skip(12 + p.len() as int) =~= decimal(n));
    assert(b.subrange(11, 11 + q.len() as int) =~= q);
    assert(b.skip(12 + q.len() as int) =~= decimal(m));
    assert(a[11 + p.len() as int] == '-');
    assert(b[11 + q.len() as int] == '-');
    if a == b {
        if p.len() < q.len() {
            assert(b[11 + p.len() as int] == q[p.len() as int]);
            assert(crate::text::is_ascii_digit(q[p.len() as int]));
        }
        if q.len() < p.len() {
            assert(a[11 + q.len() as int] == p[q.len() as int]);
            assert(crate::text::is_ascii_digit(p[q.len() as int]));
        }
    }
}

/// An answered notification goes wherever it stands, and no other does.
pub proof fn lemma_which_notifications_stay(a: Seq<Seq<char>>, x: Seq<char>, b: Seq<Seq<char>>, id: Seq<char>)
    ensures
        x == id ==> without_id(a + seq![x] + b, id) == without_id(a, id) + without_id(b, id),
        x != id ==> without_id(a + seq![x] + b, id) == without_id(a, id) + seq![x] + without_id(b, id),
        without_id(Seq::empty(), id) == Seq::<Seq<char>>::empty(),
{
    let keep = |s: Seq<char>| s != id;
    Seq::filter_distributes_over_add(a + seq![x], b, keep);
    Seq::filter_distributes_over_add(a, seq![x], keep);
    reveal(Seq::filter);
    let none = Seq::<Seq<char>>::empty();
    assert(seq![x].drop_last() =~= none);
    assert(none.filter(keep) =~= none);
    assert(seq![x].filter(keep) =~= if x != id {
        seq![x]
    } else {
        none
    });
    assert(without_id(a, id) + none =~= without_id(a, id));
}

/// A text is said as it is, unless it is empty.
pub proof fn lemma_what_is_said(c: char, rest: Seq<char>)
    ensures
        said(seq![c] + rest) == Some(seq![c] + rest),
        said(Seq::empty()) is None,
{
}

/// A banner is kept back just where the pane has the keyboard of the front window; on the main thread
/// also where the pane is in no window, and off it never.
pub proof fn lemma_when_a_banner_shows(
    key: bool,
    focused: bool,
    main: bool,
    window: Option<(bool, bool)>,
    a: bool,
    b: bool,
)
    requires
        call_ensures(should_present_banner, (key, focused), a),
        call_ensures(should_present_for_pane, (main, window), b),
    ensures
        !a <==> key && focused,
        !main ==> b,
        main && window is None ==> !b,
        main && window == Some((key, focused)) ==> a == b,
{
}

/// A window leaves its zoom just where another pane is zoomed.
pub proof fn lemma_when_the_zoom_is_left(zoomed: Option<u32>, pane: u32, r: bool)
    requires
        call_ensures(must_unzoom, (zoomed, pane), r),
    ensures
        r <==> exists|z: u32| zoomed == Some(z) && z != pane,
{
    if r {
        assert(zoomed == Some(zoomed->0) && zoomed->0 != pane);
    }
}

/// A pane's number is read from decimal digits, and 0 is none.
pub proof fn lemma_pane_is_read(pane: u32, s: &str, r: Option<u32>)
    requires
        call_ensures(parse_pane_id, (s,), r),
    ensures
        r != Some(0u32),
        s@ == decimal(pane as nat) && pane != 0 ==> r == Some(pane),
        r matches Some(n) ==> number(s@, u32::MAX as nat) == Some(n as nat),
        r is None ==> number(s@, u32::MAX as nat) is None || number(s@, u32::MAX as nat) == Some(0nat),
{
    lemma_decimal(pane as nat);
}

/// What a click asks for is taken once: the last pane that was asked for, and none behind it.
pub proof fn lemma_focus_is_taken_once(pending: &mut u32, r: Option<u32>)
    requires
        call_ensures(drain_focus, (pending,), r),
    ensures
        *final(pending) == 0,
        r is None <==> *old(pending) == 0,
        r matches Some(p) ==> p == *old(pending),
{
}

/// A notification is shown just where it is allowed and the pane has a number; it is then one more of that
/// pane's, and its own identifier is the one that is noted.
pub proof fn lemma_shown_is_noted(
    granted: bool,
    delivered: &mut Delivered,
    pane: u32,
    n: u64,
    title: String,
    body: String,
    subtitle: String,
    r: Option<Notice>,
)
    requires
        call_ensures(show, (granted, delivered, pane, n, title, body, subtitle), r),
    ensures
        r is Some <==> granted && pane != 0,
        r matches Some(x) ==> {
            &&& final(delivered).ids(pane) == old(delivered).ids(pane) + seq![x.id@]
            &&& x.id@ == notice_id(pane as nat, n as nat)
            &&& x.title == title
            &&& x.body is Some <==> body@.len() > 0
            &&& x.subtitle is Some <==> subtitle@.len() > 0
            &&& x.body is Some ==> x.body->0@ == body@
            &&& x.subtitle is Some ==> x.subtitle->0@ == subtitle@
            &&& number(x.pane@, u32::MAX as nat) == Some(pane as nat)
        },
        r is None ==> forall|p: u32| #[trigger] final(delivered).ids(p) == old(delivered).ids(p),
{
    lemma_decimal(pane as nat);
    if let Some(x) = r {
        assert(old(delivered).ids(pane).push(x.id@) =~= old(delivered).ids(pane) + seq![x.id@]);
    }
    if r is None {
        assert forall|p: u32| #[trigger] final(delivered).ids(p) == old(delivered).ids(p) by {
            if p == pane {
            }
        }
    }
}

} // verus!
