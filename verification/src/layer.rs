//! The layers that plugins have open: at most one per pane, and any number of tabs.

use vstd::prelude::*;

verus! {

/// The pane that tab layers are filed under: they belong to no terminal pane.
pub const TAB_PANE: u32 = 0xffff_ffff;

/// An open layer.
#[derive(Clone, Copy, Debug, PartialEq, Eq, Structural)]
pub struct LayerEntry {
    /// The handle by which the plugin knows the layer.
    pub handle: u64,
    /// The pane that it covers, or [`TAB_PANE`].
    pub pane: u32,
    /// Its size in pixels.
    pub width_px: u32,
    pub height_px: u32,
    /// The connection of the plugin that owns it.
    pub conn: u64,
    /// The plugin's own number for its request, which a new size is announced under.
    pub open_id: u64,
    /// Its content is a web page, not pixels.
    pub html: bool,
    /// The plugin has drawn a frame.
    pub presented: bool,
    /// The view that shows it, 0 for none.
    pub view: usize,
}

/// The open layers, in the order they were opened.
pub struct Registry {
    layers: Vec<LayerEntry>,
    next_handle: u64,
}

/// Which layers to take away.
#[derive(Clone, Copy, Debug, PartialEq, Eq, Structural)]
pub enum Which {
    Handle(u64),
    Conn(u64),
    Pane(u32),
    All,
}

/// `l` is one of the layers that `w` means.
pub open spec fn meant(w: Which, l: LayerEntry) -> bool {
    match w {
        Which::Handle(h) => l.handle == h,
        Which::Conn(c) => l.conn == c,
        Which::Pane(p) => l.pane == p,
        Which::All => true,
    }
}

/// The layers that `w` means, in order.
pub open spec fn those(s: Seq<LayerEntry>, w: Which) -> Seq<LayerEntry>
    decreases s.len(),
{
    if s.len() == 0 {
        s
    } else if meant(w, s.last()) {
        those(s.drop_last(), w).push(s.last())
    } else {
        those(s.drop_last(), w)
    }
}

/// The layers that `w` does not mean, in order.
pub open spec fn others(s: Seq<LayerEntry>, w: Which) -> Seq<LayerEntry>
    decreases s.len(),
{
    if s.len() == 0 {
        s
    } else if meant(w, s.last()) {
        others(s.drop_last(), w)
    } else {
        others(s.drop_last(), w).push(s.last())
    }
}

/// The first layer of a pane.
pub open spec fn first_of_pane(s: Seq<LayerEntry>, pane: u32) -> Option<LayerEntry>
    decreases s.len(),
{
    if s.len() == 0 {
        None
    } else if s[0].pane == pane {
        Some(s[0])
    } else {
        first_of_pane(s.drop_first(), pane)
    }
}

/// The handles of a pane's layers that have a frame to show.
pub open spec fn shown(s: Seq<LayerEntry>, pane: u32) -> Seq<u64>
    decreases s.len(),
{
    if s.len() == 0 {
        Seq::empty()
    } else if s.last().pane == pane && s.last().presented {
        shown(s.drop_last(), pane).push(s.last().handle)
    } else {
        shown(s.drop_last(), pane)
    }
}

/// Handles grow from layer to layer.
pub open spec fn handles_grow(s: Seq<LayerEntry>) -> bool {
    forall|i: int, j: int|
        0 <= i < j < s.len() ==> (#[trigger] s[i]).handle < (#[trigger] s[j]).handle
}

/// No pane but the tabs' has two layers.
pub open spec fn one_per_pane(s: Seq<LayerEntry>) -> bool {
    forall|i: int, j: int|
        0 <= i < j < s.len() && (#[trigger] s[i]).pane == (#[trigger] s[j]).pane ==> s[i].pane
            == TAB_PANE
}

impl Registry {
    /// The open layers, in the order they were opened.
    pub closed spec fn layers(self) -> Seq<LayerEntry> {
        self.layers@
    }

    /// The handle that the next layer gets.
    pub closed spec fn next(self) -> u64 {
        self.next_handle
    }

    /// Handles are handed out once and in order, and no pane has two layers.
    pub open spec fn wf(self) -> bool {
        &&& self.next() >= 1
        &&& handles_grow(self.layers())
        &&& one_per_pane(self.layers())
        &&& forall|i: int|
            0 <= i < self.layers().len() ==> 1 <= (#[trigger] self.layers()[i]).handle < self.next()
    }

    /// Whether there is a handle left for another layer.
    pub fn can_open(&self) -> (r: bool)
        ensures
            r == (self.next() < u64::MAX),
    {
        self.next_handle < u64::MAX
    }

    /// No layer is open; the first one gets handle 1.
    pub fn new() -> (r: Registry)
        ensures
            r.wf(),
            r.layers() == Seq::<LayerEntry>::empty(),
            r.next() == 1,
    {
        Registry { layers: Vec::new(), next_handle: 1 }
    }

    /// The position of the layer with this handle.
    pub(crate) fn position(&self, handle: u64) -> (r: Option<usize>)
        requires
            self.wf(),
        ensures
            match r {
                Some(i) => i < self.layers().len() && self.layers()[i as int].handle == handle,
                None => forall|i: int|
                    0 <= i < self.layers().len() ==> (#[trigger] self.layers()[i]).handle != handle,
            },
    {
        let mut i: usize = 0;
        while i < self.layers.len()
            invariant
                i <= self.layers@.len(),
                forall|j: int| 0 <= j < i ==> (#[trigger] self.layers@[j]).handle != handle,
            decreases self.layers@.len() - i,
        {
            if self.layers[i].handle == handle {
                return Some(i);
            }
            i += 1;
        }
        None
    }

    /// The layer with this handle.
    pub fn get(&self, handle: u64) -> (r: Option<LayerEntry>)
        requires
            self.wf(),
        ensures
            match r {
                Some(l) => self.layers().contains(l) && l.handle == handle,
                None => forall|i: int|
                    0 <= i < self.layers().len() ==> (#[trigger] self.layers()[i]).handle != handle,
            },
    {
        match self.position(handle) {
            Some(i) => {
                assert(self.layers().contains(self.layers()[i as int]));
                Some(self.layers[i])
            },
            None => None,
        }
    }

    /// Adds a layer behind the others and returns its handle.
    pub(crate) fn add_entry(&mut self, entry: LayerEntry) -> (handle: u64)
        requires
            old(self).wf(),
            old(self).next() < u64::MAX,
            entry.pane == TAB_PANE || forall|i: int|
                0 <= i < old(self).layers().len() ==> (#[trigger] old(self).layers()[i]).pane
                    != entry.pane,
        ensures
            final(self).wf(),
            handle == old(self).next(),
            final(self).next() == handle + 1,
            final(self).layers() == old(self).layers().push((LayerEntry { handle, ..entry })),
    {
        let handle: u64 = self.next_handle;
        self.next_handle = handle + 1;
        let mut l: LayerEntry = entry;
        l.handle = handle;
        self.layers.push(l);
        handle
    }
}

proof fn lemma_others(s: Seq<LayerEntry>, w: Which)
    ensures
        others(s, w).len() <= s.len(),
        forall|i: int|
            0 <= i < others(s, w).len() ==> s.contains(#[trigger] others(s, w)[i]) && !meant(
                w,
                others(s, w)[i],
            ),
        forall|l: LayerEntry| s.contains(l) && !meant(w, l) ==> #[trigger] others(s, w).contains(l),
        handles_grow(s) ==> handles_grow(others(s, w)),
        handles_grow(s) && one_per_pane(s) ==> one_per_pane(others(s, w)),
    decreases s.len(),
{
    if s.len() > 0 {
        let init = s.drop_last();
        lemma_others(init, w);
        let o = others(init, w);
        let all = others(s, w);
        assert forall|i: int| 0 <= i < all.len() implies s.contains(#[trigger] all[i]) && !meant(
            w,
            all[i],
        ) by {
            if i < o.len() {
                assert(all[i] == o[i]);
                assert(init.contains(o[i]));
                let k = choose|k: int| 0 <= k < init.len() && init[k] == o[i];
                assert(s[k] == o[i]);
            } else {
                assert(s[s.len() - 1] == all[i]);
            }
        }
        assert forall|l: LayerEntry| s.contains(l) && !meant(w, l) implies #[trigger] all.contains(
            l,
        ) by {
            let k = choose|k: int| 0 <= k < s.len() && s[k] == l;
            if k < s.len() - 1 {
                assert(init[k] == l);
                assert(init.contains(l));
                assert(o.contains(l));
                let m = choose|m: int| 0 <= m < o.len() && o[m] == l;
                assert(all[m] == l);
            } else {
                assert(all[all.len() - 1] == l);
            }
        }
        if handles_grow(s) {
            assert(handles_grow(init)) by {
                assert forall|i: int, j: int| 0 <= i < j < init.len() implies (
                #[trigger] init[i]).handle < (#[trigger] init[j]).handle by {
                    assert(s[i].handle < s[j].handle);
                }
            }
            assert forall|i: int, j: int| 0 <= i < j < all.len() implies (#[trigger] all[i]).handle
                < (#[trigger] all[j]).handle by {
                assert(all[i] == o[i]);
                if j < o.len() {
                    assert(all[j] == o[j]);
                } else {
                    let k = choose|k: int| 0 <= k < init.len() && init[k] == o[i];
                    assert(init.contains(o[i]));
                    assert(s[k].handle < s[s.len() - 1].handle);
                }
            }
        }
        if handles_grow(s) && one_per_pane(s) {
            assert(one_per_pane(init)) by {
                assert forall|i: int, j: int|
                    0 <= i < j < init.len() && (#[trigger] init[i]).pane == (
                    #[trigger] init[j]).pane implies init[i].pane == TAB_PANE by {
                    assert(s[i].pane == s[j].pane);
                }
            }
            assert forall|i: int, j: int|
                0 <= i < j < all.len() && (#[trigger] all[i]).pane == (
                #[trigger] all[j]).pane implies all[i].pane == TAB_PANE by {
                assert(all[i] == o[i]);
                if j < o.len() {
                    assert(all[j] == o[j]);
                } else {
                    let k = choose|k: int| 0 <= k < init.len() && init[k] == o[i];
                    assert(init.contains(o[i]));
                    assert(s[k].pane == s[s.len() - 1].pane);
                }
            }
        }
    }
}

/// A layer that stays is not meant.
pub proof fn lemma_others_from(s: Seq<LayerEntry>, w: Which, l: LayerEntry)
    requires
        others(s, w).contains(l),
    ensures
        s.contains(l),
        !meant(w, l),
{
    lemma_others(s, w);
    let i = others(s, w).index_of(l);
    assert(others(s, w)[i] == l);
}

/// A layer that goes is meant.
pub proof fn lemma_those_from(s: Seq<LayerEntry>, w: Which, l: LayerEntry)
    requires
        those(s, w).contains(l),
    ensures
        s.contains(l),
        meant(w, l),
    decreases s.len(),
{
    if s.len() > 0 {
        let init = s.drop_last();
        let before = those(init, w);
        let i = those(s, w).index_of(l);
        if i < before.len() {
            assert(before[i] == l);
            lemma_those_from(init, w, l);
            assert(s[init.index_of(l)] == l);
        } else {
            assert(s[s.len() - 1] == l);
        }
    }
}

/// What is taken away and what stays make up what was there: a layer goes exactly if it is meant.
pub proof fn lemma_close_splits(s: Seq<LayerEntry>, w: Which)
    ensures
        those(s, w).len() + others(s, w).len() == s.len(),
        forall|l: LayerEntry| #[trigger] s.contains(l) ==> (if meant(w, l) {
            those(s, w).contains(l) && !others(s, w).contains(l)
        } else {
            others(s, w).contains(l) && !those(s, w).contains(l)
        }),
{
    lemma_others(s, w);
    lemma_those(s, w);
    assert forall|l: LayerEntry| #[trigger] s.contains(l) implies (if meant(w, l) {
        those(s, w).contains(l) && !others(s, w).contains(l)
    } else {
        others(s, w).contains(l) && !those(s, w).contains(l)
    }) by {
        if others(s, w).contains(l) {
            let i = choose|i: int| 0 <= i < others(s, w).len() && others(s, w)[i] == l;
            assert(!meant(w, others(s, w)[i]));
        }
        if those(s, w).contains(l) {
            let i = choose|i: int| 0 <= i < those(s, w).len() && those(s, w)[i] == l;
            assert(meant(w, those(s, w)[i]));
        }
    }
}

proof fn lemma_those(s: Seq<LayerEntry>, w: Which)
    ensures
        those(s, w).len() + others(s, w).len() == s.len(),
        forall|i: int| 0 <= i < those(s, w).len() ==> meant(w, #[trigger] those(s, w)[i]),
        forall|l: LayerEntry| s.contains(l) && meant(w, l) ==> #[trigger] those(s, w).contains(l),
    decreases s.len(),
{
    if s.len() > 0 {
        let init = s.drop_last();
        lemma_those(init, w);
        let t = those(init, w);
        let all = those(s, w);
        assert forall|i: int| 0 <= i < all.len() implies meant(w, #[trigger] all[i]) by {
            if i < t.len() {
                assert(all[i] == t[i]);
            }
        }
        assert forall|l: LayerEntry| s.contains(l) && meant(w, l) implies #[trigger] all.contains(
            l,
        ) by {
            let k = choose|k: int| 0 <= k < s.len() && s[k] == l;
            if k < s.len() - 1 {
                assert(init[k] == l);
                assert(init.contains(l));
                assert(t.contains(l));
                let m = choose|m: int| 0 <= m < t.len() && t[m] == l;
                assert(all[m] == l);
            } else {
                assert(all[all.len() - 1] == l);
            }
        }
    }
}

/// Opens a layer over a pane, in place of the one it had; the new layer has no frame yet. The
/// result is its handle.
pub fn open(reg: &mut Registry, pane: u32, width_px: u32, height_px: u32, conn: u64, view: usize) -> (handle: u64)
    requires
        old(reg).wf(),
        old(reg).next() < u64::MAX,
    ensures
        final(reg).wf(),
        handle == old(reg).next(),
        final(reg).next() == handle + 1,
        final(reg).layers() == others(old(reg).layers(), Which::Pane(pane)).push(
            (LayerEntry {
                handle,
                pane,
                width_px,
                height_px,
                conn,
                open_id: 0,
                html: false,
                presented: false,
                view,
            }),
        ),
{
    let ghost before = reg.layers();
    let closed: Vec<LayerEntry> = close_where(reg, Which::Pane(pane));
    proof {
        lemma_others(before, Which::Pane(pane));
    }
    let handle: u64 = reg.add_entry(
        LayerEntry {
            handle: 0,
            pane,
            width_px,
            height_px,
            conn,
            open_id: 0,
            html: false,
            presented: false,
            view,
        },
    );
    handle
}

/// Marks a layer as having a frame and returns its pane, which is to be repainted; `None` where
/// there is no such layer.
pub fn present(reg: &mut Registry, handle: u64) -> (pane: Option<u32>)
    requires
        old(reg).wf(),
    ensures
        final(reg).wf(),
        final(reg).next() == old(reg).next(),
        final(reg).layers().len() == old(reg).layers().len(),
        forall|i: int|
            0 <= i < old(reg).layers().len() ==> #[trigger] final(reg).layers()[i] == (
            if old(reg).layers()[i].handle == handle {
                LayerEntry { presented: true, ..old(reg).layers()[i] }
            } else {
                old(reg).layers()[i]
            }),
        match pane {
            Some(p) => exists|i: int|
                0 <= i < old(reg).layers().len() && (#[trigger] old(reg).layers()[i]).handle
                    == handle && old(reg).layers()[i].pane == p,
            None => forall|i: int|
                0 <= i < old(reg).layers().len() ==> (#[trigger] old(reg).layers()[i]).handle
                    != handle,
        },
{
    match reg.position(handle) {
        Some(i) => {
            let ghost before = reg.layers@;
            let mut l: LayerEntry = reg.layers[i];
            l.presented = true;
            reg.layers.set(i, l);
            proof {
                assert(before[i as int].handle == handle);
                assert forall|j: int| 0 <= j < before.len() && j != i implies (
                #[trigger] before[j]).handle != handle by {
                    if j < i {
                        assert(before[j].handle < before[i as int].handle);
                    } else {
                        assert(before[i as int].handle < before[j].handle);
                    }
                }
                let after = reg.layers@;
                assert forall|a: int| 0 <= a < after.len() implies (#[trigger] after[a]).handle
                    == before[a].handle && after[a].pane == before[a].pane by {}
                assert forall|a: int, b: int| 0 <= a < b < after.len() implies (
                #[trigger] after[a]).handle < (#[trigger] after[b]).handle by {
                    assert(before[a].handle < before[b].handle);
                }
                assert forall|a: int, b: int|
                    0 <= a < b < after.len() && (#[trigger] after[a]).pane == (
                    #[trigger] after[b]).pane implies after[a].pane == TAB_PANE by {
                    assert(before[a].pane == before[b].pane);
                }
                assert forall|a: int| 0 <= a < after.len() implies 1 <= (
                #[trigger] after[a]).handle < reg.next_handle by {
                    assert(1 <= before[a].handle);
                }
            }
            Some(l.pane)
        },
        None => None,
    }
}

/// Takes the layers that `w` means away and returns them.
fn close_where(reg: &mut Registry, w: Which) -> (closed: Vec<LayerEntry>)
    requires
        old(reg).wf(),
    ensures
        final(reg).wf(),
        final(reg).next() == old(reg).next(),
        final(reg).layers() == others(old(reg).layers(), w),
        closed@ == those(old(reg).layers(), w),
{
    let mut closed: Vec<LayerEntry> = Vec::new();
    let mut kept: Vec<LayerEntry> = Vec::new();
    let n: usize = reg.layers.len();
    let mut i: usize = 0;
    assert(reg.layers@.take(0) =~= Seq::<LayerEntry>::empty());
    while i < n
        invariant
            i <= n == reg.layers@.len(),
            reg.layers@ == old(reg).layers@,
            reg.next_handle == old(reg).next_handle,
            closed@ == those(reg.layers@.take(i as int), w),
            kept@ == others(reg.layers@.take(i as int), w),
        decreases n - i,
    {
        assert(reg.layers@.take(i + 1).drop_last() =~= reg.layers@.take(i as int));
        let l: LayerEntry = reg.layers[i];
        let take: bool = match w {
            Which::Handle(h) => l.handle == h,
            Which::Conn(c) => l.conn == c,
            Which::Pane(p) => l.pane == p,
            Which::All => true,
        };
        if take {
            closed.push(l);
        } else {
            kept.push(l);
        }
        i += 1;
    }
    assert(reg.layers@.take(i as int) =~= reg.layers@);
    proof {
        lemma_others(reg.layers@, w);
        let o = others(reg.layers@, w);
        assert forall|a: int| 0 <= a < o.len() implies 1 <= (#[trigger] o[a]).handle
            < reg.next_handle by {
            let k = choose|k: int| 0 <= k < reg.layers@.len() && reg.layers@[k] == o[a];
            assert(reg.layers@.contains(o[a]));
            assert(1 <= old(reg).layers()[k].handle);
        }
    }
    reg.layers = kept;
    closed
}

/// Takes one layer away. The result holds it, if there was one; its pane is to be repainted.
pub fn close(reg: &mut Registry, handle: u64) -> (closed: Vec<LayerEntry>)
    requires
        old(reg).wf(),
    ensures
        final(reg).wf(),
        final(reg).next() == old(reg).next(),
        final(reg).layers() == others(old(reg).layers(), Which::Handle(handle)),
        closed@ == those(old(reg).layers(), Which::Handle(handle)),
{
    close_where(reg, Which::Handle(handle))
}

/// A connection is gone: takes all its layers away. Their panes are to be repainted.
pub fn close_by_conn(reg: &mut Registry, conn: u64) -> (closed: Vec<LayerEntry>)
    requires
        old(reg).wf(),
    ensures
        final(reg).wf(),
        final(reg).next() == old(reg).next(),
        final(reg).layers() == others(old(reg).layers(), Which::Conn(conn)),
        closed@ == those(old(reg).layers(), Which::Conn(conn)),
{
    close_where(reg, Which::Conn(conn))
}

/// Takes all layers away.
pub fn close_all(reg: &mut Registry) -> (closed: Vec<LayerEntry>)
    requires
        old(reg).wf(),
    ensures
        final(reg).wf(),
        final(reg).next() == old(reg).next(),
        final(reg).layers() == Seq::<LayerEntry>::empty(),
        closed@ == old(reg).layers(),
{
    let ghost before = reg.layers();
    let closed: Vec<LayerEntry> = close_where(reg, Which::All);
    proof {
        lemma_all(before);
    }
    closed
}

proof fn lemma_all(s: Seq<LayerEntry>)
    ensures
        those(s, Which::All) == s,
        others(s, Which::All) == Seq::<LayerEntry>::empty(),
    decreases s.len(),
{
    if s.len() > 0 {
        lemma_all(s.drop_last());
        assert(s.drop_last().push(s.last()) =~= s);
    } else {
        assert(s =~= Seq::<LayerEntry>::empty());
    }
}

/// Takes a pane's layers away: it closed, or changed its size. The caller repaints.
pub fn close_pane(reg: &mut Registry, pane: u32) -> (closed: Vec<LayerEntry>)
    requires
        old(reg).wf(),
    ensures
        final(reg).wf(),
        final(reg).next() == old(reg).next(),
        final(reg).layers() == others(old(reg).layers(), Which::Pane(pane)),
        closed@ == those(old(reg).layers(), Which::Pane(pane)),
{
    close_where(reg, Which::Pane(pane))
}

/// The layer that takes a pane's keys, if any: its handle and its connection.
pub fn foreground(reg: &Registry, pane: u32) -> (r: Option<(u64, u64)>)
    ensures
        r == match first_of_pane(reg.layers(), pane) {
            Some(l) => Some((l.handle, l.conn)),
            None => None,
        },
{
    let mut i: usize = 0;
    assert(reg.layers@.skip(0) =~= reg.layers@);
    while i < reg.layers.len()
        invariant
            i <= reg.layers@.len(),
            first_of_pane(reg.layers@, pane) == first_of_pane(reg.layers@.skip(i as int), pane),
        decreases reg.layers@.len() - i,
    {
        assert(reg.layers@.skip(i as int).drop_first() =~= reg.layers@.skip(i + 1));
        if reg.layers[i].pane == pane {
            return Some((reg.layers[i].handle, reg.layers[i].conn));
        }
        i += 1;
    }
    None
}

/// Whether any layer is open.
pub fn any_layers(reg: &Registry) -> (r: bool)
    ensures
        r == (reg.layers().len() > 0),
{
    reg.layers.len() > 0
}

/// The handles of a pane's layers that have a frame to show, in order.
pub fn draw_list(reg: &Registry, pane: u32) -> (out: Vec<u64>)
    ensures
        out@ == shown(reg.layers(), pane),
{
    let mut out: Vec<u64> = Vec::new();
    let mut i: usize = 0;
    assert(reg.layers@.take(0) =~= Seq::<LayerEntry>::empty());
    while i < reg.layers.len()
        invariant
            i <= reg.layers@.len(),
            out@ == shown(reg.layers@.take(i as int), pane),
        decreases reg.layers@.len() - i,
    {
        assert(reg.layers@.take(i + 1).drop_last() =~= reg.layers@.take(i as int));
        if reg.layers[i].pane == pane && reg.layers[i].presented {
            out.push(reg.layers[i].handle);
        }
        i += 1;
    }
    assert(reg.layers@.take(i as int) =~= reg.layers@);
    out
}

/// After a connection's layers are taken away none of it is left, and after a pane's are, the pane
/// has no layer to take its keys.
pub proof fn lemma_closed_is_gone(s: Seq<LayerEntry>, w: Which)
    ensures
        those(others(s, w), w) == Seq::<LayerEntry>::empty(),
        w matches Which::Pane(p) ==> first_of_pane(others(s, w), p) is None,
    decreases s.len(),
{
    lemma_others(s, w);
    lemma_those(others(s, w), w);
    let o = others(s, w);
    assert(those(o, w).len() == 0) by {
        if those(o, w).len() > 0 {
            lemma_those_in(o, w);
            let l = those(o, w)[0];
            assert(o.contains(l));
            let k = choose|k: int| 0 <= k < o.len() && o[k] == l;
            assert(!meant(w, o[k]));
        }
    }
    assert(those(o, w) =~= Seq::<LayerEntry>::empty());
    if let Which::Pane(p) = w {
        assert forall|i: int| 0 <= i < o.len() implies (#[trigger] o[i]).pane != p by {
            assert(!meant(w, o[i]));
        }
        lemma_no_first(o, p);
    }
}

proof fn lemma_those_in(s: Seq<LayerEntry>, w: Which)
    ensures
        forall|i: int| 0 <= i < those(s, w).len() ==> s.contains(#[trigger] those(s, w)[i]),
    decreases s.len(),
{
    if s.len() > 0 {
        let init = s.drop_last();
        lemma_those_in(init, w);
        let t = those(init, w);
        let all = those(s, w);
        assert forall|i: int| 0 <= i < all.len() implies s.contains(#[trigger] all[i]) by {
            if i < t.len() {
                assert(all[i] == t[i]);
                assert(init.contains(t[i]));
                let k = choose|k: int| 0 <= k < init.len() && init[k] == t[i];
                assert(s[k] == all[i]);
            } else {
                assert(s[s.len() - 1] == all[i]);
            }
        }
    }
}

proof fn lemma_no_first(s: Seq<LayerEntry>, pane: u32)
    requires
        forall|i: int| 0 <= i < s.len() ==> (#[trigger] s[i]).pane != pane,
    ensures
        first_of_pane(s, pane) is None,
    decreases s.len(),
{
    if s.len() > 0 {
        assert(s[0].pane != pane);
        assert forall|i: int| 0 <= i < s.drop_first().len() implies (
        #[trigger] s.drop_first()[i]).pane != pane by {
            assert(s.drop_first()[i] == s[i + 1]);
        }
        lemma_no_first(s.drop_first(), pane);
    }
}

/// What is meant is taken in its order.
pub proof fn lemma_meant_in_order(
    a: Seq<LayerEntry>,
    x: LayerEntry,
    b: Seq<LayerEntry>,
    w: Which,
)
    ensures
        meant(w, x) ==> those(a + seq![x] + b, w) == those(a, w) + seq![x] + those(b, w),
        !(meant(w, x)) ==> those(a + seq![x] + b, w) == those(a, w) + those(b, w),
        those(Seq::empty(), w) == Seq::<LayerEntry>::empty(),
    decreases b.len(),
{
    let none = Seq::<LayerEntry>::empty();
    let f = those(a, w);
    if b.len() == 0 {
        assert(b =~= none);
        assert(a + seq![x] + b =~= a.push(x));
        assert(a.push(x).drop_last() =~= a);
        assert(those(none, w) =~= Seq::<LayerEntry>::empty());
        assert(f + Seq::<LayerEntry>::empty() =~= f);
        assert(f + seq![x] + Seq::<LayerEntry>::empty() =~= f.push(x));
    } else {
        let c = b.drop_last();
        lemma_meant_in_order(a, x, c, w);
        assert((a + seq![x] + b).drop_last() =~= a + seq![x] + c);
        assert((a + seq![x] + b).last() == b.last());
        assert(those(a + seq![x] + b, w) =~= if meant(w, x) {
            f + seq![x] + those(b, w)
        } else {
            f + those(b, w)
        });
    }
}

/// What is not meant stays in its order.
pub proof fn lemma_others_in_order(
    a: Seq<LayerEntry>,
    x: LayerEntry,
    b: Seq<LayerEntry>,
    w: Which,
)
    ensures
        !meant(w, x) ==> others(a + seq![x] + b, w) == others(a, w) + seq![x] + others(b, w),
        !(!meant(w, x)) ==> others(a + seq![x] + b, w) == others(a, w) + others(b, w),
        others(Seq::empty(), w) == Seq::<LayerEntry>::empty(),
    decreases b.len(),
{
    let none = Seq::<LayerEntry>::empty();
    let f = others(a, w);
    if b.len() == 0 {
        assert(b =~= none);
        assert(a + seq![x] + b =~= a.push(x));
        assert(a.push(x).drop_last() =~= a);
        assert(others(none, w) =~= Seq::<LayerEntry>::empty());
        assert(f + Seq::<LayerEntry>::empty() =~= f);
        assert(f + seq![x] + Seq::<LayerEntry>::empty() =~= f.push(x));
    } else {
        let c = b.drop_last();
        lemma_others_in_order(a, x, c, w);
        assert((a + seq![x] + b).drop_last() =~= a + seq![x] + c);
        assert((a + seq![x] + b).last() == b.last());
        assert(others(a + seq![x] + b, w) =~= if !meant(w, x) {
            f + seq![x] + others(b, w)
        } else {
            f + others(b, w)
        });
    }
}

/// The layers of a pane that show are those with a frame, in their order.
pub proof fn lemma_which_frames_show(
    a: Seq<LayerEntry>,
    x: LayerEntry,
    b: Seq<LayerEntry>,
    pane: u32,
)
    ensures
        x.pane == pane && x.presented ==> shown(a + seq![x] + b, pane) == shown(a, pane) + seq![x.handle] + shown(b, pane),
        !(x.pane == pane && x.presented) ==> shown(a + seq![x] + b, pane) == shown(a, pane) + shown(b, pane),
        shown(Seq::empty(), pane) == Seq::<u64>::empty(),
    decreases b.len(),
{
    let none = Seq::<LayerEntry>::empty();
    let f = shown(a, pane);
    if b.len() == 0 {
        assert(b =~= none);
        assert(a + seq![x] + b =~= a.push(x));
        assert(a.push(x).drop_last() =~= a);
        assert(shown(none, pane) =~= Seq::<u64>::empty());
        assert(f + Seq::<u64>::empty() =~= f);
        assert(f + seq![x.handle] + Seq::<u64>::empty() =~= f.push(x.handle));
    } else {
        let c = b.drop_last();
        lemma_which_frames_show(a, x, c, pane);
        assert((a + seq![x] + b).drop_last() =~= a + seq![x] + c);
        assert((a + seq![x] + b).last() == b.last());
        assert(shown(a + seq![x] + b, pane) =~= if x.pane == pane && x.presented {
            f + seq![x.handle] + shown(b, pane)
        } else {
            f + shown(b, pane)
        });
    }
}

/// A layer is meant by its handle, by its connection or by its pane, and always where all are.
pub proof fn lemma_what_is_meant(l: LayerEntry, n: u64, pane: u32)
    ensures
        meant(Which::Handle(n), l) <==> n == l.handle,
        meant(Which::Conn(n), l) <==> n == l.conn,
        meant(Which::Pane(pane), l) <==> pane == l.pane,
        meant(Which::All, l),
{
}

/// The keys of a pane go to its layer that was opened first; to none where it has none.
pub proof fn lemma_first_layer_counts(a: Seq<LayerEntry>, l: LayerEntry, b: Seq<LayerEntry>)
    requires
        forall|i: int| 0 <= i < a.len() ==> (#[trigger] a[i]).pane != l.pane,
    ensures
        first_of_pane(a, l.pane) is None,
        first_of_pane(a + seq![l] + b, l.pane) == Some(l),
    decreases a.len(),
{
    let s = a + seq![l] + b;
    lemma_no_first(a, l.pane);
    if a.len() > 0 {
        let c = a.drop_first();
        assert(a[0].pane != l.pane);
        assert forall|i: int| 0 <= i < c.len() implies (#[trigger] c[i]).pane != l.pane by {
            assert(c[i] == a[i + 1]);
        }
        lemma_first_layer_counts(c, l, b);
        assert(s[0] == a[0]);
        assert(s.drop_first() =~= c + seq![l] + b);
    } else {
        assert(s[0] == l);
    }
}

/// A layer that is opened over a pane is the pane's only one, comes behind all others, and has the handle
/// that is told, which none had before.
pub proof fn lemma_opened_over_a_pane(
    reg: &mut Registry,
    pane: u32,
    width_px: u32,
    height_px: u32,
    conn: u64,
    view: usize,
    handle: u64,
)
    requires
        call_ensures(open, (reg, pane, width_px, height_px, conn, view), handle),
        old(reg).wf(),
    ensures
        ({
            let now = final(reg).layers();
            &&& now.len() > 0
            &&& now.last().handle == handle && now.last().pane == pane && now.last().conn == conn
            &&& now.last().width_px == width_px && now.last().height_px == height_px && now.last().view
                == view
            &&& !now.last().presented && !now.last().html
            &&& forall|l: LayerEntry| #[trigger]
                now.drop_last().contains(l) <==> old(reg).layers().contains(l) && l.pane != pane
            &&& forall|l: LayerEntry| #[trigger] old(reg).layers().contains(l) ==> l.handle < handle
        }),
{
    let was = old(reg).layers();
    let now = final(reg).layers();
    let kept = others(was, Which::Pane(pane));
    assert(now.drop_last() =~= kept);
    lemma_others(was, Which::Pane(pane));
    assert forall|l: LayerEntry| #[trigger] now.drop_last().contains(l) <==> was.contains(l) && l.pane
        != pane by {
        if kept.contains(l) {
            lemma_others_from(was, Which::Pane(pane), l);
        }
    }
    assert forall|l: LayerEntry| #[trigger] was.contains(l) implies l.handle < handle by {
        let i = was.index_of(l);
        assert(was[i].handle < old(reg).next());
    }
}

/// A layer that shows its frame shows from then on, and its pane is told; no other layer changes, and
/// nothing does where there is none.
pub proof fn lemma_frame_is_shown(reg: &mut Registry, handle: u64, pane: Option<u32>, i: int)
    requires
        call_ensures(present, (reg, handle), pane),
        old(reg).wf(),
        0 <= i < old(reg).layers().len(),
    ensures
        final(reg).layers().len() == old(reg).layers().len(),
        old(reg).layers()[i].handle == handle ==> final(reg).layers()[i].presented && pane == Some(
            old(reg).layers()[i].pane,
        ),
        old(reg).layers()[i].handle != handle ==> final(reg).layers()[i] == old(reg).layers()[i],
        final(reg).layers()[i].handle == old(reg).layers()[i].handle,
        final(reg).layers()[i].pane == old(reg).layers()[i].pane,
        final(reg).layers()[i].conn == old(reg).layers()[i].conn,
{
    let s = old(reg).layers();
    assert(final(reg).layers()[i] == (if s[i].handle == handle {
        LayerEntry { presented: true, ..s[i] }
    } else {
        s[i]
    }));
    if s[i].handle == handle {
        assert(pane is Some);
        let k = choose|k: int| 0 <= k < s.len() && (#[trigger] s[k]).handle == handle && s[k].pane
            == pane->0;
        if k < i {
            assert(s[k].handle < s[i].handle);
        } else if i < k {
            assert(s[i].handle < s[k].handle);
        }
    }
}

} // verus!
