//! The panes of a window: splitting, closing, focus, zoom and titles.
//!
//! A [`PaneContainer`] holds the tree of panes and decides; the views, surfaces and dividers are
//! the caller's, who carries out the [`PaneAction`]s that each operation returns, in their order.

use vstd::prelude::*;
use vstd::string::*;

pub mod laws;
pub mod tree;

use crate::pane::tree::{
    bounded, clamp_share, collect_leaves, collect_pwds, collect_splits, dropped, dump_node,
    find_ancestor_split, holds, in_bounds, insert_beside, inserted, is_bounded, layout_node,
    leaves, lemma_inserted_leaves, lemma_leaves, lemma_ratios_keep_leaves, lemma_removed_leaves,
    lemma_set_is_bounded, lemma_stays_bounded, materialize, nearest_split, node_contains, numbers,
    pwd_at, remove_leaf, removed, saved_pwds, saved_shape, set_all_ratios, set_node_ratio, shape,
    split_count, splits, walk, well_named, with_all_ratios, with_ratio, without, Dir, HALF,
    LayoutNode, Node, Step,
};
use crate::text::{chars_of, decimal, decimal_of, opt_string};

verus! {

/// What the zoom key does.
#[derive(Clone, Copy, Debug, PartialEq, Eq, Structural)]
pub enum ZoomDecision {
    /// There is one pane: the window itself is zoomed.
    WindowZoom,
    /// The pane with the keyboard takes the whole window.
    ZoomFocused,
    /// The panes share the window again.
    Restore,
    /// There is nothing to zoom.
    Nothing,
}

/// Where a divider is moved to.
#[derive(Clone, Copy, Debug, PartialEq, Eq, Structural)]
pub enum ResizeDir {
    Up,
    Down,
    Left,
    Right,
}

/// What is to be done to the views of a window.
#[derive(Clone, Copy, Debug, PartialEq, Eq, Structural)]
pub enum PaneAction {
    /// Show a pane and let it draw.
    Show(u32),
    /// Hide a pane and stop its drawing; it goes on running.
    Hide(u32),
    ShowDividers,
    HideDividers,
    /// Give a pane the keyboard.
    Focus(u32),
    /// Close the window, or the tab.
    CloseWindow,
    /// Zoom the window itself.
    ZoomWindow,
    /// Let go of a pane's terminal, once the call that asked for it has returned.
    CloseSurface(u32),
    /// Let go of a pane's terminal at once.
    CloseNow(u32),
    /// Take a pane's view out of the window.
    Detach(u32),
    /// Put a divider for this split into the window.
    AddDivider(u64),
    /// Take the divider of this split out of the window.
    RemoveDivider(u64),
    /// Start a terminal in a pane, one that takes its directory from another pane where given.
    Attach { pane: u32, beside: Option<u32> },
    /// Lay the panes out anew.
    Relayout,
}

/// Which divider is to be moved, and which way.
#[derive(Clone, Copy, Debug, PartialEq, Eq, Structural)]
pub struct ResizePlan {
    pub split: u64,
    /// The present share of the first side.
    pub ratio: u64,
    /// The direction of the split: its room is measured along it.
    pub axis: Dir,
    /// The first side grows.
    pub grow: bool,
}

/// Another pane as seen from the one with the keyboard, for moving the focus in a direction.
#[derive(Clone, Copy, Debug, PartialEq, Eq, Structural)]
pub struct Candidate {
    pub pane: u32,
    /// It overlaps the focused pane across the direction.
    pub overlaps: bool,
    /// It lies the other way.
    pub backward: bool,
    /// How far away it is, in any unit that keeps the order.
    pub distance: i64,
}

/// The panes of a window.
pub struct PaneContainer {
    tree: Node,
    next_id: u64,
    zoomed: Option<u32>,
    focused: Option<u32>,
    title_override: Option<String>,
    last_osc_title: Option<String>,
}

/// What the zoom key does in a window of `leaf_count` panes.
pub open spec fn zoom_choice(leaf_count: int, zoomed: bool, has_target: bool) -> ZoomDecision {
    if leaf_count <= 1 {
        ZoomDecision::WindowZoom
    } else if zoomed {
        ZoomDecision::Restore
    } else if has_target {
        ZoomDecision::ZoomFocused
    } else {
        ZoomDecision::Nothing
    }
}

/// What the zoom key does in a window of `leaf_count` panes, one of which may be zoomed.
pub fn zoom_decision(leaf_count: usize, zoomed: bool, has_target: bool) -> (d: ZoomDecision)
    ensures
        d == zoom_choice(leaf_count as int, zoomed, has_target),
{
    if leaf_count <= 1 {
        ZoomDecision::WindowZoom
    } else if zoomed {
        ZoomDecision::Restore
    } else if has_target {
        ZoomDecision::ZoomFocused
    } else {
        ZoomDecision::Nothing
    }
}

/// The zoomed pane after the zoom key.
pub open spec fn zoom_after(leaf_count: int, zoomed: Option<u32>, target: u32) -> Option<u32> {
    match zoom_choice(leaf_count, zoomed is Some, true) {
        ZoomDecision::ZoomFocused => Some(target),
        ZoomDecision::Restore => None,
        _ => zoomed,
    }
}

/// Whether two panes are the same one.
pub fn same_view(a: u32, b: u32) -> (r: bool)
    ensures
        r == (a == b),
{
    a == b
}

/// Show all the panes, in order.
pub open spec fn shows(s: Seq<u32>) -> Seq<PaneAction> {
    s.map_values(|p: u32| PaneAction::Show(p))
}

/// Hide all the panes, in order.
pub open spec fn hides(s: Seq<u32>) -> Seq<PaneAction> {
    s.map_values(|p: u32| PaneAction::Hide(p))
}

/// Let go of the terminals of all the panes, in order.
pub open spec fn closes(s: Seq<u32>) -> Seq<PaneAction> {
    s.map_values(|p: u32| PaneAction::CloseSurface(p))
}

/// Take the dividers of all the splits out, in order.
pub open spec fn removes(s: Seq<u64>) -> Seq<PaneAction> {
    s.map_values(|i: u64| PaneAction::RemoveDivider(i))
}

/// What leaving the zoom asks for.
pub open spec fn unzoom_actions(zoomed: Option<u32>, panes: Seq<u32>) -> Seq<PaneAction> {
    if zoomed is Some {
        shows(panes) + seq![PaneAction::ShowDividers, PaneAction::Relayout]
    } else {
        Seq::empty()
    }
}

/// What zooming a pane asks for.
pub open spec fn zoom_actions(panes: Seq<u32>, pane: u32) -> Seq<PaneAction> {
    hides(without(panes, pane)) + seq![
        PaneAction::HideDividers,
        PaneAction::Relayout,
        PaneAction::Focus(pane),
    ]
}

/// The position of a pane.
pub open spec fn index_in(s: Seq<u32>, pane: u32) -> Option<int>
    decreases s.len(),
{
    if s.len() == 0 {
        None
    } else if s[0] == pane {
        Some(0)
    } else {
        match index_in(s.drop_first(), pane) {
            Some(i) => Some(i + 1),
            None => None,
        }
    }
}

/// The position that the focus moves to among `n` panes: one on or one back, round and round; the
/// first one where no pane has the keyboard.
pub open spec fn cycled(n: int, at: Option<int>, step: int) -> int {
    match at {
        Some(i) if step == 1 => (i + 1) % n,
        Some(i) if step == -1 => (i + n - 1) % n,
        _ => 0,
    }
}

/// The nearest of the candidates that overlap and do not lie the other way; the first such one of
/// several.
pub open spec fn nearest(s: Seq<Candidate>, focused: u32) -> Option<Candidate>
    decreases s.len(),
{
    if s.len() == 0 {
        None
    } else {
        let c = s.last();
        let best = nearest(s.drop_last(), focused);
        if c.pane == focused || !c.overlaps || c.backward {
            best
        } else {
            match best {
                Some(b) if b.distance <= c.distance => best,
                _ => Some(c),
            }
        }
    }
}

/// The candidate can get the keyboard from the focused pane: it is another one, beside it, and does not
/// lie the other way.
pub open spec fn is_neighbour(c: Candidate, focused: u32) -> bool {
    c.pane != focused && c.overlaps && !c.backward
}

/// Where there is a neighbour, the keyboard goes to one; none of the others is nearer, and none of those
/// before it is as near.
pub proof fn lemma_nearest_gets_keyboard(s: Seq<Candidate>, focused: u32)
    ensures
        nearest(s, focused) is Some <==> exists|i: int|
            0 <= i < s.len() && is_neighbour(#[trigger] s[i], focused),
        nearest(s, focused) matches Some(b) ==> exists|k: int|
            {
                &&& 0 <= k < s.len()
                &&& #[trigger] s[k] == b
                &&& b.pane != focused && b.overlaps && !b.backward
                &&& forall|i: int|
                    0 <= i < s.len() && is_neighbour(#[trigger] s[i], focused) ==> b.distance
                        <= s[i].distance
                &&& forall|i: int|
                    0 <= i < k && is_neighbour(#[trigger] s[i], focused) ==> b.distance
                        < s[i].distance
            },
    decreases s.len(),
{
    if s.len() > 0 {
        let init = s.drop_last();
        let n = s.len() - 1;
        lemma_nearest_gets_keyboard(init, focused);
        assert forall|i: int| 0 <= i < n implies s[i] == init[i] by {}
        if exists|i: int| 0 <= i < s.len() && is_neighbour(#[trigger] s[i], focused) {
            let i = choose|i: int| 0 <= i < s.len() && is_neighbour(#[trigger] s[i], focused);
            if i < n {
                assert(is_neighbour(init[i], focused));
            }
        }
        if nearest(init, focused) is Some {
            let b = nearest(init, focused)->0;
            let k = choose|k: int|
                {
                    &&& 0 <= k < init.len()
                    &&& #[trigger] init[k] == b
                    &&& b.pane != focused && b.overlaps && !b.backward
                    &&& forall|i: int|
                        0 <= i < init.len() && is_neighbour(#[trigger] init[i], focused)
                            ==> b.distance <= init[i].distance
                    &&& forall|i: int|
                        0 <= i < k && is_neighbour(#[trigger] init[i], focused) ==> b.distance
                            < init[i].distance
                };
            assert(s[k] == b);
            assert(is_neighbour(s[k], focused));
            assert forall|i: int| 0 <= i < n && is_neighbour(#[trigger] s[i], focused) implies b.distance
                <= s[i].distance by {
                assert(is_neighbour(init[i], focused));
            }
            assert forall|i: int| 0 <= i < k && is_neighbour(#[trigger] s[i], focused) implies b.distance
                < s[i].distance by {
                assert(is_neighbour(init[i], focused));
            }
        } else {
            assert forall|i: int| 0 <= i < n implies !is_neighbour(#[trigger] s[i], focused) by {
                if is_neighbour(s[i], focused) {
                    assert(is_neighbour(init[i], focused));
                }
            }
        }
        assert(s[n] == s.last());
    }
}

/// The title of a window: the one the user set, else the one the terminal set, else the program's.
pub open spec fn title_text(set: Option<Seq<char>>, osc: Option<Seq<char>>) -> Seq<char> {
    match (set, osc) {
        (Some(t), _) => t,
        (None, Some(t)) => t,
        (None, None) => "ninja"@,
    }
}

/// What closing a pane asks for, in a window with other panes.
pub open spec fn close_actions(
    t: Node,
    pane: u32,
    zoomed: Option<u32>,
    focused: Option<u32>,
) -> Seq<PaneAction> {
    let panes = leaves(t);
    let rest = without(panes, pane);
    let reveal_rest = if zoomed == Some(pane) {
        shows(rest).push(PaneAction::ShowDividers)
    } else {
        Seq::empty()
    };
    let hand_over = if focused == Some(pane) && rest.len() > 0 {
        seq![PaneAction::Focus(rest[0])]
    } else {
        Seq::empty()
    };
    let regain = if focused is None && rest.len() > 0 {
        seq![PaneAction::Focus(rest[0])]
    } else {
        Seq::empty()
    };
    reveal_rest + hand_over + seq![PaneAction::CloseSurface(pane), PaneAction::Detach(pane)]
        + removes(dropped(t, pane)) + seq![PaneAction::Relayout] + regain
}

fn add_shows(out: &mut Vec<PaneAction>, panes: &Vec<u32>)
    ensures
        final(out)@ == old(out)@ + shows(panes@),
{
    let mut i: usize = 0;
    assert(out@ =~= old(out)@ + shows(panes@.take(0)));
    while i < panes.len()
        invariant
            i <= panes@.len(),
            out@ == old(out)@ + shows(panes@.take(i as int)),
        decreases panes@.len() - i,
    {
        out.push(PaneAction::Show(panes[i]));
        i += 1;
        assert(out@ =~= old(out)@ + shows(panes@.take(i as int)));
    }
    assert(panes@.take(i as int) =~= panes@);
}

fn add_hides(out: &mut Vec<PaneAction>, panes: &Vec<u32>)
    ensures
        final(out)@ == old(out)@ + hides(panes@),
{
    let mut i: usize = 0;
    assert(out@ =~= old(out)@ + hides(panes@.take(0)));
    while i < panes.len()
        invariant
            i <= panes@.len(),
            out@ == old(out)@ + hides(panes@.take(i as int)),
        decreases panes@.len() - i,
    {
        out.push(PaneAction::Hide(panes[i]));
        i += 1;
        assert(out@ =~= old(out)@ + hides(panes@.take(i as int)));
    }
    assert(panes@.take(i as int) =~= panes@);
}

fn add_removes(out: &mut Vec<PaneAction>, ids: &Vec<u64>)
    ensures
        final(out)@ == old(out)@ + removes(ids@),
{
    let mut i: usize = 0;
    assert(out@ =~= old(out)@ + removes(ids@.take(0)));
    while i < ids.len()
        invariant
            i <= ids@.len(),
            out@ == old(out)@ + removes(ids@.take(i as int)),
        decreases ids@.len() - i,
    {
        out.push(PaneAction::RemoveDivider(ids[i]));
        i += 1;
        assert(out@ =~= old(out)@ + removes(ids@.take(i as int)));
    }
    assert(ids@.take(i as int) =~= ids@);
}

/// The panes but one, in their order.
fn all_but(panes: &Vec<u32>, pane: u32) -> (out: Vec<u32>)
    ensures
        out@ == without(panes@, pane),
{
    let mut out: Vec<u32> = Vec::new();
    let mut i: usize = 0;
    assert(panes@.take(0) =~= Seq::<u32>::empty());
    while i < panes.len()
        invariant
            i <= panes@.len(),
            out@ == without(panes@.take(i as int), pane),
        decreases panes@.len() - i,
    {
        assert(panes@.take(i + 1).drop_last() =~= panes@.take(i as int));
        if panes[i] != pane {
            out.push(panes[i]);
        }
        i += 1;
    }
    assert(panes@.take(i as int) =~= panes@);
    out
}

fn position_in(panes: &Vec<u32>, pane: u32) -> (r: Option<usize>)
    ensures
        match r {
            Some(i) => i < panes@.len() && index_in(panes@, pane) == Some(i as int),
            None => index_in(panes@, pane) is None,
        },
{
    let mut i: usize = 0;
    assert(panes@.skip(0) =~= panes@);
    while i < panes.len()
        invariant
            i <= panes@.len(),
            index_in(panes@, pane) == match index_in(panes@.skip(i as int), pane) {
                Some(k) => Some(i + k),
                None => None,
            },
        decreases panes@.len() - i,
    {
        assert(panes@.skip(i as int).drop_first() =~= panes@.skip(i + 1));
        if panes[i] == pane {
            return Some(i);
        }
        i += 1;
    }
    None
}

impl PaneContainer {
    /// The tree of panes.
    pub closed spec fn tree(self) -> Node {
        self.tree
    }

    /// The number that the next split gets.
    pub closed spec fn next(self) -> u64 {
        self.next_id
    }

    /// The pane that has the whole window, if any.
    pub closed spec fn zoomed(self) -> Option<u32> {
        self.zoomed
    }

    /// The pane that has the keyboard, if any.
    pub closed spec fn focused(self) -> Option<u32> {
        self.focused
    }

    /// The title that the user set.
    pub closed spec fn set_title(self) -> Option<Seq<char>> {
        opt_string(self.title_override)
    }

    /// The title that the terminal set last.
    pub closed spec fn osc_title(self) -> Option<Seq<char>> {
        opt_string(self.last_osc_title)
    }

    /// The panes, first sides first.
    pub open spec fn panes(self) -> Seq<u32> {
        leaves(self.tree())
    }

    /// The pane that an operation without a target means: the one with the keyboard, or else the
    /// first.
    pub open spec fn target(self) -> u32 {
        match self.focused() {
            Some(p) => p,
            None => self.panes()[0],
        }
    }

    /// No pane stands in the tree twice, numbers of splits are used once, their shares are within
    /// their bounds, and the keyboard belongs to one of the panes.
    pub open spec fn wf(self) -> bool {
        &&& self.panes().no_duplicates()
        &&& is_bounded(self.tree())
        &&& forall|i: int|
            0 <= i < splits(self.tree()).len() ==> #[trigger] splits(self.tree())[i] < self.next()
        &&& self.focused() matches Some(p) ==> holds(self.tree(), p)
    }

    /// A zoomed pane is one of the window's.
    pub open spec fn zoom_ok(self) -> bool {
        self.zoomed() matches Some(p) ==> holds(self.tree(), p)
    }

    /// The titles are those of `o`.
    pub open spec fn same_titles(self, o: PaneContainer) -> bool {
        self.set_title() == o.set_title() && self.osc_title() == o.osc_title()
    }

    /// A window with one pane.
    pub fn new(first: u32) -> (c: PaneContainer)
        ensures
            c.wf(),
            c.zoom_ok(),
            c.tree() == Node::Leaf(first),
            c.next() == 1,
            c.zoomed() is None,
            c.focused() is None,
            c.set_title() is None,
            c.osc_title() is None,
    {
        PaneContainer {
            tree: Node::Leaf(first),
            next_id: 1,
            zoomed: None,
            focused: None,
            title_override: None,
            last_osc_title: None,
        }
    }

    /// Notes which pane has the keyboard; a pane of another window counts as none.
    pub fn set_focus(&mut self, pane: Option<u32>)
        requires
            old(self).wf(),
        ensures
            final(self).wf(),
            final(self).tree() == old(self).tree(),
            final(self).next() == old(self).next(),
            final(self).zoomed() == old(self).zoomed(),
            final(self).same_titles(*old(self)),
            final(self).focused() == match pane {
                Some(p) if holds(old(self).tree(), p) => Some(p),
                _ => None,
            },
    {
        self.focused = match pane {
            Some(p) => if self.contains(p) {
                Some(p)
            } else {
                None
            },
            None => None,
        };
    }

    /// The panes, first sides first.
    pub fn leaves(&self) -> (out: Vec<u32>)
        ensures
            out@ == self.panes(),
            out@.len() > 0,
    {
        let mut out: Vec<u32> = Vec::new();
        collect_leaves(&self.tree, &mut out);
        proof {
            lemma_leaves(self.tree);
        }
        assert(out@ =~= leaves(self.tree));
        out
    }

    /// The first pane.
    pub fn first_leaf(&self) -> (p: u32)
        ensures
            p == self.panes()[0],
    {
        self.leaves()[0]
    }

    /// The number of panes.
    pub fn leaf_count(&self) -> (n: usize)
        ensures
            n == self.panes().len(),
    {
        self.leaves().len()
    }

    /// The pane with the keyboard.
    pub fn focused_leaf(&self) -> (r: Option<u32>)
        ensures
            r == self.focused(),
    {
        self.focused
    }

    /// Whether a pane is one of the window's.
    pub fn contains(&self, pane: u32) -> (r: bool)
        ensures
            r == holds(self.tree(), pane),
    {
        node_contains(&self.tree, pane)
    }

    fn pick_target(&self) -> (p: u32)
        ensures
            p == self.target(),
    {
        match self.focused {
            Some(p) => p,
            None => self.first_leaf(),
        }
    }

    /// The title that the user set.
    pub fn title_override(&self) -> (t: Option<String>)
        ensures
            opt_string(t) == self.set_title(),
    {
        self.title_override.clone()
    }

    /// The window's title.
    pub fn title(&self) -> (t: String)
        ensures
            t@ == title_text(self.set_title(), self.osc_title()),
    {
        match &self.title_override {
            Some(t) => t.clone(),
            None => match &self.last_osc_title {
                Some(t) => t.clone(),
                None => "ninja".to_owned(),
            },
        }
    }

    /// The user sets a title, or takes theirs back. The result is the title to show.
    pub fn set_title_override(&mut self, title: Option<String>) -> (shown: String)
        ensures
            final(self).set_title() == opt_string(title),
            final(self).osc_title() == old(self).osc_title(),
            final(self).tree() == old(self).tree(),
            final(self).next() == old(self).next(),
            final(self).zoomed() == old(self).zoomed(),
            final(self).focused() == old(self).focused(),
            shown@ == title_text(final(self).set_title(), final(self).osc_title()),
    {
        self.title_override = title;
        self.title()
    }

    /// The terminal sets a title. The result is the title to show, `None` where the user's stays.
    pub fn set_last_osc_title(&mut self, title: String) -> (shown: Option<String>)
        ensures
            final(self).osc_title() == Some(title@),
            final(self).set_title() == old(self).set_title(),
            final(self).tree() == old(self).tree(),
            final(self).next() == old(self).next(),
            final(self).zoomed() == old(self).zoomed(),
            final(self).focused() == old(self).focused(),
            match shown {
                Some(t) => old(self).set_title() is None && t@ == title@,
                None => old(self).set_title() is Some,
            },
    {
        self.last_osc_title = Some(title);
        if self.title_override.is_none() {
            Some(self.title())
        } else {
            None
        }
    }

    /// Leaves the zoom, if there is one. The tree and its shares are as they were.
    pub fn unzoom(&mut self) -> (out: Vec<PaneAction>)
        requires
            old(self).wf(),
        ensures
            final(self).wf(),
            final(self).zoom_ok(),
            final(self).tree() == old(self).tree(),
            final(self).next() == old(self).next(),
            final(self).focused() == old(self).focused(),
            final(self).same_titles(*old(self)),
            final(self).zoomed() is None,
            out@ == unzoom_actions(old(self).zoomed(), old(self).panes()),
    {
        let mut out: Vec<PaneAction> = Vec::new();
        if self.zoomed.is_some() {
            self.zoomed = None;
            let panes: Vec<u32> = self.leaves();
            add_shows(&mut out, &panes);
            out.push(PaneAction::ShowDividers);
            out.push(PaneAction::Relayout);
            assert(out@ =~= shows(panes@) + seq![PaneAction::ShowDividers, PaneAction::Relayout]);
        }
        out
    }

    /// Whether a pane has the whole window.
    pub fn is_zoomed(&self) -> (r: bool)
        ensures
            r == (self.zoomed() is Some),
    {
        self.zoomed.is_some()
    }

    /// The pane that has the whole window.
    pub fn zoomed_pane_id(&self) -> (r: Option<u32>)
        ensures
            r == self.zoomed(),
    {
        self.zoomed
    }

    /// Gives a pane the whole window and the keyboard; the others are hidden, not closed, and the
    /// tree stays as it is.
    fn zoom_leaf(&mut self, pane: u32) -> (out: Vec<PaneAction>)
        requires
            old(self).wf(),
            holds(old(self).tree(), pane),
        ensures
            final(self).wf(),
            final(self).zoom_ok(),
            final(self).tree() == old(self).tree(),
            final(self).next() == old(self).next(),
            final(self).same_titles(*old(self)),
            final(self).zoomed() == Some(pane),
            final(self).focused() == Some(pane),
            out@ == zoom_actions(old(self).panes(), pane),
    {
        let panes: Vec<u32> = self.leaves();
        let others: Vec<u32> = all_but(&panes, pane);
        let mut out: Vec<PaneAction> = Vec::new();
        add_hides(&mut out, &others);
        out.push(PaneAction::HideDividers);
        self.zoomed = Some(pane);
        out.push(PaneAction::Relayout);
        self.focused = Some(pane);
        out.push(PaneAction::Focus(pane));
        assert(out@ =~= zoom_actions(panes@, pane));
        out
    }

    /// The zoom key: zooms the window where it has one pane, else the pane with the keyboard, and
    /// back.
    pub fn toggle_zoom(&mut self) -> (out: Vec<PaneAction>)
        requires
            old(self).wf(),
        ensures
            final(self).wf(),
            old(self).zoom_ok() ==> final(self).zoom_ok(),
            final(self).tree() == old(self).tree(),
            final(self).next() == old(self).next(),
            final(self).same_titles(*old(self)),
            final(self).zoomed() == zoom_after(
                old(self).panes().len() as int,
                old(self).zoomed(),
                old(self).target(),
            ),
            match zoom_choice(old(self).panes().len() as int, old(self).zoomed() is Some, true) {
                ZoomDecision::WindowZoom => out@ == seq![PaneAction::ZoomWindow]
                    && final(self).zoomed() == old(self).zoomed() && final(self).focused() == old(
                    self,
                ).focused(),
                ZoomDecision::ZoomFocused => out@ == zoom_actions(
                    old(self).panes(),
                    old(self).target(),
                ) && final(self).zoomed() == Some(old(self).target()) && final(self).focused()
                    == Some(old(self).target()),
                ZoomDecision::Restore => out@ == unzoom_actions(
                    old(self).zoomed(),
                    old(self).panes(),
                ) && final(self).zoomed() is None && final(self).focused() == old(self).focused(),
                ZoomDecision::Nothing => false,
            },
    {
        let target: u32 = self.pick_target();
        proof {
            lemma_leaves(self.tree);
            assert(leaves(self.tree).contains(leaves(self.tree)[0]));
        }
        match zoom_decision(self.leaf_count(), self.is_zoomed(), true) {
            ZoomDecision::WindowZoom => {
                let mut out: Vec<PaneAction> = Vec::new();
                out.push(PaneAction::ZoomWindow);
                assert(out@ =~= seq![PaneAction::ZoomWindow]);
                out
            },
            ZoomDecision::ZoomFocused => self.zoom_leaf(target),
            ZoomDecision::Restore => self.unzoom(),
            ZoomDecision::Nothing => Vec::new(),
        }
    }

    /// Zooms the pane with the keyboard, or else the first; nothing happens where one is zoomed.
    pub fn zoom_focused(&mut self) -> (out: Vec<PaneAction>)
        requires
            old(self).wf(),
        ensures
            final(self).wf(),
            old(self).zoom_ok() ==> final(self).zoom_ok(),
            final(self).tree() == old(self).tree(),
            final(self).next() == old(self).next(),
            final(self).same_titles(*old(self)),
            if old(self).zoomed() is Some {
                out@ == Seq::<PaneAction>::empty() && final(self).zoomed() == old(self).zoomed()
                    && final(self).focused() == old(self).focused()
            } else {
                out@ == zoom_actions(old(self).panes(), old(self).target()) && final(self).zoomed()
                    == Some(old(self).target()) && final(self).focused() == Some(
                    old(self).target(),
                )
            },
    {
        if self.zoomed.is_some() {
            return Vec::new();
        }
        let target: u32 = self.pick_target();
        proof {
            lemma_leaves(self.tree);
            assert(leaves(self.tree).contains(leaves(self.tree)[0]));
        }
        self.zoom_leaf(target)
    }

    /// Whether there is a number left for another split.
    pub fn can_split(&self) -> (r: bool)
        ensures
            r == (self.next() < u64::MAX),
    {
        self.next_id < u64::MAX
    }

    /// Puts the pane `new` beside the one with the keyboard, or else the first.
    pub fn split_focused(&mut self, dir: Dir, before: bool, new: u32) -> (out: Vec<PaneAction>)
        requires
            old(self).wf(),
            !holds(old(self).tree(), new),
            old(self).next() < u64::MAX,
        ensures
            final(self).wf(),
            final(self).zoom_ok(),
            final(self).same_titles(*old(self)),
            final(self).zoomed() is None,
            final(self).focused() == Some(new),
            final(self).next() == old(self).next() + 1,
            final(self).tree() == inserted(
                old(self).tree(),
                old(self).target(),
                new,
                dir,
                old(self).next(),
                before,
            ),
            out@ == unzoom_actions(old(self).zoomed(), old(self).panes()) + seq![
                PaneAction::Attach { pane: new, beside: Some(old(self).target()) },
                PaneAction::AddDivider(old(self).next()),
                PaneAction::Relayout,
                PaneAction::Focus(new),
            ],
    {
        let target: u32 = self.pick_target();
        proof {
            lemma_leaves(self.tree);
            assert(leaves(self.tree).contains(leaves(self.tree)[0]));
        }
        self.split_beside(target, dir, before, new)
    }

    /// Puts the pane `new` beside `target` and gives it the keyboard. The zoom is left in any case;
    /// nothing else happens where `target` is not in the window.
    pub fn split_beside(&mut self, target: u32, dir: Dir, before: bool, new: u32) -> (out: Vec<
        PaneAction,
    >)
        requires
            old(self).wf(),
            !holds(old(self).tree(), new),
            old(self).next() < u64::MAX,
        ensures
            final(self).wf(),
            final(self).zoom_ok(),
            final(self).same_titles(*old(self)),
            final(self).zoomed() is None,
            if holds(old(self).tree(), target) {
                &&& final(self).focused() == Some(new)
                &&& final(self).next() == old(self).next() + 1
                &&& final(self).tree() == inserted(
                    old(self).tree(),
                    target,
                    new,
                    dir,
                    old(self).next(),
                    before,
                )
                &&& out@ == unzoom_actions(old(self).zoomed(), old(self).panes()) + seq![
                    PaneAction::Attach { pane: new, beside: Some(target) },
                    PaneAction::AddDivider(old(self).next()),
                    PaneAction::Relayout,
                    PaneAction::Focus(new),
                ]
            } else {
                &&& final(self).focused() == old(self).focused()
                &&& final(self).next() == old(self).next()
                &&& final(self).tree() == old(self).tree()
                &&& out@ == unzoom_actions(old(self).zoomed(), old(self).panes())
            },
    {
        let mut out: Vec<PaneAction> = self.unzoom();
        if !self.contains(target) {
            return out;
        }
        let ghost start = out@;
        let ghost t = self.tree;
        let id: u64 = self.next_id;
        self.next_id = id + 1;
        out.push(PaneAction::Attach { pane: new, beside: Some(target) });
        out.push(PaneAction::AddDivider(id));
        let mut whole: Node = Node::Leaf(target);
        std::mem::swap(&mut whole, &mut self.tree);
        let (grown, _found) = insert_beside(whole, target, new, dir, id, before);
        self.tree = grown;
        out.push(PaneAction::Relayout);
        self.focused = Some(new);
        out.push(PaneAction::Focus(new));
        proof {
            lemma_inserted_leaves(t, target, new, dir, id, before);
            lemma_leaves(t);
            lemma_leaves(self.tree);
            lemma_insert_distinct(t, target, new, dir, id, before);
            lemma_inserted_splits(t, target, new, dir, id, before);
            lemma_stays_bounded(t, target, new, dir, id, before);
            assert(out@ =~= start + seq![
                PaneAction::Attach { pane: new, beside: Some(target) },
                PaneAction::AddDivider(id),
                PaneAction::Relayout,
                PaneAction::Focus(new),
            ]);
        }
        out
    }

    /// Closes a pane. The last one takes the window with it. Otherwise a zoom of the pane ends, the
    /// keyboard goes to another pane before this one goes, and the other side of its split takes its
    /// room.
    pub fn close_leaf(&mut self, pane: u32) -> (out: Vec<PaneAction>)
        requires
            old(self).wf(),
        ensures
            final(self).wf(),
            old(self).zoom_ok() ==> final(self).zoom_ok(),
            final(self).same_titles(*old(self)),
            final(self).next() == old(self).next(),
            if old(self).panes().len() <= 1 {
                &&& out@ == seq![PaneAction::CloseWindow]
                &&& final(self).tree() == old(self).tree()
                &&& final(self).zoomed() == old(self).zoomed()
                &&& final(self).focused() == old(self).focused()
            } else {
                &&& out@ == close_actions(
                    old(self).tree(),
                    pane,
                    old(self).zoomed(),
                    old(self).focused(),
                )
                &&& removed(old(self).tree(), pane) == Some(final(self).tree())
                &&& final(self).panes() == without(old(self).panes(), pane)
                &&& final(self).panes().len() > 0
                &&& final(self).zoomed() == if old(self).zoomed() == Some(pane) {
                    None
                } else {
                    old(self).zoomed()
                }
                &&& final(self).focused() == match old(self).focused() {
                    Some(f) if f != pane => Some(f),
                    _ => Some(final(self).panes()[0]),
                }
            },
    {
        let panes: Vec<u32> = self.leaves();
        let mut out: Vec<PaneAction> = Vec::new();
        if panes.len() <= 1 {
            out.push(PaneAction::CloseWindow);
            assert(out@ =~= seq![PaneAction::CloseWindow]);
            return out;
        }
        let ghost t = self.tree;
        let ghost was_zoomed = self.zoomed;
        let ghost was_focused = self.focused;
        let rest: Vec<u32> = all_but(&panes, pane);
        proof {
            lemma_removed_leaves(t, pane);
            if removed(t, pane) is None {
                assert(leaves(t) == seq![pane]);
            }
            lemma_leaves(t);
            if let Some(m) = removed(t, pane) {
                lemma_leaves(m);
                lemma_removed_splits(t, pane);
                lemma_removed_holds(t, pane);
                lemma_without_distinct(leaves(t), pane);
            }
        }
        let closing_zoomed: bool = match self.zoomed {
            Some(z) => z == pane,
            None => false,
        };
        if closing_zoomed {
            self.zoomed = None;
            add_shows(&mut out, &rest);
            out.push(PaneAction::ShowDividers);
        }
        let ghost s1 = out@;
        let closing_focused: bool = match self.focused {
            Some(f) => f == pane,
            None => false,
        };
        if closing_focused {
            self.focused = Some(rest[0]);
            out.push(PaneAction::Focus(rest[0]));
        }
        let ghost s2 = out@;
        out.push(PaneAction::CloseSurface(pane));
        out.push(PaneAction::Detach(pane));
        let mut gone: Vec<u64> = Vec::new();
        let mut whole: Node = Node::Leaf(pane);
        std::mem::swap(&mut whole, &mut self.tree);
        let smaller: Option<Node> = remove_leaf(whole, pane, &mut gone);
        assert(gone@ =~= dropped(t, pane));
        let ghost s3 = out@;
        add_removes(&mut out, &gone);
        if let Some(m) = smaller {
            self.tree = m;
            out.push(PaneAction::Relayout);
        }
        let ghost s4 = out@;
        if self.focused.is_none() {
            self.focused = Some(rest[0]);
            out.push(PaneAction::Focus(rest[0]));
        }
        proof {
            lemma_stays_bounded(t, pane, 0, Dir::Horizontal, 0, false);
            assert(rest@ == leaves(self.tree));
            assert(leaves(self.tree).contains(rest@[0]));
            let reveal_rest = if was_zoomed == Some(pane) {
                shows(rest@).push(PaneAction::ShowDividers)
            } else {
                Seq::empty()
            };
            assert(s1 =~= reveal_rest);
            let hand_over = if was_focused == Some(pane) && rest@.len() > 0 {
                seq![PaneAction::Focus(rest@[0])]
            } else {
                Seq::empty()
            };
            assert(s2 =~= reveal_rest + hand_over);
            assert(s3 =~= reveal_rest + hand_over + seq![
                PaneAction::CloseSurface(pane),
                PaneAction::Detach(pane),
            ]);
            assert(s4 =~= s3 + removes(dropped(t, pane)) + seq![PaneAction::Relayout]);
            assert(out@ =~= close_actions(t, pane, was_zoomed, was_focused));
        }
        out
    }

    /// The window closes: the terminals of all panes are let go of.
    pub fn shutdown_all(&self) -> (out: Vec<PaneAction>)
        ensures
            out@ == closes(self.panes()),
    {
        let panes: Vec<u32> = self.leaves();
        let mut out: Vec<PaneAction> = Vec::new();
        let mut i: usize = 0;
        while i < panes.len()
            invariant
                i <= panes@.len(),
                out@ == closes(panes@.take(i as int)),
            decreases panes@.len() - i,
        {
            out.push(PaneAction::CloseSurface(panes[i]));
            i += 1;
            assert(out@ =~= closes(panes@.take(i as int)));
        }
        assert(panes@.take(i as int) =~= panes@);
        out
    }

    /// Moves the keyboard to the nearest of the candidates: panes that overlap the focused one
    /// across the direction and do not lie the other way. Leaves the zoom.
    pub fn focus_dir(&mut self, candidates: &Vec<Candidate>) -> (out: Vec<PaneAction>)
        requires
            old(self).wf(),
            forall|i: int|
                0 <= i < candidates@.len() ==> holds(
                    old(self).tree(),
                    (#[trigger] candidates@[i]).pane,
                ),
        ensures
            final(self).wf(),
            final(self).zoom_ok(),
            final(self).tree() == old(self).tree(),
            final(self).next() == old(self).next(),
            final(self).zoomed() is None,
            final(self).same_titles(*old(self)),
            match old(self).focused() {
                Some(f) => match nearest(candidates@, f) {
                    Some(c) => final(self).focused() == Some(c.pane) && out@ == unzoom_actions(
                        old(self).zoomed(),
                        old(self).panes(),
                    ).push(PaneAction::Focus(c.pane)),
                    None => final(self).focused() == Some(f) && out@ == unzoom_actions(
                        old(self).zoomed(),
                        old(self).panes(),
                    ),
                },
                None => final(self).focused() is None && out@ == unzoom_actions(
                    old(self).zoomed(),
                    old(self).panes(),
                ),
            },
    {
        let mut out: Vec<PaneAction> = self.unzoom();
        let from: u32 = match self.focused {
            Some(f) => f,
            None => {
                return out;
            },
        };
        let mut best: Option<Candidate> = None;
        let mut i: usize = 0;
        assert(candidates@.take(0) =~= Seq::<Candidate>::empty());
        while i < candidates.len()
            invariant
                i <= candidates@.len(),
                best == nearest(candidates@.take(i as int), from),
                best matches Some(b) ==> exists|k: int|
                    0 <= k < i && #[trigger] candidates@[k] == b,
            decreases candidates@.len() - i,
        {
            assert(candidates@.take(i + 1).drop_last() =~= candidates@.take(i as int));
            let c: Candidate = candidates[i];
            if c.pane != from && c.overlaps && !c.backward {
                best = match best {
                    Some(b) => if b.distance <= c.distance {
                        Some(b)
                    } else {
                        Some(c)
                    },
                    None => Some(c),
                };
            }
            i += 1;
        }
        assert(candidates@.take(i as int) =~= candidates@);
        if let Some(b) = best {
            self.focused = Some(b.pane);
            out.push(PaneAction::Focus(b.pane));
        }
        out
    }

    /// Moves the keyboard to the next pane (`step` 1) or the previous one (`step` -1), round and
    /// round; to the first one otherwise. Leaves the zoom.
    pub fn cycle_focus(&mut self, step: isize) -> (out: Vec<PaneAction>)
        requires
            old(self).wf(),
        ensures
            final(self).wf(),
            final(self).zoom_ok(),
            final(self).tree() == old(self).tree(),
            final(self).next() == old(self).next(),
            final(self).zoomed() is None,
            final(self).same_titles(*old(self)),
            if old(self).panes().len() < 2 {
                final(self).focused() == old(self).focused() && out@ == unzoom_actions(
                    old(self).zoomed(),
                    old(self).panes(),
                )
            } else {
                let at = match old(self).focused() {
                    Some(f) => index_in(old(self).panes(), f),
                    None => None,
                };
                let to = old(self).panes()[cycled(
                    old(self).panes().len() as int,
                    at,
                    step as int,
                )];
                final(self).focused() == Some(to) && out@ == unzoom_actions(
                    old(self).zoomed(),
                    old(self).panes(),
                ).push(PaneAction::Focus(to))
            },
    {
        let mut out: Vec<PaneAction> = self.unzoom();
        let panes: Vec<u32> = self.leaves();
        let n: usize = panes.len();
        if n < 2 {
            return out;
        }
        let at: Option<usize> = match self.focused {
            Some(f) => position_in(&panes, f),
            None => None,
        };
        let next: usize = match at {
            Some(i) => if step == 1 {
                if i + 1 == n {
                    0
                } else {
                    i + 1
                }
            } else if step == -1 {
                if i == 0 {
                    n - 1
                } else {
                    i - 1
                }
            } else {
                0
            },
            None => 0,
        };
        proof {
            if let Some(i) = at {
                lemma_cycle_step(i as int, n as int);
            }
            lemma_leaves(self.tree);
            assert(leaves(self.tree).contains(panes@[next as int]));
        }
        self.focused = Some(panes[next]);
        out.push(PaneAction::Focus(panes[next]));
        out
    }

    /// How the window's room is to be divided: all of it to a zoomed pane, else split by split, a
    /// split before its two sides.
    pub fn relayout(&self) -> (out: Vec<Step>)
        ensures
            out@ == match self.zoomed() {
                Some(pane) => seq![Step::Leaf { pane }],
                None => walk(self.tree()),
            },
    {
        let mut out: Vec<Step> = Vec::new();
        match self.zoomed {
            Some(pane) => {
                out.push(Step::Leaf { pane });
                assert(out@ =~= seq![Step::Leaf { pane }]);
            },
            None => {
                layout_node(&self.tree, &mut out);
                assert(out@ =~= walk(self.tree));
            },
        }
        out
    }

    /// A divider was dragged: gives its split another share, within its bounds.
    pub fn set_ratio(&mut self, split: u64, ratio: u64) -> (out: Vec<PaneAction>)
        requires
            old(self).wf(),
        ensures
            final(self).wf(),
            old(self).zoom_ok() ==> final(self).zoom_ok(),
            final(self).tree() == with_ratio(old(self).tree(), split, in_bounds(ratio)),
            final(self).panes() == old(self).panes(),
            final(self).next() == old(self).next(),
            final(self).zoomed() == old(self).zoomed(),
            final(self).focused() == old(self).focused(),
            final(self).same_titles(*old(self)),
            out@ == seq![PaneAction::Relayout],
    {
        let ghost t = self.tree;
        let mut whole: Node = Node::Leaf(0);
        std::mem::swap(&mut whole, &mut self.tree);
        let share: u64 = clamp_share(ratio);
        let (changed, _found) = set_node_ratio(whole, split, share);
        self.tree = changed;
        proof {
            lemma_ratios_keep_leaves(t, split, share);
            lemma_ratios_keep_splits(t, split, share);
            lemma_set_is_bounded(t, split, ratio);
            lemma_leaves(t);
            lemma_leaves(self.tree);
        }
        let mut out: Vec<PaneAction> = Vec::new();
        out.push(PaneAction::Relayout);
        assert(out@ =~= seq![PaneAction::Relayout]);
        out
    }

    /// Gives both sides of every split the same room. Leaves the zoom.
    pub fn equalize(&mut self) -> (out: Vec<PaneAction>)
        requires
            old(self).wf(),
        ensures
            final(self).wf(),
            final(self).zoom_ok(),
            final(self).tree() == with_all_ratios(old(self).tree(), HALF),
            final(self).panes() == old(self).panes(),
            final(self).next() == old(self).next(),
            final(self).zoomed() is None,
            final(self).focused() == old(self).focused(),
            final(self).same_titles(*old(self)),
            out@ == unzoom_actions(old(self).zoomed(), old(self).panes()).push(
                PaneAction::Relayout,
            ),
    {
        let mut out: Vec<PaneAction> = self.unzoom();
        let ghost t = self.tree;
        let mut whole: Node = Node::Leaf(0);
        std::mem::swap(&mut whole, &mut self.tree);
        self.tree = set_all_ratios(whole, HALF);
        proof {
            lemma_ratios_keep_leaves(t, 0, HALF);
            lemma_ratios_keep_splits(t, 0, HALF);
            lemma_set_is_bounded(t, 0, HALF);
            lemma_leaves(t);
            lemma_leaves(self.tree);
        }
        out.push(PaneAction::Relayout);
        out
    }

    /// Which divider a resize key moves: that of the innermost split of the key's direction around
    /// the target. Leaves the zoom.
    pub fn resize_split(&mut self, direction: ResizeDir) -> (r: (
        Vec<PaneAction>,
        Option<ResizePlan>,
    ))
        requires
            old(self).wf(),
        ensures
            final(self).wf(),
            final(self).zoom_ok(),
            final(self).tree() == old(self).tree(),
            final(self).next() == old(self).next(),
            final(self).zoomed() is None,
            final(self).focused() == old(self).focused(),
            final(self).same_titles(*old(self)),
            r.0@ == unzoom_actions(old(self).zoomed(), old(self).panes()),
            ({
                let axis = if direction is Up || direction is Down {
                    Dir::Vertical
                } else {
                    Dir::Horizontal
                };
                r.1 == match nearest_split(old(self).tree(), old(self).target(), axis) {
                    Some((split, ratio)) => Some(
                        ResizePlan {
                            split,
                            ratio,
                            axis,
                            grow: direction is Down || direction is Right,
                        },
                    ),
                    None => None,
                }
            }),
    {
        let out: Vec<PaneAction> = self.unzoom();
        let target: u32 = self.pick_target();
        let (axis, grow) = match direction {
            ResizeDir::Up => (Dir::Vertical, false),
            ResizeDir::Down => (Dir::Vertical, true),
            ResizeDir::Left => (Dir::Horizontal, false),
            ResizeDir::Right => (Dir::Horizontal, true),
        };
        let plan: Option<ResizePlan> = match find_ancestor_split(&self.tree, target, axis) {
            Some((split, ratio)) => Some(ResizePlan { split, ratio, axis, grow }),
            None => None,
        };
        (out, plan)
    }

    /// The tree as it is saved; `pwds` holds the working directories of the panes, in order.
    pub fn dump_layout(&self, pwds: &Vec<Option<String>>) -> (d: LayoutNode)
        ensures
            saved_shape(d) == shape(self.tree()),
            well_named(d),
            saved_pwds(d) == Seq::new(self.panes().len(), |i: int| pwd_at(pwds@, i)),
    {
        let n: usize = self.leaf_count();
        let (d, _end) = dump_node(&self.tree, pwds, 0);
        assert(saved_pwds(d) =~= Seq::new(self.panes().len(), |i: int| pwd_at(pwds@, i)));
        d
    }

    /// Replaces the window's panes by those of a saved tree; `panes` are the new ones, in order.
    /// The first one starts its terminal by itself, the others beside it, each in the directory that
    /// was saved for it. These directories are the second part of the result, in the order of the
    /// panes.
    pub fn restore_layout(&mut self, dump: &LayoutNode, panes: &Vec<u32>) -> (r: (
        Vec<PaneAction>,
        Vec<Option<String>>,
    ))
        requires
            old(self).wf(),
            panes@.len() == saved_pwds(*dump).len(),
            panes@.no_duplicates(),
            old(self).next() + split_count(*dump) <= u64::MAX,
        ensures
            final(self).wf(),
            final(self).same_titles(*old(self)),
            shape(final(self).tree()) == bounded(saved_shape(*dump)),
            final(self).panes() == panes@,
            splits(final(self).tree()) == numbers(old(self).next() as int, split_count(*dump)),
            final(self).next() == old(self).next() + split_count(*dump),
            final(self).zoomed() == old(self).zoomed(),
            final(self).focused() == match old(self).focused() {
                Some(f) if panes@.contains(f) => Some(f),
                _ => None,
            },
            r.0@ == restore_actions(
                old(self).panes(),
                splits(old(self).tree()),
                panes@,
                splits(final(self).tree()),
            ),
            r.1@.len() == panes@.len(),
            forall|i: int|
                0 <= i < panes@.len() ==> opt_string(#[trigger] r.1@[i]) == saved_pwds(*dump)[i],
    {
        let before: Vec<u32> = self.leaves();
        let mut out: Vec<PaneAction> = Vec::new();
        let mut i: usize = 0;
        while i < before.len()
            invariant
                i <= before@.len(),
                out@ == letting_go(before@.take(i as int)),
            decreases before@.len() - i,
        {
            assert(before@.take(i + 1).drop_last() =~= before@.take(i as int));
            let ghost was = out@;
            out.push(PaneAction::CloseNow(before[i]));
            out.push(PaneAction::Detach(before[i]));
            assert(out@ =~= was + seq![
                PaneAction::CloseNow(before@[i as int]),
                PaneAction::Detach(before@[i as int]),
            ]);
            i += 1;
        }
        assert(before@.take(i as int) =~= before@);
        let mut old_ids: Vec<u64> = Vec::new();
        collect_splits(&self.tree, &mut old_ids);
        assert(old_ids@ =~= splits(self.tree));
        add_removes(&mut out, &old_ids);
        let ghost s1 = out@;
        let (t, _end, next) = materialize(dump, panes, 0, self.next_id);
        assert(panes@.subrange(0, panes@.len() as int) =~= panes@);
        let mut new_ids: Vec<u64> = Vec::new();
        collect_splits(&t, &mut new_ids);
        assert(new_ids@ =~= splits(t));
        let mut k: usize = 0;
        assert(s1 + adds(new_ids@.take(0)) =~= s1);
        while k < new_ids.len()
            invariant
                k <= new_ids@.len(),
                out@ == s1 + adds(new_ids@.take(k as int)),
            decreases new_ids@.len() - k,
        {
            out.push(PaneAction::AddDivider(new_ids[k]));
            k += 1;
            assert(out@ =~= s1 + adds(new_ids@.take(k as int)));
        }
        assert(new_ids@.take(k as int) =~= new_ids@);
        out.push(PaneAction::Relayout);
        let ghost s2 = out@;
        proof {
            lemma_leaves(t);
        }
        let n: usize = panes.len();
        let mut j: usize = 0;
        assert(s2 + attaches(panes@, 0) =~= s2);
        while j < n
            invariant
                j <= n == panes@.len(),
                0 < n,
                out@ == s2 + attaches(panes@, j as nat),
            decreases n - j,
        {
            out.push(
                PaneAction::Attach {
                    pane: panes[j],
                    beside: if j == 0 {
                        None
                    } else {
                        Some(panes[0])
                    },
                },
            );
            j += 1;
            assert(out@ =~= s2 + attaches(panes@, j as nat));
        }
        self.tree = t;
        self.next_id = next;
        self.focused = match self.focused {
            Some(f) => if node_contains(&self.tree, f) {
                Some(f)
            } else {
                None
            },
            None => None,
        };
        let mut pwds: Vec<Option<String>> = Vec::new();
        collect_pwds(dump, &mut pwds);
        proof {
            let views = pwds@.map_values(|p: Option<String>| opt_string(p));
            assert(views =~= saved_pwds(*dump));
            assert forall|i: int| 0 <= i < panes@.len() implies opt_string(#[trigger] pwds@[i])
                == saved_pwds(*dump)[i] by {
                assert(views[i] == opt_string(pwds@[i]));
            }
        }
        (out, pwds)
    }
}

/// Let go of the terminals and the views of all the panes, one after the other.
pub open spec fn letting_go(s: Seq<u32>) -> Seq<PaneAction>
    decreases s.len(),
{
    if s.len() == 0 {
        Seq::empty()
    } else {
        letting_go(s.drop_last()) + seq![
            PaneAction::CloseNow(s.last()),
            PaneAction::Detach(s.last()),
        ]
    }
}

/// Put dividers for all the splits in, in order.
pub open spec fn adds(s: Seq<u64>) -> Seq<PaneAction> {
    s.map_values(|i: u64| PaneAction::AddDivider(i))
}

/// Start the terminals of the first `n` panes, each but the first beside the first.
pub open spec fn attaches(s: Seq<u32>, n: nat) -> Seq<PaneAction> {
    Seq::new(
        n,
        |i: int|
            PaneAction::Attach {
                pane: s[i],
                beside: if i == 0 {
                    None
                } else {
                    Some(s[0])
                },
            },
    )
}

/// What replacing the panes of a window asks for.
pub open spec fn restore_actions(
    before: Seq<u32>,
    old_splits: Seq<u64>,
    panes: Seq<u32>,
    new_splits: Seq<u64>,
) -> Seq<PaneAction> {
    (letting_go(before) + removes(old_splits) + adds(new_splits)).push(PaneAction::Relayout)
        + attaches(panes, panes.len())
}

proof fn lemma_cycle_step(i: int, n: int)
    requires
        0 <= i < n,
        n >= 2,
    ensures
        cycled(n, Some(i), 1) == if i + 1 == n {
            0
        } else {
            i + 1
        },
        cycled(n, Some(i), -1) == if i == 0 {
            n - 1
        } else {
            i - 1
        },
{
    if i + 1 == n {
        assert((i + 1) % n == 0) by (nonlinear_arith)
            requires
                i + 1 == n,
                n >= 2,
        ;
    } else {
        assert((i + 1) % n == i + 1) by (nonlinear_arith)
            requires
                0 <= i,
                i + 1 < n,
        ;
    }
    if i == 0 {
        assert((i + n - 1) % n == n - 1) by (nonlinear_arith)
            requires
                i == 0,
                n >= 2,
        ;
    } else {
        assert((i + n - 1) % n == i - 1) by (nonlinear_arith)
            requires
                0 < i < n,
        ;
    }
}

/// Going on to the next pane and back again ends where it began, and so does the other way round.
pub proof fn lemma_cycle_round_trip(n: int, i: int)
    requires
        n >= 2,
        0 <= i < n,
    ensures
        cycled(n, Some(cycled(n, Some(i), 1)), -1) == i,
        cycled(n, Some(cycled(n, Some(i), -1)), 1) == i,
{
    lemma_cycle_step(i, n);
    lemma_cycle_step(cycled(n, Some(i), 1), n);
    lemma_cycle_step(cycled(n, Some(i), -1), n);
}

proof fn lemma_insert_distinct(t: Node, target: u32, new: u32, dir: Dir, id: u64, before: bool)
    requires
        leaves(t).no_duplicates(),
        holds(t, target),
        !holds(t, new),
    ensures
        leaves(inserted(t, target, new, dir, id, before)).no_duplicates(),
        holds(inserted(t, target, new, dir, id, before), new),
{
    lemma_inserted_leaves(t, target, new, dir, id, before);
    lemma_leaves(t);
    let m = inserted(t, target, new, dir, id, before);
    lemma_leaves(m);
    let s = leaves(t);
    let i = choose|i: int|
        0 <= i < s.len() && #[trigger] s[i] == target && leaves(m) == s.insert(
            if before {
                i
            } else {
                i + 1
            },
            new,
        );
    let k = if before {
        i
    } else {
        i + 1
    };
    let all = s.insert(k, new);
    assert(all[k] == new);
    assert(leaves(m).contains(new));
    assert(!s.contains(new));
    assert forall|a: int, b: int| 0 <= a < all.len() && 0 <= b < all.len() && a != b implies all[a]
        != all[b] by {
        let oa = if a < k { a } else { a - 1 };
        let ob = if b < k { b } else { b - 1 };
        if a != k {
            assert(all[a] == s[oa]);
            assert(s.contains(s[oa]));
        }
        if b != k {
            assert(all[b] == s[ob]);
            assert(s.contains(s[ob]));
        }
    }
}

proof fn lemma_inserted_splits(t: Node, target: u32, new: u32, dir: Dir, id: u64, before: bool)
    ensures
        forall|i: int|
            0 <= i < splits(inserted(t, target, new, dir, id, before)).len() ==> (
            #[trigger] splits(inserted(t, target, new, dir, id, before))[i]) == id || splits(
                t,
            ).contains(splits(inserted(t, target, new, dir, id, before))[i]),
    decreases t,
{
    let m = inserted(t, target, new, dir, id, before);
    match t {
        Node::Leaf(p) => {
            assert(splits(Node::Leaf(new)) =~= Seq::<u64>::empty());
            assert(splits(Node::Leaf(p)) =~= Seq::<u64>::empty());
            if p == target {
                assert(splits(m) =~= seq![id]);
            }
        },
        Node::Split { id: own, first, second, .. } => {
            lemma_inserted_splits(*first, target, new, dir, id, before);
            lemma_inserted_splits(*second, target, new, dir, id, before);
            let a = splits(*first);
            let b = splits(*second);
            let all = splits(t);
            assert(all == seq![own] + a + b);
            let a2 = if holds(*first, target) {
                splits(inserted(*first, target, new, dir, id, before))
            } else {
                a
            };
            let b2 = if holds(*first, target) {
                b
            } else {
                splits(inserted(*second, target, new, dir, id, before))
            };
            assert(splits(m) == seq![own] + a2 + b2);
            assert forall|i: int| 0 <= i < splits(m).len() implies (#[trigger] splits(m)[i]) == id
                || all.contains(splits(m)[i]) by {
                if i == 0 {
                    assert(all[0] == own);
                } else if i <= a2.len() {
                    let x = a2[i - 1];
                    assert(splits(m)[i] == x);
                    if x != id {
                        if holds(*first, target) {
                            assert(a.contains(x));
                        } else {
                            assert(a[i - 1] == x);
                        }
                        let j = choose|j: int| 0 <= j < a.len() && a[j] == x;
                        assert(all[j + 1] == x);
                    }
                } else {
                    let x = b2[i - 1 - a2.len()];
                    assert(splits(m)[i] == x);
                    if x != id {
                        if holds(*first, target) {
                            assert(b[i - 1 - a2.len()] == x);
                        } else {
                            assert(b.contains(x));
                        }
                        let j = choose|j: int| 0 <= j < b.len() && b[j] == x;
                        assert(all[j + 1 + a.len()] == x);
                    }
                }
            }
        },
    }
}

proof fn lemma_removed_splits(t: Node, pane: u32)
    ensures
        removed(t, pane) matches Some(m) ==> forall|i: int|
            0 <= i < splits(m).len() ==> splits(t).contains(#[trigger] splits(m)[i]),
    decreases t,
{
    if let Node::Split { id, first, second, .. } = t {
        lemma_removed_splits(*first, pane);
        lemma_removed_splits(*second, pane);
        let a = splits(*first);
        let b = splits(*second);
        let all = splits(t);
        assert(all == seq![id] + a + b);
        assert forall|x: u64| a.contains(x) || b.contains(x) || x == id implies #[trigger] all.contains(
            x,
        ) by {
            if x == id {
                assert(all[0] == x);
            } else if a.contains(x) {
                let j = choose|j: int| 0 <= j < a.len() && a[j] == x;
                assert(all[j + 1] == x);
            } else {
                let j = choose|j: int| 0 <= j < b.len() && b[j] == x;
                assert(all[j + 1 + a.len()] == x);
            }
        }
        let m = removed(t, pane)->0;
        let c = splits(m);
        match (removed(*first, pane), removed(*second, pane)) {
            (None, _) => {
                assert forall|i: int| 0 <= i < c.len() implies all.contains(#[trigger] c[i]) by {
                    assert(b.contains(c[i]));
                }
            },
            (Some(f), None) => {
                assert forall|i: int| 0 <= i < c.len() implies all.contains(#[trigger] c[i]) by {
                    assert(a.contains(splits(f)[i]));
                }
            },
            (Some(f), Some(s)) => {
                let a2 = splits(f);
                let b2 = splits(s);
                assert(c == seq![id] + a2 + b2);
                assert forall|i: int| 0 <= i < c.len() implies all.contains(#[trigger] c[i]) by {
                    if i == 0 {
                    } else if i <= a2.len() {
                        assert(a.contains(a2[i - 1]));
                    } else {
                        assert(b.contains(b2[i - 1 - a2.len()]));
                    }
                }
            },
        }
    }
}

proof fn lemma_removed_holds(t: Node, pane: u32)
    requires
        leaves(t).no_duplicates(),
    ensures
        removed(t, pane) matches Some(m) ==> forall|p: u32|
            #![trigger holds(m, p)]
            holds(m, p) <==> holds(t, p) && p != pane,
{
    if let Some(m) = removed(t, pane) {
        lemma_removed_leaves(t, pane);
        lemma_leaves(t);
        lemma_leaves(m);
        lemma_without_members(leaves(t), pane);
        assert forall|p: u32| #![trigger holds(m, p)] holds(m, p) <==> holds(t, p) && p != pane by {
            assert(holds(t, p) <==> leaves(t).contains(p));
            assert(without(leaves(t), pane).contains(p) <==> leaves(t).contains(p) && p != pane);
        }
    }
}

proof fn lemma_without_members(s: Seq<u32>, pane: u32)
    ensures
        forall|p: u32| #[trigger]
            without(s, pane).contains(p) <==> s.contains(p) && p != pane,
    decreases s.len(),
{
    if s.len() > 0 {
        let init = s.drop_last();
        lemma_without_members(init, pane);
        let w = without(init, pane);
        let all = without(s, pane);
        assert forall|p: u32| #[trigger] all.contains(p) <==> s.contains(p) && p != pane by {
            assert(w.contains(p) <==> init.contains(p) && p != pane);
            if s.contains(p) {
                let k = choose|k: int| 0 <= k < s.len() && s[k] == p;
                if k < init.len() {
                    assert(init[k] == p);
                }
            }
            if init.contains(p) {
                let k = choose|k: int| 0 <= k < init.len() && init[k] == p;
                assert(s[k] == p);
            }
            if w.contains(p) {
                let k = choose|k: int| 0 <= k < w.len() && w[k] == p;
                assert(all[k] == p);
            }
            if all.contains(p) {
                let k = choose|k: int| 0 <= k < all.len() && all[k] == p;
                if k < w.len() {
                    assert(w[k] == p);
                }
            }
            if s.last() != pane {
                assert(all[all.len() - 1] == s.last());
            }
            assert(s[s.len() - 1] == s.last());
        }
    }
}

proof fn lemma_without_distinct(s: Seq<u32>, pane: u32)
    requires
        s.no_duplicates(),
    ensures
        without(s, pane).no_duplicates(),
    decreases s.len(),
{
    if s.len() > 0 {
        let init = s.drop_last();
        assert forall|i: int, j: int| 0 <= i < init.len() && 0 <= j < init.len() && i != j implies init[i]
            != init[j] by {
            assert(s[i] == init[i] && s[j] == init[j]);
        }
        lemma_without_distinct(init, pane);
        lemma_without_members(init, pane);
        let w = without(init, pane);
        if s.last() != pane {
            let all = w.push(s.last());
            assert(!w.contains(s.last())) by {
                if w.contains(s.last()) {
                    assert(init.contains(s.last()));
                    let k = choose|k: int| 0 <= k < init.len() && init[k] == s.last();
                    assert(s[k] == s[s.len() - 1]);
                }
            }
            assert forall|i: int, j: int| 0 <= i < all.len() && 0 <= j < all.len() && i != j implies all[i]
                != all[j] by {
                if i < w.len() {
                    assert(w.contains(w[i]));
                }
                if j < w.len() {
                    assert(w.contains(w[j]));
                }
            }
        }
    }
}

proof fn lemma_ratios_keep_splits(t: Node, split: u64, share: u64)
    ensures
        splits(with_ratio(t, split, share)) == splits(t),
        splits(with_all_ratios(t, share)) == splits(t),
    decreases t,
{
    if let Node::Split { first, second, .. } = t {
        lemma_ratios_keep_splits(*first, split, share);
        lemma_ratios_keep_splits(*second, split, share);
    }
}

/// Pressing the zoom key twice in a window of several panes leaves no pane zoomed, whichever pane
/// has the keyboard at the second time. (The tree is never touched by it.)
pub proof fn lemma_toggle_twice(n: int, target: u32, later: u32)
    requires
        n >= 2,
    ensures
        zoom_after(n, None, target) == Some(target),
        zoom_after(n, zoom_after(n, None, target), later) is None,
{
}

/// `s` as it stands inside a JSON string: quotes and backslashes escaped, control characters turned
/// into spaces.
pub open spec fn json_escaped(s: Seq<char>) -> Seq<char>
    decreases s.len(),
{
    if s.len() == 0 {
        Seq::empty()
    } else {
        let c = s.last();
        json_escaped(s.drop_last()) + if c == '"' {
            seq!['\\', '"']
        } else if c == '\\' {
            seq!['\\', '\\']
        } else if (c as u32) < 0x20 {
            seq![' ']
        } else {
            seq![c]
        }
    }
}

/// `s` as it stands inside a JSON string.
pub fn json_escape(s: &str) -> (out: String)
    ensures
        out@ == json_escaped(s@),
{
    let v: Vec<char> = chars_of(s);
    let mut out: String = String::new();
    let mut i: usize = 0;
    assert(v@.take(0) =~= Seq::<char>::empty());
    while i < v.len()
        invariant
            i <= v@.len(),
            out@ == json_escaped(v@.take(i as int)),
        decreases v@.len() - i,
    {
        assert(v@.take(i + 1).drop_last() =~= v@.take(i as int));
        let ghost was = out@;
        let c: char = v[i];
        if c == '"' {
            out.push('\\');
            out.push('"');
            assert(out@ =~= was + seq!['\\', '"']);
        } else if c == '\\' {
            out.push('\\');
            out.push('\\');
            assert(out@ =~= was + seq!['\\', '\\']);
        } else if (c as u32) < 0x20 {
            out.push(' ');
            assert(out@ =~= was + seq![' ']);
        } else {
            out.push(c);
            assert(out@ =~= was + seq![c]);
        }
        i += 1;
    }
    assert(v@.take(i as int) =~= v@);
    out
}

/// What is told of a pane when the layout is written out. The lengths are decimal texts.
#[derive(Clone, Debug, PartialEq)]
pub struct LeafReport {
    pub pane: u32,
    pub hidden: bool,
    pub x: String,
    pub y: String,
    pub w: String,
    pub h: String,
    pub cols: u32,
    pub rows: u32,
    /// The last line of text.
    pub last: String,
}

/// What is told of the window when the layout is written out. The lengths are decimal texts.
#[derive(Clone, Debug, PartialEq)]
pub struct WindowReport {
    pub zoomed: bool,
    pub fullscreen: bool,
    pub x: String,
    pub y: String,
    pub w: String,
    pub h: String,
}

/// `true` or `false`.
pub open spec fn bool_text(b: bool) -> Seq<char> {
    if b {
        "true"@
    } else {
        "false"@
    }
}

fn bool_str(b: bool) -> (s: &'static str)
    ensures
        s@ == bool_text(b),
{
    if b {
        "true"
    } else {
        "false"
    }
}

/// The place and size members of a JSON object.
pub open spec fn frame_json(x: Seq<char>, y: Seq<char>, w: Seq<char>, h: Seq<char>) -> Seq<char> {
    ",\"x\":"@ + x + ",\"y\":"@ + y + ",\"w\":"@ + w + ",\"h\":"@ + h
}

/// One pane as a JSON object.
pub open spec fn leaf_json(l: LeafReport) -> Seq<char> {
    "{\"pane\":"@ + decimal(l.pane as nat) + ",\"hidden\":"@ + bool_text(l.hidden) + frame_json(
        l.x@,
        l.y@,
        l.w@,
        l.h@,
    ) + ",\"cols\":"@ + decimal(l.cols as nat) + ",\"rows\":"@ + decimal(l.rows as nat)
        + ",\"last\":\""@ + json_escaped(l.last@) + "\"}"@
}

/// The panes as the members of a JSON array.
pub open spec fn leaves_json(s: Seq<LeafReport>) -> Seq<char>
    decreases s.len(),
{
    if s.len() == 0 {
        Seq::empty()
    } else if s.len() == 1 {
        leaf_json(s[0])
    } else {
        leaves_json(s.drop_last()) + ","@ + leaf_json(s.last())
    }
}

/// The window as the last member of a JSON object.
pub open spec fn window_json(w: WindowReport) -> Seq<char> {
    ",\"window\":{\"zoomed\":"@ + bool_text(w.zoomed) + ",\"fullscreen\":"@ + bool_text(
        w.fullscreen,
    ) + frame_json(w.x@, w.y@, w.w@, w.h@) + "}"@
}

/// The layout as a JSON object.
pub open spec fn layout_json(
    zoomed: Option<u32>,
    panes: Seq<LeafReport>,
    window: Option<WindowReport>,
) -> Seq<char> {
    "{\"zoomed\":"@ + bool_text(zoomed is Some) + ",\"zoomed_pane\":"@ + (match zoomed {
        Some(p) => decimal(p as nat),
        None => "null"@,
    }) + ",\"leaves\":["@ + leaves_json(panes) + "]"@ + (match window {
        Some(w) => window_json(w),
        None => Seq::empty(),
    }) + "}"@
}

fn frame_text(out: String, x: &str, y: &str, w: &str, h: &str) -> (r: String)
    ensures
        r@ == out@ + frame_json(x@, y@, w@, h@),
{
    let r: String = out.concat(",\"x\":").concat(x).concat(",\"y\":").concat(y).concat(
        ",\"w\":",
    ).concat(w).concat(",\"h\":").concat(h);
    assert(r@ =~= out@ + frame_json(x@, y@, w@, h@));
    r
}

fn leaf_text(out: String, l: &LeafReport) -> (r: String)
    ensures
        r@ == out@ + leaf_json(*l),
{
    let a: String = out.concat("{\"pane\":").concat(decimal_of(l.pane as u64).as_str()).concat(
        ",\"hidden\":",
    ).concat(bool_str(l.hidden));
    let b: String = frame_text(a, l.x.as_str(), l.y.as_str(), l.w.as_str(), l.h.as_str());
    let r: String = b.concat(",\"cols\":").concat(decimal_of(l.cols as u64).as_str()).concat(
        ",\"rows\":",
    ).concat(decimal_of(l.rows as u64).as_str()).concat(",\"last\":\"").concat(
        json_escape(l.last.as_str()).as_str(),
    ).concat("\"}");
    assert(r@ =~= out@ + leaf_json(*l));
    r
}

fn leaves_text(panes: &Vec<LeafReport>) -> (out: String)
    ensures
        out@ == leaves_json(panes@),
{
    let mut out: String = String::new();
    let mut i: usize = 0;
    while i < panes.len()
        invariant
            i <= panes@.len(),
            out@ == leaves_json(panes@.take(i as int)),
        decreases panes@.len() - i,
    {
        assert(panes@.take(i + 1).drop_last() =~= panes@.take(i as int));
        if i > 0 {
            out = out.concat(",");
        }
        let ghost before = out@;
        out = leaf_text(out, &panes[i]);
        assert(i == 0 ==> before + leaf_json(panes@[0]) =~= leaf_json(panes@[0]));
        i += 1;
    }
    assert(panes@.take(i as int) =~= panes@);
    out
}

fn window_text(w: &WindowReport) -> (out: String)
    ensures
        out@ == window_json(*w),
{
    let out: String = ",\"window\":{\"zoomed\":".to_owned().concat(bool_str(w.zoomed)).concat(
        ",\"fullscreen\":",
    ).concat(bool_str(w.fullscreen));
    frame_text(out, w.x.as_str(), w.y.as_str(), w.w.as_str(), w.h.as_str()).concat("}")
}

/// The layout as a JSON object: the zoomed pane, the panes and the window.
pub fn zoom_state_json(
    zoomed: Option<u32>,
    panes: &Vec<LeafReport>,
    window: &Option<WindowReport>,
) -> (out: String)
    ensures
        out@ == layout_json(zoomed, panes@, *window),
{
    let pane: String = match zoomed {
        Some(p) => decimal_of(p as u64),
        None => "null".to_owned(),
    };
    let tail: String = match window {
        Some(w) => window_text(w),
        None => String::new(),
    };
    "{\"zoomed\":".to_owned().concat(bool_str(zoomed.is_some())).concat(
        ",\"zoomed_pane\":",
    ).concat(pane.as_str()).concat(",\"leaves\":[").concat(leaves_text(panes).as_str()).concat(
        "]",
    ).concat(tail.as_str()).concat("}")
}

} // verus!
