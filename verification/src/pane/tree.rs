//! The tree of panes in a window: leaves are panes, inner nodes split their room in two.
//!
//! The share of a split's first side is carried as the bits of a floating-point number.

use vstd::prelude::*;
use vstd::string::*;
use crate::text::opt_string;

verus! {

/// How a split lays its sides out: side by side, or one above the other.
#[derive(Clone, Copy, Debug, PartialEq, Eq, Structural)]
pub enum Dir {
    Horizontal,
    Vertical,
}

/// One half, the share of a new split's first side.
pub const HALF: u64 = 0x3fe0_0000_0000_0000;

/// The least share of a split's first side: 0.15.
pub const RATIO_MIN: u64 = 0x3fc3_3333_3333_3333;

/// The greatest share of a split's first side: 0.85.
pub const RATIO_MAX: u64 = 0x3feb_3333_3333_3333;

/// The sign of a floating-point number among its bits.
pub const SIGN: u64 = 0x8000_0000_0000_0000;

/// The bits of the floating-point number that has no bounds; what lies above is no number.
pub const INFINITE: u64 = 0x7ff0_0000_0000_0000;

/// A share within its bounds: what is less than the least is that, and what is more than the greatest
/// is that. The bits of numbers without a sign stand in the order of the numbers, and a number with a
/// sign is less than any share. What is no number stays.
pub open spec fn in_bounds(share: u64) -> u64 {
    if share as int % SIGN as int > INFINITE {
        share
    } else if share >= SIGN || share < RATIO_MIN {
        RATIO_MIN
    } else if share > RATIO_MAX {
        RATIO_MAX
    } else {
        share
    }
}

/// A share within its bounds.
pub fn clamp_share(share: u64) -> (r: u64)
    ensures
        r == in_bounds(share),
{
    if share % SIGN > INFINITE {
        share
    } else if share >= SIGN || share < RATIO_MIN {
        RATIO_MIN
    } else if share > RATIO_MAX {
        RATIO_MAX
    } else {
        share
    }
}

/// A share that is within its bounds stays.
pub proof fn lemma_in_bounds(share: u64)
    ensures
        in_bounds(in_bounds(share)) == in_bounds(share),
        in_bounds(HALF) == HALF,
{
}

/// A tree of panes.
#[derive(Debug, PartialEq)]
pub enum Node {
    Leaf(u32),
    Split { dir: Dir, id: u64, ratio: u64, first: Box<Node>, second: Box<Node> },
}

/// A tree of panes as it is saved: the working directories stand in the leaves.
#[derive(Debug, PartialEq)]
pub enum LayoutNode {
    Leaf { pwd: Option<String> },
    Split { dir: String, ratio: u64, first: Box<LayoutNode>, second: Box<LayoutNode> },
}

/// A tree without the numbers of its panes and splits.
pub enum Shape {
    Leaf,
    Split { dir: Dir, ratio: u64, first: Box<Shape>, second: Box<Shape> },
}

/// One step of a walk over a tree, a split before its two sides.
#[derive(Clone, Copy, Debug, PartialEq, Eq, Structural)]
pub enum Step {
    /// The room is split; the first side follows, then the second.
    Split { id: u64, dir: Dir, ratio: u64 },
    /// The room goes to a pane.
    Leaf { pane: u32 },
}

/// The panes of a tree, first sides first.
pub open spec fn leaves(n: Node) -> Seq<u32>
    decreases n,
{
    match n {
        Node::Leaf(p) => seq![p],
        Node::Split { first, second, .. } => leaves(*first) + leaves(*second),
    }
}

/// The numbers of a tree's splits.
pub open spec fn splits(n: Node) -> Seq<u64>
    decreases n,
{
    match n {
        Node::Leaf(_) => Seq::empty(),
        Node::Split { id, first, second, .. } => seq![id] + splits(*first) + splits(*second),
    }
}

/// The tree holds the pane.
pub open spec fn holds(n: Node, pane: u32) -> bool
    decreases n,
{
    match n {
        Node::Leaf(p) => p == pane,
        Node::Split { first, second, .. } => holds(*first, pane) || holds(*second, pane),
    }
}

/// The tree with a new pane beside `target`, which shares its room with it half and half: before
/// it, that is left or above, or behind it.
pub open spec fn inserted(n: Node, target: u32, new: u32, dir: Dir, id: u64, before: bool) -> Node
    decreases n,
{
    match n {
        Node::Leaf(p) => if p != target {
            n
        } else if before {
            Node::Split {
                dir,
                id,
                ratio: HALF,
                first: Box::new(Node::Leaf(new)),
                second: Box::new(Node::Leaf(p)),
            }
        } else {
            Node::Split {
                dir,
                id,
                ratio: HALF,
                first: Box::new(Node::Leaf(p)),
                second: Box::new(Node::Leaf(new)),
            }
        },
        Node::Split { dir: d, id: i, ratio, first, second } => if holds(*first, target) {
            Node::Split {
                dir: d,
                id: i,
                ratio,
                first: Box::new(inserted(*first, target, new, dir, id, before)),
                second,
            }
        } else {
            Node::Split {
                dir: d,
                id: i,
                ratio,
                first,
                second: Box::new(inserted(*second, target, new, dir, id, before)),
            }
        },
    }
}

/// The tree without `target`: the other side takes the place of the split that held it. `None`
/// where the tree is that pane alone.
pub open spec fn removed(n: Node, target: u32) -> Option<Node>
    decreases n,
{
    match n {
        Node::Leaf(p) => if p == target {
            None
        } else {
            Some(n)
        },
        Node::Split { dir, id, ratio, first, second } => match removed(*first, target) {
            None => Some(*second),
            Some(f) => match removed(*second, target) {
                None => Some(f),
                Some(s) => Some(
                    Node::Split { dir, id, ratio, first: Box::new(f), second: Box::new(s) },
                ),
            },
        },
    }
}

/// The splits that go when `target` is removed.
pub open spec fn dropped(n: Node, target: u32) -> Seq<u64>
    decreases n,
{
    match n {
        Node::Leaf(_) => Seq::empty(),
        Node::Split { id, first, second, .. } => match removed(*first, target) {
            None => dropped(*first, target).push(id),
            Some(_) => match removed(*second, target) {
                None => (dropped(*first, target) + dropped(*second, target)).push(id),
                Some(_) => dropped(*first, target) + dropped(*second, target),
            },
        },
    }
}

/// The tree with another share for one split.
pub open spec fn with_ratio(n: Node, split: u64, share: u64) -> Node
    decreases n,
{
    match n {
        Node::Leaf(_) => n,
        Node::Split { dir, id, ratio, first, second } => if id == split {
            Node::Split { dir, id, ratio: share, first, second }
        } else if splits(*first).contains(split) {
            Node::Split {
                dir,
                id,
                ratio,
                first: Box::new(with_ratio(*first, split, share)),
                second,
            }
        } else {
            Node::Split {
                dir,
                id,
                ratio,
                first,
                second: Box::new(with_ratio(*second, split, share)),
            }
        },
    }
}

/// The tree with the same share for all splits.
pub open spec fn with_all_ratios(n: Node, share: u64) -> Node
    decreases n,
{
    match n {
        Node::Leaf(_) => n,
        Node::Split { dir, id, first, second, .. } => Node::Split {
            dir,
            id,
            ratio: share,
            first: Box::new(with_all_ratios(*first, share)),
            second: Box::new(with_all_ratios(*second, share)),
        },
    }
}

/// The innermost split of direction `dir` around `target`: its number and its share.
pub open spec fn nearest_split(n: Node, target: u32, dir: Dir) -> Option<(u64, u64)>
    decreases n,
{
    match n {
        Node::Leaf(_) => None,
        Node::Split { dir: d, id, ratio, first, second } => {
            let inner = if holds(*first, target) {
                nearest_split(*first, target, dir)
            } else {
                nearest_split(*second, target, dir)
            };
            if !holds(n, target) {
                None
            } else if inner is Some {
                inner
            } else if d == dir {
                Some((id, ratio))
            } else {
                None
            }
        },
    }
}

/// The walk over a tree, a split before its two sides.
pub open spec fn walk(n: Node) -> Seq<Step>
    decreases n,
{
    match n {
        Node::Leaf(pane) => seq![Step::Leaf { pane }],
        Node::Split { dir, id, ratio, first, second } => seq![Step::Split { id, dir, ratio }]
            + walk(*first) + walk(*second),
    }
}

/// The shape of a tree.
pub open spec fn shape(n: Node) -> Shape
    decreases n,
{
    match n {
        Node::Leaf(_) => Shape::Leaf,
        Node::Split { dir, ratio, first, second, .. } => Shape::Split {
            dir,
            ratio,
            first: Box::new(shape(*first)),
            second: Box::new(shape(*second)),
        },
    }
}

/// The shape of a saved tree: any direction but `v` means side by side.
pub open spec fn saved_shape(d: LayoutNode) -> Shape
    decreases d,
{
    match d {
        LayoutNode::Leaf { .. } => Shape::Leaf,
        LayoutNode::Split { dir, ratio, first, second } => Shape::Split {
            dir: if dir@ == "v"@ {
                Dir::Vertical
            } else {
                Dir::Horizontal
            },
            ratio,
            first: Box::new(saved_shape(*first)),
            second: Box::new(saved_shape(*second)),
        },
    }
}

/// The shape with every share within its bounds.
pub open spec fn bounded(s: Shape) -> Shape
    decreases s,
{
    match s {
        Shape::Leaf => Shape::Leaf,
        Shape::Split { dir, ratio, first, second } => Shape::Split {
            dir,
            ratio: in_bounds(ratio),
            first: Box::new(bounded(*first)),
            second: Box::new(bounded(*second)),
        },
    }
}

/// The shares of a tree's splits are within their bounds.
pub open spec fn is_bounded(n: Node) -> bool
    decreases n,
{
    match n {
        Node::Leaf(_) => true,
        Node::Split { ratio, first, second, .. } => in_bounds(ratio) == ratio && is_bounded(*first)
            && is_bounded(*second),
    }
}

/// Bounding the shares of a tree changes nothing where they are within their bounds.
pub proof fn lemma_bounded(n: Node)
    requires
        is_bounded(n),
    ensures
        bounded(shape(n)) == shape(n),
    decreases n,
{
    if let Node::Split { first, second, .. } = n {
        lemma_bounded(*first);
        lemma_bounded(*second);
    }
}

/// What is done to a tree keeps the shares within their bounds.
pub proof fn lemma_stays_bounded(n: Node, target: u32, new: u32, dir: Dir, id: u64, before: bool)
    requires
        is_bounded(n),
    ensures
        is_bounded(inserted(n, target, new, dir, id, before)),
        removed(n, target) matches Some(m) ==> is_bounded(m),
    decreases n,
{
    reveal_with_fuel(is_bounded, 2);
    lemma_in_bounds(HALF);
    if let Node::Split { first, second, .. } = n {
        lemma_stays_bounded(*first, target, new, dir, id, before);
        lemma_stays_bounded(*second, target, new, dir, id, before);
    }
}

/// Shares that are set are within their bounds afterwards.
pub proof fn lemma_set_is_bounded(n: Node, split: u64, share: u64)
    ensures
        is_bounded(n) ==> is_bounded(with_ratio(n, split, in_bounds(share))),
        is_bounded(with_all_ratios(n, HALF)),
    decreases n,
{
    lemma_in_bounds(share);
    if let Node::Split { first, second, .. } = n {
        lemma_set_is_bounded(*first, split, share);
        lemma_set_is_bounded(*second, split, share);
    }
}

/// The directions in a saved tree have the names that they are saved under.
pub open spec fn well_named(d: LayoutNode) -> bool
    decreases d,
{
    match d {
        LayoutNode::Leaf { .. } => true,
        LayoutNode::Split { dir, first, second, .. } => (dir@ == "h"@ || dir@ == "v"@) && well_named(
            *first,
        ) && well_named(*second),
    }
}

/// The number of panes in a shape.
pub open spec fn shape_leaves(s: Shape) -> nat
    decreases s,
{
    match s {
        Shape::Leaf => 1,
        Shape::Split { first, second, .. } => shape_leaves(*first) + shape_leaves(*second),
    }
}

proof fn lemma_shape_leaves(n: Node)
    ensures
        shape_leaves(shape(n)) == leaves(n).len(),
    decreases n,
{
    match n {
        Node::Leaf(_) => {},
        Node::Split { first, second, .. } => {
            lemma_shape_leaves(*first);
            lemma_shape_leaves(*second);
        },
    }
}

proof fn lemma_saved_leaves(d: LayoutNode)
    ensures
        shape_leaves(saved_shape(d)) == saved_pwds(d).len(),
    decreases d,
{
    match d {
        LayoutNode::Leaf { .. } => {},
        LayoutNode::Split { first, second, .. } => {
            lemma_saved_leaves(*first);
            lemma_saved_leaves(*second);
        },
    }
}

/// A layout that was saved comes back: the tree `m` that is made of what was saved of `n` has the
/// same splits in the same directions and shares, and as many panes; and each pane gets the working
/// directory of the one in its place.
pub proof fn lemma_layout_comes_back(n: Node, pwds: Seq<Option<String>>, d: LayoutNode, m: Node)
    requires
        is_bounded(n),
        saved_shape(d) == shape(n),
        saved_pwds(d) == Seq::new(leaves(n).len(), |i: int| pwd_at(pwds, i)),
        shape(m) == bounded(saved_shape(d)),
    ensures
        shape(m) == shape(n),
        leaves(m).len() == leaves(n).len(),
        saved_pwds(d).len() == leaves(m).len(),
        forall|i: int| 0 <= i < leaves(m).len() ==> #[trigger] saved_pwds(d)[i] == pwd_at(pwds, i),
{
    lemma_bounded(n);
    lemma_shape_leaves(n);
    lemma_shape_leaves(m);
    lemma_saved_leaves(d);
}

/// The working directories in a saved tree, first sides first.
pub open spec fn saved_pwds(d: LayoutNode) -> Seq<Option<Seq<char>>>
    decreases d,
{
    match d {
        LayoutNode::Leaf { pwd } => seq![opt_string(pwd)],
        LayoutNode::Split { first, second, .. } => saved_pwds(*first) + saved_pwds(*second),
    }
}

/// The working directory of the `i`-th pane.
pub open spec fn pwd_at(pwds: Seq<Option<String>>, i: int) -> Option<Seq<char>> {
    if 0 <= i < pwds.len() {
        opt_string(pwds[i])
    } else {
        None
    }
}

/// A tree has at least one pane, and holds exactly those among its leaves.
pub proof fn lemma_leaves(n: Node)
    ensures
        leaves(n).len() > 0,
        forall|p: u32| #[trigger] holds(n, p) <==> leaves(n).contains(p),
    decreases n,
{
    match n {
        Node::Leaf(q) => {
            assert forall|p: u32| #[trigger] holds(n, p) <==> leaves(n).contains(p) by {
                if p == q {
                    assert(leaves(n)[0] == p);
                }
            }
        },
        Node::Split { first, second, .. } => {
            lemma_leaves(*first);
            lemma_leaves(*second);
            let a = leaves(*first);
            let b = leaves(*second);
            assert forall|p: u32| #[trigger] holds(n, p) <==> leaves(n).contains(p) by {
                if a.contains(p) {
                    let i = choose|i: int| 0 <= i < a.len() && a[i] == p;
                    assert((a + b)[i] == p);
                }
                if b.contains(p) {
                    let i = choose|i: int| 0 <= i < b.len() && b[i] == p;
                    assert((a + b)[a.len() + i] == p);
                }
                if (a + b).contains(p) {
                    let i = choose|i: int| 0 <= i < (a + b).len() && (a + b)[i] == p;
                    if i < a.len() {
                        assert(a[i] == p);
                    } else {
                        assert(b[i - a.len()] == p);
                    }
                }
                assert(holds(n, p) == (holds(*first, p) || holds(*second, p)));
            }
        },
    }
}

/// Where a pane that is not in the tree is inserted beside one that is, the other panes keep their
/// order, and the new one stands right before or right behind its neighbour.
pub proof fn lemma_inserted_leaves(n: Node, target: u32, new: u32, dir: Dir, id: u64, before: bool)
    requires
        holds(n, target),
    ensures
        exists|i: int|
            0 <= i < leaves(n).len() && #[trigger] leaves(n)[i] == target && leaves(
                inserted(n, target, new, dir, id, before),
            ) == leaves(n).insert(
                if before {
                    i
                } else {
                    i + 1
                },
                new,
            ),
    decreases n,
{
    let m = inserted(n, target, new, dir, id, before);
    match n {
        Node::Leaf(p) => {
            assert(leaves(n)[0] == target);
            if before {
                let l = Node::Leaf(new);
                let r = Node::Leaf(p);
                assert(leaves(l) =~= seq![new]);
                assert(leaves(r) =~= seq![p]);
                assert(leaves(m) =~= leaves(n).insert(0, new));
            } else {
                let l = Node::Leaf(p);
                let r = Node::Leaf(new);
                assert(leaves(l) =~= seq![p]);
                assert(leaves(r) =~= seq![new]);
                assert(leaves(m) =~= leaves(n).insert(1, new));
            }
        },
        Node::Split { first, second, .. } => {
            let a = leaves(*first);
            let b = leaves(*second);
            if holds(*first, target) {
                lemma_inserted_leaves(*first, target, new, dir, id, before);
                let i = choose|i: int|
                    0 <= i < a.len() && #[trigger] a[i] == target && leaves(
                        inserted(*first, target, new, dir, id, before),
                    ) == a.insert(
                        if before {
                            i
                        } else {
                            i + 1
                        },
                        new,
                    );
                assert(leaves(n)[i] == target);
                let k = if before {
                    i
                } else {
                    i + 1
                };
                assert(leaves(m) == a.insert(k, new) + b);
                assert(a.insert(k, new) + b =~= leaves(n).insert(k, new));
            } else {
                lemma_inserted_leaves(*second, target, new, dir, id, before);
                let i = choose|i: int|
                    0 <= i < b.len() && #[trigger] b[i] == target && leaves(
                        inserted(*second, target, new, dir, id, before),
                    ) == b.insert(
                        if before {
                            i
                        } else {
                            i + 1
                        },
                        new,
                    );
                let j = a.len() + i;
                assert(leaves(n)[j] == target);
                let k = if before {
                    i
                } else {
                    i + 1
                };
                assert(leaves(m) == a + b.insert(k, new));
                assert(a + b.insert(k, new) =~= leaves(n).insert(a.len() + k, new));
            }
        },
    }
}

/// A pane that is not in the tree is removed from it without any change.
pub proof fn lemma_remove_absent(n: Node, target: u32)
    requires
        !holds(n, target),
    ensures
        removed(n, target) == Some(n),
        dropped(n, target) == Seq::<u64>::empty(),
    decreases n,
{
    if let Node::Split { first, second, .. } = n {
        lemma_remove_absent(*first, target);
        lemma_remove_absent(*second, target);
        assert(dropped(n, target) =~= Seq::<u64>::empty());
    }
}

/// Removing a pane that was just inserted gives the tree back as it was, and drops exactly the new
/// split.
pub proof fn lemma_remove_undoes_insert(
    n: Node,
    target: u32,
    new: u32,
    dir: Dir,
    id: u64,
    before: bool,
)
    requires
        holds(n, target),
        !holds(n, new),
    ensures
        removed(inserted(n, target, new, dir, id, before), new) == Some(n),
        dropped(inserted(n, target, new, dir, id, before), new) == seq![id],
    decreases n,
{
    let m = inserted(n, target, new, dir, id, before);
    match n {
        Node::Leaf(p) => {
            assert(removed(Node::Leaf(new), new) is None);
            assert(removed(Node::Leaf(p), new) == Some(n));
            assert(dropped(Node::Leaf(new), new) =~= Seq::<u64>::empty());
            assert(dropped(Node::Leaf(p), new) =~= Seq::<u64>::empty());
            assert(dropped(m, new) =~= seq![id]);
        },
        Node::Split { first, second, .. } => {
            if holds(*first, target) {
                lemma_remove_undoes_insert(*first, target, new, dir, id, before);
                lemma_remove_absent(*second, new);
            } else {
                lemma_remove_absent(*first, new);
                lemma_remove_undoes_insert(*second, target, new, dir, id, before);
            }
            assert(dropped(m, new) =~= seq![id]);
        },
    }
}

/// The panes without `target`, in their order.
pub open spec fn without(s: Seq<u32>, target: u32) -> Seq<u32>
    decreases s.len(),
{
    if s.len() == 0 {
        s
    } else if s.last() == target {
        without(s.drop_last(), target)
    } else {
        without(s.drop_last(), target).push(s.last())
    }
}

proof fn lemma_without_concat(a: Seq<u32>, b: Seq<u32>, target: u32)
    ensures
        without(a + b, target) == without(a, target) + without(b, target),
    decreases b.len(),
{
    if b.len() == 0 {
        assert(a + b =~= a);
        assert(without(a, target) + b =~= without(a, target));
    } else {
        assert((a + b).drop_last() =~= a + b.drop_last());
        lemma_without_concat(a, b.drop_last(), target);
        assert(without(a + b, target) =~= without(a, target) + without(b, target));
    }
}

proof fn lemma_without_absent(s: Seq<u32>, target: u32)
    requires
        !s.contains(target),
    ensures
        without(s, target) == s,
    decreases s.len(),
{
    if s.len() > 0 {
        assert(s[s.len() - 1] != target);
        assert forall|i: int| 0 <= i < s.drop_last().len() implies s.drop_last()[i] != target by {
            assert(s.drop_last()[i] == s[i]);
        }
        lemma_without_absent(s.drop_last(), target);
        assert(s.drop_last().push(s.last()) =~= s);
    }
}

proof fn lemma_without_alone(target: u32)
    ensures
        without(seq![target], target) == Seq::<u32>::empty(),
{
    assert(seq![target].drop_last() =~= Seq::<u32>::empty());
    assert(without(Seq::empty(), target) =~= Seq::<u32>::empty());
}

/// Removing a pane takes it out of the leaves and leaves the others in their order.
pub proof fn lemma_removed_leaves(n: Node, target: u32)
    requires
        leaves(n).no_duplicates(),
    ensures
        match removed(n, target) {
            Some(m) => leaves(m) == without(leaves(n), target),
            None => leaves(n) == seq![target],
        },
    decreases n,
{
    match n {
        Node::Leaf(p) => {
            if p != target {
                assert(!leaves(n).contains(target));
                lemma_without_absent(leaves(n), target);
            }
        },
        Node::Split { first, second, .. } => {
            let a = leaves(*first);
            let b = leaves(*second);
            lemma_parts_distinct(a, b);
            lemma_removed_leaves(*first, target);
            lemma_removed_leaves(*second, target);
            lemma_without_concat(a, b, target);
            if removed(*first, target) is None {
                assert(a[0] == target);
                assert(!b.contains(target));
                lemma_without_alone(target);
                lemma_without_absent(b, target);
                assert(Seq::<u32>::empty() + b =~= b);
            } else if removed(*second, target) is None {
                lemma_without_alone(target);
                assert(without(a, target) + Seq::<u32>::empty() =~= without(a, target));
            }
        },
    }
}

proof fn lemma_parts_distinct(a: Seq<u32>, b: Seq<u32>)
    requires
        (a + b).no_duplicates(),
    ensures
        a.no_duplicates(),
        b.no_duplicates(),
        forall|i: int| 0 <= i < a.len() ==> !b.contains(#[trigger] a[i]),
{
    let all = a + b;
    assert forall|i: int, j: int| 0 <= i < a.len() && 0 <= j < a.len() && i != j implies a[i] != a[j] by {
        assert(all[i] == a[i] && all[j] == a[j]);
    }
    assert forall|i: int, j: int| 0 <= i < b.len() && 0 <= j < b.len() && i != j implies b[i] != b[j] by {
        assert(all[a.len() + i] == b[i] && all[a.len() + j] == b[j]);
    }
    assert forall|i: int| 0 <= i < a.len() implies !b.contains(#[trigger] a[i]) by {
        if b.contains(a[i]) {
            let j = choose|j: int| 0 <= j < b.len() && b[j] == a[i];
            assert(all[i] == a[i] && all[a.len() + j] == b[j]);
        }
    }
}

/// Changing shares changes neither the panes nor their order.
pub proof fn lemma_ratios_keep_leaves(n: Node, split: u64, share: u64)
    ensures
        leaves(with_ratio(n, split, share)) == leaves(n),
        leaves(with_all_ratios(n, share)) == leaves(n),
    decreases n,
{
    if let Node::Split { first, second, .. } = n {
        lemma_ratios_keep_leaves(*first, split, share);
        lemma_ratios_keep_leaves(*second, split, share);
    }
}

/// The panes of a tree, first sides first.
pub fn collect_leaves(n: &Node, out: &mut Vec<u32>)
    ensures
        final(out)@ == old(out)@ + leaves(*n),
    decreases n,
{
    match n {
        Node::Leaf(p) => {
            out.push(*p);
            assert(out@ =~= old(out)@ + seq![*p]);
        },
        Node::Split { first, second, .. } => {
            collect_leaves(first, out);
            collect_leaves(second, out);
            assert(out@ =~= old(out)@ + (leaves(**first) + leaves(**second)));
        },
    }
}

/// The numbers of a tree's splits.
pub fn collect_splits(n: &Node, out: &mut Vec<u64>)
    ensures
        final(out)@ == old(out)@ + splits(*n),
    decreases n,
{
    match n {
        Node::Leaf(_) => {
            assert(out@ =~= old(out)@ + Seq::<u64>::empty());
        },
        Node::Split { id, first, second, .. } => {
            out.push(*id);
            collect_splits(first, out);
            collect_splits(second, out);
            assert(out@ =~= old(out)@ + (seq![*id] + splits(**first) + splits(**second)));
        },
    }
}

/// Whether the tree holds a pane.
pub fn node_contains(n: &Node, pane: u32) -> (r: bool)
    ensures
        r == holds(*n, pane),
    decreases n,
{
    match n {
        Node::Leaf(p) => *p == pane,
        Node::Split { first, second, .. } => node_contains(first, pane) || node_contains(
            second,
            pane,
        ),
    }
}

/// Puts a new pane beside `target`; the result tells whether `target` was found.
pub fn insert_beside(n: Node, target: u32, new: u32, dir: Dir, id: u64, before: bool) -> (r: (
    Node,
    bool,
))
    ensures
        r.1 == holds(n, target),
        r.0 == inserted(n, target, new, dir, id, before),
        !r.1 ==> r.0 == n,
    decreases n,
{
    match n {
        Node::Leaf(p) => if p != target {
            (Node::Leaf(p), false)
        } else if before {
            (
                Node::Split {
                    dir,
                    id,
                    ratio: HALF,
                    first: Box::new(Node::Leaf(new)),
                    second: Box::new(Node::Leaf(p)),
                },
                true,
            )
        } else {
            (
                Node::Split {
                    dir,
                    id,
                    ratio: HALF,
                    first: Box::new(Node::Leaf(p)),
                    second: Box::new(Node::Leaf(new)),
                },
                true,
            )
        },
        Node::Split { dir: d, id: i, ratio, first, second } => {
            let (f, found) = insert_beside(*first, target, new, dir, id, before);
            if found {
                (Node::Split { dir: d, id: i, ratio, first: Box::new(f), second }, true)
            } else {
                let (s, found) = insert_beside(*second, target, new, dir, id, before);
                (
                    Node::Split { dir: d, id: i, ratio, first: Box::new(f), second: Box::new(s) },
                    found,
                )
            }
        },
    }
}

/// Takes `target` out of the tree; the numbers of the splits that go are added to `gone`.
pub fn remove_leaf(n: Node, target: u32, gone: &mut Vec<u64>) -> (r: Option<Node>)
    ensures
        r == removed(n, target),
        final(gone)@ == old(gone)@ + dropped(n, target),
    decreases n,
{
    match n {
        Node::Leaf(p) => {
            assert(gone@ =~= old(gone)@ + Seq::<u64>::empty());
            if p == target {
                None
            } else {
                Some(Node::Leaf(p))
            }
        },
        Node::Split { dir, id, ratio, first, second } => {
            let ghost before = gone@;
            let ghost a = dropped(*first, target);
            let ghost b = dropped(*second, target);
            match remove_leaf(*first, target, gone) {
                None => {
                    gone.push(id);
                    assert(gone@ =~= before + a.push(id));
                    Some(*second)
                },
                Some(f) => match remove_leaf(*second, target, gone) {
                    None => {
                        gone.push(id);
                        assert(gone@ =~= before + (a + b).push(id));
                        Some(f)
                    },
                    Some(s) => {
                        assert(gone@ =~= before + (a + b));
                        Some(
                            Node::Split { dir, id, ratio, first: Box::new(f), second: Box::new(s) },
                        )
                    },
                },
            }
        },
    }
}

/// Gives one split another share; the result tells whether it was found.
pub fn set_node_ratio(n: Node, split: u64, share: u64) -> (r: (Node, bool))
    ensures
        r.0 == with_ratio(n, split, share),
        r.1 == splits(n).contains(split),
        !r.1 ==> r.0 == n,
    decreases n,
{
    match n {
        Node::Leaf(p) => (Node::Leaf(p), false),
        Node::Split { dir, id, ratio, first, second } => {
            let ghost a = splits(*first);
            let ghost b = splits(*second);
            proof {
                lemma_contains3(id, a, b, split);
            }
            if id == split {
                (Node::Split { dir, id, ratio: share, first, second }, true)
            } else {
                let (f, found) = set_node_ratio(*first, split, share);
                if found {
                    (Node::Split { dir, id, ratio, first: Box::new(f), second }, true)
                } else {
                    let (s, found) = set_node_ratio(*second, split, share);
                    (
                        Node::Split { dir, id, ratio, first: Box::new(f), second: Box::new(s) },
                        found,
                    )
                }
            }
        },
    }
}

proof fn lemma_contains3(id: u64, a: Seq<u64>, b: Seq<u64>, x: u64)
    ensures
        (seq![id] + a + b).contains(x) <==> id == x || a.contains(x) || b.contains(x),
{
    let all = seq![id] + a + b;
    if id == x {
        assert(all[0] == x);
    }
    if a.contains(x) {
        let i = choose|i: int| 0 <= i < a.len() && a[i] == x;
        assert(all[i + 1] == x);
    }
    if b.contains(x) {
        let i = choose|i: int| 0 <= i < b.len() && b[i] == x;
        assert(all[i + 1 + a.len()] == x);
    }
    if all.contains(x) {
        let i = choose|i: int| 0 <= i < all.len() && all[i] == x;
        if i == 0 {
        } else if i <= a.len() {
            assert(a[i - 1] == x);
        } else {
            assert(b[i - 1 - a.len()] == x);
        }
    }
}

/// Gives all splits the same share.
pub fn set_all_ratios(n: Node, share: u64) -> (r: Node)
    ensures
        r == with_all_ratios(n, share),
    decreases n,
{
    match n {
        Node::Leaf(p) => Node::Leaf(p),
        Node::Split { dir, id, first, second, .. } => {
            let f: Node = set_all_ratios(*first, share);
            let s: Node = set_all_ratios(*second, share);
            Node::Split { dir, id, ratio: share, first: Box::new(f), second: Box::new(s) }
        },
    }
}

/// The innermost split of direction `dir` around `target`: its number and its share.
pub fn find_ancestor_split(n: &Node, target: u32, dir: Dir) -> (r: Option<(u64, u64)>)
    ensures
        r == nearest_split(*n, target, dir),
    decreases n,
{
    match n {
        Node::Leaf(_) => None,
        Node::Split { dir: d, id, ratio, first, second } => {
            let in_first: bool = node_contains(first, target);
            if !in_first && !node_contains(second, target) {
                return None;
            }
            let inner: Option<(u64, u64)> = if in_first {
                find_ancestor_split(first, target, dir)
            } else {
                find_ancestor_split(second, target, dir)
            };
            if inner.is_some() {
                return inner;
            }
            if *d == dir {
                Some((*id, *ratio))
            } else {
                None
            }
        },
    }
}

/// The walk over a tree, a split before its two sides.
pub fn layout_node(n: &Node, out: &mut Vec<Step>)
    ensures
        final(out)@ == old(out)@ + walk(*n),
    decreases n,
{
    match n {
        Node::Leaf(p) => {
            out.push(Step::Leaf { pane: *p });
            assert(out@ =~= old(out)@ + seq![Step::Leaf { pane: *p }]);
        },
        Node::Split { dir, id, ratio, first, second } => {
            out.push(Step::Split { id: *id, dir: *dir, ratio: *ratio });
            layout_node(first, out);
            layout_node(second, out);
            assert(out@ =~= old(out)@ + walk(*n));
        },
    }
}

/// A tree as it is saved. `pwds` holds the working directories of the panes, first sides first;
/// `from` is the position of this tree's first pane among them. The result's second part is the
/// position behind its last one.
pub fn dump_node(n: &Node, pwds: &Vec<Option<String>>, from: usize) -> (r: (LayoutNode, usize))
    requires
        from + leaves(*n).len() <= usize::MAX,
    ensures
        saved_shape(r.0) == shape(*n),
        well_named(r.0),
        r.1 == from + leaves(*n).len(),
        saved_pwds(r.0) == Seq::new(leaves(*n).len(), |i: int| pwd_at(pwds@, from + i)),
    decreases n,
{
    match n {
        Node::Leaf(_) => {
            let pwd: Option<String> = if from < pwds.len() {
                pwds[from].clone()
            } else {
                None
            };
            let d: LayoutNode = LayoutNode::Leaf { pwd };
            assert(saved_pwds(d) =~= Seq::new(1, |i: int| pwd_at(pwds@, from + i)));
            (d, from + 1)
        },
        Node::Split { dir, ratio, first, second, .. } => {
            let (f, mid) = dump_node(first, pwds, from);
            let (s, end) = dump_node(second, pwds, mid);
            let dir_name: String = match dir {
                Dir::Horizontal => "h".to_owned(),
                Dir::Vertical => "v".to_owned(),
            };
            proof {
                reveal_strlit("h");
                reveal_strlit("v");
                assert("h"@[0] != "v"@[0]);
            }
            let d: LayoutNode = LayoutNode::Split {
                dir: dir_name,
                ratio: *ratio,
                first: Box::new(f),
                second: Box::new(s),
            };
            assert(saved_pwds(d) =~= Seq::new(leaves(*n).len(), |i: int| pwd_at(pwds@, from + i)));
            (d, end)
        },
    }
}

/// The working directories in a saved tree, first sides first.
pub fn collect_pwds(d: &LayoutNode, out: &mut Vec<Option<String>>)
    ensures
        final(out)@.map_values(|p: Option<String>| opt_string(p)) == old(out)@.map_values(
            |p: Option<String>| opt_string(p),
        ) + saved_pwds(*d),
    decreases d,
{
    let ghost view = |p: Option<String>| opt_string(p);
    match d {
        LayoutNode::Leaf { pwd } => {
            let p: Option<String> = pwd.clone();
            out.push(p);
            assert(out@.map_values(view) =~= old(out)@.map_values(view) + seq![opt_string(p)]);
        },
        LayoutNode::Split { first, second, .. } => {
            collect_pwds(first, out);
            collect_pwds(second, out);
            assert(out@.map_values(view) =~= old(out)@.map_values(view) + (saved_pwds(**first)
                + saved_pwds(**second)));
        },
    }
}

/// The numbers from `from` on, as many as asked for.
pub open spec fn numbers(from: int, n: nat) -> Seq<u64> {
    Seq::new(n, |i: int| (from + i) as u64)
}

/// The number of splits in a saved tree.
pub open spec fn split_count(d: LayoutNode) -> nat
    decreases d,
{
    match d {
        LayoutNode::Leaf { .. } => 0,
        LayoutNode::Split { first, second, .. } => 1 + split_count(*first) + split_count(*second),
    }
}

/// The number of panes in a saved tree.
pub fn leaf_count_of(d: &LayoutNode) -> (n: usize)
    requires
        saved_pwds(*d).len() <= usize::MAX,
    ensures
        n == saved_pwds(*d).len(),
    decreases d,
{
    match d {
        LayoutNode::Leaf { .. } => 1,
        LayoutNode::Split { first, second, .. } => {
            let f: usize = leaf_count_of(first);
            let s: usize = leaf_count_of(second);
            f + s
        },
    }
}

/// A tree of the saved shape, its shares within their bounds. Its panes are those of `panes` from `from` on, first sides first; its
/// splits are numbered from `next` on, a split before its two sides. The result's other parts are
/// the position behind the last pane and the next free number.
pub fn materialize(d: &LayoutNode, panes: &Vec<u32>, from: usize, next: u64) -> (r: (
    Node,
    usize,
    u64,
))
    requires
        from + saved_pwds(*d).len() <= panes@.len(),
        next + split_count(*d) <= u64::MAX,
    ensures
        shape(r.0) == bounded(saved_shape(*d)),
        is_bounded(r.0),
        leaves(r.0) == panes@.subrange(from as int, from + saved_pwds(*d).len()),
        splits(r.0) == numbers(next as int, split_count(*d)),
        r.1 == from + saved_pwds(*d).len(),
        r.2 == next + split_count(*d),
    decreases d,
{
    match d {
        LayoutNode::Leaf { .. } => {
            let len: usize = panes.len();
            assert(from < len);
            let n: Node = Node::Leaf(panes[from]);
            assert(leaves(n) =~= panes@.subrange(from as int, from + 1));
            assert(splits(n) =~= numbers(next as int, 0));
            (n, from + 1, next)
        },
        LayoutNode::Split { dir, ratio, first, second } => {
            let (f, mid, next1) = materialize(first, panes, from, next + 1);
            let (s, end, next2) = materialize(second, panes, mid, next1);
            let vertical: bool = crate::text::same_text(dir.as_str(), "v");
            proof {
                lemma_in_bounds(*ratio);
            }
            let n: Node = Node::Split {
                dir: if vertical {
                    Dir::Vertical
                } else {
                    Dir::Horizontal
                },
                id: next,
                ratio: clamp_share(*ratio),
                first: Box::new(f),
                second: Box::new(s),
            };
            assert(leaves(n) =~= panes@.subrange(from as int, from + saved_pwds(*d).len()));
            assert(splits(n) =~= numbers(next as int, split_count(*d)));
            (n, end, next2)
        },
    }
}

} // verus!
