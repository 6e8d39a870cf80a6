//! What is done to a tree of panes, told by the steps of the walk over it.

use vstd::prelude::*;
use vstd::string::*;

use crate::config::laws::{has, lemma_one_more, lemma_part, lemma_piece, put_together};
use crate::pane::{
    adds, attaches, bool_text, close_actions, closes, cycled, hides, index_in, json_escaped, layout_json,
    leaf_json, leaves_json, letting_go, removes, restore_actions, shows, title_text, unzoom_actions,
    is_neighbour, lemma_nearest_gets_keyboard, nearest, window_json, zoom_actions, zoom_after, zoom_choice,
    Candidate, LeafReport, PaneAction, PaneContainer, ResizeDir, ResizePlan, WindowReport, ZoomDecision,
};
use crate::pane::tree::{
    bounded, dropped, holds, in_bounds, inserted, leaves, lemma_leaves, lemma_remove_absent, nearest_split,
    numbers, pwd_at, removed, saved_pwds, saved_shape, shape, split_count, splits, walk, well_named,
    with_all_ratios, with_ratio, without, Dir, LayoutNode, Node, Step,
};
use crate::text::{decimal, opt_string};

verus! {

/// The tree that the steps describe from the first on, and the steps behind it: a split is followed by
/// its first side and then its second. `fuel` bounds how deep it is.
pub open spec fn read_tree(s: Seq<Step>, fuel: nat) -> Option<(Node, Seq<Step>)>
    decreases fuel,
{
    if s.len() == 0 || fuel == 0 {
        None
    } else {
        match s[0] {
            Step::Leaf { pane } => Some((Node::Leaf(pane), s.skip(1))),
            Step::Split { id, dir, ratio } => match read_tree(s.skip(1), (fuel - 1) as nat) {
                Some((a, rest)) => match read_tree(rest, (fuel - 1) as nat) {
                    Some((b, end)) => Some(
                        (
                            Node::Split { dir, id, ratio, first: Box::new(a), second: Box::new(b) },
                            end,
                        ),
                    ),
                    None => None,
                },
                None => None,
            },
        }
    }
}

/// How deep a tree is.
pub open spec fn depth(n: Node) -> nat
    decreases n,
{
    match n {
        Node::Leaf(_) => 1,
        Node::Split { first, second, .. } => 1 + if depth(*first) > depth(*second) {
            depth(*first)
        } else {
            depth(*second)
        },
    }
}

/// The walk tells all of a tree: it is read back from the steps, and nothing of what follows them is
/// taken.
pub proof fn lemma_walk_tells_all(n: Node, rest: Seq<Step>, fuel: nat)
    requires
        fuel >= depth(n),
    ensures
        read_tree(walk(n) + rest, fuel) == Some((n, rest)),
    decreases n,
{
    let s = walk(n) + rest;
    match n {
        Node::Leaf(_) => {
            assert(s.skip(1) =~= rest);
        },
        Node::Split { id, dir, ratio, first, second } => {
            assert(s[0] == Step::Split { id, dir, ratio });
            assert(s.skip(1) =~= walk(*first) + (walk(*second) + rest));
            lemma_walk_tells_all(*first, walk(*second) + rest, (fuel - 1) as nat);
            lemma_walk_tells_all(*second, rest, (fuel - 1) as nat);
        },
    }
}

/// The panes that the steps name, in order.
pub open spec fn panes_named(s: Seq<Step>) -> Seq<u32>
    decreases s.len(),
{
    if s.len() == 0 {
        Seq::empty()
    } else {
        match s.last() {
            Step::Leaf { pane } => panes_named(s.drop_last()).push(pane),
            Step::Split { .. } => panes_named(s.drop_last()),
        }
    }
}

/// The splits that the steps name, in order.
pub open spec fn splits_named(s: Seq<Step>) -> Seq<u64>
    decreases s.len(),
{
    if s.len() == 0 {
        Seq::empty()
    } else {
        match s.last() {
            Step::Split { id, .. } => splits_named(s.drop_last()).push(id),
            Step::Leaf { .. } => splits_named(s.drop_last()),
        }
    }
}

proof fn lemma_named_concat(a: Seq<Step>, b: Seq<Step>)
    ensures
        panes_named(a + b) == panes_named(a) + panes_named(b),
        splits_named(a + b) == splits_named(a) + splits_named(b),
    decreases b.len(),
{
    if b.len() == 0 {
        assert(a + b =~= a);
        assert(panes_named(a) + panes_named(b) =~= panes_named(a));
        assert(splits_named(a) + splits_named(b) =~= splits_named(a));
    } else {
        assert((a + b).drop_last() =~= a + b.drop_last());
        lemma_named_concat(a, b.drop_last());
        assert(panes_named(a + b) =~= panes_named(a) + panes_named(b));
        assert(splits_named(a + b) =~= splits_named(a) + splits_named(b));
    }
}

/// The panes and the splits of a tree are those that its walk names, in the order of the walk.
pub proof fn lemma_walk_names_panes(n: Node)
    ensures
        panes_named(walk(n)) == leaves(n),
        splits_named(walk(n)) == splits(n),
    decreases n,
{
    match n {
        Node::Leaf(p) => {
            let s = walk(n);
            assert(s.drop_last() =~= Seq::<Step>::empty());
            assert(panes_named(s.drop_last()) =~= Seq::<u32>::empty());
            assert(splits_named(s.drop_last()) =~= Seq::<u64>::empty());
            assert(s.last() == Step::Leaf { pane: p });
            assert(panes_named(s) =~= seq![p]);
            assert(splits_named(s) =~= Seq::<u64>::empty());
        },
        Node::Split { id, dir, ratio, first, second } => {
            let head = seq![Step::Split { id, dir, ratio }];
            assert(head.drop_last() =~= Seq::<Step>::empty());
            assert(panes_named(head.drop_last()) =~= Seq::<u32>::empty());
            assert(head.last() == Step::Split { id, dir, ratio });
            assert(panes_named(head) =~= Seq::<u32>::empty());
            assert(splits_named(head.drop_last()) =~= Seq::<u64>::empty());
            assert(splits_named(head) =~= seq![id]);
            lemma_walk_names_panes(*first);
            lemma_walk_names_panes(*second);
            lemma_named_concat(head, walk(*first));
            lemma_named_concat(head + walk(*first), walk(*second));
            assert(panes_named(walk(n)) =~= leaves(n));
        },
    }
}

/// The steps that a new pane brings in place of the step of the pane that it stands beside: the split
/// has the direction that was asked for and the share one half, and the new pane is its first side where
/// it stands before the other.
pub open spec fn split_steps(target: u32, new: u32, dir: Dir, id: u64, before: bool) -> Seq<Step> {
    seq![
        Step::Split { id, dir, ratio: 0x3fe0_0000_0000_0000u64 },
        Step::Leaf { pane: if before { new } else { target } },
        Step::Leaf { pane: if before { target } else { new } },
    ]
}

proof fn lemma_replaced_in_first(
    head: Seq<Step>,
    a: Seq<Step>,
    b: Seq<Step>,
    mid: Seq<Step>,
    k: int,
)
    requires
        head.len() == 1,
        0 <= k < a.len(),
    ensures
        (head + a + b)[k + 1] == a[k],
        head + (a.take(k) + mid + a.skip(k + 1)) + b == (head + a + b).take(k + 1) + mid + (head + a
            + b).skip(k + 2),
{
    let n = head + a + b;
    assert(n.take(k + 1) =~= head + a.take(k));
    assert(n.skip(k + 2) =~= a.skip(k + 1) + b);
    assert(head + (a.take(k) + mid + a.skip(k + 1)) + b =~= n.take(k + 1) + mid + n.skip(k + 2));
}

proof fn lemma_replaced_in_second(
    head: Seq<Step>,
    a: Seq<Step>,
    b: Seq<Step>,
    mid: Seq<Step>,
    k: int,
)
    requires
        head.len() == 1,
        0 <= k < b.len(),
    ensures
        (head + a + b)[1 + a.len() + k] == b[k],
        head + a + (b.take(k) + mid + b.skip(k + 1)) == (head + a + b).take(1 + a.len() + k) + mid + (
        head + a + b).skip(1 + a.len() + k + 1),
{
    let n = head + a + b;
    let at = 1 + a.len() + k;
    assert(n.take(at) =~= head + a + b.take(k));
    assert(n.skip(at + 1) =~= b.skip(k + 1));
    assert(head + a + (b.take(k) + mid + b.skip(k + 1)) =~= n.take(at) + mid + n.skip(at + 1));
}

proof fn lemma_around_first(
    head: Seq<Step>,
    x: Seq<Step>,
    mid: Seq<Step>,
    y: Seq<Step>,
    b: Seq<Step>,
)
    ensures
        head + (x + mid + y) + b == (head + x) + mid + (y + b),
{
    assert(head + (x + mid + y) + b =~= (head + x) + mid + (y + b));
}

proof fn lemma_around_second(
    head: Seq<Step>,
    a: Seq<Step>,
    x: Seq<Step>,
    mid: Seq<Step>,
    y: Seq<Step>,
)
    ensures
        head + a + (x + mid + y) == (head + a + x) + mid + y,
{
    assert(head + a + (x + mid + y) =~= (head + a + x) + mid + y);
}

proof fn lemma_around_nothing(mid: Seq<Step>)
    ensures
        Seq::<Step>::empty() + mid + Seq::<Step>::empty() == mid,
{
    assert(Seq::<Step>::empty() + mid + Seq::<Step>::empty() =~= mid);
}

/// A pane put beside another one shares the other's room: of the walk over the tree, the step of that
/// pane alone is replaced, by a split in the direction that was asked for, half and half, with the two
/// panes. Every other split keeps its number, its direction, its share and its place.
pub proof fn lemma_split_is_as_asked(
    n: Node,
    target: u32,
    new: u32,
    dir: Dir,
    id: u64,
    before: bool,
) -> (k: int)
    requires
        holds(n, target),
    ensures
        0 <= k < walk(n).len(),
        walk(n)[k] == (Step::Leaf { pane: target }),
        walk(inserted(n, target, new, dir, id, before)) == walk(n).take(k) + split_steps(
            target,
            new,
            dir,
            id,
            before,
        ) + walk(n).skip(k + 1),
    decreases n,
{
    let m = inserted(n, target, new, dir, id, before);
    let mid = split_steps(target, new, dir, id, before);
    match n {
        Node::Leaf(_) => {
            assert(walk(m) =~= walk(n).take(0) + mid + walk(n).skip(1)) by {
                reveal_with_fuel(walk, 3);
            }
            0
        },
        Node::Split { id: i, dir: d, ratio, first, second } => {
            let head = seq![Step::Split { id: i, dir: d, ratio }];
            let a = walk(*first);
            let b = walk(*second);
            if holds(*first, target) {
                let k = lemma_split_is_as_asked(*first, target, new, dir, id, before);
                lemma_replaced_in_first(head, a, b, mid, k);
                k + 1
            } else {
                let k = lemma_split_is_as_asked(*second, target, new, dir, id, before);
                lemma_replaced_in_second(head, a, b, mid, k);
                1 + a.len() + k
            }
        },
    }
}

/// `m` is the tree `n` or a part of it.
pub open spec fn is_part(m: Node, n: Node) -> bool
    decreases n,
{
    m == n || match n {
        Node::Leaf(_) => false,
        Node::Split { first, second, .. } => is_part(m, *first) || is_part(m, *second),
    }
}

/// The new split stands in the tree as it was asked for, with the two panes as its sides.
pub proof fn lemma_new_split_stands(
    n: Node,
    target: u32,
    new: u32,
    dir: Dir,
    id: u64,
    before: bool,
)
    requires
        holds(n, target),
    ensures
        is_part(
            Node::Split {
                dir,
                id,
                ratio: 0x3fe0_0000_0000_0000u64,
                first: Box::new(Node::Leaf(if before { new } else { target })),
                second: Box::new(Node::Leaf(if before { target } else { new })),
            },
            inserted(n, target, new, dir, id, before),
        ),
    decreases n,
{
    if let Node::Split { first, second, .. } = n {
        if holds(*first, target) {
            lemma_new_split_stands(*first, target, new, dir, id, before);
        } else {
            lemma_new_split_stands(*second, target, new, dir, id, before);
        }
    }
}

/// No pane stands on both sides of a split.
proof fn lemma_sides(a: Node, b: Node)
    requires
        (leaves(a) + leaves(b)).no_duplicates(),
    ensures
        leaves(a).no_duplicates(),
        leaves(b).no_duplicates(),
        forall|p: u32| !(#[trigger] holds(a, p) && holds(b, p)),
{
    let all = leaves(a) + leaves(b);
    lemma_leaves(a);
    lemma_leaves(b);
    assert forall|i: int, j: int|
        0 <= i < leaves(a).len() && 0 <= j < leaves(a).len() && i != j implies leaves(a)[i] != leaves(
        a,
    )[j] by {
        assert(all[i] == leaves(a)[i] && all[j] == leaves(a)[j]);
    }
    assert forall|i: int, j: int|
        0 <= i < leaves(b).len() && 0 <= j < leaves(b).len() && i != j implies leaves(b)[i] != leaves(
        b,
    )[j] by {
        let n = leaves(a).len();
        assert(all[n + i] == leaves(b)[i] && all[n + j] == leaves(b)[j]);
    }
    assert forall|p: u32| !(#[trigger] holds(a, p) && holds(b, p)) by {
        if holds(a, p) && holds(b, p) {
            let i = leaves(a).index_of(p);
            let j = leaves(b).index_of(p);
            assert(all[i] == p && all[leaves(a).len() + j] == p);
        }
    }
}

/// Closing a pane gives its room to the other side of the split that it stood in: that split and the
/// pane go, the other side stays with all that is in it, and nothing else changes. The result are the
/// steps before the split and behind it, the split and the other side.
pub proof fn lemma_close_gives_room(n: Node, target: u32) -> (r: (Seq<Step>, Seq<Step>, Node, Node))
    requires
        leaves(n).no_duplicates(),
        holds(n, target),
        n != Node::Leaf(target),
    ensures
        is_part(r.2, n),
        r.2 matches Node::Split { first, second, id, .. } && (*first == Node::Leaf(target)
            && *second == r.3 || *second == Node::Leaf(target) && *first == r.3) && dropped(n, target)
            == seq![id],
        walk(n) == r.0 + walk(r.2) + r.1,
        removed(n, target) matches Some(m) && walk(m) == r.0 + walk(r.3) + r.1,
    decreases n,
{
    match n {
        Node::Leaf(_) => { (Seq::empty(), Seq::empty(), n, n) },
        Node::Split { id, dir, ratio, first, second } => {
            let head = seq![Step::Split { id, dir, ratio }];
            let a = walk(*first);
            let b = walk(*second);
            lemma_sides(*first, *second);
            lemma_leaves(*first);
            lemma_leaves(*second);
            lemma_around_nothing(walk(n));
            lemma_around_nothing(a);
            lemma_around_nothing(b);
            assert(*first == Node::Leaf(target) ==> holds(*first, target));
            assert(*second == Node::Leaf(target) ==> holds(*second, target));
            if *first == Node::Leaf(target) {
                assert(!holds(*second, target));
                assert(dropped(*first, target) =~= Seq::<u64>::empty());
                assert(removed(*first, target) is None);
                assert(dropped(n, target) =~= seq![id]);
                (Seq::empty(), Seq::empty(), n, *second)
            } else if *second == Node::Leaf(target) {
                assert(!holds(*first, target));
                lemma_remove_absent(*first, target);
                assert(dropped(*second, target) =~= Seq::<u64>::empty());
                assert(removed(*second, target) is None);
                assert(dropped(n, target) =~= seq![id]);
                (Seq::empty(), Seq::empty(), n, *first)
            } else if holds(*first, target) {
                let r = lemma_close_gives_room(*first, target);
                assert(!holds(*second, target));
                lemma_remove_absent(*second, target);
                assert(dropped(n, target) =~= dropped(*first, target));
                lemma_around_first(head, r.0, walk(r.2), r.1, b);
                lemma_around_first(head, r.0, walk(r.3), r.1, b);
                (head + r.0, r.1 + b, r.2, r.3)
            } else {
                let r = lemma_close_gives_room(*second, target);
                lemma_remove_absent(*first, target);
                assert(dropped(n, target) =~= dropped(*second, target));
                lemma_around_second(head, a, r.0, walk(r.2), r.1);
                lemma_around_second(head, a, r.0, walk(r.3), r.1);
                (head + a + r.0, r.1, r.2, r.3)
            }
        },
    }
}

/// The step with another share where it is that split's.
pub open spec fn reshared(s: Step, split: u64, share: u64) -> Step {
    match s {
        Step::Split { id, dir, ratio } => if id == split {
            Step::Split { id, dir, ratio: share }
        } else {
            s
        },
        Step::Leaf { .. } => s,
    }
}

/// Giving a split another share changes the step of that split, and nothing else of the walk.
pub proof fn lemma_share_of_one(n: Node, split: u64, share: u64)
    requires
        splits(n).no_duplicates(),
    ensures
        walk(with_ratio(n, split, share)).len() == walk(n).len(),
        forall|i: int|
            0 <= i < walk(n).len() ==> #[trigger] walk(with_ratio(n, split, share))[i] == reshared(
                walk(n)[i],
                split,
                share,
            ),
    decreases n,
{
    let m = with_ratio(n, split, share);
    if let Node::Split { id, dir, ratio, first, second } = n {
        let a = splits(*first);
        let b = splits(*second);
        let all = splits(n);
        assert forall|i: int, j: int| 0 <= i < a.len() && 0 <= j < a.len() && i != j implies a[i]
            != a[j] by {
            assert(all[1 + i] == a[i] && all[1 + j] == a[j]);
        }
        assert forall|i: int, j: int| 0 <= i < b.len() && 0 <= j < b.len() && i != j implies b[i]
            != b[j] by {
            assert(all[1 + a.len() + i] == b[i] && all[1 + a.len() + j] == b[j]);
        }
        assert(!a.contains(id)) by {
            if a.contains(id) {
                assert(all[1 + a.index_of(id)] == all[0]);
            }
        }
        assert(!b.contains(id)) by {
            if b.contains(id) {
                assert(all[1 + a.len() + b.index_of(id)] == all[0]);
            }
        }
        if a.contains(split) {
            assert(!b.contains(split)) by {
                if b.contains(split) {
                    assert(all[1 + a.index_of(split)] == all[1 + a.len() + b.index_of(split)]);
                }
            }
        }
        lemma_share_of_one(*first, split, share);
        lemma_share_of_one(*second, split, share);
        if !a.contains(split) {
            lemma_no_such_split(*first, split, share);
        }
        if !b.contains(split) {
            lemma_no_such_split(*second, split, share);
        }
        let head = seq![Step::Split { id, dir, ratio }];
        let w = walk(*first);
        let x = walk(*second);
        assert forall|i: int| 0 <= i < walk(n).len() implies #[trigger] walk(m)[i] == reshared(
            walk(n)[i],
            split,
            share,
        ) by {
            if 1 <= i < 1 + w.len() {
                assert(walk(n)[i] == w[i - 1]);
                assert(walk(with_ratio(*first, split, share))[i - 1] == reshared(
                    w[i - 1],
                    split,
                    share,
                ));
            } else if i > 0 {
                let j = i - 1 - w.len();
                assert(walk(n)[i] == x[j]);
                assert(walk(with_ratio(*second, split, share))[j] == reshared(x[j], split, share));
            }
        }
    }
}

proof fn lemma_no_such_split(n: Node, split: u64, share: u64)
    requires
        !splits(n).contains(split),
    ensures
        with_ratio(n, split, share) == n,
        forall|i: int| 0 <= i < walk(n).len() ==> reshared(#[trigger] walk(n)[i], split, share) == walk(n)[i],
    decreases n,
{
    if let Node::Split { id, first, second, .. } = n {
        let a = splits(*first);
        let b = splits(*second);
        let all = splits(n);
        assert(all[0] == id);
        assert(!a.contains(split)) by {
            if a.contains(split) {
                assert(all[1 + a.index_of(split)] == split);
            }
        }
        assert(!b.contains(split)) by {
            if b.contains(split) {
                assert(all[1 + a.len() + b.index_of(split)] == split);
            }
        }
        lemma_no_such_split(*first, split, share);
        lemma_no_such_split(*second, split, share);
        assert forall|i: int| 0 <= i < walk(n).len() implies reshared(
            #[trigger] walk(n)[i],
            split,
            share,
        ) == walk(n)[i] by {
            let w = walk(*first);
            if 1 <= i < 1 + w.len() {
                assert(walk(n)[i] == w[i - 1]);
            } else if i > 0 {
                assert(walk(n)[i] == walk(*second)[i - 1 - w.len()]);
            }
        }
    }
}

/// Giving all splits the same share changes the share of every split and nothing else of the walk.
pub proof fn lemma_share_of_all(n: Node, share: u64)
    ensures
        walk(with_all_ratios(n, share)).len() == walk(n).len(),
        forall|i: int|
            0 <= i < walk(n).len() ==> #[trigger] walk(with_all_ratios(n, share))[i] == match walk(
                n,
            )[i] {
                Step::Split { id, dir, .. } => Step::Split { id, dir, ratio: share },
                Step::Leaf { pane } => Step::Leaf { pane },
            },
    decreases n,
{
    if let Node::Split { first, second, .. } = n {
        lemma_share_of_all(*first, share);
        lemma_share_of_all(*second, share);
    }
}

/// The divider that a resize key moves is the innermost one that lies across its direction around the
/// pane: it belongs to a split of that direction that holds the pane, and every other such split has it
/// inside. Where there is no such split, there is none to move.
pub proof fn lemma_innermost_divider(n: Node, target: u32, dir: Dir)
    requires
        leaves(n).no_duplicates(),
    ensures
        match nearest_split(n, target, dir) {
            Some((id, ratio)) => exists|m: Node|
                {
                    &&& #[trigger] is_part(m, n)
                    &&& holds(m, target)
                    &&& m matches Node::Split { dir: d, id: i, ratio: r, .. } && d == dir && i == id
                        && r == ratio
                    &&& forall|o: Node| #[trigger]
                        is_part(o, n) && holds(o, target) && (o matches Node::Split { dir: d, .. }
                            && d == dir) ==> is_part(m, o)
                },
            None => forall|o: Node| #[trigger]
                is_part(o, n) && holds(o, target) ==> !(o matches Node::Split { dir: d, .. } && d
                    == dir),
        },
    decreases n,
{
    if let Node::Split { dir: d, id, ratio, first, second } = n {
        lemma_sides(*first, *second);
        lemma_innermost_divider(*first, target, dir);
        lemma_innermost_divider(*second, target, dir);
        let side = if holds(*first, target) {
            *first
        } else {
            *second
        };
        let other = if holds(*first, target) {
            *second
        } else {
            *first
        };
        assert(!holds(other, target));
        assert forall|o: Node| #[trigger] is_part(o, n) && holds(o, target) implies o == n || is_part(
            o,
            side,
        ) by {
            if is_part(o, other) {
                lemma_part_holds(o, other, target);
            }
        }
        if !holds(n, target) {
            assert forall|o: Node| #[trigger] is_part(o, n) implies !holds(o, target) by {
                if holds(o, target) {
                    lemma_part_holds(o, n, target);
                }
            }
        } else if let Some((i, r)) = nearest_split(side, target, dir) {
            let m = choose|m: Node|
                {
                    &&& #[trigger] is_part(m, side)
                    &&& holds(m, target)
                    &&& m matches Node::Split { dir: d, id: j, ratio: q, .. } && d == dir && j == i
                        && q == r
                    &&& forall|o: Node| #[trigger]
                        is_part(o, side) && holds(o, target) && (o matches Node::Split {
                            dir: d,
                            ..
                        } && d == dir) ==> is_part(m, o)
                };
            assert(is_part(m, n));
        } else if d == dir {
            assert(is_part(n, n));
        }
    }
}

proof fn lemma_part_holds(o: Node, n: Node, target: u32)
    requires
        is_part(o, n),
        holds(o, target),
    ensures
        holds(n, target),
    decreases n,
{
    if o != n {
        if let Node::Split { first, second, .. } = n {
            if is_part(o, *first) {
                lemma_part_holds(o, *first, target);
            } else {
                lemma_part_holds(o, *second, target);
            }
        }
    }
}

/// A share that is a number comes to lie from 0.15 to 0.85: it stays where it lies there, and else becomes
/// the nearer end. Numbers keep their order, and what is no number stays.
pub proof fn lemma_shares_in_bounds(share: u64, more: u64)
    requires
        share <= more,
    ensures
        0x3fc3_3333_3333_3333 <= share <= 0x3feb_3333_3333_3333 ==> in_bounds(share) == share,
        share < 0x3fc3_3333_3333_3333 ==> in_bounds(share) == 0x3fc3_3333_3333_3333,
        0x3feb_3333_3333_3333 < share <= 0x7ff0_0000_0000_0000 ==> in_bounds(share)
            == 0x3feb_3333_3333_3333,
        0x8000_0000_0000_0000 <= share <= 0xfff0_0000_0000_0000 ==> in_bounds(share)
            == 0x3fc3_3333_3333_3333,
        0x7ff0_0000_0000_0000 < share < 0x8000_0000_0000_0000 || 0xfff0_0000_0000_0000 < share
            ==> in_bounds(share) == share,
        more <= 0x7ff0_0000_0000_0000 ==> in_bounds(share) <= in_bounds(more),
{
}

/// One step of the walk over a saved tree.
pub enum SavedStep {
    Split { dir: Seq<char>, ratio: u64 },
    Leaf { pwd: Option<Seq<char>> },
}

/// The walk over a saved tree, a split before its two sides.
pub open spec fn saved_walk(d: LayoutNode) -> Seq<SavedStep>
    decreases d,
{
    match d {
        LayoutNode::Leaf { pwd } => seq![SavedStep::Leaf { pwd: opt_string(pwd) }],
        LayoutNode::Split { dir, ratio, first, second } => seq![SavedStep::Split { dir: dir@, ratio }]
            + saved_walk(*first) + saved_walk(*second),
    }
}

/// The step of a tree that is made of a saved one: a pane for a pane, and a split for a split, one above
/// the other just where it is named `v`, with its share in bounds.
pub open spec fn is_made_of(s: Step, d: SavedStep) -> bool {
    match (s, d) {
        (Step::Leaf { .. }, SavedStep::Leaf { .. }) => true,
        (Step::Split { dir, ratio, .. }, SavedStep::Split { dir: name, ratio: share }) => (dir
            == Dir::Vertical <==> name == seq!['v']) && ratio == in_bounds(share),
        _ => false,
    }
}

/// The step of a tree that is saved: a pane for a pane, and a split for a split, named `h` or `v` by its
/// direction, with its share as it is.
pub open spec fn is_saved_as(s: Step, d: SavedStep) -> bool {
    match (s, d) {
        (Step::Leaf { .. }, SavedStep::Leaf { .. }) => true,
        (Step::Split { dir, ratio, .. }, SavedStep::Split { dir: name, ratio: share }) => name == (if dir
            == Dir::Horizontal {
            seq!['h']
        } else {
            seq!['v']
        }) && ratio == share,
        _ => false,
    }
}

/// A tree that is made of a saved one has its splits and its panes in the same places.
pub proof fn lemma_made_of_saved(m: Node, d: LayoutNode)
    requires
        shape(m) == bounded(saved_shape(d)),
    ensures
        walk(m).len() == saved_walk(d).len(),
        forall|i: int|
            0 <= i < walk(m).len() ==> is_made_of(#[trigger] walk(m)[i], saved_walk(d)[i]),
    decreases d,
{
    reveal_strlit("v");
    assert("v"@ =~= seq!['v']);
    reveal_with_fuel(bounded, 2);
    match (m, d) {
        (
            Node::Split { id, dir, ratio, first: a, second: b },
            LayoutNode::Split { dir: name, ratio: share, first: c, second: e },
        ) => {
            lemma_made_of_saved(*a, *c);
            lemma_made_of_saved(*b, *e);
            let w = walk(m);
            let v = saved_walk(d);
            let (wa, wb) = (walk(*a), walk(*b));
            let (vc, ve) = (saved_walk(*c), saved_walk(*e));
            assert forall|i: int| 0 <= i < w.len() implies is_made_of(#[trigger] w[i], v[i]) by {
                if i == 0 {
                    assert(w[0] == Step::Split { id, dir, ratio });
                    assert(v[0] == SavedStep::Split { dir: name@, ratio: share });
                } else if i < 1 + wa.len() {
                    assert(w[i] == wa[i - 1] && v[i] == vc[i - 1]);
                } else {
                    assert(w[i] == wb[i - 1 - wa.len()] && v[i] == ve[i - 1 - wa.len()]);
                }
            }
        },
        _ => {},
    }
}

/// What is saved of a tree has its splits and its panes in the same places, under the names of their
/// directions.
pub proof fn lemma_saved_as_it_is(n: Node, d: LayoutNode)
    requires
        saved_shape(d) == shape(n),
        well_named(d),
    ensures
        walk(n).len() == saved_walk(d).len(),
        forall|i: int|
            0 <= i < walk(n).len() ==> is_saved_as(#[trigger] walk(n)[i], saved_walk(d)[i]),
    decreases d,
{
    reveal_strlit("v");
    reveal_strlit("h");
    assert("v"@ =~= seq!['v']);
    assert("h"@ =~= seq!['h']);
    assert(seq!['v'][0] != seq!['h'][0]);
    match (n, d) {
        (
            Node::Split { id, dir, ratio, first: a, second: b },
            LayoutNode::Split { dir: name, ratio: share, first: c, second: e },
        ) => {
            lemma_saved_as_it_is(*a, *c);
            lemma_saved_as_it_is(*b, *e);
            let w = walk(n);
            let v = saved_walk(d);
            let (wa, wb) = (walk(*a), walk(*b));
            let (vc, ve) = (saved_walk(*c), saved_walk(*e));
            assert forall|i: int| 0 <= i < w.len() implies is_saved_as(#[trigger] w[i], v[i]) by {
                if i == 0 {
                    assert(w[0] == Step::Split { id, dir, ratio });
                    assert(v[0] == SavedStep::Split { dir: name@, ratio: share });
                } else if i < 1 + wa.len() {
                    assert(w[i] == wa[i - 1] && v[i] == vc[i - 1]);
                } else {
                    assert(w[i] == wb[i - 1 - wa.len()] && v[i] == ve[i - 1 - wa.len()]);
                }
            }
        },
        _ => {},
    }
}

/// The working directories along a walk.
pub open spec fn pwds_along(s: Seq<SavedStep>) -> Seq<Option<Seq<char>>>
    decreases s.len(),
{
    if s.len() == 0 {
        Seq::empty()
    } else {
        let before = pwds_along(s.drop_last());
        match s.last() {
            SavedStep::Leaf { pwd } => before.push(pwd),
            SavedStep::Split { .. } => before,
        }
    }
}

proof fn lemma_pwds_along(a: Seq<SavedStep>, b: Seq<SavedStep>)
    ensures
        pwds_along(a + b) == pwds_along(a) + pwds_along(b),
    decreases b.len(),
{
    if b.len() > 0 {
        lemma_pwds_along(a, b.drop_last());
        assert((a + b).drop_last() =~= a + b.drop_last());
        assert(pwds_along(a + b) =~= pwds_along(a) + pwds_along(b));
    } else {
        assert(a + b =~= a);
        assert(pwds_along(a) + pwds_along(b) =~= pwds_along(a));
    }
}

/// The working directories of a saved tree are those of its panes along the walk, and there is one split
/// less than there are panes.
pub proof fn lemma_directories_along_the_walk(d: LayoutNode)
    ensures
        saved_pwds(d) == pwds_along(saved_walk(d)),
        saved_pwds(d).len() == split_count(d) + 1,
    decreases d,
{
    reveal_with_fuel(pwds_along, 2);
    match d {
        LayoutNode::Leaf { pwd } => {
            let s = seq![SavedStep::Leaf { pwd: opt_string(pwd) }];
            assert(s.drop_last() =~= Seq::<SavedStep>::empty());
            assert(saved_pwds(d) =~= pwds_along(saved_walk(d)));
        },
        LayoutNode::Split { dir, ratio, first, second } => {
            lemma_directories_along_the_walk(*first);
            lemma_directories_along_the_walk(*second);
            let s = seq![SavedStep::Split { dir: dir@, ratio }];
            assert(s.drop_last() =~= Seq::<SavedStep>::empty());
            assert(pwds_along(s) =~= Seq::<Option<Seq<char>>>::empty());
            lemma_pwds_along(s + saved_walk(*first), saved_walk(*second));
            lemma_pwds_along(s, saved_walk(*first));
            assert(saved_pwds(d) =~= pwds_along(saved_walk(d)));
        },
    }
}

/// A pane has the directory that is told in its place, and none where none is told; numbers go up by one.
pub proof fn lemma_in_its_place(pwds: Seq<Option<String>>, i: int, from: int, n: nat)
    requires
        0 <= from,
        from + n <= u64::MAX,
    ensures
        0 <= i < pwds.len() && pwds[i] is Some ==> pwd_at(pwds, i) == Some(pwds[i]->0@),
        0 <= i < pwds.len() && pwds[i] is None ==> pwd_at(pwds, i) is None,
        i < 0 || i >= pwds.len() ==> pwd_at(pwds, i) is None,
        numbers(from, n).len() == n,
        forall|k: int| 0 <= k < n ==> #[trigger] numbers(from, n)[k] == from + k,
{
}

/// A window of one pane is zoomed as a whole; in any other the zoom is left where there is one, else the
/// pane with the keyboard is zoomed, where there is one.
pub proof fn lemma_what_the_zoom_key_does(n: int, zoomed: bool, has_target: bool, pane: u32, target: u32)
    ensures
        zoom_choice(n, zoomed, has_target) == ZoomDecision::WindowZoom <==> n <= 1,
        zoom_choice(n, zoomed, has_target) == ZoomDecision::Restore <==> n > 1 && zoomed,
        zoom_choice(n, zoomed, has_target) == ZoomDecision::ZoomFocused <==> n > 1 && !zoomed
            && has_target,
        zoom_choice(n, zoomed, has_target) == ZoomDecision::Nothing <==> n > 1 && !zoomed && !has_target,
        n > 1 ==> zoom_after(n, None, target) == Some(target),
        n > 1 ==> zoom_after(n, Some(pane), target) is None,
        n <= 1 ==> zoom_after(n, Some(pane), target) == Some(pane) && zoom_after(n, None, target) is None,
{
}

/// The place of a pane is the first that it has; it has none just where it is not there.
pub proof fn lemma_first_place_counts(s: Seq<u32>, pane: u32)
    ensures
        match index_in(s, pane) {
            Some(i) => 0 <= i < s.len() && s[i] == pane && forall|j: int|
                0 <= j < i ==> #[trigger] s[j] != pane,
            None => !s.contains(pane),
        },
    decreases s.len(),
{
    if s.len() > 0 && s[0] != pane {
        let t = s.drop_first();
        lemma_first_place_counts(t, pane);
        if let Some(i) = index_in(t, pane) {
            assert forall|j: int| 0 <= j < i + 1 implies #[trigger] s[j] != pane by {
                if j > 0 {
                    assert(t[j - 1] != pane);
                }
            }
        } else if s.contains(pane) {
            let k = s.index_of(pane);
            assert(t[k - 1] == pane);
        }
    }
}

/// The focus goes to the next place, or the one before, and from the last to the first and back; where
/// no pane has it, it goes to the first.
pub proof fn lemma_focus_goes_round(n: int, i: int)
    requires
        0 <= i < n,
    ensures
        i + 1 < n ==> cycled(n, Some(i), 1) == i + 1,
        i + 1 == n ==> cycled(n, Some(i), 1) == 0,
        i > 0 ==> cycled(n, Some(i), -1) == i - 1,
        i == 0 ==> cycled(n, Some(i), -1) == n - 1,
        cycled(n, None, 1) == 0,
        cycled(n, None, -1) == 0,
{
    if i + 1 < n {
        assert((i + 1) % n == i + 1) by (nonlinear_arith)
            requires
                0 <= i,
                i + 1 < n,
        ;
    } else {
        assert((i + 1) % n == 0) by (nonlinear_arith)
            requires
                i + 1 == n,
                n >= 1,
        ;
    }
    if i > 0 {
        assert((i + n - 1) % n == i - 1) by (nonlinear_arith)
            requires
                0 < i < n,
        ;
    } else {
        assert((i + n - 1) % n == n - 1) by (nonlinear_arith)
            requires
                i == 0,
                n >= 1,
        ;
    }
}

/// What the user set stands before what the terminal set, and that before the program's name.
pub proof fn lemma_title_of_a_window(a: Seq<char>, b: Seq<char>, osc: Option<Seq<char>>)
    ensures
        title_text(Some(a), osc) == a,
        title_text(None, Some(b)) == b,
        title_text(None, None) == seq!['n', 'i', 'n', 'j', 'a'],
{
    reveal_strlit("ninja");
    assert("ninja"@ =~= seq!['n', 'i', 'n', 'j', 'a']);
}

/// Each pane, or each divider, is asked for in its place, and nothing else is.
pub proof fn lemma_each_in_its_place(s: Seq<u32>, d: Seq<u64>, n: nat)
    requires
        n <= s.len(),
    ensures
        shows(s).len() == s.len() && hides(s).len() == s.len() && closes(s).len() == s.len(),
        removes(d).len() == d.len() && adds(d).len() == d.len() && attaches(s, n).len() == n,
        forall|i: int|
            0 <= i < s.len() ==> #[trigger] shows(s)[i] == PaneAction::Show(s[i]),
        forall|i: int|
            0 <= i < s.len() ==> #[trigger] hides(s)[i] == PaneAction::Hide(s[i]),
        forall|i: int|
            0 <= i < s.len() ==> #[trigger] closes(s)[i] == PaneAction::CloseSurface(s[i]),
        forall|i: int|
            0 <= i < d.len() ==> #[trigger] removes(d)[i] == PaneAction::RemoveDivider(d[i]),
        forall|i: int| 0 <= i < d.len() ==> #[trigger] adds(d)[i] == PaneAction::AddDivider(d[i]),
        n > 0 ==> attaches(s, n)[0] == (PaneAction::Attach { pane: s[0], beside: None }),
        forall|i: int|
            0 < i < n ==> #[trigger] attaches(s, n)[i] == (PaneAction::Attach {
                pane: s[i],
                beside: Some(s[0]),
            }),
{
}

/// Every pane's terminal is let go before its view, pane by pane.
pub proof fn lemma_terminal_before_view(s: Seq<u32>, i: int)
    ensures
        letting_go(s).len() == 2 * s.len(),
        0 <= i < s.len() ==> letting_go(s)[2 * i] == PaneAction::CloseNow(s[i]) && letting_go(s)[2 * i + 1]
            == PaneAction::Detach(s[i]),
    decreases s.len(),
{
    if s.len() > 0 {
        let init = s.drop_last();
        lemma_terminal_before_view(init, i);
        let before = letting_go(init);
        if 0 <= i < init.len() {
            assert(letting_go(s)[2 * i] == before[2 * i]);
            assert(letting_go(s)[2 * i + 1] == before[2 * i + 1]);
        } else if i == init.len() {
            assert(letting_go(s)[2 * i] == PaneAction::CloseNow(s[i]));
            assert(letting_go(s)[2 * i + 1] == PaneAction::Detach(s[i]));
        }
    }
}

/// Zooming hides every other pane, then the dividers, and gives the pane all the room and the keyboard;
/// leaving the zoom shows all panes and the dividers again, and asks for nothing where there was none.
pub proof fn lemma_what_zooming_asks_for(panes: Seq<u32>, pane: u32, other: u32)
    ensures
        ({
            let s = zoom_actions(panes, pane);
            let n = without(panes, pane).len() as int;
            &&& s.len() == n + 3
            &&& s[n] == PaneAction::HideDividers
            &&& s[n + 1] == PaneAction::Relayout
            &&& s[n + 2] == PaneAction::Focus(pane)
            &&& forall|i: int| 0 <= i < n ==> #[trigger] s[i] == PaneAction::Hide(without(panes, pane)[i])
        }),
        ({
            let s = unzoom_actions(Some(other), panes);
            let n = panes.len() as int;
            &&& s.len() == n + 2
            &&& s[n] == PaneAction::ShowDividers
            &&& s[n + 1] == PaneAction::Relayout
            &&& forall|i: int| 0 <= i < n ==> #[trigger] s[i] == PaneAction::Show(panes[i])
        }),
        unzoom_actions(None, panes) == Seq::<PaneAction>::empty(),
{
}

/// Closing a pane lets go of its terminal and its view, takes the dividers out that go, and then gives
/// the room to the others. Before that, where the pane was zoomed, the others and the dividers are shown,
/// and where it had the keyboard the first of the others gets it; where no pane had the keyboard, the
/// first of the others gets it at the end.
pub proof fn lemma_what_closing_asks_for(t: Node, pane: u32, zoomed: Option<u32>, focused: Option<u32>)
    ensures
        ({
            let s = close_actions(t, pane, zoomed, focused);
            let rest = without(leaves(t), pane);
            let gone = dropped(t, pane);
            let shown = if zoomed == Some(pane) {
                rest.len() + 1
            } else {
                0
            };
            let handed = if focused == Some(pane) && rest.len() > 0 {
                1int
            } else {
                0
            };
            let n = shown + handed;
            let m = n + 2 + gone.len();
            &&& s.len() == m + 1 + if focused is None && rest.len() > 0 {
                1int
            } else {
                0
            }
            &&& zoomed == Some(pane) ==> s[rest.len() as int] == PaneAction::ShowDividers && forall|i: int|
                0 <= i < rest.len() ==> #[trigger] s[i] == PaneAction::Show(rest[i])
            &&& handed == 1 ==> s[n - 1] == PaneAction::Focus(rest[0])
            &&& s[n] == PaneAction::CloseSurface(pane)
            &&& s[n + 1] == PaneAction::Detach(pane)
            &&& forall|i: int|
                n + 2 <= i < m ==> #[trigger] s[i] == PaneAction::RemoveDivider(gone[i - n - 2])
            &&& s[m] == PaneAction::Relayout
            &&& focused is None && rest.len() > 0 ==> s[m + 1] == PaneAction::Focus(rest[0])
        }),
{
}

/// Replacing the panes of a window lets the old ones go, takes their dividers out, puts the new ones in,
/// gives them their room, and only then starts the terminals.
pub proof fn lemma_what_replacing_asks_for(
    before: Seq<u32>,
    old_splits: Seq<u64>,
    panes: Seq<u32>,
    new_splits: Seq<u64>,
)
    ensures
        ({
            let s = restore_actions(before, old_splits, panes, new_splits);
            let a = 2 * before.len() as int;
            let b = a + old_splits.len();
            let c = b + new_splits.len();
            &&& s.len() == c + 1 + panes.len()
            &&& s.take(a) == letting_go(before)
            &&& s.subrange(a, b) == removes(old_splits)
            &&& s.subrange(b, c) == adds(new_splits)
            &&& s[c] == PaneAction::Relayout
            &&& s.skip(c + 1) == attaches(panes, panes.len())
        }),
{
    let s = restore_actions(before, old_splits, panes, new_splits);
    lemma_terminal_before_view(before, 0);
    let a = 2 * before.len() as int;
    let b = a + old_splits.len();
    let c = b + new_splits.len();
    assert(s.take(a) =~= letting_go(before));
    assert(s.subrange(a, b) =~= removes(old_splits));
    assert(s.subrange(b, c) =~= adds(new_splits));
    assert(s.skip(c + 1) =~= attaches(panes, panes.len()));
}

/// Just the one pane goes, and the others keep their order.
pub proof fn lemma_all_panes_but_one(
    a: Seq<u32>,
    x: u32,
    b: Seq<u32>,
    target: u32,
)
    ensures
        x != target ==> without(a + seq![x] + b, target) == without(a, target) + seq![x] + without(b, target),
        !(x != target) ==> without(a + seq![x] + b, target) == without(a, target) + without(b, target),
        without(Seq::empty(), target) == Seq::<u32>::empty(),
    decreases b.len(),
{
    let none = Seq::<u32>::empty();
    let f = without(a, target);
    if b.len() == 0 {
        assert(b =~= none);
        assert(a + seq![x] + b =~= a.push(x));
        assert(a.push(x).drop_last() =~= a);
        assert(without(none, target) =~= Seq::<u32>::empty());
        assert(f + Seq::<u32>::empty() =~= f);
        assert(f + seq![x] + Seq::<u32>::empty() =~= f.push(x));
    } else {
        let c = b.drop_last();
        lemma_all_panes_but_one(a, x, c, target);
        assert((a + seq![x] + b).drop_last() =~= a + seq![x] + c);
        assert((a + seq![x] + b).last() == b.last());
        assert(without(a + seq![x] + b, target) =~= if x != target {
            f + seq![x] + without(b, target)
        } else {
            f + without(b, target)
        });
    }
}

/// Inside a JSON string a quote and a backslash come with a backslash before them, a control character
/// becomes a space, and any other character stays, wherever it stands.
pub proof fn lemma_characters_in_json(a: Seq<char>, c: char, b: Seq<char>)
    ensures
        json_escaped(Seq::empty()) == Seq::<char>::empty(),
        json_escaped(a + seq![c] + b) == json_escaped(a) + json_escaped(seq![c]) + json_escaped(b),
        c == '"' || c == '\\' ==> json_escaped(seq![c]) == seq!['\\', c],
        c < ' ' ==> json_escaped(seq![c]) == seq![' '],
        c >= ' ' && c != '"' && c != '\\' ==> json_escaped(seq![c]) == seq![c],
{
    lemma_json_parts(a + seq![c], b);
    lemma_json_parts(a, seq![c]);
    let none = Seq::<char>::empty();
    assert(seq![c].drop_last() =~= none);
    assert(json_escaped(none) =~= none);
    assert(json_escaped(seq![c]) =~= if c == '"' {
        seq!['\\', '"']
    } else if c == '\\' {
        seq!['\\', '\\']
    } else if (c as u32) < 0x20 {
        seq![' ']
    } else {
        seq![c]
    });
}

proof fn lemma_json_parts(a: Seq<char>, b: Seq<char>)
    ensures
        json_escaped(a + b) == json_escaped(a) + json_escaped(b),
    decreases b.len(),
{
    if b.len() > 0 {
        lemma_json_parts(a, b.drop_last());
        assert((a + b).drop_last() =~= a + b.drop_last());
        assert(json_escaped(a + b) =~= json_escaped(a) + json_escaped(b));
    } else {
        assert(a + b =~= a);
        assert(json_escaped(a) + json_escaped(b) =~= json_escaped(a));
    }
}

/// The panes stand in their order, with a comma between each two.
pub proof fn lemma_panes_in_json(a: Seq<LeafReport>, b: Seq<LeafReport>, l: LeafReport)
    ensures
        leaves_json(Seq::empty()) == Seq::<char>::empty(),
        leaves_json(seq![l]) == leaf_json(l),
        a.len() > 0 && b.len() > 0 ==> leaves_json(a + b) == leaves_json(a) + seq![','] + leaves_json(b),
    decreases b.len(),
{
    reveal_strlit(",");
    assert(","@ =~= seq![',']);
    if a.len() > 0 && b.len() > 0 {
        let s = a + b;
        assert(s.drop_last() =~= a + b.drop_last());
        assert(s.last() == b.last());
        if b.len() > 1 {
            lemma_panes_in_json(a, b.drop_last(), l);
            assert(leaves_json(s) =~= leaves_json(a) + seq![','] + leaves_json(b));
        } else {
            assert(a + b.drop_last() =~= a);
            assert(b[0] == b.last());
        }
    }
}

/// What is told of a pane stands under its names.
pub proof fn lemma_pane_in_json(l: LeafReport)
    ensures
        ({
            let t = leaf_json(l);
            &&& has(t, "{\"pane\":"@ + decimal(l.pane as nat))
            &&& has(
                t,
                ",\"hidden\":"@ + if l.hidden {
                    "true"@
                } else {
                    "false"@
                },
            )
            &&& has(t, ",\"x\":"@ + l.x@)
            &&& has(t, ",\"y\":"@ + l.y@)
            &&& has(t, ",\"w\":"@ + l.w@)
            &&& has(t, ",\"h\":"@ + l.h@)
            &&& has(t, ",\"cols\":"@ + decimal(l.cols as nat))
            &&& has(t, ",\"rows\":"@ + decimal(l.rows as nat))
            &&& has(t, ",\"last\":\""@ + json_escaped(l.last@) + "\"}"@)
        }),
{
    let m0 = "{\"pane\":"@ + decimal(l.pane as nat);
    let m1 = ",\"hidden\":"@ + bool_text(l.hidden);
    let m2 = ",\"x\":"@ + l.x@;
    let m3 = ",\"y\":"@ + l.y@;
    let m4 = ",\"w\":"@ + l.w@;
    let m5 = ",\"h\":"@ + l.h@;
    let m6 = ",\"cols\":"@ + decimal(l.cols as nat);
    let m7 = ",\"rows\":"@ + decimal(l.rows as nat);
    let m8 = ",\"last\":\""@ + json_escaped(l.last@) + "\"}"@;
    let p = seq![m0, m1, m2, m3, m4, m5, m6, m7, m8];
    lemma_nine_pieces(m0, m1, m2, m3, m4, m5, m6, m7, m8);
    assert(leaf_json(l) =~= m0 + m1 + m2 + m3 + m4 + m5 + m6 + m7 + m8);
    lemma_piece(p, 0);
    lemma_piece(p, 1);
    lemma_piece(p, 2);
    lemma_piece(p, 3);
    lemma_piece(p, 4);
    lemma_piece(p, 5);
    lemma_piece(p, 6);
    lemma_piece(p, 7);
    lemma_piece(p, 8);
}

proof fn lemma_nine_pieces(
    m0: Seq<char>,
    m1: Seq<char>,
    m2: Seq<char>,
    m3: Seq<char>,
    m4: Seq<char>,
    m5: Seq<char>,
    m6: Seq<char>,
    m7: Seq<char>,
    m8: Seq<char>,
)
    ensures
        put_together(seq![m0, m1, m2, m3, m4, m5, m6, m7, m8]) == m0 + m1 + m2 + m3 + m4 + m5 + m6 + m7
            + m8,
{
    let none = Seq::<Seq<char>>::empty();
    lemma_one_more(none, m0);
    assert(put_together(none) + m0 =~= m0);
    let p = none.push(m0);
    lemma_one_more(p, m1);
    let p = p.push(m1);
    lemma_one_more(p, m2);
    let p = p.push(m2);
    lemma_one_more(p, m3);
    let p = p.push(m3);
    lemma_one_more(p, m4);
    let p = p.push(m4);
    lemma_one_more(p, m5);
    let p = p.push(m5);
    lemma_one_more(p, m6);
    let p = p.push(m6);
    lemma_one_more(p, m7);
    let p = p.push(m7);
    lemma_one_more(p, m8);
    let p = p.push(m8);
    assert(p =~= seq![m0, m1, m2, m3, m4, m5, m6, m7, m8]);
}

/// The layout tells whether a pane is zoomed and which, all the panes, and the window where there is one.
pub proof fn lemma_layout_in_json(zoomed: Option<u32>, panes: Seq<LeafReport>, window: Option<WindowReport>)
    ensures
        ({
            let t = layout_json(zoomed, panes, window);
            &&& zoomed matches Some(p) ==> has(
                t,
                "{\"zoomed\":"@ + "true"@ + ",\"zoomed_pane\":"@ + decimal(p as nat) + ",\"leaves\":["@,
            )
            &&& zoomed is None ==> has(
                t,
                "{\"zoomed\":"@ + "false"@ + ",\"zoomed_pane\":"@ + "null"@ + ",\"leaves\":["@,
            )
            &&& has(t, ",\"leaves\":["@ + leaves_json(panes) + "]"@)
            &&& window is None ==> has(t, leaves_json(panes) + "]"@ + "}"@)
            &&& window matches Some(w) ==> has(
                t,
                "]"@ + (",\"window\":{\"zoomed\":"@ + (if w.zoomed {
                    "true"@
                } else {
                    "false"@
                }) + ",\"fullscreen\":"@ + (if w.fullscreen {
                    "true"@
                } else {
                    "false"@
                }) + ",\"x\":"@ + w.x@ + ",\"y\":"@ + w.y@ + ",\"w\":"@ + w.w@ + ",\"h\":"@ + w.h@ + "}"@)
                    + "}"@,
            )
        }),
{
    let t = layout_json(zoomed, panes, window);
    let none = Seq::<char>::empty();
    let which = match zoomed {
        Some(p) => decimal(p as nat),
        None => "null"@,
    };
    let head = "{\"zoomed\":"@ + bool_text(zoomed is Some) + ",\"zoomed_pane\":"@ + which;
    let mid = ",\"leaves\":["@;
    let all = leaves_json(panes);
    let tail = match window {
        Some(w) => window_json(w),
        None => none,
    };
    lemma_layout_parts(head, mid, all, "]"@, tail, "}"@);
    if window is None {
        assert(all + "]"@ + none =~= all + "]"@);
    } else {
        lemma_window(window->0);
    }
}

proof fn lemma_layout_parts(
    head: Seq<char>,
    mid: Seq<char>,
    all: Seq<char>,
    close: Seq<char>,
    tail: Seq<char>,
    end: Seq<char>,
)
    ensures
        has(head + mid + all + close + tail + end, head + mid),
        has(head + mid + all + close + tail + end, mid + all + close),
        has(head + mid + all + close + tail + end, all + close + tail + end),
        has(head + mid + all + close + tail + end, close + tail + end),
{
    lemma_last_four(head + mid, all, close, tail, end);
    lemma_last_three(head + mid + all, close, tail, end);
    lemma_last_three(head, mid, all, close);
    lemma_last_two(head + (mid + all + close), tail, end);
    lemma_first_part(head + mid, all + close + tail + end);
    lemma_last_part(head + mid, all + close + tail + end);
    lemma_last_part(head + mid + all, close + tail + end);
    lemma_part(head, mid + all + close, tail + end);
}

proof fn lemma_first_part(a: Seq<char>, b: Seq<char>)
    ensures
        has(a + b, a),
{
    let none = Seq::<char>::empty();
    assert(none + a + b =~= a + b);
    lemma_part(none, a, b);
}

proof fn lemma_last_part(a: Seq<char>, b: Seq<char>)
    ensures
        has(a + b, b),
{
    let none = Seq::<char>::empty();
    assert(a + b + none =~= a + b);
    lemma_part(a, b, none);
}

proof fn lemma_last_two(a: Seq<char>, b: Seq<char>, c: Seq<char>)
    ensures
        a + b + c == a + (b + c),
{
    assert(a + b + c =~= a + (b + c));
}

proof fn lemma_last_three(a: Seq<char>, b: Seq<char>, c: Seq<char>, d: Seq<char>)
    ensures
        a + b + c + d == a + (b + c + d),
{
    assert(a + b + c + d =~= a + (b + c + d));
}

proof fn lemma_last_four(a: Seq<char>, b: Seq<char>, c: Seq<char>, d: Seq<char>, e: Seq<char>)
    ensures
        a + b + c + d + e == a + (b + c + d + e),
{
    assert(a + b + c + d + e =~= a + (b + c + d + e));
}

proof fn lemma_window(w: WindowReport)
    ensures
        window_json(w) == ",\"window\":{\"zoomed\":"@ + (if w.zoomed {
            "true"@
        } else {
            "false"@
        }) + ",\"fullscreen\":"@ + (if w.fullscreen {
            "true"@
        } else {
            "false"@
        }) + ",\"x\":"@ + w.x@ + ",\"y\":"@ + w.y@ + ",\"w\":"@ + w.w@ + ",\"h\":"@ + w.h@ + "}"@,
{
    assert(window_json(w) =~= ",\"window\":{\"zoomed\":"@ + bool_text(w.zoomed) + ",\"fullscreen\":"@
        + bool_text(w.fullscreen) + ",\"x\":"@ + w.x@ + ",\"y\":"@ + w.y@ + ",\"w\":"@ + w.w@
        + ",\"h\":"@ + w.h@ + "}"@);
}

/// The keyboard is given to a pane of the window, or to none; nothing else changes.
pub proof fn lemma_focus_stays_inside(c: &mut PaneContainer, pane: Option<u32>)
    requires
        call_ensures(PaneContainer::set_focus, (c, pane), ()),
    ensures
        final(c).focused() matches Some(p) ==> holds(old(c).tree(), p) && pane == Some(p),
        pane matches Some(p) ==> holds(old(c).tree(), p) ==> final(c).focused() == Some(p),
        final(c).tree() == old(c).tree(),
        final(c).zoomed() == old(c).zoomed(),
{
}

/// A title that the user sets shows at once, over any that the terminal sets; taking it back shows the
/// terminal's last one again, which is kept all the while.
pub proof fn lemma_user_title_wins(
    a: &mut PaneContainer,
    b: &mut PaneContainer,
    c: &mut PaneContainer,
    user: String,
    osc: String,
    x: String,
    y: Option<String>,
    z: String,
)
    requires
        call_ensures(PaneContainer::set_title_override, (a, Some(user)), x),
        call_ensures(PaneContainer::set_last_osc_title, (b, osc), y),
        call_ensures(PaneContainer::set_title_override, (c, None), z),
        *final(a) == *old(b),
        *final(b) == *old(c),
    ensures
        x@ == user@,
        y is None,
        z@ == osc@,
        final(c).osc_title() == Some(osc@),
        final(c).tree() == old(a).tree(),
{
}

/// Without a title of the user's, what the terminal sets shows at once.
pub proof fn lemma_terminal_title_shows(c: &mut PaneContainer, osc: String, y: Option<String>)
    requires
        call_ensures(PaneContainer::set_last_osc_title, (c, osc), y),
        old(c).set_title() is None,
    ensures
        y is Some && y->0@ == osc@,
        title_text(final(c).set_title(), final(c).osc_title()) == osc@,
{
}

/// The zoom key in a window of several panes zooms the one that is meant and gives it the keyboard; the
/// key again shows all panes as they were. The tree is never touched.
pub proof fn lemma_zoom_and_back(
    a: &mut PaneContainer,
    b: &mut PaneContainer,
    x: Vec<PaneAction>,
    y: Vec<PaneAction>,
)
    requires
        call_ensures(PaneContainer::toggle_zoom, (a,), x),
        call_ensures(PaneContainer::toggle_zoom, (b,), y),
        *final(a) == *old(b),
        old(a).panes().len() >= 2,
        old(a).zoomed() is None,
    ensures
        final(a).zoomed() == Some(old(a).target()),
        final(a).focused() == Some(old(a).target()),
        final(b).zoomed() is None,
        final(b).tree() == old(a).tree(),
        final(b).focused() == Some(old(a).target()),
        x@.len() > 0 && x@.last() == PaneAction::Focus(old(a).target()),
        y@ == shows(old(a).panes()) + seq![PaneAction::ShowDividers, PaneAction::Relayout],
{
}

/// In a window of one pane the zoom key is the window's; nothing of the panes changes.
pub proof fn lemma_zoom_of_one_pane(c: &mut PaneContainer, out: Vec<PaneAction>)
    requires
        call_ensures(PaneContainer::toggle_zoom, (c,), out),
        old(c).panes().len() == 1,
    ensures
        out@ == seq![PaneAction::ZoomWindow],
        final(c).tree() == old(c).tree(),
        final(c).zoomed() == old(c).zoomed(),
        final(c).focused() == old(c).focused(),
{
}

/// Zooming where a pane is zoomed does nothing; else it zooms the pane that is meant.
pub proof fn lemma_zoom_once(c: &mut PaneContainer, out: Vec<PaneAction>)
    requires
        call_ensures(PaneContainer::zoom_focused, (c,), out),
    ensures
        old(c).zoomed() is Some ==> out@.len() == 0 && final(c).zoomed() == old(c).zoomed()
            && final(c).focused() == old(c).focused(),
        old(c).zoomed() is None ==> final(c).zoomed() == Some(old(c).target()) && final(c).focused()
            == Some(old(c).target()),
        final(c).tree() == old(c).tree(),
{
}

/// A new pane is in the window, has the keyboard, and no pane is zoomed; all panes that were there still
/// are. Closing it gives the tree back as it was.
pub proof fn lemma_split_and_close(
    a: &mut PaneContainer,
    b: &mut PaneContainer,
    target: u32,
    dir: Dir,
    before: bool,
    new: u32,
    x: Vec<PaneAction>,
    y: Vec<PaneAction>,
)
    requires
        call_ensures(PaneContainer::split_beside, (a, target, dir, before, new), x),
        call_ensures(PaneContainer::close_leaf, (b, new), y),
        *final(a) == *old(b),
        old(a).wf(),
        holds(old(a).tree(), target),
        !holds(old(a).tree(), new),
    ensures
        holds(final(a).tree(), new),
        final(a).focused() == Some(new),
        final(a).zoomed() is None,
        final(a).panes().len() == old(a).panes().len() + 1,
        x@.len() >= 4 && x@.last() == PaneAction::Focus(new),
        x@[x@.len() - 4] == (PaneAction::Attach { pane: new, beside: Some(target) }),
        x@[x@.len() - 3] == PaneAction::AddDivider(old(a).next()),
        final(b).tree() == old(a).tree(),
        y@.contains(PaneAction::RemoveDivider(old(a).next())),
        y@.contains(PaneAction::CloseSurface(new)),
{
    let t = old(a).tree();
    let m = final(a).tree();
    crate::pane::tree::lemma_inserted_leaves(t, target, new, dir, old(a).next(), before);
    crate::pane::tree::lemma_remove_undoes_insert(t, target, new, dir, old(a).next(), before);
    lemma_leaves(t);
    lemma_leaves(m);
    let i = choose|i: int|
        0 <= i < leaves(t).len() && #[trigger] leaves(t)[i] == target && leaves(m) == leaves(t).insert(
            if before {
                i
            } else {
                i + 1
            },
            new,
        );
    let k = if before {
        i
    } else {
        i + 1
    };
    assert(leaves(m)[k] == new);
    lemma_what_closing_asks_for(m, new, old(b).zoomed(), old(b).focused());
    let rest = without(leaves(m), new);
    let handed = if old(b).focused() == Some(new) && rest.len() > 0 {
        1int
    } else {
        0
    };
    assert(y@[handed] == PaneAction::CloseSurface(new));
    assert(y@[handed + 2] == PaneAction::RemoveDivider(dropped(m, new)[0]));
}

/// Splitting beside a pane that is not there leaves the tree and the keyboard, and only leaves the zoom.
pub proof fn lemma_no_split_beside_nothing(
    c: &mut PaneContainer,
    target: u32,
    dir: Dir,
    before: bool,
    new: u32,
    out: Vec<PaneAction>,
)
    requires
        call_ensures(PaneContainer::split_beside, (c, target, dir, before, new), out),
        !holds(old(c).tree(), target),
    ensures
        final(c).tree() == old(c).tree(),
        final(c).focused() == old(c).focused(),
        final(c).next() == old(c).next(),
        final(c).zoomed() is None,
        old(c).zoomed() is None ==> out@.len() == 0,
{
}

/// A new pane beside the one that is meant stands in a split of the direction that was asked for, with
/// half the room each.
pub proof fn lemma_split_of_the_meant_pane(c: &mut PaneContainer, dir: Dir, before: bool, new: u32, out: Vec<PaneAction>)
    requires
        call_ensures(PaneContainer::split_focused, (c, dir, before, new), out),
        old(c).wf(),
        !holds(old(c).tree(), new),
    ensures
        final(c).tree() == inserted(old(c).tree(), old(c).target(), new, dir, old(c).next(), before),
        final(c).focused() == Some(new),
        final(c).next() == old(c).next() + 1,
        out@.last() == PaneAction::Focus(new),
        out@[out@.len() - 4] == (PaneAction::Attach { pane: new, beside: Some(old(c).target()) }),
        old(c).focused() matches Some(f) ==> old(c).target() == f,
        old(c).focused() is None ==> old(c).target() == old(c).panes()[0],
{
}

/// Closing the last pane closes the window. Closing another leaves just the others, in their order; the
/// keyboard goes to the first of them where the pane had it or none did; and no pane that is gone is
/// zoomed.
pub proof fn lemma_closed_pane_is_gone(c: &mut PaneContainer, pane: u32, out: Vec<PaneAction>)
    requires
        call_ensures(PaneContainer::close_leaf, (c, pane), out),
        old(c).wf(),
        holds(old(c).tree(), pane),
    ensures
        old(c).panes().len() == 1 ==> out@ == seq![PaneAction::CloseWindow] && final(c).tree()
            == old(c).tree(),
        old(c).panes().len() > 1 ==> {
            &&& final(c).panes() == without(old(c).panes(), pane)
            &&& !out@.contains(PaneAction::CloseWindow)
            &&& old(c).focused() is None || old(c).focused() == Some(pane) ==> final(c).focused() == Some(
                final(c).panes()[0],
            )
            &&& old(c).focused() matches Some(f) ==> f != pane ==> final(c).focused() == Some(f)
            &&& old(c).zoomed() == Some(pane) ==> final(c).zoomed() is None
            &&& old(c).zoomed() != Some(pane) ==> final(c).zoomed() == old(c).zoomed()
        },
{
    lemma_leaves(old(c).tree());
}

/// The keyboard goes to a neighbour where there is one, and to none that lies farther than another; where
/// there is none it stays. Only a pane that had it can hand it on.
pub proof fn lemma_keyboard_goes_to_the_nearest(
    c: &mut PaneContainer,
    candidates: &Vec<Candidate>,
    out: Vec<PaneAction>,
    f: u32,
)
    requires
        call_ensures(PaneContainer::focus_dir, (c, candidates), out),
        old(c).focused() == Some(f),
    ensures
        final(c).zoomed() is None,
        final(c).tree() == old(c).tree(),
        (forall|i: int| 0 <= i < candidates@.len() ==> !is_neighbour(#[trigger] candidates@[i], f))
            ==> final(c).focused() == Some(f),
        (exists|i: int| 0 <= i < candidates@.len() && is_neighbour(#[trigger] candidates@[i], f)) ==> exists|
            k: int,
        |
            0 <= k < candidates@.len() && final(c).focused() == Some((#[trigger] candidates@[k]).pane)
                && is_neighbour(candidates@[k], f) && out@.last() == PaneAction::Focus(candidates@[k].pane)
                && forall|i: int|
                0 <= i < candidates@.len() && is_neighbour(#[trigger] candidates@[i], f)
                    ==> candidates@[k].distance <= candidates@[i].distance,
{
    let s = candidates@;
    lemma_nearest_gets_keyboard(s, f);
    if nearest(s, f) is Some {
        let b = nearest(s, f)->0;
        let k = choose|k: int|
            {
                &&& 0 <= k < s.len()
                &&& #[trigger] s[k] == b
                &&& b.pane != f && b.overlaps && !b.backward
                &&& forall|i: int|
                    0 <= i < s.len() && is_neighbour(#[trigger] s[i], f) ==> b.distance <= s[i].distance
                &&& forall|i: int|
                    0 <= i < k && is_neighbour(#[trigger] s[i], f) ==> b.distance < s[i].distance
            };
        assert(is_neighbour(s[k], f));
    }
}

/// The keyboard goes to the next pane, or the one before, and on from the last to the first; a window of
/// one pane keeps it where it is.
pub proof fn lemma_keyboard_goes_round(c: &mut PaneContainer, step: isize, out: Vec<PaneAction>, i: int)
    requires
        call_ensures(PaneContainer::cycle_focus, (c, step), out),
        old(c).panes().no_duplicates(),
        0 <= i < old(c).panes().len(),
        old(c).focused() == Some(old(c).panes()[i]),
    ensures
        ({
            let n = old(c).panes().len();
            &&& n >= 2 && step == 1 && i + 1 < n ==> final(c).focused() == Some(old(c).panes()[i + 1])
            &&& n >= 2 && step == 1 && i + 1 == n ==> final(c).focused() == Some(old(c).panes()[0])
            &&& n >= 2 && step == -1 && i > 0 ==> final(c).focused() == Some(old(c).panes()[i - 1])
            &&& n >= 2 && step == -1 && i == 0 ==> final(c).focused() == Some(old(c).panes()[n - 1])
            &&& n == 1 ==> final(c).focused() == old(c).focused()
            &&& n >= 2 ==> out@.last() == PaneAction::Focus(final(c).focused()->0)
            &&& final(c).zoomed() is None
        }),
{
    let s = old(c).panes();
    lemma_first_place_counts(s, s[i]);
    let k = index_in(s, s[i]);
    assert(s.contains(s[i]));
    assert(k == Some(i));
    lemma_focus_goes_round(s.len() as int, i);
}

/// A zoomed pane has all the room; else the room is walked as the tree is.
pub proof fn lemma_room_of_the_panes(c: &PaneContainer, out: Vec<Step>)
    requires
        call_ensures(PaneContainer::relayout, (c,), out),
    ensures
        c.zoomed() is None ==> out@ == walk(c.tree()),
        c.zoomed() matches Some(p) ==> out@.len() == 1 && out@[0] == (Step::Leaf { pane: p }),
{
}

/// A resize key moves a divider across its direction, around the pane that is meant; the first side grows
/// for down and right. The tree itself is not touched yet.
pub proof fn lemma_which_divider_moves(
    c: &mut PaneContainer,
    direction: ResizeDir,
    r: (Vec<PaneAction>, Option<ResizePlan>),
)
    requires
        call_ensures(PaneContainer::resize_split, (c, direction), r),
    ensures
        final(c).tree() == old(c).tree(),
        r.1 matches Some(p) ==> {
            &&& p.axis == Dir::Vertical <==> direction == ResizeDir::Up || direction == ResizeDir::Down
            &&& p.grow <==> direction == ResizeDir::Down || direction == ResizeDir::Right
            &&& nearest_split(old(c).tree(), old(c).target(), p.axis) == Some((p.split, p.ratio))
        },
        r.1 is None ==> nearest_split(
            old(c).tree(),
            old(c).target(),
            if direction == ResizeDir::Up || direction == ResizeDir::Down {
                Dir::Vertical
            } else {
                Dir::Horizontal
            },
        ) is None,
{
}

/// A share that is set is kept in bounds, and equal shares are halves; panes and keyboard stay.
pub proof fn lemma_shares_are_set(
    a: &mut PaneContainer,
    b: &mut PaneContainer,
    split: u64,
    ratio: u64,
    x: Vec<PaneAction>,
    y: Vec<PaneAction>,
)
    requires
        call_ensures(PaneContainer::set_ratio, (a, split, ratio), x),
        call_ensures(PaneContainer::equalize, (b,), y),
    ensures
        final(a).tree() == with_ratio(old(a).tree(), split, in_bounds(ratio)),
        x@ == seq![PaneAction::Relayout],
        final(a).zoomed() == old(a).zoomed(),
        final(b).tree() == with_all_ratios(old(b).tree(), 0x3fe0_0000_0000_0000),
        y@.last() == PaneAction::Relayout,
        final(b).zoomed() is None,
        final(a).panes() == old(a).panes(),
        final(b).panes() == old(b).panes(),
{
}

/// What is saved of a window and then put back has the same splits, directions, shares and directories,
/// with the new panes in the places of the old ones.
pub proof fn lemma_saved_window_comes_back(
    a: &PaneContainer,
    pwds: &Vec<Option<String>>,
    d: LayoutNode,
    b: &mut PaneContainer,
    panes: &Vec<u32>,
    r: (Vec<PaneAction>, Vec<Option<String>>),
)
    requires
        call_ensures(PaneContainer::dump_layout, (a, pwds), d),
        call_ensures(PaneContainer::restore_layout, (b, &d, panes), r),
        a.wf(),
    ensures
        shape(final(b).tree()) == shape(a.tree()),
        final(b).panes() == panes@,
        walk(final(b).tree()).len() == saved_walk(d).len(),
        forall|i: int| 0 <= i < panes@.len() ==> opt_string(#[trigger] r.1@[i]) == saved_pwds(d)[i],
{
    crate::pane::tree::lemma_bounded(a.tree());
    lemma_made_of_saved(final(b).tree(), d);
}

} // verus!
