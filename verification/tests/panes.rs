use ninja::layer::{
    any_layers, close, close_all, close_by_conn, close_pane, draw_list, foreground, open, present,
    Registry, TAB_PANE,
};
use ninja::notify::{
    clear_delivered, drain_focus, forget_notification, forget_pane, must_unzoom, notification_id,
    parse_pane_id, post, remember_id, request_focus, should_present_banner,
    should_present_for_pane, show, shutdown, take_ids, Delivered,
};
use ninja::pane::tree::{
    clamp_share, collect_leaves, collect_pwds, collect_splits, find_ancestor_split, insert_beside,
    leaf_count_of, node_contains, remove_leaf, Dir, LayoutNode, Node, Step, HALF, RATIO_MAX,
    RATIO_MIN,
};
use ninja::pane::{
    json_escape, same_view, zoom_decision, zoom_state_json, Candidate, LeafReport, PaneAction,
    PaneContainer, ResizeDir, WindowReport, ZoomDecision,
};

#[test]
fn zoom_decision_state_machine() {
    assert_eq!(zoom_decision(1, false, true), ZoomDecision::WindowZoom);
    assert_eq!(zoom_decision(1, true, true), ZoomDecision::WindowZoom);
    assert_eq!(zoom_decision(0, false, false), ZoomDecision::WindowZoom);
    assert_eq!(zoom_decision(2, false, true), ZoomDecision::ZoomFocused);
    assert_eq!(zoom_decision(3, false, true), ZoomDecision::ZoomFocused);
    assert_eq!(zoom_decision(2, true, true), ZoomDecision::Restore);
    assert_eq!(zoom_decision(3, true, false), ZoomDecision::Restore);
    assert_eq!(zoom_decision(2, false, false), ZoomDecision::Nothing);
}

#[test]
fn json_escape_minimal() {
    assert_eq!(json_escape("tick 42"), "tick 42");
    assert_eq!(json_escape("a\"b\\c"), "a\\\"b\\\\c");
    assert_eq!(json_escape("\u{1}"), " ");
}

#[test]
fn banner_hidden_only_when_key_and_focused() {
    assert!(!should_present_banner(true, true));
    assert!(should_present_banner(true, false));
    assert!(should_present_banner(false, true));
    assert!(should_present_banner(false, false));
}

#[test]
fn pane_id_rejects_zero_and_junk() {
    assert_eq!(parse_pane_id("2"), Some(2));
    assert_eq!(parse_pane_id("0"), None);
    assert_eq!(parse_pane_id(""), None);
    assert_eq!(parse_pane_id("nope"), None);
}

#[test]
fn numbers_of_panes() {
    assert_eq!(parse_pane_id("+7"), Some(7));
    assert_eq!(parse_pane_id("4294967295"), Some(4294967295));
    assert_eq!(parse_pane_id("4294967296"), None);
    assert_eq!(parse_pane_id("-1"), None);
    assert_eq!(parse_pane_id("+"), None);
    assert_eq!(parse_pane_id(" 1"), None);
}

#[test]
fn notices_of_panes() {
    let mut d = Delivered::new();
    assert_eq!(notification_id(3, 12), "ninja-pane-3-12");
    remember_id(&mut d, 3, "a".to_string());
    remember_id(&mut d, 3, "b".to_string());
    remember_id(&mut d, 4, "c".to_string());
    forget_notification(&mut d, "a");
    assert_eq!(clear_delivered(&mut d, 3), vec!["b"]);
    assert!(take_ids(&mut d, 3).is_empty());
    assert_eq!(forget_pane(&mut d, 4), vec!["c"]);
    remember_id(&mut d, 5, "e".to_string());
    shutdown(&mut d);
    assert!(take_ids(&mut d, 5).is_empty());
    let text = |s: &str| s.to_string();
    assert_eq!(show(true, &mut d, 0, 1, text("t"), text("b"), text("")), None);
    assert_eq!(show(false, &mut d, 9, 1, text("t"), text("b"), text("")), None);
    let n = show(true, &mut d, 9, 1, text("t"), text("b"), text("")).unwrap();
    assert_eq!((n.id.as_str(), n.title.as_str()), ("ninja-pane-9-1", "t"));
    assert_eq!((n.body, n.subtitle, parse_pane_id(&n.pane)), (Some(text("b")), None, Some(9)));
    assert_eq!(take_ids(&mut d, 9), vec!["ninja-pane-9-1"]);
    assert_eq!(post(&mut d, 9, 2, text("t"), text(""), text("w")).subtitle, Some(text("w")));
    let mut pending = 0;
    assert_eq!(drain_focus(&mut pending), None);
    request_focus(&mut pending, 6);
    assert_eq!(drain_focus(&mut pending), Some(6));
    assert_eq!(drain_focus(&mut pending), None);
    assert!(should_present_for_pane(false, Some((true, true))));
    assert!(!should_present_for_pane(true, Some((true, true))));
    assert!(!should_present_for_pane(true, None));
    assert!(must_unzoom(Some(1), 2));
    assert!(!must_unzoom(Some(1), 1));
    assert!(!must_unzoom(None, 1));
}

#[test]
fn registry_lifecycle() {
    let mut reg = Registry::new();
    assert!(close_pane(&mut reg, 4242).is_empty());
    assert!(close(&mut reg, 99).is_empty());
    assert!(close_by_conn(&mut reg, 7).is_empty());
    assert!(close_all(&mut reg).is_empty());
    assert!(!any_layers(&reg));
    assert!(foreground(&reg, 4242).is_none());
    assert!(draw_list(&reg, 4242).is_empty());
}

#[test]
fn layers_come_and_go() {
    let mut reg = Registry::new();
    let a = open(&mut reg, 1, 640, 480, 10, 0);
    let b = open(&mut reg, 2, 640, 480, 11, 0);
    let c = open(&mut reg, TAB_PANE, 640, 480, 10, 0);
    assert_eq!((a, b, c), (1, 2, 3));
    assert!(any_layers(&reg));
    assert_eq!(foreground(&reg, 1), Some((a, 10)));
    assert!(draw_list(&reg, 1).is_empty());
    assert_eq!(present(&mut reg, a), Some(1));
    assert_eq!(present(&mut reg, 9), None);
    assert_eq!(draw_list(&reg, 1), vec![a]);
    assert!(draw_list(&reg, 2).is_empty());
    let closed = close_by_conn(&mut reg, 10);
    assert_eq!(closed.iter().map(|e| e.handle).collect::<Vec<u64>>(), vec![a, c]);
    assert_eq!(foreground(&reg, 1), None);
    let d = open(&mut reg, 2, 1, 1, 10, 0);
    assert_eq!(d, 4);
    assert_eq!(foreground(&reg, 2), Some((d, 10)));
    assert!(reg.get(b).is_none(), "a pane has one layer");
    assert_eq!(close_pane(&mut reg, 2).len(), 1);
    assert!(!any_layers(&reg));
}

fn split(dir: Dir, id: u64, first: Node, second: Node) -> Node {
    Node::Split { dir, id, ratio: HALF, first: Box::new(first), second: Box::new(second) }
}

fn panes_of(n: &Node) -> Vec<u32> {
    let mut out = Vec::new();
    collect_leaves(n, &mut out);
    out
}

#[test]
fn taking_out_undoes_putting_in() {
    let one = split(Dir::Horizontal, 1, Node::Leaf(1), Node::Leaf(2));
    let (two, done) = insert_beside(one, 2, 3, Dir::Vertical, 2, true);
    assert!(done);
    assert_eq!(panes_of(&two), vec![1, 3, 2]);
    let mut ids = Vec::new();
    collect_splits(&two, &mut ids);
    assert_eq!(ids, vec![1, 2]);
    let mut gone = Vec::new();
    let back = remove_leaf(two, 3, &mut gone).unwrap();
    assert_eq!(gone, vec![2]);
    assert_eq!(back, split(Dir::Horizontal, 1, Node::Leaf(1), Node::Leaf(2)));
    let (same, done) = insert_beside(back, 9, 4, Dir::Vertical, 3, false);
    assert!(!done);
    assert!(!node_contains(&same, 4));
    assert_eq!(remove_leaf(Node::Leaf(7), 7, &mut gone), None);
    assert_eq!(remove_leaf(Node::Leaf(7), 8, &mut gone), Some(Node::Leaf(7)));
}

#[test]
fn the_nearest_split_of_a_direction() {
    let t = split(
        Dir::Horizontal,
        1,
        Node::Leaf(1),
        split(Dir::Vertical, 2, Node::Leaf(2), split(Dir::Horizontal, 3, Node::Leaf(3), Node::Leaf(4))),
    );
    assert_eq!(find_ancestor_split(&t, 4, Dir::Horizontal), Some((3, HALF)));
    assert_eq!(find_ancestor_split(&t, 2, Dir::Horizontal), Some((1, HALF)));
    assert_eq!(find_ancestor_split(&t, 1, Dir::Vertical), None);
}

#[test]
fn zoom_hides_and_shows() {
    let mut c = PaneContainer::new(1);
    assert_eq!(c.toggle_zoom(), vec![PaneAction::ZoomWindow]);
    c.split_focused(Dir::Horizontal, false, 2);
    assert_eq!(c.leaves(), vec![1, 2]);
    assert_eq!(c.focused_leaf(), Some(2));
    assert_eq!(
        c.toggle_zoom(),
        vec![
            PaneAction::Hide(1),
            PaneAction::HideDividers,
            PaneAction::Relayout,
            PaneAction::Focus(2)
        ]
    );
    assert_eq!(c.zoomed_pane_id(), Some(2));
    assert!(c.zoom_focused().is_empty());
    assert_eq!(
        c.toggle_zoom(),
        vec![
            PaneAction::Show(1),
            PaneAction::Show(2),
            PaneAction::ShowDividers,
            PaneAction::Relayout
        ]
    );
    assert!(!c.is_zoomed());
}

#[test]
fn the_keyboard_goes_round() {
    let mut c = PaneContainer::new(1);
    assert!(c.cycle_focus(1).is_empty());
    c.split_focused(Dir::Horizontal, false, 2);
    c.split_focused(Dir::Vertical, false, 3);
    c.cycle_focus(1);
    assert_eq!(c.focused_leaf(), Some(1));
    c.cycle_focus(-1);
    assert_eq!(c.focused_leaf(), Some(3));
    c.focus_dir(&vec![
        Candidate { pane: 1, overlaps: true, backward: false, distance: 90 },
        Candidate { pane: 2, overlaps: true, backward: false, distance: 10 },
    ]);
    assert_eq!(c.focused_leaf(), Some(2));
    c.set_focus(Some(77));
    assert_eq!(c.focused_leaf(), None);
    assert_eq!(c.first_leaf(), 1);
    assert!(c.contains(3) && !c.contains(4));
    assert!(same_view(3, 3) && !same_view(3, 4));
}

#[test]
fn the_last_pane_closes_the_window() {
    let mut c = PaneContainer::new(1);
    c.split_beside(1, Dir::Horizontal, true, 2);
    assert_eq!(c.leaves(), vec![2, 1]);
    c.close_leaf(2);
    assert_eq!(c.leaves(), vec![1]);
    assert!(c.close_leaf(1).contains(&PaneAction::CloseWindow));
    assert!(PaneContainer::new(5).shutdown_all() == vec![PaneAction::CloseSurface(5)]);
}

#[test]
fn titles_of_windows() {
    let mut c = PaneContainer::new(1);
    assert_eq!(c.title(), "ninja");
    assert_eq!(c.set_last_osc_title("zsh".to_string()), Some("zsh".to_string()));
    assert_eq!(c.set_title_override(Some("mine".to_string())), "mine");
    assert_eq!(c.set_last_osc_title("vim".to_string()), None);
    assert_eq!(c.title_override(), Some("mine".to_string()));
    assert_eq!(c.set_title_override(None), "vim");
}

#[test]
fn layouts_are_saved_and_restored() {
    let mut c = PaneContainer::new(1);
    c.split_focused(Dir::Horizontal, false, 2);
    c.split_focused(Dir::Vertical, false, 3);
    let dump = c.dump_layout(&vec![Some("/a".to_string()), None, Some("/c".to_string())]);
    assert_eq!(leaf_count_of(&dump), 3);
    let mut pwds = Vec::new();
    collect_pwds(&dump, &mut pwds);
    assert_eq!(pwds, vec![Some("/a".to_string()), None, Some("/c".to_string())]);
    let mut d = PaneContainer::new(9);
    let (actions, dirs) = d.restore_layout(&dump, &vec![11, 12, 13]);
    assert_eq!(dirs, pwds);
    let started: Vec<PaneAction> =
        actions.into_iter().filter(|a| matches!(a, PaneAction::Attach { .. })).collect();
    assert_eq!(
        started,
        vec![
            PaneAction::Attach { pane: 11, beside: None },
            PaneAction::Attach { pane: 12, beside: Some(11) },
            PaneAction::Attach { pane: 13, beside: Some(11) },
        ]
    );
    assert_eq!(d.leaves(), vec![11, 12, 13]);
    match d.dump_layout(&pwds) {
        LayoutNode::Split { dir, ratio, .. } => assert_eq!((dir.as_str(), ratio), ("h", HALF)),
        LayoutNode::Leaf { .. } => panic!("the layout has three panes"),
    }
    assert_eq!(
        d.relayout().iter().filter(|s| matches!(s, Step::Leaf { .. })).count(),
        3
    );
}

#[test]
fn shares_change_without_moving_panes() {
    let mut c = PaneContainer::new(1);
    assert_eq!(c.resize_split(ResizeDir::Left).1, None);
    c.split_focused(Dir::Horizontal, false, 2);
    let plan = c.resize_split(ResizeDir::Right).1.unwrap();
    assert_eq!((plan.split, plan.ratio, plan.axis, plan.grow), (1, HALF, Dir::Horizontal, true));
    c.set_ratio(1, 0x3fd0_0000_0000_0000);
    assert_eq!(c.resize_split(ResizeDir::Left).1.unwrap().ratio, 0x3fd0_0000_0000_0000);
    assert!(!c.resize_split(ResizeDir::Left).1.unwrap().grow);
    assert_eq!(c.resize_split(ResizeDir::Up).1, None);
    c.equalize();
    assert_eq!(c.resize_split(ResizeDir::Left).1.unwrap().ratio, HALF);
    assert_eq!(c.leaves(), vec![1, 2]);
}

#[test]
fn the_state_of_the_zoom_is_json() {
    let leaf = LeafReport {
        pane: 4,
        hidden: true,
        x: "0.0".to_string(),
        y: "1.5".to_string(),
        w: "10.0".to_string(),
        h: "20.0".to_string(),
        cols: 80,
        rows: 24,
        last: "a \"b\"".to_string(),
    };
    let window = WindowReport {
        zoomed: true,
        fullscreen: false,
        x: "1.0".to_string(),
        y: "2.0".to_string(),
        w: "3.0".to_string(),
        h: "4.0".to_string(),
    };
    let text = zoom_state_json(Some(4), &vec![leaf], &Some(window));
    let v: serde_json::Value = serde_json::from_str(&text).unwrap();
    assert_eq!(v["zoomed"], true);
    assert_eq!(v["zoomed_pane"], 4);
    assert_eq!(v["leaves"][0]["last"], "a \"b\"");
    assert_eq!(v["leaves"][0]["cols"], 80);
    assert_eq!(v["window"]["zoomed"], true);
    let none: serde_json::Value =
        serde_json::from_str(&zoom_state_json(None, &Vec::new(), &None)).unwrap();
    assert!(none["zoomed_pane"].is_null());
}

#[test]
fn shares_have_bounds() {
    let bits = |x: f64| x.to_bits();
    for x in [0.15, 0.85, 0.5, 0.2, 0.0, -0.0, -3.0, 0.1499, 0.8501, 7.0, 1e-320] {
        assert_eq!(clamp_share(bits(x)), bits(x.clamp(0.15, 0.85)), "{x}");
    }
    assert_eq!(clamp_share(bits(f64::INFINITY)), bits(0.85));
    assert_eq!(clamp_share(bits(f64::NEG_INFINITY)), bits(0.15));
    assert!(f64::from_bits(clamp_share(bits(f64::NAN))).is_nan());
    assert_eq!((RATIO_MIN, RATIO_MAX), (bits(0.15), bits(0.85)));
    let mut c = PaneContainer::new(1);
    c.split_focused(Dir::Horizontal, false, 2);
    c.set_ratio(1, bits(0.99));
    assert_eq!(c.resize_split(ResizeDir::Left).1.unwrap().ratio, bits(0.85));
    let wild = LayoutNode::Split {
        dir: "v".to_string(),
        ratio: bits(0.01),
        first: Box::new(LayoutNode::Leaf { pwd: None }),
        second: Box::new(LayoutNode::Leaf { pwd: None }),
    };
    c.restore_layout(&wild, &vec![5, 6]);
    assert_eq!(c.resize_split(ResizeDir::Up).1.unwrap().ratio, bits(0.15));
}
