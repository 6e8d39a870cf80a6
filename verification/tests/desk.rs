use ninja::clipboard::{clip_file_name, opinionated_text, paste_text, shell_escape, PasteItem};
use ninja::config::files::WatchedFile;
use ninja::config::keys::{KeyEquivalent, MENU_ACTIONS};
use ninja::embed::{
    find_row, keys_ok, parse_args, region_ok, scan_point, screen_note, screen_number, viewport_ok,
    Args, Demo, EmbedAction, Finding, Tick, TimelineStep, STEP_TIMES_MS,
};
use ninja::host::{
    bg_rgb, clipboard_write, config, current_pane, dispatch_action, divider_rgb, ring_rgb, with_app,
    Action, Goto, Host, HostEffect, LiveSurface, Origin, Side, BG_FALLBACK, DIVIDER_FALLBACK,
    RING_FALLBACK,
};
use ninja::keymap::{MASK_CMD, MASK_SHIFT};
use ninja::menu::{
    build_menu, menu_flags, menu_key, selftest_steps, zoom_tick, HookCommand, MenuLine,
    SelfTestStep, Windows, EDIT_ITEMS, PANES_ITEMS,
};
use ninja::pane::tree::Dir;
use ninja::pane::ResizeDir;

#[test]
fn shell_escape_matches_ghostty() {
    let cases = [
        ("hello", "hello"),
        ("", ""),
        ("file name", "file\\ name"),
        ("a\\b", "a\\\\b"),
        ("(foo)", "\\(foo\\)"),
        ("[bar]", "\\[bar\\]"),
        ("{baz}", "\\{baz\\}"),
        ("<qux>", "\\<qux\\>"),
        ("say\"hi\"", "say\\\"hi\\\""),
        ("it's", "it\\'s"),
        ("`cmd`", "\\`cmd\\`"),
        ("wow!", "wow\\!"),
        ("#comment", "\\#comment"),
        ("$HOME", "\\$HOME"),
        ("a&b", "a\\&b"),
        ("a;b", "a\\;b"),
        ("a|b", "a\\|b"),
        ("*.txt", "\\*.txt"),
        ("file?.log", "file\\?.log"),
        ("col1\tcol2", "col1\\\tcol2"),
        ("$(echo 'hi')", "\\$\\(echo\\ \\'hi\\'\\)"),
        ("/tmp/my file (1).txt", "/tmp/my\\ file\\ \\(1\\).txt"),
    ];
    for (input, expected) in cases {
        assert_eq!(shell_escape(input), expected, "escape {input:?}");
    }
}

fn item(path: Option<&str>, text: Option<&str>) -> PasteItem {
    PasteItem { file_path: path.map(|p| p.to_string()), text: text.map(|t| t.to_string()) }
}

#[test]
fn what_is_pasted() {
    assert_eq!(
        opinionated_text(&vec![item(Some("/a b"), Some("x")), item(None, Some("t t"))]),
        Some("/a\\ b t t".to_string())
    );
    assert_eq!(opinionated_text(&vec![item(None, None)]), None);
    assert_eq!(paste_text(Some("x".to_string()), Some("/i".to_string())), Some("x".to_string()));
    assert_eq!(paste_text(None, Some("/a b".to_string())), Some("/a\\ b".to_string()));
    assert_eq!(paste_text(None, None), None);
    assert_eq!(clip_file_name(7, 3), "ninja-clip-7-3.png");
    assert_eq!(clipboard_write(true, Some(vec![0xe4, 0xb8, 0xad])), Some("中".to_string()));
    assert_eq!(clipboard_write(true, Some(vec![0xff])), None);
    assert_eq!(clipboard_write(false, Some(vec![b'x'])), None);
    assert_eq!(clipboard_write(true, None), None);
}

fn in_panes() -> Origin {
    Origin { pane: Some(4), window: true, panes: true, visible: true }
}

const NOWHERE: Origin = Origin { pane: None, window: false, panes: false, visible: false };

#[test]
fn actions_of_the_terminal() {
    assert_eq!(
        dispatch_action(in_panes(), Action::NewSplit(Some(Side::Up))),
        Some(HostEffect::Split(4, Dir::Vertical, true))
    );
    assert_eq!(dispatch_action(in_panes(), Action::NewSplit(None)), None);
    assert_eq!(dispatch_action(NOWHERE, Action::NewSplit(Some(Side::Up))), None);
    assert_eq!(dispatch_action(NOWHERE, Action::NewTab), Some(HostEffect::OpenTab(None)));
    assert_eq!(
        dispatch_action(in_panes(), Action::GotoSplit(Goto::Previous)),
        Some(HostEffect::CycleFocus(false))
    );
    assert_eq!(
        dispatch_action(in_panes(), Action::GotoSplit(Goto::To(Side::Right))),
        Some(HostEffect::FocusDir(Dir::Horizontal, true))
    );
    assert_eq!(
        dispatch_action(in_panes(), Action::ResizeSplit(Some(Side::Left), 10)),
        Some(HostEffect::Resize(ResizeDir::Left, 10))
    );
    assert_eq!(
        dispatch_action(in_panes(), Action::OpenUrl("https://x".to_string())),
        Some(HostEffect::OpenUrl(4, "https://x".to_string()))
    );
    assert_eq!(
        dispatch_action(NOWHERE, Action::SetTitle("t".to_string())),
        Some(HostEffect::Nothing)
    );
    assert_eq!(dispatch_action(in_panes(), Action::Render), Some(HostEffect::Draw));
    assert_eq!(dispatch_action(in_panes(), Action::Other), None);
}

fn seen(mtime: i128) -> Vec<WatchedFile> {
    vec![WatchedFile { path: "/c".to_string(), mtime: Some(mtime) }]
}

#[test]
fn the_mouse_looks_for_a_link() {
    let mut points = Vec::new();
    while let Some(p) = scan_point(points.len(), 2, 24, false) {
        points.push(p);
    }
    assert_eq!(
        points,
        vec![(0, 7), (0, 40), (0, 80), (0, 110), (1, 7), (1, 40), (1, 80), (1, 110)]
    );
    assert_eq!(scan_point(0, 2, 24, true), None);
    assert_eq!(scan_point(4, 9, 1, false), None);
    assert_eq!(scan_point(0, 0, 24, false), None);
}

#[test]
fn surfaces_are_freed_later() {
    let mut h = Host::init(1, 2, seen(5), None, None, None);
    assert_eq!(h.next_pane_id(), 1);
    assert_eq!(h.next_pane_id(), 2);
    h.attach_surface(10, 1);
    h.attach_surface(20, 2);
    assert!(h.close_leaf_deferred(10));
    assert!(!h.close_leaf_deferred(20));
    assert!(!h.close_leaf_deferred(99));
    assert_eq!(
        h.free_tick(),
        vec![LiveSurface { surface: 10, pane: 1 }, LiveSurface { surface: 20, pane: 2 }]
    );
    h.attach_surface(30, 3);
    h.close_leaf_now(30);
    h.attach_surface(40, 4);
    assert_eq!(h.shutdown(), vec![LiveSurface { surface: 40, pane: 4 }]);
}

#[test]
fn reloads_are_joined() {
    let mut h = Host::init(1, 2, seen(5), None, None, None);
    assert!(h.schedule_reload());
    assert!(!h.schedule_reload());
    assert!(h.reload_tick());
    assert!(!h.reload_tick());
    assert!(!h.watch_tick(seen(5)));
    assert!(h.watch_tick(seen(6)));
    assert!(!h.watch_tick(seen(7)));
    assert_eq!(h.apply_reload(3, seen(7)), 2);
    let h = Some(h);
    assert_eq!(config(&h), Some(3));
    assert_eq!(with_app(&h), Some(1));
    assert_eq!(config(&None), None);
}

#[test]
fn colours_of_the_window() {
    assert_eq!(
        (ring_rgb(&None), bg_rgb(&None), divider_rgb(&None)),
        (RING_FALLBACK, BG_FALLBACK, DIVIDER_FALLBACK)
    );
    let mut h = Host::init(1, 2, Vec::new(), Some((0, 16, 250)), None, Some((1, 2, 3)));
    h.refresh_derived(Some((0, 16, 250)), Some((7, 8, 9)), Some((1, 2, 3)));
    let h = Some(h);
    assert_eq!(bg_rgb(&h), (0, 16, 250));
    assert_eq!(ring_rgb(&h), (7, 8, 9));
    assert_eq!(divider_rgb(&h), (63, 79, 255));
    assert_eq!(current_pane(Some((None, Some(3))), &vec![(9, true)]), Some(3));
    assert_eq!(current_pane(None, &vec![(8, false), (9, true)]), Some(9));
    assert_eq!(current_pane(None, &Vec::new()), None);
}

#[test]
fn the_menu_bar() {
    let bar = build_menu();
    assert_eq!(
        bar.iter().map(|m| m.0).collect::<Vec<&str>>(),
        vec!["", "File", "Panes", "Window", "Edit"]
    );
    assert_eq!(bar[0].1, vec![MenuLine::Item(0), MenuLine::Separator, MenuLine::Item(1)]);
    assert_eq!(bar[2].1.len(), PANES_ITEMS.len() + 2);
    for (_, _, action) in EDIT_ITEMS {
        assert!(MENU_ACTIONS.contains(&action));
    }
    let e = KeyEquivalent { key: 'd' as u16, cmd: true, ctrl: false, alt: false, shift: true };
    assert_eq!(menu_key(Some(e)), "d");
    assert_eq!(menu_key(None), "");
    assert_eq!(menu_key(Some(KeyEquivalent { key: 0xD800, ..e })), "");
    assert_eq!(menu_flags(e), MASK_CMD | MASK_SHIFT);
}

#[test]
fn commands_of_tests() {
    assert_eq!(
        selftest_steps("tab, split,win,close,closepane,closebinding,reloadcfg,cfgdump,x"),
        vec![
            SelfTestStep::NewTab,
            SelfTestStep::Split,
            SelfTestStep::NewWindow,
            SelfTestStep::Close,
            SelfTestStep::ClosePane,
            SelfTestStep::CloseBinding,
            SelfTestStep::ReloadConfig,
            SelfTestStep::DumpConfig,
            SelfTestStep::Unknown("x".to_string()),
        ]
    );
    let mut last = None;
    assert_eq!(zoom_tick(&mut last, " toggle\n"), Some(HookCommand::ToggleZoom));
    assert_eq!(zoom_tick(&mut last, "toggle"), None);
    assert_eq!(zoom_tick(&mut last, ""), None);
    assert_eq!(zoom_tick(&mut last, "restore"), Some(HookCommand::Unzoom));
    assert_eq!(
        zoom_tick(&mut last, "bindact:new_tab"),
        Some(HookCommand::Bind("new_tab".to_string()))
    );
    assert_eq!(zoom_tick(&mut last, "dump 2"), Some(HookCommand::Dump));
    assert_eq!(zoom_tick(&mut last, "what"), Some(HookCommand::Unknown("what".to_string())));
}

#[test]
fn windows_are_let_go_later() {
    let mut w = Windows::new();
    w.register_window(1);
    w.register_window(2);
    assert!(w.schedule_release(1));
    assert!(!w.schedule_release(2));
    w.prune_closed();
    assert!(w.schedule_release(3));
}

#[test]
fn the_steps_of_the_trial() {
    let mut d = Demo::new("s".to_string());
    assert_eq!(d.tick(STEP_TIMES_MS[0]), Tick::Wait);
    assert_eq!(d.tick(STEP_TIMES_MS[0] + 1), Tick::Step(TimelineStep::SurfaceInfo));
    assert_eq!(d.tick(STEP_TIMES_MS[0] + 1), Tick::Wait);
    for _ in 1..12 {
        assert!(matches!(d.tick(99999), Tick::Step(_)));
    }
    assert_eq!(d.tick(99999), Tick::Step(TimelineStep::Report));
    assert_eq!(d.tick(99999), Tick::Wait);
}

#[test]
fn what_the_trial_sees() {
    let mut d = Demo::new("default(main)".to_string());
    assert!(!d.hover_ok());
    assert_eq!(
        d.observe(EmbedAction::MouseOverLink("https://ghostty.org/q0".to_string())),
        (true, Some("action MOUSE_OVER_LINK url=https://ghostty.org/q0".to_string()))
    );
    assert!(d.hover_ok());
    assert_eq!(d.observe(EmbedAction::MouseOverLink(String::new())), (true, None));
    assert_eq!(
        d.observe(EmbedAction::CellSize(8, 17)),
        (true, Some("action CELL_SIZE 8x17px".to_string()))
    );
    assert_eq!(
        d.observe(EmbedAction::SizeLimit(1, 2, 3, 4)),
        (true, Some("action SIZE_LIMIT min 1x2 max 3x4".to_string()))
    );
    assert_eq!(d.observe(EmbedAction::Other), (false, None));
    d.observe(EmbedAction::ConfigChange);
    d.observe(EmbedAction::KeySequence(true));
    assert_eq!(d.check("grid", true, "ok".to_string()), "[check] grid: PASS — ok");
    assert!(d.all_pass());
    assert_eq!(d.check("keys", false, "no".to_string()), "[check] keys: FAIL — no");
    assert!(!d.all_pass());
    let r = d.report(5, 6);
    assert!(r.contains("# unix 5\n"));
    assert!(r.contains("wakeup_cb invocations: 6\n"));
    assert!(r.contains("config_change actions: 1\nkey_sequence actions: 1\nkey_table actions: 0\n"));
    assert!(r.ends_with("\n[checks]\nPASS grid — ok\nFAIL keys — no\n\noverall: FAIL\n"));
}

#[test]
fn findings_are_judged() {
    let mut d = Demo::new(String::new());
    assert_eq!(
        d.judge(Finding::Region(4, "GRID-READ-LINE-1 GRID-READ-LINE-2".to_string())),
        "[check] grid-read-region: PASS — read_text 精确网格区域（VIEWPORT 坐标 rows 4..5）"
    );
    assert_eq!(d.exit_code(), 0);
    assert_eq!(
        d.judge(Finding::NoLinkLine),
        "[check] hyperlink-hover: FAIL — 视口里找不到 CLICKABLE-LINK 行"
    );
    assert_eq!(d.exit_code(), 1);
    assert!(d.judge(Finding::NoGridLine).contains("FAIL"));
    assert!(d.judge(Finding::Config).ends_with("回调 0 次"));
    d.observe(EmbedAction::ConfigChange);
    assert!(d.judge(Finding::Config).starts_with("[check] config-runtime-change: PASS"));
    assert!(d.judge(Finding::Keys(true, false, true)).contains("PASS"));
    assert!(d.judge(Finding::Keys(true, false, false)).contains("FAIL"));
    assert!(d.judge(Finding::Viewport("x".to_string())).contains("FAIL"));
    assert_eq!(
        d.judge(Finding::Hover("None".to_string())),
        "[check] hyperlink-hover: FAIL — MOUSE_OVER_LINK url=None"
    );
}

#[test]
fn what_the_screen_shows() {
    let text = "a\nGRID-READ-LINE-1\nGRID-READ-LINE-2  \nTYPED-VIA-SURFACE-TEXT\n";
    assert!(viewport_ok(text));
    assert!(region_ok(text));
    assert!(!viewport_ok("GRID-READ-LINE-1\nGRID-READ-LINE-2\n"));
    assert_eq!(find_row(text, "GRID-READ-LINE-2"), Some(2));
    assert_eq!(find_row(text, "GRID"), None);
    assert!(keys_ok(true, false, true));
    assert!(!keys_ok(true, true, true));
}

fn args(v: &[&str]) -> Vec<String> {
    v.iter().map(|s| s.to_string()).collect()
}

#[test]
fn arguments_of_the_trial() {
    assert_eq!(parse_args(&args(&["p"])), Args::Dir("docs/q0-evidence".to_string()));
    assert_eq!(parse_args(&args(&["p", "--evidence-dir", "/e"])), Args::Dir("/e".to_string()));
    assert_eq!(parse_args(&args(&["p", "--evidence-dir"])), Args::MissingDir);
    assert_eq!(parse_args(&args(&["p", "-x"])), Args::Unknown("-x".to_string()));
    assert_eq!(screen_number(" 3 "), Some(3));
    assert_eq!(screen_number("x"), None);
    assert_eq!(screen_note(None, "", false), "default(main)");
    assert_eq!(screen_note(Some("3"), "\"3\"", true), "NINJA_E2E_SCREEN=3 (虚拟屏)");
    assert_eq!(screen_note(Some("x"), "\"x\"", true), "NINJA_E2E_SCREEN=\"x\" 非法，回退主屏");
}
