use ninja::keymap::GHOSTTY_MODS_SUPER;
use ninja::layer::{open, present, Registry, TAB_PANE};
use ninja::panel::{
    abbreviate_home, status_colors, status_text, toggle_from_hook, with_installed, PanelStep,
    PluginPanel, RowUpdate, StatusColor,
};
use ninja::plugins::binary::{
    bare_name, effective_socket_path, is_stale_socket, plugin_places, resolve_plugin_binary,
    socket_path, stale_socket_pid, user_plugin_dir, PluginsConfig,
};
use ninja::plugins::hit::{
    classify_token, classify_url, click_begin, click_cwd, click_end, default_open, file_url_to_fs_path,
    footprint_in, handle_grid_hit, handle_open_url, hit_of, line_token_at, normalize_cwd,
    normalize_open_payload, path_in_buffer, Click,
};
use ninja::plugins::host::{ChildState, DispatchStart, PluginHost, PluginStatus, SpawnOutcome};
use ninja::plugins::layers::{
    host_close_layers_of_pane, layer_load_html, layer_mouse, layer_open, layer_post_msg,
    layer_scroll, layer_tab_closed, mouse_button_of, notices, open_kind, parse_script_msg_body,
    post_script_of, rebuild_tab_layer, resizes_tab, script_message, tab_title, Canvas,
    LayerMsgIvars, OpenKind, PageTarget, ScriptBody,
};
use ninja::plugins::messages::{
    after_open, handshake_frame, heard, keeps_pumping, layer_handshake, pump_incoming, pump_plugins,
    pump_turn, refusal, spawn_pending_active, spawn_pending_until, Effect, HandshakeAction,
    HandshakeEvent, HandshakeMove, HandshakeStep, PumpAction, PumpTurn, ReadOutcome,
};
use ninja::plugins::panes::{
    cheap_pane_sig, collect_pane_snapshot, live_panes, LeafFact, LivePane,
};
use ninja::plugins::round::{
    incoming_of, opens_by_default, DispatchAction, DispatchOutcome, HitDispatch, Incoming,
};
use ninja::plugins::session::{plugins_config, BinaryFact, Session, Toggle};
use ninja::plugins::table::{add_in_order, comes_before};
use ninja::plugins::theme::ThemeOverride;
use ninja::protocol::{
    Envelope, HitClaim, HitIgnore, HitKind, InputHotkey, LayerMsg, LayerOpen, Message, Modifier, MouseAction,
    MouseButton, PaneInput, Placement, Surface,
};

#[test]
fn token_extraction_at_click_col() {
    let line = "  src/main.rs:42:13  other.txt  ";
    let got = line_token_at(line, 2);
    assert_eq!(got.as_ref().map(|(t, s)| (t.as_str(), *s)), Some(("src/main.rs:42:13", 2)));
    let got = line_token_at(line, 6);
    assert_eq!(got.as_ref().map(|(t, s)| (t.as_str(), *s)), Some(("src/main.rs:42:13", 2)));
    assert!(line_token_at(line, 0).is_none());
    assert!(line_token_at(line, 19).is_none());
    assert!(classify_token(&line_token_at("你好 世界", 0).unwrap().0).is_none());
}

#[test]
fn letters_of_all_scripts_make_tokens() {
    assert_eq!(line_token_at("é— x", 0), Some(("é".to_string(), 0)));
    assert!(line_token_at("é— x", 1).is_none());
    assert!(line_token_at("x", 9).is_none());
}

#[test]
fn token_classification() {
    assert_eq!(classify_token("/abs/a.rs"), Some(HitKind::Path));
    assert_eq!(classify_token("src/main.rs"), Some(HitKind::Path));
    assert_eq!(classify_token("./rel.c"), Some(HitKind::Path));
    assert_eq!(classify_token("~/x/y.md"), Some(HitKind::Path));
    assert_eq!(classify_token("notes.txt"), Some(HitKind::Path));
    assert_eq!(classify_token(".gitignore"), Some(HitKind::Path));
    assert_eq!(classify_token("https://x.io/a?b=1"), Some(HitKind::Url));
    assert_eq!(classify_token("file:///tmp/a"), Some(HitKind::Url));
    assert_eq!(classify_token("hello"), None);
    assert_eq!(classify_token("a"), None);
    assert_eq!(classify_token("run."), None);
}

#[test]
fn url_classification_for_open_url_action() {
    assert_eq!(classify_url("https://ghostty.org"), HitKind::Url);
    assert_eq!(classify_url("file:///tmp/a.txt"), HitKind::Path);
    assert_eq!(classify_url("myapp://deep/link"), HitKind::Osc8);
    assert_eq!(classify_url("/tmp/nq3p/sample.txt"), HitKind::Path);
    assert_eq!(classify_url("~/notes.md"), HitKind::Path);
}

#[test]
fn file_url_and_osc7_become_fs_paths() {
    assert_eq!(file_url_to_fs_path("file:///Users/jal/src").as_deref(), Some("/Users/jal/src"));
    assert_eq!(file_url_to_fs_path("file://localhost/tmp/a").as_deref(), Some("/tmp/a"));
    assert_eq!(file_url_to_fs_path("file:///Users/foo%20bar").as_deref(), Some("/Users/foo bar"));
    assert_eq!(file_url_to_fs_path("/tmp/a"), None);
    assert_eq!(file_url_to_fs_path("https://x.io/a"), None);
    assert_eq!(normalize_cwd("file:///Users/jal"), "/Users/jal");
    assert_eq!(normalize_cwd("/Users/jal"), "/Users/jal");
    let (k, t) = normalize_open_payload(HitKind::Url, "file:///tmp/a.txt");
    assert_eq!(k, HitKind::Path);
    assert_eq!(t, "/tmp/a.txt");
}

#[test]
fn normal_forms_stay() {
    for text in ["file:///Users/foo%20bar", "/tmp/a", "file://nowhere", "https://x.io/a", ""] {
        let once = normalize_cwd(text);
        assert_eq!(normalize_cwd(&once), once);
        let kind = classify_url(text);
        let (k, t) = normalize_open_payload(kind, text);
        assert_eq!((k, t.as_str()), (kind, once.as_str()));
        assert_eq!(normalize_open_payload(k, &t), (k, once));
    }
}

#[test]
fn start_with_empty_enabled_is_none() {
    let none = PluginsConfig { enabled: Vec::new(), paths: Vec::new() };
    assert!(PluginHost::start(socket_path("/tmp", 1), none).is_none());
}

#[test]
fn clicks_and_their_hits() {
    let click = Click { pane: 2, row: 3, col: 4, modifiers: vec![Modifier::Cmd] };
    let mut slot = Some(click.clone());
    assert_eq!(click_end(&mut slot, 2), Some(click.clone()));
    assert_eq!(slot, None);
    click_begin(&mut slot, 2, Some((3, 4)), GHOSTTY_MODS_SUPER);
    click_begin(&mut slot, 9, None, 0);
    assert_eq!(slot, Some(click.clone()));
    click_begin(&mut slot, 9, Some((1, 1)), 0);
    assert_eq!(click_end(&mut slot, 9), None);
    let mut slot = Some(click.clone());
    assert_eq!(click_end(&mut slot, 9), None);
    let mut slot = Some(click);
    let f = handle_open_url(&mut slot, 7, "file:///tmp/a%20b");
    assert_eq!((f.kind, f.text.as_str(), f.row, f.pane), (HitKind::Path, "/tmp/a b", 3, 2));
    let g = handle_grid_hit("see src/a.rs now", 1, 6, 2, Vec::new()).unwrap();
    assert_eq!((g.kind, g.text.as_str()), (HitKind::Path, "src/a.rs"));
    assert!(handle_grid_hit("see src/a.rs now", 1, 1, 2, Vec::new()).is_none());
    let h = hit_of(5, g, "/w".to_string());
    assert_eq!((h.id, h.cwd.as_str(), h.col), (5, "/w", 6));
    assert_eq!(click_cwd(Some("file:///w"), Some("/p")), "/w");
    assert_eq!(click_cwd(Some("zsh"), Some("/p")), "/p");
    assert_eq!(click_cwd(None, None), "");
    assert_eq!(default_open(HitKind::Url, "https://x", ""), Some(("https://x".to_string(), false)));
    assert_eq!(default_open(HitKind::Path, "a.rs", "/w"), Some(("/w/a.rs".to_string(), true)));
    assert_eq!(default_open(HitKind::Path, "a.rs", ""), None);
}

#[test]
fn facts_about_processes() {
    assert_eq!(path_in_buffer(&vec![b'/', b'a', 0, b'x']), Some("/a".to_string()));
    assert_eq!(path_in_buffer(&vec![0, b'x']), None);
    assert_eq!(path_in_buffer(&vec![b'x']), None);
    assert_eq!(path_in_buffer(&vec![0xff, 0]), Some("\u{fffd}".to_string()));
    let mut info = [0u8; 512];
    info[72] = 1;
    info[73] = 2;
    assert_eq!(footprint_in(&info), 0x201);
}

#[test]
fn sockets_that_were_left() {
    assert_eq!(socket_path("/tmp", 7), "/tmp/ninja-ade-7.sock");
    assert_eq!(effective_socket_path(Some("/x.sock"), "/tmp", 7), "/x.sock");
    assert_eq!(effective_socket_path(None, "/tmp/", 7), "/tmp/ninja-ade-7.sock");
    assert_eq!(stale_socket_pid("ninja-ade-12.sock", 7), Some(12));
    assert_eq!(stale_socket_pid("ninja-ade-7.sock", 7), None);
    assert_eq!(stale_socket_pid("ninja-ade-garbage.sock", 7), None);
    assert_eq!(stale_socket_pid("ninja-ade-+12.sock", 7), None);
    assert_eq!(stale_socket_pid("ninja-ade--12.sock", 7), None);
    assert!(is_stale_socket("ninja-ade-12.sock", 7, false));
    assert!(!is_stale_socket("ninja-ade-12.sock", 7, true));
    assert!(!is_stale_socket("ninja-ade-7.sock", 7, false));
}

#[test]
fn where_programs_are_looked_for() {
    let cfg = PluginsConfig {
        enabled: Vec::new(),
        paths: vec![("explicit".to_string(), "/u/good".to_string())],
    };
    let user = user_plugin_dir(Some("/home/u")).unwrap();
    assert_eq!(user, "/home/u/.config/ninja/plugins");
    assert_eq!(user_plugin_dir(None), None);
    let at = plugin_places("explicit", &cfg, None, Some(&user), None);
    assert_eq!(at[0], "/u/good");
    let at = plugin_places("good", &cfg, None, Some(&user), None);
    assert!(at.contains(&"/home/u/.config/ninja/plugins/good".to_string()));
    assert!(plugin_places("a/b", &cfg, None, Some(&user), Some("/bin")).is_empty());
    assert!(plugin_places("", &cfg, None, Some(&user), Some("/bin")).is_empty());
    assert!(plugin_places("good", &cfg, None, None, None).is_empty());
    assert!(bare_name("good") && !bare_name("a/b") && !bare_name(""));
    let two = vec!["/a".to_string(), "/b".to_string()];
    assert_eq!(resolve_plugin_binary(&two, &vec![false, true]), Some("/b".to_string()));
    assert_eq!(resolve_plugin_binary(&two, &vec![false, false]), None);
}

fn supervisor(names: &[&str]) -> PluginHost {
    PluginHost::bind(
        "/tmp/s.sock".to_string(),
        PluginsConfig {
            enabled: names.iter().map(|n| n.to_string()).collect(),
            paths: Vec::new(),
        },
    )
}

fn status<'a>(s: &'a [PluginStatus], name: &str) -> &'a PluginStatus {
    s.iter().find(|p| p.name == name).unwrap()
}

#[test]
fn plugins_are_started_once() {
    let mut h = supervisor(&["b", "a", "b"]);
    assert_eq!(h.spawn_enabled_now(), vec!["b", "a"]);
    assert!(h.spawn_enabled_now().is_empty());
    h.note_spawn("b", SpawnOutcome::Started(41, Some(5)));
    h.note_spawn("a", SpawnOutcome::NoBinary);
    let s = h.snapshot(&vec![(41, 1000)]);
    assert_eq!(s.iter().map(|p| p.name.as_str()).collect::<Vec<&str>>(), vec!["a", "b"]);
    assert_eq!(status(&s, "b").pid, Some(41));
    assert_eq!(status(&s, "b").memory_bytes, Some(1000));
    assert_eq!(status(&s, "a").last_error.as_deref(), Some("找不到二进制"));
    h.reap(&vec![ChildState::Exited(false, Some(3))]);
    let s = h.snapshot(&Vec::new());
    assert_eq!(status(&s, "b").last_error.as_deref(), Some("已退出（code 3）"));
    assert!(!status(&s, "b").running);
    h.note_spawn("b", SpawnOutcome::Failed("x".to_string()));
    assert_eq!(status(&h.snapshot(&Vec::new()), "b").last_error.as_deref(), Some("拉起失败：x"));
    h.note_spawn("b", SpawnOutcome::Started(42, None));
    h.reap(&vec![ChildState::Exited(false, None)]);
    assert_eq!(
        status(&h.snapshot(&Vec::new()), "b").last_error.as_deref(),
        Some("已退出（code -1）")
    );
}

#[test]
fn plugins_are_turned_off() {
    let mut h = supervisor(&["a"]);
    h.note_spawn("a", SpawnOutcome::Started(41, None));
    assert!(h.session_enable("c", &vec![ChildState::Running]));
    assert!(!h.session_enable("x/y", &vec![ChildState::Running]));
    assert_eq!(h.restart_plugin("a"), Some(vec![41]));
    assert_eq!(h.session_disable("a"), (Vec::new(), false));
    assert_eq!(h.session_disable("c"), (Vec::new(), true));
    let mut reg = Registry::new();
    let mut theme = Some(ThemeOverride { name: "n".to_string(), text: String::new(), conn: 1 });
    let c = h.pump_accept().unwrap();
    open(&mut reg, 1, 10, 10, c, 0);
    h.note_spawn("a", SpawnOutcome::Started(43, None));
    let plan = h.shutdown("sig".to_string(), &mut reg, &mut theme).unwrap();
    assert!(plan.told && plan.revoked);
    assert_eq!((plan.layers.len(), plan.conns, plan.killed), (1, vec![c], vec![43]));
    assert_eq!(theme, None);
    assert!(h.is_disabled());
    assert!(h.shutdown("sig".to_string(), &mut reg, &mut theme).is_none());
    assert!(!h.session_enable("a", &Vec::new()));
    assert_eq!(h.restart_plugin("a"), None);
    assert_eq!(h.pump_accept(), None);
}

#[test]
fn changed_programs_are_restarted() {
    let mut h = supervisor(&["a"]);
    h.note_spawn("a", SpawnOutcome::Started(41, Some(5)));
    assert!(!h.is_stale("a", Some(5), Some(9000)));
    assert!(h.is_stale("a", Some(6), Some(9000)));
    assert!(!h.is_stale("a", Some(6), Some(299)));
    assert!(h.is_stale("a", Some(6), Some(300)));
    assert!(!h.is_stale("b", Some(1), None));
    assert!(h.is_stale("b", Some(2), None));
    assert!(!h.is_stale("a", None, None));
}

fn drain(h: &mut PluginHost, failed: Vec<u64>, says: Vec<(u64, Incoming)>) -> (DispatchOutcome, Option<u64>, usize) {
    let mut reg = Registry::new();
    let mut theme = None;
    let mut d = HitDispatch::new(9);
    let mut a = match d.begin(h) {
        DispatchAction::Send(_) => d.sent(&failed, h, &mut reg, &mut theme).0,
        other => other,
    };
    let mut rest = says.into_iter();
    loop {
        match a {
            DispatchAction::Read(conn) => {
                let (from, m) = rest.next().unwrap();
                assert_eq!(from, conn);
                a = d.reply(m, h, &mut reg, &mut theme).0;
            }
            DispatchAction::Finish(o, winner, later) => return (o, winner, later.len()),
            other => panic!("not asked to read: {other:?}"),
        }
    }
}

fn claim(priority: u32) -> Incoming {
    Incoming::Message(Message::HitClaim(HitClaim { id: 9, priority }))
}

fn ignore() -> Incoming {
    Incoming::Message(Message::HitIgnore(HitIgnore { id: 9 }))
}

#[test]
fn the_highest_claim_wins() {
    let mut h = supervisor(&["a"]);
    for _ in 0..3 {
        h.pump_accept();
    }
    let says = vec![(1, claim(7)), (2, claim(9)), (3, claim(9))];
    assert_eq!(
        drain(&mut h, Vec::new(), says),
        (DispatchOutcome::Claimed { priority: 9 }, Some(2), 0)
    );
    assert!(!opens_by_default(DispatchOutcome::Claimed { priority: 9 }));
    let says = vec![
        (1, Incoming::Unknown),
        (1, Incoming::Message(Message::LayerClose(1))),
        (1, ignore()),
        (2, Incoming::Silent),
        (3, Incoming::Message(Message::HitClaim(HitClaim { id: 8, priority: 1 }))),
        (3, Incoming::Silent),
    ];
    assert_eq!(drain(&mut h, Vec::new(), says), (DispatchOutcome::AllIgnored, None, 2));
    assert!(opens_by_default(DispatchOutcome::AllIgnored));
}

#[test]
fn bad_connections_go() {
    let mut h = supervisor(&["a"]);
    for _ in 0..3 {
        h.pump_accept();
    }
    let says = vec![(1, Incoming::Broken), (2, Incoming::Closed)];
    assert_eq!(drain(&mut h, vec![3], says), (DispatchOutcome::AllIgnored, None, 0));
    assert!(h.conns().is_empty(), "坏协议连接必须已断开");
    assert!(!h.has_conn(1));
}

#[test]
fn a_hit_starts_the_plugins() {
    let mut h = supervisor(&["a"]);
    let mut d = HitDispatch::new(1);
    assert_eq!(d.begin(&mut h), DispatchAction::Spawn(vec!["a".to_string()]));
    assert_eq!(d.waited(&h, false), DispatchAction::Wait);
    assert_eq!(h.pump_accept(), Some(1));
    assert_eq!(d.waited(&h, false), DispatchAction::Send(vec![1]));
    let mut late = HitDispatch::new(2);
    let mut alone = supervisor(&["a"]);
    late.begin(&mut alone);
    assert_eq!(
        late.waited(&alone, true),
        DispatchAction::Finish(DispatchOutcome::NoPlugins, None, Vec::new())
    );
    let mut again = HitDispatch::new(3);
    assert_eq!(
        again.begin(&mut alone),
        DispatchAction::Finish(DispatchOutcome::NoPlugins, None, Vec::new())
    );
    assert_eq!(supervisor(&["a"]).begin_dispatch(), DispatchStart::ColdStart(vec!["a".to_string()]));
    assert_eq!(h.next_hit_id(), 1);
    assert_eq!(h.next_hit_id(), 2);
}

#[test]
fn time_runs_out() {
    let mut h = supervisor(&["a"]);
    h.pump_accept();
    h.pump_accept();
    let mut reg = Registry::new();
    let mut theme = None;
    let mut d = HitDispatch::new(9);
    d.begin(&mut h);
    d.sent(&Vec::new(), &mut h, &mut reg, &mut theme);
    d.reply(claim(3), &mut h, &mut reg, &mut theme);
    assert_eq!(
        d.out_of_time(&mut h, &mut reg, &mut theme).0,
        DispatchAction::Finish(DispatchOutcome::Claimed { priority: 3 }, Some(1), Vec::new())
    );
    assert_eq!(d.out_of_time(&mut h, &mut reg, &mut theme).0, DispatchAction::Nothing);
}

#[test]
fn what_goes_with_a_connection() {
    let mut h = supervisor(&["a"]);
    let c = h.pump_accept().unwrap();
    let d = h.pump_accept().unwrap();
    let mut reg = Registry::new();
    let mut theme = Some(ThemeOverride { name: "n".to_string(), text: String::new(), conn: c });
    let l = open(&mut reg, 1, 10, 10, c, 0);
    open(&mut reg, 2, 10, 10, d, 0);
    let ask = InputHotkey { id: 1, key: "p".to_string(), modifiers: vec![Modifier::Cmd] };
    assert_eq!(h.decide_hotkey(&ask, c, false), Message::InputHotkeyGranted(1));
    let gone = h.drop_conn(c, &mut reg, &mut theme);
    assert!(gone.revoked);
    assert_eq!(gone.layers.iter().map(|e| e.handle).collect::<Vec<u64>>(), vec![l]);
    assert!(h.grants().is_empty());
    assert_eq!(h.conns(), &vec![d]);
    let gone = h.drop_conns(&vec![d, 99], &mut reg, &mut theme);
    assert_eq!(gone.iter().map(|g| g.layers.len()).collect::<Vec<usize>>(), vec![0, 1]);
}

#[test]
fn messages_and_what_they_do() {
    let mut h = supervisor(&["a"]);
    let c = h.pump_accept().unwrap();
    let mut reg = Registry::new();
    let mut theme = None;
    let l = open(&mut reg, 1, 10, 10, c, 0);
    let mut say = |m: Message, reg: &mut Registry| {
        h.handle_async_message(m, c, false, reg, &mut theme)
    };
    let text = PaneInput { pane: 1, text: "ls\n".to_string() };
    assert_eq!(say(Message::PaneInput(text.clone()), &mut reg), Effect::Type(text));
    let nothing = PaneInput { pane: 1, text: String::new() };
    assert_eq!(say(Message::PaneInput(nothing), &mut reg), Effect::Nothing);
    assert_eq!(
        say(Message::LayerHtml(l, "<p>".to_string()), &mut reg),
        Effect::LoadHtml(l, "<p>".to_string())
    );
    match say(Message::LayerClose(l), &mut reg) {
        Effect::Close(v) => assert_eq!(v.len(), 1),
        other => panic!("not closed: {other:?}"),
    }
    assert_eq!(say(Message::InputFocus(1, true), &mut reg), Effect::Nothing);
}

fn open_message(surface: Surface) -> LayerOpen {
    LayerOpen {
        id: 1,
        placement: Placement::Tab,
        surface,
        anchor_row: 0,
        anchor_col: 0,
        title: String::new(),
    }
}

#[test]
fn asking_for_a_layer() {
    let o = open_message(Surface::Pixels);
    assert_eq!(
        handshake_frame(Incoming::Message(Message::LayerOpen(o.clone()))),
        HandshakeAction::Open(o.clone())
    );
    assert_eq!(layer_handshake(HandshakeEvent::Begun), HandshakeMove::Pop);
    assert_eq!(layer_handshake(HandshakeEvent::NoFrame(true)), HandshakeMove::Read);
    assert_eq!(layer_handshake(HandshakeEvent::NoFrame(false)), HandshakeMove::Stop);
    assert_eq!(layer_handshake(HandshakeEvent::Frame(Incoming::Broken)), HandshakeMove::Drop);
    assert_eq!(layer_handshake(HandshakeEvent::Frame(Incoming::Unknown)), HandshakeMove::Pop);
    let moves = [
        (ReadOutcome::Closed, HandshakeMove::Drop),
        (ReadOutcome::Bytes, HandshakeMove::Pop),
        (ReadOutcome::Oversized, HandshakeMove::Drop),
        (ReadOutcome::Silent, HandshakeMove::Stop),
        (ReadOutcome::Interrupted, HandshakeMove::Pop),
        (ReadOutcome::Broken, HandshakeMove::Drop),
    ];
    for (r, m) in moves {
        assert_eq!(layer_handshake(HandshakeEvent::Read(r)), m);
    }
    assert_eq!(
        layer_handshake(HandshakeEvent::Done(HandshakeAction::Present(1))),
        HandshakeMove::Stop
    );
    assert_eq!(
        layer_handshake(HandshakeEvent::Done(HandshakeAction::Close(1))),
        HandshakeMove::Pop
    );
    assert_eq!(after_open(Surface::Html, true, true), HandshakeStep::Presented);
    assert_eq!(after_open(Surface::Pixels, true, true), HandshakeStep::Continue);
    assert_eq!(after_open(Surface::Html, true, false), HandshakeStep::Dead);
    assert_eq!(
        layer_handshake(HandshakeEvent::Opened(Surface::Html, false, false)),
        HandshakeMove::Pop
    );
    assert_eq!(refusal(), Message::LayerClose(0));
}

#[test]
fn a_bad_frame_undoes_what_was_put_off() {
    let later = Message::InputFocus(1, true);
    let plan = pump_plugins(vec![
        Incoming::Message(Message::LayerPresent(1)),
        Incoming::Message(later.clone()),
        Incoming::Unknown,
        Incoming::Message(Message::LayerClose(2)),
    ]);
    assert_eq!(plan.now, vec![PumpAction::Present(1), PumpAction::Close(2)]);
    assert_eq!(plan.later, vec![later.clone()]);
    assert!(!plan.dead);
    let plan = pump_plugins(vec![
        Incoming::Message(Message::LayerPresent(1)),
        Incoming::Message(later),
        Incoming::Broken,
        Incoming::Message(Message::LayerClose(2)),
    ]);
    assert_eq!(plan.now, vec![PumpAction::Present(1)]);
    assert!(plan.later.is_empty() && plan.dead);
    assert_eq!(pump_incoming(Incoming::Silent), PumpAction::Skip);
    assert_eq!(pump_turn(ReadOutcome::Silent), PumpTurn::Next);
    assert_eq!(pump_turn(ReadOutcome::Interrupted), PumpTurn::Again);
    assert_eq!(pump_turn(ReadOutcome::Oversized), PumpTurn::Drop);
    assert_eq!(pump_turn(ReadOutcome::Bytes), PumpTurn::Deal);
}

#[test]
fn what_frames_mean() {
    let m = Message::LayerClose(1);
    assert_eq!(
        incoming_of(Envelope::Known, Some(m.clone())),
        Incoming::Message(Message::LayerClose(1))
    );
    assert_eq!(incoming_of(Envelope::Known, None), Incoming::Broken);
    assert_eq!(incoming_of(Envelope::OtherVersion, Some(m.clone())), Incoming::Broken);
    assert_eq!(incoming_of(Envelope::UnknownType, Some(m)), Incoming::Unknown);
    assert_eq!(heard(ReadOutcome::Closed), Some(Incoming::Closed));
    assert_eq!(heard(ReadOutcome::Oversized), Some(Incoming::Broken));
    assert_eq!(heard(ReadOutcome::Silent), Some(Incoming::Silent));
    assert_eq!(heard(ReadOutcome::Bytes), None);
}

#[test]
fn when_connections_are_looked_at() {
    let mut reg = Registry::new();
    assert!(!keeps_pumping(&reg, &None, false, 0));
    assert!(keeps_pumping(&reg, &None, true, 0));
    assert!(keeps_pumping(&reg, &None, false, 1));
    open(&mut reg, 1, 1, 1, 1, 0);
    assert!(keeps_pumping(&reg, &None, false, 0));
    assert_eq!(spawn_pending_until(100), 5100);
    assert!(spawn_pending_active(Some(5100), 5099));
    assert!(!spawn_pending_active(Some(5100), 5100));
    assert!(!spawn_pending_active(None, 0));
}

#[test]
fn layers_of_plugins() {
    assert_eq!(open_kind(Placement::Tab, Surface::Html), OpenKind::TabHtml);
    assert_eq!(open_kind(Placement::Overlay, Surface::Html), OpenKind::Refused);
    assert_eq!(open_kind(Placement::Side, Surface::Pixels), OpenKind::Side);
    assert_eq!(tab_title(""), "Tab");
    let canvas = Canvas { width_px: 8, height_px: 9, dpi: 144, io_surface_id: 77 };
    let mut reg = Registry::new();
    let (_, page) = layer_open(&mut reg, OpenKind::TabHtml, 1, 5, 50, canvas);
    assert_eq!((page.id, page.layer, page.io_surface_id), (50, 1, 0));
    assert_eq!(layer_load_html(&reg, 1), PageTarget::Page);
    let (_, tab) = layer_open(&mut reg, OpenKind::TabPixels, 1, 5, 51, canvas);
    assert_eq!(tab.io_surface_id, 77);
    assert_eq!(layer_load_html(&reg, 2), PageTarget::NotHtml);
    assert_eq!(layer_load_html(&reg, 9), PageTarget::Missing);
    assert_eq!(rebuild_tab_layer(&reg, 2, canvas).unwrap().0, 5);
    assert_eq!(rebuild_tab_layer(&reg, 1, canvas), None);
    let (_, over) = layer_open(&mut reg, OpenKind::Overlay, 4, 6, 52, canvas);
    let (old, _) = layer_open(&mut reg, OpenKind::Side, 4, 6, 53, canvas);
    assert_eq!(old.iter().map(|e| e.handle).collect::<Vec<u64>>(), vec![over.layer]);
    assert_eq!(notices(&old), vec![(over.layer, 6)]);
    assert_eq!(reg.get(2).unwrap().pane, TAB_PANE);
    assert_eq!(present(&mut reg, 2), Some(TAB_PANE));
    assert_eq!(host_close_layers_of_pane(&mut reg, 4).len(), 1);
    assert_eq!(layer_tab_closed(&mut reg, 2), Some(5));
    assert_eq!(layer_tab_closed(&mut reg, 2), None);
    assert!(resizes_tab(true, true, 1, false, true));
    assert!(!resizes_tab(true, true, 1, true, true));
}

#[test]
fn pages_are_told_in_json() {
    let canvas = Canvas { width_px: 8, height_px: 9, dpi: 144, io_surface_id: 77 };
    let mut reg = Registry::new();
    layer_open(&mut reg, OpenKind::TabHtml, 1, 5, 50, canvas);
    let m = LayerMsg { layer: 1, name: "a\"b".to_string(), body: "x\ny".to_string() };
    let script = layer_post_msg(&reg, &m).unwrap();
    assert!(script.contains("\"a\\\"b\""), "{script}");
    assert!(script.contains("\"x\\ny\""), "{script}");
    assert_eq!(script, post_script_of("{\"body\":\"x\\ny\",\"name\":\"a\\\"b\"}"));
    assert_eq!(layer_post_msg(&reg, &LayerMsg { layer: 2, ..m }), None);
    assert_eq!(
        parse_script_msg_body(ScriptBody::Text("t".to_string())),
        (String::new(), "t".to_string())
    );
    let fields = ScriptBody::Fields(Some("n".to_string()), None);
    let (conn, said) = script_message(LayerMsgIvars { handle: 1, conn: 5 }, fields).unwrap();
    assert_eq!((conn, said.name.as_str(), said.body.as_str()), (5, "n", ""));
    let none = LayerMsgIvars { handle: 0, conn: 5 };
    assert_eq!(script_message(none, ScriptBody::Text(String::new())), None);
}

#[test]
fn mice_over_layers() {
    assert_eq!(mouse_button_of(0), MouseButton::Left);
    assert_eq!(mouse_button_of(1), MouseButton::Right);
    assert_eq!(mouse_button_of(2), MouseButton::Middle);
    assert_eq!(mouse_button_of(7), MouseButton::Left);
    let m = layer_mouse(3, 1, MouseAction::Down, 4, 5, Vec::new()).unwrap();
    assert_eq!((m.layer, m.button, m.x_px, m.y_px), (3, MouseButton::Right, 4, 5));
    assert_eq!(layer_mouse(0, 1, MouseAction::Down, 4, 5, Vec::new()), None);
    assert_eq!(layer_scroll(3, 0, 0, Vec::new()), None);
    assert_eq!(layer_scroll(3, 0, -2, Vec::new()).unwrap().dy, -2);
}

#[test]
fn what_plugins_are_told_of_panes() {
    let panes = vec![
        LivePane { pane: 2, pid: 20, cwd: "/b".to_string() },
        LivePane { pane: 1, pid: 10, cwd: "/a".to_string() },
    ];
    let back: Vec<LivePane> = panes.iter().rev().cloned().collect();
    let sig = cheap_pane_sig(panes);
    assert_eq!(sig, cheap_pane_sig(back));
    assert!(sig.find("/a").unwrap() < sig.find("/b").unwrap());
    let leaf = |pane: u32, live: bool| LeafFact {
        pane,
        live,
        told: Some("file://h/w".to_string()),
        process_cwd: Some("/p".to_string()),
        fg_pid: 5,
    };
    let out = collect_pane_snapshot(&vec![
        vec![vec![leaf(1, true), leaf(2, false)], vec![leaf(3, true)]],
        vec![Vec::new(), vec![leaf(4, true)], Vec::new(), vec![leaf(6, false), leaf(5, true)]],
    ]);
    assert_eq!(out.iter().map(|p| p.pane).collect::<Vec<u32>>(), vec![1, 3, 4, 5]);
    assert_eq!((out[1].window, out[1].tab, out[1].leaf), (0, 1, 0));
    assert_eq!((out[2].window, out[2].tab, out[2].leaf), (1, 0, 0));
    assert_eq!((out[3].window, out[3].tab, out[3].leaf), (1, 1, 1));
    let mut h = supervisor(&["a"]);
    assert!(!h.maybe_broadcast_pane_snapshot(true, sig.clone()));
    h.pump_accept();
    assert!(h.maybe_broadcast_pane_snapshot(false, sig.clone()));
    assert!(!h.maybe_broadcast_pane_snapshot(false, sig.clone()));
    assert!(h.maybe_broadcast_pane_snapshot(true, sig.clone()));
    h.pump_accept();
    assert!(h.maybe_broadcast_pane_snapshot(false, sig));
}

#[test]
fn live_panes_of_all_windows() {
    let leaf = |pane: u32, live: bool| LeafFact {
        pane,
        live,
        told: if pane == 2 { None } else { Some(format!("file://h/{pane}")) },
        process_cwd: Some("/p".to_string()),
        fg_pid: 9,
    };
    let windows = vec![vec![vec![leaf(3, true), leaf(1, false)], Vec::new()], vec![vec![leaf(2, true)]]];
    let live = |pane: u32, cwd: &str| LivePane { pane, pid: 9, cwd: cwd.to_string() };
    assert_eq!(live_panes(&windows), vec![live(3, "file://h/3"), live(2, "")]);
    let told = collect_pane_snapshot(&windows);
    assert_eq!((told[0].cwd.as_str(), told[1].cwd.as_str()), ("/3", "/p"));
}

#[test]
fn names_come_in_order() {
    assert!(comes_before("a", "b"));
    assert!(comes_before("a", "ab"));
    assert!(!comes_before("b", "ab"));
    assert!(!comes_before("a", "a"));
    let mut v = Vec::new();
    for n in ["b", "a", "c", "b"] {
        add_in_order(&mut v, n);
    }
    assert_eq!(v, vec!["a", "b", "c"]);
}

#[test]
fn switches_of_plugins() {
    let cfg = PluginsConfig { enabled: vec!["a".to_string()], paths: Vec::new() };
    let mut s = Session::init(cfg);
    assert_eq!(toggle_from_hook(&mut s, "a", false, &Vec::new()), Toggle::Done(true));
    assert!(s.session_cfg().enabled.is_empty());
    assert!(s.spawn_startup_plugins().is_empty());
    match s.toggle_plugin("b", true, &Vec::new()) {
        Toggle::Bind(None, cfg) => {
            assert_eq!(cfg.enabled, vec!["b"]);
            s.install(PluginHost::bind("/s".to_string(), cfg));
        }
        other => panic!("no socket is asked for: {other:?}"),
    }
    assert_eq!(s.spawn_startup_plugins(), vec!["b"]);
    assert_eq!(s.toggle_plugin("c", true, &Vec::new()), Toggle::Start);
    assert_eq!(s.toggle_plugin("x/y", true, &Vec::new()), Toggle::Done(false));
    assert_eq!(s.session_cfg().enabled, vec!["b", "c"]);
    let fact = |t: i128| BinaryFact { name: "b".to_string(), mtime: Some(t), age_ms: Some(1000) };
    assert!(s.watch_plugin_binaries(&vec![fact(1)]).is_empty());
    assert_eq!(s.watch_plugin_binaries(&vec![fact(2)]), vec!["b"]);
    assert_eq!(s.status_snapshot(&Vec::new()).len(), 2);
    let mut h = s.take().unwrap();
    h.note_spawn("c", SpawnOutcome::Started(77, None));
    assert_eq!((h.running_pid("c"), h.running_pid("b")), (Some(77), None));
    s.install(h);
    let runs = vec![ChildState::Running];
    assert_eq!(s.toggle_plugin("c", true, &runs), Toggle::Done(true));
    assert_eq!(s.toggle_plugin("c", true, &runs), Toggle::Done(true));
    let died = vec![ChildState::Exited(false, Some(9))];
    assert_eq!(s.toggle_plugin("c", true, &died), Toggle::Start);
    let mut h = s.take().unwrap();
    assert!(h.pids().is_empty());
    h.note_spawn("c", SpawnOutcome::Started(77, None));
    s.install(h);
    assert_eq!(s.session_cfg().enabled, vec!["b", "c"]);
    assert_eq!(s.toggle_plugin("b", false, &runs), Toggle::Stop(Vec::new(), false));
    assert_eq!(s.toggle_plugin("c", false, &runs), Toggle::Stop(vec![77], true));
    let mut reg = Registry::new();
    let plan = s.host_shutdown(String::new(), &mut reg, &mut None).unwrap();
    assert!(!plan.told && !plan.revoked);
    assert!(plan.layers.is_empty() && plan.conns.is_empty() && plan.killed.is_empty());
    assert!(s.host_shutdown(String::new(), &mut reg, &mut None).is_none());
    match s.toggle_plugin("d", true, &Vec::new()) {
        Toggle::Bind(Some(path), cfg) => {
            assert_eq!((path.as_str(), cfg.enabled), ("/s", vec!["d".to_string()]))
        }
        other => panic!("no socket is asked for: {other:?}"),
    }
    assert!(s.take().is_some());
    assert!(s.take().is_none());
    let told = ninja::config::host::parse_host_config("[plugins]\nenabled = [\"z\"]\n");
    assert_eq!(plugins_config(&told.plugins).enabled, vec!["z"]);
}

#[test]
fn installed_plugins_have_lines() {
    let mut p = PluginPanel::new();
    let states = vec![told(true, Some(5), None)];
    let names = ["z", "p", "a", "x/y", "", "a"].map(|n| n.to_string()).to_vec();
    let all = with_installed(&states, &names);
    assert_eq!(all.iter().map(|s| s.name.as_str()).collect::<Vec<&str>>(), vec!["a", "p", "z"]);
    assert_eq!(all[1], states[0]);
    assert_eq!(status_text(&all[0], None), "未启用");
    assert!(with_installed(&Vec::new(), &Vec::new()).is_empty());
    p.rebuild(&all);
    assert_eq!(p.refresh(&all).len(), 3);
}

fn told(enabled: bool, pid: Option<u32>, error: Option<&str>) -> PluginStatus {
    PluginStatus {
        name: "p".to_string(),
        enabled,
        running: pid.is_some(),
        pid,
        memory_bytes: None,
        last_error: error.map(|e| e.to_string()),
    }
}

#[test]
fn lines_of_the_settings() {
    assert_eq!(status_text(&told(true, Some(7), None), Some("12.5")), "pid 7 · 12.5 MB");
    assert_eq!(status_text(&told(true, Some(7), None), None), "pid 7");
    assert_eq!(status_text(&told(false, None, None), None), "未启用");
    assert_eq!(status_text(&told(true, None, Some("x")), None), "已停止（x）");
    assert_eq!(status_text(&told(true, None, None), None), "已停止");
    assert_eq!(status_colors(&told(true, Some(7), None)), StatusColor::Green);
    assert_eq!(status_colors(&told(true, None, None)), StatusColor::Orange);
    assert_eq!(status_colors(&told(false, None, None)), StatusColor::Gray);
    assert_eq!(abbreviate_home("/home/u/x", Some("/home/u")), "~/x");
    assert_eq!(abbreviate_home("/etc/x", Some("/home/u")), "/etc/x");
    let mut panel = PluginPanel::new();
    assert_eq!(panel.toggle_visibility(), PanelStep::Show(true));
    panel.rebuild(&vec![told(true, None, None)]);
    assert_eq!(
        panel.refresh(&vec![told(false, None, None)]),
        vec![RowUpdate { row: 0, status: 0, enabled: false }]
    );
    assert!(panel.refresh(&Vec::new()).is_empty());
    assert_eq!(panel.toggle_visibility(), PanelStep::Hide);
    assert_eq!(panel.toggle_visibility(), PanelStep::Show(false));
}
