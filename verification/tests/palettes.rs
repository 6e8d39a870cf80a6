use ninja::palette::{
    chosen_palette, connect_step, host_event_of, one_light, palette_by_name, plugin_step,
    solarized_dark, solarized_light, ConnectStep, HostEvent, PluginStep, DEFAULT_PALETTE, PALETTE_NAMES,
};
use ninja::plugins::theme::{
    handle_theme_set, parse_hex_color, plugin_theme_override, revoke_theme_override,
    theme_conf_text, theme_owner, ThemeOverride,
};
use ninja::protocol::frame::{encode_frame, FrameDecoder};
use ninja::protocol::{
    envelope, Envelope, Hit, HitIgnore, HitKind, Message, ThemeSet, PROTOCOL_VERSION,
};

#[test]
fn built_in_palettes_are_wire_valid() {
    for name in PALETTE_NAMES {
        let m = palette_by_name(name).expect("名字表与分派一致");
        assert_eq!(
            envelope(Some(PROTOCOL_VERSION as u64), Some(Message::ThemeSet(m.clone()).kind_name())),
            Envelope::Known
        );
        for field in [&m.bg, &m.fg, &m.cursor, &m.selection_bg, &m.divider] {
            assert_wire_color(name, field);
        }
        assert!(m.selection_alpha <= 255, "{name}: alpha 越界");
        assert_eq!(m.ansi.len(), 16, "{name}: 必须 16 色");
        for c in &m.ansi {
            assert_wire_color(name, c);
        }
        let payload = m.name.clone().into_bytes();
        let frame = encode_frame(&payload).unwrap();
        let mut dec = FrameDecoder::new();
        dec.extend(&frame, frame.len()).unwrap();
        assert_eq!(dec.pop().unwrap().unwrap(), payload);
        assert!(theme_conf_text(&m).is_some());
    }
}

fn assert_wire_color(name: &str, s: &str) {
    let ok = s.len() == 7
        && s.starts_with('#')
        && s[1..].bytes().all(|b| b.is_ascii_hexdigit());
    assert!(ok, "{name}: {s:?} 不是 #rrggbb");
}

#[test]
fn palettes_actually_differ() {
    let bgs: Vec<String> = PALETTE_NAMES
        .iter()
        .map(|n| palette_by_name(n).unwrap().bg)
        .collect();
    for i in 0..bgs.len() {
        for j in i + 1..bgs.len() {
            assert_ne!(bgs[i], bgs[j], "色板背景不得撞色");
        }
        assert_ne!(bgs[i], "#282c34", "内置色板不得与 ODP 基线同背景");
    }
}

#[test]
fn palette_dispatch() {
    assert!(palette_by_name(DEFAULT_PALETTE).is_some());
    assert!(palette_by_name("one-dark-pro").is_none(), "ODP 是宿主基线，插件不带");
}

#[test]
fn palettes_have_their_names() {
    assert_eq!(one_light().name, "one-light");
    assert_eq!(solarized_dark().name, "solarized-dark");
    assert_eq!(solarized_light().name, "solarized-light");
    assert_eq!(solarized_dark().ansi[15], "#fdf6e3");
    assert_eq!(solarized_light().ansi[0], "#eee8d5");
    assert_eq!(solarized_light().selection_alpha, 0x66);
    assert_eq!(chosen_palette(Some("one-light"), Some("x")), "one-light");
    assert_eq!(chosen_palette(None, Some("x")), "x");
    assert_eq!(chosen_palette(None, None), DEFAULT_PALETTE);
}

#[test]
fn the_theme_plugin_ignores_hits() {
    let hit = Hit {
        id: 8,
        kind: HitKind::Path,
        text: "/a".to_string(),
        cwd: String::new(),
        row: 0,
        col: 0,
        pane: 1,
        modifiers: Vec::new(),
    };
    assert_eq!(
        plugin_step(&HostEvent::Message(Message::Hit(hit))),
        PluginStep::Answer(Message::HitIgnore(HitIgnore { id: 8 }))
    );
    assert_eq!(host_event_of(Envelope::OtherVersion, None), HostEvent::OtherVersion);
    assert_eq!(host_event_of(Envelope::UnknownType, None), HostEvent::Unreadable);
    assert_eq!(
        plugin_step(&host_event_of(Envelope::Known, Some(Message::LayerClose(1)))),
        PluginStep::Wait
    );
    assert_eq!(plugin_step(&HostEvent::Closed), PluginStep::Exit(0));
    assert_eq!(plugin_step(&HostEvent::Broken), PluginStep::Exit(2));
    assert_eq!(plugin_step(&HostEvent::OtherVersion), PluginStep::Exit(78));
    assert_eq!(plugin_step(&HostEvent::Message(Message::LayerClose(3))), PluginStep::Wait);
}

fn sample_theme() -> ThemeSet {
    ThemeSet {
        name: "t".to_string(),
        bg: "#101010".to_string(),
        fg: "#202020".to_string(),
        cursor: "#303030".to_string(),
        selection_bg: "#404040".to_string(),
        selection_alpha: 128,
        divider: "#505050".to_string(),
        ansi: std::array::from_fn::<String, 16, _>(|i| format!("#00{i:02x}00")),
    }
}

#[test]
fn theme_conf_is_explicit_ghostty_config() {
    let text = theme_conf_text(&sample_theme()).unwrap();
    assert!(text.contains("background = #101010"));
    assert!(text.contains("foreground = #202020"));
    assert!(text.contains("cursor-color = #303030"));
    assert!(text.contains("selection-background = #282828"));
    for i in 0..16 {
        assert!(text.contains(&format!("palette = {i}=")));
    }
}

#[test]
fn theme_invalid_values_rejected_whole() {
    let mut m = sample_theme();
    m.bg = "#123".into();
    assert!(theme_conf_text(&m).is_none());
    m.bg = "0x112233".into();
    assert!(theme_conf_text(&m).is_none());
    m.bg = "#11223g".into();
    assert!(theme_conf_text(&m).is_none());
    m.bg = "#112233".into();
    m.selection_alpha = 256;
    assert!(theme_conf_text(&m).is_none());
    m.selection_alpha = 255;
    assert!(theme_conf_text(&m).is_some());
    m.ansi[3] = "red".into();
    assert!(theme_conf_text(&m).is_none());
    m.ansi[3] = "#AABBCC".into();
    assert!(theme_conf_text(&m).is_some());
}

#[test]
fn the_selection_is_blended() {
    let mut m = sample_theme();
    m.selection_alpha = 0;
    assert!(theme_conf_text(&m).unwrap().contains("selection-background = #101010"));
    m.selection_alpha = 255;
    assert!(theme_conf_text(&m).unwrap().contains("selection-background = #404040"));
    assert_eq!(parse_hex_color("#aAbBcC"), Some((0xaa, 0xbb, 0xcc)));
    assert_eq!(parse_hex_color("#aabbccd"), None);
    assert_eq!(parse_hex_color("aabbcc"), None);
}

#[test]
fn one_plugin_owns_the_colours() {
    let mut slot: Option<ThemeOverride> = None;
    assert!(handle_theme_set(&mut slot, &sample_theme(), 5));
    assert_eq!(theme_owner(&slot), Some(5));
    assert_eq!(plugin_theme_override(&slot).unwrap().0, "t");
    let mut bad = sample_theme();
    bad.fg = "red".to_string();
    assert!(!handle_theme_set(&mut slot, &bad, 6));
    assert_eq!(theme_owner(&slot), Some(5));
    assert!(handle_theme_set(&mut slot, &sample_theme(), 6));
    assert_eq!(theme_owner(&slot), Some(6));
    assert!(revoke_theme_override(&mut slot));
    assert!(!revoke_theme_override(&mut slot));
    assert_eq!(theme_owner(&slot), None);
}

#[test]
fn the_host_is_tried_often() {
    assert_eq!(connect_step(1), ConnectStep::Wait(50));
    assert_eq!(connect_step(99), ConnectStep::Wait(50));
    assert_eq!(connect_step(100), ConnectStep::GiveUp);
}
