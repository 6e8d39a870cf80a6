use ninja::config::dump::{dump_effective_config, equivalent_desc, json_str, EffectiveConfig};
use ninja::config::files::{
    bundle_resources_dir, config_references, default_config_files, layer_dir, layer_file,
    line_config_file, load_pipeline, resolve_resources_dir, split_lines, user_sets_theme, Collector,
    LoadStep, WatchState, WatchedFile,
};
use ninja::config::host::{
    host_config_path, load_host_config, parse_host_config, write_plugins_enabled, HostConfig,
};
use ninja::config::keys::{
    equivalent_plain, physical_key_to_char, trigger_to_equivalent, KeyEquivalent, PhysicalKey,
    Trigger, TriggerKey, MENU_ACTIONS,
};
use ninja::config::theme::{host_layer_text, line_sets_theme, odp_layer_text, ODP_ANSI};
use ninja::keymap::{GHOSTTY_MODS_ALT, GHOSTTY_MODS_SHIFT, GHOSTTY_MODS_SUPER};

#[test]
fn odp_layer_text_is_explicit_ghostty_config() {
    let text = odp_layer_text();
    assert!(text.contains("background = #282c34"));
    assert!(text.contains("foreground = #abb2bf"));
    assert!(text.contains("cursor-color = #528bff"));
    assert!(text.contains("selection-background = #41454e"));
    assert!(text.contains("palette = 0=#3f4451"));
    assert!(text.contains("palette = 15=#e6e6e6"));
    for i in 0..16 {
        assert!(text.contains(&format!("palette = {i}=")), "missing palette {i}");
    }
}

#[test]
fn the_default_layer_has_every_palette_line() {
    let text = odp_layer_text();
    for (i, c) in ODP_ANSI.iter().enumerate() {
        assert!(text.contains(&format!("palette = {i}=#{:02x}{:02x}{:02x}\n", c.0, c.1, c.2)));
    }
    assert!(text.starts_with("# ninja ODP default theme layer (generated)\n"));
}

#[test]
fn config_host_layer_claims_toggle_visibility_on_bare_comma() {
    let text = host_layer_text();
    assert!(text.contains("keybind = super+,=toggle_visibility\n"));
}

#[test]
fn mod_host_layer_claims_toggle_visibility_on_bare_comma() {
    let text = host_layer_text();
    assert!(text.contains("keybind = super+,=toggle_visibility\n"));
}

#[test]
fn config_theme_line_detection() {
    assert!(line_sets_theme("theme=Dracula"));
    assert!(line_sets_theme("theme = Dracula"));
    assert!(line_sets_theme("  theme=dark:Dracula,light:Foo"));
    assert!(!line_sets_theme("# theme=commented"));
    assert!(!line_sets_theme("themes = dir"));
    assert!(!line_sets_theme("font-size=18"));
    assert!(!line_sets_theme("window-theme=dark"));
}

#[test]
fn theme_theme_line_detection() {
    assert!(line_sets_theme("theme=Dracula"));
    assert!(line_sets_theme("theme = Dracula"));
    assert!(line_sets_theme("  theme=dark:Dracula,light:Foo"));
    assert!(!line_sets_theme("# theme=commented"));
    assert!(!line_sets_theme("themes = dir"));
    assert!(!line_sets_theme("font-size=18"));
    assert!(!line_sets_theme("window-theme=dark"));
}

#[test]
fn config_config_file_line_parsing() {
    assert_eq!(line_config_file("config-file = /abs/x.conf"), Some("/abs/x.conf".into()));
    assert_eq!(line_config_file("config-file=\"a b.conf\""), Some("a b.conf".into()));
    assert_eq!(line_config_file("config-file = rel.conf # 尾注释"), Some("rel.conf".into()));
    assert_eq!(line_config_file("config-file ="), None);
    assert_eq!(line_config_file("font-size = 18"), None);
}

#[test]
fn mod_config_file_line_parsing() {
    assert_eq!(line_config_file("config-file = /abs/x.conf"), Some("/abs/x.conf".into()));
    assert_eq!(line_config_file("config-file=\"a b.conf\""), Some("a b.conf".into()));
    assert_eq!(line_config_file("config-file = rel.conf # 尾注释"), Some("rel.conf".into()));
    assert_eq!(line_config_file("config-file ="), None);
    assert_eq!(line_config_file("font-size = 18"), None);
}

#[test]
fn config_host_config_plugins_only() {
    let cfg = parse_host_config(
        r##"
[plugins]
enabled = [" preview ", "preview", "doc"]
[plugins.paths]
preview = "/usr/local/bin/ninja-preview"
"##,
    );
    assert_eq!(cfg.plugins.enabled, vec!["preview".to_string(), "doc".to_string()]);
    assert_eq!(
        cfg.plugins.paths,
        vec![("preview".to_string(), "/usr/local/bin/ninja-preview".to_string())]
    );
}

#[test]
fn mod_host_config_plugins_only() {
    let cfg = parse_host_config(
        r##"
[plugins]
enabled = [" preview ", "preview", "doc"]
[plugins.paths]
preview = "/usr/local/bin/ninja-preview"
"##,
    );
    assert_eq!(cfg.plugins.enabled, vec!["preview".to_string(), "doc".to_string()]);
    assert_eq!(
        cfg.plugins.paths,
        vec![("preview".to_string(), "/usr/local/bin/ninja-preview".to_string())]
    );
}

#[test]
fn config_host_config_default_empty_no_spawn() {
    assert_eq!(parse_host_config(""), HostConfig::default());
    assert_eq!(
        parse_host_config("[plugins]\nenabled = []").plugins.enabled,
        Vec::<String>::new()
    );
    assert_eq!(parse_host_config("this is [ not toml"), HostConfig::default());
}

#[test]
fn mod_host_config_default_empty_no_spawn() {
    assert_eq!(parse_host_config(""), HostConfig::default());
    assert_eq!(
        parse_host_config("[plugins]\nenabled = []").plugins.enabled,
        Vec::<String>::new()
    );
    assert_eq!(parse_host_config("this is [ not toml"), HostConfig::default());
}

const OLD_FILE: &str = r##"shell = "/bin/zsh"
font-family = "Menlo"
font-size = 14.0

[theme]
cursor = "#528BFF"

[keys]
new_window = "cmd+n"

[plugins]
enabled = ["theme"]

[unknown_section]
x = 1
"##;

#[test]
fn config_host_config_terminal_keys_and_keys_ignored() {
    let cfg = parse_host_config(OLD_FILE);
    assert_eq!(cfg.plugins.enabled, vec!["theme".to_string()]);
    assert_eq!(cfg.plugins.paths, Vec::new());
}

#[test]
fn mod_host_config_terminal_keys_and_keys_ignored() {
    let cfg = parse_host_config(OLD_FILE);
    assert_eq!(cfg.plugins.enabled, vec!["theme".to_string()]);
    assert_eq!(cfg.plugins.paths, Vec::new());
}

#[test]
fn plugins_memory_limit_mb_parses() {
    let cfg = parse_host_config("[plugins]\nenabled = []\nmemory_limit_mb = 256\n");
    assert_eq!(cfg.plugins.memory_limit_mb, Some(256));
    let cfg = parse_host_config("[plugins]\nenabled = []\n");
    assert_eq!(cfg.plugins.memory_limit_mb, None);
    let cfg = parse_host_config("[plugins]\nmemory_limit_mb = -1\n");
    assert_eq!(cfg.plugins.memory_limit_mb, None, "负值应忽略");
}

#[test]
fn enabled_names_are_written_and_read_back() {
    let names = vec!["preview".to_string(), "doc".to_string()];
    let text = write_plugins_enabled(Some(OLD_FILE), &names).unwrap();
    let cfg = parse_host_config(&text);
    assert_eq!(cfg.plugins.enabled, names);
    assert!(text.contains("shell = \"/bin/zsh\""));
    assert!(text.contains("[unknown_section]"));
    let fresh = write_plugins_enabled(None, &names).unwrap();
    assert_eq!(parse_host_config(&fresh).plugins.enabled, names);
    let broken = write_plugins_enabled(Some("this is [ not toml"), &names).unwrap();
    assert_eq!(parse_host_config(&broken).plugins.enabled, names);
    let no_table = write_plugins_enabled(Some("plugins = 3"), &names).unwrap();
    assert_eq!(parse_host_config(&no_table).plugins.enabled, names);
}

#[test]
fn paths_survive_a_change_of_names() {
    let before = "[plugins]\nenabled = [\"a\"]\n[plugins.paths]\na = \"/x/a\"\n";
    let text = write_plugins_enabled(Some(before), &vec!["b".to_string()]).unwrap();
    let cfg = parse_host_config(&text);
    assert_eq!(cfg.plugins.enabled, vec!["b".to_string()]);
    assert_eq!(cfg.plugins.paths, vec![("a".to_string(), "/x/a".to_string())]);
}

#[test]
fn other_values_are_kept() {
    let before = r#"
yes = true
no = false
half = 0.5
far = -inf
odd = nan
day = 2024-02-29
hour = 07:32:00.25
local = 1979-05-27T07:32:00
offset = 1979-05-27T00:32:00-07:00
[plugins]
extra = [1, { deep = 1e300 }]
"#;
    let text = write_plugins_enabled(Some(before), &vec!["a".to_string()]).unwrap();
    let old: toml::Value = toml::from_str(before).unwrap();
    let new: toml::Value = toml::from_str(&text).unwrap();
    for key in ["yes", "no", "half", "far", "day", "hour", "local", "offset"] {
        assert_eq!(new.get(key), old.get(key), "{key}");
    }
    assert!(new["odd"].as_float().unwrap().is_nan());
    assert_eq!(new["plugins"]["extra"], old["plugins"]["extra"]);
}

#[test]
fn too_many_quotes_are_not_written() {
    let names = |n: usize, q: &str| vec![format!("a{}b", q.repeat(n))];
    for q in ["'", "\""] {
        assert_eq!(write_plugins_enabled(None, &names(256, q)), None);
        let text = write_plugins_enabled(None, &names(255, q)).unwrap();
        assert_eq!(parse_host_config(&text).plugins.enabled, names(255, q));
    }
    let mixed = vec!["'\"".repeat(300)];
    let text = write_plugins_enabled(None, &mixed).unwrap();
    assert_eq!(parse_host_config(&text).plugins.enabled, mixed);
    let escaped = format!("x = [\"{}\"]\n", "\\\"".repeat(256));
    assert_eq!(write_plugins_enabled(Some(&escaped), &Vec::new()), None);
}

#[test]
fn deep_files_are_read_back() {
    let header = format!("[{}]\nk = 1\n", vec!["t"; 79].join("."));
    let list = format!("v = {}{}\n", "[".repeat(79), "]".repeat(79));
    for before in [header, list] {
        let text = write_plugins_enabled(Some(&before), &vec!["a".to_string()]).unwrap();
        let old: toml::Value = toml::from_str(&before).unwrap();
        let new: toml::Value = toml::from_str(&text).unwrap();
        for key in ["t", "v"] {
            assert_eq!(new.get(key), old.get(key), "{key}");
        }
    }
}

#[test]
fn files_too_deep_to_be_read_back_are_written() {
    let deep = |tables: usize| {
        let key = vec!["t"; 79].join(".");
        format!("{}1{}\n", format!("{key} = {{ ").repeat(tables), " }".repeat(tables))
            .replacen("{ 1", "{ x = 1", 1)
    };
    let names = vec!["a".to_string()];
    for tables in [2, 3] {
        let text = write_plugins_enabled(Some(&deep(tables)), &names).unwrap();
        assert!(text.contains("enabled = [\"a\"]"));
        assert!(toml::from_str::<toml::Value>(&text).is_err());
    }
}

#[test]
fn keys_and_values_are_deep_each_by_itself() {
    let header = vec!["t"; 79].join(".");
    let list = format!("{}{}", "[".repeat(79), "]".repeat(79));
    let mixed = format!("{}[1, 2]{}", "[0, { x = ".repeat(39), " }]".repeat(39));
    for before in [
        format!("[{header}]\nk = {list}\n"),
        format!("[{header}]\nk = {mixed}\n"),
        format!("[[{header}]]\nk = {list}\n[[{header}]]\n"),
    ] {
        let text = write_plugins_enabled(Some(&before), &vec!["a".to_string()]).unwrap();
        let old: toml::Value = toml::from_str(&before).unwrap();
        let new: toml::Value = toml::from_str(&text).unwrap();
        assert_eq!(new["t"], old["t"]);
        assert_eq!(parse_host_config(&text).plugins.enabled, vec!["a".to_string()]);
    }
}

#[test]
fn any_name_is_read_back() {
    let names: Vec<String> = [
        "a\"b",
        "it's",
        "line\nbreak",
        "tab\tx",
        "\\",
        "中",
        "\u{1}x",
        "'''\"\"\"x",
        "a\r\nb",
        "#",
        "=",
        "\u{7f}y",
        "x'''",
        "\"\"\"\"",
    ]
    .iter()
    .map(|n| n.to_string())
    .collect();
    let before = r#"
x = 1.5
y = 2024-01-01
z = [[1, 2], [{ a = 1 }, { b = "c" }]]
"odd key" = true
[[t]]
k = 1
[[t]]
[plugins]
memory_limit_mb = 7
[plugins.paths]
"p q" = "/x y"
[e.f.g]
"#;
    let text = write_plugins_enabled(Some(before), &names).unwrap();
    let cfg = parse_host_config(&text).plugins;
    assert_eq!(cfg.enabled, names);
    assert_eq!(cfg.memory_limit_mb, Some(7));
    assert_eq!(cfg.paths, vec![("p q".to_string(), "/x y".to_string())]);
    let old: toml::Value = toml::from_str(before).unwrap();
    let new: toml::Value = toml::from_str(&text).unwrap();
    for key in ["x", "y", "z", "odd key", "t", "e"] {
        assert_eq!(new.get(key), old.get(key), "{key}");
    }
    assert_eq!(new.as_table().unwrap().len(), old.as_table().unwrap().len());
}

#[test]
fn where_the_host_config_is() {
    assert_eq!(host_config_path(Some("/etc/n.toml"), Some("/home/u")), "/etc/n.toml");
    assert_eq!(host_config_path(None, Some("/home/u")), "/home/u/.config/ninja/ninja.toml");
    assert_eq!(host_config_path(None, None), ".config/ninja/ninja.toml");
    assert_eq!(load_host_config(None), HostConfig::default());
    assert_eq!(
        load_host_config(Some("[plugins]\nenabled = [\"a\"]")).plugins.enabled,
        vec!["a".to_string()]
    );
}

fn uni(cp: u32, mods: u32) -> Trigger {
    Trigger { key: TriggerKey::Unicode(cp), mods }
}

fn phys(k: PhysicalKey, mods: u32) -> Trigger {
    Trigger { key: TriggerKey::Physical(k), mods }
}

fn empty_trigger() -> Trigger {
    phys(PhysicalKey::Other, 0)
}

fn trigger_forms() {
    let e = trigger_to_equivalent(uni('t' as u32, GHOSTTY_MODS_SUPER)).unwrap();
    assert_eq!(e.key, 't' as u16);
    assert!(e.cmd && !e.shift && !e.alt && !e.ctrl);

    let e = trigger_to_equivalent(phys(
        PhysicalKey::Enter,
        GHOSTTY_MODS_SUPER | GHOSTTY_MODS_SHIFT,
    ))
    .unwrap();
    assert_eq!(e.key, 0x0D);
    assert!(e.cmd && e.shift);

    let e = trigger_to_equivalent(phys(
        PhysicalKey::ArrowLeft,
        GHOSTTY_MODS_SUPER | GHOSTTY_MODS_ALT,
    ))
    .unwrap();
    assert_eq!(e.key, 0xF702);
    assert!(e.cmd && e.alt);

    assert_eq!(trigger_to_equivalent(empty_trigger()), None);
    assert_eq!(
        trigger_to_equivalent(Trigger { key: TriggerKey::CatchAll, ..empty_trigger() }),
        None
    );
    assert_eq!(trigger_to_equivalent(uni(0x1F600, 0)), None);
}

#[test]
fn config_trigger_conversion_forms() {
    trigger_forms();
}

#[test]
fn mod_trigger_conversion_forms() {
    trigger_forms();
}

#[test]
fn characters_of_keys() {
    assert_eq!(physical_key_to_char(PhysicalKey::Letter(0)), Some('a' as u16));
    assert_eq!(physical_key_to_char(PhysicalKey::Letter(25)), Some('z' as u16));
    assert_eq!(physical_key_to_char(PhysicalKey::Letter(26)), None);
    assert_eq!(physical_key_to_char(PhysicalKey::Digit(9)), Some('9' as u16));
    assert_eq!(physical_key_to_char(PhysicalKey::Digit(10)), None);
    assert_eq!(physical_key_to_char(PhysicalKey::Function(1)), Some(0xF704));
    assert_eq!(physical_key_to_char(PhysicalKey::Function(12)), Some(0xF70F));
    assert_eq!(physical_key_to_char(PhysicalKey::Function(13)), None);
    assert_eq!(physical_key_to_char(PhysicalKey::Backquote), Some('`' as u16));
    assert_eq!(physical_key_to_char(PhysicalKey::Delete), Some(0xF728));
}

fn key(key: u16, cmd: bool, shift: bool) -> Option<KeyEquivalent> {
    Some(KeyEquivalent { key, cmd, ctrl: false, alt: false, shift })
}

#[test]
fn bindings_as_text() {
    assert_eq!(equivalent_plain(None), "null");
    assert_eq!(equivalent_plain(key('t' as u16, true, true)), "super+shift+'t'");
    assert_eq!(
        equivalent_plain(Some(KeyEquivalent {
            key: 0x0d,
            cmd: false,
            ctrl: true,
            alt: true,
            shift: false
        })),
        "ctrl+alt+'\\u000d'"
    );
    assert_eq!(equivalent_plain(key(0xF702, false, false)), "'\\uf702'");
    assert_eq!(equivalent_plain(key(0xD800, false, false)), "'?'");
    assert_eq!(equivalent_plain(key('é' as u16, false, false)), "'é'");
    assert_eq!(equivalent_desc(None), "null");
    assert_eq!(equivalent_desc(key(0x0d, true, false)), "\"super+'\\\\u000d'\"");
    assert_eq!(json_str("a\"b\\c"), "\"a\\\"b\\\\c\"");
    assert_eq!(json_str("a\tb"), "\"a\\u0009b\"");
    let all: String = (0u32..256).filter_map(char::from_u32).collect();
    assert_eq!(serde_json::from_str::<String>(&json_str(&all)).unwrap(), all);
}

#[test]
fn lines_of_a_text() {
    assert_eq!(split_lines("a\nb\r\nc"), vec!["a", "b", "c"]);
    assert_eq!(split_lines("a\n"), vec!["a"]);
    assert_eq!(split_lines(""), Vec::<String>::new());
    assert_eq!(split_lines("\n\n"), vec!["", ""]);
    assert_eq!(split_lines("a\r"), vec!["a\r"]);
}

#[test]
fn chains_of_files_are_followed_once() {
    let files = [
        ("/c/main.conf", "theme=Dracula\nconfig-file = inc.conf\n"),
        ("/c/inc.conf", "config-file = main.conf\nbackground = #010203\n"),
    ];
    let mut c = Collector::new(vec!["/c/main.conf".to_string(), "/c/none".to_string()]);
    let mut texts = Vec::new();
    while let Some(p) = c.next() {
        let Some((_, text)) = files.iter().find(|f| f.0 == p) else {
            continue;
        };
        if !c.is_seen(&p) {
            texts.push(text.to_string());
        }
        c.visit(p.clone(), p, Some("/c"), Some(text));
    }
    assert_eq!(c.into_found(), vec!["/c/main.conf", "/c/inc.conf"]);
    assert!(user_sets_theme(&texts));
    assert!(!user_sets_theme(&vec!["# theme = Dracula\nfont-size = 14\n".to_string()]));
}

#[test]
fn references_are_taken_from_their_directory() {
    assert_eq!(
        config_references("config-file = a\n# config-file = b\nconfig-file='c d'\n"),
        vec!["a", "c d"]
    );
    let mut c = Collector::new(vec!["/x/f".to_string()]);
    let p = c.next().unwrap();
    c.visit(p, "/real/f".to_string(), Some("/x"), Some("config-file = rel\nconfig-file = /abs\n"));
    assert_eq!(c.next(), Some("/abs".to_string()));
    assert_eq!(c.next(), Some("/x/rel".to_string()));
    assert_eq!(c.next(), None);
}

#[test]
fn default_files_in_order() {
    assert_eq!(
        default_config_files(Some("/xdg"), Some("/home/u"), Some("/lib/support")),
        vec![
            "/xdg/ghostty/config",
            "/xdg/ghostty/config.ghostty",
            "/lib/support/com.mitchellh.ghostty/config",
            "/lib/support/com.mitchellh.ghostty/config.ghostty",
        ]
    );
    assert_eq!(
        default_config_files(None, Some("/home/u"), None),
        vec!["/home/u/.config/ghostty/config", "/home/u/.config/ghostty/config.ghostty"]
    );
    assert!(default_config_files(None, None, None).is_empty());
}

#[test]
fn default_colours_give_way_to_a_theme() {
    let (steps, info) = load_pipeline(
        vec!["/c".to_string()],
        &vec!["theme = x\n".to_string()],
        "/n.toml".to_string(),
        None,
        "/tmp/ninja-1".to_string(),
    );
    assert!(info.user_theme && !info.odp_applied);
    assert_eq!(info.watched, vec!["/c", "/n.toml"]);
    assert!(!steps.contains(&LoadStep::LoadOdpLayer));
    assert_eq!(steps.last(), Some(&LoadStep::Finalize));
    let (steps, info) = load_pipeline(
        Vec::new(),
        &Vec::new(),
        "/n.toml".to_string(),
        Some("mine".to_string()),
        "/tmp/ninja-1".to_string(),
    );
    assert!(!info.user_theme && info.odp_applied);
    let odp = steps.iter().position(|s| *s == LoadStep::LoadOdpLayer).unwrap();
    let files = steps.iter().position(|s| *s == LoadStep::LoadDefaultFiles).unwrap();
    let plugin = steps.iter().position(|s| *s == LoadStep::LoadPluginLayer).unwrap();
    assert!(odp < files && files < plugin);
    assert_eq!(layer_dir("/tmp", 77), "/tmp/ninja-77");
}

#[test]
fn texts_of_layers() {
    assert_eq!(
        layer_file(LoadStep::WriteHostLayer, ""),
        Some(("host.conf".to_string(), host_layer_text()))
    );
    assert_eq!(
        layer_file(LoadStep::WriteOdpLayer, ""),
        Some(("odp.conf".to_string(), odp_layer_text()))
    );
    assert_eq!(
        layer_file(LoadStep::WritePluginLayer, "x"),
        Some(("plugin-theme.conf".to_string(), "x".to_string()))
    );
    assert_eq!(layer_file(LoadStep::Finalize, "x"), None);
}

#[test]
fn resources_of_a_bundle_come_first() {
    let dir = bundle_resources_dir(Some("MacOS"), Some("/app/Contents"));
    assert_eq!(dir, Some("/app/Contents/Resources/ghostty".to_string()));
    assert_eq!(bundle_resources_dir(Some("release"), Some("/target")), None);
    assert_eq!(bundle_resources_dir(None, None), None);
    let bundle = dir.map(|d| (d, true));
    assert_eq!(
        resolve_resources_dir(bundle, "/dev/ghostty", true),
        Some("/app/Contents/Resources/ghostty".to_string())
    );
    assert_eq!(
        resolve_resources_dir(Some(("/bad".to_string(), false)), "/dev/ghostty", true),
        Some("/dev/ghostty".to_string())
    );
    assert_eq!(resolve_resources_dir(None, "", true), None);
    assert_eq!(resolve_resources_dir(None, "/dev/ghostty", false), None);
}

#[test]
fn watching_notes_what_it_saw() {
    let mut st = WatchState::new(watched(&[("/a", Some(1)), ("/b", None)]));
    assert!(!st.changed(watched(&[("/a", Some(1)), ("/b", None)])));
    assert!(st.changed(watched(&[("/a", Some(2)), ("/b", None)])));
    assert!(!st.changed(watched(&[("/a", Some(2)), ("/b", None)])));
    assert!(st.changed(watched(&[("/a", Some(2)), ("/b", Some(3))])));
    assert!(st.changed(watched(&[("/a", Some(2))])));
    let mut st = WatchState::new(watched(&[("/nonexistent/a", None)]));
    assert!(st.changed(watched(&[("/nonexistent/b", None)])));
    assert!(!st.changed(watched(&[("/nonexistent/b", None)])));
}

fn watched(files: &[(&str, Option<i128>)]) -> Vec<WatchedFile> {
    files.iter().map(|f| WatchedFile { path: f.0.to_string(), mtime: f.1 }).collect()
}

#[test]
fn the_dump_is_json() {
    let (_, mut info) = load_pipeline(
        vec!["/c".to_string()],
        &vec![String::new()],
        "/n.toml".to_string(),
        None,
        "/tmp/ninja-1".to_string(),
    );
    info.diagnostics = 2;
    let mut triggers = [None; 19];
    triggers[0] = key('q' as u16, true, false);
    let e = EffectiveConfig {
        resources_dir: "/res".to_string(),
        background: Some((40, 44, 52)),
        foreground: None,
        cursor_color: None,
        selection_background: None,
        font_size: Some("13".to_string()),
        palette16: Some(vec![(1, 2, 3), (4, 5, 6)]),
        triggers,
        link_previews: Some(false),
    };
    let named = parse_host_config("[plugins]\nenabled=[\"a\", \"b\\tc\"]");
    let text = dump_effective_config(&e, &info, &named);
    let v: serde_json::Value = serde_json::from_str(&text).unwrap();
    assert_eq!(v["resources_dir"], "/res");
    assert_eq!(v["background"][2], 52);
    assert!(v["foreground"].is_null());
    assert_eq!(v["palette16"][1][0], 4);
    assert_eq!(v["triggers"]["quit"], "super+'q'");
    assert!(v["triggers"]["select_all"].is_null());
    assert_eq!(v["diagnostics"], 2);
    assert_eq!(v["link_previews_readback"], false);
    assert_eq!(v["plugins_enabled"][0], "a");
    assert_eq!(v["plugins_enabled"][1], "b\tc");
    assert_eq!(v["watched"][1], "/n.toml");
    assert_eq!(v["odp_applied"], true);
    assert_eq!(v["triggers"].as_object().unwrap().len(), MENU_ACTIONS.len());
}
