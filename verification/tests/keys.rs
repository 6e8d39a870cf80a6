use ninja::keymap::{
    consumed_mods_from_flags, is_bare_super, mod_key_of_code, mods_from_flags, sanitize_text,
    scroll_mods, ScrollPhase, GHOSTTY_MODS_ALT, GHOSTTY_MODS_CAPS, GHOSTTY_MODS_CTRL,
    GHOSTTY_MODS_NONE, GHOSTTY_MODS_SHIFT, GHOSTTY_MODS_SHIFT_RIGHT, GHOSTTY_MODS_SUPER,
    MASK_ALPHA_SHIFT, MASK_ALT, MASK_CMD, MASK_CTRL, MASK_SHIFT, NX_DEVICERSHIFTKEYMASK,
};
use ninja::plugins::keys::{
    closes_tab, code_to_key_name, drop_grants, hotkey_decide, hotkey_owner, hotkey_to_key_event,
    key_name_to_code, key_route, modifiers_from_mods, tab_key, HotkeyGrant, KeyPress, KeyRoute,
    NAMED_KEYS,
};
use ninja::protocol::{InputHotkey, InputKey, Message, Modifier};

#[test]
fn mods_basic_and_sided() {
    assert_eq!(mods_from_flags(0), GHOSTTY_MODS_NONE);
    let cmd = mods_from_flags(MASK_CMD);
    assert_eq!(cmd & GHOSTTY_MODS_SUPER, GHOSTTY_MODS_SUPER);
    assert_eq!(cmd & GHOSTTY_MODS_SHIFT, 0);
    let rs = mods_from_flags(MASK_SHIFT | NX_DEVICERSHIFTKEYMASK);
    assert_eq!(rs & GHOSTTY_MODS_SHIFT, GHOSTTY_MODS_SHIFT);
    assert_eq!(rs & GHOSTTY_MODS_SHIFT_RIGHT, GHOSTTY_MODS_SHIFT_RIGHT);
    assert_eq!(mods_from_flags(MASK_ALPHA_SHIFT) & GHOSTTY_MODS_CAPS, GHOSTTY_MODS_CAPS);
}

#[test]
fn bare_super_detects_cmd_only() {
    assert!(is_bare_super(MASK_CMD));
    assert!(!is_bare_super(MASK_CMD | MASK_SHIFT));
    assert!(!is_bare_super(MASK_CMD | MASK_ALT));
    assert!(!is_bare_super(MASK_CMD | MASK_CTRL));
    assert!(!is_bare_super(MASK_SHIFT));
    assert!(!is_bare_super(0));
}

#[test]
fn consumed_mods_exclude_ctrl_and_cmd() {
    let m = consumed_mods_from_flags(MASK_CMD | MASK_CTRL | MASK_SHIFT | MASK_ALT);
    assert_eq!(m & GHOSTTY_MODS_SUPER, 0, "⌘ 不算消耗");
    assert_eq!(m & GHOSTTY_MODS_CTRL, 0, "ctrl 不算消耗");
    assert_eq!(m & GHOSTTY_MODS_SHIFT, GHOSTTY_MODS_SHIFT);
    assert_eq!(m & GHOSTTY_MODS_ALT, GHOSTTY_MODS_ALT);
}

#[test]
fn sanitize_text_filters_control_and_pua() {
    assert_eq!(sanitize_text("a").as_deref(), Some("a"));
    assert_eq!(sanitize_text("你好").as_deref(), Some("你好"));
    assert_eq!(sanitize_text("\u{8}"), None);
    assert_eq!(sanitize_text("\r"), None);
    assert_eq!(sanitize_text("\u{F702}"), None);
    assert_eq!(sanitize_text("\u{F8FF}"), None);
}

#[test]
fn scroll_mods_packing() {
    assert_eq!(scroll_mods(false, ScrollPhase::Absent), 0);
    assert_eq!(scroll_mods(true, ScrollPhase::Absent) & 1, 1);
    assert_eq!(scroll_mods(false, ScrollPhase::Began), 1 << 1);
}

#[test]
fn mod_key_table() {
    assert_eq!(mod_key_of_code(0x39), Some(GHOSTTY_MODS_CAPS));
    assert_eq!(mod_key_of_code(0x38), Some(GHOSTTY_MODS_SHIFT));
    assert_eq!(mod_key_of_code(0x3B), Some(GHOSTTY_MODS_CTRL));
    assert_eq!(mod_key_of_code(0x3A), Some(GHOSTTY_MODS_ALT));
    assert_eq!(mod_key_of_code(0x37), Some(GHOSTTY_MODS_SUPER));
    assert_eq!(mod_key_of_code(0x00), None, "字母键不是修饰键");
}

#[test]
fn key_name_roundtrip() {
    assert_eq!(key_name_to_code("esc"), Some(53));
    assert_eq!(key_name_to_code("enter"), Some(36));
    assert_eq!(key_name_to_code("p"), Some(0x23));
    assert_eq!(key_name_to_code("1"), Some(0x13));
    assert_eq!(key_name_to_code("f12"), Some(0x6F));
    assert_eq!(key_name_to_code("multi char"), None);
    assert_eq!(key_name_to_code(""), None);
    assert_eq!(code_to_key_name(53, None), "esc");
    assert_eq!(code_to_key_name(0x23, Some('P')), "p");
    assert_eq!(code_to_key_name(40, Some('\u{f702}')), "key40");
    assert_eq!(code_to_key_name(40, Some('X')), "x");
}

#[test]
fn named_keys_go_both_ways() {
    for (name, code) in NAMED_KEYS {
        assert_eq!(key_name_to_code(name), Some(code));
        assert_eq!(code_to_key_name(code, None), name);
    }
    assert_eq!(key_name_to_code("Z"), Some(0x06));
    assert_eq!(key_name_to_code("é"), None);
}

#[test]
fn modifiers_go_both_ways() {
    assert_eq!(
        modifiers_from_mods(GHOSTTY_MODS_SUPER | GHOSTTY_MODS_SHIFT),
        vec![Modifier::Shift, Modifier::Cmd]
    );
    let press = hotkey_to_key_event("p", &vec![Modifier::Cmd, Modifier::Alt]);
    assert_eq!(
        press,
        Some(KeyPress { keycode: 0x23, mods: GHOSTTY_MODS_SUPER | GHOSTTY_MODS_ALT })
    );
    assert_eq!(hotkey_to_key_event("nope", &Vec::new()), None);
}

fn ask(id: u64, key: &str, modifiers: Vec<Modifier>) -> InputHotkey {
    InputHotkey { id, key: key.to_string(), modifiers }
}

#[test]
fn keys_are_granted_once() {
    let mut grants: Vec<HotkeyGrant> = Vec::new();
    let cmd_shift = vec![Modifier::Cmd, Modifier::Shift];
    let shift_cmd = vec![Modifier::Shift, Modifier::Cmd];
    assert_eq!(
        hotkey_decide(&mut grants, &ask(1, "nokey", Vec::new()), 7, false),
        Message::InputHotkeyDenied(1, "未知键名".to_string())
    );
    assert_eq!(
        hotkey_decide(&mut grants, &ask(2, "p", cmd_shift.clone()), 7, false),
        Message::InputHotkeyGranted(2)
    );
    assert_eq!(
        hotkey_decide(&mut grants, &ask(3, "p", shift_cmd.clone()), 8, false),
        Message::InputHotkeyDenied(3, "已被另一个插件占用".to_string())
    );
    assert_eq!(
        hotkey_decide(&mut grants, &ask(4, "p", shift_cmd.clone()), 7, false),
        Message::InputHotkeyGranted(4)
    );
    assert_eq!(grants.len(), 1);
    assert_eq!(
        hotkey_decide(&mut grants, &ask(5, "q", Vec::new()), 7, true),
        Message::InputHotkeyDenied(5, "与 ghostty 键位绑定冲突".to_string())
    );
    assert_eq!(hotkey_owner(&grants, "p", &cmd_shift), Some(7));
    assert_eq!(hotkey_owner(&grants, "p", &Vec::new()), None);
    drop_grants(&mut grants, 7);
    assert!(grants.is_empty());
}

#[test]
fn grants_mean_sets_of_modifiers() {
    let twice = HotkeyGrant {
        conn: 1,
        key: "p".to_string(),
        modifiers: vec![Modifier::Shift, Modifier::Shift],
    };
    assert!(!twice.matches("p", &vec![Modifier::Shift, Modifier::Ctrl]));
    assert!(twice.matches("p", &vec![Modifier::Shift]));
    let both = HotkeyGrant { modifiers: vec![Modifier::Shift, Modifier::Ctrl], ..twice };
    assert!(both.matches("p", &vec![Modifier::Ctrl, Modifier::Shift]));
    assert!(!both.matches("p", &vec![Modifier::Shift, Modifier::Shift]));
    assert!(!both.matches("q", &vec![Modifier::Ctrl, Modifier::Shift]));
}

#[test]
fn where_a_key_goes() {
    let grants = vec![HotkeyGrant { conn: 9, key: "p".to_string(), modifiers: vec![Modifier::Cmd] }];
    assert_eq!(key_route(Some((3, 4)), &grants, 53, 0, None), KeyRoute::CloseLayers);
    assert_eq!(
        key_route(Some((3, 4)), &grants, 53, GHOSTTY_MODS_SUPER, None),
        KeyRoute::Plugin(
            4,
            InputKey {
                layer: 3,
                key: "esc".to_string(),
                text: String::new(),
                modifiers: vec![Modifier::Cmd]
            }
        )
    );
    assert_eq!(
        key_route(None, &grants, 0x23, GHOSTTY_MODS_SUPER, Some("p")),
        KeyRoute::Plugin(
            9,
            InputKey {
                layer: 0,
                key: "p".to_string(),
                text: "p".to_string(),
                modifiers: vec![Modifier::Cmd]
            }
        )
    );
    assert_eq!(key_route(None, &grants, 0x23, 0, Some("p")), KeyRoute::Terminal);
    assert!(closes_tab("esc", &Vec::new()));
    assert!(!closes_tab("esc", &vec![Modifier::Cmd]));
    assert!(closes_tab("w", &vec![Modifier::Cmd]));
    assert!(!closes_tab("w", &vec![Modifier::Cmd, Modifier::Shift]));
    assert_eq!(tab_key(0, "a".to_string(), String::new(), Vec::new()), None);
}
