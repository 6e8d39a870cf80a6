//! The vocabulary that the host and its plugins share.

use vstd::prelude::*;

use crate::text::same_text;

pub mod frame;

verus! {

/// The version that every message carries.
pub const PROTOCOL_VERSION: u32 = 0;

/// What a click landed on.
#[derive(Clone, Copy, Debug, PartialEq, Eq, Structural)]
pub enum HitKind {
    /// A path in the file system.
    Path,
    /// A web address.
    Url,
    /// A hyperlink that the terminal program attached to the cell.
    Osc8,
}

/// A modifier key.
#[derive(Clone, Copy, Debug, PartialEq, Eq, Structural)]
pub enum Modifier {
    Shift,
    Ctrl,
    Alt,
    Cmd,
}

/// Where a plugin wants its layer.
#[derive(Clone, Copy, Debug, PartialEq, Eq, Structural)]
pub enum Placement {
    /// Over the cells of the pane.
    Overlay,
    /// Over the cells of the pane, from its left edge on.
    Side,
    /// In a tab of its own.
    Tab,
}

/// What a layer is made of.
#[derive(Clone, Copy, Debug, PartialEq, Eq, Structural)]
pub enum Surface {
    Pixels,
    Html,
}

/// A button of the mouse.
#[derive(Clone, Copy, Debug, PartialEq, Eq, Structural)]
pub enum MouseButton {
    Left,
    Right,
    Middle,
}

/// What the mouse did.
#[derive(Clone, Copy, Debug, PartialEq, Eq, Structural)]
pub enum MouseAction {
    Down,
    Up,
    Move,
}

/// Something was clicked; any plugin may claim it.
#[derive(Clone, Debug, PartialEq)]
pub struct Hit {
    pub id: u64,
    pub kind: HitKind,
    pub text: String,
    pub cwd: String,
    pub row: u32,
    pub col: u32,
    pub pane: u32,
    pub modifiers: Vec<Modifier>,
}

/// A plugin claims a hit; among several the highest priority wins.
#[derive(Clone, Copy, Debug, PartialEq, Eq, Structural)]
pub struct HitClaim {
    pub id: u64,
    pub priority: u32,
}

/// A plugin leaves a hit alone.
#[derive(Clone, Copy, Debug, PartialEq, Eq, Structural)]
pub struct HitIgnore {
    pub id: u64,
}

/// A plugin asks for a layer.
#[derive(Clone, Debug, PartialEq)]
pub struct LayerOpen {
    pub id: u64,
    pub placement: Placement,
    pub surface: Surface,
    pub anchor_row: u32,
    pub anchor_col: u32,
    /// The tab's title; none if empty.
    pub title: String,
}

/// The layer that a plugin asked for.
#[derive(Clone, Copy, Debug, PartialEq, Eq, Structural)]
pub struct LayerReady {
    pub id: u64,
    pub layer: u64,
    pub width_px: u32,
    pub height_px: u32,
    pub dpi: u32,
    pub io_surface_id: u64,
}

/// A text that goes between a plugin and the page in its layer, under a name of their own.
#[derive(Clone, Debug, PartialEq)]
pub struct LayerMsg {
    pub layer: u64,
    pub name: String,
    pub body: String,
}

/// A plugin asks for a key.
#[derive(Clone, Debug, PartialEq)]
pub struct InputHotkey {
    pub id: u64,
    pub key: String,
    pub modifiers: Vec<Modifier>,
}

/// A key for the layer; for none of them where `layer` is 0.
#[derive(Clone, Debug, PartialEq)]
pub struct InputKey {
    pub layer: u64,
    pub key: String,
    pub text: String,
    pub modifiers: Vec<Modifier>,
}

/// What the mouse did over a layer.
#[derive(Clone, Debug, PartialEq)]
pub struct InputMouse {
    pub layer: u64,
    pub button: MouseButton,
    pub action: MouseAction,
    pub x_px: u32,
    pub y_px: u32,
    pub modifiers: Vec<Modifier>,
}

/// Scrolling over a layer.
#[derive(Clone, Debug, PartialEq)]
pub struct InputScroll {
    pub layer: u64,
    pub dx: i32,
    pub dy: i32,
    pub modifiers: Vec<Modifier>,
}

/// The colours that a plugin sets, each as `#rrggbb`.
#[derive(Clone, Debug, PartialEq)]
pub struct ThemeSet {
    pub name: String,
    pub bg: String,
    pub fg: String,
    pub cursor: String,
    pub selection_bg: String,
    /// How opaque the selection is, up to 255.
    pub selection_alpha: u32,
    pub divider: String,
    pub ansi: [String; 16],
}

/// What is told of a pane.
#[derive(Clone, Debug, PartialEq)]
pub struct PaneInfo {
    pub pane: u32,
    pub window: u32,
    pub tab: u32,
    pub leaf: u32,
    pub cwd: String,
    pub fg_pid: u32,
}

/// A plugin types into a pane.
#[derive(Clone, Debug, PartialEq)]
pub struct PaneInput {
    pub pane: u32,
    pub text: String,
}

/// A plugin asks for a process.
#[derive(Clone, Debug, PartialEq)]
pub struct SpawnRequest {
    pub id: u64,
    pub argv: Vec<String>,
    /// How much memory the process may have, 0 for as much as the host gives.
    pub memory_limit_bytes: u64,
}

/// A process was started for a plugin.
#[derive(Clone, Copy, Debug, PartialEq, Eq, Structural)]
pub struct SpawnStarted {
    pub id: u64,
    pub pid: u32,
}

/// A process that was started for a plugin ended.
#[derive(Clone, Copy, Debug, PartialEq, Eq, Structural)]
pub struct SpawnExited {
    pub id: u64,
    pub pid: u32,
    pub code: i32,
}

/// What a plugin is told of the configuration.
#[derive(Clone, Debug, PartialEq)]
pub struct ConfigPush {
    /// The plugins that are on.
    pub enabled: Vec<String>,
    /// Keys and what they are bound to.
    pub keys: Vec<(String, String)>,
    pub memory_limit_bytes: u64,
}

/// A message between the host and a plugin.
#[derive(Clone, Debug, PartialEq)]
pub enum Message {
    Hit(Hit),
    HitClaim(HitClaim),
    HitIgnore(HitIgnore),
    LayerOpen(LayerOpen),
    LayerReady(LayerReady),
    /// The layer's frame is drawn.
    LayerPresent(u64),
    /// The page of a layer: its handle and the text.
    LayerHtml(u64, String),
    LayerMsg(LayerMsg),
    /// The layer is to go, or gone.
    LayerClose(u64),
    InputHotkey(InputHotkey),
    /// The request with this number is granted.
    InputHotkeyGranted(u64),
    /// The request with this number is denied, and why.
    InputHotkeyDenied(u64, String),
    InputKey(InputKey),
    InputMouse(InputMouse),
    InputScroll(InputScroll),
    /// The layer has the keyboard, or lost it.
    InputFocus(u64, bool),
    ThemeSet(ThemeSet),
    PaneSnapshot(Vec<PaneInfo>),
    PaneInput(PaneInput),
    SpawnRequest(SpawnRequest),
    SpawnStarted(SpawnStarted),
    /// The request with this number is denied, and why.
    SpawnDenied(u64, String),
    SpawnExited(SpawnExited),
    ConfigPush(ConfigPush),
}

/// The names of the types of messages that there are.
pub const KNOWN_TYPES: [&'static str; 24] = [
    "hit",
    "hit.claim",
    "hit.ignore",
    "layer.open",
    "layer.ready",
    "layer.present",
    "layer.html",
    "layer.msg",
    "layer.close",
    "input.hotkey",
    "input.hotkey.granted",
    "input.hotkey.denied",
    "input.key",
    "input.mouse",
    "input.scroll",
    "input.focus",
    "theme.set",
    "pane.snapshot",
    "pane.input",
    "spawn.request",
    "spawn.started",
    "spawn.denied",
    "spawn.exited",
    "config.push",
];

/// The place of a message's type among the known ones.
pub open spec fn type_index(m: Message) -> int {
    match m {
        Message::Hit(_) => 0,
        Message::HitClaim(_) => 1,
        Message::HitIgnore(_) => 2,
        Message::LayerOpen(_) => 3,
        Message::LayerReady(_) => 4,
        Message::LayerPresent(_) => 5,
        Message::LayerHtml(_, _) => 6,
        Message::LayerMsg(_) => 7,
        Message::LayerClose(_) => 8,
        Message::InputHotkey(_) => 9,
        Message::InputHotkeyGranted(_) => 10,
        Message::InputHotkeyDenied(_, _) => 11,
        Message::InputKey(_) => 12,
        Message::InputMouse(_) => 13,
        Message::InputScroll(_) => 14,
        Message::InputFocus(_, _) => 15,
        Message::ThemeSet(_) => 16,
        Message::PaneSnapshot(_) => 17,
        Message::PaneInput(_) => 18,
        Message::SpawnRequest(_) => 19,
        Message::SpawnStarted(_) => 20,
        Message::SpawnDenied(_, _) => 21,
        Message::SpawnExited(_) => 22,
        Message::ConfigPush(_) => 23,
    }
}

/// The name of a message's type.
pub open spec fn type_of(m: Message) -> Seq<char> {
    KNOWN_TYPES[type_index(m)]@
}

impl Message {
    /// The name of the message's type.
    pub fn kind_name(&self) -> (s: &'static str)
        ensures
            s@ == type_of(*self),
    {
        match self {
            Message::Hit(_) => KNOWN_TYPES[0],
            Message::HitClaim(_) => KNOWN_TYPES[1],
            Message::HitIgnore(_) => KNOWN_TYPES[2],
            Message::LayerOpen(_) => KNOWN_TYPES[3],
            Message::LayerReady(_) => KNOWN_TYPES[4],
            Message::LayerPresent(_) => KNOWN_TYPES[5],
            Message::LayerHtml(_, _) => KNOWN_TYPES[6],
            Message::LayerMsg(_) => KNOWN_TYPES[7],
            Message::LayerClose(_) => KNOWN_TYPES[8],
            Message::InputHotkey(_) => KNOWN_TYPES[9],
            Message::InputHotkeyGranted(_) => KNOWN_TYPES[10],
            Message::InputHotkeyDenied(_, _) => KNOWN_TYPES[11],
            Message::InputKey(_) => KNOWN_TYPES[12],
            Message::InputMouse(_) => KNOWN_TYPES[13],
            Message::InputScroll(_) => KNOWN_TYPES[14],
            Message::InputFocus(_, _) => KNOWN_TYPES[15],
            Message::ThemeSet(_) => KNOWN_TYPES[16],
            Message::PaneSnapshot(_) => KNOWN_TYPES[17],
            Message::PaneInput(_) => KNOWN_TYPES[18],
            Message::SpawnRequest(_) => KNOWN_TYPES[19],
            Message::SpawnStarted(_) => KNOWN_TYPES[20],
            Message::SpawnDenied(_, _) => KNOWN_TYPES[21],
            Message::SpawnExited(_) => KNOWN_TYPES[22],
            Message::ConfigPush(_) => KNOWN_TYPES[23],
        }
    }
}

/// The name is that of a known type.
pub open spec fn is_type(name: Seq<char>) -> bool {
    exists|i: int| 0 <= i < 24 && #[trigger] KNOWN_TYPES[i]@ == name
}

/// Whether the name is that of a known type.
pub fn is_known_type(name: &str) -> (r: bool)
    ensures
        r == is_type(name@),
{
    let mut i: usize = 0;
    while i < 24
        invariant
            i <= 24,
            forall|j: int| 0 <= j < i ==> #[trigger] KNOWN_TYPES[j]@ != name@,
        decreases 24 - i,
    {
        if same_text(KNOWN_TYPES[i], name) {
            return true;
        }
        i += 1;
    }
    false
}

/// What is done with a message before it is read.
#[derive(Clone, Copy, Debug, PartialEq, Eq, Structural)]
pub enum Envelope {
    /// It is of another version, or tells none: no guess is made.
    OtherVersion,
    /// Its type is not known, or it tells none.
    UnknownType,
    /// It is read.
    Known,
}

/// What is done with a message, by its version and its type.
pub fn envelope(v: Option<u64>, name: Option<&str>) -> (r: Envelope)
    ensures
        r == if v != Some(PROTOCOL_VERSION as u64) {
            Envelope::OtherVersion
        } else if !(name matches Some(n) && is_type(n@)) {
            Envelope::UnknownType
        } else {
            Envelope::Known
        },
{
    match v {
        Some(n) => if n != PROTOCOL_VERSION as u64 {
            return Envelope::OtherVersion;
        },
        None => {
            return Envelope::OtherVersion;
        },
    }
    match name {
        Some(n) => if is_known_type(n) {
            Envelope::Known
        } else {
            Envelope::UnknownType
        },
        None => Envelope::UnknownType,
    }
}

/// Every message has a known type.
pub proof fn lemma_messages_have_types(m: Message)
    ensures
        is_type(type_of(m)),
{
    assert(KNOWN_TYPES[type_index(m)]@ == type_of(m));
}

/// No two types have the same name: a message's name tells its type.
pub proof fn lemma_types_differ(i: int, j: int)
    requires
        0 <= i < j < 24,
    ensures
        KNOWN_TYPES[i]@ != KNOWN_TYPES[j]@,
{
    reveal_strlit("hit");
    reveal_strlit("hit.claim");
    reveal_strlit("hit.ignore");
    reveal_strlit("layer.open");
    reveal_strlit("layer.ready");
    reveal_strlit("layer.present");
    reveal_strlit("layer.html");
    reveal_strlit("layer.msg");
    reveal_strlit("layer.close");
    reveal_strlit("input.hotkey");
    reveal_strlit("input.hotkey.granted");
    reveal_strlit("input.hotkey.denied");
    reveal_strlit("input.key");
    reveal_strlit("input.mouse");
    reveal_strlit("input.scroll");
    reveal_strlit("input.focus");
    reveal_strlit("theme.set");
    reveal_strlit("pane.snapshot");
    reveal_strlit("pane.input");
    reveal_strlit("spawn.request");
    reveal_strlit("spawn.started");
    reveal_strlit("spawn.denied");
    reveal_strlit("spawn.exited");
    reveal_strlit("config.push");
    let a = KNOWN_TYPES[i]@;
    let b = KNOWN_TYPES[j]@;
    if a.len() == b.len() {
        assert(a[0] != b[0] || a[6] != b[6]);
    }
}

/// Each kind of message has its own name.
pub proof fn lemma_names_of_messages(m: Message)
    ensures
        type_of(m) == match m {
            Message::Hit(..) => "hit"@,
            Message::HitClaim(..) => "hit.claim"@,
            Message::HitIgnore(..) => "hit.ignore"@,
            Message::LayerOpen(..) => "layer.open"@,
            Message::LayerReady(..) => "layer.ready"@,
            Message::LayerPresent(..) => "layer.present"@,
            Message::LayerHtml(..) => "layer.html"@,
            Message::LayerMsg(..) => "layer.msg"@,
            Message::LayerClose(..) => "layer.close"@,
            Message::InputHotkey(..) => "input.hotkey"@,
            Message::InputHotkeyGranted(..) => "input.hotkey.granted"@,
            Message::InputHotkeyDenied(..) => "input.hotkey.denied"@,
            Message::InputKey(..) => "input.key"@,
            Message::InputMouse(..) => "input.mouse"@,
            Message::InputScroll(..) => "input.scroll"@,
            Message::InputFocus(..) => "input.focus"@,
            Message::ThemeSet(..) => "theme.set"@,
            Message::PaneSnapshot(..) => "pane.snapshot"@,
            Message::PaneInput(..) => "pane.input"@,
            Message::SpawnRequest(..) => "spawn.request"@,
            Message::SpawnStarted(..) => "spawn.started"@,
            Message::SpawnDenied(..) => "spawn.denied"@,
            Message::SpawnExited(..) => "spawn.exited"@,
            Message::ConfigPush(..) => "config.push"@,
        },
{
}

/// A name is known just where some message can have it.
pub proof fn lemma_known_names(name: Seq<char>)
    ensures
        is_type(name) <==> {
            ||| name == "hit"@
            ||| name == "hit.claim"@
            ||| name == "hit.ignore"@
            ||| name == "layer.open"@
            ||| name == "layer.ready"@
            ||| name == "layer.present"@
            ||| name == "layer.html"@
            ||| name == "layer.msg"@
            ||| name == "layer.close"@
            ||| name == "input.hotkey"@
            ||| name == "input.hotkey.granted"@
            ||| name == "input.hotkey.denied"@
            ||| name == "input.key"@
            ||| name == "input.mouse"@
            ||| name == "input.scroll"@
            ||| name == "input.focus"@
            ||| name == "theme.set"@
            ||| name == "pane.snapshot"@
            ||| name == "pane.input"@
            ||| name == "spawn.request"@
            ||| name == "spawn.started"@
            ||| name == "spawn.denied"@
            ||| name == "spawn.exited"@
            ||| name == "config.push"@
        },
{
    assert(is_type(name) ==> exists|i: int| 0 <= i < 24 && #[trigger] KNOWN_TYPES[i]@ == name);
    assert(KNOWN_TYPES[0]@ == "hit"@);
    assert(KNOWN_TYPES[1]@ == "hit.claim"@);
    assert(KNOWN_TYPES[2]@ == "hit.ignore"@);
    assert(KNOWN_TYPES[3]@ == "layer.open"@);
    assert(KNOWN_TYPES[4]@ == "layer.ready"@);
    assert(KNOWN_TYPES[5]@ == "layer.present"@);
    assert(KNOWN_TYPES[6]@ == "layer.html"@);
    assert(KNOWN_TYPES[7]@ == "layer.msg"@);
    assert(KNOWN_TYPES[8]@ == "layer.close"@);
    assert(KNOWN_TYPES[9]@ == "input.hotkey"@);
    assert(KNOWN_TYPES[10]@ == "input.hotkey.granted"@);
    assert(KNOWN_TYPES[11]@ == "input.hotkey.denied"@);
    assert(KNOWN_TYPES[12]@ == "input.key"@);
    assert(KNOWN_TYPES[13]@ == "input.mouse"@);
    assert(KNOWN_TYPES[14]@ == "input.scroll"@);
    assert(KNOWN_TYPES[15]@ == "input.focus"@);
    assert(KNOWN_TYPES[16]@ == "theme.set"@);
    assert(KNOWN_TYPES[17]@ == "pane.snapshot"@);
    assert(KNOWN_TYPES[18]@ == "pane.input"@);
    assert(KNOWN_TYPES[19]@ == "spawn.request"@);
    assert(KNOWN_TYPES[20]@ == "spawn.started"@);
    assert(KNOWN_TYPES[21]@ == "spawn.denied"@);
    assert(KNOWN_TYPES[22]@ == "spawn.exited"@);
    assert(KNOWN_TYPES[23]@ == "config.push"@);
}

/// A message is read just where it tells this version, which is 0, and a type that is known. One of
/// another version is not even asked for its type.
pub proof fn lemma_what_is_read(v: Option<u64>, name: Option<&str>, r: Envelope)
    requires
        call_ensures(envelope, (v, name), r),
    ensures
        r is OtherVersion <==> v is None || v->0 != 0,
        r is Known <==> v == Some(0u64) && name is Some && is_type(name->0@),
{
}

} // verus!
