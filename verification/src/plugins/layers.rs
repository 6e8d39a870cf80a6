//! The layers of plugins: how they are opened, what goes to them and what comes from them.

use vstd::prelude::*;
use vstd::string::*;

use crate::layer::{
    close, close_pane, lemma_others_from, others, those, LayerEntry, Registry, Which, TAB_PANE,
};
use crate::protocol::{
    InputMouse, InputScroll, LayerMsg, LayerReady, MouseAction, MouseButton, Modifier,
    Placement, Surface,
};

verus! {

/// How a layer is opened.
#[derive(Clone, Copy, Debug, PartialEq, Eq, Structural)]
pub enum OpenKind {
    /// As a tab with a web page.
    TabHtml,
    /// As a tab with pixels.
    TabPixels,
    /// Over the pane with pixels, from the clicked cell on.
    Overlay,
    /// Over the pane with pixels, from the left edge on.
    Side,
    /// Not at all: there are no web pages over a pane.
    Refused,
}

/// How a layer that a plugin asked for is opened.
pub fn open_kind(placement: Placement, surface: Surface) -> (r: OpenKind)
    ensures
        r == match (placement, surface) {
            (Placement::Tab, Surface::Html) => OpenKind::TabHtml,
            (Placement::Tab, Surface::Pixels) => OpenKind::TabPixels,
            (Placement::Overlay, Surface::Pixels) => OpenKind::Overlay,
            (Placement::Side, Surface::Pixels) => OpenKind::Side,
            (_, Surface::Html) => OpenKind::Refused,
        },
{
    match (placement, surface) {
        (Placement::Tab, Surface::Html) => OpenKind::TabHtml,
        (Placement::Tab, Surface::Pixels) => OpenKind::TabPixels,
        (Placement::Overlay, Surface::Pixels) => OpenKind::Overlay,
        (Placement::Side, Surface::Pixels) => OpenKind::Side,
        (Placement::Overlay, Surface::Html) => OpenKind::Refused,
        (Placement::Side, Surface::Html) => OpenKind::Refused,
    }
}

/// The title of a plugin's tab.
pub fn tab_title(title: &str) -> (r: String)
    ensures
        r@ == if title@.len() == 0 {
            "Tab"@
        } else {
            title@
        },
{
    if title.is_empty() {
        "Tab".to_owned()
    } else {
        title.to_owned()
    }
}

/// The surface that a layer was given: its size in pixels, its resolution and its number.
#[derive(Clone, Copy, Debug, PartialEq, Eq, Structural)]
pub struct Canvas {
    pub width_px: u32,
    pub height_px: u32,
    pub dpi: u32,
    pub io_surface_id: u64,
}

/// The layer of a request, before it has a handle.
pub open spec fn entry_for(kind: OpenKind, pane: u32, conn: u64, open_id: u64, canvas: Canvas) -> LayerEntry {
    LayerEntry {
        handle: 0,
        pane: if kind is TabHtml || kind is TabPixels {
            TAB_PANE
        } else {
            pane
        },
        width_px: canvas.width_px,
        height_px: canvas.height_px,
        conn,
        open_id,
        html: kind is TabHtml,
        presented: false,
        view: 0,
    }
}

/// Opens a layer. One over a pane takes the place of the one that the pane has, which is to be taken
/// off the screen and whose plugin is to be told; tabs stand beside each other. The result are the
/// layers that went and what the plugin is told; a web page has no surface number.
pub fn layer_open(
    reg: &mut Registry,
    kind: OpenKind,
    pane: u32,
    conn: u64,
    open_id: u64,
    canvas: Canvas,
) -> (r: (Vec<LayerEntry>, LayerReady))
    requires
        old(reg).wf(),
        old(reg).next() < u64::MAX,
        !(kind is Refused),
        pane != TAB_PANE,
    ensures
        final(reg).wf(),
        final(reg).next() == old(reg).next() + 1,
        ({
            let entry = entry_for(kind, pane, conn, open_id, canvas);
            let handle = old(reg).next();
            let over = entry.pane == pane;
            let kept = if over {
                others(old(reg).layers(), Which::Pane(pane))
            } else {
                old(reg).layers()
            };
            &&& final(reg).layers() == kept.push((LayerEntry { handle, ..entry }))
            &&& r.0@ == if over {
                those(old(reg).layers(), Which::Pane(pane))
            } else {
                Seq::empty()
            }
            &&& r.1 == LayerReady {
                id: open_id,
                layer: handle,
                width_px: canvas.width_px,
                height_px: canvas.height_px,
                dpi: canvas.dpi,
                io_surface_id: if kind is TabHtml {
                    0
                } else {
                    canvas.io_surface_id
                },
            }
        }),
{
    let tab: bool = match kind {
        OpenKind::TabHtml | OpenKind::TabPixels => true,
        _ => false,
    };
    let html: bool = match kind {
        OpenKind::TabHtml => true,
        _ => false,
    };
    let ghost before = reg.layers();
    let closed: Vec<LayerEntry> = if tab {
        Vec::new()
    } else {
        close_pane(reg, pane)
    };
    proof {
        if !tab {
            assert forall|i: int| 0 <= i < reg.layers().len() implies (
            #[trigger] reg.layers()[i]).pane != pane by {
                assert(reg.layers().contains(reg.layers()[i]));
                lemma_others_from(before, Which::Pane(pane), reg.layers()[i]);
            }
        }
    }
    let handle: u64 = reg.add_entry(
        LayerEntry {
            handle: 0,
            pane: if tab {
                TAB_PANE
            } else {
                pane
            },
            width_px: canvas.width_px,
            height_px: canvas.height_px,
            conn,
            open_id,
            html,
            presented: false,
            view: 0,
        },
    );
    (
        closed,
        LayerReady {
            id: open_id,
            layer: handle,
            width_px: canvas.width_px,
            height_px: canvas.height_px,
            dpi: canvas.dpi,
            io_surface_id: if html {
                0
            } else {
                canvas.io_surface_id
            },
        },
    )
}

/// What is done with a page for a layer.
#[derive(Clone, Copy, Debug, PartialEq, Eq, Structural)]
pub enum PageTarget {
    /// There is no such layer.
    Missing,
    /// The layer is made of pixels.
    NotHtml,
    /// The layer shows it.
    Page,
}

/// The layer with the handle, if there is one.
pub open spec fn layer_with(s: Seq<LayerEntry>, handle: u64) -> Option<LayerEntry>
    decreases s.len(),
{
    if s.len() == 0 {
        None
    } else if s[0].handle == handle {
        Some(s[0])
    } else {
        layer_with(s.drop_first(), handle)
    }
}

proof fn lemma_layer_with(s: Seq<LayerEntry>, l: LayerEntry)
    requires
        crate::layer::handles_grow(s),
        s.contains(l),
    ensures
        layer_with(s, l.handle) == Some(l),
    decreases s.len(),
{
    let i = s.index_of(l);
    if i > 0 {
        assert(s[0].handle < s[i].handle);
        let t = s.drop_first();
        assert(t[i - 1] == l);
        assert(crate::layer::handles_grow(t)) by {
            assert forall|a: int, b: int| 0 <= a < b < t.len() implies (#[trigger] t[a]).handle < (
            #[trigger] t[b]).handle by {
                assert(s[a + 1].handle < s[b + 1].handle);
            }
        }
        lemma_layer_with(t, l);
    }
}

proof fn lemma_no_layer(s: Seq<LayerEntry>, handle: u64)
    requires
        forall|i: int| 0 <= i < s.len() ==> (#[trigger] s[i]).handle != handle,
    ensures
        layer_with(s, handle) is None,
    decreases s.len(),
{
    if s.len() > 0 {
        let t = s.drop_first();
        assert forall|i: int| 0 <= i < t.len() implies (#[trigger] t[i]).handle != handle by {
            assert(s[i + 1].handle != handle);
        }
        lemma_no_layer(t, handle);
    }
}

fn find_layer(reg: &Registry, handle: u64) -> (r: Option<LayerEntry>)
    requires
        reg.wf(),
    ensures
        r == layer_with(reg.layers(), handle),
{
    let r: Option<LayerEntry> = reg.get(handle);
    proof {
        match r {
            Some(l) => lemma_layer_with(reg.layers(), l),
            None => lemma_no_layer(reg.layers(), handle),
        }
    }
    r
}

/// What is done with a page for a layer.
pub fn layer_load_html(reg: &Registry, handle: u64) -> (r: PageTarget)
    requires
        reg.wf(),
    ensures
        r == match layer_with(reg.layers(), handle) {
            None => PageTarget::Missing,
            Some(l) => if l.html {
                PageTarget::Page
            } else {
                PageTarget::NotHtml
            },
        },
{
    match find_layer(reg, handle) {
        None => PageTarget::Missing,
        Some(l) => if l.html {
            PageTarget::Page
        } else {
            PageTarget::NotHtml
        },
    }
}

/// A JSON object of two strings under their keys, as `serde_json` writes it.
pub uninterp spec fn json_object(
    key: Seq<char>,
    value: Seq<char>,
    other_key: Seq<char>,
    other_value: Seq<char>,
) -> Seq<char>;

/// `Value::to_string` of `serde_json` on an object of two strings: the object's compact JSON text,
/// whose escapes and order of members are that crate's.
#[verifier::external_body]
fn object_text(key: &str, value: &str, other_key: &str, other_value: &str) -> (s: String)
    ensures
        s@ == json_object(key@, value@, other_key@, other_value@),
{
    let mut map = serde_json::Map::new();
    map.insert(key.to_owned(), serde_json::Value::String(value.to_owned()));
    map.insert(other_key.to_owned(), serde_json::Value::String(other_value.to_owned()));
    serde_json::Value::Object(map).to_string()
}

/// The script that hands a text to the page in a layer.
pub open spec fn post_script(payload: Seq<char>) -> Seq<char> {
    "(function(){var d="@ + payload
        + ";window.dispatchEvent(new CustomEvent('layer-msg',{detail:d}));})();"@
}

/// The script that hands a payload to the page in a layer.
pub fn post_script_of(payload: &str) -> (s: String)
    ensures
        s@ == post_script(payload@),
{
    "(function(){var d=".to_owned().concat(payload).concat(
        ";window.dispatchEvent(new CustomEvent('layer-msg',{detail:d}));})();",
    )
}

/// The script that hands a message to the page in a layer; `None` where there is no such layer, or
/// it is made of pixels.
pub fn layer_post_msg(reg: &Registry, m: &LayerMsg) -> (r: Option<String>)
    requires
        reg.wf(),
    ensures
        match layer_with(reg.layers(), m.layer) {
            Some(l) if l.html => r matches Some(s) && s@ == post_script(
                json_object("name"@, m.name@, "body"@, m.body@),
            ),
            _ => r is None,
        },
{
    match find_layer(reg, m.layer) {
        None => None,
        Some(l) => if !l.html {
            None
        } else {
            let payload: String = object_text("name", m.name.as_str(), "body", m.body.as_str());
            Some(post_script_of(payload.as_str()))
        },
    }
}

/// What a page sent: a text, or an object with a name and a body where those are texts.
#[derive(Clone, Debug, PartialEq)]
pub enum ScriptBody {
    Text(String),
    Fields(Option<String>, Option<String>),
}

/// A text, or the empty one.
pub open spec fn or_empty(s: Option<String>) -> Seq<char> {
    match s {
        Some(t) => t@,
        None => Seq::empty(),
    }
}

fn text_or_empty(s: Option<String>) -> (r: String)
    ensures
        r@ == or_empty(s),
{
    match s {
        Some(t) => t,
        None => {
            let r: String = String::new();
            assert(r@ =~= Seq::<char>::empty());
            r
        },
    }
}

/// The name and the body of what a page sent.
pub fn parse_script_msg_body(body: ScriptBody) -> (r: (String, String))
    ensures
        match body {
            ScriptBody::Text(t) => r.0@ == Seq::<char>::empty() && r.1@ == t@,
            ScriptBody::Fields(name, body) => r.0@ == or_empty(name) && r.1@ == or_empty(body),
        },
{
    match body {
        ScriptBody::Text(t) => (text_or_empty(None), t),
        ScriptBody::Fields(name, body) => (text_or_empty(name), text_or_empty(body)),
    }
}

/// Which layer a page is in, and whose it is; 0 before the layer has a handle.
#[derive(Clone, Copy, Debug, PartialEq, Eq, Structural)]
pub struct LayerMsgIvars {
    pub handle: u64,
    pub conn: u64,
}

/// What a page sent, as it is told to the plugin at the connection; nothing where the layer has no
/// handle yet.
pub fn script_message(page: LayerMsgIvars, body: ScriptBody) -> (r: Option<(u64, LayerMsg)>)
    ensures
        if page.handle == 0 {
            r is None
        } else {
            &&& r matches Some(m)
            &&& m.0 == page.conn
            &&& m.1.layer == page.handle
            &&& match body {
                ScriptBody::Text(t) => m.1.name@ == Seq::<char>::empty() && m.1.body@ == t@,
                ScriptBody::Fields(name, body) => m.1.name@ == or_empty(name) && m.1.body@
                    == or_empty(body),
            }
        },
{
    if page.handle == 0 {
        return None;
    }
    let (name, body) = parse_script_msg_body(body);
    Some((page.conn, LayerMsg { layer: page.handle, name, body }))
}

/// Closes the layer of a tab that was closed. The result is the connection of the plugin that is to
/// be told, where there was such a layer.
pub fn layer_tab_closed(reg: &mut Registry, handle: u64) -> (r: Option<u64>)
    requires
        old(reg).wf(),
    ensures
        final(reg).wf(),
        final(reg).next() == old(reg).next(),
        final(reg).layers() == others(old(reg).layers(), Which::Handle(handle)),
        r == match layer_with(old(reg).layers(), handle) {
            Some(l) => Some(l.conn),
            None => None,
        },
{
    let conn: Option<u64> = match find_layer(reg, handle) {
        Some(l) => Some(l.conn),
        None => None,
    };
    let closed: Vec<LayerEntry> = close(reg, handle);
    conn
}

/// The handles and connections of layers.
pub open spec fn handles_and_conns(s: Seq<LayerEntry>) -> Seq<(u64, u64)> {
    s.map_values(|l: LayerEntry| (l.handle, l.conn))
}

/// The handles of layers that went, with the connections that are to be told.
pub fn notices(closed: &Vec<LayerEntry>) -> (out: Vec<(u64, u64)>)
    ensures
        out@ == handles_and_conns(closed@),
{
    let mut out: Vec<(u64, u64)> = Vec::new();
    let mut i: usize = 0;
    while i < closed.len()
        invariant
            i <= closed@.len(),
            out@ == handles_and_conns(closed@.take(i as int)),
        decreases closed@.len() - i,
    {
        out.push((closed[i].handle, closed[i].conn));
        i += 1;
        assert(out@ =~= handles_and_conns(closed@.take(i as int)));
    }
    assert(closed@.take(i as int) =~= closed@);
    out
}

/// Closes the layers of a pane: because of the escape key, a new size, or the pane's end. The result
/// are the layers that are to be taken off the screen and whose plugins are to be told.
pub fn host_close_layers_of_pane(reg: &mut Registry, pane: u32) -> (closed: Vec<LayerEntry>)
    requires
        old(reg).wf(),
    ensures
        final(reg).wf(),
        final(reg).next() == old(reg).next(),
        closed@ == those(old(reg).layers(), Which::Pane(pane)),
        final(reg).layers() == others(old(reg).layers(), Which::Pane(pane)),
        forall|l: LayerEntry| #[trigger] final(reg).layers().contains(l) ==> l.pane != pane,
{
    let ghost before = reg.layers();
    let closed: Vec<LayerEntry> = close_pane(reg, pane);
    assert forall|l: LayerEntry| #[trigger] reg.layers().contains(l) implies l.pane != pane by {
        lemma_others_from(before, Which::Pane(pane), l);
    }
    closed
}

/// What a plugin is told when its tab has a new size: the same layer under the same request, on
/// another surface. Nothing for a web page, or where there is no such layer.
pub fn rebuild_tab_layer(reg: &Registry, handle: u64, canvas: Canvas) -> (r: Option<(u64, LayerReady)>)
    requires
        reg.wf(),
    ensures
        match layer_with(reg.layers(), handle) {
            Some(l) if !l.html => r == Some(
                (
                    l.conn,
                    LayerReady {
                        id: l.open_id,
                        layer: handle,
                        width_px: canvas.width_px,
                        height_px: canvas.height_px,
                        dpi: canvas.dpi,
                        io_surface_id: canvas.io_surface_id,
                    },
                ),
            ),
            _ => r is None,
        },
{
    match find_layer(reg, handle) {
        None => None,
        Some(l) => if l.html {
            None
        } else {
            Some(
                (
                    l.conn,
                    LayerReady {
                        id: l.open_id,
                        layer: handle,
                        width_px: canvas.width_px,
                        height_px: canvas.height_px,
                        dpi: canvas.dpi,
                        io_surface_id: canvas.io_surface_id,
                    },
                ),
            )
        },
    }
}

/// Whether a tab's surface is made anew: it has shown a frame, has a handle, is not being dragged to
/// its size, and its size is another.
pub fn resizes_tab(is_tab: bool, presented: bool, handle: u64, live: bool, moved: bool) -> (r: bool)
    ensures
        r == (is_tab && presented && handle != 0 && !live && moved),
{
    is_tab && presented && handle != 0 && !live && moved
}

/// The button with a number.
pub fn mouse_button_of(number: i64) -> (r: MouseButton)
    ensures
        r == if number == 1 {
            MouseButton::Right
        } else if number == 2 {
            MouseButton::Middle
        } else {
            MouseButton::Left
        },
{
    if number == 1 {
        MouseButton::Right
    } else if number == 2 {
        MouseButton::Middle
    } else {
        MouseButton::Left
    }
}

/// What the mouse did over a layer, as it is told to the plugin; nothing where the layer has no
/// handle yet.
pub fn layer_mouse(
    handle: u64,
    button: i64,
    action: MouseAction,
    x_px: u32,
    y_px: u32,
    modifiers: Vec<Modifier>,
) -> (r: Option<InputMouse>)
    ensures
        if handle == 0 {
            r is None
        } else {
            &&& r matches Some(m)
            &&& m.layer == handle
            &&& m.button == if button == 1 {
                MouseButton::Right
            } else if button == 2 {
                MouseButton::Middle
            } else {
                MouseButton::Left
            }
            &&& m.action == action
            &&& m.x_px == x_px
            &&& m.y_px == y_px
            &&& m.modifiers == modifiers
        },
{
    if handle == 0 {
        return None;
    }
    Some(
        InputMouse {
            layer: handle,
            button: mouse_button_of(button),
            action,
            x_px,
            y_px,
            modifiers,
        },
    )
}

/// Scrolling over a layer, as it is told to the plugin; nothing where the layer has no handle yet, or
/// nothing moved.
pub fn layer_scroll(handle: u64, dx: i32, dy: i32, modifiers: Vec<Modifier>) -> (r: Option<InputScroll>)
    ensures
        if handle == 0 || (dx == 0 && dy == 0) {
            r is None
        } else {
            r == Some(InputScroll { layer: handle, dx, dy, modifiers })
        },
{
    if handle == 0 || (dx == 0 && dy == 0) {
        None
    } else {
        Some(InputScroll { layer: handle, dx, dy, modifiers })
    }
}

/// A layer in a tab belongs to no pane, one over a pane to that pane; just a page in a tab is made of a
/// page. It has the size of its surface, and nothing to show yet.
pub proof fn lemma_layers_as_asked(kind: OpenKind, pane: u32, conn: u64, open_id: u64, canvas: Canvas)
    ensures
        ({
            let e = entry_for(kind, pane, conn, open_id, canvas);
            &&& kind == OpenKind::TabHtml || kind == OpenKind::TabPixels ==> e.pane == TAB_PANE
            &&& kind == OpenKind::Overlay || kind == OpenKind::Side ==> e.pane == pane
            &&& e.html <==> kind == OpenKind::TabHtml
            &&& e.conn == conn && e.open_id == open_id
            &&& e.width_px == canvas.width_px && e.height_px == canvas.height_px
            &&& !e.presented && e.handle == 0 && e.view == 0
        }),
{
}

/// A layer is found by its handle: what is found has it, and nothing is found just where none has.
pub proof fn lemma_layer_is_found(s: Seq<LayerEntry>, handle: u64)
    ensures
        match layer_with(s, handle) {
            Some(l) => s.contains(l) && l.handle == handle,
            None => forall|i: int| 0 <= i < s.len() ==> (#[trigger] s[i]).handle != handle,
        },
        crate::layer::handles_grow(s) ==> forall|l: LayerEntry| #[trigger]
            s.contains(l) ==> layer_with(s, l.handle) == Some(l),
    decreases s.len(),
{
    if s.len() > 0 {
        let t = s.drop_first();
        if s[0].handle == handle {
            assert(s.contains(s[0]));
        } else {
            lemma_layer_is_found(t, handle);
            if let Some(l) = layer_with(t, handle) {
                assert(s[t.index_of(l) + 1] == l);
            } else {
                assert forall|i: int| 0 <= i < s.len() implies (#[trigger] s[i]).handle != handle by {
                    if i > 0 {
                        assert(t[i - 1].handle != handle);
                    }
                }
            }
        }
    }
    if crate::layer::handles_grow(s) {
        assert forall|l: LayerEntry| #[trigger] s.contains(l) implies layer_with(s, l.handle) == Some(
            l,
        ) by {
            lemma_layer_with(s, l);
        }
    }
}

/// The script hands over the payload as it stands, as the detail of one event.
pub proof fn lemma_script_holds_payload(a: Seq<char>, b: Seq<char>)
    ensures
        post_script(a).len() == post_script(Seq::empty()).len() + a.len(),
        post_script(a).subrange(18, 18 + a.len() as int) == a,
        post_script(a) == post_script(b) <==> a == b,
{
    reveal_strlit("(function(){var d=");
    assert(post_script(a).subrange(18, 18 + a.len() as int) =~= a);
    assert(post_script(b).subrange(18, 18 + b.len() as int) =~= b);
    assert(post_script(Seq::empty()).len() + b.len() == post_script(b).len());
}

/// Each layer that went is told under its handle to its own connection.
pub proof fn lemma_who_is_told(s: Seq<LayerEntry>)
    ensures
        handles_and_conns(s).len() == s.len(),
        forall|i: int|
            0 <= i < s.len() ==> (#[trigger] handles_and_conns(s)[i]).0 == s[i].handle
                && handles_and_conns(s)[i].1 == s[i].conn,
{
}

/// A plugin's layer is a tab just where it asks for one; a page is refused over a pane, and just there.
pub proof fn lemma_how_layers_open(p: Placement, s: Surface, r: OpenKind)
    requires
        call_ensures(open_kind, (p, s), r),
    ensures
        r is TabHtml || r is TabPixels <==> p == Placement::Tab,
        r is Refused <==> p != Placement::Tab && s == Surface::Html,
        r is TabHtml <==> p == Placement::Tab && s == Surface::Html,
        r is Overlay <==> p == Placement::Overlay && s == Surface::Pixels,
        r is Side <==> p == Placement::Side && s == Surface::Pixels,
{
}

/// A tab without a title is called `Tab`; any other has its own.
pub proof fn lemma_titles_of_tabs(title: &str, r: String)
    requires
        call_ensures(tab_title, (title,), r),
    ensures
        r@.len() > 0,
        title@.len() > 0 ==> r@ == title@,
        title@.len() == 0 ==> r@ == seq!['T', 'a', 'b'],
{
    reveal_strlit("Tab");
    assert("Tab"@ =~= seq!['T', 'a', 'b']);
}

/// A layer that is opened over a pane is the pane's only one afterwards, and what it had went; one in a
/// tab makes none go. The plugin is told the handle that the layer has, under its own number, and the
/// size of the surface.
pub proof fn lemma_opened_layer_is_there(
    reg: &mut Registry,
    kind: OpenKind,
    pane: u32,
    conn: u64,
    open_id: u64,
    canvas: Canvas,
    r: (Vec<LayerEntry>, LayerReady),
)
    requires
        call_ensures(layer_open, (reg, kind, pane, conn, open_id, canvas), r),
        pane != TAB_PANE,
    ensures
        ({
            let now = final(reg).layers();
            let was = old(reg).layers();
            let tab = kind is TabHtml || kind is TabPixels;
            &&& r.1.id == open_id && r.1.layer == old(reg).next() && r.1.dpi == canvas.dpi
            &&& r.1.width_px == canvas.width_px && r.1.height_px == canvas.height_px
            &&& kind is TabHtml ==> r.1.io_surface_id == 0
            &&& !(kind is TabHtml) ==> r.1.io_surface_id == canvas.io_surface_id
            &&& now.len() > 0 && now.last().handle == r.1.layer && now.last().conn == conn
            &&& now.last().html <==> kind is TabHtml
            &&& now.last().width_px == canvas.width_px && now.last().height_px == canvas.height_px
            &&& tab ==> now.last().pane == TAB_PANE && now.drop_last() == was && r.0@.len() == 0
            &&& !tab ==> now.last().pane == pane && now.drop_last() == others(was, Which::Pane(pane))
                && r.0@ == those(was, Which::Pane(pane))
        }),
{
    let entry = entry_for(kind, pane, conn, open_id, canvas);
    let now = final(reg).layers();
    let was = old(reg).layers();
    let kept = if entry.pane == pane {
        others(was, Which::Pane(pane))
    } else {
        was
    };
    assert(now.drop_last() =~= kept);
}

/// A page is shown just by a layer that is there and made for pages.
pub proof fn lemma_pages_need_pages(reg: &Registry, handle: u64, r: PageTarget)
    requires
        call_ensures(layer_load_html, (reg, handle), r),
        reg.wf(),
    ensures
        r is Page <==> exists|i: int|
            0 <= i < reg.layers().len() && (#[trigger] reg.layers()[i]).handle == handle
                && reg.layers()[i].html,
        r is Missing <==> forall|i: int|
            0 <= i < reg.layers().len() ==> (#[trigger] reg.layers()[i]).handle != handle,
{
    let s = reg.layers();
    lemma_layer_is_found(s, handle);
    if let Some(l) = layer_with(s, handle) {
        let k = s.index_of(l);
        assert(s[k].handle == handle);
        assert forall|i: int| 0 <= i < s.len() && (#[trigger] s[i]).handle == handle implies i == k by {
            if i < k {
                assert(s[i].handle < s[k].handle);
            } else if k < i {
                assert(s[k].handle < s[i].handle);
            }
        }
    }
}

/// A message is handed to just the layers that are made of pages.
pub proof fn lemma_messages_need_pages(reg: &Registry, m: &LayerMsg, r: Option<String>)
    requires
        call_ensures(layer_post_msg, (reg, m), r),
    ensures
        r is Some <==> layer_with(reg.layers(), m.layer) is Some && layer_with(
            reg.layers(),
            m.layer,
        )->0.html,
        r matches Some(s) ==> s@ == post_script(json_object("name"@, m.name@, "body"@, m.body@)),
{
}

/// A text that a page sends is its body, without a name; an object gives both, each empty where it is
/// missing.
pub proof fn lemma_what_a_page_sent(text: String, name: Option<String>, body: Option<String>, r: (String, String), s: (String, String))
    requires
        call_ensures(parse_script_msg_body, (ScriptBody::Text(text),), r),
        call_ensures(parse_script_msg_body, (ScriptBody::Fields(name, body),), s),
    ensures
        r.0@.len() == 0 && r.1@ == text@,
        name is None ==> s.0@.len() == 0,
        body is None ==> s.1@.len() == 0,
        name matches Some(n) ==> s.0@ == n@,
        body matches Some(b) ==> s.1@ == b@,
{
}

/// What a page sends goes to the plugin of its own layer, under the layer's handle, as soon as it has one.
pub proof fn lemma_page_reaches_its_plugin(page: LayerMsgIvars, text: String, r: Option<(u64, LayerMsg)>)
    requires
        call_ensures(script_message, (page, ScriptBody::Text(text)), r),
    ensures
        r is None <==> page.handle == 0,
        r matches Some(m) ==> m.0 == page.conn && m.1.layer == page.handle && m.1.name@.len() == 0
            && m.1.body@ == text@,
{
}

/// Once a tab is closed its layer is gone, the others stay, and its plugin is told.
pub proof fn lemma_closed_tab_is_gone(reg: &mut Registry, handle: u64, r: Option<u64>)
    requires
        call_ensures(layer_tab_closed, (reg, handle), r),
    ensures
        forall|l: LayerEntry| #[trigger]
            final(reg).layers().contains(l) ==> l.handle != handle && old(reg).layers().contains(l),
        r is Some <==> exists|i: int|
            0 <= i < old(reg).layers().len() && (#[trigger] old(reg).layers()[i]).handle == handle,
        r matches Some(conn) ==> exists|i: int|
            0 <= i < old(reg).layers().len() && (#[trigger] old(reg).layers()[i]).handle == handle
                && old(reg).layers()[i].conn == conn,
{
    let s = old(reg).layers();
    assert forall|l: LayerEntry| #[trigger] final(reg).layers().contains(l) implies l.handle != handle
        && s.contains(l) by {
        lemma_others_from(s, Which::Handle(handle), l);
    }
    lemma_layer_is_found(s, handle);
    if let Some(l) = layer_with(s, handle) {
        assert(s[s.index_of(l)].handle == handle);
    }
}

/// A tab of a new size is told under the layer's own handle and request, to its own plugin, with the new
/// surface; a page is not told.
pub proof fn lemma_new_size_is_told(reg: &Registry, l: LayerEntry, canvas: Canvas, r: Option<(u64, LayerReady)>)
    requires
        call_ensures(rebuild_tab_layer, (reg, l.handle, canvas), r),
        reg.wf(),
        reg.layers().contains(l),
    ensures
        r is Some <==> !l.html,
        r matches Some(t) ==> t.0 == l.conn && t.1.id == l.open_id && t.1.layer == l.handle
            && t.1.width_px == canvas.width_px && t.1.height_px == canvas.height_px && t.1.dpi
            == canvas.dpi && t.1.io_surface_id == canvas.io_surface_id,
{
    lemma_layer_is_found(reg.layers(), l.handle);
}

/// A tab's surface is not made anew while it has nothing to show, has no handle, is being dragged, or has
/// the size that it had.
pub proof fn lemma_when_a_tab_is_resized(is_tab: bool, presented: bool, handle: u64, live: bool, moved: bool, r: bool)
    requires
        call_ensures(resizes_tab, (is_tab, presented, handle, live, moved), r),
    ensures
        !is_tab || !presented || handle == 0 || live || !moved ==> !r,
        is_tab && presented && handle > 0 && !live && moved ==> r,
{
}

/// The second button is the right one, the third the middle one, and any other the left one; a move of
/// the mouse is told to the layer as it was, as soon as the layer has a handle.
pub proof fn lemma_mouse_is_told(
    handle: u64,
    number: i64,
    action: MouseAction,
    x: u32,
    y: u32,
    modifiers: Vec<Modifier>,
    b: MouseButton,
    r: Option<InputMouse>,
)
    requires
        call_ensures(mouse_button_of, (number,), b),
        call_ensures(layer_mouse, (handle, number, action, x, y, modifiers), r),
    ensures
        b == MouseButton::Right <==> number == 1,
        b == MouseButton::Middle <==> number == 2,
        r is None <==> handle == 0,
        r matches Some(m) ==> m.layer == handle && m.button == b && m.action == action && m.x_px == x
            && m.y_px == y && m.modifiers == modifiers,
{
}

/// Scrolling is told as it was, as soon as the layer has a handle and something moved.
pub proof fn lemma_scrolling_is_told(handle: u64, dx: i32, dy: i32, modifiers: Vec<Modifier>, r: Option<InputScroll>)
    requires
        call_ensures(layer_scroll, (handle, dx, dy, modifiers), r),
    ensures
        r is Some <==> handle != 0 && (dx != 0 || dy != 0),
        r matches Some(m) ==> m.layer == handle && m.dx == dx && m.dy == dy && m.modifiers == modifiers,
{
}

} // verus!
