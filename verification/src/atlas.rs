//! The glyph atlas: one square texture that holds the bitmaps of all glyphs in use.
//!
//! Glyphs are put side by side on shelves. A shelf is as high as its highest glyph, rounded up to
//! a multiple of eight pixels; a glyph that does not fit on it starts the next one, and one that
//! does not fit on the texture clears it.

use vstd::prelude::*;

use crate::font::{RasterGlyph, Weight};
use crate::text::same_text;

verus! {

/// The width and height of the texture.
pub const EDGE: u32 = 2048;

/// A place in the atlas, in pixels. The two offsets are those of the glyph.
#[derive(Clone, Copy, Debug, PartialEq, Eq, Structural)]
pub struct GlyphRect {
    pub x: u32,
    pub y: u32,
    pub w: u32,
    pub h: u32,
    pub baseline_to_top: u64,
    pub dx: u64,
}

/// Pixels to be copied into the texture.
#[derive(Clone, Debug, PartialEq)]
pub struct PendingUpload {
    pub region: GlyphRect,
    pub bytes: Vec<u8>,
}

/// Where the next glyph goes.
#[derive(Clone, Copy, Debug, PartialEq, Eq, Structural)]
pub struct Shelf {
    /// The least height of a shelf.
    pub row_h: u32,
    /// The height of the current shelf.
    pub cur_row_h: u32,
    /// The first free column on it.
    pub x: u32,
    /// Its upper edge.
    pub y: u32,
}

struct Entry {
    weight: Weight,
    slot: u32,
    text: String,
    rect: GlyphRect,
}

/// The glyph atlas.
pub struct GlyphAtlas {
    shelf: Shelf,
    entries: Vec<Entry>,
    pending: Vec<PendingUpload>,
    resets: u32,
}

/// What a glyph is filed under: its weight, its font and its text.
pub type Key = (Weight, u32, Seq<char>);

/// The number of a weight.
pub open spec fn weight_index(w: Weight) -> int {
    match w {
        Weight::Regular => 0,
        Weight::Bold => 1,
        Weight::Italic => 2,
        Weight::BoldItalic => 3,
    }
}

/// The number of a weight.
pub fn weight_idx(w: Weight) -> (i: usize)
    ensures
        i == weight_index(w),
{
    match w {
        Weight::Regular => 0,
        Weight::Bold => 1,
        Weight::Italic => 2,
        Weight::BoldItalic => 3,
    }
}

/// `h`, rounded up to a multiple of eight.
pub open spec fn snapped(h: int) -> int {
    (h + 7) / 8 * 8
}

/// `h`, rounded up to a multiple of eight.
pub fn snap_row_h(h: u32) -> (r: u32)
    requires
        h <= u32::MAX - 7,
    ensures
        r == snapped(h as int),
{
    (h + 7) / 8 * 8
}

/// The place of the one white pixel that solid areas are drawn with.
pub open spec fn white_rect() -> GlyphRect {
    GlyphRect { x: 0, y: 0, w: 1, h: 1, baseline_to_top: 0, dx: 0 }
}

/// `h`, kept between the least and the greatest height of an empty shelf.
pub open spec fn row_height(h: u32) -> u32 {
    if h < 4 {
        4
    } else if h > 256 {
        256
    } else {
        h
    }
}

/// The shelf of an empty atlas: behind the white pixel.
pub open spec fn first_shelf(row_h: u32, cur_row_h: u32) -> Shelf {
    Shelf { row_h, cur_row_h, x: 1, y: 0 }
}

/// The height that a glyph wants of its shelf.
pub open spec fn wanted(s: Shelf, h: u32) -> int {
    snapped(
        if h > s.row_h {
            h as int
        } else {
            s.row_h as int
        },
    )
}

/// The current shelf where a glyph of width `w` fits on it, else the next one.
pub open spec fn row_for(s: Shelf, w: u32) -> Shelf {
    if s.x + w > EDGE {
        Shelf { row_h: s.row_h, cur_row_h: s.row_h, x: 0, y: (s.y + s.cur_row_h) as u32 }
    } else {
        s
    }
}

/// The height of the shelf with the glyph on it.
pub open spec fn grown(s: Shelf, w: u32, h: u32) -> int {
    if row_for(s, w).cur_row_h > wanted(s, h) {
        row_for(s, w).cur_row_h as int
    } else {
        wanted(s, h)
    }
}

/// A glyph of this size does not fit on what is left of the texture.
pub open spec fn overflows(s: Shelf, w: u32, h: u32) -> bool {
    row_for(s, w).y + grown(s, w, h) > EDGE
}

/// The shelf that a glyph of this size goes on, at its first free column.
pub open spec fn shelf_for(s: Shelf, w: u32, h: u32) -> Shelf {
    if overflows(s, w, h) {
        first_shelf(s.row_h, wanted(s, h) as u32)
    } else {
        Shelf { cur_row_h: grown(s, w, h) as u32, ..row_for(s, w) }
    }
}

/// Two places do not share a pixel.
pub open spec fn disjoint(a: GlyphRect, b: GlyphRect) -> bool {
    a.x + a.w <= b.x || b.x + b.w <= a.x || a.y + a.h <= b.y || b.y + b.h <= a.y
}

/// A place lies within the texture.
pub open spec fn inside(r: GlyphRect) -> bool {
    r.x + r.w <= EDGE && r.y + r.h <= EDGE
}

/// A place lies above the shelf, or on it and before its first free column.
pub open spec fn behind(s: Shelf, r: GlyphRect) -> bool {
    r.y + r.h <= s.y || (r.y == s.y && r.x + r.w <= s.x && r.h <= s.cur_row_h)
}

/// All places lie within the texture, no two share a pixel, and the shelf's free part is free.
pub open spec fn laid_out(s: Shelf, rects: Seq<GlyphRect>) -> bool {
    &&& forall|i: int|
        0 <= i < rects.len() ==> inside(#[trigger] rects[i]) && behind(s, rects[i])
    &&& forall|i: int, j: int|
        0 <= i < j < rects.len() ==> disjoint(#[trigger] rects[i], #[trigger] rects[j])
}

/// The rect of the glyph filed under `key`, if there is one.
pub open spec fn find_key(slots: Seq<(Key, GlyphRect)>, key: Key) -> Option<GlyphRect>
    decreases slots.len(),
{
    if slots.len() == 0 {
        None
    } else if slots[0].0 == key {
        Some(slots[0].1)
    } else {
        find_key(slots.drop_first(), key)
    }
}

/// The places of the white pixel and of all glyphs.
pub open spec fn places(slots: Seq<(Key, GlyphRect)>) -> Seq<GlyphRect> {
    seq![white_rect()] + slots.map_values(|s: (Key, GlyphRect)| s.1)
}

/// The upload that fills the white pixel.
pub open spec fn white_upload() -> (GlyphRect, Seq<u8>) {
    (white_rect(), seq![255u8])
}

impl GlyphAtlas {
    /// Where the next glyph goes.
    pub closed spec fn shelf(self) -> Shelf {
        self.shelf
    }

    /// The glyphs in the atlas, with their places.
    pub closed spec fn slots(self) -> Seq<(Key, GlyphRect)> {
        self.entries@.map_values(
            |e: Entry| ((e.weight, e.slot, e.text@), e.rect),
        )
    }

    /// What is still to be copied into the texture, in order.
    pub closed spec fn uploads(self) -> Seq<(GlyphRect, Seq<u8>)> {
        self.pending@.map_values(|u: PendingUpload| (u.region, u.bytes@))
    }

    /// How often the texture was cleared.
    pub closed spec fn reset_count(self) -> u32 {
        self.resets
    }

    /// Every glyph has a place of its own within the texture, and so has every upload.
    pub open spec fn wf(self) -> bool {
        &&& 4 <= self.shelf().row_h <= 256
        &&& self.shelf().row_h <= self.shelf().cur_row_h
        &&& self.shelf().x <= EDGE
        &&& self.shelf().y + self.shelf().cur_row_h <= EDGE
        &&& laid_out(self.shelf(), places(self.slots()))
        &&& laid_out(self.shelf(), self.uploads().map_values(|u: (GlyphRect, Seq<u8>)| u.0))
    }

    /// An atlas that holds only the white pixel, which is still to be uploaded. `row_h_px` is the
    /// height of a line of text.
    pub fn new(row_h_px: u32) -> (a: GlyphAtlas)
        ensures
            a.wf(),
            a.shelf() == first_shelf(row_height(row_h_px), row_height(row_h_px)),
            a.slots() == Seq::<(Key, GlyphRect)>::empty(),
            a.uploads() == seq![white_upload()],
            a.reset_count() == 0,
    {
        let row_h: u32 = if row_h_px < 4 {
            4
        } else if row_h_px > 256 {
            256
        } else {
            row_h_px
        };
        let mut pending: Vec<PendingUpload> = Vec::new();
        let mut one: Vec<u8> = Vec::new();
        one.push(255);
        let ghost one_view = one@;
        assert(one_view =~= seq![255u8]);
        pending.push(PendingUpload { region: white_slot(), bytes: one });
        let a: GlyphAtlas = GlyphAtlas {
            shelf: Shelf { row_h, cur_row_h: row_h, x: 1, y: 0 },
            entries: Vec::new(),
            pending,
            resets: 0,
        };
        proof {
            assert(a.slots() =~= Seq::<(Key, GlyphRect)>::empty());
            assert(a.uploads() =~= seq![white_upload()]);
            lemma_fresh(a.shelf());
        }
        a
    }

    /// The place of the white pixel.
    pub fn white(&self) -> (r: GlyphRect)
        ensures
            r == white_rect(),
    {
        white_slot()
    }

    /// The width and height of the texture.
    pub fn edge(&self) -> (r: u32)
        ensures
            r == EDGE,
    {
        EDGE
    }

    /// The place of a glyph that is in the atlas.
    pub fn lookup(&self, text: &str, weight: Weight, slot: u32) -> (r: Option<GlyphRect>)
        ensures
            r == find_key(self.slots(), (weight, slot, text@)),
    {
        let n: usize = self.entries.len();
        let mut i: usize = 0;
        let ghost key = (weight, slot, text@);
        assert(self.slots().skip(0) =~= self.slots());
        while i < n
            invariant
                i <= n == self.entries@.len(),
                key == (weight, slot, text@),
                find_key(self.slots(), key) == find_key(self.slots().skip(i as int), key),
            decreases n - i,
        {
            assert(self.slots().skip(i as int).drop_first() =~= self.slots().skip(i + 1));
            assert(self.slots().skip(i as int)[0] == self.slots()[i as int]);
            let e: &Entry = &self.entries[i];
            if weight_idx(e.weight) == weight_idx(weight) && e.slot == slot && same_text(
                e.text.as_str(),
                text,
            ) {
                return Some(e.rect);
            }
            i += 1;
        }
        None
    }

    /// The place of a glyph. One that is not in the atlas yet is put there: `glyph` is its bitmap,
    /// `None` or an empty one where it cannot be drawn. `slot` is the font that draws it.
    pub fn get_or_rasterize(
        &mut self,
        text: &str,
        weight: Weight,
        slot: u32,
        glyph: Option<RasterGlyph>,
    ) -> (r: Option<GlyphRect>)
        requires
            old(self).wf(),
            glyph matches Some(g) ==> g.w < EDGE && g.h <= EDGE,
        ensures
            final(self).wf(),
            match (find_key(old(self).slots(), (weight, slot, text@)), glyph) {
                (Some(rect), _) => r == Some(rect) && *final(self) == *old(self),
                (None, Some(g)) if g.w > 0 && g.h > 0 => {
                    let s = shelf_for(old(self).shelf(), g.w, g.h);
                    let rect = GlyphRect {
                        x: s.x,
                        y: s.y,
                        w: g.w,
                        h: g.h,
                        baseline_to_top: g.baseline_to_top,
                        dx: g.dx,
                    };
                    let full = overflows(old(self).shelf(), g.w, g.h);
                    &&& r == Some(rect)
                    &&& final(self).shelf() == Shelf { x: (s.x + g.w) as u32, ..s }
                    &&& final(self).slots() == (if full {
                        Seq::empty()
                    } else {
                        old(self).slots()
                    }).push(((weight, slot, text@), rect))
                    &&& final(self).uploads() == (if full {
                        seq![white_upload()]
                    } else {
                        old(self).uploads()
                    }).push((rect, g.coverage@))
                    &&& final(self).reset_count() == if full {
                        old(self).reset_count().wrapping_add(1)
                    } else {
                        old(self).reset_count()
                    }
                },
                _ => r is None && *final(self) == *old(self),
            },
    {
        if let Some(rect) = self.lookup(text, weight, slot) {
            return Some(rect);
        }
        let g: RasterGlyph = match glyph {
            Some(g) => g,
            None => {
                return None;
            },
        };
        if g.w == 0 || g.h == 0 {
            return None;
        }
        let tallest: u32 = if g.h > self.shelf.row_h {
            g.h
        } else {
            self.shelf.row_h
        };
        let need: u32 = snap_row_h(tallest);
        let ghost before = *self;
        if self.shelf.x + g.w > EDGE {
            self.new_row();
        }
        if need > self.shelf.cur_row_h {
            self.shelf.cur_row_h = need;
        }
        if self.shelf.y + self.shelf.cur_row_h > EDGE {
            self.reset();
            self.shelf.cur_row_h = need;
        }
        let ghost s = shelf_for(before.shelf, g.w, g.h);
        assert(self.shelf == s);
        let rect: GlyphRect = GlyphRect {
            x: self.shelf.x,
            y: self.shelf.y,
            w: g.w,
            h: g.h,
            baseline_to_top: g.baseline_to_top,
            dx: g.dx,
        };
        self.shelf.x = self.shelf.x + g.w;
        let ghost mid_slots = self.slots();
        let ghost mid_uploads = self.uploads();
        let ghost coverage = g.coverage@;
        self.entries.push(Entry { weight, slot, text: text.to_owned(), rect });
        self.pending.push(PendingUpload { region: rect, bytes: g.coverage });
        proof {
            let regions = |u: (GlyphRect, Seq<u8>)| u.0;
            assert(self.slots() =~= mid_slots.push(((weight, slot, text@), rect)));
            assert(self.uploads() =~= mid_uploads.push((rect, coverage)));
            assert(places(self.slots()) =~= places(mid_slots).push(rect));
            assert(self.uploads().map_values(regions) =~= mid_uploads.map_values(regions).push(rect));
            if overflows(before.shelf, g.w, g.h) {
                lemma_fresh(s);
                assert(mid_slots =~= Seq::empty());
                assert(mid_uploads =~= seq![white_upload()]);
            } else {
                lemma_advance(before.shelf, g.w, g.h, places(mid_slots));
                lemma_advance(before.shelf, g.w, g.h, mid_uploads.map_values(regions));
            }
            lemma_put(s, places(mid_slots), rect);
            lemma_put(s, mid_uploads.map_values(regions), rect);
        }
        Some(rect)
    }

    /// Starts the next shelf.
    fn new_row(&mut self)
        requires
            old(self).shelf.y + old(self).shelf.cur_row_h <= EDGE,
        ensures
            final(self).entries@ == old(self).entries@,
            final(self).pending@ == old(self).pending@,
            final(self).resets == old(self).resets,
            final(self).shelf == (Shelf {
                row_h: old(self).shelf.row_h,
                cur_row_h: old(self).shelf.row_h,
                x: 0,
                y: (old(self).shelf.y + old(self).shelf.cur_row_h) as u32,
            }),
    {
        self.shelf.x = 0;
        self.shelf.y = self.shelf.y + self.shelf.cur_row_h;
        self.shelf.cur_row_h = self.shelf.row_h;
    }

    /// Clears the texture.
    fn reset(&mut self)
        ensures
            final(self).entries@ == Seq::<Entry>::empty(),
            final(self).uploads() == seq![white_upload()],
            final(self).resets == old(self).resets.wrapping_add(1),
            final(self).shelf == first_shelf(old(self).shelf.row_h, old(self).shelf.row_h),
    {
        self.entries = Vec::new();
        self.pending = Vec::new();
        self.resets = self.resets.wrapping_add(1);
        let mut one: Vec<u8> = Vec::new();
        one.push(255);
        assert(one@ =~= seq![255u8]);
        self.pending.push(PendingUpload { region: white_slot(), bytes: one });
        assert(self.uploads() =~= seq![white_upload()]);
        self.shelf.x = 1;
        self.shelf.y = 0;
        self.shelf.cur_row_h = self.shelf.row_h;
    }

    /// Takes what is to be copied into the texture, in order.
    pub fn take_pending(&mut self) -> (out: Vec<PendingUpload>)
        requires
            old(self).wf(),
        ensures
            final(self).wf(),
            out@.map_values(|u: PendingUpload| (u.region, u.bytes@)) == old(self).uploads(),
            final(self).uploads() == Seq::<(GlyphRect, Seq<u8>)>::empty(),
            final(self).shelf() == old(self).shelf(),
            final(self).slots() == old(self).slots(),
            final(self).reset_count() == old(self).reset_count(),
    {
        let mut out: Vec<PendingUpload> = Vec::new();
        std::mem::swap(&mut out, &mut self.pending);
        assert(self.uploads() =~= Seq::<(GlyphRect, Seq<u8>)>::empty());
        out
    }

    /// Whether anything is to be copied into the texture.
    pub fn has_pending(&self) -> (r: bool)
        ensures
            r == (self.uploads().len() > 0),
    {
        self.pending.len() > 0
    }

    /// The number of glyphs in the atlas.
    pub fn cached_count(&self) -> (n: usize)
        ensures
            n == self.slots().len(),
    {
        self.entries.len()
    }

    /// The upper edge of the current shelf.
    pub fn cursor_y(&self) -> (y: u32)
        ensures
            y == self.shelf().y,
    {
        self.shelf.y
    }

    /// How often the texture was cleared: a change tells that places handed out before no longer
    /// hold.
    pub fn resets(&self) -> (n: u32)
        ensures
            n == self.reset_count(),
    {
        self.resets
    }
}

fn white_slot() -> (r: GlyphRect)
    ensures
        r == white_rect(),
{
    GlyphRect { x: 0, y: 0, w: 1, h: 1, baseline_to_top: 0, dx: 0 }
}

/// An empty atlas, but for the white pixel, is laid out.
proof fn lemma_fresh(s: Shelf)
    requires
        s.x == 1,
        s.y == 0,
        s.cur_row_h >= 1,
    ensures
        laid_out(s, places(Seq::empty())),
        laid_out(
            s,
            seq![white_upload()].map_values(|u: (GlyphRect, Seq<u8>)| u.0),
        ),
{
    assert(places(Seq::empty()) =~= seq![white_rect()]);
    assert(seq![white_upload()].map_values(|u: (GlyphRect, Seq<u8>)| u.0) =~= seq![white_rect()]);
}

/// Making room on a shelf, or starting the next one, keeps what is there laid out.
proof fn lemma_advance(s: Shelf, w: u32, h: u32, rects: Seq<GlyphRect>)
    requires
        s.y + s.cur_row_h <= EDGE,
        s.row_h <= s.cur_row_h,
        !overflows(s, w, h),
        laid_out(s, rects),
    ensures
        laid_out(shelf_for(s, w, h), rects),
{
    let t = shelf_for(s, w, h);
    assert forall|i: int| 0 <= i < rects.len() implies inside(#[trigger] rects[i]) && behind(
        t,
        rects[i],
    ) by {
        assert(behind(s, rects[i]));
    }
}

/// A glyph at the shelf's first free column shares no pixel with what is there.
proof fn lemma_put(s: Shelf, rects: Seq<GlyphRect>, r: GlyphRect)
    requires
        laid_out(s, rects),
        r.x == s.x,
        r.y == s.y,
        r.h <= s.cur_row_h,
        s.x + r.w <= EDGE,
        s.y + s.cur_row_h <= EDGE,
    ensures
        laid_out((Shelf { x: (s.x + r.w) as u32, ..s }), rects.push(r)),
{
    let t = Shelf { x: (s.x + r.w) as u32, ..s };
    let all = rects.push(r);
    assert forall|i: int| 0 <= i < all.len() implies inside(#[trigger] all[i]) && behind(
        t,
        all[i],
    ) by {
        if i < rects.len() {
            assert(all[i] == rects[i]);
            assert(behind(s, rects[i]));
        }
    }
    assert forall|i: int, j: int| 0 <= i < j < all.len() implies disjoint(
        #[trigger] all[i],
        #[trigger] all[j],
    ) by {
        assert(all[i] == rects[i]);
        assert(behind(s, rects[i]));
        if j < rects.len() {
            assert(all[j] == rects[j]);
        }
    }
}

/// Copying the pending bitmaps into the texture in any order gives the same picture: no two of them
/// share a pixel, and none leaves the texture.
pub proof fn lemma_uploads_never_clobber(a: GlyphAtlas, i: int, j: int)
    requires
        a.wf(),
        0 <= i < a.uploads().len(),
        0 <= j < a.uploads().len(),
        i != j,
    ensures
        inside(a.uploads()[i].0),
        disjoint(a.uploads()[i].0, a.uploads()[j].0),
{
    let regions = a.uploads().map_values(|u: (GlyphRect, Seq<u8>)| u.0);
    assert(regions[i] == a.uploads()[i].0);
    assert(regions[j] == a.uploads()[j].0);
    assert(inside(regions[i]));
    if i < j {
        assert(disjoint(regions[i], regions[j]));
    } else {
        assert(disjoint(regions[j], regions[i]));
    }
}

/// Two glyphs of the atlas never share a pixel, and none leaves the texture.
pub proof fn lemma_slots_never_overlap(a: GlyphAtlas, i: int, j: int)
    requires
        a.wf(),
        0 <= i < a.slots().len(),
        0 <= j < a.slots().len(),
        i != j,
    ensures
        inside(a.slots()[i].1),
        disjoint(a.slots()[i].1, a.slots()[j].1),
{
    let all = places(a.slots());
    assert(all[i + 1] == a.slots()[i].1);
    assert(all[j + 1] == a.slots()[j].1);
    assert(inside(all[i + 1]));
    if i < j {
        assert(disjoint(all[i + 1], all[j + 1]));
    } else {
        assert(disjoint(all[j + 1], all[i + 1]));
    }
}

/// A glyph that was placed is found again at that place.
pub proof fn lemma_placed_is_found(slots: Seq<(Key, GlyphRect)>, key: Key, rect: GlyphRect)
    requires
        find_key(slots, key) is None,
    ensures
        find_key(slots.push((key, rect)), key) == Some(rect),
    decreases slots.len(),
{
    if slots.len() > 0 {
        assert(slots.push((key, rect))[0] == slots[0]);
        assert(slots.push((key, rect)).drop_first() =~= slots.drop_first().push((key, rect)));
        lemma_placed_is_found(slots.drop_first(), key, rect);
    } else {
        assert(slots.push((key, rect))[0] == (key, rect));
    }
}

/// What is rounded up is a multiple of eight, not less than it was and less than eight more.
pub proof fn lemma_rounded_up(h: int)
    ensures
        snapped(h) % 8 == 0,
        h <= snapped(h) < h + 8,
{
}

/// The least height of a shelf is that of a line, from 4 to 256.
pub proof fn lemma_height_of_a_line(h: u32)
    ensures
        4 <= row_height(h) <= 256,
        4 <= h <= 256 ==> row_height(h) == h,
        h < 4 ==> row_height(h) == 4,
        h > 256 ==> row_height(h) == 256,
{
}

/// The number of a weight has a bit for bold and one for italic.
pub proof fn lemma_numbers_of_weights(w: Weight)
    ensures
        weight_index(w) == (if crate::font::traits_of(w).0 {
            1int
        } else {
            0
        }) + (if crate::font::traits_of(w).1 {
            2int
        } else {
            0
        }),
        crate::font::traits_of(w).0 <==> w == Weight::Bold || w == Weight::BoldItalic,
        crate::font::traits_of(w).1 <==> w == Weight::Italic || w == Weight::BoldItalic,
{
}

/// A glyph goes on the current shelf where there is room to its right, else at the left of the next one
/// below, as long as the texture has room for it; else the texture is cleared and it goes behind the
/// white pixel. The shelf is then as high as before, or as the glyph wants it if that is more, and the
/// glyph lies within the texture.
pub proof fn lemma_where_a_glyph_goes(s: Shelf, w: u32, h: u32)
    requires
        4 <= s.row_h <= 256,
        s.row_h <= s.cur_row_h,
        s.x <= 2048,
        s.y + s.cur_row_h <= 2048,
        0 < w < 2048,
        0 < h <= 2048,
    ensures
        ({
            let r = shelf_for(s, w, h);
            let fits = s.x + w <= 2048;
            let want = snapped(crate::font::larger(h as int, s.row_h as int));
            let high = if fits {
                crate::font::larger(s.cur_row_h as int, want)
            } else {
                crate::font::larger(s.row_h as int, want)
            };
            let top = if fits {
                s.y as int
            } else {
                s.y + s.cur_row_h
            };
            &&& overflows(s, w, h) <==> top + high > 2048
            &&& top + high <= 2048 ==> r.y == top && r.cur_row_h == high && r.x == if fits {
                s.x
            } else {
                0
            }
            &&& top + high > 2048 ==> r.y == 0 && r.x == 1 && r.cur_row_h == want
            &&& r.row_h == s.row_h
            &&& r.x + w <= 2048
            &&& r.y + h <= 2048
            &&& h <= r.cur_row_h
        }),
{
    lemma_rounded_up(crate::font::larger(h as int, s.row_h as int));
}

/// The place covers the pixel.
pub open spec fn covers(r: GlyphRect, x: int, y: int) -> bool {
    r.x <= x < r.x + r.w && r.y <= y < r.y + r.h
}

/// Two places that are not empty are apart just where no pixel lies in both; and a place that is not
/// empty is within the texture just where each of its pixels is.
pub proof fn lemma_places_and_pixels(a: GlyphRect, b: GlyphRect)
    requires
        a.w > 0,
        a.h > 0,
        b.w > 0,
        b.h > 0,
    ensures
        disjoint(a, b) <==> forall|x: int, y: int| !(#[trigger] covers(a, x, y) && covers(b, x, y)),
        inside(a) <==> forall|x: int, y: int| #[trigger] covers(a, x, y) ==> x < 2048 && y < 2048,
{
    if !disjoint(a, b) {
        let x = crate::font::larger(a.x as int, b.x as int);
        let y = crate::font::larger(a.y as int, b.y as int);
        assert(covers(a, x, y) && covers(b, x, y));
    }
    assert(covers(a, a.x + a.w - 1, a.y + a.h - 1));
}

/// What is found is filed under the key, and nothing is found just where nothing is; what was filed
/// first counts.
pub proof fn lemma_first_filed_counts(a: Seq<(Key, GlyphRect)>, key: Key, r: GlyphRect, b: Seq<(Key, GlyphRect)>)
    requires
        forall|i: int| 0 <= i < a.len() ==> (#[trigger] a[i]).0 != key,
    ensures
        find_key(a, key) is None,
        find_key(a + seq![(key, r)] + b, key) == Some(r),
    decreases a.len(),
{
    let s = a + seq![(key, r)] + b;
    if a.len() > 0 {
        let c = a.drop_first();
        assert(a[0].0 != key);
        assert forall|i: int| 0 <= i < c.len() implies (#[trigger] c[i]).0 != key by {
            assert(c[i] == a[i + 1]);
        }
        lemma_first_filed_counts(c, key, r, b);
        assert(s[0] == a[0]);
        assert(s.drop_first() =~= c + seq![(key, r)] + b);
    } else {
        assert(s[0] == (key, r));
    }
}

/// The white pixel is the first of the texture, and the glyphs come behind it in their order.
pub proof fn lemma_white_comes_first(slots: Seq<(Key, GlyphRect)>)
    ensures
        places(slots).len() == slots.len() + 1,
        places(slots)[0].x == 0 && places(slots)[0].y == 0 && places(slots)[0].w == 1
            && places(slots)[0].h == 1,
        forall|i: int| 0 <= i < slots.len() ==> #[trigger] places(slots)[i + 1] == slots[i].1,
        white_upload().1 == seq![255u8],
        white_upload().0 == places(slots)[0],
{
    assert forall|i: int| 0 <= i < slots.len() implies #[trigger] places(slots)[i + 1] == slots[i].1 by {}
}

/// A glyph that is put into the atlas is there: looked up, its place is the one that was told; its pixels
/// are to be copied to that place; and one that was there keeps its place.
pub proof fn lemma_put_glyph_is_found(
    a: &mut GlyphAtlas,
    text: &str,
    weight: Weight,
    slot: u32,
    glyph: Option<RasterGlyph>,
    r: Option<GlyphRect>,
    b: &GlyphAtlas,
    again: Option<GlyphRect>,
)
    requires
        call_ensures(GlyphAtlas::get_or_rasterize, (a, text, weight, slot, glyph), r),
        call_ensures(GlyphAtlas::lookup, (b, text, weight, slot), again),
        *b == *final(a),
    ensures
        again == r,
        find_key(old(a).slots(), (weight, slot, text@)) matches Some(p) ==> r == Some(p) && *final(a)
            == *old(a),
        find_key(old(a).slots(), (weight, slot, text@)) is None ==> (r is Some <==> glyph is Some
            && glyph->0.w > 0 && glyph->0.h > 0),
        find_key(old(a).slots(), (weight, slot, text@)) is None && r is Some ==> {
            &&& r->0.w == glyph->0.w && r->0.h == glyph->0.h
            &&& r->0.baseline_to_top == glyph->0.baseline_to_top && r->0.dx == glyph->0.dx
            &&& final(a).uploads().last() == (r->0, glyph->0.coverage@)
        },
{
    let key = (weight, slot, text@);
    let s = old(a).slots();
    if find_key(s, key) is None && r is Some {
        let full = overflows(old(a).shelf(), glyph->0.w, glyph->0.h);
        let before = if full {
            Seq::<(Key, GlyphRect)>::empty()
        } else {
            s
        };
        assert(find_key(before, key) is None);
        lemma_not_filed(before, key);
        lemma_first_filed_counts(before, key, r->0, Seq::empty());
        assert(before + seq![(key, r->0)] + Seq::<(Key, GlyphRect)>::empty() =~= before.push((key, r->0)));
    }
}

proof fn lemma_not_filed(s: Seq<(Key, GlyphRect)>, key: Key)
    requires
        find_key(s, key) is None,
    ensures
        forall|i: int| 0 <= i < s.len() ==> (#[trigger] s[i]).0 != key,
    decreases s.len(),
{
    if s.len() > 0 {
        let t = s.drop_first();
        lemma_not_filed(t, key);
        assert forall|i: int| 0 <= i < s.len() implies (#[trigger] s[i]).0 != key by {
            if i > 0 {
                assert(t[i - 1].0 != key);
            }
        }
    }
}

} // verus!
