use ninja::atlas::{snap_row_h, weight_idx, GlyphAtlas, GlyphRect};
use ninja::font::{
    bitmap_size, covers, family_matches, rasterize, weight_traits, FontSlots, RasterGlyph, Weight,
    MAX_GLYPH_H,
};

/// A glyph of `w` by `h` pixels, all of them of one value.
fn glyph(w: u32, h: u32, value: u8) -> RasterGlyph {
    RasterGlyph { w, h, baseline_to_top: 7, dx: 9, coverage: vec![value; (w * h) as usize] }
}

fn put(atlas: &mut GlyphAtlas, text: &str, slot: u32, w: u32, h: u32, value: u8) -> GlyphRect {
    atlas.get_or_rasterize(text, Weight::Regular, slot, Some(glyph(w, h, value))).unwrap()
}

#[test]
fn allocates_and_evicts() {
    let mut atlas = GlyphAtlas::new(32);
    let a = put(&mut atlas, "A", 0, 16, 31, 1);
    assert!(a.w > 0 && a.h > 0);
    let a2 = put(&mut atlas, "A", 0, 16, 31, 1);
    assert_eq!(a, a2);
    assert_eq!(atlas.cached_count(), 1);

    let b = put(&mut atlas, "B", 0, 16, 31, 2);
    assert_ne!(a.x, b.x);

    let pending = atlas.take_pending();
    assert!(pending.len() >= 3);
    assert!(pending.iter().any(|u| u.region == atlas.white()));
    assert!(atlas.take_pending().is_empty());
}

#[test]
fn slots_keyed_by_font_dimension() {
    let mut font = FontSlots::new();
    let mut atlas = GlyphAtlas::new(32);

    let base_slot = font.resolve_slow('A', true, "Menlo-Regular", true, None);
    let cjk_slot = font.resolve_slow('中', false, "PingFangSC-Regular", true, None);
    let emoji_slot = font.resolve_slow('\u{1F600}', false, "AppleColorEmoji", true, None);
    assert_eq!(base_slot, 0, "ASCII 必须落基础字体槽");
    assert_ne!(cjk_slot, base_slot, "中文必须落回退字体槽");
    assert_ne!(emoji_slot, base_slot, "emoji 必须落回退字体槽");
    assert_ne!(emoji_slot, cjk_slot, "emoji 与中文不应共享回退字体槽");

    let a = put(&mut atlas, "A", base_slot, 16, 31, 1);
    let cjk = put(&mut atlas, "中", cjk_slot, 28, 39, 2);
    assert_eq!(atlas.cached_count(), 2);
    assert_eq!(put(&mut atlas, "A", base_slot, 16, 31, 1), a);
    assert_eq!(put(&mut atlas, "中", cjk_slot, 28, 39, 2), cjk);
    assert_eq!(atlas.cached_count(), 2);
    assert_ne!((a.x, a.y), (cjk.x, cjk.y));
}

#[test]
fn tall_fallback_glyphs_not_clobbered_by_row_wrap() {
    let row_h: u32 = 31;
    let mut atlas = GlyphAtlas::new(row_h);

    let cjk = put(&mut atlas, "中", 1, 28, 39, 101);
    assert!(
        cjk.h > row_h,
        "前置失效：中文位图高 {} 应 > 行高 {}（否则测不到越界）",
        cjk.h,
        row_h
    );
    let emoji = put(&mut atlas, "\u{1F512}", 2, 33, 37, 102);
    assert!(emoji.h > row_h);

    let mut i = 0u32;
    let y0 = cjk.y;
    while atlas.cursor_y() == y0 && i < 600 {
        put(&mut atlas, &format!("g{i}q"), 0, 48, 31, 5);
        i += 1;
    }
    assert!(atlas.cursor_y() > y0, "600 个字形应已换行");
    put(&mut atlas, "tail", 0, 64, 31, 6);

    let edge = atlas.edge() as usize;
    let mut tex = vec![0u8; edge * edge];
    for u in atlas.take_pending() {
        let r = &u.region;
        assert!(
            (r.x as usize + r.w as usize) <= edge && (r.y as usize + r.h as usize) <= edge,
            "槽位越界: {r:?}"
        );
        for y in 0..r.h as usize {
            for x in 0..r.w as usize {
                tex[(r.y as usize + y) * edge + r.x as usize + x] = u.bytes[y * r.w as usize + x];
            }
        }
    }

    for (text, rect, fresh) in
        [("中", cjk, glyph(28, 39, 101)), ("\u{1F512}", emoji, glyph(33, 37, 102))]
    {
        assert_eq!((fresh.w, fresh.h), (rect.w, rect.h), "{text:?} 尺寸漂移");
        for y in 0..rect.h as usize {
            for x in 0..rect.w as usize {
                let got = tex[(rect.y as usize + y) * edge + rect.x as usize + x];
                let want = fresh.coverage[y * rect.w as usize + x];
                assert_eq!(
                    got, want,
                    "{text:?} 槽位 ({},{}) 像素 ({},{}) 被后续上传覆写",
                    rect.x, rect.y, x, y
                );
            }
        }
    }
}

#[test]
fn tall_glyph_at_last_row_never_exceeds_texture() {
    let row_h: u32 = 31;
    let mut atlas = GlyphAtlas::new(row_h);
    let edge = atlas.edge();

    let mut i = 0u32;
    while atlas.cursor_y() + row_h <= edge && i < 5000 {
        put(&mut atlas, &format!("f{i}z"), 0, 200, 31, 1);
        i += 1;
    }
    for (text, slot) in [("中", 1), ("\u{1F512}", 2), ("\u{F108}", 3)] {
        let r = put(&mut atlas, text, slot, 30, 39, 2);
        assert!(
            r.y + r.h <= edge,
            "{text:?} 槽位 ({},{}) {}x{} 越出纹理底部 {}",
            r.x,
            r.y,
            r.w,
            r.h,
            edge
        );
        assert!(r.x + r.w <= edge);
    }
    let after = put(&mut atlas, "post", 0, 64, 31, 3);
    assert!(after.y + after.h <= edge && after.x + after.w <= edge);
}

#[test]
fn a_full_atlas_starts_anew() {
    let mut atlas = GlyphAtlas::new(32);
    put(&mut atlas, "big", 0, 2000, 2000, 1);
    assert_eq!(atlas.resets(), 0);
    put(&mut atlas, "bigger", 0, 2000, 2000, 2);
    assert_eq!(atlas.resets(), 1);
    assert_eq!(atlas.cached_count(), 1);
    assert_eq!(atlas.lookup("big", Weight::Regular, 0), None);
    let pending = atlas.take_pending();
    assert_eq!(pending.len(), 2);
    assert_eq!(pending[0].region, atlas.white());
    assert!(!atlas.has_pending());
    assert_eq!(atlas.get_or_rasterize("none", Weight::Bold, 0, None), None);
    assert_eq!(atlas.get_or_rasterize("flat", Weight::Bold, 0, Some(glyph(0, 9, 1))), None);
}

#[test]
fn places_keep_what_was_measured() {
    let mut atlas = GlyphAtlas::new(32);
    let r = put(&mut atlas, "A", 0, 16, 31, 1);
    assert_eq!((r.baseline_to_top, r.dx), (7, 9));
    assert_eq!(atlas.lookup("A", Weight::Regular, 0), Some(r));
    assert_eq!(atlas.lookup("A", Weight::Bold, 0), None);
    assert_eq!(atlas.lookup("A", Weight::Regular, 1), None);
    assert_eq!(
        [Weight::Regular, Weight::Bold, Weight::Italic, Weight::BoldItalic].map(weight_idx),
        [0, 1, 2, 3]
    );
    assert_eq!(snap_row_h(0), 0);
    assert_eq!(snap_row_h(31), 32);
    assert_eq!(snap_row_h(32), 32);
    assert_eq!(snap_row_h(33), 40);
}

#[test]
fn fonts_of_characters() {
    let mut f = FontSlots::new();
    assert_eq!(f.cached_slot("é"), None);
    assert_eq!(f.resolve_slow('é', false, "LastResort", true, Some("Symbols")), 1);
    assert_eq!(f.cached_slot("éa"), Some(1));
    assert_eq!(f.resolve_slow('x', false, "Symbols", true, None), 1);
    assert_eq!(f.postscript_of(1), "Symbols");
    assert_eq!(f.resolve_slow('\u{378}', false, "LastResort", false, None), 0);
    assert_eq!(f.residuals(), &vec!['\u{378}']);
    assert_eq!(f.push_fallback("Other"), 2);
    assert_eq!(f.push_fallback("Symbols"), 1);
}

#[test]
fn details_of_fonts() {
    assert_eq!(weight_traits(Weight::Regular), (false, false));
    assert_eq!(weight_traits(Weight::Bold), (true, false));
    assert_eq!(weight_traits(Weight::Italic), (false, true));
    assert_eq!(weight_traits(Weight::BoldItalic), (true, true));
    assert!(family_matches("menlo", " Menlo "));
    assert!(!family_matches("Monaco", "Menlo"));
    assert!(covers(&vec![65], &vec![3], true));
    assert!(!covers(&vec![65], &vec![0], true));
    assert!(!covers(&vec![65], &vec![3], false));
    assert!(covers(&vec![0xD83D, 0xDE00], &vec![9, 0], true));
    assert!(!covers(&vec![0xD83D, 0xDE00], &vec![0, 9], true));
    assert_eq!(bitmap_size(0, 0, 0), (1, 1));
    assert_eq!(bitmap_size(500, 9999, 100), (100, MAX_GLYPH_H as usize));
    assert_eq!(bitmap_size(5, 40, 1), (2, 40));
    assert_eq!(rasterize("", Some(2), 1, 9, Vec::new(), 1, 2), None);
    assert_eq!(rasterize("a", None, 1, 9, Vec::new(), 1, 2), None);
    let wide = rasterize("aa", Some(9), 300, 3, vec![255; 768], 1, 2).unwrap();
    assert_eq!((wide.w, wide.h, wide.coverage), (3, 256, vec![0; 768]));
    let g = rasterize("a", Some(2), 1, 9, vec![255, 55], 1, 2).unwrap();
    assert_eq!(g.coverage, vec![0, 200]);
    assert_eq!((g.w, g.h, g.baseline_to_top, g.dx), (2, 1, 1, 2));
}
