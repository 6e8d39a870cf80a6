//! Fonts: which one draws a character, and how a rendered line becomes a glyph bitmap.

use vstd::prelude::*;
use vstd::string::*;
use std::collections::HashMap;

use crate::text::{chars_of, same_text, texts, trim, trimmed};

verus! {

/// The four cuts of a font.
#[derive(Clone, Copy, Debug, PartialEq, Eq, Hash, Structural)]
pub enum Weight {
    Regular,
    Bold,
    Italic,
    BoldItalic,
}

/// A rendered glyph: its coverage, row by row, 0 for transparent and 255 for solid. The two offsets
/// are carried through as they came, as the bits of a floating-point number.
#[derive(Clone, Debug, PartialEq)]
pub struct RasterGlyph {
    pub w: u32,
    pub h: u32,
    /// The top of the bitmap relative to the baseline.
    pub baseline_to_top: u64,
    /// The left edge of the bitmap relative to the cell's.
    pub dx: u64,
    pub coverage: Vec<u8>,
}

/// The greatest height of a glyph bitmap.
pub const MAX_GLYPH_H: u32 = 256;

/// Whether the bold and the italic trait belong to a weight.
pub open spec fn traits_of(w: Weight) -> (bool, bool) {
    match w {
        Weight::Regular => (false, false),
        Weight::Bold => (true, false),
        Weight::Italic => (false, true),
        Weight::BoldItalic => (true, true),
    }
}

/// Whether the bold and the italic trait belong to a weight.
pub fn weight_traits(w: Weight) -> (t: (bool, bool))
    ensures
        t == traits_of(w),
{
    match w {
        Weight::Regular => (false, false),
        Weight::Bold => (true, false),
        Weight::Italic => (false, true),
        Weight::BoldItalic => (true, true),
    }
}

/// A high surrogate: its glyph stands in its own place, the place of its low surrogate is empty.
pub open spec fn is_high(u: u16) -> bool {
    0xd800 <= u < 0xdc00
}

/// Units that need no glyph: variation selectors and the zero-width joiner.
pub open spec fn is_glyphless(u: u16) -> bool {
    0xfe00 <= u <= 0xfe0f || u == 0x200d
}

/// From unit `i` on, every unit that needs a glyph has one.
pub open spec fn covered_from(utf16: Seq<u16>, glyphs: Seq<u16>, i: int) -> bool
    decreases utf16.len() - i + 2,
{
    if i >= utf16.len() {
        true
    } else if is_high(utf16[i]) {
        glyphs[i] != 0 && covered_from(utf16, glyphs, i + 2)
    } else if is_glyphless(utf16[i]) {
        covered_from(utf16, glyphs, i + 1)
    } else {
        glyphs[i] != 0 && covered_from(utf16, glyphs, i + 1)
    }
}

/// Whether a font covers a text, given the text's UTF-16 units and the glyphs that the font found
/// for them (0 for none); `ok` tells whether the lookup itself went through.
pub fn covers(utf16: &Vec<u16>, glyphs: &Vec<u16>, ok: bool) -> (r: bool)
    requires
        utf16@.len() == glyphs@.len(),
    ensures
        r == (ok && covered_from(utf16@, glyphs@, 0)),
{
    if !ok {
        return false;
    }
    let n: usize = glyphs.len();
    let mut i: usize = 0;
    while i < n
        invariant
            n == glyphs@.len() == utf16@.len(),
            covered_from(utf16@, glyphs@, 0) == covered_from(utf16@, glyphs@, i as int),
            ok,
        decreases n + 1 - i,
    {
        let u: u16 = utf16[i];
        if 0xd800 <= u && u < 0xdc00 {
            if glyphs[i] == 0 {
                return false;
            }
            if n - i < 2 {
                assert(covered_from(utf16@, glyphs@, i + 2));
                return true;
            }
            i += 2;
        } else if (0xfe00 <= u && u <= 0xfe0f) || u == 0x200d {
            i += 1;
        } else if glyphs[i] == 0 {
            return false;
        } else {
            i += 1;
        }
    }
    true
}

/// An ASCII capital as the small letter, any other character as it is.
pub open spec fn ascii_lower(c: char) -> char {
    if 65 <= c as u32 <= 90 {
        ((c as u32) + 32) as char
    } else {
        c
    }
}

/// The two texts differ at most in the case of ASCII letters.
pub open spec fn same_but_case(a: Seq<char>, b: Seq<char>) -> bool {
    a.len() == b.len() && forall|i: int|
        0 <= i < a.len() ==> ascii_lower(#[trigger] a[i]) == ascii_lower(b[i])
}

fn lower(c: char) -> (r: char)
    ensures
        r == ascii_lower(c),
{
    let u: u32 = c as u32;
    if 65 <= u && u <= 90 {
        (u as u8 + 32) as char
    } else {
        c
    }
}

/// Whether the font that the system gave for a name is of the family that was asked for, and no
/// stand-in.
pub fn family_matches(got: &str, name: &str) -> (r: bool)
    ensures
        r == same_but_case(got@, trim(name@)),
{
    let a: Vec<char> = chars_of(got);
    let b: Vec<char> = chars_of(trimmed(name).as_str());
    if a.len() != b.len() {
        return false;
    }
    let mut i: usize = 0;
    while i < a.len()
        invariant
            i <= a@.len() == b@.len(),
            a@ == got@,
            b@ == trim(name@),
            forall|j: int| 0 <= j < i ==> ascii_lower(#[trigger] a@[j]) == ascii_lower(b@[j]),
        decreases a@.len() - i,
    {
        if lower(a[i]) != lower(b[i]) {
            assert(ascii_lower(got@[i as int]) != ascii_lower(trim(name@)[i as int]));
            return false;
        }
        i += 1;
    }
    true
}

/// The name of the font of last resort, which draws every character as a box.
pub open spec fn last_resort() -> Seq<char> {
    "LastResort"@
}

/// Which font draws which character. Slot 0 is the base font; slot `i` is the `i`-th fallback font.
pub struct FontSlots {
    /// Slots by character, for the characters resolved so far.
    cache: HashMap<u32, u32>,
    /// The fallback fonts, by their PostScript names.
    fallbacks: Vec<String>,
    /// The characters that no font covers.
    residuals: Vec<char>,
}

/// The slot of the font with this name, the fonts being `names`; the next free slot for a new one.
pub open spec fn slot_of(names: Seq<Seq<char>>, name: Seq<char>) -> int
    decreases names.len(),
{
    if names.len() == 0 {
        1
    } else if names[0] == name {
        1
    } else {
        1 + slot_of(names.drop_first(), name)
    }
}

/// The fonts after one with this name was asked for.
pub open spec fn with_font(names: Seq<Seq<char>>, name: Seq<char>) -> Seq<Seq<char>> {
    if names.contains(name) {
        names
    } else {
        names.push(name)
    }
}

/// Whether the fonts of the system's own fallback order have nothing to offer: only then all
/// installed fonts are searched.
pub open spec fn needs_scan(base_covers: bool, cascade: Seq<char>, cascade_covers: bool) -> bool {
    !base_covers && !(cascade != last_resort() && cascade_covers)
}

/// The fallback font that a character is drawn with, if any: that of the system's fallback order
/// where it covers the character, or else the one that the search found.
pub open spec fn chosen_font(
    base_covers: bool,
    cascade: Seq<char>,
    cascade_covers: bool,
    scanned: Option<Seq<char>>,
) -> Option<Seq<char>> {
    if base_covers {
        None
    } else if !needs_scan(base_covers, cascade, cascade_covers) {
        Some(cascade)
    } else {
        scanned
    }
}

impl FontSlots {
    /// The slots of the characters resolved so far.
    pub closed spec fn resolved(self) -> Map<u32, u32> {
        self.cache@
    }

    /// The names of the fallback fonts, by slot.
    pub closed spec fn names(self) -> Seq<Seq<char>> {
        texts(self.fallbacks@)
    }

    /// The characters that no font covers, in the order they came up.
    pub closed spec fn uncovered(self) -> Seq<char> {
        self.residuals@
    }

    /// No font has two slots, and every slot handed out is one of a font.
    pub open spec fn wf(self) -> bool {
        &&& self.names().no_duplicates()
        &&& forall|c: u32| #[trigger]
            self.resolved().contains_key(c) ==> self.resolved()[c] <= self.names().len()
    }

    /// Nothing resolved yet.
    pub fn new() -> (f: FontSlots)
        ensures
            f.wf(),
            f.resolved() == Map::<u32, u32>::empty(),
            f.names() == Seq::<Seq<char>>::empty(),
            f.uncovered() == Seq::<char>::empty(),
    {
        let f: FontSlots = FontSlots {
            cache: HashMap::new(),
            fallbacks: Vec::new(),
            residuals: Vec::new(),
        };
        assert(f.names() =~= Seq::<Seq<char>>::empty());
        f
    }

    /// The slot that was found for a text before, by its first character; an empty text is drawn
    /// with the base font.
    pub fn cached_slot(&self, text: &str) -> (r: Option<u32>)
        ensures
            r == if text@.len() == 0 {
                Some(0u32)
            } else if self.resolved().contains_key(text@[0] as u32) {
                Some(self.resolved()[text@[0] as u32])
            } else {
                None
            },
    {
        broadcast use vstd::std_specs::hash::group_hash_axioms;

        let v: Vec<char> = chars_of(text);
        if v.len() == 0 {
            return Some(0);
        }
        let key: u32 = v[0] as u32;
        match self.cache.get(&key) {
            Some(s) => Some(*s),
            None => None,
        }
    }

    /// The slot of a fallback font; a font that has none gets the next one.
    pub fn push_fallback(&mut self, postscript: &str) -> (slot: u32)
        requires
            old(self).wf(),
            old(self).names().len() < u32::MAX,
        ensures
            final(self).wf(),
            final(self).names() == with_font(old(self).names(), postscript@),
            final(self).resolved() == old(self).resolved(),
            final(self).uncovered() == old(self).uncovered(),
            slot == slot_of(old(self).names(), postscript@),
            1 <= slot <= final(self).names().len(),
            final(self).names()[slot - 1] == postscript@,
    {
        let n: usize = self.fallbacks.len();
        let ghost names = self.names();
        let mut i: usize = 0;
        assert(names.skip(0) =~= names);
        while i < n
            invariant
                i <= n == self.fallbacks@.len(),
                self.fallbacks@ == old(self).fallbacks@,
                self.cache@ == old(self).cache@,
                self.residuals@ == old(self).residuals@,
                names == texts(self.fallbacks@),
                old(self).wf(),
                n < u32::MAX,
                slot_of(names, postscript@) == i + slot_of(names.skip(i as int), postscript@),
                forall|j: int| 0 <= j < i ==> names[j] != postscript@,
            decreases n - i,
        {
            assert(names.skip(i as int).drop_first() =~= names.skip(i + 1));
            assert(names.skip(i as int)[0] == names[i as int]);
            if same_text(self.fallbacks[i].as_str(), postscript) {
                assert(names.contains(names[i as int]));
                return (i + 1) as u32;
            }
            i += 1;
        }
        self.fallbacks.push(postscript.to_owned());
        assert(self.names() =~= names.push(postscript@));
        assert(!names.contains(postscript@));
        assert(self.resolved() == old(self).resolved());
        assert(forall|c: u32| #[trigger]
            self.resolved().contains_key(c) ==> old(self).resolved().contains_key(c));
        (n + 1) as u32
    }

    /// Resolves a character that was not resolved yet, and notes the result. `base_covers` tells
    /// whether the base font covers it; `cascade` names the font that the system would fall back on,
    /// and `cascade_covers` whether that one does; `scanned` names a covering font among all
    /// installed ones. Later answers are not looked at where an earlier one decides.
    pub fn resolve_slow(
        &mut self,
        first: char,
        base_covers: bool,
        cascade: &str,
        cascade_covers: bool,
        scanned: Option<&str>,
    ) -> (slot: u32)
        requires
            old(self).wf(),
            old(self).names().len() < u32::MAX,
        ensures
            final(self).wf(),
            final(self).resolved() == old(self).resolved().insert(first as u32, slot),
            match chosen_font(
                base_covers,
                cascade@,
                cascade_covers,
                match scanned {
                    Some(s) => Some(s@),
                    None => None,
                },
            ) {
                Some(name) => slot == slot_of(old(self).names(), name) && final(self).names()
                    == with_font(old(self).names(), name) && final(self).names()[slot - 1] == name
                    && 1 <= slot <= final(self).names().len() && final(self).uncovered() == old(
                    self,
                ).uncovered(),
                None => slot == 0 && final(self).names() == old(self).names()
                    && final(self).uncovered() == if base_covers {
                    old(self).uncovered()
                } else {
                    old(self).uncovered().push(first)
                },
            },
    {
        broadcast use vstd::std_specs::hash::group_hash_axioms;

        let slot: u32 = if base_covers {
            0
        } else if !same_text(cascade, "LastResort") && cascade_covers {
            self.push_fallback(cascade)
        } else {
            match scanned {
                Some(s) => self.push_fallback(s),
                None => {
                    self.residuals.push(first);
                    0
                },
            }
        };
        let ghost mid = self.resolved();
        assert(mid == old(self).resolved());
        assert(self.names().len() >= old(self).names().len());
        assert(self.names().no_duplicates());
        assert forall|c: u32| #[trigger] mid.contains_key(c) implies mid[c] <= self.names().len() by {
            assert(old(self).resolved().contains_key(c));
        }
        self.cache.insert(first as u32, slot);
        assert forall|c: u32| #[trigger] self.resolved().contains_key(c) implies self.resolved()[c]
            <= self.names().len() by {
            if c != first as u32 {
                assert(mid.contains_key(c));
            }
        }
        slot
    }

    /// The name of the font in a fallback slot.
    pub fn postscript_of(&self, slot: u32) -> (name: String)
        requires
            1 <= slot <= self.names().len(),
        ensures
            name@ == self.names()[slot - 1],
    {
        let i: usize = slot as usize - 1;
        assert(self.names()[i as int] == self.fallbacks@[i as int]@);
        self.fallbacks[i].clone()
    }

    /// The characters that no font covers, in the order they came up.
    pub fn residuals(&self) -> (r: &Vec<char>)
        ensures
            r@ == self.uncovered(),
    {
        &self.residuals
    }
}

/// A font is asked for twice: it keeps its slot, and the number of slots does not grow.
pub proof fn lemma_font_has_one_slot(names: Seq<Seq<char>>, name: Seq<char>)
    ensures
        with_font(with_font(names, name), name) == with_font(names, name),
        slot_of(with_font(names, name), name) == slot_of(names, name),
{
    if !names.contains(name) {
        assert(names.push(name)[names.len() as int] == name);
        assert(names.push(name).contains(name));
        lemma_slot_new(names, name);
    }
}

proof fn lemma_slot_new(names: Seq<Seq<char>>, name: Seq<char>)
    requires
        !names.contains(name),
    ensures
        slot_of(names, name) == names.len() + 1,
        slot_of(names.push(name), name) == names.len() + 1,
    decreases names.len(),
{
    if names.len() > 0 {
        assert(names[0] != name);
        let rest = names.drop_first();
        assert forall|i: int| 0 <= i < rest.len() implies rest[i] != name by {
            assert(rest[i] == names[i + 1]);
        }
        lemma_slot_new(rest, name);
        assert(names.push(name).drop_first() =~= rest.push(name));
    }
}

/// The size of a glyph bitmap for a width of the ink and a height of the line with the margins: at
/// least one pixel each way, no wider than `max_w` (or two pixels) and no higher than
/// `MAX_GLYPH_H`.
pub open spec fn glyph_size(ink_w: int, line_h: int, max_w: int) -> (int, int) {
    (clamp(ink_w, 1, larger(max_w, 2)), clamp(line_h, 1, MAX_GLYPH_H as int))
}

/// The size of a glyph bitmap in pixels: `ink_w` and `line_h` are the width of the ink and the
/// height of the line, each with the margins, rounded up; `max_w` is the greatest width, rounded
/// up.
pub fn bitmap_size(ink_w: usize, line_h: usize, max_w: usize) -> (s: (usize, usize))
    ensures
        (s.0 as int, s.1 as int) == glyph_size(ink_w as int, line_h as int, max_w as int),
{
    let top: usize = if max_w < 2 {
        2
    } else {
        max_w
    };
    let w: usize = if ink_w < 1 {
        1
    } else if ink_w > top {
        top
    } else {
        ink_w
    };
    let h: usize = if line_h < 1 {
        1
    } else if line_h > 256 {
        256
    } else {
        line_h
    };
    (w, h)
}

/// The larger of two numbers.
pub open spec fn larger(a: int, b: int) -> int {
    if a > b {
        a
    } else {
        b
    }
}

/// `n`, kept between `lo` and `hi`.
pub open spec fn clamp(n: int, lo: int, hi: int) -> int {
    if n < lo {
        lo
    } else if n > hi {
        hi
    } else {
        n
    }
}

/// The glyph of a line of text that was drawn black on white, in a bitmap of the size that
/// `bitmap_size` gives: coverage is the inverse of brightness. `ink_w` is the width of the ink with
/// the margins, and `None` where there is no ink; no text and no ink have no glyph.
pub fn rasterize(
    text: &str,
    ink_w: Option<usize>,
    line_h: usize,
    max_w: usize,
    gray: Vec<u8>,
    baseline_to_top: u64,
    dx: u64,
) -> (r: Option<RasterGlyph>)
    requires
        max_w <= u32::MAX,
        text@.len() > 0 && ink_w is Some ==> gray@.len() == glyph_size(
            ink_w->Some_0 as int,
            line_h as int,
            max_w as int,
        ).0 * glyph_size(ink_w->Some_0 as int, line_h as int, max_w as int).1,
    ensures
        r is Some <==> text@.len() > 0 && ink_w is Some,
        r matches Some(g) ==> {
            &&& (g.w as int, g.h as int) == glyph_size(
                ink_w->Some_0 as int,
                line_h as int,
                max_w as int,
            )
            &&& 1 <= g.w <= larger(max_w as int, 2)
            &&& 1 <= g.h <= MAX_GLYPH_H
            &&& g.coverage@.len() == g.w * g.h
            &&& g.coverage@ == Seq::new(gray@.len(), |i: int| (255 - gray@[i]) as u8)
            &&& g.baseline_to_top == baseline_to_top
            &&& g.dx == dx
        },
{
    if text.unicode_len() == 0 {
        return None;
    }
    let (w, h): (usize, usize) = match ink_w {
        Some(ink) => bitmap_size(ink, line_h, max_w),
        None => return None,
    };
    let mut coverage: Vec<u8> = Vec::new();
    let mut i: usize = 0;
    while i < gray.len()
        invariant
            i <= gray@.len(),
            coverage@ == Seq::new(i as nat, |k: int| (255 - gray@[k]) as u8),
        decreases gray@.len() - i,
    {
        coverage.push(255 - gray[i]);
        i += 1;
        assert(coverage@ =~= Seq::new(i as nat, |k: int| (255 - gray@[k]) as u8));
    }
    Some(RasterGlyph { w: w as u32, h: h as u32, baseline_to_top, dx, coverage })
}

/// The units are those of a text: each low surrogate stands behind a high one, and each high one before
/// a low one.
pub open spec fn is_utf16(s: Seq<u16>) -> bool {
    &&& forall|i: int|
        0 <= i < s.len() && 0xd800 <= #[trigger] s[i] <= 0xdbff ==> i + 1 < s.len() && 0xdc00 <= s[i + 1]
            <= 0xdfff
    &&& forall|i: int|
        0 <= i < s.len() && 0xdc00 <= #[trigger] s[i] <= 0xdfff ==> i > 0 && 0xd800 <= s[i - 1] <= 0xdbff
}

/// The unit needs no glyph of its own: the second half of a pair, a variation selector or a joiner.
pub open spec fn needs_none(u: u16) -> bool {
    0xdc00 <= u <= 0xdfff || 0xfe00 <= u <= 0xfe0f || u == 0x200d
}

/// A font covers a text just where each unit that needs a glyph has one.
pub proof fn lemma_when_a_font_covers(utf16: Seq<u16>, glyphs: Seq<u16>, from: int)
    requires
        utf16.len() == glyphs.len(),
        is_utf16(utf16),
        0 <= from <= utf16.len(),
        from < utf16.len() ==> !(0xdc00 <= utf16[from] <= 0xdfff),
    ensures
        covered_from(utf16, glyphs, from) <==> forall|i: int|
            from <= i < utf16.len() && !needs_none(#[trigger] utf16[i]) ==> glyphs[i] != 0,
    decreases utf16.len() - from,
{
    if from < utf16.len() {
        let u = utf16[from];
        if is_high(u) {
            assert(0xdc00 <= utf16[from + 1] <= 0xdfff);
            if from + 2 < utf16.len() {
                if 0xdc00 <= utf16[from + 2] <= 0xdfff {
                    assert(0xd800 <= utf16[from + 2 - 1] <= 0xdbff);
                }
            }
            lemma_when_a_font_covers(utf16, glyphs, from + 2);
            assert(!needs_none(u));
            assert(covered_from(utf16, glyphs, from) == (glyphs[from] != 0 && covered_from(
                utf16,
                glyphs,
                from + 2,
            )));
            assert forall|i: int|
                from + 2 <= i < utf16.len() && !needs_none(#[trigger] utf16[i]) && covered_from(
                    utf16,
                    glyphs,
                    from,
                ) implies glyphs[i] != 0 by {}
        } else {
            if from + 1 < utf16.len() {
                if 0xdc00 <= utf16[from + 1] <= 0xdfff {
                    assert(0xd800 <= utf16[from + 1 - 1] <= 0xdbff);
                }
            }
            lemma_when_a_font_covers(utf16, glyphs, from + 1);
            assert(needs_none(u) <==> is_glyphless(u));
        }
    }
}

/// Two names are the same but for case where at each place stands the same character, or a capital and
/// its small letter.
pub proof fn lemma_same_but_case(a: Seq<char>, b: Seq<char>)
    ensures
        same_but_case(a, b) <==> a.len() == b.len() && forall|i: int|
            0 <= i < a.len() ==> is_case_of(#[trigger] a[i], b[i]),
{
    assert forall|c: char, d: char| #[trigger] is_case_of(c, d) <==> ascii_lower(c) == ascii_lower(d) by {
        lemma_case(c, d);
    }
    if a.len() == b.len() {
        if same_but_case(a, b) {
            assert forall|i: int| 0 <= i < a.len() implies is_case_of(#[trigger] a[i], b[i]) by {
                assert(ascii_lower(a[i]) == ascii_lower(b[i]));
            }
        }
        if forall|i: int| 0 <= i < a.len() ==> is_case_of(#[trigger] a[i], b[i]) {
            assert forall|i: int| 0 <= i < a.len() implies ascii_lower(#[trigger] a[i]) == ascii_lower(
                b[i],
            ) by {
                assert(is_case_of(a[i], b[i]));
            }
        }
    }
}

/// The same character, or a capital and its small letter in either order.
pub open spec fn is_case_of(c: char, d: char) -> bool {
    ||| c == d
    ||| 65 <= c as u32 <= 90 && d as u32 == c as u32 + 32
    ||| 65 <= d as u32 <= 90 && c as u32 == d as u32 + 32
}

proof fn lemma_case(c: char, d: char)
    ensures
        is_case_of(c, d) <==> ascii_lower(c) == ascii_lower(d),
{
    if 65 <= c as u32 <= 90 {
        assert(ascii_lower(c) as u32 == c as u32 + 32);
    }
    if 65 <= d as u32 <= 90 {
        assert(ascii_lower(d) as u32 == d as u32 + 32);
    }
    if c as u32 == d as u32 {
        assert(c == d);
    }
    if ascii_lower(c) as u32 == ascii_lower(d) as u32 {
        assert(ascii_lower(c) == ascii_lower(d));
    }
}

/// The slot of a font is its place in the list, counted from one; a font that is not there yet comes
/// behind all others.
pub proof fn lemma_slots_are_places(names: Seq<Seq<char>>, name: Seq<char>)
    ensures
        names.contains(name) ==> 1 <= slot_of(names, name) <= names.len() && names[slot_of(names, name) - 1]
            == name && forall|j: int|
            0 <= j < slot_of(names, name) - 1 ==> #[trigger] names[j] != name,
        !names.contains(name) ==> slot_of(names, name) == names.len() + 1,
        names.contains(name) ==> with_font(names, name) == names,
        !names.contains(name) ==> with_font(names, name) == names + seq![name],
    decreases names.len(),
{
    if !names.contains(name) {
        lemma_slot_new(names, name);
        assert(names.push(name) =~= names + seq![name]);
    } else if names[0] != name {
        let rest = names.drop_first();
        let k = names.index_of(name);
        assert(rest[k - 1] == name);
        lemma_slots_are_places(rest, name);
        assert forall|j: int| 0 <= j < slot_of(names, name) - 1 implies #[trigger] names[j] != name by {
            if j > 0 {
                assert(rest[j - 1] != name);
            }
        }
    }
}

/// A character that the base font covers has no other font. Else it has the one that the system offers,
/// where that covers it and is not the last resort; only else all fonts are searched, and what that
/// found counts.
pub proof fn lemma_which_font_draws(cascade: Seq<char>, covers: bool, scanned: Option<Seq<char>>)
    ensures
        !needs_scan(true, cascade, covers),
        chosen_font(true, cascade, covers, scanned) is None,
        cascade != "LastResort"@ && covers ==> !needs_scan(false, cascade, covers) && chosen_font(
            false,
            cascade,
            covers,
            scanned,
        ) == Some(cascade),
        cascade == "LastResort"@ || !covers ==> needs_scan(false, cascade, covers) && chosen_font(
            false,
            cascade,
            covers,
            scanned,
        ) == scanned,
{
}

/// A bitmap has at least one pixel each way; it is as wide as the ink up to the greatest width, which is
/// at least two, and as high as the line up to 256.
pub proof fn lemma_size_of_a_bitmap(ink_w: int, line_h: int, max_w: int)
    requires
        ink_w >= 0,
        line_h >= 0,
        max_w >= 0,
    ensures
        ({
            let (w, h) = glyph_size(ink_w, line_h, max_w);
            &&& w >= 1 && h >= 1 && h <= 256
            &&& w <= max_w || w <= 2
            &&& ink_w == 0 ==> w == 1
            &&& ink_w >= 1 && (ink_w <= max_w || ink_w <= 2) ==> w == ink_w
            &&& ink_w > max_w && ink_w > 2 ==> w == max_w || w == 2 && max_w < 2
            &&& line_h == 0 ==> h == 1
            &&& 1 <= line_h <= 256 ==> h == line_h
            &&& line_h > 256 ==> h == 256
        }),
{
}

/// A font covers nothing where its glyphs could not be looked up; else it covers what each unit that
/// needs a glyph says.
pub proof fn lemma_lookup_counts(utf16: &Vec<u16>, glyphs: &Vec<u16>, ok: bool, r: bool)
    requires
        call_ensures(covers, (utf16, glyphs, ok), r),
        utf16@.len() == glyphs@.len(),
        is_utf16(utf16@),
    ensures
        r <==> ok && forall|i: int|
            0 <= i < utf16@.len() && !needs_none(#[trigger] utf16@[i]) ==> glyphs@[i] != 0,
{
    if utf16@.len() > 0 && 0xdc00 <= utf16@[0] <= 0xdfff {
        assert(utf16@[0] >= 0xdc00);
    }
    lemma_when_a_font_covers(utf16@, glyphs@, 0);
}

/// What was found for a character is found again: its slot is the one that was noted, and no other
/// character's changes.
pub proof fn lemma_slot_is_found_again(
    f: &mut FontSlots,
    first: char,
    base: bool,
    cascade: &str,
    covers: bool,
    scanned: Option<&str>,
    slot: u32,
    text: &str,
    again: &FontSlots,
    r: Option<u32>,
)
    requires
        call_ensures(FontSlots::resolve_slow, (f, first, base, cascade, covers, scanned), slot),
        call_ensures(FontSlots::cached_slot, (again, text), r),
        *again == *final(f),
    ensures
        text@.len() > 0 && text@[0] == first ==> r == Some(slot),
        text@.len() == 0 ==> r == Some(0u32),
        text@.len() > 0 && text@[0] != first && old(f).resolved().contains_key(text@[0] as u32) ==> r == Some(
            old(f).resolved()[text@[0] as u32],
        ),
        text@.len() > 0 && text@[0] != first && !old(f).resolved().contains_key(text@[0] as u32) ==> r
            is None,
        base ==> slot == 0 && final(f).names() == old(f).names() && final(f).uncovered()
            == old(f).uncovered(),
        !base && covers && cascade@ != "LastResort"@ ==> final(f).names()[slot - 1] == cascade@
            && slot >= 1,
        !base && !(covers && cascade@ != "LastResort"@) && scanned is Some ==> slot >= 1
            && final(f).names()[slot - 1] == scanned->0@,
        !base && !(covers && cascade@ != "LastResort"@) && scanned is None ==> slot == 0
            && final(f).uncovered() == old(f).uncovered().push(first),
{
    if text@.len() > 0 && text@[0] != first {
        let c = text@[0];
        lemma_case(c, first);
        if c as u32 == first as u32 {
            assert(c == first);
        }
    }
}

/// A glyph is as dark as the line was drawn: where that is white there is none of it, and where it is
/// black all.
pub proof fn lemma_dark_is_covered(
    text: &str,
    ink: Option<usize>,
    line_h: usize,
    max_w: usize,
    gray: Vec<u8>,
    top: u64,
    dx: u64,
    r: Option<RasterGlyph>,
)
    requires
        call_ensures(rasterize, (text, ink, line_h, max_w, gray, top, dx), r),
    ensures
        r is None <==> text@.len() == 0 || ink is None,
        r matches Some(g) ==> g.coverage@.len() == gray@.len() && forall|i: int|
            0 <= i < gray@.len() ==> #[trigger] g.coverage@[i] + gray@[i] == 255,
        r matches Some(g) ==> g.baseline_to_top == top && g.dx == dx,
{
}

/// A family is the one that was asked for where the names differ in case alone; white space around what
/// was asked for does not matter.
pub proof fn lemma_family_as_asked(got: &str, name: &str, r: bool)
    requires
        call_ensures(family_matches, (got, name), r),
    ensures
        r <==> got@.len() == trim(name@).len() && forall|i: int|
            0 <= i < got@.len() ==> is_case_of(#[trigger] got@[i], trim(name@)[i]),
{
    lemma_same_but_case(got@, trim(name@));
}

} // verus!
