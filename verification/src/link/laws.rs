//! What a click on a row finds, told by what is written in the row.

use vstd::prelude::*;

use crate::link::{
    closes_wrap, is_delim, joined, kind_of, lemma_trim_head_joined, lemma_trim_tail_joined,
    opens_wrap, parts_of, recognize, strip_closing, strip_label, strip_number, strip_opening, text_link,
    token_end, token_parts, token_start, trim_head, trim_tail, without_line_col, LinkHit, Part,
    RowCell,
};
use crate::protocol::HitKind;
use crate::text::{
    begins, find, holds, is_white, lemma_find_from, lemma_rfind_char, occurs_at, rfind_char,
};

verus! {

/// The brackets and quotes that may stand before a link.
pub open spec fn openers() -> Seq<char> {
    seq![
        '<', '(', '{', '[', '（', '【', '「', '『', '"', '\'', '“', '‘', '«', '‹',
    ]
}

/// The brackets, quotes and sentence marks that may stand behind a link.
pub open spec fn closers() -> Seq<char> {
    seq![
        '>', ')', '}', ']', '）', '】', '」', '』', '"', '\'', '”', '’', '»', '›', '.', ',',
        ';', ':', '!', '?', '*', '，', '。', '、', '；', '：', '？', '！',
    ]
}

/// All characters of `s` are among `set`.
pub open spec fn all_of(s: Seq<char>, set: Seq<char>) -> bool {
    forall|i: int| 0 <= i < s.len() ==> set.contains(#[trigger] s[i])
}

proof fn lemma_openers(c: char)
    ensures
        opens_wrap(c) <==> openers().contains(c),
{
    assert(openers()[0] == '<');
    assert(openers()[1] == '(');
    assert(openers()[2] == '{');
    assert(openers()[3] == '[');
    assert(openers()[4] == '（');
    assert(openers()[5] == '【');
    assert(openers()[6] == '「');
    assert(openers()[7] == '『');
    assert(openers()[8] == '"');
    assert(openers()[9] == '\'');
    assert(openers()[10] == '“');
    assert(openers()[11] == '‘');
    assert(openers()[12] == '«');
    assert(openers()[13] == '‹');
}

proof fn lemma_closers(c: char)
    ensures
        closes_wrap(c) <==> closers().contains(c),
{
    assert(closers()[0] == '>');
    assert(closers()[1] == ')');
    assert(closers()[2] == '}');
    assert(closers()[3] == ']');
    assert(closers()[4] == '）');
    assert(closers()[5] == '】');
    assert(closers()[6] == '」');
    assert(closers()[7] == '』');
    assert(closers()[8] == '"');
    assert(closers()[9] == '\'');
    assert(closers()[10] == '”');
    assert(closers()[11] == '’');
    assert(closers()[12] == '»');
    assert(closers()[13] == '›');
    assert(closers()[14] == '.');
    assert(closers()[15] == ',');
    assert(closers()[16] == ';');
    assert(closers()[17] == ':');
    assert(closers()[18] == '!');
    assert(closers()[19] == '?');
    assert(closers()[20] == '*');
    assert(closers()[21] == '，');
    assert(closers()[22] == '。');
    assert(closers()[23] == '、');
    assert(closers()[24] == '；');
    assert(closers()[25] == '：');
    assert(closers()[26] == '？');
    assert(closers()[27] == '！');
}

/// The text of a cell.
pub open spec fn cell_text(c: RowCell) -> Seq<char> {
    match c {
        RowCell::Text(t) => t@,
        _ => Seq::empty(),
    }
}

/// What is written in the cells, one after the other.
pub open spec fn spelled(cells: Seq<RowCell>) -> Seq<char>
    decreases cells.len(),
{
    if cells.len() == 0 {
        Seq::empty()
    } else {
        spelled(cells.drop_last()) + cell_text(cells.last())
    }
}

/// The cell parts tokens: nothing is written in it, or white space alone; the second half of a wide
/// character does not.
pub open spec fn parts_tokens(c: RowCell) -> bool {
    c is Blank || c is Text && forall|i: int|
        0 <= i < cell_text(c).len() ==> is_white(#[trigger] cell_text(c)[i])
}

/// The cells from `lo` up to `hi` are a token: none of them parts tokens, and those on both sides do.
pub open spec fn is_token(cells: Seq<RowCell>, lo: int, hi: int) -> bool {
    &&& 0 <= lo < hi <= cells.len()
    &&& forall|i: int| lo <= i < hi ==> !parts_tokens(#[trigger] cells[i])
    &&& lo == 0 || parts_tokens(cells[lo - 1])
    &&& hi == cells.len() || parts_tokens(cells[hi])
}

proof fn lemma_delim(c: RowCell)
    ensures
        is_delim(c) <==> parts_tokens(c),
{
    if let RowCell::Text(t) = c {
        if is_delim(c) {
            assert forall|i: int| 0 <= i < cell_text(c).len() implies is_white(
                #[trigger] cell_text(c)[i],
            ) by {
                assert(is_white(t@[i]));
            }
        }
        if parts_tokens(c) {
            assert forall|i: int| 0 <= i < t@.len() implies is_white(#[trigger] t@[i]) by {
                assert(is_white(cell_text(c)[i]));
            }
        }
    }
}

proof fn lemma_token_bounds(cells: Seq<RowCell>, lo: int, hi: int, col: int)
    requires
        is_token(cells, lo, hi),
        lo <= col < hi,
    ensures
        token_start(cells, col) == lo,
        token_end(cells, col) == hi,
{
    lemma_start(cells, lo, hi, col);
    lemma_end(cells, lo, hi, col);
}

proof fn lemma_start(cells: Seq<RowCell>, lo: int, hi: int, col: int)
    requires
        is_token(cells, lo, hi),
        lo <= col < hi,
    ensures
        token_start(cells, col) == lo,
    decreases col,
{
    if col > lo {
        lemma_delim(cells[col - 1]);
        lemma_start(cells, lo, hi, col - 1);
    } else if lo > 0 {
        lemma_delim(cells[lo - 1]);
    }
}

proof fn lemma_end(cells: Seq<RowCell>, lo: int, hi: int, col: int)
    requires
        is_token(cells, lo, hi),
        lo <= col <= hi,
    ensures
        token_end(cells, col) == hi,
    decreases hi - col,
{
    if col < hi {
        lemma_delim(cells[col]);
        lemma_end(cells, lo, hi, col + 1);
    } else if hi < cells.len() {
        lemma_delim(cells[hi]);
    }
}

/// The parts of a token are what is written in it.
proof fn lemma_parts_spell(cells: Seq<RowCell>, lo: int, hi: int)
    requires
        0 <= lo <= hi <= cells.len(),
    ensures
        joined(parts_of(cells, lo, hi)) == spelled(cells.subrange(lo, hi)),
        forall|i: int|
            0 <= i < parts_of(cells, lo, hi).len() ==> (#[trigger] parts_of(cells, lo, hi)[i]).1.len()
                > 0,
    decreases hi - lo,
{
    let s = cells.subrange(lo, hi);
    if lo < hi {
        lemma_parts_spell(cells, lo, hi - 1);
        assert(s.drop_last() =~= cells.subrange(lo, hi - 1));
        assert(s.last() == cells[hi - 1]);
        let before = parts_of(cells, lo, hi - 1);
        let all = parts_of(cells, lo, hi);
        if cell_text(cells[hi - 1]).len() > 0 {
            assert(all.drop_last() =~= before);
            assert forall|i: int| 0 <= i < all.len() implies (#[trigger] all[i]).1.len() > 0 by {
                if i < before.len() {
                    assert(all[i] == before[i]);
                }
            }
        } else {
            assert(spelled(s) =~= spelled(s.drop_last()));
        }
    } else {
        assert(s =~= Seq::<RowCell>::empty());
    }
}

proof fn lemma_strip_closing_exact(core: Seq<char>, close: Seq<char>)
    requires
        all_of(close, closers()),
        core.len() > 0 ==> !closers().contains(core.last()),
    ensures
        strip_closing(core + close) == core,
    decreases close.len(),
{
    let s = core + close;
    if close.len() > 0 {
        lemma_closers(close[close.len() - 1]);
        assert(closers().contains(close[close.len() - 1]));
        assert(s.drop_last() =~= core + close.drop_last());
        lemma_strip_closing_exact(core, close.drop_last());
    } else {
        assert(s =~= core);
        if core.len() > 0 {
            lemma_closers(core.last());
        }
    }
}

proof fn lemma_strip_opening_exact(open: Seq<char>, core: Seq<char>)
    requires
        all_of(open, openers()),
        core.len() > 0 ==> !openers().contains(core[0]),
    ensures
        strip_opening(open + core) == core,
    decreases open.len(),
{
    let s = open + core;
    if open.len() > 0 {
        lemma_openers(open[0]);
        assert(openers().contains(open[0]));
        let rest = open.drop_first();
        assert(s.drop_first() =~= rest + core);
        assert forall|i: int| 0 <= i < rest.len() implies openers().contains(#[trigger] rest[i]) by {
            assert(rest[i] == open[i + 1]);
        }
        lemma_strip_opening_exact(rest, core);
    } else {
        assert(s =~= core);
        if core.len() > 0 {
            lemma_openers(core[0]);
        }
    }
}

/// What a token holds without the marks that wrap it.
proof fn lemma_token_core(
    cells: Seq<RowCell>,
    lo: int,
    hi: int,
    col: int,
    open: Seq<char>,
    core: Seq<char>,
    close: Seq<char>,
)
    requires
        is_token(cells, lo, hi),
        lo <= col < hi,
        spelled(cells.subrange(lo, hi)) == open + core + close,
        all_of(open, openers()),
        all_of(close, closers()),
        core.len() > 0 ==> !openers().contains(core[0]) && !closers().contains(core.last()),
        core.len() == 0 ==> open.len() == 0 || !closers().contains(open.last()),
    ensures
        joined(token_parts(cells, col)) == core,
        core.len() > 0 ==> token_parts(cells, col).len() > 0,
{
    lemma_token_bounds(cells, lo, hi, col);
    lemma_parts_spell(cells, lo, hi);
    let parts = parts_of(cells, lo, hi);
    lemma_trim_tail_joined(parts);
    let cut = trim_tail(parts);
    lemma_tail_full(parts);
    lemma_trim_head_joined(cut);
    if core.len() > 0 {
        assert((open + core).last() == core.last());
    } else {
        assert(open + core =~= open);
    }
    lemma_strip_closing_exact(open + core, close);
    lemma_strip_opening_exact(open, core);
}

proof fn lemma_tail_full(parts: Seq<Part>)
    requires
        forall|i: int| 0 <= i < parts.len() ==> (#[trigger] parts[i]).1.len() > 0,
    ensures
        forall|i: int| 0 <= i < trim_tail(parts).len() ==> (#[trigger] trim_tail(parts)[i]).1.len() > 0,
    decreases parts.len(),
{
    if parts.len() > 0 {
        let init = parts.drop_last();
        assert forall|i: int| 0 <= i < init.len() implies (#[trigger] init[i]).1.len() > 0 by {
            assert(init[i] == parts[i]);
        }
        lemma_tail_full(init);
        assert(parts[parts.len() - 1].1.len() > 0);
        let out = trim_tail(parts);
        let cut = strip_closing(parts.last().1);
        if cut.len() > 0 {
            assert forall|i: int| 0 <= i < out.len() implies (#[trigger] out[i]).1.len() > 0 by {
                if i < init.len() {
                    assert(out[i] == init[i]);
                }
            }
        } else {
            assert(parts.last().1.len() > 0);
            assert(out == trim_tail(init));
        }
    }
}

/// What a click on a token finds is decided by what is written in the token: the marks that wrap it are
/// cut off at both ends, and a label at its beginning; the rest, whole, is the link where it is one. A
/// click on any of its cells finds the same. Nothing else in the row matters.
pub proof fn lemma_link_is_what_is_written(
    cells: Seq<RowCell>,
    lo: int,
    hi: int,
    col: int,
    open: Seq<char>,
    core: Seq<char>,
    close: Seq<char>,
)
    requires
        is_token(cells, lo, hi),
        lo <= col < hi,
        spelled(cells.subrange(lo, hi)) == open + core + close,
        all_of(open, openers()),
        all_of(close, closers()),
        core.len() > 0 && !openers().contains(core[0]) && !closers().contains(core.last()),
    ensures
        match text_link(cells, col) {
            Some(l) => kind_of(strip_label(core)) == Some(l.0) && l.1 == strip_label(core),
            None => kind_of(strip_label(core)) is None,
        },
{
    lemma_token_core(cells, lo, hi, col, open, core, close);
    lemma_delim(cells[col]);
}

/// A click on a cell that parts tokens, and one behind the row, finds nothing.
pub proof fn lemma_no_link_between_tokens(cells: Seq<RowCell>, col: int)
    requires
        col >= 0,
        col >= cells.len() || parts_tokens(cells[col]),
    ensures
        text_link(cells, col) is None,
{
    if col < cells.len() {
        lemma_delim(cells[col]);
    }
}

/// A letter of the Latin alphabet.
pub open spec fn is_letter(c: char) -> bool {
    65 <= c as u32 <= 90 || 97 <= c as u32 <= 122
}

/// A decimal digit.
pub open spec fn is_figure(c: char) -> bool {
    48 <= c as u32 <= 57
}

/// A legal scheme of an address: a letter, then letters, digits, `+`, `.` and `-`.
pub open spec fn is_scheme(s: Seq<char>) -> bool {
    &&& s.len() > 0
    &&& is_letter(s[0])
    &&& forall|i: int|
        0 <= i < s.len() ==> is_letter(#[trigger] s[i]) || is_figure(s[i]) || s[i] == '+' || s[i]
            == '.' || s[i] == '-'
}

/// A colon and two slashes stand at `i`.
pub open spec fn has_slashes_at(s: Seq<char>, i: int) -> bool {
    0 <= i && i + 3 <= s.len() && s[i] == ':' && s[i + 1] == '/' && s[i + 2] == '/'
}

/// An address: it begins with `www.`, in small letters or in capitals, or with a legal scheme and `://`.
pub open spec fn is_address(s: Seq<char>) -> bool {
    ||| s.len() >= 4 && s.take(4) == seq!['w', 'w', 'w', '.']
    ||| s.len() >= 4 && s.take(4) == seq!['W', 'W', 'W', '.']
    ||| exists|i: int| #[trigger] has_slashes_at(s, i) && is_scheme(s.take(i))
}

/// A pipe or a backquote stands in the text.
pub open spec fn is_piped(s: Seq<char>) -> bool {
    exists|i: int| 0 <= i < s.len() && (#[trigger] s[i] == '|' || s[i] == '`')
}

/// The last segment of a path, behind its last slash.
pub open spec fn is_last_segment(s: Seq<char>, i: int) -> bool {
    &&& 0 <= i < s.len()
    &&& s[i] == '/'
    &&& forall|j: int| i < j < s.len() ==> #[trigger] s[j] != '/'
}

/// A path: it begins with `/`, `~/`, `./` or `../`, or it has a slash and a dot in the segment behind its
/// last slash, less a line and a column there.
pub open spec fn is_file_path(s: Seq<char>) -> bool {
    ||| s.len() >= 1 && s[0] == '/'
    ||| s.len() >= 2 && (s[0] == '~' || s[0] == '.') && s[1] == '/'
    ||| s.len() >= 3 && s[0] == '.' && s[1] == '.' && s[2] == '/'
    ||| exists|i: int| #[trigger]
        is_last_segment(s, i) && without_line_col(s.skip(i + 1)).contains('.')
}

proof fn lemma_slashes(s: Seq<char>)
    ensures
        forall|i: int| #[trigger] occurs_at(s, "://"@, i) <==> has_slashes_at(s, i),
{
    reveal_strlit("://");
    assert forall|i: int| #[trigger] occurs_at(s, "://"@, i) <==> has_slashes_at(s, i) by {
        if occurs_at(s, "://"@, i) {
            let t = s.subrange(i, i + 3);
            assert(t[0] == s[i] && t[1] == s[i + 1] && t[2] == s[i + 2]);
        }
        if has_slashes_at(s, i) {
            assert(s.subrange(i, i + 3) =~= "://"@);
        }
    }
}

/// Which tokens are links, and of which kind: an address, else a path without `://` in it, and none with
/// a pipe or a backquote.
pub proof fn lemma_kinds_of_links(s: Seq<char>)
    ensures
        kind_of(s) == if is_piped(s) {
            None
        } else if is_address(s) {
            Some(HitKind::Url)
        } else if exists|i: int| #[trigger] has_slashes_at(s, i) {
            None
        } else if is_file_path(s) {
            Some(HitKind::Path)
        } else {
            None
        },
{
    lemma_slashes(s);
    lemma_find_from(s, "://"@, 0);
    lemma_rfind_char(s, '/');
    reveal_strlit("www.");
    reveal_strlit("WWW.");
    reveal_strlit("/");
    reveal_strlit("~/");
    reveal_strlit("./");
    reveal_strlit("../");
    assert("www."@ =~= seq!['w', 'w', 'w', '.']);
    assert("WWW."@ =~= seq!['W', 'W', 'W', '.']);
    assert(is_piped(s) <==> s.contains('|') || s.contains('`')) by {
        if s.contains('|') {
            assert(s[s.index_of('|')] == '|');
        }
        if s.contains('`') {
            assert(s[s.index_of('`')] == '`');
        }
    }
    lemma_begins(s);
    if exists|i: int| #[trigger] has_slashes_at(s, i) && is_scheme(s.take(i)) {
        let i = choose|i: int| #[trigger] has_slashes_at(s, i) && is_scheme(s.take(i));
        assert(occurs_at(s, "://"@, i));
        let p = find(s, "://"@)->0;
        assert(has_slashes_at(s, p));
        if p < i {
            assert(s.take(i)[p] == ':');
        }
        assert(p == i);
        assert(s.take(i)[0] == s[0]);
        assert forall|j: int| 1 <= j < i implies crate::link::is_scheme_char(#[trigger] s[j]) by {
            assert(s.take(i)[j] == s[j]);
        }
    }
    if let Some(p) = find(s, "://"@) {
        assert(has_slashes_at(s, p));
        if crate::link::url_shaped(s) && !begins(s, "www."@) && !begins(s, "WWW."@) {
            let t = s.take(p);
            assert forall|j: int| 0 <= j < t.len() implies is_letter(#[trigger] t[j]) || is_figure(t[j])
                || t[j] == '+' || t[j] == '.' || t[j] == '-' by {
                assert(t[j] == s[j]);
                if j > 0 {
                    assert(crate::link::is_scheme_char(s[j]));
                }
            }
            assert(is_scheme(t));
        }
    } else {
        assert forall|i: int| !#[trigger] has_slashes_at(s, i) by {
            if has_slashes_at(s, i) {
                assert(occurs_at(s, "://"@, i));
            }
        }
    }
    if let Some(i) = rfind_char(s, '/') {
        assert(is_last_segment(s, i));
        assert forall|j: int| #[trigger] is_last_segment(s, j) implies j == i by {
            if i < j {
                assert(s[j] != '/');
            }
        }
    } else {
        assert forall|j: int| !#[trigger] is_last_segment(s, j) by {
            if is_last_segment(s, j) {
                assert(s.contains(s[j]));
            }
        }
    }
}

proof fn lemma_begins(s: Seq<char>)
    ensures
        begins(s, "/"@) <==> s.len() >= 1 && s[0] == '/',
        begins(s, "~/"@) <==> s.len() >= 2 && s[0] == '~' && s[1] == '/',
        begins(s, "./"@) <==> s.len() >= 2 && s[0] == '.' && s[1] == '/',
        begins(s, "../"@) <==> s.len() >= 3 && s[0] == '.' && s[1] == '.' && s[2] == '/',
{
    reveal_strlit("/");
    reveal_strlit("~/");
    reveal_strlit("./");
    reveal_strlit("../");
    if begins(s, "/"@) {
        assert(s.take(1)[0] == '/');
    }
    if s.len() >= 1 && s[0] == '/' {
        assert(s.take(1) =~= "/"@);
    }
    if begins(s, "~/"@) {
        assert(s.take(2)[0] == '~' && s.take(2)[1] == '/');
    }
    if s.len() >= 2 && s[0] == '~' && s[1] == '/' {
        assert(s.take(2) =~= "~/"@);
    }
    if begins(s, "./"@) {
        assert(s.take(2)[0] == '.' && s.take(2)[1] == '/');
    }
    if s.len() >= 2 && s[0] == '.' && s[1] == '/' {
        assert(s.take(2) =~= "./"@);
    }
    if begins(s, "../"@) {
        assert(s.take(3)[0] == '.' && s.take(3)[1] == '.' && s.take(3)[2] == '/');
    }
    if s.len() >= 3 && s[0] == '.' && s[1] == '.' && s[2] == '/' {
        assert(s.take(3) =~= "../"@);
    }
}

/// A character of a label.
pub open spec fn is_label_mark(c: char) -> bool {
    is_letter(c) || is_figure(c) || c == '_' || c == '.' || c == '+' || c == '-'
}

/// A label before the first equals sign goes, with the sign; what stands before it is a label where it is
/// made of letters, digits, `_`, `.`, `+` and `-`, and is not empty. Without a label all of it stays.
pub proof fn lemma_label_goes(label: Seq<char>, rest: Seq<char>)
    requires
        !label.contains('='),
    ensures
        strip_label(label + seq!['='] + rest) == if label.len() > 0 && forall|i: int|
            0 <= i < label.len() ==> is_label_mark(#[trigger] label[i]) {
            rest
        } else {
            label + seq!['='] + rest
        },
        strip_label(label) == label,
{
    let s = label + seq!['='] + rest;
    let n = label.len() as int;
    let pat = seq!['='];
    lemma_find_from(s, pat, 0);
    lemma_find_from(label, pat, 0);
    assert(s.subrange(n, n + 1) =~= pat);
    assert(occurs_at(s, pat, n));
    assert forall|i: int| 0 <= i < n implies !#[trigger] occurs_at(s, pat, i) by {
        if occurs_at(s, pat, i) {
            assert(s.subrange(i, i + 1)[0] == s[i]);
            assert(label[i] == '=');
        }
    }
    assert forall|i: int| !#[trigger] occurs_at(label, pat, i) by {
        if occurs_at(label, pat, i) {
            assert(label.subrange(i, i + 1)[0] == label[i]);
        }
    }
    assert(find(s, pat) == Some(n));
    assert(s.skip(n + 1) =~= rest);
    assert forall|i: int| 0 <= i < n implies s[i] == label[i] by {}
    if label.len() > 0 && forall|i: int| 0 <= i < label.len() ==> is_label_mark(#[trigger] label[i]) {
        assert forall|i: int| 0 <= i < n implies crate::link::is_label_char(#[trigger] s[i]) by {
            assert(is_label_mark(label[i]));
        }
    } else if label.len() > 0 {
        let i = choose|i: int| 0 <= i < label.len() && !is_label_mark(#[trigger] label[i]);
        assert(!crate::link::is_label_char(s[i]));
    }
}

/// An address is found wherever it stands as a token of its own: whatever its legal scheme, and whatever
/// stands behind `://`, the link is the whole of it. Marks that wrap it are not part of it.
pub proof fn lemma_addresses_are_found(
    cells: Seq<RowCell>,
    lo: int,
    hi: int,
    col: int,
    open: Seq<char>,
    scheme: Seq<char>,
    rest: Seq<char>,
    close: Seq<char>,
)
    requires
        is_token(cells, lo, hi),
        lo <= col < hi,
        is_scheme(scheme),
        spelled(cells.subrange(lo, hi)) == open + (scheme + seq![':', '/', '/'] + rest) + close,
        all_of(open, openers()),
        all_of(close, closers()),
        !is_piped(rest),
        rest.len() == 0 || !closers().contains(rest.last()),
    ensures
        text_link(cells, col) matches Some(l) && l.0 == HitKind::Url && l.1 == scheme + seq![
            ':',
            '/',
            '/',
        ] + rest,
{
    let core = scheme + seq![':', '/', '/'] + rest;
    let n = scheme.len() as int;
    assert(core[0] == scheme[0]);
    lemma_openers(core[0]);
    lemma_closers(core.last());
    if rest.len() > 0 {
        assert(core.last() == rest.last());
    } else {
        assert(core.last() == '/');
    }
    lemma_link_is_what_is_written(cells, lo, hi, col, open, core, close);
    assert(has_slashes_at(core, n));
    assert(core.take(n) =~= scheme);
    lemma_kinds_of_links(core);
    assert(!is_piped(core)) by {
        assert forall|i: int| 0 <= i < core.len() implies #[trigger] core[i] != '|' && core[i] != '`' by {
            if i < n {
                assert(core[i] == scheme[i]);
            } else if i >= n + 3 {
                assert(core[i] == rest[i - n - 3]);
                assert(rest[i - n - 3] != '|' && rest[i - n - 3] != '`');
            }
        }
    }
    // What stands before an equals sign is no label: the colon is among it.
    if core.contains('=') {
        let pat = seq!['='];
        lemma_find_from(core, pat, 0);
        let k = core.index_of('=');
        assert(core.subrange(k, k + 1) =~= pat);
        assert(occurs_at(core, pat, k));
        let e = find(core, pat)->0;
        assert(core.subrange(e, e + 1)[0] == core[e]);
        if e < n {
            assert(core[e] == scheme[e]);
        }
        assert(core[n] == ':');
        assert(e > n);
        let label = core.take(e);
        assert(core =~= label + pat + core.skip(e + 1));
        assert(!label.contains('=')) by {
            if label.contains('=') {
                let j = label.index_of('=');
                assert(core[j] == '=');
                assert(core.subrange(j, j + 1) =~= pat);
                assert(occurs_at(core, pat, j));
            }
        }
        assert(label[n] == ':');
        lemma_label_goes(label, core.skip(e + 1));
    } else {
        lemma_label_goes(core, Seq::empty());
    }
}

/// `s` has a line or a column behind a colon at its end.
pub open spec fn ends_in_number(s: Seq<char>) -> bool {
    exists|i: int| #[trigger] is_number_from(s, i)
}

/// A colon stands at `i`, and digits alone behind it, at least one.
pub open spec fn is_number_from(s: Seq<char>, i: int) -> bool {
    0 <= i && i + 1 < s.len() && s[i] == ':' && forall|j: int|
        i < j < s.len() ==> is_figure(#[trigger] s[j])
}

/// Digits alone, and at least one.
pub open spec fn is_digits(s: Seq<char>) -> bool {
    s.len() > 0 && forall|i: int| 0 <= i < s.len() ==> is_figure(#[trigger] s[i])
}

proof fn lemma_number_goes(base: Seq<char>, digits: Seq<char>)
    requires
        is_digits(digits),
    ensures
        strip_number(base + seq![':'] + digits) == base,
{
    let s = base + seq![':'] + digits;
    let n = base.len() as int;
    lemma_rfind_char(s, ':');
    assert(s[n] == ':');
    assert(s.contains(s[n]));
    let i = rfind_char(s, ':')->0;
    if i > n {
        assert(s[i] == digits[i - n - 1]);
    } else if i < n {
        assert(s[n] != ':');
    }
    assert forall|j: int| n < j < s.len() implies crate::text::is_ascii_digit(#[trigger] s[j]) by {
        assert(s[j] == digits[j - n - 1]);
    }
    assert(s.take(n) =~= base);
}

proof fn lemma_no_number_stays(s: Seq<char>)
    requires
        !ends_in_number(s),
    ensures
        strip_number(s) == s,
{
    lemma_rfind_char(s, ':');
    if let Some(i) = rfind_char(s, ':') {
        assert(!is_number_from(s, i));
    }
}

/// A line goes from the end of a path, and so does a line with a column; anything else stays, and no
/// third number goes.
pub proof fn lemma_line_and_column_go(base: Seq<char>, line: Seq<char>, col: Seq<char>)
    requires
        is_digits(line),
        is_digits(col),
    ensures
        !ends_in_number(base) ==> without_line_col(base) == base,
        !ends_in_number(base) ==> without_line_col(base + seq![':'] + line) == base,
        without_line_col(base + seq![':'] + line + seq![':'] + col) == base,
{
    lemma_number_goes(base, line);
    lemma_number_goes(base + seq![':'] + line, col);
    if !ends_in_number(base) {
        lemma_no_number_stays(base);
    }
}

proof fn lemma_spelled_concat(a: Seq<RowCell>, b: Seq<RowCell>)
    ensures
        spelled(a + b) == spelled(a) + spelled(b),
    decreases b.len(),
{
    if b.len() == 0 {
        assert(a + b =~= a);
        assert(spelled(a) + spelled(b) =~= spelled(a));
    } else {
        assert((a + b).drop_last() =~= a + b.drop_last());
        lemma_spelled_concat(a, b.drop_last());
        assert(spelled(a + b) =~= spelled(a) + spelled(b));
    }
}

proof fn lemma_all_closing(s: Seq<char>)
    ensures
        strip_closing(s).len() == 0 <==> all_of(s, closers()),
    decreases s.len(),
{
    if s.len() > 0 {
        lemma_closers(s.last());
        let init = s.drop_last();
        lemma_all_closing(init);
        if closes_wrap(s.last()) {
            if all_of(init, closers()) {
                assert forall|i: int| 0 <= i < s.len() implies closers().contains(#[trigger] s[i]) by {
                    if i < init.len() {
                        assert(s[i] == init[i]);
                    }
                }
            } else {
                let i = choose|i: int| 0 <= i < init.len() && !closers().contains(#[trigger] init[i]);
                assert(!closers().contains(s[i]));
            }
        } else {
            assert(!closers().contains(s[s.len() - 1]));
        }
    }
}

proof fn lemma_all_opening(s: Seq<char>)
    ensures
        strip_opening(s).len() == 0 <==> all_of(s, openers()),
    decreases s.len(),
{
    if s.len() > 0 {
        lemma_openers(s[0]);
        let rest = s.drop_first();
        lemma_all_opening(rest);
        if opens_wrap(s[0]) {
            if all_of(rest, openers()) {
                assert forall|i: int| 0 <= i < s.len() implies openers().contains(#[trigger] s[i]) by {
                    if i > 0 {
                        assert(s[i] == rest[i - 1]);
                    }
                }
            } else {
                let i = choose|i: int| 0 <= i < rest.len() && !openers().contains(#[trigger] rest[i]);
                assert(!openers().contains(s[i + 1]));
            }
        } else {
            assert(!openers().contains(s[0]));
        }
    }
}

/// The column behind what is left at the end of a token.
proof fn lemma_tail_column(cells: Seq<RowCell>, lo: int, hi: int) -> (b: int)
    requires
        0 <= lo <= hi <= cells.len(),
        !all_of(spelled(cells.subrange(lo, hi)), closers()),
    ensures
        lo < b <= hi,
        trim_tail(parts_of(cells, lo, hi)) == parts_of(cells, lo, b - 1).push(
            (b - 1, strip_closing(cell_text(cells[b - 1]))),
        ),
        !all_of(cell_text(cells[b - 1]), closers()),
        all_of(spelled(cells.subrange(b, hi)), closers()),
    decreases hi - lo,
{
    let s = cells.subrange(lo, hi);
    if lo == hi {
        assert(s =~= Seq::<RowCell>::empty());
        hi
    } else {
        let t = cell_text(cells[hi - 1]);
        let init = cells.subrange(lo, hi - 1);
        assert(s.drop_last() =~= init);
        assert(s.last() == cells[hi - 1]);
        lemma_all_closing(t);
        let parts = parts_of(cells, lo, hi);
        if all_of(t, closers()) {
            assert(!all_of(spelled(init), closers())) by {
                if all_of(spelled(init), closers()) {
                    let all = spelled(s);
                    assert forall|i: int| 0 <= i < all.len() implies closers().contains(
                        #[trigger] all[i],
                    ) by {
                        if i < spelled(init).len() {
                            assert(all[i] == spelled(init)[i]);
                        } else {
                            assert(all[i] == t[i - spelled(init).len()]);
                        }
                    }
                }
            }
            let b = lemma_tail_column(cells, lo, hi - 1);
            if t.len() > 0 {
                assert(parts.drop_last() =~= parts_of(cells, lo, hi - 1));
            }
            let x = cells.subrange(b, hi);
            let y = cells.subrange(b, hi - 1);
            assert(x.drop_last() =~= y);
            let all = spelled(x);
            assert forall|i: int| 0 <= i < all.len() implies closers().contains(#[trigger] all[i]) by {
                if i < spelled(y).len() {
                    assert(all[i] == spelled(y)[i]);
                } else {
                    assert(all[i] == t[i - spelled(y).len()]);
                }
            }
            b
        } else {
            assert(parts.drop_last() =~= parts_of(cells, lo, hi - 1));
            assert(cells.subrange(hi, hi) =~= Seq::<RowCell>::empty());
            hi
        }
    }
}

/// The parts of a token, from the front.
proof fn lemma_parts_front(cells: Seq<RowCell>, lo: int, hi: int)
    requires
        0 <= lo < hi <= cells.len(),
    ensures
        parts_of(cells, lo, hi) == if cell_text(cells[lo]).len() > 0 {
            seq![(lo, cell_text(cells[lo]))] + parts_of(cells, lo + 1, hi)
        } else {
            parts_of(cells, lo + 1, hi)
        },
    decreases hi - lo,
{
    let none = Seq::<Part>::empty();
    if hi == lo + 1 {
        assert(parts_of(cells, lo, lo) =~= none);
        assert(parts_of(cells, lo + 1, hi) =~= none);
        if cell_text(cells[lo]).len() > 0 {
            assert(parts_of(cells, lo, hi) =~= seq![(lo, cell_text(cells[lo]))] + none);
        }
    } else {
        lemma_parts_front(cells, lo, hi - 1);
        if cell_text(cells[lo]).len() > 0 {
            assert(parts_of(cells, lo, hi) =~= seq![(lo, cell_text(cells[lo]))] + parts_of(
                cells,
                lo + 1,
                hi,
            ));
        }
    }
}

/// The column of what is left at the beginning of a token, whose last part is cut already.
proof fn lemma_head_column(cells: Seq<RowCell>, lo: int, m: int, cut: Seq<char>) -> (a: int)
    requires
        0 <= lo <= m < cells.len(),
        cut.len() > 0,
        forall|i: int| 0 <= i < cut.len() ==> cell_text(cells[m]).contains(#[trigger] cut[i]),
        !all_of(joined(parts_of(cells, lo, m).push((m, cut))), openers()),
    ensures
        lo <= a <= m,
        trim_head(parts_of(cells, lo, m).push((m, cut))).len() > 0,
        trim_head(parts_of(cells, lo, m).push((m, cut)))[0].0 == a,
        trim_head(parts_of(cells, lo, m).push((m, cut))).last().0 == m,
        all_of(spelled(cells.subrange(lo, a)), openers()),
        !all_of(cell_text(cells[a]), openers()),
    decreases m - lo,
{
    let parts = parts_of(cells, lo, m).push((m, cut));
    assert(parts.drop_last() =~= parts_of(cells, lo, m));
    assert(cells.subrange(lo, lo) =~= Seq::<RowCell>::empty());
    if lo == m {
        assert(parts_of(cells, lo, m) =~= Seq::<Part>::empty());
        assert(joined(parts_of(cells, lo, m)) =~= Seq::<char>::empty());
        assert(joined(parts) =~= cut);
        lemma_all_opening(cut);
        let i = choose|i: int| 0 <= i < cut.len() && !openers().contains(#[trigger] cut[i]);
        let t = cell_text(cells[m]);
        let j = t.index_of(cut[i]);
        assert(!openers().contains(t[j]));
        lo
    } else {
        let t = cell_text(cells[lo]);
        lemma_parts_front(cells, lo, m);
        let rest = parts_of(cells, lo + 1, m).push((m, cut));
        lemma_all_opening(t);
        if t.len() > 0 {
            assert(parts =~= seq![(lo, t)] + rest);
            assert(parts.drop_first() =~= rest);
            crate::link::lemma_joined_first(parts);
        } else {
            assert(parts =~= rest);
        }
        if all_of(t, openers()) {
            assert(!all_of(joined(rest), openers())) by {
                if all_of(joined(rest), openers()) {
                    let all = joined(parts);
                    assert forall|i: int| 0 <= i < all.len() implies openers().contains(
                        #[trigger] all[i],
                    ) by {
                        if t.len() > 0 {
                            if i < t.len() {
                                assert(all[i] == t[i]);
                            } else {
                                assert(all[i] == joined(rest)[i - t.len()]);
                            }
                        } else {
                            assert(all[i] == joined(rest)[i]);
                        }
                    }
                }
            }
            let a = lemma_head_column(cells, lo + 1, m, cut);
            let x = cells.subrange(lo, a);
            let y = cells.subrange(lo + 1, a);
            assert(x =~= seq![cells[lo]] + y);
            lemma_spelled_concat(seq![cells[lo]], y);
            assert(seq![cells[lo]].drop_last() =~= Seq::<RowCell>::empty());
            assert(spelled(seq![cells[lo]].drop_last()) =~= Seq::<char>::empty());
            assert(spelled(seq![cells[lo]]) =~= t);
            let all = spelled(x);
            assert forall|i: int| 0 <= i < all.len() implies openers().contains(#[trigger] all[i]) by {
                if i < t.len() {
                    assert(all[i] == t[i]);
                } else {
                    assert(all[i] == spelled(y)[i - t.len()]);
                }
            }
            a
        } else {
            lo
        }
    }
}

proof fn lemma_cut_is_of(t: Seq<char>)
    ensures
        forall|i: int| 0 <= i < strip_closing(t).len() ==> t.contains(#[trigger] strip_closing(t)[i]),
        strip_closing(t).len() <= t.len(),
        strip_closing(t) == t.take(strip_closing(t).len() as int),
    decreases t.len(),
{
    if t.len() > 0 && closes_wrap(t.last()) {
        lemma_cut_is_of(t.drop_last());
        let c = strip_closing(t);
        assert(t.drop_last().take(c.len() as int) =~= t.take(c.len() as int));
    } else {
        assert(t.take(t.len() as int) =~= t);
    }
    let c = strip_closing(t);
    assert forall|i: int| 0 <= i < c.len() implies t.contains(#[trigger] c[i]) by {
        assert(t[i] == c[i]);
    }
}

/// The columns of a link run from the cell in which it begins up to the one in which it ends, a label
/// counted: before them there are only opening marks in the token, and behind them only closing ones; and
/// the first and the last of them hold something else.
pub proof fn lemma_columns_of_a_link(cells: Seq<RowCell>, lo: int, hi: int, col: int)
    requires
        is_token(cells, lo, hi),
        lo <= col < hi,
    ensures
        text_link(cells, col) matches Some(l) ==> {
            &&& lo <= l.2 < l.3 <= hi
            &&& all_of(spelled(cells.subrange(lo, l.2)), openers())
            &&& !all_of(cell_text(cells[l.2]), openers())
            &&& all_of(spelled(cells.subrange(l.3, hi)), closers())
            &&& !all_of(cell_text(cells[l.3 - 1]), closers())
        },
{
    if text_link(cells, col) is Some {
        lemma_token_bounds(cells, lo, hi, col);
        lemma_parts_spell(cells, lo, hi);
        let parts = parts_of(cells, lo, hi);
        let text = spelled(cells.subrange(lo, hi));
        lemma_trim_tail_joined(parts);
        lemma_tail_full(parts);
        lemma_trim_head_joined(trim_tail(parts));
        lemma_all_closing(text);
        lemma_all_opening(strip_closing(text));
        let core = strip_opening(strip_closing(text));
        assert(joined(token_parts(cells, col)) == core);
        if core.len() == 0 {
            lemma_label_goes(core, Seq::empty());
            assert(crate::link::token_text(cells, col) =~= core);
        }
        assert(core.len() > 0);
        if strip_closing(text).len() == 0 {
            assert(core.len() == 0);
        }
        let b = lemma_tail_column(cells, lo, hi);
        let cut = strip_closing(cell_text(cells[b - 1]));
        lemma_all_closing(cell_text(cells[b - 1]));
        lemma_cut_is_of(cell_text(cells[b - 1]));
        assert(joined(parts_of(cells, lo, b - 1).push((b - 1, cut))) == strip_closing(text));
        let a = lemma_head_column(cells, lo, b - 1, cut);
    }
}

/// A link that the program attached to the cell is told as it is, at the cell that was clicked, whatever
/// the text says; without one, or with an empty one, the text decides.
pub proof fn lemma_attached_link_wins(cells: &[RowCell], col: usize, uri: &str, hit: Option<LinkHit>)
    requires
        call_ensures(recognize, (cells, col, Some(uri)), hit),
        uri@.len() > 0,
    ensures
        hit is Some,
        hit->0.kind == HitKind::Osc8,
        hit->0.text@ == uri@,
        col < 65535 ==> hit->0.start_col == col && hit->0.end_col == col + 1,
{
}

} // verus!
