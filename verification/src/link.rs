//! Link recognition: which clickable text, if any, stands under a click.
//!
//! The input is the clicked row, one [`RowCell`] per column, the clicked column and the hyperlink
//! of the clicked cell. A hyperlink wins over everything. Without one the click is widened to the
//! surrounding run of non-blank cells, wrapping punctuation is cut off at both ends, a `label=`
//! prefix is dropped, and what is left is classified as an address, a path or neither.

use vstd::prelude::*;

pub mod laws;

use crate::protocol::HitKind;
use crate::text::{
    ascii_alnum, ascii_digit, begins, chars_of, find, has_char, holds, is_ascii_alnum,
    is_ascii_digit, is_white, last_position, position, rfind_char, starts, string_of, white,
};

verus! {

/// One column of the clicked row.
#[derive(Clone, Debug, PartialEq)]
pub enum RowCell {
    /// No text: a token boundary.
    Blank,
    /// The second column of a wide glyph: no text of its own, and no boundary.
    Cont,
    /// A cell with text.
    Text(String),
}

/// What was recognised: its kind, its text, and the columns from `start_col` up to `end_col`.
#[derive(Clone, Debug, PartialEq)]
pub struct LinkHit {
    pub kind: HitKind,
    pub text: String,
    pub start_col: u16,
    pub end_col: u16,
}

/// The text of one column, with the column.
pub type Part = (int, Seq<char>);

/// Opening brackets and quotes, which wrap a link and do not belong to it.
pub open spec fn opens_wrap(c: char) -> bool {
    c == '<' || c == '(' || c == '{' || c == '[' || c == '（' || c == '【' || c == '「' || c == '『'
        || c == '"' || c == '\'' || c == '“' || c == '‘' || c == '«' || c == '‹'
}

/// Closing brackets, quotes and sentence punctuation, which do not belong to a link.
pub open spec fn closes_wrap(c: char) -> bool {
    c == '>' || c == ')' || c == '}' || c == ']' || c == '）' || c == '】' || c == '」' || c == '』'
        || c == '"' || c == '\'' || c == '”' || c == '’' || c == '»' || c == '›' || c == '.' || c
        == ',' || c == ';' || c == ':' || c == '!' || c == '?' || c == '*' || c == '，' || c == '。'
        || c == '、' || c == '；' || c == '：' || c == '？' || c == '！'
}

/// Cells that end a token: blank ones, and those whose text is all white space.
pub open spec fn is_delim(c: RowCell) -> bool {
    match c {
        RowCell::Blank => true,
        RowCell::Cont => false,
        RowCell::Text(t) => forall|i: int| 0 <= i < t@.len() ==> is_white(#[trigger] t@[i]),
    }
}

/// The first column of the token that holds column `i`.
pub open spec fn token_start(cells: Seq<RowCell>, i: int) -> int
    decreases i,
{
    if i > 0 && !is_delim(cells[i - 1]) {
        token_start(cells, i - 1)
    } else {
        i
    }
}

/// The column behind the token, from `i` on.
pub open spec fn token_end(cells: Seq<RowCell>, i: int) -> int
    decreases cells.len() - i,
{
    if i < cells.len() && !is_delim(cells[i]) {
        token_end(cells, i + 1)
    } else {
        i
    }
}

/// The texts of the columns from `start` up to `end`, those without text left out.
pub open spec fn parts_of(cells: Seq<RowCell>, start: int, end: int) -> Seq<Part>
    decreases end - start,
{
    if end <= start {
        Seq::empty()
    } else {
        match cells[end - 1] {
            RowCell::Text(t) if t@.len() > 0 => parts_of(cells, start, end - 1).push(
                (end - 1, t@),
            ),
            _ => parts_of(cells, start, end - 1),
        }
    }
}

/// `s` without the closing punctuation at its end.
pub open spec fn strip_closing(s: Seq<char>) -> Seq<char>
    decreases s.len(),
{
    if s.len() > 0 && closes_wrap(s.last()) {
        strip_closing(s.drop_last())
    } else {
        s
    }
}

/// `s` without the opening punctuation at its start.
pub open spec fn strip_opening(s: Seq<char>) -> Seq<char>
    decreases s.len(),
{
    if s.len() > 0 && opens_wrap(s[0]) {
        strip_opening(s.drop_first())
    } else {
        s
    }
}

/// The parts without the closing punctuation at the end: parts that it makes up altogether go,
/// the last one left is cut.
pub open spec fn trim_tail(parts: Seq<Part>) -> Seq<Part>
    decreases parts.len(),
{
    if parts.len() == 0 {
        parts
    } else {
        let cut = strip_closing(parts.last().1);
        if cut.len() == 0 && parts.last().1.len() > 0 {
            trim_tail(parts.drop_last())
        } else {
            parts.drop_last().push((parts.last().0, cut))
        }
    }
}

/// The parts without the opening punctuation at the start.
pub open spec fn trim_head(parts: Seq<Part>) -> Seq<Part>
    decreases parts.len(),
{
    if parts.len() == 0 {
        parts
    } else {
        let cut = strip_opening(parts[0].1);
        if cut.len() == 0 && parts[0].1.len() > 0 {
            trim_head(parts.drop_first())
        } else {
            seq![(parts[0].0, cut)] + parts.drop_first()
        }
    }
}

/// The texts of the parts, joined.
pub open spec fn joined(parts: Seq<Part>) -> Seq<char>
    decreases parts.len(),
{
    if parts.len() == 0 {
        Seq::empty()
    } else {
        joined(parts.drop_last()) + parts.last().1
    }
}

/// Characters of a `label=` prefix.
pub open spec fn is_label_char(c: char) -> bool {
    is_ascii_alnum(c) || c == '_' || c == '.' || c == '+' || c == '-'
}

/// `s` without a `label=` prefix.
pub open spec fn strip_label(s: Seq<char>) -> Seq<char> {
    match find(s, seq!['=']) {
        Some(eq) if eq > 0 && (forall|i: int| 0 <= i < eq ==> is_label_char(#[trigger] s[i])) =>
            s.skip(eq + 1),
        _ => s,
    }
}

/// Characters of an address scheme behind its first letter.
pub open spec fn is_scheme_char(c: char) -> bool {
    is_ascii_alnum(c) || c == '+' || c == '.' || c == '-'
}

/// ASCII letters.
pub open spec fn is_ascii_alpha(c: char) -> bool {
    is_ascii_alnum(c) && !is_ascii_digit(c)
}

/// A web address: a bare `www.` domain, or a well-formed scheme before the first `://`.
pub open spec fn url_shaped(s: Seq<char>) -> bool {
    ||| begins(s, "www."@) || begins(s, "WWW."@)
    ||| match find(s, "://"@) {
        Some(p) => p > 0 && is_ascii_alpha(s[0]) && forall|i: int|
            1 <= i < p ==> is_scheme_char(#[trigger] s[i]),
        None => false,
    }
}

/// One `:digits` suffix less.
pub open spec fn strip_number(s: Seq<char>) -> Seq<char> {
    match rfind_char(s, ':') {
        Some(i) if i + 1 < s.len() && (forall|j: int|
            i < j < s.len() ==> is_ascii_digit(#[trigger] s[j])) => s.take(i),
        _ => s,
    }
}

/// `s` without a `:line` or `:line:col` suffix.
pub open spec fn without_line_col(s: Seq<char>) -> Seq<char> {
    strip_number(strip_number(s))
}

/// A path: an absolute, home or explicit relative one, or one with a slash whose last segment
/// holds a dot.
pub open spec fn path_shaped(s: Seq<char>) -> bool {
    ||| begins(s, "/"@) || begins(s, "~/"@) || begins(s, "./"@) || begins(s, "../"@)
    ||| match rfind_char(s, '/') {
        Some(i) => without_line_col(s.skip(i + 1)).contains('.'),
        None => false,
    }
}

/// What kind of link a token is, if any.
pub open spec fn kind_of(s: Seq<char>) -> Option<HitKind> {
    if s.len() == 0 || s.contains('|') || s.contains('`') {
        None
    } else if url_shaped(s) {
        Some(HitKind::Url)
    } else if holds(s, "://"@) {
        None
    } else if path_shaped(s) {
        Some(HitKind::Path)
    } else {
        None
    }
}

/// The token under column `col` as parts, wrapping punctuation cut off.
pub open spec fn token_parts(cells: Seq<RowCell>, col: int) -> Seq<Part> {
    trim_head(trim_tail(parts_of(cells, token_start(cells, col), token_end(cells, col))))
}

/// The text of a token, without its label.
pub open spec fn token_text(cells: Seq<RowCell>, col: int) -> Seq<char> {
    strip_label(joined(token_parts(cells, col)))
}

/// The link in the row's text under column `col`: kind, text, first column, column behind.
pub open spec fn text_link(cells: Seq<RowCell>, col: int) -> Option<(HitKind, Seq<char>, int, int)> {
    if col >= cells.len() || is_delim(cells[col]) {
        None
    } else {
        let parts = token_parts(cells, col);
        match kind_of(token_text(cells, col)) {
            Some(kind) if parts.len() > 0 => Some(
                (kind, token_text(cells, col), parts[0].0, parts.last().0 + 1),
            ),
            _ => None,
        }
    }
}

/// Trimming the tail of the parts cuts exactly the closing punctuation off the end of their joined
/// text.
pub proof fn lemma_trim_tail_joined(parts: Seq<Part>)
    requires
        forall|i: int| 0 <= i < parts.len() ==> (#[trigger] parts[i]).1.len() > 0,
    ensures
        joined(trim_tail(parts)) == strip_closing(joined(parts)),
    decreases parts.len(),
{
    if parts.len() > 0 {
        let t = parts.last().1;
        let init = joined(parts.drop_last());
        lemma_strip_closing_concat(init, t);
        let cut = strip_closing(t);
        if cut.len() == 0 && t.len() > 0 {
            lemma_trim_tail_joined(parts.drop_last());
        } else {
            let out = parts.drop_last().push((parts.last().0, cut));
            assert(out.drop_last() =~= parts.drop_last());
        }
    }
}

proof fn lemma_strip_closing_concat(a: Seq<char>, b: Seq<char>)
    ensures
        strip_closing(a + b) == if strip_closing(b).len() == 0 {
            strip_closing(a)
        } else {
            a + strip_closing(b)
        },
    decreases b.len(),
{
    if b.len() == 0 {
        assert(a + b =~= a);
    } else {
        assert((a + b).last() == b.last());
        if closes_wrap(b.last()) {
            assert((a + b).drop_last() =~= a + b.drop_last());
            lemma_strip_closing_concat(a, b.drop_last());
        }
    }
}


/// Trimming the head of the parts cuts exactly the opening punctuation off the start of their
/// joined text.
pub proof fn lemma_trim_head_joined(parts: Seq<Part>)
    requires
        forall|i: int| 0 <= i < parts.len() ==> (#[trigger] parts[i]).1.len() > 0,
    ensures
        joined(trim_head(parts)) == strip_opening(joined(parts)),
    decreases parts.len(),
{
    if parts.len() > 0 {
        let t = parts[0].1;
        let rest = parts.drop_first();
        lemma_joined_first(parts);
        lemma_strip_opening_concat(t, joined(rest));
        let cut = strip_opening(t);
        if cut.len() == 0 {
            lemma_trim_head_joined(rest);
        } else {
            let out = seq![(parts[0].0, cut)] + rest;
            lemma_joined_first(out);
            assert(out.drop_first() =~= rest);
        }
    }
}

pub(crate) proof fn lemma_joined_first(parts: Seq<Part>)
    requires
        parts.len() > 0,
    ensures
        joined(parts) == parts[0].1 + joined(parts.drop_first()),
    decreases parts.len(),
{
    if parts.len() == 1 {
        assert(parts.drop_last() =~= Seq::<Part>::empty());
        assert(parts.drop_first() =~= Seq::<Part>::empty());
        assert(joined(parts.drop_last()) =~= Seq::<char>::empty());
        assert(joined(parts.drop_first()) =~= Seq::<char>::empty());
        assert(joined(parts) =~= parts[0].1 + joined(parts.drop_first()));
    } else {
        lemma_joined_first(parts.drop_last());
        assert(parts.drop_last().drop_first() =~= parts.drop_first().drop_last());
        assert(joined(parts) =~= parts[0].1 + joined(parts.drop_first()));
    }
}

proof fn lemma_strip_opening_concat(a: Seq<char>, b: Seq<char>)
    ensures
        strip_opening(a + b) == if strip_opening(a).len() == 0 {
            strip_opening(b)
        } else {
            strip_opening(a) + b
        },
    decreases a.len(),
{
    if a.len() == 0 {
        assert(a + b =~= b);
    } else {
        assert((a + b)[0] == a[0]);
        if opens_wrap(a[0]) {
            assert((a + b).drop_first() =~= a.drop_first() + b);
            lemma_strip_opening_concat(a.drop_first(), b);
        }
    }
}

/// A click on any column of a token finds the same link.
pub proof fn lemma_any_column_of_a_token(cells: Seq<RowCell>, a: int, b: int)
    requires
        0 <= a <= b < cells.len(),
        forall|i: int| a <= i <= b ==> !is_delim(#[trigger] cells[i]),
    ensures
        text_link(cells, a) == text_link(cells, b),
{
    lemma_token_start_shared(cells, a, b);
    lemma_token_end_shared(cells, a, b);
    assert(!is_delim(cells[a]) && !is_delim(cells[b]));
}

proof fn lemma_token_start_shared(cells: Seq<RowCell>, a: int, b: int)
    requires
        0 <= a <= b < cells.len(),
        forall|i: int| a <= i <= b ==> !is_delim(#[trigger] cells[i]),
    ensures
        token_start(cells, a) == token_start(cells, b),
    decreases b - a,
{
    if a < b {
        assert(!is_delim(cells[b - 1]));
        lemma_token_start_shared(cells, a, b - 1);
    }
}

proof fn lemma_token_end_shared(cells: Seq<RowCell>, a: int, b: int)
    requires
        0 <= a <= b < cells.len(),
        forall|i: int| a <= i <= b ==> !is_delim(#[trigger] cells[i]),
    ensures
        token_end(cells, a) == token_end(cells, b),
    decreases b - a,
{
    if a < b {
        assert(!is_delim(cells[a]));
        lemma_token_end_shared(cells, a + 1, b);
    }
}

/// Stripping a line and column only ever cuts a tail that starts with a colon.
pub proof fn lemma_strip_line_col_prefix(s: Seq<char>)
    ensures
        without_line_col(s).len() <= s.len(),
        s.take(without_line_col(s).len() as int) == without_line_col(s),
        without_line_col(s).len() < s.len() ==> s[without_line_col(s).len() as int] == ':',
{
    crate::text::lemma_rfind_char(s, ':');
    let one = strip_number(s);
    crate::text::lemma_rfind_char(one, ':');
    let two = strip_number(one);
    assert(s.take(one.len() as int) =~= one);
    assert(one.take(two.len() as int) =~= two);
    assert(s.take(two.len() as int) =~= two);
}

/// What a list of columns with their characters stands for.
spec fn part_views(v: Seq<(usize, Vec<char>)>) -> Seq<Part> {
    v.map_values(|p: (usize, Vec<char>)| (p.0 as int, p.1@))
}

fn opening(c: char) -> (r: bool)
    ensures
        r == opens_wrap(c),
{
    c == '<' || c == '(' || c == '{' || c == '[' || c == '（' || c == '【' || c == '「' || c == '『'
        || c == '"' || c == '\'' || c == '“' || c == '‘' || c == '«' || c == '‹'
}

fn closing(c: char) -> (r: bool)
    ensures
        r == closes_wrap(c),
{
    c == '>' || c == ')' || c == '}' || c == ']' || c == '）' || c == '】' || c == '」' || c == '』'
        || c == '"' || c == '\'' || c == '”' || c == '’' || c == '»' || c == '›' || c == '.' || c
        == ',' || c == ';' || c == ':' || c == '!' || c == '?' || c == '*' || c == '，' || c == '。'
        || c == '、' || c == '；' || c == '：' || c == '？' || c == '！'
}

/// Whether a cell ends a token.
fn delim(c: &RowCell) -> (r: bool)
    ensures
        r == is_delim(*c),
{
    match c {
        RowCell::Blank => true,
        RowCell::Cont => false,
        RowCell::Text(t) => {
            let v: Vec<char> = chars_of(t.as_str());
            let mut i: usize = 0;
            while i < v.len()
                invariant
                    i <= v@.len(),
                    v@ == t@,
                    c matches RowCell::Text(u) && u == t,
                    forall|j: int| 0 <= j < i ==> is_white(#[trigger] t@[j]),
                decreases v@.len() - i,
            {
                if !white(v[i]) {
                    assert(!is_white(t@[i as int]));
                    return false;
                }
                i += 1;
            }
            true
        },
    }
}

/// The columns of the token that holds column `col`.
fn token_bounds(cells: &[RowCell], col: usize) -> (b: (usize, usize))
    requires
        col < cells@.len(),
        !is_delim(cells@[col as int]),
    ensures
        b.0 == token_start(cells@, col as int),
        b.1 == token_end(cells@, col as int),
        b.0 <= col < b.1 <= cells@.len(),
{
    let n: usize = cells.len();
    let mut start: usize = col;
    while start > 0 && !delim(&cells[start - 1])
        invariant
            start <= col < n == cells@.len(),
            token_start(cells@, col as int) == token_start(cells@, start as int),
        decreases start,
    {
        start -= 1;
    }
    let mut end: usize = col + 1;
    while end < n && !delim(&cells[end])
        invariant
            col < end <= n == cells@.len(),
            token_end(cells@, col as int) == token_end(cells@, end as int),
        decreases n - end,
    {
        end += 1;
    }
    (start, end)
}

/// The texts of the columns from `start` up to `end`.
fn collect_parts(cells: &[RowCell], start: usize, end: usize) -> (out: Vec<(usize, Vec<char>)>)
    requires
        start <= end <= cells@.len(),
    ensures
        part_views(out@) == parts_of(cells@, start as int, end as int),
{
    let mut out: Vec<(usize, Vec<char>)> = Vec::new();
    let mut i: usize = start;
    assert(part_views(out@) =~= Seq::<Part>::empty());
    while i < end
        invariant
            start <= i <= end <= cells@.len(),
            part_views(out@) == parts_of(cells@, start as int, i as int),
        decreases end - i,
    {
        let ghost before = out@;
        if let RowCell::Text(t) = &cells[i] {
            let v: Vec<char> = chars_of(t.as_str());
            if v.len() > 0 {
                out.push((i, v));
                assert(part_views(out@) =~= part_views(before).push((i as int, t@)));
            }
        }
        i += 1;
    }
    out
}

/// The length of `v` without the closing punctuation at its end.
fn closing_cut(v: &Vec<char>) -> (n: usize)
    ensures
        n <= v@.len(),
        v@.take(n as int) == strip_closing(v@),
{
    let mut n: usize = v.len();
    assert(v@.take(n as int) =~= v@);
    while n > 0 && closing(v[n - 1])
        invariant
            n <= v@.len(),
            strip_closing(v@) == strip_closing(v@.take(n as int)),
        decreases n,
    {
        assert(v@.take(n as int).drop_last() =~= v@.take(n - 1));
        n -= 1;
    }
    n
}

/// The length of the opening punctuation at the start of `v`.
fn opening_cut(v: &Vec<char>) -> (n: usize)
    ensures
        n <= v@.len(),
        v@.skip(n as int) == strip_opening(v@),
{
    let mut n: usize = 0;
    assert(v@.skip(0) =~= v@);
    while n < v.len() && opening(v[n])
        invariant
            n <= v@.len(),
            strip_opening(v@) == strip_opening(v@.skip(n as int)),
        decreases v@.len() - n,
    {
        assert(v@.skip(n as int).drop_first() =~= v@.skip(n + 1));
        n += 1;
    }
    n
}

/// The characters of `v` from `lo` on.
fn tail_of(v: &Vec<char>, lo: usize) -> (out: Vec<char>)
    requires
        lo <= v@.len(),
    ensures
        out@ == v@.skip(lo as int),
{
    let mut out: Vec<char> = Vec::new();
    let mut i: usize = lo;
    while i < v.len()
        invariant
            lo <= i <= v@.len(),
            out@ == v@.subrange(lo as int, i as int),
        decreases v@.len() - i,
    {
        out.push(v[i]);
        i += 1;
    }
    out
}

/// Cuts the closing punctuation off the end of the parts.
fn cut_tail(parts: &mut Vec<(usize, Vec<char>)>)
    ensures
        part_views(final(parts)@) == trim_tail(part_views(old(parts)@)),
{
    while parts.len() > 0
        invariant_except_break
            trim_tail(part_views(parts@)) == trim_tail(part_views(old(parts)@)),
        ensures
            part_views(parts@) == trim_tail(part_views(old(parts)@)),
        decreases parts@.len(),
    {
        let ghost before = parts@;
        let k: usize = parts.len() - 1;
        let n: usize = closing_cut(&parts[k].1);
        let len: usize = parts[k].1.len();
        assert(part_views(before).last() == (before[k as int].0 as int, before[k as int].1@));
        if n == 0 && len > 0 {
            parts.pop();
            assert(part_views(parts@) =~= part_views(before).drop_last());
        } else {
            let (col, mut v) = match parts.pop() {
                Some(p) => p,
                None => (0, Vec::new()),
            };
            v.truncate(n);
            parts.push((col, v));
            assert(part_views(parts@) =~= trim_tail(part_views(before)));
            break;
        }
    }
}

/// Cuts the opening punctuation off the start of the parts.
fn cut_head(parts: &mut Vec<(usize, Vec<char>)>)
    ensures
        part_views(final(parts)@) == trim_head(part_views(old(parts)@)),
{
    while parts.len() > 0
        invariant_except_break
            trim_head(part_views(parts@)) == trim_head(part_views(old(parts)@)),
        ensures
            part_views(parts@) == trim_head(part_views(old(parts)@)),
        decreases parts@.len(),
    {
        let ghost before = parts@;
        let n: usize = opening_cut(&parts[0].1);
        let len: usize = parts[0].1.len();
        assert(part_views(before)[0] == (before[0].0 as int, before[0].1@));
        if n == len && len > 0 {
            parts.remove(0);
            assert(part_views(parts@) =~= part_views(before).drop_first());
        } else {
            let (col, v) = parts.remove(0);
            let cut: Vec<char> = tail_of(&v, n);
            parts.insert(0, (col, cut));
            assert(part_views(parts@) =~= trim_head(part_views(before)));
            break;
        }
    }
}

/// The joined texts of the parts.
fn join(parts: &Vec<(usize, Vec<char>)>) -> (out: Vec<char>)
    ensures
        out@ == joined(part_views(parts@)),
{
    let mut out: Vec<char> = Vec::new();
    let mut i: usize = 0;
    assert(part_views(parts@).take(0) =~= Seq::<Part>::empty());
    while i < parts.len()
        invariant
            i <= parts@.len(),
            out@ == joined(part_views(parts@).take(i as int)),
        decreases parts@.len() - i,
    {
        let ghost before = out@;
        let mut j: usize = 0;
        while j < parts[i].1.len()
            invariant
                i < parts@.len(),
                j <= parts@[i as int].1@.len(),
                out@ == before + parts@[i as int].1@.take(j as int),
            decreases parts@[i as int].1@.len() - j,
        {
            out.push(parts[i].1[j]);
            j += 1;
            assert(out@ =~= before + parts@[i as int].1@.take(j as int));
        }
        assert(parts@[i as int].1@.take(j as int) =~= parts@[i as int].1@);
        i += 1;
        assert(part_views(parts@).take(i as int).drop_last() =~= part_views(parts@).take(i - 1));
    }
    assert(part_views(parts@).take(i as int) =~= part_views(parts@));
    out
}

/// The token without a `label=` prefix.
fn drop_label(v: Vec<char>) -> (out: Vec<char>)
    ensures
        out@ == strip_label(v@),
{
    let mut eq_sign: Vec<char> = Vec::new();
    eq_sign.push('=');
    assert(eq_sign@ =~= seq!['=']);
    match position(&v, &eq_sign) {
        Some(eq) => {
            proof {
                crate::text::lemma_find_from(v@, seq!['='], 0);
            }
            let mut i: usize = 0;
            while i < eq
                invariant
                    i <= eq < v@.len(),
                    forall|j: int| 0 <= j < i ==> is_label_char(#[trigger] v@[j]),
                    find(v@, seq!['=']) == Some(eq as int),
                decreases eq - i,
            {
                let c: char = v[i];
                if !(ascii_alnum(c) || c == '_' || c == '.' || c == '+' || c == '-') {
                    assert(!is_label_char(v@[i as int]));
                    return v;
                }
                i += 1;
            }
            if eq == 0 {
                v
            } else {
                let n: usize = v.len();
                assert(eq < n);
                tail_of(&v, eq + 1)
            }
        },
        None => v,
    }
}

/// Whether a token is a web address.
fn is_url(token: &Vec<char>) -> (r: bool)
    ensures
        r == url_shaped(token@),
{
    if starts(token, &chars_of("www.")) || starts(token, &chars_of("WWW.")) {
        return true;
    }
    match position(token, &chars_of("://")) {
        Some(p) => {
            proof {
                crate::text::lemma_find_from(token@, "://"@, 0);
                reveal_strlit("://");
            }
            if p == 0 || !ascii_alnum(token[0]) || ascii_digit(token[0]) {
                return false;
            }
            let mut i: usize = 1;
            while i < p
                invariant
                    1 <= i <= p < token@.len(),
                    forall|j: int| 1 <= j < i ==> is_scheme_char(#[trigger] token@[j]),
                    find(token@, "://"@) == Some(p as int),
                    !begins(token@, "www."@) && !begins(token@, "WWW."@),
                decreases p - i,
            {
                let c: char = token[i];
                if !(ascii_alnum(c) || c == '+' || c == '.' || c == '-') {
                    assert(!is_scheme_char(token@[i as int]));
                    return false;
                }
                i += 1;
            }
            true
        },
        None => false,
    }
}

/// The length of `v` without one `:digits` suffix.
fn number_cut(v: &Vec<char>, end: usize) -> (n: usize)
    requires
        end <= v@.len(),
    ensures
        n <= end,
        v@.take(n as int) == strip_number(v@.take(end as int)),
{
    let ghost s = v@.take(end as int);
    let mut i: usize = end;
    assert(s.take(end as int) =~= s);
    while i > 0 && v[i - 1] != ':'
        invariant
            i <= end <= v@.len(),
            s == v@.take(end as int),
            rfind_char(s, ':') == rfind_char(s.take(i as int), ':'),
        decreases i,
    {
        assert(s.take(i as int).drop_last() =~= s.take(i - 1));
        i -= 1;
    }
    if i == 0 || i == end {
        return end;
    }
    proof {
        assert(rfind_char(s.take(i as int), ':') == Some(i - 1));
    }
    let mut k: usize = i;
    while k < end
        invariant
            0 < i <= k <= end <= v@.len(),
            s == v@.take(end as int),
            rfind_char(s, ':') == Some(i - 1),
            forall|j: int| i <= j < k ==> is_ascii_digit(#[trigger] s[j]),
        decreases end - k,
    {
        if !ascii_digit(v[k]) {
            assert(!is_ascii_digit(s[k as int]));
            return end;
        }
        k += 1;
    }
    assert(s.take(i - 1) =~= v@.take(i - 1));
    i - 1
}

/// `s` without a `:line` or `:line:col` suffix.
pub fn strip_line_col(s: &str) -> (out: &str)
    ensures
        out@ == without_line_col(s@),
{
    let v: Vec<char> = chars_of(s);
    let end: usize = v.len();
    assert(v@.take(end as int) =~= s@);
    let one: usize = number_cut(&v, end);
    let two: usize = number_cut(&v, one);
    assert(s@.subrange(0, two as int) =~= v@.take(two as int));
    s.substring_char(0, two)
}

/// Whether a token is a path.
fn is_path(token: &Vec<char>) -> (r: bool)
    ensures
        r == path_shaped(token@),
{
    if starts(token, &chars_of("/")) || starts(token, &chars_of("~/")) || starts(
        token,
        &chars_of("./"),
    ) || starts(token, &chars_of("../")) {
        return true;
    }
    match last_position(token, '/') {
        Some(i) => {
            proof {
                crate::text::lemma_rfind_char(token@, '/');
            }
            let n: usize = token.len();
            let seg: String = string_of(token, i + 1, n);
            assert(seg@ =~= token@.skip(i + 1));
            has_char(&chars_of(strip_line_col(seg.as_str())), '.')
        },
        None => false,
    }
}

/// What kind of link a token is: an address first, then a path. A token with `://` behind a
/// malformed scheme is neither.
fn classify(token: &Vec<char>) -> (r: Option<HitKind>)
    ensures
        r == kind_of(token@),
{
    if token.len() == 0 || has_char(token, '|') || has_char(token, '`') {
        return None;
    }
    if is_url(token) {
        return Some(HitKind::Url);
    }
    if position(token, &chars_of("://")).is_some() {
        return None;
    }
    if is_path(token) {
        Some(HitKind::Path)
    } else {
        None
    }
}

/// The link under column `click_col` of the row `cells`, whose clicked cell has the hyperlink
/// `osc8`. A hyperlink that is not empty wins, with the clicked column as its extent; otherwise the
/// row's text decides.
pub fn recognize(cells: &[RowCell], click_col: usize, osc8: Option<&str>) -> (hit: Option<LinkHit>)
    ensures
        match osc8 {
            Some(uri) if uri@.len() > 0 => hit matches Some(h) && h.kind == HitKind::Osc8 && h.text@
                == uri@ && h.start_col == if click_col <= u16::MAX {
                click_col as u16
            } else {
                u16::MAX
            } && h.end_col == if click_col < u16::MAX {
                (click_col + 1) as u16
            } else {
                u16::MAX
            },
            _ => match text_link(cells@, click_col as int) {
                Some(l) => hit matches Some(h) && h.kind == l.0 && h.text@ == l.1 && h.start_col
                    == l.2 as u16 && h.end_col == l.3 as u16,
                None => hit is None,
            },
        },
{
    if let Some(uri) = osc8 {
        if !uri.is_empty() {
            let col: u16 = if click_col <= 0xffff {
                click_col as u16
            } else {
                0xffff
            };
            return Some(
                LinkHit {
                    kind: HitKind::Osc8,
                    text: uri.to_owned(),
                    start_col: col,
                    end_col: col.saturating_add(1),
                },
            );
        }
    }
    if click_col >= cells.len() || delim(&cells[click_col]) {
        return None;
    }
    let (start, end) = token_bounds(cells, click_col);
    let mut parts: Vec<(usize, Vec<char>)> = collect_parts(cells, start, end);
    cut_tail(&mut parts);
    cut_head(&mut parts);
    assert(part_views(parts@) == token_parts(cells@, click_col as int));
    if parts.len() == 0 {
        return None;
    }
    let text: Vec<char> = drop_label(join(&parts));
    match classify(&text) {
        Some(kind) => {
            let first: usize = parts[0].0;
            let last: usize = parts[parts.len() - 1].0;
            assert(part_views(parts@)[0].0 == first);
            assert(part_views(parts@).last().0 == last);
            proof {
                lemma_token_columns(cells@, start as int, end as int);
            }
            Some(
                LinkHit {
                    kind,
                    text: string_of(&text, 0, text.len()),
                    start_col: #[verifier::truncate] (first as u16),
                    end_col: #[verifier::truncate] ((last + 1) as u16),
                },
            )
        },
        None => None,
    }
}

/// The columns of the parts lie from `lo` up to `hi`.
spec fn within(parts: Seq<Part>, lo: int, hi: int) -> bool {
    forall|i: int| 0 <= i < parts.len() ==> lo <= (#[trigger] parts[i]).0 < hi
}

/// The columns of the parts stay within the token.
proof fn lemma_token_columns(cells: Seq<RowCell>, start: int, end: int)
    ensures
        within(trim_head(trim_tail(parts_of(cells, start, end))), start, end),
{
    lemma_parts_columns(cells, start, end);
    lemma_trim_tail_columns(parts_of(cells, start, end), start, end);
    lemma_trim_head_columns(trim_tail(parts_of(cells, start, end)), start, end);
}

proof fn lemma_parts_columns(cells: Seq<RowCell>, start: int, end: int)
    ensures
        within(parts_of(cells, start, end), start, end),
    decreases end - start,
{
    if end > start {
        lemma_parts_columns(cells, start, end - 1);
        let shorter = parts_of(cells, start, end - 1);
        assert(within(shorter, start, end - 1));
        let all = parts_of(cells, start, end);
        assert forall|i: int| 0 <= i < all.len() implies start <= (#[trigger] all[i]).0 < end by {
            if i < shorter.len() {
                assert(all[i] == shorter[i]);
            }
        }
    }
}

proof fn lemma_trim_tail_columns(parts: Seq<Part>, lo: int, hi: int)
    requires
        within(parts, lo, hi),
    ensures
        within(trim_tail(parts), lo, hi),
    decreases parts.len(),
{
    if parts.len() > 0 {
        let init = parts.drop_last();
        assert forall|i: int| 0 <= i < init.len() implies lo <= (#[trigger] init[i]).0 < hi by {
            assert(init[i] == parts[i]);
        }
        lemma_trim_tail_columns(init, lo, hi);
        let cut = trim_tail(parts);
        assert(lo <= parts[parts.len() - 1].0 < hi);
    }
}

proof fn lemma_trim_head_columns(parts: Seq<Part>, lo: int, hi: int)
    requires
        within(parts, lo, hi),
    ensures
        within(trim_head(parts), lo, hi),
    decreases parts.len(),
{
    if parts.len() > 0 {
        let rest = parts.drop_first();
        assert forall|i: int| 0 <= i < rest.len() implies lo <= (#[trigger] rest[i]).0 < hi by {
            assert(rest[i] == parts[i + 1]);
        }
        lemma_trim_head_columns(rest, lo, hi);
        assert(lo <= parts[0].0 < hi);
    }
}

} // verus!
