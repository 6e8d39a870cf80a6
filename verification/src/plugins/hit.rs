//! What a click landed on, as it is told to the plugins.

use vstd::prelude::*;
use vstd::string::*;
use vstd::utf8::*;

use crate::config::files::{push_path, pushed};
use crate::open::osc7_path;
use crate::plugins::keys::{modifiers_from_mods, modifiers_of};
use crate::protocol::{Hit, HitKind, Modifier};
use crate::text::{
    ascii_alnum, begins, chars_of, find, has_char, has_prefix, is_ascii_alnum, last_position,
    lemma_find_from, lemma_rfind_char, occurs_at, position, rfind_char, same_text, string_of,
};
use crate::url::{lossy_text, lossy_utf8, percent_decode, unescaped};

verus! {

/// What `char::is_alphanumeric` says of a character.
pub uninterp spec fn unicode_alphanumeric(c: char) -> bool;

/// `char::is_alphanumeric`: whether the character is a letter or a number in any script. Of ASCII
/// those are the letters and the digits.
pub assume_specification[ char::is_alphanumeric ](c: char) -> (r: bool)
    ensures
        r == unicode_alphanumeric(c),
        c as u32 <= 0x7f ==> r == is_ascii_alnum(c),
;

/// One of the marks that paths and addresses are made of, besides letters and numbers.
pub open spec fn is_token_mark(c: char) -> bool {
    c == '.' || c == '_' || c == '/' || c == '@' || c == '-' || c == '~' || c == '+' || c == ':' || c
        == '=' || c == '%' || c == '?' || c == '#' || c == '&' || c == '[' || c == ']' || c == '('
        || c == ')'
}

/// A character that a path or an address may hold.
pub open spec fn is_token(c: char) -> bool {
    unicode_alphanumeric(c) || is_token_mark(c)
}

fn is_token_char(c: char) -> (r: bool)
    ensures
        r == is_token(c),
{
    c.is_alphanumeric() || c == '.' || c == '_' || c == '/' || c == '@' || c == '-' || c == '~' || c
        == '+' || c == ':' || c == '=' || c == '%' || c == '?' || c == '#' || c == '&' || c == '['
        || c == ']' || c == '(' || c == ')'
}

/// The places from `lo` up to `hi` are marked, and those on both sides are not.
pub open spec fn is_run(marks: Seq<bool>, lo: int, hi: int) -> bool {
    &&& 0 <= lo < hi <= marks.len()
    &&& forall|i: int| lo <= i < hi ==> #[trigger] marks[i]
    &&& lo == 0 || !marks[lo - 1]
    &&& hi == marks.len() || !marks[hi]
}

/// The run of marked places around `at`.
pub fn run_around(marks: &Vec<bool>, at: usize) -> (r: Option<(usize, usize)>)
    ensures
        match r {
            Some(b) => is_run(marks@, b.0 as int, b.1 as int) && b.0 <= at < b.1,
            None => at >= marks@.len() || !marks@[at as int],
        },
{
    let n: usize = marks.len();
    if at >= n || !marks[at] {
        return None;
    }
    let mut lo: usize = at;
    while lo > 0 && marks[lo - 1]
        invariant
            lo <= at < n == marks@.len(),
            forall|i: int| lo <= i <= at ==> #[trigger] marks@[i],
        decreases lo,
    {
        lo -= 1;
    }
    let mut hi: usize = at + 1;
    while hi < n && marks[hi]
        invariant
            lo <= at < hi <= n == marks@.len(),
            forall|i: int| lo <= i < hi ==> #[trigger] marks@[i],
        decreases n - hi,
    {
        hi += 1;
    }
    Some((lo, hi))
}

/// A place has one run around it: every place of a run gives the same one.
pub proof fn lemma_one_run(marks: Seq<bool>, a: (int, int), b: (int, int), at: int)
    requires
        is_run(marks, a.0, a.1),
        is_run(marks, b.0, b.1),
        a.0 <= at < a.1,
        b.0 <= at < b.1,
    ensures
        a == b,
{
    if a.0 < b.0 {
        assert(marks[b.0 - 1]);
    }
    if b.0 < a.0 {
        assert(marks[a.0 - 1]);
    }
    if a.1 < b.1 {
        assert(marks[a.1]);
    }
    if b.1 < a.1 {
        assert(marks[b.1]);
    }
}

/// Which characters of a line belong to paths and addresses.
pub open spec fn token_marks(line: Seq<char>) -> Seq<bool> {
    line.map_values(|c: char| is_token(c))
}

/// The token of a line at a column, and the column where it begins. Every character counts as one
/// column.
pub fn line_token_at(line: &str, col: u32) -> (r: Option<(String, u32)>)
    ensures
        match r {
            Some(t) => {
                &&& t.1 <= col < t.1 + t.0@.len()
                &&& is_run(token_marks(line@), t.1 as int, t.1 + t.0@.len())
                &&& t.0@ == line@.subrange(t.1 as int, t.1 + t.0@.len())
            },
            None => col >= line@.len() || !is_token(line@[col as int]),
        },
{
    let v: Vec<char> = chars_of(line);
    let n: usize = v.len();
    let mut marks: Vec<bool> = Vec::new();
    let mut i: usize = 0;
    while i < n
        invariant
            i <= n == v@.len(),
            marks@.len() == i,
            forall|j: int| 0 <= j < i ==> marks@[j] == is_token(#[trigger] v@[j]),
        decreases n - i,
    {
        marks.push(is_token_char(v[i]));
        i += 1;
    }
    assert(marks@ =~= token_marks(line@));
    match run_around(&marks, col as usize) {
        Some((lo, hi)) => {
            let t: String = string_of(&v, lo, hi);
            Some((t, lo as u32))
        },
        None => None,
    }
}

/// An address: a scheme of two characters at least, `://` and something behind it.
pub open spec fn has_scheme(t: Seq<char>) -> bool {
    find(t, "://"@) matches Some(i) && i >= 2 && i + 3 < t.len() && forall|j: int|
        0 <= j < i ==> is_scheme_mark(#[trigger] t[j])
}

/// A character of a scheme.
pub open spec fn is_scheme_mark(c: char) -> bool {
    is_ascii_alnum(c) || c == '+' || c == '-' || c == '.'
}

/// What stands behind the last dot is short: from one to eight bytes.
pub open spec fn has_extension(t: Seq<char>) -> bool {
    rfind_char(t, '.') matches Some(i) && 1 <= encode_utf8(t.skip(i + 1)).len() <= 8
}

/// What a token is: an address, a path, or neither.
pub open spec fn token_kind(t: Seq<char>) -> Option<HitKind> {
    if encode_utf8(t).len() < 2 {
        None
    } else if has_scheme(t) {
        Some(HitKind::Url)
    } else if t.contains('/') || begins(t, "~"@) || begins(t, "."@) || has_extension(t) {
        Some(HitKind::Path)
    } else {
        None
    }
}

fn scheme_mark(c: char) -> (r: bool)
    ensures
        r == is_scheme_mark(c),
{
    ascii_alnum(c) || c == '+' || c == '-' || c == '.'
}

fn scheme_stands(v: &Vec<char>) -> (r: bool)
    ensures
        r == has_scheme(v@),
{
    match position(v, &chars_of("://")) {
        None => false,
        Some(p) => {
            proof {
                lemma_find_from(v@, "://"@, 0);
                reveal_strlit("://");
            }
            let n: usize = v.len();
            if p < 2 || n - p <= 3 {
                return false;
            }
            let mut i: usize = 0;
            while i < p
                invariant
                    i <= p < n == v@.len(),
                    find(v@, "://"@) == Some(p as int),
                    forall|j: int| 0 <= j < i ==> is_scheme_mark(#[trigger] v@[j]),
                decreases p - i,
            {
                if !scheme_mark(v[i]) {
                    return false;
                }
                i += 1;
            }
            true
        },
    }
}

fn extension_stands(v: &Vec<char>) -> (r: bool)
    ensures
        r == has_extension(v@),
{
    match last_position(v, '.') {
        None => false,
        Some(i) => {
            proof {
                lemma_rfind_char(v@, '.');
            }
            let n: usize = v.len();
            let ext: String = string_of(v, i + 1, n);
            assert(ext@ =~= v@.skip(i + 1));
            let len: usize = ext.as_str().as_bytes().len();
            1 <= len && len <= 8
        },
    }
}

/// What a token is: an address where it begins with a scheme; a path where it has a slash, begins
/// with a tilde or a dot, or ends in a short extension; otherwise neither, and no plugin is told of it.
pub fn classify_token(token: &str) -> (r: Option<HitKind>)
    ensures
        r == token_kind(token@),
{
    if token.as_bytes().len() < 2 {
        return None;
    }
    let v: Vec<char> = chars_of(token);
    if scheme_stands(&v) {
        return Some(HitKind::Url);
    }
    if has_char(&v, '/') || has_prefix(token, "~") || has_prefix(token, ".") || extension_stands(&v) {
        Some(HitKind::Path)
    } else {
        None
    }
}

/// The escaped path of a `file://` address, behind its host.
pub open spec fn file_url_tail(s: Seq<char>) -> Option<Seq<char>> {
    if !begins(s, "file://"@) {
        None
    } else {
        match find(s.skip(7), "/"@) {
            Some(i) => Some(s.skip(7 + i)),
            None => None,
        }
    }
}

/// A text with its escapes replaced.
pub open spec fn decoded(s: Seq<char>) -> Seq<char> {
    lossy_utf8(unescaped(encode_utf8(s)))
}

/// The path that a `file://` address stands for, its escapes replaced; `None` for anything else. It
/// begins with a slash, and where the address is read as a working directory too it is the same
/// path.
pub fn file_url_to_fs_path(s: &str) -> (r: Option<String>)
    ensures
        match r {
            Some(p) => file_url_tail(s@) is Some && p@ == decoded(file_url_tail(s@)->0) && begins(
                p@,
                "/"@,
            ),
            None => file_url_tail(s@) is None,
        },
        r is Some <==> begins(s@, "file://"@) && s@.skip(7).contains('/'),
        osc7_path(s@) matches Some(q) ==> (r matches Some(p) && p@ == q),
{
    if !has_prefix(s, "file://") {
        return None;
    }
    proof {
        reveal_strlit("file://");
        reveal_strlit("/");
    }
    let n: usize = s.unicode_len();
    let rest: &str = s.substring_char(7, n);
    assert(rest@ =~= s@.skip(7));
    proof {
        lemma_find_slash(rest@);
    }
    match position(&chars_of(rest), &chars_of("/")) {
        None => None,
        Some(i) => {
            let tail: &str = rest.substring_char(i, n - 7);
            assert(tail@ =~= s@.skip(7 + i));
            let p: String = percent_decode(tail);
            assert(p@.take(1) =~= "/"@);
            Some(p)
        },
    }
}

/// A slash is found if and only if there is one, and what is found is one.
proof fn lemma_find_slash(s: Seq<char>)
    ensures
        find(s, "/"@) is Some <==> s.contains('/'),
        find(s, "/"@) matches Some(i) ==> 0 <= i < s.len() && s[i] == '/',
{
    reveal_strlit("/");
    lemma_find_from(s, "/"@, 0);
    if s.contains('/') {
        let k = s.index_of('/');
        assert(s.subrange(k, k + 1) =~= "/"@);
        assert(occurs_at(s, "/"@, k));
    }
    if let Some(i) = find(s, "/"@) {
        assert(s.subrange(i, i + 1)[0] == s[i]);
        assert("/"@[0] == '/');
    }
}

/// What begins with a slash, or is no `file://` address with a path, stays as it is when it is
/// normalized again.
pub proof fn lemma_normal_stays(t: Seq<char>)
    requires
        begins(t, "/"@) || file_url_tail(t) is None,
    ensures
        file_url_tail(t) is None,
        as_cwd(t) == t,
{
    reveal_strlit("/");
    reveal_strlit("file://");
    if begins(t, "/"@) && begins(t, "file://"@) {
        assert(t.take(1)[0] == '/');
        assert(t.take(7)[0] == 'f');
    }
}

/// The kind of an address and its normal form agree on what is a path: what has a path to be taken
/// out is of that kind already.
pub proof fn lemma_payload_keeps_kind(url: Seq<char>)
    ensures
        file_url_tail(url) is Some ==> url_kind(url) == HitKind::Path,
        !begins(url, "file://"@) ==> as_cwd(url) == url,
{
}

/// What an address that the terminal wants opened is: a `file://` address or one without a scheme is
/// a path, a well-known scheme makes a web address, any other a hyperlink of a program's own.
pub open spec fn url_kind(url: Seq<char>) -> HitKind {
    if file_url_tail(url) is Some {
        HitKind::Path
    } else {
        match find(url, "://"@) {
            None => HitKind::Path,
            Some(i) => if url.take(i) == "http"@ || url.take(i) == "https"@ || url.take(i)
                == "mailto"@ || url.take(i) == "ftp"@ {
                HitKind::Url
            } else {
                HitKind::Osc8
            },
        }
    }
}

/// What an address that the terminal wants opened is.
pub fn classify_url(url: &str) -> (r: HitKind)
    ensures
        r == url_kind(url@),
{
    if file_url_to_fs_path(url).is_some() {
        return HitKind::Path;
    }
    match position(&chars_of(url), &chars_of("://")) {
        None => HitKind::Path,
        Some(i) => {
            proof {
                lemma_find_from(url@, "://"@, 0);
            }
            let scheme: &str = url.substring_char(0, i);
            assert(scheme@ =~= url@.take(i as int));
            if same_text(scheme, "http") || same_text(scheme, "https") || same_text(
                scheme,
                "mailto",
            ) || same_text(scheme, "ftp") {
                HitKind::Url
            } else {
                HitKind::Osc8
            }
        },
    }
}

/// A working directory as a path.
pub open spec fn as_cwd(raw: Seq<char>) -> Seq<char> {
    match file_url_tail(raw) {
        Some(t) => decoded(t),
        None => raw,
    }
}

/// A working directory as a path: a `file://` address gives the path that it stands for, anything
/// else stays. Doing so again changes nothing.
pub fn normalize_cwd(raw: &str) -> (r: String)
    ensures
        r@ == as_cwd(raw@),
        as_cwd(r@) == r@,
        !begins(raw@, "file://"@) ==> r@ == raw@,
{
    let r: String = match file_url_to_fs_path(raw) {
        Some(p) => p,
        None => raw.to_owned(),
    };
    proof {
        lemma_normal_stays(r@);
    }
    r
}

/// What the plugins are told: a `file://` address is a path, anything else stays. Doing so again
/// changes nothing, and a kind that came from the address stays.
pub fn normalize_open_payload(kind: HitKind, text: &str) -> (r: (HitKind, String))
    ensures
        r.0 == if file_url_tail(text@) is Some {
            HitKind::Path
        } else {
            kind
        },
        r.1@ == as_cwd(text@),
        file_url_tail(r.1@) is None,
        as_cwd(r.1@) == r.1@,
        kind == url_kind(text@) ==> r.0 == kind,
{
    let r: (HitKind, String) = match file_url_to_fs_path(text) {
        Some(p) => (HitKind::Path, p),
        None => (kind, text.to_owned()),
    };
    proof {
        lemma_normal_stays(r.1@);
    }
    r
}

/// A directory that relative paths can be taken from.
pub open spec fn usable_cwd(p: Seq<char>) -> bool {
    begins(p, "/"@) || begins(p, "~"@)
}

/// The working directory of a click: the one that the shell told, if it is usable, else that of the
/// process in the foreground, else none.
pub fn click_cwd(told: Option<&str>, process: Option<&str>) -> (r: String)
    ensures
        match told {
            Some(t) if usable_cwd(as_cwd(t@)) => r@ == as_cwd(t@),
            _ => match process {
                Some(p) => r@ == p@,
                None => r@ == Seq::<char>::empty(),
            },
        },
{
    if let Some(t) = told {
        let n: String = normalize_cwd(t);
        if has_prefix(n.as_str(), "/") || has_prefix(n.as_str(), "~") {
            return n;
        }
    }
    match process {
        Some(p) => p.to_owned(),
        None => String::new(),
    }
}

/// The place of the first zero.
pub open spec fn first_zero(b: Seq<u8>) -> Option<int>
    decreases b.len(),
{
    if b.len() == 0 {
        None
    } else if b[0] == 0 {
        Some(0)
    } else {
        match first_zero(b.drop_first()) {
            Some(i) => Some(i + 1),
            None => None,
        }
    }
}

/// The path that the system wrote into a buffer, up to its zero; `None` where there is no zero or
/// nothing before it.
pub fn path_in_buffer(bytes: &Vec<u8>) -> (r: Option<String>)
    ensures
        match first_zero(bytes@) {
            Some(i) if i > 0 => r matches Some(s) && s@ == lossy_utf8(bytes@.take(i)),
            _ => r is None,
        },
{
    let n: usize = bytes.len();
    let mut out: Vec<u8> = Vec::new();
    let mut i: usize = 0;
    assert(bytes@.skip(0) =~= bytes@);
    while i < n && bytes[i] != 0
        invariant
            i <= n == bytes@.len(),
            out@ == bytes@.take(i as int),
            first_zero(bytes@) == match first_zero(bytes@.skip(i as int)) {
                Some(k) => Some(k + i),
                None => None,
            },
        decreases n - i,
    {
        assert(bytes@.skip(i as int).drop_first() =~= bytes@.skip(i + 1));
        out.push(bytes[i]);
        i += 1;
        assert(out@ =~= bytes@.take(i as int));
    }
    if i == n || i == 0 {
        None
    } else {
        Some(lossy_text(&out))
    }
}

/// The number that the `n` bytes from `at` on make, the lowest first.
pub open spec fn number_at(b: Seq<u8>, at: int, n: nat) -> nat
    decreases n,
{
    if n == 0 {
        0
    } else {
        b[at] as nat + 256 * number_at(b, at + 1, (n - 1) as nat)
    }
}

/// The memory of a process, in bytes, out of what the system tells of it.
pub fn footprint_in(info: &[u8; 512]) -> (r: u64)
    ensures
        r == number_at(info@, 72, 8),
{
    proof {
        reveal_with_fuel(number_at, 9);
    }
    let lo: u64 = info[72] as u64 + 256 * info[73] as u64 + 65536 * info[74] as u64 + 16777216
        * info[75] as u64;
    let hi: u64 = info[76] as u64 + 256 * info[77] as u64 + 65536 * info[78] as u64 + 16777216
        * info[79] as u64;
    lo + 4294967296 * hi
}

/// A click with the command key that is still to be told of.
#[derive(Clone, Debug, PartialEq)]
pub struct Click {
    pub pane: u32,
    pub row: u32,
    pub col: u32,
    pub modifiers: Vec<Modifier>,
}

/// A click is one with the command key.
pub open spec fn with_cmd(mods: Seq<Modifier>) -> bool {
    mods.contains(Modifier::Cmd)
}

/// Whether the modifier is among them.
pub fn has_modifier(mods: &Vec<Modifier>, m: Modifier) -> (r: bool)
    ensures
        r == mods@.contains(m),
{
    let mut i: usize = 0;
    while i < mods.len()
        invariant
            i <= mods@.len(),
            forall|j: int| 0 <= j < i ==> mods@[j] != m,
        decreases mods@.len() - i,
    {
        if mods[i] == m {
            return true;
        }
        i += 1;
    }
    false
}

/// Begins a click at a cell of a pane, in place of any other that is still to be told of; `mods` are
/// the modifiers as the terminal has them. A click outside the cells begins nothing.
pub fn click_begin(slot: &mut Option<Click>, pane: u32, cell: Option<(u32, u32)>, mods: u32)
    ensures
        match cell {
            Some((row, col)) => *final(slot) matches Some(c) && c.pane == pane && c.row == row
                && c.col == col && c.modifiers@ == modifiers_of(mods),
            None => *final(slot) == *old(slot),
        },
{
    if let Some((row, col)) = cell {
        *slot = Some(Click { pane, row, col, modifiers: modifiers_from_mods(mods) });
    }
}

/// Ends a click: what is left of it, where it was in this pane, had the command key and was not
/// told of already. No click is left afterwards.
pub fn click_end(slot: &mut Option<Click>, pane: u32) -> (r: Option<Click>)
    ensures
        *final(slot) == None::<Click>,
        match *old(slot) {
            Some(c) if c.pane == pane && with_cmd(c.modifiers@) => r == Some(c),
            _ => r is None,
        },
{
    let mut taken: Option<Click> = None;
    std::mem::swap(slot, &mut taken);
    match taken {
        Some(c) => if c.pane == pane && has_modifier(&c.modifiers, Modifier::Cmd) {
            Some(c)
        } else {
            None
        },
        None => None,
    }
}

/// What is told of a click.
#[derive(Clone, Debug, PartialEq)]
pub struct Found {
    pub kind: HitKind,
    pub text: String,
    pub row: u32,
    pub col: u32,
    pub pane: u32,
    pub modifiers: Vec<Modifier>,
}

/// What is told when the terminal wants an address opened: the address, at the click that is still
/// to be told of, or at the first cell of `pane` where there is none. No click is left afterwards.
pub fn handle_open_url(slot: &mut Option<Click>, pane: u32, url: &str) -> (r: Found)
    ensures
        *final(slot) == None::<Click>,
        r.kind == url_kind(url@),
        r.text@ == as_cwd(url@),
        match *old(slot) {
            Some(c) => r.row == c.row && r.col == c.col && r.pane == c.pane && r.modifiers
                == c.modifiers,
            None => r.row == 0 && r.col == 0 && r.pane == pane && r.modifiers@ == Seq::<
                Modifier,
            >::empty(),
        },
{
    let mut taken: Option<Click> = None;
    std::mem::swap(slot, &mut taken);
    let (kind, text) = normalize_open_payload(classify_url(url), url);
    match taken {
        Some(c) => Found { kind, text, row: c.row, col: c.col, pane: c.pane, modifiers: c.modifiers },
        None => Found { kind, text, row: 0, col: 0, pane, modifiers: Vec::new() },
    }
}

/// What is told of a click on plain text: the token under it, where it is an address or a path.
pub fn handle_grid_hit(line: &str, row: u32, col: u32, pane: u32, modifiers: Vec<Modifier>) -> (r:
    Option<Found>)
    ensures
        match r {
            Some(f) => exists|lo: int, hi: int|
                {
                    &&& #[trigger] is_run(token_marks(line@), lo, hi)
                    &&& lo <= col < hi
                    &&& f.kind == told_kind(line@.subrange(lo, hi))->0
                    &&& told_kind(line@.subrange(lo, hi)) is Some
                    &&& f.text@ == as_cwd(line@.subrange(lo, hi))
                } && f.row == row && f.col == col && f.pane == pane && f.modifiers == modifiers,
            None => col >= line@.len() || !is_token(line@[col as int]) || exists|lo: int, hi: int|
                #[trigger] is_run(token_marks(line@), lo, hi) && lo <= col < hi && token_kind(
                    line@.subrange(lo, hi),
                ) is None,
        },
{
    match line_token_at(line, col) {
        None => None,
        Some((token, start)) => {
            let ghost lo = start as int;
            let ghost hi = start + token@.len();
            assert(is_run(token_marks(line@), lo, hi));
            match classify_token(token.as_str()) {
                None => None,
                Some(k) => {
                    let (kind, text) = normalize_open_payload(k, token.as_str());
                    Some(Found { kind, text, row, col, pane, modifiers })
                },
            }
        },
    }
}

/// What the plugins are told that a token is.
pub open spec fn told_kind(t: Seq<char>) -> Option<HitKind> {
    match token_kind(t) {
        Some(k) => Some(
            if file_url_tail(t) is Some {
                HitKind::Path
            } else {
                k
            },
        ),
        None => None,
    }
}

/// The hit that the plugins are told of.
pub fn hit_of(id: u64, found: Found, cwd: String) -> (h: Hit)
    ensures
        h.id == id,
        h.kind == found.kind,
        h.text == found.text,
        h.cwd == cwd,
        h.row == found.row,
        h.col == found.col,
        h.pane == found.pane,
        h.modifiers == found.modifiers,
{
    Hit {
        id,
        kind: found.kind,
        text: found.text,
        cwd,
        row: found.row,
        col: found.col,
        pane: found.pane,
        modifiers: found.modifiers,
    }
}

/// What is opened where no plugin claims a hit: an address as it stands; a path where it is absolute
/// or there is a working directory to take it from. The second part tells that it is opened only if
/// something is there.
pub fn default_open(kind: HitKind, text: &str, cwd: &str) -> (r: Option<(String, bool)>)
    ensures
        match kind {
            HitKind::Url | HitKind::Osc8 => r matches Some(t) && t.0@ == text@ && !t.1,
            HitKind::Path => if usable_cwd(text@) {
                r matches Some(t) && t.0@ == text@ && t.1
            } else if cwd@.len() > 0 {
                r matches Some(t) && t.0@ == pushed(cwd@, text@) && t.1
            } else {
                r is None
            },
        },
{
    match kind {
        HitKind::Url | HitKind::Osc8 => Some((text.to_owned(), false)),
        HitKind::Path => if has_prefix(text, "/") || has_prefix(text, "~") {
            Some((text.to_owned(), true))
        } else if !cwd.is_empty() {
            Some((push_path(cwd, text), true))
        } else {
            None
        },
    }
}

/// A letter, a digit, or one of `+ - .`.
pub open spec fn spells_schemes(c: char) -> bool {
    'a' <= c <= 'z' || 'A' <= c <= 'Z' || '0' <= c <= '9' || c == '+' || c == '-' || c == '.'
}

/// The text is made of a scheme, `://` and something behind it.
pub open spec fn is_schemed(t: Seq<char>, scheme: Seq<char>, rest: Seq<char>) -> bool {
    &&& t == scheme + seq![':', '/', '/'] + rest
    &&& scheme.len() >= 2
    &&& rest.len() > 0
    &&& forall|i: int| 0 <= i < scheme.len() ==> spells_schemes(#[trigger] scheme[i])
}

/// The text ends in a dot and a short extension without dots.
pub open spec fn is_dotted(t: Seq<char>, name: Seq<char>, extension: Seq<char>) -> bool {
    &&& t == name + seq!['.'] + extension
    &&& !extension.contains('.')
    &&& 1 <= encode_utf8(extension).len() <= 8
}

/// A token is an address if and only if it is made of a scheme of two characters at least, `://` and
/// something behind it. Any other of two bytes at least is a path if and only if it has a slash, begins
/// with a tilde or a dot, or ends in a dot and an extension of one to eight bytes.
pub proof fn lemma_kinds_of_tokens(t: Seq<char>)
    ensures
        token_kind(t) == Some(HitKind::Url) <==> exists|scheme: Seq<char>, rest: Seq<char>| #[trigger]
            is_schemed(t, scheme, rest),
        token_kind(t) == Some(HitKind::Path) <==> {
            &&& encode_utf8(t).len() >= 2
            &&& token_kind(t) != Some(HitKind::Url)
            &&& t.contains('/') || t[0] == '~' || t[0] == '.' || exists|
                name: Seq<char>,
                extension: Seq<char>,
            | #[trigger] is_dotted(t, name, extension)
        },
        token_kind(t) != Some(HitKind::Osc8),
{
    reveal_strlit("~");
    reveal_strlit(".");
    lemma_scheme_found(t);
    lemma_extension_found(t);
    if encode_utf8(t).len() >= 2 {
        if t.len() == 0 {
            assert(t =~= Seq::<char>::empty());
            assert(encode_utf8(t).len() == 0);
        }
        if t[0] == '~' {
            assert(t.take(1) =~= "~"@);
        } else if begins(t, "~"@) {
            assert(t.take(1)[0] == '~');
        }
        if t[0] == '.' {
            assert(t.take(1) =~= "."@);
        } else if begins(t, "."@) {
            assert(t.take(1)[0] == '.');
        }
    }
    if exists|scheme: Seq<char>, rest: Seq<char>| #[trigger] is_schemed(t, scheme, rest) {
        lemma_bytes_at_least(t);
    }
}

proof fn lemma_bytes_at_least(t: Seq<char>)
    ensures
        encode_utf8(t).len() >= t.len(),
    decreases t.len(),
{
    if t.len() > 0 {
        lemma_bytes_at_least(t.drop_first());
        assert(encode_scalar(t[0] as u32).len() >= 1);
        assert(encode_utf8(t).len() == encode_scalar(t[0] as u32).len() + encode_utf8(
            t.drop_first(),
        ).len());
    }
}

proof fn lemma_scheme_character(c: char)
    ensures
        spells_schemes(c) <==> is_scheme_mark(c),
{
}

proof fn lemma_scheme_found(t: Seq<char>)
    ensures
        has_scheme(t) <==> exists|scheme: Seq<char>, rest: Seq<char>| #[trigger]
            is_schemed(t, scheme, rest),
{
    reveal_strlit("://");
    let pat = seq![':', '/', '/'];
    assert("://"@ =~= pat);
    lemma_find_from(t, pat, 0);
    if has_scheme(t) {
        let i = find(t, pat)->0;
        assert(t.subrange(i, i + 3) =~= pat);
        let scheme = t.take(i);
        let rest = t.skip(i + 3);
        assert(t =~= scheme + pat + rest);
        assert forall|j: int| 0 <= j < scheme.len() implies spells_schemes(#[trigger] scheme[j]) by {
            let c = t[j];
            assert(scheme[j] == c);
            assert(is_scheme_mark(c));
            lemma_scheme_character(c);
        }
        assert(is_schemed(t, scheme, rest));
    }
    if exists|scheme: Seq<char>, rest: Seq<char>| #[trigger] is_schemed(t, scheme, rest) {
        let (scheme, rest) = choose|scheme: Seq<char>, rest: Seq<char>| #[trigger]
            is_schemed(t, scheme, rest);
        let n = scheme.len() as int;
        assert(t.subrange(n, n + 3) =~= pat);
        assert(occurs_at(t, pat, n));
        let i = find(t, pat)->0;
        assert forall|j: int| 0 <= j < n implies is_scheme_mark(#[trigger] t[j]) by {
            assert(t[j] == scheme[j]);
        }
        if i < n {
            assert(t.subrange(i, i + 3)[0] == t[i]);
            assert(scheme[i] == ':');
        }
    }
}

proof fn lemma_extension_found(t: Seq<char>)
    ensures
        has_extension(t) <==> exists|name: Seq<char>, extension: Seq<char>| #[trigger]
            is_dotted(t, name, extension),
{
    lemma_rfind_char(t, '.');
    if has_extension(t) {
        let i = rfind_char(t, '.')->0;
        let name = t.take(i);
        let extension = t.skip(i + 1);
        assert(t =~= name + seq!['.'] + extension);
        if extension.contains('.') {
            let k = extension.index_of('.');
            assert(t[i + 1 + k] == '.');
        }
        assert(is_dotted(t, name, extension));
    }
    if exists|name: Seq<char>, extension: Seq<char>| #[trigger] is_dotted(t, name, extension) {
        let (name, extension) = choose|name: Seq<char>, extension: Seq<char>| #[trigger]
            is_dotted(t, name, extension);
        let n = name.len() as int;
        assert(t[n] == '.');
        let i = rfind_char(t, '.')->0;
        if i > n {
            assert(t[i] == extension[i - n - 1]);
            assert(extension.contains('.'));
        }
        assert(i == n);
        assert(t.skip(n + 1) =~= extension);
    }
}

/// Besides letters and numbers of any script, what a token is made of are `# % & ( ) + - . / : = ? @ [
/// ] _ ~`. Of ASCII no other character is.
pub proof fn lemma_characters_of_tokens(c: char)
    ensures
        is_token_mark(c) <==> set![
            35u32,
            37,
            38,
            40,
            41,
            43,
            45,
            46,
            47,
            58,
            61,
            63,
            64,
            91,
            93,
            95,
            126,
        ].contains(c as u32),
        is_token_mark(c) ==> is_token(c),
        is_token(c) ==> is_token_mark(c) || unicode_alphanumeric(c),
{
}

/// An address behind `file://` and a host has the path from the first slash on; without a slash there,
/// or without `file://` at its beginning, it has none.
pub proof fn lemma_path_of_a_file_address(host: Seq<char>, path: Seq<char>, other: Seq<char>)
    requires
        !host.contains('/'),
    ensures
        file_url_tail("file://"@ + host + seq!['/'] + path) == Some(seq!['/'] + path),
        file_url_tail("file://"@ + host) is None,
        !("file://"@.is_prefix_of(other)) ==> file_url_tail(other) is None,
{
    reveal_strlit("file://");
    let s = "file://"@ + host + seq!['/'] + path;
    assert(s.take(7) =~= "file://"@);
    let t = s.skip(7);
    assert(t =~= host + seq!['/'] + path);
    lemma_find_slash(t);
    lemma_find_from(t, "/"@, 0);
    reveal_strlit("/");
    let n = host.len() as int;
    assert(t[n] == '/');
    assert(t.subrange(n, n + 1) =~= "/"@);
    assert(occurs_at(t, "/"@, n));
    let i = find(t, "/"@)->0;
    if i < n {
        assert(host[i] == '/');
    }
    assert(s.skip(7 + n) =~= seq!['/'] + path);
    let u = "file://"@ + host;
    assert(u.take(7) =~= "file://"@);
    assert(u.skip(7) =~= host);
    lemma_find_slash(host);
    if begins(other, "file://"@) {
        assert(other =~= "file://"@ + other.skip(7));
        assert("file://"@.is_prefix_of(other));
    }
}

/// What stands before the first `://` tells what an address is: one of the four well-known schemes makes
/// a web address; `file` makes a path, if a slash comes behind; anything else makes a hyperlink; and
/// without `://` it is a path.
pub proof fn lemma_kinds_of_addresses(scheme: Seq<char>, rest: Seq<char>, other: Seq<char>)
    requires
        !scheme.contains(':'),
        forall|k: int| !occurs_at(other, "://"@, k),
    ensures
        url_kind(other) == HitKind::Path,
        ({
            let kind = url_kind(scheme + "://"@ + rest);
            &&& scheme == "http"@ || scheme == "https"@ || scheme == "mailto"@ || scheme == "ftp"@
                ==> kind == HitKind::Url
            &&& scheme == "file"@ && rest.contains('/') ==> kind == HitKind::Path
            &&& scheme == "file"@ && !rest.contains('/') ==> kind == HitKind::Osc8
            &&& scheme != "http"@ && scheme != "https"@ && scheme != "mailto"@ && scheme != "ftp"@
                && scheme != "file"@ ==> kind == HitKind::Osc8
        }),
{
    let t = scheme + "://"@ + rest;
    lemma_first_colon(scheme, rest);
    lemma_well_known_schemes();
    lemma_find_from(other, "://"@, 0);
    lemma_file_scheme(other);
    lemma_file_scheme(t);
    lemma_file_address(rest);
    lemma_find_slash(rest);
    assert(t.take(scheme.len() as int) =~= scheme);
    if begins(t, "file://"@) {
        lemma_find_from(t, "://"@, 0);
        assert(scheme.len() <= 4);
        lemma_file_colon(t, scheme.len() as int);
    }
}

proof fn lemma_file_colon(t: Seq<char>, i: int)
    requires
        begins(t, "file://"@),
        occurs_at(t, "://"@, i),
        i <= 4,
    ensures
        i == 4,
        t.take(4) == "file"@,
{
    reveal_strlit("://");
    reveal_strlit("file");
    reveal_strlit("file://");
    assert(t.subrange(i, i + 3)[0] == t[i]);
    assert(t[i] == t.take(7)[i]);
    assert(t.take(4) =~= t.take(7).take(4));
    assert("file://"@.take(4) =~= "file"@);
}

proof fn lemma_file_address(rest: Seq<char>)
    ensures
        begins("file"@ + "://"@ + rest, "file://"@),
        ("file"@ + "://"@ + rest).skip(7) == rest,
{
    reveal_strlit("://");
    reveal_strlit("file");
    reveal_strlit("file://");
    let t = "file"@ + "://"@ + rest;
    assert(t.take(7) =~= "file://"@);
    assert(t.skip(7) =~= rest);
}

proof fn lemma_well_known_schemes()
    ensures
        "file"@ != "http"@,
        "file"@ != "https"@,
        "file"@ != "mailto"@,
        "file"@ != "ftp"@,
{
    reveal_strlit("file");
    reveal_strlit("http");
    reveal_strlit("https");
    reveal_strlit("mailto");
    reveal_strlit("ftp");
    assert("file"@[0] == 'f' && "http"@[0] == 'h');
    assert("file"@.len() == 4 && "https"@.len() == 5 && "mailto"@.len() == 6 && "ftp"@.len() == 3);
}

/// A scheme without a colon ends at the first `://`.
proof fn lemma_first_colon(scheme: Seq<char>, rest: Seq<char>)
    requires
        !scheme.contains(':'),
    ensures
        find(scheme + "://"@ + rest, "://"@) == Some(scheme.len() as int),
        occurs_at(scheme + "://"@ + rest, "://"@, scheme.len() as int),
{
    reveal_strlit("://");
    let pat = "://"@;
    let t = scheme + pat + rest;
    lemma_find_from(t, pat, 0);
    let n = scheme.len() as int;
    assert(t.subrange(n, n + 3) =~= pat);
    assert(occurs_at(t, pat, n));
    let i = find(t, pat)->0;
    if i < n {
        assert(t.subrange(i, i + 3)[0] == t[i]);
        assert(scheme[i] == ':');
    }
}

proof fn lemma_file_scheme(t: Seq<char>)
    ensures
        begins(t, "file://"@) ==> occurs_at(t, "://"@, 4),
{
    reveal_strlit("://");
    reveal_strlit("file://");
    if begins(t, "file://"@) {
        assert(t.subrange(4, 7) =~= t.take(7).subrange(4, 7));
        assert("file://"@.subrange(4, 7) =~= "://"@);
    }
}

/// A path can be taken from, or stands by itself, if it begins with a slash or a tilde.
pub proof fn lemma_usable_paths(c: char, rest: Seq<char>)
    ensures
        usable_cwd(seq![c] + rest) <==> c == '/' || c == '~',
        !usable_cwd(Seq::empty()),
{
    reveal_strlit("/");
    reveal_strlit("~");
    let s = seq![c] + rest;
    assert(s.take(1) =~= seq![c]);
    assert("/"@ =~= seq!['/']);
    assert("~"@ =~= seq!['~']);
    assert(seq![c][0] == c);
    assert("/"@[0] == '/' && "~"@[0] == '~');
}

/// What is found is the first zero: there is none before it, and none at all where nothing is found.
pub proof fn lemma_first_zero_is_first(b: Seq<u8>)
    ensures
        match first_zero(b) {
            Some(i) => 0 <= i < b.len() && b[i] == 0 && forall|j: int| 0 <= j < i ==> #[trigger] b[j] != 0,
            None => !b.contains(0u8),
        },
    decreases b.len(),
{
    if b.len() > 0 && b[0] != 0 {
        let rest = b.drop_first();
        lemma_first_zero_is_first(rest);
        if let Some(i) = first_zero(rest) {
            assert forall|j: int| 0 <= j < i + 1 implies #[trigger] b[j] != 0 by {
                if j > 0 {
                    assert(rest[j - 1] != 0);
                }
            }
        } else if b.contains(0u8) {
            let k = b.index_of(0u8);
            assert(rest[k - 1] == 0);
        }
    }
}

/// The working directory of a click is what the shell told, as a path, where that begins with a slash or
/// a tilde; else that of the process, whatever was told; else nothing.
pub proof fn lemma_directory_of_a_click(told: Option<&str>, process: Option<&str>, r: String)
    requires
        call_ensures(click_cwd, (told, process), r),
    ensures
        told matches Some(t) ==> as_cwd(t@).len() > 0 ==> (as_cwd(t@)[0] == '/' || as_cwd(t@)[0] == '~')
            ==> r@ == as_cwd(t@),
        told is None ==> process is None ==> r@.len() == 0,
        told is None ==> (process matches Some(p) ==> r@ == p@),
        told matches Some(t) ==> (as_cwd(t@).len() == 0 || as_cwd(t@)[0] != '/' && as_cwd(t@)[0] != '~')
            ==> process is None ==> r@.len() == 0,
        told matches Some(t) ==> (as_cwd(t@).len() == 0 || as_cwd(t@)[0] != '/' && as_cwd(t@)[0] != '~')
            ==> (process matches Some(p) ==> r@ == p@),
{
    if let Some(t) = told {
        let d = as_cwd(t@);
        if d.len() > 0 {
            lemma_usable_paths(d[0], d.skip(1));
            assert(seq![d[0]] + d.skip(1) =~= d);
        } else {
            lemma_usable_paths(' ', d);
            assert(d =~= Seq::<char>::empty());
        }
    }
}

/// A click in the cells is noted with its place and its modifiers, whatever was noted before; one outside
/// them leaves what was noted.
pub proof fn lemma_click_is_noted(slot: &mut Option<Click>, pane: u32, cell: Option<(u32, u32)>, mods: u32)
    requires
        call_ensures(click_begin, (slot, pane, cell, mods), ()),
    ensures
        cell is None ==> *final(slot) == *old(slot),
        cell is Some ==> *final(slot) is Some && final(slot)->0.pane == pane && final(slot)->0.row
            == (cell->0).0 && final(slot)->0.col == (cell->0).1,
        cell is Some ==> (with_cmd(final(slot)->0.modifiers@) <==> mods & 8 != 0),
{
    crate::plugins::keys::lemma_modifiers_of_bits(mods);
}

/// Once a click ended none is left. It is told of just where it was in this pane and had the command key,
/// and then as it was noted.
pub proof fn lemma_click_ends_once(slot: &mut Option<Click>, pane: u32, r: Option<Click>)
    requires
        call_ensures(click_end, (slot, pane), r),
    ensures
        *final(slot) is None,
        *old(slot) is None ==> r is None,
        *old(slot) matches Some(c) ==> (r is Some <==> c.pane == pane && c.modifiers@.contains(
            Modifier::Cmd,
        )),
        r is Some ==> r == *old(slot),
{
}

/// What is opened is told at the click, where there is one, in the click's own pane; else at the first
/// cell of the pane. An address with a path is told as that path, any other as it stands.
pub proof fn lemma_opened_at_the_click(slot: &mut Option<Click>, pane: u32, url: &str, r: Found)
    requires
        call_ensures(handle_open_url, (slot, pane, url), r),
    ensures
        *final(slot) is None,
        *old(slot) matches Some(c) ==> r.row == c.row && r.col == c.col && r.pane == c.pane && r.modifiers
            == c.modifiers,
        *old(slot) is None ==> r.row == 0 && r.col == 0 && r.pane == pane && r.modifiers@.len() == 0,
        file_url_tail(url@) is Some ==> r.kind == HitKind::Path,
        file_url_tail(url@) is None ==> r.text@ == url@,
        r.kind == url_kind(url@),
{
}

/// What is told of a click on a cell is about that cell, and of a run of characters that paths are made
/// of around it: all of them, and none beside them. What is an address to a file is told as its path.
pub proof fn lemma_what_a_cell_tells(
    line: &str,
    row: u32,
    col: u32,
    pane: u32,
    modifiers: Vec<Modifier>,
    r: Option<Found>,
    lo: int,
    hi: int,
)
    requires
        call_ensures(handle_grid_hit, (line, row, col, pane, modifiers), r),
        0 <= lo <= col < hi <= line@.len(),
        forall|i: int| lo <= i < hi ==> is_token(#[trigger] line@[i]),
        lo > 0 ==> !is_token(line@[lo - 1]),
        hi < line@.len() ==> !is_token(line@[hi]),
    ensures
        r is Some <==> token_kind(line@.subrange(lo, hi)) is Some,
        r matches Some(f) ==> f.row == row && f.col == col && f.pane == pane && f.modifiers == modifiers,
        r matches Some(f) ==> file_url_tail(line@.subrange(lo, hi)) is None ==> Some(f.kind) == token_kind(
            line@.subrange(lo, hi),
        ) && f.text@ == line@.subrange(lo, hi),
        r matches Some(f) ==> file_url_tail(line@.subrange(lo, hi)) is Some ==> f.kind == HitKind::Path,
{
    let marks = token_marks(line@);
    assert(is_run(marks, lo, hi)) by {
        assert forall|i: int| lo <= i < hi implies #[trigger] marks[i] by {
            assert(is_token(line@[i]));
        }
    }
    assert forall|a: int, b: int| #[trigger] is_run(marks, a, b) && a <= col < b implies a == lo && b == hi by {
        lemma_one_run(marks, (a, b), (lo, hi), col as int);
    }
    assert(is_token(line@[col as int]));
}

/// The hit that is told has the number, the directory and all that was found.
pub proof fn lemma_hit_tells_all(id: u64, found: Found, cwd: String, h: Hit)
    requires
        call_ensures(hit_of, (id, found, cwd), h),
    ensures
        h == (Hit {
            id,
            kind: found.kind,
            text: found.text,
            cwd,
            row: found.row,
            col: found.col,
            pane: found.pane,
            modifiers: found.modifiers,
        }),
{
}

/// An address is opened as it stands, whether it is there or not. A path is opened only if it is there: as
/// it stands where it begins with a slash or a tilde, else from the directory, and not at all without one.
pub proof fn lemma_what_is_opened(kind: HitKind, text: &str, cwd: &str, r: Option<(String, bool)>)
    requires
        call_ensures(default_open, (kind, text, cwd), r),
    ensures
        kind != HitKind::Path ==> r is Some && (r->0).0@ == text@ && !(r->0).1,
        kind == HitKind::Path && r is Some ==> (r->0).1,
        kind == HitKind::Path && text@.len() > 0 && (text@[0] == '/' || text@[0] == '~') ==> r is Some
            && (r->0).0@ == text@,
        kind == HitKind::Path && (text@.len() == 0 || text@[0] != '/' && text@[0] != '~') && cwd@.len() > 0
            ==> r is Some && (r->0).0@ == pushed(cwd@, text@),
        kind == HitKind::Path && (text@.len() == 0 || text@[0] != '/' && text@[0] != '~') && cwd@.len() == 0
            ==> r is None,
{
    let d = text@;
    if d.len() > 0 {
        lemma_usable_paths(d[0], d.skip(1));
        assert(seq![d[0]] + d.skip(1) =~= d);
    } else {
        lemma_usable_paths(' ', d);
        assert(d =~= Seq::<char>::empty());
    }
}

/// The memory of a process is the number in eight bytes from the seventy-second on, the lowest first.
pub proof fn lemma_memory_in_its_place(info: &[u8; 512], r: u64, k: int)
    requires
        call_ensures(footprint_in, (info,), r),
        0 <= k < 8,
    ensures
        r as int / pow256(k as nat) % 256 == info@[72 + k],
{
    reveal_with_fuel(number_at, 9);
    reveal_with_fuel(pow256, 9);
    let b = info@;
    let n = number_at(b, 72, 8);
    lemma_byte_of_number(b, 72, 8, k);
}

/// A power of 256.
pub open spec fn pow256(k: nat) -> int
    decreases k,
{
    if k == 0 {
        1
    } else {
        256 * pow256((k - 1) as nat)
    }
}

proof fn lemma_byte_of_number(b: Seq<u8>, at: int, n: nat, k: int)
    requires
        0 <= k < n,
    ensures
        number_at(b, at, n) as int / pow256(k as nat) % 256 == b[at + k],
    decreases n,
{
    let rest = number_at(b, at + 1, (n - 1) as nat) as int;
    let all = number_at(b, at, n) as int;
    assert(all == b[at] as int + 256 * rest);
    if k == 0 {
        assert(pow256(0) == 1);
        assert(all / 1 == all);
        assert(all % 256 == b[at]);
    } else {
        lemma_byte_of_number(b, at + 1, (n - 1) as nat, k - 1);
        let p = pow256((k - 1) as nat);
        assert(pow256(k as nat) == 256 * p);
        lemma_positive_power((k - 1) as nat);
        assert(all / 256 == rest);
        vstd::arithmetic::div_mod::lemma_div_denominator(all, 256, p);
    }
}

proof fn lemma_positive_power(k: nat)
    ensures
        pow256(k) > 0,
    decreases k,
{
    if k > 0 {
        lemma_positive_power((k - 1) as nat);
    }
}

} // verus!
