//! What the system's default handler is asked to open when no plugin takes a click.

use vstd::prelude::*;
use vstd::string::*;

use crate::link::{strip_line_col, without_line_col};
use crate::protocol::HitKind;
use crate::text::{
    begins, chars_of, find, lemma_find_from, occurs_at, opt_text, position, same_text, starts,
};
use crate::url::{lemma_plain_text, percent_decode_strict, strict_text};

verus! {

/// What to hand to the default handler.
#[derive(Clone, Debug, PartialEq)]
pub enum OpenTarget {
    /// An address, as it stands.
    Address(String),
    /// A file, by its absolute path.
    File(String),
}

/// The path that a `file://host/path` address names: what follows the host, its escapes replaced.
pub open spec fn osc7_path(uri: Seq<char>) -> Option<Seq<char>> {
    if !begins(uri, "file://"@) {
        None
    } else {
        match find(uri.skip(7), "/"@) {
            Some(i) => match strict_text(uri.skip(7 + i)) {
                Some(p) if begins(p, "/"@) => Some(p),
                _ => None,
            },
            None => None,
        }
    }
}

/// The path of the working directory that the shell reported as `uri`: `None` unless it is a
/// `file://` address with a path behind the host that decodes to text.
pub fn osc7_to_path(uri: &str) -> (path: Option<String>)
    ensures
        match path {
            Some(p) => osc7_path(uri@) == Some(p@),
            None => osc7_path(uri@) is None,
        },
{
    let v: Vec<char> = chars_of(uri);
    if !starts(&v, &chars_of("file://")) {
        return None;
    }
    let n: usize = v.len();
    proof {
        reveal_strlit("file://");
        reveal_strlit("/");
    }
    let rest: &str = uri.substring_char(7, n);
    assert(rest@ =~= uri@.skip(7));
    match position(&chars_of(rest), &chars_of("/")) {
        Some(i) => {
            proof {
                lemma_find_from(rest@, "/"@, 0);
            }
            let m: usize = rest.unicode_len();
            let path: &str = rest.substring_char(i, m);
            assert(path@ =~= uri@.skip(7 + i));
            match percent_decode_strict(path) {
                Some(p) => if starts(&chars_of(p.as_str()), &chars_of("/")) {
                    Some(p)
                } else {
                    None
                },
                None => None,
            }
        },
        None => None,
    }
}

/// `s` without the slashes at its end.
pub open spec fn without_slashes(s: Seq<char>) -> Seq<char>
    decreases s.len(),
{
    if s.len() > 0 && s.last() == '/' {
        without_slashes(s.drop_last())
    } else {
        s
    }
}

/// `base` and `rest` with exactly one slash between them.
pub open spec fn joined_path(base: Seq<char>, rest: Seq<char>) -> Seq<char> {
    without_slashes(base) + "/"@ + rest
}

/// `path` with a leading `~` or `~/` replaced by the home directory; another user's home is left
/// as it stands.
pub open spec fn tilde_expanded(path: Seq<char>, home: Seq<char>) -> Seq<char> {
    if path == "~"@ {
        home
    } else if begins(path, "~/"@) {
        joined_path(home, path.skip(2))
    } else {
        path
    }
}

/// `s` without the slashes at its end.
fn trim_slashes(s: &str) -> (out: &str)
    ensures
        out@ == without_slashes(s@),
{
    let v: Vec<char> = chars_of(s);
    let mut n: usize = v.len();
    assert(v@.take(n as int) =~= s@);
    while n > 0 && v[n - 1] == '/'
        invariant
            n <= v@.len(),
            v@ == s@,
            without_slashes(s@) == without_slashes(v@.take(n as int)),
        decreases n,
    {
        assert(v@.take(n as int).drop_last() =~= v@.take(n - 1));
        n -= 1;
    }
    assert(s@.subrange(0, n as int) =~= v@.take(n as int));
    s.substring_char(0, n)
}

/// `base` and `rest` with exactly one slash between them.
fn join_path(base: &str, rest: &str) -> (out: String)
    ensures
        out@ == joined_path(base@, rest@),
{
    trim_slashes(base).to_owned().concat("/").concat(rest)
}

/// `path` with a leading `~` or `~/` replaced by the home directory.
pub fn expand_tilde_home(path: &str, home: &str) -> (out: String)
    ensures
        out@ == tilde_expanded(path@, home@),
{
    if same_text(path, "~") {
        return home.to_owned();
    }
    if starts(&chars_of(path), &chars_of("~/")) {
        proof {
            reveal_strlit("~/");
        }
        let n: usize = path.unicode_len();
        let rest: &str = path.substring_char(2, n);
        assert(rest@ =~= path@.skip(2));
        return join_path(home, rest);
    }
    path.to_owned()
}

/// `path` with its tilde replaced, where there is a home directory.
pub open spec fn expanded_with(path: Seq<char>, home: Option<Seq<char>>) -> Seq<char> {
    match home {
        Some(h) => tilde_expanded(path, h),
        None => path,
    }
}

/// `path` with its tilde replaced, where there is a home directory.
pub fn expand_tilde_with(path: &str, home: Option<&str>) -> (out: String)
    ensures
        out@ == expanded_with(
            path@,
            match home {
                Some(h) => Some(h@),
                None => None,
            },
        ),
{
    match home {
        Some(h) => expand_tilde_home(path, h),
        None => path.to_owned(),
    }
}

/// The absolute path that a clicked path means: line and column cut off, `~` replaced, and a
/// relative path taken from the working directory or, where none was reported, from the home
/// directory. `None` for a relative path without such a base.
pub open spec fn absolute(
    text: Seq<char>,
    pwd: Option<Seq<char>>,
    home: Option<Seq<char>>,
) -> Option<Seq<char>> {
    let p = expanded_with(without_line_col(text), home);
    if begins(p, "/"@) {
        Some(p)
    } else {
        let base = if pwd is Some {
            pwd
        } else {
            home
        };
        match base {
            Some(b) if b.len() > 0 => Some(joined_path(b, p)),
            _ => None,
        }
    }
}

/// The absolute path of the file that a clicked path means.
pub fn file_url_of_path(text: &str, pwd: Option<&str>, home: Option<&str>) -> (path: Option<String>)
    ensures
        match path {
            Some(p) => absolute(text@, opt_text(pwd), opt_text(home)) == Some(p@),
            None => absolute(text@, opt_text(pwd), opt_text(home)) is None,
        },
{
    let expanded: String = expand_tilde_with(strip_line_col(text), home);
    if starts(&chars_of(expanded.as_str()), &chars_of("/")) {
        return Some(expanded);
    }
    let base: Option<&str> = match pwd {
        Some(p) => Some(p),
        None => home,
    };
    match base {
        Some(b) => if b.is_empty() {
            None
        } else {
            Some(join_path(b, expanded.as_str()))
        },
        None => None,
    }
}

/// What the default handler opens for a click on `text`: addresses as they stand, paths made
/// absolute.
pub fn open_hit_target(
    kind: HitKind,
    text: &str,
    pwd: Option<&str>,
    home: Option<&str>,
) -> (target: Option<OpenTarget>)
    ensures
        match kind {
            HitKind::Url | HitKind::Osc8 => target matches Some(OpenTarget::Address(a)) && a@
                == text@,
            HitKind::Path => match absolute(text@, opt_text(pwd), opt_text(home)) {
                Some(p) => target matches Some(OpenTarget::File(f)) && f@ == p,
                None => target is None,
            },
        },
{
    match kind {
        HitKind::Url | HitKind::Osc8 => Some(OpenTarget::Address(text.to_owned())),
        HitKind::Path => match file_url_of_path(text, pwd, home) {
            Some(p) => Some(OpenTarget::File(p)),
            None => None,
        },
    }
}

/// `s` is `core` with slashes behind it, however many.
pub open spec fn slashes_behind(s: Seq<char>, core: Seq<char>) -> bool {
    &&& core.len() <= s.len()
    &&& s.take(core.len() as int) == core
    &&& forall|i: int| core.len() <= i < s.len() ==> #[trigger] s[i] == '/'
    &&& core.len() == 0 || core[core.len() - 1] != '/'
}

/// A directory loses the slashes behind it, and no more.
pub proof fn lemma_slashes_go(s: Seq<char>, core: Seq<char>)
    requires
        slashes_behind(s, core),
    ensures
        without_slashes(s) == core,
    decreases s.len(),
{
    if s.len() > core.len() {
        let init = s.drop_last();
        assert(s[s.len() - 1] == '/');
        assert(init.take(core.len() as int) =~= core);
        assert forall|i: int| core.len() <= i < init.len() implies #[trigger] init[i] == '/' by {
            assert(init[i] == s[i]);
        }
        lemma_slashes_go(init, core);
    } else {
        assert(s =~= core);
    }
}

/// A relative path is taken from the working directory that the shell reported, whatever the home
/// directory is; from the home directory only where none was reported; and from nowhere else. One slash
/// stands between the two. `text` is the path as it was clicked, with a line and a column or without.
pub proof fn lemma_relative_path(
    text: Seq<char>,
    path: Seq<char>,
    base: Seq<char>,
    core: Seq<char>,
    home: Option<Seq<char>>,
)
    requires
        without_line_col(text) == path,
        path.len() > 0 ==> path[0] != '/' && path[0] != '~',
        slashes_behind(base, core),
    ensures
        absolute(text, Some(base), home) == if base.len() > 0 {
            Some(core + seq!['/'] + path)
        } else {
            None
        },
        absolute(text, None, Some(base)) == if base.len() > 0 {
            Some(core + seq!['/'] + path)
        } else {
            None
        },
        absolute(text, None, None) is None,
{
    reveal_strlit("/");
    reveal_strlit("~/");
    reveal_strlit("~");
    lemma_slashes_go(base, core);
    assert("/"@ =~= seq!['/']);
    if begins(path, "/"@) {
        assert(path.take(1)[0] == '/');
    }
    if begins(path, "~/"@) {
        assert(path.take(2)[0] == '~');
    }
    if path == "~"@ {
        assert(path[0] == '~');
    }
}

/// A path that begins with a slash is opened as it stands, whatever the directories are.
pub proof fn lemma_absolute_path_stays(
    text: Seq<char>,
    path: Seq<char>,
    pwd: Option<Seq<char>>,
    home: Option<Seq<char>>,
)
    requires
        without_line_col(text) == path,
        path.len() > 0 && path[0] == '/',
    ensures
        absolute(text, pwd, home) == Some(path),
{
    reveal_strlit("/");
    reveal_strlit("~/");
    reveal_strlit("~");
    assert(path.take(1) =~= "/"@);
    if begins(path, "~/"@) {
        assert(path.take(2)[0] == '~');
    }
}

/// A tilde alone, or with a slash behind it, stands for the home directory; the rest of the path follows
/// it behind one slash. With anything else behind it, it stands for itself.
pub proof fn lemma_tilde_is_home(
    rest: Seq<char>,
    home: Seq<char>,
    core: Seq<char>,
    pwd: Option<Seq<char>>,
)
    requires
        slashes_behind(home, core),
    ensures
        tilde_expanded(seq!['~', '/'] + rest, home) == core + seq!['/'] + rest,
        tilde_expanded(seq!['~'], home) == home,
        rest.len() > 0 && rest[0] != '/' ==> tilde_expanded(seq!['~'] + rest, home) == seq!['~'] + rest,
        rest.len() > 0 && rest[0] != '~' ==> tilde_expanded(rest, home) == rest,
        expanded_with(seq!['~', '/'] + rest, None) == seq!['~', '/'] + rest,
        expanded_with(rest, Some(home)) == tilde_expanded(rest, home),
        home.len() > 0 && home[0] == '/' && without_line_col(seq!['~', '/'] + rest) == seq!['~', '/']
            + rest ==> absolute(seq!['~', '/'] + rest, pwd, Some(home)) == Some(
            core + seq!['/'] + rest,
        ),
{
    reveal_strlit("/");
    reveal_strlit("~/");
    reveal_strlit("~");
    lemma_slashes_go(home, core);
    assert("/"@ =~= seq!['/']);
    assert("~"@ =~= seq!['~']);
    let t = seq!['~', '/'] + rest;
    assert(t.take(2) =~= "~/"@);
    assert(t.skip(2) =~= rest);
    assert(t.len() >= 2);
    let u = seq!['~'] + rest;
    if rest.len() > 0 && rest[0] != '/' {
        if begins(u, "~/"@) {
            assert(u.take(2)[1] == '/');
        }
    }
    if rest.len() > 0 && rest[0] != '~' && begins(rest, "~/"@) {
        assert(rest.take(2)[0] == '~');
    }
    let full = core + seq!['/'] + rest;
    if home.len() > 0 && home[0] == '/' {
        if core.len() > 0 {
            assert(home.take(core.len() as int)[0] == home[0]);
        }
        assert(full[0] == '/');
        assert(full.take(1) =~= "/"@);
    }
}

/// The working directory that a shell reports with an address is what stands behind the host, from its
/// first slash on; where nothing in it is escaped, just as it stands. An address without a path, and
/// anything that is no such address, names none.
pub proof fn lemma_reported_directory(host: Seq<char>, path: Seq<char>, other: Seq<char>)
    requires
        !host.contains('/'),
        !path.contains('%'),
        other.len() < 7 || other.take(7) != seq!['f', 'i', 'l', 'e', ':', '/', '/'],
    ensures
        osc7_path(seq!['f', 'i', 'l', 'e', ':', '/', '/'] + host + seq!['/'] + path) == Some(
            seq!['/'] + path,
        ),
        osc7_path(seq!['f', 'i', 'l', 'e', ':', '/', '/'] + host) is None,
        osc7_path(other) is None,
{
    reveal_strlit("/");
    reveal_strlit("file://");
    let head = seq!['f', 'i', 'l', 'e', ':', '/', '/'];
    assert("file://"@ =~= head);
    let uri = head + host + seq!['/'] + path;
    let tail = seq!['/'] + path;
    assert(uri.take(7) =~= head);
    assert(uri.skip(7) =~= host + tail);
    lemma_find_from(host + tail, "/"@, 0);
    lemma_slash_at(host, tail);
    assert(uri.skip(7 + host.len() as int) =~= tail);
    assert(!tail.contains('%')) by {
        if tail.contains('%') {
            let i = tail.index_of('%');
            assert(i > 0 && path[i - 1] == '%');
        }
    }
    lemma_plain_text(tail);
    assert(tail.take(1) =~= "/"@);
    let bare = head + host;
    assert(bare.take(7) =~= head);
    assert(bare.skip(7) =~= host);
    lemma_find_from(host, "/"@, 0);
    if let Some(i) = find(host, "/"@) {
        assert(host.subrange(i, i + 1)[0] == '/');
        assert(host[i] == '/');
    }
}

proof fn lemma_slash_at(host: Seq<char>, tail: Seq<char>)
    requires
        !host.contains('/'),
        tail.len() > 0,
        tail[0] == '/',
    ensures
        find(host + tail, "/"@) == Some(host.len() as int),
{
    reveal_strlit("/");
    let s = host + tail;
    lemma_find_from(s, "/"@, 0);
    let n = host.len() as int;
    assert(s.subrange(n, n + 1) =~= "/"@);
    assert(occurs_at(s, "/"@, n));
    if let Some(i) = find(s, "/"@) {
        if i < n {
            assert(s.subrange(i, i + 1)[0] == s[i]);
            assert(host[i] == '/');
        }
    }
}

/// What is opened as a file is an absolute path.
pub proof fn lemma_absolute(text: Seq<char>, pwd: Seq<char>, home: Option<Seq<char>>)
    requires
        begins(pwd, "/"@),
    ensures
        absolute(text, Some(pwd), home) matches Some(p) && begins(p, "/"@),
{
    reveal_strlit("/");
    let p = expanded_with(without_line_col(text), home);
    if !begins(p, "/"@) {
        assert(pwd.take(1)[0] == '/');
        lemma_without_slashes(pwd);
        let j = joined_path(pwd, p);
        if without_slashes(pwd).len() > 0 {
            assert(j[0] == pwd[0]);
        } else {
            assert(j[0] == "/"@[0]);
        }
        assert(j.take(1) =~= "/"@);
    }
}

proof fn lemma_without_slashes(s: Seq<char>)
    ensures
        without_slashes(s).len() <= s.len(),
        without_slashes(s) == s.take(without_slashes(s).len() as int),
    decreases s.len(),
{
    if s.len() > 0 && s.last() == '/' {
        lemma_without_slashes(s.drop_last());
        let t = without_slashes(s);
        assert(s.drop_last().take(t.len() as int) =~= s.take(t.len() as int));
    } else {
        assert(s.take(s.len() as int) =~= s);
    }
}

/// An address is opened as it stands, a path as the absolute one that it means; a path that means none is
/// not opened.
pub proof fn lemma_what_a_click_opens(
    kind: HitKind,
    text: &str,
    pwd: Option<&str>,
    home: Option<&str>,
    r: Option<OpenTarget>,
    p: Option<String>,
)
    requires
        call_ensures(open_hit_target, (kind, text, pwd, home), r),
        call_ensures(file_url_of_path, (text, pwd, home), p),
    ensures
        kind != HitKind::Path ==> (r matches Some(OpenTarget::Address(a)) && a@ == text@),
        kind == HitKind::Path ==> (r is Some <==> p is Some),
        kind == HitKind::Path && r is Some ==> (r matches Some(OpenTarget::File(f)) && f@ == p->0@),
{
}

} // verus!
