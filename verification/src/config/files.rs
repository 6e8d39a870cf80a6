//! The terminal's configuration files: where they are, which others they refer to, and in which
//! order the generated layers go between them.

use vstd::prelude::*;
use vstd::string::*;

use crate::config::theme::{begins_at, skip_white};
use crate::config::theme::{host_layer, host_layer_text, odp_layer, odp_layer_text};
use crate::config::theme::{line_sets_theme, sets_theme};
use crate::text::{
    begins, chars_of, decimal, decimal_of, find, has_prefix, has_text, is_white, opt_text,
    same_text, string_of, texts, trim_start, white,
};

verus! {

/// The path `base` with the relative path `name` behind it.
pub open spec fn pushed(base: Seq<char>, name: Seq<char>) -> Seq<char> {
    if base.len() == 0 {
        name
    } else if base.last() == '/' {
        base + name
    } else {
        base + "/"@ + name
    }
}

/// The path `base` with the relative path `name` behind it.
pub fn push_path(base: &str, name: &str) -> (out: String)
    ensures
        out@ == pushed(base@, name@),
{
    if base.is_empty() {
        return name.to_owned();
    }
    let n: usize = base.unicode_len();
    if base.get_char(n - 1) == '/' {
        base.to_owned().concat(name)
    } else {
        base.to_owned().concat("/").concat(name)
    }
}

/// The directory for configuration files under the home directory.
pub open spec fn xdg_base(xdg: Option<Seq<char>>, home: Option<Seq<char>>) -> Option<Seq<char>> {
    match (xdg, home) {
        (Some(x), _) => Some(x),
        (None, Some(h)) => Some(pushed(h, ".config"@)),
        (None, None) => None,
    }
}

/// The two files under a base directory.
pub open spec fn two_files(base: Option<Seq<char>>, a: Seq<char>, b: Seq<char>) -> Seq<Seq<char>> {
    match base {
        Some(d) => seq![pushed(d, a), pushed(d, b)],
        None => Seq::empty(),
    }
}

/// The terminal's default configuration files, in the order they are read: those in the
/// configuration directory, then those in the application's own.
pub fn default_config_files(
    xdg_config_home: Option<&str>,
    home: Option<&str>,
    app_support: Option<&str>,
) -> (out: Vec<String>)
    ensures
        texts(out@) == two_files(
            xdg_base(opt_text(xdg_config_home), opt_text(home)),
            "ghostty/config"@,
            "ghostty/config.ghostty"@,
        ) + two_files(
            opt_text(app_support),
            "com.mitchellh.ghostty/config"@,
            "com.mitchellh.ghostty/config.ghostty"@,
        ),
{
    let mut out: Vec<String> = Vec::new();
    let base: Option<String> = match xdg_config_home {
        Some(x) => Some(x.to_owned()),
        None => match home {
            Some(h) => Some(push_path(h, ".config")),
            None => None,
        },
    };
    if let Some(d) = base {
        out.push(push_path(d.as_str(), "ghostty/config"));
        out.push(push_path(d.as_str(), "ghostty/config.ghostty"));
    }
    if let Some(d) = app_support {
        out.push(push_path(d, "com.mitchellh.ghostty/config"));
        out.push(push_path(d, "com.mitchellh.ghostty/config.ghostty"));
    }
    assert(texts(out@) =~= two_files(
        xdg_base(opt_text(xdg_config_home), opt_text(home)),
        "ghostty/config"@,
        "ghostty/config.ghostty"@,
    ) + two_files(
        opt_text(app_support),
        "com.mitchellh.ghostty/config"@,
        "com.mitchellh.ghostty/config.ghostty"@,
    ));
    out
}

/// `s` up to the first `c`, or all of it.
pub open spec fn until(s: Seq<char>, c: char) -> Seq<char>
    decreases s.len(),
{
    if s.len() == 0 || s[0] == c {
        Seq::empty()
    } else {
        seq![s[0]] + until(s.drop_first(), c)
    }
}

/// `s` up to the first white space, or all of it.
pub open spec fn word(s: Seq<char>) -> Seq<char>
    decreases s.len(),
{
    if s.len() == 0 || is_white(s[0]) {
        Seq::empty()
    } else {
        seq![s[0]] + word(s.drop_first())
    }
}

/// The value of an assignment: what stands in quotes, or else the first word; nothing where there
/// is none.
pub open spec fn assigned(s: Seq<char>) -> Option<Seq<char>> {
    if s.len() == 0 {
        None
    } else if s[0] == '"' {
        Some(until(s.skip(1), '"'))
    } else if s[0] == '\'' {
        Some(until(s.skip(1), '\''))
    } else {
        Some(word(s))
    }
}

/// The file that a line refers to with `config-file =`, if it does.
pub open spec fn referred(line: Seq<char>) -> Option<Seq<char>> {
    let t = trim_start(line);
    let rest = trim_start(t.skip(11));
    if begins(t, "config-file"@) && begins(rest, "="@) {
        assigned(trim_start(rest.skip(1)))
    } else {
        None
    }
}

/// The string of the characters from `from` up to the first `stop`, or up to the end.
fn take_until(v: &Vec<char>, from: usize, stop: char) -> (out: String)
    requires
        from <= v@.len(),
    ensures
        out@ == until(v@.skip(from as int), stop),
{
    let mut out: String = String::new();
    let mut i: usize = from;
    assert(out@ + until(v@.skip(from as int), stop) =~= until(v@.skip(from as int), stop));
    while i < v.len() && v[i] != stop
        invariant
            from <= i <= v@.len(),
            out@ + until(v@.skip(i as int), stop) == until(v@.skip(from as int), stop),
        decreases v@.len() - i,
    {
        let ghost was = out@;
        assert(v@.skip(i as int).drop_first() =~= v@.skip(i + 1));
        out.push(v[i]);
        i += 1;
        assert(out@ + until(v@.skip(i as int), stop) =~= was + until(v@.skip(i - 1), stop));
    }
    assert(out@ + Seq::<char>::empty() =~= out@);
    out
}

/// The string of the characters from `from` up to the first white space, or up to the end.
fn take_word(v: &Vec<char>, from: usize) -> (out: String)
    requires
        from <= v@.len(),
    ensures
        out@ == word(v@.skip(from as int)),
{
    let mut out: String = String::new();
    let mut i: usize = from;
    assert(out@ + word(v@.skip(from as int)) =~= word(v@.skip(from as int)));
    while i < v.len() && !white(v[i])
        invariant
            from <= i <= v@.len(),
            out@ + word(v@.skip(i as int)) == word(v@.skip(from as int)),
        decreases v@.len() - i,
    {
        let ghost was = out@;
        assert(v@.skip(i as int).drop_first() =~= v@.skip(i + 1));
        out.push(v[i]);
        i += 1;
        assert(out@ + word(v@.skip(i as int)) =~= was + word(v@.skip(i - 1)));
    }
    assert(out@ + Seq::<char>::empty() =~= out@);
    out
}

/// The file that a line of a configuration file refers to, if it does.
pub fn line_config_file(line: &str) -> (r: Option<String>)
    ensures
        match r {
            Some(s) => referred(line@) == Some(s@),
            None => referred(line@) is None,
        },
{
    let v: Vec<char> = chars_of(line);
    let n: usize = v.len();
    assert(v@.skip(0) =~= v@);
    let lo: usize = skip_white(&v, 0);
    if !begins_at(&v, lo, "config-file") {
        return None;
    }
    proof {
        reveal_strlit("config-file");
        reveal_strlit("=");
    }
    let from: usize = lo + 11;
    assert(v@.skip(lo as int).skip(11) =~= v@.skip(from as int));
    let eq: usize = skip_white(&v, from);
    if !begins_at(&v, eq, "=") {
        return None;
    }
    assert(eq < n);
    assert(v@.skip(eq as int).skip(1) =~= v@.skip(eq + 1));
    let at: usize = skip_white(&v, eq + 1);
    if at == n {
        return None;
    }
    assert(v@.skip(at as int)[0] == v@[at as int]);
    assert(v@.skip(at as int).skip(1) =~= v@.skip(at + 1));
    if v[at] == '"' {
        Some(take_until(&v, at + 1, '"'))
    } else if v[at] == '\'' {
        Some(take_until(&v, at + 1, '\''))
    } else {
        Some(take_word(&v, at))
    }
}

/// A line without the carriage return before its line feed.
pub open spec fn without_return(s: Seq<char>) -> Seq<char> {
    if s.len() > 0 && s.last() == '\r' {
        s.drop_last()
    } else {
        s
    }
}

/// The lines of a text, without their line ends.
pub open spec fn lines(s: Seq<char>) -> Seq<Seq<char>>
    decreases s.len(),
{
    if s.len() == 0 {
        Seq::empty()
    } else {
        match find(s, seq!['\n']) {
            Some(i) => if 0 <= i < s.len() {
                seq![without_return(s.take(i))] + lines(s.skip(i + 1))
            } else {
                Seq::empty()
            },
            None => seq![s],
        }
    }
}

/// The lines of a text, without their line ends.
pub fn split_lines(text: &str) -> (out: Vec<String>)
    ensures
        texts(out@) == lines(text@),
{
    let v: Vec<char> = chars_of(text);
    let n: usize = v.len();
    let mut out: Vec<String> = Vec::new();
    let mut from: usize = 0;
    assert(v@.skip(0) =~= v@);
    assert(texts(out@) =~= Seq::<Seq<char>>::empty());
    assert(texts(out@) + lines(v@) =~= lines(v@));
    while from < n
        invariant
            from <= n == v@.len(),
            texts(out@) + lines(v@.skip(from as int)) == lines(v@),
        decreases n - from,
    {
        let ghost rest = v@.skip(from as int);
        let ghost was = out@;
        let mut i: usize = from;
        assert(rest.skip(0) =~= rest);
        while i < n && v[i] != '\n'
            invariant
                from <= i <= n == v@.len(),
                rest == v@.skip(from as int),
                find(rest, seq!['\n']) == crate::text::find_from(rest, seq!['\n'], i - from),
            decreases n - i,
        {
            assert(rest.subrange(i - from, i - from + 1)[0] == v@[i as int]);
            i += 1;
        }
        if i == n {
            let line: String = string_of(&v, from, n);
            assert(line@ =~= rest);
            out.push(line);
            assert(texts(out@) =~= texts(was).push(rest));
            from = n;
            assert(v@.skip(n as int) =~= Seq::<char>::empty());
            assert(texts(out@) + lines(v@.skip(from as int)) =~= texts(was) + lines(rest));
        } else {
            assert(rest.subrange(i - from, i - from + 1) =~= seq!['\n']);
            assert(find(rest, seq!['\n']) == Some(i - from));
            let end: usize = if i > from && v[i - 1] == '\r' {
                i - 1
            } else {
                i
            };
            let line: String = string_of(&v, from, end);
            assert(line@ =~= without_return(rest.take(i - from)));
            out.push(line);
            assert(texts(out@) =~= texts(was).push(line@));
            assert(rest.skip(i - from + 1) =~= v@.skip(i + 1));
            from = i + 1;
            assert(texts(out@) + lines(v@.skip(from as int)) =~= texts(was) + lines(rest));
        }
    }
    assert(v@.skip(n as int) =~= Seq::<char>::empty());
    assert(texts(out@) + Seq::<Seq<char>>::empty() =~= texts(out@));
    out
}

/// The files that the lines refer to, in order.
pub open spec fn references(ls: Seq<Seq<char>>) -> Seq<Seq<char>>
    decreases ls.len(),
{
    if ls.len() == 0 {
        Seq::empty()
    } else {
        let before = references(ls.drop_last());
        match referred(ls.last()) {
            Some(p) => before.push(p),
            None => before,
        }
    }
}

/// The files that a configuration file refers to, in order.
pub fn config_references(text: &str) -> (out: Vec<String>)
    ensures
        texts(out@) == references(lines(text@)),
{
    let ls: Vec<String> = split_lines(text);
    let ghost all = texts(ls@);
    let mut out: Vec<String> = Vec::new();
    let mut i: usize = 0;
    assert(all.take(0) =~= Seq::<Seq<char>>::empty());
    assert(texts(out@) =~= Seq::<Seq<char>>::empty());
    while i < ls.len()
        invariant
            i <= ls@.len(),
            all == texts(ls@),
            texts(out@) == references(all.take(i as int)),
        decreases ls@.len() - i,
    {
        assert(all.take(i + 1).drop_last() =~= all.take(i as int));
        assert(all.take(i + 1).last() == ls@[i as int]@);
        let ghost was = out@;
        if let Some(p) = line_config_file(ls[i].as_str()) {
            out.push(p);
            assert(texts(out@) =~= texts(was).push(p@));
        }
        i += 1;
    }
    assert(all.take(i as int) =~= all);
    out
}

/// The path that a reference stands for in a file in the directory `dir`: a relative one is taken
/// from there.
pub open spec fn resolved(dir: Option<Seq<char>>, path: Seq<char>) -> Seq<char> {
    match dir {
        Some(d) if !begins(path, "/"@) => pushed(d, path),
        _ => path,
    }
}

/// The paths of the files that a text in the directory `dir` refers to, in order.
pub open spec fn children(dir: Option<Seq<char>>, text: Option<Seq<char>>) -> Seq<Seq<char>> {
    match text {
        Some(t) => references(lines(t)).map_values(|p: Seq<char>| resolved(dir, p)),
        None => Seq::empty(),
    }
}

/// The paths of the files that a text in the directory `dir` refers to, in order.
fn child_paths(dir: Option<&str>, text: &str) -> (out: Vec<String>)
    ensures
        texts(out@) == children(opt_text(dir), Some(text@)),
{
    let refs: Vec<String> = config_references(text);
    let mut out: Vec<String> = Vec::new();
    let ghost want = children(opt_text(dir), Some(text@));
    let mut i: usize = 0;
    while i < refs.len()
        invariant
            i <= refs@.len(),
            out@.len() == i,
            texts(refs@) == references(lines(text@)),
            want == children(opt_text(dir), Some(text@)),
            forall|j: int| 0 <= j < i ==> (#[trigger] out@[j])@ == want[j],
        decreases refs@.len() - i,
    {
        assert(texts(refs@)[i as int] == refs@[i as int]@);
        let absolute: bool = has_prefix(refs[i].as_str(), "/");
        let p: String = match dir {
            Some(d) => if absolute {
                refs[i].clone()
            } else {
                push_path(d, refs[i].as_str())
            },
            None => refs[i].clone(),
        };
        assert(p@ == want[i as int]);
        out.push(p);
        i += 1;
    }
    assert(texts(out@) =~= want);
    out
}

/// Some line sets the theme.
pub open spec fn any_sets_theme(ls: Seq<Seq<char>>) -> bool {
    exists|i: int| 0 <= i < ls.len() && sets_theme(#[trigger] ls[i])
}

/// Some text has a line that sets the theme.
pub open spec fn some_text_sets_theme(ts: Seq<Seq<char>>) -> bool {
    exists|i: int| 0 <= i < ts.len() && any_sets_theme(lines(#[trigger] ts[i]))
}

/// Whether any of the configuration files, given by their texts, sets the theme.
pub fn user_sets_theme(contents: &Vec<String>) -> (r: bool)
    ensures
        r == some_text_sets_theme(texts(contents@)),
{
    let ghost ts = texts(contents@);
    let mut i: usize = 0;
    while i < contents.len()
        invariant
            i <= contents@.len(),
            ts == texts(contents@),
            forall|j: int| 0 <= j < i ==> !any_sets_theme(lines(#[trigger] ts[j])),
        decreases contents@.len() - i,
    {
        let ls: Vec<String> = split_lines(contents[i].as_str());
        let ghost all = texts(ls@);
        assert(ts[i as int] == contents@[i as int]@);
        let mut k: usize = 0;
        while k < ls.len()
            invariant
                k <= ls@.len(),
                i < contents@.len(),
                ts == texts(contents@),
                all == texts(ls@),
                all == lines(ts[i as int]),
                forall|j: int| 0 <= j < k ==> !sets_theme(#[trigger] all[j]),
            decreases ls@.len() - k,
        {
            assert(all[k as int] == ls@[k as int]@);
            if line_sets_theme(ls[k].as_str()) {
                assert(any_sets_theme(lines(ts[i as int])));
                return true;
            }
            k += 1;
        }
        i += 1;
    }
    false
}

/// How far the search for all configuration files is: the paths still to be looked at, of which the
/// last one comes next; the real paths of the files found; and those files, in order, by the paths
/// they were reached by.
#[verifier::ext_equal]
pub struct Search {
    pub queue: Seq<Seq<char>>,
    pub seen: Seq<Seq<char>>,
    pub found: Seq<Seq<char>>,
}

/// What there is at a path: the file's real path, the directory that the path names, and the file's
/// text, where it could be read.
pub struct FileFact {
    pub canon: Seq<char>,
    pub dir: Option<Seq<char>>,
    pub text: Option<Seq<char>>,
}

/// The search once the file at a path was taken in: one that was found before is passed over; the
/// paths that another one refers to are to be looked at.
pub open spec fn taken_in(s: Search, path: Seq<char>, f: FileFact) -> Search {
    if s.seen.contains(f.canon) {
        s
    } else {
        Search {
            queue: s.queue + children(f.dir, f.text),
            seen: s.seen.push(f.canon),
            found: s.found.push(path),
        }
    }
}

/// The search once the next path was looked at; `fs` says what there is at a path, `None` where there
/// is no file.
pub open spec fn looked(fs: spec_fn(Seq<char>) -> Option<FileFact>, s: Search) -> Search {
    if s.queue.len() == 0 {
        s
    } else {
        let rest = Search { queue: s.queue.drop_last(), ..s };
        match fs(s.queue.last()) {
            Some(f) => taken_in(rest, s.queue.last(), f),
            None => rest,
        }
    }
}

/// The search once `n` paths were looked at.
pub open spec fn looked_times(
    fs: spec_fn(Seq<char>) -> Option<FileFact>,
    roots: Seq<Seq<char>>,
    n: nat,
) -> Search
    decreases n,
{
    if n == 0 {
        Search { queue: roots, seen: Seq::empty(), found: Seq::empty() }
    } else {
        looked(fs, looked_times(fs, roots, (n - 1) as nat))
    }
}

/// The file at `p` refers to the path `q`.
pub open spec fn refers(
    fs: spec_fn(Seq<char>) -> Option<FileFact>,
    p: Seq<char>,
    q: Seq<char>,
) -> bool {
    fs(p) matches Some(f) && children(f.dir, f.text).contains(q)
}

/// The paths lead from a root to `p`, each file referring to the next path.
pub open spec fn leads_to(
    fs: spec_fn(Seq<char>) -> Option<FileFact>,
    roots: Seq<Seq<char>>,
    way: Seq<Seq<char>>,
    p: Seq<char>,
) -> bool {
    &&& way.len() > 0
    &&& roots.contains(way[0])
    &&& way.last() == p
    &&& forall|i: int| 0 <= i < way.len() - 1 ==> refers(fs, #[trigger] way[i], way[i + 1])
}

/// Some paths lead from a root to `p`.
pub open spec fn is_reachable(
    fs: spec_fn(Seq<char>) -> Option<FileFact>,
    roots: Seq<Seq<char>>,
    p: Seq<char>,
) -> bool {
    exists|way: Seq<Seq<char>>| leads_to(fs, roots, way, p)
}

/// There is no file at the path, or it was found.
pub open spec fn is_done(
    fs: spec_fn(Seq<char>) -> Option<FileFact>,
    s: Search,
    p: Seq<char>,
) -> bool {
    fs(p) matches Some(f) ==> s.seen.contains(f.canon)
}

/// The path is to be looked at, or done with.
pub open spec fn is_minded(
    fs: spec_fn(Seq<char>) -> Option<FileFact>,
    s: Search,
    p: Seq<char>,
) -> bool {
    s.queue.contains(p) || is_done(fs, s, p)
}

/// There is the same file at two paths, or none at both.
pub open spec fn same_file(
    fs: spec_fn(Seq<char>) -> Option<FileFact>,
    p: Seq<char>,
    q: Seq<char>,
) -> bool {
    match (fs(p), fs(q)) {
        (Some(a), Some(b)) => a.canon == b.canon,
        (None, None) => true,
        _ => false,
    }
}

/// By whatever path a file is reached, it refers to the same files. This fails only where a link
/// leads to a file from another directory, and the file names others relative to its own.
pub open spec fn refers_alike(fs: spec_fn(Seq<char>) -> Option<FileFact>) -> bool {
    forall|p: Seq<char>, q: Seq<char>, c: Seq<char>|
        fs(p) is Some && #[trigger] same_file(fs, p, q) && #[trigger] refers(fs, p, c) ==> exists|
            d: Seq<char>,
        | #[trigger]
            refers(fs, q, d) && same_file(fs, c, d)
}

/// What holds of the search at every moment.
pub open spec fn is_on_the_way(
    fs: spec_fn(Seq<char>) -> Option<FileFact>,
    roots: Seq<Seq<char>>,
    s: Search,
) -> bool {
    &&& s.seen.no_duplicates()
    &&& s.seen.len() == s.found.len()
    &&& forall|i: int|
        0 <= i < s.found.len() ==> (fs(#[trigger] s.found[i]) matches Some(f) && f.canon
            == s.seen[i])
    &&& forall|i: int| 0 <= i < s.found.len() ==> is_reachable(fs, roots, #[trigger] s.found[i])
    &&& forall|i: int| 0 <= i < s.queue.len() ==> is_reachable(fs, roots, #[trigger] s.queue[i])
    &&& forall|r: Seq<char>| #[trigger] roots.contains(r) ==> is_minded(fs, s, r)
    &&& forall|i: int, c: Seq<char>|
        0 <= i < s.found.len() && #[trigger] refers(fs, s.found[i], c) ==> is_minded(fs, s, c)
}

proof fn lemma_root_is_reachable(
    fs: spec_fn(Seq<char>) -> Option<FileFact>,
    roots: Seq<Seq<char>>,
    p: Seq<char>,
)
    requires
        roots.contains(p),
    ensures
        is_reachable(fs, roots, p),
{
    assert(leads_to(fs, roots, seq![p], p));
}

proof fn lemma_referred_is_reachable(
    fs: spec_fn(Seq<char>) -> Option<FileFact>,
    roots: Seq<Seq<char>>,
    p: Seq<char>,
    q: Seq<char>,
)
    requires
        is_reachable(fs, roots, p),
        refers(fs, p, q),
    ensures
        is_reachable(fs, roots, q),
{
    let way = choose|way: Seq<Seq<char>>| leads_to(fs, roots, way, p);
    let on = way.push(q);
    assert forall|i: int| 0 <= i < on.len() - 1 implies refers(fs, #[trigger] on[i], on[i + 1]) by {
        if i < way.len() - 1 {
            assert(on[i] == way[i]);
            assert(on[i + 1] == way[i + 1]);
        } else {
            assert(on[i] == p);
        }
    }
    assert(on[0] == way[0]);
    assert(leads_to(fs, roots, on, q));
}

/// Looking at the next path keeps what holds of the search.
proof fn lemma_stays_on_the_way(
    fs: spec_fn(Seq<char>) -> Option<FileFact>,
    roots: Seq<Seq<char>>,
    s: Search,
)
    requires
        is_on_the_way(fs, roots, s),
    ensures
        is_on_the_way(fs, roots, looked(fs, s)),
{
    if s.queue.len() > 0 {
        let p = s.queue.last();
        let t = looked(fs, s);
        let rest = s.queue.drop_last();
        assert(s.queue[s.queue.len() - 1] == p);
        assert(is_reachable(fs, roots, p));
        assert forall|c: Seq<char>| s.seen.contains(c) implies #[trigger] t.seen.contains(c) by {
            let i = s.seen.index_of(c);
            assert(t.seen[i] == c);
        }
        if fs(p) is Some && !s.seen.contains(fs(p)->0.canon) {
            assert(t.seen[s.seen.len() as int] == fs(p)->0.canon);
        }
        assert(is_done(fs, t, p));
        assert forall|c: Seq<char>| #[trigger] is_minded(fs, s, c) implies is_minded(fs, t, c) by {
            if s.queue.contains(c) && c != p {
                let i = s.queue.index_of(c);
                assert(rest[i] == c);
                assert(t.queue[i] == c);
            }
        }
        assert forall|i: int| 0 <= i < t.queue.len() implies is_reachable(
            fs,
            roots,
            #[trigger] t.queue[i],
        ) by {
            if i < rest.len() {
                assert(t.queue[i] == s.queue[i]);
            } else {
                let f = fs(p)->0;
                let cs = children(f.dir, f.text);
                assert(t.queue[i] == cs[i - rest.len()]);
                assert(refers(fs, p, t.queue[i]));
                lemma_referred_is_reachable(fs, roots, p, t.queue[i]);
            }
        }
        assert forall|i: int| 0 <= i < t.found.len() implies (fs(#[trigger] t.found[i]) matches Some(
            f,
        ) && f.canon == t.seen[i]) && is_reachable(fs, roots, t.found[i]) by {
            if i < s.found.len() {
                assert(t.found[i] == s.found[i]);
                assert(t.seen[i] == s.seen[i]);
            }
        }
        assert forall|i: int, c: Seq<char>|
            0 <= i < t.found.len() && #[trigger] refers(fs, t.found[i], c) implies is_minded(
            fs,
            t,
            c,
        ) by {
            if i < s.found.len() {
                assert(t.found[i] == s.found[i]);
                assert(is_minded(fs, s, c));
            } else {
                let f = fs(p)->0;
                let cs = children(f.dir, f.text);
                let j = cs.index_of(c);
                assert(t.queue[rest.len() + j] == c);
            }
        }
    }
}

/// At every moment of a search, no file was found twice, and every path that was found leads to a
/// file and is one that the search can reach.
pub proof fn lemma_found_are_reachable(
    fs: spec_fn(Seq<char>) -> Option<FileFact>,
    roots: Seq<Seq<char>>,
    n: nat,
)
    ensures
        looked_times(fs, roots, n).seen.no_duplicates(),
        looked_times(fs, roots, n).seen.len() == looked_times(fs, roots, n).found.len(),
        forall|i: int|
            0 <= i < looked_times(fs, roots, n).found.len() ==> (fs(
                #[trigger] looked_times(fs, roots, n).found[i],
            ) matches Some(f) && f.canon == looked_times(fs, roots, n).seen[i]) && is_reachable(
                fs,
                roots,
                looked_times(fs, roots, n).found[i],
            ),
{
    lemma_search_is_on_the_way(fs, roots, n);
}

/// At every moment of a search, all that `is_on_the_way` says holds: what was found leads to different
/// files that can be reached, and every root and everything that a file found refers to is done with or
/// still to be looked at.
pub proof fn lemma_search_is_on_the_way(
    fs: spec_fn(Seq<char>) -> Option<FileFact>,
    roots: Seq<Seq<char>>,
    n: nat,
)
    ensures
        is_on_the_way(fs, roots, looked_times(fs, roots, n)),
    decreases n,
{
    if n == 0 {
        assert forall|i: int| 0 <= i < roots.len() implies is_reachable(
            fs,
            roots,
            #[trigger] roots[i],
        ) by {
            lemma_root_is_reachable(fs, roots, roots[i]);
        }
    } else {
        lemma_search_is_on_the_way(fs, roots, (n - 1) as nat);
        lemma_stays_on_the_way(fs, roots, looked_times(fs, roots, (n - 1) as nat));
    }
}

/// The real paths of all files are among `canons`, of which there is an end.
pub open spec fn holds_all_files(
    fs: spec_fn(Seq<char>) -> Option<FileFact>,
    canons: Set<Seq<char>>,
) -> bool {
    canons.finite() && forall|p: Seq<char>|
        (#[trigger] fs(p)) is Some ==> canons.contains(fs(p)->0.canon)
}

/// How many files were not found yet.
pub open spec fn unseen(canons: Set<Seq<char>>, s: Search) -> nat {
    canons.difference(s.seen.to_set()).len()
}

/// Looking at a path brings a search nearer to its end: a file more was found, or none and a path less
/// is to be looked at.
pub proof fn lemma_search_comes_nearer(
    fs: spec_fn(Seq<char>) -> Option<FileFact>,
    canons: Set<Seq<char>>,
    s: Search,
)
    requires
        holds_all_files(fs, canons),
        s.queue.len() > 0,
    ensures
        unseen(canons, looked(fs, s)) < unseen(canons, s) || unseen(canons, looked(fs, s)) == unseen(
            canons,
            s,
        ) && looked(fs, s).queue.len() < s.queue.len(),
{
    let p = s.queue.last();
    let t = looked(fs, s);
    if fs(p) is Some && !s.seen.contains(fs(p)->0.canon) {
        let c = fs(p)->0.canon;
        let before = canons.difference(s.seen.to_set());
        let after = canons.difference(t.seen.to_set());
        assert(canons.contains(c));
        assert(before.contains(c));
        assert forall|x: Seq<char>| #[trigger] t.seen.contains(x) <==> s.seen.contains(x) || x == c by {
            if s.seen.contains(x) {
                let i = s.seen.index_of(x);
                assert(t.seen[i] == x);
            }
            if x == c {
                assert(t.seen[s.seen.len() as int] == x);
            }
        }
        assert(after =~= before.remove(c));
    } else {
        assert(t.seen == s.seen);
    }
}

/// Every search comes to its end, whatever cycles there are in what the files refer to, provided that
/// there is an end to the files.
pub proof fn lemma_search_ends(
    fs: spec_fn(Seq<char>) -> Option<FileFact>,
    canons: Set<Seq<char>>,
    roots: Seq<Seq<char>>,
)
    requires
        holds_all_files(fs, canons),
    ensures
        exists|n: nat| (#[trigger] looked_times(fs, roots, n)).queue.len() == 0,
{
    lemma_search_ends_from(fs, canons, roots, 0);
}

proof fn lemma_search_ends_from(
    fs: spec_fn(Seq<char>) -> Option<FileFact>,
    canons: Set<Seq<char>>,
    roots: Seq<Seq<char>>,
    n: nat,
)
    requires
        holds_all_files(fs, canons),
    ensures
        exists|m: nat| (#[trigger] looked_times(fs, roots, m)).queue.len() == 0,
    decreases
        unseen(canons, looked_times(fs, roots, n)),
        looked_times(fs, roots, n).queue.len(),
{
    let s = looked_times(fs, roots, n);
    if s.queue.len() > 0 {
        lemma_search_comes_nearer(fs, canons, s);
        assert(looked_times(fs, roots, n + 1) == looked(fs, s));
        lemma_search_ends_from(fs, canons, roots, n + 1);
    }
}

/// At the end of a search, every file that can be reached was found, provided that a file refers to
/// the same files by whatever path it is reached.
pub proof fn lemma_all_are_found(
    fs: spec_fn(Seq<char>) -> Option<FileFact>,
    roots: Seq<Seq<char>>,
    n: nat,
    p: Seq<char>,
)
    requires
        refers_alike(fs),
        looked_times(fs, roots, n).queue.len() == 0,
        is_reachable(fs, roots, p),
    ensures
        fs(p) matches Some(f) ==> looked_times(fs, roots, n).seen.contains(f.canon),
{
    let s = looked_times(fs, roots, n);
    lemma_search_is_on_the_way(fs, roots, n);
    let way = choose|way: Seq<Seq<char>>| leads_to(fs, roots, way, p);
    lemma_way_is_done(fs, roots, s, way, way.len() - 1);
}

proof fn lemma_way_is_done(
    fs: spec_fn(Seq<char>) -> Option<FileFact>,
    roots: Seq<Seq<char>>,
    s: Search,
    way: Seq<Seq<char>>,
    k: int,
)
    requires
        refers_alike(fs),
        is_on_the_way(fs, roots, s),
        s.queue.len() == 0,
        leads_to(fs, roots, way, way.last()),
        0 <= k < way.len(),
    ensures
        is_done(fs, s, way[k]),
    decreases k,
{
    if k == 0 {
        assert(is_minded(fs, s, way[0]));
    } else {
        let q = way[k - 1];
        let c = way[k];
        lemma_way_is_done(fs, roots, s, way, k - 1);
        assert(refers(fs, way[k - 1], way[k - 1 + 1]));
        let i = s.seen.index_of(fs(q)->0.canon);
        let r = s.found[i];
        assert(same_file(fs, q, r));
        let d = choose|d: Seq<char>| #[trigger] refers(fs, r, d) && same_file(fs, c, d);
        assert(refers(fs, s.found[i], d));
        assert(is_minded(fs, s, d));
    }
}

/// The search for all configuration files: those still to be looked at, those looked at by their
/// real paths, and those found, by the paths they were reached by.
pub struct Collector {
    queue: Vec<String>,
    seen: Vec<String>,
    found: Vec<String>,
}

impl Collector {
    /// How far the search is.
    pub closed spec fn view(self) -> Search {
        Search {
            queue: texts(self.queue@),
            seen: texts(self.seen@),
            found: texts(self.found@),
        }
    }

    /// No file was found twice.
    pub open spec fn wf(self) -> bool {
        self@.seen.no_duplicates() && self@.seen.len() == self@.found.len()
    }

    /// A search that starts at these paths.
    pub fn new(roots: Vec<String>) -> (c: Collector)
        ensures
            c.wf(),
            c@ == (Search { queue: texts(roots@), seen: Seq::empty(), found: Seq::empty() }),
    {
        let c: Collector = Collector { queue: roots, seen: Vec::new(), found: Vec::new() };
        assert(c@ =~= Search { queue: texts(roots@), seen: Seq::empty(), found: Seq::empty() });
        c
    }

    /// The path to look at next, `None` at the end of the search.
    pub fn next(&mut self) -> (r: Option<String>)
        requires
            old(self).wf(),
        ensures
            final(self).wf(),
            match r {
                Some(p) => old(self)@.queue.len() > 0 && p@ == old(self)@.queue.last()
                    && final(self)@ == (Search {
                    queue: old(self)@.queue.drop_last(),
                    ..old(self)@
                }),
                None => old(self)@.queue.len() == 0 && final(self)@ == old(self)@,
            },
    {
        let ghost was = self.queue@;
        let r: Option<String> = self.queue.pop();
        if r.is_some() {
            assert(self@ =~= Search { queue: texts(was).drop_last(), ..old(self)@ });
        }
        r
    }

    /// Whether a file was found before, by its real path.
    pub fn is_seen(&self, canon: &str) -> (r: bool)
        ensures
            r == self@.seen.contains(canon@),
    {
        has_text(&self.seen, canon)
    }

    /// Takes in the file at `path`: `canon` is its real path, `dir` the directory that it is in,
    /// and `text` what it holds, where it could be read. The files that it refers to are to be
    /// looked at. A file that was found before is passed over.
    pub fn visit(&mut self, path: String, canon: String, dir: Option<&str>, text: Option<&str>)
        requires
            old(self).wf(),
        ensures
            final(self).wf(),
            final(self)@ == taken_in(
                old(self)@,
                path@,
                FileFact { canon: canon@, dir: opt_text(dir), text: opt_text(text) },
            ),
    {
        if self.is_seen(canon.as_str()) {
            return;
        }
        let ghost q = self.queue@;
        let ghost s = self.seen@;
        let ghost f = self.found@;
        let mut rest: Vec<String> = match text {
            Some(t) => child_paths(dir, t),
            None => Vec::new(),
        };
        let ghost added = rest@;
        assert(texts(added) =~= children(opt_text(dir), opt_text(text)));
        self.seen.push(canon);
        self.found.push(path);
        self.queue.append(&mut rest);
        proof {
            assert(texts(self.seen@) =~= texts(s).push(canon@));
            assert(texts(self.found@) =~= texts(f).push(path@));
            assert(texts(self.queue@) =~= texts(q) + texts(added));
            let all = texts(s).push(canon@);
            assert forall|i: int, j: int|
                0 <= i < all.len() && 0 <= j < all.len() && i != j implies all[i] != all[j] by {
                if i < s.len() {
                    assert(texts(s).contains(texts(s)[i]));
                }
                if j < s.len() {
                    assert(texts(s).contains(texts(s)[j]));
                }
            }
        }
    }

    /// The files found, in order.
    pub fn into_found(self) -> (out: Vec<String>)
        ensures
            texts(out@) == self@.found,
    {
        self.found
    }
}

/// The name of the layer with the host's own key.
pub const HOST_LAYER_FILE: &'static str = "host.conf";

/// The name of the layer with the default colours.
pub const ODP_LAYER_FILE: &'static str = "odp.conf";

/// The name of the layer with a plugin's colours.
pub const PLUGIN_THEME_LAYER_FILE: &'static str = "plugin-theme.conf";

/// What was decided when the configuration was loaded.
#[derive(Clone, Debug, PartialEq)]
pub struct LoadInfo {
    /// The user sets a theme.
    pub user_theme: bool,
    /// The default colours are loaded.
    pub odp_applied: bool,
    /// The name of the plugin's colours, where they are loaded.
    pub plugin_theme: Option<String>,
    /// The directory of the generated layers.
    pub layer_dir: String,
    /// The files whose changes reload the configuration.
    pub watched: Vec<String>,
    /// The number of complaints about the configuration.
    pub diagnostics: u32,
}

/// One step of loading the configuration.
#[derive(Clone, Copy, Debug, PartialEq, Eq, Structural)]
pub enum LoadStep {
    /// Write the layer with the host's own key.
    WriteHostLayer,
    /// Write the layer with the default colours.
    WriteOdpLayer,
    /// Write the layer with the plugin's colours.
    WritePluginLayer,
    /// Delete the layer with a plugin's colours.
    DropPluginLayer,
    LoadHostLayer,
    LoadOdpLayer,
    /// Load the user's default files.
    LoadDefaultFiles,
    /// Load the files that those refer to.
    LoadReferredFiles,
    LoadPluginLayer,
    Finalize,
}

/// The steps of loading the configuration: the host's key always, the default colours only where
/// the user sets no theme, then the user's files, and a plugin's colours on top.
pub open spec fn load_steps(user_theme: bool, plugin_theme: bool) -> Seq<LoadStep> {
    seq![LoadStep::WriteHostLayer] + (if user_theme {
        Seq::empty()
    } else {
        seq![LoadStep::WriteOdpLayer]
    }) + (if plugin_theme {
        seq![LoadStep::WritePluginLayer]
    } else {
        seq![LoadStep::DropPluginLayer]
    }) + seq![LoadStep::LoadHostLayer] + (if user_theme {
        Seq::empty()
    } else {
        seq![LoadStep::LoadOdpLayer]
    }) + seq![LoadStep::LoadDefaultFiles, LoadStep::LoadReferredFiles] + (if plugin_theme {
        seq![LoadStep::LoadPluginLayer]
    } else {
        Seq::empty()
    }) + seq![LoadStep::Finalize]
}

/// How the configuration is loaded: the steps in order, and what was decided. `files` are the user's
/// files and `texts_read` their texts; the number of complaints is known only at the end.
pub fn load_pipeline(
    files: Vec<String>,
    texts_read: &Vec<String>,
    ninja_toml: String,
    plugin_theme: Option<String>,
    layer_dir: String,
) -> (r: (Vec<LoadStep>, LoadInfo))
    ensures
        r.1.user_theme == some_text_sets_theme(texts(texts_read@)),
        r.1.odp_applied == !r.1.user_theme,
        r.1.plugin_theme == plugin_theme,
        r.1.layer_dir == layer_dir,
        texts(r.1.watched@) == texts(files@).push(ninja_toml@),
        r.1.diagnostics == 0,
        r.0@ == load_steps(r.1.user_theme, plugin_theme is Some),
{
    let user_theme: bool = user_sets_theme(texts_read);
    let mut watched: Vec<String> = files;
    let ghost before = watched@;
    watched.push(ninja_toml);
    assert(texts(watched@) =~= texts(before).push(ninja_toml@));
    let mut steps: Vec<LoadStep> = Vec::new();
    steps.push(LoadStep::WriteHostLayer);
    if !user_theme {
        steps.push(LoadStep::WriteOdpLayer);
    }
    if plugin_theme.is_some() {
        steps.push(LoadStep::WritePluginLayer);
    } else {
        steps.push(LoadStep::DropPluginLayer);
    }
    steps.push(LoadStep::LoadHostLayer);
    if !user_theme {
        steps.push(LoadStep::LoadOdpLayer);
    }
    steps.push(LoadStep::LoadDefaultFiles);
    steps.push(LoadStep::LoadReferredFiles);
    if plugin_theme.is_some() {
        steps.push(LoadStep::LoadPluginLayer);
    }
    steps.push(LoadStep::Finalize);
    assert(steps@ =~= load_steps(user_theme, plugin_theme is Some));
    (
        steps,
        LoadInfo {
            user_theme,
            odp_applied: !user_theme,
            plugin_theme,
            layer_dir,
            watched,
            diagnostics: 0,
        },
    )
}

/// What is written into a layer: its file's name and its text; `plugin_text` is that of the plugin's
/// colours. `None` for a step that writes nothing.
pub fn layer_file(step: LoadStep, plugin_text: &str) -> (r: Option<(String, String)>)
    ensures
        match step {
            LoadStep::WriteHostLayer => r matches Some(f) && f.0@ == HOST_LAYER_FILE@ && f.1@
                == host_layer(),
            LoadStep::WriteOdpLayer => r matches Some(f) && f.0@ == ODP_LAYER_FILE@ && f.1@
                == odp_layer(),
            LoadStep::WritePluginLayer => r matches Some(f) && f.0@ == PLUGIN_THEME_LAYER_FILE@
                && f.1@ == plugin_text@,
            _ => r is None,
        },
{
    match step {
        LoadStep::WriteHostLayer => Some((HOST_LAYER_FILE.to_owned(), host_layer_text())),
        LoadStep::WriteOdpLayer => Some((ODP_LAYER_FILE.to_owned(), odp_layer_text())),
        LoadStep::WritePluginLayer => Some(
            (PLUGIN_THEME_LAYER_FILE.to_owned(), plugin_text.to_owned()),
        ),
        _ => None,
    }
}

/// The directory of the generated layers, under the directory for temporary files.
pub fn layer_dir(temp_dir: &str, pid: u32) -> (out: String)
    ensures
        out@ == pushed(temp_dir@, "ninja-"@ + decimal(pid as nat)),
{
    push_path(temp_dir, "ninja-".to_owned().concat(decimal_of(pid as u64).as_str()).as_str())
}

/// The default colours give way to the user's theme and to nothing else: they are loaded exactly
/// where the user sets none, and before the user's files. A plugin's colours are loaded behind them.
pub proof fn lemma_load_order(user_theme: bool, plugin_theme: bool)
    ensures
        load_steps(user_theme, plugin_theme).contains(LoadStep::LoadOdpLayer) <==> !user_theme,
        load_steps(user_theme, plugin_theme).contains(LoadStep::LoadPluginLayer) <==> plugin_theme,
        load_steps(user_theme, plugin_theme).last() == LoadStep::Finalize,
        forall|i: int, j: int|
            0 <= i < load_steps(user_theme, plugin_theme).len() && 0 <= j < load_steps(
                user_theme,
                plugin_theme,
            ).len() && #[trigger] load_steps(user_theme, plugin_theme)[i] == LoadStep::LoadOdpLayer
                && #[trigger] load_steps(user_theme, plugin_theme)[j] == LoadStep::LoadDefaultFiles
                ==> i < j,
        forall|i: int, j: int|
            0 <= i < load_steps(user_theme, plugin_theme).len() && 0 <= j < load_steps(
                user_theme,
                plugin_theme,
            ).len() && #[trigger] load_steps(user_theme, plugin_theme)[i]
                == LoadStep::LoadReferredFiles && #[trigger] load_steps(user_theme, plugin_theme)[j]
                == LoadStep::LoadPluginLayer ==> i < j,
{
    let s = load_steps(user_theme, plugin_theme);
    if user_theme && plugin_theme {
        assert(s =~= seq![
            LoadStep::WriteHostLayer,
            LoadStep::WritePluginLayer,
            LoadStep::LoadHostLayer,
            LoadStep::LoadDefaultFiles,
            LoadStep::LoadReferredFiles,
            LoadStep::LoadPluginLayer,
            LoadStep::Finalize,
        ]);
        assert(s[5] == LoadStep::LoadPluginLayer);
    } else if user_theme {
        assert(s =~= seq![
            LoadStep::WriteHostLayer,
            LoadStep::DropPluginLayer,
            LoadStep::LoadHostLayer,
            LoadStep::LoadDefaultFiles,
            LoadStep::LoadReferredFiles,
            LoadStep::Finalize,
        ]);
    } else if plugin_theme {
        assert(s =~= seq![
            LoadStep::WriteHostLayer,
            LoadStep::WriteOdpLayer,
            LoadStep::WritePluginLayer,
            LoadStep::LoadHostLayer,
            LoadStep::LoadOdpLayer,
            LoadStep::LoadDefaultFiles,
            LoadStep::LoadReferredFiles,
            LoadStep::LoadPluginLayer,
            LoadStep::Finalize,
        ]);
        assert(s[4] == LoadStep::LoadOdpLayer);
        assert(s[7] == LoadStep::LoadPluginLayer);
    } else {
        assert(s =~= seq![
            LoadStep::WriteHostLayer,
            LoadStep::WriteOdpLayer,
            LoadStep::DropPluginLayer,
            LoadStep::LoadHostLayer,
            LoadStep::LoadOdpLayer,
            LoadStep::LoadDefaultFiles,
            LoadStep::LoadReferredFiles,
            LoadStep::Finalize,
        ]);
        assert(s[4] == LoadStep::LoadOdpLayer);
    }
}

/// Where the resources of an installed program are: under the directory above the one that holds
/// the program, where that one is named `MacOS`. `dir_name` is the name of the program's directory
/// and `contents` the directory above it.
pub fn bundle_resources_dir(dir_name: Option<&str>, contents: Option<&str>) -> (r: Option<String>)
    ensures
        match (dir_name, contents) {
            (Some(d), Some(c)) if d@ == "MacOS"@ => r matches Some(p) && p@ == pushed(
                c@,
                "Resources/ghostty"@,
            ),
            _ => r is None,
        },
{
    match (dir_name, contents) {
        (Some(d), Some(c)) => if same_text(d, "MacOS") {
            Some(push_path(c, "Resources/ghostty"))
        } else {
            None
        },
        _ => None,
    }
}

/// Where the terminal's resources are: those of an installed program before those that it was built
/// with. Each directory counts only if it holds themes, which the second parts tell.
pub fn resolve_resources_dir(bundle: Option<(String, bool)>, baked: &str, baked_ok: bool) -> (r:
    Option<String>)
    ensures
        match bundle {
            Some(b) if b.1 => r == Some(b.0),
            _ => if baked@.len() > 0 && baked_ok {
                r matches Some(p) && p@ == baked@
            } else {
                r is None
            },
        },
{
    if let Some((dir, ok)) = bundle {
        if ok {
            return Some(dir);
        }
    }
    if !baked.is_empty() && baked_ok {
        Some(baked.to_owned())
    } else {
        None
    }
}

/// A watched file: its path, and when it last changed, in nanoseconds; `None` for a file that is not
/// there.
#[derive(Clone, Debug, PartialEq)]
pub struct WatchedFile {
    pub path: String,
    pub mtime: Option<i128>,
}

/// The paths of watched files, and when they last changed.
pub open spec fn watched_views(s: Seq<WatchedFile>) -> Seq<(Seq<char>, Option<i128>)> {
    s.map_values(|f: WatchedFile| (f.path@, f.mtime))
}

/// The watched files, as they were last seen.
#[derive(Debug, PartialEq)]
pub struct WatchState {
    files: Vec<WatchedFile>,
}

impl WatchState {
    /// The paths of the watched files, and when they last changed.
    pub closed spec fn files(self) -> Seq<(Seq<char>, Option<i128>)> {
        watched_views(self.files@)
    }

    /// The files as they are now.
    pub fn new(now: Vec<WatchedFile>) -> (w: WatchState)
        ensures
            w.files() == watched_views(now@),
    {
        WatchState { files: now }
    }

    /// Whether the files differ from what was noted, in which they are or in any of their times;
    /// what they are now is noted.
    pub fn changed(&mut self, now: Vec<WatchedFile>) -> (r: bool)
        ensures
            r == (watched_views(now@) != old(self).files()),
            final(self).files() == watched_views(now@),
    {
        let n: usize = now.len();
        let mut same: bool = n == self.files.len();
        let mut i: usize = 0;
        let ghost new = watched_views(now@);
        let ghost was = watched_views(self.files@);
        assert(new.len() == n);
        assert(was.len() == self.files@.len());
        while same && i < n
            invariant
                i <= n == now@.len(),
                self.files@ == old(self).files@,
                new == watched_views(now@),
                was == watched_views(self.files@),
                same ==> n == self.files@.len(),
                same ==> forall|j: int| 0 <= j < i ==> #[trigger] new[j] == was[j],
                !same ==> new != was,
            decreases n - i,
        {
            let equal: bool = same_text(now[i].path.as_str(), self.files[i].path.as_str())
                && match (now[i].mtime, self.files[i].mtime) {
                (Some(a), Some(b)) => a == b,
                (None, None) => true,
                _ => false,
            };
            assert(equal == (new[i as int] == was[i as int]));
            if !equal {
                same = false;
            }
            i += 1;
        }
        if same {
            assert(new =~= was);
        }
        self.files = now;
        !same
    }
}

} // verus!
