//! The plugins' programs and the socket that they come to.

use vstd::prelude::*;
use vstd::string::*;

use crate::config::files::{push_path, pushed};
use crate::text::{
    all_digits, begins, chars_of, decimal, decimal_of, digits_value, ends, has_char, has_prefix, lemma_decimal, number, opt_text,
    parse_number, same_text, string_of, texts,
};

verus! {

/// The supervisor's view of which plugins are on, and of where their programs are.
#[derive(Clone, Debug, PartialEq)]
pub struct PluginsConfig {
    /// The names of the plugins that are on.
    pub enabled: Vec<String>,
    /// The names of plugins and the paths of their programs.
    pub paths: Vec<(String, String)>,
}

/// The name of the socket of the process `pid`.
pub open spec fn socket_name(pid: nat) -> Seq<char> {
    "ninja-ade-"@ + decimal(pid) + ".sock"@
}

/// The socket of this process, in the directory for temporary files.
pub fn socket_path(temp_dir: &str, pid: u32) -> (r: String)
    ensures
        r@ == pushed(temp_dir@, socket_name(pid as nat)),
{
    push_path(
        temp_dir,
        "ninja-ade-".to_owned().concat(decimal_of(pid as u64).as_str()).concat(".sock").as_str(),
    )
}

/// The socket in effect: the one that the environment names before the usual one.
pub fn effective_socket_path(named: Option<&str>, temp_dir: &str, pid: u32) -> (r: String)
    ensures
        match named {
            Some(p) => r@ == p@,
            None => r@ == pushed(temp_dir@, socket_name(pid as nat)),
        },
{
    match named {
        Some(p) => p.to_owned(),
        None => socket_path(temp_dir, pid),
    }
}

/// The middle of a socket's name.
pub open spec fn name_middle(name: Seq<char>) -> Option<Seq<char>> {
    if begins(name, "ninja-ade-"@) && ends(name.skip(10), ".sock"@) {
        Some(name.subrange(10, name.len() - 5))
    } else {
        None
    }
}

/// The process that a socket's name tells, where it may have been left behind by another: a positive
/// number, written in digits alone, that is not this process's.
pub open spec fn left_by(name: Seq<char>, own: u32) -> Option<nat> {
    match name_middle(name) {
        Some(m) => match number(m, i32::MAX as nat) {
            _ if begins(m, "+"@) => None,
            Some(p) if p > 0 && p != own => Some(p),
            _ => None,
        },
        None => None,
    }
}

/// The process that a socket's name tells, where it may have been left behind by another.
pub fn stale_socket_pid(name: &str, own: u32) -> (r: Option<u32>)
    ensures
        match r {
            Some(p) => left_by(name@, own) == Some(p as nat),
            None => left_by(name@, own) is None,
        },
{
    proof {
        reveal_strlit("ninja-ade-");
        reveal_strlit(".sock");
    }
    let v: Vec<char> = chars_of(name);
    let n: usize = v.len();
    if !has_prefix(name, "ninja-ade-") || n - 10 < 5 {
        return None;
    }
    let tail: String = string_of(&v, n - 5, n);
    assert(name@.skip(10).skip(name@.skip(10).len() - 5) =~= name@.subrange(n - 5, n as int));
    if !same_text(tail.as_str(), ".sock") {
        return None;
    }
    let middle: String = string_of(&v, 10, n - 5);
    if has_prefix(middle.as_str(), "+") {
        return None;
    }
    match parse_number(middle.as_str(), 0x7fff_ffff) {
        Some(p) => if p > 0 && p != own {
            Some(p)
        } else {
            None
        },
        None => None,
    }
}

/// Whether a file in the directory for temporary files is to be swept away: the socket of another
/// process that is dead. `alive` tells of the process that the name tells.
pub fn is_stale_socket(name: &str, own: u32, alive: bool) -> (r: bool)
    ensures
        r == (left_by(name@, own) is Some && !alive),
{
    stale_socket_pid(name, own).is_some() && !alive
}

/// A name that a process gave to its socket is known by the others as its, and by itself as none to
/// sweep away.
pub proof fn lemma_own_socket_is_kept(pid: u32, other: u32)
    requires
        0 < pid <= i32::MAX,
        other != pid,
    ensures
        left_by(socket_name(pid as nat), pid) is None,
        left_by(socket_name(pid as nat), other) == Some(pid as nat),
{
    reveal_strlit("ninja-ade-");
    reveal_strlit(".sock");
    reveal_strlit("+");
    let name = socket_name(pid as nat);
    let d = decimal(pid as nat);
    lemma_decimal(pid as nat);
    assert(name.take(10) =~= "ninja-ade-"@);
    assert(name.skip(10) =~= d + ".sock"@);
    assert((d + ".sock"@).skip(d.len() as int) =~= ".sock"@);
    assert(name.subrange(10, name.len() - 5) =~= d);
    assert(d.len() > 0 && d[0] != '+');
    if begins(d, "+"@) {
        assert(d.take(1)[0] == "+"@[0]);
    }
}

/// The directory for plugins in a home directory.
pub fn user_plugin_dir(home: Option<&str>) -> (r: Option<String>)
    ensures
        match home {
            Some(h) => r matches Some(d) && d@ == pushed(h@, ".config/ninja/plugins"@),
            None => r is None,
        },
{
    match home {
        Some(h) => Some(push_path(h, ".config/ninja/plugins")),
        None => None,
    }
}

/// The path that is set for a plugin; where it is set twice, the later one.
pub open spec fn path_set(paths: Seq<(String, String)>, name: Seq<char>) -> Option<Seq<char>>
    decreases paths.len(),
{
    if paths.len() == 0 {
        None
    } else if paths.last().0@ == name {
        Some(paths.last().1@)
    } else {
        path_set(paths.drop_last(), name)
    }
}

/// A plugin's name is a bare one: not empty, and without a slash.
pub open spec fn is_bare_name(name: Seq<char>) -> bool {
    name.len() > 0 && !name.contains('/')
}

/// Whether a plugin's name is a bare one.
pub fn bare_name(name: &str) -> (r: bool)
    ensures
        r == is_bare_name(name@),
{
    !name.is_empty() && !has_char(&chars_of(name), '/')
}

/// A list of the one path, or of none.
pub open spec fn at_most(p: Option<Seq<char>>) -> Seq<Seq<char>> {
    match p {
        Some(p) => seq![p],
        None => Seq::empty(),
    }
}

/// The path of `name` in a directory, where there is one.
pub open spec fn in_dir(dir: Option<Seq<char>>, name: Seq<char>) -> Seq<Seq<char>> {
    match dir {
        Some(d) => seq![pushed(d, name)],
        None => Seq::empty(),
    }
}

/// The places where a plugin's program may be, in the order they are tried: the path that is set for
/// it, the directory that the environment names, the user's own, and that of the host's program.
pub open spec fn places(
    name: Seq<char>,
    paths: Seq<(String, String)>,
    plugin_dir: Option<Seq<char>>,
    user_dir: Option<Seq<char>>,
    exe_dir: Option<Seq<char>>,
) -> Seq<Seq<char>> {
    if is_bare_name(name) {
        at_most(path_set(paths, name)) + in_dir(plugin_dir, name) + in_dir(user_dir, name) + in_dir(
            exe_dir,
            name,
        )
    } else {
        Seq::empty()
    }
}

fn set_path(paths: &Vec<(String, String)>, name: &str) -> (r: Option<String>)
    ensures
        match r {
            Some(p) => path_set(paths@, name@) == Some(p@),
            None => path_set(paths@, name@) is None,
        },
{
    let mut i: usize = paths.len();
    assert(paths@.take(i as int) =~= paths@);
    while i > 0
        invariant
            i <= paths@.len(),
            path_set(paths@, name@) == path_set(paths@.take(i as int), name@),
        decreases i,
    {
        assert(paths@.take(i as int).drop_last() =~= paths@.take(i - 1));
        if same_text(paths[i - 1].0.as_str(), name) {
            return Some(paths[i - 1].1.clone());
        }
        i -= 1;
    }
    None
}

/// The places where a plugin's program may be, in the order they are tried. A name that is not bare
/// has none.
pub fn plugin_places(
    name: &str,
    cfg: &PluginsConfig,
    plugin_dir: Option<&str>,
    user_dir: Option<&str>,
    exe_dir: Option<&str>,
) -> (out: Vec<String>)
    ensures
        texts(out@) == places(
            name@,
            cfg.paths@,
            opt_text(plugin_dir),
            opt_text(user_dir),
            opt_text(exe_dir),
        ),
{
    let mut out: Vec<String> = Vec::new();
    assert(texts(out@) =~= Seq::<Seq<char>>::empty());
    if !bare_name(name) {
        return out;
    }
    if let Some(p) = set_path(&cfg.paths, name) {
        out.push(p);
    }
    assert(texts(out@) =~= at_most(path_set(cfg.paths@, name@)));
    let ghost a = out@;
    if let Some(d) = plugin_dir {
        out.push(push_path(d, name));
    }
    assert(texts(out@) =~= texts(a) + in_dir(opt_text(plugin_dir), name@));
    let ghost b = out@;
    if let Some(d) = user_dir {
        out.push(push_path(d, name));
    }
    assert(texts(out@) =~= texts(b) + in_dir(opt_text(user_dir), name@));
    let ghost c = out@;
    if let Some(d) = exe_dir {
        out.push(push_path(d, name));
    }
    assert(texts(out@) =~= texts(c) + in_dir(opt_text(exe_dir), name@));
    out
}

/// The place of the first truth.
pub open spec fn first_true(s: Seq<bool>) -> Option<int>
    decreases s.len(),
{
    if s.len() == 0 {
        None
    } else if s[0] {
        Some(0)
    } else {
        match first_true(s.drop_first()) {
            Some(i) => Some(i + 1),
            None => None,
        }
    }
}

/// A plugin's program: the first of its places where there is a file. `is_file` tells of each place.
pub fn resolve_plugin_binary(places: &Vec<String>, is_file: &Vec<bool>) -> (r: Option<String>)
    requires
        places@.len() == is_file@.len(),
    ensures
        match first_true(is_file@) {
            Some(i) => r matches Some(p) && p@ == places@[i]@,
            None => r is None,
        },
{
    let mut i: usize = 0;
    assert(is_file@.skip(0) =~= is_file@);
    while i < is_file.len()
        invariant
            i <= is_file@.len() == places@.len(),
            first_true(is_file@) == match first_true(is_file@.skip(i as int)) {
                Some(k) => Some(k + i),
                None => None,
            },
        decreases is_file@.len() - i,
    {
        assert(is_file@.skip(i as int).drop_first() =~= is_file@.skip(i + 1));
        if is_file[i] {
            return Some(places[i].clone());
        }
        i += 1;
    }
    None
}

/// A socket's name tells a process of another if and only if it is `ninja-ade-`, digits and `.sock`,
/// and the digits make a number that a process can have and this one has not.
pub proof fn lemma_names_of_sockets(name: Seq<char>, own: u32)
    ensures
        left_by(name, own) matches Some(p) ==> exists|m: Seq<char>|
            name == #[trigger] ("ninja-ade-"@ + m) + ".sock"@ && m.len() > 0 && all_digits(m)
                && digits_value(m) == p && 0 < p <= 0x7fff_ffff && p != own,
        forall|m: Seq<char>|
            name == #[trigger] ("ninja-ade-"@ + m) + ".sock"@ && m.len() > 0 && all_digits(m) && 0
                < digits_value(m) <= 0x7fff_ffff && digits_value(m) != own ==> left_by(name, own) == Some(
                digits_value(m),
            ),
{
    reveal_strlit("ninja-ade-");
    reveal_strlit(".sock");
    reveal_strlit("+");
    if let Some(p) = left_by(name, own) {
        let m = name.subrange(10, name.len() - 5);
        let t = name.skip(10);
        assert(t.skip(t.len() - 5) =~= ".sock"@);
        assert(name.take(10) =~= "ninja-ade-"@);
        assert forall|i: int| 0 <= i < 5 implies name[name.len() - 5 + i] == ".sock"@[i] by {
            assert(t.skip(t.len() - 5)[i] == name[name.len() - 5 + i]);
        }
        assert forall|i: int| 0 <= i < 10 implies name[i] == "ninja-ade-"@[i] by {
            assert(name.take(10)[i] == name[i]);
        }
        assert(name =~= ("ninja-ade-"@ + m) + ".sock"@);
        if m.len() > 0 && m[0] == '+' {
            assert(m.take(1) =~= "+"@);
        }
    }
    assert forall|m: Seq<char>|
        name == #[trigger] ("ninja-ade-"@ + m) + ".sock"@ && m.len() > 0 && all_digits(m) && 0
            < digits_value(m) <= 0x7fff_ffff && digits_value(m) != own implies left_by(name, own) == Some(
        digits_value(m),
    ) by {
        assert(name.take(10) =~= "ninja-ade-"@);
        assert(name.skip(10) =~= m + ".sock"@);
        assert((m + ".sock"@).skip(m.len() as int) =~= ".sock"@);
        assert(name.subrange(10, name.len() - 5) =~= m);
        assert(crate::text::is_ascii_digit(m[0]));
        if begins(m, "+"@) {
            assert(m.take(1)[0] == '+');
        }
    }
}

/// The path that is set for a plugin is the last one under its name; none where there is none.
pub proof fn lemma_last_path_counts(a: Seq<(String, String)>, p: (String, String), b: Seq<(String, String)>)
    requires
        forall|i: int| 0 <= i < b.len() ==> (#[trigger] b[i]).0@ != p.0@,
    ensures
        path_set(b, p.0@) is None,
        path_set(a + seq![p] + b, p.0@) == Some(p.1@),
    decreases b.len(),
{
    let s = a + seq![p] + b;
    if b.len() > 0 {
        let c = b.drop_last();
        assert(b[b.len() - 1].0@ != p.0@);
        assert forall|i: int| 0 <= i < c.len() implies (#[trigger] c[i]).0@ != p.0@ by {
            assert(c[i] == b[i]);
        }
        lemma_last_path_counts(a, p, c);
        assert(s.last() == b.last());
        assert(s.drop_last() =~= a + seq![p] + c);
    } else {
        assert(s.last() == p);
    }
}

/// A plugin's program is looked for under the path that is set, then in the three directories, as far as
/// there are any: the environment's, the user's and the host's own. A name with a slash, or none, is
/// looked for nowhere.
pub proof fn lemma_places_in_order(
    name: Seq<char>,
    paths: Seq<(String, String)>,
    first: Seq<char>,
    second: Seq<char>,
    third: Seq<char>,
    plugin_dir: Option<Seq<char>>,
    user_dir: Option<Seq<char>>,
    exe_dir: Option<Seq<char>>,
)
    ensures
        name.len() == 0 || name.contains('/') ==> places(name, paths, plugin_dir, user_dir, exe_dir)
            == Seq::<Seq<char>>::empty(),
        name.len() > 0 && !name.contains('/') ==> {
            &&& path_set(paths, name) matches Some(p) ==> places(
                name,
                paths,
                plugin_dir,
                user_dir,
                exe_dir,
            ) == seq![p] + places(name, Seq::empty(), plugin_dir, user_dir, exe_dir)
            &&& path_set(paths, name) is None ==> places(name, paths, plugin_dir, user_dir, exe_dir)
                == places(name, Seq::empty(), plugin_dir, user_dir, exe_dir)
            &&& places(name, Seq::empty(), Some(first), user_dir, exe_dir) == seq![pushed(first, name)]
                + places(name, Seq::empty(), None, user_dir, exe_dir)
            &&& places(name, Seq::empty(), None, Some(second), exe_dir) == seq![pushed(second, name)]
                + places(name, Seq::empty(), None, None, exe_dir)
            &&& places(name, Seq::empty(), None, None, Some(third)) == seq![pushed(third, name)]
            &&& places(name, Seq::empty(), None, None, None) == Seq::<Seq<char>>::empty()
        },
{
    let none = Seq::<(String, String)>::empty();
    assert(path_set(none, name) is None);
    if is_bare_name(name) {
        if let Some(p) = path_set(paths, name) {
            assert(places(name, paths, plugin_dir, user_dir, exe_dir) =~= seq![p] + places(
                name,
                none,
                plugin_dir,
                user_dir,
                exe_dir,
            ));
        }
        assert(places(name, none, Some(first), user_dir, exe_dir) =~= seq![pushed(first, name)]
            + places(name, none, None, user_dir, exe_dir));
        assert(places(name, none, None, Some(second), exe_dir) =~= seq![pushed(second, name)] + places(
            name,
            none,
            None,
            None,
            exe_dir,
        ));
        assert(places(name, none, None, None, Some(third)) =~= seq![pushed(third, name)]);
        assert(places(name, none, None, None, None) =~= Seq::<Seq<char>>::empty());
    }
}

/// What is found is the first truth: all before it is false; nothing is found where nothing is true.
pub proof fn lemma_first_truth_is_first(s: Seq<bool>)
    ensures
        match first_true(s) {
            Some(i) => 0 <= i < s.len() && s[i] && forall|j: int| 0 <= j < i ==> !#[trigger] s[j],
            None => forall|j: int| 0 <= j < s.len() ==> !#[trigger] s[j],
        },
    decreases s.len(),
{
    if s.len() > 0 && !s[0] {
        let rest = s.drop_first();
        lemma_first_truth_is_first(rest);
        match first_true(rest) {
            Some(i) => {
                assert forall|j: int| 0 <= j < i + 1 implies !#[trigger] s[j] by {
                    if j > 0 {
                        assert(!rest[j - 1]);
                    }
                }
            },
            None => {
                assert forall|j: int| 0 <= j < s.len() implies !#[trigger] s[j] by {
                    if j > 0 {
                        assert(!rest[j - 1]);
                    }
                }
            },
        }
    }
}

/// The socket is the one that the environment names, else this process's own in the directory for
/// temporary files; plugins of the user's are in the home directory.
pub proof fn lemma_where_the_socket_is(
    named: Option<&str>,
    temp: &str,
    pid: u32,
    r: String,
    home: Option<&str>,
    d: Option<String>,
)
    requires
        call_ensures(effective_socket_path, (named, temp, pid), r),
        call_ensures(user_plugin_dir, (home,), d),
    ensures
        named matches Some(p) ==> r@ == p@,
        named is None ==> r@ == pushed(temp@, "ninja-ade-"@ + decimal(pid as nat) + ".sock"@),
        d is Some <==> home is Some,
        d matches Some(p) ==> p@ == pushed(home->0@, ".config/ninja/plugins"@),
{
}

/// Only the socket of a process that is dead is swept away, and never this process's own.
pub proof fn lemma_what_is_swept_away(pid: u32, own: u32, name: &str, alive: bool, r: bool)
    requires
        call_ensures(is_stale_socket, (name, own, alive), r),
        0 < pid <= i32::MAX,
        name@ == "ninja-ade-"@ + decimal(pid as nat) + ".sock"@,
    ensures
        r <==> pid != own && !alive,
{
    if pid != own {
        lemma_own_socket_is_kept(pid, own);
    } else {
        lemma_own_socket_is_kept(pid, (own - 1) as u32);
    }
}

/// The program is the first of the places that is a file; none where none is.
pub proof fn lemma_first_file_is_taken(places: &Vec<String>, is_file: &Vec<bool>, r: Option<String>)
    requires
        call_ensures(resolve_plugin_binary, (places, is_file), r),
    ensures
        r is Some <==> exists|i: int| 0 <= i < is_file@.len() && #[trigger] is_file@[i],
        r matches Some(p) ==> exists|i: int|
            0 <= i < is_file@.len() && #[trigger] is_file@[i] && p@ == places@[i]@ && forall|j: int|
                0 <= j < i ==> !#[trigger] is_file@[j],
{
    lemma_first_truth_is_first(is_file@);
}

} // verus!
