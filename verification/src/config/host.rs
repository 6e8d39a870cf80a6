//! The host's own configuration file: which plugins are enabled, where their programs are, and how
//! much memory each may use.

use vstd::prelude::*;
use vstd::string::*;

use crate::config::document::{
    are_tables, array_value, as_array, as_integer, as_table, as_text, below_to, contents,
    distinct_keys, entry_views, has_long_quotes, inline_to, is_tame, lookup, parse_toml, plain_to,
    same, same_found, same_to, string_value, table_value, tame, toml_document, toml_text,
    write_toml, DATE_KEY, Doc, NESTED, PARTS,
};
use crate::text::{has_text, opt_text, pair_texts, same_text, texts, trim, trimmed};

verus! {

/// The plugins of the host.
#[derive(Clone, Debug, PartialEq)]
pub struct PluginsConfig {
    /// The names of the enabled plugins, in order.
    pub enabled: Vec<String>,
    /// Programs of plugins: name and path.
    pub paths: Vec<(String, String)>,
    /// The memory limit of one plugin in MiB; 0 for none, `None` for the host's default.
    pub memory_limit_mb: Option<u64>,
}

/// The host's configuration.
#[derive(Clone, Debug, PartialEq)]
pub struct HostConfig {
    pub plugins: PluginsConfig,
}

/// What a configuration says.
#[verifier::ext_equal]
pub struct PluginsView {
    pub enabled: Seq<Seq<char>>,
    pub paths: Seq<(Seq<char>, Seq<char>)>,
    pub memory_limit_mb: Option<u64>,
}

impl PluginsConfig {
    /// What the configuration says.
    pub open spec fn view(self) -> PluginsView {
        PluginsView {
            enabled: texts(self.enabled@),
            paths: pair_texts(self.paths@),
            memory_limit_mb: self.memory_limit_mb,
        }
    }
}

/// No plugins.
pub open spec fn no_plugins() -> PluginsView {
    PluginsView { enabled: Seq::empty(), paths: Seq::empty(), memory_limit_mb: None }
}

impl Default for PluginsConfig {
    fn default() -> (c: PluginsConfig)
        ensures
            c.view() == no_plugins(),
    {
        let c: PluginsConfig = PluginsConfig {
            enabled: Vec::new(),
            paths: Vec::new(),
            memory_limit_mb: None,
        };
        assert(c.view() =~= no_plugins());
        c
    }
}

impl Default for HostConfig {
    fn default() -> (c: HostConfig)
        ensures
            c.plugins.view() == no_plugins(),
    {
        HostConfig { plugins: PluginsConfig::default() }
    }
}

/// The names in an `enabled` array: strings, trimmed, without empty ones and repetitions.
pub open spec fn enabled_names(items: Seq<toml::Value>) -> Seq<Seq<char>>
    decreases items.len(),
{
    if items.len() == 0 {
        Seq::empty()
    } else {
        let before = enabled_names(items.drop_last());
        match contents(items.last()) {
            Doc::Str(s) if trim(s).len() > 0 && !before.contains(trim(s)) => before.push(trim(s)),
            _ => before,
        }
    }
}

/// The programs in a `paths` table: those that are strings and not blank, trimmed.
pub open spec fn program_paths(es: Seq<(Seq<char>, toml::Value)>) -> Seq<(Seq<char>, Seq<char>)>
    decreases es.len(),
{
    if es.len() == 0 {
        Seq::empty()
    } else {
        let before = program_paths(es.drop_last());
        match contents(es.last().1) {
            Doc::Str(s) if trim(s).len() > 0 => before.push((es.last().0, trim(s))),
            _ => before,
        }
    }
}

/// What one entry of the `plugins` table adds.
pub open spec fn with_plugin_entry(c: PluginsView, key: Seq<char>, v: toml::Value) -> PluginsView {
    if key == "enabled"@ {
        match contents(v) {
            Doc::List(items) => PluginsView { enabled: c.enabled + enabled_names(items), ..c },
            _ => c,
        }
    } else if key == "paths"@ {
        match contents(v) {
            Doc::Table(es) => PluginsView { paths: c.paths + program_paths(es), ..c },
            _ => c,
        }
    } else if key == "memory_limit_mb"@ {
        match contents(v) {
            Doc::Int(n) if n >= 0 => PluginsView { memory_limit_mb: Some(n as u64), ..c },
            _ => c,
        }
    } else {
        c
    }
}

/// What the entries of the `plugins` table add, in order.
pub open spec fn with_plugin_entries(c: PluginsView, es: Seq<(Seq<char>, toml::Value)>) -> PluginsView
    decreases es.len(),
{
    if es.len() == 0 {
        c
    } else {
        with_plugin_entry(with_plugin_entries(c, es.drop_last()), es.last().0, es.last().1)
    }
}

/// What the `plugins` value adds: nothing unless it is a table.
pub open spec fn with_plugins(c: PluginsView, v: toml::Value) -> PluginsView {
    match contents(v) {
        Doc::Table(es) => with_plugin_entries(c, es),
        _ => c,
    }
}

/// What the entries of the document add, in order: all but `plugins` are passed over.
pub open spec fn with_document_entries(
    c: PluginsView,
    es: Seq<(Seq<char>, toml::Value)>,
) -> PluginsView
    decreases es.len(),
{
    if es.len() == 0 {
        c
    } else {
        let before = with_document_entries(c, es.drop_last());
        if es.last().0 == "plugins"@ {
            with_plugins(before, es.last().1)
        } else {
            before
        }
    }
}

/// What a document says of the plugins.
pub open spec fn document_plugins(v: toml::Value) -> PluginsView {
    match contents(v) {
        Doc::Table(es) => with_document_entries(no_plugins(), es),
        _ => no_plugins(),
    }
}

/// Adds the names of an `enabled` array.
fn add_enabled(items: &Vec<toml::Value>, out: &mut Vec<String>)
    ensures
        texts(final(out)@) == texts(old(out)@) + enabled_names(items@),
{
    let ghost start = texts(out@);
    let mut seen: Vec<String> = Vec::new();
    let mut i: usize = 0;
    assert(items@.take(0) =~= Seq::<toml::Value>::empty());
    assert(texts(seen@) =~= Seq::<Seq<char>>::empty());
    assert(start + Seq::<Seq<char>>::empty() =~= start);
    while i < items.len()
        invariant
            i <= items@.len(),
            texts(seen@) == enabled_names(items@.take(i as int)),
            texts(out@) == start + texts(seen@),
        decreases items@.len() - i,
    {
        assert(items@.take(i + 1).drop_last() =~= items@.take(i as int));
        let ghost was_seen = seen@;
        let ghost was_out = out@;
        if let Some(s) = as_text(&items[i]) {
            let t: String = trimmed(s.as_str());
            if !t.as_str().is_empty() && !has_text(&seen, t.as_str()) {
                out.push(t.clone());
                seen.push(t);
                assert(texts(seen@) =~= texts(was_seen).push(t@));
                assert(texts(out@) =~= texts(was_out).push(t@));
                assert(texts(out@) =~= start + texts(seen@));
            }
        }
        i += 1;
    }
    assert(items@.take(i as int) =~= items@);
}

/// Adds the programs of a `paths` table.
fn add_paths(es: &Vec<(String, toml::Value)>, out: &mut Vec<(String, String)>)
    ensures
        pair_texts(final(out)@) == pair_texts(old(out)@) + program_paths(entry_views(es@)),
{
    let ghost start = pair_texts(out@);
    let ghost all = entry_views(es@);
    let mut i: usize = 0;
    assert(all.take(0) =~= Seq::<(Seq<char>, toml::Value)>::empty());
    assert(start + Seq::<(Seq<char>, Seq<char>)>::empty() =~= start);
    while i < es.len()
        invariant
            i <= es@.len(),
            all == entry_views(es@),
            pair_texts(out@) == start + program_paths(all.take(i as int)),
        decreases es@.len() - i,
    {
        assert(all.take(i + 1).drop_last() =~= all.take(i as int));
        assert(all.take(i + 1).last() == (es@[i as int].0@, es@[i as int].1));
        let ghost was = out@;
        let ghost before = program_paths(all.take(i as int));
        if let Some(s) = as_text(&es[i].1) {
            let t: String = trimmed(s.as_str());
            if !t.as_str().is_empty() {
                let name: String = es[i].0.clone();
                out.push((name, t));
                assert(pair_texts(out@) =~= pair_texts(was).push((es@[i as int].0@, trim(s@))));
                assert(start + before.push((es@[i as int].0@, trim(s@))) =~= (start + before).push(
                    (es@[i as int].0@, trim(s@)),
                ));
            }
        }
        i += 1;
    }
    assert(all.take(i as int) =~= all);
}

/// Takes the `plugins` value into the configuration; what does not fit is passed over.
fn parse_plugins(v: &toml::Value, cfg: &mut HostConfig)
    ensures
        final(cfg).plugins.view() == with_plugins(old(cfg).plugins.view(), *v),
{
    let es: Vec<(String, toml::Value)> = match as_table(v) {
        Some(es) => es,
        None => {
            return;
        },
    };
    let ghost all = entry_views(es@);
    let ghost start = cfg.plugins.view();
    let mut i: usize = 0;
    assert(all.take(0) =~= Seq::<(Seq<char>, toml::Value)>::empty());
    while i < es.len()
        invariant
            i <= es@.len(),
            all == entry_views(es@),
            cfg.plugins.view() == with_plugin_entries(start, all.take(i as int)),
        decreases es@.len() - i,
    {
        assert(all.take(i + 1).drop_last() =~= all.take(i as int));
        assert(all.take(i + 1).last() == (es@[i as int].0@, es@[i as int].1));
        let ghost was = cfg.plugins.view();
        let key: &str = es[i].0.as_str();
        let val: &toml::Value = &es[i].1;
        if same_text(key, "enabled") {
            if let Some(items) = as_array(val) {
                add_enabled(&items, &mut cfg.plugins.enabled);
            }
        } else if same_text(key, "paths") {
            if let Some(entries) = as_table(val) {
                add_paths(&entries, &mut cfg.plugins.paths);
            }
        } else if same_text(key, "memory_limit_mb") {
            if let Some(n) = as_integer(val) {
                if n >= 0 {
                    cfg.plugins.memory_limit_mb = Some(n as u64);
                }
            }
        }
        assert(cfg.plugins.view() =~= with_plugin_entry(was, key@, *val));
        i += 1;
    }
    assert(all.take(i as int) =~= all);
}

/// The configuration that a document describes. Only its `plugins` table counts; a document that
/// is no table describes nothing.
pub fn host_config_of(v: &toml::Value) -> (cfg: HostConfig)
    ensures
        cfg.plugins.view() == document_plugins(*v),
{
    let mut cfg: HostConfig = HostConfig::default();
    let es: Vec<(String, toml::Value)> = match as_table(v) {
        Some(es) => es,
        None => {
            return cfg;
        },
    };
    let ghost all = entry_views(es@);
    let mut i: usize = 0;
    assert(all.take(0) =~= Seq::<(Seq<char>, toml::Value)>::empty());
    while i < es.len()
        invariant
            i <= es@.len(),
            all == entry_views(es@),
            cfg.plugins.view() == with_document_entries(no_plugins(), all.take(i as int)),
        decreases es@.len() - i,
    {
        assert(all.take(i + 1).drop_last() =~= all.take(i as int));
        assert(all.take(i + 1).last() == (es@[i as int].0@, es@[i as int].1));
        if same_text(es[i].0.as_str(), "plugins") {
            parse_plugins(&es[i].1, &mut cfg);
        }
        i += 1;
    }
    assert(all.take(i as int) =~= all);
    cfg
}

/// The configuration that a text describes. A text that is no TOML describes nothing.
pub fn parse_host_config(text: &str) -> (cfg: HostConfig)
    ensures
        cfg.plugins.view() == match toml_document(text@) {
            Some(v) => document_plugins(v),
            None => no_plugins(),
        },
{
    match parse_toml(text) {
        Some(v) => host_config_of(&v),
        None => HostConfig::default(),
    }
}

/// The path of the configuration file: `override_path` where it is set, else under the home
/// directory.
pub fn host_config_path(override_path: Option<&str>, home: Option<&str>) -> (path: String)
    ensures
        path@ == match (override_path, home) {
            (Some(p), _) => p@,
            (None, Some(h)) => crate::config::files::pushed(h@, ".config/ninja/ninja.toml"@),
            (None, None) => ".config/ninja/ninja.toml"@,
        },
{
    match override_path {
        Some(p) => p.to_owned(),
        None => match home {
            Some(h) => crate::config::files::push_path(h, ".config/ninja/ninja.toml"),
            None => ".config/ninja/ninja.toml".to_owned(),
        },
    }
}

/// The configuration for what was read: the file's text, `None` where it could not be read.
pub fn load_host_config(text: Option<&str>) -> (cfg: HostConfig)
    ensures
        cfg.plugins.view() == match text {
            Some(t) => match toml_document(t@) {
                Some(v) => document_plugins(v),
                None => no_plugins(),
            },
            None => no_plugins(),
        },
{
    match text {
        Some(t) => parse_host_config(t),
        None => HostConfig::default(),
    }
}

/// The entries of a value, none unless it is a table.
pub open spec fn table_entries(v: Option<toml::Value>) -> Seq<(Seq<char>, toml::Value)> {
    match v {
        Some(t) => match contents(t) {
            Doc::Table(es) => es,
            _ => Seq::empty(),
        },
        None => Seq::empty(),
    }
}

/// `v` is an array of exactly these strings.
pub open spec fn is_text_list(v: toml::Value, names: Seq<Seq<char>>) -> bool {
    contents(v) matches Doc::List(items) && items.len() == names.len() && forall|i: int|
        0 <= i < items.len() ==> contents(#[trigger] items[i]) == Doc::Str(names[i])
}

/// `after` is `before` with `enabled` set to the names in its `plugins` table: every other key keeps
/// its value, in the document and in that table; what is no table is replaced by one.
pub open spec fn is_updated(
    before: Option<toml::Value>,
    after: toml::Value,
    names: Seq<Seq<char>>,
) -> bool {
    &&& contents(after) matches Doc::Table(t) && distinct_keys(t)
    &&& forall|k: Seq<char>|
        k != "plugins"@ ==> #[trigger] lookup(table_entries(Some(after)), k) == lookup(
            table_entries(before),
            k,
        )
    &&& lookup(table_entries(Some(after)), "plugins"@) matches Some(p) && {
        &&& contents(p) matches Doc::Table(t) && distinct_keys(t)
        &&& lookup(table_entries(Some(p)), "enabled"@) matches Some(e) && is_text_list(e, names)
        &&& forall|k: Seq<char>|
            k != "enabled"@ ==> #[trigger] lookup(table_entries(Some(p)), k) == lookup(
                table_entries(lookup(table_entries(before), "plugins"@)),
                k,
            )
    }
}

proof fn lemma_lookup_absent(es: Seq<(Seq<char>, toml::Value)>, key: Seq<char>)
    requires
        forall|i: int| 0 <= i < es.len() ==> (#[trigger] es[i]).0 != key,
    ensures
        lookup(es, key) is None,
    decreases es.len(),
{
    if es.len() > 0 {
        assert(es[es.len() - 1].0 != key);
        assert forall|i: int| 0 <= i < es.drop_last().len() implies (
        #[trigger] es.drop_last()[i]).0 != key by {
            assert(es.drop_last()[i] == es[i]);
        }
        lemma_lookup_absent(es.drop_last(), key);
    }
}

/// Sets one key of the entries.
fn set_key(es: Vec<(String, toml::Value)>, key: &str, v: toml::Value) -> (out: Vec<
    (String, toml::Value),
>)
    requires
        distinct_keys(entry_views(es@)),
    ensures
        distinct_keys(entry_views(out@)),
        lookup(entry_views(out@), key@) == Some(v),
        forall|k: Seq<char>|
            k != key@ ==> #[trigger] lookup(entry_views(out@), k) == lookup(entry_views(es@), k),
{
    let mut out: Vec<(String, toml::Value)> = es;
    let mut i: usize = out.len();
    let ghost all = entry_views(es@);
    while i > 0
        invariant
            i <= out@.len(),
            out@ == es@,
            all == entry_views(es@),
            distinct_keys(all),
            forall|j: int| i <= j < all.len() ==> (#[trigger] all[j]).0 != key@,
        decreases i,
    {
        if same_text(out[i - 1].0.as_str(), key) {
            out.set(i - 1, (key.to_owned(), v));
            let ghost after = entry_views(out@);
            proof {
                assert(after =~= all.update(i - 1, (key@, v)));
                lemma_update_key(all, i - 1, v);
            }
            return out;
        }
        assert(all[i - 1].0 == out@[i - 1].0@);
        i -= 1;
    }
    out.push((key.to_owned(), v));
    proof {
        let after = entry_views(out@);
        assert(after =~= all.push((key@, v)));
        assert(after.drop_last() =~= all);
        assert forall|a: int, b: int| 0 <= a < b < after.len() implies (#[trigger] after[a]).0 != (
        #[trigger] after[b]).0 by {
            assert(after[a] == all[a]);
        }
    }
    out
}

proof fn lemma_update_key(es: Seq<(Seq<char>, toml::Value)>, i: int, v: toml::Value)
    requires
        0 <= i < es.len(),
        distinct_keys(es),
    ensures
        distinct_keys(es.update(i, (es[i].0, v))),
        lookup(es.update(i, (es[i].0, v)), es[i].0) == Some(v),
        forall|k: Seq<char>|
            k != es[i].0 ==> #[trigger] lookup(es.update(i, (es[i].0, v)), k) == lookup(es, k),
    decreases es.len(),
{
    let u = es.update(i, (es[i].0, v));
    assert forall|a: int, b: int| 0 <= a < b < u.len() implies (#[trigger] u[a]).0 != (
    #[trigger] u[b]).0 by {
        assert(es[a].0 != es[b].0);
    }
    if i == es.len() - 1 {
        assert(u.drop_last() =~= es.drop_last());
        assert forall|k: Seq<char>| k != es[i].0 implies #[trigger] lookup(u, k) == lookup(es, k) by {
            assert(u.last().0 == es[i].0);
        }
    } else {
        let init = es.drop_last();
        assert(distinct_keys(init)) by {
            assert forall|a: int, b: int| 0 <= a < b < init.len() implies (#[trigger] init[a]).0 != (
            #[trigger] init[b]).0 by {
                assert(es[a].0 != es[b].0);
            }
        }
        lemma_update_key(init, i, v);
        assert(u.drop_last() =~= init.update(i, (init[i].0, v)));
        assert(es[i].0 != es[es.len() - 1].0);
        assert(u.last() == es.last());
        assert forall|k: Seq<char>| k != es[i].0 implies #[trigger] lookup(u, k) == lookup(es, k) by {
            assert(lookup(u.drop_last(), k) == lookup(init, k));
        }
    }
}

/// The array of these strings.
fn text_list(names: &Vec<String>) -> (v: toml::Value)
    ensures
        is_text_list(v, texts(names@)),
{
    let mut items: Vec<toml::Value> = Vec::new();
    let mut i: usize = 0;
    while i < names.len()
        invariant
            i <= names@.len(),
            items@.len() == i,
            forall|j: int|
                0 <= j < i ==> contents(#[trigger] items@[j]) == Doc::Str(texts(names@)[j]),
        decreases names@.len() - i,
    {
        items.push(string_value(names[i].clone()));
        i += 1;
    }
    array_value(items)
}

/// The document with the names of the enabled plugins set; `None` stands for no document.
pub fn with_enabled(before: Option<toml::Value>, enabled: &Vec<String>) -> (after: toml::Value)
    ensures
        is_updated(before, after, texts(enabled@)),
{
    let none: Vec<(String, toml::Value)> = Vec::new();
    assert(entry_views(none@) =~= Seq::<(Seq<char>, toml::Value)>::empty());
    let top: Vec<(String, toml::Value)> = match &before {
        Some(v) => match as_table(v) {
            Some(es) => es,
            None => none,
        },
        None => none,
    };
    assert(entry_views(top@) == table_entries(before));
    let section: Vec<(String, toml::Value)> = plugins_section(&top);
    let table: toml::Value = table_value(set_key(section, "enabled", text_list(enabled)));
    let after: toml::Value = table_value(set_key(top, "plugins", table));
    after
}

/// The entries of the `plugins` table, none where there is no such table.
fn plugins_section(top: &Vec<(String, toml::Value)>) -> (out: Vec<(String, toml::Value)>)
    requires
        distinct_keys(entry_views(top@)),
    ensures
        distinct_keys(entry_views(out@)),
        entry_views(out@) == table_entries(lookup(entry_views(top@), "plugins"@)),
{
    let ghost all = entry_views(top@);
    let mut i: usize = top.len();
    assert(all.take(i as int) =~= all);
    while i > 0
        invariant
            i <= top@.len(),
            all == entry_views(top@),
            lookup(all, "plugins"@) == lookup(all.take(i as int), "plugins"@),
        decreases i,
    {
        assert(all.take(i as int).drop_last() =~= all.take(i - 1));
        assert(all.take(i as int).last() == (top@[i - 1].0@, top@[i - 1].1));
        if same_text(top[i - 1].0.as_str(), "plugins") {
            return match as_table(&top[i - 1].1) {
                Some(es) => es,
                None => {
                    let none: Vec<(String, toml::Value)> = Vec::new();
                    assert(entry_views(none@) =~= Seq::<(Seq<char>, toml::Value)>::empty());
                    none
                },
            };
        }
        i -= 1;
    }
    let none: Vec<(String, toml::Value)> = Vec::new();
    assert(entry_views(none@) =~= Seq::<(Seq<char>, toml::Value)>::empty());
    none
}

/// What a document says of the plugins.
pub open spec fn said_by(v: Option<toml::Value>) -> PluginsView {
    match v {
        Some(d) => document_plugins(d),
        None => no_plugins(),
    }
}

/// The document that there is, where the text is TOML.
pub open spec fn existing_document(text: Option<Seq<char>>) -> Option<toml::Value> {
    match text {
        Some(t) => toml_document(t),
        None => None,
    }
}

/// The document is one that is sure to be read back once it was written.
pub open spec fn is_plain(v: Option<toml::Value>) -> bool {
    match v {
        Some(d) => contents(d) is Table ==> plain_to(d, PARTS as nat),
        None => true,
    }
}

/// The same pairs, in any order.
pub open spec fn same_pairs(
    a: Seq<(Seq<char>, Seq<char>)>,
    b: Seq<(Seq<char>, Seq<char>)>,
) -> bool {
    forall|p: (Seq<char>, Seq<char>)| #[trigger] a.contains(p) <==> b.contains(p)
}

/// What a reader of the written file finds: the plugins that are on, the programs and the limit that
/// were there before, and under every other key, in the document and in its `plugins` table, what was
/// there before.
pub open spec fn reads_as(
    written: toml::Value,
    before: Option<toml::Value>,
    names: Seq<Seq<char>>,
) -> bool {
    &&& normal_names(names) ==> document_plugins(written).enabled == names
    &&& document_plugins(written).memory_limit_mb == said_by(before).memory_limit_mb
    &&& same_pairs(document_plugins(written).paths, said_by(before).paths)
    &&& forall|k: Seq<char>|
        k != "plugins"@ ==> same(
            #[trigger] lookup(table_entries(Some(written)), k),
            lookup(table_entries(before), k),
        )
    &&& forall|k: Seq<char>|
        k != "enabled"@ ==> same(
            #[trigger] lookup(table_entries(lookup(table_entries(Some(written)), "plugins"@)), k),
            lookup(table_entries(lookup(table_entries(before), "plugins"@)), k),
        )
}

/// What was found under a key can be written, nested at most `n` deep.
pub open spec fn tame_found(v: Option<toml::Value>, n: nat) -> bool {
    match v {
        Some(x) => tame(x, n),
        None => true,
    }
}

/// The document can be written once the plugins are set in it: so can the names, and all that is
/// kept of what was there before. How deep that is nested does not matter: no value that a machine
/// holds has more than `usize::MAX` levels.
pub open spec fn can_be_written(before: Option<toml::Value>, names: Seq<Seq<char>>) -> bool {
    &&& forall|i: int| 0 <= i < names.len() ==> !has_long_quotes(#[trigger] names[i])
    &&& forall|k: Seq<char>|
        k != "plugins"@ ==> tame_found(
            #[trigger] lookup(table_entries(before), k),
            (usize::MAX - 1) as nat,
        )
    &&& forall|k: Seq<char>|
        k != "enabled"@ ==> tame_found(
            #[trigger] lookup(table_entries(lookup(table_entries(before), "plugins"@)), k),
            (usize::MAX - 2) as nat,
        )
}

/// The text of the configuration file with the names of the enabled plugins set; `existing` is the
/// file's text, `None` where there is none. A text that is no TOML is replaced. What is written is
/// read back, and everything else in the file is kept, unless its keys have too many parts or its
/// values are nested too deep to be read again. `None` where the document cannot be written.
pub fn write_plugins_enabled(existing: Option<&str>, enabled: &Vec<String>) -> (text: Option<String>)
    ensures
        text is Some <==> can_be_written(existing_document(opt_text(existing)), texts(enabled@)),
        text is Some ==> exists|after: toml::Value|
            is_updated(existing_document(opt_text(existing)), after, texts(enabled@))
                && #[trigger] toml_text(after) == Some(text->0@),
        text is Some && is_plain(existing_document(opt_text(existing))) ==> (toml_document(
            text->0@,
        ) matches Some(w) && reads_as(
            w,
            existing_document(opt_text(existing)),
            texts(enabled@),
        )),
{
    let before: Option<toml::Value> = match existing {
        Some(t) => parse_toml(t),
        None => None,
    };
    let after: toml::Value = with_enabled(before, enabled);
    proof {
        lemma_updated_can_be_written(before, after, texts(enabled@));
    }
    if !is_tame(&after, usize::MAX) {
        return None;
    }
    let text: Option<String> = write_toml(&after);
    proof {
        let names = texts(enabled@);
        assert(before == existing_document(opt_text(existing)));
        if is_plain(before) {
            lemma_updated_is_plain(before, after, names);
            lemma_reads_as(toml_document(text->0@)->0, before, after, names);
        }
    }
    text
}

proof fn lemma_lookup_found(es: Seq<(Seq<char>, toml::Value)>, key: Seq<char>)
    ensures
        lookup(es, key) matches Some(v) ==> exists|i: int|
            0 <= i < es.len() && #[trigger] es[i] == (key, v),
    decreases es.len(),
{
    if es.len() > 0 {
        if es.last().0 == key {
            assert(es[es.len() - 1] == (key, es.last().1));
        } else {
            lemma_lookup_found(es.drop_last(), key);
            if let Some(v) = lookup(es, key) {
                let i = choose|i: int|
                    0 <= i < es.drop_last().len() && #[trigger] es.drop_last()[i] == (key, v);
                assert(es[i] == (key, v));
            }
        }
    }
}

proof fn lemma_lookup_at(es: Seq<(Seq<char>, toml::Value)>, i: int)
    requires
        distinct_keys(es),
        0 <= i < es.len(),
    ensures
        lookup(es, es[i].0) == Some(es[i].1),
    decreases es.len(),
{
    if i < es.len() - 1 {
        let init = es.drop_last();
        assert(es[i].0 != es[es.len() - 1].0);
        assert(distinct_keys(init)) by {
            assert forall|a: int, b: int| 0 <= a < b < init.len() implies (#[trigger] init[a]).0 != (
            #[trigger] init[b]).0 by {
                assert(es[a].0 != es[b].0);
            }
        }
        assert(init[i] == es[i]);
        lemma_lookup_at(init, i);
    }
}

/// A table's value under a key is as plain as the table allows, and the key is no date's.
proof fn lemma_plain_found(v: toml::Value, n: nat, key: Seq<char>)
    requires
        plain_to(v, n),
    ensures
        lookup(table_entries(Some(v)), key) matches Some(x) ==> key != DATE_KEY@ && below_to(x, n),
{
    let es = table_entries(Some(v));
    lemma_lookup_found(es, key);
    if let Some(x) = lookup(es, key) {
        let i = choose|i: int| 0 <= i < es.len() && #[trigger] es[i] == (key, x);
        assert(es[i].0 == key);
    }
}

/// A plain document stays plain when the plugins are set in it.
proof fn lemma_updated_is_plain(
    before: Option<toml::Value>,
    after: toml::Value,
    names: Seq<Seq<char>>,
)
    requires
        is_updated(before, after, names),
        is_plain(before),
    ensures
        plain_to(after, PARTS as nat),
{
    reveal_strlit("plugins");
    reveal_strlit("enabled");
    reveal_strlit("$__toml_private_datetime");
    let t = table_entries(Some(after));
    let p = lookup(t, "plugins"@)->0;
    let inner = table_entries(Some(p));
    let section = lookup(table_entries(before), "plugins"@);
    let e = lookup(inner, "enabled"@)->0;
    assert(DATE_KEY@.len() == 24 && "plugins"@.len() == 7 && "enabled"@.len() == 7);
    assert(below_to(e, 78)) by {
        let items = contents(e)->List_0;
        assert forall|i: int| 0 <= i < items.len() implies inline_to(#[trigger] items[i], 78) by {
            assert(contents(items[i]) == Doc::Str(names[i]));
        }
        if are_tables(items) {
            assert(contents(items[0]) == Doc::Str(names[0]));
        }
        assert(inline_to(e, NESTED as nat));
    }
    assert forall|i: int| 0 <= i < inner.len() implies (#[trigger] inner[i]).0 != DATE_KEY@
        && below_to(inner[i].1, 78) by {
        lemma_lookup_at(inner, i);
        let k = inner[i].0;
        if k != "enabled"@ {
            assert(lookup(inner, k) == lookup(table_entries(section), k));
            assert(lookup(table_entries(section), k) is Some);
            let s = section->0;
            assert(section is Some && contents(s) is Table);
            let d = before->0;
            assert(before is Some && contents(d) is Table);
            lemma_plain_found(d, 79, "plugins"@);
            assert(plain_to(s, 78));
            lemma_plain_found(s, 78, k);
        }
    }
    assert(plain_to(p, 78));
    assert(below_to(p, 79));
    assert forall|i: int| 0 <= i < t.len() implies (#[trigger] t[i]).0 != DATE_KEY@ && below_to(
        t[i].1,
        79,
    ) by {
        lemma_lookup_at(t, i);
        let k = t[i].0;
        if k != "plugins"@ {
            assert(lookup(t, k) == lookup(table_entries(before), k));
            let d = before->0;
            assert(before is Some && contents(d) is Table);
            lemma_plain_found(d, 79, k);
        }
    }
}

/// A table's values are found under its keys: it can be written where each of them can.
proof fn lemma_tame_table(v: toml::Value, n: nat)
    requires
        n > 0,
        contents(v) matches Doc::Table(t) && distinct_keys(t),
    ensures
        tame(v, n) <==> forall|k: Seq<char>|
            tame_found(#[trigger] lookup(table_entries(Some(v)), k), (n - 1) as nat),
{
    let t = table_entries(Some(v));
    if tame(v, n) {
        assert forall|k: Seq<char>| tame_found(#[trigger] lookup(t, k), (n - 1) as nat) by {
            lemma_lookup_found(t, k);
            if let Some(x) = lookup(t, k) {
                let i = choose|i: int| 0 <= i < t.len() && #[trigger] t[i] == (k, x);
                assert(tame(t[i].1, (n - 1) as nat));
            }
        }
    }
    if forall|k: Seq<char>| tame_found(#[trigger] lookup(t, k), (n - 1) as nat) {
        assert forall|i: int| 0 <= i < t.len() implies tame((#[trigger] t[i]).1, (n - 1) as nat) by {
            lemma_lookup_at(t, i);
            assert(tame_found(lookup(t, t[i].0), (n - 1) as nat));
        }
    }
}

/// A list of strings can be written where each of them can.
proof fn lemma_tame_names(v: toml::Value, names: Seq<Seq<char>>, n: nat)
    requires
        n > 0,
        is_text_list(v, names),
    ensures
        tame(v, n) <==> forall|i: int| 0 <= i < names.len() ==> !has_long_quotes(#[trigger] names[i]),
{
    let items = contents(v)->List_0;
    assert forall|i: int| 0 <= i < items.len() implies (tame(#[trigger] items[i], (n - 1) as nat)
        <==> !has_long_quotes(names[i])) by {
        assert(contents(items[i]) == Doc::Str(names[i]));
    }
    if tame(v, n) {
        assert forall|i: int| 0 <= i < names.len() implies !has_long_quotes(#[trigger] names[i]) by {
            assert(tame(items[i], (n - 1) as nat));
        }
    }
}

/// Whether the updated document can be written shows in what it was made of.
proof fn lemma_updated_can_be_written(
    before: Option<toml::Value>,
    after: toml::Value,
    names: Seq<Seq<char>>,
)
    requires
        is_updated(before, after, names),
    ensures
        tame(after, usize::MAX as nat) <==> can_be_written(before, names),
{
    let t = table_entries(Some(after));
    let p = lookup(t, "plugins"@)->0;
    let inner = table_entries(Some(p));
    let e = lookup(inner, "enabled"@)->0;
    let old_top = table_entries(before);
    let old_inner = table_entries(lookup(old_top, "plugins"@));
    let n1 = (usize::MAX - 1) as nat;
    let n2 = (usize::MAX - 2) as nat;
    lemma_tame_table(after, usize::MAX as nat);
    lemma_tame_table(p, n1);
    lemma_tame_names(e, names, n2);
    if tame(after, usize::MAX as nat) {
        assert(tame_found(lookup(t, "plugins"@), n1));
        assert(tame_found(lookup(inner, "enabled"@), n2));
        assert forall|k: Seq<char>| k != "plugins"@ implies tame_found(
            #[trigger] lookup(old_top, k),
            n1,
        ) by {
            assert(tame_found(lookup(t, k), n1));
        }
        assert forall|k: Seq<char>| k != "enabled"@ implies tame_found(
            #[trigger] lookup(old_inner, k),
            n2,
        ) by {
            assert(tame_found(lookup(inner, k), n2));
        }
    }
    if can_be_written(before, names) {
        assert forall|k: Seq<char>| tame_found(#[trigger] lookup(inner, k), n2) by {
            if k != "enabled"@ {
                assert(tame_found(lookup(old_inner, k), n2));
            }
        }
        assert forall|k: Seq<char>| tame_found(#[trigger] lookup(t, k), n1) by {
            if k != "plugins"@ {
                assert(tame_found(lookup(old_top, k), n1));
            }
        }
    }
}

/// A list of names as it is kept: trimmed, none of them empty, none of them twice.
pub open spec fn normal_names(names: Seq<Seq<char>>) -> bool {
    &&& names.no_duplicates()
    &&& forall|i: int|
        0 <= i < names.len() ==> (#[trigger] names[i]).len() > 0 && trim(names[i]) == names[i]
}

/// The names that a configuration enables are trimmed, not empty, and different.
pub proof fn lemma_enabled_are_normal(items: Seq<toml::Value>)
    ensures
        normal_names(enabled_names(items)),
    decreases items.len(),
{
    if items.len() > 0 {
        lemma_enabled_are_normal(items.drop_last());
        let before = enabled_names(items.drop_last());
        if let Doc::Str(s) = contents(items.last()) {
            crate::text::lemma_trim_idempotent(s);
            let all = before.push(trim(s));
            if trim(s).len() > 0 && !before.contains(trim(s)) {
                assert forall|i: int, j: int|
                    0 <= i < all.len() && 0 <= j < all.len() && i != j implies all[i] != all[j] by {
                    if i < before.len() {
                        assert(before.contains(before[i]));
                    }
                    if j < before.len() {
                        assert(before.contains(before[j]));
                    }
                }
            }
        }
    }
}

proof fn lemma_names_of_list(items: Seq<toml::Value>, names: Seq<Seq<char>>)
    requires
        normal_names(names),
        items.len() == names.len(),
        forall|i: int| 0 <= i < items.len() ==> contents(#[trigger] items[i]) == Doc::Str(names[i]),
    ensures
        enabled_names(items) == names,
    decreases items.len(),
{
    if items.len() > 0 {
        let i0 = items.drop_last();
        let n0 = names.drop_last();
        assert forall|i: int| 0 <= i < i0.len() implies contents(#[trigger] i0[i]) == Doc::Str(
            n0[i],
        ) by {
            assert(items[i] == i0[i]);
        }
        assert forall|i: int, j: int| 0 <= i < n0.len() && 0 <= j < n0.len() && i != j implies n0[i]
            != n0[j] by {
            assert(names[i] != names[j]);
        }
        assert forall|i: int| 0 <= i < n0.len() implies (#[trigger] n0[i]).len() > 0 && trim(n0[i])
            == n0[i] by {
            assert(names[i] == n0[i]);
        }
        lemma_names_of_list(i0, n0);
        let last = names[names.len() - 1];
        assert(contents(items[items.len() - 1]) == Doc::Str(last));
        assert(trim(last) == last);
        assert(!n0.contains(last)) by {
            if n0.contains(last) {
                let j = choose|j: int| 0 <= j < n0.len() && n0[j] == last;
                assert(names[j] == names[names.len() - 1]);
            }
        }
        assert(n0.push(last) =~= names);
    } else {
        assert(names =~= Seq::<Seq<char>>::empty());
    }
}

/// Only the entry under the key counts.
proof fn lemma_only_plugins_entry(c: PluginsView, es: Seq<(Seq<char>, toml::Value)>)
    requires
        distinct_keys(es),
    ensures
        with_document_entries(c, es) == match lookup(es, "plugins"@) {
            Some(p) => with_plugins(c, p),
            None => c,
        },
    decreases es.len(),
{
    if es.len() > 0 {
        let init = es.drop_last();
        assert(distinct_keys(init)) by {
            assert forall|i: int, j: int| 0 <= i < j < init.len() implies (#[trigger] init[i]).0 != (
            #[trigger] init[j]).0 by {
                assert(es[i].0 != es[j].0);
            }
        }
        lemma_only_plugins_entry(c, init);
        if es.last().0 == "plugins"@ {
            assert forall|i: int| 0 <= i < init.len() implies (#[trigger] init[i]).0 != "plugins"@ by {
                assert(es[i].0 != es[es.len() - 1].0);
            }
            lemma_lookup_absent(init, "plugins"@);
        }
    }
}

proof fn lemma_enabled_of_entries(c: PluginsView, es: Seq<(Seq<char>, toml::Value)>)
    requires
        distinct_keys(es),
    ensures
        with_plugin_entries(c, es).enabled == match lookup(es, "enabled"@) {
            Some(e) => match contents(e) {
                Doc::List(items) => c.enabled + enabled_names(items),
                _ => c.enabled,
            },
            None => c.enabled,
        },
    decreases es.len(),
{
    if es.len() > 0 {
        let init = es.drop_last();
        assert(distinct_keys(init)) by {
            assert forall|i: int, j: int| 0 <= i < j < init.len() implies (#[trigger] init[i]).0 != (
            #[trigger] init[j]).0 by {
                assert(es[i].0 != es[j].0);
            }
        }
        lemma_enabled_of_entries(c, init);
        if es.last().0 == "enabled"@ {
            assert forall|i: int| 0 <= i < init.len() implies (#[trigger] init[i]).0 != "enabled"@ by {
                assert(es[i].0 != es[es.len() - 1].0);
            }
            lemma_lookup_absent(init, "enabled"@);
        }
    }
}

proof fn lemma_limit_of_entries(c: PluginsView, es: Seq<(Seq<char>, toml::Value)>)
    requires
        distinct_keys(es),
    ensures
        with_plugin_entries(c, es).memory_limit_mb == match lookup(es, "memory_limit_mb"@) {
            Some(e) => match contents(e) {
                Doc::Int(n) if n >= 0 => Some(n as u64),
                _ => c.memory_limit_mb,
            },
            None => c.memory_limit_mb,
        },
        with_plugin_entries(c, es).paths == match lookup(es, "paths"@) {
            Some(e) => match contents(e) {
                Doc::Table(t) => c.paths + program_paths(t),
                _ => c.paths,
            },
            None => c.paths,
        },
    decreases es.len(),
{
    reveal_strlit("enabled");
    reveal_strlit("paths");
    reveal_strlit("memory_limit_mb");
    assert("enabled"@.len() == 7 && "paths"@.len() == 5 && "memory_limit_mb"@.len() == 15);
    if es.len() > 0 {
        let init = es.drop_last();
        assert(distinct_keys(init)) by {
            assert forall|i: int, j: int| 0 <= i < j < init.len() implies (#[trigger] init[i]).0 != (
            #[trigger] init[j]).0 by {
                assert(es[i].0 != es[j].0);
            }
        }
        lemma_limit_of_entries(c, init);
        let k = es.last().0;
        assert forall|i: int| 0 <= i < init.len() implies (#[trigger] init[i]).0 != k by {
            assert(es[i].0 != es[es.len() - 1].0);
        }
        lemma_lookup_absent(init, k);
    }
}

/// The programs in tables that hold the same are the same.
proof fn lemma_same_paths(
    a: Seq<(Seq<char>, toml::Value)>,
    b: Seq<(Seq<char>, toml::Value)>,
)
    requires
        distinct_keys(a),
        distinct_keys(b),
        forall|k: Seq<char>| same(#[trigger] lookup(a, k), lookup(b, k)),
    ensures
        same_pairs(program_paths(a), program_paths(b)),
{
    assert forall|p: (Seq<char>, Seq<char>)| #[trigger]
        program_paths(a).contains(p) <==> program_paths(b).contains(p) by {
        lemma_path_found(a, p);
        lemma_path_found(b, p);
        assert(same(lookup(a, p.0), lookup(b, p.0)));
        assert(same_found(lookup(a, p.0), lookup(b, p.0), 1));
    }
}

/// A program is among those of a table if and only if its path stands under its name.
proof fn lemma_path_found(es: Seq<(Seq<char>, toml::Value)>, p: (Seq<char>, Seq<char>))
    requires
        distinct_keys(es),
    ensures
        program_paths(es).contains(p) <==> (lookup(es, p.0) matches Some(v) && (contents(
            v,
        ) matches Doc::Str(s) && trim(s).len() > 0 && trim(s) == p.1)),
    decreases es.len(),
{
    if es.len() > 0 {
        let init = es.drop_last();
        assert(distinct_keys(init)) by {
            assert forall|i: int, j: int| 0 <= i < j < init.len() implies (#[trigger] init[i]).0 != (
            #[trigger] init[j]).0 by {
                assert(es[i].0 != es[j].0);
            }
        }
        lemma_path_found(init, p);
        let before = program_paths(init);
        let all = program_paths(es);
        if all.len() == before.len() + 1 {
            assert(all.drop_last() =~= before);
            assert(all.contains(p) <==> before.contains(p) || all.last() == p) by {
                if before.contains(p) {
                    let i = before.index_of(p);
                    assert(all[i] == p);
                }
                if all.last() == p {
                    assert(all[all.len() - 1] == p);
                }
            }
        }
        if es.last().0 == p.0 {
            assert forall|i: int| 0 <= i < init.len() implies (#[trigger] init[i]).0 != p.0 by {
                assert(es[i].0 != es[es.len() - 1].0);
            }
            lemma_lookup_absent(init, p.0);
        }
    }
}

/// What is written is read back: a document with the enabled plugins set to a list of names
/// describes a configuration that enables exactly these, in this order.
pub proof fn lemma_enabled_read_back(
    before: Option<toml::Value>,
    after: toml::Value,
    names: Seq<Seq<char>>,
)
    requires
        is_updated(before, after, names),
        normal_names(names),
    ensures
        document_plugins(after).enabled == names,
{
    let es = table_entries(Some(after));
    lemma_only_plugins_entry(no_plugins(), es);
    let p = lookup(es, "plugins"@)->0;
    let inner = table_entries(Some(p));
    lemma_enabled_of_entries(no_plugins(), inner);
    let e = lookup(inner, "enabled"@)->0;
    if let Doc::List(items) = contents(e) {
        lemma_names_of_list(items, names);
        assert(no_plugins().enabled + names =~= names);
    }
}

/// Values that are the same are of one kind, and hold the same.
proof fn lemma_same_inside(w: toml::Value, v: toml::Value)
    requires
        same(Some(w), Some(v)),
    ensures
        match contents(v) {
            Doc::Str(s) => contents(w) == Doc::Str(s),
            Doc::Int(n) => contents(w) == Doc::Int(n),
            Doc::List(b) => contents(w) matches Doc::List(a) && a.len() == b.len() && forall|i: int|
                0 <= i < a.len() ==> same(Some(#[trigger] a[i]), Some(b[i])),
            Doc::Table(b) => contents(w) matches Doc::Table(a) && distinct_keys(a) && forall|
                k: Seq<char>,
            | same(#[trigger] lookup(a, k), lookup(b, k)),
            _ => !(contents(w) is Str || contents(w) is Int || contents(w) is List || contents(
                w,
            ) is Table),
        },
{
    assert(same_found(Some(w), Some(v), 1));
    assert(same_to(w, v, 1));
    match (contents(w), contents(v)) {
        (Doc::List(a), Doc::List(b)) => {
            assert forall|i: int| 0 <= i < a.len() implies same(Some(#[trigger] a[i]), Some(b[i])) by {
                assert forall|n: nat| #[trigger] same_found(Some(a[i]), Some(b[i]), n) by {
                    assert(same_found(Some(w), Some(v), n + 1));
                    assert(same_to(w, v, n + 1));
                    assert(same_to(a[i], b[i], (n + 1 - 1) as nat));
                }
            }
        },
        (Doc::Table(a), Doc::Table(b)) => {
            assert forall|k: Seq<char>| same(#[trigger] lookup(a, k), lookup(b, k)) by {
                assert forall|n: nat| #[trigger] same_found(lookup(a, k), lookup(b, k), n) by {
                    assert(same_found(Some(w), Some(v), n + 1));
                    assert(same_to(w, v, n + 1));
                    assert(same_found(lookup(a, k), lookup(b, k), (n + 1 - 1) as nat));
                }
            }
        },
        _ => {},
    }
}

/// A file that holds the same as the updated document is read as one would expect.
proof fn lemma_reads_as(
    w: toml::Value,
    before: Option<toml::Value>,
    after: toml::Value,
    names: Seq<Seq<char>>,
)
    requires
        same(Some(w), Some(after)),
        is_updated(before, after, names),
        is_plain(before),
    ensures
        reads_as(w, before, names),
{
    let t = table_entries(Some(after));
    let tw = table_entries(Some(w));
    let p = lookup(t, "plugins"@)->0;
    lemma_same_inside(w, after);
    assert(same(lookup(tw, "plugins"@), lookup(t, "plugins"@)));
    assert(same_found(lookup(tw, "plugins"@), lookup(t, "plugins"@), 1));
    let pw = lookup(tw, "plugins"@)->0;
    lemma_same_inside(pw, p);
    let inner = table_entries(Some(p));
    let inner_w = table_entries(Some(pw));
    lemma_only_plugins_entry(no_plugins(), tw);
    lemma_enabled_of_entries(no_plugins(), inner_w);
    lemma_limit_of_entries(no_plugins(), inner_w);
    assert(document_plugins(w) == with_plugin_entries(no_plugins(), inner_w));
    // The names.
    assert(same(lookup(inner_w, "enabled"@), lookup(inner, "enabled"@)));
    assert(same_found(lookup(inner_w, "enabled"@), lookup(inner, "enabled"@), 1));
    let e = lookup(inner, "enabled"@)->0;
    let ew = lookup(inner_w, "enabled"@)->0;
    lemma_same_inside(ew, e);
    if normal_names(names) {
        let items = contents(e)->List_0;
        let items_w = contents(ew)->List_0;
        assert forall|i: int| 0 <= i < items_w.len() implies contents(#[trigger] items_w[i]) == Doc::Str(
            names[i],
        ) by {
            assert(contents(items[i]) == Doc::Str(names[i]));
            lemma_same_inside(items_w[i], items[i]);
        }
        lemma_names_of_list(items_w, names);
        assert(no_plugins().enabled + names =~= names);
    }
    // The limit and the programs.
    let section = table_entries(lookup(table_entries(before), "plugins"@));
    if before is Some && contents(before->0) is Table {
        lemma_plain_found(before->0, 79, "plugins"@);
    }
    assert(distinct_keys(section));
    reveal_strlit("enabled");
    reveal_strlit("paths");
    reveal_strlit("memory_limit_mb");
    assert("enabled"@.len() == 7 && "paths"@.len() == 5 && "memory_limit_mb"@.len() == 15);
    lemma_said_by(before);
    lemma_limit_of_entries(no_plugins(), section);
    assert(lookup(inner, "memory_limit_mb"@) == lookup(section, "memory_limit_mb"@));
    assert(same(lookup(inner_w, "memory_limit_mb"@), lookup(inner, "memory_limit_mb"@)));
    assert(same_found(lookup(inner_w, "memory_limit_mb"@), lookup(inner, "memory_limit_mb"@), 1));
    if let Some(x) = lookup(inner, "memory_limit_mb"@) {
        lemma_same_inside(lookup(inner_w, "memory_limit_mb"@)->0, x);
    }
    assert(lookup(inner, "paths"@) == lookup(section, "paths"@));
    assert(same(lookup(inner_w, "paths"@), lookup(inner, "paths"@)));
    assert(same_found(lookup(inner_w, "paths"@), lookup(inner, "paths"@), 1));
    if let Some(x) = lookup(inner, "paths"@) {
        let xw = lookup(inner_w, "paths"@)->0;
        lemma_same_inside(xw, x);
        lemma_plain_found(before->0, 79, "plugins"@);
        lemma_plain_found(lookup(table_entries(before), "plugins"@)->0, 78, "paths"@);
        if let Doc::Table(a) = contents(xw) {
            let b = contents(x)->Table_0;
            assert(plain_to(x, 77));
            lemma_same_paths(a, b);
            assert(no_plugins().paths + program_paths(a) =~= program_paths(a));
            assert(no_plugins().paths + program_paths(b) =~= program_paths(b));
        }
    }
    // The other keys.
    assert forall|k: Seq<char>| k != "plugins"@ implies same(
        #[trigger] lookup(tw, k),
        lookup(table_entries(before), k),
    ) by {
        assert(lookup(t, k) == lookup(table_entries(before), k));
    }
    assert forall|k: Seq<char>| k != "enabled"@ implies same(
        #[trigger] lookup(inner_w, k),
        lookup(section, k),
    ) by {
        assert(lookup(inner, k) == lookup(section, k));
    }
}

/// What a document says of the plugins is what its `plugins` table says.
proof fn lemma_said_by(v: Option<toml::Value>)
    requires
        distinct_keys(table_entries(v)),
    ensures
        said_by(v) == with_plugin_entries(
            no_plugins(),
            table_entries(lookup(table_entries(v), "plugins"@)),
        ),
{
    lemma_only_plugins_entry(no_plugins(), table_entries(v));
}

/// The item is a string that is the name once the white space around it is cut.
pub open spec fn names_it(item: toml::Value, name: Seq<char>) -> bool {
    contents(item) matches Doc::Str(s) && trim(s) == name
}

/// A name is on if and only if it is not empty and some string of the list is that name, with any white
/// space around it; names come in the order in which each stands first, whatever follows.
pub proof fn lemma_names_that_are_on(items: Seq<toml::Value>, more: Seq<toml::Value>)
    ensures
        forall|name: Seq<char>| #[trigger]
            enabled_names(items).contains(name) <==> name.len() > 0 && exists|i: int|
                0 <= i < items.len() && names_it(#[trigger] items[i], name),
        enabled_names(items + more).len() >= enabled_names(items).len(),
        enabled_names(items + more).take(enabled_names(items).len() as int) == enabled_names(items),
    decreases items.len(), more.len(),
{
    if more.len() > 0 {
        lemma_names_that_are_on(items, more.drop_last());
        assert((items + more).drop_last() =~= items + more.drop_last());
        let before = enabled_names(items + more.drop_last());
        let n = enabled_names(items).len() as int;
        assert(enabled_names(items + more).take(n) =~= before.take(n));
    } else {
        assert(items + more =~= items);
        assert(enabled_names(items).take(enabled_names(items).len() as int) =~= enabled_names(items));
        if items.len() > 0 {
            let init = items.drop_last();
            let before = enabled_names(init);
            let all = enabled_names(items);
            let none = Seq::<toml::Value>::empty();
            lemma_names_that_are_on(init, none);
            assert forall|name: Seq<char>| #[trigger]
                all.contains(name) <==> name.len() > 0 && exists|i: int|
                    0 <= i < items.len() && names_it(#[trigger] items[i], name) by {
                if all.contains(name) {
                    if before.contains(name) {
                        let i = choose|i: int| 0 <= i < init.len() && names_it(#[trigger] init[i], name);
                        assert(names_it(items[i], name));
                    } else {
                        assert(names_it(items[items.len() - 1], name));
                    }
                }
                if name.len() > 0 && exists|i: int|
                    0 <= i < items.len() && names_it(#[trigger] items[i], name) {
                    let i = choose|i: int| 0 <= i < items.len() && names_it(#[trigger] items[i], name);
                    if i < init.len() {
                        assert(names_it(init[i], name));
                        assert(before.contains(name));
                    }
                    if before.contains(name) {
                        assert(all[before.index_of(name)] == name);
                    } else {
                        assert(all[before.len() as int] == name);
                    }
                }
            }
        }
    }
}

/// A document says of the plugins what stands in its `plugins` table: the names that the list under
/// `enabled` gives; for each program of the table under `paths` its path, unless that is blank or no
/// string; and the whole number under `memory_limit_mb`, unless that is negative.
pub proof fn lemma_what_a_document_says(v: toml::Value, p: toml::Value)
    requires
        contents(v) is Table,
        distinct_keys(table_entries(Some(v))),
        lookup(table_entries(Some(v)), "plugins"@) == Some(p),
        contents(p) is Table,
        distinct_keys(table_entries(Some(p))),
    ensures
        ({
            let es = table_entries(Some(p));
            let said = document_plugins(v);
            &&& lookup(es, "enabled"@) matches Some(e) ==> contents(e) is List ==> said.enabled
                == enabled_names(contents(e)->List_0)
            &&& !(lookup(es, "enabled"@) matches Some(e) && contents(e) is List) ==> said.enabled
                == Seq::<Seq<char>>::empty()
            &&& lookup(es, "paths"@) matches Some(e) ==> contents(e) is Table ==> distinct_keys(
                contents(e)->Table_0,
            ) ==> forall|name: Seq<char>, path: Seq<char>| #[trigger]
                said.paths.contains((name, path)) <==> path.len() > 0 && (lookup(
                    contents(e)->Table_0,
                    name,
                ) matches Some(x) && names_it(x, path))
            &&& !(lookup(es, "paths"@) matches Some(e) && contents(e) is Table) ==> said.paths
                == Seq::<(Seq<char>, Seq<char>)>::empty()
            &&& match lookup(es, "memory_limit_mb"@) {
                Some(e) if contents(e) is Int && contents(e)->Int_0 >= 0 => said.memory_limit_mb
                    matches Some(n) && n == contents(e)->Int_0,
                _ => said.memory_limit_mb is None,
            }
        }),
{
    let es = table_entries(Some(p));
    lemma_only_plugins_entry(no_plugins(), table_entries(Some(v)));
    lemma_enabled_of_entries(no_plugins(), es);
    lemma_limit_of_entries(no_plugins(), es);
    if let Some(e) = lookup(es, "enabled"@) {
        if let Doc::List(items) = contents(e) {
            assert(no_plugins().enabled + enabled_names(items) =~= enabled_names(items));
        }
    }
    if let Some(e) = lookup(es, "paths"@) {
        if let Doc::Table(t) = contents(e) {
            assert(no_plugins().paths + program_paths(t) =~= program_paths(t));
            if distinct_keys(t) {
                assert forall|name: Seq<char>, path: Seq<char>| #[trigger]
                    document_plugins(v).paths.contains((name, path)) <==> path.len() > 0 && (lookup(
                        t,
                        name,
                    ) matches Some(x) && names_it(x, path)) by {
                    lemma_path_found(t, (name, path));
                }
            }
        }
    }
}

/// What has no `plugins` table says nothing of plugins.
pub proof fn lemma_other_documents_say_nothing(v: toml::Value)
    requires
        distinct_keys(table_entries(Some(v))),
        !(lookup(table_entries(Some(v)), "plugins"@) matches Some(p) && contents(p) is Table),
    ensures
        document_plugins(v).enabled == Seq::<Seq<char>>::empty(),
        document_plugins(v).paths == Seq::<(Seq<char>, Seq<char>)>::empty(),
        document_plugins(v).memory_limit_mb is None,
{
    lemma_only_plugins_entry(no_plugins(), table_entries(Some(v)));
}

/// What is written is read back: where the document there was is plain and the names are as they are
/// kept, the file turns just these plugins on, keeps the limit and the programs, and keeps what is under
/// every other key.
pub proof fn lemma_written_is_read_back(
    existing: Option<&str>,
    enabled: &Vec<String>,
    text: Option<String>,
    cfg: HostConfig,
    read: &str,
)
    requires
        call_ensures(write_plugins_enabled, (existing, enabled), text),
        text is Some,
        read@ == text->0@,
        call_ensures(parse_host_config, (read,), cfg),
        is_plain(existing_document(opt_text(existing))),
        normal_names(texts(enabled@)),
    ensures
        texts(cfg.plugins.enabled@) == texts(enabled@),
        cfg.plugins.memory_limit_mb == said_by(existing_document(opt_text(existing))).memory_limit_mb,
        forall|p: (Seq<char>, Seq<char>)| #[trigger]
            pair_texts(cfg.plugins.paths@).contains(p) <==> said_by(
                existing_document(opt_text(existing)),
            ).paths.contains(p),
{
    let w = toml_document(read@)->0;
    assert(cfg.plugins.view() == document_plugins(w));
    assert(same_pairs(document_plugins(w).paths, said_by(existing_document(opt_text(existing))).paths));
}

/// Without a file, or with one that is no TOML, the names that can be written are always written.
pub proof fn lemma_names_are_written(enabled: &Vec<String>, text: Option<String>)
    requires
        call_ensures(write_plugins_enabled, (None, enabled), text),
        forall|i: int| 0 <= i < enabled@.len() ==> (#[trigger] enabled@[i])@.len() < 256,
    ensures
        text is Some,
        normal_names(texts(enabled@)) ==> (toml_document(text->0@) matches Some(w) && document_plugins(
            w,
        ).enabled == texts(enabled@)),
{
    let names = texts(enabled@);
    assert forall|i: int| 0 <= i < names.len() implies !has_long_quotes(#[trigger] names[i]) by {
        assert(names[i] == enabled@[i]@);
        crate::config::document::lemma_too_many_quotes(Seq::empty(), '"', Seq::empty(), names[i]);
    }
    assert forall|k: Seq<char>| tame_found(
        #[trigger] lookup(table_entries(None), k),
        (usize::MAX - 1) as nat,
    ) by {}
    assert forall|k: Seq<char>| tame_found(
        #[trigger] lookup(table_entries(lookup(table_entries(None), "plugins"@)), k),
        (usize::MAX - 2) as nat,
    ) by {}
    assert(can_be_written(None, names));
}

} // verus!
