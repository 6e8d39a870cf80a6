use ninja::link::{recognize, strip_line_col, LinkHit, RowCell};
use ninja::open::{
    expand_tilde_home, expand_tilde_with, file_url_of_path, open_hit_target, osc7_to_path, OpenTarget,
};
use ninja::protocol::HitKind;
use ninja::url::{percent_decode, percent_decode_strict};

fn row(s: &str) -> Vec<RowCell> {
    s.chars()
        .map(|c| {
            if c.is_whitespace() {
                RowCell::Blank
            } else {
                RowCell::Text(c.to_string())
            }
        })
        .collect()
}

fn text_hit(cells: &[RowCell], click: usize) -> Option<LinkHit> {
    recognize(cells, click, None)
}

#[test]
fn absolute_path() {
    let cells = row("see /usr/local/bin/foo now");
    let h = text_hit(&cells, 12).unwrap();
    assert_eq!(h.kind, HitKind::Path);
    assert_eq!(h.text, "/usr/local/bin/foo");
    assert_eq!(h.start_col, 4);
    assert_eq!(h.end_col, 22);
    let h2 = text_hit(&cells, 21).unwrap();
    assert_eq!(h2.text, "/usr/local/bin/foo");
}

#[test]
fn home_and_dot_paths() {
    let h = text_hit(&row("edit ~/.config/ninja/ninja.toml"), 7).unwrap();
    assert_eq!(h.kind, HitKind::Path);
    assert_eq!(h.text, "~/.config/ninja/ninja.toml");

    let h = text_hit(&row("run ./target/debug/ninja ok"), 5).unwrap();
    assert_eq!(h.kind, HitKind::Path);
    assert_eq!(h.text, "./target/debug/ninja");

    let h = text_hit(&row("go ../sibling/x.txt"), 5).unwrap();
    assert_eq!(h.kind, HitKind::Path);
    assert_eq!(h.text, "../sibling/x.txt");
}

#[test]
fn relative_path_with_line_col_suffix_kept() {
    let cells = row("error src/main.rs:42:13 here");
    let h = text_hit(&cells, 9).unwrap();
    assert_eq!(h.kind, HitKind::Path);
    assert_eq!(h.text, "src/main.rs:42:13");
    let h = text_hit(&row("at lib/core.rs:7"), 4).unwrap();
    assert_eq!(h.kind, HitKind::Path);
    assert_eq!(h.text, "lib/core.rs:7");
}

#[test]
fn urls_with_query_and_trailing_punct() {
    let cells = row("go https://example.com/s?q=1&b=2.");
    let h = text_hit(&cells, 5).unwrap();
    assert_eq!(h.kind, HitKind::Url);
    assert_eq!(h.text, "https://example.com/s?q=1&b=2");

    let h = text_hit(&row("see (<https://x.com/a>)"), 9).unwrap();
    assert_eq!(h.kind, HitKind::Url);
    assert_eq!(h.text, "https://x.com/a");

    let h = text_hit(&row("ref www.ghostty.org,"), 5).unwrap();
    assert_eq!(h.kind, HitKind::Url);
    assert_eq!(h.text, "www.ghostty.org");

    assert!(text_hit(&row("x 1https://a.com"), 3).is_none());
    assert!(text_hit(&row("x ht!tps://a.com"), 3).is_none());
}

#[test]
fn label_eq_prefix_stripped() {
    let h = text_hit(&row("url=https://x.com/a"), 5).unwrap();
    assert_eq!(h.kind, HitKind::Url);
    assert_eq!(h.text, "https://x.com/a");
}

#[test]
fn quoted_path_trimmed() {
    let h = text_hit(&row("'/tmp/x.txt'"), 2).unwrap();
    assert_eq!(h.kind, HitKind::Path);
    assert_eq!(h.text, "/tmp/x.txt");
}

#[test]
fn cjk_wide_cells_are_not_boundaries() {
    let mut cells = row("/Users/jal/my_repos/ninja/");
    assert_eq!(cells.len(), 26);
    cells.push(RowCell::Text("你".into()));
    cells.push(RowCell::Cont);
    cells.push(RowCell::Text("好".into()));
    cells.push(RowCell::Cont);
    cells.extend(row("/x.txt"));
    let h = text_hit(&cells, 27).unwrap();
    assert_eq!(h.kind, HitKind::Path);
    assert_eq!(h.text, "/Users/jal/my_repos/ninja/你好/x.txt");
    let mut cells = row("/tmp/x.txt");
    cells.push(RowCell::Text("，".into()));
    let h = text_hit(&cells, 2).unwrap();
    assert_eq!(h.text, "/tmp/x.txt");
}

#[test]
fn no_hit_cases() {
    assert!(text_hit(&row("hello world"), 3).is_none());
    assert!(text_hit(&row("hello world"), 8).is_none());
    assert!(text_hit(&row("a and/or b"), 4).is_none());
    assert!(text_hit(&row("  "), 0).is_none());
    assert!(text_hit(&row("a.b c"), 0).is_none());
    assert!(text_hit(&row("a|b/c.txt"), 1).is_none());
}

#[test]
fn osc8_wins_over_text() {
    let cells = row("just words here");
    let h = recognize(&cells, 6, Some("https://osc8.example/x")).unwrap();
    assert_eq!(h.kind, HitKind::Osc8);
    assert_eq!(h.text, "https://osc8.example/x");
    assert_eq!(h.start_col, 6);
    assert_eq!(h.end_col, 7);
    assert!(recognize(&cells, 6, Some("")).is_none());
}

#[test]
fn strip_line_col_only_digits() {
    assert_eq!(strip_line_col("main.rs:42:13"), "main.rs");
    assert_eq!(strip_line_col("main.rs:42"), "main.rs");
    assert_eq!(strip_line_col("a:b/c.txt"), "a:b/c.txt");
    assert_eq!(strip_line_col("x:1y"), "x:1y");
}

#[test]
fn every_column_of_a_token_gives_the_same_link() {
    let cells = row("see /usr/local/bin/foo now");
    let first = text_hit(&cells, 4).unwrap();
    for col in 4..22 {
        assert_eq!(text_hit(&cells, col), Some(first.clone()));
    }
    assert!(text_hit(&cells, 3).is_none());
    assert!(text_hit(&cells, 100).is_none());
}

#[test]
fn osc7_uri_decoded_to_path() {
    assert_eq!(
        osc7_to_path("file://localhost/tmp/project"),
        Some("/tmp/project".to_string())
    );
    assert_eq!(osc7_to_path("file://somehost/"), Some("/".to_string()));
    assert_eq!(
        osc7_to_path("file://h/Users/jal/%E4%B8%AD%E6%96%87%20dir"),
        Some("/Users/jal/中文 dir".to_string())
    );
    assert_eq!(osc7_to_path("https://x.io/a"), None);
    assert_eq!(osc7_to_path("file://onlyhost"), None);
    assert_eq!(osc7_to_path(""), None);
}

#[test]
fn line_col_stripped_for_open() {
    assert_eq!(strip_line_col("/a/b/main.rs:42:13"), "/a/b/main.rs");
    assert_eq!(strip_line_col("/a/b/main.rs:42"), "/a/b/main.rs");
    assert_eq!(strip_line_col("/a/b:c/d.txt"), "/a/b:c/d.txt");
}

#[test]
fn tilde_expansion() {
    assert_eq!(expand_tilde_home("~", "/Users/test"), "/Users/test");
    assert_eq!(expand_tilde_home("~/x/y.txt", "/Users/test"), "/Users/test/x/y.txt");
    assert_eq!(expand_tilde_home("~/x", "/Users/test/"), "/Users/test/x");
    assert_eq!(expand_tilde_home("~other/x", "/Users/test"), "~other/x");
    assert_eq!(expand_tilde_home("/abs/x", "/Users/test"), "/abs/x");
    assert_eq!(expand_tilde_with("~/x", None), "~/x");
}

#[test]
fn relative_resolves_against_pwd() {
    assert_eq!(
        file_url_of_path("src/main.rs:42:13", Some("/Users/jal/my_repos/ninja"), None),
        Some("/Users/jal/my_repos/ninja/src/main.rs".to_string())
    );
}

#[test]
fn targets_of_hits() {
    assert_eq!(
        open_hit_target(HitKind::Url, "https://x.io", None, None),
        Some(OpenTarget::Address("https://x.io".to_string()))
    );
    assert_eq!(
        open_hit_target(HitKind::Osc8, "app://x", None, None),
        Some(OpenTarget::Address("app://x".to_string()))
    );
    assert_eq!(
        open_hit_target(HitKind::Path, "a.txt", None, Some("/home/u")),
        Some(OpenTarget::File("/home/u/a.txt".to_string()))
    );
    assert_eq!(open_hit_target(HitKind::Path, "a.txt", None, None), None);
}

#[test]
fn escapes_in_addresses() {
    assert_eq!(percent_decode("a%20b%zz%4"), "a b%zz%4");
    assert_eq!(percent_decode("%ff"), "\u{fffd}");
    assert_eq!(percent_decode("%+9"), "%+9");
    assert_eq!(percent_decode_strict("a%+5b"), Some("a%+5b".to_string()));
    assert_eq!(osc7_to_path("file://h/50%中").as_deref(), Some("/50%中"));
    assert_eq!(osc7_to_path("file://h/a%+5b").as_deref(), Some("/a%+5b"));
    assert_eq!(percent_decode_strict("a%20b"), Some("a b".to_string()));
    assert_eq!(percent_decode_strict("%ff"), None);
    assert_eq!(percent_decode("no escapes"), "no escapes");
}
