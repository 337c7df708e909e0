use rustref::report::report_sorted;
use rustref::rules::SiteRedirect;
use rustref::table::{RedirectData, RedirectTable, files, redirect, redirect_bare, rules_to_map};

fn rule(short: &str, url: &str) -> SiteRedirect {
    SiteRedirect { short: short.to_string(), url: url.to_string() }
}

fn data_of(rules: Vec<SiteRedirect>) -> RedirectData {
    RedirectData {
        map: rules_to_map(&rules),
        commit_hash: String::new(),
        commit_url: String::new(),
    }
}

#[test]
fn lookup_finds_registered_keys() {
    let data = data_of(vec![rule("cook", "https://doc.rust-lang.org/cargo/"), rule("b", "https://y")]);
    assert_eq!(data.lookup("cook"), Some("https://doc.rust-lang.org/cargo/".to_string()));
    assert_eq!(data.lookup("b"), Some("https://y".to_string()));
    assert_eq!(data.lookup("missing"), None);
}

#[test]
fn later_rule_wins_for_a_repeated_key() {
    let data = data_of(vec![rule("a", "https://old"), rule("a", "https://new")]);
    assert_eq!(data.lookup("a"), Some("https://new".to_string()));
    assert_eq!(data.map.len(), 1);
}

#[test]
fn redirect_bare_and_redirect_answer_requests() {
    let data = data_of(vec![rule("ex", "https://doc.rust-lang.org/stable/rust-by-example")]);
    assert_eq!(
        redirect_bare("ex", &data),
        Some("https://doc.rust-lang.org/stable/rust-by-example".to_string())
    );
    assert_eq!(redirect_bare("nope", &data), None);
    assert_eq!(
        redirect("ex", "primitives.html", &data),
        Some("https://doc.rust-lang.org/stable/rust-by-example/primitives.html".to_string())
    );
    assert_eq!(redirect("nope", "primitives.html", &data), None);
}

#[test]
fn files_serves_from_the_static_root() {
    assert_eq!(files("index.html"), "static/index.html");
    assert_eq!(files("css/site.css"), "static/css/site.css");
}

#[test]
fn table_replace_swaps_the_whole_snapshot() {
    // a reader sees either the old configuration or the new one, whole:
    // after the swap both keys answer from the new table at once
    let table = RedirectTable::new(data_of(vec![rule("a", "https://old-a"), rule("b", "https://old-b")]));
    assert_eq!(table.lookup("a"), Some("https://old-a".to_string()));
    table.replace(data_of(vec![rule("a", "https://new-a"), rule("c", "https://new-c")]));
    assert_eq!(table.lookup("a"), Some("https://new-a".to_string()));
    assert_eq!(table.lookup("b"), None);
    assert_eq!(table.lookup("c"), Some("https://new-c".to_string()));
}

#[test]
fn snapshot_copies_the_table_data() {
    let table = RedirectTable::new(data_of(vec![rule("a", "https://x")]));
    let snap = table.snapshot();
    assert_eq!(snap.lookup("a"), Some("https://x".to_string()));
    table.replace(data_of(vec![rule("a", "https://y")]));
    // the snapshot is a copy, not a handle: it still shows the old table
    assert_eq!(snap.lookup("a"), Some("https://x".to_string()));
}

#[test]
fn report_lists_rules_in_alphabetic_order() {
    let data = data_of(vec![
        rule("std", "https://doc.rust-lang.org/std"),
        rule("book", "https://doc.rust-lang.org/book"),
        rule("cook", "https://doc.rust-lang.org/cargo/"),
    ]);
    let sorted = report_sorted(&data);
    assert_eq!(
        sorted,
        vec![
            rule("book", "https://doc.rust-lang.org/book"),
            rule("cook", "https://doc.rust-lang.org/cargo/"),
            rule("std", "https://doc.rust-lang.org/std"),
        ]
    );
}
