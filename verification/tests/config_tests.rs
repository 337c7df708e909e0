use rustref::config::parse_config;
use rustref::rules::SiteRedirect;

fn rule(short: &str, url: &str) -> SiteRedirect {
    SiteRedirect { short: short.to_string(), url: url.to_string() }
}

#[test]
fn parse_single_rule() {
    let text = "[[redirect]]\nshort = \"cook\"\nurl = \"https://doc.rust-lang.org/cargo/\"\n";
    let rules = parse_config(text).expect("well-formed config");
    assert_eq!(rules, vec![rule("cook", "https://doc.rust-lang.org/cargo/")]);
}

#[test]
fn parse_many_rules_with_comments_and_blanks() {
    let text = "# the redirect configuration\n\n[[redirect]]\nshort = \"ex\"\nurl = \"https://doc.rust-lang.org/stable/rust-by-example\"\n\n# next entry\n[[redirect]]\nurl = \"https://doc.rust-lang.org/book\"\nshort = \"book\"\n";
    let rules = parse_config(text).expect("well-formed config");
    assert_eq!(
        rules,
        vec![
            rule("ex", "https://doc.rust-lang.org/stable/rust-by-example"),
            rule("book", "https://doc.rust-lang.org/book"),
        ]
    );
}

#[test]
fn parse_tolerates_whitespace_and_crlf() {
    let text = "  [[redirect]]  \r\n  short   =   \"a\"  \r\n  url = \"https://x\"\r\n";
    let rules = parse_config(text).expect("well-formed config");
    assert_eq!(rules, vec![rule("a", "https://x")]);
}

#[test]
fn parse_accepts_trailing_comments() {
    let text = "[[redirect]] # first entry\nshort = \"a\" # the key\nurl = \"https://x\" # the target\n";
    let rules = parse_config(text).expect("well-formed config");
    assert_eq!(rules, vec![rule("a", "https://x")]);
}

#[test]
fn parse_keeps_hash_inside_quoted_values() {
    let text = "[[redirect]]\nshort = \"a\"\nurl = \"https://x/page#frag\" # comment\n";
    let rules = parse_config(text).expect("well-formed config");
    assert_eq!(rules, vec![rule("a", "https://x/page#frag")]);
}

#[test]
fn parse_ignores_unknown_keys() {
    let text = "[[redirect]]\nshort = \"a\"\nnote = \"ignored\"\nurl = \"https://x\"\n";
    let rules = parse_config(text).expect("well-formed config");
    assert_eq!(rules, vec![rule("a", "https://x")]);
}

#[test]
fn parse_empty_text_gives_no_rules() {
    assert_eq!(parse_config(""), Some(vec![]));
    assert_eq!(parse_config("# only a comment\n"), Some(vec![]));
}

#[test]
fn parse_rejects_entry_outside_table() {
    assert!(parse_config("short = \"a\"\n").is_none());
}

#[test]
fn parse_rejects_missing_url() {
    assert!(parse_config("[[redirect]]\nshort = \"a\"\n").is_none());
    assert!(parse_config("[[redirect]]\nshort = \"a\"\n[[redirect]]\nshort = \"b\"\nurl = \"https://x\"\n").is_none());
}

#[test]
fn parse_rejects_repeated_key_in_table() {
    assert!(parse_config("[[redirect]]\nshort = \"a\"\nshort = \"b\"\nurl = \"https://x\"\n").is_none());
}

#[test]
fn parse_rejects_malformed_lines() {
    assert!(parse_config("[[redirect]]\nshort \"a\"\nurl = \"https://x\"\n").is_none());
    assert!(parse_config("[[redirect]]\nshort = unquoted\nurl = \"https://x\"\n").is_none());
    assert!(parse_config("[[redirect]\nshort = \"a\"\nurl = \"https://x\"\n").is_none());
    assert!(parse_config("[[redirect]]\n= \"a\"\nurl = \"https://x\"\n").is_none());
}

#[test]
fn parse_rejects_escapes_in_values() {
    assert!(parse_config("[[redirect]]\nshort = \"a\"\nurl = \"https://x\\\"y\"\n").is_none());
}
