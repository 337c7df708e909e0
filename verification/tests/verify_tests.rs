use rustref::rules::{RedirectError, SiteRedirect};
use rustref::verify::{check_url, verify_redirects, verify_with_statuses};

fn rule(short: &str, url: &str) -> SiteRedirect {
    SiteRedirect { short: short.to_string(), url: url.to_string() }
}

#[test]
fn malformed_urls() {
    let bad1 = SiteRedirect {
        short: "bad1".to_string(),
        url: "@#hello/test".to_string(),
    };
    let bad2 = SiteRedirect {
        short: "bad2".to_string(),
        url: "/example.com".to_string(),
    };
    let bad3 = SiteRedirect {
        short: "bad3".to_string(),
        url: "http://example".to_string(),
    };
    let bad4 = SiteRedirect {
        short: "bad4".to_string(),
        url: "test".to_string(),
    };
    let vector = vec![bad1, bad2, bad3, bad4];
    match verify_redirects(&vector) {
        Ok(_) => panic!("should fail"),
        Err(e) => {
            if e.len() == vector.len() {
                return;
            }
            let mut fail_str = String::from("only these URLs failed\n");
            for fail in e {
                fail_str.push_str(&format!("{:?}", fail));
                fail_str.push('\n');
            }
            panic!("{}", fail_str);
        },
    }
}

#[test]
fn check_url_404() {
    assert!(check_url("https://nocduro.com/invalid_page_name").is_err());
}

#[test]
fn check_url_misspell() {
    assert!(check_url("htp://nocduro.com").is_err())
}

#[test]
fn syntactically_bad_url_reports_the_url() {
    match check_url("not a url at all") {
        Err(RedirectError::BadUrl(u)) => assert_eq!(u, "not a url at all"),
        other => panic!("expected a malformed-URL error, got {:?}", other),
    }
}

#[test]
fn unique_keys_and_success_statuses_verify() {
    let rules = vec![rule("a", "https://x"), rule("b", "https://y")];
    let probes = vec![Some(200), Some(204)];
    assert_eq!(verify_with_statuses(&rules, &probes), Ok(()));
}

#[test]
fn duplicate_pair_yields_exactly_one_error() {
    let rules = vec![rule("a", "https://x"), rule("a", "https://y")];
    let probes = vec![Some(200), Some(200)];
    let errs = verify_with_statuses(&rules, &probes).unwrap_err();
    assert_eq!(errs, vec![RedirectError::DuplicateRule("a".to_string())]);
}

#[test]
fn three_rules_sharing_a_key_yield_two_errors() {
    let rules = vec![
        rule("same", "https://x"),
        rule("same", "https://y"),
        rule("same", "https://z"),
    ];
    let probes = vec![Some(200), Some(200), Some(200)];
    let errs = verify_with_statuses(&rules, &probes).unwrap_err();
    assert_eq!(
        errs,
        vec![
            RedirectError::DuplicateRule("same".to_string()),
            RedirectError::DuplicateRule("same".to_string()),
        ]
    );
}

#[test]
fn all_failures_are_collected_together() {
    // a duplicate key, a malformed URL and a bad status in one pass: every
    // failure is reported, none hides another
    let rules = vec![
        rule("a", "https://x"),
        rule("a", "https://y"),
        rule("b", "not a url"),
        rule("c", "https://z"),
    ];
    let probes = vec![Some(200), Some(200), None, Some(404)];
    let errs = verify_with_statuses(&rules, &probes).unwrap_err();
    assert_eq!(
        errs,
        vec![
            RedirectError::DuplicateRule("a".to_string()),
            RedirectError::BadUrl("not a url".to_string()),
            RedirectError::InvalidPage("https://z: 404".to_string()),
        ]
    );
}

#[test]
fn failed_probe_reports_the_page_unreachable() {
    let rules = vec![rule("a", "https://x")];
    let probes = vec![None];
    let errs = verify_with_statuses(&rules, &probes).unwrap_err();
    assert_eq!(
        errs,
        vec![RedirectError::InvalidPage("https://x: request failed".to_string())]
    );
}

#[test]
fn test_duplicate_redirects() {
    let bad1 = SiteRedirect {
        short: "same".to_string(),
        url: "https://nocduro.com".to_string(),
    };
    let bad2 = SiteRedirect {
        short: "same".to_string(),
        url: "https://google.com".to_string(),
    };
    let bad3 = SiteRedirect {
        short: "bad2".to_string(),
        url: "https://google.com".to_string(),
    };
    let vector = vec![bad1, bad2, bad3];
    // every URL answers its probe with a success status, so the one
    // duplicate is the only failure
    let probes = vec![Some(200), Some(200), Some(200)];
    match verify_with_statuses(&vector, &probes) {
        Ok(_) => panic!("unexpected pass"),
        Err(e) => {
            if e.len() == 1 {
                return;
            }
            panic!("Expected 1 failure for the duplicate");
        },
    }
}

#[test]
fn check_url_valid() {
    // a URL that parses and answers its probe with a success status passes
    let urls = ["https://nocduro.com/", "https://doc.rust-lang.org/", "https://doc.rust-lang.org"];
    for url in urls {
        let rules = vec![rule("ok", url)];
        let probes = vec![Some(200)];
        assert_eq!(verify_with_statuses(&rules, &probes), Ok(()));
    }
}
