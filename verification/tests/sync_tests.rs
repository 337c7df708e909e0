use std::cell::RefCell;

use rustref::dns::{DnsError, DnsRecord, RecordType, execute_plan, reconcile_plan};
use rustref::github_event::{Commit, GithubUserShort, PushEvent, should_sync};
use rustref::rules::SiteRedirect;
use rustref::sync::{FetchFailure, SyncOutcome, fetch_redirect_rules, redirects_from_config, sync_pass, sync_with_config, webhook};
use rustref::table::{RedirectData, RedirectTable, rules_to_map};
use rustref::verify::verify_with_statuses;

fn a_rule(short: &str, url: &str) -> SiteRedirect {
    SiteRedirect { short: short.to_string(), url: url.to_string() }
}

fn a_record(name: &str) -> DnsRecord {
    DnsRecord {
        name: name.to_string(),
        record_type: RecordType::CNAME,
        target: "nocduro.com".to_string(),
    }
}

fn a_data(rules: Vec<SiteRedirect>) -> RedirectData {
    RedirectData {
        map: rules_to_map(&rules),
        commit_hash: String::new(),
        commit_url: String::new(),
    }
}

fn an_event(refs: &str, modified: Vec<&str>) -> PushEvent {
    let who = GithubUserShort {
        name: "n".to_string(),
        email: "n@example.com".to_string(),
        username: "n".to_string(),
    };
    let head = Commit {
        id: "4444".to_string(),
        tree_id: "5555".to_string(),
        distinct: true,
        message: "update redirects".to_string(),
        timestamp: "2018-03-09T00:00:00-08:00".to_string(),
        url: "https://example.com/commit/4".to_string(),
        author: who.clone(),
        committer: who,
        added: vec![],
        removed: vec![],
        modified: modified.into_iter().map(|m| m.to_string()).collect(),
    };
    PushEvent {
        refs: refs.to_string(),
        before: "6666".to_string(),
        after: "7777".to_string(),
        compare: "https://example.com/compare".to_string(),
        commits: vec![head.clone()],
        head_commit: head,
    }
}

// an address nothing listens on: the fetch fails at once, without DNS
const DEAD_URL: &str = "http://127.0.0.1:9/redirects.toml";

#[test]
fn reconcile_plan_lists_only_missing_records() {
    let rules = vec![
        a_rule("a", "https://x"),
        a_rule("b", "https://y"),
        a_rule("c", "https://z"),
    ];
    let records = vec![a_record("b.nocduro.com"), a_record("other.nocduro.com")];
    let plan = reconcile_plan(&rules, &records, "nocduro.com");
    assert_eq!(plan, vec!["a.nocduro.com".to_string(), "c.nocduro.com".to_string()]);
}

#[test]
fn one_dns_failure_does_not_stop_the_others() {
    let plan = vec![
        "a.nocduro.com".to_string(),
        "b.nocduro.com".to_string(),
        "c.nocduro.com".to_string(),
    ];
    let attempted: RefCell<Vec<String>> = RefCell::new(Vec::new());
    let errs = execute_plan(&plan, |name: String| {
        attempted.borrow_mut().push(name.clone());
        if name == "b.nocduro.com" {
            Some(DnsError { name, detail: "the provider said no".to_string() })
        } else {
            None
        }
    });
    // the failing creation was collected, and every other name was still
    // attempted after it
    assert_eq!(errs.len(), 1);
    assert_eq!(errs[0].name, "b.nocduro.com");
    assert_eq!(attempted.into_inner(), plan);
}

#[test]
fn fetcher_reports_transport_failure() {
    assert_eq!(fetch_redirect_rules(DEAD_URL), Err(FetchFailure::Transport));
}

#[test]
fn fetch_failure_leaves_the_table_untouched() {
    let mut data = a_data(vec![a_rule("a", "https://x")]);
    let before = data.clone();
    let outcome = sync_pass(&mut data, DEAD_URL, "nocduro.com", || Ok(vec![]), |_n: String| {
        None::<DnsError>
    });
    assert!(matches!(outcome, SyncOutcome::FetchFailed(FetchFailure::Transport)));
    assert_eq!(data, before);
}

#[test]
fn parse_failure_leaves_the_table_untouched() {
    let mut data = a_data(vec![a_rule("a", "https://x")]);
    let before = data.clone();
    let outcome = sync_with_config(
        &mut data,
        "this is not a redirect configuration",
        "nocduro.com",
        || Ok(vec![]),
        |_n: String| None::<DnsError>,
    );
    assert!(matches!(outcome, SyncOutcome::FetchFailed(FetchFailure::Parse)));
    assert_eq!(data, before);
}

#[test]
fn rejected_configuration_leaves_the_table_untouched() {
    let mut data = a_data(vec![a_rule("a", "https://x")]);
    let before = data.clone();
    let dns_was_used = RefCell::new(false);
    // two rules share a short key, so verification must reject the set
    let text = "[[redirect]]\nshort = \"same\"\nurl = \"https://x\"\n[[redirect]]\nshort = \"same\"\nurl = \"https://y\"\n";
    let outcome = sync_with_config(
        &mut data,
        text,
        "nocduro.com",
        || {
            *dns_was_used.borrow_mut() = true;
            Ok(vec![])
        },
        |_n: String| None::<DnsError>,
    );
    match outcome {
        SyncOutcome::Rejected(errs) => assert!(!errs.is_empty()),
        other => panic!("expected a rejection, got {:?}", other),
    }
    assert_eq!(data, before);
    // a rejected pass never reaches DNS reconciliation
    assert!(!dns_was_used.into_inner());
}

#[test]
fn full_pass_applies_a_valid_configuration() {
    // the whole verified pipeline on concrete values: a push on the tracked
    // branch touching the tracked file, one rule, a reachable URL
    let event = an_event("refs/heads/master", vec!["redirects.toml"]);
    assert!(should_sync(&event));

    let text = "[[redirect]]\nshort = \"cook\"\nurl = \"https://doc.rust-lang.org/cargo/\"\n";
    let rules = rustref::config::parse_config(text).expect("well-formed config");
    assert_eq!(rules.len(), 1);

    let probes = vec![Some(200)];
    assert_eq!(verify_with_statuses(&rules, &probes), Ok(()));

    let plan = reconcile_plan(&rules, &vec![], "nocduro.com");
    assert_eq!(plan, vec!["cook.nocduro.com".to_string()]);
    let dns_errors = execute_plan(&plan, |_n: String| None::<DnsError>);
    assert!(dns_errors.is_empty());

    let table = RedirectTable::new(a_data(vec![]));
    table.replace(a_data(rules));
    assert_eq!(
        table.lookup("cook"),
        Some("https://doc.rust-lang.org/cargo/".to_string())
    );
}

#[test]
fn push_on_other_branch_is_ignored() {
    let table = RedirectTable::new(a_data(vec![a_rule("a", "https://x")]));
    let before = table.snapshot();
    let event = an_event("refs/heads/rocket", vec!["redirects.toml"]);
    let dns_listed = RefCell::new(false);
    let outcome = webhook(
        &table,
        &event,
        DEAD_URL,
        "nocduro.com",
        || {
            *dns_listed.borrow_mut() = true;
            Ok(vec![])
        },
        |_n: String| None::<DnsError>,
    );
    assert!(outcome.is_none());
    assert_eq!(table.snapshot(), before);
    // the ignored push never reached the pipeline at all
    assert!(!dns_listed.into_inner());
}

#[test]
fn push_touching_other_files_is_ignored() {
    let table = RedirectTable::new(a_data(vec![a_rule("a", "https://x")]));
    let before = table.snapshot();
    let event = an_event("refs/heads/master", vec!["Readme.md"]);
    let outcome = webhook(&table, &event, DEAD_URL, "nocduro.com", || Ok(vec![]), |_n: String| {
        None::<DnsError>
    });
    assert!(outcome.is_none());
    assert_eq!(table.snapshot(), before);
}

#[test]
fn bootstrap_builds_the_table_from_local_text() {
    let text = "[[redirect]]\nshort = \"book\"\nurl = \"https://doc.rust-lang.org/book\"\n";
    let data = redirects_from_config(text).expect("well-formed config");
    assert_eq!(data.lookup("book"), Some("https://doc.rust-lang.org/book".to_string()));
    assert_eq!(data.commit_hash, "");
    assert!(redirects_from_config("nonsense [[").is_none());
}
