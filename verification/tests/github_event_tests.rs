use rustref::github_event::{Commit, GithubUserShort, PushEvent, generate_github_hash, should_sync, signature_matches};

fn user(name: &str) -> GithubUserShort {
    GithubUserShort {
        name: name.to_string(),
        email: format!("{}@example.com", name),
        username: name.to_string(),
    }
}

fn commit(modified: Vec<&str>) -> Commit {
    Commit {
        id: "0000000000000000000000000000000000000000".to_string(),
        tree_id: "1111111111111111111111111111111111111111".to_string(),
        distinct: true,
        message: "update".to_string(),
        timestamp: "2018-03-09T00:00:00-08:00".to_string(),
        url: "https://example.com/commit/0".to_string(),
        author: user("a"),
        committer: user("a"),
        added: vec![],
        removed: vec![],
        modified: modified.into_iter().map(|m| m.to_string()).collect(),
    }
}

fn push(refs: &str, commits: Vec<Commit>) -> PushEvent {
    let head = commit(vec![]);
    PushEvent {
        refs: refs.to_string(),
        before: "2222".to_string(),
        after: "3333".to_string(),
        compare: "https://example.com/compare".to_string(),
        commits,
        head_commit: head,
    }
}

#[test]
fn github_event_sha1_hash() {
    // Note: use a securely generated, random secret in production
    let secret = "hello".to_string();
    // an actual payload is the full JSON sent in the request
    let payload = "this is an example payload of what we want to sign.".to_string();
    assert_eq!(
        generate_github_hash(&secret, &payload),
        "sha1=604b8100cfe1aeaee448759c1450f080f41d41db"
    );
}

#[test]
fn main_sha1_hash() {
    let secret = "hello".to_string();
    let payload = "this is an example payload of what we want to sign.".to_string();
    assert_eq!(
        generate_github_hash(&secret, &payload),
        "sha1=604b8100cfe1aeaee448759c1450f080f41d41db"
    );
}

#[test]
fn signature_matches_its_own_hash() {
    let hash = generate_github_hash("hello", "payload body");
    assert!(signature_matches("hello", "payload body", &hash));
    assert!(!signature_matches("hello", "payload body", "sha1=0000"));
    assert!(!signature_matches("other", "payload body", &hash));
}

#[test]
fn file_modified_looks_through_all_commits() {
    let event = push(
        "refs/heads/master",
        vec![commit(vec!["Readme.md"]), commit(vec!["src/main.rs", "redirects.toml"])],
    );
    assert!(event.file_modified("redirects.toml"));
    assert!(event.file_modified("Readme.md"));
    assert!(!event.file_modified("Cargo.toml"));
}

#[test]
fn should_sync_requires_tracked_branch_and_file() {
    let hit = push("refs/heads/master", vec![commit(vec!["redirects.toml"])]);
    assert!(should_sync(&hit));
    let wrong_branch = push("refs/heads/rocket", vec![commit(vec!["redirects.toml"])]);
    assert!(!should_sync(&wrong_branch));
    let wrong_file = push("refs/heads/master", vec![commit(vec!["Readme.md"])]);
    assert!(!should_sync(&wrong_file));
}

#[test]
fn adding_or_removing_the_config_file_triggers_too() {
    // the changed paths of a push are its added, modified and removed
    // files together
    let mut added = commit(vec![]);
    added.added = vec!["redirects.toml".to_string()];
    let push_adding = push("refs/heads/master", vec![added]);
    assert!(push_adding.file_changed("redirects.toml"));
    assert!(!push_adding.file_modified("redirects.toml"));
    assert!(should_sync(&push_adding));

    let mut removed = commit(vec![]);
    removed.removed = vec!["redirects.toml".to_string()];
    let push_removing = push("refs/heads/master", vec![removed]);
    assert!(should_sync(&push_removing));
}
