//! The push events that trigger synchronization: which files a push
//! touched, whether a push concerns the tracked branch and configuration
//! file, and the signature that authenticates a webhook payload.

use hmac::{KeyInit, Mac};
use vstd::prelude::*;
use vstd::string::StringSliceAdditionalSpecFns;

use crate::text::{chars_to_string, hex_of, to_hex_chars};

verus! {

/// A user as reported by the webhook payload.
#[derive(Debug, Clone, PartialEq, Eq)]
pub struct GithubUserShort {
    pub name: String,
    pub email: String,
    pub username: String,
}

/// A commit as reported by the webhook payload.
#[derive(Debug, Clone)]
pub struct Commit {
    pub id: String,
    pub tree_id: String,
    pub distinct: bool,
    pub message: String,
    pub timestamp: String,
    pub url: String,
    pub author: GithubUserShort,
    pub committer: GithubUserShort,
    pub added: Vec<String>,
    pub removed: Vec<String>,
    pub modified: Vec<String>,
}

/// A push event as reported by the webhook payload, reduced to the plain
/// values the synchronization core reads.
#[derive(Debug, Clone)]
pub struct PushEvent {
    pub refs: String,
    pub before: String,
    pub after: String,
    pub compare: String,
    pub commits: Vec<Commit>,
    pub head_commit: Commit,
}

/// `filename` occurs in this list of path names.
pub open spec fn name_in(names: Seq<String>, filename: Seq<char>) -> bool {
    exists|j: int| 0 <= j < names.len() && names[j]@ == filename
}

/// Some commit of the sequence modified `filename`.
pub open spec fn modified_in(commits: Seq<Commit>, filename: Seq<char>) -> bool {
    exists|i: int| 0 <= i < commits.len() && name_in((#[trigger] commits[i]).modified@, filename)
}

/// The commit touched `filename`: added, modified or removed it. These
/// three lists together are the commit's changed paths.
pub open spec fn path_changed(c: Commit, filename: Seq<char>) -> bool {
    name_in(c.added@, filename) || name_in(c.modified@, filename) || name_in(c.removed@, filename)
}

/// Some commit of the sequence touched `filename`.
pub open spec fn changed_in(commits: Seq<Commit>, filename: Seq<char>) -> bool {
    exists|i: int| 0 <= i < commits.len() && path_changed(#[trigger] commits[i], filename)
}

fn names_contain(names: &Vec<String>, filename: &String) -> (r: bool)
    ensures
        r == name_in(names@, filename@),
{
    let n = names.len();
    for j in 0..n
        invariant
            n == names@.len(),
            forall|k: int| 0 <= k < j ==> names@[k]@ != filename@,
    {
        if names[j] == *filename {
            assert(names@[j as int]@ == filename@);
            return true;
        }
    }
    false
}

impl PushEvent {
    /// Whether any commit of this push modified `filename`.
    pub fn file_modified(&self, filename: &str) -> (r: bool)
        ensures
            r == modified_in(self.commits@, filename@),
    {
        let f = filename.to_owned();
        let n = self.commits.len();
        for i in 0..n
            invariant
                n == self.commits@.len(),
                f@ == filename@,
                forall|x: int|
                    0 <= x < i ==> !name_in((#[trigger] self.commits@[x]).modified@, filename@),
        {
            if names_contain(&self.commits[i].modified, &f) {
                return true;
            }
        }
        false
    }

    /// Whether any commit of this push touched `filename` at all: added,
    /// modified or removed it.
    pub fn file_changed(&self, filename: &str) -> (r: bool)
        ensures
            r == changed_in(self.commits@, filename@),
    {
        let f = filename.to_owned();
        let n = self.commits.len();
        for i in 0..n
            invariant
                n == self.commits@.len(),
                f@ == filename@,
                forall|x: int|
                    0 <= x < i ==> !path_changed(#[trigger] self.commits@[x], filename@),
        {
            let touched = names_contain(&self.commits[i].added, &f) || names_contain(
                &self.commits[i].modified,
                &f,
            ) || names_contain(&self.commits[i].removed, &f);
            if touched {
                return true;
            }
        }
        false
    }
}

/// The branch whose pushes drive synchronization.
pub open spec fn tracked_ref() -> Seq<char> {
    "refs/heads/master"@
}

/// The configuration file whose changes drive synchronization.
pub open spec fn tracked_file() -> Seq<char> {
    "redirects.toml"@
}

/// The entry guard of the synchronization pipeline: a push triggers a pass
/// exactly when it is on the tracked branch and its changed paths include
/// the tracked configuration file, whether added, modified or removed.
/// (A manual re-sync calls the pipeline directly and bypasses this guard.)
pub fn should_sync(event: &PushEvent) -> (r: bool)
    ensures
        r == (event.refs@ == tracked_ref() && changed_in(event.commits@, tracked_file())),
{
    let tracked_branch = String::from_str("refs/heads/master");
    if !(event.refs == tracked_branch) {
        return false;
    }
    event.file_changed("redirects.toml")
}

/// The HMAC-SHA1 tag of a message under a key, as the hmac and sha1 crates
/// compute it: a function of key and message alone.
pub uninterp spec fn hmac_sha1_of(key: Seq<u8>, msg: Seq<u8>) -> Seq<u8>;

/// Relies on `Hmac<Sha1>` of the hmac and sha1 crates: the tag depends on
/// key and message alone and is 20 bytes (the SHA-1 output size); keys of
/// any length are accepted.
#[verifier::external_body]
fn hmac_sha1(key: &[u8], msg: &[u8]) -> (r: Vec<u8>)
    ensures
        r@ == hmac_sha1_of(key@, msg@),
        r@.len() == 20,
{
    let mut mac = hmac::Hmac::<sha1::Sha1>::new_from_slice(key)
        .expect("HMAC accepts keys of any length");
    mac.update(msg);
    mac.finalize().into_bytes().to_vec()
}

/// The signature string for a webhook payload: the tag of the payload under
/// the shared secret, in lowercase hex, behind a `sha1=` prefix.
pub open spec fn signature_of(secret: &str, payload: &str) -> Seq<char> {
    "sha1="@ + hex_of(hmac_sha1_of(secret.spec_bytes(), payload.spec_bytes()))
}

/// The signature that authenticates `json_str` under `secret`: the `sha1=`
/// prefix and the 40 hex digits of the 20-byte tag, 45 characters in all.
pub fn generate_github_hash(secret: &str, json_str: &str) -> (r: String)
    ensures
        r@ == signature_of(secret, json_str),
        r@.len() == 45,
{
    let tag = hmac_sha1(secret.as_bytes(), json_str.as_bytes());
    let digits = chars_to_string(&to_hex_chars(&tag));
    let mut out = String::from_str("sha1=");
    out.append(digits.as_str());
    proof {
        reveal_strlit("sha1=");
        crate::text::lemma_hex_of_len(hmac_sha1_of(secret.spec_bytes(), json_str.spec_bytes()));
    }
    out
}

/// Whether `claimed` is exactly the signature of `payload` under `secret`;
/// a payload whose claimed signature does not match is rejected before any
/// synchronization work.
pub fn signature_matches(secret: &str, payload: &str, claimed: &str) -> (r: bool)
    ensures
        r == (claimed@ == signature_of(secret, payload)),
{
    let expected = generate_github_hash(secret, payload);
    let claimed_owned = claimed.to_owned();
    expected == claimed_owned
}

} // verus!
