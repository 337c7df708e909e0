//! The synchronization pass: fetch the configuration, verify it, reconcile
//! DNS, and swap the live table. Fetch and verification failures abort the
//! pass and leave the table untouched; DNS failures are collected and
//! reported but never block the swap.

use vstd::prelude::*;

use crate::config::{parse_config, parse_config_spec};
use crate::dns::{DnsError, DnsRecord, execute_plan, reconcile_plan};
use crate::github_event::{PushEvent, changed_in, should_sync, tracked_file, tracked_ref};
use crate::rules::{RedirectError, RuleModel, SiteRedirect, error_models, rule_models};
use crate::table::{RedirectData, RedirectTable, rules_to_map, table_map};
use crate::verify::{all_errors, verify_redirects};

verus! {

/// Why no new configuration reached verification.
#[derive(Debug, PartialEq, Eq)]
pub enum FetchFailure {
    /// The configuration could not be retrieved.
    Transport,
    /// The retrieved text does not match the configuration grammar.
    Parse,
}

/// The one consolidated outcome of a synchronization pass.
#[derive(Debug)]
pub enum SyncOutcome {
    /// The table was swapped to a verified rule set: how many rules it
    /// holds, and the DNS failures that were tolerated along the way.
    Applied(usize, Vec<DnsError>),
    /// Verification rejected the fetched rule set; every collected error.
    Rejected(Vec<RedirectError>),
    /// The configuration could not be fetched or parsed.
    FetchFailed(FetchFailure),
}

/// Relies on reqwest's blocking client: one GET of `url` under a bounded
/// timeout; `Some` carries the body text of the response, `None` any
/// failure. The outcome depends on the network, so nothing relates it to
/// the argument.
#[verifier::external_body]
fn http_get_text(url: &str) -> (r: Option<String>) {
    let client = match reqwest::blocking::Client::builder()
        .timeout(std::time::Duration::from_secs(10))
        .build() {
        Ok(c) => c,
        Err(_) => return None,
    };
    match client.get(url).send() {
        Ok(resp) => resp.text().ok(),
        Err(_) => None,
    }
}

/// `e` was really answered by one of the DNS provider callbacks: either a
/// record creation failed with it, or listing the zone failed with it.
pub open spec fn dns_error_answered<
    L: FnOnce() -> Result<Vec<DnsRecord>, DnsError>,
    C: Fn(String) -> Option<DnsError>,
>(list_records: L, create_record: C, e: DnsError) -> bool {
    (exists|name: String| call_ensures(create_record, (name,), Some(e))) || call_ensures(
        list_records,
        (),
        Err(e),
    )
}

/// The rejection is exactly the verification verdict on the parsed rule
/// set: the text parses, and under some recorded probe outcomes the
/// collected errors are precisely every error of the set.
pub open spec fn rejection_explained(cfg: Seq<char>, errs: Seq<RedirectError>) -> bool {
    &&& parse_config_spec(cfg) is Some
    &&& exists|probes: Seq<Option<u16>>|
        #![trigger all_errors(parse_config_spec(cfg).unwrap(), probes)]
        probes.len() == parse_config_spec(cfg).unwrap().len() && error_models(errs) == all_errors(
            parse_config_spec(cfg).unwrap(),
            probes,
        )
}

/// The table data holds the mapping of a rule set that passed verification
/// under some recorded probe outcomes, `count` rules strong.
pub open spec fn applied_rules(data: RedirectData, count: int) -> bool {
    exists|models: Seq<RuleModel>, probes: Seq<Option<u16>>|
        #![trigger all_errors(models, probes)]
        {
            &&& probes.len() == models.len()
            &&& all_errors(models, probes).len() == 0
            &&& count == models.len()
            &&& data.contents() == table_map(models)
        }
}

/// The Config Fetcher: retrieves the configuration text from `config_url`
/// and parses it against the configuration grammar. A transport failure and
/// a text outside the grammar are both fatal for the current pass, and no
/// partial configuration is ever produced: the result is either the whole
/// parsed rule list or an error.
pub fn fetch_redirect_rules(config_url: &str) -> (r: Result<Vec<SiteRedirect>, FetchFailure>)
    ensures
        r matches Ok(rules) ==> exists|cfg: Seq<char>|
            #[trigger] parse_config_spec(cfg) == Some(rule_models(rules@)),
{
    let text = match http_get_text(config_url) {
        None => {
            return Err(FetchFailure::Transport);
        },
        Some(t) => t,
    };
    match parse_config(text.as_str()) {
        None => Err(FetchFailure::Parse),
        Some(rules) => {
            proof {
                let w = text@;
                assert(parse_config_spec(w) == Some(rule_models(rules@)));
            }
            Ok(rules)
        },
    }
}

/// One synchronization pass over an already parsed rule set: verify it
/// (probing every URL over the network), reconcile DNS through the two
/// provider callbacks, and swap the mapping in `data`. A verification
/// failure leaves `data` exactly as it was.
pub fn sync_with_rules<L: FnOnce() -> Result<Vec<DnsRecord>, DnsError>, C: Fn(String) -> Option<
    DnsError,
>>(
    data: &mut RedirectData,
    rules: &Vec<SiteRedirect>,
    root_domain: &str,
    list_records: L,
    create_record: C,
) -> (r: SyncOutcome)
    requires
        old(data).wf(),
        call_requires(list_records, ()),
        forall|name: String| call_requires(create_record, (name,)),
    ensures
        final(data).wf(),
        final(data).commit_hash == old(data).commit_hash,
        final(data).commit_url == old(data).commit_url,
        !(r matches SyncOutcome::FetchFailed(_)),
        r matches SyncOutcome::Rejected(_) ==> *final(data) == *old(data),
        r matches SyncOutcome::Rejected(v) ==> (v@.len() > 0 && (exists|
            probes: Seq<Option<u16>>,
        |
            #![trigger all_errors(rule_models(rules@), probes)]
            probes.len() == rules@.len() && error_models(v@) == all_errors(
                rule_models(rules@),
                probes,
            ))),
        r matches SyncOutcome::Applied(count, dns_errs) ==> (count == rules@.len()
            && final(data).contents() == table_map(rule_models(rules@)) && (exists|
            probes: Seq<Option<u16>>,
        |
            #![trigger all_errors(rule_models(rules@), probes)]
            probes.len() == rules@.len() && all_errors(rule_models(rules@), probes).len() == 0)
            && forall|k: int|
            0 <= k < dns_errs@.len() ==> dns_error_answered(
                list_records,
                create_record,
                #[trigger] dns_errs@[k],
            )),
{
    match verify_redirects(rules) {
        Err(errs) => {
            return SyncOutcome::Rejected(errs);
        },
        Ok(_) => {},
    }

    // DNS reconciliation: list what the zone has, create what is missing;
    // every failure is collected, none aborts the pass
    let mut dns_errors: Vec<DnsError> = Vec::new();
    match list_records() {
        Ok(records) => {
            let plan = reconcile_plan(rules, &records, root_domain);
            let mut created = execute_plan(&plan, create_record);
            dns_errors.append(&mut created);
        },
        Err(e) => {
            dns_errors.push(e);
        },
    }

    // the swap itself: replace the mapping wholesale
    let count = rules.len();
    data.map = rules_to_map(rules);
    SyncOutcome::Applied(count, dns_errors)
}

/// One synchronization pass over an already fetched configuration text:
/// parse, verify (probing every URL over the network), reconcile DNS
/// through the two provider callbacks, and swap the mapping in `data`.
/// A parse or verification failure leaves `data` exactly as it was.
pub fn sync_with_config<L: FnOnce() -> Result<Vec<DnsRecord>, DnsError>, C: Fn(String) -> Option<
    DnsError,
>>(
    data: &mut RedirectData,
    config_text: &str,
    root_domain: &str,
    list_records: L,
    create_record: C,
) -> (r: SyncOutcome)
    requires
        old(data).wf(),
        call_requires(list_records, ()),
        forall|name: String| call_requires(create_record, (name,)),
    ensures
        final(data).wf(),
        final(data).commit_hash == old(data).commit_hash,
        final(data).commit_url == old(data).commit_url,
        (r matches SyncOutcome::Rejected(_) || r matches SyncOutcome::FetchFailed(_))
            ==> *final(data) == *old(data),
        r matches SyncOutcome::FetchFailed(f) ==> (f is Parse && parse_config_spec(config_text@)
            is None),
        parse_config_spec(config_text@) is None ==> r matches SyncOutcome::FetchFailed(_),
        r matches SyncOutcome::Rejected(v) ==> (v@.len() > 0 && rejection_explained(
            config_text@,
            v@,
        )),
        r matches SyncOutcome::Applied(count, dns_errs) ==> (parse_config_spec(config_text@)
            matches Some(models) && count == models.len() && final(data).contents() == table_map(
            models,
        ) && (exists|probes: Seq<Option<u16>>|
            #![trigger all_errors(models, probes)]
            probes.len() == models.len() && all_errors(models, probes).len() == 0)),
        r matches SyncOutcome::Applied(count, dns_errs) ==> (applied_rules(*final(data), count as int)
            && forall|k: int|
            0 <= k < dns_errs@.len() ==> dns_error_answered(
                list_records,
                create_record,
                #[trigger] dns_errs@[k],
            )),
{
    let rules = match parse_config(config_text) {
        None => {
            return SyncOutcome::FetchFailed(FetchFailure::Parse);
        },
        Some(rs) => rs,
    };
    let r = sync_with_rules(data, &rules, root_domain, list_records, create_record);
    proof {
        let models0 = rule_models(rules@);
        assert(parse_config_spec(config_text@) == Some(models0));
        if r is Rejected {
            let v = r->Rejected_0;
            let probes0 = choose|probes: Seq<Option<u16>>|
                #![trigger all_errors(models0, probes)]
                probes.len() == rules@.len() && error_models(v@) == all_errors(models0, probes);
            assert(all_errors(parse_config_spec(config_text@).unwrap(), probes0) == all_errors(
                models0,
                probes0,
            ));
            assert(rejection_explained(config_text@, v@));
        }
    }
    r
}

/// One full synchronization pass: fetch the configuration from
/// `config_url`, then parse, verify, reconcile and swap as
/// [`sync_with_config`] does. A failed fetch, parse or verification leaves
/// `data` exactly as it was.
pub fn sync_pass<L: FnOnce() -> Result<Vec<DnsRecord>, DnsError>, C: Fn(String) -> Option<
    DnsError,
>>(
    data: &mut RedirectData,
    config_url: &str,
    root_domain: &str,
    list_records: L,
    create_record: C,
) -> (r: SyncOutcome)
    requires
        old(data).wf(),
        call_requires(list_records, ()),
        forall|name: String| call_requires(create_record, (name,)),
    ensures
        final(data).wf(),
        final(data).commit_hash == old(data).commit_hash,
        final(data).commit_url == old(data).commit_url,
        (r matches SyncOutcome::Rejected(_) || r matches SyncOutcome::FetchFailed(_))
            ==> *final(data) == *old(data),
        r matches SyncOutcome::Rejected(v) ==> v@.len() > 0,
        r matches SyncOutcome::Applied(count, _) ==> applied_rules(*final(data), count as int),
        r matches SyncOutcome::Applied(count, dns_errs) ==> forall|k: int|
            0 <= k < dns_errs@.len() ==> dns_error_answered(
                list_records,
                create_record,
                #[trigger] dns_errs@[k],
            ),
{
    let text = match http_get_text(config_url) {
        None => {
            return SyncOutcome::FetchFailed(FetchFailure::Transport);
        },
        Some(t) => t,
    };
    sync_with_config(data, text.as_str(), root_domain, list_records, create_record)
}

/// One full synchronization pass against the live table: all network work
/// runs on a private copy of the table data, and only a pass that ends in
/// `Applied` swaps the table, in one short exclusive write.
pub fn update_redirect_map<L: FnOnce() -> Result<Vec<DnsRecord>, DnsError>, C: Fn(String) -> Option<
    DnsError,
>>(
    table: &RedirectTable,
    config_url: &str,
    root_domain: &str,
    list_records: L,
    create_record: C,
) -> (r: SyncOutcome)
    requires
        call_requires(list_records, ()),
        forall|name: String| call_requires(create_record, (name,)),
    ensures
        r matches SyncOutcome::Rejected(v) ==> v@.len() > 0,
        r matches SyncOutcome::Applied(count, dns_errs) ==> forall|k: int|
            0 <= k < dns_errs@.len() ==> dns_error_answered(
                list_records,
                create_record,
                #[trigger] dns_errs@[k],
            ),
{
    let mut scratch = table.snapshot();
    let outcome = sync_pass(&mut scratch, config_url, root_domain, list_records, create_record);
    let applied = match &outcome {
        SyncOutcome::Applied(_, _) => true,
        _ => false,
    };
    if applied {
        table.replace(scratch);
    }
    outcome
}

/// Bootstraps table data from a local configuration text in the same
/// grammar as the remote source, without verification, as process start-up
/// does; the commit fields start empty.
pub fn redirects_from_config(text: &str) -> (r: Option<RedirectData>)
    ensures
        match r {
            Some(d) => {
                &&& d.wf()
                &&& parse_config_spec(text@) matches Some(models) && d.contents() == table_map(
                    models,
                )
                &&& d.commit_hash@.len() == 0
                &&& d.commit_url@.len() == 0
            },
            None => parse_config_spec(text@) is None,
        },
{
    let rules = match parse_config(text) {
        None => {
            return None;
        },
        Some(rs) => rs,
    };
    let map = rules_to_map(&rules);
    Some(RedirectData { map, commit_hash: String::new(), commit_url: String::new() })
}

/// Handles one delivered push event against the live table, as the
/// webhook endpoint does: a push that does not concern the tracked branch
/// and configuration file (added, modified or removed) is ignored, with no
/// fetch and no table change; any other push runs one full
/// synchronization pass.
pub fn webhook<L: FnOnce() -> Result<Vec<DnsRecord>, DnsError>, C: Fn(String) -> Option<DnsError>>(
    table: &RedirectTable,
    event: &PushEvent,
    config_url: &str,
    root_domain: &str,
    list_records: L,
    create_record: C,
) -> (r: Option<SyncOutcome>)
    requires
        call_requires(list_records, ()),
        forall|name: String| call_requires(create_record, (name,)),
    ensures
        (r is Some) <==> (event.refs@ == tracked_ref() && changed_in(
            event.commits@,
            tracked_file(),
        )),
        r matches Some(o) ==> (o matches SyncOutcome::Rejected(v) ==> v@.len() > 0),
{
    if !should_sync(event) {
        return None;
    }
    Some(update_redirect_map(table, config_url, root_domain, list_records, create_record))
}

} // verus!
