//! Verification of a proposed redirect rule set: duplicate short keys are
//! found by comparing every rule against the ones before it, and every
//! destination URL is checked to parse and to answer with a success status.
//! All failures are collected; verification never stops at the first.

use rayon::iter::{IntoParallelRefIterator, ParallelIterator};
use vstd::prelude::*;

use crate::rules::{ErrorModel, RedirectError, RuleModel, SiteRedirect, error_models, rule_models};
use crate::text::{dec_of, u16_to_string};

verus! {

/// Whether a string parses as an absolute URL. Named for the result of
/// `url::Url::parse`, which depends on the characters alone.
pub uninterp spec fn url_syntax_ok(s: Seq<char>) -> bool;

/// Relies on `url::Url::parse`: success or failure of parsing is a function
/// of the input string alone.
#[verifier::external_body]
fn url_is_valid(s: &str) -> (r: bool)
    ensures
        r == url_syntax_ok(s@),
{
    url::Url::parse(s).is_ok()
}

/// Relies on reqwest's blocking client: one GET of `url` under a bounded
/// timeout. `Some(s)` carries the HTTP status code of the response; `None`
/// is any builder, transport or timeout failure. The outcome depends on the
/// network, so nothing relates it to the argument.
#[verifier::external_body]
fn http_get_status(url: &str) -> (r: Option<u16>) {
    let client = match reqwest::blocking::Client::builder()
        .timeout(std::time::Duration::from_secs(5))
        .build() {
        Ok(c) => c,
        Err(_) => return None,
    };
    match client.get(url).send() {
        Ok(resp) => Some(resp.status().as_u16()),
        Err(_) => None,
    }
}

/// One reachability probe of `url`: the status of a GET, or `None` on any
/// failure.
fn probe_url(url: &str) -> Option<u16> {
    http_get_status(url)
}

/// Relies on rayon's `par_iter`/`map`/`collect`: the probes run in
/// parallel across a bounded worker pool, and the collected vector keeps
/// the length and order of the input.
#[verifier::external_body]
fn probe_all(rules: &Vec<SiteRedirect>) -> (r: Vec<Option<u16>>)
    ensures
        r@.len() == rules@.len(),
{
    rules.par_iter().map(|rule| probe_url(&rule.url)).collect()
}

/// The message reported when a URL parses but the GET itself fails.
pub open spec fn failure_message(url: Seq<char>) -> Seq<char> {
    url + ": request failed"@
}

/// The message reported when a URL answers with status `s` outside the
/// success range.
pub open spec fn status_message(url: Seq<char>, s: u16) -> Seq<char> {
    url + ": "@ + dec_of(s as nat)
}

/// The verification error, if any, for one destination URL given the probe
/// outcome `probe`: a URL that does not parse is malformed whatever the
/// probe said; a parsed URL fails when the probe failed or answered outside
/// 200..300.
pub open spec fn url_error(url: Seq<char>, probe: Option<u16>) -> Option<ErrorModel> {
    if !url_syntax_ok(url) {
        Some(ErrorModel::BadUrl(url))
    } else {
        match probe {
            None => Some(ErrorModel::InvalidPage(failure_message(url))),
            Some(s) => if 200 <= s < 300 {
                None
            } else {
                Some(ErrorModel::InvalidPage(status_message(url, s)))
            },
        }
    }
}

/// Rule `i` repeats a short key that some earlier rule already carries.
pub open spec fn dup_at(models: Seq<RuleModel>, i: int) -> bool {
    exists|j: int| 0 <= j < i && models[j].short == models[i].short
}

/// The duplicate-key errors of a rule set, one for every rule whose short
/// key already occurred (so k rules sharing a key yield k - 1 errors).
pub open spec fn dup_errors(models: Seq<RuleModel>) -> Seq<ErrorModel>
    decreases models.len(),
{
    if models.len() == 0 {
        Seq::empty()
    } else {
        dup_errors(models.drop_last()) + if dup_at(models, models.len() - 1) {
            seq![ErrorModel::DuplicateRule(models.last().short)]
        } else {
            Seq::empty()
        }
    }
}

/// The URL errors of a rule set under the probe outcomes `probes`, in rule
/// order.
pub open spec fn url_errors(models: Seq<RuleModel>, probes: Seq<Option<u16>>) -> Seq<ErrorModel>
    decreases models.len(),
{
    if models.len() == 0 {
        Seq::empty()
    } else {
        url_errors(models.drop_last(), probes.drop_last()) + match url_error(
            models.last().url,
            probes.last(),
        ) {
            Some(e) => seq![e],
            None => Seq::empty(),
        }
    }
}

/// Every verification error of a rule set under the probe outcomes
/// `probes`: all duplicate-key errors, then all URL errors.
pub open spec fn all_errors(models: Seq<RuleModel>, probes: Seq<Option<u16>>) -> Seq<ErrorModel> {
    dup_errors(models) + url_errors(models, probes)
}

/// The error reported by a single-URL check, if any.
pub open spec fn check_model(r: Result<(), RedirectError>) -> Option<ErrorModel> {
    match r {
        Ok(_) => None,
        Err(e) => Some(e@),
    }
}

fn request_failed_message(url: &String) -> (r: String)
    ensures
        r@ == failure_message(url@),
{
    let mut m = url.clone();
    m.append(": request failed");
    m
}

fn bad_status_message(url: &String, s: u16) -> (r: String)
    ensures
        r@ == status_message(url@, s),
{
    let mut m = url.clone();
    m.append(": ");
    let digits = u16_to_string(s);
    m.append(digits.as_str());
    m
}

/// The verification error for one destination URL under probe outcome
/// `probe`, if any, as an owned error value.
fn url_error_for(url: &String, probe: Option<u16>) -> (r: Option<RedirectError>)
    ensures
        match r {
            Some(e) => url_error(url@, probe) == Some(e@),
            None => url_error(url@, probe) is None,
        },
{
    if !url_is_valid(url.as_str()) {
        Some(RedirectError::BadUrl(url.clone()))
    } else {
        match probe {
            None => Some(RedirectError::InvalidPage(request_failed_message(url))),
            Some(s) => if 200 <= s && s < 300 {
                None
            } else {
                Some(RedirectError::InvalidPage(bad_status_message(url, s)))
            },
        }
    }
}

/// Checks that `url` parses as an absolute URL and answers a GET with a
/// success status. The probe outcome is the network's; the result is the
/// classification of some probe outcome for this URL, and a URL that does
/// not parse is always reported as malformed.
pub fn check_url(url: &str) -> (r: Result<(), RedirectError>)
    ensures
        exists|probe: Option<u16>| check_model(r) == url_error(url@, probe),
        !url_syntax_ok(url@) ==> (r matches Err(e) && e@ == ErrorModel::BadUrl(url@)),
{
    if !url_is_valid(url) {
        let r = Err(RedirectError::BadUrl(url.to_owned()));
        proof {
            assert(check_model(r) == url_error(url@, None::<u16>));
        }
        r
    } else {
        let owned = url.to_owned();
        let probe = http_get_status(url);
        let r = match url_error_for(&owned, probe) {
            Some(e) => Err(e),
            None => Ok(()),
        };
        proof {
            assert(check_model(r) == url_error(url@, probe));
        }
        r
    }
}

/// Verifies `rules` against the given probe outcomes, one per rule: the
/// result is exactly `all_errors` of the rule set under those outcomes,
/// success when that collection is empty.
pub fn verify_with_statuses(rules: &Vec<SiteRedirect>, probes: &Vec<Option<u16>>) -> (r: Result<
    (),
    Vec<RedirectError>,
>)
    requires
        probes@.len() == rules@.len(),
    ensures
        ({
            let errs = all_errors(rule_models(rules@), probes@);
            match r {
                Ok(_) => errs.len() == 0,
                Err(v) => error_models(v@) == errs && v@.len() > 0,
            }
        }),
{
    let models = Ghost(rule_models(rules@));
    let n = rules.len();
    let mut errs: Vec<RedirectError> = Vec::new();

    // duplicate-key scan: flag every rule whose key occurred before it
    for i in 0..n
        invariant
            n == rules@.len(),
            models@ == rule_models(rules@),
            error_models(errs@) == dup_errors(models@.take(i as int)),
    {
        let mut seen = false;
        let mut j: usize = 0;
        while j < i
            invariant
                j <= i < n,
                n == rules@.len(),
                models@ == rule_models(rules@),
                seen <==> exists|x: int| 0 <= x < j && models@[x].short == models@[i as int].short,
            decreases i - j,
        {
            if rules[j].short == rules[i].short {
                seen = true;
                assert(models@[j as int].short == models@[i as int].short);
            }
            j += 1;
        }
        proof {
            assert(seen <==> dup_at(models@, i as int));
            assert(models@.take(i + 1).drop_last() =~= models@.take(i as int));
            let t = models@.take(i + 1);
            assert(dup_at(t, i as int) <==> dup_at(models@, i as int)) by {
                if dup_at(t, i as int) {
                    let x = choose|x: int| #![trigger t[x]]
                        0 <= x < i && t[x].short == t[i as int].short;
                    assert(models@[x].short == models@[i as int].short);
                }
                if dup_at(models@, i as int) {
                    let x = choose|x: int| #![trigger models@[x]]
                        0 <= x < i && models@[x].short == models@[i as int].short;
                    assert(t[x].short == t[i as int].short);
                }
            }
        }
        if seen {
            errs.push(RedirectError::DuplicateRule(rules[i].short.clone()));
            assert(error_models(errs@) =~= dup_errors(models@.take(i + 1)));
        } else {
            assert(error_models(errs@) =~= dup_errors(models@.take(i + 1)));
        }
    }
    assert(models@.take(n as int) =~= models@);
    let dups = Ghost(dup_errors(models@));
    assert(error_models(errs@) == dups@);

    // URL scan: classify every rule's URL under its probe outcome
    for i in 0..n
        invariant
            n == rules@.len() == probes@.len(),
            models@ == rule_models(rules@),
            dups@ == dup_errors(models@),
            error_models(errs@) == dups@ + url_errors(
                models@.take(i as int),
                probes@.take(i as int),
            ),
    {
        let e = url_error_for(&rules[i].url, probes[i]);
        proof {
            assert(models@[i as int] == rules@[i as int]@);
            assert(models@.take(i + 1).drop_last() =~= models@.take(i as int));
            assert(probes@.take(i + 1).drop_last() =~= probes@.take(i as int));
            assert(models@.take(i + 1).last() == models@[i as int]);
            assert(probes@.take(i + 1).last() == probes@[i as int]);
        }
        match e {
            Some(err) => {
                proof {
                    assert(url_error(models@[i as int].url, probes@[i as int]) == Some(err@));
                    assert(url_errors(models@.take(i + 1), probes@.take(i + 1)) == url_errors(
                        models@.take(i as int),
                        probes@.take(i as int),
                    ) + seq![err@]);
                }
                let ghost prev = errs@;
                errs.push(err);
                proof {
                    assert(errs@ == prev.push(errs@.last()));
                    assert(error_models(errs@) =~= error_models(prev) + seq![errs@.last()@]);
                }
                assert(error_models(errs@) =~= dups@ + url_errors(
                    models@.take(i + 1),
                    probes@.take(i + 1),
                ));
            },
            None => {
                proof {
                    assert(url_error(models@[i as int].url, probes@[i as int]) is None);
                    assert(url_errors(models@.take(i + 1), probes@.take(i + 1)) == url_errors(
                        models@.take(i as int),
                        probes@.take(i as int),
                    ) + Seq::<ErrorModel>::empty());
                    assert(url_errors(models@.take(i + 1), probes@.take(i + 1)) =~= url_errors(
                        models@.take(i as int),
                        probes@.take(i as int),
                    ));
                }
                assert(error_models(errs@) =~= dups@ + url_errors(
                    models@.take(i + 1),
                    probes@.take(i + 1),
                ));
            },
        }
    }
    proof {
        assert(probes@.take(n as int) =~= probes@);
        assert(error_models(errs@) =~= all_errors(models@, probes@));
    }
    if errs.is_empty() {
        assert(all_errors(models@, probes@).len() == 0);
        Ok(())
    } else {
        Err(errs)
    }
}

/// Verifies a proposed rule set: every rule's URL is probed over the
/// network (in parallel), and the result is exactly the error collection of
/// the set under the probe outcomes that came back.
pub fn verify_redirects(rules: &Vec<SiteRedirect>) -> (r: Result<(), Vec<RedirectError>>)
    ensures
        exists|probes: Seq<Option<u16>>|
            #![trigger all_errors(rule_models(rules@), probes)]
            probes.len() == rules@.len() && ({
                let errs = all_errors(rule_models(rules@), probes);
                match r {
                    Ok(_) => errs.len() == 0,
                    Err(v) => error_models(v@) == errs && v@.len() > 0,
                }
            }),
{
    let probes = probe_all(rules);
    verify_with_statuses(rules, &probes)
}

/// The probe of a URL answered with a success status.
pub open spec fn probe_success(probe: Option<u16>) -> bool {
    probe matches Some(s) && 200 <= s < 300
}

/// A rule set without repeated short keys yields no duplicate-key errors.
proof fn lemma_no_dups_no_errors(models: Seq<RuleModel>)
    requires
        forall|i: int, j: int| 0 <= i < j < models.len() ==> models[i].short != models[j].short,
    ensures
        dup_errors(models).len() == 0,
    decreases models.len(),
{
    if models.len() > 0 {
        let prefix = models.drop_last();
        assert forall|i: int, j: int| 0 <= i < j < prefix.len() implies prefix[i].short
            != prefix[j].short by {
            assert(prefix[i] == models[i]);
            assert(prefix[j] == models[j]);
        }
        lemma_no_dups_no_errors(prefix);
        assert(!dup_at(models, models.len() - 1));
    }
}

/// A rule set whose URLs all check out yields no URL errors.
proof fn lemma_all_urls_ok(models: Seq<RuleModel>, probes: Seq<Option<u16>>)
    requires
        probes.len() == models.len(),
        forall|i: int|
            0 <= i < models.len() ==> url_error(models[i].url, #[trigger] probes[i]) is None,
    ensures
        url_errors(models, probes).len() == 0,
    decreases models.len(),
{
    if models.len() > 0 {
        let prefix = models.drop_last();
        let pprobes = probes.drop_last();
        assert forall|i: int| 0 <= i < prefix.len() implies url_error(
            prefix[i].url,
            #[trigger] pprobes[i],
        ) is None by {
            assert(prefix[i] == models[i]);
            assert(pprobes[i] == probes[i]);
        }
        lemma_all_urls_ok(prefix, pprobes);
        assert(url_error(models.last().url, probes[models.len() - 1]) is None);
    }
}

/// A rule repeating an earlier short key always contributes its
/// duplicate-key error.
proof fn lemma_dup_errors_contains(models: Seq<RuleModel>, x: int)
    requires
        0 <= x < models.len(),
        dup_at(models, x),
    ensures
        dup_errors(models).contains(ErrorModel::DuplicateRule(models[x].short)),
    decreases models.len(),
{
    let e = ErrorModel::DuplicateRule(models[x].short);
    if x == models.len() - 1 {
        let all = dup_errors(models);
        assert(all[all.len() - 1] == e);
    } else {
        let prefix = models.drop_last();
        let j = choose|j: int| 0 <= j < x && models[j].short == models[x].short;
        assert(prefix[j] == models[j]);
        assert(prefix[x] == models[x]);
        assert(dup_at(prefix, x));
        lemma_dup_errors_contains(prefix, x);
        let k = choose|k: int| 0 <= k < dup_errors(prefix).len() && dup_errors(prefix)[k] == e;
        assert(dup_errors(models)[k] == e);
    }
}

/// A URL that classifies as failed always contributes its error.
proof fn lemma_url_errors_contains(
    models: Seq<RuleModel>,
    probes: Seq<Option<u16>>,
    x: int,
    e: ErrorModel,
)
    requires
        probes.len() == models.len(),
        0 <= x < models.len(),
        url_error(models[x].url, probes[x]) == Some(e),
    ensures
        url_errors(models, probes).contains(e),
    decreases models.len(),
{
    if x == models.len() - 1 {
        let all = url_errors(models, probes);
        assert(all[all.len() - 1] == e);
    } else {
        let prefix = models.drop_last();
        let pprobes = probes.drop_last();
        assert(prefix[x] == models[x]);
        assert(pprobes[x] == probes[x]);
        lemma_url_errors_contains(prefix, pprobes, x, e);
        let k = choose|k: int|
            0 <= k < url_errors(prefix, pprobes).len() && url_errors(prefix, pprobes)[k] == e;
        assert(url_errors(models, probes)[k] == e);
    }
}

/// A rule set whose short keys are pairwise distinct and whose URLs all
/// parse and answered their probes with a success status verifies without
/// any error.
pub proof fn lemma_verify_accepts_valid(models: Seq<RuleModel>, probes: Seq<Option<u16>>)
    requires
        probes.len() == models.len(),
        forall|i: int, j: int| 0 <= i < j < models.len() ==> models[i].short != models[j].short,
        forall|i: int| 0 <= i < models.len() ==> url_syntax_ok(#[trigger] models[i].url),
        forall|i: int| 0 <= i < models.len() ==> probe_success(#[trigger] probes[i]),
    ensures
        all_errors(models, probes).len() == 0,
{
    lemma_no_dups_no_errors(models);
    assert forall|i: int|
        0 <= i < models.len() implies url_error(models[i].url, #[trigger] probes[i]) is None by {
        assert(url_syntax_ok(models[i].url));
        assert(probe_success(probes[i]));
    }
    lemma_all_urls_ok(models, probes);
}

/// Two rules sharing a short key make verification report a duplicate-key
/// error for that key, whatever the probes said.
pub proof fn lemma_verify_reports_duplicate(
    models: Seq<RuleModel>,
    probes: Seq<Option<u16>>,
    i: int,
    j: int,
)
    requires
        probes.len() == models.len(),
        0 <= i < j < models.len(),
        models[i].short == models[j].short,
    ensures
        all_errors(models, probes).contains(ErrorModel::DuplicateRule(models[j].short)),
        all_errors(models, probes).len() > 0,
{
    assert(dup_at(models, j));
    lemma_dup_errors_contains(models, j);
    let e = ErrorModel::DuplicateRule(models[j].short);
    let k = choose|k: int| 0 <= k < dup_errors(models).len() && dup_errors(models)[k] == e;
    assert(all_errors(models, probes)[k] == e);
}

/// A rule whose URL does not parse makes verification report it as
/// malformed, and does not suppress the other failures of the same set:
/// every duplicate-key error and every other URL error is still reported.
pub proof fn lemma_verify_reports_malformed(
    models: Seq<RuleModel>,
    probes: Seq<Option<u16>>,
    x: int,
)
    requires
        probes.len() == models.len(),
        0 <= x < models.len(),
        !url_syntax_ok(models[x].url),
    ensures
        all_errors(models, probes).contains(ErrorModel::BadUrl(models[x].url)),
        all_errors(models, probes).len() > 0,
        forall|i: int, j: int|
            #![trigger models[i].short, models[j].short]
            0 <= i < j < models.len() && models[i].short == models[j].short ==> all_errors(
                models,
                probes,
            ).contains(ErrorModel::DuplicateRule(models[j].short)),
        forall|y: int|
            0 <= y < models.len() && (#[trigger] url_error(models[y].url, probes[y])) is Some
                ==> all_errors(models, probes).contains(
                url_error(models[y].url, probes[y]).unwrap(),
            ),
{
    let e = ErrorModel::BadUrl(models[x].url);
    assert(url_error(models[x].url, probes[x]) == Some(e));
    lemma_url_errors_contains(models, probes, x, e);
    let k = choose|k: int|
        0 <= k < url_errors(models, probes).len() && url_errors(models, probes)[k] == e;
    assert(all_errors(models, probes)[dup_errors(models).len() + k] == e);
    assert forall|i: int, j: int|
        0 <= i < j < models.len() && models[i].short == models[j].short implies all_errors(
        models,
        probes,
    ).contains(ErrorModel::DuplicateRule(models[j].short)) by {
        lemma_verify_reports_duplicate(models, probes, i, j);
    }
    assert forall|y: int|
        0 <= y < models.len() && (#[trigger] url_error(models[y].url, probes[y]))
            is Some implies all_errors(models, probes).contains(
        url_error(models[y].url, probes[y]).unwrap(),
    ) by {
        let ey = url_error(models[y].url, probes[y]).unwrap();
        lemma_url_errors_contains(models, probes, y, ey);
        let ky = choose|ky: int|
            0 <= ky < url_errors(models, probes).len() && url_errors(models, probes)[ky] == ey;
        assert(all_errors(models, probes)[dup_errors(models).len() + ky] == ey);
    }
}

} // verus!
