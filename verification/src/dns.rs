//! DNS reconciliation: which records the proposed rule set needs that the
//! zone does not yet have, and the execution of the creation plan with
//! failures collected instead of raised.

use vstd::prelude::*;

use crate::rules::{RuleModel, SiteRedirect, rule_models};

verus! {

/// How the DNS provider client authenticates.
#[derive(Debug, Clone, PartialEq, Eq)]
pub enum AuthType {
    AuthKeyEmail,
    AuthUserService,
}

/// The type of a zone record.
#[derive(Debug, Clone, PartialEq, Eq)]
pub enum RecordType {
    CNAME,
    A,
    TXT,
}

/// One zone record as the DNS provider reports it.
#[derive(Debug, Clone, PartialEq, Eq)]
pub struct DnsRecord {
    pub name: String,
    pub record_type: RecordType,
    pub target: String,
}

/// One failed DNS operation: the record it concerned and what the provider
/// answered.
#[derive(Debug, Clone, PartialEq, Eq)]
pub struct DnsError {
    pub name: String,
    pub detail: String,
}

/// The fully qualified record name for a short key under the root domain.
pub open spec fn fqdn(short: Seq<char>, root: Seq<char>) -> Seq<char> {
    short + "."@ + root
}

/// The zone already has a record of this name.
pub open spec fn has_record(records: Seq<DnsRecord>, name: Seq<char>) -> bool {
    exists|i: int| 0 <= i < records.len() && records[i].name@ == name
}

/// The record names the rule set needs that the zone lacks, in rule order.
pub open spec fn missing_names(
    models: Seq<RuleModel>,
    records: Seq<DnsRecord>,
    root: Seq<char>,
) -> Seq<Seq<char>>
    decreases models.len(),
{
    if models.len() == 0 {
        Seq::empty()
    } else {
        missing_names(models.drop_last(), records, root) + if has_record(
            records,
            fqdn(models.last().short, root),
        ) {
            Seq::empty()
        } else {
            seq![fqdn(models.last().short, root)]
        }
    }
}

/// The views of a sequence of strings.
pub open spec fn string_views(s: Seq<String>) -> Seq<Seq<char>> {
    s.map(|i: int, x: String| x@)
}

fn make_fqdn(short: &String, root: &str) -> (r: String)
    ensures
        r@ == fqdn(short@, root@),
{
    let mut name = short.clone();
    name.append(".");
    name.append(root);
    name
}

fn record_exists(records: &Vec<DnsRecord>, name: &String) -> (r: bool)
    ensures
        r == has_record(records@, name@),
{
    let n = records.len();
    for i in 0..n
        invariant
            n == records@.len(),
            forall|k: int| 0 <= k < i ==> records@[k].name@ != name@,
    {
        if records[i].name == *name {
            return true;
        }
    }
    false
}

/// The creation plan for one reconciliation pass: the fully qualified name
/// of every rule whose short key has no record in the zone yet, in rule
/// order.
pub fn reconcile_plan(rules: &Vec<SiteRedirect>, records: &Vec<DnsRecord>, root: &str) -> (r: Vec<
    String,
>)
    ensures
        string_views(r@) == missing_names(rule_models(rules@), records@, root@),
{
    let models = Ghost(rule_models(rules@));
    let n = rules.len();
    let mut r: Vec<String> = Vec::new();
    proof {
        assert(models@.take(0) =~= Seq::<RuleModel>::empty());
        assert(string_views(r@) =~= Seq::<Seq<char>>::empty());
    }
    for i in 0..n
        invariant
            n == rules@.len(),
            models@ == rule_models(rules@),
            string_views(r@) == missing_names(models@.take(i as int), records@, root@),
    {
        let name = make_fqdn(&rules[i].short, root);
        proof {
            assert(models@[i as int] == rules@[i as int]@);
            assert(models@.take(i + 1).drop_last() =~= models@.take(i as int));
            assert(models@.take(i + 1).last() == models@[i as int]);
        }
        let ghost prev = r@;
        if !record_exists(records, &name) {
            r.push(name);
            proof {
                assert(string_views(r@) =~= string_views(prev) + seq![fqdn(
                    models@[i as int].short,
                    root@,
                )]);
                assert(string_views(r@) =~= missing_names(
                    models@.take(i + 1),
                    records@,
                    root@,
                ));
            }
        } else {
            proof {
                assert(string_views(r@) =~= missing_names(
                    models@.take(i + 1),
                    records@,
                    root@,
                ));
            }
        }
    }
    proof {
        assert(models@.take(n as int) =~= models@);
    }
    r
}

/// `e` is an answer that `create_record` can give for some name of the
/// plan.
pub open spec fn from_plan<C: Fn(String) -> Option<DnsError>>(
    create_record: C,
    plan: Seq<String>,
    e: DnsError,
) -> bool {
    exists|j: int| 0 <= j < plan.len() && call_ensures(create_record, (plan[j],), Some(e))
}

/// The failed outcomes of one reconciliation pass, in plan order: every
/// `Some` among the per-name answers, and nothing else.
pub open spec fn collected_failures(outcomes: Seq<Option<DnsError>>) -> Seq<DnsError>
    decreases outcomes.len(),
{
    if outcomes.len() == 0 {
        Seq::empty()
    } else {
        collected_failures(outcomes.drop_last()) + match outcomes.last() {
            Some(e) => seq![e],
            None => Seq::empty(),
        }
    }
}

/// Attempts every record creation in the plan, independently: a failed
/// creation is collected and never prevents the remaining attempts. The
/// result is exactly the failures among one callback answer per planned
/// name, in plan order: nothing is skipped and no failure is dropped.
pub fn execute_plan<C: Fn(String) -> Option<DnsError>>(plan: &Vec<String>, create_record: C) -> (r:
    Vec<DnsError>)
    requires
        forall|i: int| 0 <= i < plan@.len() ==> call_requires(create_record, (#[trigger] plan@[i],)),
    ensures
        r@.len() <= plan@.len(),
        forall|k: int|
            0 <= k < r@.len() ==> from_plan(create_record, plan@, #[trigger] r@[k]),
        exists|outcomes: Seq<Option<DnsError>>|
            #![trigger collected_failures(outcomes)]
            outcomes.len() == plan@.len() && (forall|i: int|
                0 <= i < plan@.len() ==> call_ensures(
                    create_record,
                    (plan@[i],),
                    #[trigger] outcomes[i],
                )) && r@ == collected_failures(outcomes),
{
    let n = plan.len();
    let mut r: Vec<DnsError> = Vec::new();
    let ghost mut outs: Seq<Option<DnsError>> = Seq::empty();
    proof {
        assert(r@ =~= collected_failures(outs));
    }
    for i in 0..n
        invariant
            n == plan@.len(),
            r@.len() <= i,
            outs.len() == i,
            forall|x: int| 0 <= x < n ==> call_requires(create_record, (#[trigger] plan@[x],)),
            forall|k: int|
                0 <= k < r@.len() ==> from_plan(create_record, plan@, #[trigger] r@[k]),
            forall|x: int|
                0 <= x < i ==> call_ensures(create_record, (plan@[x],), #[trigger] outs[x]),
            r@ == collected_failures(outs),
    {
        let name = plan[i].clone();
        let ghost prev = outs;
        match create_record(name) {
            Some(e) => {
                proof {
                    assert(call_ensures(create_record, (plan@[i as int],), Some(e)));
                    assert(from_plan(create_record, plan@, e));
                    outs = outs.push(Some(e));
                    assert(outs.drop_last() =~= prev);
                }
                r.push(e);
                assert(r@ =~= collected_failures(outs));
            },
            None => {
                proof {
                    outs = outs.push(None);
                    assert(outs.drop_last() =~= prev);
                    assert(r@ =~= collected_failures(outs));
                }
            },
        }
    }
    proof {
        assert(collected_failures(outs) == r@);
    }
    r
}

} // verus!
