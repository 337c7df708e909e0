//! The operator-facing report of the live table: its rules sorted by short
//! key, so the index page lists every redirect in alphabetic order.

use vstd::prelude::*;
use vstd::seq_lib::group_to_multiset_ensures;

use crate::rules::{RuleModel, SiteRedirect, rule_models};
use crate::table::RedirectData;

verus! {

/// Lexicographic order on character sequences, by code point; a prefix
/// comes before every extension of it.
pub open spec fn lex_le(a: Seq<char>, b: Seq<char>) -> bool
    decreases a.len(),
{
    if a.len() == 0 {
        true
    } else if b.len() == 0 {
        false
    } else if (a[0] as u32) < (b[0] as u32) {
        true
    } else if (b[0] as u32) < (a[0] as u32) {
        false
    } else {
        lex_le(a.drop_first(), b.drop_first())
    }
}

/// Any two character sequences compare one way or the other.
pub proof fn lemma_lex_total(a: Seq<char>, b: Seq<char>)
    ensures
        lex_le(a, b) || lex_le(b, a),
    decreases a.len(),
{
    if a.len() > 0 && b.len() > 0 && !((a[0] as u32) < (b[0] as u32)) && !((b[0] as u32) < (
    a[0] as u32)) {
        lemma_lex_total(a.drop_first(), b.drop_first());
    }
}

/// Lexicographic order is transitive.
pub proof fn lemma_lex_trans(a: Seq<char>, b: Seq<char>, c: Seq<char>)
    requires
        lex_le(a, b),
        lex_le(b, c),
    ensures
        lex_le(a, c),
    decreases a.len(),
{
    if a.len() > 0 && b.len() > 0 && c.len() > 0 && !((a[0] as u32) < (b[0] as u32)) && !((
    b[0] as u32) < (a[0] as u32)) && !((b[0] as u32) < (c[0] as u32)) && !((c[0] as u32) < (
    b[0] as u32)) {
        lemma_lex_trans(a.drop_first(), b.drop_first(), c.drop_first());
    }
}

/// Whether two character vectors are ordered, lexicographically.
fn chars_le(a: &Vec<char>, b: &Vec<char>) -> (r: bool)
    ensures
        r == lex_le(a@, b@),
    decreases a@.len(),
{
    if a.len() == 0 {
        true
    } else if b.len() == 0 {
        false
    } else if (a[0] as u32) < (b[0] as u32) {
        true
    } else if (b[0] as u32) < (a[0] as u32) {
        false
    } else {
        let ar = crate::text::chars_subrange(a, 1, a.len());
        let br = crate::text::chars_subrange(b, 1, b.len());
        proof {
            assert(ar@ =~= a@.drop_first());
            assert(br@ =~= b@.drop_first());
        }
        chars_le(&ar, &br)
    }
}

/// Whether two strings are ordered, lexicographically.
fn str_le(a: &String, b: &String) -> (r: bool)
    ensures
        r == lex_le(a@, b@),
{
    let av = crate::text::str_to_chars(a.as_str());
    let bv = crate::text::str_to_chars(b.as_str());
    chars_le(&av, &bv)
}

/// The rules are ordered by short key.
pub open spec fn sorted_by_short(models: Seq<RuleModel>) -> bool {
    forall|i: int, j: int|
        0 <= i <= j < models.len() ==> lex_le(#[trigger] models[i].short, #[trigger] models[j].short)
}

/// A sequence with one element inserted carries the old elements plus it.
proof fn lemma_insert_to_multiset(s: Seq<RuleModel>, k: int, x: RuleModel)
    requires
        0 <= k <= s.len(),
    ensures
        s.insert(k, x).to_multiset() =~= s.to_multiset().insert(x),
{
    broadcast use group_to_multiset_ensures;

    let front = s.take(k);
    let back = s.skip(k);
    assert(s.insert(k, x) =~= front.push(x) + back);
    assert(s =~= front + back);
    vstd::seq_lib::lemma_multiset_commutative(front.push(x), back);
    vstd::seq_lib::lemma_multiset_commutative(front, back);
    assert(front.push(x).to_multiset() =~= front.to_multiset().insert(x));
    assert((front.to_multiset().insert(x)).add(back.to_multiset()) =~= (front.to_multiset().add(
        back.to_multiset(),
    )).insert(x));
}

/// The rules of the table sorted by short key: the same rules, in
/// alphabetic order, for the operator report.
pub fn report_sorted(data: &RedirectData) -> (r: Vec<SiteRedirect>)
    ensures
        rule_models(r@).to_multiset() == rule_models(data.map@).to_multiset(),
        sorted_by_short(rule_models(r@)),
{
    broadcast use group_to_multiset_ensures;

    let models = Ghost(rule_models(data.map@));
    let n = data.map.len();
    let mut r: Vec<SiteRedirect> = Vec::new();
    proof {
        assert(rule_models(r@) =~= Seq::<RuleModel>::empty());
        assert(models@.take(0) =~= Seq::<RuleModel>::empty());
        assert(rule_models(Seq::<SiteRedirect>::empty()).to_multiset() =~= Seq::<
            RuleModel,
        >::empty().to_multiset());
    }
    for i in 0..n
        invariant
            n == data.map@.len(),
            models@ == rule_models(data.map@),
            rule_models(r@).to_multiset() == rule_models(data.map@.take(i as int)).to_multiset(),
            sorted_by_short(rule_models(r@)),
    {
        let rule = data.map[i].duplicate();
        proof {
            assert(rule@ == models@[i as int]);
        }
        // find the first position whose key is not below the new one
        let mut idx: usize = 0;
        while idx < r.len() && !str_le(&rule.short, &r[idx].short)
            invariant
                idx <= r@.len(),
                rule@ == models@[i as int],
                sorted_by_short(rule_models(r@)),
                forall|j: int| 0 <= j < idx ==> !lex_le(rule@.short, rule_models(r@)[j].short),
            decreases r@.len() - idx,
        {
            proof {
                assert(rule_models(r@)[idx as int] == r@[idx as int]@);
            }
            idx += 1;
        }
        let ghost before = rule_models(r@);
        proof {
            assert forall|j: int| 0 <= j < idx implies lex_le(
                before[j].short,
                rule@.short,
            ) by {
                lemma_lex_total(rule@.short, before[j].short);
            }
            if idx < r@.len() {
                assert(rule_models(r@)[idx as int] == r@[idx as int]@);
                assert(lex_le(rule@.short, before[idx as int].short));
            }
        }
        r.insert(idx, rule);
        proof {
            let after = rule_models(r@);
            assert(after =~= before.insert(idx as int, models@[i as int]));
            lemma_insert_to_multiset(before, idx as int, models@[i as int]);
            assert(rule_models(data.map@.take(i + 1)) =~= rule_models(
                data.map@.take(i as int),
            ).push(models@[i as int]));
            rule_models(data.map@.take(i as int)).to_multiset_ensures();
            assert(rule_models(data.map@.take(i as int)).push(
                models@[i as int],
            ).to_multiset() =~= rule_models(data.map@.take(i as int)).to_multiset().insert(
                models@[i as int],
            ));
            assert(rule_models(r@).to_multiset() =~= rule_models(
                data.map@.take(i + 1),
            ).to_multiset());
            // the new element sits between everything below it and the rest
            let m = models@[i as int].short;
            assert forall|x: int, y: int| 0 <= x <= y < after.len() implies lex_le(
                after[x].short,
                after[y].short,
            ) by {
                if x < idx {
                    assert(after[x] == before[x]);
                }
                if idx < x {
                    assert(after[x] == before[x - 1]);
                }
                if y < idx {
                    assert(after[y] == before[y]);
                }
                if idx < y {
                    assert(after[y] == before[y - 1]);
                }
                if x == idx && y == idx {
                    lemma_lex_total(m, m);
                } else if x == idx {
                    // m precedes the old element at the insertion point,
                    // which precedes everything after it
                    assert(lex_le(m, before[idx as int].short));
                    assert(lex_le(before[idx as int].short, before[y - 1].short));
                    lemma_lex_trans(m, before[idx as int].short, before[y - 1].short);
                } else if y == idx {
                    assert(lex_le(before[x].short, m));
                } else {
                    let xs: int = if x < idx { x } else { x - 1 };
                    let ys: int = if y < idx { y } else { y - 1 };
                    assert(after[x] == before[xs] && after[y] == before[ys]);
                    assert(lex_le(before[xs].short, before[ys].short));
                }
            }
        }
    }
    proof {
        assert(data.map@.take(n as int) =~= data.map@);
    }
    r
}

} // verus!
