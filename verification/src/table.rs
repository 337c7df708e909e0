//! The live redirect table: the mapping from short keys to destination URLs
//! that answers every redirect request, plus the shared, concurrently
//! readable handle that the server holds.

use vstd::prelude::*;
use vstd::rwlock::{RwLock, RwLockPredicate};

use crate::rules::{RuleModel, SiteRedirect, rule_models};

verus! {

/// The mapping described by an association list of rules; a later entry for
/// the same short key shadows an earlier one.
pub open spec fn table_map(models: Seq<RuleModel>) -> Map<Seq<char>, Seq<char>>
    decreases models.len(),
{
    if models.len() == 0 {
        Map::empty()
    } else {
        table_map(models.drop_last()).insert(models.last().short, models.last().url)
    }
}

/// `i` is the last index of `models` carrying its short key.
pub open spec fn last_for_key(models: Seq<RuleModel>, i: int) -> bool {
    &&& 0 <= i < models.len()
    &&& forall|j: int| i < j < models.len() ==> models[j].short != models[i].short
}

/// `table_map` contains exactly the short keys that occur in `models`.
pub proof fn lemma_table_map_key(models: Seq<RuleModel>, k: Seq<char>)
    ensures
        table_map(models).contains_key(k) <==> exists|i: int|
            0 <= i < models.len() && models[i].short == k,
    decreases models.len(),
{
    if models.len() > 0 {
        let prefix = models.drop_last();
        lemma_table_map_key(prefix, k);
        if table_map(models).contains_key(k) {
            if k == models.last().short {
                assert(models[models.len() - 1].short == k);
            } else {
                assert(table_map(prefix).contains_key(k));
                let i = choose|i: int| 0 <= i < prefix.len() && prefix[i].short == k;
                assert(prefix[i] == models[i]);
                assert(models[i].short == k);
            }
        }
        if exists|i: int| 0 <= i < models.len() && models[i].short == k {
            let i = choose|i: int| 0 <= i < models.len() && models[i].short == k;
            if i == models.len() - 1 {
                assert(table_map(models).contains_key(k));
            } else {
                assert(prefix[i] == models[i]);
                assert(table_map(prefix).contains_key(k));
            }
        }
    }
}

/// `table_map` sends a short key to the URL of its last occurrence.
pub proof fn lemma_table_map_last(models: Seq<RuleModel>, i: int)
    requires
        last_for_key(models, i),
    ensures
        table_map(models).contains_key(models[i].short),
        table_map(models)[models[i].short] == models[i].url,
    decreases models.len(),
{
    if i < models.len() - 1 {
        let prefix = models.drop_last();
        assert(prefix[i] == models[i]);
        assert forall|j: int| i < j < prefix.len() implies prefix[j].short
            != prefix[i].short by {
            assert(prefix[j] == models[j]);
        }
        lemma_table_map_last(prefix, i);
        assert(models[i].short != models.last().short);
    }
}

/// The table data behind the lock: the redirect mapping together with the
/// commit that produced it, for the operator-facing report.
#[derive(Debug, Clone, PartialEq, Eq)]
pub struct RedirectData {
    pub map: Vec<SiteRedirect>,
    pub commit_hash: String,
    pub commit_url: String,
}

impl RedirectData {
    /// Well-formed table data: short keys are pairwise distinct.
    pub open spec fn wf(&self) -> bool {
        forall|i: int, j: int|
            0 <= i < j < self.map@.len() ==> self.map@[i].short@ != self.map@[j].short@
    }

    /// The mapping this table answers lookups from.
    pub open spec fn contents(&self) -> Map<Seq<char>, Seq<char>> {
        table_map(rule_models(self.map@))
    }

    /// The destination URL stored for `key`, if any.
    pub fn lookup(&self, key: &str) -> (r: Option<String>)
        requires
            self.wf(),
        ensures
            match r {
                Some(u) => self.contents().contains_key(key@) && u@ == self.contents()[key@],
                None => !self.contents().contains_key(key@),
            },
    {
        let models = Ghost(rule_models(self.map@));
        let k = key.to_owned();
        let n = self.map.len();
        for i in 0..n
            invariant
                n == self.map@.len(),
                k@ == key@,
                models@ == rule_models(self.map@),
                self.wf(),
                forall|j: int| 0 <= j < i ==> models@[j].short != key@,
        {
            if self.map[i].short == k {
                proof {
                    assert(models@[i as int] == self.map@[i as int]@);
                    assert(models@[i as int].short == key@);
                    assert(last_for_key(models@, i as int));
                    lemma_table_map_last(models@, i as int);
                }
                return Some(self.map[i].url.clone());
            }
        }
        proof {
            lemma_table_map_key(models@, key@);
        }
        None
    }

    /// An identical copy of the table data.
    pub fn duplicate(&self) -> (r: RedirectData)
        ensures
            r.map@ == self.map@,
            r.commit_hash == self.commit_hash,
            r.commit_url == self.commit_url,
    {
        let mut map: Vec<SiteRedirect> = Vec::new();
        let n = self.map.len();
        for i in 0..n
            invariant
                n == self.map@.len(),
                map@.len() == i,
                forall|j: int| 0 <= j < i ==> map@[j] == self.map@[j],
        {
            let rule = SiteRedirect {
                short: self.map[i].short.clone(),
                url: self.map[i].url.clone(),
            };
            assert(rule == self.map@[i as int]);
            map.push(rule);
        }
        assert(map@ =~= self.map@);
        RedirectData {
            map,
            commit_hash: self.commit_hash.clone(),
            commit_url: self.commit_url.clone(),
        }
    }
}

/// Answers a bare redirect request: the URL registered for `key`, or `None`
/// for an unknown key (the HTTP layer turns that into a 404).
pub fn redirect_bare(key: &str, data: &RedirectData) -> (r: Option<String>)
    requires
        data.wf(),
    ensures
        match r {
            Some(u) => data.contents().contains_key(key@) && u@ == data.contents()[key@],
            None => !data.contents().contains_key(key@),
        },
{
    data.lookup(key)
}

/// Answers a redirect request that carries a sub-path: the URL registered
/// for `key` with `/` and the sub-path appended.
pub fn redirect(key: &str, path: &str, data: &RedirectData) -> (r: Option<String>)
    requires
        data.wf(),
    ensures
        match r {
            Some(u) => data.contents().contains_key(key@) && u@ == data.contents()[key@] + "/"@
                + path@,
            None => !data.contents().contains_key(key@),
        },
{
    match data.lookup(key) {
        Some(url) => {
            let mut target = url;
            target.append("/");
            target.append(path);
            Some(target)
        },
        None => None,
    }
}

/// The path under the static file root from which a non-redirect request for
/// `file` is served.
pub fn files(file: &str) -> (r: String)
    ensures
        r@ == "static/"@ + file@,
{
    let mut path = String::from_str("static/");
    path.append(file);
    path
}

/// The lock invariant of the live table: its data stays well-formed.
pub struct TablePred {}

impl RwLockPredicate<RedirectData> for TablePred {
    open spec fn inv(self, v: RedirectData) -> bool {
        v.wf()
    }
}

/// The shared handle to the live table. Any number of request handlers read
/// it concurrently; a synchronization pass replaces the whole `RedirectData`
/// in one short exclusive write, so a reader always observes one complete
/// table, never a mixture of two configurations.
pub struct RedirectTable {
    lock: RwLock<RedirectData, TablePred>,
}

impl RedirectTable {
    pub fn new(data: RedirectData) -> (r: RedirectTable)
        requires
            data.wf(),
    {
        RedirectTable { lock: RwLock::new(data, Ghost(TablePred {  })) }
    }

    /// The URL registered for `key` in the table as it stands. The result
    /// comes from a single read-locked snapshot, whole and well-formed.
    pub fn lookup(&self, key: &str) -> (r: Option<String>)
        ensures
            r matches Some(u) ==> exists|d: RedirectData|
                d.wf() && d.contents().contains_key(key@) && u@ == d.contents()[key@],
    {
        let handle = self.lock.acquire_read();
        let r = handle.borrow().lookup(key);
        let snapshot = Ghost(handle.view());
        handle.release_read();
        r
    }

    /// A copy of the table data as it stands, for the operator report.
    pub fn snapshot(&self) -> (r: RedirectData)
        ensures
            r.wf(),
    {
        let handle = self.lock.acquire_read();
        let r = handle.borrow().duplicate();
        handle.release_read();
        r
    }

    /// Replaces the whole table in one exclusive write. Readers see either
    /// the table from before this call or `data`, nothing in between.
    pub fn replace(&self, data: RedirectData)
        requires
            data.wf(),
    {
        let (_, handle) = self.lock.acquire_write();
        handle.release_write(data);
    }
}

/// Builds well-formed table data from a parsed rule list, as inserting the
/// rules in order into a key-unique mapping would: for each short key the
/// last rule wins.
pub fn rules_to_map(rules: &Vec<SiteRedirect>) -> (r: Vec<SiteRedirect>)
    ensures
        forall|i: int, j: int| 0 <= i < j < r@.len() ==> r@[i].short@ != r@[j].short@,
        table_map(rule_models(r@)) == table_map(rule_models(rules@)),
{
    let models = Ghost(rule_models(rules@));
    let n = rules.len();
    let mut r: Vec<SiteRedirect> = Vec::new();
    let ghost mut idxs: Seq<int> = Seq::empty();
    for i in 0..n
        invariant
            n == rules@.len(),
            models@ == rule_models(rules@),
            idxs.len() == r@.len(),
            forall|m: int| 0 <= m < idxs.len() ==> 0 <= #[trigger] idxs[m] < i
                && last_for_key(models@, idxs[m]) && r@[m]@ == models@[idxs[m]],
            forall|m: int, m2: int| 0 <= m < m2 < idxs.len() ==> idxs[m] < idxs[m2],
            forall|x: int| 0 <= x < i && #[trigger] last_for_key(models@, x) ==> idxs.contains(x),
    {
        let mut last = true;
        let mut j = i + 1;
        while j < n
            invariant
                i < j <= n,
                n == rules@.len(),
                models@ == rule_models(rules@),
                last <==> forall|x: int| i < x < j ==> models@[x].short != models@[i as int].short,
            decreases n - j,
        {
            if rules[j].short == rules[i].short {
                last = false;
                assert(models@[j as int].short == models@[i as int].short);
            }
            j += 1;
        }
        if last {
            assert(last_for_key(models@, i as int));
            let kept = rules[i].duplicate();
            assert(kept@ == models@[i as int]);
            r.push(kept);
            proof {
                let prev = idxs;
                idxs = idxs.push(i as int);
                assert forall|x: int| 0 <= x < i + 1 && #[trigger] last_for_key(models@, x)
                    implies idxs.contains(x) by {
                    if x < i {
                        let m = choose|m: int| 0 <= m < prev.len() && prev[m] == x;
                        assert(idxs[m] == x);
                    } else {
                        assert(idxs[idxs.len() - 1] == x);
                    }
                }
            }
        } else {
            proof {
                assert(!last_for_key(models@, i as int));
            }
        }
    }
    proof {
        lemma_rules_to_map_equal(models@, rule_models(r@), idxs);
        assert forall|a: int, b: int| 0 <= a < b < r@.len() implies r@[a].short@
            != r@[b].short@ by {
            assert(rule_models(r@)[a] == r@[a]@);
            assert(rule_models(r@)[b] == r@[b]@);
        }
    }
    r
}

/// A key-unique selection of the last occurrence of every short key
/// describes the same mapping as the full rule list.
proof fn lemma_rules_to_map_equal(models: Seq<RuleModel>, kept: Seq<RuleModel>, idxs: Seq<int>)
    requires
        idxs.len() == kept.len(),
        forall|m: int| 0 <= m < idxs.len() ==> 0 <= #[trigger] idxs[m] < models.len()
            && last_for_key(models, idxs[m]) && kept[m] == models[idxs[m]],
        forall|m: int, m2: int| 0 <= m < m2 < idxs.len() ==> idxs[m] < idxs[m2],
        forall|x: int| #[trigger] last_for_key(models, x) ==> idxs.contains(x),
    ensures
        table_map(kept) == table_map(models),
        forall|m: int, m2: int| 0 <= m < m2 < kept.len() ==> kept[m].short != kept[m2].short,
{
    assert forall|m: int, m2: int| 0 <= m < m2 < kept.len() implies kept[m].short
        != kept[m2].short by {
        assert(idxs[m] < idxs[m2]);
        assert(last_for_key(models, idxs[m]));
    }
    assert forall|k: Seq<char>| table_map(kept).contains_key(k) <==> table_map(
        models,
    ).contains_key(k) by {
        lemma_table_map_key(kept, k);
        lemma_table_map_key(models, k);
        if table_map(kept).contains_key(k) {
            let m = choose|m: int| 0 <= m < kept.len() && kept[m].short == k;
            assert(models[idxs[m]].short == k);
        }
        if table_map(models).contains_key(k) {
            let i = choose|i: int| 0 <= i < models.len() && models[i].short == k;
            let l = last_index_for(models, i);
            let m = choose|m: int| 0 <= m < idxs.len() && idxs[m] == l;
            assert(kept[m].short == k);
        }
    }
    assert forall|k: Seq<char>| #[trigger] table_map(models).contains_key(k) implies table_map(
        kept,
    )[k] == table_map(models)[k] by {
        lemma_table_map_key(models, k);
        let i = choose|i: int| 0 <= i < models.len() && models[i].short == k;
        let l = last_index_for(models, i);
        let m = choose|m: int| 0 <= m < idxs.len() && idxs[m] == l;
        assert(kept[m] == models[l]);
        assert(last_for_key(kept, m));
        lemma_table_map_last(kept, m);
        lemma_table_map_last(models, l);
        assert(table_map(kept)[k] == kept[m].url);
        assert(table_map(models)[k] == models[l].url);
    }
    assert(table_map(kept) =~~= table_map(models));
}

/// The last index of `models` that carries the same short key as index `i`.
proof fn last_index_for(models: Seq<RuleModel>, i: int) -> (l: int)
    requires
        0 <= i < models.len(),
    ensures
        last_for_key(models, l),
        models[l].short == models[i].short,
        i <= l,
    decreases models.len() - i,
{
    if forall|j: int| i < j < models.len() ==> models[j].short != models[i].short {
        i
    } else {
        let j = choose|j: int| i < j < models.len() && models[j].short == models[i].short;
        last_index_for(models, j)
    }
}

} // verus!
