use vstd::prelude::*;

use crate::error::AppError;
use crate::error::StoreError;
use crate::origin::Origin;

verus! {

/// The mapping that a sequence of store records denotes: records are entered
/// in order, so of several records with the same domain the last one wins.
pub open spec fn origins_map(records: Seq<Origin>) -> Map<Seq<char>, Origin>
    decreases records.len(),
{
    if records.len() == 0 {
        Map::empty()
    } else {
        origins_map(records.drop_last()).insert(records.last().domain@, records.last())
    }
}

/// No two entries share a domain.
pub open spec fn domains_unique(records: Seq<Origin>) -> bool {
    forall|i: int, j: int|
        0 <= i < j < records.len() ==> records[i].domain@ != records[j].domain@
}

/// A domain is mapped exactly when some record carries it: a refresh installs
/// an entry for every loaded domain and nothing else, so no entry of an older
/// generation can survive into the new one.
pub proof fn lemma_origins_map_domain(records: Seq<Origin>, domain: Seq<char>)
    ensures
        origins_map(records).contains_key(domain) <==> exists|i: int|
            0 <= i < records.len() && records[i].domain@ == domain,
    decreases records.len(),
{
    if records.len() > 0 {
        lemma_origins_map_domain(records.drop_last(), domain);
        if records.last().domain@ == domain {
            assert(records[records.len() - 1].domain@ == domain);
        } else {
            if exists|i: int| 0 <= i < records.len() && records[i].domain@ == domain {
                let i = choose|i: int| 0 <= i < records.len() && records[i].domain@ == domain;
                assert(records.drop_last()[i].domain@ == domain);
            }
        }
    }
}

/// Of several records with the same domain, the last one in store order is
/// the entry that the mapping retains; with the same input order the winner
/// is therefore the same on every refresh.
pub proof fn lemma_origins_map_last_wins(records: Seq<Origin>, i: int)
    requires
        0 <= i < records.len(),
        forall|k: int| i < k < records.len() ==> records[k].domain@ != records[i].domain@,
    ensures
        origins_map(records).contains_key(records[i].domain@),
        origins_map(records)[records[i].domain@] == records[i],
    decreases records.len(),
{
    if i == records.len() - 1 {
        assert(records.last() == records[i]);
    } else {
        assert(records.last().domain@ != records[i].domain@);
        assert(records.drop_last()[i] == records[i]);
        assert forall|k: int| i < k < records.drop_last().len() implies records.drop_last()[k].domain@
            != records.drop_last()[i].domain@ by {
            assert(records.drop_last()[k] == records[k]);
        }
        lemma_origins_map_last_wins(records.drop_last(), i);
    }
}

/// A cache whose installed generation is the empty mapping answers absent
/// for every domain: a newly constructed cache does so before any refresh
/// succeeds, and so does one refreshed from a store that returned no records.
pub proof fn lemma_empty_cache_absent(c: OriginCache, domain: Seq<char>)
    requires
        c@ == Map::<Seq<char>, Origin>::empty(),
    ensures
        c.spec_get(domain) is None,
{
}

/// A store batch with no records denotes the empty mapping: refreshing from
/// it leaves no domain mapped, including domains mapped before the refresh.
pub proof fn lemma_empty_batch(records: Seq<Origin>)
    requires
        records.len() == 0,
    ensures
        origins_map(records) == Map::<Seq<char>, Origin>::empty(),
{
}

/// Replacing the entry that already carries `r`'s domain re-maps that domain
/// to `r` and touches nothing else.
proof fn lemma_origins_map_update(records: Seq<Origin>, j: int, r: Origin)
    requires
        domains_unique(records),
        0 <= j < records.len(),
        r.domain@ == records[j].domain@,
    ensures
        origins_map(records.update(j, r)) == origins_map(records).insert(r.domain@, r),
    decreases records.len(),
{
    let d = r.domain@;
    let prefix = records.drop_last();
    if j == records.len() - 1 {
        assert(records.update(j, r).drop_last() =~= prefix);
        assert(records.update(j, r).last() == r);
        assert(records.last().domain@ == d);
        assert(origins_map(prefix).insert(d, r) =~= origins_map(prefix).insert(
            d,
            records.last(),
        ).insert(d, r));
    } else {
        assert forall|a: int, b: int| 0 <= a < b < prefix.len() implies prefix[a].domain@
            != prefix[b].domain@ by {
            assert(prefix[a] == records[a]);
            assert(prefix[b] == records[b]);
        }
        assert(prefix[j] == records[j]);
        lemma_origins_map_update(prefix, j, r);
        assert(records.update(j, r).drop_last() =~= prefix.update(j, r));
        assert(records.update(j, r).last() == records.last());
        assert(records.last().domain@ != d);
        assert(origins_map(prefix).insert(d, r).insert(records.last().domain@, records.last())
            =~= origins_map(prefix).insert(records.last().domain@, records.last()).insert(d, r));
    }
}

/// Index of some entry carrying `domain`, if one is present.
fn position_of(origins: &Vec<Origin>, domain: &String) -> (r: Option<usize>)
    ensures
        match r {
            Some(j) => j < origins@.len() && origins@[j as int].domain@ == domain@,
            None => forall|k: int| 0 <= k < origins@.len() ==> origins@[k].domain@ != domain@,
        },
{
    let mut j: usize = 0;
    while j < origins.len()
        invariant
            j <= origins@.len(),
            forall|k: int| 0 <= k < j ==> origins@[k].domain@ != domain@,
        decreases origins@.len() - j,
    {
        if origins[j].domain == *domain {
            return Some(j);
        }
        j = j + 1;
    }
    None
}

/// A snapshot of every tenant's routing configuration, queryable by domain.
///
/// Its view is the mapping from domain to origin that the last installed
/// record sequence denotes; a freshly constructed cache denotes the empty
/// mapping.  The snapshot is replaced only as a whole, never entry by entry.
pub struct OriginCache {
    origins: Vec<Origin>,
}

impl View for OriginCache {
    type V = Map<Seq<char>, Origin>;

    closed spec fn view(&self) -> Map<Seq<char>, Origin> {
        origins_map(self.origins@)
    }
}

impl OriginCache {
    /// The snapshot holds at most one entry per domain.
    pub closed spec fn wf(self) -> bool {
        domains_unique(self.origins@)
    }

    /// What a lookup of `domain` answers: the mapped origin, or absent.
    pub open spec fn spec_get(self, domain: Seq<char>) -> Option<Origin> {
        if self@.contains_key(domain) {
            Some(self@[domain])
        } else {
            None
        }
    }

    /// A cache starts empty: every lookup is absent until a refresh succeeds.
    pub fn new() -> (c: Self)
        ensures
            c.wf(),
            c@ == Map::<Seq<char>, Origin>::empty(),
    {
        let c = OriginCache { origins: Vec::new() };
        proof {
            assert(c.origins@.len() == 0);
        }
        c
    }

    /// Builds, entirely in isolation, the snapshot that a batch of store
    /// records denotes.  Entries are entered in record order, so of two
    /// records with the same domain the later one wins.
    pub fn from_records(records: Vec<Origin>) -> (c: Self)
        ensures
            c.wf(),
            c@ == origins_map(records@),
    {
        let mut origins: Vec<Origin> = Vec::new();
        let n = records.len();
        let mut i: usize = 0;
        while i < n
            invariant
                n == records@.len(),
                i <= n,
                domains_unique(origins@),
                origins_map(origins@) == origins_map(records@.take(i as int)),
            decreases n - i,
        {
            let rec = records[i].clone();
            let ghost pre = origins@;
            let ghost stored = rec;
            match position_of(&origins, &rec.domain) {
                Some(j) => {
                    origins[j] = rec;
                    proof {
                        lemma_origins_map_update(pre, j as int, stored);
                        assert forall|a: int, b: int|
                            0 <= a < b < origins@.len() implies origins@[a].domain@
                            != origins@[b].domain@ by {
                            assert(origins@[a].domain@ == pre[a].domain@);
                            assert(origins@[b].domain@ == pre[b].domain@);
                        }
                    }
                },
                None => {
                    origins.push(rec);
                    proof {
                        assert(origins@.drop_last() =~= pre);
                        assert forall|a: int, b: int|
                            0 <= a < b < origins@.len() implies origins@[a].domain@
                            != origins@[b].domain@ by {
                            if b < pre.len() {
                                assert(origins@[a] == pre[a]);
                                assert(origins@[b] == pre[b]);
                            } else {
                                assert(origins@[a] == pre[a]);
                                assert(origins@[b] == stored);
                            }
                        }
                    }
                },
            }
            proof {
                assert(records@.take(i as int + 1).drop_last() =~= records@.take(i as int));
                assert(records@.take(i as int + 1).last() == records@[i as int]);
            }
            i = i + 1;
        }
        proof {
            assert(records@.take(n as int) =~= records@);
        }
        OriginCache { origins }
    }

    /// Reinstalls the snapshot from the outcome of a batch store read.  A
    /// successful read replaces the old generation completely with the new
    /// one; a failed read leaves the installed generation fully intact and
    /// surfaces the store's error, so answers before and after the failed
    /// call are identical.
    pub fn refresh(&mut self, loaded: Result<Vec<Origin>, StoreError>) -> (r: Result<
        (),
        AppError,
    >)
        ensures
            r is Ok <==> loaded is Ok,
            (loaded matches Ok(records) ==> final(self).wf() && final(self)@ == origins_map(
                records@,
            )),
            (loaded matches Err(e) ==> r == Err::<(), AppError>(AppError::Store(e)) && *final(self)
                == *old(self)),
    {
        match loaded {
            Ok(records) => {
                *self = Self::from_records(records);
                Ok(())
            },
            Err(e) => Err(AppError::Store(e)),
        }
    }

    /// Answers a point lookup from the snapshot alone: no store access, and
    /// the result is an owned copy of the matching entry.
    pub fn get(&self, domain: &str) -> (r: Option<Origin>)
        ensures
            r == self.spec_get(domain@),
    {
        let key: String = domain.to_owned();
        let mut j: usize = self.origins.len();
        while j > 0
            invariant
                j <= self.origins.len(),
                key@ == domain@,
                forall|k: int|
                    j <= k < self.origins@.len() ==> self.origins@[k].domain@ != domain@,
            decreases j,
        {
            j = j - 1;
            if self.origins[j].domain == key {
                let found = self.origins[j].clone();
                proof {
                    lemma_origins_map_last_wins(self.origins@, j as int);
                }
                return Some(found);
            }
        }
        proof {
            lemma_origins_map_domain(self.origins@, domain@);
        }
        None
    }
}

/// What lookups answer after a successful refresh from `records`: a domain
/// is present exactly when some loaded record carries it: entries of older
/// generations never survive, entries never appear from nowhere; and the
/// value returned is the last record in store order that carries the domain.
pub proof fn lemma_refresh_then_get(c: OriginCache, records: Seq<Origin>, domain: Seq<char>)
    requires
        c@ == origins_map(records),
    ensures
        (c.spec_get(domain) is Some) <==> (exists|i: int|
            0 <= i < records.len() && records[i].domain@ == domain),
        forall|i: int|
            0 <= i < records.len() && records[i].domain@ == domain && (forall|k: int|
                i < k < records.len() ==> records[k].domain@ != domain) ==> c.spec_get(domain)
                == Some(records[i]),
{
    lemma_origins_map_domain(records, domain);
    assert forall|i: int|
        0 <= i < records.len() && records[i].domain@ == domain && (forall|k: int|
            i < k < records.len() ==> records[k].domain@ != domain) implies c.spec_get(domain)
        == Some(records[i]) by {
        lemma_origins_map_last_wins(records, i);
    }
}

} // verus!
