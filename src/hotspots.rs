//! Files changed most often, with how many distinct authors touched each.
use crate::model::{count, distinct, lemma_distinct_contains, CommitRecord, FileChange};
use crate::ranking::{is_ranking, lemma_ranking_unique, rank_order};
use crate::tally::{find_string, string_views, tally_strings};
use vstd::prelude::*;

verus! {

/// Longest hotspot list reported.
pub const HOTSPOT_LIMIT: usize = 10;

/// A file touched by more than two distinct authors is a high risk.
#[derive(Clone, Copy, Debug, PartialEq, Eq, Structural)]
pub enum RiskLevel {
    High,
    Low,
}

pub open spec fn risk_of(unique_authors: int) -> RiskLevel {
    if unique_authors > 2 {
        RiskLevel::High
    } else {
        RiskLevel::Low
    }
}

impl RiskLevel {
    /// The report label of the level.
    pub fn label(&self) -> (r: String)
        ensures
            r@ == (match *self {
                RiskLevel::High => "High"@,
                RiskLevel::Low => "Low"@,
            }),
    {
        match self {
            RiskLevel::High => "High".to_owned(),
            RiskLevel::Low => "Low".to_owned(),
        }
    }
}

/// One frequently changed file.
#[derive(Clone, Debug)]
pub struct HotspotEntry {
    pub path: String,
    pub change_count: usize,
    pub unique_authors: usize,
    pub risk_level: RiskLevel,
}

/// The first `j` file changes of `r`, each as its path and the author email.
pub open spec fn change_touches(r: CommitRecord, j: int) -> Seq<(Seq<char>, Seq<char>)> {
    r.changes@.take(j).map_values(|c: FileChange| (c.path@, r.author.email@))
}

/// Every file change of every record, as path and author email, in order.
pub open spec fn touches(s: Seq<CommitRecord>) -> Seq<(Seq<char>, Seq<char>)>
    decreases s.len(),
{
    if s.len() == 0 {
        Seq::empty()
    } else {
        touches(s.drop_last()) + change_touches(s.last(), s.last().changes@.len() as int)
    }
}

/// The path of every file change, in order.
pub open spec fn touched_paths(s: Seq<CommitRecord>) -> Seq<Seq<char>> {
    touches(s).map_values(|t: (Seq<char>, Seq<char>)| t.0)
}

/// The author emails of the changes to path `p`, in order.
pub open spec fn path_authors(t: Seq<(Seq<char>, Seq<char>)>, p: Seq<char>) -> Seq<Seq<char>>
    decreases t.len(),
{
    if t.len() == 0 {
        Seq::empty()
    } else if t.last().0 == p {
        path_authors(t.drop_last(), p).push(t.last().1)
    } else {
        path_authors(t.drop_last(), p)
    }
}

/// The hotspot row of path `p`.
pub open spec fn hotspot_for(s: Seq<CommitRecord>, p: Seq<char>, e: HotspotEntry) -> bool {
    let u = distinct(path_authors(touches(s), p)).len();
    &&& e.path@ == p
    &&& e.change_count as nat == count(touched_paths(s), p)
    &&& e.unique_authors as nat == u
    &&& e.risk_level == risk_of(u as int)
}

/// `r` lists the hotspots of `s`: the first rows of the ranking of distinct
/// paths by change count, as many as there are paths, up to the limit.
pub open spec fn hotspot_list(s: Seq<CommitRecord>, r: Seq<HotspotEntry>) -> bool {
    let keys = distinct(touched_paths(s));
    &&& r.len() == if keys.len() < HOTSPOT_LIMIT {
        keys.len()
    } else {
        HOTSPOT_LIMIT as nat
    }
    &&& exists|order: Seq<usize>|
        {
            &&& is_ranking(path_counts(s), order)
            &&& forall|k: int| 0 <= k < r.len() ==> hotspot_for(s, keys[order[k] as int], #[trigger] r[k])
        }
}

/// Change count of each distinct path, in order of first change.
pub open spec fn path_counts(s: Seq<CommitRecord>) -> Seq<u128> {
    let keys = distinct(touched_paths(s));
    Seq::new(keys.len(), |k: int| count(touched_paths(s), keys[k]) as u128)
}

spec fn touch_view(paths: Seq<String>, emails: Seq<String>) -> Seq<(Seq<char>, Seq<char>)> {
    Seq::new(paths.len(), |k: int| (paths[k]@, emails[k]@))
}

/// Every file change as a path and the email of the commit's author.
fn collect_touches(records: &Vec<CommitRecord>) -> (r: (Vec<String>, Vec<String>))
    ensures
        r.0@.len() == r.1@.len(),
        touch_view(r.0@, r.1@) == touches(records@),
{
    let mut paths: Vec<String> = Vec::new();
    let mut emails: Vec<String> = Vec::new();
    let mut i: usize = 0;
    while i < records.len()
        invariant
            i <= records@.len(),
            paths@.len() == emails@.len(),
            touch_view(paths@, emails@) == touches(records@.take(i as int)),
        decreases records@.len() - i,
    {
        let r = &records[i];
        let mut j: usize = 0;
        while j < r.changes.len()
            invariant
                i < records@.len(),
                *r == records@[i as int],
                j <= r.changes@.len(),
                paths@.len() == emails@.len(),
                touch_view(paths@, emails@) == touches(records@.take(i as int)) + change_touches(
                    *r,
                    j as int,
                ),
            decreases r.changes@.len() - j,
        {
            let ghost before = touch_view(paths@, emails@);
            paths.push(r.changes[j].path.clone());
            emails.push(r.author.email.clone());
            assert(change_touches(*r, j as int + 1) =~= change_touches(*r, j as int).push(
                (r.changes@[j as int].path@, r.author.email@),
            ));
            assert(touch_view(paths@, emails@) =~= before.push(
                (r.changes@[j as int].path@, r.author.email@),
            ));
            j = j + 1;
        }
        assert(records@.take(i as int + 1).drop_last() =~= records@.take(i as int));
        i = i + 1;
    }
    assert(records@.take(records@.len() as int) =~= records@);
    (paths, emails)
}

/// Number of distinct authors among the changes to `path`.
fn unique_authors_of(paths: &Vec<String>, emails: &Vec<String>, path: &String) -> (r: usize)
    requires
        paths@.len() == emails@.len(),
    ensures
        r as nat == distinct(path_authors(touch_view(paths@, emails@), path@)).len(),
{
    let ghost t = touch_view(paths@, emails@);
    let mut seen: Vec<String> = Vec::new();
    let mut k: usize = 0;
    while k < paths.len()
        invariant
            k <= paths@.len(),
            paths@.len() == emails@.len(),
            t == touch_view(paths@, emails@),
            string_views(seen@) == distinct(path_authors(t.take(k as int), path@)),
        decreases paths@.len() - k,
    {
        let ghost before = t.take(k as int);
        let ghost after = t.take(k as int + 1);
        assert(after.drop_last() =~= before);
        assert(after.last() == (paths@[k as int]@, emails@[k as int]@));
        if paths[k] == *path {
            let ghost a = path_authors(before, path@);
            proof {
                lemma_distinct_contains(a, emails@[k as int]@);
                assert(path_authors(after, path@).drop_last() =~= a);
            }
            match find_string(&seen, &emails[k]) {
                Some(j) => {
                    assert(string_views(seen@)[j as int] == seen@[j as int]@);
                },
                None => {
                    let ghost old_seen = seen@;
                    seen.push(emails[k].clone());
                    assert(string_views(seen@) =~= string_views(old_seen).push(emails@[k as int]@));
                },
            }
        }
        k = k + 1;
    }
    assert(t.take(paths@.len() as int) =~= t);
    assert(string_views(seen@).len() == seen@.len());
    seen.len()
}

/// The most frequently changed files, at most ten, by descending change count;
/// files with equal counts in the order of their first change.
pub fn hotspots(records: &Vec<CommitRecord>) -> (r: Vec<HotspotEntry>)
    ensures
        r@.len() <= HOTSPOT_LIMIT,
        forall|k: int, l: int|
            0 <= k < l < r@.len() ==> r@[k].change_count >= r@[l].change_count,
        hotspot_list(records@, r@),
{
    let (paths, emails) = collect_touches(records);
    assert(string_views(paths@) =~= touched_paths(records@));
    let tally = tally_strings(&paths);
    let ghost keys = distinct(touched_paths(records@));
    let mut counts: Vec<u128> = Vec::new();
    let mut i: usize = 0;
    while i < tally.counts.len()
        invariant
            i <= tally.counts@.len(),
            tally.counts@.len() == tally.keys@.len(),
            string_views(tally.keys@) == keys,
            keys == distinct(touched_paths(records@)),
            forall|k: int|
                0 <= k < tally.keys@.len() ==> tally.counts@[k] as nat == count(
                    touched_paths(records@),
                    #[trigger] tally.keys@[k]@,
                ),
            counts@ == path_counts(records@).take(i as int),
        decreases tally.counts@.len() - i,
    {
        assert(string_views(tally.keys@)[i as int] == tally.keys@[i as int]@);
        counts.push(tally.counts[i] as u128);
        i = i + 1;
        assert(counts@ =~= path_counts(records@).take(i as int));
    }
    assert(counts@ =~= path_counts(records@));
    let order = rank_order(&counts);
    let n: usize = if order.len() < HOTSPOT_LIMIT {
        order.len()
    } else {
        HOTSPOT_LIMIT
    };
    let mut r: Vec<HotspotEntry> = Vec::new();
    let mut k: usize = 0;
    while k < n
        invariant
            n <= order@.len(),
            n <= HOTSPOT_LIMIT,
            k <= n,
            is_ranking(counts@, order@),
            counts@ == path_counts(records@),
            tally.counts@.len() == tally.keys@.len(),
            string_views(tally.keys@) == keys,
            keys == distinct(touched_paths(records@)),
            forall|j: int|
                0 <= j < tally.keys@.len() ==> tally.counts@[j] as nat == count(
                    touched_paths(records@),
                    #[trigger] tally.keys@[j]@,
                ),
            paths@.len() == emails@.len(),
            touch_view(paths@, emails@) == touches(records@),
            r@.len() == k,
            forall|j: int| 0 <= j < k ==> hotspot_for(records@, keys[order@[j] as int], #[trigger] r@[j]),
            forall|j: int| 0 <= j < k ==> r@[j].change_count as u128 == counts@[order@[j] as int],
        decreases n - k,
    {
        let a = order[k];
        let path = &tally.keys[a];
        assert(string_views(tally.keys@)[a as int] == tally.keys@[a as int]@);
        let u = unique_authors_of(&paths, &emails, path);
        let risk = if u > 2 {
            RiskLevel::High
        } else {
            RiskLevel::Low
        };
        r.push(
            HotspotEntry {
                path: path.clone(),
                change_count: tally.counts[a],
                unique_authors: u,
                risk_level: risk,
            },
        );
        k = k + 1;
    }
    assert forall|j: int, l: int| 0 <= j < l < r@.len() implies r@[j].change_count
        >= r@[l].change_count by {
        assert(crate::ranking::ranks_before(counts@, order@[j], order@[l]));
    }
    r
}

/// The hotspot list is determined by the records: any two agree row by row
/// on the path, the counts and the risk level.
pub proof fn lemma_hotspots_determined(s: Seq<CommitRecord>, r1: Seq<HotspotEntry>, r2: Seq<HotspotEntry>)
    requires
        distinct(touched_paths(s)).len() <= usize::MAX,
        hotspot_list(s, r1),
        hotspot_list(s, r2),
    ensures
        r1.len() == r2.len(),
        forall|k: int|
            0 <= k < r1.len() ==> {
                &&& r1[k].path@ == r2[k].path@
                &&& r1[k].change_count == r2[k].change_count
                &&& r1[k].unique_authors == r2[k].unique_authors
                &&& r1[k].risk_level == r2[k].risk_level
            },
{
    let keys = distinct(touched_paths(s));
    let o1 = choose|order: Seq<usize>|
        {
            &&& is_ranking(path_counts(s), order)
            &&& forall|k: int| 0 <= k < r1.len() ==> hotspot_for(s, keys[order[k] as int], #[trigger] r1[k])
        };
    let o2 = choose|order: Seq<usize>|
        {
            &&& is_ranking(path_counts(s), order)
            &&& forall|k: int| 0 <= k < r2.len() ==> hotspot_for(s, keys[order[k] as int], #[trigger] r2[k])
        };
    lemma_ranking_unique(path_counts(s), o1, o2);
    assert forall|k: int| 0 <= k < r1.len() implies {
        &&& r1[k].path@ == r2[k].path@
        &&& r1[k].change_count == r2[k].change_count
        &&& r1[k].unique_authors == r2[k].unique_authors
        &&& r1[k].risk_level == r2[k].risk_level
    } by {
        assert(hotspot_for(s, keys[o1[k] as int], r1[k]));
        assert(hotspot_for(s, keys[o2[k] as int], r2[k]));
    }
}

} // verus!
