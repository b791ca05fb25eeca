//! Per-author totals, one row per distinct author email.
use crate::clock::{day_of, utc_day};
use crate::model::{author_emails, count, distinct, lemma_distinct_contains, CommitRecord};
use crate::tally::{string_views, tally_strings};
use vstd::prelude::*;

verus! {

/// What one author contributed over the whole history.
#[derive(Clone, Debug)]
pub struct AuthorTotals {
    pub name: String,
    pub email: String,
    pub commit_count: usize,
    /// Lines inserted over all of the author's commits, merges included.
    pub insertions: u128,
    /// Lines deleted over all of the author's commits, merges included.
    pub deletions: u128,
    /// Distinct UTC calendar days with at least one commit by the author.
    pub active_days: usize,
}

/// Lines inserted by the author with email `e`, merge commits included.
pub open spec fn insertions_by(s: Seq<CommitRecord>, e: Seq<char>) -> nat
    decreases s.len(),
{
    if s.len() == 0 {
        0
    } else {
        insertions_by(s.drop_last(), e) + if s.last().author.email@ == e {
            s.last().insertions as nat
        } else {
            0nat
        }
    }
}

/// Lines deleted by the author with email `e`, merge commits included.
pub open spec fn deletions_by(s: Seq<CommitRecord>, e: Seq<char>) -> nat
    decreases s.len(),
{
    if s.len() == 0 {
        0
    } else {
        deletions_by(s.drop_last(), e) + if s.last().author.email@ == e {
            s.last().deletions as nat
        } else {
            0nat
        }
    }
}

/// UTC day number of a commit time.
pub open spec fn utc_day_spec(timestamp: i64) -> i64 {
    day_of(timestamp as int) as i64
}

/// The UTC day of each commit by the author with email `e`, in order.
pub open spec fn days_by(s: Seq<CommitRecord>, e: Seq<char>) -> Seq<i64>
    decreases s.len(),
{
    if s.len() == 0 {
        Seq::empty()
    } else if s.last().author.email@ == e {
        days_by(s.drop_last(), e).push(utc_day_spec(s.last().author.timestamp))
    } else {
        days_by(s.drop_last(), e)
    }
}

/// The name recorded on the author's first commit.
pub open spec fn first_name(s: Seq<CommitRecord>, e: Seq<char>) -> Seq<char>
    decreases s.len(),
{
    if s.len() == 0 {
        Seq::empty()
    } else if s[0].author.email@ == e {
        s[0].author.name@
    } else {
        first_name(s.drop_first(), e)
    }
}

/// `t` holds the totals of the author with email `t.email` over `s`.
pub open spec fn totals_of(s: Seq<CommitRecord>, t: AuthorTotals) -> bool {
    let e = t.email@;
    &&& t.name@ == first_name(s, e)
    &&& t.commit_count as nat == count(author_emails(s), e)
    &&& t.insertions as nat == insertions_by(s, e)
    &&& t.deletions as nat == deletions_by(s, e)
    &&& t.active_days as nat == distinct(days_by(s, e)).len()
}

pub proof fn lemma_sums_bounded(s: Seq<CommitRecord>, e: Seq<char>)
    ensures
        insertions_by(s, e) <= s.len() * 0xffff_ffff_ffff_ffff,
        deletions_by(s, e) <= s.len() * 0xffff_ffff_ffff_ffff,
    decreases s.len(),
{
    if s.len() > 0 {
        lemma_sums_bounded(s.drop_last(), e);
        assert((s.len() - 1) * 0xffff_ffff_ffff_ffff + 0xffff_ffff_ffff_ffff == s.len()
            * 0xffff_ffff_ffff_ffff) by (nonlinear_arith);
    }
}

/// Insertions and deletions summed over the commits of one author.
pub fn line_sums_for(records: &Vec<CommitRecord>, email: &String) -> (r: (u128, u128))
    ensures
        r.0 as nat == insertions_by(records@, email@),
        r.1 as nat == deletions_by(records@, email@),
{
    let mut ins: u128 = 0;
    let mut del: u128 = 0;
    let mut i: usize = 0;
    while i < records.len()
        invariant
            i <= records@.len(),
            ins as nat == insertions_by(records@.take(i as int), email@),
            del as nat == deletions_by(records@.take(i as int), email@),
        decreases records@.len() - i,
    {
        let ghost after = records@.take(i as int + 1);
        assert(after.drop_last() =~= records@.take(i as int));
        proof {
            lemma_sums_bounded(after, email@);
            assert(after.len() * 0xffff_ffff_ffff_ffff <= 0xffff_ffff_ffff_ffff_ffff_ffff_ffff_ffff)
                by (nonlinear_arith)
                requires
                    after.len() <= 0xffff_ffff_ffff_ffff,
            ;
        }
        let r = &records[i];
        if r.author.email == *email {
            ins = ins + r.insertions as u128;
            del = del + r.deletions as u128;
        }
        i = i + 1;
    }
    assert(records@.take(records@.len() as int) =~= records@);
    (ins, del)
}

/// Number of distinct UTC days on which the author committed.
pub fn active_days_for(records: &Vec<CommitRecord>, email: &String) -> (r: usize)
    ensures
        r as nat == distinct(days_by(records@, email@)).len(),
{
    let mut days: Vec<i64> = Vec::new();
    let mut i: usize = 0;
    while i < records.len()
        invariant
            i <= records@.len(),
            days@ == distinct(days_by(records@.take(i as int), email@)),
            days@.len() <= i,
        decreases records@.len() - i,
    {
        let ghost before = records@.take(i as int);
        let ghost after = records@.take(i as int + 1);
        assert(after.drop_last() =~= before);
        let r = &records[i];
        assert(after.last() == records@[i as int]);
        if r.author.email == *email {
            let d = utc_day(r.author.timestamp);
            proof {
                lemma_distinct_contains(days_by(before, email@), d);
                assert(days_by(after, email@) == days_by(before, email@).push(d));
                assert(days_by(after, email@).drop_last() =~= days_by(before, email@));
            }
            let mut j: usize = 0;
            while j < days.len() && days[j] != d
                invariant
                    j <= days@.len(),
                    forall|k: int| 0 <= k < j ==> days@[k] != d,
                decreases days@.len() - j,
            {
                j = j + 1;
            }
            if j == days.len() {
                assert(!days@.contains(d));
                days.push(d);
            } else {
                assert(days@.contains(days@[j as int]));
            }
        }
        i = i + 1;
    }
    assert(records@.take(records@.len() as int) =~= records@);
    days.len()
}

/// The name on the first commit of the author with email `email`.
pub fn first_name_for(records: &Vec<CommitRecord>, email: &String) -> (r: String)
    ensures
        r@ == first_name(records@, email@),
{
    let mut i: usize = 0;
    assert(records@.skip(0) =~= records@);
    while i < records.len()
        invariant
            i <= records@.len(),
            first_name(records@, email@) == first_name(records@.skip(i as int), email@),
        decreases records@.len() - i,
    {
        assert(records@.skip(i as int).drop_first() =~= records@.skip(i as int + 1));
        assert(records@.skip(i as int)[0] == records@[i as int]);
        if records[i].author.email == *email {
            return records[i].author.name.clone();
        }
        i = i + 1;
    }
    String::new()
}

/// The author emails of the records, in order.
fn emails_of(records: &Vec<CommitRecord>) -> (r: Vec<String>)
    ensures
        string_views(r@) == author_emails(records@),
{
    let mut r: Vec<String> = Vec::new();
    let mut i: usize = 0;
    while i < records.len()
        invariant
            i <= records@.len(),
            r@.len() == i,
            forall|k: int| 0 <= k < i ==> r@[k]@ == records@[k].author.email@,
        decreases records@.len() - i,
    {
        r.push(records[i].author.email.clone());
        i = i + 1;
    }
    assert(string_views(r@) =~= author_emails(records@));
    r
}

/// One row per distinct author email, in order of the author's first commit.
pub fn collect_authors(records: &Vec<CommitRecord>) -> (r: Vec<AuthorTotals>)
    ensures
        r@.map_values(|t: AuthorTotals| t.email@) == distinct(author_emails(records@)),
        forall|k: int| 0 <= k < r@.len() ==> totals_of(records@, #[trigger] r@[k]),
{
    let emails = emails_of(records);
    let tally = tally_strings(&emails);
    let mut r: Vec<AuthorTotals> = Vec::new();
    let mut k: usize = 0;
    while k < tally.keys.len()
        invariant
            k <= tally.keys@.len(),
            tally.counts@.len() == tally.keys@.len(),
            string_views(tally.keys@) == distinct(author_emails(records@)),
            forall|j: int|
                0 <= j < tally.keys@.len() ==> tally.counts@[j] as nat == count(
                    author_emails(records@),
                    #[trigger] tally.keys@[j]@,
                ),
            r@.len() == k,
            forall|j: int| 0 <= j < k ==> r@[j].email@ == tally.keys@[j]@,
            forall|j: int| 0 <= j < k ==> totals_of(records@, #[trigger] r@[j]),
        decreases tally.keys@.len() - k,
    {
        let email = &tally.keys[k];
        let (ins, del) = line_sums_for(records, email);
        let t = AuthorTotals {
            name: first_name_for(records, email),
            email: email.clone(),
            commit_count: tally.counts[k],
            insertions: ins,
            deletions: del,
            active_days: active_days_for(records, email),
        };
        r.push(t);
        k = k + 1;
    }
    assert(r@.map_values(|t: AuthorTotals| t.email@) =~= string_views(tally.keys@));
    r
}

} // verus!
