//! The aggregation pass: one fold over the commit records, then the
//! reductions that need all of them.
use crate::authors::{collect_authors, deletions_by, insertions_by, totals_of, AuthorTotals};
use crate::classify::{classify_summary, type_of_summary, CommitType, COMMIT_TYPE_COUNT};
use crate::clock::{day_of, effective_offset, hour_of, local_seconds, local_time, weekday_of};
use crate::hotspots::{hotspot_list, hotspots, HotspotEntry};
use crate::model::{author_emails, count, distinct, is_malformed, is_merge_commit, CommitRecord};
use crate::tally::{bucket_counts, tally_days, total_of, DayTally};
use vstd::prelude::*;

verus! {

/// Buckets of the hour-of-day histogram.
pub const HOURS_PER_DAY: usize = 24;

/// Buckets of the weekday histogram, Monday first.
pub const DAYS_PER_WEEK: usize = 7;

/// Line totals over the non-merge commits.
#[derive(Clone, Copy, Debug, PartialEq, Eq, Structural)]
pub struct WorkloadStats {
    pub total_insertions: u128,
    pub total_deletions: u128,
}

/// Time of a commit with the UTC offset that applies to it, in seconds.
#[derive(Clone, Copy, Debug, PartialEq, Eq, Structural)]
pub struct CommitTime {
    pub timestamp: i64,
    pub offset_seconds: i32,
}

/// Everything the engine computes from the commit records, but the ranking.
pub struct Analysis {
    pub total_commits: usize,
    /// Author time of the first record, the newest commit.
    pub latest: Option<CommitTime>,
    /// Author timestamp of the last record, the oldest commit.
    pub earliest_timestamp: Option<i64>,
    pub workload: WorkloadStats,
    /// One row per distinct author email, in order of first appearance.
    pub authors: Vec<AuthorTotals>,
    /// Commits per author-local calendar day.
    pub daily_commits: DayTally,
    /// Commits per author-local hour, 00 to 23.
    pub hourly_distribution: Vec<usize>,
    /// Commits per author-local weekday, Monday to Sunday.
    pub weekly_distribution: Vec<usize>,
    pub hotspots: Vec<HotspotEntry>,
    /// Commits per type, indexed by `CommitType::index`.
    pub commit_types: Vec<usize>,
    /// Sum of the records' file counts.
    pub total_files_changed: u128,
    pub signed_commits: usize,
    /// Records whose file count disagrees with their list of changes.
    pub malformed_records: usize,
}

/// Author-local seconds of a commit.
pub open spec fn local_of(r: CommitRecord) -> int {
    local_seconds(r.author.timestamp as int, r.author.utc_offset_minutes as int)
}

pub open spec fn local_hours(s: Seq<CommitRecord>) -> Seq<usize> {
    s.map_values(|r: CommitRecord| hour_of(local_of(r)) as usize)
}

pub open spec fn local_weekdays(s: Seq<CommitRecord>) -> Seq<usize> {
    s.map_values(|r: CommitRecord| weekday_of(local_of(r)) as usize)
}

pub open spec fn local_days(s: Seq<CommitRecord>) -> Seq<i64> {
    s.map_values(|r: CommitRecord| day_of(local_of(r)) as i64)
}

pub open spec fn commit_type_indices(s: Seq<CommitRecord>) -> Seq<usize> {
    s.map_values(|r: CommitRecord| type_of_summary(r.summary@).spec_index())
}

pub open spec fn signed_flags(s: Seq<CommitRecord>) -> Seq<bool> {
    s.map_values(|r: CommitRecord| r.signature_verified)
}

pub open spec fn malformed_flags(s: Seq<CommitRecord>) -> Seq<bool> {
    s.map_values(|r: CommitRecord| is_malformed(r))
}

/// Lines inserted by non-merge commits.
pub open spec fn non_merge_insertions(s: Seq<CommitRecord>) -> nat
    decreases s.len(),
{
    if s.len() == 0 {
        0
    } else {
        non_merge_insertions(s.drop_last()) + if is_merge_commit(s.last()) {
            0nat
        } else {
            s.last().insertions as nat
        }
    }
}

/// Lines deleted by non-merge commits.
pub open spec fn non_merge_deletions(s: Seq<CommitRecord>) -> nat
    decreases s.len(),
{
    if s.len() == 0 {
        0
    } else {
        non_merge_deletions(s.drop_last()) + if is_merge_commit(s.last()) {
            0nat
        } else {
            s.last().deletions as nat
        }
    }
}

/// Sum of the records' file counts.
pub open spec fn files_total(s: Seq<CommitRecord>) -> nat
    decreases s.len(),
{
    if s.len() == 0 {
        0
    } else {
        files_total(s.drop_last()) + s.last().files_changed_count as nat
    }
}

proof fn lemma_line_sums_bounded(s: Seq<CommitRecord>)
    ensures
        non_merge_insertions(s) <= s.len() * 0xffff_ffff_ffff_ffff,
        non_merge_deletions(s) <= s.len() * 0xffff_ffff_ffff_ffff,
        files_total(s) <= s.len() * 0xffff_ffff_ffff_ffff,
    decreases s.len(),
{
    if s.len() > 0 {
        lemma_line_sums_bounded(s.drop_last());
        assert((s.len() - 1) * 0xffff_ffff_ffff_ffff + 0xffff_ffff_ffff_ffff == s.len()
            * 0xffff_ffff_ffff_ffff) by (nonlinear_arith);
    }
}

/// Folds the commit records, given newest first, into the report's
/// aggregates. Merge commits count everywhere but in the workload line
/// totals; an offset of a full day or more is read as UTC.
pub fn perform_final_analysis(records: &Vec<CommitRecord>) -> (r: Analysis)
    ensures
        r.total_commits == records@.len(),
        r.latest == if records@.len() == 0 {
            None::<CommitTime>
        } else {
            Some(
                CommitTime {
                    timestamp: records@[0].author.timestamp,
                    offset_seconds: effective_offset(
                        records@[0].author.utc_offset_minutes as int,
                    ) as i32,
                },
            )
        },
        r.earliest_timestamp == if records@.len() == 0 {
            None::<i64>
        } else {
            Some(records@.last().author.timestamp)
        },
        r.workload.total_insertions as nat == non_merge_insertions(records@),
        r.workload.total_deletions as nat == non_merge_deletions(records@),
        r.authors@.map_values(|t: AuthorTotals| t.email@) == distinct(author_emails(records@)),
        forall|k: int| 0 <= k < r.authors@.len() ==> totals_of(records@, #[trigger] r.authors@[k]),
        r.daily_commits.days@ == distinct(local_days(records@)),
        r.daily_commits.counts@.len() == r.daily_commits.days@.len(),
        forall|k: int|
            0 <= k < r.daily_commits.days@.len() ==> r.daily_commits.counts@[k] as nat == count(
                local_days(records@),
                #[trigger] r.daily_commits.days@[k],
            ),
        r.hourly_distribution@.len() == HOURS_PER_DAY,
        forall|h: int|
            0 <= h < HOURS_PER_DAY ==> r.hourly_distribution@[h] as nat == count(
                local_hours(records@),
                h as usize,
            ),
        total_of(r.hourly_distribution@) == records@.len(),
        r.weekly_distribution@.len() == DAYS_PER_WEEK,
        forall|d: int|
            0 <= d < DAYS_PER_WEEK ==> r.weekly_distribution@[d] as nat == count(
                local_weekdays(records@),
                d as usize,
            ),
        hotspot_list(records@, r.hotspots@),
        r.commit_types@.len() == COMMIT_TYPE_COUNT,
        forall|t: int|
            0 <= t < COMMIT_TYPE_COUNT ==> r.commit_types@[t] as nat == count(
                commit_type_indices(records@),
                t as usize,
            ),
        r.total_files_changed as nat == files_total(records@),
        r.signed_commits as nat == count(signed_flags(records@), true),
        r.malformed_records as nat == count(malformed_flags(records@), true),
{
    let ghost s = records@;
    let mut hours: Vec<usize> = Vec::new();
    let mut weekdays: Vec<usize> = Vec::new();
    let mut days: Vec<i64> = Vec::new();
    let mut types: Vec<usize> = Vec::new();
    let mut ins: u128 = 0;
    let mut del: u128 = 0;
    let mut files: u128 = 0;
    let mut signed: usize = 0;
    let mut malformed: usize = 0;
    let mut i: usize = 0;
    while i < records.len()
        invariant
            s == records@,
            i <= s.len(),
            hours@ == local_hours(s).take(i as int),
            weekdays@ == local_weekdays(s).take(i as int),
            days@ == local_days(s).take(i as int),
            types@ == commit_type_indices(s).take(i as int),
            forall|k: int| 0 <= k < i ==> hours@[k] < HOURS_PER_DAY,
            forall|k: int| 0 <= k < i ==> weekdays@[k] < DAYS_PER_WEEK,
            forall|k: int| 0 <= k < i ==> types@[k] < COMMIT_TYPE_COUNT,
            ins as nat == non_merge_insertions(s.take(i as int)),
            del as nat == non_merge_deletions(s.take(i as int)),
            files as nat == files_total(s.take(i as int)),
            signed as nat == count(signed_flags(s).take(i as int), true),
            malformed as nat == count(malformed_flags(s).take(i as int), true),
        decreases s.len() - i,
    {
        let r = &records[i];
        let ghost after = s.take(i as int + 1);
        assert(after.drop_last() =~= s.take(i as int));
        assert(signed_flags(s).take(i as int + 1).drop_last() =~= signed_flags(s).take(i as int));
        assert(malformed_flags(s).take(i as int + 1).drop_last() =~= malformed_flags(s).take(
            i as int,
        ));
        proof {
            lemma_line_sums_bounded(after);
            assert(after.len() * 0xffff_ffff_ffff_ffff <= 0xffff_ffff_ffff_ffff_ffff_ffff_ffff_ffff)
                by (nonlinear_arith)
                requires
                    after.len() <= 0xffff_ffff_ffff_ffff,
            ;
            crate::model::lemma_count_bound(signed_flags(s).take(i as int), true);
            crate::model::lemma_count_bound(malformed_flags(s).take(i as int), true);
        }
        let lt = local_time(r.author.timestamp, r.author.utc_offset_minutes);
        hours.push(lt.hour);
        weekdays.push(lt.weekday);
        days.push(lt.day);
        let t: CommitType = classify_summary(&r.summary);
        types.push(t.index());
        if r.parent_hashes.len() <= 1 {
            ins = ins + r.insertions as u128;
            del = del + r.deletions as u128;
        }
        files = files + r.files_changed_count as u128;
        if r.signature_verified {
            signed = signed + 1;
        }
        if r.changes.len() as u64 != r.files_changed_count {
            malformed = malformed + 1;
        }
        i = i + 1;
        assert(hours@ =~= local_hours(s).take(i as int));
        assert(weekdays@ =~= local_weekdays(s).take(i as int));
        assert(days@ =~= local_days(s).take(i as int));
        assert(types@ =~= commit_type_indices(s).take(i as int));
    }
    assert(s.take(s.len() as int) =~= s);
    assert(local_hours(s).take(s.len() as int) =~= local_hours(s));
    assert(local_weekdays(s).take(s.len() as int) =~= local_weekdays(s));
    assert(local_days(s).take(s.len() as int) =~= local_days(s));
    assert(commit_type_indices(s).take(s.len() as int) =~= commit_type_indices(s));
    assert(signed_flags(s).take(s.len() as int) =~= signed_flags(s));
    assert(malformed_flags(s).take(s.len() as int) =~= malformed_flags(s));
    let n = records.len();
    let latest = if n == 0 {
        None
    } else {
        let a = &records[0].author;
        let m: i64 = a.utc_offset_minutes as i64 * 60;
        let offset: i64 = if -86400 < m && m < 86400 {
            m
        } else {
            0
        };
        Some(CommitTime { timestamp: a.timestamp, offset_seconds: offset as i32 })
    };
    let earliest_timestamp = if n == 0 {
        None
    } else {
        Some(records[n - 1].author.timestamp)
    };
    Analysis {
        total_commits: n,
        latest,
        earliest_timestamp,
        workload: WorkloadStats { total_insertions: ins, total_deletions: del },
        authors: collect_authors(records),
        daily_commits: tally_days(&days),
        hourly_distribution: bucket_counts(&hours, HOURS_PER_DAY),
        weekly_distribution: bucket_counts(&weekdays, DAYS_PER_WEEK),
        hotspots: hotspots(records),
        commit_types: bucket_counts(&types, COMMIT_TYPE_COUNT),
        total_files_changed: files,
        signed_commits: signed,
        malformed_records: malformed,
    }
}

/// `x` limited to the range of `i128`.
pub open spec fn clamp_i128(x: int) -> int {
    if x > i128::MAX {
        i128::MAX as int
    } else if x < i128::MIN {
        i128::MIN as int
    } else {
        x
    }
}

impl WorkloadStats {
    /// Inserted minus deleted lines, clamped to the range of `i128`.
    pub fn net_lines(&self) -> (r: i128)
        ensures
            r as int == clamp_i128(self.total_insertions as int - self.total_deletions as int),
    {
        if self.total_insertions >= self.total_deletions {
            let d = self.total_insertions - self.total_deletions;
            if d > i128::MAX as u128 {
                i128::MAX
            } else {
                d as i128
            }
        } else {
            let d = self.total_deletions - self.total_insertions;
            if d > i128::MAX as u128 {
                i128::MIN
            } else {
                -(d as i128)
            }
        }
    }
}

/// A merge commit's lines count for its author and not for the workload:
/// appending a merge leaves the workload totals as they were and adds its
/// insertions and deletions to its author's totals.
pub proof fn lemma_merge_counts_for_author_only(s: Seq<CommitRecord>, m: CommitRecord)
    requires
        is_merge_commit(m),
    ensures
        non_merge_insertions(s.push(m)) == non_merge_insertions(s),
        non_merge_deletions(s.push(m)) == non_merge_deletions(s),
        insertions_by(s.push(m), m.author.email@) == insertions_by(s, m.author.email@)
            + m.insertions,
        deletions_by(s.push(m), m.author.email@) == deletions_by(s, m.author.email@) + m.deletions,
{
    assert(s.push(m).drop_last() =~= s);
}

/// A non-merge commit's lines count both for the workload and for its author.
pub proof fn lemma_plain_commit_counts_everywhere(s: Seq<CommitRecord>, c: CommitRecord)
    requires
        !is_merge_commit(c),
    ensures
        non_merge_insertions(s.push(c)) == non_merge_insertions(s) + c.insertions,
        non_merge_deletions(s.push(c)) == non_merge_deletions(s) + c.deletions,
        insertions_by(s.push(c), c.author.email@) == insertions_by(s, c.author.email@)
            + c.insertions,
{
    assert(s.push(c).drop_last() =~= s);
}

} // verus!
