use git_insight::analysis::{perform_final_analysis, Analysis, WorkloadStats};
use git_insight::authors::collect_authors;
use git_insight::classify::{classify_prefix, classify_summary, CommitType};
use git_insight::clock::{local_time, utc_day};
use git_insight::hotspots::{hotspots, RiskLevel};
use git_insight::model::{ActorStamp, ChangeKind, CommitRecord, FileChange};
use git_insight::ranking::{
    bus_factor, leaderboard_bus_factor, rank_authors, rank_order, LeaderboardEntry, Role,
};

fn stamp(name: &str, email: &str, timestamp: i64, offset: i32) -> ActorStamp {
    ActorStamp {
        name: name.to_string(),
        email: email.to_string(),
        timestamp,
        utc_offset_minutes: offset,
    }
}

fn record(
    email: &str,
    timestamp: i64,
    parents: usize,
    insertions: u64,
    deletions: u64,
    summary: &str,
    files: &[&str],
) -> CommitRecord {
    let author = stamp(email, email, timestamp, 0);
    CommitRecord {
        hash: format!("{:040x}", timestamp),
        parent_hashes: (0..parents).map(|p| format!("{:040x}", p)).collect(),
        committer: author.clone(),
        author,
        summary: summary.to_string(),
        body: None,
        is_merge: parents > 1,
        signature_verified: false,
        insertions,
        deletions,
        files_changed_count: files.len() as u64,
        changes: files
            .iter()
            .map(|f| FileChange {
                path: f.to_string(),
                previous_path: None,
                change_kind: ChangeKind::Modified,
            })
            .collect(),
    }
}

fn weight(insertions: u128) -> u16 {
    ((insertions as f64 + 1.0).log10() * 50.0).round() as u16
}

fn leaderboard(a: &Analysis) -> Vec<LeaderboardEntry> {
    let weights: Vec<u16> = a.authors.iter().map(|t| weight(t.insertions)).collect();
    rank_authors(&a.authors, &weights, a.total_commits)
}

fn board_bus(board: &[LeaderboardEntry]) -> usize {
    leaderboard_bus_factor(&board.to_vec()).unwrap()
}

const DAY: i64 = 86400;

#[test]
fn single_root_commit_report() {
    let mut r = record("alice@x.com", 1_700_000_000, 0, 10, 0, "feat: init", &["a.txt"]);
    r.signature_verified = true;
    r.changes[0].change_kind = ChangeKind::Added;
    let a = perform_final_analysis(&vec![r]);
    assert_eq!(a.total_commits, 1);
    assert_eq!(a.commit_types, vec![1, 0, 0, 0, 0, 0]);
    assert_eq!(CommitType::from_index(0).label(), "feat");
    assert_eq!(a.signed_commits, 1);
    let board = leaderboard(&a);
    assert_eq!(board.len(), 1);
    assert_eq!(board[0].email, "alice@x.com");
    assert_eq!(board[0].commit_count, 1);
    assert_eq!(board[0].active_days, 1);
    assert_eq!(board[0].insertions, 10);
    // one commit out of one is more than a fifth of all commits
    assert_eq!(board[0].role, Role::Maintainer);
    assert_eq!(board_bus(&board), 1);
    // 1 * 3 + round(50 * log10(11)) + 1 * 2 tenths
    assert_eq!(board[0].impact_tenths, 3 + 52 + 2);
}

#[test]
fn dominant_author_gives_bus_factor_one() {
    let mut rs = Vec::new();
    for k in 0..5 {
        rs.push(record("a@x.com", 1_700_000_000 + k * 60, 1, 10, 0, "fix: a", &["a.rs"]));
    }
    rs.push(record("b@x.com", 1_700_000_000, 1, 1, 0, "fix: b", &["b.rs"]));
    let a = perform_final_analysis(&rs);
    let board = leaderboard(&a);
    assert_eq!(board[0].email, "a@x.com");
    assert_eq!(board[0].insertions, 50);
    assert_eq!(board[1].insertions, 1);
    assert_eq!(board_bus(&board), 1);
}

#[test]
fn merge_insertions_count_for_author_only() {
    let rs = vec![
        record("m@x.com", 1_700_000_300, 2, 100, 7, "Merge branch", &[]),
        record("m@x.com", 1_700_000_200, 1, 5, 1, "feat: x", &["x.rs"]),
        record("o@x.com", 1_700_000_100, 1, 3, 2, "fix: y", &["y.rs"]),
    ];
    let a = perform_final_analysis(&rs);
    assert_eq!(a.workload.total_insertions, 8);
    assert_eq!(a.workload.total_deletions, 3);
    let m = a.authors.iter().find(|t| t.email == "m@x.com").unwrap();
    assert_eq!(m.insertions, 105);
    assert_eq!(m.deletions, 8);
    assert_eq!(m.commit_count, 2);
}

#[test]
fn hourly_distribution_sums_to_commit_count() {
    let rs = vec![
        record("a@x.com", 0, 1, 1, 0, "x", &[]),
        record("a@x.com", 3 * 3600 + 5, 1, 1, 0, "x", &[]),
        record("b@x.com", 23 * 3600 + 59, 1, 1, 0, "x", &[]),
        record("b@x.com", -1, 1, 1, 0, "x", &[]),
        record("c@x.com", 5 * DAY + 3 * 3600, 1, 1, 0, "x", &[]),
    ];
    let a = perform_final_analysis(&rs);
    assert_eq!(a.hourly_distribution.len(), 24);
    assert_eq!(a.hourly_distribution.iter().sum::<usize>(), 5);
    assert_eq!(a.hourly_distribution[0], 1);
    assert_eq!(a.hourly_distribution[3], 2);
    assert_eq!(a.hourly_distribution[23], 2);
    assert_eq!(a.weekly_distribution.len(), 7);
    assert_eq!(a.weekly_distribution.iter().sum::<usize>(), 5);
}

#[test]
fn empty_history() {
    let a = perform_final_analysis(&Vec::new());
    assert_eq!(a.total_commits, 0);
    assert!(a.latest.is_none());
    assert!(a.earliest_timestamp.is_none());
    assert_eq!(a.hourly_distribution, vec![0; 24]);
    assert_eq!(a.weekly_distribution, vec![0; 7]);
    assert!(a.daily_commits.days.is_empty());
    assert!(a.authors.is_empty());
    assert!(a.hotspots.is_empty());
    assert_eq!(a.workload, WorkloadStats { total_insertions: 0, total_deletions: 0 });
    let board = leaderboard(&a);
    assert!(board.is_empty());
    assert_eq!(board_bus(&board), 1);
    assert_eq!(bus_factor(&Vec::new()), 1);
}

#[test]
fn bus_factor_stays_within_author_count() {
    assert_eq!(bus_factor(&vec![5]), 1);
    assert_eq!(bus_factor(&vec![10, 10]), 1);
    assert_eq!(bus_factor(&vec![10, 10, 10]), 2);
    assert_eq!(bus_factor(&vec![4, 3, 3]), 2);
    assert_eq!(bus_factor(&vec![1, 1, 1, 1, 1]), 3);
    assert_eq!(bus_factor(&vec![0, 0, 0]), 1);
    for n in 1..8u128 {
        let scores: Vec<u128> = (0..n).map(|_| 7).collect();
        let b = bus_factor(&scores);
        assert!(b >= 1 && b <= n as usize);
    }
}

#[test]
fn impact_grows_with_commits_and_insertions() {
    let base = vec![record("a@x.com", 0, 1, 10, 0, "x", &[])];
    let more_commits = vec![
        record("a@x.com", 0, 1, 5, 0, "x", &[]),
        record("a@x.com", 10, 1, 5, 0, "x", &[]),
    ];
    let more_lines = vec![record("a@x.com", 0, 1, 1000, 0, "x", &[])];
    let s0 = leaderboard(&perform_final_analysis(&base))[0].impact_tenths;
    let s1 = leaderboard(&perform_final_analysis(&more_commits))[0].impact_tenths;
    let s2 = leaderboard(&perform_final_analysis(&more_lines))[0].impact_tenths;
    assert!(s1 >= s0);
    assert!(s2 >= s0);
    // 3 + round(50 * log10(1001)) + 2
    assert_eq!(s2, 3 + 150 + 2);
}

#[test]
fn repeated_runs_agree() {
    let rs = vec![
        record("a@x.com", 1_700_000_000, 1, 4, 1, "feat: a", &["a", "b"]),
        record("b@x.com", 1_600_000_000, 1, 4, 1, "fix: b", &["b", "c"]),
        record("c@x.com", 1_500_000_000, 1, 4, 1, "chore: c", &["c", "a"]),
    ];
    let a1 = perform_final_analysis(&rs);
    let a2 = perform_final_analysis(&rs);
    let b1 = leaderboard(&a1);
    let b2 = leaderboard(&a2);
    assert_eq!(format!("{:?}", b1), format!("{:?}", b2));
    assert_eq!(format!("{:?}", a1.hotspots), format!("{:?}", a2.hotspots));
    assert_eq!(a1.hourly_distribution, a2.hourly_distribution);
    assert_eq!(a1.daily_commits.days, a2.daily_commits.days);
    assert_eq!(a1.commit_types, a2.commit_types);
    // equal scores keep the order in which authors first appear
    let emails: Vec<&str> = b1.iter().map(|e| e.email.as_str()).collect();
    assert_eq!(emails, vec!["a@x.com", "b@x.com", "c@x.com"]);
}

#[test]
fn hotspots_are_top_ten_by_change_count() {
    let mut rs = Vec::new();
    for k in 0..12usize {
        let path = format!("f{}.rs", k);
        for j in 0..(k % 5 + 1) {
            rs.push(record("a@x.com", (k * 100 + j) as i64, 1, 1, 0, "x", &[path.as_str()]));
        }
    }
    let h = hotspots(&rs);
    assert_eq!(h.len(), 10);
    for w in h.windows(2) {
        assert!(w[0].change_count >= w[1].change_count);
    }
    assert_eq!(h[0].path, "f4.rs");
    assert_eq!(h[0].change_count, 5);
    assert_eq!(h[1].path, "f9.rs");
    assert_eq!(h[9].path, "f0.rs");
    assert_eq!(h[9].change_count, 1);
}

#[test]
fn hotspot_risk_follows_author_diversity() {
    let rs = vec![
        record("a@x.com", 1, 1, 1, 0, "x", &["shared.rs", "solo.rs"]),
        record("b@x.com", 2, 1, 1, 0, "x", &["shared.rs"]),
        record("c@x.com", 3, 1, 1, 0, "x", &["shared.rs"]),
        record("a@x.com", 4, 1, 1, 0, "x", &["shared.rs", "solo.rs"]),
    ];
    let h = hotspots(&rs);
    assert_eq!(h.len(), 2);
    assert_eq!(h[0].path, "shared.rs");
    assert_eq!(h[0].change_count, 4);
    assert_eq!(h[0].unique_authors, 3);
    assert_eq!(h[0].risk_level, RiskLevel::High);
    assert_eq!(h[0].risk_level.label(), "High");
    assert_eq!(h[1].unique_authors, 1);
    assert_eq!(h[1].risk_level, RiskLevel::Low);
}

#[test]
fn classification_splits_before_first_colon_without_trimming() {
    assert_eq!(classify_summary(&"feat: x".to_string()), CommitType::Feat);
    assert_eq!(classify_summary(&"Feat: x".to_string()), CommitType::Feat);
    assert_eq!(classify_summary(&"FIX: a: b".to_string()), CommitType::Fix);
    assert_eq!(classify_summary(&"feat : x".to_string()), CommitType::Unknown);
    assert_eq!(classify_summary(&" docs: x".to_string()), CommitType::Unknown);
    assert_eq!(classify_summary(&"docs".to_string()), CommitType::Docs);
    assert_eq!(classify_summary(&"Refactor:".to_string()), CommitType::Refactor);
    assert_eq!(classify_summary(&"chore: bump".to_string()), CommitType::Chore);
    assert_eq!(classify_summary(&"style: x".to_string()), CommitType::Unknown);
    assert_eq!(classify_summary(&"".to_string()), CommitType::Unknown);
    assert_eq!(classify_prefix(&"feat".to_string()), CommitType::Feat);
    assert_eq!(classify_prefix(&"Feat".to_string()), CommitType::Unknown);
    assert_eq!(CommitType::Unknown.label(), "unknown");
    assert_eq!(CommitType::Refactor.index(), 3);
}

#[test]
fn commit_type_histogram() {
    let rs = vec![
        record("a@x.com", 1, 1, 1, 0, "feat: a", &[]),
        record("a@x.com", 2, 1, 1, 0, "Feat: b", &[]),
        record("a@x.com", 3, 1, 1, 0, "wip", &[]),
        record("a@x.com", 4, 1, 1, 0, "docs: c", &[]),
    ];
    let a = perform_final_analysis(&rs);
    assert_eq!(a.commit_types, vec![2, 0, 1, 0, 0, 1]);
}

#[test]
fn local_time_uses_author_offset() {
    // 1970-01-01 23:30 UTC at +01:00 is Friday 1970-01-02 00:30
    let t = local_time(23 * 3600 + 1800, 60);
    assert_eq!((t.day, t.hour, t.weekday), (1, 0, 4));
    // the epoch itself was a Thursday
    let t = local_time(0, 0);
    assert_eq!((t.day, t.hour, t.weekday), (0, 0, 3));
    // one second before the epoch at UTC
    let t = local_time(-1, 0);
    assert_eq!((t.day, t.hour, t.weekday), (-1, 23, 2));
    // -05:00
    let t = local_time(2 * 3600, -300);
    assert_eq!((t.day, t.hour), (-1, 21));
    // an offset of a full day or more falls back to UTC
    let t = local_time(3600, 1440);
    assert_eq!((t.day, t.hour), (0, 1));
    let t = local_time(3600, -5000);
    assert_eq!((t.day, t.hour), (0, 1));
    let t = local_time(i64::MIN, i32::MIN);
    assert!(t.hour < 24 && t.weekday < 7);
    let t = local_time(i64::MAX, 1439);
    assert!(t.hour < 24 && t.weekday < 7);
    assert_eq!(utc_day(DAY - 1), 0);
    assert_eq!(utc_day(DAY), 1);
    assert_eq!(utc_day(-DAY), -1);
    assert_eq!(utc_day(-DAY - 1), -2);
}

#[test]
fn daily_commits_use_local_dates_and_active_days_utc() {
    let mut late = record("a@x.com", 23 * 3600, 1, 1, 0, "x", &[]);
    late.author.utc_offset_minutes = 120;
    let early = record("a@x.com", 3600, 1, 1, 0, "x", &[]);
    let next = record("a@x.com", DAY + 3600, 1, 1, 0, "x", &[]);
    let a = perform_final_analysis(&vec![late, early, next]);
    assert_eq!(a.daily_commits.days, vec![1, 0]);
    assert_eq!(a.daily_commits.counts, vec![2, 1]);
    assert_eq!(a.authors[0].active_days, 2);
    let l = a.latest.unwrap();
    assert_eq!((l.timestamp, l.offset_seconds), (23 * 3600, 7200));
    assert_eq!(a.earliest_timestamp, Some(DAY + 3600));
}

#[test]
fn authors_grouped_by_email_in_order_of_appearance() {
    let mut first = record("a@x.com", 5, 1, 2, 1, "x", &[]);
    first.author.name = "Alice".to_string();
    let mut second = record("a@x.com", 4, 1, 3, 1, "x", &[]);
    second.author.name = "Alice B.".to_string();
    let rs = vec![first, record("b@x.com", 3, 1, 1, 1, "x", &[]), second];
    let t = collect_authors(&rs);
    assert_eq!(t.len(), 2);
    assert_eq!(t[0].email, "a@x.com");
    assert_eq!(t[0].name, "Alice");
    assert_eq!(t[0].commit_count, 2);
    assert_eq!(t[0].insertions, 5);
    assert_eq!(t[0].active_days, 1);
    assert_eq!(t[1].email, "b@x.com");
}

#[test]
fn roles_follow_a_fifth_of_all_commits() {
    let mut rs = Vec::new();
    for k in 0..8 {
        rs.push(record("a@x.com", k, 1, 1, 0, "x", &[]));
    }
    rs.push(record("b@x.com", 100, 1, 1, 0, "x", &[]));
    rs.push(record("b@x.com", 101, 1, 1, 0, "x", &[]));
    let board = leaderboard(&perform_final_analysis(&rs));
    assert_eq!(board[0].role, Role::Maintainer);
    assert_eq!(board[0].role.label(), "Maintainer");
    // 2 is not more than 10 / 5
    assert_eq!(board[1].role, Role::Contributor);
    assert_eq!(board[1].role.label(), "Contributor");
}

#[test]
fn ranking_orders_by_score_then_position() {
    assert_eq!(rank_order(&vec![3, 9, 3, 10]), vec![3, 1, 0, 2]);
    assert_eq!(rank_order(&vec![]), Vec::<usize>::new());
    assert_eq!(rank_order(&vec![1, 1, 1]), vec![0, 1, 2]);
}

#[test]
fn quality_counters() {
    let mut signed = record("a@x.com", 1, 1, 1, 0, "x", &["a", "b"]);
    signed.signature_verified = true;
    let mut odd = record("a@x.com", 2, 1, 1, 0, "x", &["a"]);
    odd.files_changed_count = 3;
    let a = perform_final_analysis(&vec![signed, odd]);
    assert_eq!(a.signed_commits, 1);
    assert_eq!(a.malformed_records, 1);
    assert_eq!(a.total_files_changed, 5);
}

#[test]
fn net_lines_is_a_difference() {
    let w = WorkloadStats { total_insertions: 3, total_deletions: 10 };
    assert_eq!(w.net_lines(), -7);
    let w = WorkloadStats { total_insertions: 10, total_deletions: 3 };
    assert_eq!(w.net_lines(), 7);
    let w = WorkloadStats { total_insertions: u128::MAX, total_deletions: 0 };
    assert_eq!(w.net_lines(), i128::MAX);
    let w = WorkloadStats { total_insertions: 0, total_deletions: u128::MAX };
    assert_eq!(w.net_lines(), i128::MIN);
}
