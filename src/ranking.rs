//! Leaderboard ranking by impact score, and the bus factor.
//!
//! Scores are kept in tenths, as exact integers:
//! `impact = commit_count * 0.3 + log10(insertions + 1) * 5 + active_days * 0.2`
//! rounded to one decimal is `3 * commit_count + w + 2 * active_days` tenths,
//! where `w = round(50 * log10(insertions + 1))` is the insertion weight,
//! computed by the caller.
use crate::authors::AuthorTotals;
use vstd::prelude::*;

verus! {

/// Impact score in tenths of a point.
pub open spec fn impact_tenths(commit_count: int, insertion_weight: int, active_days: int) -> int {
    3 * commit_count + insertion_weight + 2 * active_days
}

/// Standing of an author in the project.
#[derive(Clone, Copy, Debug, PartialEq, Eq, Structural)]
pub enum Role {
    Maintainer,
    Contributor,
}

/// A maintainer has more than a fifth of all commits (integer division).
pub open spec fn role_of(commit_count: int, total_commits: int) -> Role {
    if commit_count > total_commits / 5 {
        Role::Maintainer
    } else {
        Role::Contributor
    }
}

impl Role {
    /// The report label of the role.
    pub fn label(&self) -> (r: String)
        ensures
            r@ == (match *self {
                Role::Maintainer => "Maintainer"@,
                Role::Contributor => "Contributor"@,
            }),
    {
        match self {
            Role::Maintainer => "Maintainer".to_owned(),
            Role::Contributor => "Contributor".to_owned(),
        }
    }
}

/// One row of the leaderboard.
#[derive(Clone, Debug)]
pub struct LeaderboardEntry {
    pub name: String,
    pub email: String,
    pub commit_count: usize,
    pub insertions: u128,
    pub deletions: u128,
    pub active_days: usize,
    pub impact_tenths: u128,
    pub role: Role,
}

/// The leaderboard row of an author.
pub open spec fn entry_for(t: AuthorTotals, insertion_weight: u16, total_commits: usize) -> LeaderboardEntry {
    LeaderboardEntry {
        name: t.name,
        email: t.email,
        commit_count: t.commit_count,
        insertions: t.insertions,
        deletions: t.deletions,
        active_days: t.active_days,
        impact_tenths: impact_tenths(
            t.commit_count as int,
            insertion_weight as int,
            t.active_days as int,
        ) as u128,
        role: role_of(t.commit_count as int, total_commits as int),
    }
}

/// Item `a` ranks before item `b`: a higher key, or an equal key and an
/// earlier position.
pub open spec fn ranks_before(keys: Seq<u128>, a: usize, b: usize) -> bool {
    keys[a as int] > keys[b as int] || (keys[a as int] == keys[b as int] && a < b)
}

/// `order` lists every position of `keys` once, from the highest key down,
/// equal keys in the order of their positions.
pub open spec fn is_ranking(keys: Seq<u128>, order: Seq<usize>) -> bool {
    &&& order.len() == keys.len()
    &&& forall|k: int| 0 <= k < order.len() ==> order[k] < keys.len()
    &&& forall|k: int, l: int|
        0 <= k < l < order.len() ==> ranks_before(keys, #[trigger] order[k], #[trigger] order[l])
}

/// Positions of `keys` from the highest key down; ties keep their order.
pub fn rank_order(keys: &Vec<u128>) -> (r: Vec<usize>)
    ensures
        is_ranking(keys@, r@),
{
    let mut out: Vec<usize> = Vec::new();
    let mut i: usize = 0;
    while i < keys.len()
        invariant
            i <= keys@.len(),
            out@.len() == i,
            forall|k: int| 0 <= k < out@.len() ==> out@[k] < i,
            forall|k: int, l: int|
                0 <= k < l < out@.len() ==> ranks_before(keys@, #[trigger] out@[k], #[trigger] out@[l]),
        decreases keys@.len() - i,
    {
        let key = keys[i];
        let mut p: usize = 0;
        while p < out.len() && keys[out[p]] >= key
            invariant
                p <= out@.len(),
                i < keys@.len(),
                key == keys@[i as int],
                forall|k: int| 0 <= k < out@.len() ==> out@[k] < i,
                forall|k: int| 0 <= k < p ==> keys@[out@[k] as int] >= key,
            decreases out@.len() - p,
        {
            p = p + 1;
        }
        let ghost before = out@;
        out.insert(p, i);
        assert forall|k: int, l: int| 0 <= k < l < out@.len() implies ranks_before(
            keys@,
            #[trigger] out@[k],
            #[trigger] out@[l],
        ) by {
            if l < p {
                assert(out@[k] == before[k] && out@[l] == before[l]);
            } else if l == p {
                assert(out@[k] == before[k]);
            } else if k == p {
                assert(out@[l] == before[l - 1]);
                assert(ranks_before(keys@, before[p as int], before[l - 1]) || l - 1 == p);
            } else if k < p {
                assert(out@[k] == before[k] && out@[l] == before[l - 1]);
            } else {
                assert(out@[k] == before[k - 1] && out@[l] == before[l - 1]);
            }
        }
        i = i + 1;
    }
    out
}

/// The leaderboard: one row per author, highest impact first, authors with
/// equal scores in the order of the input. `insertion_weights[k]` is the
/// insertion weight of `authors[k]`.
pub fn rank_authors(
    authors: &Vec<AuthorTotals>,
    insertion_weights: &Vec<u16>,
    total_commits: usize,
) -> (r: Vec<LeaderboardEntry>)
    requires
        insertion_weights@.len() == authors@.len(),
    ensures
        is_leaderboard(authors@, insertion_weights@, total_commits, r@),
{
    let mut scores: Vec<u128> = Vec::new();
    let mut i: usize = 0;
    while i < authors.len()
        invariant
            i <= authors@.len(),
            insertion_weights@.len() == authors@.len(),
            scores@ == scores_of(authors@, insertion_weights@).take(i as int),
        decreases authors@.len() - i,
    {
        let t = &authors[i];
        let s: u128 = 3 * (t.commit_count as u128) + insertion_weights[i] as u128 + 2 * (
        t.active_days as u128);
        scores.push(s);
        i = i + 1;
        assert(scores@ =~= scores_of(authors@, insertion_weights@).take(i as int));
    }
    assert(scores@ =~= scores_of(authors@, insertion_weights@));
    let order = rank_order(&scores);
    let mut r: Vec<LeaderboardEntry> = Vec::new();
    let mut k: usize = 0;
    while k < order.len()
        invariant
            k <= order@.len(),
            is_ranking(scores@, order@),
            scores@ == scores_of(authors@, insertion_weights@),
            insertion_weights@.len() == authors@.len(),
            r@.len() == k,
            forall|j: int|
                0 <= j < k ==> #[trigger] r@[j] == entry_for(
                    authors@[order@[j] as int],
                    insertion_weights@[order@[j] as int],
                    total_commits,
                ),
        decreases order@.len() - k,
    {
        let a = order[k];
        let t = &authors[a];
        let role = if t.commit_count > total_commits / 5 {
            Role::Maintainer
        } else {
            Role::Contributor
        };
        r.push(
            LeaderboardEntry {
                name: t.name.clone(),
                email: t.email.clone(),
                commit_count: t.commit_count,
                insertions: t.insertions,
                deletions: t.deletions,
                active_days: t.active_days,
                impact_tenths: scores[a],
                role,
            },
        );
        k = k + 1;
    }
    r
}

/// `r` is the leaderboard of `authors`: their rows, ranked by impact score.
pub open spec fn is_leaderboard(
    authors: Seq<AuthorTotals>,
    weights: Seq<u16>,
    total_commits: usize,
    r: Seq<LeaderboardEntry>,
) -> bool {
    &&& r.len() == authors.len()
    &&& exists|order: Seq<usize>|
        {
            &&& is_ranking(scores_of(authors, weights), order)
            &&& forall|k: int|
                0 <= k < r.len() ==> #[trigger] r[k] == entry_for(
                    authors[order[k] as int],
                    weights[order[k] as int],
                    total_commits,
                )
        }
}

/// The leaderboard is determined by the authors' totals and weights.
pub proof fn lemma_leaderboard_determined(
    authors: Seq<AuthorTotals>,
    weights: Seq<u16>,
    total_commits: usize,
    r1: Seq<LeaderboardEntry>,
    r2: Seq<LeaderboardEntry>,
)
    requires
        authors.len() <= usize::MAX,
        is_leaderboard(authors, weights, total_commits, r1),
        is_leaderboard(authors, weights, total_commits, r2),
    ensures
        r1 == r2,
{
    let keys = scores_of(authors, weights);
    let o1 = choose|order: Seq<usize>|
        {
            &&& is_ranking(keys, order)
            &&& forall|k: int|
                0 <= k < r1.len() ==> #[trigger] r1[k] == entry_for(
                    authors[order[k] as int],
                    weights[order[k] as int],
                    total_commits,
                )
        };
    let o2 = choose|order: Seq<usize>|
        {
            &&& is_ranking(keys, order)
            &&& forall|k: int|
                0 <= k < r2.len() ==> #[trigger] r2[k] == entry_for(
                    authors[order[k] as int],
                    weights[order[k] as int],
                    total_commits,
                )
        };
    lemma_ranking_unique(keys, o1, o2);
    assert forall|k: int| 0 <= k < r1.len() implies r1[k] == r2[k] by {
        assert(r1[k] == entry_for(authors[o1[k] as int], weights[o1[k] as int], total_commits));
        assert(r2[k] == entry_for(authors[o2[k] as int], weights[o2[k] as int], total_commits));
    }
    assert(r1 =~= r2);
}

/// The impact score of each author, in tenths, in input order.
pub open spec fn scores_of(authors: Seq<AuthorTotals>, weights: Seq<u16>) -> Seq<u128> {
    Seq::new(
        authors.len(),
        |k: int|
            impact_tenths(
                authors[k].commit_count as int,
                weights[k] as int,
                authors[k].active_days as int,
            ) as u128,
    )
}

/// Sum of the first `k` scores.
pub open spec fn prefix_sum(s: Seq<u128>, k: int) -> int
    decreases k,
{
    if k <= 0 || k > s.len() {
        0
    } else {
        prefix_sum(s, k - 1) + s[k - 1] as int
    }
}

/// Sum of all scores.
pub open spec fn score_sum(s: Seq<u128>) -> int {
    prefix_sum(s, s.len() as int)
}

/// The first count, from `k + 1` on, of leading scores that reach half of the
/// total; the whole length if none before it does.
pub open spec fn bus_search(s: Seq<u128>, k: int) -> int
    decreases s.len() - k,
{
    if k + 1 >= s.len() {
        s.len() as int
    } else if 2 * prefix_sum(s, k + 1) >= score_sum(s) {
        k + 1
    } else {
        bus_search(s, k + 1)
    }
}

/// Number of leading scores whose sum first reaches half of the total, and at
/// least 1.
pub open spec fn bus_factor_of(s: Seq<u128>) -> int {
    if s.len() == 0 {
        1
    } else {
        bus_search(s, 0)
    }
}

pub proof fn lemma_prefix_sum_monotone(s: Seq<u128>, k: int, j: int)
    requires
        0 <= k <= j <= s.len(),
    ensures
        0 <= prefix_sum(s, k) <= prefix_sum(s, j),
    decreases j,
{
    if j > 0 {
        lemma_prefix_sum_monotone(s, if k < j { k } else { j - 1 }, j - 1);
    }
}

/// The bus factor of scores sorted from the highest down: how many leading
/// scores it takes for their sum to reach half of the total, and at least 1.
pub fn bus_factor(scores: &Vec<u128>) -> (r: usize)
    requires
        score_sum(scores@) <= u128::MAX,
    ensures
        r as int == bus_factor_of(scores@),
{
    let n = scores.len();
    if n == 0 {
        return 1;
    }
    let mut total: u128 = 0;
    let mut i: usize = 0;
    while i < n
        invariant
            n == scores@.len(),
            i <= n,
            total as int == prefix_sum(scores@, i as int),
            score_sum(scores@) <= u128::MAX,
        decreases n - i,
    {
        proof {
            lemma_prefix_sum_monotone(scores@, i as int + 1, n as int);
        }
        total = total + scores[i];
        i = i + 1;
    }
    let mut prefix: u128 = 0;
    let mut k: usize = 0;
    while k + 1 < n
        invariant
            n == scores@.len(),
            k < n,
            total as int == score_sum(scores@),
            prefix as int == prefix_sum(scores@, k as int),
            bus_factor_of(scores@) == bus_search(scores@, k as int),
        decreases n - k,
    {
        proof {
            lemma_prefix_sum_monotone(scores@, k as int + 1, n as int);
        }
        prefix = prefix + scores[k];
        if prefix >= total - prefix {
            return k + 1;
        }
        k = k + 1;
    }
    n
}

/// The bus factor lies between 1 and the number of authors.
pub proof fn lemma_bus_factor_range(s: Seq<u128>)
    requires
        s.len() >= 1,
    ensures
        1 <= bus_factor_of(s) <= s.len(),
{
    lemma_bus_search_range(s, 0);
}

proof fn lemma_bus_search_range(s: Seq<u128>, k: int)
    requires
        0 <= k < s.len(),
    ensures
        k + 1 <= bus_search(s, k) <= s.len(),
        2 * prefix_sum(s, bus_search(s, k)) >= score_sum(s),
        forall|j: int| k < j < bus_search(s, k) ==> 2 * prefix_sum(s, j) < score_sum(s),
    decreases s.len() - k,
{
    lemma_prefix_sum_monotone(s, 0, s.len() as int);
    if k + 1 < s.len() && 2 * prefix_sum(s, k + 1) < score_sum(s) {
        lemma_bus_search_range(s, k + 1);
    }
}

/// The leading `bus_factor_of(s)` scores reach half of the total, and no
/// shorter non-empty prefix does.
pub proof fn lemma_bus_factor_is_first_half(s: Seq<u128>)
    requires
        s.len() >= 1,
    ensures
        2 * prefix_sum(s, bus_factor_of(s)) >= score_sum(s),
        forall|j: int| 1 <= j < bus_factor_of(s) ==> 2 * prefix_sum(s, j) < score_sum(s),
{
    lemma_bus_search_range(s, 0);
}

/// The impact score does not decrease when the commit count or the insertion
/// weight grows and the other inputs stay fixed.
pub proof fn lemma_impact_monotone(
    commits_low: int,
    commits_high: int,
    weight_low: int,
    weight_high: int,
    active_days: int,
)
    requires
        commits_low <= commits_high,
        weight_low <= weight_high,
    ensures
        impact_tenths(commits_low, weight_low, active_days) <= impact_tenths(
            commits_high,
            weight_low,
            active_days,
        ),
        impact_tenths(commits_low, weight_low, active_days) <= impact_tenths(
            commits_low,
            weight_high,
            active_days,
        ),
{
}

/// The impact score of each leaderboard row, in order.
pub open spec fn board_scores(entries: Seq<LeaderboardEntry>) -> Seq<u128> {
    entries.map_values(|e: LeaderboardEntry| e.impact_tenths)
}

/// The bus factor of a leaderboard, highest score first; `None` only when the
/// scores add up to more than `u128` holds.
pub fn leaderboard_bus_factor(entries: &Vec<LeaderboardEntry>) -> (r: Option<usize>)
    ensures
        r is Some <==> score_sum(board_scores(entries@)) <= u128::MAX,
        r matches Some(b) ==> b as int == bus_factor_of(board_scores(entries@)),
{
    let ghost s = board_scores(entries@);
    let mut scores: Vec<u128> = Vec::new();
    let mut total: u128 = 0;
    let mut i: usize = 0;
    while i < entries.len()
        invariant
            s == board_scores(entries@),
            i <= entries@.len(),
            scores@ == s.take(i as int),
            total as int == prefix_sum(s, i as int),
        decreases entries@.len() - i,
    {
        let x = entries[i].impact_tenths;
        if x > u128::MAX - total {
            proof {
                lemma_prefix_sum_monotone(s, i as int + 1, s.len() as int);
            }
            return None;
        }
        total = total + x;
        scores.push(x);
        i = i + 1;
        assert(scores@ =~= s.take(i as int));
    }
    assert(scores@ =~= s);
    Some(bus_factor(&scores))
}

/// Two rankings of the same keys are the same: ties are always broken the
/// same way, so the leaderboard and the hotspot list are determined by the
/// records alone.
pub proof fn lemma_ranking_unique(keys: Seq<u128>, a: Seq<usize>, b: Seq<usize>)
    requires
        keys.len() <= usize::MAX,
        is_ranking(keys, a),
        is_ranking(keys, b),
    ensures
        a == b,
{
    assert forall|k: int| 0 <= k < a.len() implies a[k] == b[k] by {
        lemma_position_is_rank(keys, a, k);
        lemma_position_is_rank(keys, b, k);
        lemma_rank_determines_item(keys, a, b, k);
    }
    assert(a =~= b);
}

/// How many items rank before item `x`.
pub open spec fn rank_of(keys: Seq<u128>, x: usize) -> int {
    Set::new(|y: usize| y < keys.len() && ranks_before(keys, y, x)).len() as int
}

/// In a ranking, every position holds each index once.
proof fn lemma_ranking_covers(keys: Seq<u128>, a: Seq<usize>)
    requires
        keys.len() <= usize::MAX,
        is_ranking(keys, a),
    ensures
        a.no_duplicates(),
        a.to_set() == Set::new(|y: usize| y < keys.len()),
{
    let all = Set::new(|y: usize| y < keys.len());
    assert forall|k: int, l: int| 0 <= k < a.len() && 0 <= l < a.len() && k != l implies a[k] != a[l] by {
        if k < l {
            assert(ranks_before(keys, a[k], a[l]));
        } else {
            assert(ranks_before(keys, a[l], a[k]));
        }
    }
    a.unique_seq_to_set();
    assert(a.to_set().subset_of(all));
    lemma_index_set_len(keys.len());
    vstd::set_lib::lemma_subset_equality(a.to_set(), all);
}

proof fn lemma_index_set_len(n: nat)
    requires
        n <= usize::MAX + 1,
    ensures
        Set::new(|y: usize| y < n).finite(),
        Set::new(|y: usize| y < n).len() == n,
    decreases n,
{
    let s = Set::new(|y: usize| y < n);
    if n == 0 {
        assert(s =~= Set::empty());
    } else {
        lemma_index_set_len((n - 1) as nat);
        let p = Set::new(|y: usize| y < (n - 1) as nat);
        assert(!p.contains((n - 1) as usize));
        assert(s =~= p.insert((n - 1) as usize));
    }
}

proof fn lemma_position_is_rank(keys: Seq<u128>, a: Seq<usize>, k: int)
    requires
        keys.len() <= usize::MAX,
        is_ranking(keys, a),
        0 <= k < a.len(),
    ensures
        rank_of(keys, a[k]) == k,
{
    lemma_ranking_covers(keys, a);
    let before = Set::new(|y: usize| y < keys.len() && ranks_before(keys, y, a[k]));
    let prefix = a.take(k);
    assert forall|y: usize| #[trigger] before.contains(y) <==> prefix.to_set().contains(y) by {
        if before.contains(y) {
            assert(a.to_set().contains(y));
            let j = choose|j: int| 0 <= j < a.len() && a[j] == y;
            if j >= k {
                if j > k {
                    assert(ranks_before(keys, a[k], a[j]));
                }
            }
            assert(prefix[j] == y);
        }
        if prefix.to_set().contains(y) {
            let j = choose|j: int| 0 <= j < prefix.len() && prefix[j] == y;
            assert(a[j] == y);
            assert(ranks_before(keys, a[j], a[k]));
        }
    }
    assert(before =~= prefix.to_set());
    assert(prefix.no_duplicates()) by {
        assert forall|i: int, j: int| 0 <= i < prefix.len() && 0 <= j < prefix.len() && i != j implies prefix[i] != prefix[j] by {
            assert(prefix[i] == a[i] && prefix[j] == a[j]);
        }
    }
    prefix.unique_seq_to_set();
}

proof fn lemma_rank_determines_item(keys: Seq<u128>, a: Seq<usize>, b: Seq<usize>, k: int)
    requires
        keys.len() <= usize::MAX,
        is_ranking(keys, a),
        is_ranking(keys, b),
        0 <= k < a.len(),
        rank_of(keys, a[k]) == k,
        rank_of(keys, b[k]) == k,
    ensures
        a[k] == b[k],
{
    let x = a[k];
    let y = b[k];
    if x != y {
        let sx = Set::new(|z: usize| z < keys.len() && ranks_before(keys, z, x));
        let sy = Set::new(|z: usize| z < keys.len() && ranks_before(keys, z, y));
        lemma_index_set_len(keys.len());
        let all = Set::new(|z: usize| z < keys.len());
        assert(sx.subset_of(all));
        assert(sy.subset_of(all));
        vstd::set_lib::lemma_len_subset(sx, all);
        vstd::set_lib::lemma_len_subset(sy, all);
        if ranks_before(keys, x, y) {
            assert(sx.subset_of(sy));
            assert(sy.contains(x) && !sx.contains(x));
            vstd::set_lib::lemma_len_subset(sx, sy.remove(x));
        } else {
            assert(ranks_before(keys, y, x));
            assert(sy.subset_of(sx));
            assert(sx.contains(y) && !sy.contains(y));
            vstd::set_lib::lemma_len_subset(sy, sx.remove(y));
        }
    }
}

/// The bus factor of a leaderboard lies between 1 and the number of authors.
pub proof fn lemma_leaderboard_bus_factor_range(
    authors: Seq<AuthorTotals>,
    weights: Seq<u16>,
    total_commits: usize,
    board: Seq<LeaderboardEntry>,
)
    requires
        authors.len() >= 1,
        is_leaderboard(authors, weights, total_commits, board),
    ensures
        1 <= bus_factor_of(board_scores(board)) <= authors.len(),
{
    lemma_bus_factor_range(board_scores(board));
}

} // verus!
