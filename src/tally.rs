//! Counting occurrences of keys, keeping keys in order of first occurrence.
use crate::model::{count, distinct, lemma_count_bound, lemma_distinct_contains};
use vstd::prelude::*;

verus! {

/// The character sequences held by a list of strings.
pub open spec fn string_views(v: Seq<String>) -> Seq<Seq<char>> {
    v.map_values(|s: String| s@)
}

/// Distinct string keys with the number of times each occurs.
pub struct StringTally {
    pub keys: Vec<String>,
    pub counts: Vec<usize>,
}

/// Distinct day numbers with the number of times each occurs.
pub struct DayTally {
    pub days: Vec<i64>,
    pub counts: Vec<usize>,
}

/// Position of `key` in `keys`, if it is there.
pub fn find_string(keys: &Vec<String>, key: &String) -> (r: Option<usize>)
    ensures
        match r {
            Some(j) => j < keys@.len() && keys@[j as int]@ == key@,
            None => !string_views(keys@).contains(key@),
        },
{
    let mut j: usize = 0;
    while j < keys.len()
        invariant
            j <= keys@.len(),
            forall|k: int| 0 <= k < j ==> keys@[k]@ != key@,
        decreases keys@.len() - j,
    {
        if keys[j] == *key {
            return Some(j);
        }
        j = j + 1;
    }
    assert(!string_views(keys@).contains(key@)) by {
        if string_views(keys@).contains(key@) {
            let k = choose|k: int| 0 <= k < keys@.len() && string_views(keys@)[k] == key@;
            assert(keys@[k]@ == key@);
        }
    }
    None
}

/// Counts each distinct key, listing keys in order of first occurrence.
pub fn tally_strings(items: &Vec<String>) -> (r: StringTally)
    ensures
        string_views(r.keys@) == distinct(string_views(items@)),
        r.counts@.len() == r.keys@.len(),
        forall|k: int|
            0 <= k < r.keys@.len() ==> r.counts@[k] as nat == count(
                string_views(items@),
                #[trigger] r.keys@[k]@,
            ),
{
    let ghost all = string_views(items@);
    let mut keys: Vec<String> = Vec::new();
    let mut counts: Vec<usize> = Vec::new();
    let mut i: usize = 0;
    while i < items.len()
        invariant
            i <= items@.len(),
            all == string_views(items@),
            string_views(keys@) == distinct(all.take(i as int)),
            counts@.len() == keys@.len(),
            forall|k: int|
                0 <= k < keys@.len() ==> counts@[k] as nat == count(
                    all.take(i as int),
                    #[trigger] keys@[k]@,
                ),
        decreases items@.len() - i,
    {
        let ghost before = all.take(i as int);
        let ghost after = all.take(i as int + 1);
        assert(after.drop_last() =~= before);
        assert(after.last() == items@[i as int]@);
        proof {
            lemma_distinct_contains(before, items@[i as int]@);
        }
        match find_string(&keys, &items[i]) {
            Some(j) => {
                assert(string_views(keys@)[j as int] == keys@[j as int]@);
                assert forall|k: int| 0 <= k < keys@.len() && k != j implies keys@[k]@ != keys@[
                    j as int]@ by {
                    assert(string_views(keys@)[k] == keys@[k]@);
                }
                assert forall|k: int| 0 <= k < keys@.len() implies count(after, keys@[k]@) == count(
                    before,
                    keys@[k]@,
                ) + if k == j {
                    1nat
                } else {
                    0nat
                } by {}
                proof {
                    lemma_count_bound(before, keys@[j as int]@);
                }
                let c = counts[j] + 1;
                counts.set(j, c);
            },
            None => {
                let ghost old_keys = keys@;
                keys.push(items[i].clone());
                counts.push(1);
                proof {
                    assert(string_views(keys@) =~= string_views(old_keys).push(items@[i as int]@));
                    assert(count(before, items@[i as int]@) == 0) by {
                        lemma_count_zero(before, items@[i as int]@);
                    }
                    assert forall|k: int| 0 <= k < old_keys.len() implies old_keys[k]@ != items@[
                        i as int]@ by {
                        assert(string_views(old_keys)[k] == old_keys[k]@);
                    }
                    assert forall|k: int| 0 <= k < keys@.len() implies count(after, keys@[k]@) == count(
                        before,
                        keys@[k]@,
                    ) + if k == old_keys.len() {
                        1nat
                    } else {
                        0nat
                    } by {}
                }
            },
        }
        i = i + 1;
    }
    assert(all.take(items@.len() as int) =~= all);
    StringTally { keys, counts }
}

/// A value that does not occur is counted zero times.
pub proof fn lemma_count_zero<A>(s: Seq<A>, a: A)
    requires
        !s.contains(a),
    ensures
        count(s, a) == 0,
    decreases s.len(),
{
    if s.len() > 0 {
        assert(s.last() != a) by {
            assert(s[s.len() - 1] == s.last());
        }
        assert(!s.drop_last().contains(a)) by {
            if s.drop_last().contains(a) {
                let k = choose|k: int| 0 <= k < s.drop_last().len() && s.drop_last()[k] == a;
                assert(s[k] == a);
            }
        }
        lemma_count_zero(s.drop_last(), a);
    }
}

/// Counts each distinct day number, listing days in order of first occurrence.
pub fn tally_days(items: &Vec<i64>) -> (r: DayTally)
    ensures
        r.days@ == distinct(items@),
        r.counts@.len() == r.days@.len(),
        forall|k: int|
            0 <= k < r.days@.len() ==> r.counts@[k] as nat == count(items@, #[trigger] r.days@[k]),
{
    let mut days: Vec<i64> = Vec::new();
    let mut counts: Vec<usize> = Vec::new();
    let mut i: usize = 0;
    while i < items.len()
        invariant
            i <= items@.len(),
            days@ == distinct(items@.take(i as int)),
            counts@.len() == days@.len(),
            forall|k: int|
                0 <= k < days@.len() ==> counts@[k] as nat == count(
                    items@.take(i as int),
                    #[trigger] days@[k],
                ),
        decreases items@.len() - i,
    {
        let ghost before = items@.take(i as int);
        let ghost after = items@.take(i as int + 1);
        assert(after.drop_last() =~= before);
        let x = items[i];
        proof {
            lemma_distinct_contains(before, x);
        }
        let mut j: usize = 0;
        while j < days.len() && days[j] != x
            invariant
                j <= days@.len(),
                forall|k: int| 0 <= k < j ==> days@[k] != x,
            decreases days@.len() - j,
        {
            j = j + 1;
        }
        if j < days.len() {
            proof {
                lemma_count_bound(before, x);
            }
            let c = counts[j] + 1;
            counts.set(j, c);
        } else {
            assert(!days@.contains(x));
            let ghost old_days = days@;
            days.push(x);
            counts.push(1);
            proof {
                lemma_count_zero(before, x);
            }
            assert forall|k: int| 0 <= k < old_days.len() implies old_days[k] != x by {
                assert(old_days.contains(old_days[k]));
            }
        }
        i = i + 1;
    }
    assert(items@.take(items@.len() as int) =~= items@);
    DayTally { days, counts }
}

/// Counts the values falling in each of `n` buckets.
pub fn bucket_counts(values: &Vec<usize>, n: usize) -> (r: Vec<usize>)
    requires
        forall|k: int| 0 <= k < values@.len() ==> values@[k] < n,
    ensures
        r@.len() == n,
        forall|b: int| 0 <= b < n ==> r@[b] as nat == count(values@, b as usize),
        total_of(r@) == values@.len(),
{
    let mut r: Vec<usize> = Vec::new();
    let mut b: usize = 0;
    while b < n
        invariant
            b <= n,
            r@.len() == b,
            forall|k: int| 0 <= k < b ==> r@[k] == 0,
        decreases n - b,
    {
        r.push(0);
        b = b + 1;
    }
    let mut i: usize = 0;
    while i < values.len()
        invariant
            i <= values@.len(),
            r@.len() == n,
            forall|k: int| 0 <= k < values@.len() ==> values@[k] < n,
            forall|b: int| 0 <= b < n ==> r@[b] as nat == count(values@.take(i as int), b as usize),
        decreases values@.len() - i,
    {
        let ghost before = values@.take(i as int);
        let ghost after = values@.take(i as int + 1);
        assert(after.drop_last() =~= before);
        let v = values[i];
        proof {
            lemma_count_bound(before, v);
        }
        let c = r[v] + 1;
        r.set(v, c);
        assert forall|b: int| 0 <= b < n implies r@[b] as nat == count(after, b as usize) by {
            assert(count(after, b as usize) == count(before, b as usize) + if v == b as usize {
                1nat
            } else {
                0nat
            });
        }
        i = i + 1;
    }
    assert(values@.take(values@.len() as int) =~= values@);
    proof {
        lemma_counts_total(values@, r@, n as int);
        lemma_bucket_total_all(values@, n as int);
    }
    r
}

/// Sum of a list of counts.
pub open spec fn total_of(v: Seq<usize>) -> int
    decreases v.len(),
{
    if v.len() == 0 {
        0
    } else {
        total_of(v.drop_last()) + v.last() as int
    }
}

/// How many of `values` fall in the buckets below `n`.
pub open spec fn bucket_total(values: Seq<usize>, n: int) -> int
    decreases n,
{
    if n <= 0 {
        0
    } else {
        bucket_total(values, n - 1) + count(values, (n - 1) as usize) as int
    }
}

proof fn lemma_bucket_total_push(w: Seq<usize>, x: usize, n: int)
    requires
        0 <= n <= usize::MAX + 1,
    ensures
        bucket_total(w.push(x), n) == bucket_total(w, n) + if (x as int) < n {
            1int
        } else {
            0int
        },
    decreases n,
{
    assert(w.push(x).drop_last() =~= w);
    if n > 0 {
        lemma_bucket_total_push(w, x, n - 1);
    }
}

proof fn lemma_bucket_total_all(values: Seq<usize>, n: int)
    requires
        0 <= n <= usize::MAX + 1,
        forall|k: int| 0 <= k < values.len() ==> values[k] < n,
    ensures
        bucket_total(values, n) == values.len(),
    decreases values.len(),
{
    if values.len() == 0 {
        lemma_bucket_total_empty(values, n);
    } else {
        let w = values.drop_last();
        assert(w.push(values.last()) =~= values);
        lemma_bucket_total_all(w, n);
        lemma_bucket_total_push(w, values.last(), n);
    }
}

proof fn lemma_bucket_total_empty(values: Seq<usize>, n: int)
    requires
        values.len() == 0,
    ensures
        bucket_total(values, n) == 0,
    decreases n,
{
    if n > 0 {
        lemma_bucket_total_empty(values, n - 1);
    }
}

proof fn lemma_counts_total(values: Seq<usize>, r: Seq<usize>, m: int)
    requires
        r.len() == m,
        forall|b: int| 0 <= b < m ==> r[b] as nat == count(values, b as usize),
    ensures
        total_of(r) == bucket_total(values, m),
    decreases m,
{
    if m > 0 {
        lemma_counts_total(values, r.drop_last(), m - 1);
    }
}

} // verus!
