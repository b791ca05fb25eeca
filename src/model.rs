//! The commit records that the engine consumes.
use vstd::prelude::*;

verus! {

/// How a file was changed by a commit, as reported by the diff engine.
#[derive(Clone, Copy, Debug, PartialEq, Eq)]
pub enum ChangeKind {
    Added,
    Modified,
    Deleted,
    Renamed,
    Copied,
    Typechange,
    Unknown,
}

/// A person together with the time and UTC offset at which they acted.
#[derive(Clone, Debug)]
pub struct ActorStamp {
    pub name: String,
    pub email: String,
    /// Seconds since the Unix epoch.
    pub timestamp: i64,
    /// The actor's local offset from UTC, in minutes.
    pub utc_offset_minutes: i32,
}

/// One file touched by a commit.
#[derive(Clone, Debug)]
pub struct FileChange {
    pub path: String,
    pub previous_path: Option<String>,
    pub change_kind: ChangeKind,
}

/// The fact sheet of one commit: identity, message, diff statistics and
/// the files it changed.
#[derive(Clone, Debug)]
pub struct CommitRecord {
    pub hash: String,
    pub parent_hashes: Vec<String>,
    pub author: ActorStamp,
    pub committer: ActorStamp,
    pub summary: String,
    pub body: Option<String>,
    /// As reported by the provider; the engine itself goes by the number
    /// of parents.
    pub is_merge: bool,
    pub signature_verified: bool,
    pub insertions: u64,
    pub deletions: u64,
    pub files_changed_count: u64,
    pub changes: Vec<FileChange>,
}

/// A commit with more than one parent is a merge.
pub open spec fn is_merge_commit(r: CommitRecord) -> bool {
    r.parent_hashes@.len() > 1
}

/// A record whose file count disagrees with its list of changes.
pub open spec fn is_malformed(r: CommitRecord) -> bool {
    r.files_changed_count as int != r.changes@.len()
}

/// The author email of each record, in order.
pub open spec fn author_emails(s: Seq<CommitRecord>) -> Seq<Seq<char>> {
    s.map_values(|r: CommitRecord| r.author.email@)
}

/// The first occurrence of each value, in order of first occurrence.
pub open spec fn distinct<A>(s: Seq<A>) -> Seq<A>
    decreases s.len(),
{
    if s.len() == 0 {
        s
    } else {
        let p = distinct(s.drop_last());
        if p.contains(s.last()) {
            p
        } else {
            p.push(s.last())
        }
    }
}

/// How many times `a` occurs in `s`.
pub open spec fn count<A>(s: Seq<A>, a: A) -> nat
    decreases s.len(),
{
    if s.len() == 0 {
        0
    } else {
        count(s.drop_last(), a) + if s.last() == a {
            1nat
        } else {
            0nat
        }
    }
}

pub proof fn lemma_distinct_contains<A>(s: Seq<A>, a: A)
    ensures
        distinct(s).contains(a) <==> s.contains(a),
        distinct(s).no_duplicates(),
        distinct(s).len() <= s.len(),
    decreases s.len(),
{
    if s.len() > 0 {
        let d = s.drop_last();
        let p = distinct(d);
        lemma_distinct_contains(d, a);
        lemma_distinct_contains(d, s.last());
        assert(s =~= d.push(s.last()));
        assert(s.contains(a) <==> (d.contains(a) || s.last() == a)) by {
            if s.contains(a) {
                let k = choose|k: int| 0 <= k < s.len() && s[k] == a;
                if k < d.len() {
                    assert(d[k] == a);
                }
            }
            if d.contains(a) {
                let k = choose|k: int| 0 <= k < d.len() && d[k] == a;
                assert(s[k] == a);
            }
            assert(s[s.len() - 1] == s.last());
        }
        if !p.contains(s.last()) {
            let q = p.push(s.last());
            assert(q.contains(a) <==> (p.contains(a) || s.last() == a)) by {
                if q.contains(a) {
                    let k = choose|k: int| 0 <= k < q.len() && q[k] == a;
                    if k < p.len() {
                        assert(p[k] == a);
                    }
                }
                if p.contains(a) {
                    let k = choose|k: int| 0 <= k < p.len() && p[k] == a;
                    assert(q[k] == a);
                }
                assert(q[p.len() as int] == s.last());
            }
            assert(q.no_duplicates()) by {
                assert forall|i: int, j: int| 0 <= i < q.len() && 0 <= j < q.len() && i != j implies q[i]
                    != q[j] by {
                    if i < p.len() && j < p.len() {
                        assert(q[i] == p[i] && q[j] == p[j]);
                    } else if i < p.len() {
                        assert(q[i] == p[i]);
                        assert(p.contains(p[i]));
                    } else if j < p.len() {
                        assert(q[j] == p[j]);
                        assert(p.contains(p[j]));
                    }
                }
            }
        }
    }
}

pub proof fn lemma_count_bound<A>(s: Seq<A>, a: A)
    ensures
        count(s, a) <= s.len(),
    decreases s.len(),
{
    if s.len() > 0 {
        lemma_count_bound(s.drop_last(), a);
    }
}

} // verus!
