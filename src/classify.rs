//! Commit-type taxonomy read from the prefix of a commit summary.
//!
//! The recognised types are `feat`, `fix`, `docs`, `refactor` and `chore`;
//! anything else is `Unknown`. The prefix is the text before the first `:`,
//! lowercased, with no trimming: `"Feat: x"` is a feature while `"feat : x"`
//! is unknown.
use vstd::prelude::*;

verus! {

/// Coarse engineering category of a commit.
#[derive(Clone, Copy, Debug, PartialEq, Eq, Structural)]
pub enum CommitType {
    Feat,
    Fix,
    Docs,
    Refactor,
    Chore,
    Unknown,
}

/// Number of commit types, `Unknown` included.
pub const COMMIT_TYPE_COUNT: usize = 6;

/// What `str::to_lowercase` makes of a string.
pub uninterp spec fn lower_of(s: Seq<char>) -> Seq<char>;

/// The characters before the first `:`, or all of them if there is none.
pub open spec fn before_colon(s: Seq<char>) -> Seq<char>
    decreases s.len(),
{
    if s.len() == 0 {
        s
    } else if s[0] == ':' {
        Seq::empty()
    } else {
        seq![s[0]] + before_colon(s.drop_first())
    }
}

/// The category named by an already lowercased prefix.
pub open spec fn type_of_prefix(p: Seq<char>) -> CommitType {
    if p == seq!['f', 'e', 'a', 't'] {
        CommitType::Feat
    } else if p == seq!['f', 'i', 'x'] {
        CommitType::Fix
    } else if p == seq!['d', 'o', 'c', 's'] {
        CommitType::Docs
    } else if p == seq!['r', 'e', 'f', 'a', 'c', 't', 'o', 'r'] {
        CommitType::Refactor
    } else if p == seq!['c', 'h', 'o', 'r', 'e'] {
        CommitType::Chore
    } else {
        CommitType::Unknown
    }
}

/// The category of a commit summary.
pub open spec fn type_of_summary(summary: Seq<char>) -> CommitType {
    type_of_prefix(lower_of(before_colon(summary)))
}

impl CommitType {
    /// Position of the type in histograms.
    pub open spec fn spec_index(self) -> usize {
        match self {
            CommitType::Feat => 0,
            CommitType::Fix => 1,
            CommitType::Docs => 2,
            CommitType::Refactor => 3,
            CommitType::Chore => 4,
            CommitType::Unknown => 5,
        }
    }

    pub fn index(&self) -> (r: usize)
        ensures
            r == self.spec_index(),
            r < COMMIT_TYPE_COUNT,
    {
        match self {
            CommitType::Feat => 0,
            CommitType::Fix => 1,
            CommitType::Docs => 2,
            CommitType::Refactor => 3,
            CommitType::Chore => 4,
            CommitType::Unknown => 5,
        }
    }

    /// The type at a histogram position.
    pub fn from_index(i: usize) -> (r: CommitType)
        requires
            i < COMMIT_TYPE_COUNT,
        ensures
            r.spec_index() == i,
    {
        if i == 0 {
            CommitType::Feat
        } else if i == 1 {
            CommitType::Fix
        } else if i == 2 {
            CommitType::Docs
        } else if i == 3 {
            CommitType::Refactor
        } else if i == 4 {
            CommitType::Chore
        } else {
            CommitType::Unknown
        }
    }

    /// The report label of the type.
    pub fn label(&self) -> (r: String)
        ensures
            r@ == label_of(*self),
    {
        proof {
            reveal_strlit("feat");
            reveal_strlit("fix");
            reveal_strlit("docs");
            reveal_strlit("refactor");
            reveal_strlit("chore");
            reveal_strlit("unknown");
        }
        match self {
            CommitType::Feat => "feat".to_owned(),
            CommitType::Fix => "fix".to_owned(),
            CommitType::Docs => "docs".to_owned(),
            CommitType::Refactor => "refactor".to_owned(),
            CommitType::Chore => "chore".to_owned(),
            CommitType::Unknown => "unknown".to_owned(),
        }
    }
}

/// Report label of each type.
pub open spec fn label_of(t: CommitType) -> Seq<char> {
    match t {
        CommitType::Feat => seq!['f', 'e', 'a', 't'],
        CommitType::Fix => seq!['f', 'i', 'x'],
        CommitType::Docs => seq!['d', 'o', 'c', 's'],
        CommitType::Refactor => seq!['r', 'e', 'f', 'a', 'c', 't', 'o', 'r'],
        CommitType::Chore => seq!['c', 'h', 'o', 'r', 'e'],
        CommitType::Unknown => seq!['u', 'n', 'k', 'n', 'o', 'w', 'n'],
    }
}

/// Relies on `str::split`: the first piece of a split on `:` is the text
/// before the first colon, or the whole string when there is none.
#[verifier::external_body]
fn text_before_colon(s: &str) -> (r: String)
    ensures
        r@ == before_colon(s@),
{
    s.split(':').next().unwrap_or("").to_owned()
}

/// Relies on `str::to_lowercase`: the result depends on the characters alone,
/// and the empty string stays empty.
#[verifier::external_body]
fn lowercase(s: &str) -> (r: String)
    ensures
        r@ == lower_of(s@),
        s@.len() == 0 ==> r@.len() == 0,
{
    s.to_lowercase()
}

/// Category of an already lowercased prefix.
pub fn classify_prefix(prefix: &String) -> (r: CommitType)
    ensures
        r == type_of_prefix(prefix@),
{
    proof {
        reveal_strlit("feat");
        reveal_strlit("fix");
        reveal_strlit("docs");
        reveal_strlit("refactor");
        reveal_strlit("chore");
        assert("feat"@ =~= seq!['f', 'e', 'a', 't']);
        assert("fix"@ =~= seq!['f', 'i', 'x']);
        assert("docs"@ =~= seq!['d', 'o', 'c', 's']);
        assert("refactor"@ =~= seq!['r', 'e', 'f', 'a', 'c', 't', 'o', 'r']);
        assert("chore"@ =~= seq!['c', 'h', 'o', 'r', 'e']);
    }
    if *prefix == "feat".to_owned() {
        CommitType::Feat
    } else if *prefix == "fix".to_owned() {
        CommitType::Fix
    } else if *prefix == "docs".to_owned() {
        CommitType::Docs
    } else if *prefix == "refactor".to_owned() {
        CommitType::Refactor
    } else if *prefix == "chore".to_owned() {
        CommitType::Chore
    } else {
        CommitType::Unknown
    }
}

/// Category of a commit summary: its text before the first `:`, lowercased.
pub fn classify_summary(summary: &String) -> (r: CommitType)
    ensures
        r == type_of_summary(summary@),
{
    let prefix = text_before_colon(summary.as_str());
    let lowered = lowercase(prefix.as_str());
    classify_prefix(&lowered)
}

} // verus!
