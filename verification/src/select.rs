use vstd::prelude::*;

use crate::time_norm::{NormalizedTime, git2_time_to_offset, valid_commit_time};

verus! {

/// What the library reads of one commit: an identity chosen by the caller
/// (for instance its position in the backend's traversal) and the raw
/// authorship timestamp the backend reports for it.
#[derive(Clone, Copy, PartialEq, Eq, Structural, Debug)]
pub struct CommitInfo {
    /// Caller-chosen identity, used to map a selected commit back to the
    /// backend object it came from.
    pub id: u64,
    /// Authorship time, in seconds since the Unix epoch.
    pub time_seconds: i64,
    /// Offset from UTC of the authorship time, in minutes.
    pub time_offset_minutes: i32,
}

/// A commit belongs to the window `[from, to]` when its timestamp
/// normalizes and, after normalization to UTC, lies between the two bounds
/// inclusively. Normalization never moves the instant, so the comparison is
/// on seconds since epoch alone.
pub open spec fn in_window(from: NormalizedTime, to: NormalizedTime, c: CommitInfo) -> bool {
    &&& valid_commit_time(c.time_seconds, c.time_offset_minutes)
    &&& from.seconds <= c.time_seconds <= to.seconds
}

/// The subsequence of `commits` that belongs to the window, in the order the
/// backend produced it.
pub open spec fn selected_commits(
    from: NormalizedTime,
    to: NormalizedTime,
    commits: Seq<CommitInfo>,
) -> Seq<CommitInfo>
    decreases commits.len(),
{
    if commits.len() == 0 {
        Seq::empty()
    } else {
        let rest = selected_commits(from, to, commits.drop_last());
        if in_window(from, to, commits.last()) {
            rest.push(commits.last())
        } else {
            rest
        }
    }
}

/// Keeps the commits whose authorship time falls inside the inclusive window
/// `[from, to]`, preserving the backend's traversal order.
///
/// A commit whose timestamp cannot be normalized is silently excluded: one
/// malformed timestamp must not abort the traversal of a whole history. An
/// inverted window (`from` after `to`) legitimately selects nothing.
pub fn commits_in_date_range(
    from: NormalizedTime,
    to: NormalizedTime,
    commits: &Vec<CommitInfo>,
) -> (r: Vec<CommitInfo>)
    ensures
        r@ == selected_commits(from, to, commits@),
        forall|i: int| 0 <= i < r@.len() ==> in_window(from, to, #[trigger] r@[i]),
{
    let mut out: Vec<CommitInfo> = Vec::new();
    let mut i: usize = 0;
    while i < commits.len()
        invariant
            0 <= i <= commits@.len(),
            out@ == selected_commits(from, to, commits@.take(i as int)),
            forall|j: int| 0 <= j < out@.len() ==> in_window(from, to, #[trigger] out@[j]),
        decreases commits@.len() - i,
    {
        let c = commits[i];
        match git2_time_to_offset(c.time_seconds, c.time_offset_minutes) {
            Ok(t) => {
                if from.seconds <= t.seconds && t.seconds <= to.seconds {
                    out.push(c);
                }
            },
            Err(_) => {},
        }
        proof {
            assert(commits@.take(i + 1).drop_last() =~= commits@.take(i as int));
            assert(commits@.take(i + 1).last() == commits@[i as int]);
        }
        i = i + 1;
    }
    proof {
        assert(commits@.take(commits@.len() as int) =~= commits@);
    }
    out
}

/// No commit of a sequence in which none belongs to the window is selected.
/// In particular a window that excludes every commit yields an empty
/// selection, not an error.
pub proof fn lemma_empty_window_selects_nothing(
    from: NormalizedTime,
    to: NormalizedTime,
    commits: Seq<CommitInfo>,
)
    requires
        forall|i: int| 0 <= i < commits.len() ==> !in_window(from, to, #[trigger] commits[i]),
    ensures
        selected_commits(from, to, commits) == Seq::<CommitInfo>::empty(),
    decreases commits.len(),
{
    if commits.len() > 0 {
        lemma_empty_window_selects_nothing(from, to, commits.drop_last());
    }
}

/// Pairs each commit of a newest-first sequence with its predecessor: every
/// element but the last pairs with the element after it, and the last (the
/// oldest selected commit) pairs with nothing, signaling a diff against the
/// empty tree.
pub fn pair_commits(commits: &Vec<CommitInfo>) -> (pairs: Vec<(CommitInfo, Option<CommitInfo>)>)
    ensures
        pairs@.len() == commits@.len(),
        forall|i: int| 0 <= i < commits@.len() ==> (#[trigger] pairs@[i]).0 == commits@[i],
        forall|i: int|
            0 <= i < commits@.len() - 1 ==> (#[trigger] pairs@[i]).1 == Some(commits@[i + 1]),
        commits@.len() > 0 ==> pairs@[commits@.len() - 1].1 is None,
{
    let mut pairs: Vec<(CommitInfo, Option<CommitInfo>)> = Vec::new();
    let mut i: usize = 0;
    while i < commits.len()
        invariant
            0 <= i <= commits@.len(),
            pairs@.len() == i,
            forall|j: int| 0 <= j < i ==> (#[trigger] pairs@[j]).0 == commits@[j],
            forall|j: int|
                0 <= j < i && j < commits@.len() - 1 ==> (#[trigger] pairs@[j]).1 == Some(
                    commits@[j + 1],
                ),
            forall|j: int|
                0 <= j < i && j == commits@.len() - 1 ==> (#[trigger] pairs@[j]).1 is None,
        decreases commits@.len() - i,
    {
        let older: Option<CommitInfo> = if i + 1 < commits.len() {
            Some(commits[i + 1])
        } else {
            None
        };
        pairs.push((commits[i], older));
        i = i + 1;
    }
    pairs
}

} // verus!
