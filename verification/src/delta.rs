use vstd::prelude::*;

verus! {

/// Classification of one path-level change, mirroring what the repository
/// backend reports for a delta.
#[derive(Clone, Copy, PartialEq, Eq, Structural, Debug)]
pub enum DeltaKind {
    Unmodified,
    Added,
    Deleted,
    Modified,
    Renamed,
    Copied,
    Ignored,
    Untracked,
    Typechange,
    Unreadable,
    Conflicted,
}

/// One reported change between two trees for a single logical path: the path
/// before the change, the path after it, and the kind of change.
pub struct PathDelta {
    pub kind: DeltaKind,
    pub old_path: Option<String>,
    pub new_path: Option<String>,
}

/// The character sequence of an optional path; empty when absent.
pub open spec fn path_of(p: Option<String>) -> Seq<char> {
    match p {
        Some(s) => s@,
        None => Seq::empty(),
    }
}

/// The paths a delta kind requires are present: the new path for an addition
/// or a copy, the old path for a deletion or a modification, and both for a
/// rename or a type change.
pub open spec fn delta_wf(d: PathDelta) -> bool {
    match d.kind {
        DeltaKind::Added | DeltaKind::Copied => d.new_path is Some,
        DeltaKind::Deleted | DeltaKind::Modified => d.old_path is Some,
        DeltaKind::Renamed | DeltaKind::Typechange => d.old_path is Some && d.new_path is Some,
        _ => true,
    }
}

} // verus!
