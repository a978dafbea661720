use vstd::prelude::*;

use crate::counts::{ChangeCounts, count_of, sat_add_u32};
use crate::delta::{DeltaKind, PathDelta, delta_wf, path_of};
use crate::tables::{RenameTable, chase, resolve_path};

verus! {

/// One more occurrence counted for `p`, saturating instead of overflowing.
pub open spec fn bump_spec(c: Map<Seq<char>, u32>, p: Seq<char>) -> Map<Seq<char>, u32> {
    c.insert(p, sat_add_u32(count_of(c, p), 1))
}

/// The classification rule applied to one delta: which tables it changes and
/// how.
///
/// Unmodified, ignored, untracked, unreadable and conflicted deltas are
/// discarded. A deletion counts the old path. An addition or a copy counts
/// the new path, and a modification the old path, each resolved through the
/// rename table. A rename or a type change records the new name for the old
/// one and counts the new path, resolved through the renames already
/// recorded before it. Because the table is fed newest-first, every counted
/// path is thereby folded onto the file's newest known name.
pub open spec fn apply_delta(
    ren: Map<Seq<char>, Seq<char>>,
    cnt: Map<Seq<char>, u32>,
    d: PathDelta,
) -> (Map<Seq<char>, Seq<char>>, Map<Seq<char>, u32>) {
    match d.kind {
        DeltaKind::Added | DeltaKind::Copied => (
            ren,
            bump_spec(cnt, resolve_path(ren, path_of(d.new_path))),
        ),
        DeltaKind::Deleted => (ren, bump_spec(cnt, path_of(d.old_path))),
        DeltaKind::Renamed | DeltaKind::Typechange => (
            ren.insert(path_of(d.old_path), path_of(d.new_path)),
            bump_spec(cnt, resolve_path(ren, path_of(d.new_path))),
        ),
        DeltaKind::Modified => (ren, bump_spec(cnt, resolve_path(ren, path_of(d.old_path)))),
        _ => (ren, cnt),
    }
}

/// The rename table and count table after applying a whole delta sequence in
/// order, starting from rename table `ren` and count table `cnt`.
pub open spec fn run_deltas(
    ren: Map<Seq<char>, Seq<char>>,
    cnt: Map<Seq<char>, u32>,
    ds: Seq<PathDelta>,
) -> (Map<Seq<char>, Seq<char>>, Map<Seq<char>, u32>)
    decreases ds.len(),
{
    if ds.len() == 0 {
        (ren, cnt)
    } else {
        let prev = run_deltas(ren, cnt, ds.drop_last());
        apply_delta(prev.0, prev.1, ds.last())
    }
}

fn clone_some(p: &Option<String>) -> (r: String)
    requires
        *p is Some,
    ensures
        r@ == path_of(*p),
{
    match p {
        Some(s) => s.clone(),
        None => {
            proof {
                assert(false);
            }
            String::new()
        },
    }
}

/// Applies one delta to the shared rename table and to this diff's count
/// table, by the classification rule of `apply_delta`.
pub fn process_delta(delta: &PathDelta, renames: &mut RenameTable, changes: &mut ChangeCounts)
    requires
        delta_wf(*delta),
        old(renames).wf(),
        old(changes).wf(),
    ensures
        final(renames).wf(),
        final(changes).wf(),
        final(renames)@ == apply_delta(old(renames)@, old(changes)@, *delta).0,
        final(changes)@ == apply_delta(old(renames)@, old(changes)@, *delta).1,
{
    match delta.kind {
        DeltaKind::Added | DeltaKind::Copied => {
            let p = clone_some(&delta.new_path);
            let resolved = renames.resolve(&p);
            changes.bump(resolved);
        },
        DeltaKind::Deleted => {
            let p = clone_some(&delta.old_path);
            changes.bump(p);
        },
        DeltaKind::Renamed | DeltaKind::Typechange => {
            let old_name = clone_some(&delta.old_path);
            let new_name = clone_some(&delta.new_path);
            let resolved = renames.resolve(&new_name);
            renames.insert(old_name, new_name);
            changes.bump(resolved);
        },
        DeltaKind::Modified => {
            let p = clone_some(&delta.old_path);
            let resolved = renames.resolve(&p);
            changes.bump(resolved);
        },
        _ => {},
    }
}

/// Produces this diff's contribution to the heat map: a count table with one
/// occurrence per counted delta, every counted addition, copy, rename,
/// type change and modification resolved through the shared rename table so
/// that counts land on the newest known names, and the rename table
/// extended with the renames this diff reports.
pub fn get_files_changed(deltas: &Vec<PathDelta>, renames: &mut RenameTable) -> (changes:
    ChangeCounts)
    requires
        old(renames).wf(),
        forall|i: int| 0 <= i < deltas@.len() ==> delta_wf(#[trigger] deltas@[i]),
    ensures
        final(renames).wf(),
        changes.wf(),
        final(renames)@ == run_deltas(old(renames)@, Map::empty(), deltas@).0,
        changes@ == run_deltas(old(renames)@, Map::empty(), deltas@).1,
{
    let ghost ren0 = renames@;
    let mut changes = ChangeCounts::new();
    proof {
        assert(deltas@.take(0) =~= Seq::<PathDelta>::empty());
    }
    let mut i: usize = 0;
    while i < deltas.len()
        invariant
            0 <= i <= deltas@.len(),
            forall|j: int| 0 <= j < deltas@.len() ==> delta_wf(#[trigger] deltas@[j]),
            renames.wf(),
            changes.wf(),
            ren0 == old(renames)@,
            renames@ == run_deltas(ren0, Map::empty(), deltas@.take(i as int)).0,
            changes@ == run_deltas(ren0, Map::empty(), deltas@.take(i as int)).1,
        decreases deltas@.len() - i,
    {
        process_delta(&deltas[i], renames, &mut changes);
        proof {
            assert(deltas@.take(i + 1).drop_last() =~= deltas@.take(i as int));
            assert(deltas@.take(i + 1).last() == deltas@[i as int]);
        }
        i = i + 1;
    }
    proof {
        assert(deltas@.take(deltas@.len() as int) =~= deltas@);
    }
    changes
}

/// Rename chains of length two or more resolve to their terminal name.
///
/// Processing, in newest-first order, a rename of `b` to `c`, then a rename
/// of `a` to `b`, then a modification of `a`, attributes all three events
/// to the terminal path `c` - never to the intermediate name `b` - because
/// by the time each older delta is seen, every rename that happened after
/// it is already recorded, and every counted path is resolved through those
/// records.
pub proof fn lemma_rename_chain_resolves_to_terminal(
    ds: Seq<PathDelta>,
    a: Seq<char>,
    b: Seq<char>,
    c: Seq<char>,
)
    requires
        a != b,
        b != c,
        a != c,
        ds.len() == 3,
        ds[0].kind is Renamed,
        path_of(ds[0].old_path) == b,
        path_of(ds[0].new_path) == c,
        ds[1].kind is Renamed,
        path_of(ds[1].old_path) == a,
        path_of(ds[1].new_path) == b,
        ds[2].kind is Modified,
        path_of(ds[2].old_path) == a,
    ensures
        ({
            let result = run_deltas(Map::empty(), Map::empty(), ds);
            &&& count_of(result.1, c) == 3
            &&& !result.1.contains_key(b)
            &&& !result.1.contains_key(a)
            &&& result.0 == Map::<Seq<char>, Seq<char>>::empty().insert(b, c).insert(a, b)
        }),
{
    let ren0 = Map::<Seq<char>, Seq<char>>::empty();
    let cnt0 = Map::<Seq<char>, u32>::empty();
    let s1 = ds.drop_last().drop_last();
    let s2 = ds.drop_last();
    assert(s1.drop_last() =~= Seq::<PathDelta>::empty());
    assert(s1.last() == ds[0]);
    assert(s2.last() == ds[1]);
    assert(ds.last() == ds[2]);
    assert(run_deltas(ren0, cnt0, Seq::<PathDelta>::empty()) == (ren0, cnt0));

    assert(ren0.dom() =~= Set::<Seq<char>>::empty());
    assert(ren0.dom().len() == 0);
    assert(resolve_path(ren0, c) == c);
    let ren1 = ren0.insert(b, c);
    let cnt1 = bump_spec(cnt0, c);
    assert(run_deltas(ren0, cnt0, s1) == (ren1, cnt1));
    assert(count_of(cnt1, c) == 1);

    assert(ren1.dom() =~= Set::<Seq<char>>::empty().insert(b));
    assert(ren1.dom().len() == 1);
    assert(ren1.contains_key(b) && ren1[b] == c);
    assert(chase(ren1, b, 1) == chase(ren1, c, 0));
    assert(resolve_path(ren1, b) == c);
    let ren2 = ren1.insert(a, b);
    let cnt2 = bump_spec(cnt1, c);
    assert(run_deltas(ren0, cnt0, s2) == (ren2, cnt2));
    assert(count_of(cnt2, c) == 2);

    assert(ren2.dom() =~= Set::<Seq<char>>::empty().insert(b).insert(a));
    assert(ren2.dom().len() == 2);
    assert(resolve_path(ren2, a) == chase(ren2, a, 2));
    assert(ren2.contains_key(a) && ren2[a] == b);
    assert(ren2.contains_key(b) && ren2[b] == c);
    assert(chase(ren2, a, 2) == chase(ren2, b, 1));
    assert(chase(ren2, b, 1) == chase(ren2, c, 0));
    assert(resolve_path(ren2, a) == c);

    let cnt3 = bump_spec(cnt2, c);
    assert(run_deltas(ren0, cnt0, ds) == (ren2, cnt3));
    assert(count_of(cnt3, c) == 3);
    assert(!cnt3.contains_key(b));
    assert(!cnt3.contains_key(a));
}

/// An empty delta sequence leaves the rename table as it is and yields an
/// empty count table: a window that selects no commit produces an empty
/// heat map, not an error.
pub proof fn lemma_empty_selection_yields_empty_table(ren: Map<Seq<char>, Seq<char>>)
    ensures
        run_deltas(ren, Map::empty(), Seq::<PathDelta>::empty()).0 == ren,
        run_deltas(ren, Map::empty(), Seq::<PathDelta>::empty()).1 == Map::<Seq<char>, u32>::empty(),
{
}

} // verus!
