use git_heat::{
    ChangeCounts, CommitInfo, DeltaKind, NormalizedTime, PathDelta, RenameTable,
    commits_in_date_range, get_files_changed, pair_commits,
};

fn table(entries: &[(&str, u32)]) -> ChangeCounts {
    let mut t = ChangeCounts::new();
    for (path, n) in entries {
        t.add(path.to_string(), *n);
    }
    t
}

fn count(t: &ChangeCounts, path: &str) -> u32 {
    t.get_count(&path.to_string())
}

#[test]
fn merge_sums_counts_per_path_in_any_grouping() {
    let t1 = table(&[("a", 1)]);
    let t2 = table(&[("a", 2)]);
    let t3 = table(&[("b", 1)]);

    let left = t1.merge_counts(&t2).merge_counts(&t3);
    let right = t1.merge_counts(&t2.merge_counts(&t3));
    let swapped = t3.merge_counts(&t1).merge_counts(&t2);

    for t in [&left, &right, &swapped] {
        assert_eq!(count(t, "a"), 3);
        assert_eq!(count(t, "b"), 1);
        assert_eq!(t.len(), 2);
    }
}

#[test]
fn merge_with_empty_changes_nothing() {
    let t = table(&[("a", 4), ("b", 7)]);
    let empty = ChangeCounts::new();
    let merged = empty.merge_counts(&t);
    assert_eq!(count(&merged, "a"), 4);
    assert_eq!(count(&merged, "b"), 7);
    assert_eq!(merged.len(), 2);
}

#[test]
fn merge_saturates_instead_of_overflowing() {
    let t1 = table(&[("x", u32::MAX)]);
    let t2 = table(&[("x", 5)]);
    let merged = t1.merge_counts(&t2);
    assert_eq!(count(&merged, "x"), u32::MAX);

    let mut t = table(&[("y", u32::MAX - 1)]);
    t.add("y".to_string(), 3);
    assert_eq!(count(&t, "y"), u32::MAX);
}

#[test]
fn merge_order_independent_for_disjoint_files() {
    // Two diffs touching files with disjoint rename histories: merging
    // their partial tables in either order gives the same final table.
    let deltas_one = vec![
        PathDelta {
            kind: DeltaKind::Renamed,
            old_path: Some("a.txt".to_string()),
            new_path: Some("a2.txt".to_string()),
        },
    ];
    let deltas_two = vec![
        PathDelta {
            kind: DeltaKind::Modified,
            old_path: Some("x.txt".to_string()),
            new_path: Some("x.txt".to_string()),
        },
    ];
    let mut renames = RenameTable::new();
    let first = get_files_changed(&deltas_one, &mut renames);
    let second = get_files_changed(&deltas_two, &mut renames);

    let forward = first.merge_counts(&second);
    let backward = second.merge_counts(&first);
    for t in [&forward, &backward] {
        assert_eq!(count(t, "a2.txt"), 1);
        assert_eq!(count(t, "x.txt"), 1);
        assert_eq!(t.len(), 2);
    }
}

#[test]
fn empty_selection_yields_empty_table() {
    // A window that excludes every commit selects nothing, so the pipeline
    // produces an empty final table, not an error.
    let commits = vec![
        CommitInfo { id: 0, time_seconds: 500, time_offset_minutes: 0 },
        CommitInfo { id: 1, time_seconds: 400, time_offset_minutes: 0 },
    ];
    let from = NormalizedTime { seconds: 0, offset_seconds: 0 };
    let to = NormalizedTime { seconds: 100, offset_seconds: 0 };
    let selected = commits_in_date_range(from, to, &commits);
    assert!(selected.is_empty());

    let pairs = pair_commits(&selected);
    assert!(pairs.is_empty());

    let mut renames = RenameTable::new();
    let mut total = ChangeCounts::new();
    for _pair in &pairs {
        let deltas: Vec<PathDelta> = Vec::new();
        let partial = get_files_changed(&deltas, &mut renames);
        total = total.merge_counts(&partial);
    }
    assert_eq!(total.len(), 0);
}
