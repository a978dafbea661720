use git_heat::{ChangeCounts, DeltaKind, PathDelta, RenameTable, get_files_changed};

fn delta(kind: DeltaKind, old_path: Option<&str>, new_path: Option<&str>) -> PathDelta {
    PathDelta {
        kind,
        old_path: old_path.map(|s| s.to_string()),
        new_path: new_path.map(|s| s.to_string()),
    }
}

fn count(t: &ChangeCounts, path: &str) -> u32 {
    t.get_count(&path.to_string())
}

#[test]
fn added_counts_new_path() {
    let mut renames = RenameTable::new();
    let deltas = vec![delta(DeltaKind::Added, None, Some("a.txt"))];
    let t = get_files_changed(&deltas, &mut renames);
    assert_eq!(count(&t, "a.txt"), 1);
    assert_eq!(t.len(), 1);
}

#[test]
fn copied_counts_new_path() {
    let mut renames = RenameTable::new();
    let deltas = vec![delta(DeltaKind::Copied, Some("a.txt"), Some("b.txt"))];
    let t = get_files_changed(&deltas, &mut renames);
    assert_eq!(count(&t, "b.txt"), 1);
    assert_eq!(count(&t, "a.txt"), 0);
}

#[test]
fn deleted_counts_old_path() {
    let mut renames = RenameTable::new();
    let deltas = vec![delta(DeltaKind::Deleted, Some("gone.txt"), None)];
    let t = get_files_changed(&deltas, &mut renames);
    assert_eq!(count(&t, "gone.txt"), 1);
}

#[test]
fn renamed_records_rename_and_counts_new_path() {
    let mut renames = RenameTable::new();
    let deltas = vec![delta(DeltaKind::Renamed, Some("old.txt"), Some("new.txt"))];
    let t = get_files_changed(&deltas, &mut renames);
    assert_eq!(count(&t, "new.txt"), 1);
    assert_eq!(count(&t, "old.txt"), 0);
    assert_eq!(renames.get(&"old.txt".to_string()), Some("new.txt".to_string()));
}

#[test]
fn typechange_records_rename_and_counts_new_path() {
    let mut renames = RenameTable::new();
    let deltas = vec![delta(DeltaKind::Typechange, Some("link"), Some("file"))];
    let t = get_files_changed(&deltas, &mut renames);
    assert_eq!(count(&t, "file"), 1);
    assert_eq!(renames.get(&"link".to_string()), Some("file".to_string()));
}

#[test]
fn modified_without_rename_counts_old_path() {
    let mut renames = RenameTable::new();
    let deltas = vec![delta(DeltaKind::Modified, Some("a.txt"), Some("a.txt"))];
    let t = get_files_changed(&deltas, &mut renames);
    assert_eq!(count(&t, "a.txt"), 1);
}

#[test]
fn discarded_kinds_count_nothing() {
    let mut renames = RenameTable::new();
    let deltas = vec![
        delta(DeltaKind::Unmodified, Some("a"), Some("a")),
        delta(DeltaKind::Ignored, Some("b"), Some("b")),
        delta(DeltaKind::Untracked, Some("c"), Some("c")),
        delta(DeltaKind::Unreadable, Some("d"), Some("d")),
        delta(DeltaKind::Conflicted, Some("e"), Some("e")),
    ];
    let t = get_files_changed(&deltas, &mut renames);
    assert_eq!(t.len(), 0);
    assert_eq!(renames.get(&"a".to_string()), None);
}

#[test]
fn modified_follows_rename_chain_to_terminal_name() {
    // Newest-first: b was renamed to c, before that a was renamed to b, and
    // before that a was modified: the chain a -> b -> c attributes every
    // event to the terminal name c, never to the intermediate b.
    let mut renames = RenameTable::new();
    let deltas = vec![
        delta(DeltaKind::Renamed, Some("b"), Some("c")),
        delta(DeltaKind::Renamed, Some("a"), Some("b")),
        delta(DeltaKind::Modified, Some("a"), Some("a")),
    ];
    let t = get_files_changed(&deltas, &mut renames);
    assert_eq!(count(&t, "c"), 3);
    assert_eq!(count(&t, "b"), 0);
    assert_eq!(count(&t, "a"), 0);
    assert_eq!(t.len(), 1);
}

#[test]
fn renamed_target_resolves_to_newest_name() {
    // An older rename whose target was itself renamed in a newer commit is
    // counted under the newest name: after rename b -> c, the rename a -> b
    // counts c, so no counted key is a stale intermediate name.
    let mut renames = RenameTable::new();
    let diff_newest = vec![delta(DeltaKind::Renamed, Some("b"), Some("c"))];
    let diff_older = vec![delta(DeltaKind::Renamed, Some("a"), Some("b"))];
    let t1 = get_files_changed(&diff_newest, &mut renames);
    let t2 = get_files_changed(&diff_older, &mut renames);
    let total = t1.merge_counts(&t2);
    assert_eq!(count(&total, "c"), 2);
    assert_eq!(count(&total, "b"), 0);
    assert_eq!(total.len(), 1);
}

#[test]
fn three_commit_scenario_attributes_edits_to_current_name() {
    // Three commits, newest first: the newest renames old.txt to new.txt,
    // the one before modifies old.txt. With one rename table shared across
    // the diffs in commit order, both events attribute to new.txt.
    let mut renames = RenameTable::new();
    let diff_newest = vec![delta(DeltaKind::Renamed, Some("old.txt"), Some("new.txt"))];
    let diff_middle = vec![delta(DeltaKind::Modified, Some("old.txt"), Some("old.txt"))];
    let t1 = get_files_changed(&diff_newest, &mut renames);
    let t2 = get_files_changed(&diff_middle, &mut renames);
    let total = t1.merge_counts(&t2);
    assert_eq!(count(&total, "new.txt"), 2);
    assert_eq!(count(&total, "old.txt"), 0);
    assert_eq!(total.len(), 1);
}

#[test]
fn added_path_resolves_through_recorded_renames() {
    // Three commits, newest first: a rename of old.txt to new.txt, a
    // modification of old.txt, and the addition of old.txt against the
    // empty tree. By the time the oldest commit's addition is processed the
    // rename is already recorded, so the add resolves to new.txt too and
    // the whole history of the file lands on its current name.
    let mut renames = RenameTable::new();
    let diff_newest = vec![delta(DeltaKind::Renamed, Some("old.txt"), Some("new.txt"))];
    let diff_middle = vec![delta(DeltaKind::Modified, Some("old.txt"), Some("old.txt"))];
    let diff_oldest = vec![delta(DeltaKind::Added, None, Some("old.txt"))];
    let t1 = get_files_changed(&diff_newest, &mut renames);
    let t2 = get_files_changed(&diff_middle, &mut renames);
    let t3 = get_files_changed(&diff_oldest, &mut renames);
    let total = t1.merge_counts(&t2).merge_counts(&t3);
    assert_eq!(count(&total, "new.txt"), 3);
    assert_eq!(count(&total, "old.txt"), 0);
    assert_eq!(total.len(), 1);
}

#[test]
fn rename_table_resolves_chains() {
    let mut renames = RenameTable::new();
    renames.insert("b".to_string(), "c".to_string());
    renames.insert("a".to_string(), "b".to_string());
    assert_eq!(renames.resolve(&"a".to_string()), "c".to_string());
    assert_eq!(renames.resolve(&"b".to_string()), "c".to_string());
    assert_eq!(renames.resolve(&"c".to_string()), "c".to_string());
    assert_eq!(renames.resolve(&"unrelated".to_string()), "unrelated".to_string());
}

#[test]
fn rename_table_overwrites_entry_for_same_key() {
    let mut renames = RenameTable::new();
    renames.insert("a".to_string(), "b".to_string());
    renames.insert("a".to_string(), "c".to_string());
    assert_eq!(renames.get(&"a".to_string()), Some("c".to_string()));
}

#[test]
fn rename_table_cyclic_entries_are_safe() {
    // A table with mutually referring entries cannot arise from a
    // newest-first walk, but resolution still terminates on it: it steps at
    // most once per entry and returns the path it then stands on.
    let mut renames = RenameTable::new();
    renames.insert("a".to_string(), "b".to_string());
    renames.insert("b".to_string(), "a".to_string());
    assert_eq!(renames.resolve(&"a".to_string()), "a".to_string());
}

#[test]
fn count_is_zero_for_absent_path() {
    let t = ChangeCounts::new();
    assert_eq!(count(&t, "nowhere"), 0);
    assert_eq!(t.len(), 0);
}
