use budget_tracker_lib::commands::snapshots::{
    check_restore_name, highest_ordinal, list_snapshots, parse_ordinal, parse_snapshot_file_name,
    pruned_names, rfc3339, sidecar_paths, stamp, unique_snapshot_name, with_suffix, PreImportSnapshot,
    SnapshotEntry, SnapshotName, StampTime, KEEP_NEWEST, PRE_IMPORT_PREFIX,
};
use budget_tracker_lib::error::AppError;
use chrono::{DateTime, Datelike, Timelike, Utc};

fn at(text: &str) -> StampTime {
    let t = DateTime::parse_from_rfc3339(text).unwrap().with_timezone(&Utc);
    StampTime { year: t.year(), month: t.month(), day: t.day(), hour: t.hour(), minute: t.minute(), second: t.second() }
}

/// What a listing of the data directory yields: every name that parses as a
/// safety copy, with its size.
fn entries(files: &[(&str, u64)]) -> Vec<SnapshotEntry> {
    files
        .iter()
        .filter_map(|(name, size)| {
            parse_snapshot_file_name(name).map(|n| SnapshotEntry { name: n, file_name: name.to_string(), size_bytes: *size })
        })
        .collect()
}

fn names(files: &[&str]) -> Vec<String> {
    files.iter().map(|s| s.to_string()).collect()
}

#[test]
fn stamp_is_compact_utc() {
    assert_eq!(stamp(at("2026-08-29T12:30:45+09:00")), "20260829T033045Z");
}

#[test]
fn rfc3339_is_utc_to_the_second() {
    assert_eq!(rfc3339(at("2026-01-02T00:00:00Z")), "2026-01-02T00:00:00Z");
}

#[test]
fn unique_path_uses_the_plain_name_when_free() {
    let name = unique_snapshot_name(&[], PRE_IMPORT_PREFIX, at("2026-08-29T12:30:45Z"));
    assert_eq!(name, "data.db.pre-import-20260829T123045Z");
}

#[test]
fn unique_path_continues_past_the_highest_ordinal_even_after_pruning() {
    let now = at("2026-08-29T12:30:45Z");
    let mut dir = names(&["data.db.pre-import-20260829T123045Z"]);
    assert_eq!(unique_snapshot_name(&dir, PRE_IMPORT_PREFIX, now), "data.db.pre-import-20260829T123045Z-2");

    dir.push("data.db.pre-import-20260829T123045Z-2".into());
    dir.retain(|n| n != "data.db.pre-import-20260829T123045Z");
    assert_eq!(unique_snapshot_name(&dir, PRE_IMPORT_PREFIX, now), "data.db.pre-import-20260829T123045Z-3");

    dir.push("data.db.pre-import-20260829T123045Z-2-journal".into());
    dir.push("data.db.replaced-20260829T123045Z-9".into());
    assert_eq!(unique_snapshot_name(&dir, PRE_IMPORT_PREFIX, now), "data.db.pre-import-20260829T123045Z-3");
}

#[test]
fn highest_ordinal_counts_the_plain_name_as_one() {
    let base = "data.db.pre-import-20260829T123045Z";
    assert_eq!(highest_ordinal(&[], base), 0);
    assert_eq!(highest_ordinal(&names(&[base]), base), 1);
    assert_eq!(highest_ordinal(&names(&[base, "data.db.pre-import-20260829T123045Z-7"]), base), 7);
}

#[test]
fn parse_ordinal_accepts_only_canonical_suffixes() {
    assert_eq!(parse_ordinal(""), Some(1));
    assert_eq!(parse_ordinal("-2"), Some(2));
    assert_eq!(parse_ordinal("-1"), None);
    assert_eq!(parse_ordinal("-02"), None);
    assert_eq!(parse_ordinal("-"), None);
    assert_eq!(parse_ordinal("x"), None);
}

#[test]
fn parse_accepts_plain_and_suffixed_names_in_chronological_order() {
    let plain = parse_snapshot_file_name("data.db.pre-import-20260829T123045Z").unwrap();
    assert_eq!(plain, SnapshotName { created_at: at("2026-08-29T12:30:45Z"), ordinal: 1 });
    let second = parse_snapshot_file_name("data.db.pre-import-20260829T123045Z-2").unwrap();
    assert_eq!(second.ordinal, 2);
    assert!(second > plain);
    let later = parse_snapshot_file_name("data.db.pre-import-20260829T123046Z").unwrap();
    assert!(later > second);
}

#[test]
fn parse_rejects_traversal_sidecars_and_foreign_names() {
    for bad in [
        "",
        "data.db",
        "../x",
        "data.db.pre-import-",
        "data.db.pre-import-2026",
        "data.db.pre-import-20260829T123045Z/../x",
        "data.db.pre-import-20260829T123045Z-journal",
        "data.db.pre-import-20260829T123045Z-0",
        "data.db.pre-import-20260829T123045Z-1",
        "data.db.pre-import-20260829T123045Z-02",
        "data.db.pre-import-20260829T123045Z-",
        "data.db.pre-import-20261329T123045Z",
        "data.db.pre-import-20260829T123045Zx",
        "data.db.corrupt-20260829T123045Z",
        "data.db.pre-import-２０２６0829T123045Z",
    ] {
        assert!(parse_snapshot_file_name(bad).is_none(), "{bad:?}");
    }
}

#[test]
fn list_orders_newest_first_with_sizes() {
    let listed = list_snapshots(entries(&[
        ("data.db.pre-import-20260101T000000Z", 1),
        ("data.db.pre-import-20260102T000000Z-2", 3),
        ("data.db.pre-import-20260102T000000Z", 2),
        ("data.db", 4),
        ("data.db.corrupt-20260103T000000Z", 5),
    ]));
    assert_eq!(
        listed,
        vec![
            PreImportSnapshot { file_name: "data.db.pre-import-20260102T000000Z-2".into(), created_at: "2026-01-02T00:00:00Z".into(), size_bytes: 3 },
            PreImportSnapshot { file_name: "data.db.pre-import-20260102T000000Z".into(), created_at: "2026-01-02T00:00:00Z".into(), size_bytes: 2 },
            PreImportSnapshot { file_name: "data.db.pre-import-20260101T000000Z".into(), created_at: "2026-01-01T00:00:00Z".into(), size_bytes: 1 },
        ]
    );
}

#[test]
fn prune_keeps_the_newest_three_and_ignores_other_files() {
    let files = [
        ("data.db.pre-import-20260101T000000Z", 1),
        ("data.db.pre-import-20260102T000000Z", 1),
        ("data.db.pre-import-20260102T000000Z-2", 1),
        ("data.db.pre-import-20260103T000000Z", 1),
        ("data.db.pre-import-20260103T000000Z-2", 1),
        ("data.db", 4),
        ("data.db.corrupt-20250101T000000Z", 5),
        ("data.db.replaced-20250101T000000Z", 5),
    ];
    let mut removed = pruned_names(entries(&files), KEEP_NEWEST);
    removed.sort();
    assert_eq!(removed, ["data.db.pre-import-20260101T000000Z", "data.db.pre-import-20260102T000000Z"]);

    let remaining: Vec<(&str, u64)> = files.iter().copied().filter(|(n, _)| !removed.iter().any(|r| r == n)).collect();
    let listed: Vec<String> = list_snapshots(entries(&remaining)).into_iter().map(|s| s.file_name).collect();
    assert_eq!(
        listed,
        ["data.db.pre-import-20260103T000000Z-2", "data.db.pre-import-20260103T000000Z", "data.db.pre-import-20260102T000000Z-2"]
    );
    assert!(remaining.iter().any(|(n, _)| *n == "data.db"));
    assert!(remaining.iter().any(|(n, _)| *n == "data.db.corrupt-20250101T000000Z"));
    assert!(remaining.iter().any(|(n, _)| *n == "data.db.replaced-20250101T000000Z"));
}

#[test]
fn prune_with_at_most_keep_copies_removes_nothing() {
    let files = [("data.db.pre-import-20260101T000000Z", 1), ("data.db.pre-import-20260102T000000Z", 1)];
    assert!(pruned_names(entries(&files), KEEP_NEWEST).is_empty());
    assert_eq!(list_snapshots(entries(&files)).len(), 2);
}

#[test]
fn restore_accepts_only_snapshot_names() {
    assert!(check_restore_name("data.db.pre-import-20260101T000000Z").is_ok());
    let err = check_restore_name("../data.db").unwrap_err();
    assert!(matches!(err, AppError::InvalidArgument(_)));
    assert_eq!(err.detail_text().as_str(), "'../data.db' is not a pre-import snapshot name");
}

#[test]
fn sidecars_travel_with_the_database() {
    assert_eq!(with_suffix("/d/data.db", "-wal"), "/d/data.db-wal");
    assert_eq!(sidecar_paths("data.db"), vec!["data.db-journal", "data.db-wal", "data.db-shm"]);
}
