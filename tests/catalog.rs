use file_catalog::batch::{Batcher, Columns, BATCH_SIZE, BATCH_WINDOW_MS};
use file_catalog::location::{parse_s3_url, resolve_location, Location};
use file_catalog::record::{
    fileinfo_from_entry, fileinfo_from_object, split_key, stored_size, EntryKind, ExtractError,
    FileInfo, FsEntry, ObjectEntry, Timestamp,
};
use file_catalog::upsert::{upsert, StoredRow, UPSERT_SQL};
use file_catalog::session::{
    after_page, default_identifier, failed_roots, flag_setting, identifier_with_host, partition_results,
    run_succeeded, ListingError, ListingStep, Root,
};

const S3_URLS: [(&str, &str, &str); 3] = [
    ("s3://test_bucket/test", "test_bucket", "/test"),
    ("s3://test-bucket", "test-bucket", "/"),
    ("s3://test-bucket_0253/", "test-bucket_0253", "/"),
];

fn ts(secs: i64) -> Timestamp {
    Timestamp { secs, nanos: 0 }
}

fn file(path: &str, name: &str, size: u64) -> FileInfo {
    FileInfo {
        path: path.to_string(),
        filename: name.to_string(),
        mime_type: Some("text/plain".to_string()),
        created: Some(ts(1)),
        modified: ts(2),
        size,
    }
}

#[test]
fn test_parse_s3_url() {
    for (s3_url, bucket, path) in S3_URLS {
        let (parsed_bucket, parsed_path) = parse_s3_url(s3_url).unwrap();
        assert_eq!(parsed_bucket, bucket);
        assert_eq!(parsed_path, path);
    }
}

#[test]
fn parse_s3_url_rejects_other_text() {
    assert_eq!(parse_s3_url("/var/log"), None);
    assert_eq!(parse_s3_url("s3://"), None);
    assert_eq!(parse_s3_url("s3://bad.bucket/x"), None);
    assert_eq!(parse_s3_url("gs://bucket/x"), None);
    assert_eq!(parse_s3_url("s3:/bucket"), None);
}

#[test]
fn root_dispatch() {
    assert_eq!(
        resolve_location("s3://my-bucket/prefix"),
        Location::ObjectStore { bucket: "my-bucket".to_string(), path: "/prefix".to_string() }
    );
    assert_eq!(
        resolve_location("/var/log"),
        Location::Filesystem { path: "/var/log".to_string() }
    );
}

#[test]
fn root_identifiers() {
    let fs = Root::with_host("/var/log", None, "box");
    assert_eq!(fs.identifier, "box:/var/log");
    let s3 = Root::with_host("s3://my-bucket/prefix", None, "box");
    assert_eq!(s3.identifier, "s3://my-bucket/prefix");
    let named = Root::with_host("/var/log", Some("logs"), "box");
    assert_eq!(named.identifier, "logs");
    assert_eq!(identifier_with_host("host", "/data"), "host:/data");
    assert!(default_identifier("/data").ends_with(":/data"));
    let root = Root::new("/data", None);
    assert!(root.identifier.ends_with(":/data"));
    assert_eq!(root.location, Location::Filesystem { path: "/data".to_string() });
}

#[test]
fn batching_by_count() {
    let mut b: Batcher<u32> = Batcher::new();
    let mut sizes = vec![];
    for i in 0..450u32 {
        if let Some(batch) = b.push(i, 0) {
            sizes.push(batch.len());
        }
    }
    if let Some(batch) = b.finish() {
        sizes.push(batch.len());
    }
    assert_eq!(sizes, vec![200, 200, 50]);
    assert_eq!(BATCH_SIZE, 200);
}

#[test]
fn batching_by_time() {
    let mut b: Batcher<u32> = Batcher::new();
    let mut batches = vec![];
    for i in 0..5u32 {
        let now = 2000 * i as u64;
        if let Some(batch) = b.tick(now) {
            batches.push(batch);
        }
        assert_eq!(b.push(i, now), None);
    }
    if let Some(batch) = b.tick(10_000) {
        batches.push(batch);
    }
    assert_eq!(b.finish(), None);
    assert_eq!(batches, vec![vec![0], vec![1], vec![2], vec![3], vec![4]]);
}

#[test]
fn batch_window_and_deadline() {
    let mut b: Batcher<&str> = Batcher::with_limits(3, 100);
    assert_eq!(b.deadline(), None);
    assert_eq!(b.push("a", 50), None);
    assert_eq!(b.deadline(), Some(150));
    assert_eq!(b.push("b", 120), None);
    assert_eq!(b.tick(149), None);
    assert_eq!(b.tick(150), Some(vec!["a", "b"]));
    assert_eq!(b.deadline(), None);
    assert_eq!(b.push("c", 200), None);
    assert_eq!(b.push("d", 201), None);
    assert_eq!(b.push("e", 202), Some(vec!["c", "d", "e"]));
    assert_eq!(b.finish(), None);
    let mut late: Batcher<u8> = Batcher::with_limits(2, 10);
    assert_eq!(late.push(1, u64::MAX - 3), None);
    assert_eq!(late.deadline(), Some(u64::MAX));
    assert_eq!(BATCH_WINDOW_MS, 1000);
}

#[test]
fn size_overflow() {
    assert_eq!(stored_size(u64::MAX), None);
    assert_eq!(stored_size(i64::MAX as u64 + 1), None);
    assert_eq!(stored_size(i64::MAX as u64), Some(i64::MAX));
    assert_eq!(stored_size(10), Some(10));
    let files = vec![file("/a", "big", u64::MAX), file("/a", "small", 10)];
    let c = Columns::from_files(&files);
    assert_eq!(c.sizes, vec![None, Some(10)]);
}

#[test]
fn columns_are_aligned() {
    let mut second = file("/b", "y.png", 7);
    second.mime_type = None;
    second.created = None;
    let files = vec![file("/a", "x.txt", 3), second];
    let c = Columns::from_files(&files);
    assert_eq!(c.len(), 2);
    assert_eq!(c.paths, vec!["/a".to_string(), "/b".to_string()]);
    assert_eq!(c.filenames, vec!["x.txt".to_string(), "y.png".to_string()]);
    assert_eq!(c.mime_types, vec![Some("text/plain".to_string()), None]);
    assert_eq!(c.createds, vec![Some(ts(1)), None]);
    assert_eq!(c.modifieds, vec![ts(2), ts(2)]);
    assert_eq!(c.sizes, vec![Some(3), Some(7)]);
    assert_eq!(Columns::from_files(&vec![]).len(), 0);
}

#[test]
fn split_key_at_last_separator() {
    assert_eq!(
        split_key("/prefix/dir/file.txt"),
        Some(("/prefix/dir".to_string(), "file.txt".to_string()))
    );
    assert_eq!(split_key("dir/"), Some(("dir".to_string(), "".to_string())));
    assert_eq!(split_key("/x"), Some(("".to_string(), "x".to_string())));
    assert_eq!(split_key("plain"), None);
}

#[test]
fn entry_records() {
    let f = fileinfo_from_entry(FsEntry {
        path: "/var/log/notes.txt".to_string(),
        kind: EntryKind::File,
        size: 42,
        created: Some(ts(5)),
        modified: ts(6),
    });
    assert_eq!(f.path, "/var/log");
    assert_eq!(f.filename, "notes.txt");
    assert_eq!(f.mime_type, Some("text/plain".to_string()));
    assert_eq!(f.created, Some(ts(5)));
    assert_eq!(f.modified, ts(6));
    assert_eq!(f.size, 42);

    let d = fileinfo_from_entry(FsEntry {
        path: "/var/log/archive".to_string(),
        kind: EntryKind::Directory,
        size: 4096,
        created: None,
        modified: ts(7),
    });
    assert_eq!(d.mime_type, Some("inode/directory".to_string()));
    assert_eq!(d.created, None);

    let u = fileinfo_from_entry(FsEntry {
        path: "loose.txt".to_string(),
        kind: EntryKind::Unknown,
        size: 1,
        created: None,
        modified: ts(8),
    });
    assert_eq!(u.path, "");
    assert_eq!(u.filename, "loose.txt");
    assert_eq!(u.mime_type, None);

    let top = fileinfo_from_entry(FsEntry {
        path: "/etc".to_string(),
        kind: EntryKind::Directory,
        size: 1,
        created: None,
        modified: ts(8),
    });
    assert_eq!(top.path, "/");
    assert_eq!(top.filename, "etc");

    let n = fileinfo_from_entry(FsEntry {
        path: "/data/README".to_string(),
        kind: EntryKind::File,
        size: 1,
        created: None,
        modified: ts(8),
    });
    assert_eq!(n.mime_type, None);
}

#[test]
fn object_records() {
    let ok = fileinfo_from_object(ObjectEntry {
        key: Some("/prefix/photo.png".to_string()),
        last_modified: Some(ts(9)),
        size: Some(1234),
    })
    .unwrap();
    assert_eq!(ok.path, "/prefix");
    assert_eq!(ok.filename, "photo.png");
    assert_eq!(ok.mime_type, Some("image/png".to_string()));
    assert_eq!(ok.created, None);
    assert_eq!(ok.modified, ts(9));
    assert_eq!(ok.size, 1234);

    let missing_key = ObjectEntry { key: None, last_modified: Some(ts(1)), size: Some(1) };
    assert_eq!(fileinfo_from_object(missing_key).unwrap_err(), ExtractError::MissingKey);
    let flat = ObjectEntry { key: Some("flat.txt".to_string()), last_modified: Some(ts(1)), size: Some(1) };
    let at_root = fileinfo_from_object(flat).unwrap();
    assert_eq!(at_root.path, "");
    assert_eq!(at_root.filename, "flat.txt");
    assert_eq!(at_root.mime_type, Some("text/plain".to_string()));
    let no_time = ObjectEntry { key: Some("a/b".to_string()), last_modified: None, size: Some(1) };
    assert_eq!(fileinfo_from_object(no_time).unwrap_err(), ExtractError::MissingModified);
    let no_size = ObjectEntry { key: Some("a/b".to_string()), last_modified: Some(ts(1)), size: None };
    assert_eq!(fileinfo_from_object(no_size).unwrap_err(), ExtractError::MissingSize);
}

#[test]
fn negative_listed_size_is_stored_absent() {
    let f = fileinfo_from_object(ObjectEntry {
        key: Some("a/b".to_string()),
        last_modified: Some(ts(1)),
        size: Some(-1),
    })
    .unwrap();
    assert_eq!(f.size, u64::MAX);
    assert_eq!(Columns::from_files(&vec![f]).sizes, vec![None]);
}

#[test]
fn listing_steps() {
    assert_eq!(after_page(None, None), Err(ListingError::MissingTruncation));
    assert_eq!(after_page(Some(false), Some("c".to_string())), Ok(ListingStep::Done));
    assert_eq!(after_page(Some(false), None), Ok(ListingStep::Done));
    assert_eq!(after_page(Some(true), None), Err(ListingError::MissingCursor));
    assert_eq!(
        after_page(Some(true), Some("next".to_string())),
        Ok(ListingStep::Next("next".to_string()))
    );
}

#[test]
fn fatal_isolation() {
    let outcomes = vec![true, false];
    assert_eq!(failed_roots(&outcomes), vec![1]);
    assert!(!run_succeeded(&outcomes));
    let all_ok = vec![true, true, true];
    assert_eq!(failed_roots(&all_ok), Vec::<usize>::new());
    assert!(run_succeeded(&all_ok));
    assert!(run_succeeded(&vec![]));
    assert_eq!(failed_roots(&vec![false, true, false]), vec![0, 2]);
}

#[test]
fn partition_keeps_order() {
    let rs: Vec<Result<u8, &str>> = vec![Ok(1), Err("x"), Ok(2), Err("y"), Ok(3)];
    let (good, bad) = partition_results(rs);
    assert_eq!(good, vec![1, 2, 3]);
    assert_eq!(bad, vec!["x", "y"]);
    let (g, b) = partition_results(Vec::<Result<u8, u8>>::new());
    assert!(g.is_empty() && b.is_empty());
}

fn row(mime: &str, created: i64, modified: i64, size: i64) -> StoredRow {
    StoredRow {
        mime_type: Some(mime.to_string()),
        created: Some(ts(created)),
        modified: ts(modified),
        size: Some(size),
    }
}

#[test]
fn unchanged_file_keeps_stored_mime() {
    let stored = row("text/plain", 1, 2, 10);
    let incoming = row("application/octet-stream", 1, 2, 10);
    assert_eq!(upsert(Some(stored), incoming), row("text/plain", 1, 2, 10));
}

#[test]
fn changed_file_overwrites_all_columns() {
    let stored = row("text/plain", 1, 2, 10);
    let incoming = row("text/csv", 1, 3, 20);
    assert_eq!(upsert(Some(stored), incoming), row("text/csv", 1, 3, 20));
    let lost_created = StoredRow { created: None, ..row("text/csv", 1, 2, 10) };
    assert_eq!(
        upsert(Some(row("text/plain", 1, 2, 10)), lost_created),
        StoredRow { created: None, ..row("text/csv", 1, 2, 10) }
    );
}

#[test]
fn absent_against_present_is_a_change() {
    let stored = StoredRow { created: None, ..row("text/plain", 0, 2, 10) };
    assert_eq!(upsert(Some(stored), row("text/csv", 1, 2, 10)), row("text/csv", 1, 2, 10));
    let unsized_row = StoredRow { size: None, ..row("text/plain", 1, 2, 0) };
    assert_eq!(upsert(Some(unsized_row), row("text/csv", 1, 2, 10)), row("text/csv", 1, 2, 10));
}

#[test]
fn new_key_takes_incoming_row() {
    assert_eq!(upsert(None, row("image/png", 4, 5, 6)), row("image/png", 4, 5, 6));
}

#[test]
fn writing_a_crawl_twice_is_stable() {
    let first = upsert(Some(row("text/plain", 1, 2, 10)), row("text/csv", 1, 3, 20));
    let second = upsert(Some(first), row("text/csv", 1, 3, 20));
    assert_eq!(second, row("text/csv", 1, 3, 20));
    assert!(UPSERT_SQL.contains("ON CONFLICT ON CONSTRAINT external_file_unique_constraint"));
    assert!(UPSERT_SQL.contains("IS DISTINCT FROM (EXCLUDED.created, EXCLUDED.modified, EXCLUDED.size)"));
    assert!(!UPSERT_SQL.contains("<>"));
}

#[test]
fn path_style_flag_settings() {
    assert!(flag_setting(Some("true")));
    assert!(flag_setting(Some("TRUE")));
    assert!(flag_setting(Some("1")));
    assert!(!flag_setting(Some("True")));
    assert!(!flag_setting(Some("false")));
    assert!(!flag_setting(Some("0")));
    assert!(!flag_setting(Some("")));
    assert!(!flag_setting(Some("true ")));
    assert!(!flag_setting(None));
}
