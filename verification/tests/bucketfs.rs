use bfs::backends::{try_from_entry, Backend, BackendError, Object, RawEntry};
use bfs::fs::{new_attr, BucketFilesystem, BuildError, FileAttr, FileType, FsError};

/// A backend serving a fixed listing and fixed object contents.
struct MockBackend {
    entries: Vec<RawEntry>,
    contents: Vec<(String, Vec<u8>)>,
    fail_listing: bool,
    fail_key: Option<String>,
}

impl MockBackend {
    fn new(entries: Vec<RawEntry>, contents: Vec<(String, Vec<u8>)>) -> Self {
        MockBackend { entries, contents, fail_listing: false, fail_key: None }
    }
}

impl Backend for MockBackend {
    fn list_objects(&self, _bucket_name: &str) -> Result<Vec<RawEntry>, BackendError> {
        if self.fail_listing {
            return Err(BackendError { message: String::from("listing failed") });
        }
        Ok(self.entries.clone())
    }

    fn download_object(&self, _bucket_name: &str, key: &str) -> Result<Vec<u8>, BackendError> {
        if let Some(bad) = &self.fail_key {
            if bad == key {
                return Err(BackendError { message: String::from("download failed") });
            }
        }
        for (name, bytes) in &self.contents {
            if name == key {
                return Ok(bytes.clone());
            }
        }
        Err(BackendError { message: String::from("no such object") })
    }
}

fn entry(name: &str, size: u64, mtime: u64) -> RawEntry {
    RawEntry { key: Some(String::from(name)), size, last_modified: Some(mtime) }
}

fn two_object_fs() -> BucketFilesystem<MockBackend> {
    let backend = MockBackend::new(
        vec![entry("a.txt", 10, 100), entry("b.txt", 20, 200)],
        vec![
            (String::from("a.txt"), b"aaaaaaaaaa".to_vec()),
            (String::from("b.txt"), b"bbbbbbbbbbbbbbbbbbbb".to_vec()),
        ],
    );
    BucketFilesystem::new(String::from("bucket"), backend).unwrap()
}

#[test]
fn all_valid_entries_get_dense_identifiers() {
    let fs = two_object_fs();
    // Exactly N + 1 identifiers for N = 2 valid entries: 1 (root), 2 and 3.
    assert!(fs.getattr(1).is_ok());
    assert!(fs.getattr(2).is_ok());
    assert!(fs.getattr(3).is_ok());
    assert_eq!(fs.getattr(0), Err(FsError::NotFound));
    assert_eq!(fs.getattr(4), Err(FsError::NotFound));
    assert_eq!(fs.getattr(1000), Err(FsError::NotFound));
}

#[test]
fn lookup_agrees_with_directory_listing() {
    let fs = two_object_fs();
    for name in ["a.txt", "b.txt", "/"] {
        let ino = fs.lookup(1, name).unwrap().ino;
        let rows = fs.readdir(1, 0).unwrap();
        assert!(rows.iter().any(|row| row.ino == ino && row.name == name));
    }
}

#[test]
fn getattr_on_unknown_identifier_is_not_found() {
    let fs = two_object_fs();
    assert_eq!(fs.getattr(99), Err(FsError::NotFound));
}

#[test]
fn lookup_requires_root_parent() {
    let fs = two_object_fs();
    assert_eq!(fs.lookup(2, "a.txt"), Err(FsError::NotFound));
    assert_eq!(fs.lookup(1, "missing.txt"), Err(FsError::NotFound));
}

#[test]
fn readdir_on_non_root_is_not_found() {
    let fs = two_object_fs();
    assert!(matches!(fs.readdir(2, 0), Err(FsError::NotFound)));
    assert!(matches!(fs.readdir(7, 0), Err(FsError::NotFound)));
}

#[test]
fn readdir_lists_self_entry_and_every_child() {
    let fs = two_object_fs();
    let rows = fs.readdir(1, 0).unwrap();
    assert_eq!(rows.len(), 3);
    assert_eq!(rows[0].ino, 1);
    assert_eq!(rows[0].name, "/");
    assert_eq!(rows[0].kind, FileType::Directory);
    assert!(rows.iter().any(|r| r.name == "a.txt" && r.ino == 2 && r.kind == FileType::RegularFile));
    assert!(rows.iter().any(|r| r.name == "b.txt" && r.ino == 3 && r.kind == FileType::RegularFile));
}

#[test]
fn readdir_resumes_where_a_full_buffer_paused_it() {
    let fs = two_object_fs();
    let all = fs.readdir(1, 0).unwrap();
    // Consume only the first row, as a transport whose buffer filled would,
    // then resume at that row's offset: the rest must come, nothing dropped.
    let first = &all[0];
    let rest = fs.readdir(1, first.offset).unwrap();
    assert_eq!(rest.len(), all.len() - 1);
    for (i, row) in rest.iter().enumerate() {
        assert_eq!(row.ino, all[i + 1].ino);
        assert_eq!(row.name, all[i + 1].name);
    }
    // Resuming after the second row yields exactly the third.
    let tail = fs.readdir(1, all[1].offset).unwrap();
    assert_eq!(tail.len(), 1);
    assert_eq!(tail[0].ino, all[2].ino);
    // Resuming past the end yields nothing, and is not an error.
    let done = fs.readdir(1, all[2].offset).unwrap();
    assert!(done.is_empty());
}

#[test]
fn invalid_entries_are_skipped_without_consuming_identifiers() {
    let backend = MockBackend::new(
        vec![
            entry("a.txt", 10, 100),
            RawEntry { key: None, size: 5, last_modified: Some(50) },
            RawEntry { key: Some(String::from("late.txt")), size: 6, last_modified: None },
            entry("b.txt", 20, 200),
        ],
        vec![],
    );
    let fs = BucketFilesystem::new(String::from("bucket"), backend).unwrap();
    // The two invalid entries are gone; b.txt takes identifier 3, not 5.
    assert_eq!(fs.lookup(1, "a.txt").unwrap().ino, 2);
    assert_eq!(fs.lookup(1, "b.txt").unwrap().ino, 3);
    assert_eq!(fs.getattr(4), Err(FsError::NotFound));
    assert_eq!(fs.lookup(1, "late.txt"), Err(FsError::NotFound));
}

#[test]
fn read_returns_exactly_the_fetched_bytes() {
    let fs = two_object_fs();
    assert_eq!(fs.read(2, 0, 10).unwrap(), b"aaaaaaaaaa".to_vec());
    assert_eq!(fs.read(3, 0, 20).unwrap(), b"bbbbbbbbbbbbbbbbbbbb".to_vec());
}

#[test]
fn read_on_unknown_identifier_is_not_found() {
    let fs = two_object_fs();
    assert_eq!(fs.read(9, 0, 4096), Err(FsError::NotFound));
    assert_eq!(fs.read(0, 0, 4096), Err(FsError::NotFound));
}

#[test]
fn failed_download_is_an_io_error_and_stays_confined() {
    let mut backend = MockBackend::new(
        vec![entry("a.txt", 10, 100), entry("b.txt", 20, 200)],
        vec![(String::from("b.txt"), b"bb".to_vec())],
    );
    backend.fail_key = Some(String::from("a.txt"));
    let fs = BucketFilesystem::new(String::from("bucket"), backend).unwrap();
    assert_eq!(fs.read(2, 0, 10), Err(FsError::Io));
    // Another identifier remains readable after the failure.
    assert_eq!(fs.read(3, 0, 20).unwrap(), b"bb".to_vec());
    // And the failing one still resolves: the error is I/O, not not-found.
    assert_eq!(fs.read(2, 0, 10), Err(FsError::Io));
}

#[test]
fn accepted_entry_round_trips_through_lookup_and_getattr() {
    let fs = two_object_fs();
    let looked_up = fs.lookup(1, "a.txt").unwrap();
    let attrs = fs.getattr(looked_up.ino).unwrap();
    assert_eq!(attrs.size, 10);
    assert_eq!(attrs.mtime, 100);
    assert_eq!(attrs.kind, FileType::RegularFile);
    assert_eq!(attrs, looked_up);
}

#[test]
fn end_to_end_scenario() {
    let backend = MockBackend::new(
        vec![entry("a.txt", 10, 100), entry("b.txt", 20, 200)],
        vec![(String::from("a.txt"), b"0123456789".to_vec())],
    );
    let fs = BucketFilesystem::new(String::from("bucket"), backend).unwrap();

    let root = fs.getattr(1).unwrap();
    assert_eq!(root.kind, FileType::Directory);
    assert_eq!(root.size, 30);
    assert_eq!(root.mtime, 200);

    let a = fs.getattr(2).unwrap();
    assert_eq!(a.size, 10);
    let b = fs.getattr(3).unwrap();
    assert_eq!(b.size, 20);

    assert_eq!(fs.lookup(1, "a.txt").unwrap().ino, 2);

    let rows = fs.readdir(1, 0).unwrap();
    assert_eq!(rows.len(), 3);

    assert_eq!(fs.read(2, 0, 10).unwrap(), b"0123456789".to_vec());
}

#[test]
fn empty_listing_leaves_only_the_root() {
    let backend = MockBackend::new(vec![], vec![]);
    let fs = BucketFilesystem::new(String::from("bucket"), backend).unwrap();
    let root = fs.getattr(1).unwrap();
    assert_eq!(root.kind, FileType::Directory);
    assert_eq!(root.size, 0);
    assert_eq!(root.mtime, 0);
    assert_eq!(fs.getattr(2), Err(FsError::NotFound));
    assert_eq!(fs.readdir(1, 0).unwrap().len(), 1);
}

#[test]
fn failed_listing_aborts_construction() {
    let mut backend = MockBackend::new(vec![entry("a.txt", 10, 100)], vec![]);
    backend.fail_listing = true;
    let r = BucketFilesystem::new(String::from("bucket"), backend);
    match r {
        Err(BuildError::Backend(e)) => assert_eq!(e.message, "listing failed"),
        _ => panic!("construction must propagate the listing failure"),
    }
}

#[test]
fn duplicate_names_resolve_to_the_last_entry() {
    let backend = MockBackend::new(
        vec![entry("dup.txt", 1, 10), entry("dup.txt", 2, 20)],
        vec![(String::from("dup.txt"), b"x".to_vec())],
    );
    let fs = BucketFilesystem::new(String::from("bucket"), backend).unwrap();
    // Both entries hold identifiers, but the name maps to the later one.
    assert!(fs.getattr(2).is_ok());
    assert!(fs.getattr(3).is_ok());
    assert_eq!(fs.lookup(1, "dup.txt").unwrap().ino, 3);
    // The shadowed identifier no longer resolves to a name, so a read of it
    // is not-found, while the shadowing one reads fine.
    assert_eq!(fs.read(2, 0, 1), Err(FsError::NotFound));
    assert_eq!(fs.read(3, 0, 1).unwrap(), b"x".to_vec());
}

#[test]
fn root_reads_fetch_its_canonical_name() {
    let backend = MockBackend::new(
        vec![entry("a.txt", 10, 100)],
        vec![(String::from("/"), b"rootdata".to_vec())],
    );
    let fs = BucketFilesystem::new(String::from("bucket"), backend).unwrap();
    // The root resolves through the name index like everything else, to its
    // canonical path name.
    assert_eq!(fs.read(1, 0, 8).unwrap(), b"rootdata".to_vec());
}

#[test]
fn block_counts_round_up() {
    let attr = |size| new_attr(5, FileType::RegularFile, size, 0);
    assert_eq!(attr(0).blocks, 0);
    assert_eq!(attr(1).blocks, 1);
    assert_eq!(attr(511).blocks, 1);
    assert_eq!(attr(512).blocks, 1);
    assert_eq!(attr(513).blocks, 2);
    assert_eq!(attr(10).blocks, 1);
    let a = attr(700);
    assert_eq!(a.blocks, 2);
    assert_eq!(a.perm, 0o444);
    assert_eq!(a.nlink, 1);
    assert_eq!(a.blksize, 512);
    assert_eq!(a.ino, 5);
}

#[test]
fn root_size_saturates_instead_of_wrapping() {
    let backend = MockBackend::new(
        vec![entry("big1", u64::MAX - 5, 1), entry("big2", 100, 2)],
        vec![],
    );
    let fs = BucketFilesystem::new(String::from("bucket"), backend).unwrap();
    assert_eq!(fs.getattr(1).unwrap().size, u64::MAX);
}

#[test]
fn try_from_entry_extracts_or_rejects() {
    let ok = try_from_entry(&entry("k", 3, 9)).unwrap();
    assert_eq!(ok.name, "k");
    assert_eq!(ok.size, 3);
    assert_eq!(ok.last_modified, 9);
    assert!(try_from_entry(&RawEntry { key: None, size: 3, last_modified: Some(9) }).is_none());
    assert!(
        try_from_entry(&RawEntry { key: Some(String::from("k")), size: 3, last_modified: None })
            .is_none()
    );
}

#[test]
fn configuration_carries_plain_values() {
    let cfg = bfs::Config {
        source: bfs::SourceOptions { bucket_name: String::from("bucket") },
        filesystem: bfs::FilesystemOptions { mountpoint: String::from("/mnt/bucket") },
        backend: bfs::BackendOptions::Aws(bfs::backends::Options {
            endpoint_uri: Some(String::from("http://localhost:9000")),
        }),
    };
    assert_eq!(cfg.source.bucket_name, "bucket");
    assert_eq!(cfg.filesystem.mountpoint, "/mnt/bucket");
    match cfg.backend {
        bfs::BackendOptions::Aws(opts) => {
            assert_eq!(opts.endpoint_uri.as_deref(), Some("http://localhost:9000"));
        }
    }
}

#[test]
fn attribute_helpers_agree_with_objects() {
    // An Object carries exactly what its attribute record reports.
    let o = Object { name: String::from("x"), size: 1024, last_modified: 77 };
    let attr: FileAttr = new_attr(2, FileType::RegularFile, o.size, o.last_modified);
    assert_eq!(attr.size, 1024);
    assert_eq!(attr.blocks, 2);
    assert_eq!(attr.mtime, 77);
}
