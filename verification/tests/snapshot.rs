use fs_fixture::FileInfo;
use fs_fixture::Metadata;
use fs_fixture::snapshot::normalize_listing;

fn meta(ino: u64) -> Metadata {
    Metadata {
        dev: 1,
        ino,
        mode: 0o100644,
        uid: 1000,
        gid: 1000,
        nlink: 1,
        rdev: 0,
        mtime: 42,
        file_size: 0,
    }
}

fn rec(path: &[&[u8]], ino: u64) -> FileInfo {
    FileInfo {
        path: path.iter().map(|c| c.to_vec()).collect(),
        metadata: meta(ino),
        contents: Vec::new(),
    }
}

#[test]
fn empty_roots_snapshot_empty() {
    let a = normalize_listing(Vec::new());
    let b = normalize_listing(Vec::new());
    assert!(a.is_empty());
    assert!(b.is_empty());
    assert_eq!(a, b);
}

#[test]
fn root_record_is_dropped() {
    let out = normalize_listing(vec![rec(&[], 9), rec(&[b"a"], 7)]);
    assert_eq!(out.len(), 1);
    assert_eq!(out[0].path, vec![b"a".to_vec()]);
}

#[test]
fn records_sorted_by_component_paths() {
    let out = normalize_listing(vec![
        rec(&[b"b"], 1),
        rec(&[b"a", b"c"], 2),
        rec(&[b"a"], 3),
        rec(&[b"a!"], 4),
    ]);
    let paths: Vec<Vec<Vec<u8>>> = out.iter().map(|r| r.path.clone()).collect();
    assert_eq!(
        paths,
        vec![
            vec![b"a".to_vec()],
            vec![b"a".to_vec(), b"c".to_vec()],
            vec![b"a!".to_vec()],
            vec![b"b".to_vec()],
        ]
    );
}

#[test]
fn inodes_remapped_densely_in_sorted_order() {
    let out = normalize_listing(vec![
        rec(&[b"c"], 500),
        rec(&[b"a"], 100),
        rec(&[b"b"], 500),
    ]);
    // sorted: a (100), b (500), c (500)
    let inos: Vec<u64> = out.iter().map(|r| r.metadata.ino).collect();
    assert_eq!(inos, vec![0, 1, 1]);
}

#[test]
fn isomorphic_link_structure_snapshots_equal() {
    // same hard-link structure, different real inode numbers
    let left = normalize_listing(vec![rec(&[b"a"], 100), rec(&[b"b"], 100), rec(&[b"c"], 200)]);
    let right = normalize_listing(vec![rec(&[b"a"], 77), rec(&[b"b"], 77), rec(&[b"c"], 5)]);
    assert_eq!(left, right);
}

#[test]
fn other_metadata_is_preserved() {
    let mut r = rec(&[b"x"], 33);
    r.contents = b"body".to_vec();
    let out = normalize_listing(vec![r]);
    assert_eq!(out[0].metadata.ino, 0);
    assert_eq!(out[0].metadata.mtime, 42);
    assert_eq!(out[0].metadata.uid, 1000);
    assert_eq!(out[0].contents, b"body".to_vec());
}
