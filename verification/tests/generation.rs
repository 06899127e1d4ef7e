use arbitrary::Unstructured;
use fs_fixture::DirBuilder;
use fs_fixture::FileType;
use fs_fixture::GenError;
use fs_fixture::paths::normalize_rel_path;
use fs_fixture::types::all_file_types;

#[test]
fn defaults_enable_every_type() {
    let b = DirBuilder::new();
    assert!(!b.printable_names);
    assert_eq!(b.file_types, all_file_types());
    assert_eq!(b.file_types.len(), 8);
    let d = DirBuilder::default();
    assert_eq!(d.file_types, all_file_types());
}

#[test]
fn builder_setters() {
    let b = DirBuilder::new().printable_names(true).file_types(vec![FileType::Regular]);
    assert!(b.printable_names);
    assert_eq!(b.file_types, vec![FileType::Regular]);
}

#[test]
fn normalization_collapses_dots_and_separators() {
    let out = normalize_rel_path(&b"/a//b/./../c".to_vec());
    assert_eq!(out, vec![b"a".to_vec(), b"c".to_vec()]);
    let out = normalize_rel_path(&b"../../x".to_vec());
    assert_eq!(out, vec![b"x".to_vec()]);
    let out = normalize_rel_path(&b".".to_vec());
    assert!(out.is_empty());
}

#[test]
fn single_regular_file_plan() {
    // one entry named "a", mode 0o644, contents "hi", frozen time 0
    let bytes = [
        1u8, // entry count: 1
        0, 0, // name length 1, letter 'a'
        0, 0, 0, // mtime seconds
        0, 0, 0, 0, // mtime nanoseconds
        1, 164, // mode: 0o644
        1, 0x68, 1, 0x69, 0, // contents "hi"
    ];
    let mut u = Unstructured::new(&bytes);
    let b = DirBuilder::new().printable_names(true).file_types(vec![FileType::Regular]);
    let plan = b.create_plan(&mut u, 0).unwrap();
    assert_eq!(plan.len(), 1);
    assert_eq!(plan[0].path, vec![b"a".to_vec()]);
    assert_eq!(plan[0].kind, FileType::Regular);
    assert_eq!(plan[0].mode, 0o644);
    assert_ne!(plan[0].mode & 0o400, 0);
    assert_eq!(plan[0].contents, b"hi".to_vec());
    assert_eq!(plan[0].mtime_secs, 0);
    assert_eq!(plan[0].mtime_nanos, 0);
}

#[test]
fn first_link_kind_is_coerced_to_regular() {
    let bytes = [1u8, 0, 0, 0, 0, 0, 0, 0, 0, 0, 0, 0, 0];
    let mut u = Unstructured::new(&bytes);
    let b = DirBuilder::new().printable_names(true).file_types(vec![FileType::Symlink]);
    let plan = b.create_plan(&mut u, 0).unwrap();
    assert_eq!(plan.len(), 1);
    assert_eq!(plan[0].kind, FileType::Regular);
}

#[test]
fn hard_link_targets_earlier_entry() {
    let bytes = [
        2u8, // two entries
        0, 0, // name "a"
        0, // kind index 0: Regular
        0, 0, 0, 0, 0, 0, 0, // time
        0, 0, // mode
        0, // empty contents
        0, 1, // name "b"
        1, // kind index 1: HardLink
        0, 0, 0, 0, 0, 0, 0, // time
    ];
    let mut u = Unstructured::new(&bytes);
    let b = DirBuilder::new()
        .printable_names(true)
        .file_types(vec![FileType::Regular, FileType::HardLink]);
    let plan = b.create_plan(&mut u, 0).unwrap();
    assert_eq!(plan.len(), 2);
    assert_eq!(plan[0].kind, FileType::Regular);
    assert_eq!(plan[0].path, vec![b"a".to_vec()]);
    assert_eq!(plan[1].kind, FileType::HardLink);
    assert_eq!(plan[1].path, vec![b"b".to_vec()]);
    assert_eq!(plan[1].target, vec![b"a".to_vec()]);
}

#[test]
fn path_through_file_fails_generation() {
    let bytes = [
        2u8, // two entries
        1, 97, 0, // raw name "a"
        0, 0, 0, 0, 0, 0, 0, // time
        0, 0, // mode
        0, // empty contents
        1, 97, 1, 47, 1, 98, 0, // raw name "a/b"
    ];
    let mut u = Unstructured::new(&bytes);
    let b = DirBuilder::new().file_types(vec![FileType::Regular]);
    let r = b.create_plan(&mut u, 0);
    assert_eq!(r, Err(GenError::FilesystemOperationFailed));
}

#[test]
fn identical_streams_plan_identical_trees() {
    let bytes: Vec<u8> = (0u8..=255).chain(0u8..=255).collect();
    let b1 = DirBuilder::new();
    let b2 = DirBuilder::new();
    let mut u1 = Unstructured::new(&bytes);
    let mut u2 = Unstructured::new(&bytes);
    let p1 = b1.create_plan(&mut u1, 1_700_000_000);
    let p2 = b2.create_plan(&mut u2, 1_700_000_000);
    assert_eq!(p1, p2);
}

#[test]
fn empty_stream_plans_empty_tree() {
    let mut u = Unstructured::new(&[]);
    let plan = DirBuilder::new().create_plan(&mut u, 0).unwrap();
    assert!(plan.is_empty());
}

#[test]
fn generated_paths_never_escape_the_root() {
    // arbitrary byte names full of separators and parent segments
    let bytes: Vec<u8> = vec![
        10, // ask for ten entries
        4, 46, 46, 47, 97, 0, // "../a" and more raw names below
        0, 0, 0, 0, 0, 0, 0, 0, 0, 0, 3, 47, 47, 98, 0, 0, 0, 0, 0, 0, 0, 0, 0, 0, 0, 5, 46,
        46, 47, 46, 99, 0, 0, 0, 0, 0, 0, 0, 0, 0, 0, 0, 7, 1, 2, 3, 4, 5, 6, 7, 0, 0, 0, 0,
        0, 0, 0, 0, 0, 0, 0,
    ];
    let mut u = Unstructured::new(&bytes);
    let b = DirBuilder::new().file_types(vec![FileType::Regular]);
    if let Ok(plan) = b.create_plan(&mut u, 0) {
        for e in &plan {
            assert!(!e.path.is_empty());
            for comp in &e.path {
                assert!(!comp.is_empty());
                assert_ne!(comp, &vec![46u8]);
                assert_ne!(comp, &vec![46u8, 46u8]);
                assert!(!comp.contains(&47u8));
            }
        }
    }
}
