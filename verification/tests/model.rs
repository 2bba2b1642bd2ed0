use bgit::modes::{mode_for_permission_bits, filemode_code, FileMode};
use bgit::store::{Store, Entry, Target};
use bgit::errors::CommitError;

fn comps(parts: &[&str]) -> Vec<Vec<u8>> {
    parts.iter().map(|p| p.as_bytes().to_vec()).collect()
}

fn find<'a>(es: &'a Vec<Entry>, name: &str) -> Option<&'a Entry> {
    es.iter().find(|e| e.name == name.as_bytes().to_vec())
}

#[test]
fn mode_mapping_regular() {
    assert_eq!(mode_for_permission_bits(0o644), FileMode::Regular);
    assert_eq!(mode_for_permission_bits(0o600), FileMode::Regular);
    assert_eq!(mode_for_permission_bits(0), FileMode::Regular);
}

#[test]
fn mode_mapping_executable() {
    assert_eq!(mode_for_permission_bits(0o755), FileMode::Executable);
    assert_eq!(mode_for_permission_bits(0o700), FileMode::Executable);
    assert_eq!(mode_for_permission_bits(0o001), FileMode::Executable);
    assert_eq!(mode_for_permission_bits(0o100), FileMode::Executable);
}

#[test]
fn filemode_codes() {
    assert_eq!(filemode_code(FileMode::Regular), 0o100644);
    assert_eq!(filemode_code(FileMode::Executable), 0o100755);
    assert_eq!(filemode_code(FileMode::Directory), 0o040000);
}

#[test]
fn blob_write_deduplicates() {
    let mut s = Store::new();
    let a = s.write_blob(b"hello".to_vec());
    let b = s.write_blob(b"world".to_vec());
    let c = s.write_blob(b"hello".to_vec());
    assert_eq!(a, c);
    assert_ne!(a, b);
    assert_eq!(s.blobs.len(), 2);
    assert_eq!(s.read_blob(a), &b"hello".to_vec());
}

#[test]
fn tree_write_deduplicates() {
    let mut s = Store::new();
    let b = s.write_blob(b"x".to_vec());
    let e1 = vec![Entry { name: b"a".to_vec(), mode: FileMode::Regular, target: Target::Blob(b) }];
    let e2 = vec![Entry { name: b"a".to_vec(), mode: FileMode::Regular, target: Target::Blob(b) }];
    let t1 = s.write_tree(e1);
    let t2 = s.write_tree(e2);
    assert_eq!(t1, t2);
    assert_eq!(s.trees.len(), 1);
}

#[test]
fn empty_path_is_rejected() {
    let mut s = Store::new();
    let r = s.upsert_path_into_tree(None, &Vec::new(), Target::Blob(0), FileMode::Regular);
    assert!(matches!(r, Err(CommitError::EmptyPath)));
    assert_eq!(s.trees.len(), 0);
}

#[test]
fn empty_path_after_blob_write() {
    let mut s = Store::new();
    let r = s.upsert_file(None, &Vec::new(), b"data".to_vec(), FileMode::Regular);
    assert!(matches!(r, Err(CommitError::EmptyPath)));
    // The blob was written before the path was inspected, as the pipeline
    // writes the file's blob before building trees.
    assert_eq!(s.blobs.len(), 1);
    assert_eq!(s.trees.len(), 0);
}

#[test]
fn three_records() {
    // Base tree = {a.txt}; upsert b/c.txt "hello" regular =>
    // {a.txt unchanged, b/ {c.txt: "hello"}}.
    let mut s = Store::new();
    let a_blob = s.write_blob(b"alpha".to_vec());
    let base = s.write_tree(vec![Entry {
        name: b"a.txt".to_vec(),
        mode: FileMode::Regular,
        target: Target::Blob(a_blob),
    }]);
    let root = s
        .upsert_file(Some(base), &comps(&["b", "c.txt"]), b"hello".to_vec(), FileMode::Regular)
        .unwrap();
    let es = s.read_tree(root).clone();
    assert_eq!(es.len(), 2);
    let a = find(&es, "a.txt").unwrap();
    assert_eq!(a.mode, FileMode::Regular);
    assert_eq!(a.target, Target::Blob(a_blob));
    let b = find(&es, "b").unwrap();
    assert_eq!(b.mode, FileMode::Directory);
    let bt = match b.target {
        Target::Tree(t) => t,
        _ => panic!("b is not a tree"),
    };
    let bes = s.read_tree(bt).clone();
    assert_eq!(bes.len(), 1);
    let c = find(&bes, "c.txt").unwrap();
    assert_eq!(c.mode, FileMode::Regular);
    match c.target {
        Target::Blob(cb) => assert_eq!(s.read_blob(cb), &b"hello".to_vec()),
        _ => panic!("c.txt is not a blob"),
    }
}

#[test]
fn chain_from_empty_base() {
    // Upserting into an empty base creates exactly the chain of
    // directories, each containing only the next element.
    let mut s = Store::new();
    let root = s
        .upsert_file(None, &comps(&["x", "y", "z.bin"]), b"".to_vec(), FileMode::Executable)
        .unwrap();
    let l0 = s.read_tree(root).clone();
    assert_eq!(l0.len(), 1);
    assert_eq!(l0[0].name, b"x".to_vec());
    assert_eq!(l0[0].mode, FileMode::Directory);
    let t1 = match l0[0].target {
        Target::Tree(t) => t,
        _ => panic!(),
    };
    let l1 = s.read_tree(t1).clone();
    assert_eq!(l1.len(), 1);
    assert_eq!(l1[0].name, b"y".to_vec());
    assert_eq!(l1[0].mode, FileMode::Directory);
    let t2 = match l1[0].target {
        Target::Tree(t) => t,
        _ => panic!(),
    };
    let l2 = s.read_tree(t2).clone();
    assert_eq!(l2.len(), 1);
    assert_eq!(l2[0].name, b"z.bin".to_vec());
    assert_eq!(l2[0].mode, FileMode::Executable);
    match l2[0].target {
        Target::Blob(b) => assert_eq!(s.read_blob(b), &b"".to_vec()),
        _ => panic!(),
    }
}

#[test]
fn determinism_of_repeated_upsert() {
    let mut s = Store::new();
    let blob = s.write_blob(b"seed".to_vec());
    let base = s.write_tree(vec![Entry {
        name: b"keep.txt".to_vec(),
        mode: FileMode::Regular,
        target: Target::Blob(blob),
    }]);
    let cs = comps(&["dir", "file.txt"]);
    let r1 = s.upsert_file(Some(base), &cs, b"payload".to_vec(), FileMode::Regular).unwrap();
    let trees_after_first = s.trees.len();
    let blobs_after_first = s.blobs.len();
    let r2 = s.upsert_file(Some(base), &cs, b"payload".to_vec(), FileMode::Regular).unwrap();
    assert_eq!(r1, r2);
    assert_eq!(s.trees.len(), trees_after_first);
    assert_eq!(s.blobs.len(), blobs_after_first);
}

#[test]
fn sibling_invariance_concrete() {
    let mut s = Store::new();
    let b1 = s.write_blob(b"one".to_vec());
    let b2 = s.write_blob(b"two".to_vec());
    let b3 = s.write_blob(b"three".to_vec());
    let base = s.write_tree(vec![
        Entry { name: b"a".to_vec(), mode: FileMode::Regular, target: Target::Blob(b1) },
        Entry { name: b"m".to_vec(), mode: FileMode::Executable, target: Target::Blob(b2) },
        Entry { name: b"z".to_vec(), mode: FileMode::Regular, target: Target::Blob(b3) },
    ]);
    let root = s
        .upsert_file(Some(base), &comps(&["m"]), b"replaced".to_vec(), FileMode::Regular)
        .unwrap();
    let es = s.read_tree(root).clone();
    assert_eq!(es.len(), 3);
    // Entries off the path keep position, mode and target.
    assert_eq!(es[0].name, b"a".to_vec());
    assert_eq!(es[0].mode, FileMode::Regular);
    assert_eq!(es[0].target, Target::Blob(b1));
    assert_eq!(es[2].name, b"z".to_vec());
    assert_eq!(es[2].target, Target::Blob(b3));
    // The upserted entry was replaced in place.
    assert_eq!(es[1].name, b"m".to_vec());
    assert_eq!(es[1].mode, FileMode::Regular);
    match es[1].target {
        Target::Blob(nb) => assert_eq!(s.read_blob(nb), &b"replaced".to_vec()),
        _ => panic!(),
    }
}

#[test]
fn blob_entry_shadowed_by_directory() {
    // A same-named blob entry counts as no subtree: upserting b/c.txt over
    // a base where b is a blob replaces b with a fresh directory.
    let mut s = Store::new();
    let blob = s.write_blob(b"plain".to_vec());
    let base = s.write_tree(vec![Entry {
        name: b"b".to_vec(),
        mode: FileMode::Regular,
        target: Target::Blob(blob),
    }]);
    let root = s
        .upsert_file(Some(base), &comps(&["b", "c.txt"]), b"inner".to_vec(), FileMode::Regular)
        .unwrap();
    let es = s.read_tree(root).clone();
    assert_eq!(es.len(), 1);
    assert_eq!(es[0].name, b"b".to_vec());
    assert_eq!(es[0].mode, FileMode::Directory);
    let bt = match es[0].target {
        Target::Tree(t) => t,
        _ => panic!("b was not replaced by a directory"),
    };
    let bes = s.read_tree(bt).clone();
    assert_eq!(bes.len(), 1);
    assert_eq!(bes[0].name, b"c.txt".to_vec());
}

#[test]
fn unrelated_subtree_handle_is_reused() {
    // Content addressing shares unchanged subtrees: the subtree not on the
    // upsert path keeps its identity in the new root.
    let mut s = Store::new();
    let root1 = s
        .upsert_file(None, &comps(&["lib", "a.rs"]), b"mod a;".to_vec(), FileMode::Regular)
        .unwrap();
    let lib_before = match find(&s.read_tree(root1).clone(), "lib").unwrap().target {
        Target::Tree(t) => t,
        _ => panic!(),
    };
    let root2 = s
        .upsert_file(Some(root1), &comps(&["doc", "b.md"]), b"# b".to_vec(), FileMode::Regular)
        .unwrap();
    let lib_after = match find(&s.read_tree(root2).clone(), "lib").unwrap().target {
        Target::Tree(t) => t,
        _ => panic!(),
    };
    assert_eq!(lib_before, lib_after);
}

#[test]
fn entry_order_is_canonical() {
    // Entries are kept sorted by name, so trees built by upserting the
    // same files in a different order have identical entry lists and
    // identical handles.
    let mut s = Store::new();
    let r1 = s.upsert_file(None, &comps(&["x.txt"]), b"X".to_vec(), FileMode::Regular).unwrap();
    let r2 = s
        .upsert_file(Some(r1), &comps(&["a.txt"]), b"A".to_vec(), FileMode::Regular)
        .unwrap();
    let r3 = s.upsert_file(None, &comps(&["a.txt"]), b"A".to_vec(), FileMode::Regular).unwrap();
    let r4 = s
        .upsert_file(Some(r3), &comps(&["x.txt"]), b"X".to_vec(), FileMode::Regular)
        .unwrap();
    assert_eq!(r2, r4);
    let es = s.read_tree(r2).clone();
    assert_eq!(es.len(), 2);
    assert_eq!(es[0].name, b"a.txt".to_vec());
    assert_eq!(es[1].name, b"x.txt".to_vec());
}
