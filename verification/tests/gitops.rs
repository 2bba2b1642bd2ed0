use bgit::git::{resolve_local_branch, resolve_remote_branch, upsert_path_into_repo,
    git_user_name, git_user_email, classify_lookup, RefLookup};
use bgit::modes::FileMode;
use bgit::errors::CommitError;

fn setup(name: &str) -> git2::Repository {
    let nanos = std::time::SystemTime::now()
        .duration_since(std::time::UNIX_EPOCH)
        .unwrap()
        .as_nanos();
    let path = format!("/tmp/bgit-it-{}-{}", name, nanos);
    let repo = git2::Repository::init(&path).unwrap();
    {
        let mut cfg = repo.config().unwrap();
        cfg.set_str("user.name", "Test User").unwrap();
        cfg.set_str("user.email", "test@example.com").unwrap();
    }
    repo
}

fn initial_commit(repo: &git2::Repository) -> (git2::Oid, git2::Oid) {
    let tb = repo.treebuilder(None).unwrap();
    let tree_oid = tb.write().unwrap();
    let tree = repo.find_tree(tree_oid).unwrap();
    let sig = git2::Signature::now("Test User", "test@example.com").unwrap();
    let c = repo
        .commit(Some("refs/heads/main"), &sig, &sig, "init", &tree, &[])
        .unwrap();
    (c, tree_oid)
}

fn comps(parts: &[&str]) -> Vec<Vec<u8>> {
    parts.iter().map(|p| p.as_bytes().to_vec()).collect()
}

#[test]
fn absent_branch_resolves_to_none() {
    let repo = setup("absent");
    assert!(matches!(resolve_local_branch(&repo, &b"feature".to_vec()), Ok(None)));
    assert!(matches!(resolve_remote_branch(&repo, &b"feature".to_vec()), Ok(None)));
}

#[test]
fn local_branch_resolves_to_its_tip() {
    let repo = setup("local");
    let (c, t) = initial_commit(&repo);
    let bi = resolve_local_branch(&repo, &b"main".to_vec()).unwrap().unwrap();
    assert_eq!(bi.commit, c.as_bytes().to_vec());
    assert_eq!(bi.tree, t.as_bytes().to_vec());
}

#[test]
fn identity_comes_from_configuration() {
    let repo = setup("ident");
    assert_eq!(git_user_name(&repo).unwrap(), b"Test User".to_vec());
    assert_eq!(git_user_email(&repo).unwrap(), b"test@example.com".to_vec());
}

#[test]
fn empty_path_is_rejected_against_repo() {
    let repo = setup("empty");
    let blob = repo.blob(b"x").unwrap();
    let r = upsert_path_into_repo(
        &repo,
        None,
        &Vec::new(),
        &blob.as_bytes().to_vec(),
        FileMode::Regular,
    );
    assert!(matches!(r, Err(CommitError::EmptyPath)));
}

#[test]
fn upsert_round_trips_through_real_trees() {
    let repo = setup("roundtrip");
    let blob = repo.blob(b"hello").unwrap();
    let root = upsert_path_into_repo(
        &repo,
        None,
        &comps(&["d", "f.txt"]),
        &blob.as_bytes().to_vec(),
        FileMode::Regular,
    )
    .unwrap();
    let tree = repo.find_tree(git2::Oid::from_bytes(&root).unwrap()).unwrap();
    let d = tree.get_name("d").unwrap();
    assert_eq!(d.filemode(), 0o040000);
    let dt = repo.find_tree(d.id()).unwrap();
    let f = dt.get_name("f.txt").unwrap();
    assert_eq!(f.filemode(), 0o100644);
    let b = repo.find_blob(f.id()).unwrap();
    assert_eq!(b.content(), b"hello");
}

#[test]
fn upsert_merges_into_existing_base() {
    let repo = setup("merge");
    let blob1 = repo.blob(b"one").unwrap();
    let root1 = upsert_path_into_repo(
        &repo,
        None,
        &comps(&["d", "f.txt"]),
        &blob1.as_bytes().to_vec(),
        FileMode::Regular,
    )
    .unwrap();
    let blob2 = repo.blob(b"two").unwrap();
    let root2 = upsert_path_into_repo(
        &repo,
        Some(&root1),
        &comps(&["d", "g.txt"]),
        &blob2.as_bytes().to_vec(),
        FileMode::Executable,
    )
    .unwrap();
    let tree = repo.find_tree(git2::Oid::from_bytes(&root2).unwrap()).unwrap();
    let d = repo.find_tree(tree.get_name("d").unwrap().id()).unwrap();
    let f = d.get_name("f.txt").unwrap();
    let g = d.get_name("g.txt").unwrap();
    assert_eq!(repo.find_blob(f.id()).unwrap().content(), b"one");
    assert_eq!(repo.find_blob(g.id()).unwrap().content(), b"two");
    assert_eq!(g.filemode(), 0o100755);
}

#[test]
fn sibling_blob_is_preserved_in_real_trees() {
    let repo = setup("sibling");
    let keep = repo.blob(b"keep me").unwrap();
    let root1 = upsert_path_into_repo(
        &repo,
        None,
        &comps(&["a.txt"]),
        &keep.as_bytes().to_vec(),
        FileMode::Regular,
    )
    .unwrap();
    let blob = repo.blob(b"new").unwrap();
    let root2 = upsert_path_into_repo(
        &repo,
        Some(&root1),
        &comps(&["b", "c.txt"]),
        &blob.as_bytes().to_vec(),
        FileMode::Regular,
    )
    .unwrap();
    let tree = repo.find_tree(git2::Oid::from_bytes(&root2).unwrap()).unwrap();
    let a = tree.get_name("a.txt").unwrap();
    assert_eq!(a.id(), keep);
    assert_eq!(a.filemode(), 0o100644);
}

#[test]
fn nul_in_component_is_an_error_not_a_panic() {
    let repo = setup("nul");
    let blob = repo.blob(b"x").unwrap();
    let root = upsert_path_into_repo(
        &repo,
        None,
        &comps(&["d", "f.txt"]),
        &blob.as_bytes().to_vec(),
        FileMode::Regular,
    )
    .unwrap();
    let bad = vec![b"a\0b".to_vec(), b"c.txt".to_vec()];
    let r = upsert_path_into_repo(&repo, Some(&root), &bad, &blob.as_bytes().to_vec(), FileMode::Regular);
    assert!(matches!(r, Err(CommitError::Git(_))));
}

#[test]
fn lookup_classification() {
    let id = vec![7u8; 20];
    match classify_lookup(RefLookup::Found(id.clone())) {
        Ok(Some(x)) => assert_eq!(x, id),
        _ => panic!("found target must become the base candidate"),
    }
    assert!(matches!(
        classify_lookup(RefLookup::NoTarget),
        Err(CommitError::InvalidRef)
    ));
    assert!(matches!(classify_lookup(RefLookup::Absent), Ok(None)));
}
