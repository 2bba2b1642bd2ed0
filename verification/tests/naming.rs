use bgit::resolve::{concat_bytes, local_ref_name, remote_ref_name, default_message,
    message_or_default, resolve_config_value, decide_create};
use bgit::paths::path_relative_to;
use bgit::errors::CommitError;

#[test]
fn concat_bytes_concatenates() {
    let a = b"ab".to_vec();
    let b = b"cd".to_vec();
    assert_eq!(concat_bytes(&a, &b), b"abcd".to_vec());
    assert_eq!(concat_bytes(&Vec::new(), &b), b"cd".to_vec());
    assert_eq!(concat_bytes(&a, &Vec::new()), b"ab".to_vec());
}

#[test]
fn ref_names() {
    assert_eq!(local_ref_name(&b"feature/foo".to_vec()), b"refs/heads/feature/foo".to_vec());
    assert_eq!(remote_ref_name(&b"feature".to_vec()), b"refs/remotes/origin/feature".to_vec());
}

#[test]
fn default_message_text() {
    assert_eq!(default_message(&b"src/x.txt".to_vec()), b"Update src/x.txt".to_vec());
    assert_eq!(
        message_or_default(None, &b"src/x.txt".to_vec()),
        b"Update src/x.txt".to_vec()
    );
    assert_eq!(
        message_or_default(Some(b"custom".to_vec()), &b"src/x.txt".to_vec()),
        b"custom".to_vec()
    );
}

#[test]
fn identity_layering() {
    assert_eq!(
        resolve_config_value(Some(b"Repo Name".to_vec()), Some(b"Global".to_vec())).unwrap(),
        b"Repo Name".to_vec()
    );
    assert_eq!(
        resolve_config_value(None, Some(b"Global".to_vec())).unwrap(),
        b"Global".to_vec()
    );
    assert!(matches!(
        resolve_config_value(None, None),
        Err(CommitError::IdentityMissing)
    ));
}

#[test]
fn creation_decision() {
    assert!(decide_create(true, false).is_ok());
    assert!(matches!(
        decide_create(false, true),
        Err(CommitError::BranchNotFound { track_remote: true })
    ));
    assert!(matches!(
        decide_create(false, false),
        Err(CommitError::BranchNotFound { track_remote: false })
    ));
}

#[test]
fn error_descriptions() {
    assert_eq!(CommitError::EmptyPath.describe(), "empty path");
    assert_eq!(
        CommitError::BranchNotFound { track_remote: true }.describe(),
        "branch not found locally or on origin"
    );
    assert_eq!(
        CommitError::BranchNotFound { track_remote: false }.describe(),
        "branch not found locally"
    );
    assert_eq!(CommitError::InvalidRef.describe(), "ref has no target");
    assert_eq!(
        CommitError::IdentityMissing.describe(),
        "user.name or user.email is not configured"
    );
}

#[test]
fn relative_path_inside_base() {
    let r = path_relative_to(&String::from("/a/b/c.txt"), &String::from("/a"));
    assert_eq!(r, Some(String::from("b/c.txt")));
}

#[test]
fn relative_path_outside_base() {
    let r = path_relative_to(&String::from("/a/b"), &String::from("/c"));
    assert_eq!(r, Some(String::from("../a/b")));
}

#[test]
fn relative_path_impossible() {
    // A relative path has no difference from an absolute base.
    let r = path_relative_to(&String::from("x/y"), &String::from("/a"));
    assert_eq!(r, None);
}
