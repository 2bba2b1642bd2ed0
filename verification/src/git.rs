use vstd::prelude::*;
use crate::modes::{FileMode, filemode_code, spec_filemode_code, mode_for_permission_bits};
use crate::store::comps_v;
use crate::errors::CommitError;
use crate::resolve::{local_ref_name, remote_ref_name, message_or_default, resolve_config_value,
    decide_create};

verus! {

#[verifier::external_type_specification]
#[verifier::external_body]
pub struct ExRepository(git2::Repository);

#[verifier::external_type_specification]
#[verifier::external_body]
pub struct ExGitError(git2::Error);

#[verifier::external_type_specification]
#[verifier::external_body]
pub struct ExDialoguerError(dialoguer::Error);

/// The number of bytes of an object id.
pub const OID_LEN: usize = 20;

/// The base a new commit builds on: the parent commit and its tree, as raw
/// object ids.
pub struct BaseInfo {
    pub commit: Vec<u8>,
    pub tree: Vec<u8>,
}

/// What a ref lookup found: a direct target, a ref without one, or no ref.
pub enum RefLookup {
    Found(Vec<u8>),
    NoTarget,
    Absent,
}

/// No byte of the name is NUL; no git tree entry name may hold one.
pub open spec fn nul_free(s: Seq<u8>) -> bool {
    forall|k: int| 0 <= k < s.len() ==> s[k] != 0
}

/// Whether the byte string holds a NUL byte.
pub fn has_nul_byte(v: &Vec<u8>) -> (r: bool)
    ensures
        r <==> !nul_free(v@),
{
    let mut i: usize = 0;
    while i < v.len()
        invariant
            i <= v@.len(),
            forall|k: int| 0 <= k < i ==> v@[k] != 0,
        decreases v@.len() - i,
    {
        if v[i] == 0 {
            return true;
        }
        i += 1;
    }
    false
}

/// The view of an optional byte string.
pub open spec fn opt_bytes(b: Option<&Vec<u8>>) -> Option<Seq<u8>> {
    match b {
        Some(v) => Some(v@),
        None => None,
    }
}

/// The id of the tree obtained by taking the entries of the tree named by
/// `base` (none for `None`) and binding the entry `name` to `(target,
/// filemode)`.  Under content addressing this is a function of the
/// arguments alone: a tree id is a digest of the entry list it names.
pub uninterp spec fn upsert_level_of(
    base: Option<Seq<u8>>,
    name: Seq<u8>,
    target: Seq<u8>,
    filemode: int,
) -> Seq<u8>;

/// The id of the tree of the commit named by the argument; under content
/// addressing a function of the commit id alone.
pub uninterp spec fn commit_tree_of(commit: Seq<u8>) -> Seq<u8>;

/// The id of the subtree behind the entry `name` of the tree named by the
/// first argument, for the case that such an entry exists and is itself a
/// tree; under content addressing a function of the two arguments alone.
pub uninterp spec fn tree_child_of(tree: Seq<u8>, name: Seq<u8>) -> Seq<u8>;

/// How many parents the commit named by the argument records; a function
/// of the commit id alone under content addressing.
pub uninterp spec fn commit_parent_count_of(commit: Seq<u8>) -> int;

/// The id of the first parent of the commit named by the argument; a
/// function of the commit id alone under content addressing.
pub uninterp spec fn commit_parent_of(commit: Seq<u8>) -> Seq<u8>;

/// The author field of the commit named by the argument; a function of the
/// commit id alone under content addressing.
pub uninterp spec fn commit_author_of(commit: Seq<u8>) -> Seq<u8>;

/// The committer field of the commit named by the argument; a function of
/// the commit id alone under content addressing.
pub uninterp spec fn commit_committer_of(commit: Seq<u8>) -> Seq<u8>;

/// The message of the commit named by the argument; a function of the
/// commit id alone under content addressing.
pub uninterp spec fn commit_message_of(commit: Seq<u8>) -> Seq<u8>;

/// `id` is the root of a chain of level rebuilds for `comps[i..]` over
/// `base`: the last level binds its component to `(target, leaf_mode)`,
/// and each inner level binds its component, as a directory, to the root
/// of such a chain over a child base that is either the subtree behind
/// the component or absent (an absent, same-named non-tree or unreadable
/// child starts an empty level).
pub open spec fn upsert_chain(
    base: Option<Seq<u8>>,
    comps: Seq<Seq<u8>>,
    i: int,
    target: Seq<u8>,
    leaf_mode: int,
    id: Seq<u8>,
) -> bool
    decreases comps.len() - i,
{
    if i < 0 || i >= comps.len() {
        false
    } else if i + 1 == comps.len() {
        id == upsert_level_of(base, comps[i], target, leaf_mode)
    } else {
        exists|child: Seq<u8>|
            {
                &&& id == #[trigger] upsert_level_of(
                    base,
                    comps[i],
                    child,
                    spec_filemode_code(FileMode::Directory),
                )
                &&& match base {
                    Some(b) => upsert_chain(
                        Some(tree_child_of(b, comps[i])),
                        comps,
                        i + 1,
                        target,
                        leaf_mode,
                        child,
                    ) || upsert_chain(None, comps, i + 1, target, leaf_mode, child),
                    None => upsert_chain(None, comps, i + 1, target, leaf_mode, child),
                }
            }
    }
}

/// Relies on git2's Repository::find_reference and Reference::target: the
/// ref's direct target is an id of 20 bytes; a missing ref is `Absent`, a
/// ref without a direct target is `NoTarget`.
#[verifier::external_body]
fn lookup_ref(repo: &git2::Repository, refname: &Vec<u8>) -> (r: RefLookup)
    ensures
        r matches RefLookup::Found(id) ==> id@.len() == OID_LEN,
{
    match std::str::from_utf8(refname.as_slice()).ok().and_then(|n| repo.find_reference(n).ok()) {
        Some(re) => match re.target() {
            Some(oid) => RefLookup::Found(oid.as_bytes().to_vec()),
            None => RefLookup::NoTarget,
        },
        None => RefLookup::Absent,
    }
}

/// Relies on git2's Repository::find_commit and Commit::tree_id: the id of
/// the tree of the commit named by `commit`, 20 bytes.
#[verifier::external_body]
fn commit_tree_id(repo: &git2::Repository, commit: &Vec<u8>) -> (r: Result<Vec<u8>, git2::Error>)
    ensures
        r matches Ok(t) ==> t@.len() == OID_LEN && t@ == commit_tree_of(commit@),
{
    let c = repo.find_commit(git2::Oid::from_bytes(commit.as_slice())?)?;
    Ok(c.tree_id().as_bytes().to_vec())
}

/// Relies on git2's Repository::branch: creates the local branch `branch`
/// pointing at the commit named by `commit`.  A branch name that is not
/// UTF-8 is converted lossily before creation.
#[verifier::external_body]
fn create_branch(repo: &git2::Repository, branch: &Vec<u8>, commit: &Vec<u8>) -> (r: Result<
    (),
    git2::Error,
>) {
    let c = repo.find_commit(git2::Oid::from_bytes(commit.as_slice())?)?;
    repo.branch(&String::from_utf8_lossy(branch.as_slice()), &c, false)?;
    Ok(())
}

/// Relies on git2's Repository::head, Reference::peel_to_commit and
/// Commit::tree_id: the current head commit and its tree, as ids of 20
/// bytes.
#[verifier::external_body]
fn head_commit_tree(repo: &git2::Repository) -> (r: Result<(Vec<u8>, Vec<u8>), git2::Error>)
    ensures
        r matches Ok(ct) ==> ct.0@.len() == OID_LEN && ct.1@.len() == OID_LEN && ct.1@
            == commit_tree_of(ct.0@),
{
    let head = repo.head()?;
    let commit = head.peel_to_commit()?;
    Ok((commit.id().as_bytes().to_vec(), commit.tree_id().as_bytes().to_vec()))
}

/// Relies on git2's Repository::blob_path: reads the file at `path` into
/// the object store and returns the blob's id of 20 bytes.
#[verifier::external_body]
fn blob_from_path(repo: &git2::Repository, path: &String) -> (r: Result<Vec<u8>, git2::Error>)
    ensures
        r matches Ok(b) ==> b@.len() == OID_LEN,
{
    let oid = repo.blob_path(std::path::Path::new(path.as_str()))?;
    Ok(oid.as_bytes().to_vec())
}

/// Relies on git2's Tree::get_name_bytes, TreeEntry::to_object and
/// Object::as_tree: the id of the subtree behind `name` in the tree named
/// by `tree`.  `None` covers an absent entry, a same-named non-tree entry,
/// and an entry whose object cannot be read — the resolution deliberately
/// treats all three as "no subtree", as loading is retried at the next
/// write anyway.  A name holding a NUL byte is excluded: git2 aborts on it
/// instead of returning.
#[verifier::external_body]
fn tree_child_id(repo: &git2::Repository, tree: &Vec<u8>, name: &Vec<u8>) -> (r: Result<
    Option<Vec<u8>>,
    git2::Error,
>)
    requires
        nul_free(name@),
    ensures
        r matches Ok(c) ==> (c matches Some(id) ==> id@.len() == OID_LEN && id@ == tree_child_of(
            tree@,
            name@,
        )),
{
    let t = repo.find_tree(git2::Oid::from_bytes(tree.as_slice())?)?;
    let r = match t.get_name_bytes(name.as_slice()) {
        Some(entry) => match entry.to_object(repo) {
            Ok(obj) => obj.as_tree().map(|st| st.id().as_bytes().to_vec()),
            Err(_) => None,
        },
        None => None,
    };
    Ok(r)
}

/// Relies on git2's Repository::treebuilder, TreeBuilder::insert and
/// TreeBuilder::write: rebuilds one tree level from the optional base
/// tree, with the entry `name` replaced by or added as `(target,
/// filemode)`, and returns the id of the written tree: 20 bytes, and a
/// function of the arguments alone under content addressing.  A NUL in
/// `name` or a malformed mode is refused by the insert as an error.
#[verifier::external_body]
fn write_tree_upsert(
    repo: &git2::Repository,
    base: Option<&Vec<u8>>,
    name: &Vec<u8>,
    target: &Vec<u8>,
    filemode: i32,
) -> (r: Result<Vec<u8>, git2::Error>)
    ensures
        r matches Ok(id) ==> id@.len() == OID_LEN && id@ == upsert_level_of(
            opt_bytes(base),
            name@,
            target@,
            filemode as int,
        ),
{
    let base_tree = match base {
        Some(b) => Some(repo.find_tree(git2::Oid::from_bytes(b.as_slice())?)?),
        None => None,
    };
    let mut tb = repo.treebuilder(base_tree.as_ref())?;
    tb.insert(name.as_slice(), git2::Oid::from_bytes(target.as_slice())?, filemode)?;
    Ok(tb.write()?.as_bytes().to_vec())
}

/// Relies on git2's Signature::now and Repository::commit: writes a commit
/// with the given tree, single parent, identical author and committer, and
/// message, moves `refname` to it, and returns its id, 20 bytes.  The
/// written commit records exactly what was handed in, so of the returned
/// id: its tree is `tree`, its sole parent is `parent`, its author and
/// committer fields are the same signature, and its message is exactly the
/// bytes of `message` — a message that is not UTF-8 is refused as an
/// error rather than altered.
#[verifier::external_body]
fn write_commit(
    repo: &git2::Repository,
    refname: &Vec<u8>,
    name: &Vec<u8>,
    email: &Vec<u8>,
    message: &Vec<u8>,
    tree: &Vec<u8>,
    parent: &Vec<u8>,
) -> (r: Result<Vec<u8>, git2::Error>)
    ensures
        r matches Ok(id) ==> id@.len() == OID_LEN && commit_tree_of(id@) == tree@
            && commit_parent_count_of(id@) == 1 && commit_parent_of(id@) == parent@
            && commit_author_of(id@) == commit_committer_of(id@) && commit_message_of(id@)
            == message@,
{
    let sig = git2::Signature::now(
        &String::from_utf8_lossy(name.as_slice()),
        &String::from_utf8_lossy(email.as_slice()),
    )?;
    let t = repo.find_tree(git2::Oid::from_bytes(tree.as_slice())?)?;
    let p = repo.find_commit(git2::Oid::from_bytes(parent.as_slice())?)?;
    let rn = String::from_utf8_lossy(refname.as_slice()).into_owned();
    let msg = std::str::from_utf8(message.as_slice())
        .map_err(|_| git2::Error::from_str("commit message is not valid UTF-8"))?;
    let oid = repo.commit(Some(&rn), &sig, &sig, msg, &t, &[&p])?;
    Ok(oid.as_bytes().to_vec())
}

/// Relies on git2's Repository::config and Config::get_string: the string
/// under `key` in the configuration visible to the repository (its own
/// scope layered over the global ones), or `None` when absent or
/// unreadable.
#[verifier::external_body]
fn config_string_repo(repo: &git2::Repository, key: &str) -> (r: Option<Vec<u8>>) {
    repo.config().ok().and_then(|c| c.get_string(key).ok()).map(|s| s.into_bytes())
}

/// Relies on git2's Config::open_default and Config::get_string: the
/// global string under `key`, or `None` when absent or unreadable.
#[verifier::external_body]
fn config_string_global(key: &str) -> (r: Option<Vec<u8>>) {
    git2::Config::open_default().ok().and_then(|c| c.get_string(key).ok()).map(|s| s.into_bytes())
}

/// Relies on dialoguer's Confirm: asks interactively whether the branch
/// should be created from the current head, with yes as the default.
#[verifier::external_body]
fn confirm_create_branch(branch: &Vec<u8>) -> (r: Result<bool, dialoguer::Error>) {
    dialoguer::Confirm::new()
        .with_prompt(format!(
            "Branch '{}' does not exist. Create it from HEAD?",
            String::from_utf8_lossy(branch.as_slice()),
        ))
        .default(true)
        .interact()
}

/// What the resolver decides from one ref lookup: a found target is the
/// candidate base commit, a ref without a direct target is `InvalidRef`,
/// and an absent ref means this resolver case does not apply.
pub fn classify_lookup(l: RefLookup) -> (r: Result<Option<Vec<u8>>, CommitError>)
    ensures
        l matches RefLookup::Found(id) ==> (r matches Ok(o) && o matches Some(x) && x == id),
        l matches RefLookup::NoTarget ==> (r matches Err(e) && e matches CommitError::InvalidRef),
        l matches RefLookup::Absent ==> (r matches Ok(o) && o is None),
{
    match l {
        RefLookup::Found(id) => Ok(Some(id)),
        RefLookup::NoTarget => Err(CommitError::InvalidRef),
        RefLookup::Absent => Ok(None),
    }
}

/// First resolver case: the local branch, when it exists.  A hit returns
/// the tip commit and its tree; a local ref without a direct target is
/// `InvalidRef`; any other failure is the store's.  The decision over the
/// lookup's three outcomes is `classify_lookup`'s contract.
pub fn resolve_local_branch(repo: &git2::Repository, branch: &Vec<u8>) -> (r: Result<
    Option<BaseInfo>,
    CommitError,
>)
    ensures
        r matches Ok(b) ==> (b matches Some(bi) ==> bi.commit@.len() == OID_LEN && bi.tree@.len()
            == OID_LEN && bi.tree@ == commit_tree_of(bi.commit@)),
        r matches Err(e) ==> ((e matches CommitError::Git(_)) || (e
            matches CommitError::InvalidRef)),
{
    let refname = local_ref_name(branch);
    let oid = match classify_lookup(lookup_ref(repo, &refname)) {
        Ok(Some(oid)) => oid,
        Ok(None) => {
            return Ok(None);
        },
        Err(e) => {
            return Err(e);
        },
    };
    match commit_tree_id(repo, &oid) {
        Ok(tree) => Ok(Some(BaseInfo { commit: oid, tree })),
        Err(e) => Err(CommitError::Git(e)),
    }
}

/// Second resolver case: the remote-tracking branch `origin/branch`, when
/// it exists.  On a hit, a local branch is created at the remote tip, so
/// the later commit can move it, and the remote tip commit and its tree
/// are the base.  The caller refreshes remote refs beforehand if it wants
/// to.  The decision over the lookup's three outcomes is
/// `classify_lookup`'s contract.
pub fn resolve_remote_branch(repo: &git2::Repository, branch: &Vec<u8>) -> (r: Result<
    Option<BaseInfo>,
    CommitError,
>)
    ensures
        r matches Ok(b) ==> (b matches Some(bi) ==> bi.commit@.len() == OID_LEN && bi.tree@.len()
            == OID_LEN && bi.tree@ == commit_tree_of(bi.commit@)),
        r matches Err(e) ==> ((e matches CommitError::Git(_)) || (e
            matches CommitError::InvalidRef)),
{
    let refname = remote_ref_name(branch);
    let oid = match classify_lookup(lookup_ref(repo, &refname)) {
        Ok(Some(oid)) => oid,
        Ok(None) => {
            return Ok(None);
        },
        Err(e) => {
            return Err(e);
        },
    };
    match create_branch(repo, branch, &oid) {
        Ok(_u) => {},
        Err(e) => {
            return Err(CommitError::Git(e));
        },
    }
    match commit_tree_id(repo, &oid) {
        Ok(tree) => Ok(Some(BaseInfo { commit: oid, tree })),
        Err(e) => Err(CommitError::Git(e)),
    }
}

/// Last resolver case: the branch exists nowhere, so ask for confirmation
/// and create it from the current head; a declined prompt is
/// `BranchNotFound` and creates nothing.  A hit returns the head commit
/// and its tree.
pub fn resolve_from_head(repo: &git2::Repository, branch: &Vec<u8>, track_remote: bool) -> (r:
    Result<BaseInfo, CommitError>)
    ensures
        r matches Ok(bi) ==> bi.commit@.len() == OID_LEN && bi.tree@.len() == OID_LEN && bi.tree@
            == commit_tree_of(bi.commit@),
        r matches Err(e) ==> ((e matches CommitError::Prompt(_)) || (e
            matches CommitError::BranchNotFound { .. }) || (e matches CommitError::Git(_))),
{
    let confirmed = match confirm_create_branch(branch) {
        Ok(c) => c,
        Err(e) => {
            return Err(CommitError::Prompt(e));
        },
    };
    match decide_create(confirmed, track_remote) {
        Ok(_u) => {},
        Err(e) => {
            return Err(e);
        },
    }
    let ct = match head_commit_tree(repo) {
        Ok(ct) => ct,
        Err(e) => {
            return Err(CommitError::Git(e));
        },
    };
    match create_branch(repo, branch, &ct.0) {
        Ok(_u) => {},
        Err(e) => {
            return Err(CommitError::Git(e));
        },
    }
    Ok(BaseInfo { commit: ct.0, tree: ct.1 })
}

/// The committer's name: repository configuration first, then global; a
/// value absent at both scopes is `IdentityMissing`, and nothing else
/// fails.
pub fn git_user_name(repo: &git2::Repository) -> (r: Result<Vec<u8>, CommitError>)
    ensures
        r matches Err(e) ==> e matches CommitError::IdentityMissing,
{
    let repo_val = config_string_repo(repo, "user.name");
    match repo_val {
        Some(v) => Ok(v),
        None => resolve_config_value(None, config_string_global("user.name")),
    }
}

/// The committer's email: repository configuration first, then global; a
/// value absent at both scopes is `IdentityMissing`, and nothing else
/// fails.
pub fn git_user_email(repo: &git2::Repository) -> (r: Result<Vec<u8>, CommitError>)
    ensures
        r matches Err(e) ==> e matches CommitError::IdentityMissing,
{
    let repo_val = config_string_repo(repo, "user.email");
    match repo_val {
        Some(v) => Ok(v),
        None => resolve_config_value(None, config_string_global("user.email")),
    }
}

/// The tree upsert against the repository's object store: descend along
/// `comps[i..]` (an absent or non-tree entry starts an empty level),
/// rebuild one tree per level on the way back up through the store's tree
/// writer, and return the id of the rebuilt root.  On success the root is
/// the content-addressed rebuild of its level: the base level with
/// `comps[i]` bound to the leaf target, or, deeper down, to the rebuilt
/// child tree.  Every failure is the store's.  The store model and its
/// laws state what the rebuild computes level by level.
pub fn upsert_components_git(
    repo: &git2::Repository,
    base: Option<&Vec<u8>>,
    comps: &Vec<Vec<u8>>,
    i: usize,
    target: &Vec<u8>,
    mode: FileMode,
) -> (r: Result<Vec<u8>, CommitError>)
    requires
        i < comps@.len(),
    ensures
        r matches Ok(id) ==> id@.len() == OID_LEN && upsert_chain(
            opt_bytes(base),
            comps_v(comps@),
            i as int,
            target@,
            spec_filemode_code(mode),
            id@,
        ),
        r matches Err(e) ==> e matches CommitError::Git(_),
    decreases comps@.len() - i,
{
    let n = comps.len();
    let name = &comps[i];
    if i + 1 == n {
        match write_tree_upsert(repo, base, name, target, filemode_code(mode)) {
            Ok(id) => {
                proof {
                    assert(comps_v(comps@)[i as int] == comps@[i as int]@);
                }
                Ok(id)
            },
            Err(e) => Err(CommitError::Git(e)),
        }
    } else {
        let child_base: Option<Vec<u8>> = match base {
            Some(b) => {
                if has_nul_byte(name) {
                    // No tree entry can carry a NUL in its name, so there
                    // is no subtree to descend into; the later insert of
                    // such a name is refused by the store.
                    None
                } else {
                    match tree_child_id(repo, b, name) {
                        Ok(c) => c,
                        Err(e) => {
                            return Err(CommitError::Git(e));
                        },
                    }
                }
            },
            None => None,
        };
        let child_base_ref: Option<&Vec<u8>> = child_base.as_ref();
        let ghost cbv = opt_bytes(child_base_ref);
        let child = match upsert_components_git(repo, child_base_ref, comps, i + 1, target, mode) {
            Ok(c) => c,
            Err(e) => {
                return Err(e);
            },
        };
        match write_tree_upsert(repo, base, name, &child, filemode_code(FileMode::Directory)) {
            Ok(id) => {
                proof {
                    let cs = comps_v(comps@);
                    assert(cs.len() == comps@.len());
                    assert(cs[i as int] == comps@[i as int]@);
                    assert((i + 1) as int == i as int + 1);
                    assert(upsert_chain(cbv, cs, i as int + 1, target@, spec_filemode_code(mode), child@));
                    assert(match opt_bytes(base) {
                        Some(b) => upsert_chain(
                            Some(tree_child_of(b, cs[i as int])),
                            cs,
                            i as int + 1,
                            target@,
                            spec_filemode_code(mode),
                            child@,
                        ) || upsert_chain(
                            None,
                            cs,
                            i as int + 1,
                            target@,
                            spec_filemode_code(mode),
                            child@,
                        ),
                        None => upsert_chain(
                            None,
                            cs,
                            i as int + 1,
                            target@,
                            spec_filemode_code(mode),
                            child@,
                        ),
                    });
                    assert(id@ == upsert_level_of(
                        opt_bytes(base),
                        cs[i as int],
                        child@,
                        spec_filemode_code(FileMode::Directory),
                    ));
                    assert(upsert_chain(
                        opt_bytes(base),
                        cs,
                        i as int,
                        target@,
                        spec_filemode_code(mode),
                        id@,
                    ));
                }
                Ok(id)
            },
            Err(e) => Err(CommitError::Git(e)),
        }
    }
}

/// The upsert entry point against the repository: an empty component list
/// is `EmptyPath` and touches nothing; on a nonempty path every failure is
/// the store's, and success returns the content-addressed rebuild of the
/// root level.
pub fn upsert_path_into_repo(
    repo: &git2::Repository,
    base: Option<&Vec<u8>>,
    comps: &Vec<Vec<u8>>,
    target: &Vec<u8>,
    mode: FileMode,
) -> (r: Result<Vec<u8>, CommitError>)
    ensures
        comps@.len() == 0 ==> (r matches Err(e) && e matches CommitError::EmptyPath),
        comps@.len() > 0 ==> (r matches Err(e) ==> e matches CommitError::Git(_)),
        r matches Ok(id) ==> id@.len() == OID_LEN && comps@.len() > 0 && upsert_chain(
            opt_bytes(base),
            comps_v(comps@),
            0,
            target@,
            spec_filemode_code(mode),
            id@,
        ),
{
    if comps.len() == 0 {
        return Err(CommitError::EmptyPath);
    }
    upsert_components_git(repo, base, comps, 0, target, mode)
}

/// The core of committing one file to a branch, after the base has been
/// resolved and the repository-relative path split into components: write
/// the blob from `abs_path`, pick the leaf mode from `mode_bits`, upsert
/// the blob at `comps` over the base tree, resolve the identity, take the
/// caller's message or the default for `rel`, and write the commit onto
/// the branch ref.  Returns the new commit's id together with the new
/// tree's and the written blob's: the commit records exactly the upserted
/// tree, which is the content-addressed chain rebuild of the base tree
/// along the path, ending at the blob.
pub fn commit_file_to_branch(
    repo: &git2::Repository,
    branch: &Vec<u8>,
    base: &BaseInfo,
    comps: &Vec<Vec<u8>>,
    abs_path: &String,
    mode_bits: u32,
    message: Option<Vec<u8>>,
    rel: &Vec<u8>,
) -> (r: Result<(Vec<u8>, Vec<u8>, Vec<u8>), CommitError>)
    ensures
        comps@.len() == 0 ==> r is Err,
        r matches Ok(p) ==> p.0@.len() == OID_LEN && p.1@.len() == OID_LEN && p.2@.len()
            == OID_LEN && commit_tree_of(p.0@) == p.1@ && comps@.len() > 0,
        mode_bits & 0o111 != 0 ==> (r matches Ok(p) ==> upsert_chain(
            Some(base.tree@),
            comps_v(comps@),
            0,
            p.2@,
            spec_filemode_code(FileMode::Executable),
            p.1@,
        )),
        mode_bits & 0o111 == 0 ==> (r matches Ok(p) ==> upsert_chain(
            Some(base.tree@),
            comps_v(comps@),
            0,
            p.2@,
            spec_filemode_code(FileMode::Regular),
            p.1@,
        )),
        comps@.len() > 0 ==> (r matches Err(e) ==> ((e matches CommitError::Git(_)) || (e
            matches CommitError::IdentityMissing))),
        r matches Ok(p) ==> commit_parent_count_of(p.0@) == 1 && commit_parent_of(p.0@)
            == base.commit@ && commit_author_of(p.0@) == commit_committer_of(p.0@),
        r matches Ok(p) ==> (message matches Some(m) ==> commit_message_of(p.0@) == m@),
        r matches Ok(p) ==> (message is None ==> commit_message_of(p.0@)
            == crate::resolve::update_prefix() + rel@),
{
    let blob = match blob_from_path(repo, abs_path) {
        Ok(b) => b,
        Err(e) => {
            return Err(CommitError::Git(e));
        },
    };
    let mode = mode_for_permission_bits(mode_bits);
    proof {
        assert(mode == (if mode_bits & 0o111 != 0 {
            FileMode::Executable
        } else {
            FileMode::Regular
        }));
    }
    let new_tree = match upsert_path_into_repo(repo, Some(&base.tree), comps, &blob, mode) {
        Ok(t) => t,
        Err(e) => {
            return Err(e);
        },
    };
    let name = match git_user_name(repo) {
        Ok(v) => v,
        Err(e) => {
            return Err(e);
        },
    };
    let email = match git_user_email(repo) {
        Ok(v) => v,
        Err(e) => {
            return Err(e);
        },
    };
    let msg = message_or_default(message, rel);
    let refname = local_ref_name(branch);
    proof {
        if mode_bits & 0o111 != 0 {
            assert(upsert_chain(
                Some(base.tree@),
                comps_v(comps@),
                0,
                blob@,
                spec_filemode_code(FileMode::Executable),
                new_tree@,
            ));
        } else {
            assert(upsert_chain(
                Some(base.tree@),
                comps_v(comps@),
                0,
                blob@,
                spec_filemode_code(FileMode::Regular),
                new_tree@,
            ));
        }
    }
    match write_commit(repo, &refname, &name, &email, &msg, &new_tree, &base.commit) {
        Ok(id) => Ok((id, new_tree, blob)),
        Err(e) => Err(CommitError::Git(e)),
    }
}

} // verus!
