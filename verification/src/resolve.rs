use vstd::prelude::*;
use crate::errors::CommitError;
use crate::store::copy_bytes;

verus! {

/// The ref namespace of local branches, `refs/heads/`.
pub open spec fn refs_heads() -> Seq<u8> {
    seq![114u8, 101u8, 102u8, 115u8, 47u8, 104u8, 101u8, 97u8, 100u8, 115u8, 47u8]
}

/// The ref namespace of the remote-tracking branches of `origin`,
/// `refs/remotes/origin/`.
pub open spec fn refs_remotes_origin() -> Seq<u8> {
    seq![
        114u8, 101u8, 102u8, 115u8, 47u8, 114u8, 101u8, 109u8, 111u8, 116u8, 101u8, 115u8, 47u8, 111u8,
        114u8, 105u8, 103u8, 105u8, 110u8, 47u8,
    ]
}

/// The prefix of the default commit message, `Update `.
pub open spec fn update_prefix() -> Seq<u8> {
    seq![85u8, 112u8, 100u8, 97u8, 116u8, 101u8, 32u8]
}

/// Concatenate two byte strings.
pub fn concat_bytes(a: &Vec<u8>, b: &Vec<u8>) -> (r: Vec<u8>)
    ensures
        r@ == a@ + b@,
{
    let mut r = copy_bytes(a);
    let mut i: usize = 0;
    while i < b.len()
        invariant
            i <= b@.len(),
            r@ == a@ + b@.subrange(0, i as int),
        decreases b@.len() - i,
    {
        r.push(b[i]);
        i += 1;
        proof {
            assert(r@ =~= a@ + b@.subrange(0, i as int));
        }
    }
    proof {
        assert(a@ + b@.subrange(0, b@.len() as int) =~= a@ + b@);
    }
    r
}

/// The full ref name of the local branch `branch`.
pub fn local_ref_name(branch: &Vec<u8>) -> (r: Vec<u8>)
    ensures
        r@ == refs_heads() + branch@,
{
    let mut p: Vec<u8> = Vec::new();
    p.push(114u8);
    p.push(101u8);
    p.push(102u8);
    p.push(115u8);
    p.push(47u8);
    p.push(104u8);
    p.push(101u8);
    p.push(97u8);
    p.push(100u8);
    p.push(115u8);
    p.push(47u8);
    proof {
        assert(p@ =~= refs_heads());
    }
    concat_bytes(&p, branch)
}

/// The full ref name of the remote-tracking branch `origin/branch`.
pub fn remote_ref_name(branch: &Vec<u8>) -> (r: Vec<u8>)
    ensures
        r@ == refs_remotes_origin() + branch@,
{
    let mut p: Vec<u8> = Vec::new();
    p.push(114u8);
    p.push(101u8);
    p.push(102u8);
    p.push(115u8);
    p.push(47u8);
    p.push(114u8);
    p.push(101u8);
    p.push(109u8);
    p.push(111u8);
    p.push(116u8);
    p.push(101u8);
    p.push(115u8);
    p.push(47u8);
    p.push(111u8);
    p.push(114u8);
    p.push(105u8);
    p.push(103u8);
    p.push(105u8);
    p.push(110u8);
    p.push(47u8);
    proof {
        assert(p@ =~= refs_remotes_origin());
    }
    concat_bytes(&p, branch)
}

/// The default commit message for an update of the repository-relative
/// path `rel`: `Update ` followed by the path.
pub fn default_message(rel: &Vec<u8>) -> (r: Vec<u8>)
    ensures
        r@ == update_prefix() + rel@,
{
    let mut p: Vec<u8> = Vec::new();
    p.push(85u8);
    p.push(112u8);
    p.push(100u8);
    p.push(97u8);
    p.push(116u8);
    p.push(101u8);
    p.push(32u8);
    proof {
        assert(p@ =~= update_prefix());
    }
    concat_bytes(&p, rel)
}

/// The message to commit with: the caller's, or the default for `rel`.
pub fn message_or_default(msg: Option<Vec<u8>>, rel: &Vec<u8>) -> (r: Vec<u8>)
    ensures
        msg matches Some(m) ==> r == m,
        msg is None ==> r@ == update_prefix() + rel@,
{
    match msg {
        Some(m) => m,
        None => default_message(rel),
    }
}

/// Layered configuration lookup: the repository-scoped value wins, the
/// global value is the fallback, and a value absent at both scopes is
/// `IdentityMissing`.
pub fn resolve_config_value(repo_val: Option<Vec<u8>>, global_val: Option<Vec<u8>>) -> (r: Result<
    Vec<u8>,
    CommitError,
>)
    ensures
        repo_val matches Some(v) ==> (r matches Ok(x) && x == v),
        repo_val is None ==> (global_val matches Some(v) ==> (r matches Ok(x) && x == v)),
        repo_val is None && global_val is None ==> (r matches Err(e) && e matches
            CommitError::IdentityMissing),
        r matches Err(e) ==> e matches CommitError::IdentityMissing,
{
    match repo_val {
        Some(v) => Ok(v),
        None => match global_val {
            Some(v) => Ok(v),
            None => Err(CommitError::IdentityMissing),
        },
    }
}

/// What the resolver does when the branch is nowhere to be found and the
/// operator has answered the creation prompt: an accepted prompt proceeds
/// with creation from the current head, a declined one is `BranchNotFound`.
pub fn decide_create(confirmed: bool, track_remote: bool) -> (r: Result<(), CommitError>)
    ensures
        confirmed ==> r is Ok,
        !confirmed ==> (r matches Err(e) && e matches CommitError::BranchNotFound {
            track_remote: t,
        } && t == track_remote),
{
    if confirmed {
        Ok(())
    } else {
        Err(CommitError::BranchNotFound { track_remote })
    }
}

} // verus!
