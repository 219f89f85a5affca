//! Policy enforcement for git repository history, run from the hooks that
//! mutate it. The core is the commit verification engine: given a reference
//! update, it computes exactly the set of commits new to that ref, lets
//! signed override tags excuse some of them, and checks the rest against
//! email-domain, signature, multi-author and rebase policies, folding the
//! outcomes into one verdict. Repository access and key fetching stand behind
//! the `Git` and `Gpg` traits: an in-memory implementation is verified here,
//! and live adapters around git and gpg tooling sit outside the library.

pub mod config;
pub mod error;
pub mod fs;
pub mod git;
pub mod glob;
pub mod gpg;
pub mod in_memory;
pub mod keyring;
pub mod oid;
pub mod policies;
pub mod reference_update;
pub mod text;

use vstd::prelude::*;

use crate::config::Config;
use crate::error::CapnError;
use crate::fs::Fs;
use crate::git::Git;
use crate::gpg::Gpg;
use crate::oid::{hex_decode, is_all_zero, valid_hex_id};
use crate::policies::{accepted_update_ok, update_verdict_witnessed};
use crate::policies::policy_result::PolicyResult;
use crate::reference_update::{classify_update, ReferenceUpdate};

verus! {

/// What the commit-message hook hands over: the file being prepared, where
/// the message came from, and the commit being amended, if any.
pub struct PrepareCommitMsg {
    pub commit_file: String,
    pub commit_source: Option<String>,
    pub existing_commit: Option<String>,
}

/// What the pre-push hook hands over about the destination remote.
pub struct PrePush {
    pub remote_name: String,
    pub remote_location: String,
}

/// Prepends the current branch name to a commit message file.
pub fn prepend_branch_name<F: Fs, G: Git>(git: &G, commit_file: String) -> (r: Result<
    PolicyResult,
    CapnError,
>)
    ensures
        r matches Ok(p) ==> p@ is Pass,
{
    let branch = match git.current_branch() {
        Ok(b) => b,
        Err(e) => {
            return Err(e);
        },
    };
    match F::prepend_string_to_file(branch, commit_file) {
        Ok(()) => Ok(PolicyResult::Pass),
        Err(e) => Err(e),
    }
}

/// The commit-message hook: prepends the branch name when a fresh message is
/// being written and the policy is switched on; messages with a source (a
/// merge, an amendment, a message given on the command line) pass untouched.
pub fn prepare_commit_msg<F: Fs, G: Git>(git: &G, opt: PrepareCommitMsg, config: Config) -> (r:
    Result<PolicyResult, CapnError>)
    ensures
        opt.commit_source is Some ==> (r matches Ok(p) && p@ is Pass),
        (opt.commit_source is None && config.prepend_branch_name is None) ==> (r matches Ok(p)
            && p@ is Pass),
        r matches Ok(p) ==> p@ is Pass,
{
    if opt.commit_source.is_none() {
        match config.prepend_branch_name {
            Some(_) => prepend_branch_name::<F, G>(git, opt.commit_file),
            None => Ok(PolicyResult::Pass),
        }
    } else {
        Ok(PolicyResult::Pass)
    }
}

/// The pre-push hook, for one line of its input: the remote's old id, the
/// local id being pushed, and the local ref name become a reference update,
/// and the commit verification policy runs when configured.
pub fn pre_push<G: Git, P: Gpg>(
    git: &G,
    gpg: P,
    _opt: &PrePush,
    config: &Config,
    local_ref: &str,
    local_sha: &str,
    _remote_ref: &str,
    remote_sha: &str,
) -> (r: Result<PolicyResult, CapnError>)
    ensures
        r is Ok ==> valid_hex_id(remote_sha@) && valid_hex_id(local_sha@) && !(is_all_zero(
            hex_decode(remote_sha@),
        ) && is_all_zero(hex_decode(local_sha@))),
        r matches Ok(p) ==> (config.verify_git_commits is None ==> p@ is Pass),
        (config.verify_git_commits is None && valid_hex_id(remote_sha@) && valid_hex_id(
            local_sha@,
        ) && !(is_all_zero(hex_decode(remote_sha@)) && is_all_zero(hex_decode(local_sha@)))) ==> (
        r matches Ok(p) && p@ is Pass),
        ({
            let u = classify_update(hex_decode(remote_sha@), hex_decode(local_sha@), local_ref@);
            (config.verify_git_commits is Some && valid_hex_id(remote_sha@) && valid_hex_id(
                local_sha@,
            ) && !(is_all_zero(hex_decode(remote_sha@)) && is_all_zero(hex_decode(local_sha@)))
                && u is Delete) ==> (r matches Ok(p) && p@ is Pass)
        }),
        r matches Ok(p) ==> (config.verify_git_commits matches Some(c) ==> ((p@ is Pass && !(
        classify_update(hex_decode(remote_sha@), hex_decode(local_sha@), local_ref@) is Delete)
            && !git.model().ref_is_tag(local_ref@)) ==> accepted_update_ok(
            git.model(),
            c@,
            classify_update(hex_decode(remote_sha@), hex_decode(local_sha@), local_ref@),
        ))),
        r matches Ok(p) ==> (config.verify_git_commits matches Some(c) ==> ((!(classify_update(
            hex_decode(remote_sha@),
            hex_decode(local_sha@),
            local_ref@,
        ) is Delete) && !git.model().ref_is_tag(local_ref@)) ==> update_verdict_witnessed(
            git.model(),
            c@,
            classify_update(hex_decode(remote_sha@), hex_decode(local_sha@), local_ref@),
            p@,
        ))),
{
    let ref_update = match ReferenceUpdate::from_git_hook_format(remote_sha, local_sha, local_ref) {
        Ok(u) => u,
        Err(e) => {
            return Err(e);
        },
    };
    match &config.verify_git_commits {
        Some(c) => policies::verify_git_commits::<G, P>(git, gpg, c, &ref_update),
        None => Ok(PolicyResult::Pass),
    }
}

/// The pre-receive hook, for one line of its input: old value, new value and
/// ref name become a reference update, and the commit verification policy
/// runs when configured.
pub fn pre_receive<G: Git, P: Gpg>(
    git: &G,
    gpg: P,
    config: &Config,
    old_value: &str,
    new_value: &str,
    ref_name: &str,
) -> (r: Result<PolicyResult, CapnError>)
    ensures
        r is Ok ==> valid_hex_id(old_value@) && valid_hex_id(new_value@) && !(is_all_zero(
            hex_decode(old_value@),
        ) && is_all_zero(hex_decode(new_value@))),
        r matches Ok(p) ==> (config.verify_git_commits is None ==> p@ is Pass),
        (config.verify_git_commits is None && valid_hex_id(old_value@) && valid_hex_id(new_value@)
            && !(is_all_zero(hex_decode(old_value@)) && is_all_zero(hex_decode(new_value@)))) ==> (
        r matches Ok(p) && p@ is Pass),
        ({
            let u = classify_update(hex_decode(old_value@), hex_decode(new_value@), ref_name@);
            (config.verify_git_commits is Some && valid_hex_id(old_value@) && valid_hex_id(
                new_value@,
            ) && !(is_all_zero(hex_decode(old_value@)) && is_all_zero(hex_decode(new_value@)))
                && u is Delete) ==> (r matches Ok(p) && p@ is Pass)
        }),
        r matches Ok(p) ==> (config.verify_git_commits matches Some(c) ==> ((p@ is Pass && !(
        classify_update(hex_decode(old_value@), hex_decode(new_value@), ref_name@) is Delete)
            && !git.model().ref_is_tag(ref_name@)) ==> accepted_update_ok(
            git.model(),
            c@,
            classify_update(hex_decode(old_value@), hex_decode(new_value@), ref_name@),
        ))),
        r matches Ok(p) ==> (config.verify_git_commits matches Some(c) ==> ((!(classify_update(
            hex_decode(old_value@),
            hex_decode(new_value@),
            ref_name@,
        ) is Delete) && !git.model().ref_is_tag(ref_name@)) ==> update_verdict_witnessed(
            git.model(),
            c@,
            classify_update(hex_decode(old_value@), hex_decode(new_value@), ref_name@),
            p@,
        ))),
{
    let ref_update = match ReferenceUpdate::from_git_hook_format(old_value, new_value, ref_name) {
        Ok(u) => u,
        Err(e) => {
            return Err(e);
        },
    };
    match &config.verify_git_commits {
        Some(c) => policies::verify_git_commits::<G, P>(git, gpg, c, &ref_update),
        None => Ok(PolicyResult::Pass),
    }
}

} // verus!
