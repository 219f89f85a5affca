use vstd::prelude::*;

use crate::text::views_of;

verus! {

/// A unit marker for toggles that carry no further configuration.
pub struct Unit {}

/// The repository-level configuration of the git access layer: which refs
/// count as mainlines (literal names, globs, or `HEAD`).
pub struct GitConfig {
    pub mainlines: Vec<String>,
}

impl Default for GitConfig {
    /// By default only the currently checked-out branch is a mainline.
    fn default() -> (r: GitConfig)
        ensures
            views_of(r.mainlines@) == seq!["HEAD"@],
    {
        let mut mainlines: Vec<String> = Vec::new();
        mainlines.push(String::from_str("HEAD"));
        proof {
            assert(views_of(mainlines@) =~= seq!["HEAD"@]);
        }
        GitConfig { mainlines }
    }
}

/// The abstract value of a [`VerifyGitCommitsConfig`].
#[verifier::ext_equal]
pub struct VerifyConfigView {
    pub author_domain: Seq<char>,
    pub committer_domain: Seq<char>,
    pub keyserver: Seq<char>,
    pub team_fingerprints_file: Seq<char>,
    pub recv_keys_par: bool,
    pub verify_email_addresses: bool,
    pub verify_commit_signatures: bool,
    pub verify_different_authors: bool,
    pub verify_rebased: bool,
    pub override_tag_pattern: Option<Seq<char>>,
    pub override_tags_required: u8,
}

/// The configuration of the commit verification policy: the required email
/// domains, where keys and the team roster come from, which checks are
/// enabled, and the override-tag rule.
pub struct VerifyGitCommitsConfig {
    pub author_domain: String,
    pub committer_domain: String,
    pub keyserver: String,
    pub team_fingerprints_file: String,
    pub recv_keys_par: bool,
    pub verify_email_addresses: bool,
    pub verify_commit_signatures: bool,
    pub verify_different_authors: bool,
    pub verify_rebased: bool,
    pub override_tag_pattern: Option<String>,
    pub override_tags_required: u8,
}

impl View for VerifyGitCommitsConfig {
    type V = VerifyConfigView;

    open spec fn view(&self) -> VerifyConfigView {
        VerifyConfigView {
            author_domain: self.author_domain@,
            committer_domain: self.committer_domain@,
            keyserver: self.keyserver@,
            team_fingerprints_file: self.team_fingerprints_file@,
            recv_keys_par: self.recv_keys_par,
            verify_email_addresses: self.verify_email_addresses,
            verify_commit_signatures: self.verify_commit_signatures,
            verify_different_authors: self.verify_different_authors,
            verify_rebased: self.verify_rebased,
            override_tag_pattern: crate::git::view_opt_str(self.override_tag_pattern),
            override_tags_required: self.override_tags_required,
        }
    }
}

/// The whole configuration file: which policies are switched on, and the
/// git access layer's own settings.
pub struct Config {
    pub git: GitConfig,
    pub prepend_branch_name: Option<Unit>,
    pub verify_git_commits: Option<VerifyGitCommitsConfig>,
}

} // verus!
