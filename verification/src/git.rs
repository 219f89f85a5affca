use vstd::prelude::*;

use crate::error::CapnError;
use crate::glob::glob_match;
use crate::keyring::{FingerprintView, Keyring};
use crate::oid::{is_all_zero, ObjectId};
use crate::text::starts_with;

verus! {

/// The abstract value of a [`Tag`].
#[verifier::ext_equal]
pub struct TagView {
    pub id: Seq<u8>,
    pub name: Seq<char>,
    pub tagger_email: Option<Seq<char>>,
}

/// An annotated tag object pointing at a commit.
#[derive(Debug)]
pub struct Tag {
    pub id: ObjectId,
    pub name: String,
    pub tagger_email: Option<String>,
}

/// The view of an optional string.
pub open spec fn view_opt_str(o: Option<String>) -> Option<Seq<char>> {
    match o {
        None => None,
        Some(s) => Some(s@),
    }
}

impl View for Tag {
    type V = TagView;

    open spec fn view(&self) -> TagView {
        TagView { id: self.id@, name: self.name@, tagger_email: view_opt_str(self.tagger_email) }
    }
}

impl Clone for Tag {
    fn clone(&self) -> (r: Self)
        ensures
            r@ == self@,
    {
        Tag {
            id: self.id.clone(),
            name: self.name.clone(),
            tagger_email: match &self.tagger_email {
                Some(e) => Some(e.clone()),
                None => None,
            },
        }
    }
}

/// The abstract value of a [`Commit`].
#[verifier::ext_equal]
pub struct CommitView {
    pub id: Seq<u8>,
    pub author_email: Option<Seq<char>>,
    pub committer_email: Option<Seq<char>>,
    pub is_identical_tree_to_any_parent: bool,
    pub is_merge_commit: bool,
    pub tags: Seq<TagView>,
    pub parents: Seq<Seq<u8>>,
}

/// A commit as the verification engine sees it: its id, the two emails, the
/// facts the policies consult, the annotated tags pointing at it (filtered by
/// the override pattern), and its parent ids.
#[derive(Debug)]
pub struct Commit {
    pub id: ObjectId,
    pub author_email: Option<String>,
    pub committer_email: Option<String>,
    pub is_identical_tree_to_any_parent: bool,
    pub is_merge_commit: bool,
    pub tags: Vec<Tag>,
    pub parents: Vec<ObjectId>,
}

/// The views of a vector of tags.
pub open spec fn tag_views_of(s: Seq<Tag>) -> Seq<TagView> {
    s.map_values(|t: Tag| t@)
}

/// The views of a vector of object ids.
pub open spec fn ids_of(s: Seq<ObjectId>) -> Seq<Seq<u8>> {
    s.map_values(|o: ObjectId| o@)
}

/// The views of a vector of commits.
pub open spec fn commit_views_of(s: Seq<Commit>) -> Seq<CommitView> {
    s.map_values(|c: Commit| c@)
}

impl View for Commit {
    type V = CommitView;

    open spec fn view(&self) -> CommitView {
        CommitView {
            id: self.id@,
            author_email: view_opt_str(self.author_email),
            committer_email: view_opt_str(self.committer_email),
            is_identical_tree_to_any_parent: self.is_identical_tree_to_any_parent,
            is_merge_commit: self.is_merge_commit,
            tags: tag_views_of(self.tags@),
            parents: ids_of(self.parents@),
        }
    }
}

/// What a repository looks like to the verification engine: an abstract,
/// read-only snapshot of the object store and refs at the moment a hook runs.
#[verifier::ext_equal]
pub struct RepoModel {
    /// Commit id to the facts the engine reads of that commit. A commit's
    /// `valid_signature_fingerprints` holds every key fingerprint for which
    /// the platform's signature check would report a valid signature.
    pub commits: Map<Seq<u8>, CommitInfo>,
    /// Commit id to the annotated tags pointing directly at it, unfiltered.
    pub tags: Map<Seq<u8>, Seq<TagView>>,
    /// Tag id to the key fingerprints with a valid signature on that tag.
    pub tag_signers: Map<Seq<u8>, Set<Seq<char>>>,
    /// Full ref name to what the ref points at.
    pub refs: Map<Seq<char>, RefInfo>,
    /// The full name of the currently checked-out ref.
    pub head_ref: Seq<char>,
    /// Its short name.
    pub head_shorthand: Seq<char>,
    /// Path to contents, for files read from the repository.
    pub files: Map<Seq<char>, Seq<char>>,
    /// The configured mainline patterns: literal names, globs, or `HEAD`.
    pub mainlines: Seq<Seq<char>>,
}

/// The per-commit facts of the model.
#[verifier::ext_equal]
pub struct CommitInfo {
    pub author_email: Option<Seq<char>>,
    pub committer_email: Option<Seq<char>>,
    pub is_identical_tree_to_any_parent: bool,
    pub parents: Seq<Seq<u8>>,
    /// Whether an automatic three-way merge of the parents reproduces the
    /// commit's tree exactly.
    pub is_trivial_merge: bool,
    pub valid_signature_fingerprints: Set<Seq<char>>,
}

/// What a ref points at, and whether it is a tag ref.
#[verifier::ext_equal]
pub struct RefInfo {
    pub target: Seq<u8>,
    pub is_tag: bool,
}

impl RepoModel {
    /// The annotated tags pointing at a commit.
    pub open spec fn commit_tags(self, id: Seq<u8>) -> Seq<TagView> {
        if self.tags.dom().contains(id) {
            self.tags[id]
        } else {
            Seq::empty()
        }
    }

    /// Those tags, filtered by the optional glob pattern on the tag name.
    pub open spec fn filtered_tags(self, id: Seq<u8>, pattern: Option<Seq<char>>) -> Seq<TagView> {
        match pattern {
            None => self.commit_tags(id),
            Some(p) => self.commit_tags(id).filter(|t: TagView| glob_match(p, t.name)),
        }
    }

    /// The parents of a commit; an unknown id has none.
    pub open spec fn parents_of(self, id: Seq<u8>) -> Seq<Seq<u8>> {
        if self.commits.dom().contains(id) {
            self.commits[id].parents
        } else {
            Seq::empty()
        }
    }

    /// A known commit with more than one parent.
    pub open spec fn is_merge(self, id: Seq<u8>) -> bool {
        self.commits.dom().contains(id) && self.commits[id].parents.len() > 1
    }

    /// A known two-parent commit whose recorded tree an automatic merge of
    /// its parents reproduces; a commit of any other shape is never trivial.
    pub open spec fn is_trivial_merge(self, id: Seq<u8>) -> bool {
        self.commits.dom().contains(id) && self.commits[id].parents.len() == 2
            && self.commits[id].is_trivial_merge
    }

    /// The fingerprints with a valid signature on a commit.
    pub open spec fn commit_signers(self, id: Seq<u8>) -> Set<Seq<char>> {
        if self.commits.dom().contains(id) {
            self.commits[id].valid_signature_fingerprints
        } else {
            Set::empty()
        }
    }

    /// The fingerprints with a valid signature on a tag.
    pub open spec fn tag_signers_of(self, tag_id: Seq<u8>) -> Set<Seq<char>> {
        if self.tag_signers.dom().contains(tag_id) {
            self.tag_signers[tag_id]
        } else {
            Set::empty()
        }
    }

    /// `to` lies within `n` parent steps of `from`.
    pub open spec fn reaches_within(self, from: Seq<u8>, to: Seq<u8>, n: nat) -> bool
        decreases n,
    {
        from == to || (n > 0 && exists|j: int|
            0 <= j < self.parents_of(from).len() && self.reaches_within(
                #[trigger] self.parents_of(from)[j],
                to,
                (n - 1) as nat,
            ))
    }

    /// `to` is an ancestor of `from`, or `from` itself.
    pub open spec fn reachable(self, from: Seq<u8>, to: Seq<u8>) -> bool {
        exists|n: nat| self.reaches_within(from, to, n)
    }

    /// `to` is reachable from some root in the set.
    pub open spec fn reachable_from_any(self, roots: Set<Seq<u8>>, to: Seq<u8>) -> bool {
        exists|r: Seq<u8>| roots.contains(r) && self.reachable(r, to)
    }

    /// Strict descent: `id` is a proper descendant of `ancestor`.
    pub open spec fn is_descendant(self, id: Seq<u8>, ancestor: Seq<u8>) -> bool {
        id != ancestor && self.reachable(id, ancestor)
    }

    /// Whether an incoming ref name denotes a tag: an existing ref answers for
    /// itself, an unknown one by whether it lies under the tags namespace.
    pub open spec fn ref_is_tag(self, name: Seq<char>) -> bool {
        if self.refs.dom().contains(name) {
            self.refs[name].is_tag
        } else {
            starts_with(name, "refs/tags"@)
        }
    }

    /// Whether an existing ref name matches one mainline pattern: `HEAD` names
    /// the checked-out ref, anything else is a glob under the branch namespace.
    pub open spec fn matches_mainline_pattern(self, name: Seq<char>, pattern: Seq<char>) -> bool {
        if pattern == "HEAD"@ {
            name == self.head_ref
        } else {
            self.refs.dom().contains(name) && glob_match("refs/heads/"@ + pattern, name)
        }
    }

    /// Whether a ref name matches any configured mainline pattern.
    pub open spec fn is_mainline_ref(self, name: Seq<char>) -> bool {
        exists|k: int|
            0 <= k < self.mainlines.len() && self.matches_mainline_pattern(
                name,
                #[trigger] self.mainlines[k],
            )
    }

    /// The commits the mainline refs point at; a revision walk hides these and
    /// everything they reach.
    pub open spec fn mainline_ids(self) -> Set<Seq<u8>> {
        Set::new(
            |id: Seq<u8>|
                exists|name: Seq<char>|
                    self.is_mainline_ref(name) && self.refs.dom().contains(name) && (
                    #[trigger] self.refs[name]).target == id,
        )
    }

    /// The exact set of commits a reference update brings in: everything
    /// reachable from the inclusions but not from an exclusion or a mainline.
    pub open spec fn new_commit_ids(self, exclusions: Set<Seq<u8>>, inclusions: Set<Seq<u8>>) -> Set<
        Seq<u8>,
    > {
        Set::new(
            |id: Seq<u8>|
                self.commits.dom().contains(id) && self.reachable_from_any(inclusions, id)
                    && !self.reachable_from_any(exclusions.union(self.mainline_ids()), id),
        )
    }

    /// The commit record the engine receives for a known id.
    pub open spec fn commit_view_of(self, id: Seq<u8>, pattern: Option<Seq<char>>) -> CommitView {
        CommitView {
            id,
            author_email: self.commits[id].author_email,
            committer_email: self.commits[id].committer_email,
            is_identical_tree_to_any_parent: self.commits[id].is_identical_tree_to_any_parent,
            is_merge_commit: self.commits[id].parents.len() > 1,
            tags: self.filtered_tags(id, pattern),
            parents: self.commits[id].parents,
        }
    }
}

/// The ids of a list, zero sentinels dropped, as a set.
pub open spec fn nonzero_id_set(ids: Seq<Seq<u8>>) -> Set<Seq<u8>> {
    Set::new(|id: Seq<u8>| ids.contains(id) && !is_all_zero(id))
}

/// What a correct revision walk returns for the given exclusions and
/// inclusions: records drawn from the model, one for each new commit, no id
/// twice, in some discovery order the walk does not pin down.
pub open spec fn walk_post(
    m: RepoModel,
    exclusions: Seq<Seq<u8>>,
    inclusions: Seq<Seq<u8>>,
    pattern: Option<Seq<char>>,
    commits: Seq<Commit>,
) -> bool {
    let result_ids = m.new_commit_ids(nonzero_id_set(exclusions), nonzero_id_set(inclusions));
    &&& forall|i: int|
        0 <= i < commits.len() ==> (#[trigger] commits[i])@ == m.commit_view_of(
            commits[i].id@,
            pattern,
        )
    &&& forall|i: int| 0 <= i < commits.len() ==> result_ids.contains((#[trigger] commits[i]).id@)
    &&& forall|id: Seq<u8>|
        result_ids.contains(id) ==> exists|i: int| 0 <= i < commits.len() && (#[trigger] commits[i]).id@ == id
    &&& forall|i: int, j: int| 0 <= i < j < commits.len() ==> commits[i].id@ != commits[j].id@
}

/// Whether the platform's signature check accepts a commit against the
/// keyring: there must be a committer email, the roster must know it, and the
/// commit must carry a valid signature by exactly the fingerprint on file.
/// A missing email or an unknown committer is a definitive "no", not an error.
pub open spec fn commit_signature_valid(
    m: RepoModel,
    c: CommitView,
    k: Map<Seq<char>, FingerprintView>,
) -> bool {
    match c.committer_email {
        None => false,
        Some(e) => k.dom().contains(e) && m.commit_signers(c.id).contains(k[e].id),
    }
}

/// The same for a tag and its tagger.
pub open spec fn tag_signature_valid(
    m: RepoModel,
    t: TagView,
    k: Map<Seq<char>, FingerprintView>,
) -> bool {
    match t.tagger_email {
        None => false,
        Some(e) => k.dom().contains(e) && m.tag_signers_of(t.id).contains(k[e].id),
    }
}

/// Read access to a git repository, abstracted as a snapshot model. Every
/// method answers for the model; a method returning `Result` may instead fail
/// with a technical error (a subprocess, the filesystem), and then promises
/// nothing. The live adapter runs `git`; tests run an in-memory repository.
pub trait Git {
    /// The snapshot this handle answers for. An adapter that does not give
    /// one (the live adapter runs outside verification) answers for an
    /// arbitrary snapshot.
    open spec fn model(&self) -> RepoModel {
        vstd::pervasive::arbitrary()
    }

    /// Reads a file from the repository (working directory or HEAD tree).
    fn read_file(&self, path: &str) -> (r: Result<String, CapnError>)
        ensures
            r matches Ok(s) ==> self.model().files.dom().contains(path@) && s@
                == self.model().files[path@],
    ;

    /// Writes a hook file under the git directory.
    fn write_git_file(&self, path: &str, file_mode: u32, contents: &str) -> (r: Result<
        (),
        CapnError,
    >);

    /// The short name of the currently checked-out branch.
    fn current_branch(&self) -> (r: Result<String, CapnError>)
        ensures
            r matches Ok(s) ==> s@ == self.model().head_shorthand,
    ;

    /// Whether an incoming ref name denotes a tag rather than a branch.
    fn is_tag(&self, ref_name: &str) -> (r: Result<bool, CapnError>)
        ensures
            r matches Ok(b) ==> b == self.model().ref_is_tag(ref_name@),
    ;

    /// Looks one commit up, with its tags filtered by the override pattern.
    fn find_commit(&self, commit_id: &ObjectId, override_tag_pattern: &Option<String>) -> (r:
        Result<Commit, CapnError>)
        ensures
            r matches Ok(c) ==> self.model().commits.dom().contains(commit_id@) && c@
                == self.model().commit_view_of(commit_id@, view_opt_str(*override_tag_pattern)),
    ;

    /// The revision walk: every commit reachable from an inclusion and hidden
    /// by no exclusion and no mainline ref, each exactly once, in discovery
    /// order. Zero ids are ignored as no-ops.
    fn find_new_commits(
        &self,
        exclusions: &Vec<ObjectId>,
        inclusions: &Vec<ObjectId>,
        override_tag_pattern: &Option<String>,
    ) -> (r: Result<Vec<Commit>, CapnError>)
        ensures
            r matches Ok(cs) ==> walk_post(
                self.model(),
                ids_of(exclusions@),
                ids_of(inclusions@),
                view_opt_str(*override_tag_pattern),
                cs@,
            ),
    ;

    /// Whether a known commit has more than one parent.
    fn is_merge_commit(&self, commit_id: &ObjectId) -> (r: bool)
        ensures
            r == self.model().is_merge(commit_id@),
    ;

    /// Whether an automatic merge of the commit's two parents reproduces its
    /// tree, simulated in a scratch clone.
    fn is_trivial_merge_commit(&self, commit: &Commit) -> (r: Result<bool, CapnError>)
        ensures
            r matches Ok(b) ==> b == self.model().is_trivial_merge(commit.id@),
    ;

    /// Whether a ref name matches a configured mainline pattern.
    fn is_mainline(&self, ref_name: &str) -> (r: Result<bool, CapnError>)
        ensures
            r matches Ok(b) ==> b == self.model().is_mainline_ref(ref_name@),
    ;

    /// Runs the platform's commit signature check against the keyring.
    /// A missing committer email, or one the roster does not know, is a
    /// definitive "not verifiable", never a technical error.
    fn verify_commit_signature(&self, commit: &Commit, keyring: &Keyring) -> (r: Result<
        bool,
        CapnError,
    >)
        ensures
            r matches Ok(b) ==> b == commit_signature_valid(self.model(), commit@, keyring@),
            commit@.committer_email is None ==> (r matches Ok(b) && !b),
            commit@.committer_email matches Some(e) ==> (!keyring@.dom().contains(e) ==> (
            r matches Ok(b) && !b)),
    ;

    /// Runs the platform's tag signature check against the keyring. A missing
    /// tagger email, or one the roster does not know, is a definitive "not
    /// verifiable", never a technical error.
    fn verify_tag_signature(&self, tag: &Tag, keyring: &Keyring) -> (r: Result<bool, CapnError>)
        ensures
            r matches Ok(b) ==> b == tag_signature_valid(self.model(), tag@, keyring@),
            tag@.tagger_email is None ==> (r matches Ok(b) && !b),
            tag@.tagger_email matches Some(e) ==> (!keyring@.dom().contains(e) ==> (
            r matches Ok(b) && !b)),
    ;

    /// Whether `commit` is a proper descendant of `ancestor`.
    fn is_descendent_of(&self, commit: &ObjectId, ancestor: &ObjectId) -> (r: Result<
        bool,
        CapnError,
    >)
        ensures
            r matches Ok(b) ==> b == self.model().is_descendant(commit@, ancestor@),
    ;
}

/// A line of the machine-readable signature diagnostics attests the
/// fingerprint: it contains `VALIDSIG ` followed by that fingerprint.
pub open spec fn line_attests_fingerprint(line: Seq<char>, fingerprint: Seq<char>) -> bool {
    crate::text::contains_seq(line, "VALIDSIG "@ + fingerprint)
}

/// The whole diagnostic output attests the fingerprint: some line does.
pub open spec fn diagnostics_attest_fingerprint(output: Seq<char>, fingerprint: Seq<char>) -> bool {
    exists|i: int|
        0 <= i < crate::text::split_on(output, '\n').len() && line_attests_fingerprint(
            #[trigger] crate::text::split_on(output, '\n')[i],
            fingerprint,
        )
}

/// Scans the raw diagnostic stream of the platform's signature verification
/// for a line attesting the expected fingerprint. This is the one textual
/// criterion by which a live adapter decides signature validity; membership in
/// the model's valid-signer sets abstracts its outcome.
#[verifier::loop_isolation(false)]
pub fn diagnostics_attest(output: &str, fingerprint: &str) -> (r: bool)
    ensures
        r == diagnostics_attest_fingerprint(output@, fingerprint@),
{
    let needle = crate::text::concat_str("VALIDSIG ", fingerprint);
    let lines = crate::text::split_string(output, '\n');
    let ghost line_views = crate::text::views_of(lines@);
    let mut i: usize = 0;
    while i < lines.len()
        invariant
            i <= lines@.len(),
            line_views == crate::text::split_on(output@, '\n'),
            needle@ == "VALIDSIG "@ + fingerprint@,
            forall|j: int|
                0 <= j < i ==> !line_attests_fingerprint(#[trigger] line_views[j], fingerprint@),
        decreases lines.len() - i,
    {
        if crate::text::str_contains(lines[i].as_str(), needle.as_str()) {
            proof {
                assert(line_attests_fingerprint(line_views[i as int], fingerprint@));
            }
            return true;
        }
        i += 1;
    }
    false
}

/// Exclusion completeness: a commit reachable from any mainline ref is never
/// among the new commits of a walk, whatever the exclusions and inclusions.
pub proof fn lemma_exclusion_completeness(
    m: RepoModel,
    exclusions: Set<Seq<u8>>,
    inclusions: Set<Seq<u8>>,
    c: Seq<u8>,
)
    requires
        m.reachable_from_any(m.mainline_ids(), c),
    ensures
        !m.new_commit_ids(exclusions, inclusions).contains(c),
{
    let r = choose|r: Seq<u8>| m.mainline_ids().contains(r) && m.reachable(r, c);
    assert(exclusions.union(m.mainline_ids()).contains(r));
}

} // verus!
