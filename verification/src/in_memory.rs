use vstd::prelude::*;

use crate::error::CapnError;
use crate::git::{
    ids_of, tag_views_of, view_opt_str, CommitInfo, RefInfo, RepoModel, Tag, TagView,
};
use crate::oid::{is_all_zero, ObjectId};
use crate::text::views_of;

verus! {

/// A commit of an in-memory repository: the facts the engine reads, plus the
/// key fingerprints whose signature check would pass on this commit.
pub struct StoredCommit {
    pub id: ObjectId,
    pub author_email: Option<String>,
    pub committer_email: Option<String>,
    pub is_identical_tree_to_any_parent: bool,
    pub is_trivial_merge: bool,
    pub parents: Vec<ObjectId>,
    pub valid_signature_fingerprints: Vec<String>,
}

impl View for StoredCommit {
    type V = CommitInfo;

    open spec fn view(&self) -> CommitInfo {
        CommitInfo {
            author_email: view_opt_str(self.author_email),
            committer_email: view_opt_str(self.committer_email),
            is_identical_tree_to_any_parent: self.is_identical_tree_to_any_parent,
            parents: ids_of(self.parents@),
            is_trivial_merge: self.is_trivial_merge,
            valid_signature_fingerprints: views_of(self.valid_signature_fingerprints@).to_set(),
        }
    }
}

/// An annotated tag of an in-memory repository: the commit it points at, the
/// tag object, and the fingerprints whose signature check would pass on it.
pub struct StoredTag {
    pub target: ObjectId,
    pub tag: Tag,
    pub valid_signature_fingerprints: Vec<String>,
}

/// A ref of an in-memory repository.
pub struct StoredRef {
    pub name: String,
    pub target: ObjectId,
    pub is_tag: bool,
}

impl View for StoredRef {
    type V = RefInfo;

    open spec fn view(&self) -> RefInfo {
        RefInfo { target: self.target@, is_tag: self.is_tag }
    }
}

/// A file of an in-memory repository.
pub struct StoredFile {
    pub path: String,
    pub contents: String,
}

/// The commit map an entry list denotes, later entries winning on equal ids.
pub open spec fn commit_map(s: Seq<StoredCommit>) -> Map<Seq<u8>, CommitInfo>
    decreases s.len(),
{
    if s.len() == 0 {
        Map::empty()
    } else {
        commit_map(s.drop_last()).insert(s.last().id@, s.last()@)
    }
}

/// The ref map an entry list denotes, later entries winning on equal names.
pub open spec fn refs_map(s: Seq<StoredRef>) -> Map<Seq<char>, RefInfo>
    decreases s.len(),
{
    if s.len() == 0 {
        Map::empty()
    } else {
        refs_map(s.drop_last()).insert(s.last().name@, s.last()@)
    }
}

/// The file map an entry list denotes, later entries winning on equal paths.
pub open spec fn files_map(s: Seq<StoredFile>) -> Map<Seq<char>, Seq<char>>
    decreases s.len(),
{
    if s.len() == 0 {
        Map::empty()
    } else {
        files_map(s.drop_last()).insert(s.last().path@, s.last().contents@)
    }
}

/// The valid signers of each tag id, later entries winning on equal tag ids.
pub open spec fn tag_signers_map(s: Seq<StoredTag>) -> Map<Seq<u8>, Set<Seq<char>>>
    decreases s.len(),
{
    if s.len() == 0 {
        Map::empty()
    } else {
        tag_signers_map(s.drop_last()).insert(
            s.last().tag.id@,
            views_of(s.last().valid_signature_fingerprints@).to_set(),
        )
    }
}

/// The tags pointing at one commit, in storage order.
pub open spec fn tags_for(s: Seq<StoredTag>, target: Seq<u8>) -> Seq<TagView>
    decreases s.len(),
{
    if s.len() == 0 {
        Seq::empty()
    } else {
        tags_for(s.drop_last(), target) + (if s.last().target@ == target {
            seq![s.last().tag@]
        } else {
            Seq::<TagView>::empty()
        })
    }
}

/// The tag map an entry list denotes: each commit that has tags, to its tags.
pub open spec fn tags_map(s: Seq<StoredTag>) -> Map<Seq<u8>, Seq<TagView>> {
    Map::new(|t: Seq<u8>| tags_for(s, t).len() > 0, |t: Seq<u8>| tags_for(s, t))
}

/// An entry whose id nothing later overrides is what the commit map holds.
proof fn lemma_commit_map_at(s: Seq<StoredCommit>, j: int)
    requires
        0 <= j < s.len(),
        forall|k: int| j < k < s.len() ==> (#[trigger] s[k]).id@ != s[j].id@,
    ensures
        commit_map(s).dom().contains(s[j].id@),
        commit_map(s)[s[j].id@] == s[j]@,
    decreases s.len(),
{
    if j < s.len() - 1 {
        lemma_commit_map_at(s.drop_last(), j);
    }
}

/// An id no entry carries is not in the commit map.
proof fn lemma_commit_map_absent(s: Seq<StoredCommit>, id: Seq<u8>)
    requires
        forall|k: int| 0 <= k < s.len() ==> (#[trigger] s[k]).id@ != id,
    ensures
        !commit_map(s).dom().contains(id),
    decreases s.len(),
{
    if s.len() > 0 {
        lemma_commit_map_absent(s.drop_last(), id);
    }
}

/// An entry whose name nothing later overrides is what the ref map holds.
proof fn lemma_refs_map_at(s: Seq<StoredRef>, j: int)
    requires
        0 <= j < s.len(),
        forall|k: int| j < k < s.len() ==> (#[trigger] s[k]).name@ != s[j].name@,
    ensures
        refs_map(s).dom().contains(s[j].name@),
        refs_map(s)[s[j].name@] == s[j]@,
    decreases s.len(),
{
    if j < s.len() - 1 {
        lemma_refs_map_at(s.drop_last(), j);
    }
}

/// A name no entry carries is not in the ref map.
proof fn lemma_refs_map_absent(s: Seq<StoredRef>, name: Seq<char>)
    requires
        forall|k: int| 0 <= k < s.len() ==> (#[trigger] s[k]).name@ != name,
    ensures
        !refs_map(s).dom().contains(name),
    decreases s.len(),
{
    if s.len() > 0 {
        lemma_refs_map_absent(s.drop_last(), name);
    }
}

/// An entry whose path nothing later overrides is what the file map holds.
proof fn lemma_files_map_at(s: Seq<StoredFile>, j: int)
    requires
        0 <= j < s.len(),
        forall|k: int| j < k < s.len() ==> (#[trigger] s[k]).path@ != s[j].path@,
    ensures
        files_map(s).dom().contains(s[j].path@),
        files_map(s)[s[j].path@] == s[j].contents@,
    decreases s.len(),
{
    if j < s.len() - 1 {
        lemma_files_map_at(s.drop_last(), j);
    }
}

/// A path no entry carries is not in the file map.
proof fn lemma_files_map_absent(s: Seq<StoredFile>, path: Seq<char>)
    requires
        forall|k: int| 0 <= k < s.len() ==> (#[trigger] s[k]).path@ != path,
    ensures
        !files_map(s).dom().contains(path),
    decreases s.len(),
{
    if s.len() > 0 {
        lemma_files_map_absent(s.drop_last(), path);
    }
}

/// An entry whose tag id nothing later overrides is what the signer map holds.
proof fn lemma_tag_signers_map_at(s: Seq<StoredTag>, j: int)
    requires
        0 <= j < s.len(),
        forall|k: int| j < k < s.len() ==> (#[trigger] s[k]).tag.id@ != s[j].tag.id@,
    ensures
        tag_signers_map(s).dom().contains(s[j].tag.id@),
        tag_signers_map(s)[s[j].tag.id@] == views_of(s[j].valid_signature_fingerprints@).to_set(),
    decreases s.len(),
{
    if j < s.len() - 1 {
        lemma_tag_signers_map_at(s.drop_last(), j);
    }
}

/// A tag id no entry carries is not in the signer map.
proof fn lemma_tag_signers_map_absent(s: Seq<StoredTag>, id: Seq<u8>)
    requires
        forall|k: int| 0 <= k < s.len() ==> (#[trigger] s[k]).tag.id@ != id,
    ensures
        !tag_signers_map(s).dom().contains(id),
    decreases s.len(),
{
    if s.len() > 0 {
        lemma_tag_signers_map_absent(s.drop_last(), id);
    }
}

/// A whole repository held in memory: the test double of the git access
/// layer. Its model is exactly what its vectors denote.
pub struct InMemoryGit {
    pub commits: Vec<StoredCommit>,
    pub refs: Vec<StoredRef>,
    pub tags: Vec<StoredTag>,
    pub files: Vec<StoredFile>,
    pub head_ref: String,
    pub head_shorthand: String,
    pub mainlines: Vec<String>,
}

impl InMemoryGit {
    /// The repository snapshot these vectors denote.
    pub open spec fn repo_model(&self) -> RepoModel {
        RepoModel {
            commits: commit_map(self.commits@),
            tags: tags_map(self.tags@),
            tag_signers: tag_signers_map(self.tags@),
            refs: refs_map(self.refs@),
            head_ref: self.head_ref@,
            head_shorthand: self.head_shorthand@,
            files: files_map(self.files@),
            mainlines: views_of(self.mainlines@),
        }
    }

    fn lookup_commit(&self, id: &ObjectId) -> (r: Option<&StoredCommit>)
        ensures
            r is Some <==> self.repo_model().commits.dom().contains(id@),
            r matches Some(c) ==> self.repo_model().commits[id@] == c@ && c.id@ == id@,
    {
        let n = self.commits.len();
        let mut i: usize = n;
        while i > 0
            invariant
                i <= self.commits@.len(),
                forall|k: int|
                    i <= k < self.commits@.len() ==> (#[trigger] self.commits@[k]).id@ != id@,
            decreases i,
        {
            i = i - 1;
            if &self.commits[i].id == id {
                proof {
                    lemma_commit_map_at(self.commits@, i as int);
                }
                return Some(&self.commits[i]);
            }
        }
        proof {
            lemma_commit_map_absent(self.commits@, id@);
        }
        None
    }

    fn lookup_ref(&self, name: &str) -> (r: Option<&StoredRef>)
        ensures
            r is Some <==> self.repo_model().refs.dom().contains(name@),
            r matches Some(e) ==> self.repo_model().refs[name@] == e@,
    {
        let n = self.refs.len();
        let mut i: usize = n;
        while i > 0
            invariant
                i <= self.refs@.len(),
                forall|k: int|
                    i <= k < self.refs@.len() ==> (#[trigger] self.refs@[k]).name@ != name@,
            decreases i,
        {
            i = i - 1;
            if crate::text::str_eq(self.refs[i].name.as_str(), name) {
                proof {
                    lemma_refs_map_at(self.refs@, i as int);
                }
                return Some(&self.refs[i]);
            }
        }
        proof {
            lemma_refs_map_absent(self.refs@, name@);
        }
        None
    }

    fn lookup_file(&self, path: &str) -> (r: Option<&StoredFile>)
        ensures
            r is Some <==> self.repo_model().files.dom().contains(path@),
            r matches Some(f) ==> self.repo_model().files[path@] == f.contents@,
    {
        let n = self.files.len();
        let mut i: usize = n;
        while i > 0
            invariant
                i <= self.files@.len(),
                forall|k: int|
                    i <= k < self.files@.len() ==> (#[trigger] self.files@[k]).path@ != path@,
            decreases i,
        {
            i = i - 1;
            if crate::text::str_eq(self.files[i].path.as_str(), path) {
                proof {
                    lemma_files_map_at(self.files@, i as int);
                }
                return Some(&self.files[i]);
            }
        }
        proof {
            lemma_files_map_absent(self.files@, path@);
        }
        None
    }

    fn lookup_tag_signers(&self, tag_id: &ObjectId) -> (r: Option<&Vec<String>>)
        ensures
            r is Some <==> self.repo_model().tag_signers.dom().contains(tag_id@),
            r matches Some(v) ==> self.repo_model().tag_signers[tag_id@] == views_of(v@).to_set(),
    {
        let n = self.tags.len();
        let mut i: usize = n;
        while i > 0
            invariant
                i <= self.tags@.len(),
                forall|k: int|
                    i <= k < self.tags@.len() ==> (#[trigger] self.tags@[k]).tag.id@ != tag_id@,
            decreases i,
        {
            i = i - 1;
            if &self.tags[i].tag.id == tag_id {
                proof {
                    lemma_tag_signers_map_at(self.tags@, i as int);
                }
                return Some(&self.tags[i].valid_signature_fingerprints);
            }
        }
        proof {
            lemma_tag_signers_map_absent(self.tags@, tag_id@);
        }
        None
    }
}


/// True iff some id in the vector equals `id`.
fn contains_id(v: &Vec<ObjectId>, id: &ObjectId) -> (r: bool)
    ensures
        r == ids_of(v@).contains(id@),
{
    let mut i: usize = 0;
    while i < v.len()
        invariant
            i <= v@.len(),
            forall|j: int| 0 <= j < i ==> ids_of(v@)[j] != id@,
        decreases v.len() - i,
    {
        if &v[i] == id {
            assert(ids_of(v@)[i as int] == id@);
            return true;
        }
        i += 1;
    }
    assert(forall|j: int| 0 <= j < ids_of(v@).len() ==> ids_of(v@)[j] != id@);
    false
}

/// A parent of a reached commit is reached in one more step.
proof fn lemma_reaches_parent(m: RepoModel, r: Seq<u8>, x: Seq<u8>, n: nat, p: Seq<u8>)
    requires
        m.reaches_within(r, x, n),
        m.parents_of(x).contains(p),
    ensures
        m.reaches_within(r, p, (n + 1) as nat),
    decreases n,
{
    if r == x {
        let j = choose|j: int| 0 <= j < m.parents_of(x).len() && m.parents_of(x)[j] == p;
        assert(m.reaches_within(m.parents_of(r)[j], p, (n) as nat));
    } else {
        let j = choose|j: int|
            0 <= j < m.parents_of(r).len() && m.reaches_within(
                #[trigger] m.parents_of(r)[j],
                x,
                (n - 1) as nat,
            );
        lemma_reaches_parent(m, m.parents_of(r)[j], x, (n - 1) as nat, p);
    }
}

/// Every known parent of `id` already collected.
pub open spec fn dom_parents_included(m: RepoModel, v: Seq<Seq<u8>>, id: Seq<u8>) -> bool {
    forall|pj: int|
        0 <= pj < m.parents_of(id).len() && m.commits.dom().contains(#[trigger] m.parents_of(id)[pj])
            ==> v.contains(m.parents_of(id)[pj])
}

/// A collection that contains a root and is closed under known parents
/// contains every known commit the root reaches.
proof fn lemma_walk_complete(m: RepoModel, v: Seq<Seq<u8>>, r: Seq<u8>, x: Seq<u8>, n: nat)
    requires
        v.contains(r),
        forall|idx: int| 0 <= idx < v.len() ==> dom_parents_included(m, v, #[trigger] v[idx]),
        m.reaches_within(r, x, n),
        m.commits.dom().contains(x),
    ensures
        v.contains(x),
    decreases n,
{
    if r != x {
        let j = choose|j: int|
            0 <= j < m.parents_of(r).len() && m.reaches_within(
                #[trigger] m.parents_of(r)[j],
                x,
                (n - 1) as nat,
            );
        let p = m.parents_of(r)[j];
        let ridx = choose|ridx: int| 0 <= ridx < v.len() && v[ridx] == r;
        assert(dom_parents_included(m, v, v[ridx]));
        if p == x {
            assert(m.parents_of(r).contains(p));
            assert(v.contains(p));
        } else {
            let j2 = choose|j2: int|
                0 <= j2 < m.parents_of(p).len() && m.reaches_within(
                    #[trigger] m.parents_of(p)[j2],
                    x,
                    (n - 2) as nat,
                );
            assert(m.parents_of(p).len() > 0);
            assert(m.commits.dom().contains(p));
            assert(m.parents_of(r).contains(p));
            assert(v.contains(p));
            lemma_walk_complete(m, v, p, x, (n - 1) as nat);
        }
    }
}

/// The commit map holds at most one entry per stored commit.
proof fn lemma_commit_map_dom_len(s: Seq<StoredCommit>)
    ensures
        commit_map(s).dom().finite(),
        commit_map(s).dom().len() <= s.len(),
    decreases s.len(),
{
    if s.len() > 0 {
        lemma_commit_map_dom_len(s.drop_last());
        assert(commit_map(s).dom() =~= commit_map(s.drop_last()).dom().insert(s.last().id@));
    }
}

impl InMemoryGit {
    /// Everything the given roots reach, by an exhaustive worklist walk: the
    /// result has no duplicate, holds only reached ids, and holds every known
    /// commit that is reached.
    #[verifier::loop_isolation(false)]
    #[verifier::spinoff_prover]
    fn reachable_ids(&self, roots: &Vec<ObjectId>) -> (r: Vec<ObjectId>)
        ensures
            ids_of(r@).no_duplicates(),
            forall|id: Seq<u8>|
                #[trigger] ids_of(r@).contains(id) ==> self.repo_model().reachable_from_any(
                    ids_of(roots@).to_set(),
                    id,
                ),
            forall|id: Seq<u8>|
                (self.repo_model().commits.dom().contains(id)
                    && self.repo_model().reachable_from_any(ids_of(roots@).to_set(), id)) ==> (
                #[trigger] ids_of(r@).contains(id)),
    {
        let ghost m = self.repo_model();
        let ghost roots_set = ids_of(roots@).to_set();
        let bound = self.commits.len();
        let mut visited: Vec<ObjectId> = Vec::new();
        let mut i: usize = 0;
        while i < roots.len()
            invariant
                i <= roots@.len(),
                ids_of(visited@).no_duplicates(),
                forall|id: Seq<u8>| #[trigger] ids_of(visited@).contains(id) ==> roots_set.contains(id),
                forall|j: int| 0 <= j < i ==> ids_of(visited@).contains(#[trigger] ids_of(roots@)[j]),
                visited@.len() <= roots@.len(),
            decreases roots.len() - i,
        {
            proof {
                assert(ids_of(roots@)[i as int] == roots@[i as int]@);
            }
            if !contains_id(&visited, &roots[i]) {
                let ghost before = ids_of(visited@);
                let id = roots[i].clone();
                proof {
                    assert(ids_of(visited@.push(id)) =~= before.push(ids_of(roots@)[i as int]));
                }
                visited.push(id);
                proof {
                    assert forall|x: Seq<u8>|
                        ids_of(visited@).contains(x) implies (before.contains(x) || x == ids_of(
                        roots@,
                    )[i as int]) by {
                        vstd::seq_lib::lemma_seq_contains_after_push(
                            before,
                            ids_of(roots@)[i as int],
                            x,
                        );
                    }
                    assert forall|x: Seq<u8>|
                        (before.contains(x) || x == ids_of(roots@)[i as int]) implies ids_of(
                        visited@,
                    ).contains(x) by {
                        vstd::seq_lib::lemma_seq_contains_after_push(
                            before,
                            ids_of(roots@)[i as int],
                            x,
                        );
                    }
                    assert forall|x: Seq<u8>|
                        #[trigger] ids_of(visited@).contains(x) implies roots_set.contains(x) by {
                        if before.contains(x) {
                        } else {
                            assert(x == ids_of(roots@)[i as int]);
                            assert(roots_set.contains(ids_of(roots@)[i as int]));
                        }
                    }
                    assert forall|p: int, q: int|
                        0 <= p < q < ids_of(visited@).len() implies ids_of(visited@)[p] != ids_of(
                        visited@,
                    )[q] by {
                        if q == ids_of(visited@).len() - 1 {
                            assert(!before.contains(ids_of(visited@)[q]));
                            assert(before[p] == ids_of(visited@)[p]);
                        }
                    }
                    assert(roots_set.contains(ids_of(roots@)[i as int]));
                }
            } else {
                proof {
                    assert(ids_of(visited@).contains(ids_of(roots@)[i as int]));
                }
            }
            proof {
                assert forall|j: int|
                    0 <= j < i + 1 implies ids_of(visited@).contains(
                    #[trigger] ids_of(roots@)[j],
                ) by {
                    if j < i {
                        assert(ids_of(visited@).contains(ids_of(roots@)[j]));
                    }
                }
                ids_of(visited@).unique_seq_to_set();
                vstd::seq_lib::seq_to_set_is_finite(ids_of(roots@));
                assert forall|x: Seq<u8>|
                    ids_of(visited@).to_set().contains(x) implies roots_set.contains(x) by {
                    assert(ids_of(visited@).contains(x));
                }
                assert(ids_of(visited@).to_set() <= roots_set);
                vstd::set_lib::lemma_len_subset(ids_of(visited@).to_set(), roots_set);
                ids_of(roots@).lemma_cardinality_of_set();
            }
            i += 1;
        }
        proof {
            assert forall|id: Seq<u8>|
                #[trigger] ids_of(visited@).contains(id) implies m.reachable_from_any(
                roots_set,
                id,
            ) by {
                assert(m.reaches_within(id, id, 0));
            }
            assert forall|id: Seq<u8>|
                roots_set.contains(id) implies #[trigger] ids_of(visited@).contains(id) by {
                let j = choose|j: int| 0 <= j < ids_of(roots@).len() && ids_of(roots@)[j] == id;
                assert(ids_of(visited@).contains(ids_of(roots@)[j]));
            }
        }
        let mut k: usize = 0;
        while k < visited.len()
            invariant
                k <= visited@.len(),
                ids_of(visited@).no_duplicates(),
                forall|id: Seq<u8>|
                    #[trigger] ids_of(visited@).contains(id) ==> m.reachable_from_any(
                        roots_set,
                        id,
                    ),
                forall|id: Seq<u8>|
                    roots_set.contains(id) ==> #[trigger] ids_of(visited@).contains(id),
                forall|id: Seq<u8>|
                    #[trigger] ids_of(visited@).contains(id) ==> (m.commits.dom().contains(id)
                        || roots_set.contains(id)),
                forall|idx: int|
                    0 <= idx < k ==> dom_parents_included(
                        m,
                        ids_of(visited@),
                        #[trigger] ids_of(visited@)[idx],
                    ),
                visited@.len() <= self.commits@.len() + roots@.len(),
            decreases self.commits@.len() + roots@.len() - k,
        {
            let current = visited[k].clone();
            let ghost current_id: Seq<u8> = ids_of(visited@)[k as int];
            proof {
                assert(current@ == current_id);
                assert(ids_of(visited@).contains(current_id));
            }
            match self.lookup_commit(&current) {
                Some(c) => {
                    let ghost parents: Seq<Seq<u8>> = m.parents_of(current_id);
                    proof {
                        assert(ids_of(c.parents@) == parents);
                    }
                    let mut pj: usize = 0;
                    while pj < c.parents.len()
                        invariant
                            pj <= c.parents@.len(),
                            ids_of(c.parents@) == parents,
                            parents == m.parents_of(current_id),
                            k < visited@.len(),
                            ids_of(visited@)[k as int] == current_id,
                            ids_of(visited@).no_duplicates(),
                            forall|id: Seq<u8>|
                                #[trigger] ids_of(visited@).contains(id) ==> m.reachable_from_any(
                                    roots_set,
                                    id,
                                ),
                            forall|id: Seq<u8>|
                                roots_set.contains(id) ==> #[trigger] ids_of(visited@).contains(
                                    id,
                                ),
                            forall|id: Seq<u8>|
                                #[trigger] ids_of(visited@).contains(id) ==> (
                                m.commits.dom().contains(id) || roots_set.contains(id)),
                            forall|idx: int|
                                0 <= idx < k ==> dom_parents_included(
                                    m,
                                    ids_of(visited@),
                                    #[trigger] ids_of(visited@)[idx],
                                ),
                            forall|x: int|
                                0 <= x < pj && m.commits.dom().contains(#[trigger] parents[x])
                                    ==> ids_of(visited@).contains(parents[x]),
                            visited@.len() <= self.commits@.len() + roots@.len(),
                        decreases c.parents.len() - pj,
                    {
                        let p = &c.parents[pj];
                        proof {
                            assert(p@ == parents[pj as int]);
                        }
                        let known = match self.lookup_commit(p) {
                            Some(_) => true,
                            None => false,
                        };
                        if known && !contains_id(&visited, p) {
                            let ghost before = ids_of(visited@);
                            let added = p.clone();
                            proof {
                                assert(ids_of(visited@.push(added)) =~= before.push(
                                    parents[pj as int],
                                ));
                            }
                            visited.push(added);
                            proof {
                                assert forall|x: Seq<u8>|
                                    ids_of(visited@).contains(x) implies (before.contains(x) || x
                                    == parents[pj as int]) by {
                                    vstd::seq_lib::lemma_seq_contains_after_push(
                                        before,
                                        parents[pj as int],
                                        x,
                                    );
                                }
                                assert forall|x: Seq<u8>|
                                    (before.contains(x) || x == parents[pj as int]) implies ids_of(
                                    visited@,
                                ).contains(x) by {
                                    vstd::seq_lib::lemma_seq_contains_after_push(
                                        before,
                                        parents[pj as int],
                                        x,
                                    );
                                }
                                assert forall|pq: int, q: int|
                                    0 <= pq < q < ids_of(visited@).len() implies ids_of(
                                    visited@,
                                )[pq] != ids_of(visited@)[q] by {
                                    if q == ids_of(visited@).len() - 1 {
                                        assert(!before.contains(ids_of(visited@)[q]));
                                        assert(before[pq] == ids_of(visited@)[pq]);
                                    }
                                }
                                // the freshly pushed parent is itself reached
                                assert(m.reachable_from_any(roots_set, current_id));
                                let r0 = choose|r0: Seq<u8>|
                                    roots_set.contains(r0) && m.reachable(r0, current_id);
                                let n0 = choose|n0: nat| m.reaches_within(r0, current_id, n0);
                                assert(m.parents_of(current_id).contains(parents[pj as int]));
                                lemma_reaches_parent(
                                    m,
                                    r0,
                                    current_id,
                                    n0,
                                    parents[pj as int],
                                );
                                assert(m.reachable_from_any(roots_set, parents[pj as int]));
                                // closure of already processed entries persists
                                assert forall|idx: int|
                                    0 <= idx < k implies dom_parents_included(
                                    m,
                                    ids_of(visited@),
                                    #[trigger] ids_of(visited@)[idx],
                                ) by {
                                    assert(ids_of(visited@)[idx] == before[idx]);
                                    assert(dom_parents_included(m, before, before[idx]));
                                }
                                // each invariant clause holds of the grown list
                                assert forall|id2: Seq<u8>|
                                    #[trigger] ids_of(visited@).contains(id2) implies m.reachable_from_any(
                                    roots_set,
                                    id2,
                                ) by {
                                    if before.contains(id2) {
                                    } else {
                                        assert(id2 == parents[pj as int]);
                                    }
                                }
                                assert forall|id2: Seq<u8>|
                                    roots_set.contains(id2) implies #[trigger] ids_of(
                                    visited@,
                                ).contains(id2) by {
                                    assert(before.contains(id2));
                                }
                                assert forall|id2: Seq<u8>|
                                    #[trigger] ids_of(visited@).contains(id2) implies (
                                m.commits.dom().contains(id2) || roots_set.contains(id2)) by {
                                    if before.contains(id2) {
                                    } else {
                                        assert(id2 == parents[pj as int]);
                                        assert(m.commits.dom().contains(id2));
                                    }
                                }
                                // the length bound persists
                                ids_of(visited@).unique_seq_to_set();
                                lemma_commit_map_dom_len(self.commits@);
                                vstd::seq_lib::seq_to_set_is_finite(ids_of(roots@));
                                assert forall|x: Seq<u8>|
                                    ids_of(visited@).to_set().contains(x) implies m.commits.dom().union(
                                    roots_set,
                                ).contains(x) by {
                                    assert(ids_of(visited@).contains(x));
                                    assert(m.commits.dom().contains(x) || roots_set.contains(x));
                                }
                                assert(ids_of(visited@).to_set() <= m.commits.dom().union(
                                    roots_set,
                                ));
                                vstd::set_lib::lemma_len_union(m.commits.dom(), roots_set);
                                vstd::set_lib::lemma_len_subset(
                                    ids_of(visited@).to_set(),
                                    m.commits.dom().union(roots_set),
                                );
                                ids_of(roots@).lemma_cardinality_of_set();
                            }
                        }
                        pj += 1;
                    }
                },
                None => {},
            }
            proof {
                assert(dom_parents_included(m, ids_of(visited@), current_id));
                assert forall|idx: int|
                    0 <= idx < k + 1 implies dom_parents_included(
                    m,
                    ids_of(visited@),
                    #[trigger] ids_of(visited@)[idx],
                ) by {}
            }
            k += 1;
        }
        proof {
            assert forall|id: Seq<u8>|
                (m.commits.dom().contains(id) && m.reachable_from_any(roots_set, id)) implies (
            #[trigger] ids_of(visited@).contains(id)) by {
                let r0 = choose|r0: Seq<u8>| roots_set.contains(r0) && m.reachable(r0, id);
                let n0 = choose|n0: nat| m.reaches_within(r0, id, n0);
                lemma_walk_complete(m, ids_of(visited@), r0, id, n0);
            }
        }
        visited
    }
}


/// Any stored ref's name is in the ref map.
proof fn lemma_refs_map_present(s: Seq<StoredRef>, j: int)
    requires
        0 <= j < s.len(),
    ensures
        refs_map(s).dom().contains(s[j].name@),
    decreases s.len(),
{
    if j < s.len() - 1 {
        lemma_refs_map_present(s.drop_last(), j);
    }
}

fn clone_opt_string(o: &Option<String>) -> (r: Option<String>)
    ensures
        view_opt_str(r) == view_opt_str(*o),
{
    match o {
        Some(s) => Some(s.clone()),
        None => None,
    }
}

fn clone_id_vec(v: &Vec<ObjectId>) -> (r: Vec<ObjectId>)
    ensures
        ids_of(r@) == ids_of(v@),
{
    let mut out: Vec<ObjectId> = Vec::new();
    let mut i: usize = 0;
    while i < v.len()
        invariant
            i <= v@.len(),
            ids_of(out@) =~= ids_of(v@).take(i as int),
        decreases v.len() - i,
    {
        let id = v[i].clone();
        proof {
            assert(ids_of(out@.push(id)) =~= ids_of(out@).push(v@[i as int]@));
            assert(ids_of(v@).take(i + 1) =~= ids_of(v@).take(i as int).push(ids_of(v@)[i as int]));
        }
        out.push(id);
        i += 1;
    }
    proof {
        assert(ids_of(v@).take(v@.len() as int) =~= ids_of(v@));
    }
    out
}

impl InMemoryGit {
    /// Whether a ref name matches one of the configured mainline patterns.
    #[verifier::loop_isolation(false)]
    fn is_mainline_name(&self, name: &str) -> (r: bool)
        ensures
            r == self.repo_model().is_mainline_ref(name@),
    {
        let ghost m = self.repo_model();
        let mut i: usize = 0;
        while i < self.mainlines.len()
            invariant
                i <= self.mainlines@.len(),
                forall|k: int|
                    0 <= k < i ==> !m.matches_mainline_pattern(
                        name@,
                        #[trigger] views_of(self.mainlines@)[k],
                    ),
            decreases self.mainlines.len() - i,
        {
            let p = &self.mainlines[i];
            proof {
                assert(views_of(self.mainlines@)[i as int] == p@);
            }
            if crate::text::str_eq(p.as_str(), "HEAD") {
                if crate::text::str_eq(name, self.head_ref.as_str()) {
                    proof {
                        assert(m.matches_mainline_pattern(
                            name@,
                            views_of(self.mainlines@)[i as int],
                        ));
                    }
                    return true;
                }
            } else {
                let ref_exists = match self.lookup_ref(name) {
                    Some(_) => true,
                    None => false,
                };
                if ref_exists {
                    let full = crate::text::concat_str("refs/heads/", p.as_str());
                    if crate::glob::glob_matches(full.as_str(), name) {
                        proof {
                            assert(m.matches_mainline_pattern(
                                name@,
                                views_of(self.mainlines@)[i as int],
                            ));
                        }
                        return true;
                    }
                }
            }
            i += 1;
        }
        proof {
            assert forall|k: int|
                0 <= k < m.mainlines.len() implies !m.matches_mainline_pattern(
                name@,
                #[trigger] m.mainlines[k],
            ) by {
                assert(m.mainlines[k] == views_of(self.mainlines@)[k]);
            }
        }
        false
    }

    /// The commits the mainline refs point at, as walk exclusion roots.
    #[verifier::loop_isolation(false)]
    fn mainline_targets(&self) -> (r: Vec<ObjectId>)
        ensures
            forall|id: Seq<u8>|
                #[trigger] ids_of(r@).contains(id) <==> self.repo_model().mainline_ids().contains(
                    id,
                ),
    {
        let ghost m = self.repo_model();
        let mut out: Vec<ObjectId> = Vec::new();
        let mut i: usize = 0;
        while i < self.refs.len()
            invariant
                i <= self.refs@.len(),
                forall|id: Seq<u8>|
                    #[trigger] ids_of(out@).contains(id) ==> m.mainline_ids().contains(id),
                forall|j: int|
                    0 <= j < i && m.is_mainline_ref((#[trigger] self.refs@[j]).name@)
                        ==> ids_of(out@).contains(m.refs[self.refs@[j].name@].target),
            decreases self.refs.len() - i,
        {
            let name = &self.refs[i].name;
            let is_m = self.is_mainline_name(name.as_str());
            if is_m {
                match self.lookup_ref(name.as_str()) {
                    Some(e) => {
                        let ghost before = ids_of(out@);
                        let t = e.target.clone();
                        proof {
                            assert(t@ == m.refs[name@].target);
                            assert(ids_of(out@.push(t)) =~= before.push(t@));
                        }
                        out.push(t);
                        proof {
                            assert forall|id: Seq<u8>|
                                ids_of(out@).contains(id) <==> (before.contains(id) || id
                                == m.refs[name@].target) by {
                                vstd::seq_lib::lemma_seq_contains_after_push(
                                    before,
                                    m.refs[name@].target,
                                    id,
                                );
                            }
                            assert(m.is_mainline_ref(name@) && m.refs.dom().contains(name@)
                                && m.refs[name@].target == t@);
                            assert(m.mainline_ids().contains(m.refs[name@].target));
                            assert forall|id: Seq<u8>|
                                #[trigger] ids_of(out@).contains(id) implies m.mainline_ids().contains(
                                id,
                            ) by {
                                if !before.contains(id) {
                                    assert(id == m.refs[name@].target);
                                }
                            }
                            vstd::seq_lib::lemma_seq_contains_after_push(before, t@, t@);
                            assert(before.push(t@).contains(t@));
                            assert(ids_of(out@).contains(m.refs[name@].target));
                            assert forall|j: int|
                                0 <= j < i + 1 && m.is_mainline_ref(
                                (#[trigger] self.refs@[j]).name@,
                            ) implies ids_of(out@).contains(
                                m.refs[self.refs@[j].name@].target,
                            ) by {
                                if j < i {
                                    assert(before.contains(m.refs[self.refs@[j].name@].target));
                                }
                            }
                        }
                    },
                    None => {
                        proof {
                            lemma_refs_map_present(self.refs@, i as int);
                            assert(false);
                        }
                    },
                }
            } else {
                proof {
                    assert forall|j: int|
                        0 <= j < i + 1 && m.is_mainline_ref(
                        (#[trigger] self.refs@[j]).name@,
                    ) implies ids_of(out@).contains(m.refs[self.refs@[j].name@].target) by {
                        if j == i {
                            assert(self.refs@[j].name@ == name@);
                            assert(false);
                        }
                    }
                }
            }
            i += 1;
        }
        proof {
            assert forall|id: Seq<u8>|
                m.mainline_ids().contains(id) implies ids_of(out@).contains(id) by {
                let name = choose|name: Seq<char>|
                    m.is_mainline_ref(name) && m.refs.dom().contains(name) && (
                    #[trigger] m.refs[name]).target == id;
                if !(exists|j: int|
                    0 <= j < self.refs@.len() && (#[trigger] self.refs@[j]).name@ == name) {
                    lemma_refs_map_absent(self.refs@, name);
                    assert(false);
                }
                let j = choose|j: int|
                    0 <= j < self.refs@.len() && (#[trigger] self.refs@[j]).name@ == name;
                assert(ids_of(out@).contains(m.refs[self.refs@[j].name@].target));
            }
        }
        out
    }

    /// Assembles the commit record the engine receives, with its tags filtered
    /// by the override pattern.
    #[verifier::loop_isolation(false)]
    fn build_commit(&self, stored: &StoredCommit, override_tag_pattern: &Option<String>) -> (r:
        crate::git::Commit)
        requires
            self.repo_model().commits.dom().contains(stored.id@),
            self.repo_model().commits[stored.id@] == stored@,
        ensures
            r@ == self.repo_model().commit_view_of(stored.id@, view_opt_str(*override_tag_pattern)),
            r.id@ == stored.id@,
    {
        let ghost m = self.repo_model();
        let ghost pat = view_opt_str(*override_tag_pattern);
        let ghost id = stored.id@;
        let mut tags: Vec<Tag> = Vec::new();
        let mut j: usize = 0;
        proof {
            assert(self.tags@.take(0) =~= Seq::<StoredTag>::empty());
            assert(tag_views_of(tags@) =~= Seq::<TagView>::empty());
        }
        while j < self.tags.len()
            invariant
                j <= self.tags@.len(),
                tag_views_of(tags@) =~= (match pat {
                    None => tags_for(self.tags@.take(j as int), id),
                    Some(p) => tags_for(self.tags@.take(j as int), id).filter(
                        |t: TagView| crate::glob::glob_match(p, t.name),
                    ),
                }),
            decreases self.tags.len() - j,
        {
            let st = &self.tags[j];
            proof {
                assert(self.tags@.take(j + 1).drop_last() =~= self.tags@.take(j as int));
                assert(self.tags@.take(j + 1).last() == self.tags@[j as int]);
            }
            let target_matches = &st.target == &stored.id;
            if target_matches {
                let keep = match override_tag_pattern {
                    None => true,
                    Some(p) => crate::glob::glob_matches(p.as_str(), st.tag.name.as_str()),
                };
                let ghost tf = tags_for(self.tags@.take(j as int), id);
                let ghost delta = seq![st.tag@];
                proof {
                    assert(tags_for(self.tags@.take(j + 1), id) =~= tf + delta);
                    if pat is Some {
                        let p = pat->0;
                        let pred = |t: TagView| crate::glob::glob_match(p, t.name);
                        Seq::<TagView>::filter_distributes_over_add(tf, delta, pred);
                        reveal_with_fuel(Seq::filter, 2);
                        assert(delta.drop_last() =~= Seq::<TagView>::empty());
                        assert(Seq::<TagView>::empty().filter(pred) =~= Seq::<TagView>::empty());
                        if pred(st.tag@) {
                            assert(delta.filter(pred) =~= seq![st.tag@]);
                        } else {
                            assert(delta.filter(pred) =~= Seq::<TagView>::empty());
                        }
                    }
                }
                if keep {
                    let t = st.tag.clone();
                    proof {
                        assert(tag_views_of(tags@.push(t)) =~= tag_views_of(tags@) + seq![
                            st.tag@,
                        ]);
                    }
                    tags.push(t);
                }
            } else {
                proof {
                    assert(tags_for(self.tags@.take(j + 1), id) =~= tags_for(
                        self.tags@.take(j as int),
                        id,
                    ));
                }
            }
            j += 1;
        }
        proof {
            assert(self.tags@.take(self.tags@.len() as int) =~= self.tags@);
            assert(m.commit_tags(id) =~= tags_for(self.tags@, id)) by {
                if tags_for(self.tags@, id).len() > 0 {
                    assert(m.tags.dom().contains(id));
                    assert(m.tags[id] == tags_for(self.tags@, id));
                } else {
                    assert(!m.tags.dom().contains(id));
                }
            }
        }
        let parents = clone_id_vec(&stored.parents);
        let is_merge = stored.parents.len() > 1;
        let r = crate::git::Commit {
            id: stored.id.clone(),
            author_email: clone_opt_string(&stored.author_email),
            committer_email: clone_opt_string(&stored.committer_email),
            is_identical_tree_to_any_parent: stored.is_identical_tree_to_any_parent,
            is_merge_commit: is_merge,
            tags,
            parents,
        };
        proof {
            assert(r@ =~= m.commit_view_of(id, pat));
        }
        r
    }
}


impl InMemoryGit {
    /// The nonzero ids of the list, each checked to be a known commit: the
    /// roots a revision walk starts or stops at. An unknown nonzero id fails,
    /// as it does on a live repository.
    #[verifier::loop_isolation(false)]
    fn known_nonzero_roots(&self, ids: &Vec<ObjectId>) -> (r: Result<Vec<ObjectId>, CapnError>)
        ensures
            r matches Ok(v) ==> forall|id: Seq<u8>|
                #[trigger] ids_of(v@).contains(id) <==> (ids_of(ids@).contains(id) && !is_all_zero(
                    id,
                )),
    {
        let mut out: Vec<ObjectId> = Vec::new();
        let mut i: usize = 0;
        while i < ids.len()
            invariant
                i <= ids@.len(),
                forall|id: Seq<u8>|
                    #[trigger] ids_of(out@).contains(id) <==> (exists|j: int|
                        0 <= j < i && ids_of(ids@)[j] == id && !is_all_zero(id)),
            decreases ids.len() - i,
        {
            proof {
                assert(ids_of(ids@)[i as int] == ids@[i as int]@);
            }
            if !ids[i].is_zero() {
                let known = match self.lookup_commit(&ids[i]) {
                    Some(_) => true,
                    None => false,
                };
                if !known {
                    return Err(CapnError::new("unknown commit id in revision walk"));
                }
                let ghost before = ids_of(out@);
                let id = ids[i].clone();
                proof {
                    assert(ids_of(out@.push(id)) =~= before.push(ids_of(ids@)[i as int]));
                }
                out.push(id);
                proof {
                    assert forall|id2: Seq<u8>|
                        #[trigger] ids_of(out@).contains(id2) <==> (before.contains(id2) || id2
                        == ids_of(ids@)[i as int]) by {
                        vstd::seq_lib::lemma_seq_contains_after_push(
                            before,
                            ids_of(ids@)[i as int],
                            id2,
                        );
                    }
                }
            }
            proof {
                assert forall|id2: Seq<u8>|
                    #[trigger] ids_of(out@).contains(id2) <==> (exists|j: int|
                        0 <= j < i + 1 && ids_of(ids@)[j] == id2 && !is_all_zero(id2)) by {
                    if ids_of(out@).contains(id2) {
                        if !(exists|j: int| 0 <= j < i && ids_of(ids@)[j] == id2 && !is_all_zero(id2)) {
                            assert(ids_of(ids@)[i as int] == id2 && !is_all_zero(id2));
                        }
                    } else {
                        assert forall|j: int|
                            0 <= j < i + 1 implies !(ids_of(ids@)[j] == id2 && !is_all_zero(id2)) by {
                            if j < i {
                                if ids_of(ids@)[j] == id2 && !is_all_zero(id2) {
                                    assert(ids_of(out@).contains(id2));
                                }
                            }
                        }
                    }
                }
            }
            i += 1;
        }
        proof {
            assert forall|id: Seq<u8>|
                (ids_of(ids@).contains(id) && !is_all_zero(id)) implies #[trigger] ids_of(
                out@,
            ).contains(id) by {
                let j = choose|j: int| 0 <= j < ids_of(ids@).len() && ids_of(ids@)[j] == id;
                assert(0 <= j < ids@.len());
            }
        }
        Ok(out)
    }
}

/// The commits a walk yields for given inclusion and hiding root sets.
pub open spec fn walk_result_set(
    m: RepoModel,
    hide_set: Set<Seq<u8>>,
    incl_set: Set<Seq<u8>>,
) -> Set<Seq<u8>> {
    Set::new(
        |id: Seq<u8>|
            m.commits.dom().contains(id) && m.reachable_from_any(incl_set, id)
                && !m.reachable_from_any(hide_set, id),
    )
}

impl InMemoryGit {
    /// The ids a revision walk yields: every known commit that is included
    /// and not hidden, each exactly once.
    #[verifier::loop_isolation(false)]
    #[verifier::spinoff_prover]
    fn filter_new_ids(
        &self,
        included: &Vec<ObjectId>,
        hidden: &Vec<ObjectId>,
        Ghost(incl_set): Ghost<Set<Seq<u8>>>,
        Ghost(hide_set): Ghost<Set<Seq<u8>>>,
    ) -> (r: Vec<ObjectId>)
        requires
            ids_of(included@).no_duplicates(),
            forall|id: Seq<u8>|
                #[trigger] ids_of(included@).contains(id) ==> self.repo_model().reachable_from_any(
                    incl_set,
                    id,
                ),
            forall|id: Seq<u8>|
                (self.repo_model().commits.dom().contains(id)
                    && self.repo_model().reachable_from_any(incl_set, id)) ==> #[trigger] ids_of(
                    included@,
                ).contains(id),
            forall|id: Seq<u8>|
                #[trigger] ids_of(hidden@).contains(id) ==> self.repo_model().reachable_from_any(
                    hide_set,
                    id,
                ),
            forall|id: Seq<u8>|
                (self.repo_model().commits.dom().contains(id)
                    && self.repo_model().reachable_from_any(hide_set, id)) ==> #[trigger] ids_of(
                    hidden@,
                ).contains(id),
        ensures
            ids_of(r@).no_duplicates(),
            forall|j: int|
                0 <= j < r@.len() ==> #[trigger] walk_result_set(
                    self.repo_model(),
                    hide_set,
                    incl_set,
                ).contains(ids_of(r@)[j]),
            forall|id: Seq<u8>|
                walk_result_set(self.repo_model(), hide_set, incl_set).contains(id)
                    ==> #[trigger] ids_of(r@).contains(id),
    {
        let ghost m = self.repo_model();
        let ghost result_ids = walk_result_set(m, hide_set, incl_set);
        let mut out: Vec<ObjectId> = Vec::new();
        let mut k: usize = 0;
        while k < included.len()
            invariant
                k <= included@.len(),
                ids_of(out@).no_duplicates(),
                forall|j: int|
                    0 <= j < out@.len() ==> #[trigger] result_ids.contains(ids_of(out@)[j]),
                forall|j: int|
                    0 <= j < out@.len() ==> exists|x: int|
                        0 <= x < k && ids_of(included@)[x] == #[trigger] ids_of(out@)[j],
                forall|j: int|
                    0 <= j < k && result_ids.contains(#[trigger] ids_of(included@)[j]) ==> ids_of(
                        out@,
                    ).contains(ids_of(included@)[j]),
            decreases included.len() - k,
        {
            let id = &included[k];
            proof {
                assert(ids_of(included@)[k as int] == id@);
            }
            let hidden_has = contains_id(hidden, id);
            let known = match self.lookup_commit(id) {
                Some(_) => true,
                None => false,
            };
            if known && !hidden_has {
                let ghost before = ids_of(out@);
                let added = id.clone();
                proof {
                    if m.reachable_from_any(hide_set, id@) {
                        assert(ids_of(hidden@).contains(id@));
                    }
                    assert(ids_of(included@).contains(id@));
                    assert(result_ids.contains(id@));
                    assert(ids_of(out@.push(added)) =~= before.push(id@));
                    // freshness: everything collected so far sits at an
                    // earlier position of the duplicate-free walk output
                    assert(!before.contains(id@)) by {
                        if before.contains(id@) {
                            let j = choose|j: int| 0 <= j < before.len() && before[j] == id@;
                            let x = choose|x: int|
                                0 <= x < k && ids_of(included@)[x] == before[j];
                        }
                    }
                }
                out.push(added);
                proof {
                    assert forall|x: Seq<u8>|
                        ids_of(out@).contains(x) <==> (before.contains(x) || x == id@) by {
                        vstd::seq_lib::lemma_seq_contains_after_push(before, id@, x);
                    }
                    assert forall|p: int, q: int|
                        0 <= p < q < ids_of(out@).len() implies ids_of(out@)[p] != ids_of(
                        out@,
                    )[q] by {
                        if q == ids_of(out@).len() - 1 {
                            assert(!before.contains(ids_of(out@)[q]));
                            assert(before[p] == ids_of(out@)[p]);
                        }
                    }
                    assert forall|j: int|
                        0 <= j < out@.len() implies exists|x: int|
                        0 <= x < k + 1 && ids_of(included@)[x] == #[trigger] ids_of(out@)[j] by {
                        if j < before.len() {
                            assert(ids_of(out@)[j] == before[j]);
                            let x = choose|x: int|
                                0 <= x < k && ids_of(included@)[x] == before[j];
                        } else {
                            assert(ids_of(out@)[j] == ids_of(included@)[k as int]);
                        }
                    }
                }
            } else {
                proof {
                    if known {
                        assert(m.reachable_from_any(hide_set, id@));
                        assert(!result_ids.contains(id@));
                    } else {
                        assert(!result_ids.contains(id@));
                    }
                }
            }
            k += 1;
        }
        proof {
            assert forall|id: Seq<u8>|
                result_ids.contains(id) implies #[trigger] ids_of(out@).contains(id) by {
                assert(m.commits.dom().contains(id));
                assert(m.reachable_from_any(incl_set, id));
                assert(ids_of(included@).contains(id));
                let j = choose|j: int| 0 <= j < ids_of(included@).len() && ids_of(included@)[j] == id;
                assert(result_ids.contains(ids_of(included@)[j]));
            }
        }
        out
    }

    /// The full commit records for a list of known ids, in list order.
    #[verifier::loop_isolation(false)]
    #[verifier::spinoff_prover]
    fn build_commits(&self, ids: &Vec<ObjectId>, override_tag_pattern: &Option<String>) -> (r: Vec<
        crate::git::Commit,
    >)
        requires
            forall|j: int|
                0 <= j < ids@.len() ==> self.repo_model().commits.dom().contains(
                    #[trigger] ids_of(ids@)[j],
                ),
        ensures
            r@.len() == ids@.len(),
            forall|j: int| 0 <= j < r@.len() ==> (#[trigger] r@[j]).id@ == ids_of(ids@)[j],
            forall|j: int|
                0 <= j < r@.len() ==> (#[trigger] r@[j])@ == self.repo_model().commit_view_of(
                    ids_of(ids@)[j],
                    view_opt_str(*override_tag_pattern),
                ),
    {
        let mut out: Vec<crate::git::Commit> = Vec::new();
        let mut k: usize = 0;
        while k < ids.len()
            invariant
                k <= ids@.len(),
                out@.len() == k,
                forall|j: int| 0 <= j < k ==> (#[trigger] out@[j]).id@ == ids_of(ids@)[j],
                forall|j: int|
                    0 <= j < k ==> (#[trigger] out@[j])@ == self.repo_model().commit_view_of(
                        ids_of(ids@)[j],
                        view_opt_str(*override_tag_pattern),
                    ),
            decreases ids.len() - k,
        {
            proof {
                assert(ids_of(ids@)[k as int] == ids@[k as int]@);
            }
            match self.lookup_commit(&ids[k]) {
                Some(sc) => {
                    let c = self.build_commit(sc, override_tag_pattern);
                    out.push(c);
                },
                None => {
                    proof {
                        assert(false);
                    }
                },
            }
            k += 1;
        }
        out
    }
}

impl crate::git::Git for InMemoryGit {
    open spec fn model(&self) -> RepoModel {
        self.repo_model()
    }

    fn read_file(&self, path: &str) -> (r: Result<String, CapnError>) {
        match self.lookup_file(path) {
            Some(f) => Ok(f.contents.clone()),
            None => Err(CapnError::new("no such file in the repository")),
        }
    }

    fn write_git_file(&self, path: &str, file_mode: u32, contents: &str) -> (r: Result<
        (),
        CapnError,
    >) {
        Ok(())
    }

    fn current_branch(&self) -> (r: Result<String, CapnError>) {
        Ok(self.head_shorthand.clone())
    }

    fn is_tag(&self, ref_name: &str) -> (r: Result<bool, CapnError>) {
        match self.lookup_ref(ref_name) {
            Some(e) => Ok(e.is_tag),
            None => Ok(crate::text::str_starts_with(ref_name, "refs/tags")),
        }
    }

    fn find_commit(&self, commit_id: &ObjectId, override_tag_pattern: &Option<String>) -> (r:
        Result<crate::git::Commit, CapnError>) {
        match self.lookup_commit(commit_id) {
            Some(sc) => Ok(self.build_commit(sc, override_tag_pattern)),
            None => Err(CapnError::new("no such commit")),
        }
    }

    #[verifier::loop_isolation(false)]
    #[verifier::spinoff_prover]
    fn find_new_commits(
        &self,
        exclusions: &Vec<ObjectId>,
        inclusions: &Vec<ObjectId>,
        override_tag_pattern: &Option<String>,
    ) -> (r: Result<Vec<crate::git::Commit>, CapnError>) {
        let ghost m = self.repo_model();
        let ghost pat = view_opt_str(*override_tag_pattern);
        let ghost incl_set = crate::git::nonzero_id_set(ids_of(inclusions@));
        let ghost excl_set = crate::git::nonzero_id_set(ids_of(exclusions@));
        let incl_roots = match self.known_nonzero_roots(inclusions) {
            Ok(v) => v,
            Err(e) => {
                return Err(e);
            },
        };
        let mut hide_roots = match self.known_nonzero_roots(exclusions) {
            Ok(v) => v,
            Err(e) => {
                return Err(e);
            },
        };
        let ghost excl_only = ids_of(hide_roots@);
        let mainline = self.mainline_targets();
        let mut x: usize = 0;
        while x < mainline.len()
            invariant
                x <= mainline@.len(),
                forall|id: Seq<u8>|
                    #[trigger] ids_of(hide_roots@).contains(id) <==> (excl_only.contains(id) || (
                    exists|j: int| 0 <= j < x && ids_of(mainline@)[j] == id)),
            decreases mainline.len() - x,
        {
            let ghost before = ids_of(hide_roots@);
            let id = mainline[x].clone();
            proof {
                assert(ids_of(hide_roots@.push(id)) =~= before.push(ids_of(mainline@)[x as int]));
            }
            hide_roots.push(id);
            proof {
                assert forall|id2: Seq<u8>|
                    #[trigger] ids_of(hide_roots@).contains(id2) <==> (before.contains(id2) || id2
                    == ids_of(mainline@)[x as int]) by {
                    vstd::seq_lib::lemma_seq_contains_after_push(
                        before,
                        ids_of(mainline@)[x as int],
                        id2,
                    );
                }
            }
            x += 1;
        }
        proof {
            assert forall|id: Seq<u8>|
                #[trigger] ids_of(hide_roots@).contains(id) <==> excl_set.union(
                m.mainline_ids(),
            ).contains(id) by {
                if ids_of(hide_roots@).contains(id) {
                    if !excl_only.contains(id) {
                        let j = choose|j: int|
                            0 <= j < mainline@.len() && ids_of(mainline@)[j] == id;
                        assert(ids_of(mainline@).contains(id));
                    }
                } else {
                    if m.mainline_ids().contains(id) {
                        assert(ids_of(mainline@).contains(id));
                        let j = choose|j: int|
                            0 <= j < ids_of(mainline@).len() && ids_of(mainline@)[j] == id;
                        assert(ids_of(hide_roots@).contains(id));
                    }
                }
            }
        }
        let hidden = self.reachable_ids(&hide_roots);
        let included = self.reachable_ids(&incl_roots);
        proof {
            assert forall|id: Seq<u8>|
                #[trigger] ids_of(incl_roots@).to_set().contains(id) <==> incl_set.contains(
                id,
            ) by {
                assert(ids_of(incl_roots@).to_set().contains(id) == ids_of(incl_roots@).contains(
                    id,
                ));
            }
            assert(ids_of(incl_roots@).to_set() =~= incl_set);
            assert forall|id: Seq<u8>|
                #[trigger] ids_of(hide_roots@).to_set().contains(id) <==> excl_set.union(
                m.mainline_ids(),
            ).contains(id) by {
                assert(ids_of(hide_roots@).to_set().contains(id) == ids_of(hide_roots@).contains(
                    id,
                ));
            }
            assert(ids_of(hide_roots@).to_set() =~= excl_set.union(m.mainline_ids()));
        }
        let new_ids = self.filter_new_ids(
            &included,
            &hidden,
            Ghost(incl_set),
            Ghost(excl_set.union(m.mainline_ids())),
        );
        let ghost result_set = walk_result_set(m, excl_set.union(m.mainline_ids()), incl_set);
        proof {
            assert forall|j: int|
                0 <= j < new_ids@.len() implies m.commits.dom().contains(
                #[trigger] ids_of(new_ids@)[j],
            ) by {
                assert(result_set.contains(ids_of(new_ids@)[j]));
            }
        }
        let out = self.build_commits(&new_ids, override_tag_pattern);
        proof {
            assert(m.new_commit_ids(excl_set, incl_set) =~= result_set);
            assert forall|id: Seq<u8>|
                result_set.contains(id) implies (exists|a: int|
                0 <= a < out@.len() && (#[trigger] out@[a]).id@ == id) by {
                assert(ids_of(new_ids@).contains(id));
                let j = choose|j: int| 0 <= j < ids_of(new_ids@).len() && ids_of(new_ids@)[j] == id;
                assert(out@[j].id@ == id);
            }
            assert(crate::git::walk_post(
                m,
                ids_of(exclusions@),
                ids_of(inclusions@),
                pat,
                out@,
            ));
        }
        Ok(out)
    }

    fn is_merge_commit(&self, commit_id: &ObjectId) -> (r: bool) {
        match self.lookup_commit(commit_id) {
            Some(c) => c.parents.len() > 1,
            None => false,
        }
    }

    fn is_trivial_merge_commit(&self, commit: &crate::git::Commit) -> (r: Result<bool, CapnError>) {
        match self.lookup_commit(&commit.id) {
            Some(c) => Ok(c.parents.len() == 2 && c.is_trivial_merge),
            None => Err(CapnError::new("no such commit")),
        }
    }

    fn is_mainline(&self, ref_name: &str) -> (r: Result<bool, CapnError>) {
        Ok(self.is_mainline_name(ref_name))
    }

    fn verify_commit_signature(&self, commit: &crate::git::Commit, keyring: &crate::keyring::Keyring)
        -> (r: Result<bool, CapnError>) {
        let email = match &commit.committer_email {
            Some(e) => e,
            None => {
                return Ok(false);
            },
        };
        let fp = match keyring.fingerprint_id_from_email(email.as_str()) {
            Some(f) => f,
            None => {
                return Ok(false);
            },
        };
        match self.lookup_commit(&commit.id) {
            Some(c) => {
                let has = crate::keyring::contains_str(&c.valid_signature_fingerprints, fp.as_str());
                proof {
                    assert(self.repo_model().commit_signers(commit.id@) == views_of(
                        c.valid_signature_fingerprints@,
                    ).to_set());
                }
                Ok(has)
            },
            None => {
                proof {
                    assert(self.repo_model().commit_signers(commit.id@) =~= Set::<Seq<char>>::empty());
                }
                Ok(false)
            },
        }
    }

    fn verify_tag_signature(&self, tag: &Tag, keyring: &crate::keyring::Keyring) -> (r: Result<
        bool,
        CapnError,
    >) {
        let email = match &tag.tagger_email {
            Some(e) => e,
            None => {
                return Ok(false);
            },
        };
        let fp = match keyring.fingerprint_id_from_email(email.as_str()) {
            Some(f) => f,
            None => {
                return Ok(false);
            },
        };
        match self.lookup_tag_signers(&tag.id) {
            Some(v) => {
                let has = crate::keyring::contains_str(v, fp.as_str());
                Ok(has)
            },
            None => {
                proof {
                    assert(self.repo_model().tag_signers_of(tag.id@) =~= Set::<Seq<char>>::empty());
                }
                Ok(false)
            },
        }
    }

    fn is_descendent_of(&self, commit: &ObjectId, ancestor: &ObjectId) -> (r: Result<
        bool,
        CapnError,
    >) {
        let commit_known = match self.lookup_commit(commit) {
            Some(_) => true,
            None => false,
        };
        let ancestor_known = match self.lookup_commit(ancestor) {
            Some(_) => true,
            None => false,
        };
        if !commit_known || !ancestor_known {
            return Err(CapnError::new("unknown commit in ancestry query"));
        }
        if commit == ancestor {
            return Ok(false);
        }
        let mut roots: Vec<ObjectId> = Vec::new();
        roots.push(commit.clone());
        proof {
            assert(ids_of(roots@) =~= seq![commit@]);
        }
        let visited = self.reachable_ids(&roots);
        let reached = contains_id(&visited, ancestor);
        proof {
            let roots_set = ids_of(roots@).to_set();
            assert(ids_of(roots@)[0] == commit@);
            assert(ids_of(roots@).contains(commit@));
            assert(roots_set.contains(commit@));
            if reached {
                let r0 = choose|r0: Seq<u8>|
                    roots_set.contains(r0) && self.repo_model().reachable(r0, ancestor@);
                assert(ids_of(roots@).contains(r0));
                assert(r0 == commit@);
            } else {
                if self.repo_model().reachable(commit@, ancestor@) {
                    assert(ids_of(visited@).contains(ancestor@));
                }
            }
        }
        Ok(reached)
    }
}

} // verus!
