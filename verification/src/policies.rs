pub mod policy_result;

use vstd::prelude::*;

use crate::error::CapnError;
use crate::git::{
    commit_signature_valid, commit_views_of, ids_of, tag_signature_valid, view_opt_str, walk_post,
    Commit, CommitView, Git, RepoModel, TagView,
};
use crate::config::{VerifyConfigView, VerifyGitCommitsConfig};
use crate::gpg::Gpg;
use crate::keyring::{contains_str, keyring_of_text, mark_available, FingerprintView, Keyring};
use crate::oid::ObjectId;
use crate::policies::policy_result::{
    and_verdict, first_failure, fold_policy_results, lemma_fold_all_pass, lemma_fold_pass_all,
    verdicts_of, PolicyResult, Verdict,
};
use crate::reference_update::{RefUpdateView, ReferenceUpdate};
use crate::text::{concat_str, ends_with, str_ends_with, views_of};

verus! {

/// The email-domain verdict on one commit: both emails must be present and
/// end in `@` followed by the configured domain; the first rule broken, in
/// this order, is the verdict.
pub open spec fn email_verdict(ad: Seq<char>, cd: Seq<char>, c: CommitView) -> Verdict {
    if c.author_email is None {
        Verdict::MissingAuthorEmail(c.id)
    } else if c.committer_email is None {
        Verdict::MissingCommitterEmail(c.id)
    } else if !ends_with(c.author_email->0, "@"@ + ad) {
        Verdict::InvalidAuthorEmail(c.id, c.author_email->0)
    } else if !ends_with(c.committer_email->0, "@"@ + cd) {
        Verdict::InvalidCommitterEmail(c.id, c.committer_email->0)
    } else {
        Verdict::Pass
    }
}

/// The email verdicts of a list of commits, in list order.
pub open spec fn email_verdicts(ad: Seq<char>, cd: Seq<char>, cs: Seq<CommitView>) -> Seq<Verdict> {
    cs.map_values(|c: CommitView| email_verdict(ad, cd, c))
}

/// Checks every commit's author and committer email against the configured
/// domains and reports the first offence in list order.
#[verifier::loop_isolation(false)]
pub fn verify_email_addresses(author_domain: &str, committer_domain: &str, commits: &Vec<Commit>)
    -> (r: PolicyResult)
    ensures
        r@ == first_failure(
            email_verdicts(author_domain@, committer_domain@, commit_views_of(commits@)),
        ),
{
    let author_suffix = concat_str("@", author_domain);
    let committer_suffix = concat_str("@", committer_domain);
    let ghost goal: Seq<Verdict> = email_verdicts(
        author_domain@,
        committer_domain@,
        commit_views_of(commits@),
    );
    let mut results: Vec<PolicyResult> = Vec::new();
    let mut i: usize = 0;
    while i < commits.len()
        invariant
            i <= commits@.len(),
            verdicts_of(results@) =~= goal.take(i as int),
        decreases commits.len() - i,
    {
        let c = &commits[i];
        let v: PolicyResult = match (&c.author_email, &c.committer_email) {
            (None, _) => PolicyResult::MissingAuthorEmail(c.id.clone()),
            (_, None) => PolicyResult::MissingCommitterEmail(c.id.clone()),
            (Some(author), Some(committer)) => {
                if !str_ends_with(author.as_str(), author_suffix.as_str()) {
                    PolicyResult::InvalidAuthorEmail(c.id.clone(), author.clone())
                } else if !str_ends_with(committer.as_str(), committer_suffix.as_str()) {
                    PolicyResult::InvalidCommitterEmail(c.id.clone(), committer.clone())
                } else {
                    PolicyResult::Pass
                }
            },
        };
        proof {
            assert(v@ == email_verdict(author_domain@, committer_domain@, commits@[i as int]@));
            assert(verdicts_of(results@.push(v)) =~= verdicts_of(results@) + seq![v@]);
            assert(goal.take(i + 1) =~= goal.take(i as int) + seq![goal[i as int]]);
        }
        results.push(v);
        i += 1;
    }
    proof {
        assert(goal.take(commits@.len() as int) =~= goal);
    }
    fold_policy_results(results)
}

/// The signature verdict on one commit, given the outcome of the signature
/// check and of the trivial-merge reproduction: a commit whose tree equals a
/// parent's needs no signature; a valid signature passes; a merge an automatic
/// merge reproduces needs no signature; anything else is unsigned.
pub open spec fn signature_verdict(c: CommitView, signature_ok: bool, trivial_merge_ok: bool)
    -> Verdict {
    if c.is_identical_tree_to_any_parent {
        Verdict::Pass
    } else if signature_ok {
        Verdict::Pass
    } else if trivial_merge_ok {
        Verdict::Pass
    } else if c.is_merge_commit {
        Verdict::UnsignedMergeCommit(c.id)
    } else {
        Verdict::UnsignedCommit(c.id)
    }
}

/// Trivial-tree exemption: a commit whose tree equals a parent's tree passes
/// the signature policy whatever the signature and merge checks say.
pub proof fn lemma_trivial_tree_exemption(c: CommitView, signature_ok: bool, trivial_merge_ok: bool)
    requires
        c.is_identical_tree_to_any_parent,
    ensures
        signature_verdict(c, signature_ok, trivial_merge_ok) is Pass,
{
}

/// The signature verdict as an executable decision on given check outcomes.
pub fn classify_commit_signature(c: &Commit, signature_ok: bool, trivial_merge_ok: bool) -> (r:
    PolicyResult)
    ensures
        r@ == signature_verdict(c@, signature_ok, trivial_merge_ok),
{
    if c.is_identical_tree_to_any_parent {
        PolicyResult::Pass
    } else if signature_ok {
        PolicyResult::Pass
    } else if trivial_merge_ok {
        PolicyResult::Pass
    } else if c.is_merge_commit {
        PolicyResult::UnsignedMergeCommit(c.id.clone())
    } else {
        PolicyResult::UnsignedCommit(c.id.clone())
    }
}

/// The committer emails of a commit list, present ones only, in list order.
pub open spec fn committer_emails_of(cs: Seq<CommitView>) -> Seq<Seq<char>>
    decreases cs.len(),
{
    if cs.len() == 0 {
        Seq::empty()
    } else {
        committer_emails_of(cs.drop_last()) + (match cs.last().committer_email {
            Some(e) => seq![e],
            None => Seq::<Seq<char>>::empty(),
        })
    }
}

/// A commit that needs no further signature scrutiny: its tree equals a
/// parent's, or it carries a valid signature against the keyring, or it is a
/// merge that an automatic merge of its parents reproduces exactly.
pub open spec fn signature_exempt_or_valid(
    m: RepoModel,
    k: Map<Seq<char>, FingerprintView>,
    c: CommitView,
) -> bool {
    c.is_identical_tree_to_any_parent || commit_signature_valid(m, c, k) || m.is_trivial_merge(c.id)
}

fn collect_committer_emails(commits: &Vec<Commit>) -> (r: Vec<String>)
    ensures
        crate::text::views_of(r@) == committer_emails_of(commit_views_of(commits@)),
{
    let ghost goal: Seq<Seq<char>> = committer_emails_of(commit_views_of(commits@));
    let mut emails: Vec<String> = Vec::new();
    let mut i: usize = 0;
    while i < commits.len()
        invariant
            i <= commits@.len(),
            crate::text::views_of(emails@) =~= committer_emails_of(
                commit_views_of(commits@).take(i as int),
            ),
        decreases commits.len() - i,
    {
        proof {
            let cs = commit_views_of(commits@);
            assert(cs.take(i + 1).drop_last() =~= cs.take(i as int));
            assert(cs.take(i + 1).last() == cs[i as int]);
        }
        match &commits[i].committer_email {
            Some(e) => {
                let e = e.clone();
                proof {
                    assert(crate::text::views_of(emails@.push(e)) =~= crate::text::views_of(emails@)
                        + seq![e@]);
                }
                emails.push(e);
            },
            None => {},
        }
        i += 1;
    }
    proof {
        let cs = commit_views_of(commits@);
        assert(cs.take(commits@.len() as int) =~= cs);
    }
    emails
}

/// The signature verdicts of a commit list against the model and a keyring,
/// in list order.
pub open spec fn signature_verdicts(
    m: RepoModel,
    k: Map<Seq<char>, FingerprintView>,
    cs: Seq<CommitView>,
) -> Seq<Verdict> {
    cs.map_values(
        |c: CommitView|
            signature_verdict(c, commit_signature_valid(m, c, k), m.is_trivial_merge(c.id)),
    )
}

/// Checks every commit's signature: keys for all committers are fetched first,
/// then each commit is verified in list order, with the identical-tree and
/// trivial-merge exemptions. Exact: a successful run returns the fold of the
/// per-commit signature verdicts against the model and the refreshed keyring.
/// A technical failure of the platform signature check or of the trivial-merge
/// reproduction is a system error and propagates; it is never read as an
/// unsigned commit.
#[verifier::loop_isolation(false)]
pub fn verify_commit_signatures<G: Git, P: Gpg>(
    git: &G,
    gpg: &P,
    commits: &Vec<Commit>,
    keyring: &mut Keyring,
) -> (r: Result<PolicyResult, CapnError>)
    ensures
        r is Ok ==> final(keyring)@ == mark_available(
            old(keyring)@,
            committer_emails_of(commit_views_of(commits@)),
        ),
        r matches Ok(p) ==> p@ == first_failure(
            signature_verdicts(git.model(), final(keyring)@, commit_views_of(commits@)),
        ),
        r matches Ok(p) ==> (p@ is Pass ==> forall|i: int|
            0 <= i < commits@.len() ==> signature_exempt_or_valid(
                git.model(),
                final(keyring)@,
                (#[trigger] commits@[i])@,
            )),
{
    let emails = collect_committer_emails(commits);
    match gpg.receive_keys(keyring, &emails) {
        Ok(()) => {},
        Err(e) => {
            return Err(e);
        },
    }
    let ghost m = git.model();
    let ghost goal: Seq<Verdict> = signature_verdicts(m, keyring@, commit_views_of(commits@));
    let mut results: Vec<PolicyResult> = Vec::new();
    let mut i: usize = 0;
    while i < commits.len()
        invariant
            i <= commits@.len(),
            goal == signature_verdicts(m, keyring@, commit_views_of(commits@)),
            verdicts_of(results@) =~= goal.take(i as int),
        decreases commits.len() - i,
    {
        let c = &commits[i];
        let v: PolicyResult = if c.is_identical_tree_to_any_parent {
            PolicyResult::Pass
        } else {
            let signature_ok = match git.verify_commit_signature(c, keyring) {
                Ok(b) => b,
                Err(e) => {
                    return Err(e);
                },
            };
            if signature_ok {
                PolicyResult::Pass
            } else {
                match git.is_trivial_merge_commit(c) {
                    Ok(trivial) => classify_commit_signature(c, false, trivial),
                    Err(e) => {
                        return Err(e);
                    },
                }
            }
        };
        proof {
            assert(goal[i as int] == signature_verdict(
                commits@[i as int]@,
                commit_signature_valid(m, commits@[i as int]@, keyring@),
                m.is_trivial_merge(commits@[i as int]@.id),
            ));
            assert(v@ == goal[i as int]);
            assert(verdicts_of(results@.push(v)) =~= verdicts_of(results@) + seq![v@]);
            assert(goal.take(i + 1) =~= goal.take(i as int) + seq![goal[i as int]]);
        }
        results.push(v);
        i += 1;
    }
    proof {
        assert(goal.take(commits@.len() as int) =~= goal);
    }
    let p = fold_policy_results(results);
    proof {
        if p@ is Pass {
            lemma_fold_pass_all(goal);
            assert forall|j: int| 0 <= j < commits@.len() implies signature_exempt_or_valid(
                m,
                keyring@,
                (#[trigger] commits@[j])@,
            ) by {
                assert(goal[j] is Pass);
                assert(goal[j] == signature_verdict(
                    commits@[j]@,
                    commit_signature_valid(m, commits@[j]@, keyring@),
                    m.is_trivial_merge(commits@[j]@.id),
                ));
            }
        }
    }
    Ok(p)
}

/// The tagger emails of a tag list, present ones only, in list order.
pub open spec fn tagger_emails_of(ts: Seq<TagView>) -> Seq<Seq<char>>
    decreases ts.len(),
{
    if ts.len() == 0 {
        Seq::empty()
    } else {
        tagger_emails_of(ts.drop_last()) + (match ts.last().tagger_email {
            Some(e) => seq![e],
            None => Seq::<Seq<char>>::empty(),
        })
    }
}

/// The tagger emails whose keys the override pass fetches: the taggers of
/// every commit that carries at least the required number of override tags.
pub open spec fn override_candidate_tagger_emails(cs: Seq<CommitView>, required: nat) -> Seq<
    Seq<char>,
>
    decreases cs.len(),
{
    if cs.len() == 0 {
        Seq::empty()
    } else {
        override_candidate_tagger_emails(cs.drop_last(), required) + (if cs.last().tags.len()
            >= required {
            tagger_emails_of(cs.last().tags)
        } else {
            Seq::<Seq<char>>::empty()
        })
    }
}

/// Some override tag on the commit is signed validly by the given tagger.
pub open spec fn has_valid_override_tagger(
    m: RepoModel,
    k: Map<Seq<char>, FingerprintView>,
    c: CommitView,
    e: Seq<char>,
) -> bool {
    exists|j: int|
        0 <= j < c.tags.len() && (#[trigger] c.tags[j]).tagger_email == Some(e)
            && tag_signature_valid(m, c.tags[j], k)
}

/// Some commit of the list carries the given id and is manually verified.
pub open spec fn approved_id_in(
    m: RepoModel,
    k: Map<Seq<char>, FingerprintView>,
    commits: Seq<Commit>,
    id: Seq<u8>,
    required: nat,
) -> bool {
    exists|i: int|
        0 <= i < commits.len() && (#[trigger] commits[i]).id@ == id && override_approved(
            m,
            k,
            commits[i]@,
            required,
        )
}

/// A commit is manually verified when at least `required` distinct taggers
/// have each put a validly signed override tag directly on it.
pub open spec fn override_approved(
    m: RepoModel,
    k: Map<Seq<char>, FingerprintView>,
    c: CommitView,
    required: nat,
) -> bool {
    exists|emails: Seq<Seq<char>>|
        #![auto]
        emails.no_duplicates() && emails.len() >= required && (forall|x: int|
            0 <= x < emails.len() ==> has_valid_override_tagger(m, k, c, #[trigger] emails[x]))
}

fn collect_override_tagger_emails(commits: &Vec<Commit>, required: usize) -> (r: Vec<String>)
    ensures
        views_of(r@) == override_candidate_tagger_emails(
            commit_views_of(commits@),
            required as nat,
        ),
{
    let ghost cs = commit_views_of(commits@);
    let mut emails: Vec<String> = Vec::new();
    let mut i: usize = 0;
    while i < commits.len()
        invariant
            i <= commits@.len(),
            cs == commit_views_of(commits@),
            views_of(emails@) =~= override_candidate_tagger_emails(
                cs.take(i as int),
                required as nat,
            ),
        decreases commits.len() - i,
    {
        proof {
            assert(cs.take(i + 1).drop_last() =~= cs.take(i as int));
            assert(cs.take(i + 1).last() == cs[i as int]);
        }
        let c = &commits[i];
        if c.tags.len() >= required {
            let ghost ts = cs[i as int].tags;
            let mut j: usize = 0;
            while j < c.tags.len()
                invariant
                    j <= c.tags@.len(),
                    ts == cs[i as int].tags,
                    cs == commit_views_of(commits@),
                    c == &commits@[i as int],
                    i < commits@.len(),
                    views_of(emails@) =~= override_candidate_tagger_emails(
                        cs.take(i as int),
                        required as nat,
                    ) + tagger_emails_of(ts.take(j as int)),
                decreases c.tags.len() - j,
            {
                proof {
                    assert(ts.take(j + 1).drop_last() =~= ts.take(j as int));
                    assert(ts.take(j + 1).last() == ts[j as int]);
                }
                match &c.tags[j].tagger_email {
                    Some(e) => {
                        let e = e.clone();
                        proof {
                            assert(views_of(emails@.push(e)) =~= views_of(emails@) + seq![e@]);
                        }
                        emails.push(e);
                    },
                    None => {},
                }
                j += 1;
            }
            proof {
                assert(ts.take(c.tags@.len() as int) =~= ts);
            }
        }
        i += 1;
    }
    proof {
        assert(cs.take(commits@.len() as int) =~= cs);
    }
    emails
}

/// The override-tag pass: fetches keys for the taggers of every candidate
/// commit, verifies each tag's signature, and returns the ids of the commits
/// on which enough distinct taggers have validly signed override tags. Every
/// returned id belongs to a commit of the list that the model genuinely
/// approves; a failed tag check only loses an approval, never invents one.
#[verifier::loop_isolation(false)]
pub fn find_and_verify_override_tags<G: Git, P: Gpg>(
    git: &G,
    gpg: &P,
    commits: &Vec<Commit>,
    required_tags: u8,
    keyring: &mut Keyring,
) -> (r: Result<Vec<ObjectId>, CapnError>)
    ensures
        r is Ok ==> final(keyring)@ == mark_available(
            old(keyring)@,
            override_candidate_tagger_emails(commit_views_of(commits@), required_tags as nat),
        ),
        r matches Ok(ids) ==> forall|x: int|
            0 <= x < ids@.len() ==> approved_id_in(
                git.model(),
                final(keyring)@,
                commits@,
                (#[trigger] ids@[x])@,
                required_tags as nat,
            ),
{
    let required = required_tags as usize;
    let emails = collect_override_tagger_emails(commits, required);
    match gpg.receive_keys(keyring, &emails) {
        Ok(()) => {},
        Err(e) => {
            return Err(e);
        },
    }
    let mut approved: Vec<ObjectId> = Vec::new();
    let mut i: usize = 0;
    while i < commits.len()
        invariant
            i <= commits@.len(),
            forall|x: int|
                0 <= x < approved@.len() ==> approved_id_in(
                    git.model(),
                    keyring@,
                    commits@,
                    (#[trigger] approved@[x])@,
                    required_tags as nat,
                ),
        decreases commits.len() - i,
    {
        let c = &commits[i];
        if c.tags.len() >= required {
            let mut verified_taggers: Vec<String> = Vec::new();
            let mut j: usize = 0;
            while j < c.tags.len()
                invariant
                    j <= c.tags@.len(),
                    c == &commits@[i as int],
                    i < commits@.len(),
                    views_of(verified_taggers@).no_duplicates(),
                    forall|x: int|
                        0 <= x < verified_taggers@.len() ==> has_valid_override_tagger(
                            git.model(),
                            keyring@,
                            c@,
                            (#[trigger] verified_taggers@[x])@,
                        ),
                decreases c.tags.len() - j,
            {
                let tag_ok = match git.verify_tag_signature(&c.tags[j], keyring) {
                    Ok(b) => b,
                    Err(_) => false,
                };
                if tag_ok {
                    match &c.tags[j].tagger_email {
                        Some(e) => {
                            if !contains_str(&verified_taggers, e.as_str()) {
                                let e = e.clone();
                                proof {
                                    assert(views_of(verified_taggers@.push(e)) =~= views_of(
                                        verified_taggers@,
                                    ) + seq![e@]);
                                    assert(c@.tags[j as int].tagger_email == Some(e@));
                                }
                                verified_taggers.push(e);
                            }
                        },
                        None => {},
                    }
                }
                j += 1;
            }
            if verified_taggers.len() >= required {
                proof {
                    let witness = views_of(verified_taggers@);
                    assert(witness.len() >= required_tags as nat);
                    assert(override_approved(
                        git.model(),
                        keyring@,
                        c@,
                        required_tags as nat,
                    ));
                }
                approved.push(c.id.clone());
            }
        }
        i += 1;
    }
    Ok(approved)
}

/// Whether one commit contributes `e` to the author pool: its author email,
/// or the tagger of one of its override tags.
pub open spec fn commit_has_author(c: CommitView, e: Seq<char>) -> bool {
    c.author_email == Some(e) || exists|j: int|
        0 <= j < c.tags.len() && (#[trigger] c.tags[j]).tagger_email == Some(e)
}

/// The distinct authors of a commit list: author emails and override-tag
/// taggers together.
pub open spec fn author_set(cs: Seq<CommitView>) -> Set<Seq<char>> {
    Set::new(|e: Seq<char>| exists|i: int| 0 <= i < cs.len() && commit_has_author(#[trigger] cs[i], e))
}

/// The different-authors verdict. The rule looks only at a merge commit
/// updating a mainline; a degenerate single commit (identical tree or trivial
/// merge) is excused; otherwise the pool of authors and override taggers must
/// hold more than one distinct member.
pub open spec fn different_authors_verdict(m: RepoModel, cs: Seq<CommitView>, u: RefUpdateView)
    -> Verdict {
    match u {
        RefUpdateView::Delete { .. } => Verdict::Pass,
        RefUpdateView::New { .. } => Verdict::Pass,
        RefUpdateView::Update { old_id, new_id, ref_name } => {
            if !m.is_mainline_ref(ref_name) {
                Verdict::Pass
            } else if !m.is_merge(new_id) {
                Verdict::Pass
            } else if cs.len() == 0 {
                Verdict::Pass
            } else if cs.len() == 1 && cs[0].is_identical_tree_to_any_parent {
                Verdict::Pass
            } else if cs.len() == 1 && m.is_trivial_merge(cs[0].id) {
                Verdict::Pass
            } else if author_set(cs).len() <= 1 {
                Verdict::NotEnoughAuthors(new_id)
            } else {
                Verdict::Pass
            }
        },
    }
}

fn push_distinct(items: &mut Vec<String>, e: &String)
    requires
        views_of(old(items)@).no_duplicates(),
    ensures
        views_of(final(items)@).no_duplicates(),
        forall|x: Seq<char>|
            views_of(final(items)@).contains(x) <==> (views_of(old(items)@).contains(x) || x
                == e@),
{
    if !contains_str(items, e.as_str()) {
        let ghost before: Seq<Seq<char>> = views_of(items@);
        let item = e.clone();
        proof {
            assert(views_of(items@.push(item)) =~= before.push(e@));
        }
        items.push(item);
        proof {
            assert forall|x: Seq<char>|
                views_of(items@).contains(x) <==> (before.contains(x) || x == e@) by {
                vstd::seq_lib::lemma_seq_contains_after_push(before, e@, x);
            }
            assert forall|p: int, q: int|
                0 <= p < q < views_of(items@).len() implies views_of(items@)[p] != views_of(
                items@,
            )[q] by {
                if q == views_of(items@).len() - 1 {
                    assert(!before.contains(views_of(items@)[q]));
                    assert(before[p] == views_of(items@)[p]);
                }
            }
        }
    }
}

fn collect_distinct_authors(commits: &Vec<Commit>) -> (r: Vec<String>)
    ensures
        views_of(r@).no_duplicates(),
        views_of(r@).to_set() == author_set(commit_views_of(commits@)),
{
    let ghost cs = commit_views_of(commits@);
    let mut authors: Vec<String> = Vec::new();
    let mut i: usize = 0;
    while i < commits.len()
        invariant
            i <= commits@.len(),
            cs == commit_views_of(commits@),
            views_of(authors@).no_duplicates(),
            forall|e: Seq<char>|
                views_of(authors@).contains(e) <==> exists|ci: int|
                    0 <= ci < i && commit_has_author(#[trigger] cs[ci], e),
        decreases commits.len() - i,
    {
        let c = &commits[i];
        let mut j: usize = 0;
        while j < c.tags.len()
            invariant
                j <= c.tags@.len(),
                c == &commits@[i as int],
                i < commits@.len(),
                cs == commit_views_of(commits@),
                views_of(authors@).no_duplicates(),
                forall|e: Seq<char>|
                    views_of(authors@).contains(e) <==> (exists|ci: int|
                        0 <= ci < i && commit_has_author(#[trigger] cs[ci], e)) || (exists|t: int|
                        0 <= t < j && (#[trigger] c@.tags[t]).tagger_email == Some(e)),
            decreases c.tags.len() - j,
        {
            match &c.tags[j].tagger_email {
                Some(e) => {
                    proof {
                        assert(c@.tags[j as int].tagger_email == Some(e@));
                    }
                    push_distinct(&mut authors, e);
                },
                None => {
                    proof {
                        assert(c@.tags[j as int].tagger_email is None);
                    }
                },
            }
            j += 1;
        }
        match &c.author_email {
            Some(e) => {
                proof {
                    assert(c@.author_email == Some(e@));
                }
                push_distinct(&mut authors, e);
            },
            None => {},
        }
        proof {
            assert forall|e: Seq<char>|
                views_of(authors@).contains(e) <==> exists|ci: int|
                    0 <= ci < i + 1 && commit_has_author(#[trigger] cs[ci], e) by {
                if views_of(authors@).contains(e) {
                    if !(exists|ci: int| 0 <= ci < i && commit_has_author(#[trigger] cs[ci], e)) {
                        assert(commit_has_author(cs[i as int], e));
                    }
                } else {
                    assert forall|ci: int|
                        0 <= ci < i + 1 implies !commit_has_author(#[trigger] cs[ci], e) by {
                        if ci == i {
                            if commit_has_author(cs[ci], e) {
                                assert(views_of(authors@).contains(e));
                            }
                        }
                    }
                }
            }
        }
        i += 1;
    }
    proof {
        assert forall|e: Seq<char>|
            author_set(cs).contains(e) implies views_of(authors@).contains(e) by {
            let ci = choose|ci: int| 0 <= ci < cs.len() && commit_has_author(#[trigger] cs[ci], e);
            assert(0 <= ci < commits@.len());
        }
        assert(views_of(authors@).to_set() =~= author_set(cs));
    }
    authors
}

/// The multi-author rule on a mainline merge. Exact: the returned verdict is
/// the different-authors verdict of the commit list and the update, whenever
/// no technical error interferes; on a deletion or a new branch the rule
/// consults nothing and success is owed.
#[verifier::loop_isolation(false)]
pub fn verify_different_authors<G: Git>(
    commits: &Vec<Commit>,
    git: &G,
    ref_update: &ReferenceUpdate,
) -> (r: Result<PolicyResult, CapnError>)
    ensures
        r matches Ok(p) ==> p@ == different_authors_verdict(
            git.model(),
            commit_views_of(commits@),
            ref_update@,
        ),
        (ref_update@ is Delete || ref_update@ is New) ==> (r matches Ok(p) && p@ is Pass),
{
    match ref_update {
        ReferenceUpdate::Delete { .. } => Ok(PolicyResult::Pass),
        ReferenceUpdate::New { .. } => Ok(PolicyResult::Pass),
        ReferenceUpdate::Update { old_commit_id, new_commit_id, ref_name } => {
            let is_merge = git.is_merge_commit(new_commit_id);
            let is_mainline = match git.is_mainline(ref_name.as_str()) {
                Ok(b) => b,
                Err(e) => {
                    return Err(e);
                },
            };
            if !is_mainline {
                Ok(PolicyResult::Pass)
            } else if !is_merge {
                Ok(PolicyResult::Pass)
            } else if commits.len() == 0 {
                Ok(PolicyResult::Pass)
            } else if commits.len() == 1 && commits[0].is_identical_tree_to_any_parent {
                Ok(PolicyResult::Pass)
            } else {
                let single_trivial = if commits.len() == 1 {
                    match git.is_trivial_merge_commit(&commits[0]) {
                        Ok(b) => b,
                        Err(e) => {
                            return Err(e);
                        },
                    }
                } else {
                    false
                };
                if single_trivial {
                    Ok(PolicyResult::Pass)
                } else {
                    let authors = collect_distinct_authors(commits);
                    proof {
                        views_of(authors@).unique_seq_to_set();
                    }
                    if authors.len() <= 1 {
                        Ok(PolicyResult::NotEnoughAuthors(new_commit_id.clone()))
                    } else {
                        Ok(PolicyResult::Pass)
                    }
                }
            }
        },
    }
}

/// Every parent of the new tip descends from (or is) the old tip: the merged
/// branch was rebased onto the mainline before the merge.
pub open spec fn parents_rebased(m: RepoModel, new_id: Seq<u8>, old_id: Seq<u8>) -> bool {
    forall|j: int|
        0 <= j < m.parents_of(new_id).len() ==> (m.is_descendant(
            #[trigger] m.parents_of(new_id)[j],
            old_id,
        ) || m.parents_of(new_id)[j] == old_id)
}

/// The rebase verdict. The rule looks only at a merge commit updating a
/// mainline with new commits; a new tip that does not descend from the old
/// tip is a forced move and outside this rule; otherwise every parent of the
/// merge must descend from (or be) the old tip.
pub open spec fn rebased_verdict(m: RepoModel, commit_count: nat, u: RefUpdateView) -> Verdict {
    match u {
        RefUpdateView::Delete { .. } => Verdict::Pass,
        RefUpdateView::New { .. } => Verdict::Pass,
        RefUpdateView::Update { old_id, new_id, ref_name } => {
            if !m.is_mainline_ref(ref_name) {
                Verdict::Pass
            } else if !m.is_merge(new_id) {
                Verdict::Pass
            } else if commit_count == 0 {
                Verdict::Pass
            } else if !m.is_descendant(new_id, old_id) {
                Verdict::Pass
            } else if parents_rebased(m, new_id, old_id) {
                Verdict::Pass
            } else {
                Verdict::NotRebased(new_id)
            }
        },
    }
}

/// Force-push bypass: when the new tip does not descend from the old tip the
/// rebase rule deliberately stands aside, whatever else holds of the update.
pub proof fn lemma_force_push_bypasses_rebase(
    m: RepoModel,
    commit_count: nat,
    old_id: Seq<u8>,
    new_id: Seq<u8>,
    ref_name: Seq<char>,
)
    requires
        !m.is_descendant(new_id, old_id),
    ensures
        rebased_verdict(m, commit_count, RefUpdateView::Update { old_id, new_id, ref_name })
            is Pass,
{
}

/// The rebase-required rule on a mainline merge. Exact: the returned verdict
/// is the rebase verdict of the update, whenever no technical error
/// interferes; on a deletion or a new branch the rule consults nothing and
/// success is owed.
#[verifier::loop_isolation(false)]
pub fn verify_rebased<G: Git>(
    commits: &Vec<Commit>,
    git: &G,
    ref_update: &ReferenceUpdate,
    override_tag_pattern: &Option<String>,
) -> (r: Result<PolicyResult, CapnError>)
    ensures
        r matches Ok(p) ==> p@ == rebased_verdict(
            git.model(),
            commits@.len() as nat,
            ref_update@,
        ),
        (ref_update@ is Delete || ref_update@ is New) ==> (r matches Ok(p) && p@ is Pass),
{
    match ref_update {
        ReferenceUpdate::Delete { .. } => Ok(PolicyResult::Pass),
        ReferenceUpdate::New { .. } => Ok(PolicyResult::Pass),
        ReferenceUpdate::Update { old_commit_id, new_commit_id, ref_name } => {
            let is_merge = git.is_merge_commit(new_commit_id);
            let is_mainline = match git.is_mainline(ref_name.as_str()) {
                Ok(b) => b,
                Err(e) => {
                    return Err(e);
                },
            };
            let new_commit = match git.find_commit(new_commit_id, override_tag_pattern) {
                Ok(c) => c,
                Err(e) => {
                    return Err(e);
                },
            };
            if !is_mainline {
                Ok(PolicyResult::Pass)
            } else if !is_merge {
                Ok(PolicyResult::Pass)
            } else if commits.len() == 0 {
                Ok(PolicyResult::Pass)
            } else {
                let descends = match git.is_descendent_of(new_commit_id, old_commit_id) {
                    Ok(b) => b,
                    Err(e) => {
                        return Err(e);
                    },
                };
                if !descends {
                    Ok(PolicyResult::Pass)
                } else {
                    let mut rebased = true;
                    let ghost parents = git.model().parents_of(new_commit_id@);
                    proof {
                        assert(crate::git::ids_of(new_commit.parents@) == parents);
                    }
                    let mut j: usize = 0;
                    while j < new_commit.parents.len()
                        invariant
                            j <= new_commit.parents@.len(),
                            crate::git::ids_of(new_commit.parents@) == parents,
                            rebased == (forall|x: int|
                                0 <= x < j ==> (git.model().is_descendant(
                                    #[trigger] parents[x],
                                    old_commit_id@,
                                ) || parents[x] == old_commit_id@)),
                        decreases new_commit.parents.len() - j,
                    {
                        let parent = &new_commit.parents[j];
                        let parent_descends = match git.is_descendent_of(parent, old_commit_id) {
                            Ok(b) => b,
                            Err(e) => {
                                return Err(e);
                            },
                        };
                        let this_ok = parent_descends || parent == old_commit_id;
                        proof {
                            assert(parents[j as int] == new_commit.parents@[j as int]@);
                        }
                        rebased = rebased && this_ok;
                        j += 1;
                    }
                    if rebased {
                        Ok(PolicyResult::Pass)
                    } else {
                        Ok(PolicyResult::NotRebased(new_commit_id.clone()))
                    }
                }
            }
        },
    }
}


/// Marking keys available never changes whether a commit's signature is valid:
/// validity reads only the roster's membership and fingerprints.
proof fn lemma_mark_preserves_commit_validity(
    m: RepoModel,
    c: CommitView,
    k: Map<Seq<char>, FingerprintView>,
    emails: Seq<Seq<char>>,
)
    ensures
        commit_signature_valid(m, c, mark_available(k, emails)) == commit_signature_valid(m, c, k),
{
    assert(mark_available(k, emails).dom() =~= k.dom());
    match c.committer_email {
        Some(e) => {
            if k.dom().contains(e) {
                assert(mark_available(k, emails)[e].id == k[e].id);
            }
        },
        None => {},
    }
}

/// The same for a tag's signature.
proof fn lemma_mark_preserves_tag_validity(
    m: RepoModel,
    t: TagView,
    k: Map<Seq<char>, FingerprintView>,
    emails: Seq<Seq<char>>,
)
    ensures
        tag_signature_valid(m, t, mark_available(k, emails)) == tag_signature_valid(m, t, k),
{
    assert(mark_available(k, emails).dom() =~= k.dom());
    match t.tagger_email {
        Some(e) => {
            if k.dom().contains(e) {
                assert(mark_available(k, emails)[e].id == k[e].id);
            }
        },
        None => {},
    }
}

/// Nor whether a commit counts as manually verified by override tags.
proof fn lemma_mark_preserves_override_approved(
    m: RepoModel,
    c: CommitView,
    k: Map<Seq<char>, FingerprintView>,
    emails: Seq<Seq<char>>,
    required: nat,
)
    ensures
        override_approved(m, mark_available(k, emails), c, required) == override_approved(
            m,
            k,
            c,
            required,
        ),
{
    assert forall|e: Seq<char>|
        has_valid_override_tagger(m, mark_available(k, emails), c, e) == has_valid_override_tagger(
            m,
            k,
            c,
            e,
        ) by {
        if has_valid_override_tagger(m, mark_available(k, emails), c, e) {
            let j = choose|j: int|
                0 <= j < c.tags.len() && (#[trigger] c.tags[j]).tagger_email == Some(e)
                    && tag_signature_valid(m, c.tags[j], mark_available(k, emails));
            lemma_mark_preserves_tag_validity(m, c.tags[j], k, emails);
        }
        if has_valid_override_tagger(m, k, c, e) {
            let j = choose|j: int|
                0 <= j < c.tags.len() && (#[trigger] c.tags[j]).tagger_email == Some(e)
                    && tag_signature_valid(m, c.tags[j], k);
            lemma_mark_preserves_tag_validity(m, c.tags[j], k, emails);
        }
    }
}

/// An optional id as a list: the exclusion or inclusion roots a reference
/// update supplies to the revision walk.
pub open spec fn opt_id_seq(o: Option<Seq<u8>>) -> Seq<Seq<u8>> {
    match o {
        None => Seq::empty(),
        Some(x) => seq![x],
    }
}

/// The commits a reference update asks to verify: the walk from its new id,
/// hiding its old id and the mainlines.
fn commits_to_verify<G: Git>(
    git: &G,
    ref_update: &ReferenceUpdate,
    override_tag_pattern: &Option<String>,
) -> (r: Result<Vec<Commit>, CapnError>)
    ensures
        r matches Ok(cs) ==> walk_post(
            git.model(),
            opt_id_seq(ref_update@.spec_old_id()),
            opt_id_seq(ref_update@.spec_new_id()),
            view_opt_str(*override_tag_pattern),
            cs@,
        ),
{
    let mut to_exclude: Vec<ObjectId> = Vec::new();
    match ref_update.old_commit_id() {
        Some(id) => {
            to_exclude.push(id);
        },
        None => {},
    }
    let mut to_include: Vec<ObjectId> = Vec::new();
    match ref_update.new_commit_id() {
        Some(id) => {
            to_include.push(id);
        },
        None => {},
    }
    proof {
        assert(ids_of(to_exclude@) =~= opt_id_seq(ref_update@.spec_old_id()));
        assert(ids_of(to_include@) =~= opt_id_seq(ref_update@.spec_new_id()));
    }
    git.find_new_commits(&to_exclude, &to_include, override_tag_pattern)
}

/// The walk again, with the manually verified commits joining the exclusions:
/// whatever an override makes reachable needs no standard checks.
fn commits_to_verify_excluding_manually_verified<G: Git>(
    git: &G,
    ref_update: &ReferenceUpdate,
    manually_verified: Vec<ObjectId>,
    override_tag_pattern: &Option<String>,
) -> (r: Result<Vec<Commit>, CapnError>)
    ensures
        r matches Ok(cs) ==> walk_post(
            git.model(),
            ids_of(manually_verified@) + opt_id_seq(ref_update@.spec_old_id()),
            opt_id_seq(ref_update@.spec_new_id()),
            view_opt_str(*override_tag_pattern),
            cs@,
        ),
{
    let ghost mv: Seq<Seq<u8>> = ids_of(manually_verified@);
    let mut to_exclude = manually_verified;
    match ref_update.old_commit_id() {
        Some(id) => {
            to_exclude.push(id);
        },
        None => {},
    }
    let mut to_include: Vec<ObjectId> = Vec::new();
    match ref_update.new_commit_id() {
        Some(id) => {
            to_include.push(id);
        },
        None => {},
    }
    proof {
        assert(ids_of(to_exclude@) =~= mv + opt_id_seq(ref_update@.spec_old_id()));
        assert(ids_of(to_include@) =~= opt_id_seq(ref_update@.spec_new_id()));
    }
    git.find_new_commits(&to_exclude, &to_include, override_tag_pattern)
}

/// Every enabled policy holds: emails and signatures of each commit still
/// subject to checks, and the two mainline-merge rules over the full set.
pub open spec fn policies_hold(
    m: RepoModel,
    k: Map<Seq<char>, FingerprintView>,
    cfg: VerifyConfigView,
    all: Seq<CommitView>,
    checked: Seq<CommitView>,
    u: RefUpdateView,
) -> bool {
    &&& cfg.verify_email_addresses ==> (forall|i: int|
        0 <= i < checked.len() ==> email_verdict(
            cfg.author_domain,
            cfg.committer_domain,
            #[trigger] checked[i],
        ) is Pass)
    &&& cfg.verify_commit_signatures ==> (forall|i: int|
        0 <= i < checked.len() ==> signature_exempt_or_valid(m, k, #[trigger] checked[i]))
    &&& cfg.verify_different_authors ==> different_authors_verdict(m, all, u) is Pass
    &&& cfg.verify_rebased ==> rebased_verdict(m, all.len(), u) is Pass
}

/// What an accepting run of the verification engine guarantees of a branch
/// update: the roster was read from the repository; some set of new commits is
/// genuinely manually verified by override tags; and on the walk that hides
/// those (and the old tip and the mainlines), every enabled policy holds.
pub open spec fn accepted_update_ok(m: RepoModel, cfg: VerifyConfigView, u: RefUpdateView) -> bool {
    exists|all: Seq<Commit>, approved: Seq<ObjectId>, checked: Seq<Commit>|
        #![trigger walk_post(m, opt_id_seq(u.spec_old_id()), opt_id_seq(u.spec_new_id()), cfg.override_tag_pattern, all), walk_post(m, ids_of(approved) + opt_id_seq(u.spec_old_id()), opt_id_seq(u.spec_new_id()), cfg.override_tag_pattern, checked)]
        {
            let k = keyring_of_text(m.files[cfg.team_fingerprints_file]);
            &&& m.files.dom().contains(cfg.team_fingerprints_file)
            &&& walk_post(
                m,
                opt_id_seq(u.spec_old_id()),
                opt_id_seq(u.spec_new_id()),
                cfg.override_tag_pattern,
                all,
            )
            &&& forall|x: int|
                0 <= x < approved.len() ==> approved_id_in(
                    m,
                    k,
                    all,
                    (#[trigger] approved[x])@,
                    cfg.override_tags_required as nat,
                )
            &&& walk_post(
                m,
                ids_of(approved) + opt_id_seq(u.spec_old_id()),
                opt_id_seq(u.spec_new_id()),
                cfg.override_tag_pattern,
                checked,
            )
            &&& policies_hold(m, k, cfg, commit_views_of(all), commit_views_of(checked), u)
        }
}

/// The verdict the engine owes on given commit lists: the enabled policies'
/// verdicts folded in the fixed order — email offences first, then
/// signatures, then the different-authors rule, then the rebase rule — with a
/// disabled policy contributing a pass.
pub open spec fn engine_verdict(
    m: RepoModel,
    k: Map<Seq<char>, FingerprintView>,
    cfg: VerifyConfigView,
    all: Seq<CommitView>,
    checked: Seq<CommitView>,
    u: RefUpdateView,
) -> Verdict {
    and_verdict(
        and_verdict(
            and_verdict(
                and_verdict(
                    Verdict::Pass,
                    if cfg.verify_email_addresses {
                        first_failure(
                            email_verdicts(cfg.author_domain, cfg.committer_domain, checked),
                        )
                    } else {
                        Verdict::Pass
                    },
                ),
                if cfg.verify_commit_signatures {
                    first_failure(signature_verdicts(m, k, checked))
                } else {
                    Verdict::Pass
                },
            ),
            if cfg.verify_different_authors {
                different_authors_verdict(m, all, u)
            } else {
                Verdict::Pass
            },
        ),
        if cfg.verify_rebased {
            rebased_verdict(m, all.len(), u)
        } else {
            Verdict::Pass
        },
    )
}

/// What any completed run of the engine guarantees of a branch update,
/// passing or failing: the roster was read from the repository; every commit
/// the run excluded as manually verified genuinely carries enough validly
/// signed override tags; and the verdict is exactly the fold of the enabled
/// policies' verdicts over the walk's commits. A validly signed commit can
/// therefore never be reported unsigned, and an email offence outranks a
/// signature offence.
pub open spec fn update_verdict_witnessed(
    m: RepoModel,
    cfg: VerifyConfigView,
    u: RefUpdateView,
    f: Verdict,
) -> bool {
    exists|all: Seq<Commit>, approved: Seq<ObjectId>, checked: Seq<Commit>|
        #![trigger walk_post(m, opt_id_seq(u.spec_old_id()), opt_id_seq(u.spec_new_id()), cfg.override_tag_pattern, all), walk_post(m, ids_of(approved) + opt_id_seq(u.spec_old_id()), opt_id_seq(u.spec_new_id()), cfg.override_tag_pattern, checked)]
        {
            let k = keyring_of_text(m.files[cfg.team_fingerprints_file]);
            &&& m.files.dom().contains(cfg.team_fingerprints_file)
            &&& walk_post(
                m,
                opt_id_seq(u.spec_old_id()),
                opt_id_seq(u.spec_new_id()),
                cfg.override_tag_pattern,
                all,
            )
            &&& forall|x: int|
                0 <= x < approved.len() ==> approved_id_in(
                    m,
                    k,
                    all,
                    (#[trigger] approved[x])@,
                    cfg.override_tags_required as nat,
                )
            &&& walk_post(
                m,
                ids_of(approved) + opt_id_seq(u.spec_old_id()),
                opt_id_seq(u.spec_new_id()),
                cfg.override_tag_pattern,
                checked,
            )
            &&& f == engine_verdict(m, k, cfg, commit_views_of(all), commit_views_of(checked), u)
        }
}

/// Marking keys available never changes a list of signature verdicts.
proof fn lemma_mark_preserves_signature_verdicts(
    m: RepoModel,
    cs: Seq<CommitView>,
    k: Map<Seq<char>, FingerprintView>,
    emails: Seq<Seq<char>>,
)
    ensures
        signature_verdicts(m, mark_available(k, emails), cs) == signature_verdicts(m, k, cs),
{
    assert forall|i: int|
        0 <= i < cs.len() implies #[trigger] signature_verdicts(m, mark_available(k, emails), cs)[i]
        == signature_verdicts(m, k, cs)[i] by {
        lemma_mark_preserves_commit_validity(m, cs[i], k, emails);
    }
    assert(signature_verdicts(m, mark_available(k, emails), cs) =~= signature_verdicts(m, k, cs));
}

/// The commit verification engine. A deletion passes outright; an update of a
/// tag ref passes outright; otherwise the new commits are collected, the
/// roster is loaded, override tags may excuse some commits, and every enabled
/// policy runs, the first failure in policy order becoming the verdict. Any
/// verdict a successful run returns, pass or fail, is exactly the fold of the
/// enabled policies' verdicts over the update's commits; a passing one
/// additionally means the model genuinely satisfies every enabled policy.
#[verifier::loop_isolation(false)]
pub fn verify_git_commits<G: Git, P: Gpg>(
    git: &G,
    gpg: P,
    config: &VerifyGitCommitsConfig,
    ref_update: &ReferenceUpdate,
) -> (r: Result<PolicyResult, CapnError>)
    ensures
        ref_update@ is Delete ==> (r matches Ok(p) && p@ is Pass),
        r matches Ok(p) ==> ((!(ref_update@ is Delete) && git.model().ref_is_tag(
            ref_update@.spec_ref_name(),
        )) ==> p@ is Pass),
        r matches Ok(p) ==> ((p@ is Pass && !(ref_update@ is Delete) && !git.model().ref_is_tag(
            ref_update@.spec_ref_name(),
        )) ==> accepted_update_ok(git.model(), config@, ref_update@)),
        r matches Ok(p) ==> ((!(ref_update@ is Delete) && !git.model().ref_is_tag(
            ref_update@.spec_ref_name(),
        )) ==> update_verdict_witnessed(git.model(), config@, ref_update@, p@)),
{
    if let ReferenceUpdate::Delete { .. } = ref_update {
        return Ok(PolicyResult::Pass);
    }
    let is_tag_ref = match git.is_tag(ref_update.ref_name()) {
        Ok(b) => b,
        Err(e) => {
            return Err(e);
        },
    };
    if is_tag_ref {
        return Ok(PolicyResult::Pass);
    }
    let ghost m = git.model();
    let ghost u = ref_update@;
    let ghost cfg = config@;

    let all_commits = match commits_to_verify(git, ref_update, &config.override_tag_pattern) {
        Ok(cs) => cs,
        Err(e) => {
            return Err(e);
        },
    };
    let roster = match git.read_file(config.team_fingerprints_file.as_str()) {
        Ok(s) => s,
        Err(e) => {
            return Err(e);
        },
    };
    let mut keyring = Keyring::from_team_fingerprints_file(roster);
    let ghost k0 = keyring@;
    let manually_verified = match find_and_verify_override_tags(
        git,
        &gpg,
        &all_commits,
        config.override_tags_required,
        &mut keyring,
    ) {
        Ok(ids) => ids,
        Err(e) => {
            return Err(e);
        },
    };
    let ghost k1 = keyring@;
    let ghost approved: Seq<ObjectId> = manually_verified@;
    let checked = match commits_to_verify_excluding_manually_verified(
        git,
        ref_update,
        manually_verified,
        &config.override_tag_pattern,
    ) {
        Ok(cs) => cs,
        Err(e) => {
            return Err(e);
        },
    };

    let mut policy_result = PolicyResult::Pass;
    let ghost mut k2 = keyring@;
    let ghost mut email_v: Verdict = Verdict::Pass;
    let ghost mut sig_v: Verdict = Verdict::Pass;
    let ghost mut authors_v: Verdict = Verdict::Pass;
    let ghost mut rebased_v: Verdict = Verdict::Pass;

    if config.verify_email_addresses {
        let p = verify_email_addresses(
            config.author_domain.as_str(),
            config.committer_domain.as_str(),
            &checked,
        );
        proof {
            email_v = p@;
        }
        policy_result = policy_result.and(p);
    }
    if config.verify_commit_signatures {
        let p = match verify_commit_signatures(git, &gpg, &checked, &mut keyring) {
            Ok(p) => p,
            Err(e) => {
                return Err(e);
            },
        };
        proof {
            k2 = keyring@;
            sig_v = p@;
            if p@ is Pass {
                assert(forall|i: int|
                    0 <= i < checked@.len() ==> signature_exempt_or_valid(
                        m,
                        k2,
                        (#[trigger] checked@[i])@,
                    ));
            }
        }
        policy_result = policy_result.and(p);
    }
    if config.verify_different_authors {
        let p = match verify_different_authors(&all_commits, git, ref_update) {
            Ok(p) => p,
            Err(e) => {
                return Err(e);
            },
        };
        proof {
            authors_v = p@;
        }
        policy_result = policy_result.and(p);
    }
    if config.verify_rebased {
        let p = match verify_rebased(&all_commits, git, ref_update, &config.override_tag_pattern) {
            Ok(p) => p,
            Err(e) => {
                return Err(e);
            },
        };
        proof {
            rebased_v = p@;
        }
        policy_result = policy_result.and(p);
    }
    proof {
        let k = keyring_of_text(m.files[cfg.team_fingerprints_file]);
        assert(k == k0);
        let all_views = commit_views_of(all_commits@);
        let checked_views = commit_views_of(checked@);
        // every excluded commit is genuinely manually verified, judged by the
        // roster as loaded
        assert forall|x: int| 0 <= x < approved.len() implies approved_id_in(
            m,
            k,
            all_commits@,
            (#[trigger] approved[x])@,
            cfg.override_tags_required as nat,
        ) by {
            assert(approved_id_in(
                m,
                k1,
                all_commits@,
                approved[x]@,
                cfg.override_tags_required as nat,
            ));
            let ci = choose|ci: int|
                0 <= ci < all_commits@.len() && (#[trigger] all_commits@[ci]).id@ == approved[x]@
                    && override_approved(
                    m,
                    k1,
                    all_commits@[ci]@,
                    cfg.override_tags_required as nat,
                );
            lemma_mark_preserves_override_approved(
                m,
                all_commits@[ci]@,
                k0,
                override_candidate_tagger_emails(all_views, cfg.override_tags_required as nat),
                cfg.override_tags_required as nat,
            );
        }
        // each component verdict, restated over the roster keyring
        let email_c = if cfg.verify_email_addresses {
            first_failure(email_verdicts(cfg.author_domain, cfg.committer_domain, checked_views))
        } else {
            Verdict::Pass
        };
        let sig_c = if cfg.verify_commit_signatures {
            first_failure(signature_verdicts(m, k, checked_views))
        } else {
            Verdict::Pass
        };
        let authors_c = if cfg.verify_different_authors {
            different_authors_verdict(m, all_views, u)
        } else {
            Verdict::Pass
        };
        let rebased_c = if cfg.verify_rebased {
            rebased_verdict(m, all_views.len(), u)
        } else {
            Verdict::Pass
        };
        assert(email_v == email_c);
        if cfg.verify_commit_signatures {
            lemma_mark_preserves_signature_verdicts(
                m,
                checked_views,
                k1,
                committer_emails_of(checked_views),
            );
            lemma_mark_preserves_signature_verdicts(
                m,
                checked_views,
                k0,
                override_candidate_tagger_emails(all_views, cfg.override_tags_required as nat),
            );
        }
        assert(sig_v == sig_c);
        assert(authors_v == authors_c);
        assert(rebased_v == rebased_c);
        assert(policy_result@ == and_verdict(
            and_verdict(and_verdict(and_verdict(Verdict::Pass, email_c), sig_c), authors_c),
            rebased_c,
        ));
        assert(policy_result@ == engine_verdict(m, k, cfg, all_views, checked_views, u));
        assert(update_verdict_witnessed(m, cfg, u, policy_result@));

        if policy_result@ is Pass {
            if cfg.verify_email_addresses {
                lemma_fold_pass_all(
                    email_verdicts(cfg.author_domain, cfg.committer_domain, checked_views),
                );
                assert forall|i: int|
                    0 <= i < checked_views.len() implies email_verdict(
                    cfg.author_domain,
                    cfg.committer_domain,
                    #[trigger] checked_views[i],
                ) is Pass by {
                    assert(email_verdicts(
                        cfg.author_domain,
                        cfg.committer_domain,
                        checked_views,
                    )[i] is Pass);
                }
            }
            if cfg.verify_commit_signatures {
                lemma_fold_pass_all(signature_verdicts(m, k, checked_views));
                assert forall|i: int|
                    0 <= i < checked_views.len() implies signature_exempt_or_valid(
                    m,
                    k,
                    #[trigger] checked_views[i],
                ) by {
                    assert(signature_verdicts(m, k, checked_views)[i] is Pass);
                    assert(signature_verdicts(m, k, checked_views)[i] == signature_verdict(
                        checked_views[i],
                        commit_signature_valid(m, checked_views[i], k),
                        m.is_trivial_merge(checked_views[i].id),
                    ));
                }
            }
            assert(policies_hold(m, k, cfg, all_views, checked_views, u));
            assert(accepted_update_ok(m, cfg, u));
        }
    }
    Ok(policy_result)
}


/// Two duplicate-free walks of the same update enumerate the same commits.
proof fn lemma_walks_same_length(
    m: RepoModel,
    excl: Seq<Seq<u8>>,
    incl: Seq<Seq<u8>>,
    pat: Option<Seq<char>>,
    cs1: Seq<Commit>,
    cs2: Seq<Commit>,
)
    requires
        walk_post(m, excl, incl, pat, cs1),
        walk_post(m, excl, incl, pat, cs2),
    ensures
        cs1.len() == cs2.len(),
{
    let ids1 = cs1.map_values(|c: Commit| c.id@);
    let ids2 = cs2.map_values(|c: Commit| c.id@);
    assert(ids1.no_duplicates());
    assert(ids2.no_duplicates());
    assert forall|x: Seq<u8>| ids1.to_set().contains(x) implies ids2.to_set().contains(x) by {
        let i = choose|i: int| 0 <= i < ids1.len() && ids1[i] == x;
        assert(cs1[i].id@ == x);
        let j = choose|j: int| 0 <= j < cs2.len() && (#[trigger] cs2[j]).id@ == x;
        assert(ids2[j] == x);
    }
    assert forall|x: Seq<u8>| ids2.to_set().contains(x) implies ids1.to_set().contains(x) by {
        let i = choose|i: int| 0 <= i < ids2.len() && ids2[i] == x;
        assert(cs2[i].id@ == x);
        let j = choose|j: int| 0 <= j < cs1.len() && (#[trigger] cs1[j]).id@ == x;
        assert(ids1[j] == x);
    }
    assert(ids1.to_set() =~= ids2.to_set());
    ids1.unique_seq_to_set();
    ids2.unique_seq_to_set();
}

/// A per-commit verdict that passes on every commit of one duplicate-free
/// walk passes on every commit of any other walk of the same update: the
/// records of both walks are drawn from the model by id.
proof fn lemma_fold_pass_transfers(
    vf: spec_fn(CommitView) -> Verdict,
    m: RepoModel,
    excl: Seq<Seq<u8>>,
    incl: Seq<Seq<u8>>,
    pat: Option<Seq<char>>,
    cs1: Seq<Commit>,
    cs2: Seq<Commit>,
)
    requires
        walk_post(m, excl, incl, pat, cs1),
        walk_post(m, excl, incl, pat, cs2),
        first_failure(commit_views_of(cs1).map_values(vf)) is Pass,
    ensures
        first_failure(commit_views_of(cs2).map_values(vf)) is Pass,
{
    let ev1 = commit_views_of(cs1).map_values(vf);
    let ev2 = commit_views_of(cs2).map_values(vf);
    lemma_fold_pass_all(ev1);
    assert forall|j: int| 0 <= j < ev2.len() implies (#[trigger] ev2[j]) is Pass by {
        let id = cs2[j].id@;
        assert(m.new_commit_ids(
            crate::git::nonzero_id_set(excl),
            crate::git::nonzero_id_set(incl),
        ).contains(id));
        let i = choose|i: int| 0 <= i < cs1.len() && (#[trigger] cs1[i]).id@ == id;
        assert(cs1[i]@ == m.commit_view_of(id, pat));
        assert(cs2[j]@ == m.commit_view_of(id, pat));
        assert(ev1[i] is Pass);
        assert(ev1[i] == vf(commit_views_of(cs1)[i]));
        assert(ev2[j] == vf(commit_views_of(cs2)[j]));
    }
    lemma_fold_all_pass(ev2);
}

/// The different-authors verdict reads only what the walk's commit set
/// determines: its size, the single record when there is one, and the pool of
/// authors and taggers. Any two walks of the same update agree on it.
proof fn lemma_authors_verdict_same(
    m: RepoModel,
    excl: Seq<Seq<u8>>,
    incl: Seq<Seq<u8>>,
    pat: Option<Seq<char>>,
    cs1: Seq<Commit>,
    cs2: Seq<Commit>,
    u: RefUpdateView,
)
    requires
        walk_post(m, excl, incl, pat, cs1),
        walk_post(m, excl, incl, pat, cs2),
    ensures
        different_authors_verdict(m, commit_views_of(cs1), u) == different_authors_verdict(
            m,
            commit_views_of(cs2),
            u,
        ),
{
    lemma_walks_same_length(m, excl, incl, pat, cs1, cs2);
    if cs1.len() == 1 {
        let id = cs1[0].id@;
        assert(m.new_commit_ids(
            crate::git::nonzero_id_set(excl),
            crate::git::nonzero_id_set(incl),
        ).contains(id));
        let j = choose|j: int| 0 <= j < cs2.len() && (#[trigger] cs2[j]).id@ == id;
        assert(j == 0);
        assert(cs1[0]@ == m.commit_view_of(id, pat));
        assert(cs2[0]@ == m.commit_view_of(id, pat));
    }
    assert forall|e: Seq<char>|
        author_set(commit_views_of(cs1)).contains(e) implies author_set(
        commit_views_of(cs2),
    ).contains(e) by {
        let i = choose|i: int|
            0 <= i < commit_views_of(cs1).len() && commit_has_author(
                #[trigger] commit_views_of(cs1)[i],
                e,
            );
        let id = cs1[i].id@;
        assert(m.new_commit_ids(
            crate::git::nonzero_id_set(excl),
            crate::git::nonzero_id_set(incl),
        ).contains(id));
        let j = choose|j: int| 0 <= j < cs2.len() && (#[trigger] cs2[j]).id@ == id;
        assert(cs2[j]@ == m.commit_view_of(id, pat));
        assert(cs1[i]@ == m.commit_view_of(id, pat));
        assert(commit_has_author(commit_views_of(cs2)[j], e));
    }
    assert forall|e: Seq<char>|
        author_set(commit_views_of(cs2)).contains(e) implies author_set(
        commit_views_of(cs1),
    ).contains(e) by {
        let i = choose|i: int|
            0 <= i < commit_views_of(cs2).len() && commit_has_author(
                #[trigger] commit_views_of(cs2)[i],
                e,
            );
        let id = cs2[i].id@;
        assert(m.new_commit_ids(
            crate::git::nonzero_id_set(excl),
            crate::git::nonzero_id_set(incl),
        ).contains(id));
        let j = choose|j: int| 0 <= j < cs1.len() && (#[trigger] cs1[j]).id@ == id;
        assert(cs1[j]@ == m.commit_view_of(id, pat));
        assert(cs2[i]@ == m.commit_view_of(id, pat));
        assert(commit_has_author(commit_views_of(cs1)[j], e));
    }
    assert(author_set(commit_views_of(cs1)) =~= author_set(commit_views_of(cs2)));
}

/// Idempotence of the override exclusion, as far as the access layer pins it
/// down: against an unchanged repository, roster and configuration, and with
/// the same set of manually verified commits, any two runs of the engine
/// accept or reject identically — whether the verdict passes depends only on
/// the commit sets the walks denote, never on their discovery order. (The
/// identity of a failing verdict follows the walk's discovery order, which
/// the access layer deliberately leaves open.)
pub proof fn lemma_verdict_pass_is_order_independent(
    m: RepoModel,
    k: Map<Seq<char>, FingerprintView>,
    cfg: VerifyConfigView,
    u: RefUpdateView,
    approved: Seq<ObjectId>,
    all1: Seq<Commit>,
    checked1: Seq<Commit>,
    all2: Seq<Commit>,
    checked2: Seq<Commit>,
)
    requires
        walk_post(m, opt_id_seq(u.spec_old_id()), opt_id_seq(u.spec_new_id()), cfg.override_tag_pattern, all1),
        walk_post(m, opt_id_seq(u.spec_old_id()), opt_id_seq(u.spec_new_id()), cfg.override_tag_pattern, all2),
        walk_post(
            m,
            ids_of(approved) + opt_id_seq(u.spec_old_id()),
            opt_id_seq(u.spec_new_id()),
            cfg.override_tag_pattern,
            checked1,
        ),
        walk_post(
            m,
            ids_of(approved) + opt_id_seq(u.spec_old_id()),
            opt_id_seq(u.spec_new_id()),
            cfg.override_tag_pattern,
            checked2,
        ),
    ensures
        (engine_verdict(m, k, cfg, commit_views_of(all1), commit_views_of(checked1), u) is Pass)
            == (engine_verdict(m, k, cfg, commit_views_of(all2), commit_views_of(checked2), u)
            is Pass),
{
    let excl_all = opt_id_seq(u.spec_old_id());
    let excl_checked = ids_of(approved) + opt_id_seq(u.spec_old_id());
    let incl = opt_id_seq(u.spec_new_id());
    let pat = cfg.override_tag_pattern;
    let email_vf = |c: CommitView| email_verdict(cfg.author_domain, cfg.committer_domain, c);
    let sig_vf = |c: CommitView|
        signature_verdict(c, commit_signature_valid(m, c, k), m.is_trivial_merge(c.id));
    assert(email_verdicts(cfg.author_domain, cfg.committer_domain, commit_views_of(checked1))
        =~= commit_views_of(checked1).map_values(email_vf));
    assert(email_verdicts(cfg.author_domain, cfg.committer_domain, commit_views_of(checked2))
        =~= commit_views_of(checked2).map_values(email_vf));
    assert(signature_verdicts(m, k, commit_views_of(checked1)) =~= commit_views_of(
        checked1,
    ).map_values(sig_vf));
    assert(signature_verdicts(m, k, commit_views_of(checked2)) =~= commit_views_of(
        checked2,
    ).map_values(sig_vf));
    if first_failure(commit_views_of(checked1).map_values(email_vf)) is Pass {
        lemma_fold_pass_transfers(email_vf, m, excl_checked, incl, pat, checked1, checked2);
    }
    if first_failure(commit_views_of(checked2).map_values(email_vf)) is Pass {
        lemma_fold_pass_transfers(email_vf, m, excl_checked, incl, pat, checked2, checked1);
    }
    if first_failure(commit_views_of(checked1).map_values(sig_vf)) is Pass {
        lemma_fold_pass_transfers(sig_vf, m, excl_checked, incl, pat, checked1, checked2);
    }
    if first_failure(commit_views_of(checked2).map_values(sig_vf)) is Pass {
        lemma_fold_pass_transfers(sig_vf, m, excl_checked, incl, pat, checked2, checked1);
    }
    lemma_authors_verdict_same(m, excl_all, incl, pat, all1, all2, u);
    lemma_walks_same_length(m, excl_all, incl, pat, all1, all2);
}

} // verus!
