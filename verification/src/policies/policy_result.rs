use vstd::prelude::*;

use crate::oid::ObjectId;

verus! {

/// The abstract value of a [`PolicyResult`]: ids as byte sequences, offending
/// email addresses as character sequences. `Pass` stands for the passing
/// verdict.
#[verifier::ext_equal]
pub enum Verdict {
    Pass,
    UnsignedCommit(Seq<u8>),
    UnsignedMergeCommit(Seq<u8>),
    NotEnoughAuthors(Seq<u8>),
    InvalidAuthorEmail(Seq<u8>, Seq<char>),
    MissingAuthorEmail(Seq<u8>),
    InvalidCommitterEmail(Seq<u8>, Seq<char>),
    MissingCommitterEmail(Seq<u8>),
    NotRebased(Seq<u8>),
}

/// The outcome of running the policies over one reference update: either
/// everything passed, or exactly one first-encountered failure, carrying the
/// offending commit id (and, for email failures, the offending address).
#[derive(Debug)]
pub enum PolicyResult {
    Pass,
    UnsignedCommit(ObjectId),
    UnsignedMergeCommit(ObjectId),
    NotEnoughAuthors(ObjectId),
    InvalidAuthorEmail(ObjectId, String),
    MissingAuthorEmail(ObjectId),
    InvalidCommitterEmail(ObjectId, String),
    MissingCommitterEmail(ObjectId),
    NotRebased(ObjectId),
}

impl View for PolicyResult {
    type V = Verdict;

    open spec fn view(&self) -> Verdict {
        match self {
            PolicyResult::Pass => Verdict::Pass,
            PolicyResult::UnsignedCommit(id) => Verdict::UnsignedCommit(id@),
            PolicyResult::UnsignedMergeCommit(id) => Verdict::UnsignedMergeCommit(id@),
            PolicyResult::NotEnoughAuthors(id) => Verdict::NotEnoughAuthors(id@),
            PolicyResult::InvalidAuthorEmail(id, email) => Verdict::InvalidAuthorEmail(id@, email@),
            PolicyResult::MissingAuthorEmail(id) => Verdict::MissingAuthorEmail(id@),
            PolicyResult::InvalidCommitterEmail(id, email) => Verdict::InvalidCommitterEmail(
                id@,
                email@,
            ),
            PolicyResult::MissingCommitterEmail(id) => Verdict::MissingCommitterEmail(id@),
            PolicyResult::NotRebased(id) => Verdict::NotRebased(id@),
        }
    }
}

/// `Pass` absorbs on the left: the first failure in a chain of `and`s wins.
pub open spec fn and_verdict(a: Verdict, b: Verdict) -> Verdict {
    if a is Pass {
        b
    } else {
        a
    }
}

/// The fold of an ordered sequence of verdicts: the first non-passing verdict,
/// or `Pass` when all pass.
pub open spec fn first_failure(rs: Seq<Verdict>) -> Verdict
    decreases rs.len(),
{
    if rs.len() == 0 {
        Verdict::Pass
    } else if !(rs[0] is Pass) {
        rs[0]
    } else {
        first_failure(rs.drop_first())
    }
}

/// The views of a sequence of policy results.
pub open spec fn verdicts_of(s: Seq<PolicyResult>) -> Seq<Verdict> {
    s.map_values(|p: PolicyResult| p@)
}

impl PolicyResult {
    /// Semigroup combination: keeps the left value unless it passes.
    pub fn and(self, res: PolicyResult) -> (r: PolicyResult)
        ensures
            r@ == and_verdict(self@, res@),
    {
        match self {
            PolicyResult::Pass => res,
            x => x,
        }
    }

    /// True iff this is the passing verdict.
    pub fn is_ok(&self) -> (r: bool)
        ensures
            r == (self@ is Pass),
    {
        match self {
            PolicyResult::Pass => true,
            _ => false,
        }
    }

    /// True iff this is a failure verdict.
    pub fn is_err(&self) -> (r: bool)
        ensures
            r == !(self@ is Pass),
    {
        !self.is_ok()
    }
}

/// Skipping a passing prefix does not change the fold.
proof fn lemma_first_failure_skip(rs: Seq<Verdict>, i: int)
    requires
        0 <= i <= rs.len(),
        forall|k: int| 0 <= k < i ==> (#[trigger] rs[k]) is Pass,
    ensures
        first_failure(rs) == first_failure(rs.skip(i)),
    decreases i,
{
    if i > 0 {
        assert(rs.skip(0) =~= rs);
        assert(rs.drop_first() =~= rs.skip(1));
        lemma_first_failure_skip(rs.skip(1), i - 1);
        assert(rs.skip(1).skip(i - 1) =~= rs.skip(i));
    } else {
        assert(rs.skip(0) =~= rs);
    }
}

/// Fold-first-failure law: if position `i` holds the first failure in the
/// sequence, the fold yields exactly that verdict, never a later one.
pub proof fn lemma_fold_first_failure(rs: Seq<Verdict>, i: int)
    requires
        0 <= i < rs.len(),
        !(rs[i] is Pass),
        forall|k: int| 0 <= k < i ==> (#[trigger] rs[k]) is Pass,
    ensures
        first_failure(rs) == rs[i],
{
    lemma_first_failure_skip(rs, i);
    assert(rs.skip(i)[0] == rs[i]);
}

/// When every verdict in the sequence passes, the fold passes.
pub proof fn lemma_fold_all_pass(rs: Seq<Verdict>)
    requires
        forall|k: int| 0 <= k < rs.len() ==> (#[trigger] rs[k]) is Pass,
    ensures
        first_failure(rs) is Pass,
    decreases rs.len(),
{
    if rs.len() > 0 {
        lemma_fold_all_pass(rs.drop_first());
    }
}

/// A passing fold means every verdict in the sequence passes.
pub proof fn lemma_fold_pass_all(rs: Seq<Verdict>)
    requires
        first_failure(rs) is Pass,
    ensures
        forall|k: int| 0 <= k < rs.len() ==> (#[trigger] rs[k]) is Pass,
    decreases rs.len(),
{
    if rs.len() > 0 {
        lemma_fold_pass_all(rs.drop_first());
        assert forall|k: int| 0 <= k < rs.len() implies (#[trigger] rs[k]) is Pass by {
            if k > 0 {
                assert(rs.drop_first()[k - 1] is Pass);
            }
        }
    }
}

/// Folds an ordered list of policy results into one: the first failure in
/// list order, or `Ok` when every result passes.
#[verifier::loop_isolation(false)]
pub fn fold_policy_results(results: Vec<PolicyResult>) -> (r: PolicyResult)
    ensures
        r@ == first_failure(verdicts_of(results@)),
{
    let ghost orig: Seq<PolicyResult> = results@;
    let mut results = results;
    let mut i: usize = 0;
    while i < results.len()
        invariant
            results@ == orig,
            i <= results@.len(),
            forall|k: int| 0 <= k < i ==> (#[trigger] results@[k])@ is Pass,
        decreases results.len() - i,
    {
        if results[i].is_err() {
            proof {
                assert(forall|k: int|
                    0 <= k < i ==> (#[trigger] verdicts_of(orig)[k]) == orig[k]@);
                lemma_fold_first_failure(verdicts_of(orig), i as int);
            }
            let r = results.remove(i);
            proof {
                assert(r@ == verdicts_of(orig)[i as int]);
            }
            return r;
        }
        i += 1;
    }
    proof {
        assert(forall|k: int|
            0 <= k < results@.len() ==> (#[trigger] verdicts_of(results@)[k]) is Pass);
        lemma_fold_all_pass(verdicts_of(results@));
    }
    PolicyResult::Pass
}

} // verus!
