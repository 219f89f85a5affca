use vstd::prelude::*;

use crate::error::CapnError;
use crate::oid::{hex_decode, is_all_zero, valid_hex_id, ObjectId};

verus! {

/// The abstract value of a [`ReferenceUpdate`]: ids as byte sequences,
/// the ref name as a character sequence.
#[verifier::ext_equal]
pub enum RefUpdateView {
    New { new_id: Seq<u8>, ref_name: Seq<char> },
    Delete { old_id: Seq<u8>, ref_name: Seq<char> },
    Update { old_id: Seq<u8>, new_id: Seq<u8>, ref_name: Seq<char> },
}

impl RefUpdateView {
    /// The id the ref pointed at before the update, where there was one.
    pub open spec fn spec_old_id(self) -> Option<Seq<u8>> {
        match self {
            RefUpdateView::New { .. } => None,
            RefUpdateView::Delete { old_id, .. } => Some(old_id),
            RefUpdateView::Update { old_id, .. } => Some(old_id),
        }
    }

    /// The id the ref points at after the update, where there is one.
    pub open spec fn spec_new_id(self) -> Option<Seq<u8>> {
        match self {
            RefUpdateView::New { new_id, .. } => Some(new_id),
            RefUpdateView::Delete { .. } => None,
            RefUpdateView::Update { new_id, .. } => Some(new_id),
        }
    }

    /// The full name of the ref being updated.
    pub open spec fn spec_ref_name(self) -> Seq<char> {
        match self {
            RefUpdateView::New { ref_name, .. } => ref_name,
            RefUpdateView::Delete { ref_name, .. } => ref_name,
            RefUpdateView::Update { ref_name, .. } => ref_name,
        }
    }
}

/// How a pair of ids from a hook line is classified, given that they are not
/// both zero: a zero old id marks a branch creation, a zero new id a deletion,
/// anything else an ordinary update.
pub open spec fn classify_update(old_id: Seq<u8>, new_id: Seq<u8>, name: Seq<char>) -> RefUpdateView {
    if is_all_zero(old_id) {
        RefUpdateView::New { new_id, ref_name: name }
    } else if is_all_zero(new_id) {
        RefUpdateView::Delete { old_id, ref_name: name }
    } else {
        RefUpdateView::Update { old_id, new_id, ref_name: name }
    }
}

/// One movement of a named ref: a creation, a deletion, or an update from one
/// commit to another. Both ids being the zero sentinel is unrepresentable;
/// construction rejects it.
#[derive(Debug)]
pub enum ReferenceUpdate {
    New { new_commit_id: ObjectId, ref_name: String },
    Delete { old_commit_id: ObjectId, ref_name: String },
    Update { old_commit_id: ObjectId, new_commit_id: ObjectId, ref_name: String },
}

impl View for ReferenceUpdate {
    type V = RefUpdateView;

    open spec fn view(&self) -> RefUpdateView {
        match self {
            ReferenceUpdate::New { new_commit_id, ref_name } => RefUpdateView::New {
                new_id: new_commit_id@,
                ref_name: ref_name@,
            },
            ReferenceUpdate::Delete { old_commit_id, ref_name } => RefUpdateView::Delete {
                old_id: old_commit_id@,
                ref_name: ref_name@,
            },
            ReferenceUpdate::Update { old_commit_id, new_commit_id, ref_name } => RefUpdateView::Update {
                old_id: old_commit_id@,
                new_id: new_commit_id@,
                ref_name: ref_name@,
            },
        }
    }
}

impl PartialEq for ReferenceUpdate {
    fn eq(&self, other: &Self) -> (r: bool) {
        match (self, other) {
            (
                ReferenceUpdate::New { new_commit_id: a, ref_name: an },
                ReferenceUpdate::New { new_commit_id: b, ref_name: bn },
            ) => {
                let eq = *a == *b && *an == *bn;
                proof {
                    if eq {
                        assert(self@ =~= other@);
                    } else {
                        assert(self@ != other@);
                    }
                }
                eq
            },
            (
                ReferenceUpdate::Delete { old_commit_id: a, ref_name: an },
                ReferenceUpdate::Delete { old_commit_id: b, ref_name: bn },
            ) => {
                let eq = *a == *b && *an == *bn;
                proof {
                    if eq {
                        assert(self@ =~= other@);
                    } else {
                        assert(self@ != other@);
                    }
                }
                eq
            },
            (
                ReferenceUpdate::Update { old_commit_id: ao, new_commit_id: an2, ref_name: an },
                ReferenceUpdate::Update { old_commit_id: bo, new_commit_id: bn2, ref_name: bn },
            ) => {
                let eq = *ao == *bo && *an2 == *bn2 && *an == *bn;
                proof {
                    if eq {
                        assert(self@ =~= other@);
                    } else {
                        assert(self@ != other@);
                    }
                }
                eq
            },
            _ => {
                proof {
                    assert(self@ != other@);
                }
                false
            },
        }
    }
}

impl vstd::std_specs::cmp::PartialEqSpecImpl for ReferenceUpdate {
    open spec fn obeys_eq_spec() -> bool {
        true
    }

    open spec fn eq_spec(&self, other: &Self) -> bool {
        self@ == other@
    }
}

/// The view of an optional id.
pub open spec fn view_opt_id(o: Option<ObjectId>) -> Option<Seq<u8>> {
    match o {
        None => None,
        Some(id) => Some(id@),
    }
}

impl ReferenceUpdate {
    /// Builds a `ReferenceUpdate` from the three strings a git hook hands over:
    /// old id, new id (each 40 hex digits) and the full ref name. Fails when an
    /// id is malformed or when both ids are the zero sentinel.
    pub fn from_git_hook_format(old_commit_id: &str, new_commit_id: &str, ref_name: &str) -> (r:
        Result<ReferenceUpdate, CapnError>)
        ensures
            r is Ok <==> (valid_hex_id(old_commit_id@) && valid_hex_id(new_commit_id@) && !(
            is_all_zero(hex_decode(old_commit_id@)) && is_all_zero(hex_decode(new_commit_id@)))),
            r matches Ok(u) ==> u@ == classify_update(
                hex_decode(old_commit_id@),
                hex_decode(new_commit_id@),
                ref_name@,
            ),
    {
        let old_id = match ObjectId::from_hex(old_commit_id) {
            Ok(id) => id,
            Err(e) => {
                return Err(e);
            },
        };
        let new_id = match ObjectId::from_hex(new_commit_id) {
            Ok(id) => id,
            Err(e) => {
                return Err(e);
            },
        };
        let name = ref_name.to_owned();
        match (old_id.is_zero(), new_id.is_zero()) {
            (false, false) => Ok(ReferenceUpdate::Update {
                old_commit_id: old_id,
                new_commit_id: new_id,
                ref_name: name,
            }),
            (false, true) => Ok(ReferenceUpdate::Delete { old_commit_id: old_id, ref_name: name }),
            (true, false) => Ok(ReferenceUpdate::New { new_commit_id: new_id, ref_name: name }),
            (true, true) => Err(
                CapnError::new(
                    "Invalid reference update specification, trying to update from a zero commit to another zero commit",
                ),
            ),
        }
    }

    /// The id the ref pointed at before the update, if any.
    pub fn old_commit_id(&self) -> (r: Option<ObjectId>)
        ensures
            view_opt_id(r) == self@.spec_old_id(),
    {
        match self {
            ReferenceUpdate::Delete { old_commit_id, .. } => Some(old_commit_id.clone()),
            ReferenceUpdate::Update { old_commit_id, .. } => Some(old_commit_id.clone()),
            _ => None,
        }
    }

    /// The id the ref points at after the update, if any.
    pub fn new_commit_id(&self) -> (r: Option<ObjectId>)
        ensures
            view_opt_id(r) == self@.spec_new_id(),
    {
        match self {
            ReferenceUpdate::New { new_commit_id, .. } => Some(new_commit_id.clone()),
            ReferenceUpdate::Update { new_commit_id, .. } => Some(new_commit_id.clone()),
            _ => None,
        }
    }

    /// The full name of the ref being updated; total over all three variants.
    pub fn ref_name(&self) -> (r: &str)
        ensures
            r@ == self@.spec_ref_name(),
    {
        match self {
            ReferenceUpdate::New { ref_name, .. } => ref_name.as_str(),
            ReferenceUpdate::Delete { ref_name, .. } => ref_name.as_str(),
            ReferenceUpdate::Update { ref_name, .. } => ref_name.as_str(),
        }
    }
}

/// Round trip: for any pair of ids that is not doubly zero, classifying the
/// update and reading it back through the accessors reproduces the old id, the
/// new id and the ref name exactly, on each of the three variants.
pub proof fn lemma_reference_update_round_trip(old_id: Seq<u8>, new_id: Seq<u8>, name: Seq<char>)
    requires
        !(is_all_zero(old_id) && is_all_zero(new_id)),
    ensures
        classify_update(old_id, new_id, name).spec_ref_name() == name,
        classify_update(old_id, new_id, name).spec_old_id() == (if is_all_zero(old_id) {
            None
        } else {
            Some(old_id)
        }),
        classify_update(old_id, new_id, name).spec_new_id() == (if is_all_zero(new_id) {
            None
        } else {
            Some(new_id)
        }),
{
}

} // verus!
