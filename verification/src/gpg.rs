use vstd::prelude::*;

use crate::error::CapnError;
use crate::keyring::{mark_available, FingerprintView, Keyring};
use crate::text::views_of;

verus! {

/// The fingerprints whose public keys a fetch must bring in: one for each
/// requested email the roster knows whose key is not yet locally available,
/// in request order.
pub open spec fn fingerprints_to_fetch(
    k: Map<Seq<char>, FingerprintView>,
    emails: Seq<Seq<char>>,
) -> Seq<Seq<char>>
    decreases emails.len(),
{
    if emails.len() == 0 {
        Seq::empty()
    } else {
        fingerprints_to_fetch(k, emails.drop_last()) + (if k.dom().contains(emails.last())
            && !k[emails.last()].available {
            seq![k[emails.last()].id]
        } else {
            Seq::<Seq<char>>::empty()
        })
    }
}

/// Resolves the requested emails against the keyring: the fingerprints still
/// missing locally, which a key fetch has to receive.
pub fn missing_key_fingerprints(keyring: &Keyring, emails: &Vec<String>) -> (r: Vec<String>)
    ensures
        views_of(r@) == fingerprints_to_fetch(keyring@, views_of(emails@)),
{
    let mut fingerprints: Vec<String> = Vec::new();
    let ghost email_views: Seq<Seq<char>> = views_of(emails@);
    let mut i: usize = 0;
    while i < emails.len()
        invariant
            i <= emails@.len(),
            email_views == views_of(emails@),
            views_of(fingerprints@) =~= fingerprints_to_fetch(keyring@, email_views.take(i as int)),
        decreases emails.len() - i,
    {
        proof {
            assert(email_views.take(i + 1).drop_last() =~= email_views.take(i as int));
            assert(email_views.take(i + 1).last() == email_views[i as int]);
        }
        if keyring.requires_public_key_download(emails[i].as_str()) {
            match keyring.fingerprint_id_from_email(emails[i].as_str()) {
                Some(fp) => {
                    proof {
                        assert(views_of(fingerprints@.push(fp)) =~= views_of(fingerprints@)
                            + seq![fp@]);
                    }
                    fingerprints.push(fp);
                },
                None => {
                    proof {
                        assert(false);
                    }
                },
            }
        }
        i += 1;
    }
    proof {
        assert(email_views.take(emails@.len() as int) =~= email_views);
    }
    fingerprints
}

/// A key-fetch service: brings the public keys for a set of emails into the
/// local key store. On success — and only then — every requested email the
/// roster knows is marked available; on failure the keyring is untouched.
/// The live adapter calls out to a keyserver; tests use [`MockGpg`].
pub trait Gpg {
    /// Fetches whatever keys the requested emails still miss.
    fn receive_keys(&self, keyring: &mut Keyring, emails: &Vec<String>) -> (r: Result<
        (),
        CapnError,
    >)
        ensures
            r is Ok ==> final(keyring)@ == mark_available(old(keyring)@, views_of(emails@)),
            r is Err ==> final(keyring)@ == old(keyring)@,
    ;
}

/// A key-fetch double that performs no network call: it simply marks every
/// requested email as available and reports success.
pub struct MockGpg;

impl Gpg for MockGpg {
    fn receive_keys(&self, keyring: &mut Keyring, emails: &Vec<String>) -> (r: Result<
        (),
        CapnError,
    >) {
        keyring.mark_public_keys_available(emails);
        Ok(())
    }
}

} // verus!
