use vstd::prelude::*;
use vstd::pervasive::VecAdditionalExecFns;

use crate::text::{remove_ws, split_on, split_string, str_eq, strip_whitespace, views_of};

verus! {

/// The abstract value of a [`Fingerprint`].
#[verifier::ext_equal]
pub struct FingerprintView {
    pub id: Seq<char>,
    pub name: Seq<char>,
    pub email: Seq<char>,
    pub available: bool,
}

/// One roster entry: a team member's key fingerprint, display name and email,
/// and whether the public key is already present in the local key store.
pub struct Fingerprint {
    pub id: String,
    pub name: String,
    pub email: String,
    pub public_key_is_available_locally: bool,
}

impl View for Fingerprint {
    type V = FingerprintView;

    open spec fn view(&self) -> FingerprintView {
        FingerprintView {
            id: self.id@,
            name: self.name@,
            email: self.email@,
            available: self.public_key_is_available_locally,
        }
    }
}

/// The map an entry list denotes: email to entry, later entries winning over
/// earlier ones with the same email.
pub open spec fn keyring_map(s: Seq<Fingerprint>) -> Map<Seq<char>, FingerprintView>
    decreases s.len(),
{
    if s.len() == 0 {
        Map::empty()
    } else {
        keyring_map(s.drop_last()).insert(s.last()@.email, s.last()@)
    }
}

/// The entry a roster line denotes: exactly three comma-separated fields give
/// an entry (with all whitespace stripped from the fingerprint); any other
/// shape is silently dropped.
pub open spec fn roster_entry(line: Seq<char>) -> Option<FingerprintView> {
    let fields = split_on(line, ',');
    if fields.len() == 3 {
        Some(
            FingerprintView {
                id: remove_ws(fields[0]),
                name: fields[1],
                email: fields[2],
                available: false,
            },
        )
    } else {
        None
    }
}

/// The map a sequence of roster lines denotes.
pub open spec fn roster_map(lines: Seq<Seq<char>>) -> Map<Seq<char>, FingerprintView>
    decreases lines.len(),
{
    if lines.len() == 0 {
        Map::empty()
    } else {
        match roster_entry(lines.last()) {
            Some(f) => roster_map(lines.drop_last()).insert(f.email, f),
            None => roster_map(lines.drop_last()),
        }
    }
}

/// The map a whole roster text denotes: its lines, parsed entry by entry.
pub open spec fn keyring_of_text(text: Seq<char>) -> Map<Seq<char>, FingerprintView> {
    roster_map(split_on(text, '\n'))
}

/// An entry marked as locally available when its email is among `emails`.
pub open spec fn marked(f: FingerprintView, emails: Seq<Seq<char>>) -> FingerprintView {
    FingerprintView { available: f.available || emails.contains(f.email), ..f }
}

/// Every entry of the map whose email is among `emails` marked as available.
pub open spec fn mark_available(
    m: Map<Seq<char>, FingerprintView>,
    emails: Seq<Seq<char>>,
) -> Map<Seq<char>, FingerprintView> {
    Map::new(|e: Seq<char>| m.dom().contains(e), |e: Seq<char>| marked(m[e], emails))
}

/// The trust store: the team roster, keyed by email.
pub struct Keyring {
    pub fingerprints: Vec<Fingerprint>,
}

impl View for Keyring {
    type V = Map<Seq<char>, FingerprintView>;

    open spec fn view(&self) -> Map<Seq<char>, FingerprintView> {
        keyring_map(self.fingerprints@)
    }
}

/// An entry whose email nothing later overrides is what the map holds.
proof fn lemma_keyring_map_at(s: Seq<Fingerprint>, j: int)
    requires
        0 <= j < s.len(),
        forall|k: int| j < k < s.len() ==> (#[trigger] s[k])@.email != s[j]@.email,
    ensures
        keyring_map(s).dom().contains(s[j]@.email),
        keyring_map(s)[s[j]@.email] == s[j]@,
    decreases s.len(),
{
    if j < s.len() - 1 {
        lemma_keyring_map_at(s.drop_last(), j);
    }
}

/// An email no entry carries is not in the map.
proof fn lemma_keyring_map_absent(s: Seq<Fingerprint>, e: Seq<char>)
    requires
        forall|k: int| 0 <= k < s.len() ==> (#[trigger] s[k])@.email != e,
    ensures
        !keyring_map(s).dom().contains(e),
    decreases s.len(),
{
    if s.len() > 0 {
        lemma_keyring_map_absent(s.drop_last(), e);
    }
}

/// Marking the entries of the list pointwise marks the denoted map.
proof fn lemma_keyring_map_marked(s: Seq<Fingerprint>, t: Seq<Fingerprint>, emails: Seq<Seq<char>>)
    requires
        s.len() == t.len(),
        forall|j: int| 0 <= j < s.len() ==> (#[trigger] t[j])@ == marked(s[j]@, emails),
    ensures
        keyring_map(t) =~= mark_available(keyring_map(s), emails),
    decreases s.len(),
{
    if s.len() > 0 {
        lemma_keyring_map_marked(s.drop_last(), t.drop_last(), emails);
    }
}

/// True iff some string in `v` equals `s`.
pub fn contains_str(v: &Vec<String>, s: &str) -> (r: bool)
    ensures
        r == views_of(v@).contains(s@),
{
    let mut i: usize = 0;
    while i < v.len()
        invariant
            i <= v@.len(),
            forall|j: int| 0 <= j < i ==> views_of(v@)[j] != s@,
        decreases v.len() - i,
    {
        if str_eq(v[i].as_str(), s) {
            assert(views_of(v@)[i as int] == s@);
            return true;
        }
        i += 1;
    }
    assert(forall|j: int| 0 <= j < v@.len() ==> views_of(v@)[j] != s@);
    false
}

impl Keyring {
    /// Parses the team roster: one `fingerprint,name,email` entry per line.
    /// Malformed lines are dropped; on duplicate emails the last entry wins;
    /// whitespace is stripped out of the fingerprint field.
    #[verifier::loop_isolation(false)]
    pub fn from_team_fingerprints_file(file_contents: String) -> (r: Keyring)
        ensures
            r@ == keyring_of_text(file_contents@),
    {
        let lines = split_string(file_contents.as_str(), '\n');
        let ghost line_views: Seq<Seq<char>> = views_of(lines@);
        let mut fingerprints: Vec<Fingerprint> = Vec::new();
        let mut i: usize = 0;
        while i < lines.len()
            invariant
                i <= lines@.len(),
                keyring_map(fingerprints@) =~= roster_map(line_views.take(i as int)),
            decreases lines.len() - i,
        {
            proof {
                assert(line_views.take(i + 1).drop_last() =~= line_views.take(i as int));
                assert(line_views.take(i + 1).last() == line_views[i as int]);
            }
            let mut fields = split_string(lines[i].as_str(), ',');
            if fields.len() == 3 {
                let id_raw = fields.remove(0);
                let name = fields.remove(0);
                let email = fields.remove(0);
                proof {
                    let sp = split_on(line_views[i as int], ',');
                    assert(id_raw@ == sp[0]);
                    assert(name@ == sp[1]);
                    assert(email@ == sp[2]);
                }
                let f = Fingerprint {
                    id: strip_whitespace(id_raw.as_str()),
                    name,
                    email,
                    public_key_is_available_locally: false,
                };
                proof {
                    assert(Some(f@) == roster_entry(line_views[i as int]));
                    assert(fingerprints@.push(f).drop_last() =~= fingerprints@);
                }
                fingerprints.push(f);
            }
            i += 1;
        }
        proof {
            assert(line_views.take(lines@.len() as int) =~= line_views);
        }
        Keyring { fingerprints }
    }

    /// The fingerprint on file for an email, if the roster has that email.
    pub fn fingerprint_id_from_email(&self, email: &str) -> (r: Option<String>)
        ensures
            r is Some <==> self@.dom().contains(email@),
            r matches Some(id) ==> id@ == self@[email@].id,
    {
        let n = self.fingerprints.len();
        let mut i: usize = n;
        while i > 0
            invariant
                i <= self.fingerprints@.len(),
                forall|k: int|
                    i <= k < self.fingerprints@.len() ==> (#[trigger] self.fingerprints@[k])@.email
                        != email@,
            decreases i,
        {
            i = i - 1;
            if str_eq(self.fingerprints[i].email.as_str(), email) {
                proof {
                    lemma_keyring_map_at(self.fingerprints@, i as int);
                }
                return Some(self.fingerprints[i].id.clone());
            }
        }
        proof {
            lemma_keyring_map_absent(self.fingerprints@, email@);
        }
        None
    }

    /// True iff the roster knows the email but its public key has not been
    /// fetched into the local key store yet.
    pub fn requires_public_key_download(&self, email: &str) -> (r: bool)
        ensures
            r == (self@.dom().contains(email@) && !self@[email@].available),
    {
        let n = self.fingerprints.len();
        let mut i: usize = n;
        while i > 0
            invariant
                i <= self.fingerprints@.len(),
                forall|k: int|
                    i <= k < self.fingerprints@.len() ==> (#[trigger] self.fingerprints@[k])@.email
                        != email@,
            decreases i,
        {
            i = i - 1;
            if str_eq(self.fingerprints[i].email.as_str(), email) {
                proof {
                    lemma_keyring_map_at(self.fingerprints@, i as int);
                }
                return !self.fingerprints[i].public_key_is_available_locally;
            }
        }
        proof {
            lemma_keyring_map_absent(self.fingerprints@, email@);
        }
        false
    }

    /// Marks each roster entry whose email appears in `emails` as locally
    /// available; a no-op for emails the roster does not know.
    #[verifier::loop_isolation(false)]
    pub fn mark_public_keys_available(&mut self, emails: &Vec<String>)
        ensures
            final(self)@ == mark_available(old(self)@, views_of(emails@)),
    {
        let ghost orig: Seq<Fingerprint> = self.fingerprints@;
        let n = self.fingerprints.len();
        let mut i: usize = 0;
        while i < n
            invariant
                i <= n,
                n == self.fingerprints@.len(),
                self.fingerprints@.len() == orig.len(),
                forall|j: int|
                    0 <= j < i ==> (#[trigger] self.fingerprints@[j])@ == marked(
                        orig[j]@,
                        views_of(emails@),
                    ),
                forall|j: int| i <= j < n ==> #[trigger] self.fingerprints@[j] == orig[j],
            decreases n - i,
        {
            let in_list = contains_str(emails, self.fingerprints[i].email.as_str());
            if in_list && !self.fingerprints[i].public_key_is_available_locally {
                let nf = Fingerprint {
                    id: self.fingerprints[i].id.clone(),
                    name: self.fingerprints[i].name.clone(),
                    email: self.fingerprints[i].email.clone(),
                    public_key_is_available_locally: true,
                };
                self.fingerprints.set(i, nf);
            }
            i += 1;
        }
        proof {
            lemma_keyring_map_marked(orig, self.fingerprints@, views_of(emails@));
        }
    }
}

} // verus!
