use vstd::prelude::*;
use vstd::string::StrSliceExecFns;

use crate::error::CapnError;

verus! {

/// True if `c` is one of the characters `0-9`, `a-f` or `A-F`.
pub open spec fn is_hex_digit(c: char) -> bool {
    (48 <= c as u32 && c as u32 <= 57) || (97 <= c as u32 && c as u32 <= 102) || (65 <= c as u32
        && c as u32 <= 70)
}

/// The numeric value of a hex digit (meaningful only when `is_hex_digit(c)`).
pub open spec fn hex_digit_value(c: char) -> u8 {
    if 48 <= c as u32 && c as u32 <= 57 {
        (c as u32 - 48) as u8
    } else if 97 <= c as u32 && c as u32 <= 102 {
        (c as u32 - 97 + 10) as u8
    } else {
        (c as u32 - 65 + 10) as u8
    }
}

/// A well-formed textual object id: exactly 40 hex digits.
pub open spec fn valid_hex_id(s: Seq<char>) -> bool {
    s.len() == 40 && (forall|i: int| 0 <= i < s.len() ==> is_hex_digit(#[trigger] s[i]))
}

/// The bytes denoted by a sequence of hex digits, two digits per byte.
pub open spec fn hex_decode(s: Seq<char>) -> Seq<u8> {
    Seq::new((s.len() / 2) as nat, |i: int| (hex_digit_value(s[2 * i]) * 16 + hex_digit_value(s[2 * i + 1])) as u8)
}

/// True if every byte of the id is zero (the sentinel id used by git hooks
/// to mean "no commit on this side of the update").
pub open spec fn is_all_zero(s: Seq<u8>) -> bool {
    forall|i: int| 0 <= i < s.len() ==> s[i] == 0
}

fn parse_hex_digit(c: char) -> (r: Option<u8>)
    ensures
        r is Some <==> is_hex_digit(c),
        r matches Some(v) ==> v == hex_digit_value(c) && v < 16,
{
    let u = c as u32;
    if 48 <= u && u <= 57 {
        Some((u - 48) as u8)
    } else if 97 <= u && u <= 102 {
        Some((u - 97 + 10) as u8)
    } else if 65 <= u && u <= 70 {
        Some((u - 65 + 10) as u8)
    } else {
        None
    }
}

/// The lower-case hex digit for a value below 16.
pub open spec fn hex_digit_char(v: u8) -> char {
    if v < 10 {
        (48 + v) as char
    } else {
        (87 + v) as char
    }
}

/// The textual form of an id: two lower-case hex digits per byte.
pub open spec fn hex_encode(bytes: Seq<u8>) -> Seq<char> {
    Seq::new((2 * bytes.len()) as nat, |i: int| if i % 2 == 0 {
        hex_digit_char((bytes[i / 2] / 16) as u8)
    } else {
        hex_digit_char((bytes[i / 2] % 16) as u8)
    })
}

fn nibble_str(v: u8) -> (r: &'static str)
    requires
        v < 16,
    ensures
        r@ =~= seq![hex_digit_char(v)],
{
    proof {
        reveal_strlit("0");
        reveal_strlit("1");
        reveal_strlit("2");
        reveal_strlit("3");
        reveal_strlit("4");
        reveal_strlit("5");
        reveal_strlit("6");
        reveal_strlit("7");
        reveal_strlit("8");
        reveal_strlit("9");
        reveal_strlit("a");
        reveal_strlit("b");
        reveal_strlit("c");
        reveal_strlit("d");
        reveal_strlit("e");
        reveal_strlit("f");
    }
    match v {
        0 => "0",
        1 => "1",
        2 => "2",
        3 => "3",
        4 => "4",
        5 => "5",
        6 => "6",
        7 => "7",
        8 => "8",
        9 => "9",
        10 => "a",
        11 => "b",
        12 => "c",
        13 => "d",
        14 => "e",
        _ => {
            proof {
                assert(v == 15);
            }
            "f"
        },
    }
}

/// An object id: the content hash that names a commit, tag or tree.
/// Held as its 20 raw bytes; viewed as that byte sequence.
#[derive(Debug)]
pub struct ObjectId {
    bytes: Vec<u8>,
}

impl View for ObjectId {
    type V = Seq<u8>;

    closed spec fn view(&self) -> Seq<u8> {
        self.bytes@
    }
}

fn bytes_eq(a: &Vec<u8>, b: &Vec<u8>) -> (r: bool)
    ensures
        r == (a@ == b@),
{
    if a.len() != b.len() {
        return false;
    }
    let mut i: usize = 0;
    while i < a.len()
        invariant
            i <= a.len(),
            a@.len() == b@.len(),
            forall|j: int| 0 <= j < i ==> a@[j] == b@[j],
        decreases a.len() - i,
    {
        if a[i] != b[i] {
            return false;
        }
        i += 1;
    }
    proof {
        assert(a@ =~= b@);
    }
    true
}

impl PartialEq for ObjectId {
    fn eq(&self, other: &Self) -> (r: bool) {
        bytes_eq(&self.bytes, &other.bytes)
    }
}

impl vstd::std_specs::cmp::PartialEqSpecImpl for ObjectId {
    open spec fn obeys_eq_spec() -> bool {
        true
    }

    open spec fn eq_spec(&self, other: &Self) -> bool {
        self@ == other@
    }
}

impl Clone for ObjectId {
    fn clone(&self) -> (r: Self)
        ensures
            r@ == self@,
    {
        let mut bytes: Vec<u8> = Vec::new();
        let mut i: usize = 0;
        while i < self.bytes.len()
            invariant
                i <= self.bytes@.len(),
                bytes@ == self.bytes@.subrange(0, i as int),
            decreases self.bytes.len() - i,
        {
            bytes.push(self.bytes[i]);
            proof {
                assert(bytes@ =~= self.bytes@.subrange(0, i + 1));
            }
            i += 1;
        }
        proof {
            assert(bytes@ =~= self.bytes@);
        }
        ObjectId { bytes }
    }
}

impl ObjectId {
    /// Parses the 40-hex-digit textual form of an object id.
    /// Succeeds exactly on well-formed input and returns the decoded bytes.
    pub fn from_hex(s: &str) -> (r: Result<ObjectId, CapnError>)
        ensures
            r is Ok <==> valid_hex_id(s@),
            r matches Ok(id) ==> id@ == hex_decode(s@),
    {
        let n = s.unicode_len();
        if n != 40 {
            return Err(CapnError::new("object id must be 40 hex digits"));
        }
        let mut bytes: Vec<u8> = Vec::new();
        let mut i: usize = 0;
        while i < 20
            invariant
                s@.len() == 40,
                i <= 20,
                bytes@.len() == i,
                forall|j: int| 0 <= j < 2 * i ==> is_hex_digit(#[trigger] s@[j]),
                forall|j: int| 0 <= j < i ==> bytes@[j] == hex_decode(s@)[j],
            decreases 20 - i,
        {
            let c0 = s.get_char(2 * i);
            let c1 = s.get_char(2 * i + 1);
            match (parse_hex_digit(c0), parse_hex_digit(c1)) {
                (Some(hi), Some(lo)) => {
                    bytes.push(hi * 16 + lo);
                },
                _ => {
                    return Err(CapnError::new("object id contains a non-hex character"));
                },
            }
            i += 1;
        }
        proof {
            assert(bytes@ =~= hex_decode(s@));
        }
        Ok(ObjectId { bytes })
    }

    /// The 40-digit lower-case hex text of the id.
    #[verifier::loop_isolation(false)]
    pub fn to_hex(&self) -> (r: String)
        ensures
            r@ == hex_encode(self@),
    {
        let mut r = String::new();
        let mut i: usize = 0;
        while i < self.bytes.len()
            invariant
                i <= self.bytes@.len(),
                r@ =~= hex_encode(self@).take(2 * i),
            decreases self.bytes.len() - i,
        {
            let b = self.bytes[i];
            r.append(nibble_str(b / 16));
            r.append(nibble_str(b % 16));
            proof {
                assert(hex_encode(self@).take(2 * (i + 1)) =~= hex_encode(self@).take(2 * i)
                    + seq![hex_digit_char((self.bytes@[i as int] / 16) as u8)] + seq![
                    hex_digit_char((self.bytes@[i as int] % 16) as u8),
                ]);
            }
            i += 1;
        }
        proof {
            assert(hex_encode(self@).take(2 * self.bytes@.len() as int) =~= hex_encode(self@));
        }
        r
    }

    /// True iff every byte of the id is zero.
    pub fn is_zero(&self) -> (r: bool)
        ensures
            r == is_all_zero(self@),
    {
        let mut i: usize = 0;
        while i < self.bytes.len()
            invariant
                i <= self.bytes@.len(),
                forall|j: int| 0 <= j < i ==> self.bytes@[j] == 0,
            decreases self.bytes.len() - i,
        {
            if self.bytes[i] != 0 {
                return false;
            }
            i += 1;
        }
        true
    }
}

} // verus!
