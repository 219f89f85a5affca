use vstd::prelude::*;
use vstd::string::StrSliceExecFns;
use vstd::string::StringExecFns;

verus! {

/// Whitespace as this library understands it: the blank characters that stray
/// into copy-pasted key fingerprints.
pub open spec fn is_ws(c: char) -> bool {
    c == ' ' || c == '\t' || c == '\r' || c == '\n'
}

/// `s` with every whitespace character removed.
pub open spec fn remove_ws(s: Seq<char>) -> Seq<char> {
    s.filter(|c: char| !is_ws(c))
}

/// True iff `sfx` is a suffix of `s`.
pub open spec fn ends_with(s: Seq<char>, sfx: Seq<char>) -> bool {
    sfx.len() <= s.len() && s.skip(s.len() - sfx.len()) == sfx
}

/// True iff `pfx` is a prefix of `s`.
pub open spec fn starts_with(s: Seq<char>, pfx: Seq<char>) -> bool {
    pfx.len() <= s.len() && s.take(pfx.len() as int) == pfx
}

/// `s` split on the separator `sep`: the pieces between separators, in order.
/// The empty text splits into one empty piece; a trailing separator yields a
/// trailing empty piece, as `str::split` does.
pub open spec fn split_on(s: Seq<char>, sep: char) -> Seq<Seq<char>>
    decreases s.len(),
{
    if s.len() == 0 {
        seq![Seq::<char>::empty()]
    } else if s[0] == sep {
        seq![Seq::<char>::empty()] + split_on(s.drop_first(), sep)
    } else {
        let rest = split_on(s.drop_first(), sep);
        seq![seq![s[0]] + rest[0]] + rest.drop_first()
    }
}

/// The views of a vector of strings.
pub open spec fn views_of(s: Seq<String>) -> Seq<Seq<char>> {
    s.map_values(|t: String| t@)
}

/// A split always has at least one piece.
pub proof fn lemma_split_nonempty(s: Seq<char>, sep: char)
    ensures
        split_on(s, sep).len() >= 1,
    decreases s.len(),
{
    if s.len() != 0 && s[0] != sep {
        lemma_split_nonempty(s.drop_first(), sep);
    }
}

/// A text without the separator splits into exactly itself.
proof fn lemma_split_no_sep(s: Seq<char>, sep: char)
    requires
        forall|j: int| 0 <= j < s.len() ==> s[j] != sep,
    ensures
        split_on(s, sep) =~~= seq![s],
    decreases s.len(),
{
    if s.len() != 0 {
        lemma_split_no_sep(s.drop_first(), sep);
        assert(seq![s[0]] + s.drop_first() =~= s);
    }
}

/// Splitting at the first separator: the head piece is everything before it,
/// the rest is the split of everything after it.
proof fn lemma_split_at_first_sep(s: Seq<char>, sep: char, k: int)
    requires
        0 <= k < s.len(),
        s[k] == sep,
        forall|j: int| 0 <= j < k ==> s[j] != sep,
    ensures
        split_on(s, sep) =~~= seq![s.take(k)] + split_on(s.skip(k + 1), sep),
    decreases k,
{
    if k == 0 {
        assert(s.take(0) =~= Seq::<char>::empty());
        assert(s.drop_first() =~= s.skip(1));
    } else {
        lemma_split_at_first_sep(s.drop_first(), sep, k - 1);
        lemma_split_nonempty(s.skip(k + 1), sep);
        assert(s.drop_first().take(k - 1) =~= s.take(k).drop_first());
        assert(s.drop_first().skip(k) =~= s.skip(k + 1));
        assert(seq![s[0]] + s.take(k).drop_first() =~= s.take(k));
    }
}

/// Filtering keeps a sequence whose elements all satisfy the predicate.
proof fn lemma_filter_all_kept<A>(s: Seq<A>, pred: spec_fn(A) -> bool)
    requires
        forall|j: int| 0 <= j < s.len() ==> pred(s[j]),
    ensures
        s.filter(pred) =~= s,
    decreases s.len(),
{
    reveal(Seq::filter);
    if s.len() != 0 {
        lemma_filter_all_kept(s.drop_last(), pred);
    }
}

/// Exact equality of two strings.
pub fn str_eq(a: &str, b: &str) -> (r: bool)
    ensures
        r == (a@ == b@),
{
    let na = a.unicode_len();
    let nb = b.unicode_len();
    if na != nb {
        return false;
    }
    let mut i: usize = 0;
    while i < na
        invariant
            na == a@.len(),
            a@.len() == b@.len(),
            i <= na,
            forall|j: int| 0 <= j < i ==> a@[j] == b@[j],
        decreases na - i,
    {
        if a.get_char(i) != b.get_char(i) {
            return false;
        }
        i += 1;
    }
    proof {
        assert(a@ =~= b@);
    }
    true
}

/// Exact suffix test.
pub fn str_ends_with(s: &str, sfx: &str) -> (r: bool)
    ensures
        r == ends_with(s@, sfx@),
{
    let n = s.unicode_len();
    let m = sfx.unicode_len();
    if m > n {
        return false;
    }
    let mut i: usize = 0;
    while i < m
        invariant
            n == s@.len(),
            m == sfx@.len(),
            m <= n,
            i <= m,
            forall|j: int| 0 <= j < i ==> s@[n - m + j] == sfx@[j],
        decreases m - i,
    {
        if s.get_char(n - m + i) != sfx.get_char(i) {
            proof {
                assert(s@.skip(n - m)[i as int] != sfx@[i as int]);
            }
            return false;
        }
        i += 1;
    }
    proof {
        assert(s@.skip(n - m) =~= sfx@);
    }
    true
}

/// Exact prefix test.
pub fn str_starts_with(s: &str, pfx: &str) -> (r: bool)
    ensures
        r == starts_with(s@, pfx@),
{
    let n = s.unicode_len();
    let m = pfx.unicode_len();
    if m > n {
        return false;
    }
    let mut i: usize = 0;
    while i < m
        invariant
            n == s@.len(),
            m == pfx@.len(),
            m <= n,
            i <= m,
            forall|j: int| 0 <= j < i ==> s@[j] == pfx@[j],
        decreases m - i,
    {
        if s.get_char(i) != pfx.get_char(i) {
            proof {
                assert(s@.take(m as int)[i as int] != pfx@[i as int]);
            }
            return false;
        }
        i += 1;
    }
    proof {
        assert(s@.take(m as int) =~= pfx@);
    }
    true
}

/// The concatenation of two strings.
pub fn concat_str(a: &str, b: &str) -> (r: String)
    ensures
        r@ == a@ + b@,
{
    let mut r = a.to_owned();
    r.append(b);
    r
}

/// Splits `s` on the separator character, as `str::split` does.
#[verifier::loop_isolation(false)]
pub fn split_string(s: &str, sep: char) -> (r: Vec<String>)
    ensures
        views_of(r@) == split_on(s@, sep),
{
    let n = s.unicode_len();
    let mut pieces: Vec<String> = Vec::new();
    proof {
        assert(s@.skip(0) =~= s@);
        assert(views_of(pieces@) =~= Seq::<Seq<char>>::empty());
    }
    let mut start: usize = 0;
    let mut i: usize = 0;
    while i < n
        invariant
            start <= i <= n,
            split_on(s@, sep) =~~= views_of(pieces@) + split_on(s@.skip(start as int), sep),
            forall|j: int| start <= j < i ==> s@[j] != sep,
        decreases n - i,
    {
        if s.get_char(i) == sep {
            let piece = String::from_str(s.substring_char(start, i));
            proof {
                lemma_split_at_first_sep(s@.skip(start as int), sep, i - start);
                assert(s@.skip(start as int).take(i - start) =~= s@.subrange(
                    start as int,
                    i as int,
                ));
                assert(s@.skip(start as int).skip(i - start + 1) =~= s@.skip(i + 1));
                assert(views_of(pieces@.push(piece)) =~= views_of(pieces@) + seq![piece@]);
            }
            pieces.push(piece);
            start = i + 1;
        }
        i += 1;
    }
    let piece = String::from_str(s.substring_char(start, n));
    proof {
        lemma_split_no_sep(s@.skip(start as int), sep);
        assert(piece@ =~= s@.skip(start as int));
        assert(views_of(pieces@.push(piece)) =~= views_of(pieces@) + seq![piece@]);
    }
    pieces.push(piece);
    pieces
}

/// `s` with every whitespace character removed.
#[verifier::loop_isolation(false)]
pub fn strip_whitespace(s: &str) -> (r: String)
    ensures
        r@ == remove_ws(s@),
{
    let n = s.unicode_len();
    let mut r = String::new();
    let mut start: usize = 0;
    let mut i: usize = 0;
    while i < n
        invariant
            start <= i <= n,
            r@ == remove_ws(s@.take(start as int)),
            forall|j: int| start <= j < i ==> !is_ws(#[trigger] s@[j]),
        decreases n - i,
    {
        let c = s.get_char(i);
        if c == ' ' || c == '\t' || c == '\r' || c == '\n' {
            r.append(s.substring_char(start, i));
            proof {
                let pred = |c: char| !is_ws(c);
                Seq::<char>::filter_distributes_over_add(
                    s@.take(start as int),
                    s@.subrange(start as int, i as int),
                    pred,
                );
                lemma_filter_all_kept(s@.subrange(start as int, i as int), pred);
                assert(s@.take(start as int) + s@.subrange(start as int, i as int) =~= s@.take(
                    i as int,
                ));
                Seq::<char>::filter_distributes_over_add(s@.take(i as int), seq![s@[i as int]], pred);
                reveal_with_fuel(Seq::filter, 2);
                assert(seq![s@[i as int]].drop_last() =~= Seq::<char>::empty());
                assert(Seq::<char>::empty().filter(pred) =~= Seq::<char>::empty());
                assert(seq![s@[i as int]].filter(pred) =~= Seq::<char>::empty());
                assert(s@.take(i as int) + seq![s@[i as int]] =~= s@.take(i + 1));
            }
            start = i + 1;
        }
        i += 1;
    }
    r.append(s.substring_char(start, n));
    proof {
        let pred = |c: char| !is_ws(c);
        Seq::<char>::filter_distributes_over_add(
            s@.take(start as int),
            s@.subrange(start as int, n as int),
            pred,
        );
        lemma_filter_all_kept(s@.subrange(start as int, n as int), pred);
        assert(s@.take(start as int) + s@.subrange(start as int, n as int) =~= s@);
    }
    r
}


/// `needle` occurs in `s` starting at position `i`.
pub open spec fn contains_at(s: Seq<char>, needle: Seq<char>, i: int) -> bool {
    0 <= i && i + needle.len() <= s.len() && s.subrange(i, i + needle.len()) == needle
}

/// `needle` occurs somewhere in `s`.
pub open spec fn contains_seq(s: Seq<char>, needle: Seq<char>) -> bool {
    exists|i: int| contains_at(s, needle, i)
}

/// Exact substring test.
#[verifier::loop_isolation(false)]
pub fn str_contains(s: &str, needle: &str) -> (r: bool)
    ensures
        r == contains_seq(s@, needle@),
{
    let n = s.unicode_len();
    let m = needle.unicode_len();
    if m > n {
        proof {
            assert forall|i: int| !contains_at(s@, needle@, i) by {}
        }
        return false;
    }
    let mut i: usize = 0;
    while i <= n - m
        invariant
            n == s@.len(),
            m == needle@.len(),
            m <= n,
            i <= n - m + 1,
            forall|x: int| 0 <= x < i ==> !contains_at(s@, needle@, x),
        decreases n - m + 1 - i,
    {
        let mut j: usize = 0;
        let mut matches = true;
        while j < m
            invariant
                n == s@.len(),
                m == needle@.len(),
                i + m <= n,
                j <= m,
                matches == (forall|y: int| 0 <= y < j ==> s@[i + y] == needle@[y]),
            decreases m - j,
        {
            if s.get_char(i + j) != needle.get_char(j) {
                proof {
                    assert(s@[i + j] != needle@[j as int]);
                }
                matches = false;
                j = m;
            } else {
                j += 1;
            }
        }
        if matches {
            proof {
                assert(s@.subrange(i as int, i + needle@.len()) =~= needle@);
                assert(contains_at(s@, needle@, i as int));
            }
            return true;
        }
        proof {
            assert(!contains_at(s@, needle@, i as int)) by {
                if contains_at(s@, needle@, i as int) {
                    let y = choose|y: int| 0 <= y < m && s@[i + y] != needle@[y];
                    assert(s@.subrange(i as int, i + needle@.len())[y] == s@[i + y]);
                }
            }
        }
        i += 1;
    }
    proof {
        assert forall|x: int| !contains_at(s@, needle@, x) by {
            if 0 <= x < i {
                assert(!contains_at(s@, needle@, x));
            }
        }
    }
    false
}

} // verus!
