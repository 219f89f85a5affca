use vstd::prelude::*;
use vstd::string::StrSliceExecFns;

verus! {

/// Glob matching over ref and tag names: `*` matches any run of characters,
/// `?` matches any single character, every other character matches itself.
/// The character-class syntax (`[` ... `]`) of the platform's full pattern
/// language is not modelled: a `[` matches only a literal `[`. A mainline
/// configured with a character class is therefore read literally by the
/// in-memory repository, while a live adapter hands it to the platform's own
/// matcher.
pub open spec fn glob_match(p: Seq<char>, s: Seq<char>) -> bool
    decreases p.len(), s.len(),
{
    if p.len() == 0 {
        s.len() == 0
    } else if p[0] == '*' {
        glob_match(p.drop_first(), s) || (s.len() > 0 && glob_match(p, s.drop_first()))
    } else {
        s.len() > 0 && (p[0] == '?' || p[0] == s[0]) && glob_match(p.drop_first(), s.drop_first())
    }
}

fn glob_match_at(p: &str, s: &str, pi: usize, si: usize) -> (r: bool)
    requires
        pi <= p@.len(),
        si <= s@.len(),
    ensures
        r == glob_match(p@.skip(pi as int), s@.skip(si as int)),
    decreases p@.len() - pi, s@.len() - si,
{
    let np = p.unicode_len();
    let ns = s.unicode_len();
    proof {
        if pi < np {
            assert(p@.skip(pi as int)[0] == p@[pi as int]);
            assert(p@.skip(pi as int).drop_first() =~= p@.skip(pi + 1));
        }
        if si < ns {
            assert(s@.skip(si as int).drop_first() =~= s@.skip(si + 1));
        }
    }
    if pi == np {
        si == ns
    } else {
        let pc = p.get_char(pi);
        if pc == '*' {
            if glob_match_at(p, s, pi + 1, si) {
                true
            } else if si < ns {
                glob_match_at(p, s, pi, si + 1)
            } else {
                false
            }
        } else {
            if si == ns {
                false
            } else {
                let sc = s.get_char(si);
                if pc == '?' || pc == sc {
                    glob_match_at(p, s, pi + 1, si + 1)
                } else {
                    false
                }
            }
        }
    }
}

/// True iff the glob pattern `p` matches the whole of `s`.
pub fn glob_matches(p: &str, s: &str) -> (r: bool)
    ensures
        r == glob_match(p@, s@),
{
    proof {
        assert(p@.skip(0) =~= p@);
        assert(s@.skip(0) =~= s@);
    }
    glob_match_at(p, s, 0, 0)
}

} // verus!
