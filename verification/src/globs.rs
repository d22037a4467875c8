//! Glob matching for per-checker ignore rules: `*` matches within one path
//! segment, `**` matches across segments, every other character matches
//! itself.

use vstd::prelude::*;

verus! {

/// Whether the glob pattern `p` matches the whole path `s`. `**` matches any
/// run of characters; `*` any run without `/`; anything else literally.
pub open spec fn glob_match(p: Seq<char>, s: Seq<char>) -> bool
    decreases p.len() + s.len(),
{
    if p.len() == 0 {
        s.len() == 0
    } else if p.len() >= 2 && p[0] == '*' && p[1] == '*' {
        glob_match(p.skip(2), s) || (s.len() > 0 && glob_match(p, s.skip(1)))
    } else if p[0] == '*' {
        glob_match(p.skip(1), s) || (s.len() > 0 && s[0] != '/' && glob_match(p, s.skip(1)))
    } else {
        s.len() > 0 && p[0] == s[0] && glob_match(p.skip(1), s.skip(1))
    }
}

fn glob_match_at(p: &Vec<char>, s: &Vec<char>, i: usize, j: usize) -> (r: bool)
    requires
        i <= p.len(),
        j <= s.len(),
    ensures
        r == glob_match(p@.skip(i as int), s@.skip(j as int)),
    decreases p.len() - i + s.len() - j,
{
    let ghost pp = p@.skip(i as int);
    let ghost ss = s@.skip(j as int);
    if i == p.len() {
        s.len() == j
    } else if i + 1 < p.len() && p[i] == '*' && p[i + 1] == '*' {
        proof {
            assert(pp[0] == p@[i as int]);
            assert(pp[1] == p@[i + 1]);
            assert(pp.skip(2) =~= p@.skip(i + 2));
        }
        if glob_match_at(p, s, i + 2, j) {
            true
        } else if j < s.len() {
            proof {
                assert(ss.skip(1) =~= s@.skip(j + 1));
            }
            glob_match_at(p, s, i, j + 1)
        } else {
            false
        }
    } else if p[i] == '*' {
        proof {
            assert(pp[0] == p@[i as int]);
            assert(pp.skip(1) =~= p@.skip(i + 1));
            assert(pp.len() >= 2 ==> pp[1] == p@[i + 1]);
        }
        if glob_match_at(p, s, i + 1, j) {
            true
        } else if j < s.len() && s[j] != '/' {
            proof {
                assert(ss[0] == s@[j as int]);
                assert(ss.skip(1) =~= s@.skip(j + 1));
            }
            glob_match_at(p, s, i, j + 1)
        } else {
            proof {
                assert(ss.len() > 0 ==> ss[0] == s@[j as int]);
            }
            false
        }
    } else {
        proof {
            assert(pp[0] == p@[i as int]);
            assert(pp.len() >= 2 ==> pp[1] == p@[i + 1]);
        }
        if j < s.len() && p[i] == s[j] {
            proof {
                assert(ss[0] == s@[j as int]);
                assert(pp.skip(1) =~= p@.skip(i + 1));
                assert(ss.skip(1) =~= s@.skip(j + 1));
            }
            glob_match_at(p, s, i + 1, j + 1)
        } else {
            proof {
                assert(ss.len() > 0 ==> ss[0] == s@[j as int]);
            }
            false
        }
    }
}

/// Whether `pattern` matches the whole of `path`.
pub fn glob_matches(pattern: &str, path: &str) -> (r: bool)
    ensures
        r == glob_match(pattern@, path@),
{
    let p = crate::strutil::str_to_chars(pattern);
    let s = crate::strutil::str_to_chars(path);
    proof {
        assert(p@.skip(0) =~= pattern@);
        assert(s@.skip(0) =~= path@);
    }
    glob_match_at(&p, &s, 0, 0)
}

/// Whether any pattern in `patterns` matches `path`.
pub fn any_glob_matches(patterns: &Vec<String>, path: &str) -> (r: bool)
    ensures
        r == exists|k: int|
            0 <= k < patterns.deep_view().len() && glob_match(
                #[trigger] patterns.deep_view()[k],
                path@,
            ),
{
    let mut k: usize = 0;
    while k < patterns.len()
        invariant
            k <= patterns.len(),
            forall|m: int|
                0 <= m < k ==> !glob_match(#[trigger] patterns.deep_view()[m], path@),
        decreases patterns.len() - k,
    {
        if glob_matches(patterns[k].as_str(), path) {
            proof {
                assert(glob_match(patterns.deep_view()[k as int], path@));
            }
            return true;
        }
        k = k + 1;
    }
    false
}

} // verus!
