//! The search-pattern grammar of folder queries: SQL LIKE with `%` as the
//! multi-character wildcard and `_` as the single-character wildcard, plain
//! characters compared ASCII-case-insensitively.

use crate::strutil::{lower_char, lower_char_exec};
use vstd::prelude::*;
use vstd::string::StrSliceExecFns;

verus! {

/// ASCII-case-insensitive character equality.
pub open spec fn eq_ci(a: char, b: char) -> bool {
    lower_char(a) == lower_char(b)
}

/// Whether the pattern matches the whole string.
pub open spec fn like_match(s: Seq<char>, p: Seq<char>) -> bool
    decreases s.len() + p.len(),
{
    if p.len() == 0 {
        s.len() == 0
    } else if p[0] == '%' {
        like_match(s, p.drop_first()) || (s.len() > 0 && like_match(s.drop_first(), p))
    } else if p[0] == '_' {
        s.len() > 0 && like_match(s.drop_first(), p.drop_first())
    } else {
        s.len() > 0 && eq_ci(s[0], p[0]) && like_match(s.drop_first(), p.drop_first())
    }
}

fn like_match_at(s: &str, i: usize, p: &str, j: usize) -> (r: bool)
    requires
        i <= s@.len(),
        j <= p@.len(),
    ensures
        r == like_match(s@.skip(i as int), p@.skip(j as int)),
    decreases s@.len() - i + p@.len() - j,
{
    let n: usize = s.unicode_len();
    let m: usize = p.unicode_len();
    proof {
        assert(s@.skip(i as int).len() == n - i);
        assert(p@.skip(j as int).len() == m - j);
    }
    if j == m {
        proof {
            assert(p@.skip(j as int) =~= Seq::<char>::empty());
        }
        return i == n;
    }
    let pc = p.get_char(j);
    proof {
        assert(p@.skip(j as int)[0] == p@[j as int]);
        assert(p@.skip(j as int).drop_first() =~= p@.skip(j + 1 as int));
        if i < n {
            assert(s@.skip(i as int)[0] == s@[i as int]);
            assert(s@.skip(i as int).drop_first() =~= s@.skip(i + 1 as int));
        }
    }
    if pc == '%' {
        if like_match_at(s, i, p, j + 1) {
            true
        } else {
            i < n && like_match_at(s, i + 1, p, j)
        }
    } else if pc == '_' {
        i < n && like_match_at(s, i + 1, p, j + 1)
    } else {
        i < n && lower_char_exec(s.get_char(i)) == lower_char_exec(pc) && like_match_at(
            s,
            i + 1,
            p,
            j + 1,
        )
    }
}

/// Whether the LIKE pattern matches the string.
pub fn like_match_exec(s: &str, p: &str) -> (r: bool)
    ensures
        r == like_match(s@, p@),
{
    let r = like_match_at(s, 0, p, 0);
    proof {
        assert(s@.skip(0) =~= s@);
        assert(p@.skip(0) =~= p@);
    }
    r
}

} // verus!
