//! The glob matcher is supplied by the caller, as a function with the
//! shape of tree's `patmatch(buf, pattern, isdir)`: 1 on a match, 0 on a
//! mismatch and -1 on a syntax error in the pattern. Only an answer of 1
//! counts as a match.
use vstd::prelude::*;

verus! {

/// A call of the matcher on `buf` and `pat` may answer `r`.
pub open spec fn answered<M: Fn(&[u8], &[u8], bool) -> i32>(
    m: M,
    buf: Seq<u8>,
    pat: Seq<u8>,
    isdir: bool,
    r: i32,
) -> bool {
    exists|x: &[u8], y: &[u8]| #[trigger] call_ensures(m, (x, y, isdir), r) && x@ == buf && y@ == pat
}

/// The matcher answered 1 on `buf` and `pat`.
pub open spec fn hits<M: Fn(&[u8], &[u8], bool) -> i32>(
    m: M,
    buf: Seq<u8>,
    pat: Seq<u8>,
    isdir: bool,
) -> bool {
    answered(m, buf, pat, isdir, 1)
}

/// The matcher answered something other than 1 on `buf` and `pat`.
pub open spec fn misses<M: Fn(&[u8], &[u8], bool) -> i32>(
    m: M,
    buf: Seq<u8>,
    pat: Seq<u8>,
    isdir: bool,
) -> bool {
    exists|r: i32| r != 1 && #[trigger] answered(m, buf, pat, isdir, r)
}

/// The matcher accepts every input.
pub open spec fn total_matcher<M: Fn(&[u8], &[u8], bool) -> i32>(m: M) -> bool {
    forall|x: &[u8], y: &[u8], d: bool| #[trigger] call_requires(m, (x, y, d))
}

/// Ask the matcher, and say whether it answered 1.
pub fn ask<M: Fn(&[u8], &[u8], bool) -> i32>(m: &M, buf: &[u8], pat: &[u8], isdir: bool) -> (r: bool)
    requires
        total_matcher(*m),
    ensures
        r ==> hits(*m, buf@, pat@, isdir),
        !r ==> misses(*m, buf@, pat@, isdir),
{
    let a = m(buf, pat, isdir);
    proof {
        assert(answered(*m, buf@, pat@, isdir, a));
    }
    a == 1
}

/// The matcher gives one answer for each input.
pub open spec fn deterministic_matcher<M: Fn(&[u8], &[u8], bool) -> i32>(m: M) -> bool {
    forall|buf: Seq<u8>, pat: Seq<u8>, isdir: bool, r1: i32, r2: i32|
        #[trigger] answered(m, buf, pat, isdir, r1) && #[trigger] answered(m, buf, pat, isdir, r2) ==> r1 == r2
}

/// A deterministic matcher never both matches and misses one input.
pub proof fn lemma_hit_excludes_miss<M: Fn(&[u8], &[u8], bool) -> i32>(m: M, buf: Seq<u8>, pat: Seq<u8>, isdir: bool)
    requires
        deterministic_matcher(m),
    ensures
        !(hits(m, buf, pat, isdir) && misses(m, buf, pat, isdir)),
{
    if hits(m, buf, pat, isdir) && misses(m, buf, pat, isdir) {
        let r = choose|r: i32| r != 1 && #[trigger] answered(m, buf, pat, isdir, r);
        assert(answered(m, buf, pat, isdir, 1));
    }
}

/// Only an answer of 1 counts: a matcher that reports a syntax error
/// (-1) for a pattern never matches it, when it answers deterministically.
pub proof fn law_syntax_error_never_matches<M: Fn(&[u8], &[u8], bool) -> i32>(
    m: M, buf: Seq<u8>, pat: Seq<u8>, isdir: bool,
)
    requires
        deterministic_matcher(m),
        answered(m, buf, pat, isdir, -1i32),
    ensures
        !hits(m, buf, pat, isdir),
        misses(m, buf, pat, isdir),
{
    assert(answered(m, buf, pat, isdir, -1i32));
}

} // verus!
