//! Verified string predicates used by the admission filter and the
//! cross-referencer: prefix test and substring search over `&str`.
use vstd::prelude::*;

verus! {

/// `p` is a prefix of `s`.
pub open spec fn spec_starts_with(s: Seq<char>, p: Seq<char>) -> bool {
    p.len() <= s.len() && s.subrange(0, p.len() as int) == p
}

/// `n` occurs in `s` starting at index `i`.
pub open spec fn spec_matches_at(s: Seq<char>, n: Seq<char>, i: int) -> bool {
    0 <= i && i + n.len() <= s.len() && s.subrange(i, i + n.len() as int) == n
}

/// `n` occurs somewhere in `s`.
pub open spec fn spec_contains(s: Seq<char>, n: Seq<char>) -> bool {
    exists|i: int| spec_matches_at(s, n, i)
}

/// A prefix of a prefix of `s` is a prefix of `s`.
pub proof fn lemma_starts_with_trans(s: Seq<char>, p: Seq<char>, q: Seq<char>)
    requires
        spec_starts_with(s, p),
        spec_starts_with(p, q),
    ensures
        spec_starts_with(s, q),
{
    assert(s.subrange(0, q.len() as int) =~= q) by {
        assert(forall|k: int|
            0 <= k < q.len() ==> s[k] == #[trigger] s.subrange(0, p.len() as int)[k]);
        assert(forall|k: int|
            0 <= k < q.len() ==> p[k] == #[trigger] p.subrange(0, q.len() as int)[k]);
    }
}

/// Whether `s` starts with the prefix `p`, compared character by character.
pub fn str_starts_with(s: &str, p: &str) -> (r: bool)
    ensures
        r == spec_starts_with(s@, p@),
{
    let sl = s.unicode_len();
    let pl = p.unicode_len();
    if pl > sl {
        return false;
    }
    let mut i: usize = 0;
    while i < pl
        invariant
            i <= pl <= sl,
            sl == s@.len(),
            pl == p@.len(),
            forall|j: int| 0 <= j < i ==> s@[j] == p@[j],
        decreases pl - i,
    {
        if s.get_char(i) != p.get_char(i) {
            assert(s@.subrange(0, pl as int)[i as int] != p@[i as int]);
            return false;
        }
        i += 1;
    }
    assert(s@.subrange(0, pl as int) =~= p@);
    true
}

/// Whether `n` occurs in `s` as a contiguous substring.
pub fn str_contains(s: &str, n: &str) -> (r: bool)
    ensures
        r == spec_contains(s@, n@),
{
    let sl = s.unicode_len();
    let nl = n.unicode_len();
    if nl > sl {
        return false;
    }
    if nl == 0 {
        assert(s@.subrange(0, 0) =~= n@);
        assert(spec_matches_at(s@, n@, 0));
        return true;
    }
    let mut i: usize = 0;
    while i <= sl - nl
        invariant
            0 < nl <= sl,
            i <= sl - nl + 1,
            sl == s@.len(),
            nl == n@.len(),
            forall|k: int| 0 <= k < i ==> !spec_matches_at(s@, n@, k),
        decreases sl - i,
    {
        let mut j: usize = 0;
        let mut mismatch = false;
        while j < nl
            invariant
                i + nl <= sl,
                sl == s@.len(),
                nl == n@.len(),
                j <= nl,
                !mismatch ==> forall|k: int| 0 <= k < j ==> s@[i + k] == n@[k],
                mismatch ==> !spec_matches_at(s@, n@, i as int),
            decreases nl - j,
        {
            if s.get_char(i + j) != n.get_char(j) {
                assert(s@.subrange(i as int, i + nl as int)[j as int] != n@[j as int]);
                mismatch = true;
                j = nl;
            } else {
                j += 1;
            }
        }
        if !mismatch {
            assert(s@.subrange(i as int, i + nl as int) =~= n@);
            assert(spec_matches_at(s@, n@, i as int));
            return true;
        }
        i += 1;
    }
    assert forall|k: int| !spec_matches_at(s@, n@, k) by {
        if 0 <= k && k + n@.len() <= s@.len() {
            assert(k < i);
        }
    }
    false
}

} // verus!
