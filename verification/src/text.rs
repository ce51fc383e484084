//! Small verified helpers over strings: exact equality, substring search,
//! and membership of a word in a list of strings.
use vstd::prelude::*;

verus! {

broadcast use vstd::std_specs::vec::group_vec_axioms;

/// Whether `sub` occurs in `s` starting at position `k`.
pub open spec fn occurs_at(s: Seq<char>, sub: Seq<char>, k: int) -> bool {
    0 <= k && k + sub.len() <= s.len() && s.subrange(k, k + sub.len()) == sub
}

/// Whether `sub` occurs anywhere in `s` as a contiguous run.
pub open spec fn contains_seq(s: Seq<char>, sub: Seq<char>) -> bool {
    exists|k: int| occurs_at(s, sub, k)
}

/// Whether some string of `v` reads exactly `w`.
pub open spec fn has_string(v: Seq<String>, w: Seq<char>) -> bool {
    exists|i: int| 0 <= i < v.len() && v[i]@ == w
}

/// Decides character-for-character equality of two strings.
pub fn str_eq(a: &str, b: &str) -> (r: bool)
    ensures
        r == (a@ == b@),
{
    let n = a.unicode_len();
    let m = b.unicode_len();
    if n != m {
        return false;
    }
    let mut i: usize = 0;
    while i < n
        invariant
            i <= n,
            n == a@.len(),
            n == b@.len(),
            forall|k: int| 0 <= k < i ==> a@[k] == b@[k],
        decreases n - i,
    {
        if a.get_char(i) != b.get_char(i) {
            return false;
        }
        i += 1;
    }
    proof {
        assert(a@ =~= b@);
    }
    true
}

/// Decides whether `sub` occurs anywhere in `s`.
pub fn contains_sub(s: &str, sub: &str) -> (r: bool)
    ensures
        r == contains_seq(s@, sub@),
{
    let n = s.unicode_len();
    let m = sub.unicode_len();
    if m > n {
        proof {
            assert forall|k: int| !occurs_at(s@, sub@, k) by {}
        }
        return false;
    }
    let mut k: usize = 0;
    while k <= n - m
        invariant
            m <= n,
            n == s@.len(),
            m == sub@.len(),
            k <= n - m + 1,
            forall|t: int| 0 <= t < k ==> !occurs_at(s@, sub@, t),
        decreases n - m + 1 - k,
    {
        let mut j: usize = 0;
        let mut same = true;
        while j < m && same
            invariant
                j <= m,
                m <= n,
                k + m <= n,
                n == s@.len(),
                m == sub@.len(),
                same ==> forall|t: int| 0 <= t < j ==> s@[k + t] == sub@[t],
                !same ==> j < m && s@[k + j] != sub@[j as int],
            decreases m - j, (if same { 1int } else { 0int }),
        {
            if s.get_char(k + j) != sub.get_char(j) {
                same = false;
            } else {
                j += 1;
            }
        }
        if same {
            proof {
                assert(s@.subrange(k as int, k + m) =~= sub@);
                assert(occurs_at(s@, sub@, k as int));
            }
            return true;
        }
        proof {
            assert(s@.subrange(k as int, k + m)[j as int] != sub@[j as int]);
            assert(!occurs_at(s@, sub@, k as int));
        }
        k += 1;
    }
    proof {
        assert forall|t: int| !occurs_at(s@, sub@, t) by {
            if 0 <= t < k {
            } else if t >= 0 {
                assert(t + sub@.len() > s@.len());
            }
        }
    }
    false
}

/// Decides whether some string of `v` reads exactly `w`.
pub fn strings_contain(v: &Vec<String>, w: &str) -> (r: bool)
    ensures
        r == has_string(v@, w@),
{
    let mut i: usize = 0;
    while i < v.len()
        invariant
            i <= v@.len(),
            forall|k: int| 0 <= k < i ==> v@[k]@ != w@,
        decreases v@.len() - i,
    {
        if str_eq(v[i].as_str(), w) {
            return true;
        }
        i += 1;
    }
    false
}

} // verus!
