//! Texture classification: which texture names exclude their faces.

use vstd::prelude::*;

verus! {

/// `n` occurs in `s` as a contiguous run of characters.
pub open spec fn contains_substr(s: Seq<char>, n: Seq<char>) -> bool {
    exists|i: int|
        0 <= i && i + n.len() <= s.len() && #[trigger] s.subrange(i, i + n.len()) == n
}

/// A texture name is ignored when it equals one of the exact names
/// `clip`, `hint`, `trigger`, `163`, or contains one of the needles
/// `sky`, `light`, `tech`, `wood`. Comparison is case-sensitive.
pub open spec fn is_ignored_spec(s: Seq<char>) -> bool {
    ||| s == "clip"@
    ||| s == "hint"@
    ||| s == "trigger"@
    ||| s == "163"@
    ||| contains_substr(s, "sky"@)
    ||| contains_substr(s, "light"@)
    ||| contains_substr(s, "tech"@)
    ||| contains_substr(s, "wood"@)
}

/// Character-for-character equality of two string slices.
pub fn str_eq(a: &str, b: &str) -> (r: bool)
    ensures
        r == (a@ == b@),
{
    let n = a.unicode_len();
    let m = b.unicode_len();
    if n != m {
        proof {
            assert(a@.len() != b@.len());
        }
        return false;
    }
    let mut i: usize = 0;
    while i < n
        invariant
            n == a@.len(),
            n == b@.len(),
            i <= n,
            forall|j: int| 0 <= j < i ==> a@[j] == b@[j],
        decreases n - i,
    {
        if a.get_char(i) != b.get_char(i) {
            proof {
                assert(a@[i as int] != b@[i as int]);
            }
            return false;
        }
        i += 1;
    }
    proof {
        assert(a@ =~= b@);
    }
    true
}

/// `needle` matches `s` starting at position `at`.
fn match_at(s: &str, needle: &str, at: usize) -> (r: bool)
    requires
        at + needle@.len() <= s@.len(),
        s@.len() <= usize::MAX,
    ensures
        r == (s@.subrange(at as int, at + needle@.len()) == needle@),
{
    let m = needle.unicode_len();
    let mut j: usize = 0;
    while j < m
        invariant
            m == needle@.len(),
            at + m <= s@.len(),
            s@.len() <= usize::MAX,
            j <= m,
            forall|k: int| 0 <= k < j ==> s@[at + k] == needle@[k],
        decreases m - j,
    {
        if s.get_char(at + j) != needle.get_char(j) {
            proof {
                assert(s@.subrange(at as int, at + needle@.len())[j as int] != needle@[j as int]);
            }
            return false;
        }
        j += 1;
    }
    proof {
        assert(s@.subrange(at as int, at + needle@.len()) =~= needle@);
    }
    true
}

/// `needle` occurs somewhere in `s`.
pub fn contains_sub(s: &str, needle: &str) -> (r: bool)
    ensures
        r == contains_substr(s@, needle@),
{
    let n = s.unicode_len();
    let m = needle.unicode_len();
    if m > n {
        return false;
    }
    if m == 0 {
        proof {
            assert(s@.subrange(0, 0 + needle@.len() as int) =~= needle@);
        }
        return true;
    }
    let count = n - m + 1;
    let mut i: usize = 0;
    while i < count
        invariant
            n == s@.len(),
            m == needle@.len(),
            1 <= m <= n,
            count == n - m + 1,
            i <= count,
            forall|k: int| 0 <= k < i ==> #[trigger] s@.subrange(k, k + needle@.len()) != needle@,
        decreases count - i,
    {
        if match_at(s, needle, i) {
            return true;
        }
        i += 1;
    }
    false
}

/// Decides whether a texture name excludes its faces from the output:
/// an exact match against the ignore set, then a substring match against
/// the ignore needles, both case-sensitive.
pub fn is_ignored_texture(name: &str) -> (r: bool)
    ensures
        r == is_ignored_spec(name@),
{
    if str_eq(name, "clip") || str_eq(name, "hint") || str_eq(name, "trigger") || str_eq(
        name,
        "163",
    ) {
        return true;
    }
    contains_sub(name, "sky") || contains_sub(name, "light") || contains_sub(name, "tech")
        || contains_sub(name, "wood")
}

} // verus!
