//! Character-level helpers on strings.
use vstd::prelude::*;

verus! {

/// Relies on `str::chars`: yields the characters of the string, in order.
#[verifier::external_body]
pub(crate) fn chars_of(s: &str) -> (r: Vec<char>)
    ensures
        r@ == s@,
{
    s.chars().collect()
}

/// Relies on `String::from_iter` over `char`: the string holds the
/// characters in order.
#[verifier::external_body]
pub(crate) fn string_of(v: &[char]) -> (r: String)
    ensures
        r@ == v@,
{
    String::from_iter(v.iter())
}

/// The two characters at `k` and `k + 1` are both `c`.
pub open spec fn pair_at(s: Seq<char>, c: char, k: int) -> bool {
    0 <= k && k + 1 < s.len() && s[k] == c && s[k + 1] == c
}

/// The first position at or after `k` where `c` appears twice in a row.
pub open spec fn find_pair_from(s: Seq<char>, c: char, k: int) -> Option<int>
    decreases s.len() - k,
{
    if k < 0 || k + 1 >= s.len() {
        None
    } else if s[k] == c && s[k + 1] == c {
        Some(k)
    } else {
        find_pair_from(s, c, k + 1)
    }
}

pub proof fn lemma_find_pair_from(s: Seq<char>, c: char, k: int)
    requires
        k >= 0,
    ensures
        find_pair_from(s, c, k) matches Some(i) ==> k <= i && i + 2 <= s.len() && pair_at(s, c, i)
            && forall|j: int| k <= j < i ==> !pair_at(s, c, j),
        find_pair_from(s, c, k) is None ==> forall|j: int| k <= j ==> !pair_at(s, c, j),
    decreases s.len() - k,
{
    if k + 1 >= s.len() {
    } else if s[k] == c && s[k + 1] == c {
    } else {
        lemma_find_pair_from(s, c, k + 1);
    }
}

/// Finds the first position at or after `from` where `c` appears twice in a
/// row.
pub(crate) fn find_pair(s: &Vec<char>, c: char, from: usize) -> (r: Option<usize>)
    requires
        from <= s@.len(),
    ensures
        r matches Some(i) ==> find_pair_from(s@, c, from as int) == Some(i as int),
        r is None ==> find_pair_from(s@, c, from as int) is None,
{
    let mut k = from;
    while s.len() - k > 1
        invariant
            from <= k <= s@.len(),
            find_pair_from(s@, c, from as int) == find_pair_from(s@, c, k as int),
        decreases s@.len() - k,
    {
        if s[k] == c && s[k + 1] == c {
            return Some(k);
        }
        k = k + 1;
    }
    None
}

/// Copies the characters in `[lo, hi)` into a new vector.
pub(crate) fn copy_range(s: &Vec<char>, lo: usize, hi: usize) -> (r: Vec<char>)
    requires
        lo <= hi <= s@.len(),
    ensures
        r@ == s@.subrange(lo as int, hi as int),
{
    let mut r: Vec<char> = Vec::new();
    let mut k = lo;
    while k < hi
        invariant
            lo <= k <= hi <= s@.len(),
            r@ == s@.subrange(lo as int, k as int),
        decreases hi - k,
    {
        r.push(s[k]);
        k = k + 1;
    }
    r
}

/// Appends every character of `src` to `dst`.
pub(crate) fn extend_chars(dst: &mut Vec<char>, src: &Vec<char>)
    ensures
        final(dst)@ == old(dst)@ + src@,
{
    let mut k: usize = 0;
    while k < src.len()
        invariant
            0 <= k <= src@.len(),
            dst@ == old(dst)@ + src@.subrange(0, k as int),
        decreases src@.len() - k,
    {
        dst.push(src[k]);
        k = k + 1;
    }
}

} // verus!
