//! Byte-level helpers shared by the scanners: ASCII case folding,
//! case-insensitive comparison and first-occurrence search.

use vstd::prelude::*;

verus! {

/// ASCII lower-casing of one byte; bytes outside `A..=Z` are unchanged.
pub open spec fn lower_byte(b: u8) -> u8 {
    if 65 <= b && b <= 90 { (b + 32) as u8 } else { b }
}

/// ASCII lower-casing of a byte sequence.
pub open spec fn lower_bytes(s: Seq<u8>) -> Seq<u8> {
    Seq::new(s.len(), |k: int| lower_byte(s[k]))
}

/// `x` and `y` are equal up to ASCII case.
pub open spec fn ci_eq(x: Seq<u8>, y: Seq<u8>) -> bool {
    &&& x.len() == y.len()
    &&& forall|k: int| 0 <= k < x.len() ==> #[trigger] lower_byte(x[k]) == lower_byte(y[k])
}

/// `needle` occurs in `h` at `start`, up to ASCII case.
pub open spec fn ci_at(h: Seq<u8>, start: int, needle: Seq<u8>) -> bool {
    0 <= start && start + needle.len() <= h.len() && ci_eq(h.subrange(start, start + needle.len()), needle)
}

/// `needle` occurs in `h` at `start`, exactly.
pub open spec fn occurs_at(h: Seq<u8>, start: int, needle: Seq<u8>) -> bool {
    0 <= start && start + needle.len() <= h.len() && h.subrange(start, start + needle.len()) == needle
}

/// First exact occurrence of `needle` in `h` at an index `>= k`.
pub open spec fn find_from(h: Seq<u8>, needle: Seq<u8>, k: int) -> Option<int>
    decreases h.len() + 1 - k,
{
    if k < 0 || k + needle.len() > h.len() {
        None
    } else if h.subrange(k, k + needle.len()) == needle {
        Some(k)
    } else {
        find_from(h, needle, k + 1)
    }
}

/// First exact occurrence of a non-empty `needle` in `h`; `None` for an
/// empty needle or one longer than `h`.
pub open spec fn spec_find_subseq(h: Seq<u8>, needle: Seq<u8>) -> Option<int> {
    if needle.len() == 0 || needle.len() > h.len() {
        None
    } else {
        find_from(h, needle, 0)
    }
}

/// What `find_from` returns is the first occurrence at or after `k`.
pub proof fn lemma_find_from(h: Seq<u8>, needle: Seq<u8>, k: int)
    requires
        0 <= k,
    ensures
        find_from(h, needle, k) matches Some(r) ==> k <= r && occurs_at(h, r, needle) && forall|
            j: int,
        | k <= j < r ==> !occurs_at(h, j, needle),
        find_from(h, needle, k) is None ==> forall|j: int| k <= j ==> !occurs_at(h, j, needle),
    decreases h.len() + 1 - k,
{
    if k + needle.len() > h.len() {
    } else if h.subrange(k, k + needle.len()) == needle {
    } else {
        lemma_find_from(h, needle, k + 1);
    }
}

/// Exec ASCII lower-casing of one byte.
pub fn lower_u8(b: u8) -> (r: u8)
    ensures
        r == lower_byte(b),
{
    if 65 <= b && b <= 90 {
        b + 32
    } else {
        b
    }
}

/// Case-insensitive comparison of `needle` with `h` at `start`.
pub fn ci_match_at(h: &[u8], start: usize, needle: &[u8]) -> (r: bool)
    ensures
        r == ci_at(h@, start as int, needle@),
{
    if start > h.len() || needle.len() > h.len() - start {
        return false;
    }
    let mut k: usize = 0;
    while k < needle.len()
        invariant
            start + needle.len() <= h.len(),
            k <= needle.len(),
            forall|m: int| 0 <= m < k ==> lower_byte(#[trigger] h@[start + m]) == lower_byte(needle@[m]),
        decreases needle.len() - k,
    {
        if lower_u8(h[start + k]) != lower_u8(needle[k]) {
            assert(!ci_eq(h@.subrange(start as int, start + needle.len()), needle@)) by {
                assert(h@.subrange(start as int, start + needle.len())[k as int] == h@[start + k]);
            }
            return false;
        }
        k += 1;
    }
    assert(ci_eq(h@.subrange(start as int, start + needle.len()), needle@)) by {
        assert forall|m: int| 0 <= m < needle.len() implies #[trigger] lower_byte(
            h@.subrange(start as int, start + needle.len())[m],
        ) == lower_byte(needle@[m]) by {
            assert(h@.subrange(start as int, start + needle.len())[m] == h@[start + m]);
        }
    }
    true
}

/// Exact comparison of `needle` with `h` at `start`.
pub fn match_at(h: &[u8], start: usize, needle: &[u8]) -> (r: bool)
    ensures
        r == occurs_at(h@, start as int, needle@),
{
    if start > h.len() || needle.len() > h.len() - start {
        return false;
    }
    let mut k: usize = 0;
    while k < needle.len()
        invariant
            start + needle.len() <= h.len(),
            k <= needle.len(),
            forall|m: int| 0 <= m < k ==> #[trigger] h@[start + m] == needle@[m],
        decreases needle.len() - k,
    {
        if h[start + k] != needle[k] {
            assert(h@.subrange(start as int, start + needle.len())[k as int] == h@[start + k]);
            return false;
        }
        k += 1;
    }
    assert(h@.subrange(start as int, start + needle.len()) =~= needle@) by {
        assert forall|m: int| 0 <= m < needle.len() implies #[trigger] h@.subrange(
            start as int,
            start + needle.len(),
        )[m] == needle@[m] by {
            assert(h@[start + m] == needle@[m]);
        }
    }
    true
}

/// First exact occurrence of `needle` in `h` at or after `from`.
pub fn find_subseq_from(h: &[u8], needle: &[u8], from: usize) -> (r: Option<usize>)
    ensures
        match r {
            Some(i) => find_from(h@, needle@, from as int) == Some(i as int),
            None => find_from(h@, needle@, from as int) is None,
        },
{
    let mut k = from;
    while k <= h.len() && needle.len() <= h.len() - k
        invariant
            from <= k,
            find_from(h@, needle@, from as int) == find_from(h@, needle@, k as int),
        decreases h.len() + 1 - k,
    {
        if match_at(h, k, needle) {
            return Some(k);
        }
        if needle.len() == 0 {
            assert(h@.subrange(k as int, k as int) =~= needle@);
        }
        k += 1;
    }
    None
}

/// Byte offset where `needle` first starts in `haystack`, or `None` when
/// it does not occur, is empty, or is longer than `haystack`.
pub fn find_subseq(haystack: &[u8], needle: &[u8]) -> (r: Option<usize>)
    ensures
        match r {
            Some(i) => spec_find_subseq(haystack@, needle@) == Some(i as int),
            None => spec_find_subseq(haystack@, needle@) is None,
        },
        r matches Some(i) ==> occurs_at(haystack@, i as int, needle@) && forall|j: int|
            0 <= j < i ==> !occurs_at(haystack@, j, needle@),
        r is None ==> needle@.len() == 0 || forall|j: int| !occurs_at(haystack@, j, needle@),
{
    proof {
        lemma_find_from(haystack@, needle@, 0);
    }
    if needle.len() == 0 || needle.len() > haystack.len() {
        return None;
    }
    find_subseq_from(haystack, needle, 0)
}

/// Append the bytes of `src` to `out`.
pub fn push_bytes(out: &mut Vec<u8>, src: &[u8])
    ensures
        final(out)@ == old(out)@ + src@,
{
    let mut i: usize = 0;
    while i < src.len()
        invariant
            i <= src.len(),
            out@ == old(out)@ + src@.take(i as int),
        decreases src.len() - i,
    {
        out.push(src[i]);
        assert(src@.take(i + 1) =~= src@.take(i as int).push(src@[i as int]));
        i += 1;
    }
    assert(src@.take(src.len() as int) =~= src@);
}

} // verus!
