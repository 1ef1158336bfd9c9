use vstd::prelude::*;
use crate::byte_deque::ByteDeque;

verus! {

/// `needle` occurs in `hay` starting at position `i`.
pub open spec fn occurs_at(hay: Seq<u8>, needle: Seq<u8>, i: int) -> bool {
    &&& 0 <= i
    &&& i + needle.len() <= hay.len()
    &&& hay.subrange(i, i + needle.len()) == needle
}

/// `i` is the leftmost position at which `needle` occurs in `hay`.
pub open spec fn is_first_occurrence(hay: Seq<u8>, needle: Seq<u8>, i: int) -> bool {
    &&& occurs_at(hay, needle, i)
    &&& forall|j: int| 0 <= j < i ==> !occurs_at(hay, needle, j)
}

/// `needle` occurs nowhere in `hay`.
pub open spec fn never_occurs(hay: Seq<u8>, needle: Seq<u8>) -> bool {
    forall|j: int| !occurs_at(hay, needle, j)
}

/// The leftmost position of `needle` in `hay`, if it occurs.
pub open spec fn first_occurrence(hay: Seq<u8>, needle: Seq<u8>) -> Option<int> {
    if exists|i: int| is_first_occurrence(hay, needle, i) {
        Some(choose|i: int| is_first_occurrence(hay, needle, i))
    } else {
        None
    }
}

/// The first occurrence, when there is one, is the only position that is one.
pub proof fn lemma_first_occurrence_unique(hay: Seq<u8>, needle: Seq<u8>, i: int, j: int)
    requires
        is_first_occurrence(hay, needle, i),
        is_first_occurrence(hay, needle, j),
    ensures
        i == j,
{
    if i < j {
        assert(!occurs_at(hay, needle, i));
    } else if j < i {
        assert(!occurs_at(hay, needle, j));
    }
}

/// Where `needle` occurs at all, it has a leftmost occurrence.
pub proof fn lemma_occurs_has_first(hay: Seq<u8>, needle: Seq<u8>, j: int)
    requires
        occurs_at(hay, needle, j),
    ensures
        first_occurrence(hay, needle) is Some,
    decreases j,
{
    if forall|k: int| 0 <= k < j ==> !occurs_at(hay, needle, k) {
        assert(is_first_occurrence(hay, needle, j));
    } else {
        let k = choose|k: int| 0 <= k < j && occurs_at(hay, needle, k);
        lemma_occurs_has_first(hay, needle, k);
    }
}

/// The text before the first occurrence of a non-empty `needle` does not
/// hold it.
pub proof fn lemma_before_first_occurrence(hay: Seq<u8>, needle: Seq<u8>, i: int)
    requires
        needle.len() > 0,
        is_first_occurrence(hay, needle, i),
    ensures
        never_occurs(hay.subrange(0, i), needle),
{
    let pre = hay.subrange(0, i);
    assert forall|m: int| !occurs_at(pre, needle, m) by {
        if occurs_at(pre, needle, m) {
            assert(pre.subrange(m, m + needle.len()) =~= hay.subrange(m, m + needle.len()));
            assert(occurs_at(hay, needle, m));
        }
    }
}

/// A search result in the form the searching functions give it, shifted by
/// `offset`.
pub open spec fn found_as(hay: Seq<u8>, needle: Seq<u8>, offset: int, r: Option<usize>) -> bool {
    match r {
        Some(p) => is_first_occurrence(hay, needle, p - offset),
        None => never_occurs(hay, needle),
    }
}

pub proof fn lemma_found_as_first_occurrence(hay: Seq<u8>, needle: Seq<u8>, offset: int, r: Option<usize>)
    requires
        found_as(hay, needle, offset, r),
    ensures
        r matches Some(p) ==> first_occurrence(hay, needle) == Some(p - offset),
        r is None ==> first_occurrence(hay, needle) is None,
{
    if let Some(p) = r {
        let c = choose|i: int| is_first_occurrence(hay, needle, i);
        lemma_first_occurrence_unique(hay, needle, c, p - offset);
    } else {
        if exists|i: int| is_first_occurrence(hay, needle, i) {
            let c = choose|i: int| is_first_occurrence(hay, needle, i);
            assert(occurs_at(hay, needle, c));
        }
    }
}

/// Whether `needle` occurs in `hay` at `at`, comparing byte by byte.
fn occurs_at_exec(needle: &[u8], hay: &[u8], at: usize) -> (r: bool)
    requires
        at + needle@.len() <= hay@.len(),
    ensures
        r == occurs_at(hay@, needle@, at as int),
{
    let mut k: usize = 0;
    while k < needle.len()
        invariant
            at + needle@.len() <= hay.len(),
            0 <= k <= needle@.len(),
            forall|m: int| 0 <= m < k ==> hay@[at + m] == needle@[m],
        decreases needle@.len() - k,
    {
        if hay[at + k] != needle[k] {
            assert(hay@.subrange(at as int, at + needle@.len())[k as int] != needle@[k as int]);
            return false;
        }
        k = k + 1;
    }
    assert(hay@.subrange(at as int, at + needle@.len()) =~= needle@);
    true
}

/// The leftmost position at which `needle` occurs in `haystack`; an empty
/// needle occurs at 0.
pub fn index_of(needle: &[u8], haystack: &[u8]) -> (r: Option<usize>)
    ensures
        found_as(haystack@, needle@, 0, r),
{
    if needle.len() == 0 {
        assert(haystack@.subrange(0, 0) =~= needle@);
        return Some(0);
    }
    if needle.len() > haystack.len() {
        return None;
    }
    let last = haystack.len() - needle.len();
    let mut i: usize = 0;
    while i <= last
        invariant
            last + needle@.len() == haystack.len(),
            needle@.len() > 0,
            i <= last + 1,
            forall|j: int| 0 <= j < i ==> !occurs_at(haystack@, needle@, j),
        decreases last + 1 - i,
    {
        if occurs_at_exec(needle, haystack, i) {
            return Some(i);
        }
        i = i + 1;
    }
    None
}

/// The first position of the byte `needle` in `buf`.
pub fn memchr(buf: &[u8], needle: u8) -> (r: Option<usize>)
    ensures
        r matches Some(i) ==> i < buf@.len() && buf@[i as int] == needle
            && forall|j: int| 0 <= j < i ==> buf@[j] != needle,
        r is None ==> forall|j: int| 0 <= j < buf@.len() ==> buf@[j] != needle,
{
    let mut i: usize = 0;
    while i < buf.len()
        invariant
            0 <= i <= buf@.len(),
            forall|j: int| 0 <= j < i ==> buf@[j] != needle,
        decreases buf@.len() - i,
    {
        if buf[i] == needle {
            return Some(i);
        }
        i = i + 1;
    }
    None
}

pub open spec fn min_int(a: int, b: int) -> int {
    if a <= b { a } else { b }
}

/// Skips `start` bytes of the logical buffer `left ++ right` and takes the
/// next `length`, as a part of `left` followed by a part of `right`.
pub fn subslices_inner<'a, 'b>(left: &'a [u8], right: &'b [u8], start: usize, length: usize) -> (r: (&'a [u8], &'b [u8]))
    requires
        start + length <= left@.len() + right@.len(),
        left@.len() + right@.len() <= usize::MAX,
    ensures
        r.0@ == left@.subrange(min_int(left@.len() as int, start as int), min_int(left@.len() as int, start + length)),
        r.1@ == right@.subrange(start - min_int(left@.len() as int, start as int),
            start - min_int(left@.len() as int, start as int) + length
                - (min_int(left@.len() as int, start + length) - min_int(left@.len() as int, start as int))),
        r.0@ + r.1@ == (left@ + right@).subrange(start as int, start + length),
{
    let llen = left.len();
    let left_start = if llen <= start { llen } else { start };
    let left_end = if llen <= length + start { llen } else { length + start };
    let elem_from_left = left_end - left_start;
    let right_start = start - left_start;
    let right_end = right_start + (length - elem_from_left);
    let l = &left[left_start..left_end];
    let r = &right[right_start..right_end];
    assert(l@ + r@ =~= (left@ + right@).subrange(start as int, start + length));
    (l, r)
}

/// Finds `needle` in `left ++ right`, comparing byte by byte; the position
/// is shifted by `offset`.
fn index_in_slices_multibyte(needle: &[u8], left: &[u8], right: &[u8], offset: usize) -> (r: Option<usize>)
    requires
        offset + left@.len() + right@.len() <= usize::MAX,
    ensures
        found_as(left@ + right@, needle@, offset as int, r),
{
    let ghost hay = left@ + right@;
    let nlen = needle.len();
    let llen = left.len();
    let hlen = llen + right.len();
    if nlen > hlen {
        return None;
    }
    if nlen == 0 {
        assert(hay.subrange(0, 0) =~= needle@);
        return Some(offset);
    }
    let mut idx: usize = 0;
    while idx <= hlen - nlen
        invariant
            nlen == needle@.len(),
            llen == left@.len(),
            hlen == hay.len(),
            hay == left@ + right@,
            0 < nlen <= hlen,
            idx <= hlen - nlen + 1,
            offset + hlen <= usize::MAX,
            forall|j: int| 0 <= j < idx ==> !occurs_at(hay, needle@, j),
        decreases hlen - nlen + 1 - idx,
    {
        let mut matches = true;
        let mut needle_idx: usize = 0;
        while needle_idx < nlen && matches
            invariant
                nlen == needle@.len(),
                llen == left@.len(),
                hlen == hay.len(),
                hay == left@ + right@,
                idx + nlen <= hlen,
                0 <= needle_idx <= nlen,
                matches ==> forall|m: int| 0 <= m < needle_idx ==> hay[idx + m] == needle@[m],
                !matches ==> !occurs_at(hay, needle@, idx as int),
            decreases nlen - needle_idx + (if matches { 1int } else { 0int }),
        {
            let sub_idx = idx + needle_idx;
            let at = if sub_idx >= llen { right[sub_idx - llen] } else { left[sub_idx] };
            if needle[needle_idx] != at {
                assert(hay.subrange(idx as int, idx + nlen)[needle_idx as int] != needle@[needle_idx as int]);
                matches = false;
            } else {
                needle_idx = needle_idx + 1;
            }
        }
        if matches {
            assert(hay.subrange(idx as int, idx + nlen) =~= needle@);
            return Some(idx + offset);
        }
        idx = idx + 1;
    }
    None
}

/// Searches `left ++ right` for `needle` and gives the position plus
/// `offset`. A one-byte needle is found with `memchr`.
pub fn index_in_slices(needle: &[u8], slices: (&[u8], &[u8]), offset: usize) -> (r: Option<usize>)
    requires
        offset + slices.0@.len() + slices.1@.len() <= usize::MAX,
    ensures
        found_as(slices.0@ + slices.1@, needle@, offset as int, r),
{
    let (left, right) = slices;
    let ghost hay = left@ + right@;
    let llen = left.len();
    let nlen = needle.len();
    if nlen == 1 {
        let byte = needle[0];
        if let Some(idx) = memchr(left, byte) {
            assert(hay.subrange(idx as int, idx + 1) =~= needle@);
            proof {
                assert forall|j: int| 0 <= j < idx implies !occurs_at(hay, needle@, j) by {
                    assert(hay.subrange(j, j + 1)[0] == hay[j]);
                }
            }
            return Some(idx + offset);
        }
        if let Some(idx) = memchr(right, byte) {
            assert(hay.subrange(llen + idx, llen + idx + 1) =~= needle@);
            proof {
                assert forall|j: int| 0 <= j < llen + idx implies !occurs_at(hay, needle@, j) by {
                    assert(hay.subrange(j, j + 1)[0] == hay[j]);
                }
            }
            return Some(idx + llen + offset);
        }
        proof {
            assert forall|j: int| !occurs_at(hay, needle@, j) by {
                if 0 <= j < hay.len() {
                    assert(hay.subrange(j, j + 1)[0] == hay[j]);
                }
            }
        }
        return None;
    }
    index_in_slices_multibyte(needle, left, right, offset)
}

/// The bytes `start..end` of the deque's contents, as two slices.
pub fn subslices(dq: &ByteDeque, start: usize, end: usize) -> (r: (&[u8], &[u8]))
    requires
        dq.wf(),
        start <= end <= dq@.len(),
    ensures
        r.0@ + r.1@ == dq@.subrange(start as int, end as int),
{
    let (left, right) = dq.as_slices();
    subslices_inner(left, right, start, end - start)
}

/// The leftmost position of `needle` in the whole deque.
pub fn index_in_full_dq(needle: &[u8], haystack: &ByteDeque) -> (r: Option<usize>)
    requires
        haystack.wf(),
    ensures
        found_as(haystack@, needle@, 0, r),
{
    index_in_slices(needle, haystack.as_slices(), 0)
}

/// The leftmost position of `needle` within bytes `start..end` of the
/// deque, counted from the front of the deque.
pub fn index_in_dq(needle: &[u8], haystack: &ByteDeque, start: usize, end: usize) -> (r: Option<usize>)
    requires
        haystack.wf(),
        start <= end <= haystack@.len(),
    ensures
        found_as(haystack@.subrange(start as int, end as int), needle@, start as int, r),
{
    let slices = subslices(haystack, start, end);
    assert((slices.0@ + slices.1@).len() == end - start);
    index_in_slices(needle, slices, start)
}

} // verus!
