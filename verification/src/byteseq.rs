//! Searching and copying byte sequences.

use vstd::prelude::*;

verus! {

/// `needle` occurs in `hay` at position `i`.
pub open spec fn occurs_at(hay: Seq<u8>, needle: Seq<u8>, i: int) -> bool {
    0 <= i && i + needle.len() <= hay.len() && hay.subrange(i, i + needle.len()) == needle
}

/// Copy of `data[start..end]`.
pub fn copy_range(data: &[u8], start: usize, end: usize) -> (r: Vec<u8>)
    requires
        start <= end <= data@.len(),
    ensures
        r@ == data@.subrange(start as int, end as int),
{
    let mut out: Vec<u8> = Vec::new();
    let mut i = start;
    while i < end
        invariant
            start <= i <= end,
            end <= data.len(),
            out@ == data@.subrange(start as int, i as int),
        decreases end - i,
    {
        out.push(data[i]);
        assert(out@ =~= data@.subrange(start as int, i + 1));
        i += 1;
    }
    out
}

/// `data[pos..pos + needle.len()]` equals `needle`.
pub fn bytes_equal_at(data: &[u8], pos: usize, needle: &[u8]) -> (r: bool)
    ensures
        r == occurs_at(data@, needle@, pos as int),
{
    if pos > data.len() || needle.len() > data.len() - pos {
        return false;
    }
    let mut i: usize = 0;
    while i < needle.len()
        invariant
            pos + needle@.len() <= data.len(),
            i <= needle@.len(),
            forall|j: int| 0 <= j < i ==> data@[pos + j] == needle@[j],
        decreases needle@.len() - i,
    {
        if data[pos + i] != needle[i] {
            assert(data@.subrange(pos as int, pos + needle@.len())[i as int] != needle@[i as int]);
            return false;
        }
        i += 1;
    }
    assert(data@.subrange(pos as int, pos + needle@.len()) =~= needle@);
    true
}

/// `r` is the first position of a non-empty `needle` in `hay`, or `None` when it does not
/// occur.
pub open spec fn is_first_occurrence(hay: Seq<u8>, needle: Seq<u8>, r: Option<usize>) -> bool {
    match r {
        Some(i) => needle.len() > 0 && occurs_at(hay, needle, i as int) && forall|j: int|
            0 <= j < i ==> !occurs_at(hay, needle, j),
        None => needle.len() == 0 || forall|j: int| !occurs_at(hay, needle, j),
    }
}

/// `r` is the last position of a non-empty `needle` in `hay`, or `None` when it does not
/// occur.
pub open spec fn is_last_occurrence(hay: Seq<u8>, needle: Seq<u8>, r: Option<usize>) -> bool {
    match r {
        Some(i) => needle.len() > 0 && occurs_at(hay, needle, i as int) && forall|j: int|
            i < j ==> !occurs_at(hay, needle, j),
        None => needle.len() == 0 || forall|j: int| !occurs_at(hay, needle, j),
    }
}

/// First position at which a non-empty `needle` occurs in `hay[from..]`, counted from `from`.
pub fn find_from(hay: &[u8], from: usize, needle: &[u8]) -> (r: Option<usize>)
    requires
        from <= hay@.len(),
    ensures
        is_first_occurrence(hay@.subrange(from as int, hay@.len() as int), needle@, r),
{
    let ghost sub = hay@.subrange(from as int, hay@.len() as int);
    if needle.len() == 0 {
        return None;
    }
    if needle.len() > hay.len() - from {
        assert forall|j: int| !occurs_at(sub, needle@, j) by {}
        return None;
    }
    let last = hay.len() - from - needle.len();
    let mut i: usize = 0;
    while i <= last
        invariant
            from + last + needle@.len() == hay.len(),
            needle@.len() > 0,
            i <= last + 1,
            sub == hay@.subrange(from as int, hay@.len() as int),
            forall|j: int| 0 <= j < i ==> !occurs_at(sub, needle@, j),
        decreases last + 1 - i,
    {
        let hit = bytes_equal_at(hay, from + i, needle);
        proof {
            assert(sub.subrange(i as int, i + needle@.len()) =~= hay@.subrange(from + i, from + i + needle@.len()));
        }
        if hit {
            return Some(i);
        }
        i += 1;
    }
    assert forall|j: int| !occurs_at(sub, needle@, j) by {
        if 0 <= j && j + needle@.len() <= sub.len() {
            assert(j < i);
        }
    }
    None
}

/// First position of `needle` in `haystack`; `None` for an empty needle.
pub fn find_first(haystack: &[u8], needle: &[u8]) -> (r: Option<usize>)
    ensures
        is_first_occurrence(haystack@, needle@, r),
{
    let r = find_from(haystack, 0, needle);
    assert(haystack@.subrange(0, haystack@.len() as int) =~= haystack@);
    r
}

/// Last position of `needle` in `haystack`; `None` for an empty needle.
pub fn find_last(haystack: &[u8], needle: &[u8]) -> (r: Option<usize>)
    ensures
        is_last_occurrence(haystack@, needle@, r),
{
    if needle.len() == 0 {
        return None;
    }
    if needle.len() > haystack.len() {
        return None;
    }
    let mut i: usize = haystack.len() - needle.len() + 1;
    while i > 0
        invariant
            i <= haystack@.len() - needle@.len() + 1,
            needle@.len() > 0,
            forall|j: int| i <= j ==> !occurs_at(haystack@, needle@, j),
        decreases i,
    {
        i -= 1;
        if bytes_equal_at(haystack, i, needle) {
            return Some(i);
        }
    }
    None
}

/// `needle` is not empty and occurs somewhere in `buffer`.
pub fn contains_sequence(buffer: &[u8], needle: &[u8]) -> (r: bool)
    ensures
        r == (needle@.len() > 0 && exists|j: int| occurs_at(buffer@, needle@, j)),
{
    match find_first(buffer, needle) {
        Some(_) => true,
        None => false,
    }
}

/// Same as [`find_first`].
pub fn find_subsequence(haystack: &[u8], needle: &[u8]) -> (r: Option<usize>)
    ensures
        is_first_occurrence(haystack@, needle@, r),
{
    find_first(haystack, needle)
}

/// Number of non-overlapping occurrences of `needle` in `hay` at or after position `i`,
/// scanning from the left.
pub open spec fn count_scan(hay: Seq<u8>, needle: Seq<u8>, i: int) -> nat
    decreases hay.len() - i,
{
    if needle.len() == 0 || i < 0 || i + needle.len() > hay.len() {
        0
    } else if occurs_at(hay, needle, i) {
        1 + count_scan(hay, needle, i + needle.len())
    } else {
        count_scan(hay, needle, i + 1)
    }
}

proof fn lemma_count_scan_skip(hay: Seq<u8>, needle: Seq<u8>, i: int, k: int)
    requires
        0 <= i <= k,
        needle.len() > 0,
        forall|j: int| i <= j < k ==> !occurs_at(hay, needle, j),
    ensures
        count_scan(hay, needle, i) == count_scan(hay, needle, k) || (k + needle.len() > hay.len()
            && count_scan(hay, needle, i) == 0),
    decreases k - i,
{
    if i < k {
        lemma_count_scan_skip(hay, needle, i + 1, k);
    }
}

/// Number of non-overlapping occurrences of a non-empty `needle`, scanning from the left.
pub fn count_occurrences(buffer: &[u8], needle: &[u8]) -> (r: usize)
    ensures
        r == count_scan(buffer@, needle@, 0),
{
    if needle.len() == 0 || buffer.len() < needle.len() {
        return 0;
    }
    let mut count: usize = 0;
    let mut pos: usize = 0;
    while pos <= buffer.len() - needle.len()
        invariant
            needle@.len() > 0,
            needle@.len() <= buffer@.len(),
            pos <= buffer@.len(),
            count <= pos,
            count + count_scan(buffer@, needle@, pos as int) == count_scan(buffer@, needle@, 0),
        decreases buffer@.len() - pos,
    {
        let ghost sub = buffer@.subrange(pos as int, buffer@.len() as int);
        match find_from(buffer, pos, needle) {
            Some(rel) => {
                proof {
                    assert forall|j: int| pos <= j < pos + rel implies !occurs_at(buffer@, needle@, j) by {
                        assert(!occurs_at(sub, needle@, j - pos));
                        assert(sub.subrange(j - pos, j - pos + needle@.len()) =~= buffer@.subrange(j, j + needle@.len()));
                    }
                    assert(sub.subrange(rel as int, rel + needle@.len()) =~= buffer@.subrange(pos + rel, pos + rel + needle@.len()));
                    lemma_count_scan_skip(buffer@, needle@, pos as int, pos + rel);
                }
                count += 1;
                pos += rel + needle.len();
            },
            None => {
                proof {
                    assert forall|j: int| pos <= j < buffer@.len() implies !occurs_at(buffer@, needle@, j) by {
                        if j + needle@.len() <= buffer@.len() {
                            assert(!occurs_at(sub, needle@, j - pos));
                            assert(sub.subrange(j - pos, j - pos + needle@.len()) =~= buffer@.subrange(j, j + needle@.len()));
                        }
                    }
                    lemma_count_scan_skip(buffer@, needle@, pos as int, buffer@.len() as int);
                }
                return count;
            },
        }
    }
    count
}

} // verus!
