//! Detection of other file formats hidden in a PDF file, and of data after its end.

use crate::byteseq::{count_occurrences, count_scan, find_last, is_last_occurrence, occurs_at};
use vstd::prelude::*;

verus! {

/// A signature of another file format, found at an offset.
#[derive(Debug, Clone, PartialEq, Eq)]
pub struct PolyglotHit {
    pub format: String,
    pub offset: usize,
}

impl PolyglotHit {
    /// The hit as a format name and an offset.
    pub open spec fn view_pair(&self) -> (Seq<char>, int) {
        (self.format@, self.offset as int)
    }
}

/// The view of a list of hits.
pub open spec fn hits_view(v: Seq<PolyglotHit>) -> Seq<(Seq<char>, int)> {
    v.map_values(|h: PolyglotHit| h.view_pair())
}

/// A named magic-byte signature.
pub struct Signature {
    pub name: &'static str,
    pub magic: Vec<u8>,
}

/// The signatures that are searched for, in search order.
pub open spec fn signature_table() -> Seq<(Seq<char>, Seq<u8>)> {
    seq![
        ("ZIP"@, seq![0x50u8, 0x4B, 0x03, 0x04]),
        ("ZIP_EOCD"@, seq![0x50u8, 0x4B, 0x05, 0x06]),
        ("RAR"@, seq![0x52u8, 0x61, 0x72, 0x21, 0x1A, 0x07, 0x00]),
        ("7Z"@, seq![0x37u8, 0x7A, 0xBC, 0xAF, 0x27, 0x1C]),
        ("ELF"@, seq![0x7Fu8, 0x45, 0x4C, 0x46]),
        ("MZ"@, seq![0x4Du8, 0x5A]),
        ("OLE"@, seq![0xD0u8, 0xCF, 0x11, 0xE0, 0xA1, 0xB1, 0x1A, 0xE1]),
        ("PNG"@, seq![0x89u8, 0x50, 0x4E, 0x47, 0x0D, 0x0A, 0x1A, 0x0A]),
        ("JPEG"@, seq![0xFFu8, 0xD8, 0xFF]),
        ("GIF87a"@, seq![0x47u8, 0x49, 0x46, 0x38, 0x37, 0x61]),
        ("GIF89a"@, seq![0x47u8, 0x49, 0x46, 0x38, 0x39, 0x61]),
        ("MP4"@, seq![0x66u8, 0x74, 0x79, 0x70]),
    ]
}

/// The signatures that are searched for, in search order.
pub fn signatures() -> (r: Vec<Signature>)
    ensures
        r@.len() == signature_table().len(),
        forall|i: int| 0 <= i < r@.len() ==> (#[trigger] r@[i]).name@ == signature_table()[i].0
            && r@[i].magic@ == signature_table()[i].1,
{
    let r = vec![
        Signature { name: "ZIP", magic: vec![0x50u8, 0x4B, 0x03, 0x04] },
        Signature { name: "ZIP_EOCD", magic: vec![0x50u8, 0x4B, 0x05, 0x06] },
        Signature { name: "RAR", magic: vec![0x52u8, 0x61, 0x72, 0x21, 0x1A, 0x07, 0x00] },
        Signature { name: "7Z", magic: vec![0x37u8, 0x7A, 0xBC, 0xAF, 0x27, 0x1C] },
        Signature { name: "ELF", magic: vec![0x7Fu8, 0x45, 0x4C, 0x46] },
        Signature { name: "MZ", magic: vec![0x4Du8, 0x5A] },
        Signature { name: "OLE", magic: vec![0xD0u8, 0xCF, 0x11, 0xE0, 0xA1, 0xB1, 0x1A, 0xE1] },
        Signature { name: "PNG", magic: vec![0x89u8, 0x50, 0x4E, 0x47, 0x0D, 0x0A, 0x1A, 0x0A] },
        Signature { name: "JPEG", magic: vec![0xFFu8, 0xD8, 0xFF] },
        Signature { name: "GIF87a", magic: vec![0x47u8, 0x49, 0x46, 0x38, 0x37, 0x61] },
        Signature { name: "GIF89a", magic: vec![0x47u8, 0x49, 0x46, 0x38, 0x39, 0x61] },
        Signature { name: "MP4", magic: vec![0x66u8, 0x74, 0x79, 0x70] },
    ];
    assert(r@[0].magic@ =~= signature_table()[0].1);
    assert(r@[1].magic@ =~= signature_table()[1].1);
    assert(r@[2].magic@ =~= signature_table()[2].1);
    assert(r@[3].magic@ =~= signature_table()[3].1);
    assert(r@[4].magic@ =~= signature_table()[4].1);
    assert(r@[5].magic@ =~= signature_table()[5].1);
    assert(r@[6].magic@ =~= signature_table()[6].1);
    assert(r@[7].magic@ =~= signature_table()[7].1);
    assert(r@[8].magic@ =~= signature_table()[8].1);
    assert(r@[9].magic@ =~= signature_table()[9].1);
    assert(r@[10].magic@ =~= signature_table()[10].1);
    assert(r@[11].magic@ =~= signature_table()[11].1);
    r
}

/// Positions below `i` at which `magic` occurs in `buf`, in increasing order.
pub open spec fn positions_below(buf: Seq<u8>, magic: Seq<u8>, i: int) -> Seq<int>
    decreases i,
{
    if i <= 0 {
        Seq::empty()
    } else {
        positions_below(buf, magic, i - 1) + if occurs_at(buf, magic, i - 1) {
            seq![i - 1]
        } else {
            Seq::empty()
        }
    }
}

/// Hits of one signature in `buf`, whose first byte is at `base`.
pub open spec fn signature_hits(buf: Seq<u8>, base: int, name: Seq<char>, magic: Seq<u8>) -> Seq<(Seq<char>, int)> {
    if magic.len() == 0 {
        Seq::empty()
    } else {
        positions_below(buf, magic, buf.len() as int).map_values(|p: int| (name, base + p))
    }
}

/// Hits of the first `k` signatures, signature by signature.
pub open spec fn scan_upto(buf: Seq<u8>, base: int, k: int) -> Seq<(Seq<char>, int)>
    decreases k,
{
    if k <= 0 {
        Seq::empty()
    } else {
        scan_upto(buf, base, k - 1) + signature_hits(
            buf,
            base,
            signature_table()[k - 1].0,
            signature_table()[k - 1].1,
        )
    }
}

/// All hits in `buf`: signature by signature in table order, each by increasing offset.
pub open spec fn spec_scan(buf: Seq<u8>, base: int) -> Seq<(Seq<char>, int)> {
    scan_upto(buf, base, signature_table().len() as int)
}

/// Every signature found in `buf`, whose first byte lies at `base`, lies at an offset that
/// a `usize` holds.
pub open spec fn hit_offsets_fit(buf: Seq<u8>, base: int) -> bool {
    forall|k: int, p: int|
        0 <= k < signature_table().len() && #[trigger] occurs_at(buf, signature_table()[k].1, p)
            ==> base + p <= usize::MAX
}

/// Finds every occurrence of a known file signature in `buffer`, whose first byte lies at
/// `base_offset` in the file.
pub fn scan_signature_hits(buffer: &[u8], base_offset: u64) -> (r: Vec<PolyglotHit>)
    requires
        hit_offsets_fit(buffer@, base_offset as int),
    ensures
        hits_view(r@) == spec_scan(buffer@, base_offset as int),
{
    let sigs = signatures();
    let mut hits: Vec<PolyglotHit> = Vec::new();
    let base = base_offset as usize;
    let mut k: usize = 0;
    while k < sigs.len()
        invariant
            k <= sigs@.len(),
            sigs@.len() == signature_table().len(),
            forall|i: int| 0 <= i < sigs@.len() ==> (#[trigger] sigs@[i]).name@ == signature_table()[i].0
                && sigs@[i].magic@ == signature_table()[i].1,
            base_offset <= usize::MAX ==> base == base_offset,
            hit_offsets_fit(buffer@, base_offset as int),
            hits_view(hits@) == scan_upto(buffer@, base_offset as int, k as int),
        decreases sigs@.len() - k,
    {
        let sig = &sigs[k];
        let ghost before = hits_view(hits@);
        let m = sig.magic.len();
        if m != 0 && buffer.len() >= m {
            let mut i: usize = 0;
            while i <= buffer.len() - m
                invariant
                    m == sig.magic@.len(),
                    m > 0,
                    m <= buffer@.len(),
                    i <= buffer@.len() - m + 1,
                    k < signature_table().len(),
                    sig.magic@ == signature_table()[k as int].1,
                    base_offset <= usize::MAX ==> base == base_offset,
                    hit_offsets_fit(buffer@, base_offset as int),
                    hits_view(hits@) == before + positions_below(buffer@, sig.magic@, i as int).map_values(
                        |p: int| (sig.name@, base_offset + p),
                    ),
                decreases buffer@.len() - m + 1 - i,
            {
                let ghost h0 = hits@;
                if crate::byteseq::bytes_equal_at(buffer, i, sig.magic.as_slice()) {
                    assert(occurs_at(buffer@, signature_table()[k as int].1, i as int));
                    hits.push(PolyglotHit { format: sig.name.to_string(), offset: base + i });
                }
                proof {
                    let pb = positions_below(buffer@, sig.magic@, i as int);
                    let f = |p: int| (sig.name@, base_offset + p);
                    if occurs_at(buffer@, sig.magic@, i as int) {
                        assert(pb.push(i as int).map_values(f) =~= pb.map_values(f).push(f(i as int)));
                        assert(positions_below(buffer@, sig.magic@, i + 1) =~= pb.push(i as int));
                        assert(hits_view(hits@) =~= hits_view(h0).push((sig.name@, base_offset + i)));
                    } else {
                        assert(positions_below(buffer@, sig.magic@, i + 1) =~= pb);
                    }
                }
                i += 1;
            }
            proof {
                let last = buffer@.len() - m + 1;
                assert forall|j: int| last <= j <= buffer@.len() implies positions_below(buffer@, sig.magic@, j) == positions_below(buffer@, sig.magic@, last) by {
                    lemma_positions_stable(buffer@, sig.magic@, last, j);
                }
            }
        } else {
            proof {
                if m != 0 {
                    lemma_positions_none(buffer@, sig.magic@, buffer@.len() as int);
                    assert(positions_below(buffer@, sig.magic@, buffer@.len() as int).map_values(
                        |p: int| (sig.name@, base_offset + p),
                    ) =~= Seq::<(Seq<char>, int)>::empty());
                }
            }
        }
        proof {
            assert(hits_view(hits@) =~= scan_upto(buffer@, base_offset as int, k + 1));
        }
        k += 1;
    }
    hits
}

proof fn lemma_positions_stable(buf: Seq<u8>, magic: Seq<u8>, last: int, j: int)
    requires
        magic.len() > 0,
        last == buf.len() - magic.len() + 1,
        last <= j,
    ensures
        positions_below(buf, magic, j) == positions_below(buf, magic, last),
    decreases j - last,
{
    if j > last {
        lemma_positions_stable(buf, magic, last, j - 1);
        assert(!occurs_at(buf, magic, j - 1));
        assert(positions_below(buf, magic, j) =~= positions_below(buf, magic, j - 1));
    }
}

proof fn lemma_positions_none(buf: Seq<u8>, magic: Seq<u8>, j: int)
    requires
        magic.len() > buf.len(),
    ensures
        positions_below(buf, magic, j) == Seq::<int>::empty(),
    decreases j,
{
    if j > 0 {
        lemma_positions_none(buf, magic, j - 1);
        assert(!occurs_at(buf, magic, j - 1));
        assert(positions_below(buf, magic, j) =~= Seq::<int>::empty());
    }
}

/// `s` with every element after its first occurrence dropped.
pub open spec fn dedupe<T>(s: Seq<T>) -> Seq<T>
    decreases s.len(),
{
    if s.len() == 0 {
        Seq::empty()
    } else {
        let d = dedupe(s.drop_last());
        if d.contains(s.last()) {
            d
        } else {
            d.push(s.last())
        }
    }
}

/// `dedupe(s)` holds each element of `s` exactly once, and nothing else.
pub proof fn lemma_dedupe<T>(s: Seq<T>)
    ensures
        dedupe(s).no_duplicates(),
        forall|x: T| #[trigger] dedupe(s).contains(x) <==> s.contains(x),
    decreases s.len(),
{
    if s.len() > 0 {
        let t = s.drop_last();
        lemma_dedupe(t);
        let d = dedupe(t);
        let ds = dedupe(s);
        let last = s.last();
        assert(t.len() == s.len() - 1);
        assert forall|x: T| #[trigger] ds.contains(x) <==> s.contains(x) by {
            if s.contains(x) {
                let k = choose|k: int| 0 <= k < s.len() && s[k] == x;
                if k < s.len() - 1 {
                    assert(t[k] == s[k]);
                    assert(t.contains(x));
                    assert(d.contains(x));
                    if !d.contains(last) {
                        let m = choose|m: int| 0 <= m < d.len() && d[m] == x;
                        assert(d.push(last)[m] == x);
                    }
                } else {
                    assert(x == last);
                    if !d.contains(last) {
                        assert(d.push(last)[d.len() as int] == last);
                    }
                }
            }
            if ds.contains(x) {
                if d.contains(x) {
                    let k = choose|k: int| 0 <= k < t.len() && t[k] == x;
                    assert(s[k] == t[k]);
                } else {
                    assert(!d.contains(last));
                    let m = choose|m: int| 0 <= m < ds.len() && ds[m] == x;
                    assert(ds == d.push(last));
                    if m < d.len() {
                        assert(ds[m] == d[m]);
                    }
                    assert(x == last);
                    assert(s[s.len() - 1] == x);
                }
            }
        }
    }
}

/// The hits of head and tail hold no (format, offset) pair twice, and they are exactly the
/// pairs that either scan finds.
pub proof fn lemma_polyglot_hits_unique(head: Seq<u8>, head_offset: int, tail: Seq<u8>, tail_offset: int)
    ensures
        dedupe(spec_scan(head, head_offset) + spec_scan(tail, tail_offset)).no_duplicates(),
        forall|h: (Seq<char>, int)|
            #[trigger] dedupe(spec_scan(head, head_offset) + spec_scan(tail, tail_offset)).contains(h)
                <==> (spec_scan(head, head_offset).contains(h) || spec_scan(tail, tail_offset).contains(h)),
{
    let a = spec_scan(head, head_offset);
    let b = spec_scan(tail, tail_offset);
    lemma_dedupe(a + b);
    assert forall|h: (Seq<char>, int)| (a + b).contains(h) <==> (a.contains(h) || b.contains(h)) by {
        if (a + b).contains(h) {
            let k = choose|k: int| 0 <= k < (a + b).len() && (a + b)[k] == h;
            if k < a.len() {
                assert(a[k] == h);
            } else {
                assert(b[k - a.len()] == h);
            }
        }
        if a.contains(h) {
            let k = choose|k: int| 0 <= k < a.len() && a[k] == h;
            assert((a + b)[k] == h);
        }
        if b.contains(h) {
            let k = choose|k: int| 0 <= k < b.len() && b[k] == h;
            assert((a + b)[k + a.len()] == h);
        }
    }
}

fn same_hit(a: &PolyglotHit, b: &PolyglotHit) -> (r: bool)
    ensures
        r == (a.view_pair() == b.view_pair()),
{
    a.offset == b.offset && a.format == b.format
}

/// Hits of both the head and the tail of a file, each (format, offset) pair once: the
/// head's hits, then the tail's, in scan order, keeping the first of equal pairs.
pub fn detect_polyglot_hits(head: &[u8], head_offset: u64, tail: &[u8], tail_offset: u64) -> (r: Vec<
    PolyglotHit,
>)
    requires
        hit_offsets_fit(head@, head_offset as int),
        hit_offsets_fit(tail@, tail_offset as int),
    ensures
        hits_view(r@) == dedupe(spec_scan(head@, head_offset as int) + spec_scan(tail@, tail_offset as int)),
{
    let mut hits = scan_signature_hits(head, head_offset);
    let mut tail_hits = scan_signature_hits(tail, tail_offset);
    let ghost all = hits_view(hits@) + hits_view(tail_hits@);
    hits.append(&mut tail_hits);
    assert(hits_view(hits@) =~= all);
    let mut unique: Vec<PolyglotHit> = Vec::new();
    let mut i: usize = 0;
    while i < hits.len()
        invariant
            i <= hits@.len(),
            hits_view(hits@) == all,
            hits_view(unique@) == dedupe(all.subrange(0, i as int)),
        decreases hits@.len() - i,
    {
        let hit = &hits[i];
        let mut found = false;
        let mut j: usize = 0;
        while j < unique.len()
            invariant
                i < hits@.len(),
                j <= unique@.len(),
                found == exists|k: int| 0 <= k < j && hits_view(unique@)[k] == hit.view_pair(),
            decreases unique@.len() - j,
        {
            assert(hits_view(unique@)[j as int] == unique@[j as int].view_pair());
            if same_hit(&unique[j], hit) {
                found = true;
            }
            j += 1;
        }
        proof {
            let pre = all.subrange(0, i + 1);
            assert(pre.drop_last() =~= all.subrange(0, i as int));
            assert(pre.last() == hit.view_pair());
            assert(found == hits_view(unique@).contains(hit.view_pair()));
        }
        if !found {
            let h = PolyglotHit { format: hit.format.clone(), offset: hit.offset };
            unique.push(h);
            assert(hits_view(unique@) =~= dedupe(all.subrange(0, i + 1)));
        }
        i += 1;
    }
    assert(all.subrange(0, i as int) =~= all);
    unique
}

/// The bytes that count as white space: space, tab, line feed, form feed, carriage return.
pub open spec fn is_white(b: u8) -> bool {
    b == 0x20 || b == 0x09 || b == 0x0A || b == 0x0C || b == 0x0D
}

fn is_ascii_whitespace(b: u8) -> (r: bool)
    ensures
        r == is_white(b),
{
    b == 0x20 || b == 0x09 || b == 0x0A || b == 0x0C || b == 0x0D
}

/// The end-of-file marker `%%EOF`.
pub open spec fn eof_marker() -> Seq<u8> {
    seq![0x25u8, 0x25, 0x45, 0x4F, 0x46]
}

fn eof_marker_bytes() -> (r: Vec<u8>)
    ensures
        r@ == eof_marker(),
{
    let r = vec![0x25u8, 0x25, 0x45, 0x4F, 0x46];
    assert(r@ =~= eof_marker());
    r
}

/// Last position below `i` at which `m` occurs in `buf`.
pub open spec fn last_below(buf: Seq<u8>, m: Seq<u8>, i: int) -> Option<int>
    decreases i,
{
    if i <= 0 {
        None
    } else if occurs_at(buf, m, i - 1) {
        Some(i - 1)
    } else {
        last_below(buf, m, i - 1)
    }
}

/// First position at or after `i` whose byte is not white space.
pub open spec fn first_non_white(buf: Seq<u8>, i: int) -> Option<int>
    decreases buf.len() - i,
{
    if i < 0 || i >= buf.len() {
        None
    } else if !is_white(buf[i]) {
        Some(i)
    } else {
        first_non_white(buf, i + 1)
    }
}

/// Position of the first non-white byte after the last `%%EOF` marker.
pub open spec fn trailing_data_position(buf: Seq<u8>) -> Option<int> {
    match last_below(buf, eof_marker(), buf.len() as int) {
        None => None,
        Some(e) => first_non_white(buf, e + 5),
    }
}

proof fn lemma_last_below(buf: Seq<u8>, m: Seq<u8>, r: Option<usize>, i: int)
    requires
        is_last_occurrence(buf, m, r),
        m.len() > 0,
        0 <= i <= buf.len(),
        r matches Some(e) ==> e < i,
    ensures
        last_below(buf, m, i) == match r {
            Some(e) => Some(e as int),
            None => None::<int>,
        },
    decreases i,
{
    if i > 0 {
        if r matches Some(e) && e == i - 1 {
        } else {
            lemma_last_below(buf, m, r, i - 1);
        }
    }
}

proof fn lemma_first_non_white(buf: Seq<u8>, i: int, k: int)
    requires
        0 <= i <= k <= buf.len(),
        forall|j: int| i <= j < k ==> is_white(#[trigger] buf[j]),
    ensures
        first_non_white(buf, i) == first_non_white(buf, k),
    decreases k - i,
{
    if i < k {
        lemma_first_non_white(buf, i + 1, k);
    }
}

/// Offset of the first non-white byte after the last `%%EOF` of `buffer`, whose first byte
/// lies at `base_offset`; `None` when there is no marker or only white space follows it.
pub fn detect_trailing_data(buffer: &[u8], base_offset: u64) -> (r: Option<usize>)
    requires
        trailing_data_position(buffer@) matches Some(k) ==> base_offset + k <= usize::MAX,
    ensures
        match trailing_data_position(buffer@) {
            Some(k) => r matches Some(off) && off == base_offset + k,
            None => r is None,
        },
{
    let marker = eof_marker_bytes();
    let found = find_last(buffer, marker.as_slice());
    proof {
        lemma_last_below(buffer@, eof_marker(), found, buffer@.len() as int);
    }
    match found {
        Some(eof_pos) => {
            let base = base_offset as usize;
            let len = buffer.len();
            assert(eof_pos + 5 <= len);
            let start = eof_pos + 5;
            let mut k = start;
            while k < buffer.len()
                invariant
                    base_offset <= usize::MAX ==> base == base_offset,
                    trailing_data_position(buffer@) matches Some(t) ==> base_offset + t <= usize::MAX,
                    start == eof_pos + 5,
                    last_below(buffer@, eof_marker(), buffer@.len() as int) == Some(eof_pos as int),
                    start <= k <= buffer@.len(),
                    forall|j: int| start <= j < k ==> is_white(#[trigger] buffer@[j]),
                decreases buffer@.len() - k,
            {
                if !is_ascii_whitespace(buffer[k]) {
                    proof {
                        lemma_first_non_white(buffer@, start as int, k as int);
                        assert(!is_white(buffer@[k as int]));
                        assert(first_non_white(buffer@, k as int) == Some(k as int));
                        assert(last_below(buffer@, eof_marker(), buffer@.len() as int) == Some(eof_pos as int));
                        assert(trailing_data_position(buffer@) == Some(k as int));
                    }
                    return Some(base + k);
                }
                k += 1;
            }
            proof {
                lemma_first_non_white(buffer@, start as int, k as int);
            }
            None
        },
        None => None,
    }
}

/// Number of `%%EOF` markers in `buffer`, counted without overlap from the left.
pub fn count_eof_markers(buffer: &[u8]) -> (r: usize)
    ensures
        r == count_scan(buffer@, eof_marker(), 0),
{
    let marker = eof_marker_bytes();
    count_occurrences(buffer, marker.as_slice())
}

} // verus!
