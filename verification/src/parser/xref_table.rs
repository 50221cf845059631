//! Classic cross-reference tables: `xref`, then subsections of a header `start count` and
//! fixed-form entries `offset generation n|f`.

use crate::ast::document::XRefEntry;
use crate::types::ObjectId;
use vstd::prelude::*;

verus! {

/// An entry with the identifier it describes.
pub type XRefItem = (ObjectId, XRefEntry);

/// `b` is an ASCII decimal digit.
pub open spec fn is_digit_byte(b: u8) -> bool {
    0x30 <= b <= 0x39
}

/// `b` is a space or a tab.
pub open spec fn is_space_byte(b: u8) -> bool {
    b == 0x20 || b == 0x09
}

/// `b` is a space, a tab, a carriage return or a line feed.
pub open spec fn is_multispace_byte(b: u8) -> bool {
    b == 0x20 || b == 0x09 || b == 0x0D || b == 0x0A
}

/// The end of the run of digits that starts at `p`.
pub open spec fn digits_end(s: Seq<u8>, p: int) -> int
    decreases s.len() - p,
{
    if 0 <= p < s.len() && is_digit_byte(s[p]) {
        digits_end(s, p + 1)
    } else {
        p
    }
}

/// The end of the run of spaces and tabs that starts at `p`.
pub open spec fn spaces_end(s: Seq<u8>, p: int) -> int
    decreases s.len() - p,
{
    if 0 <= p < s.len() && is_space_byte(s[p]) {
        spaces_end(s, p + 1)
    } else {
        p
    }
}

/// The end of the run of white space (spaces, tabs, line ends) that starts at `p`.
pub open spec fn multispace_end(s: Seq<u8>, p: int) -> int
    decreases s.len() - p,
{
    if 0 <= p < s.len() && is_multispace_byte(s[p]) {
        multispace_end(s, p + 1)
    } else {
        p
    }
}

/// The number written by the digits `s[a..b]`.
pub open spec fn decimal_value(s: Seq<u8>, a: int, b: int) -> nat
    decreases b - a,
{
    if b <= a {
        0
    } else {
        decimal_value(s, a, b - 1) * 10 + (s[b - 1] - 0x30) as nat
    }
}

/// A non-empty run of digits at `p` whose value is at most `max`: the value and where the
/// run ends.
pub open spec fn number_at(s: Seq<u8>, p: int, max: nat) -> Option<(nat, int)> {
    let e = digits_end(s, p);
    if e > p && decimal_value(s, p, e) <= max {
        Some((decimal_value(s, p, e), e))
    } else {
        None
    }
}

/// A non-empty run of spaces and tabs at `p`: where it ends.
pub open spec fn spaces_at(s: Seq<u8>, p: int) -> Option<int> {
    let e = spaces_end(s, p);
    if e > p {
        Some(e)
    } else {
        None
    }
}

/// The entry `offset generation n|f` at `p`, followed by optional white space.
pub open spec fn entry_at(s: Seq<u8>, p: int) -> Option<(XRefEntry, int)> {
    match number_at(s, p, u64::MAX as nat) {
        None => None,
        Some((offset, p1)) => match spaces_at(s, p1) {
            None => None,
            Some(p2) => match number_at(s, p2, u16::MAX as nat) {
                None => None,
                Some((generation, p3)) => match spaces_at(s, p3) {
                    None => None,
                    Some(p4) => if p4 < s.len() && s[p4] == 0x6E {
                        Some(
                            (
                                XRefEntry::InUse { offset: offset as u64, generation: generation as u16 },
                                multispace_end(s, p4 + 1),
                            ),
                        )
                    } else if p4 < s.len() && s[p4] == 0x66 {
                        Some(
                            (
                                XRefEntry::Free {
                                    next_free_object: offset as u64 as u32,
                                    generation: generation as u16,
                                },
                                multispace_end(s, p4 + 1),
                            ),
                        )
                    } else {
                        None
                    },
                },
            },
        },
    }
}

/// As many entries as follow `p` one after the other, and where they end.
pub open spec fn entries_from(s: Seq<u8>, p: int) -> (Seq<XRefEntry>, int)
    decreases s.len() - p,
{
    match entry_at(s, p) {
        Some((e, q)) => if p < q <= s.len() {
            let (rest, end) = entries_from(s, q);
            (seq![e] + rest, end)
        } else {
            (seq![], p)
        },
        None => (seq![], p),
    }
}

/// The header `start count` at `p`, followed by optional white space.
pub open spec fn header_at(s: Seq<u8>, p: int) -> Option<(nat, nat, int)> {
    match number_at(s, p, u32::MAX as nat) {
        None => None,
        Some((start, p1)) => match spaces_at(s, p1) {
            None => None,
            Some(p2) => match number_at(s, p2, u32::MAX as nat) {
                None => None,
                Some((count, p3)) => Some((start, count, multispace_end(s, p3))),
            },
        },
    }
}

/// The generation of an entry, 0 for a compressed one.
pub open spec fn entry_generation(e: XRefEntry) -> u16 {
    match e {
        XRefEntry::InUse { generation, .. } => generation,
        XRefEntry::Free { generation, .. } => generation,
        XRefEntry::Compressed { .. } => 0,
    }
}

/// The first `count` entries numbered from `start` (wrapping at 2^32).
pub open spec fn number_entries(entries: Seq<XRefEntry>, start: u32, count: nat) -> Seq<XRefItem> {
    let n = if entries.len() < count {
        entries.len()
    } else {
        count
    };
    Seq::new(
        n,
        |i: int|
            (
                ObjectId {
                    number: vstd::wrapping::u32_specs::wrapping_add(start, i as u32),
                    generation: entry_generation(entries[i]),
                },
                entries[i],
            ),
    )
}

/// A subsection at `p`: a header and at least one entry.
pub open spec fn section_at(s: Seq<u8>, p: int) -> Option<(Seq<XRefItem>, int)> {
    match header_at(s, p) {
        None => None,
        Some((start, count, p1)) => {
            let (entries, p2) = entries_from(s, p1);
            if entries.len() == 0 {
                None
            } else {
                Some((number_entries(entries, start as u32, count), p2))
            }
        },
    }
}

/// As many subsections as follow `p` one after the other, and where they end.
pub open spec fn sections_from(s: Seq<u8>, p: int) -> (Seq<XRefItem>, int)
    decreases s.len() - p,
{
    match section_at(s, p) {
        Some((items, q)) => if p < q <= s.len() {
            let (rest, end) = sections_from(s, q);
            (items + rest, end)
        } else {
            (seq![], p)
        },
        None => (seq![], p),
    }
}

/// The table at the start of `s`: `xref`, optional white space and at least one subsection;
/// its entries and the number of bytes it takes.
pub open spec fn xref_table(s: Seq<u8>) -> Option<(Seq<XRefItem>, int)> {
    if s.len() >= 4 && s[0] == 0x78 && s[1] == 0x72 && s[2] == 0x65 && s[3] == 0x66 {
        let p = multispace_end(s, 4);
        match section_at(s, p) {
            None => None,
            Some(_) => Some(sections_from(s, p)),
        }
    } else {
        None
    }
}

/// Where the run of digits at `p` ends.
fn scan_digits(s: &[u8], p: usize) -> (e: usize)
    requires
        p <= s@.len(),
    ensures
        e == digits_end(s@, p as int),
        p <= e <= s@.len(),
{
    let mut e = p;
    while e < s.len() && 0x30 <= s[e] && s[e] <= 0x39
        invariant
            p <= e <= s@.len(),
            digits_end(s@, p as int) == digits_end(s@, e as int),
        decreases s@.len() - e,
    {
        e += 1;
    }
    e
}

/// Where the run of spaces and tabs at `p` ends.
fn scan_spaces(s: &[u8], p: usize) -> (e: usize)
    requires
        p <= s@.len(),
    ensures
        e == spaces_end(s@, p as int),
        p <= e <= s@.len(),
{
    let mut e = p;
    while e < s.len() && (s[e] == 0x20 || s[e] == 0x09)
        invariant
            p <= e <= s@.len(),
            spaces_end(s@, p as int) == spaces_end(s@, e as int),
        decreases s@.len() - e,
    {
        e += 1;
    }
    e
}

/// Where the run of white space at `p` ends.
fn scan_multispace(s: &[u8], p: usize) -> (e: usize)
    requires
        p <= s@.len(),
    ensures
        e == multispace_end(s@, p as int),
        p <= e <= s@.len(),
{
    let mut e = p;
    while e < s.len() && (s[e] == 0x20 || s[e] == 0x09 || s[e] == 0x0D || s[e] == 0x0A)
        invariant
            p <= e <= s@.len(),
            multispace_end(s@, p as int) == multispace_end(s@, e as int),
        decreases s@.len() - e,
    {
        e += 1;
    }
    e
}

/// The value of a digit run grows with each digit added.
proof fn lemma_decimal_value_prefix(s: Seq<u8>, a: int, m: int, b: int)
    requires
        a <= m <= b,
    ensures
        decimal_value(s, a, m) <= decimal_value(s, a, b),
    decreases b - m,
{
    if m < b {
        lemma_decimal_value_prefix(s, a, m, b - 1);
    }
}

/// The number at `p` if it is at most `max`, and where its digits end.
fn read_number(s: &[u8], p: usize, max: u64) -> (r: Option<(u64, usize)>)
    requires
        p <= s@.len(),
    ensures
        match r {
            Some((v, e)) => number_at(s@, p as int, max as nat) == Some((v as nat, e as int)) && e
                <= s@.len(),
            None => number_at(s@, p as int, max as nat) is None,
        },
{
    let e = scan_digits(s, p);
    if e == p {
        return None;
    }
    proof {
        lemma_digits_run(s@, p as int);
    }
    let mut acc: u64 = 0;
    let mut k = p;
    while k < e
        invariant
            p <= k <= e,
            e == digits_end(s@, p as int),
            e <= s@.len(),
            forall|j: int| p <= j < e ==> is_digit_byte(s@[j]),
            acc == decimal_value(s@, p as int, k as int),
            acc <= max,
        decreases e - k,
    {
        let d = (s[k] - 0x30) as u64;
        let next: u128 = acc as u128 * 10 + d as u128;
        if next > max as u128 {
            proof {
                lemma_decimal_value_prefix(s@, p as int, k + 1, e as int);
            }
            return None;
        }
        acc = next as u64;
        k += 1;
    }
    Some((acc, e))
}

/// The bytes of a digit run are digits.
proof fn lemma_digits_run(s: Seq<u8>, p: int)
    requires
        0 <= p,
    ensures
        forall|j: int| p <= j < digits_end(s, p) ==> is_digit_byte(s[j]),
        p <= digits_end(s, p),
        digits_end(s, p) <= s.len() || digits_end(s, p) == p,
    decreases s.len() - p,
{
    if 0 <= p < s.len() && is_digit_byte(s[p]) {
        lemma_digits_run(s, p + 1);
    }
}

/// The entry at `p` and where it ends.
fn read_entry(s: &[u8], p: usize) -> (r: Option<(XRefEntry, usize)>)
    requires
        p <= s@.len(),
    ensures
        match r {
            Some((e, q)) => entry_at(s@, p as int) == Some((e, q as int)) && q <= s@.len(),
            None => entry_at(s@, p as int) is None,
        },
{
    let (offset, p1) = match read_number(s, p, u64::MAX) {
        Some(x) => x,
        None => {
            return None;
        },
    };
    let p2 = scan_spaces(s, p1);
    if p2 == p1 {
        return None;
    }
    let (generation, p3) = match read_number(s, p2, 0xFFFF) {
        Some(x) => x,
        None => {
            return None;
        },
    };
    let p4 = scan_spaces(s, p3);
    if p4 == p3 {
        return None;
    }
    if p4 < s.len() && s[p4] == 0x6E {
        let q = scan_multispace(s, p4 + 1);
        Some((XRefEntry::InUse { offset, generation: generation as u16 }, q))
    } else if p4 < s.len() && s[p4] == 0x66 {
        let q = scan_multispace(s, p4 + 1);
        Some((XRefEntry::Free { next_free_object: offset as u32, generation: generation as u16 }, q))
    } else {
        None
    }
}

/// The header at `p` and where it ends.
fn read_header(s: &[u8], p: usize) -> (r: Option<(u32, u32, usize)>)
    requires
        p <= s@.len(),
    ensures
        match r {
            Some((a, b, q)) => header_at(s@, p as int) == Some((a as nat, b as nat, q as int)) && q
                <= s@.len(),
            None => header_at(s@, p as int) is None,
        },
{
    let (start, p1) = match read_number(s, p, 0xFFFF_FFFF) {
        Some(x) => x,
        None => {
            return None;
        },
    };
    let p2 = scan_spaces(s, p1);
    if p2 == p1 {
        return None;
    }
    let (count, p3) = match read_number(s, p2, 0xFFFF_FFFF) {
        Some(x) => x,
        None => {
            return None;
        },
    };
    let q = scan_multispace(s, p3);
    Some((start as u32, count as u32, q))
}

/// The entries from `p` on, and where they end.
fn read_entries(s: &[u8], p: usize) -> (r: (Vec<XRefEntry>, usize))
    requires
        p <= s@.len(),
    ensures
        (r.0@, r.1 as int) == entries_from(s@, p as int),
{
    let mut out: Vec<XRefEntry> = Vec::new();
    let mut pos = p;
    loop
        invariant
            p <= pos <= s@.len(),
            entries_from(s@, p as int) == ({
                let (rest, end) = entries_from(s@, pos as int);
                (out@ + rest, end)
            }),
        ensures
            entries_from(s@, pos as int) == (Seq::<XRefEntry>::empty(), pos as int),
        decreases s@.len() - pos,
    {
        match read_entry(s, pos) {
            Some((e, q)) => {
                if q <= pos {
                    break;
                }
                let ghost before = out@;
                out.push(e);
                assert(before + (seq![e] + entries_from(s@, q as int).0) =~= out@ + entries_from(
                    s@,
                    q as int,
                ).0);
                pos = q;
            },
            None => {
                break;
            },
        }
    }
    assert(out@ + Seq::<XRefEntry>::empty() =~= out@);
    (out, pos)
}

/// The subsection at `p` and where it ends.
fn read_section(s: &[u8], p: usize) -> (r: Option<(Vec<XRefItem>, usize)>)
    requires
        p <= s@.len(),
    ensures
        match r {
            Some((items, q)) => section_at(s@, p as int) == Some((items@, q as int)) && q
                <= s@.len(),
            None => section_at(s@, p as int) is None,
        },
{
    let (start, count, p1) = match read_header(s, p) {
        Some(h) => h,
        None => {
            return None;
        },
    };
    let (entries, p2) = read_entries(s, p1);
    if entries.len() == 0 {
        return None;
    }
    proof {
        lemma_entries_end(s@, p1 as int);
    }
    let n: usize = if (entries.len() as u64) < (count as u64) {
        entries.len()
    } else {
        count as usize
    };
    let mut items: Vec<XRefItem> = Vec::new();
    let mut i: usize = 0;
    while i < n
        invariant
            n <= entries@.len(),
            n == (if entries@.len() < count as nat {
                entries@.len()
            } else {
                count as nat
            }),
            i <= n,
            items@ == number_entries(entries@, start, count as nat).subrange(0, i as int),
        decreases n - i,
    {
        let e = entries[i];
        items.push((ObjectId::new(start.wrapping_add(i as u32), e.generation()), e));
        assert(items@ =~= number_entries(entries@, start, count as nat).subrange(0, i + 1));
        i += 1;
    }
    assert(items@ =~= number_entries(entries@, start, count as nat));
    Some((items, p2))
}

/// Where the entries from `p` end lies between `p` and the end of the data.
proof fn lemma_entries_end(s: Seq<u8>, p: int)
    requires
        0 <= p <= s.len(),
    ensures
        p <= entries_from(s, p).1 <= s.len(),
    decreases s.len() - p,
{
    match entry_at(s, p) {
        Some((e, q)) => if p < q <= s.len() {
            lemma_entries_end(s, q);
        },
        None => {},
    }
}

/// Parses a classic cross-reference table at the start of `input`: the entries of all its
/// subsections, in order, and the number of bytes the table takes. `None` when the input
/// does not start with `xref` and a subsection.
pub fn parse_xref_table(input: &[u8]) -> (r: Option<(Vec<XRefItem>, usize)>)
    ensures
        match r {
            Some((items, q)) => xref_table(input@) == Some((items@, q as int)),
            None => xref_table(input@) is None,
        },
{
    if !(input.len() >= 4 && input[0] == 0x78 && input[1] == 0x72 && input[2] == 0x65 && input[3]
        == 0x66) {
        return None;
    }
    let p = scan_multispace(input, 4);
    let (first, p1) = match read_section(input, p) {
        Some(x) => x,
        None => {
            return None;
        },
    };
    let mut all: Vec<XRefItem> = first;
    let mut pos = p1;
    assert(sections_from(input@, p as int) == ({
        let (rest, end) = sections_from(input@, pos as int);
        (all@ + rest, end)
    })) by {
        if !(p < p1) {
            assert(false) by {
                lemma_section_progress(input@, p as int);
            }
        }
    }
    loop
        invariant
            pos <= input@.len(),
            sections_from(input@, p as int) == ({
                let (rest, end) = sections_from(input@, pos as int);
                (all@ + rest, end)
            }),
        ensures
            sections_from(input@, pos as int) == (Seq::<XRefItem>::empty(), pos as int),
        decreases input@.len() - pos,
    {
        match read_section(input, pos) {
            Some((items, q)) => {
                if q <= pos {
                    break;
                }
                let ghost before = all@;
                let mut more = items;
                all.append(&mut more);
                assert(before + (items@ + sections_from(input@, q as int).0) =~= all@
                    + sections_from(input@, q as int).0);
                pos = q;
            },
            None => {
                break;
            },
        }
    }
    assert(all@ + Seq::<XRefItem>::empty() =~= all@);
    Some((all, pos))
}

/// Where the subsection at `p` ends (`p` when there is none).
pub open spec fn section_end(s: Seq<u8>, p: int) -> int {
    match section_at(s, p) {
        Some((_, q)) => q,
        None => p,
    }
}

/// A subsection takes at least one byte.
proof fn lemma_section_progress(s: Seq<u8>, p: int)
    requires
        0 <= p <= s.len(),
        section_at(s, p) is Some,
    ensures
        p < section_end(s, p),
{
    let (start, count, p1) = header_at(s, p)->0;
    assert(digits_end(s, p) > p);
    lemma_digits_run(s, p);
    lemma_spaces_monotone(s, digits_end(s, p));
    let p2 = spaces_end(s, digits_end(s, p));
    lemma_digits_run(s, p2);
    lemma_multispace_monotone(s, digits_end(s, p2));
    lemma_entries_end(s, p1);
}

proof fn lemma_spaces_monotone(s: Seq<u8>, p: int)
    ensures
        p <= spaces_end(s, p),
    decreases s.len() - p,
{
    if 0 <= p < s.len() && is_space_byte(s[p]) {
        lemma_spaces_monotone(s, p + 1);
    }
}

proof fn lemma_multispace_monotone(s: Seq<u8>, p: int)
    ensures
        p <= multispace_end(s, p),
    decreases s.len() - p,
{
    if 0 <= p < s.len() && is_multispace_byte(s[p]) {
        lemma_multispace_monotone(s, p + 1);
    }
}

} // verus!
