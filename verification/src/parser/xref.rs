//! Cross-reference streams (PDF 1.5 and later): fixed-width binary entries described by the
//! stream's `W` and `Index` entries.

use crate::ast::document::XRefEntry;
use crate::filters::be_value;
use crate::text::{concat_str, decimal, decimal_string};
use crate::types::ObjectId;
use vstd::arithmetic::div_mod::{lemma_add_mod_noop, lemma_mul_mod_noop_left};
use vstd::prelude::*;

verus! {

/// An entry with the identifier it describes.
pub type XRefItem = (ObjectId, XRefEntry);

/// The big-endian value of `d`, keeping the low 64 bits.
pub open spec fn int_field(d: Seq<u8>) -> nat {
    be_value(d, 0, d.len()) % 0x1_0000_0000_0000_0000
}

/// Reads a big-endian unsigned field; bits beyond the low 64 are dropped.
fn read_int_field(data: &[u8]) -> (r: u64)
    ensures
        r == int_field(data@),
{
    let mut result: u64 = 0;
    let mut k: usize = 0;
    while k < data.len()
        invariant
            k <= data@.len(),
            result == be_value(data@, 0, k as nat) % 0x1_0000_0000_0000_0000,
        decreases data@.len() - k,
    {
        let byte = data[k];
        let ghost x = be_value(data@, 0, k as nat) as int;
        let ghost m = 0x1_0000_0000_0000_0000int;
        let next = (result << 8u64) | (byte as u64);
        assert(next == (result as int * 256 + byte as int) % 0x1_0000_0000_0000_0000) by (bit_vector)
            requires
                next == (result << 8u64) | (byte as u64),
        ;
        proof {
            lemma_mul_mod_noop_left(x, 256, m);
            lemma_add_mod_noop(x * 256, byte as int, m);
            lemma_add_mod_noop((x % m) * 256, byte as int, m);
            assert((byte as int) % m == byte as int);
            assert(((x % m) * 256) % m == (x * 256) % m);
        }
        result = next;
        k += 1;
    }
    assert(data@.len() == k);
    result
}

/// The fields of an entry: the type (1 when its width is zero), then the two numbers (0
/// when their width is zero).
pub open spec fn entry_fields(d: Seq<u8>, w1: nat, w2: nat, w3: nat) -> (nat, nat, nat) {
    let f1 = if w1 > 0 {
        int_field(d.subrange(0, w1 as int))
    } else {
        1
    };
    let f2 = if w2 > 0 {
        int_field(d.subrange(w1 as int, (w1 + w2) as int))
    } else {
        0
    };
    let f3 = if w3 > 0 {
        int_field(d.subrange((w1 + w2) as int, (w1 + w2 + w3) as int))
    } else {
        0
    };
    (f1, f2, f3)
}

/// The entry that the bytes `d` encode: type 0 is free, 1 in use, 2 compressed.
pub open spec fn stream_entry(d: Seq<u8>, w1: nat, w2: nat, w3: nat) -> Result<XRefEntry, Seq<char>> {
    let (f1, f2, f3) = entry_fields(d, w1, w2, w3);
    if f1 == 0 {
        Ok(XRefEntry::Free { next_free_object: f2 as u32, generation: f3 as u16 })
    } else if f1 == 1 {
        Ok(XRefEntry::InUse { offset: f2 as u64, generation: f3 as u16 })
    } else if f1 == 2 {
        Ok(XRefEntry::Compressed { stream_object: f2 as u32, index: f3 as u32 })
    } else {
        Err("Invalid XRef entry type: "@ + decimal(f1))
    }
}

/// `256` to the power `n`: one more than the largest value of `n` bytes.
pub open spec fn byte_power(n: nat) -> nat
    decreases n,
{
    if n == 0 {
        1
    } else {
        256 * byte_power((n - 1) as nat)
    }
}

/// The first `n` bytes of `d[a..a + m]` have the value of the `n` bytes of `d` at `a`.
proof fn lemma_be_value_subrange(d: Seq<u8>, a: int, m: int, n: nat)
    requires
        0 <= a,
        n <= m,
        a + m <= d.len(),
    ensures
        be_value(d.subrange(a, a + m), 0, n) == be_value(d, a, n),
    decreases n,
{
    if n > 0 {
        lemma_be_value_subrange(d, a, m, (n - 1) as nat);
        assert(d.subrange(a, a + m)[n - 1] == d[a + n - 1]);
    }
}

/// The value of `n` bytes is below `256` to the power `n`.
proof fn lemma_be_value_bound(d: Seq<u8>, p: int, n: nat)
    ensures
        be_value(d, p, n) < byte_power(n),
    decreases n,
{
    if n > 0 {
        lemma_be_value_bound(d, p, (n - 1) as nat);
        let v = be_value(d, p, (n - 1) as nat);
        let b = d[p + n - 1] as nat;
        let q = byte_power((n - 1) as nat);
        assert(v * 256 + b < 256 * q) by (nonlinear_arith)
            requires
                v < q,
                b < 256,
        ;
    }
}

/// `256` to a power grows with the power.
proof fn lemma_byte_power_grows(n: nat, m: nat)
    requires
        n <= m,
    ensures
        byte_power(n) <= byte_power(m),
    decreases m,
{
    if n < m {
        lemma_byte_power_grows(n, (m - 1) as nat);
    }
}

/// A field of at most eight bytes reads as its big-endian value.
proof fn lemma_short_field(d: Seq<u8>, a: int, n: nat)
    requires
        0 <= a,
        a + n <= d.len(),
        n <= 8,
    ensures
        int_field(d.subrange(a, a + n)) == be_value(d, a, n),
        be_value(d, a, n) < byte_power(n),
{
    lemma_be_value_subrange(d, a, n as int, n);
    lemma_be_value_bound(d, a, n);
    lemma_byte_power_grows(n, 8);
    assert(byte_power(8) == 0x1_0000_0000_0000_0000) by {
        reveal_with_fuel(byte_power, 9);
    }
}

/// What an entry means, read off its bytes: with `t` the big-endian value of the type
/// field (1 when that field has no bytes), `b` that of the second field and `c` that of the
/// third, type 1 is an object in use at offset `b` with generation `c`, type 0 a free entry
/// whose next free object is `b` and whose generation is `c`, and type 2 an object stored
/// as number `c` in the object stream `b`.
pub proof fn lemma_stream_entry_fields(d: Seq<u8>, w1: nat, w2: nat, w3: nat)
    requires
        d.len() == w1 + w2 + w3,
        w1 <= 8,
        w2 <= 8,
        w3 <= 8,
    ensures
        ({
            let t = if w1 == 0 {
                1
            } else {
                be_value(d, 0, w1)
            };
            let b = be_value(d, w1 as int, w2);
            let c = be_value(d, (w1 + w2) as int, w3);
            &&& t == 1 && w3 <= 2 ==> (stream_entry(d, w1, w2, w3) matches Ok(
                XRefEntry::InUse { offset, generation },
            ) && offset == b && generation == c)
            &&& t == 0 && w2 <= 4 && w3 <= 2 ==> (stream_entry(d, w1, w2, w3) matches Ok(
                XRefEntry::Free { next_free_object, generation },
            ) && next_free_object == b && generation == c)
            &&& t == 2 && w2 <= 4 && w3 <= 4 ==> (stream_entry(d, w1, w2, w3) matches Ok(
                XRefEntry::Compressed { stream_object, index },
            ) && stream_object == b && index == c)
        }),
{
    lemma_short_field(d, 0, w1);
    lemma_short_field(d, w1 as int, w2);
    lemma_short_field(d, (w1 + w2) as int, w3);
    assert(be_value(d, 0, 0) == 0);
    assert(byte_power(2) == 65536 && byte_power(4) == 0x1_0000_0000) by {
        reveal_with_fuel(byte_power, 5);
    }
    if w2 <= 4 {
        lemma_byte_power_grows(w2, 4);
    }
    if w3 <= 4 {
        lemma_byte_power_grows(w3, 4);
    }
    if w3 <= 2 {
        lemma_byte_power_grows(w3, 2);
    }
}

/// Parses a single entry of `w1 + w2 + w3` bytes.
fn parse_xref_stream_entry(data: &[u8], w1: usize, w2: usize, w3: usize) -> (r: Result<
    XRefEntry,
    String,
>)
    requires
        data@.len() == w1 + w2 + w3,
    ensures
        match r {
            Ok(e) => stream_entry(data@, w1 as nat, w2 as nat, w3 as nat) == Ok::<XRefEntry, Seq<char>>(e),
            Err(m) => stream_entry(data@, w1 as nat, w2 as nat, w3 as nat) == Err::<XRefEntry, Seq<char>>(m@),
        },
{
    assert(data.len() == w1 + w2 + w3);
    let mut offset: usize = 0;
    let type_field = if w1 > 0 {
        read_int_field(slice_range(data, offset, offset + w1))
    } else {
        1
    };
    offset += w1;
    let field2 = if w2 > 0 {
        read_int_field(slice_range(data, offset, offset + w2))
    } else {
        0
    };
    offset += w2;
    let field3 = if w3 > 0 {
        read_int_field(slice_range(data, offset, offset + w3))
    } else {
        0
    };
    if type_field == 0 {
        Ok(XRefEntry::Free { next_free_object: field2 as u32, generation: field3 as u16 })
    } else if type_field == 1 {
        Ok(XRefEntry::InUse { offset: field2, generation: field3 as u16 })
    } else if type_field == 2 {
        Ok(XRefEntry::Compressed { stream_object: field2 as u32, index: field3 as u32 })
    } else {
        Err(concat_str("Invalid XRef entry type: ", decimal_string(type_field).as_str()))
    }
}

/// The sub-slice `data[from..to]`.
fn slice_range(data: &[u8], from: usize, to: usize) -> (r: &[u8])
    requires
        from <= to <= data@.len(),
    ensures
        r@ == data@.subrange(from as int, to as int),
{
    vstd::slice::slice_subrange(data, from, to)
}

/// The integers of the `Index` array, or `[0, Size]` when there is none.
pub open spec fn index_numbers(index: Option<Seq<Option<i64>>>, size: Option<i64>) -> Seq<i64> {
    match index {
        Some(a) => integers_of(a),
        None => seq![0i64, match size {
            Some(s) => s,
            None => 0i64,
        }],
    }
}

/// The values that are integers, in order.
pub open spec fn integers_of(a: Seq<Option<i64>>) -> Seq<i64>
    decreases a.len(),
{
    if a.len() == 0 {
        seq![]
    } else {
        integers_of(a.drop_last()) + match a.last() {
            Some(v) => seq![v],
            None => seq![],
        }
    }
}

/// Puts `acc` in front of the entries of `r`, or passes its error on.
pub open spec fn prepend(acc: Seq<XRefItem>, r: Result<Seq<XRefItem>, Seq<char>>) -> Result<
    Seq<XRefItem>,
    Seq<char>,
> {
    match r {
        Ok(rest) => Ok(acc + rest),
        Err(e) => Err(e),
    }
}

/// The entries read from `data` at `off` on, for the subsection pairs of `ints` from pair
/// `p` and entry `i` of that pair on. A subsection ends early when the data runs out; a
/// trailing unpaired number is ignored.
pub open spec fn stream_entries(
    ints: Seq<i64>,
    data: Seq<u8>,
    w1: nat,
    w2: nat,
    w3: nat,
    p: int,
    i: int,
    off: int,
) -> Result<Seq<XRefItem>, Seq<char>>
    decreases ints.len() - 2 * p, (ints[2 * p + 1] as u32) - i,
    when 0 <= p && 0 <= i && 0 <= off && w1 + w2 + w3 > 0
{
    if 2 * p + 1 >= ints.len() {
        Ok(seq![])
    } else {
        let start = ints[2 * p] as u32;
        let count = ints[2 * p + 1] as u32;
        let size = w1 + w2 + w3;
        if i >= count || off + size > data.len() {
            stream_entries(ints, data, w1, w2, w3, p + 1, 0, off)
        } else {
            match stream_entry(data.subrange(off, off + size), w1, w2, w3) {
                Err(e) => Err(e),
                Ok(entry) => {
                    let id = ObjectId {
                        number: vstd::wrapping::u32_specs::wrapping_add(start, i as u32),
                        generation: match entry {
                            XRefEntry::InUse { generation, .. } => generation,
                            XRefEntry::Free { generation, .. } => generation,
                            XRefEntry::Compressed { .. } => 0,
                        },
                    };
                    prepend(
                        seq![(id, entry)],
                        stream_entries(ints, data, w1, w2, w3, p, i + 1, off + size),
                    )
                },
            }
        }
    }
}

/// Each item read from `off` on carries, as its identifier's generation, the generation of
/// its entry: that of an entry in use or a free one, and 0 for an object in an object stream.
proof fn lemma_entry_generations(
    ints: Seq<i64>,
    data: Seq<u8>,
    w1: nat,
    w2: nat,
    w3: nat,
    p: int,
    i: int,
    off: int,
)
    requires
        0 <= p,
        0 <= i,
        0 <= off,
        w1 + w2 + w3 > 0,
    ensures
        stream_entries(ints, data, w1, w2, w3, p, i, off) matches Ok(items) ==> forall|k: int|
            0 <= k < items.len() ==> (#[trigger] items[k]).0.generation == match items[k].1 {
                XRefEntry::InUse { generation, .. } => generation,
                XRefEntry::Free { generation, .. } => generation,
                XRefEntry::Compressed { .. } => 0u16,
            },
    decreases ints.len() - 2 * p, (ints[2 * p + 1] as u32) - i,
{
    if 2 * p + 1 < ints.len() {
        let count = ints[2 * p + 1] as u32;
        let size = w1 + w2 + w3;
        if i >= count || off + size > data.len() {
            lemma_entry_generations(ints, data, w1, w2, w3, p + 1, 0, off);
        } else if stream_entry(data.subrange(off, off + size), w1, w2, w3) is Ok {
            lemma_entry_generations(ints, data, w1, w2, w3, p, i + 1, off + size);
            let rest = stream_entries(ints, data, w1, w2, w3, p, i + 1, off + size);
            if let Ok(tail) = rest {
                let items = stream_entries(ints, data, w1, w2, w3, p, i, off)->Ok_0;
                assert forall|k: int| 1 <= k < items.len() implies items[k] == tail[k - 1] by {}
            }
        }
    }
}

/// In a parsed cross-reference stream, every object identifier carries the generation
/// that its entry records: the third field of an entry in use or a free one, and 0 for an
/// object stored in an object stream.
pub proof fn lemma_xref_stream_generations(
    w: Option<Seq<Option<i64>>>,
    index: Option<Seq<Option<i64>>>,
    size: Option<i64>,
    data: Seq<u8>,
)
    ensures
        xref_stream_result(w, index, size, data) matches Ok(items) ==> forall|k: int|
            0 <= k < items.len() ==> (#[trigger] items[k]).0.generation == match items[k].1 {
                XRefEntry::InUse { generation, .. } => generation,
                XRefEntry::Free { generation, .. } => generation,
                XRefEntry::Compressed { .. } => 0u16,
            },
{
    if let Some(ws) = w {
        if ws.len() == 3 {
            let w1 = width_of(ws[0]);
            let w2 = width_of(ws[1]);
            let w3 = width_of(ws[2]);
            if w1 + w2 + w3 != 0 {
                lemma_entry_generations(index_numbers(index, size), data, w1, w2, w3, 0, 0, 0);
            }
        }
    }
}

/// The field widths of the `W` array: missing numbers count as 0, and negative ones wrap.
pub open spec fn width_of(v: Option<i64>) -> nat {
    match v {
        Some(x) => (x as usize) as nat,
        None => 0,
    }
}

/// What parsing a cross-reference stream gives, for the `W` array `w`, the `Index` array,
/// the `Size` entry and the decoded stream data.
pub open spec fn xref_stream_result(
    w: Option<Seq<Option<i64>>>,
    index: Option<Seq<Option<i64>>>,
    size: Option<i64>,
    data: Seq<u8>,
) -> Result<Seq<XRefItem>, Seq<char>> {
    match w {
        None => Err("Missing W array in XRef stream"@),
        Some(ws) => if ws.len() != 3 {
            Err("W array must have exactly 3 elements"@)
        } else {
            let w1 = width_of(ws[0]);
            let w2 = width_of(ws[1]);
            let w3 = width_of(ws[2]);
            if w1 + w2 + w3 == 0 {
                Err("Invalid W array - all widths are zero"@)
            } else {
                stream_entries(index_numbers(index, size), data, w1, w2, w3, 0, 0, 0)
            }
        },
    }
}

/// The sum of the widths in `W` fits in a `usize` (when `W` has three entries).
pub open spec fn widths_fit(w: Option<Seq<Option<i64>>>) -> bool {
    match w {
        Some(ws) => ws.len() == 3 ==> width_of(ws[0]) + width_of(ws[1]) + width_of(ws[2])
            <= usize::MAX,
        None => true,
    }
}

/// The contents of an optional array.
pub open spec fn opt_view(o: Option<&[Option<i64>]>) -> Option<Seq<Option<i64>>> {
    match o {
        Some(a) => Some(a@),
        None => None,
    }
}

/// Collects the integers of `a`.
fn collect_integers(a: &[Option<i64>]) -> (r: Vec<i64>)
    ensures
        r@ == integers_of(a@),
{
    let mut out: Vec<i64> = Vec::new();
    let mut k: usize = 0;
    while k < a.len()
        invariant
            k <= a@.len(),
            out@ == integers_of(a@.subrange(0, k as int)),
        decreases a@.len() - k,
    {
        assert(a@.subrange(0, k + 1).drop_last() =~= a@.subrange(0, k as int));
        if let Some(v) = a[k] {
            out.push(v);
        }
        assert(out@ =~= integers_of(a@.subrange(0, k + 1)));
        k += 1;
    }
    assert(a@.subrange(0, a@.len() as int) =~= a@);
    out
}

/// Parses the entries of a cross-reference stream from its `W` array, its `Index` array,
/// its `Size` entry and its decoded data. Non-integer members of `W` count as 0 and those
/// of `Index` are skipped; without `Index` the subsection is `[0, Size]`.
pub fn parse_xref_stream(
    w: Option<&[Option<i64>]>,
    index: Option<&[Option<i64>]>,
    size: Option<i64>,
    decoded_data: &[u8],
) -> (r: Result<Vec<XRefItem>, String>)
    requires
        widths_fit(opt_view(w)),
    ensures
        match r {
            Ok(v) => xref_stream_result(
                opt_view(w),
                opt_view(index),
                size,
                decoded_data@,
            ) == Ok::<Seq<XRefItem>, Seq<char>>(v@),
            Err(m) => xref_stream_result(
                opt_view(w),
                opt_view(index),
                size,
                decoded_data@,
            ) == Err::<Seq<XRefItem>, Seq<char>>(m@),
        },
{
    let w_array = match w {
        Some(a) => a,
        None => {
            return Err("Missing W array in XRef stream".to_string());
        },
    };
    if w_array.len() != 3 {
        return Err("W array must have exactly 3 elements".to_string());
    }
    let w1 = match w_array[0] {
        Some(x) => x as usize,
        None => 0,
    };
    let w2 = match w_array[1] {
        Some(x) => x as usize,
        None => 0,
    };
    let w3 = match w_array[2] {
        Some(x) => x as usize,
        None => 0,
    };
    if w1 + w2 + w3 == 0 {
        return Err("Invalid W array - all widths are zero".to_string());
    }
    let index_array: Vec<i64> = match index {
        Some(a) => collect_integers(a),
        None => {
            let s = match size {
                Some(x) => x,
                None => 0,
            };
            let mut v: Vec<i64> = Vec::new();
            v.push(0);
            v.push(s);
            v
        },
    };
    let ghost ints = index_array@;
    assert(ints == index_numbers(opt_view(index), size)) by {
        if index is None {
            assert(index_array@ =~= index_numbers(opt_view(index), size));
        }
    }
    let ghost total = xref_stream_result(
        opt_view(w),
        opt_view(index),
        size,
        decoded_data@,
    );
    let entry_size = w1 + w2 + w3;
    let n = decoded_data.len();
    let mut entries: Vec<XRefItem> = Vec::new();
    let mut data_offset: usize = 0;
    let mut p: usize = 0;
    while p + 1 < index_array.len()
        invariant
            ints == index_array@,
            entry_size == w1 + w2 + w3,
            entry_size > 0,
            n == decoded_data@.len(),
            data_offset <= n,
            total == stream_entries(ints, decoded_data@, w1 as nat, w2 as nat, w3 as nat, 0, 0, 0),
            total == xref_stream_result(opt_view(w), opt_view(index), size, decoded_data@),
            total == prepend(
                entries@,
                stream_entries(
                    ints,
                    decoded_data@,
                    w1 as nat,
                    w2 as nat,
                    w3 as nat,
                    p as int / 2,
                    0,
                    data_offset as int,
                ),
            ),
            p % 2 == 0,
        decreases index_array@.len() - p,
    {
        let start = index_array[p] as u32;
        let count = index_array[p + 1] as u32;
        let ghost pair = p as int / 2;
        assert(2 * pair == p);
        let mut i: u32 = 0;
        while i < count && entry_size <= n - data_offset
            invariant
                ints == index_array@,
                entry_size == w1 + w2 + w3,
                entry_size > 0,
                n == decoded_data@.len(),
                data_offset <= n,
                p + 1 < ints.len(),
                2 * pair == p,
                start == ints[2 * pair] as u32,
                count == ints[2 * pair + 1] as u32,
                i <= count,
                total == xref_stream_result(opt_view(w), opt_view(index), size, decoded_data@),
                total == prepend(
                    entries@,
                    stream_entries(
                        ints,
                        decoded_data@,
                        w1 as nat,
                        w2 as nat,
                        w3 as nat,
                        pair,
                        i as int,
                        data_offset as int,
                    ),
                ),
            decreases count - i,
        {
            let entry_data = slice_range(decoded_data, data_offset, data_offset + entry_size);
            let entry = match parse_xref_stream_entry(entry_data, w1, w2, w3) {
                Ok(e) => e,
                Err(m) => {
                    assert(stream_entries(
                        ints,
                        decoded_data@,
                        w1 as nat,
                        w2 as nat,
                        w3 as nat,
                        pair,
                        i as int,
                        data_offset as int,
                    ) == Err::<Seq<XRefItem>, Seq<char>>(m@));
                    return Err(m);
                },
            };
            let obj_id = ObjectId::new(start.wrapping_add(i), entry.generation());
            let ghost before = entries@;
            entries.push((obj_id, entry));
            assert(before + seq![(obj_id, entry)] =~= entries@);
            assert(forall|a: Seq<XRefItem>, b: Seq<XRefItem>, c: Seq<XRefItem>|
                #![trigger a + b + c]
                (a + b) + c =~= a + (b + c));
            data_offset += entry_size;
            i += 1;
        }
        p += 2;
    }
    Ok(entries)
}


/// The integer entries of a linearization dictionary (everything but its version).
#[derive(Debug, Clone, Copy, PartialEq, Eq, Structural)]
pub struct LinearizationEntries {
    pub file_length: u64,
    pub hint_stream_offset: u64,
    pub hint_stream_length: Option<u64>,
    pub object_count: u32,
    pub first_page_object_number: u32,
    pub first_page_end_offset: u64,
    pub main_xref_table_entries: u32,
}

/// The integer at position `i` of the `/H` array, when the array has one there.
pub open spec fn hint_item(h: Option<Seq<Option<i64>>>, i: int) -> Option<i64> {
    match h {
        Some(a) => if 0 <= i < a.len() {
            a[i]
        } else {
            None
        },
        None => None,
    }
}

/// What reading a linearization dictionary gives, from whether it has `/Linearized` and the
/// integers found under `/L`, `/H`, `/N`, `/O`, `/E` and `/T` (`None` where the entry is
/// missing or not an integer; for `/H`, where it is not an array). The first missing entry,
/// in that order, is the error; otherwise the values, converted to their widths.
pub open spec fn linearization_entries_result(
    has_linearized: bool,
    l: Option<i64>,
    h: Option<Seq<Option<i64>>>,
    n: Option<i64>,
    o: Option<i64>,
    e: Option<i64>,
    t: Option<i64>,
) -> Result<LinearizationEntries, Seq<char>> {
    if !has_linearized {
        Err("Not a linearized PDF - missing /Linearized entry"@)
    } else if l is None {
        Err("Missing /L (file length) in linearization dict"@)
    } else if hint_item(h, 0) is None {
        Err("Missing /H (hint stream offset) in linearization dict"@)
    } else if n is None {
        Err("Missing /N (object count) in linearization dict"@)
    } else if o is None {
        Err("Missing /O (first page offset) in linearization dict"@)
    } else if e is None {
        Err("Missing /E (first page end) in linearization dict"@)
    } else if t is None {
        Err("Missing /T (main xref table entries) in linearization dict"@)
    } else {
        Ok(
            LinearizationEntries {
                file_length: l.unwrap() as u64,
                hint_stream_offset: hint_item(h, 0).unwrap() as u64,
                hint_stream_length: match hint_item(h, 1) {
                    Some(x) => Some(x as u64),
                    None => None,
                },
                object_count: n.unwrap() as u32,
                first_page_object_number: o.unwrap() as u32,
                first_page_end_offset: e.unwrap() as u64,
                main_xref_table_entries: t.unwrap() as u32,
            },
        )
    }
}

/// The integer at position `i` of the `/H` array.
fn hint_at(h: Option<&[Option<i64>]>, i: usize) -> (r: Option<i64>)
    ensures
        r == hint_item(
            match h {
                Some(a) => Some(a@),
                None => None,
            },
            i as int,
        ),
{
    match h {
        Some(a) => if i < a.len() {
            a[i]
        } else {
            None
        },
        None => None,
    }
}

/// Reads the integer entries of a linearization dictionary, as
/// [`linearization_entries_result`] says.
pub fn parse_linearization_entries(
    has_linearized: bool,
    l: Option<i64>,
    h: Option<&[Option<i64>]>,
    n: Option<i64>,
    o: Option<i64>,
    e: Option<i64>,
    t: Option<i64>,
) -> (r: Result<LinearizationEntries, String>)
    ensures
        match linearization_entries_result(
            has_linearized,
            l,
            match h {
                Some(a) => Some(a@),
                None => None,
            },
            n,
            o,
            e,
            t,
        ) {
            Ok(v) => r == Ok::<LinearizationEntries, String>(v),
            Err(m) => r matches Err(s) && s@ == m,
        },
{
    if !has_linearized {
        return Err("Not a linearized PDF - missing /Linearized entry".to_string());
    }
    let length = match l {
        Some(v) => v,
        None => {
            return Err("Missing /L (file length) in linearization dict".to_string());
        },
    };
    let hint_offset = match hint_at(h, 0) {
        Some(v) => v,
        None => {
            return Err("Missing /H (hint stream offset) in linearization dict".to_string());
        },
    };
    let hint_length = hint_at(h, 1);
    let object_count = match n {
        Some(v) => v,
        None => {
            return Err("Missing /N (object count) in linearization dict".to_string());
        },
    };
    let first_page = match o {
        Some(v) => v,
        None => {
            return Err("Missing /O (first page offset) in linearization dict".to_string());
        },
    };
    let first_page_end = match e {
        Some(v) => v,
        None => {
            return Err("Missing /E (first page end) in linearization dict".to_string());
        },
    };
    let main_xref_entries = match t {
        Some(v) => v,
        None => {
            return Err("Missing /T (main xref table entries) in linearization dict".to_string());
        },
    };
    Ok(
        LinearizationEntries {
            file_length: length as u64,
            hint_stream_offset: hint_offset as u64,
            hint_stream_length: match hint_length {
                Some(x) => Some(x as u64),
                None => None,
            },
            object_count: object_count as u32,
            first_page_object_number: first_page as u32,
            first_page_end_offset: first_page_end as u64,
            main_xref_table_entries: main_xref_entries as u32,
        },
    )
}

/// The checks on linearization entries, in order: a file length, a hint stream inside the
/// file, some objects, a first page ending inside the file; the first that fails is the
/// error.
pub open spec fn linearization_check(info: LinearizationEntries) -> Result<(), Seq<char>> {
    if info.file_length == 0 {
        Err("Invalid file length in linearization dict"@)
    } else if info.hint_stream_offset >= info.file_length {
        Err("Hint stream offset beyond file length"@)
    } else if info.object_count == 0 {
        Err("Invalid object count in linearization dict"@)
    } else if info.first_page_end_offset >= info.file_length {
        Err("First page end offset beyond file length"@)
    } else {
        Ok(())
    }
}

/// Checks linearization entries, as [`linearization_check`] says; the version, a real
/// number, is checked before this by whoever holds it.
pub fn validate_linearization(info: &LinearizationEntries) -> (r: Result<(), String>)
    ensures
        r is Ok <==> linearization_check(*info) is Ok,
        match linearization_check(*info) {
            Ok(_) => true,
            Err(m) => r matches Err(s) && s@ == m,
        },
{
    if info.file_length == 0 {
        return Err("Invalid file length in linearization dict".to_string());
    }
    if info.hint_stream_offset >= info.file_length {
        return Err("Hint stream offset beyond file length".to_string());
    }
    if info.object_count == 0 {
        return Err("Invalid object count in linearization dict".to_string());
    }
    if info.first_page_end_offset >= info.file_length {
        return Err("First page end offset beyond file length".to_string());
    }
    Ok(())
}
} // verus!
