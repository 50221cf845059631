//! LZW compression in the form of the PDF `LZWDecode` filter: 9- to 12-bit codes written
//! most significant bit first, with clear code 256 and end-of-data code 257.

use std::collections::HashMap;
use vstd::arithmetic::power2::{lemma2_to64, pow2};
use vstd::prelude::*;

verus! {

broadcast use vstd::std_specs::hash::group_hash_axioms;

/// The dictionary as a map from strings to codes.
pub type Dictionary = Map<Seq<u8>, nat>;

/// The state of the encoder: dictionary, pending string, code width, next free code and the
/// codes written so far, each with its width.
pub type EncoderState = (Dictionary, Seq<u8>, nat, nat, Seq<(u16, u8)>);

/// The dictionary after a clear code: every single byte is its own code.
pub open spec fn initial_dictionary() -> Dictionary {
    Map::new(|s: Seq<u8>| s.len() == 1, |s: Seq<u8>| s[0] as nat)
}

/// The state before the first byte: the clear code has been written at 9 bits.
pub open spec fn initial_state() -> EncoderState {
    (initial_dictionary(), seq![], 9, 258, seq![(256u16, 9u8)])
}

/// The code value after which the width grows, for the current width.
pub open spec fn width_threshold(code_size: nat, early_change: bool) -> int {
    pow2(code_size) - 1 - if early_change {
        1int
    } else {
        0int
    }
}

/// The state after reading the byte `k`.
pub open spec fn encoder_step(st: EncoderState, k: u8, early_change: bool) -> EncoderState {
    let (dict, w, cs, nc, out) = st;
    let wp = w.push(k);
    if dict.contains_key(wp) {
        (dict, wp, cs, nc, out)
    } else {
        let code = if w.len() > 0 {
            dict[w]
        } else {
            k as nat
        };
        let out1 = out.push((code as u16, cs as u8));
        if nc < 4096 {
            let nc1 = nc + 1;
            let cs1 = if nc1 == width_threshold(cs, early_change) && cs < 12 {
                cs + 1
            } else {
                cs
            };
            (dict.insert(wp, nc), seq![k], cs1, nc1, out1)
        } else {
            (initial_dictionary(), seq![k], 9, 258, out1.push((256u16, cs as u8)))
        }
    }
}

/// The state after reading `data[..i]`.
pub open spec fn encoder_state(data: Seq<u8>, i: int, early_change: bool) -> EncoderState
    decreases i,
{
    if i <= 0 {
        initial_state()
    } else {
        encoder_step(encoder_state(data, i - 1, early_change), data[i - 1], early_change)
    }
}

/// The codes, each with its width, that encoding `data` writes: those written while reading
/// the bytes, the code of the pending string, and the end-of-data code.
pub open spec fn lzw_codes(data: Seq<u8>, early_change: bool) -> Seq<(u16, u8)> {
    let (dict, w, cs, nc, out) = encoder_state(data, data.len() as int, early_change);
    let out1 = if w.len() > 0 {
        out.push((dict[w] as u16, cs as u8))
    } else {
        out
    };
    out1.push((257u16, cs as u8))
}

/// The `n` low bits of `v`, most significant first.
pub open spec fn code_bits(v: nat, n: nat) -> Seq<bool>
    decreases n,
{
    if n == 0 {
        seq![]
    } else {
        code_bits(v / 2, (n - 1) as nat).push(v % 2 == 1)
    }
}

/// The bits of all codes, one after the other.
pub open spec fn codes_bits(codes: Seq<(u16, u8)>) -> Seq<bool>
    decreases codes.len(),
{
    if codes.len() == 0 {
        seq![]
    } else {
        codes_bits(codes.drop_last()) + code_bits(codes.last().0 as nat, codes.last().1 as nat)
    }
}

/// The bits followed by the zero bits that complete the last byte, a whole zero byte when
/// the bits already end on a byte boundary (as the `lzw` crate's `MsbWriter` flushes).
pub open spec fn flushed(bits: Seq<bool>) -> Seq<bool> {
    bits + Seq::new((8 - bits.len() % 8) as nat, |i: int| false)
}

/// The number whose binary digits, most significant first, are `b`.
pub open spec fn bits_value(b: Seq<bool>) -> nat
    decreases b.len(),
{
    if b.len() == 0 {
        0
    } else {
        bits_value(b.drop_last()) * 2 + if b.last() {
            1nat
        } else {
            0nat
        }
    }
}

/// The bytes made of each group of eight bits.
pub open spec fn pack_bytes(bits: Seq<bool>) -> Seq<u8> {
    Seq::new(bits.len() / 8, |i: int| bits_value(bits.subrange(8 * i, 8 * i + 8)) as u8)
}

/// The encoded stream: the codes' bits, flushed, as bytes.
pub open spec fn lzw_stream(data: Seq<u8>, early_change: bool) -> Seq<u8> {
    pack_bytes(flushed(codes_bits(lzw_codes(data, early_change))))
}

/// The dictionary key of the string with code `c` extended by the byte `b`.
pub open spec fn entry_key(c: nat, b: u8) -> nat {
    c * 256 + b as nat
}

/// Marks a string whose dictionary entry is examined.
pub open spec fn probe(s: Seq<u8>) -> bool {
    true
}

/// The executable table `m`, keyed by the code of a string's prefix and its last byte,
/// describes the dictionary `dict`, whose codes are distinct and below `nc`.
pub open spec fn table_matches(dict: Dictionary, m: Map<u32, u16>, nc: nat) -> bool {
    &&& forall|s: Seq<u8>| #[trigger] dict.contains_key(s) ==> s.len() >= 1 && dict[s] < nc
    &&& forall|s: Seq<u8>| s.len() == 1 ==> #[trigger] dict.contains_key(s) && dict[s] == s[0]
    &&& forall|s: Seq<u8>|
        #![trigger probe(s)]
        probe(s) && dict.contains_key(s) && s.len() >= 2 ==> {
            &&& dict.contains_key(s.drop_last())
            &&& m.contains_key(entry_key(dict[s.drop_last()], s.last()) as u32)
            &&& m[entry_key(dict[s.drop_last()], s.last()) as u32] == dict[s]
        }
    &&& forall|w: Seq<u8>, b: u8|
        #![trigger dict.contains_key(w), m.contains_key(entry_key(dict[w], b) as u32)]
        dict.contains_key(w) && m.contains_key(entry_key(dict[w], b) as u32) ==> dict.contains_key(
            w.push(b),
        ) && dict[w.push(b)] == m[entry_key(dict[w], b) as u32]
    &&& forall|s1: Seq<u8>, s2: Seq<u8>|
        #![trigger dict.contains_key(s1), dict.contains_key(s2)]
        dict.contains_key(s1) && dict.contains_key(s2) && dict[s1] == dict[s2] ==> s1 == s2
    &&& forall|key: u32| #[trigger] m.contains_key(key) ==> key / 256 < nc
    &&& nc <= 4096
}

proof fn lemma_initial_table()
    ensures
        table_matches(initial_dictionary(), Map::<u32, u16>::empty(), 258),
{
    let dict = initial_dictionary();
    assert forall|s1: Seq<u8>, s2: Seq<u8>|
        dict.contains_key(s1) && dict.contains_key(s2) && dict[s1] == dict[s2] implies s1 == s2 by {
        assert(s1 =~= s2);
    }
}

/// Adding the string `w` + `k` under the next free code keeps the table in step.
proof fn lemma_insert_entry(dict: Dictionary, m: Map<u32, u16>, nc: nat, w: Seq<u8>, k: u8)
    requires
        table_matches(dict, m, nc),
        dict.contains_key(w),
        !dict.contains_key(w.push(k)),
        nc < 4096,
    ensures
        table_matches(
            dict.insert(w.push(k), nc),
            m.insert(entry_key(dict[w], k) as u32, nc as u16),
            nc + 1,
        ),
{
    let wp = w.push(k);
    let d2 = dict.insert(wp, nc);
    let key = entry_key(dict[w], k) as u32;
    let m2 = m.insert(key, nc as u16);
    assert(entry_key(dict[w], k) < 0x1000000);
    assert(wp.drop_last() =~= w);
    assert forall|s: Seq<u8>| s.len() == 1 implies #[trigger] d2.contains_key(s) && d2[s] == s[0] by {
        assert(dict.contains_key(s));
        if s == wp {
            assert(wp.len() >= 2);
        }
    }
    assert forall|s: Seq<u8>| #![trigger probe(s)] probe(s) && d2.contains_key(s) && s.len() >= 2 implies {
        &&& d2.contains_key(s.drop_last())
        &&& m2.contains_key(entry_key(d2[s.drop_last()], s.last()) as u32)
        &&& m2[entry_key(d2[s.drop_last()], s.last()) as u32] == d2[s]
    } by {
        if s == wp {
            assert(s.drop_last() == w);
        } else {
            assert(dict.contains_key(s));
            assert(probe(s));
            let p = s.drop_last();
            assert(dict.contains_key(p));
            if p == wp {
                assert(false);
            }
            let key_s = entry_key(dict[p], s.last()) as u32;
            assert(entry_key(dict[p], s.last()) < 0x1000000);
            if key_s == key {
                assert(dict[p] == dict[w] && s.last() == k);
                assert(p == w);
                assert(s =~= wp);
            }
        }
    }
    assert forall|x: Seq<u8>, b: u8|
        #![trigger d2.contains_key(x), m2.contains_key(entry_key(d2[x], b) as u32)]
        d2.contains_key(x) && m2.contains_key(entry_key(d2[x], b) as u32) implies d2.contains_key(
        x.push(b),
    ) && d2[x.push(b)] == m2[entry_key(d2[x], b) as u32] by {
        let kx = entry_key(d2[x], b) as u32;
        assert(entry_key(d2[x], b) < 0x1000000);
        if kx == key {
            if x == wp {
                assert(d2[x] == nc);
                assert(dict[w] < nc);
                assert(false);
            }
            assert(dict.contains_key(x));
            assert(d2[x] == dict[w] && b == k);
            assert(x == w);
        } else if x == wp {
            assert(m.contains_key(kx));
            assert(kx / 256 == nc);
            assert(false);
        } else {
            assert(dict.contains_key(x));
            assert(m.contains_key(entry_key(dict[x], b) as u32));
            assert(dict.contains_key(x.push(b)));
            if x.push(b) == wp {
                assert(x == w) by {
                    assert(x =~= x.push(b).drop_last());
                }
                assert(false);
            }
        }
    }
    assert forall|s1: Seq<u8>, s2: Seq<u8>|
        #![trigger d2.contains_key(s1), d2.contains_key(s2)]
        d2.contains_key(s1) && d2.contains_key(s2) && d2[s1] == d2[s2] implies s1 == s2 by {
        if s1 != wp && s2 != wp {
            assert(dict.contains_key(s1) && dict.contains_key(s2));
        } else if s1 == wp && s2 != wp {
            assert(dict.contains_key(s2));
            assert(dict[s2] < nc);
        } else if s2 == wp && s1 != wp {
            assert(dict.contains_key(s1));
            assert(dict[s1] < nc);
        }
    }
    assert forall|key2: u32| #[trigger] m2.contains_key(key2) implies key2 / 256 < nc + 1 by {
        if key2 != key {
            assert(m.contains_key(key2));
        }
    }
}

/// The executable encoder state describes the state `st`.
pub open spec fn encoder_matches(
    st: EncoderState,
    table: Map<u32, u16>,
    code_size: u8,
    next_code: u16,
    out: Seq<(u16, u8)>,
    w_empty: bool,
    w_code: u16,
) -> bool {
    &&& table_matches(st.0, table, st.3)
    &&& st.2 == code_size as nat
    &&& st.3 == next_code as nat
    &&& 9 <= code_size <= 12
    &&& 258 <= next_code <= 4096
    &&& st.4 == out
    &&& (w_empty <==> st.1.len() == 0)
    &&& !w_empty ==> st.0.contains_key(st.1) && st.0[st.1] == w_code as nat
}

/// `2^cs` for the code widths in use.
fn code_space(cs: u8) -> (r: u16)
    requires
        9 <= cs <= 12,
    ensures
        r == pow2(cs as nat),
        512 <= r <= 4096,
{
    proof {
        lemma2_to64();
    }
    if cs == 9 {
        512
    } else if cs == 10 {
        1024
    } else if cs == 11 {
        2048
    } else {
        4096
    }
}

/// The codes that LZW encoding of `data` writes, each with its width.
pub fn lzw_code_sequence(data: &[u8], early_change: bool) -> (r: Vec<(u16, u8)>)
    ensures
        r@ == lzw_codes(data@, early_change),
{
    proof {
        lemma2_to64();
    }
    let clear_code: u16 = 256;
    let end_code: u16 = 257;
    let mut code_size: u8 = 9;
    let max_code_size: u8 = 12;
    let mut next_code: u16 = 258;
    let mut table: HashMap<u32, u16> = HashMap::new();
    let mut out: Vec<(u16, u8)> = Vec::new();
    out.push((clear_code, code_size));
    let mut w_code: u16 = 0;
    let mut w_empty = true;
    proof {
        lemma_initial_table();
        assert(out@ =~= initial_state().4);
    }
    let n = data.len();
    let mut i: usize = 0;
    while i < n
        invariant
            n == data@.len(),
            i <= n,
            clear_code == 256,
            end_code == 257,
            max_code_size == 12,
            encoder_matches(
                encoder_state(data@, i as int, early_change),
                table@,
                code_size,
                next_code,
                out@,
                w_empty,
                w_code,
            ),
        decreases n - i,
    {
        let k = data[i];
        let ghost st = encoder_state(data@, i as int, early_change);
        let ghost wp = st.1.push(k);
        assert(encoder_state(data@, i + 1, early_change) == encoder_step(st, k, early_change));
        let key: u32 = if w_empty {
            0
        } else {
            w_code as u32 * 256 + k as u32
        };
        let hit: Option<u16> = if w_empty {
            Some(k as u16)
        } else {
            match table.get(&key) {
                Some(c) => Some(*c),
                None => None,
            }
        };
        proof {
            if w_empty {
                assert(wp =~= seq![k]);
                assert(st.0.contains_key(wp));
            } else {
                assert(key == entry_key(st.0[st.1], k) as u32);
                assert(wp.drop_last() =~= st.1);
                assert(probe(wp));
                if hit is None {
                    assert(!st.0.contains_key(wp));
                } else {
                    assert(st.0.contains_key(wp));
                }
            }
        }
        match hit {
            Some(c) => {
                w_code = c;
                w_empty = false;
                proof {
                    let st2 = encoder_step(st, k, early_change);
                    assert(st2.1 == wp);
                    assert(st2.0.contains_key(wp));
                    assert(st2.0[wp] == c);
                    assert(table_matches(st2.0, table@, st2.3));
                }
            },
            None => {
                out.push((w_code, code_size));
                if next_code < 4096 {
                    proof {
                        lemma_insert_entry(st.0, table@, st.3, st.1, k);
                    }
                    table.insert(key, next_code);
                    next_code += 1;
                    let offset: u16 = if early_change {
                        1
                    } else {
                        0
                    };
                    let threshold = code_space(code_size) - 1 - offset;
                    if next_code == threshold && code_size < max_code_size {
                        code_size += 1;
                    }
                    proof {
                        let st2 = encoder_step(st, k, early_change);
                        assert(st2.0 == st.0.insert(wp, st.3));
                        assert(table_matches(st2.0, table@, st2.3));
                        assert(st2.2 == code_size as nat);
                        assert(st2.3 == next_code as nat);
                        assert(st2.4 == out@);
                        assert(st2.1 == seq![k]);
                    }
                } else {
                    out.push((clear_code, code_size));
                    table.clear();
                    code_size = 9;
                    next_code = 258;
                    proof {
                        lemma_initial_table();
                        let st2 = encoder_step(st, k, early_change);
                        assert(st2.4 == out@);
                        assert(table_matches(st2.0, table@, st2.3));
                    }
                }
                w_code = k as u16;
                w_empty = false;
            },
        }
        proof {
            let st2 = encoder_state(data@, i + 1, early_change);
            assert(table_matches(st2.0, table@, st2.3));
            assert(st2.2 == code_size as nat);
            assert(st2.3 == next_code as nat);
            assert(9 <= code_size <= 12);
            assert(258 <= next_code <= 4096);
            assert(st2.4 == out@);
            assert(w_empty <==> st2.1.len() == 0);
            assert(!w_empty ==> st2.0.contains_key(st2.1));
            assert(!w_empty ==> st2.0[st2.1] == w_code as nat);
        }
        assert(encoder_matches(
            encoder_state(data@, i + 1, early_change),
            table@,
            code_size,
            next_code,
            out@,
            w_empty,
            w_code,
        ));
        i += 1;
    }
    let ghost st = encoder_state(data@, n as int, early_change);
    if !w_empty {
        out.push((w_code, code_size));
    }
    out.push((end_code, code_size));
    out
}

/// Appends the `n` low bits of `v`, most significant first.
fn push_code_bits(bits: &mut Vec<bool>, v: u16, n: u8)
    ensures
        final(bits)@ == old(bits)@ + code_bits(v as nat, n as nat),
    decreases n,
{
    if n > 0 {
        push_code_bits(bits, v / 2, n - 1);
        bits.push(v % 2 == 1);
        assert(final(bits)@ =~= old(bits)@ + code_bits(v as nat, n as nat));
    } else {
        assert(old(bits)@ + code_bits(v as nat, 0) =~= old(bits)@);
    }
}

proof fn lemma_bits_value_bound(b: Seq<bool>)
    ensures
        bits_value(b) < pow2(b.len()),
    decreases b.len(),
{
    if b.len() > 0 {
        lemma_bits_value_bound(b.drop_last());
        vstd::arithmetic::power2::lemma_pow2_unfold(b.len());
    } else {
        vstd::arithmetic::power2::lemma_pow2_pos(0);
        lemma2_to64();
    }
}

/// Writes the codes most significant bit first, flushing to a byte boundary at the end.
pub fn pack_codes_msb(codes: &Vec<(u16, u8)>) -> (r: Vec<u8>)
    ensures
        r@ == pack_bytes(flushed(codes_bits(codes@))),
{
    let mut bits: Vec<bool> = Vec::new();
    let mut i: usize = 0;
    while i < codes.len()
        invariant
            i <= codes@.len(),
            bits@ == codes_bits(codes@.subrange(0, i as int)),
        decreases codes@.len() - i,
    {
        let (v, n) = codes[i];
        push_code_bits(&mut bits, v, n);
        assert(codes@.subrange(0, i + 1).drop_last() =~= codes@.subrange(0, i as int));
        i += 1;
    }
    assert(codes@.subrange(0, codes@.len() as int) =~= codes@);
    let ghost raw = bits@;
    let pad = 8 - bits.len() % 8;
    let mut p: usize = 0;
    while p < pad
        invariant
            pad == 8 - raw.len() % 8,
            p <= pad,
            bits@ == raw + Seq::new(p as nat, |j: int| false),
        decreases pad - p,
    {
        bits.push(false);
        assert(bits@ =~= raw + Seq::new((p + 1) as nat, |j: int| false));
        p += 1;
    }
    let ghost all = bits@;
    assert(all == flushed(raw));
    let total = bits.len();
    let count = total / 8;
    let mut bytes: Vec<u8> = Vec::new();
    let mut b: usize = 0;
    while b < count
        invariant
            all == bits@,
            total == all.len(),
            count == all.len() / 8,
            b <= count,
            bytes@ == pack_bytes(all).subrange(0, b as int),
        decreases count - b,
    {
        let mut value: u32 = 0;
        let mut j: usize = 0;
        proof {
            lemma2_to64();
            assert(all.subrange(8 * b, 8 * b + 0) =~= Seq::<bool>::empty());
            assert(8 * b + 8 <= 8 * count) by (nonlinear_arith)
                requires
                    b < count,
            ;
        }
        while j < 8
            invariant
                all == bits@,
                total == all.len(),
                b < count,
                count == all.len() / 8,
                j <= 8,
                value == bits_value(all.subrange(8 * b, 8 * b + j)),
                value < pow2(j as nat),
                8 * b + 8 <= 8 * count,
                8 * count <= all.len(),
            decreases 8 - j,
        {
            proof {
                lemma2_to64();
                vstd::arithmetic::power2::lemma_pow2_unfold((j + 1) as nat);
            }
            let bit = bits[8 * b + j];
            assert(all.subrange(8 * b, 8 * b + j + 1).drop_last() =~= all.subrange(8 * b, 8 * b + j));
            value = value * 2 + if bit {
                1
            } else {
                0
            };
            j += 1;
        }
        proof {
            lemma2_to64();
        }
        bytes.push(value as u8);
        assert(bytes@ =~= pack_bytes(all).subrange(0, b + 1));
        b += 1;
    }
    assert(bytes@ =~= pack_bytes(all));
    bytes
}

/// LZW-encodes `data` for the `LZWDecode` filter. With `early_change` the code width grows
/// one code early, as the filter's default `EarlyChange` of 1 expects.
pub fn encode_lzw_pdf(data: &[u8], early_change: bool) -> (r: Result<Vec<u8>, String>)
    ensures
        r matches Ok(v) && v@ == lzw_stream(data@, early_change),
{
    let codes = lzw_code_sequence(data, early_change);
    Ok(pack_codes_msb(&codes))
}

} // verus!
