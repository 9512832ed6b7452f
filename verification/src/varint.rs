//! Variable-length integer (varint) reading, decoding and encoding.
//!
//! A varint stores an unsigned integer in base-128 groups, least-significant
//! group first; every byte but the last has its high bit set as a
//! continuation marker.

use crate::error::DecodeError;
use vstd::prelude::*;
use vstd::arithmetic::div_mod::lemma_add_mod_noop;
use vstd::arithmetic::div_mod::lemma_fundamental_div_mod_converse;
use vstd::arithmetic::div_mod::lemma_mul_mod_noop_left;
use vstd::arithmetic::div_mod::lemma_small_mod;

verus! {

/// The base-128 value of a sequence of 7-bit groups given in
/// most-significant-group-first order.
pub open spec fn base128_nat(groups: Seq<u8>) -> nat
    decreases groups.len(),
{
    if groups.len() == 0 {
        0
    } else {
        (base128_nat(groups.drop_last()) * 128 + groups.last()) as nat
    }
}

/// The raw bytes of one whole varint: every byte but the last is a
/// continuation byte (high bit set), and the final byte terminates the
/// varint (high bit clear).
pub open spec fn is_raw_varint(raw: Seq<u8>) -> bool {
    &&& raw.len() > 0
    &&& (forall|i: int| 0 <= i < raw.len() - 1 ==> #[trigger] raw[i] >= 128)
    &&& raw.last() < 128
}

/// The 7-bit groups of a raw varint, reordered most-significant first:
/// the bytes reversed, each with its continuation bit stripped.
pub open spec fn groups_of(raw: Seq<u8>) -> Seq<u8> {
    raw.reverse().map_values(|b: u8| b & 0x7f)
}

/// The position one past the end of the varint that starts at index `i` of
/// `s`: one past the first byte at or after `i` whose high bit is clear, or
/// `None` when the buffer ends before any such terminating byte.
pub open spec fn varint_end(s: Seq<u8>, i: int) -> Option<int>
    decreases s.len() - i,
{
    if i < 0 || i >= s.len() {
        None
    } else if s[i] < 128 {
        Some(i + 1)
    } else {
        varint_end(s, i + 1)
    }
}

/// Where a varint ends, it ends after its start and within the buffer.
pub proof fn lemma_varint_end_bounds(s: Seq<u8>, i: int)
    ensures
        varint_end(s, i) matches Some(e) ==> i < e <= s.len(),
    decreases s.len() - i,
{
    if 0 <= i < s.len() && s[i] >= 128 {
        lemma_varint_end_bounds(s, i + 1);
    }
}

/// The signed value denoted by the zigzag encoding `n`, at 64-bit width:
/// even values map to `n / 2`, odd values to `-1 - n / 2`.
pub open spec fn zigzag_dec64(n: u64) -> int {
    if n % 2 == 0 {
        (n as int) / 2
    } else {
        -1 - (n as int) / 2
    }
}

/// The signed value denoted by the zigzag encoding `n`, at 32-bit width.
pub open spec fn zigzag_dec32(n: u32) -> int {
    if n % 2 == 0 {
        (n as int) / 2
    } else {
        -1 - (n as int) / 2
    }
}

/// The zigzag encoding of the signed 64-bit value `v`.
pub open spec fn zigzag_enc64(v: i64) -> u64 {
    (if v >= 0 {
        2 * v
    } else {
        -2 * v - 1
    }) as u64
}

/// The zigzag encoding of the signed 32-bit value `v`.
pub open spec fn zigzag_enc32(v: i32) -> u32 {
    (if v >= 0 {
        2 * v
    } else {
        -2 * v - 1
    }) as u32
}

/// Zigzag decoding inverts zigzag encoding: every signed 64-bit value comes
/// back unchanged from a decode of its encoding.
pub proof fn lemma_zigzag_round_trip_64(v: i64)
    ensures
        zigzag_dec64(zigzag_enc64(v)) == v,
{
    if v >= 0 {
        let n = zigzag_enc64(v);
        assert(n == 2 * v);
        lemma_fundamental_div_mod_converse(n as int, 2, v as int, 0);
    } else {
        let n = zigzag_enc64(v);
        assert(n == -2 * v - 1);
        lemma_fundamental_div_mod_converse(n as int, 2, (-1 - v) as int, 1);
    }
}

/// Zigzag decoding inverts zigzag encoding at 32-bit width as well.
pub proof fn lemma_zigzag_round_trip_32(v: i32)
    ensures
        zigzag_dec32(zigzag_enc32(v)) == v,
{
    if v >= 0 {
        let n = zigzag_enc32(v);
        assert(n == 2 * v);
        lemma_fundamental_div_mod_converse(n as int, 2, v as int, 0);
    } else {
        let n = zigzag_enc32(v);
        assert(n == -2 * v - 1);
        lemma_fundamental_div_mod_converse(n as int, 2, (-1 - v) as int, 1);
    }
}

/// Folding one more group into an accumulator held modulo `m` gives the
/// same residue as folding it into the unreduced value.
proof fn lemma_accum_step(a: int, g: int, m: int)
    requires
        m > 128,
        a >= 0,
        0 <= g < 128,
    ensures
        ((a % m) * 128 + g) % m == (a * 128 + g) % m,
{
    lemma_mul_mod_noop_left(a, 128, m);
    lemma_small_mod(g as nat, m as nat);
    lemma_add_mod_noop((a % m) * 128, g, m);
    lemma_add_mod_noop(a * 128, g, m);
}

/// The bytes of one varint, reversed and with the continuation bits
/// stripped, so that the most significant 7-bit group comes first.
#[derive(Debug)]
pub struct VarIntDecodedData {
    pub value: Vec<u8>,
}

impl VarIntDecodedData {
    /// Every stored group fits in 7 bits.
    pub open spec fn wf(self) -> bool {
        forall|i: int| 0 <= i < self.value@.len() ==> #[trigger] self.value@[i] < 128
    }

    /// The unbounded unsigned integer the stored groups denote.
    pub open spec fn abs_nat(self) -> nat {
        base128_nat(self.value@)
    }

    /// The stored value truncated to 64 bits.
    pub open spec fn val64(self) -> u64 {
        (self.abs_nat() % 0x1_0000_0000_0000_0000) as u64
    }

    /// The stored value truncated to 32 bits.
    pub open spec fn val32(self) -> u32 {
        (self.abs_nat() % 0x1_0000_0000) as u32
    }

    /// Accumulates the groups into a 64-bit word, shifting seven bits per
    /// group; groups beyond the width are truncated away.
    fn accum64(&self) -> (r: u64)
        requires
            self.wf(),
        ensures
            r == self.val64(),
    {
        let n: usize = self.value.len();
        let mut acc: u64 = 0;
        let mut i: usize = 0;
        while i < n
            invariant
                self.wf(),
                n == self.value@.len(),
                0 <= i <= n,
                acc as nat == base128_nat(self.value@.take(i as int)) % 0x1_0000_0000_0000_0000,
            decreases n - i,
        {
            let g: u8 = self.value[i];
            proof {
                let pre = self.value@.take(i as int);
                let post = self.value@.take(i as int + 1);
                assert(post.drop_last() =~= pre);
                assert(post.last() == self.value@[i as int]);
                lemma_accum_step(base128_nat(pre) as int, g as int, 0x1_0000_0000_0000_0000);
                assert((acc << 7) | (g as u64) == ((acc * 128 + g) % 0x1_0000_0000_0000_0000))
                    by (bit_vector)
                    requires
                        g < 128,
                ;
            }
            acc = (acc << 7) | (g as u64);
            i += 1;
        }
        proof {
            assert(self.value@.take(n as int) =~= self.value@);
        }
        acc
    }

    /// Accumulates the groups into a 32-bit word, shifting seven bits per
    /// group; groups beyond the width are truncated away.
    fn accum32(&self) -> (r: u32)
        requires
            self.wf(),
        ensures
            r == self.val32(),
    {
        let n: usize = self.value.len();
        let mut acc: u32 = 0;
        let mut i: usize = 0;
        while i < n
            invariant
                self.wf(),
                n == self.value@.len(),
                0 <= i <= n,
                acc as nat == base128_nat(self.value@.take(i as int)) % 0x1_0000_0000,
            decreases n - i,
        {
            let g: u8 = self.value[i];
            proof {
                let pre = self.value@.take(i as int);
                let post = self.value@.take(i as int + 1);
                assert(post.drop_last() =~= pre);
                assert(post.last() == self.value@[i as int]);
                lemma_accum_step(base128_nat(pre) as int, g as int, 0x1_0000_0000);
                assert((acc << 7) | (g as u32) == ((acc * 128 + g) % 0x1_0000_0000))
                    by (bit_vector)
                    requires
                        g < 128,
                ;
            }
            acc = (acc << 7) | (g as u32);
            i += 1;
        }
        proof {
            assert(self.value@.take(n as int) =~= self.value@);
        }
        acc
    }

    /// The stored groups as a 32-bit integer, most significant group first.
    pub fn get_value_as_i32(&self) -> (r: i32)
        requires
            self.wf(),
        ensures
            r == self.val32() as i32,
    {
        self.accum32() as i32
    }

    /// The stored groups as a 32-bit integer, then zigzag-decoded to the
    /// signed value it denotes.
    pub fn get_value_as_signed_i32_zigzag(&self) -> (r: i32)
        requires
            self.wf(),
        ensures
            r == zigzag_dec32(self.val32()),
    {
        let n: u32 = self.accum32();
        let half: i32 = (n >> 1) as i32;
        let low: i32 = (n & 1) as i32;
        proof {
            assert(n & 1 == 0 || n & 1 == 1) by (bit_vector);
            assert(n % 2 == n & 1) by (bit_vector);
            if n & 1 == 0 {
                assert((n >> 1) as i32 == n / 2) by (bit_vector);
                assert(half ^ 0i32 == half) by (bit_vector);
            } else {
                assert(((n >> 1) as i32) ^ (-1i32) == -1 - n / 2) by (bit_vector);
            }
        }
        half ^ (0i32 - low)
    }

    /// The stored groups as a 64-bit integer, most significant group first.
    pub fn get_value_as_i64(&self) -> (r: i64)
        requires
            self.wf(),
        ensures
            r == self.val64() as i64,
    {
        self.accum64() as i64
    }

    /// The stored groups as a 64-bit integer, then zigzag-decoded to the
    /// signed value it denotes.
    pub fn get_value_as_signed_i64_zigzag(&self) -> (r: i64)
        requires
            self.wf(),
        ensures
            r == zigzag_dec64(self.val64()),
    {
        let n: u64 = self.accum64();
        let half: i64 = (n >> 1) as i64;
        let low: i64 = (n & 1) as i64;
        proof {
            assert(n & 1 == 0 || n & 1 == 1) by (bit_vector);
            assert(n % 2 == n & 1) by (bit_vector);
            if n & 1 == 0 {
                assert((n >> 1) as i64 == n / 2) by (bit_vector);
                assert(half ^ 0i64 == half) by (bit_vector);
            } else {
                assert(((n >> 1) as i64) ^ (-1i64) == -1 - n / 2) by (bit_vector);
            }
        }
        half ^ (0i64 - low)
    }
}

/// Strips the continuation bit from every byte of a raw varint and reverses
/// the result, so that the most significant 7-bit group comes first.
pub fn decode_varint(a_varint: &[u8]) -> (r: VarIntDecodedData)
    ensures
        r.value@ == groups_of(a_varint@),
        r.wf(),
        r.value@.len() == a_varint@.len(),
{
    let n: usize = a_varint.len();
    let mut groups: Vec<u8> = Vec::new();
    let mut i: usize = 0;
    while i < n
        invariant
            n == a_varint@.len(),
            0 <= i <= n,
            groups@.len() == i,
            forall|j: int| 0 <= j < i ==> #[trigger] groups@[j] == a_varint@[n - 1 - j] & 0x7f,
        decreases n - i,
    {
        groups.push(a_varint[n - 1 - i] & 0x7f);
        i += 1;
    }
    proof {
        assert forall|j: int| 0 <= j < n implies groups@[j] == groups_of(a_varint@)[j] by {
            assert(a_varint@.reverse()[j] == a_varint@[n - 1 - j]);
        }
        assert(groups@ =~= groups_of(a_varint@));
        assert forall|j: int| 0 <= j < n implies #[trigger] groups@[j] < 128 by {
            assert(groups@[j] == a_varint@[n - 1 - j] & 0x7f);
            let b = a_varint@[n - 1 - j];
            assert(b & 0x7f < 128) by (bit_vector);
        }
    }
    VarIntDecodedData { value: groups }
}

/// Reads the raw bytes of the varint that starts at `index`: every byte up
/// to and including the first one whose high bit is clear. Fails with
/// `BufferUnderrun` when the buffer ends before a terminating byte.
pub fn get_varint_raw_at(a_byte_stream: &[u8], index: usize) -> (r: Result<
    Vec<u8>,
    DecodeError,
>)
    ensures
        match varint_end(a_byte_stream@, index as int) {
            Some(e) => {
                &&& r matches Ok(v)
                &&& v@ == a_byte_stream@.subrange(index as int, e)
                &&& is_raw_varint(v@)
                &&& index < e <= a_byte_stream@.len()
            },
            None => r == Err::<Vec<u8>, DecodeError>(DecodeError::BufferUnderrun),
        },
{
    let n: usize = a_byte_stream.len();
    if index >= n {
        return Err(DecodeError::BufferUnderrun);
    }
    let mut result: Vec<u8> = Vec::new();
    let mut i: usize = index;
    while i < n
        invariant
            n == a_byte_stream@.len(),
            index <= i <= n,
            result@ == a_byte_stream@.subrange(index as int, i as int),
            forall|j: int| index <= j < i ==> #[trigger] a_byte_stream@[j] >= 128,
            varint_end(a_byte_stream@, index as int) == varint_end(a_byte_stream@, i as int),
        decreases n - i,
    {
        let b: u8 = a_byte_stream[i];
        result.push(b);
        proof {
            assert(result@ =~= a_byte_stream@.subrange(index as int, i + 1));
        }
        if b < 128 {
            return Ok(result);
        }
        i += 1;
    }
    Err(DecodeError::BufferUnderrun)
}

/// Reads and decodes the varint that starts at `index`, returning the
/// decoded groups together with the number of bytes consumed. Fails with
/// `BufferUnderrun` when the buffer ends before a terminating byte.
pub fn get_varint_decoded_at(a_byte_stream: &[u8], index: usize) -> (r: Result<
    (VarIntDecodedData, usize),
    DecodeError,
>)
    ensures
        match varint_end(a_byte_stream@, index as int) {
            Some(e) => {
                &&& r matches Ok(p)
                &&& p.0.value@ == groups_of(a_byte_stream@.subrange(index as int, e))
                &&& p.0.wf()
                &&& index + p.1 == e
                &&& p.1 >= 1
            },
            None => r == Err::<(VarIntDecodedData, usize), DecodeError>(
                DecodeError::BufferUnderrun,
            ),
        },
{
    let raw = get_varint_raw_at(a_byte_stream, index)?;
    let len = raw.len();
    let varint_found = decode_varint(raw.as_slice());
    Ok((varint_found, len))
}

/// The five bytes the varint encoder produces for a 32-bit number: the
/// number's 7-bit groups, least significant first, the first four marked as
/// continuation bytes; the last byte keeps only seven bits, so the sign
/// bits an arithmetic shift drags in are truncated away.
pub open spec fn spec_encode_varint32(n: i32) -> Seq<u8> {
    let u = n as u32;
    seq![
        (u as u8) | 0x80,
        ((u >> 7) as u8) | 0x80,
        ((u >> 14) as u8) | 0x80,
        ((u >> 21) as u8) | 0x80,
        if n < 0 {
            ((u >> 28) as u8) | 0x70
        } else {
            (u >> 28) as u8
        },
    ]
}

/// Encodes a 32-bit number as a varint of exactly five bytes: each byte
/// carries seven bits of the number, least significant group first, and
/// every byte but the last is marked as a continuation byte.
pub fn encode_to_varint(a_number: i32) -> (r: Vec<u8>)
    ensures
        r@ == spec_encode_varint32(a_number),
{
    let u: u32 = a_number as u32;
    let mut result: Vec<u8> = Vec::new();
    result.push((u as u8) | 0x80);
    result.push(((u >> 7) as u8) | 0x80);
    result.push(((u >> 14) as u8) | 0x80);
    result.push(((u >> 21) as u8) | 0x80);
    if a_number < 0 {
        result.push(((u >> 28) as u8) | 0x70);
    } else {
        result.push((u >> 28) as u8);
    }
    proof {
        assert(result@ =~= spec_encode_varint32(a_number));
    }
    result
}

/// Unfolds the base-128 value of exactly five groups.
proof fn lemma_base128_5(g: Seq<u8>)
    requires
        g.len() == 5,
    ensures
        base128_nat(g) == (((g[0] * 128 + g[1]) * 128 + g[2]) * 128 + g[3]) * 128 + g[4],
{
    let s4 = seq![g[0], g[1], g[2], g[3]];
    let s3 = seq![g[0], g[1], g[2]];
    let s2 = seq![g[0], g[1]];
    let s1 = seq![g[0]];
    assert(g.drop_last() =~= s4);
    assert(s4.drop_last() =~= s3);
    assert(s3.drop_last() =~= s2);
    assert(s2.drop_last() =~= s1);
    assert(s1.drop_last() =~= Seq::<u8>::empty());
    assert(base128_nat(Seq::<u8>::empty()) == 0);
    assert(base128_nat(s1) == g[0]);
    assert(base128_nat(s2) == g[0] * 128 + g[1]);
    assert(base128_nat(s3) == (g[0] * 128 + g[1]) * 128 + g[2]);
    assert(base128_nat(s4) == ((g[0] * 128 + g[1]) * 128 + g[2]) * 128 + g[3]);
    assert(base128_nat(g) == base128_nat(s4) * 128 + g[4]);
}

/// Decoding the varint encoding of a 32-bit number yields that number:
/// reading the five encoded bytes as one raw varint, stripping and
/// reversing them, and accumulating the groups at 32-bit width gives back
/// exactly the number that was encoded.
pub proof fn lemma_varint_round_trip_32(n: i32)
    ensures
        is_raw_varint(spec_encode_varint32(n)),
        base128_nat(groups_of(spec_encode_varint32(n))) % 0x1_0000_0000 == n as u32,
        ((base128_nat(groups_of(spec_encode_varint32(n))) % 0x1_0000_0000) as u32) as i32 == n,
{
    let u = n as u32;
    let e = spec_encode_varint32(n);
    let b0 = e[0];
    let b1 = e[1];
    let b2 = e[2];
    let b3 = e[3];
    let b4 = e[4];
    assert(b0 >= 128 && b1 >= 128 && b2 >= 128 && b3 >= 128) by (bit_vector)
        requires
            b0 == (u as u8) | 0x80,
            b1 == ((u >> 7) as u8) | 0x80,
            b2 == ((u >> 14) as u8) | 0x80,
            b3 == ((u >> 21) as u8) | 0x80,
    ;
    assert(b4 < 128) by (bit_vector)
        requires
            b4 == ((u >> 28) as u8) | 0x70 || b4 == (u >> 28) as u8,
    ;
    let g = groups_of(e);
    assert(e.reverse() =~= seq![b4, b3, b2, b1, b0]);
    assert(g =~= seq![b4 & 0x7f, b3 & 0x7f, b2 & 0x7f, b1 & 0x7f, b0 & 0x7f]);
    lemma_base128_5(g);
    assert(((((b4 & 0x7f) * 128 + (b3 & 0x7f)) * 128 + (b2 & 0x7f)) * 128 + (b1 & 0x7f)) * 128 + (
    b0 & 0x7f) == (b4 & 0x7f) * 0x10000000 + (b3 & 0x7f) * 0x200000 + (b2 & 0x7f) * 0x4000 + (b1
        & 0x7f) * 0x80 + (b0 & 0x7f));
    assert(((b4 & 0x7f) * 0x10000000 + (b3 & 0x7f) * 0x200000 + (b2 & 0x7f) * 0x4000 + (b1 & 0x7f)
        * 0x80 + (b0 & 0x7f)) % 0x1_0000_0000 == u) by (bit_vector)
        requires
            b0 == (u as u8) | 0x80,
            b1 == ((u >> 7) as u8) | 0x80,
            b2 == ((u >> 14) as u8) | 0x80,
            b3 == ((u >> 21) as u8) | 0x80,
            b4 == ((u >> 28) as u8) | 0x70 || b4 == (u >> 28) as u8,
    ;
    assert((u as i32) == n) by (bit_vector)
        requires
            u == n as u32,
    ;
}

} // verus!
