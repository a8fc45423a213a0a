//! Little-endian byte codecs.
//!
//! The image format stores all of its multi-byte fields least-significant
//! byte first, and relocation patches a machine word back into memory in the
//! same order. Both directions are defined here against a single pair of
//! specification functions, together with the round-trip law connecting them.

use vstd::prelude::*;

verus! {

/// The value of a little-endian byte string: the first byte is the least
/// significant.
pub open spec fn le_bytes_to_int(s: Seq<u8>) -> int
    decreases s.len(),
{
    if s.len() == 0 {
        0
    } else {
        s[0] + 256 * le_bytes_to_int(s.subrange(1, s.len() as int))
    }
}

/// `256^n`, the number of values a string of `n` bytes can take.
pub open spec fn pow256(n: nat) -> int
    decreases n,
{
    if n == 0 {
        1
    } else {
        256 * pow256((n - 1) as nat)
    }
}

/// The `n`-byte little-endian encoding of `v` (of `v`'s low `n` bytes, when
/// `v` does not fit).
pub open spec fn le_bytes_of(v: int, n: nat) -> Seq<u8>
    decreases n,
{
    if n == 0 {
        Seq::empty()
    } else {
        seq![(v % 256) as u8] + le_bytes_of(v / 256, (n - 1) as nat)
    }
}

/// A byte string's value is bounded by the capacity of its length.
pub proof fn lemma_le_bytes_to_int_bound(s: Seq<u8>)
    ensures
        0 <= le_bytes_to_int(s) < pow256(s.len()),
    decreases s.len(),
{
    if s.len() > 0 {
        lemma_le_bytes_to_int_bound(s.subrange(1, s.len() as int));
    }
}

/// Encoding is always `n` bytes long.
pub proof fn lemma_le_bytes_of_len(v: int, n: nat)
    ensures
        le_bytes_of(v, n).len() == n,
    decreases n,
{
    if n > 0 {
        lemma_le_bytes_of_len(v / 256, (n - 1) as nat);
    }
}

/// Round trip: decoding the `n`-byte encoding of a non-negative `v` gives
/// back `v` modulo the capacity of `n` bytes.
pub proof fn lemma_le_round_trip(v: int, n: nat)
    requires
        0 <= v,
    ensures
        le_bytes_to_int(le_bytes_of(v, n)) == v % pow256(n),
    decreases n,
{
    if n == 0 {
        assert(v % 1 == 0) by {
            vstd::arithmetic::div_mod::lemma_mod_multiples_basic(v, 1);
        }
    } else {
        let s = le_bytes_of(v, n);
        lemma_le_bytes_of_len(v / 256, (n - 1) as nat);
        assert(s.subrange(1, s.len() as int) =~= le_bytes_of(v / 256, (n - 1) as nat));
        vstd::arithmetic::div_mod::lemma_div_pos_is_pos(v, 256);
        lemma_le_round_trip(v / 256, (n - 1) as nat);
        lemma_pow256_pos((n - 1) as nat);
        assert(v % (256 * pow256((n - 1) as nat)) == 256 * ((v / 256) % pow256((n - 1) as nat))
            + v % 256) by {
            vstd::arithmetic::div_mod::lemma_mod_breakdown(v, 256, pow256((n - 1) as nat));
        }
    }
}

/// Byte-string capacities are positive.
pub proof fn lemma_pow256_pos(n: nat)
    ensures
        pow256(n) >= 1,
    decreases n,
{
    if n > 0 {
        lemma_pow256_pos((n - 1) as nat);
    }
}

/// The capacities of the field widths the image format uses, spelled out.
pub proof fn lemma_pow256_widths()
    ensures
        pow256(2) == 0x1_0000,
        pow256(4) == 0x1_0000_0000,
        pow256(8) == 0x1_0000_0000_0000_0000,
{
    assert(pow256(2) == 0x1_0000 && pow256(4) == 0x1_0000_0000 && pow256(8)
        == 0x1_0000_0000_0000_0000) by {
        reveal_with_fuel(pow256, 9);
    }
}

/// Read the `n`-byte little-endian field at `offset`, for fields of up to
/// eight bytes.
pub fn read_le(bytes: &Vec<u8>, offset: usize, n: usize) -> (r: u64)
    requires
        n <= 8,
        offset + n <= bytes.len(),
    ensures
        r == le_bytes_to_int(bytes@.subrange(offset as int, offset + n)),
{
    let mut acc: u64 = 0;
    let mut i: usize = n;
    proof {
        assert(bytes@.subrange(offset + n, offset + n) =~= Seq::<u8>::empty());
    }
    while i > 0
        invariant
            i <= n,
            n <= 8,
            offset + n <= bytes.len(),
            acc == le_bytes_to_int(bytes@.subrange(offset + i, offset + n)),
            acc < pow256((n - i) as nat),
        decreases i,
    {
        proof {
            let tail = bytes@.subrange(offset + i - 1, offset + n);
            assert(tail.subrange(1, tail.len() as int) =~= bytes@.subrange(
                offset + i,
                offset + n,
            ));
            lemma_pow256_bounded((n - i) as nat);
        }
        acc = acc * 256 + bytes[offset + i - 1] as u64;
        i = i - 1;
    }
    proof {
        assert(bytes@.subrange(offset as int, offset + n) =~= bytes@.subrange(
            offset + 0,
            offset + n,
        ));
    }
    acc
}

/// Capacities of up to seven bytes leave room to shift another byte in.
proof fn lemma_pow256_bounded(n: nat)
    requires
        n <= 7,
    ensures
        pow256(n) <= 0x100_0000_0000_0000,
    decreases n,
{
    assert(pow256(n) <= 0x100_0000_0000_0000) by {
        reveal_with_fuel(pow256, 9);
    }
}

/// The value of the `n`-byte little-endian field at `off`.
pub open spec fn le_field(s: Seq<u8>, off: int, n: int) -> int {
    le_bytes_to_int(s.subrange(off, off + n))
}

/// Read the two-byte little-endian field at `offset`.
pub fn read_u16(bytes: &Vec<u8>, offset: usize) -> (r: u16)
    requires
        offset + 2 <= bytes.len(),
    ensures
        r == le_field(bytes@, offset as int, 2),
{
    let v = read_le(bytes, offset, 2);
    proof {
        lemma_le_bytes_to_int_bound(bytes@.subrange(offset as int, offset + 2));
        lemma_pow256_widths();
    }
    v as u16
}

/// Read the four-byte little-endian field at `offset`.
pub fn read_u32(bytes: &Vec<u8>, offset: usize) -> (r: u32)
    requires
        offset + 4 <= bytes.len(),
    ensures
        r == le_field(bytes@, offset as int, 4),
{
    let v = read_le(bytes, offset, 4);
    proof {
        lemma_le_bytes_to_int_bound(bytes@.subrange(offset as int, offset + 4));
        lemma_pow256_widths();
    }
    v as u32
}

/// Read the eight-byte little-endian field at `offset`.
pub fn read_u64(bytes: &Vec<u8>, offset: usize) -> (r: u64)
    requires
        offset + 8 <= bytes.len(),
    ensures
        r == le_field(bytes@, offset as int, 8),
{
    read_le(bytes, offset, 8)
}

/// Encode `v` as its eight little-endian bytes.
pub fn word_to_le_bytes(v: u64) -> (r: Vec<u8>)
    ensures
        r@ == le_bytes_of(v as int, 8),
        r.len() == 8,
{
    let mut r: Vec<u8> = Vec::new();
    let mut x: u64 = v;
    let mut i: usize = 0;
    while i < 8
        invariant
            i <= 8,
            r@.len() == i,
            r@ + le_bytes_of(x as int, (8 - i) as nat) =~= le_bytes_of(v as int, 8),
        decreases 8 - i,
    {
        let ghost prev = r@;
        let ghost prev_x = x as int;
        r.push((x % 256) as u8);
        x = x / 256;
        i = i + 1;
        proof {
            assert(le_bytes_of(prev_x, (8 - i + 1) as nat) == seq![(prev_x % 256) as u8]
                + le_bytes_of(prev_x / 256, (8 - i) as nat));
            assert(r@ + le_bytes_of(x as int, (8 - i) as nat) =~= prev + le_bytes_of(
                prev_x,
                (8 - i + 1) as nat,
            ));
        }
    }
    proof {
        lemma_le_bytes_of_len(v as int, 8);
        assert(r@ =~= le_bytes_of(v as int, 8));
    }
    r
}

} // verus!
