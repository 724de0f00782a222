//! Little-endian integers in byte sequences.

use vstd::prelude::*;

verus! {

/// The number that `s` spells in base 256, least significant byte first.
pub open spec fn le_value(s: Seq<u8>) -> nat
    decreases s.len(),
{
    if s.len() == 0 {
        0
    } else {
        s[0] as nat + 256 * le_value(s.subrange(1, s.len() as int))
    }
}

/// The `n` lowest base-256 digits of `v`, least significant first.
pub open spec fn le_digits(v: nat, n: nat) -> Seq<u8>
    decreases n,
{
    if n == 0 {
        Seq::empty()
    } else {
        seq![(v % 256) as u8] + le_digits(v / 256, (n - 1) as nat)
    }
}

/// The two's complement reading of a 32-bit word.
pub open spec fn signed32(v: u32) -> i32 {
    if v < 0x8000_0000 {
        v as i32
    } else {
        (v - 0x1_0000_0000) as i32
    }
}

/// The 32-bit word that holds `v` in two's complement.
pub open spec fn word32(v: i32) -> u32 {
    if v >= 0 {
        v as u32
    } else {
        (v + 0x1_0000_0000) as u32
    }
}

/// `le_digits` always has the length asked for.
pub proof fn lemma_le_digits_len(v: nat, n: nat)
    ensures
        le_digits(v, n).len() == n,
    decreases n,
{
    if n > 0 {
        lemma_le_digits_len(v / 256, (n - 1) as nat);
    }
}

/// 256 to the power `n`.
pub open spec fn pow256(n: nat) -> nat
    decreases n,
{
    if n == 0 {
        1
    } else {
        256 * pow256((n - 1) as nat)
    }
}

/// Decoding undoes encoding: a number below `256^n` survives being written in `n` bytes
/// and read back.
pub proof fn law_decode_of_encode(v: nat, n: nat)
    requires
        v < pow256(n),
    ensures
        le_value(le_digits(v, n)) == v,
    decreases n,
{
    if n > 0 {
        let rest = le_digits(v / 256, (n - 1) as nat);
        assert(v / 256 < pow256((n - 1) as nat));
        law_decode_of_encode(v / 256, (n - 1) as nat);
        let whole = le_digits(v, n);
        assert(whole.subrange(1, whole.len() as int) =~= rest);
    }
}

/// Encoding undoes decoding: bytes read as a number and written back are the same bytes.
pub proof fn law_encode_of_decode(s: Seq<u8>)
    ensures
        le_digits(le_value(s), s.len()) == s,
    decreases s.len(),
{
    if s.len() > 0 {
        let rest = s.subrange(1, s.len() as int);
        law_encode_of_decode(rest);
        let v = le_value(s);
        assert(v == s[0] as nat + 256 * le_value(rest));
        assert(v % 256 == s[0] as nat);
        assert(v / 256 == le_value(rest));
        assert(seq![s[0]] + rest =~= s);
    }
}

/// Reinterpreting a word as signed and back changes nothing, in either direction.
pub proof fn law_signed_words(w: u32, v: i32)
    ensures
        word32(signed32(w)) == w,
        signed32(word32(v)) == v,
{
}

/// The `i`-th byte of a number is its digit of weight `256^i`: the least significant byte comes
/// first.
pub proof fn law_bytes_are_digits(v: nat, n: nat, i: nat)
    requires
        i < n,
    ensures
        le_digits(v, n).len() == n,
        le_digits(v, n)[i as int] == (v / pow256(i)) % 256,
    decreases n,
{
    lemma_le_digits_len(v, n);
    if i > 0 {
        let j = (i - 1) as nat;
        law_bytes_are_digits(v / 256, (n - 1) as nat, j);
        lemma_pow256_positive(j);
        let p = pow256(j);
        assert((v / 256) / p == v / (256 * p)) by {
            vstd::arithmetic::div_mod::lemma_div_denominator(v as int, 256, p as int);
        }
        assert(le_digits(v, n)[i as int] == le_digits(v / 256, (n - 1) as nat)[i - 1]);
    } else {
        assert(pow256(0) == 1);
    }
}

proof fn lemma_pow256_positive(n: nat)
    ensures
        pow256(n) > 0,
    decreases n,
{
    if n > 0 {
        lemma_pow256_positive((n - 1) as nat);
    }
}

/// Eight bytes and fewer, written out: each byte counts 256 times the one before it.
pub proof fn law_values_of_bytes(s: Seq<u8>)
    ensures
        s.len() == 1 ==> le_value(s) == s[0],
        s.len() == 2 ==> le_value(s) == s[0] + 0x100 * s[1],
        s.len() == 4 ==> le_value(s) == s[0] + 0x100 * s[1] + 0x1_0000 * s[2] + 0x100_0000 * s[3],
        s.len() == 8 ==> le_value(s) == s[0] + 0x100 * s[1] + 0x1_0000 * s[2] + 0x100_0000 * s[3]
            + 0x1_0000_0000 * s[4] + 0x100_0000_0000 * s[5] + 0x1_0000_0000_0000 * s[6]
            + 0x100_0000_0000_0000 * s[7],
        s.len() <= 8 ==> le_value(s) <= 0xFFFF_FFFF_FFFF_FFFF,
{
    reveal_with_fuel(le_value, 9);
}

/// A signed number and its word differ by a multiple of `2^32`, and the word of a number that is
/// not negative is that number.
pub proof fn law_words_are_congruent(w: u32, v: i32)
    ensures
        word32(v) == v || word32(v) == v + 0x1_0000_0000,
        signed32(w) == w || signed32(w) == w - 0x1_0000_0000,
        v >= 0 <==> word32(v) == v,
        w < 0x8000_0000 <==> signed32(w) == w,
{
}

/// Two and four bytes written out.
pub proof fn lemma_le_value_small(s: Seq<u8>)
    ensures
        s.len() == 2 ==> le_value(s) == s[0] + 256 * s[1],
        s.len() == 4 ==> le_value(s) == s[0] + 256 * s[1] + 65536 * s[2] + 16777216 * s[3],
{
    reveal_with_fuel(le_value, 5);
}

/// Decodes two bytes.
pub fn u16_from_le(b0: u8, b1: u8) -> (r: u16)
    ensures
        r == le_value(seq![b0, b1]),
{
    proof {
        lemma_le_value_small(seq![b0, b1]);
    }
    b0 as u16 + 256 * (b1 as u16)
}

/// Decodes four bytes.
pub fn u32_from_le(b0: u8, b1: u8, b2: u8, b3: u8) -> (r: u32)
    ensures
        r == le_value(seq![b0, b1, b2, b3]),
{
    proof {
        lemma_le_value_small(seq![b0, b1, b2, b3]);
    }
    b0 as u32 + 256 * (b1 as u32) + 65536 * (b2 as u32) + 16777216 * (b3 as u32)
}

/// Decodes the eight bytes of `d` that start at `at`.
pub fn u64_from_le(d: &[u8], at: usize) -> (r: u64)
    requires
        at + 8 <= d@.len(),
    ensures
        r == le_value(d@.subrange(at as int, at + 8)),
{
    let lo: u32 = u32_from_le(d[at], d[at + 1], d[at + 2], d[at + 3]);
    let hi: u32 = u32_from_le(d[at + 4], d[at + 5], d[at + 6], d[at + 7]);
    proof {
        let s = d@.subrange(at as int, at + 8);
        assert(seq![d[at as int], d[at + 1], d[at + 2], d[at + 3]] =~= s.subrange(0, 4));
        assert(seq![d[at + 4], d[at + 5], d[at + 6], d[at + 7]] =~= s.subrange(4, 8));
        lemma_le_value_halves(s);
    }
    lo as u64 + 0x1_0000_0000 * (hi as u64)
}

/// Eight bytes are two groups of four.
proof fn lemma_le_value_halves(s: Seq<u8>)
    requires
        s.len() == 8,
    ensures
        le_value(s) == le_value(s.subrange(0, 4)) + 0x1_0000_0000 * le_value(s.subrange(4, 8)),
{
    let s1 = s.subrange(1, 8);
    let s2 = s1.subrange(1, 7);
    let s3 = s2.subrange(1, 6);
    let s4 = s3.subrange(1, 5);
    assert(s4 =~= s.subrange(4, 8));
    assert(le_value(s) == s[0] as nat + 256 * le_value(s1));
    assert(le_value(s1) == s[1] as nat + 256 * le_value(s2));
    assert(le_value(s2) == s[2] as nat + 256 * le_value(s3));
    assert(le_value(s3) == s[3] as nat + 256 * le_value(s4));
    lemma_le_value_small(s.subrange(0, 4));
}

/// Encodes four bytes.
pub fn u32_to_le(v: u32) -> (r: Vec<u8>)
    ensures
        r@ == le_digits(v as nat, 4),
{
    to_le(v as u64, 4)
}

/// Encodes eight bytes.
pub fn u64_to_le(v: u64) -> (r: Vec<u8>)
    ensures
        r@ == le_digits(v as nat, 8),
{
    to_le(v, 8)
}

/// Encodes the `n` lowest bytes of `v`.
fn to_le(v: u64, n: usize) -> (r: Vec<u8>)
    ensures
        r@ == le_digits(v as nat, n as nat),
{
    let mut out: Vec<u8> = Vec::new();
    let mut rest: u64 = v;
    let mut i: usize = 0;
    while i < n
        invariant
            i <= n,
            out@ + le_digits(rest as nat, (n - i) as nat) =~= le_digits(v as nat, n as nat),
        decreases n - i,
    {
        let ghost before = out@;
        out.push((rest % 256) as u8);
        proof {
            assert(out@ + le_digits((rest / 256) as nat, (n - i - 1) as nat)
                =~= before + le_digits(rest as nat, (n - i) as nat));
        }
        rest = rest / 256;
        i = i + 1;
    }
    out
}

/// Reads a word as two's complement.
pub fn to_signed32(v: u32) -> (r: i32)
    ensures
        r == signed32(v),
{
    if v < 0x8000_0000 {
        v as i32
    } else {
        (v as i64 - 0x1_0000_0000) as i32
    }
}

/// Writes a number as a two's complement word.
pub fn to_word32(v: i32) -> (r: u32)
    ensures
        r == word32(v),
{
    if v >= 0 {
        v as u32
    } else {
        (v as i64 + 0x1_0000_0000) as u32
    }
}

/// The lowest 32 bits of `v`.
pub fn low_word(v: u64) -> (r: u32)
    ensures
        r == v % 0x1_0000_0000,
{
    (v % 0x1_0000_0000) as u32
}

} // verus!
