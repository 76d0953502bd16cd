//! The wire framing the reference connection behaviours and the demo
//! servers exchange: every payload travels behind an eight-byte
//! little-endian length header.

use vstd::prelude::*;

verus! {

/// 256 to the `k`-th power.
pub open spec fn pow256(k: int) -> int
    decreases k,
{
    if k <= 0 {
        1
    } else {
        256 * pow256(k - 1)
    }
}

/// The value of little-endian bytes, least significant first.
pub open spec fn le_value(s: Seq<u8>) -> int
    decreases s.len(),
{
    if s.len() == 0 {
        0
    } else {
        s[0] + 256 * le_value(s.drop_first())
    }
}

/// The `k` little-endian bytes of a non-negative number.
pub open spec fn le_bytes(n: int, k: int) -> Seq<u8>
    decreases k,
{
    if k <= 0 {
        Seq::empty()
    } else {
        seq![(n % 256) as u8] + le_bytes(n / 256, k - 1)
    }
}

/// A little-endian byte string encodes a value below 256 to its length.
pub proof fn lemma_le_value_bound(s: Seq<u8>)
    ensures
        0 <= le_value(s) < pow256(s.len() as int),
    decreases s.len(),
{
    if s.len() == 0 {
    } else {
        lemma_le_value_bound(s.drop_first());
        assert(le_value(s) < pow256(s.len() as int)) by (nonlinear_arith)
            requires
                le_value(s) == s[0] + 256 * le_value(s.drop_first()),
                0 <= s[0] < 256,
                0 <= le_value(s.drop_first()) < pow256(s.len() - 1),
                pow256(s.len() as int) == 256 * pow256(s.len() - 1),
        ;
        assert(0 <= le_value(s));
    }
}

/// Reading the bytes of a number gives the number back, for any number the
/// byte count can hold.
pub proof fn lemma_le_round_trip(n: int, k: int)
    requires
        0 <= k,
        0 <= n < pow256(k),
    ensures
        le_bytes(n, k).len() == k,
        le_value(le_bytes(n, k)) == n,
    decreases k,
{
    if k <= 0 {
        assert(pow256(0) == 1);
    } else {
        vstd::arithmetic::div_mod::lemma_fundamental_div_mod(n, 256);
        assert(0 <= n / 256 < pow256(k - 1)) by (nonlinear_arith)
            requires
                0 <= n < pow256(k),
                pow256(k) == 256 * pow256(k - 1),
                n == 256 * (n / 256) + n % 256,
                0 <= n % 256 < 256,
        ;
        lemma_le_round_trip(n / 256, k - 1);
        assert(le_bytes(n, k).drop_first() =~= le_bytes(n / 256, k - 1));
        assert(le_bytes(n, k)[0] == (n % 256) as u8);
    }
}

/// A little-endian byte string is the encoding of its own value: the
/// encoding is canonical, so equal values mean equal bytes.
pub proof fn lemma_le_bytes_canonical(s: Seq<u8>)
    ensures
        le_bytes(le_value(s), s.len() as int) =~= s,
    decreases s.len(),
{
    if s.len() > 0 {
        lemma_le_bytes_canonical(s.drop_first());
        lemma_le_value_bound(s.drop_first());
        let n = le_value(s);
        vstd::arithmetic::div_mod::lemma_fundamental_div_mod(n, 256);
        assert(n % 256 == s[0] && n / 256 == le_value(s.drop_first())) by (nonlinear_arith)
            requires
                n == s[0] + 256 * le_value(s.drop_first()),
                0 <= s[0] < 256,
                0 <= le_value(s.drop_first()),
                n == 256 * (n / 256) + n % 256,
                0 <= n % 256 < 256,
        ;
        assert(le_bytes(n, s.len() as int).drop_first() =~= le_bytes(n / 256, s.len() - 1));
    }
}

proof fn lemma_pow256_values()
    ensures
        pow256(7) == 0x100000000000000,
        pow256(8) == 0x10000000000000000,
{
    reveal_with_fuel(pow256, 9);
}

/// The eight-byte little-endian length header for a payload of `len` bytes.
pub fn encode_len(len: u64) -> (h: [u8; 8])
    ensures
        h@ == le_bytes(len as int, 8),
        le_value(h@) == len,
{
    let b0 = (len % 256) as u8;
    let r1 = len / 256;
    let b1 = (r1 % 256) as u8;
    let r2 = r1 / 256;
    let b2 = (r2 % 256) as u8;
    let r3 = r2 / 256;
    let b3 = (r3 % 256) as u8;
    let r4 = r3 / 256;
    let b4 = (r4 % 256) as u8;
    let r5 = r4 / 256;
    let b5 = (r5 % 256) as u8;
    let r6 = r5 / 256;
    let b6 = (r6 % 256) as u8;
    let r7 = r6 / 256;
    let b7 = (r7 % 256) as u8;
    let h = [b0, b1, b2, b3, b4, b5, b6, b7];
    proof {
        vstd::arithmetic::div_mod::lemma_div_is_ordered(len as int, u64::MAX as int, 256);
        vstd::arithmetic::div_mod::lemma_div_is_ordered(r1 as int, 0xffffffffffffff, 256);
        vstd::arithmetic::div_mod::lemma_div_is_ordered(r2 as int, 0xffffffffffff, 256);
        vstd::arithmetic::div_mod::lemma_div_is_ordered(r3 as int, 0xffffffffff, 256);
        vstd::arithmetic::div_mod::lemma_div_is_ordered(r4 as int, 0xffffffff, 256);
        vstd::arithmetic::div_mod::lemma_div_is_ordered(r5 as int, 0xffffff, 256);
        vstd::arithmetic::div_mod::lemma_div_is_ordered(r6 as int, 0xffff, 256);
        assert(r7 <= 0xff);
        vstd::arithmetic::div_mod::lemma_fundamental_div_mod(len as int, 256);
        vstd::arithmetic::div_mod::lemma_fundamental_div_mod(r1 as int, 256);
        vstd::arithmetic::div_mod::lemma_fundamental_div_mod(r2 as int, 256);
        vstd::arithmetic::div_mod::lemma_fundamental_div_mod(r3 as int, 256);
        vstd::arithmetic::div_mod::lemma_fundamental_div_mod(r4 as int, 256);
        vstd::arithmetic::div_mod::lemma_fundamental_div_mod(r5 as int, 256);
        vstd::arithmetic::div_mod::lemma_fundamental_div_mod(r6 as int, 256);
        assert(h@.skip(7).drop_first() =~= h@.skip(8));
        assert(h@.skip(6).drop_first() =~= h@.skip(7));
        assert(h@.skip(5).drop_first() =~= h@.skip(6));
        assert(h@.skip(4).drop_first() =~= h@.skip(5));
        assert(h@.skip(3).drop_first() =~= h@.skip(4));
        assert(h@.skip(2).drop_first() =~= h@.skip(3));
        assert(h@.skip(1).drop_first() =~= h@.skip(2));
        assert(h@.skip(0).drop_first() =~= h@.skip(1));
        assert(h@.skip(8) =~= Seq::<u8>::empty());
        assert(le_value(h@.skip(8)) == 0);
        assert(le_value(h@.skip(7)) == b7);
        assert(le_value(h@.skip(6)) == b6 + 256 * (b7 as int));
        assert(le_value(h@.skip(6)) == r6);
        assert(le_value(h@.skip(5)) == r5);
        assert(le_value(h@.skip(4)) == r4);
        assert(le_value(h@.skip(3)) == r3);
        assert(le_value(h@.skip(2)) == r2);
        assert(le_value(h@.skip(1)) == r1);
        assert(h@.skip(0) =~= h@);
        assert(le_value(h@) == len);
        lemma_le_bytes_canonical(h@);
    }
    h
}

/// The payload length a received eight-byte little-endian header announces.
pub fn decode_len(h: &[u8; 8]) -> (n: u64)
    ensures
        n == le_value(h@),
{
    let mut n: u64 = 0;
    let mut i: usize = 8;
    while i > 0
        invariant
            i <= 8,
            h@.len() == 8,
            n == le_value(h@.skip(i as int)),
        decreases i,
    {
        i = i - 1;
        proof {
            lemma_pow256_values();
            lemma_le_value_bound(h@.skip(i as int));
            lemma_le_value_bound(h@.skip(i + 1));
            lemma_pow256_mono(8 - (i + 1), 7);
            assert(h@.skip(i as int).drop_first() =~= h@.skip(i + 1));
            assert(h@.skip(i as int)[0] == h@[i as int]);
        }
        n = (h[i] as u64) + 256 * n;
    }
    proof {
        assert(h@.skip(0) =~= h@);
    }
    n
}

proof fn lemma_pow256_mono(a: int, b: int)
    requires
        a <= b,
    ensures
        pow256(a) <= pow256(b),
    decreases b - a,
{
    if a < b && b > 0 {
        lemma_pow256_mono(a, b - 1);
        lemma_pow256_pos(b - 1);
        assert(pow256(b) == 256 * pow256(b - 1));
    }
}

proof fn lemma_pow256_pos(k: int)
    ensures
        pow256(k) >= 1,
    decreases k,
{
    if k > 0 {
        lemma_pow256_pos(k - 1);
    }
}

} // verus!
