//! Fixed-width big-endian integers, the building block of every header on the
//! wire.

use vstd::prelude::*;
use vstd::arithmetic::div_mod::{lemma_fundamental_div_mod, lemma_fundamental_div_mod_converse};

verus! {

/// The four bytes that stand for `n`, most significant first.
pub open spec fn spec_be32(n: u32) -> Seq<u8> {
    seq![
        (n / 0x100_0000) as u8,
        (n / 0x1_0000 % 0x100) as u8,
        (n / 0x100 % 0x100) as u8,
        (n % 0x100) as u8,
    ]
}

/// The number that the first four bytes of `s` stand for, most significant
/// first.
pub open spec fn spec_from_be32(s: Seq<u8>) -> u32
    recommends
        s.len() >= 4,
{
    (s[0] as int * 0x100_0000 + s[1] as int * 0x1_0000 + s[2] as int * 0x100 + s[3] as int) as u32
}

/// The eight bytes that stand for `n`, most significant first.
pub open spec fn spec_be64(n: u64) -> Seq<u8> {
    spec_be32((n / 0x1_0000_0000) as u32) + spec_be32((n % 0x1_0000_0000) as u32)
}

/// The number that the first eight bytes of `s` stand for, most significant
/// first.
pub open spec fn spec_from_be64(s: Seq<u8>) -> u64
    recommends
        s.len() >= 8,
{
    (spec_from_be32(s.subrange(0, 4)) as int * 0x1_0000_0000 + spec_from_be32(
        s.subrange(4, 8),
    ) as int) as u64
}

/// The four digits of `n` to the base 256 make up `n`.
proof fn lemma_digits_of(n: u32)
    ensures
        n == (n / 0x100_0000) * 0x100_0000 + (n / 0x1_0000 % 0x100) * 0x1_0000 + (n / 0x100
            % 0x100) * 0x100 + n % 0x100,
        0 <= n / 0x100_0000 < 0x100,
{
    let x = n as int;
    let q1 = x / 0x100;
    let q2 = q1 / 0x100;
    let q3 = q2 / 0x100;
    lemma_fundamental_div_mod(x, 0x100);
    lemma_fundamental_div_mod(q1, 0x100);
    lemma_fundamental_div_mod(q2, 0x100);
    assert(q2 == x / 0x1_0000) by {
        lemma_fundamental_div_mod_converse(x, 0x1_0000, q2, (q1 % 0x100) * 0x100 + x % 0x100);
    }
    assert(q3 == x / 0x100_0000) by {
        lemma_fundamental_div_mod_converse(
            x,
            0x100_0000,
            q3,
            (q2 % 0x100) * 0x1_0000 + (q1 % 0x100) * 0x100 + x % 0x100,
        );
    }
}

/// A number built from four digits to the base 256 has those digits.
proof fn lemma_number_of(a: int, b: int, c: int, d: int)
    requires
        0 <= a < 0x100,
        0 <= b < 0x100,
        0 <= c < 0x100,
        0 <= d < 0x100,
    ensures
        ({
            let n = a * 0x100_0000 + b * 0x1_0000 + c * 0x100 + d;
            &&& 0 <= n <= u32::MAX
            &&& n / 0x100_0000 == a
            &&& n / 0x1_0000 % 0x100 == b
            &&& n / 0x100 % 0x100 == c
            &&& n % 0x100 == d
        }),
{
    let n = a * 0x100_0000 + b * 0x1_0000 + c * 0x100 + d;
    lemma_fundamental_div_mod_converse(n, 0x100_0000, a, b * 0x1_0000 + c * 0x100 + d);
    lemma_fundamental_div_mod_converse(n, 0x1_0000, a * 0x100 + b, c * 0x100 + d);
    lemma_fundamental_div_mod_converse(a * 0x100 + b, 0x100, a, b);
    lemma_fundamental_div_mod_converse(n, 0x100, a * 0x1_0000 + b * 0x100 + c, d);
    lemma_fundamental_div_mod_converse(a * 0x1_0000 + b * 0x100 + c, 0x100, a * 0x100 + b, c);
}

/// Reading back what `spec_be32` wrote gives the number that was written,
/// whatever follows the four bytes.
pub proof fn lemma_be32_round_trip(n: u32, rest: Seq<u8>)
    ensures
        spec_be32(n).len() == 4,
        spec_from_be32(spec_be32(n) + rest) == n,
{
    let s = spec_be32(n) + rest;
    lemma_digits_of(n);
    assert(s[0] == spec_be32(n)[0]);
    assert(s[1] == spec_be32(n)[1]);
    assert(s[2] == spec_be32(n)[2]);
    assert(s[3] == spec_be32(n)[3]);
}

/// Writing what `spec_from_be32` read gives back the four bytes that were read.
pub proof fn lemma_be32_inverse(s: Seq<u8>)
    requires
        s.len() >= 4,
    ensures
        spec_be32(spec_from_be32(s)) == s.subrange(0, 4),
{
    lemma_number_of(s[0] as int, s[1] as int, s[2] as int, s[3] as int);
    assert(spec_be32(spec_from_be32(s)) =~= s.subrange(0, 4));
}

/// Reading back what `spec_be64` wrote gives the number that was written,
/// whatever follows the eight bytes.
pub proof fn lemma_be64_round_trip(n: u64, rest: Seq<u8>)
    ensures
        spec_be64(n).len() == 8,
        spec_from_be64(spec_be64(n) + rest) == n,
{
    let hi = (n / 0x1_0000_0000) as u32;
    let lo = (n % 0x1_0000_0000) as u32;
    let s = spec_be64(n) + rest;
    lemma_fundamental_div_mod(n as int, 0x1_0000_0000);
    lemma_be32_round_trip(hi, Seq::empty());
    lemma_be32_round_trip(lo, Seq::empty());
    assert(s.subrange(0, 4) =~= spec_be32(hi) + Seq::<u8>::empty());
    assert(s.subrange(4, 8) =~= spec_be32(lo) + Seq::<u8>::empty());
}

/// Writing what `spec_from_be64` read gives back the eight bytes that were
/// read.
pub proof fn lemma_be64_inverse(s: Seq<u8>)
    requires
        s.len() >= 8,
    ensures
        spec_be64(spec_from_be64(s)) == s.subrange(0, 8),
{
    let a = s.subrange(0, 4);
    let b = s.subrange(4, 8);
    let n = spec_from_be64(s);
    lemma_fundamental_div_mod_converse(
        n as int,
        0x1_0000_0000,
        spec_from_be32(a) as int,
        spec_from_be32(b) as int,
    );
    lemma_be32_inverse(a);
    lemma_be32_inverse(b);
    assert(a.subrange(0, 4) =~= a);
    assert(b.subrange(0, 4) =~= b);
    assert(a + b =~= s.subrange(0, 8));
}

/// Appends the big-endian form of `n` to `out`.
pub fn put_be32(out: &mut Vec<u8>, n: u32)
    ensures
        final(out)@ == old(out)@ + spec_be32(n),
{
    out.push((n / 0x100_0000) as u8);
    out.push((n / 0x1_0000 % 0x100) as u8);
    out.push((n / 0x100 % 0x100) as u8);
    out.push((n % 0x100) as u8);
    assert(out@ =~= old(out)@ + spec_be32(n));
}

/// Appends the big-endian form of `n` to `out`.
pub fn put_be64(out: &mut Vec<u8>, n: u64)
    ensures
        final(out)@ == old(out)@ + spec_be64(n),
{
    put_be32(out, (n / 0x1_0000_0000) as u32);
    put_be32(out, (n % 0x1_0000_0000) as u32);
    assert(out@ =~= old(out)@ + spec_be64(n));
}

/// Reads the big-endian number that starts at `at`.
pub fn get_be32(buf: &[u8], at: usize) -> (n: u32)
    requires
        at + 4 <= buf@.len(),
    ensures
        n == spec_from_be32(buf@.subrange(at as int, at + 4)),
{
    let b0: u32 = buf[at] as u32;
    let b1: u32 = buf[at + 1] as u32;
    let b2: u32 = buf[at + 2] as u32;
    let b3: u32 = buf[at + 3] as u32;
    proof {
        lemma_number_of(b0 as int, b1 as int, b2 as int, b3 as int);
    }
    b0 * 0x100_0000 + b1 * 0x1_0000 + b2 * 0x100 + b3
}

/// Reads the big-endian number that starts at `at`.
pub fn get_be64(buf: &[u8], at: usize) -> (n: u64)
    requires
        at + 8 <= buf@.len(),
    ensures
        n == spec_from_be64(buf@.subrange(at as int, at + 8)),
{
    let len: usize = buf.len();
    assert(at + 8 <= len);
    let hi: u64 = get_be32(buf, at) as u64;
    let lo: u64 = get_be32(buf, at + 4) as u64;
    proof {
        let s = buf@.subrange(at as int, at + 8);
        assert(s.subrange(0, 4) =~= buf@.subrange(at as int, at + 4));
        assert(s.subrange(4, 8) =~= buf@.subrange(at + 4, at + 8));
    }
    hi * 0x1_0000_0000 + lo
}

} // verus!
