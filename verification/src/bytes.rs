//! Little-endian encoding of fixed-width integers.
use vstd::prelude::*;

verus! {

/// The `width` low-order base-256 digits of `n`, least significant first.
pub open spec fn le_bytes(n: nat, width: nat) -> Seq<u8>
    decreases width,
{
    if width == 0 {
        Seq::empty()
    } else {
        seq![(n % 256) as u8] + le_bytes(n / 256, (width - 1) as nat)
    }
}

/// The number whose base-256 digits, least significant first, are `s`.
pub open spec fn le_value(s: Seq<u8>) -> nat
    decreases s.len(),
{
    if s.len() == 0 {
        0
    } else {
        s[0] as nat + 256 * le_value(s.drop_first())
    }
}

/// The number of distinct values of `width` bytes.
pub open spec fn le_bound(width: nat) -> nat
    decreases width,
{
    if width == 0 {
        1
    } else {
        256 * le_bound((width - 1) as nat)
    }
}

/// The number in the `width` bytes of `b` at `at`.
pub open spec fn le_at(b: Seq<u8>, at: int, width: int) -> nat {
    le_value(b.subrange(at, at + width))
}

/// The two's-complement bit pattern of a signed 64-bit value.
pub open spec fn unsigned_of(x: i64) -> u64 {
    if x >= 0 {
        x as u64
    } else {
        (x + 0x1_0000_0000_0000_0000) as u64
    }
}

/// The signed 64-bit value of a two's-complement bit pattern.
pub open spec fn signed_of(u: u64) -> i64 {
    if u <= 0x7fff_ffff_ffff_ffff {
        u as i64
    } else {
        (u - 0x1_0000_0000_0000_0000) as i64
    }
}

/// The two's-complement bit pattern of a signed 32-bit value.
pub open spec fn unsigned32_of(x: i32) -> u32 {
    if x >= 0 {
        x as u32
    } else {
        (x + 0x1_0000_0000) as u32
    }
}

/// The signed 32-bit value of a two's-complement bit pattern.
pub open spec fn signed32_of(u: u32) -> i32 {
    if u <= 0x7fff_ffff {
        u as i32
    } else {
        (u - 0x1_0000_0000) as i32
    }
}

pub proof fn lemma_le_bytes_len(n: nat, width: nat)
    ensures
        le_bytes(n, width).len() == width,
    decreases width,
{
    if width > 0 {
        lemma_le_bytes_len(n / 256, (width - 1) as nat);
    }
}

pub proof fn lemma_bounds()
    ensures
        le_bound(1) == 0x100,
        le_bound(4) == 0x1_0000_0000,
        le_bound(8) == 0x1_0000_0000_0000_0000,
{
    reveal_with_fuel(le_bound, 9);
}

/// Decoding what was encoded gives the number back.
pub proof fn lemma_value_of_bytes(n: nat, width: nat)
    requires
        n < le_bound(width),
    ensures
        le_value(le_bytes(n, width)) == n,
    decreases width,
{
    if width > 0 {
        let rest = le_bytes(n / 256, (width - 1) as nat);
        lemma_value_of_bytes(n / 256, (width - 1) as nat);
        assert(le_bytes(n, width).drop_first() =~= rest);
    }
}

/// Encoding what was decoded gives the bytes back.
pub proof fn lemma_bytes_of_value(s: Seq<u8>)
    ensures
        le_value(s) < le_bound(s.len()),
        le_bytes(le_value(s), s.len()) =~= s,
    decreases s.len(),
{
    if s.len() > 0 {
        let rest = s.drop_first();
        lemma_bytes_of_value(rest);
        assert(le_value(s) % 256 == s[0] as nat);
        assert(le_value(s) / 256 == le_value(rest));
        assert(le_bytes(le_value(s), s.len()) =~= seq![s[0]] + rest);
        assert(seq![s[0]] + rest =~= s);
    }
}

/// A number written at `at` is read back there.
pub proof fn lemma_read_back(b: Seq<u8>, at: int, n: nat, width: nat)
    requires
        0 <= at,
        at + width <= b.len(),
        b.subrange(at, at + width) == le_bytes(n, width),
        n < le_bound(width),
    ensures
        le_at(b, at, width as int) == n,
{
    lemma_value_of_bytes(n, width);
}

/// A number that the piece `d` of `b`, which starts at `at`, holds at its position `k` is read
/// back there.
pub proof fn lemma_read_within(b: Seq<u8>, at: int, d: Seq<u8>, k: int, n: nat, width: nat)
    requires
        0 <= at,
        0 <= k,
        k + width <= d.len(),
        at + d.len() <= b.len(),
        b.subrange(at, at + d.len()) == d,
        d.subrange(k, k + width) == le_bytes(n, width),
        n < le_bound(width),
    ensures
        le_at(b, at + k, width as int) == n,
{
    assert(b.subrange(at + k, at + k + width) =~= b.subrange(at, at + d.len()).subrange(
        k,
        k + width,
    ));
    lemma_read_back(b, at + k, n, width);
}

/// What is read at `at`, written again, is what stands there.
pub proof fn lemma_write_back(b: Seq<u8>, at: int, width: nat)
    requires
        0 <= at,
        at + width <= b.len(),
    ensures
        le_at(b, at, width as int) < le_bound(width),
        le_bytes(le_at(b, at, width as int), width) == b.subrange(at, at + width),
{
    lemma_bytes_of_value(b.subrange(at, at + width));
}

/// What stands above the digits that are encoded does not matter.
proof fn lemma_high_digits(k: nat, m: nat, width: nat)
    ensures
        le_bytes(m + k * le_bound(width), width) == le_bytes(m, width),
    decreases width,
{
    if width > 0 {
        let bound = le_bound((width - 1) as nat);
        let n = m + k * le_bound(width);
        let high = k * bound;
        assert(k * (256 * bound) == 256 * (k * bound)) by (nonlinear_arith);
        assert(n == m + 256 * high);
        assert(n % 256 == m % 256);
        assert(n / 256 == m / 256 + high);
        lemma_high_digits(k, m / 256, (width - 1) as nat);
    }
}

/// Only the four low-order digits of a number enter its four-byte encoding.
pub proof fn lemma_low_bytes(n: nat)
    ensures
        le_bytes(n % 0x1_0000_0000, 4) == le_bytes(n, 4),
{
    let k = n / 0x1_0000_0000;
    let m = n % 0x1_0000_0000;
    lemma_bounds();
    lemma_high_digits(k, m, 4);
    assert(m + k * 0x1_0000_0000 == n);
}

/// Appends the four low-order bytes of a length.
pub fn push_len(out: &mut Vec<u8>, n: usize)
    ensures
        final(out)@ == old(out)@ + le_bytes(n as nat, 4),
{
    proof {
        lemma_low_bytes(n as nat);
    }
    push_u32(out, (n as u64 % 0x1_0000_0000) as u32);
}

pub fn to_unsigned(x: i64) -> (u: u64)
    ensures
        u == unsigned_of(x),
{
    if x >= 0 {
        x as u64
    } else {
        u64::MAX - (-(x + 1)) as u64
    }
}

pub fn to_signed(u: u64) -> (x: i64)
    ensures
        x == signed_of(u),
{
    if u <= 0x7fff_ffff_ffff_ffff {
        u as i64
    } else {
        -((u64::MAX - u) as i64) - 1
    }
}

pub fn to_signed32(u: u32) -> (x: i32)
    ensures
        x == signed32_of(u),
{
    if u <= 0x7fff_ffff {
        u as i32
    } else {
        -((u32::MAX - u) as i32) - 1
    }
}

pub fn to_unsigned32(x: i32) -> (u: u32)
    ensures
        u == unsigned32_of(x),
{
    if x >= 0 {
        x as u32
    } else {
        u32::MAX - (-(x + 1)) as u32
    }
}

pub fn push_u32(out: &mut Vec<u8>, x: u32)
    ensures
        final(out)@ == old(out)@ + le_bytes(x as nat, 4),
{
    let mut v: u32 = x;
    let mut i: usize = 0;
    while i < 4
        invariant
            i <= 4,
            old(out)@ + le_bytes(x as nat, 4) == out@ + le_bytes(v as nat, (4 - i) as nat),
        decreases 4 - i,
    {
        let ghost before = out@;
        let ghost rest = le_bytes((v / 256) as nat, (3 - i) as nat);
        out.push((v % 256) as u8);
        proof {
            assert(le_bytes(v as nat, (4 - i) as nat) =~= seq![(v % 256) as u8] + rest);
            assert(before + (seq![(v % 256) as u8] + rest) =~= out@ + rest);
        }
        v = v / 256;
        i += 1;
    }
    proof {
        assert(out@ + le_bytes(v as nat, 0) =~= out@);
    }
}

pub fn push_u64(out: &mut Vec<u8>, x: u64)
    ensures
        final(out)@ == old(out)@ + le_bytes(x as nat, 8),
{
    let mut v: u64 = x;
    let mut i: usize = 0;
    while i < 8
        invariant
            i <= 8,
            old(out)@ + le_bytes(x as nat, 8) == out@ + le_bytes(v as nat, (8 - i) as nat),
        decreases 8 - i,
    {
        let ghost before = out@;
        let ghost rest = le_bytes((v / 256) as nat, (7 - i) as nat);
        out.push((v % 256) as u8);
        proof {
            assert(le_bytes(v as nat, (8 - i) as nat) =~= seq![(v % 256) as u8] + rest);
            assert(before + (seq![(v % 256) as u8] + rest) =~= out@ + rest);
        }
        v = v / 256;
        i += 1;
    }
    proof {
        assert(out@ + le_bytes(v as nat, 0) =~= out@);
    }
}

pub fn push_i64(out: &mut Vec<u8>, x: i64)
    ensures
        final(out)@ == old(out)@ + le_bytes(unsigned_of(x) as nat, 8),
{
    push_u64(out, to_unsigned(x));
}

pub fn push_i32(out: &mut Vec<u8>, x: i32)
    ensures
        final(out)@ == old(out)@ + le_bytes(unsigned32_of(x) as nat, 4),
{
    push_u32(out, to_unsigned32(x));
}

/// Appends `src` to `out`.
pub fn push_bytes(out: &mut Vec<u8>, src: &[u8])
    ensures
        final(out)@ == old(out)@ + src@,
{
    let mut i: usize = 0;
    while i < src.len()
        invariant
            i <= src.len(),
            out@ == old(out)@ + src@.take(i as int),
        decreases src.len() - i,
    {
        out.push(src[i]);
        i += 1;
        proof {
            assert(src@.take(i as int) =~= src@.take(i - 1).push(src@[i - 1]));
        }
    }
    proof {
        assert(src@.take(i as int) =~= src@);
    }
}

/// The bytes of `src` from `start` up to `end`, in a vector of their own.
pub fn copy_range(src: &[u8], start: usize, end: usize) -> (out: Vec<u8>)
    requires
        start <= end <= src@.len(),
    ensures
        out@ == src@.subrange(start as int, end as int),
{
    let mut out: Vec<u8> = Vec::new();
    let mut i: usize = start;
    while i < end
        invariant
            start <= i <= end <= src@.len(),
            out@ == src@.subrange(start as int, i as int),
        decreases end - i,
    {
        out.push(src[i]);
        i += 1;
        proof {
            assert(src@.subrange(start as int, i as int) =~= src@.subrange(
                start as int,
                i - 1,
            ).push(src@[i - 1]));
        }
    }
    out
}

pub fn bytes_equal(a: &[u8], b: &[u8]) -> (r: bool)
    ensures
        r == (a@ == b@),
{
    if a.len() != b.len() {
        return false;
    }
    let mut i: usize = 0;
    while i < a.len()
        invariant
            i <= a.len(),
            a@.len() == b@.len(),
            forall|j: int| 0 <= j < i ==> a@[j] == b@[j],
        decreases a.len() - i,
    {
        if a[i] != b[i] {
            assert(a@[i as int] != b@[i as int]);
            return false;
        }
        i += 1;
    }
    assert(a@ =~= b@);
    true
}

/// Reads the four bytes at `at`.
pub fn read_u32(b: &[u8], at: usize) -> (x: u32)
    requires
        at + 4 <= b@.len(),
    ensures
        x as nat == le_at(b@, at as int, 4),
{
    let ghost s = b@.subrange(at as int, at + 4);
    let x: u32 = b[at] as u32 + 256 * (b[at + 1] as u32 + 256 * (b[at + 2] as u32 + 256 * (
    b[at + 3] as u32)));
    proof {
        reveal_with_fuel(le_value, 5);
        let s1 = s.drop_first();
        let s2 = s1.drop_first();
        let s3 = s2.drop_first();
        assert(s3.drop_first().len() == 0);
        assert(le_value(s3) == b@[at + 3] as nat);
        assert(le_value(s2) == b@[at + 2] as nat + 256 * le_value(s3));
        assert(le_value(s1) == b@[at + 1] as nat + 256 * le_value(s2));
        assert(le_value(s) == b@[at as int] as nat + 256 * le_value(s1));
    }
    x
}

proof fn lemma_value_split(s: Seq<u8>, k: int)
    requires
        0 <= k <= s.len(),
    ensures
        le_value(s) == le_value(s.take(k)) + le_bound(k as nat) * le_value(s.skip(k)),
    decreases k,
{
    if k == 0 {
        assert(s.skip(0) =~= s);
        assert(le_bound(0) * le_value(s) == le_value(s)) by (nonlinear_arith)
            requires
                le_bound(0) == 1,
        ;
    } else {
        let rest = s.drop_first();
        lemma_value_split(rest, k - 1);
        assert(s.take(k).drop_first() =~= rest.take(k - 1));
        assert(s.skip(k) =~= rest.skip(k - 1));
        assert(le_value(s.take(k)) == s[0] as nat + 256 * le_value(rest.take(k - 1)));
        let a = le_bound((k - 1) as nat);
        let v = le_value(s.skip(k));
        assert(256 * (a * v) == (256 * a) * v) by (nonlinear_arith);
        assert(le_bound(k as nat) == 256 * a);
        assert(le_value(s) == s[0] as nat + 256 * le_value(rest));
    }
}

/// Reads the eight bytes at `at`.
pub fn read_u64(b: &[u8], at: usize) -> (x: u64)
    requires
        at + 8 <= b@.len(),
    ensures
        x as nat == le_at(b@, at as int, 8),
{
    let lo: u32 = read_u32(b, at);
    let _len: usize = b.len();
    let hi: u32 = read_u32(b, at + 4);
    proof {
        let s = b@.subrange(at as int, at + 8);
        lemma_value_split(s, 4);
        lemma_bounds();
        assert(s.take(4) =~= b@.subrange(at as int, at + 4));
        assert(s.skip(4) =~= b@.subrange(at + 4, at + 8));
        assert((hi as u64) * 0x1_0000_0000 <= 0xffff_ffff * 0x1_0000_0000);
        let bound = le_bound(4);
        assert(bound * hi == hi * 0x1_0000_0000) by (nonlinear_arith)
            requires
                bound == 0x1_0000_0000,
        ;
    }
    lo as u64 + (hi as u64) * 0x1_0000_0000
}

} // verus!
