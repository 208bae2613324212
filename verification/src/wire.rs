//! Fixed-width integer fields of the wire layout.
//!
//! Numbers travel least significant byte first; identities travel most
//! significant byte first, as the sixteen bytes of their canonical form.
//!
//! The definitions of the encodings are opaque, so that proofs about whole
//! messages go by the lemmas of this module and stay cheap. A proof that
//! needs the bytes of a particular number reveals the definition first, as
//! in `reveal(le32)`.

use vstd::prelude::*;

verus! {

/// The four bytes of `v`, least significant first.
#[verifier::opaque]
pub open spec fn le32(v: u32) -> Seq<u8> {
    seq![
        (v % 256) as u8,
        (v / 256 % 256) as u8,
        (v / 65536 % 256) as u8,
        (v / 16777216) as u8,
    ]
}

/// The number whose least-significant-first bytes start at `at` in `b`.
#[verifier::opaque]
pub open spec fn le32_at(b: Seq<u8>, at: int) -> u32 {
    (b[at] as int + b[at + 1] as int * 256 + b[at + 2] as int * 65536 + b[at + 3] as int
        * 16777216) as u32
}

/// Appends the four bytes of `v` to `out`.
pub fn put_u32(out: &mut Vec<u8>, v: u32)
    ensures
        final(out)@ == old(out)@ + le32(v),
{
    proof {
        reveal(le32);
    }
    out.push((v % 256) as u8);
    out.push((v / 256 % 256) as u8);
    out.push((v / 65536 % 256) as u8);
    out.push((v / 16777216) as u8);
    assert(out@ =~= old(out)@ + le32(v));
}

/// Reads the number stored in the four bytes from `at` on.
pub fn get_u32(b: &[u8], at: usize) -> (v: u32)
    requires
        at + 4 <= b.len(),
    ensures
        v == le32_at(b@, at as int),
{
    proof {
        reveal(le32_at);
    }
    let b0: u32 = b[at] as u32;
    let b1: u32 = b[at + 1] as u32;
    let b2: u32 = b[at + 2] as u32;
    let b3: u32 = b[at + 3] as u32;
    b0 + b1 * 256 + b2 * 65536 + b3 * 16777216
}

/// Reading back what `le32` wrote gives the number again.
pub proof fn lemma_le32_read(v: u32, pre: Seq<u8>, post: Seq<u8>)
    ensures
        le32(v).len() == 4,
        le32_at(pre + le32(v) + post, pre.len() as int) == v,
{
    reveal(le32);
    reveal(le32_at);
    let b = pre + le32(v) + post;
    let at = pre.len() as int;
    assert(b[at] == le32(v)[0]);
    assert(b[at + 1] == le32(v)[1]);
    assert(b[at + 2] == le32(v)[2]);
    assert(b[at + 3] == le32(v)[3]);
}

/// The four base-256 digits of a number are the digits it was built from.
proof fn lemma_digits(b0: int, b1: int, b2: int, b3: int)
    requires
        0 <= b0 < 256,
        0 <= b1 < 256,
        0 <= b2 < 256,
        0 <= b3 < 256,
    ensures
        ({
            let x = b0 + b1 * 256 + b2 * 65536 + b3 * 16777216;
            &&& 0 <= x < 4294967296
            &&& x % 256 == b0
            &&& x / 256 % 256 == b1
            &&& x / 65536 % 256 == b2
            &&& x / 16777216 == b3
        }),
{
    let x = b0 + b1 * 256 + b2 * 65536 + b3 * 16777216;
    let h1 = b1 + b2 * 256 + b3 * 65536;
    let h2 = b2 + b3 * 256;
    assert(x == h1 * 256 + b0);
    assert(x / 256 == h1 && x % 256 == b0);
    assert(x == h2 * 65536 + (b0 + b1 * 256));
    assert(x / 65536 == h2);
    assert(h1 == h2 * 256 + b1);
    assert(h1 % 256 == b1);
    assert(h2 % 256 == b2);
    assert(x == b3 * 16777216 + (b0 + b1 * 256 + b2 * 65536));
    assert(x / 16777216 == b3);
}

/// Writing what was read from four bytes gives those bytes again.
pub proof fn lemma_le32_write(b: Seq<u8>, at: int)
    requires
        0 <= at,
        at + 4 <= b.len(),
    ensures
        le32(le32_at(b, at)) == b.subrange(at, at + 4),
{
    reveal(le32);
    reveal(le32_at);
    lemma_digits(b[at] as int, b[at + 1] as int, b[at + 2] as int, b[at + 3] as int);
    assert(le32(le32_at(b, at)) =~= b.subrange(at, at + 4));
}

/// The two's-complement bit pattern of a signed number.
pub open spec fn pattern_of(v: i32) -> u32 {
    if v >= 0 {
        v as u32
    } else {
        (v + 4294967296) as u32
    }
}

/// The signed number that a two's-complement bit pattern stands for.
pub open spec fn signed_of(p: u32) -> i32 {
    if p < 2147483648 {
        p as i32
    } else {
        (p - 4294967296) as i32
    }
}

/// Appends the four bytes of the two's-complement pattern of `v` to `out`.
pub fn put_i32(out: &mut Vec<u8>, v: i32)
    ensures
        final(out)@ == old(out)@ + le32(pattern_of(v)),
{
    let p: u32 = if v >= 0 {
        v as u32
    } else {
        (v as i64 + 4294967296) as u32
    };
    put_u32(out, p);
}

/// Reads the signed number stored in the four bytes from `at` on.
pub fn get_i32(b: &[u8], at: usize) -> (v: i32)
    requires
        at + 4 <= b.len(),
    ensures
        v == signed_of(le32_at(b@, at as int)),
{
    let p: u32 = get_u32(b, at);
    if p < 2147483648 {
        p as i32
    } else {
        (p as i64 - 4294967296) as i32
    }
}

/// Patterns and signed numbers correspond one to one.
pub proof fn lemma_signed_pattern(v: i32, p: u32)
    ensures
        signed_of(pattern_of(v)) == v,
        pattern_of(signed_of(p)) == p,
{
}

/// The eight bytes of `v`, least significant first.
#[verifier::opaque]
pub open spec fn le64(v: u64) -> Seq<u8> {
    le32((v % 4294967296) as u32) + le32((v / 4294967296) as u32)
}

/// The number whose eight least-significant-first bytes start at `at`.
#[verifier::opaque]
pub open spec fn le64_at(b: Seq<u8>, at: int) -> u64 {
    (le32_at(b, at) as int + le32_at(b, at + 4) as int * 4294967296) as u64
}

/// Appends the eight bytes of `v` to `out`.
pub fn put_u64(out: &mut Vec<u8>, v: u64)
    ensures
        final(out)@ == old(out)@ + le64(v),
{
    proof {
        reveal(le64);
    }
    put_u32(out, (v % 4294967296) as u32);
    put_u32(out, (v / 4294967296) as u32);
    assert(out@ =~= old(out)@ + le64(v));
}

/// Reads the number stored in the eight bytes from `at` on.
pub fn get_u64(b: &[u8], at: usize) -> (v: u64)
    requires
        at + 8 <= b.len(),
    ensures
        v == le64_at(b@, at as int),
{
    proof {
        reveal(le64_at);
    }
    let lo: u64 = get_u32(b, at) as u64;
    let hi: u64 = get_u32(b, at + 4) as u64;
    lo + hi * 4294967296
}

/// Reading back what `le64` wrote gives the number again.
pub proof fn lemma_le64_read(v: u64, pre: Seq<u8>, post: Seq<u8>)
    ensures
        le64(v).len() == 8,
        le64_at(pre + le64(v) + post, pre.len() as int) == v,
{
    reveal(le64);
    reveal(le64_at);
    let lo = (v % 4294967296) as u32;
    let hi = (v / 4294967296) as u32;
    let b = pre + le64(v) + post;
    lemma_le32_read(lo, pre, le32(hi) + post);
    lemma_le32_read(hi, pre + le32(lo), post);
    assert(b =~= pre + le32(lo) + (le32(hi) + post));
    assert(b =~= (pre + le32(lo)) + le32(hi) + post);
}

/// A number built from two 32-bit halves splits into those halves.
proof fn lemma_halves(lo: int, hi: int)
    requires
        0 <= lo < 4294967296,
        0 <= hi < 4294967296,
    ensures
        ({
            let v = lo + hi * 4294967296;
            &&& 0 <= v <= u64::MAX
            &&& v % 4294967296 == lo
            &&& v / 4294967296 == hi
        }),
{
}

/// Writing what was read from eight bytes gives those bytes again.
pub proof fn lemma_le64_write(b: Seq<u8>, at: int)
    requires
        0 <= at,
        at + 8 <= b.len(),
    ensures
        le64(le64_at(b, at)) == b.subrange(at, at + 8),
{
    reveal(le64);
    reveal(le64_at);
    let lo = le32_at(b, at);
    let hi = le32_at(b, at + 4);
    let v = le64_at(b, at);
    lemma_halves(lo as int, hi as int);
    assert((v % 4294967296) as u32 == lo);
    assert((v / 4294967296) as u32 == hi);
    assert(le64(v) == le32(lo) + le32(hi));
    lemma_le32_write(b, at);
    lemma_le32_write(b, at + 4);
    assert(b.subrange(at, at + 8) =~= b.subrange(at, at + 4) + b.subrange(at + 4, at + 8));
}

/// The four bytes of `v`, most significant first.
#[verifier::opaque]
pub open spec fn be32(v: u32) -> Seq<u8> {
    seq![
        (v / 16777216) as u8,
        (v / 65536 % 256) as u8,
        (v / 256 % 256) as u8,
        (v % 256) as u8,
    ]
}

/// The number whose most-significant-first bytes start at `at` in `b`.
#[verifier::opaque]
pub open spec fn be32_at(b: Seq<u8>, at: int) -> u32 {
    (b[at] as int * 16777216 + b[at + 1] as int * 65536 + b[at + 2] as int * 256 + b[at
        + 3] as int) as u32
}

/// The 32-bit word of `v` that starts at bit `32 * k`, for `k` below four.
pub open spec fn word(v: u128, k: int) -> u32 {
    if k == 0 {
        (v % 0x1_0000_0000) as u32
    } else if k == 1 {
        (v / 0x1_0000_0000 % 0x1_0000_0000) as u32
    } else if k == 2 {
        (v / 0x1_0000_0000_0000_0000 % 0x1_0000_0000) as u32
    } else {
        (v / 0x1_0000_0000_0000_0000_0000_0000) as u32
    }
}

/// The sixteen bytes of an identity, most significant first.
#[verifier::opaque]
pub open spec fn be128(v: u128) -> Seq<u8> {
    be32(word(v, 3)) + be32(word(v, 2)) + be32(word(v, 1)) + be32(word(v, 0))
}

/// The identity whose sixteen most-significant-first bytes start at `at`.
#[verifier::opaque]
pub open spec fn be128_at(b: Seq<u8>, at: int) -> u128 {
    (be32_at(b, at) as int * 0x1_0000_0000_0000_0000_0000_0000 + be32_at(b, at + 4) as int
        * 0x1_0000_0000_0000_0000 + be32_at(b, at + 8) as int * 0x1_0000_0000 + be32_at(
        b,
        at + 12,
    ) as int) as u128
}

fn put_be32(out: &mut Vec<u8>, v: u32)
    ensures
        final(out)@ == old(out)@ + be32(v),
{
    proof {
        reveal(be32);
    }
    out.push((v / 16777216) as u8);
    out.push((v / 65536 % 256) as u8);
    out.push((v / 256 % 256) as u8);
    out.push((v % 256) as u8);
    assert(out@ =~= old(out)@ + be32(v));
}

fn get_be32(b: &[u8], at: usize) -> (v: u32)
    requires
        at + 4 <= b.len(),
    ensures
        v == be32_at(b@, at as int),
{
    proof {
        reveal(be32_at);
    }
    let b0: u32 = b[at] as u32;
    let b1: u32 = b[at + 1] as u32;
    let b2: u32 = b[at + 2] as u32;
    let b3: u32 = b[at + 3] as u32;
    b0 * 16777216 + b1 * 65536 + b2 * 256 + b3
}

/// Appends the sixteen bytes of the identity `v` to `out`.
pub fn put_u128(out: &mut Vec<u8>, v: u128)
    ensures
        final(out)@ == old(out)@ + be128(v),
{
    proof {
        reveal(be128);
    }
    put_be32(out, (v / 0x1_0000_0000_0000_0000_0000_0000) as u32);
    put_be32(out, (v / 0x1_0000_0000_0000_0000 % 0x1_0000_0000) as u32);
    put_be32(out, (v / 0x1_0000_0000 % 0x1_0000_0000) as u32);
    put_be32(out, (v % 0x1_0000_0000) as u32);
    assert(out@ =~= old(out)@ + be128(v));
}

/// Reads the identity stored in the sixteen bytes from `at` on.
pub fn get_u128(b: &[u8], at: usize) -> (v: u128)
    requires
        at + 16 <= b.len(),
    ensures
        v == be128_at(b@, at as int),
{
    proof {
        reveal(be128_at);
    }
    let w3: u128 = get_be32(b, at) as u128;
    let w2: u128 = get_be32(b, at + 4) as u128;
    let w1: u128 = get_be32(b, at + 8) as u128;
    let w0: u128 = get_be32(b, at + 12) as u128;
    w3 * 0x1_0000_0000_0000_0000_0000_0000 + w2 * 0x1_0000_0000_0000_0000 + w1 * 0x1_0000_0000
        + w0
}

proof fn lemma_be32_read(v: u32, pre: Seq<u8>, post: Seq<u8>)
    ensures
        be32(v).len() == 4,
        be32_at(pre + be32(v) + post, pre.len() as int) == v,
{
    reveal(be32);
    reveal(be32_at);
    let b = pre + be32(v) + post;
    let at = pre.len() as int;
    assert(b[at] == be32(v)[0]);
    assert(b[at + 1] == be32(v)[1]);
    assert(b[at + 2] == be32(v)[2]);
    assert(b[at + 3] == be32(v)[3]);
}

proof fn lemma_be32_write(b: Seq<u8>, at: int)
    requires
        0 <= at,
        at + 4 <= b.len(),
    ensures
        be32(be32_at(b, at)) == b.subrange(at, at + 4),
{
    reveal(be32);
    reveal(be32_at);
    lemma_digits(b[at + 3] as int, b[at + 2] as int, b[at + 1] as int, b[at] as int);
    assert(be32(be32_at(b, at)) =~= b.subrange(at, at + 4));
}

/// A number built from four 32-bit words splits into those words.
proof fn lemma_words(w0: int, w1: int, w2: int, w3: int)
    requires
        0 <= w0 < 0x1_0000_0000,
        0 <= w1 < 0x1_0000_0000,
        0 <= w2 < 0x1_0000_0000,
        0 <= w3 < 0x1_0000_0000,
    ensures
        ({
            let v = w3 * 0x1_0000_0000_0000_0000_0000_0000 + w2 * 0x1_0000_0000_0000_0000 + w1
                * 0x1_0000_0000 + w0;
            &&& 0 <= v <= u128::MAX
            &&& v % 0x1_0000_0000 == w0
            &&& v / 0x1_0000_0000 % 0x1_0000_0000 == w1
            &&& v / 0x1_0000_0000_0000_0000 % 0x1_0000_0000 == w2
            &&& v / 0x1_0000_0000_0000_0000_0000_0000 == w3
        }),
{
    let v = w3 * 0x1_0000_0000_0000_0000_0000_0000 + w2 * 0x1_0000_0000_0000_0000 + w1
        * 0x1_0000_0000 + w0;
    let h1 = w3 * 0x1_0000_0000_0000_0000 + w2 * 0x1_0000_0000 + w1;
    let h2 = w3 * 0x1_0000_0000 + w2;
    assert(v == h1 * 0x1_0000_0000 + w0);
    assert(v / 0x1_0000_0000 == h1 && v % 0x1_0000_0000 == w0);
    assert(h1 == h2 * 0x1_0000_0000 + w1);
    assert(h1 % 0x1_0000_0000 == w1);
    assert(v == h2 * 0x1_0000_0000_0000_0000 + (w1 * 0x1_0000_0000 + w0));
    assert(v / 0x1_0000_0000_0000_0000 == h2);
    assert(h2 % 0x1_0000_0000 == w2);
    assert(v == w3 * 0x1_0000_0000_0000_0000_0000_0000 + (w2 * 0x1_0000_0000_0000_0000 + w1
        * 0x1_0000_0000 + w0));
    assert(v / 0x1_0000_0000_0000_0000_0000_0000 == w3);
}

/// An identity is the sum of its four words, each at its place.
proof fn lemma_word_sum(v: u128)
    ensures
        v == word(v, 3) as int * 0x1_0000_0000_0000_0000_0000_0000 + word(v, 2) as int
            * 0x1_0000_0000_0000_0000 + word(v, 1) as int * 0x1_0000_0000 + word(v, 0) as int,
{
    let q1 = v as int / 0x1_0000_0000;
    let q2 = v as int / 0x1_0000_0000_0000_0000;
    let q3 = v as int / 0x1_0000_0000_0000_0000_0000_0000;
    assert(v == q1 * 0x1_0000_0000 + v as int % 0x1_0000_0000);
    assert(q2 == q1 / 0x1_0000_0000);
    assert(q1 == q2 * 0x1_0000_0000 + q1 % 0x1_0000_0000);
    assert(q3 == q2 / 0x1_0000_0000);
    assert(q2 == q3 * 0x1_0000_0000 + q2 % 0x1_0000_0000);
}

/// Reading back what `be128` wrote gives the identity again.
pub proof fn lemma_be128_read(v: u128, pre: Seq<u8>, post: Seq<u8>)
    ensures
        be128(v).len() == 16,
        be128_at(pre + be128(v) + post, pre.len() as int) == v,
{
    reveal(be128);
    reveal(be128_at);
    let b = pre + be128(v) + post;
    let at = pre.len() as int;
    let s3 = be32(word(v, 3));
    let s2 = be32(word(v, 2));
    let s1 = be32(word(v, 1));
    let s0 = be32(word(v, 0));
    lemma_be32_read(word(v, 3), pre, s2 + s1 + s0 + post);
    lemma_be32_read(word(v, 2), pre + s3, s1 + s0 + post);
    lemma_be32_read(word(v, 1), pre + s3 + s2, s0 + post);
    lemma_be32_read(word(v, 0), pre + s3 + s2 + s1, post);
    assert(b =~= pre + s3 + (s2 + s1 + s0 + post));
    assert(b =~= (pre + s3) + s2 + (s1 + s0 + post));
    assert(b =~= (pre + s3 + s2) + s1 + (s0 + post));
    assert(b =~= (pre + s3 + s2 + s1) + s0 + post);
    lemma_word_sum(v);
}

/// Writing what was read from sixteen bytes gives those bytes again.
pub proof fn lemma_be128_write(b: Seq<u8>, at: int)
    requires
        0 <= at,
        at + 16 <= b.len(),
    ensures
        be128(be128_at(b, at)) == b.subrange(at, at + 16),
{
    reveal(be128);
    reveal(be128_at);
    let w3 = be32_at(b, at);
    let w2 = be32_at(b, at + 4);
    let w1 = be32_at(b, at + 8);
    let w0 = be32_at(b, at + 12);
    let v = be128_at(b, at);
    lemma_words(w0 as int, w1 as int, w2 as int, w3 as int);
    assert(word(v, 0) == w0);
    assert(word(v, 1) == w1);
    assert(word(v, 2) == w2);
    assert(word(v, 3) == w3);
    lemma_be32_write(b, at);
    lemma_be32_write(b, at + 4);
    lemma_be32_write(b, at + 8);
    lemma_be32_write(b, at + 12);
    assert(b.subrange(at, at + 16) =~= b.subrange(at, at + 4) + b.subrange(at + 4, at + 8)
        + b.subrange(at + 8, at + 12) + b.subrange(at + 12, at + 16));
}

/// Appending bytes leaves what was stored in front of them as it was.
pub proof fn lemma_append_keeps(a: Seq<u8>, c: Seq<u8>)
    ensures
        forall|at: int|
            0 <= at && at + 4 <= a.len() ==> #[trigger] le32_at(a + c, at) == le32_at(a, at),
        forall|at: int|
            0 <= at && at + 8 <= a.len() ==> #[trigger] le64_at(a + c, at) == le64_at(a, at),
        forall|at: int|
            0 <= at && at + 16 <= a.len() ==> #[trigger] be128_at(a + c, at) == be128_at(a, at),
{
    reveal(le32_at);
    reveal(le64_at);
    reveal(be32_at);
    reveal(be128_at);
}

/// A number appended to some bytes is read back from where they ended.
pub proof fn lemma_le32_append(a: Seq<u8>, v: u32)
    ensures
        (a + le32(v)).len() == a.len() + 4,
        le32_at(a + le32(v), a.len() as int) == v,
{
    lemma_le32_read(v, a, Seq::empty());
    assert(a + le32(v) + Seq::empty() =~= a + le32(v));
}

/// A 64-bit number appended to some bytes is read back from where they ended.
pub proof fn lemma_le64_append(a: Seq<u8>, v: u64)
    ensures
        (a + le64(v)).len() == a.len() + 8,
        le64_at(a + le64(v), a.len() as int) == v,
{
    lemma_le64_read(v, a, Seq::empty());
    assert(a + le64(v) + Seq::empty() =~= a + le64(v));
}

/// An identity appended to some bytes is read back from where they ended.
pub proof fn lemma_be128_append(a: Seq<u8>, v: u128)
    ensures
        (a + be128(v)).len() == a.len() + 16,
        be128_at(a + be128(v), a.len() as int) == v,
{
    lemma_be128_read(v, a, Seq::empty());
    assert(a + be128(v) + Seq::empty() =~= a + be128(v));
}

} // verus!
