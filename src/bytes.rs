//! Byte-order aware conversion of integers into byte sequences and back.

use vstd::prelude::*;

verus! {

/// Byte order of multi-byte values.
#[derive(Clone, Copy, Debug, PartialEq, Eq, Structural)]
pub enum Endian {
    Big,
    Little,
}

pub open spec fn be_u16(x: u16) -> Seq<u8> {
    seq![(x >> 8u16) as u8, x as u8]
}

pub open spec fn be_u32(x: u32) -> Seq<u8> {
    seq![(x >> 24u32) as u8, (x >> 16u32) as u8, (x >> 8u32) as u8, x as u8]
}

pub open spec fn be_u64(x: u64) -> Seq<u8> {
    be_u32((x >> 32u64) as u32) + be_u32(x as u32)
}

/// Bytes of `x` in the order `e`.
pub open spec fn u16_bytes(x: u16, e: Endian) -> Seq<u8> {
    if e == Endian::Big { be_u16(x) } else { be_u16(x).reverse() }
}

pub open spec fn u32_bytes(x: u32, e: Endian) -> Seq<u8> {
    if e == Endian::Big { be_u32(x) } else { be_u32(x).reverse() }
}

pub open spec fn u64_bytes(x: u64, e: Endian) -> Seq<u8> {
    if e == Endian::Big { be_u64(x) } else { be_u64(x).reverse() }
}

/// The big-endian `u32` stored at `at`.
pub open spec fn read_be_u32(s: Seq<u8>, at: int) -> u32 {
    ((s[at] as u32) << 24u32) | ((s[at + 1] as u32) << 16u32) | ((s[at + 2] as u32) << 8u32)
        | (s[at + 3] as u32)
}

/// The big-endian `u64` stored at `at`.
pub open spec fn read_be_u64(s: Seq<u8>, at: int) -> u64 {
    ((read_be_u32(s, at) as u64) << 32u64) | (read_be_u32(s, at + 4) as u64)
}

/// Concatenated encodings of a sequence of `u16` values.
pub open spec fn u16s_bytes(s: Seq<u16>, e: Endian) -> Seq<u8>
    decreases s.len(),
{
    if s.len() == 0 { Seq::empty() } else { u16s_bytes(s.drop_last(), e) + u16_bytes(s.last(), e) }
}

pub open spec fn u32s_bytes(s: Seq<u32>, e: Endian) -> Seq<u8>
    decreases s.len(),
{
    if s.len() == 0 { Seq::empty() } else { u32s_bytes(s.drop_last(), e) + u32_bytes(s.last(), e) }
}

pub open spec fn u64s_bytes(s: Seq<u64>, e: Endian) -> Seq<u8>
    decreases s.len(),
{
    if s.len() == 0 { Seq::empty() } else { u64s_bytes(s.drop_last(), e) + u64_bytes(s.last(), e) }
}

pub open spec fn i32s_bytes(s: Seq<i32>, e: Endian) -> Seq<u8>
    decreases s.len(),
{
    if s.len() == 0 {
        Seq::empty()
    } else {
        i32s_bytes(s.drop_last(), e) + u32_bytes(s.last() as u32, e)
    }
}

/// Reading back the big-endian bytes of `x` gives `x`.
pub proof fn lemma_read_be_u32(x: u32)
    ensures
        read_be_u32(be_u32(x), 0) == x,
{
    let b = be_u32(x);
    assert(((((x >> 24u32) as u8) as u32) << 24u32) | ((((x >> 16u32) as u8) as u32) << 16u32)
        | ((((x >> 8u32) as u8) as u32) << 8u32) | ((x as u8) as u32) == x) by (bit_vector);
}

/// Reading at `at` where the big-endian bytes of `x` stand gives `x`.
pub proof fn lemma_read_be_u32_at(s: Seq<u8>, at: int, x: u32)
    requires
        0 <= at,
        at + 4 <= s.len(),
        s.subrange(at, at + 4) == be_u32(x),
    ensures
        read_be_u32(s, at) == x,
{
    let b = be_u32(x);
    assert(s[at] == b[0] && s[at + 1] == b[1] && s[at + 2] == b[2] && s[at + 3] == b[3]) by {
        assert(s.subrange(at, at + 4)[0] == s[at]);
        assert(s.subrange(at, at + 4)[1] == s[at + 1]);
        assert(s.subrange(at, at + 4)[2] == s[at + 2]);
        assert(s.subrange(at, at + 4)[3] == s[at + 3]);
    }
    lemma_read_be_u32(x);
}

/// Reading at `at` where the big-endian bytes of `x` stand gives `x`.
pub proof fn lemma_read_be_u64_at(s: Seq<u8>, at: int, x: u64)
    requires
        0 <= at,
        at + 8 <= s.len(),
        s.subrange(at, at + 8) == be_u64(x),
    ensures
        read_be_u64(s, at) == x,
{
    assert(s.subrange(at, at + 4) =~= s.subrange(at, at + 8).subrange(0, 4));
    assert(s.subrange(at + 4, at + 8) =~= s.subrange(at, at + 8).subrange(4, 8));
    assert(be_u64(x).subrange(0, 4) =~= be_u32((x >> 32u64) as u32));
    assert(be_u64(x).subrange(4, 8) =~= be_u32(x as u32));
    lemma_read_be_u32_at(s, at, (x >> 32u64) as u32);
    lemma_read_be_u32_at(s, at + 4, x as u32);
    let hi = (x >> 32u64) as u32;
    let lo = x as u32;
    assert((((hi as u64) << 32u64) | (lo as u64)) == x) by (bit_vector)
        requires
            hi == (x >> 32u64) as u32,
            lo == x as u32,
    ;
}

/// Length of a big-endian encoded list of `i32`, and where each cell stands.
pub proof fn lemma_i32s_bytes(s: Seq<i32>)
    ensures
        i32s_bytes(s, Endian::Big).len() == 4 * s.len(),
        forall|k: int|
            0 <= k < s.len() ==> #[trigger] i32s_bytes(s, Endian::Big).subrange(4 * k, 4 * k + 4)
                == be_u32(s[k] as u32),
    decreases s.len(),
{
    if s.len() > 0 {
        let init = s.drop_last();
        lemma_i32s_bytes(init);
        let b = i32s_bytes(s, Endian::Big);
        assert forall|k: int| 0 <= k < s.len() implies #[trigger] b.subrange(4 * k, 4 * k + 4)
            == be_u32(s[k] as u32) by {
            if k < init.len() {
                assert(b.subrange(4 * k, 4 * k + 4) =~= i32s_bytes(init, Endian::Big).subrange(
                    4 * k,
                    4 * k + 4,
                ));
            } else {
                assert(b.subrange(4 * k, 4 * k + 4) =~= be_u32(s.last() as u32));
            }
        }
    }
}

/// Reads the big-endian `u32` at `at`.
pub fn get_be_u32(data: &[u8], at: usize) -> (r: u32)
    requires
        at + 4 <= data@.len(),
    ensures
        r == read_be_u32(data@, at as int),
{
    ((data[at] as u32) << 24u32) | ((data[at + 1] as u32) << 16u32) | ((data[at + 2] as u32)
        << 8u32) | (data[at + 3] as u32)
}

/// Reads the big-endian `u64` at `at`.
pub fn get_be_u64(data: &[u8], at: usize) -> (r: u64)
    requires
        at + 8 <= data@.len() <= usize::MAX,
    ensures
        r == read_be_u64(data@, at as int),
{
    let hi = get_be_u32(data, at);
    let lo = get_be_u32(data, at + 4);
    ((hi as u64) << 32u64) | (lo as u64)
}

/// Appends the bytes of `x` in the order `e`.
pub fn push_u16(out: &mut Vec<u8>, x: u16, e: Endian)
    ensures
        final(out)@ == old(out)@ + u16_bytes(x, e),
{
    let a = (x >> 8u16) as u8;
    let b = x as u8;
    match e {
        Endian::Big => {
            out.push(a);
            out.push(b);
        },
        Endian::Little => {
            out.push(b);
            out.push(a);
        },
    }
    assert(final(out)@ =~= old(out)@ + u16_bytes(x, e));
}

/// Appends the bytes of `x` in the order `e`.
pub fn push_u32(out: &mut Vec<u8>, x: u32, e: Endian)
    ensures
        final(out)@ == old(out)@ + u32_bytes(x, e),
{
    let a = (x >> 24u32) as u8;
    let b = (x >> 16u32) as u8;
    let c = (x >> 8u32) as u8;
    let d = x as u8;
    match e {
        Endian::Big => {
            out.push(a);
            out.push(b);
            out.push(c);
            out.push(d);
        },
        Endian::Little => {
            out.push(d);
            out.push(c);
            out.push(b);
            out.push(a);
        },
    }
    assert(final(out)@ =~= old(out)@ + u32_bytes(x, e));
}

/// Appends the bytes of `x` in the order `e`.
pub fn push_u64(out: &mut Vec<u8>, x: u64, e: Endian)
    ensures
        final(out)@ == old(out)@ + u64_bytes(x, e),
{
    let hi = (x >> 32u64) as u32;
    let lo = x as u32;
    match e {
        Endian::Big => {
            push_u32(out, hi, e);
            push_u32(out, lo, e);
        },
        Endian::Little => {
            push_u32(out, lo, e);
            push_u32(out, hi, e);
        },
    }
    assert(final(out)@ =~= old(out)@ + u64_bytes(x, e));
}

/// Appends the bytes of each value of `s` in the order `e`.
pub fn push_u16s(out: &mut Vec<u8>, s: &Vec<u16>, e: Endian)
    ensures
        final(out)@ == old(out)@ + u16s_bytes(s@, e),
{
    let mut i: usize = 0;
    while i < s.len()
        invariant
            i <= s@.len(),
            out@ == old(out)@ + u16s_bytes(s@.take(i as int), e),
        decreases s@.len() - i,
    {
        push_u16(out, s[i], e);
        assert(s@.take(i + 1).drop_last() =~= s@.take(i as int));
        i += 1;
    }
    assert(s@.take(i as int) =~= s@);
}

/// Appends the bytes of each value of `s` in the order `e`.
pub fn push_u32s(out: &mut Vec<u8>, s: &Vec<u32>, e: Endian)
    ensures
        final(out)@ == old(out)@ + u32s_bytes(s@, e),
{
    let mut i: usize = 0;
    while i < s.len()
        invariant
            i <= s@.len(),
            out@ == old(out)@ + u32s_bytes(s@.take(i as int), e),
        decreases s@.len() - i,
    {
        push_u32(out, s[i], e);
        assert(s@.take(i + 1).drop_last() =~= s@.take(i as int));
        i += 1;
    }
    assert(s@.take(i as int) =~= s@);
}

/// Appends the bytes of each value of `s` in the order `e`.
pub fn push_u64s(out: &mut Vec<u8>, s: &Vec<u64>, e: Endian)
    ensures
        final(out)@ == old(out)@ + u64s_bytes(s@, e),
{
    let mut i: usize = 0;
    while i < s.len()
        invariant
            i <= s@.len(),
            out@ == old(out)@ + u64s_bytes(s@.take(i as int), e),
        decreases s@.len() - i,
    {
        push_u64(out, s[i], e);
        assert(s@.take(i + 1).drop_last() =~= s@.take(i as int));
        i += 1;
    }
    assert(s@.take(i as int) =~= s@);
}

/// Appends the bytes of each cell of `s` in the order `e`.
pub fn push_i32s(out: &mut Vec<u8>, s: &[i32; 9], e: Endian)
    ensures
        final(out)@ == old(out)@ + i32s_bytes(s@, e),
{
    let mut i: usize = 0;
    while i < s.len()
        invariant
            i <= s@.len(),
            out@ == old(out)@ + i32s_bytes(s@.take(i as int), e),
        decreases s@.len() - i,
    {
        push_u32(out, s[i] as u32, e);
        assert(s@.take(i + 1).drop_last() =~= s@.take(i as int));
        i += 1;
    }
    assert(s@.take(i as int) =~= s@);
}

/// Reads `b` as big-endian `u16` values.
pub fn u16s_from_be(b: &[u8]) -> (r: Vec<u16>)
    requires
        b@.len() % 2 == 0,
    ensures
        u16s_bytes(r@, Endian::Big) == b@,
{
    let mut out: Vec<u16> = Vec::new();
    let mut i: usize = 0;
    while i < b.len() / 2
        invariant
            b@.len() % 2 == 0,
            i <= b@.len() / 2,
            out@.len() == i,
            u16s_bytes(out@, Endian::Big) == b@.take(2 * i),
        decreases b@.len() / 2 - i,
    {
        let hi = b[2 * i];
        let lo = b[2 * i + 1];
        let x: u16 = ((hi as u16) << 8u16) | (lo as u16);
        assert(((x >> 8u16) as u8) == hi && (x as u8) == lo) by (bit_vector)
            requires
                x == ((hi as u16) << 8u16) | (lo as u16),
        ;
        let ghost prev = out@;
        out.push(x);
        assert(out@.drop_last() == prev);
        assert(b@.take(2 * i + 2) =~= b@.take(2 * i) + be_u16(x));
        i += 1;
    }
    assert(b@.take(2 * i) =~= b@);
    out
}

/// Reads `b` as big-endian `u32` values.
pub fn u32s_from_be(b: &[u8]) -> (r: Vec<u32>)
    requires
        b@.len() % 4 == 0,
    ensures
        u32s_bytes(r@, Endian::Big) == b@,
{
    let mut out: Vec<u32> = Vec::new();
    let mut i: usize = 0;
    while i < b.len() / 4
        invariant
            b@.len() % 4 == 0,
            i <= b@.len() / 4,
            out@.len() == i,
            u32s_bytes(out@, Endian::Big) == b@.take(4 * i),
        decreases b@.len() / 4 - i,
    {
        let b0 = b[4 * i];
        let b1 = b[4 * i + 1];
        let b2 = b[4 * i + 2];
        let b3 = b[4 * i + 3];
        let x: u32 = ((b0 as u32) << 24u32) | ((b1 as u32) << 16u32) | ((b2 as u32) << 8u32) | (
        b3 as u32);
        assert(((x >> 24u32) as u8) == b0 && ((x >> 16u32) as u8) == b1 && ((x >> 8u32) as u8)
            == b2 && (x as u8) == b3) by (bit_vector)
            requires
                x == ((b0 as u32) << 24u32) | ((b1 as u32) << 16u32) | ((b2 as u32) << 8u32) | (
                b3 as u32),
        ;
        let ghost prev = out@;
        out.push(x);
        assert(out@.drop_last() == prev);
        assert(b@.take(4 * i + 4) =~= b@.take(4 * i) + be_u32(x));
        i += 1;
    }
    assert(b@.take(4 * i) =~= b@);
    out
}

/// Appends `s` to `out`.
pub fn push_all(out: &mut Vec<u8>, s: &[u8])
    ensures
        final(out)@ == old(out)@ + s@,
{
    let mut i: usize = 0;
    while i < s.len()
        invariant
            i <= s@.len(),
            out@ == old(out)@ + s@.take(i as int),
        decreases s@.len() - i,
    {
        out.push(s[i]);
        assert(s@.take(i + 1) =~= s@.take(i as int).push(s@[i as int]));
        i += 1;
    }
    assert(s@.take(i as int) =~= s@);
}

} // verus!
