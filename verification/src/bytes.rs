//! Fixed-width big-endian integer encodings used by the preimage and by
//! the binary timestamp format.
use vstd::prelude::*;

verus! {

/// The four big-endian bytes of a 32-bit integer.
pub open spec fn spec_be32(x: u32) -> Seq<u8> {
    seq![
        ((x >> 24) & 0xff) as u8,
        ((x >> 16) & 0xff) as u8,
        ((x >> 8) & 0xff) as u8,
        (x & 0xff) as u8,
    ]
}

/// The 32-bit integer read back from four big-endian bytes.
pub open spec fn spec_be32_val(s: Seq<u8>) -> u32
    recommends
        s.len() == 4,
{
    (((s[0] as u32) << 24) | ((s[1] as u32) << 16) | ((s[2] as u32) << 8) | (s[3] as u32)) as u32
}

/// The eight big-endian bytes of a 64-bit integer.
pub open spec fn spec_be64(x: u64) -> Seq<u8> {
    seq![
        ((x >> 56) & 0xff) as u8,
        ((x >> 48) & 0xff) as u8,
        ((x >> 40) & 0xff) as u8,
        ((x >> 32) & 0xff) as u8,
        ((x >> 24) & 0xff) as u8,
        ((x >> 16) & 0xff) as u8,
        ((x >> 8) & 0xff) as u8,
        (x & 0xff) as u8,
    ]
}

/// The 64-bit integer read back from eight big-endian bytes.
pub open spec fn spec_be64_val(s: Seq<u8>) -> u64
    recommends
        s.len() == 8,
{
    (((s[0] as u64) << 56) | ((s[1] as u64) << 48) | ((s[2] as u64) << 40) | ((s[3] as u64) << 32)
        | ((s[4] as u64) << 24) | ((s[5] as u64) << 16) | ((s[6] as u64) << 8) | (
    s[7] as u64)) as u64
}

/// Reading back the four big-endian bytes of `x` yields `x` again.
pub proof fn lemma_be32_roundtrip(x: u32)
    ensures
        spec_be32_val(spec_be32(x)) == x,
{
    let b0 = ((x >> 24) & 0xff) as u8;
    let b1 = ((x >> 16) & 0xff) as u8;
    let b2 = ((x >> 8) & 0xff) as u8;
    let b3 = (x & 0xff) as u8;
    assert((((b0 as u32) << 24) | ((b1 as u32) << 16) | ((b2 as u32) << 8) | (b3 as u32)) as u32
        == x) by (bit_vector)
        requires
            b0 == ((x >> 24) & 0xff) as u8 && b1 == ((x >> 16) & 0xff) as u8 && b2 == ((x >> 8)
                & 0xff) as u8 && b3 == (x & 0xff) as u8,
    ;
}

/// Two 32-bit integers with the same big-endian bytes are equal.
pub proof fn lemma_be32_injective(x: u32, y: u32)
    requires
        spec_be32(x) == spec_be32(y),
    ensures
        x == y,
{
    lemma_be32_roundtrip(x);
    lemma_be32_roundtrip(y);
}

/// Reading back the eight big-endian bytes of `x` yields `x` again.
pub proof fn lemma_be64_roundtrip(x: u64)
    ensures
        spec_be64_val(spec_be64(x)) == x,
{
    let b0 = ((x >> 56) & 0xff) as u8;
    let b1 = ((x >> 48) & 0xff) as u8;
    let b2 = ((x >> 40) & 0xff) as u8;
    let b3 = ((x >> 32) & 0xff) as u8;
    let b4 = ((x >> 24) & 0xff) as u8;
    let b5 = ((x >> 16) & 0xff) as u8;
    let b6 = ((x >> 8) & 0xff) as u8;
    let b7 = (x & 0xff) as u8;
    assert((((b0 as u64) << 56) | ((b1 as u64) << 48) | ((b2 as u64) << 40) | ((b3 as u64) << 32)
        | ((b4 as u64) << 24) | ((b5 as u64) << 16) | ((b6 as u64) << 8) | (b7 as u64)) as u64
        == x) by (bit_vector)
        requires
            b0 == ((x >> 56) & 0xff) as u8 && b1 == ((x >> 48) & 0xff) as u8 && b2 == ((x >> 40)
                & 0xff) as u8 && b3 == ((x >> 32) & 0xff) as u8 && b4 == ((x >> 24) & 0xff) as u8
                && b5 == ((x >> 16) & 0xff) as u8 && b6 == ((x >> 8) & 0xff) as u8 && b7 == (x
                & 0xff) as u8,
    ;
}

/// Two 64-bit integers with the same big-endian bytes are equal.
pub proof fn lemma_be64_injective(x: u64, y: u64)
    requires
        spec_be64(x) == spec_be64(y),
    ensures
        x == y,
{
    lemma_be64_roundtrip(x);
    lemma_be64_roundtrip(y);
}

/// Encoding the integer read from four bytes yields those bytes again.
pub proof fn lemma_be32_val_roundtrip(s: Seq<u8>)
    requires
        s.len() == 4,
    ensures
        spec_be32(spec_be32_val(s)) == s,
{
    let s0 = s[0];
    let s1 = s[1];
    let s2 = s[2];
    let s3 = s[3];
    let x = spec_be32_val(s);
    assert(((x >> 24) & 0xff) as u8 == s0 && ((x >> 16) & 0xff) as u8 == s1 && ((x >> 8)
        & 0xff) as u8 == s2 && (x & 0xff) as u8 == s3) by (bit_vector)
        requires
            x == (((s0 as u32) << 24) | ((s1 as u32) << 16) | ((s2 as u32) << 8) | (
            s3 as u32)) as u32,
    ;
    assert(spec_be32(x) =~= s);
}

/// Encoding the integer read from eight bytes yields those bytes again.
pub proof fn lemma_be64_val_roundtrip(s: Seq<u8>)
    requires
        s.len() == 8,
    ensures
        spec_be64(spec_be64_val(s)) == s,
{
    let s0 = s[0];
    let s1 = s[1];
    let s2 = s[2];
    let s3 = s[3];
    let s4 = s[4];
    let s5 = s[5];
    let s6 = s[6];
    let s7 = s[7];
    let x = spec_be64_val(s);
    assert(((x >> 56) & 0xff) as u8 == s0 && ((x >> 48) & 0xff) as u8 == s1 && ((x >> 40)
        & 0xff) as u8 == s2 && ((x >> 32) & 0xff) as u8 == s3 && ((x >> 24) & 0xff) as u8 == s4 && (
    (x >> 16) & 0xff) as u8 == s5 && ((x >> 8) & 0xff) as u8 == s6 && (x & 0xff) as u8 == s7)
        by (bit_vector)
        requires
            x == (((s0 as u64) << 56) | ((s1 as u64) << 48) | ((s2 as u64) << 40) | ((
            s3 as u64) << 32) | ((s4 as u64) << 24) | ((s5 as u64) << 16) | ((s6 as u64) << 8) | (
            s7 as u64)) as u64,
    ;
    assert(spec_be64(x) =~= s);
}

/// Casting a signed 64-bit value to unsigned and back is the identity.
pub proof fn lemma_i64_u64_roundtrip(x: i64)
    ensures
        ((x as u64) as i64) == x,
{
    assert(((x as u64) as i64) == x) by (bit_vector);
}

/// Appends the four big-endian bytes of `x` to `out`.
pub fn push_be32(out: &mut Vec<u8>, x: u32)
    ensures
        final(out)@ == old(out)@ + spec_be32(x),
{
    proof {
        assert((x >> 24) & 0xff < 256 && (x >> 16) & 0xff < 256 && (x >> 8) & 0xff < 256 && x
            & 0xff < 256) by (bit_vector);
    }
    out.push(((x >> 24) & 0xff) as u8);
    out.push(((x >> 16) & 0xff) as u8);
    out.push(((x >> 8) & 0xff) as u8);
    out.push((x & 0xff) as u8);
    assert(out@ =~= old(out)@ + spec_be32(x));
}

/// Appends the eight big-endian bytes of `x` to `out`.
pub fn push_be64(out: &mut Vec<u8>, x: u64)
    ensures
        final(out)@ == old(out)@ + spec_be64(x),
{
    proof {
        assert((x >> 56) & 0xff < 256 && (x >> 48) & 0xff < 256 && (x >> 40) & 0xff < 256 && (x
            >> 32) & 0xff < 256 && (x >> 24) & 0xff < 256 && (x >> 16) & 0xff < 256 && (x >> 8)
            & 0xff < 256 && x & 0xff < 256) by (bit_vector);
    }
    out.push(((x >> 56) & 0xff) as u8);
    out.push(((x >> 48) & 0xff) as u8);
    out.push(((x >> 40) & 0xff) as u8);
    out.push(((x >> 32) & 0xff) as u8);
    out.push(((x >> 24) & 0xff) as u8);
    out.push(((x >> 16) & 0xff) as u8);
    out.push(((x >> 8) & 0xff) as u8);
    out.push((x & 0xff) as u8);
    assert(out@ =~= old(out)@ + spec_be64(x));
}

/// Reads a 32-bit integer from four big-endian bytes of `s` starting at `at`.
pub fn read_be32(s: &Vec<u8>, at: usize) -> (r: u32)
    requires
        at + 4 <= s@.len(),
    ensures
        r == spec_be32_val(s@.subrange(at as int, at as int + 4)),
{
    let n = s.len();
    let r = ((s[at] as u32) << 24) | ((s[at + 1] as u32) << 16) | ((s[at + 2] as u32) << 8) | (s[at
        + 3] as u32);
    proof {
        let sub = s@.subrange(at as int, at as int + 4);
        assert(sub[0] == s@[at as int] && sub[1] == s@[at as int + 1] && sub[2] == s@[at as int + 2]
            && sub[3] == s@[at as int + 3]);
    }
    r
}

/// Reads a 64-bit integer from eight big-endian bytes of `s` starting at `at`.
pub fn read_be64(s: &Vec<u8>, at: usize) -> (r: u64)
    requires
        at + 8 <= s@.len(),
    ensures
        r == spec_be64_val(s@.subrange(at as int, at as int + 8)),
{
    let n = s.len();
    let r = ((s[at] as u64) << 56) | ((s[at + 1] as u64) << 48) | ((s[at + 2] as u64) << 40) | ((
    s[at + 3] as u64) << 32) | ((s[at + 4] as u64) << 24) | ((s[at + 5] as u64) << 16) | ((s[at
        + 6] as u64) << 8) | (s[at + 7] as u64);
    proof {
        let sub = s@.subrange(at as int, at as int + 8);
        assert(sub[0] == s@[at as int] && sub[1] == s@[at as int + 1] && sub[2] == s@[at as int + 2]
            && sub[3] == s@[at as int + 3] && sub[4] == s@[at as int + 4] && sub[5] == s@[at as int
            + 5] && sub[6] == s@[at as int + 6] && sub[7] == s@[at as int + 7]);
    }
    r
}

} // verus!
