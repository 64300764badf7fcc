//! The expiry instant of a link and its fixed-width, versioned binary
//! encoding: one version byte, eight big-endian bytes of unix seconds,
//! four big-endian bytes of nanoseconds.  The encoding preserves the
//! instant exactly, to the nanosecond.
use vstd::prelude::*;
use crate::bytes::{
    spec_be64,
    spec_be32,
    spec_be64_val,
    spec_be32_val,
    push_be64,
    push_be32,
    read_be64,
    read_be32,
    lemma_be64_roundtrip,
    lemma_be32_roundtrip,
    lemma_be64_val_roundtrip,
    lemma_be32_val_roundtrip,
    lemma_i64_u64_roundtrip,
};

verus! {

/// The version byte of the binary timestamp encoding.
pub const TIMESTAMP_VERSION: u8 = 1;

/// The number of bytes of the binary timestamp encoding.
pub const TIMESTAMP_BYTES: usize = 13;

/// Nanoseconds must stay below one second.
pub const NANOS_PER_SECOND: u32 = 1_000_000_000;

/// An instant, as whole seconds since the unix epoch plus nanoseconds
/// within the second.
#[derive(Clone, Copy, Debug, PartialEq, Eq, Structural)]
pub struct Timestamp {
    pub unix_seconds: i64,
    pub nanos: u32,
}

impl Timestamp {
    /// A timestamp is well formed when its nanosecond part is below one
    /// second.
    pub open spec fn wf(self) -> bool {
        self.nanos < NANOS_PER_SECOND
    }

    /// Builds a timestamp, rejecting a nanosecond part of a second or
    /// more.
    pub fn new(unix_seconds: i64, nanos: u32) -> (r: Option<Timestamp>)
        ensures
            r is Some <==> nanos < NANOS_PER_SECOND,
            r matches Some(t) ==> t.unix_seconds == unix_seconds && t.nanos == nanos && t.wf(),
    {
        if nanos < NANOS_PER_SECOND {
            Some(Timestamp { unix_seconds, nanos })
        } else {
            None
        }
    }
}

/// The 13-byte binary encoding of a timestamp.
pub open spec fn timestamp_bytes_spec(t: Timestamp) -> Seq<u8> {
    seq![TIMESTAMP_VERSION] + spec_be64(t.unix_seconds as u64) + spec_be32(t.nanos)
}

/// Distinct timestamps have distinct encodings.
pub proof fn lemma_timestamp_bytes_injective(t1: Timestamp, t2: Timestamp)
    requires
        timestamp_bytes_spec(t1) == timestamp_bytes_spec(t2),
    ensures
        t1 == t2,
{
    let b1 = timestamp_bytes_spec(t1);
    let b2 = timestamp_bytes_spec(t2);
    assert(spec_be64(t1.unix_seconds as u64) =~= b1.subrange(1, 9));
    assert(spec_be64(t2.unix_seconds as u64) =~= b2.subrange(1, 9));
    assert(spec_be32(t1.nanos) =~= b1.subrange(9, 13));
    assert(spec_be32(t2.nanos) =~= b2.subrange(9, 13));
    lemma_be64_roundtrip(t1.unix_seconds as u64);
    lemma_be64_roundtrip(t2.unix_seconds as u64);
    lemma_be32_roundtrip(t1.nanos);
    lemma_be32_roundtrip(t2.nanos);
    lemma_i64_u64_roundtrip(t1.unix_seconds);
    lemma_i64_u64_roundtrip(t2.unix_seconds);
}

/// Appends the binary encoding of `t` to `out`.
pub fn push_timestamp(out: &mut Vec<u8>, t: Timestamp)
    ensures
        final(out)@ == old(out)@ + timestamp_bytes_spec(t),
{
    out.push(TIMESTAMP_VERSION);
    push_be64(out, t.unix_seconds as u64);
    push_be32(out, t.nanos);
    proof {
        assert(out@ =~= old(out)@ + timestamp_bytes_spec(t));
    }
}

/// Decodes a 13-byte binary timestamp, rejecting a wrong length, a wrong
/// version byte, or a nanosecond part of a second or more.
pub fn timestamp_from_bytes(b: &Vec<u8>) -> (r: Option<Timestamp>)
    ensures
        r matches Some(t) ==> t.wf() && timestamp_bytes_spec(t) == b@,
        r is None ==> forall|t: Timestamp| t.wf() ==> timestamp_bytes_spec(t) != b@,
{
    if b.len() != TIMESTAMP_BYTES {
        return None;
    }
    if b[0] != TIMESTAMP_VERSION {
        return None;
    }
    let secs_u = read_be64(b, 1);
    let nanos = read_be32(b, 9);
    if nanos >= NANOS_PER_SECOND {
        proof {
            assert forall|t: Timestamp| t.wf() implies timestamp_bytes_spec(t) != b@ by {
                if timestamp_bytes_spec(t) == b@ {
                    assert(spec_be32(t.nanos) =~= b@.subrange(9, 13));
                    lemma_be32_roundtrip(t.nanos);
                }
            }
        }
        return None;
    }
    let secs = secs_u as i64;
    let t = Timestamp { unix_seconds: secs, nanos };
    proof {
        assert(((secs_u as i64) as u64) == secs_u) by (bit_vector);
        lemma_be64_val_roundtrip(b@.subrange(1, 9));
        lemma_be32_val_roundtrip(b@.subrange(9, 13));
        assert(timestamp_bytes_spec(t) =~= b@);
    }
    Some(t)
}

} // verus!
