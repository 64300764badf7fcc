//! Unpadded base64url encoding and strict decoding, verified against a
//! single specification function.  The decoder accepts exactly the
//! canonical encodings: anything else is rejected, so decoding is a true
//! inverse of encoding.
use vstd::prelude::*;

verus! {

/// The base64url alphabet character for a 6-bit value.
pub open spec fn b64_char_of(v: u8) -> u8
    recommends
        v < 64,
{
    if v < 26 {
        (v + 65) as u8  // 'A'..='Z'

    } else if v < 52 {
        (v + 71) as u8  // 'a'..='z'

    } else if v < 62 {
        (v - 4) as u8  // '0'..='9'

    } else if v == 62 {
        45u8  // '-'

    } else {
        95u8  // '_'

    }
}

/// Whether a byte is a base64url alphabet character.
pub open spec fn is_b64_byte(c: u8) -> bool {
    (65 <= c <= 90) || (97 <= c <= 122) || (48 <= c <= 57) || c == 45 || c == 95
}

/// The unpadded base64url encoding of a byte sequence.
pub open spec fn b64_encode_spec(b: Seq<u8>) -> Seq<u8>
    decreases b.len(),
{
    if b.len() == 0 {
        Seq::empty()
    } else if b.len() == 1 {
        seq![b64_char_of(b[0] >> 2), b64_char_of((b[0] & 3) << 4)]
    } else if b.len() == 2 {
        seq![
            b64_char_of(b[0] >> 2),
            b64_char_of(((b[0] & 3) << 4) | (b[1] >> 4)),
            b64_char_of((b[1] & 15) << 2),
        ]
    } else {
        seq![
            b64_char_of(b[0] >> 2),
            b64_char_of(((b[0] & 3) << 4) | (b[1] >> 4)),
            b64_char_of(((b[1] & 15) << 2) | (b[2] >> 6)),
            b64_char_of(b[2] & 63),
        ] + b64_encode_spec(b.skip(3))
    }
}

/// The length of the unpadded base64url encoding of `n` input bytes.
pub open spec fn b64_len(n: nat) -> nat
    decreases n,
{
    if n == 0 {
        0
    } else if n == 1 {
        2
    } else if n == 2 {
        3
    } else {
        (4 + b64_len((n - 3) as nat)) as nat
    }
}

/// Every alphabet character is a base64url byte, and distinct 6-bit
/// values map to distinct characters.
pub proof fn lemma_b64_char_props(v: u8, w: u8)
    requires
        v < 64,
        w < 64,
    ensures
        is_b64_byte(b64_char_of(v)),
        b64_char_of(v) == b64_char_of(w) ==> v == w,
{
}

/// The encoding of a sequence has length `b64_len` of the input length.
pub proof fn lemma_b64_encode_len(b: Seq<u8>)
    ensures
        b64_encode_spec(b).len() == b64_len(b.len()),
    decreases b.len(),
{
    if b.len() >= 3 {
        lemma_b64_encode_len(b.skip(3));
    }
}

/// Every byte of an encoding belongs to the base64url alphabet.
pub proof fn lemma_b64_charset(b: Seq<u8>)
    ensures
        forall|i: int|
            0 <= i < b64_encode_spec(b).len() ==> is_b64_byte(#[trigger] b64_encode_spec(b)[i]),
    decreases b.len(),
{
    if b.len() == 0 {
    } else if b.len() == 1 {
        let x0 = b[0];
        assert(x0 >> 2 < 64 && (x0 & 3) << 4 < 64) by (bit_vector);
        lemma_b64_char_props(x0 >> 2, 0);
        lemma_b64_char_props((x0 & 3) << 4, 0);
    } else if b.len() == 2 {
        let x0 = b[0];
        let x1 = b[1];
        assert(x0 >> 2 < 64 && ((x0 & 3) << 4) | (x1 >> 4) < 64 && (x1 & 15) << 2 < 64)
            by (bit_vector);
        lemma_b64_char_props(x0 >> 2, 0);
        lemma_b64_char_props(((x0 & 3) << 4) | (x1 >> 4), 0);
        lemma_b64_char_props((x1 & 15) << 2, 0);
    } else {
        let x0 = b[0];
        let x1 = b[1];
        let x2 = b[2];
        assert(x0 >> 2 < 64 && ((x0 & 3) << 4) | (x1 >> 4) < 64 && ((x1 & 15) << 2) | (x2 >> 6) < 64
            && x2 & 63 < 64) by (bit_vector);
        lemma_b64_char_props(x0 >> 2, 0);
        lemma_b64_char_props(((x0 & 3) << 4) | (x1 >> 4), 0);
        lemma_b64_char_props(((x1 & 15) << 2) | (x2 >> 6), 0);
        lemma_b64_char_props(x2 & 63, 0);
        lemma_b64_charset(b.skip(3));
        assert forall|i: int| 0 <= i < b64_encode_spec(b).len() implies is_b64_byte(
            #[trigger] b64_encode_spec(b)[i],
        ) by {
            if i >= 4 {
                assert(b64_encode_spec(b)[i] == b64_encode_spec(b.skip(3))[i - 4]);
            }
        }
    }
}

/// Encoding distributes over concatenation at 3-byte boundaries.
pub proof fn lemma_b64_concat(a: Seq<u8>, b: Seq<u8>)
    requires
        a.len() % 3 == 0,
    ensures
        b64_encode_spec(a + b) == b64_encode_spec(a) + b64_encode_spec(b),
    decreases a.len(),
{
    if a.len() == 0 {
        assert(a + b =~= b);
        assert(b64_encode_spec(a + b) =~= b64_encode_spec(a) + b64_encode_spec(b));
    } else {
        let ab = a + b;
        assert(ab.len() >= 3);
        assert(ab[0] == a[0] && ab[1] == a[1] && ab[2] == a[2]);
        assert(ab.skip(3) =~= a.skip(3) + b);
        lemma_b64_concat(a.skip(3), b);
        assert(b64_encode_spec(a) == seq![
            b64_char_of(a[0] >> 2),
            b64_char_of(((a[0] & 3) << 4) | (a[1] >> 4)),
            b64_char_of(((a[1] & 15) << 2) | (a[2] >> 6)),
            b64_char_of(a[2] & 63),
        ] + b64_encode_spec(a.skip(3)));
        assert(b64_encode_spec(a + b) =~= b64_encode_spec(a) + b64_encode_spec(b));
    }
}

/// The encoding of a single 3-byte chunk, spelled out.
proof fn lemma_b64_chunk3(s: Seq<u8>)
    requires
        s.len() == 3,
    ensures
        b64_encode_spec(s) == seq![
            b64_char_of(s[0] >> 2),
            b64_char_of(((s[0] & 3) << 4) | (s[1] >> 4)),
            b64_char_of(((s[1] & 15) << 2) | (s[2] >> 6)),
            b64_char_of(s[2] & 63),
        ],
{
    assert(s.skip(3) =~= Seq::<u8>::empty());
    assert(b64_encode_spec(s.skip(3)) =~= Seq::<u8>::empty());
    assert(b64_encode_spec(s) =~= seq![
        b64_char_of(s[0] >> 2),
        b64_char_of(((s[0] & 3) << 4) | (s[1] >> 4)),
        b64_char_of(((s[1] & 15) << 2) | (s[2] >> 6)),
        b64_char_of(s[2] & 63),
    ]);
}

/// No encoding has a length of the form `4k + 1`, and the residue of the
/// encoded length mod 4 determines the residue of the input length mod 3.
pub proof fn lemma_b64_len_mod(n: nat)
    ensures
        b64_len(n) % 4 != 1,
        (b64_len(n) % 4 == 0) == (n % 3 == 0),
        (b64_len(n) % 4 == 2) == (n % 3 == 1),
        (b64_len(n) % 4 == 3) == (n % 3 == 2),
    decreases n,
{
    if n >= 3 {
        lemma_b64_len_mod((n - 3) as nat);
    }
}

/// Two inputs of equal encoded length have equal length.
pub proof fn lemma_b64_len_injective(n: nat, m: nat)
    requires
        b64_len(n) == b64_len(m),
    ensures
        n == m,
    decreases n,
{
    if n >= 3 && m >= 3 {
        lemma_b64_len_injective((n - 3) as nat, (m - 3) as nat);
    } else if n >= 3 || m >= 3 {
        lemma_b64_len_mod(n);
        lemma_b64_len_mod(m);
        assert(b64_len(n) >= 4 || b64_len(m) >= 4) by {
            if n >= 3 {
                assert(b64_len(n) == 4 + b64_len((n - 3) as nat));
            }
            if m >= 3 {
                assert(b64_len(m) == 4 + b64_len((m - 3) as nat));
            }
        }
    }
}

/// Distinct byte sequences have distinct encodings.
pub proof fn lemma_b64_injective(x: Seq<u8>, y: Seq<u8>)
    requires
        b64_encode_spec(x) == b64_encode_spec(y),
    ensures
        x == y,
    decreases x.len(),
{
    lemma_b64_encode_len(x);
    lemma_b64_encode_len(y);
    lemma_b64_len_injective(x.len(), y.len());
    if x.len() == 0 {
        assert(x =~= y);
    } else if x.len() == 1 {
        let a = x[0];
        let b = y[0];
        assert(a >> 2 < 64 && (a & 3) << 4 < 64 && b >> 2 < 64 && (b & 3) << 4 < 64)
            by (bit_vector);
        lemma_b64_char_props(a >> 2, b >> 2);
        lemma_b64_char_props((a & 3) << 4, (b & 3) << 4);
        assert(a >> 2 == b >> 2 && (a & 3) << 4 == (b & 3) << 4 ==> a == b) by (bit_vector);
        assert(x =~= y);
    } else if x.len() == 2 {
        let a0 = x[0];
        let a1 = x[1];
        let c0 = y[0];
        let c1 = y[1];
        assert(a0 >> 2 < 64 && ((a0 & 3) << 4) | (a1 >> 4) < 64 && (a1 & 15) << 2 < 64)
            by (bit_vector);
        assert(c0 >> 2 < 64 && ((c0 & 3) << 4) | (c1 >> 4) < 64 && (c1 & 15) << 2 < 64)
            by (bit_vector);
        lemma_b64_char_props(a0 >> 2, c0 >> 2);
        lemma_b64_char_props(((a0 & 3) << 4) | (a1 >> 4), ((c0 & 3) << 4) | (c1 >> 4));
        lemma_b64_char_props((a1 & 15) << 2, (c1 & 15) << 2);
        assert(a0 >> 2 == c0 >> 2 && ((a0 & 3) << 4) | (a1 >> 4) == ((c0 & 3) << 4) | (c1 >> 4) && (
        a1 & 15) << 2 == (c1 & 15) << 2 ==> a0 == c0 && a1 == c1) by (bit_vector);
        assert(x =~= y);
    } else {
        let a0 = x[0];
        let a1 = x[1];
        let a2 = x[2];
        let c0 = y[0];
        let c1 = y[1];
        let c2 = y[2];
        assert(a0 >> 2 < 64 && ((a0 & 3) << 4) | (a1 >> 4) < 64 && ((a1 & 15) << 2) | (a2 >> 6) < 64
            && a2 & 63 < 64) by (bit_vector);
        assert(c0 >> 2 < 64 && ((c0 & 3) << 4) | (c1 >> 4) < 64 && ((c1 & 15) << 2) | (c2 >> 6) < 64
            && c2 & 63 < 64) by (bit_vector);
        lemma_b64_char_props(a0 >> 2, c0 >> 2);
        lemma_b64_char_props(((a0 & 3) << 4) | (a1 >> 4), ((c0 & 3) << 4) | (c1 >> 4));
        lemma_b64_char_props(((a1 & 15) << 2) | (a2 >> 6), ((c1 & 15) << 2) | (c2 >> 6));
        lemma_b64_char_props(a2 & 63, c2 & 63);
        assert(b64_encode_spec(x)[0] == b64_char_of(a0 >> 2) && b64_encode_spec(y)[0]
            == b64_char_of(c0 >> 2));
        assert(b64_encode_spec(x)[1] == b64_char_of(((a0 & 3) << 4) | (a1 >> 4)));
        assert(b64_encode_spec(x)[2] == b64_char_of(((a1 & 15) << 2) | (a2 >> 6)));
        assert(b64_encode_spec(x)[3] == b64_char_of(a2 & 63));
        assert(b64_encode_spec(y)[1] == b64_char_of(((c0 & 3) << 4) | (c1 >> 4)));
        assert(b64_encode_spec(y)[2] == b64_char_of(((c1 & 15) << 2) | (c2 >> 6)));
        assert(b64_encode_spec(y)[3] == b64_char_of(c2 & 63));
        assert(a0 >> 2 == c0 >> 2 && ((a0 & 3) << 4) | (a1 >> 4) == ((c0 & 3) << 4) | (c1 >> 4) && (
        (a1 & 15) << 2) | (a2 >> 6) == ((c1 & 15) << 2) | (c2 >> 6) && a2 & 63 == c2 & 63 ==> a0
            == c0 && a1 == c1 && a2 == c2) by (bit_vector);
        assert(a0 == c0 && a1 == c1 && a2 == c2);
        assert(b64_encode_spec(x).skip(4) =~= b64_encode_spec(x.skip(3)));
        assert(b64_encode_spec(y).skip(4) =~= b64_encode_spec(y.skip(3)));
        lemma_b64_injective(x.skip(3), y.skip(3));
        assert forall|i: int| 0 <= i < x.len() implies x[i] == y[i] by {
            if i >= 3 {
                assert(x[i] == x.skip(3)[i - 3]);
                assert(y[i] == y.skip(3)[i - 3]);
            }
        }
        assert(x =~= y);
    }
}

/// Maps a 6-bit value to its alphabet character.
fn b64_char(v: u8) -> (r: u8)
    requires
        v < 64,
    ensures
        r == b64_char_of(v),
{
    if v < 26 {
        v + 65
    } else if v < 52 {
        v + 71
    } else if v < 62 {
        v - 4
    } else if v == 62 {
        45
    } else {
        95
    }
}

/// Maps an alphabet character back to its 6-bit value; returns `None`
/// for a byte outside the alphabet.
fn b64_val(c: u8) -> (r: Option<u8>)
    ensures
        r matches Some(v) ==> v < 64 && b64_char_of(v) == c,
        r is None ==> forall|v: u8| v < 64 ==> b64_char_of(v) != c,
{
    if 65 <= c && c <= 90 {
        Some(c - 65)
    } else if 97 <= c && c <= 122 {
        Some(c - 71)
    } else if 48 <= c && c <= 57 {
        Some(c + 4)
    } else if c == 45 {
        Some(62)
    } else if c == 95 {
        Some(63)
    } else {
        None
    }
}

/// Encodes a byte sequence as unpadded base64url.
pub fn b64_encode(input: &Vec<u8>) -> (r: Vec<u8>)
    ensures
        r@ == b64_encode_spec(input@),
{
    let n = input.len();
    let mut out: Vec<u8> = Vec::new();
    let mut i: usize = 0;
    while n - i >= 3
        invariant
            i <= n,
            i % 3 == 0,
            n == input@.len(),
            out@ == b64_encode_spec(input@.take(i as int)),
        decreases n - i,
    {
        let b0 = input[i];
        let b1 = input[i + 1];
        let b2 = input[i + 2];
        proof {
            assert(b0 >> 2 < 64 && ((b0 & 3) << 4) | (b1 >> 4) < 64 && ((b1 & 15) << 2) | (b2 >> 6)
                < 64 && b2 & 63 < 64) by (bit_vector);
        }
        out.push(b64_char(b0 >> 2));
        out.push(b64_char(((b0 & 3) << 4) | (b1 >> 4)));
        out.push(b64_char(((b1 & 15) << 2) | (b2 >> 6)));
        out.push(b64_char(b2 & 63));
        proof {
            let pre = input@.take(i as int);
            let chunk = input@.subrange(i as int, i as int + 3);
            lemma_b64_concat(pre, chunk);
            assert(pre + chunk =~= input@.take(i as int + 3));
            assert(chunk.len() == 3);
            assert(chunk[0] == b0 && chunk[1] == b1 && chunk[2] == b2);
            lemma_b64_chunk3(chunk);
            assert(b64_encode_spec(chunk) =~= seq![
                b64_char_of(b0 >> 2),
                b64_char_of(((b0 & 3) << 4) | (b1 >> 4)),
                b64_char_of(((b1 & 15) << 2) | (b2 >> 6)),
                b64_char_of(b2 & 63),
            ]);
            assert(out@ =~= b64_encode_spec(input@.take(i as int + 3)));
        }
        i = i + 3;
    }
    proof {
        lemma_b64_concat(input@.take(i as int), input@.skip(i as int));
        assert(input@.take(i as int) + input@.skip(i as int) =~= input@);
    }
    if n - i == 2 {
        let b0 = input[i];
        let b1 = input[i + 1];
        proof {
            assert(b0 >> 2 < 64 && ((b0 & 3) << 4) | (b1 >> 4) < 64 && (b1 & 15) << 2 < 64)
                by (bit_vector);
        }
        out.push(b64_char(b0 >> 2));
        out.push(b64_char(((b0 & 3) << 4) | (b1 >> 4)));
        out.push(b64_char((b1 & 15) << 2));
        proof {
            let tail = input@.skip(i as int);
            assert(tail.len() == 2);
            assert(tail[0] == b0 && tail[1] == b1);
            assert(out@ =~= b64_encode_spec(input@.take(i as int)) + b64_encode_spec(tail));
        }
    } else if n - i == 1 {
        let b0 = input[i];
        proof {
            assert(b0 >> 2 < 64 && (b0 & 3) << 4 < 64) by (bit_vector);
        }
        out.push(b64_char(b0 >> 2));
        out.push(b64_char((b0 & 3) << 4));
        proof {
            let tail = input@.skip(i as int);
            assert(tail.len() == 1);
            assert(tail[0] == b0);
            assert(out@ =~= b64_encode_spec(input@.take(i as int)) + b64_encode_spec(tail));
        }
    } else {
        proof {
            assert(input@.skip(i as int).len() == 0);
            assert(out@ =~= b64_encode_spec(input@.take(i as int)) + b64_encode_spec(
                input@.skip(i as int),
            ));
        }
    }
    out
}

/// Decodes unpadded base64url, accepting only canonical encodings: a
/// byte outside the alphabet, a length of the form `4k + 1`, or nonzero
/// trailing bits all yield `None`.
pub fn b64_decode(s: &Vec<u8>) -> (r: Option<Vec<u8>>)
    ensures
        r matches Some(o) ==> b64_encode_spec(o@) == s@,
        r is None ==> forall|bb: Seq<u8>| b64_encode_spec(bb) != s@,
{
    let n = s.len();
    if n % 4 == 1 {
        proof {
            assert forall|bb: Seq<u8>| b64_encode_spec(bb) != s@ by {
                lemma_b64_encode_len(bb);
                lemma_b64_len_mod(bb.len());
            }
        }
        return None;
    }
    let mut out: Vec<u8> = Vec::new();
    let mut i: usize = 0;
    while n - i >= 4
        invariant
            i <= n,
            i % 4 == 0,
            n == s@.len(),
            n % 4 != 1,
            out@.len() % 3 == 0,
            b64_encode_spec(out@) == s@.take(i as int),
        decreases n - i,
    {
        let c0 = s[i];
        let c1 = s[i + 1];
        let c2 = s[i + 2];
        let c3 = s[i + 3];
        let v0 = match b64_val(c0) {
            Some(v) => v,
            None => {
                proof {
                    lemma_b64_reject_bad_char(s@, i as int);
                }
                return None;
            },
        };
        let v1 = match b64_val(c1) {
            Some(v) => v,
            None => {
                proof {
                    lemma_b64_reject_bad_char(s@, i as int + 1);
                }
                return None;
            },
        };
        let v2 = match b64_val(c2) {
            Some(v) => v,
            None => {
                proof {
                    lemma_b64_reject_bad_char(s@, i as int + 2);
                }
                return None;
            },
        };
        let v3 = match b64_val(c3) {
            Some(v) => v,
            None => {
                proof {
                    lemma_b64_reject_bad_char(s@, i as int + 3);
                }
                return None;
            },
        };
        let b0 = (v0 << 2) | (v1 >> 4);
        let b1 = ((v1 & 15) << 4) | (v2 >> 2);
        let b2 = ((v2 & 3) << 6) | v3;
        let ghost pre = out@;
        out.push(b0);
        out.push(b1);
        out.push(b2);
        proof {
            let chunk = seq![b0, b1, b2];
            assert(out@ =~= pre + chunk);
            lemma_b64_concat(pre, chunk);
            assert(b0 >> 2 == v0 && ((b0 & 3) << 4) | (b1 >> 4) == v1 && ((b1 & 15) << 2) | (b2
                >> 6) == v2 && b2 & 63 == v3) by (bit_vector)
                requires
                    v0 < 64 && v1 < 64 && v2 < 64 && v3 < 64 && b0 == (v0 << 2) | (v1 >> 4) && b1
                        == ((v1 & 15) << 4) | (v2 >> 2) && b2 == ((v2 & 3) << 6) | v3,
            ;
            assert(chunk[0] == b0 && chunk[1] == b1 && chunk[2] == b2);
            lemma_b64_chunk3(chunk);
            assert(b64_char_of(b0 >> 2) == c0 && b64_char_of(((b0 & 3) << 4) | (b1 >> 4)) == c1
                && b64_char_of(((b1 & 15) << 2) | (b2 >> 6)) == c2 && b64_char_of(b2 & 63) == c3);
            assert(b64_encode_spec(chunk) =~= seq![c0, c1, c2, c3]);
            assert(s@.take(i as int + 4) =~= s@.take(i as int) + seq![c0, c1, c2, c3]);
            assert(b64_encode_spec(out@) == s@.take(i as int + 4));
        }
        i = i + 4;
    }
    if i == n {
        proof {
            assert(s@.take(i as int) =~= s@);
        }
        return Some(out);
    }
    // A tail of 2 or 3 characters remains.
    let c0 = s[i];
    let c1 = s[i + 1];
    let v0 = match b64_val(c0) {
        Some(v) => v,
        None => {
            proof {
                lemma_b64_reject_bad_char(s@, i as int);
            }
            return None;
        },
    };
    let v1 = match b64_val(c1) {
        Some(v) => v,
        None => {
            proof {
                lemma_b64_reject_bad_char(s@, i as int + 1);
            }
            return None;
        },
    };
    if n - i == 2 {
        if v1 & 15 != 0 {
            proof {
                lemma_b64_reject_trailing2(s@, i as int, v1);
            }
            return None;
        }
        let b0 = (v0 << 2) | (v1 >> 4);
        let ghost pre = out@;
        out.push(b0);
        proof {
            let chunk = seq![b0];
            assert(out@ =~= pre + chunk);
            lemma_b64_concat(pre, chunk);
            assert(b0 >> 2 == v0 && (b0 & 3) << 4 == v1) by (bit_vector)
                requires
                    v0 < 64 && v1 < 64 && v1 & 15 == 0 && b0 == (v0 << 2) | (v1 >> 4),
            ;
            assert(b64_encode_spec(chunk) =~= seq![c0, c1]);
            assert(s@ =~= s@.take(i as int) + seq![c0, c1]);
        }
        return Some(out);
    }
    // Exactly 3 characters remain.
    let c2 = s[i + 2];
    let v2 = match b64_val(c2) {
        Some(v) => v,
        None => {
            proof {
                lemma_b64_reject_bad_char(s@, i as int + 2);
            }
            return None;
        },
    };
    if v2 & 3 != 0 {
        proof {
            lemma_b64_reject_trailing3(s@, i as int, v2);
        }
        return None;
    }
    let b0 = (v0 << 2) | (v1 >> 4);
    let b1 = ((v1 & 15) << 4) | (v2 >> 2);
    let ghost pre = out@;
    out.push(b0);
    out.push(b1);
    proof {
        let chunk = seq![b0, b1];
        assert(out@ =~= pre + chunk);
        lemma_b64_concat(pre, chunk);
        assert(b0 >> 2 == v0 && ((b0 & 3) << 4) | (b1 >> 4) == v1 && (b1 & 15) << 2 == v2)
            by (bit_vector)
            requires
                v0 < 64 && v1 < 64 && v2 < 64 && v2 & 3 == 0 && b0 == (v0 << 2) | (v1 >> 4) && b1
                    == ((v1 & 15) << 4) | (v2 >> 2),
        ;
        assert(b64_encode_spec(chunk) =~= seq![c0, c1, c2]);
        assert(s@ =~= s@.take(i as int) + seq![c0, c1, c2]);
    }
    Some(out)
}

/// If some position of `s` holds a byte outside the alphabet, then `s`
/// is not an encoding.
proof fn lemma_b64_reject_bad_char(s: Seq<u8>, j: int)
    requires
        0 <= j < s.len(),
        forall|v: u8| v < 64 ==> b64_char_of(v) != s[j],
    ensures
        forall|bb: Seq<u8>| b64_encode_spec(bb) != s,
{
    assert forall|bb: Seq<u8>| b64_encode_spec(bb) != s by {
        if b64_encode_spec(bb) == s {
            lemma_b64_charset(bb);
            assert(is_b64_byte(s[j]));
            lemma_b64_exists_val(s[j]);
        }
    }
}

/// A base64url byte is the character of some 6-bit value.
proof fn lemma_b64_exists_val(c: u8)
    requires
        is_b64_byte(c),
    ensures
        exists|v: u8| v < 64 && b64_char_of(v) == c,
{
    if 65 <= c <= 90 {
        assert(b64_char_of((c - 65) as u8) == c);
    } else if 97 <= c <= 122 {
        assert(b64_char_of((c - 71) as u8) == c);
    } else if 48 <= c <= 57 {
        assert(b64_char_of((c + 4) as u8) == c);
    } else if c == 45 {
        assert(b64_char_of(62u8) == c);
    } else {
        assert(b64_char_of(63u8) == c);
    }
}

/// A two-character tail with nonzero trailing bits is not canonical.
proof fn lemma_b64_reject_trailing2(s: Seq<u8>, i: int, v1: u8)
    requires
        0 <= i,
        i % 4 == 0,
        i + 2 == s.len(),
        v1 < 64,
        b64_char_of(v1) == s[i + 1],
        v1 & 15 != 0,
    ensures
        forall|bb: Seq<u8>| b64_encode_spec(bb) != s,
{
    assert forall|bb: Seq<u8>| b64_encode_spec(bb) != s by {
        if b64_encode_spec(bb) == s {
            lemma_b64_encode_len(bb);
            lemma_b64_len_mod(bb.len());
            assert(s.len() % 4 == 2);
            assert(bb.len() % 3 == 1);
            let head = bb.take(bb.len() - 1);
            let lastb = bb.skip(bb.len() - 1);
            assert(head.len() % 3 == 0);
            lemma_b64_concat(head, lastb);
            assert(head + lastb =~= bb);
            lemma_b64_encode_len(head);
            lemma_b64_len_mod(head.len());
            assert(lastb.len() == 1);
            let lb = lastb[0];
            assert(b64_encode_spec(lastb) == seq![b64_char_of(lb >> 2), b64_char_of((lb & 3) << 4)]);
            assert(b64_encode_spec(head).len() % 4 == 0);
            assert(b64_encode_spec(head).len() + 2 == s.len());
            assert(s[i + 1] == b64_char_of((lb & 3) << 4));
            assert((lb & 3) << 4 < 64) by (bit_vector);
            lemma_b64_char_props(v1, (lb & 3) << 4);
            assert(v1 == (lb & 3) << 4);
            assert(((lb & 3) << 4) & 15 == 0) by (bit_vector);
        }
    }
}

/// A three-character tail with nonzero trailing bits is not canonical.
proof fn lemma_b64_reject_trailing3(s: Seq<u8>, i: int, v2: u8)
    requires
        0 <= i,
        i % 4 == 0,
        i + 3 == s.len(),
        v2 < 64,
        b64_char_of(v2) == s[i + 2],
        v2 & 3 != 0,
    ensures
        forall|bb: Seq<u8>| b64_encode_spec(bb) != s,
{
    assert forall|bb: Seq<u8>| b64_encode_spec(bb) != s by {
        if b64_encode_spec(bb) == s {
            lemma_b64_encode_len(bb);
            lemma_b64_len_mod(bb.len());
            assert(s.len() % 4 == 3);
            assert(bb.len() % 3 == 2);
            let head = bb.take(bb.len() - 2);
            let tail = bb.skip(bb.len() - 2);
            assert(head.len() % 3 == 0);
            lemma_b64_concat(head, tail);
            assert(head + tail =~= bb);
            lemma_b64_encode_len(head);
            lemma_b64_len_mod(head.len());
            assert(tail.len() == 2);
            let t0 = tail[0];
            let t1 = tail[1];
            assert(b64_encode_spec(tail) == seq![
                b64_char_of(t0 >> 2),
                b64_char_of(((t0 & 3) << 4) | (t1 >> 4)),
                b64_char_of((t1 & 15) << 2),
            ]);
            assert(b64_encode_spec(head).len() % 4 == 0);
            assert(b64_encode_spec(head).len() + 3 == s.len());
            assert(s[i + 2] == b64_char_of((t1 & 15) << 2));
            assert((t1 & 15) << 2 < 64) by (bit_vector);
            lemma_b64_char_props(v2, (t1 & 15) << 2);
            assert(v2 == (t1 & 15) << 2);
            assert(((t1 & 15) << 2) & 3 == 0) by (bit_vector);
        }
    }
}

} // verus!
