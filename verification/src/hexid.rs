//! Lowercase hex encoding and the canonical hyphenated text form of a
//! 128-bit identifier, both verified against specification functions.
//! Parsing is strict: only the canonical lowercase form is accepted.
use vstd::prelude::*;

verus! {

/// The lowercase hex character for a 4-bit value.
pub open spec fn hex_char_of(v: u8) -> u8
    recommends
        v < 16,
{
    if v < 10 {
        (v + 48) as u8  // '0'..='9'

    } else {
        (v + 87) as u8  // 'a'..='f'

    }
}

/// Whether a byte is a lowercase hex character.
pub open spec fn is_hex_byte(c: u8) -> bool {
    (48 <= c <= 57) || (97 <= c <= 102)
}

/// The lowercase hex encoding of a byte sequence, two characters per byte.
pub open spec fn hex_encode_spec(b: Seq<u8>) -> Seq<u8>
    decreases b.len(),
{
    if b.len() == 0 {
        Seq::empty()
    } else {
        seq![hex_char_of(b[0] >> 4), hex_char_of(b[0] & 15)] + hex_encode_spec(b.skip(1))
    }
}

/// Every hex character is a hex byte, and distinct 4-bit values map to
/// distinct characters.
pub proof fn lemma_hex_char_props(v: u8, w: u8)
    requires
        v < 16,
        w < 16,
    ensures
        is_hex_byte(hex_char_of(v)),
        hex_char_of(v) == hex_char_of(w) ==> v == w,
{
}

/// A hex encoding is twice as long as its input.
pub proof fn lemma_hex_len(b: Seq<u8>)
    ensures
        hex_encode_spec(b).len() == 2 * b.len(),
    decreases b.len(),
{
    if b.len() > 0 {
        lemma_hex_len(b.skip(1));
    }
}

/// Hex encoding distributes over concatenation.
pub proof fn lemma_hex_concat(a: Seq<u8>, b: Seq<u8>)
    ensures
        hex_encode_spec(a + b) == hex_encode_spec(a) + hex_encode_spec(b),
    decreases a.len(),
{
    if a.len() == 0 {
        assert(a + b =~= b);
        assert(hex_encode_spec(a + b) =~= hex_encode_spec(a) + hex_encode_spec(b));
    } else {
        let ab = a + b;
        assert(ab[0] == a[0]);
        assert(ab.skip(1) =~= a.skip(1) + b);
        lemma_hex_concat(a.skip(1), b);
        assert(hex_encode_spec(a + b) =~= hex_encode_spec(a) + hex_encode_spec(b));
    }
}

/// Every byte of a hex encoding is a hex byte.
pub proof fn lemma_hex_charset(b: Seq<u8>)
    ensures
        forall|i: int|
            0 <= i < hex_encode_spec(b).len() ==> is_hex_byte(#[trigger] hex_encode_spec(b)[i]),
    decreases b.len(),
{
    if b.len() > 0 {
        let x0 = b[0];
        assert(x0 >> 4 < 16 && x0 & 15 < 16) by (bit_vector);
        lemma_hex_char_props(x0 >> 4, 0);
        lemma_hex_char_props(x0 & 15, 0);
        lemma_hex_charset(b.skip(1));
        assert forall|i: int| 0 <= i < hex_encode_spec(b).len() implies is_hex_byte(
            #[trigger] hex_encode_spec(b)[i],
        ) by {
            if i >= 2 {
                assert(hex_encode_spec(b)[i] == hex_encode_spec(b.skip(1))[i - 2]);
            }
        }
    }
}

/// Distinct byte sequences have distinct hex encodings.
pub proof fn lemma_hex_injective(x: Seq<u8>, y: Seq<u8>)
    requires
        hex_encode_spec(x) == hex_encode_spec(y),
    ensures
        x == y,
    decreases x.len(),
{
    lemma_hex_len(x);
    lemma_hex_len(y);
    if x.len() == 0 {
        assert(x =~= y);
    } else {
        let a = x[0];
        let c = y[0];
        assert(a >> 4 < 16 && a & 15 < 16 && c >> 4 < 16 && c & 15 < 16) by (bit_vector);
        lemma_hex_char_props(a >> 4, c >> 4);
        lemma_hex_char_props(a & 15, c & 15);
        assert(hex_encode_spec(x)[0] == hex_char_of(a >> 4) && hex_encode_spec(x)[1] == hex_char_of(
            a & 15,
        ));
        assert(hex_encode_spec(y)[0] == hex_char_of(c >> 4) && hex_encode_spec(y)[1] == hex_char_of(
            c & 15,
        ));
        assert(a >> 4 == c >> 4 && a & 15 == c & 15 ==> a == c) by (bit_vector);
        assert(hex_encode_spec(x).skip(2) =~= hex_encode_spec(x.skip(1)));
        assert(hex_encode_spec(y).skip(2) =~= hex_encode_spec(y.skip(1)));
        lemma_hex_injective(x.skip(1), y.skip(1));
        assert forall|i: int| 0 <= i < x.len() implies x[i] == y[i] by {
            if i >= 1 {
                assert(x[i] == x.skip(1)[i - 1]);
                assert(y[i] == y.skip(1)[i - 1]);
            }
        }
        assert(x =~= y);
    }
}

/// Maps a lowercase hex character back to its value; `None` outside the
/// alphabet.
fn hex_val(c: u8) -> (r: Option<u8>)
    ensures
        r matches Some(v) ==> v < 16 && hex_char_of(v) == c,
        r is None ==> forall|v: u8| v < 16 ==> hex_char_of(v) != c,
{
    if 48 <= c && c <= 57 {
        Some(c - 48)
    } else if 97 <= c && c <= 102 {
        Some(c - 87)
    } else {
        None
    }
}

/// Encodes a byte sequence as lowercase hex.
pub fn hex_encode(input: &Vec<u8>) -> (r: Vec<u8>)
    ensures
        r@ == hex_encode_spec(input@),
{
    let n = input.len();
    let mut out: Vec<u8> = Vec::new();
    let mut i: usize = 0;
    while i < n
        invariant
            i <= n,
            n == input@.len(),
            out@ == hex_encode_spec(input@.take(i as int)),
        decreases n - i,
    {
        let b0 = input[i];
        proof {
            assert(b0 >> 4 < 16 && b0 & 15 < 16) by (bit_vector);
        }
        let h = if b0 >> 4 < 10 {
            (b0 >> 4) + 48
        } else {
            (b0 >> 4) + 87
        };
        let l = if b0 & 15 < 10 {
            (b0 & 15) + 48
        } else {
            (b0 & 15) + 87
        };
        out.push(h);
        out.push(l);
        proof {
            let pre = input@.take(i as int);
            let chunk = input@.subrange(i as int, i as int + 1);
            lemma_hex_concat(pre, chunk);
            assert(pre + chunk =~= input@.take(i as int + 1));
            assert(chunk[0] == b0);
            assert(chunk.skip(1) =~= Seq::<u8>::empty());
            assert(hex_encode_spec(chunk.skip(1)) =~= Seq::<u8>::empty());
            assert(hex_encode_spec(chunk) =~= seq![hex_char_of(b0 >> 4), hex_char_of(b0 & 15)]);
            assert(out@ =~= hex_encode_spec(input@.take(i as int + 1)));
        }
        i = i + 1;
    }
    proof {
        assert(input@.take(i as int) =~= input@);
    }
    out
}

/// Decodes lowercase hex; odd length or any byte outside the alphabet
/// yields `None`.
pub fn hex_decode(s: &Vec<u8>) -> (r: Option<Vec<u8>>)
    ensures
        r matches Some(o) ==> hex_encode_spec(o@) == s@,
        r is None ==> forall|bb: Seq<u8>| hex_encode_spec(bb) != s@,
{
    let n = s.len();
    if n % 2 == 1 {
        proof {
            assert forall|bb: Seq<u8>| hex_encode_spec(bb) != s@ by {
                lemma_hex_len(bb);
            }
        }
        return None;
    }
    let mut out: Vec<u8> = Vec::new();
    let mut i: usize = 0;
    while n - i >= 2
        invariant
            i <= n,
            i % 2 == 0,
            n == s@.len(),
            n % 2 == 0,
            hex_encode_spec(out@) == s@.take(i as int),
        decreases n - i,
    {
        let c0 = s[i];
        let c1 = s[i + 1];
        let v0 = match hex_val(c0) {
            Some(v) => v,
            None => {
                proof {
                    lemma_hex_reject_bad_char(s@, i as int);
                }
                return None;
            },
        };
        let v1 = match hex_val(c1) {
            Some(v) => v,
            None => {
                proof {
                    lemma_hex_reject_bad_char(s@, i as int + 1);
                }
                return None;
            },
        };
        let b0 = (v0 << 4) | v1;
        let ghost pre = out@;
        out.push(b0);
        proof {
            let chunk = seq![b0];
            assert(out@ =~= pre + chunk);
            lemma_hex_concat(pre, chunk);
            assert(b0 >> 4 == v0 && b0 & 15 == v1) by (bit_vector)
                requires
                    v0 < 16 && v1 < 16 && b0 == (v0 << 4) | v1,
            ;
            assert(chunk.skip(1) =~= Seq::<u8>::empty());
            assert(hex_encode_spec(chunk.skip(1)) =~= Seq::<u8>::empty());
            assert(hex_encode_spec(chunk) =~= seq![c0, c1]);
            assert(s@.take(i as int + 2) =~= s@.take(i as int) + seq![c0, c1]);
            assert(hex_encode_spec(out@) == s@.take(i as int + 2));
        }
        i = i + 2;
    }
    proof {
        assert(s@.take(i as int) =~= s@);
    }
    Some(out)
}

/// If some position of `s` is not a hex byte, `s` is not a hex encoding.
proof fn lemma_hex_reject_bad_char(s: Seq<u8>, j: int)
    requires
        0 <= j < s.len(),
        forall|v: u8| v < 16 ==> hex_char_of(v) != s[j],
    ensures
        forall|bb: Seq<u8>| hex_encode_spec(bb) != s,
{
    assert forall|bb: Seq<u8>| hex_encode_spec(bb) != s by {
        if hex_encode_spec(bb) == s {
            lemma_hex_charset(bb);
            assert(is_hex_byte(s[j]));
            if 48 <= s[j] <= 57 {
                assert(hex_char_of((s[j] - 48) as u8) == s[j]);
            } else {
                assert(hex_char_of((s[j] - 87) as u8) == s[j]);
            }
        }
    }
}

/// The canonical hyphenated text form of a 16-byte identifier: the 32
/// lowercase hex characters with hyphens after positions 8, 13, 18, 23.
pub open spec fn uuid_text_spec(b: Seq<u8>) -> Seq<u8>
    recommends
        b.len() == 16,
{
    let h = hex_encode_spec(b);
    h.take(8) + seq![45u8] + h.subrange(8, 12) + seq![45u8] + h.subrange(12, 16) + seq![45u8]
        + h.subrange(16, 20) + seq![45u8] + h.skip(20)
}

/// Shape facts of the hyphenated form: length, hyphen positions, and
/// where each hex character lands.
pub proof fn lemma_uuid_text_parts(b: Seq<u8>)
    requires
        b.len() == 16,
    ensures
        uuid_text_spec(b).len() == 36,
        uuid_text_spec(b)[8] == 45,
        uuid_text_spec(b)[13] == 45,
        uuid_text_spec(b)[18] == 45,
        uuid_text_spec(b)[23] == 45,
        forall|i: int| 0 <= i < 8 ==> #[trigger] uuid_text_spec(b)[i] == hex_encode_spec(b)[i],
        forall|i: int| 9 <= i < 13 ==> #[trigger] uuid_text_spec(b)[i] == hex_encode_spec(b)[i - 1],
        forall|i: int| 14 <= i < 18 ==> #[trigger] uuid_text_spec(b)[i] == hex_encode_spec(b)[i - 2],
        forall|i: int| 19 <= i < 23 ==> #[trigger] uuid_text_spec(b)[i] == hex_encode_spec(b)[i - 3],
        forall|i: int| 24 <= i < 36 ==> #[trigger] uuid_text_spec(b)[i] == hex_encode_spec(b)[i - 4],
{
    lemma_hex_len(b);
}

/// Distinct 16-byte identifiers have distinct text forms.
pub proof fn lemma_uuid_text_injective(b1: Seq<u8>, b2: Seq<u8>)
    requires
        b1.len() == 16,
        b2.len() == 16,
        uuid_text_spec(b1) == uuid_text_spec(b2),
    ensures
        b1 == b2,
{
    lemma_uuid_text_parts(b1);
    lemma_uuid_text_parts(b2);
    lemma_hex_len(b1);
    lemma_hex_len(b2);
    assert forall|i: int| 0 <= i < 32 implies hex_encode_spec(b1)[i] == hex_encode_spec(b2)[i] by {
        if i < 8 {
            assert(uuid_text_spec(b1)[i] == hex_encode_spec(b1)[i]);
            assert(uuid_text_spec(b2)[i] == hex_encode_spec(b2)[i]);
        } else if i < 12 {
            assert(uuid_text_spec(b1)[i + 1] == hex_encode_spec(b1)[i]);
            assert(uuid_text_spec(b2)[i + 1] == hex_encode_spec(b2)[i]);
        } else if i < 16 {
            assert(uuid_text_spec(b1)[i + 2] == hex_encode_spec(b1)[i]);
            assert(uuid_text_spec(b2)[i + 2] == hex_encode_spec(b2)[i]);
        } else if i < 20 {
            assert(uuid_text_spec(b1)[i + 3] == hex_encode_spec(b1)[i]);
            assert(uuid_text_spec(b2)[i + 3] == hex_encode_spec(b2)[i]);
        } else {
            assert(uuid_text_spec(b1)[i + 4] == hex_encode_spec(b1)[i]);
            assert(uuid_text_spec(b2)[i + 4] == hex_encode_spec(b2)[i]);
        }
    }
    assert(hex_encode_spec(b1) =~= hex_encode_spec(b2));
    lemma_hex_injective(b1, b2);
}

/// Appends `src[a..b]` to `out`.
pub fn push_range(out: &mut Vec<u8>, src: &Vec<u8>, a: usize, b: usize)
    requires
        a <= b,
        b <= src@.len(),
    ensures
        final(out)@ == old(out)@ + src@.subrange(a as int, b as int),
{
    let mut j: usize = a;
    while j < b
        invariant
            a <= j <= b,
            b <= src@.len(),
            out@ == old(out)@ + src@.subrange(a as int, j as int),
        decreases b - j,
    {
        let ghost pre = out@;
        out.push(src[j]);
        proof {
            assert(out@ =~= old(out)@ + src@.subrange(a as int, j as int + 1));
        }
        j = j + 1;
    }
    proof {
        assert(out@ =~= old(out)@ + src@.subrange(a as int, b as int));
    }
}

/// Renders a 16-byte identifier in its hyphenated text form.
pub fn uuid_to_text(b: &Vec<u8>) -> (r: Vec<u8>)
    requires
        b@.len() == 16,
    ensures
        r@ == uuid_text_spec(b@),
{
    let hx = hex_encode(b);
    proof {
        lemma_hex_len(b@);
    }
    let mut out: Vec<u8> = Vec::new();
    push_range(&mut out, &hx, 0, 8);
    out.push(45);
    push_range(&mut out, &hx, 8, 12);
    out.push(45);
    push_range(&mut out, &hx, 12, 16);
    out.push(45);
    push_range(&mut out, &hx, 16, 20);
    out.push(45);
    push_range(&mut out, &hx, 20, 32);
    proof {
        let h = hex_encode_spec(b@);
        assert(hx@.subrange(0, 8) =~= h.take(8));
        assert(hx@.subrange(20, 32) =~= h.skip(20));
        assert(out@ =~= uuid_text_spec(b@));
    }
    out
}

/// Parses the hyphenated text form of a 16-byte identifier; only the
/// canonical lowercase form is accepted.
pub fn uuid_from_text(s: &Vec<u8>) -> (r: Option<Vec<u8>>)
    ensures
        r matches Some(o) ==> o@.len() == 16 && uuid_text_spec(o@) == s@,
        r is None ==> forall|bb: Seq<u8>| bb.len() == 16 ==> uuid_text_spec(bb) != s@,
{
    let n = s.len();
    if n != 36 {
        proof {
            assert forall|bb: Seq<u8>| bb.len() == 16 implies uuid_text_spec(bb) != s@ by {
                lemma_uuid_text_parts(bb);
            }
        }
        return None;
    }
    if !(s[8] == 45 && s[13] == 45 && s[18] == 45 && s[23] == 45) {
        proof {
            assert forall|bb: Seq<u8>| bb.len() == 16 implies uuid_text_spec(bb) != s@ by {
                lemma_uuid_text_parts(bb);
            }
        }
        return None;
    }
    let mut hx: Vec<u8> = Vec::new();
    push_range(&mut hx, s, 0, 8);
    push_range(&mut hx, s, 9, 13);
    push_range(&mut hx, s, 14, 18);
    push_range(&mut hx, s, 19, 23);
    push_range(&mut hx, s, 24, 36);
    let o = match hex_decode(&hx) {
        Some(o) => o,
        None => {
            proof {
                assert forall|bb: Seq<u8>| bb.len() == 16 implies uuid_text_spec(bb) != s@ by {
                    if uuid_text_spec(bb) == s@ {
                        lemma_uuid_text_parts(bb);
                        lemma_hex_len(bb);
                        assert(hx@ =~= hex_encode_spec(bb));
                    }
                }
            }
            return None;
        },
    };
    proof {
        lemma_hex_len(o@);
        assert(o@.len() == 16);
        lemma_uuid_text_parts(o@);
        assert(hx@.subrange(0, 8) =~= s@.subrange(0, 8));
        assert(uuid_text_spec(o@) =~= s@);
    }
    Some(o)
}

} // verus!
