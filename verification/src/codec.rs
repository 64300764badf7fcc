//! The wire codec: rendering a secret share link to its URL-shaped
//! byte string and parsing such a string back, with strict validation
//! of host, path shape, segment encodings and field lengths.
//!
//! Grammar, with every fragment base64url-encoded without padding:
//! `scheme://domain/prefix/<subject-uuid>/<bucket-uuid>#<key>#<permissions>#[<expiry>#]<signature>`
//! The fragment count (3 or 4) is the sole signal of an expiry.
use vstd::prelude::*;
use crate::permissions::BucketSharePermissionFlags;
use crate::timestamp::{
    Timestamp,
    timestamp_bytes_spec,
    timestamp_from_bytes,
    push_timestamp,
    lemma_timestamp_bytes_injective,
};
use crate::bytes::{spec_be32, push_be32, read_be32, lemma_be32_roundtrip};
use crate::base64url::{
    b64_encode_spec,
    b64_encode,
    b64_decode,
    b64_len,
    is_b64_byte,
    lemma_b64_encode_len,
    lemma_b64_charset,
    lemma_b64_injective,
};
use crate::hexid::{uuid_text_spec, uuid_to_text, uuid_from_text, lemma_uuid_text_parts, push_range};
use crate::secret_share_link::{SecretShareLink, SecretShareLinkView};

verus! {

/// The configuration the codec consumes but does not own: the scheme,
/// the expected host, and the path prefixes of the two link families.
#[derive(Clone, Debug)]
pub struct LinkCodecConfig {
    pub scheme: Vec<u8>,
    pub domain: Vec<u8>,
    pub secret_share_prefix: Vec<u8>,
    pub share_prefix: Vec<u8>,
}

/// Error kinds of parsing, in the order the checks run: wrong host,
/// wrong path or fragment shape, a segment that does not decode, a
/// decoded field of the wrong size, undefined permission bits.
#[derive(Clone, Copy, Debug, PartialEq, Eq, Structural)]
pub enum SecretShareLinkParsingError {
    InvalidHostDomain,
    InvalidPathShape,
    InvalidEncoding,
    InvalidFieldLength,
    InvalidFlags,
}

/// The fixed head of every link URL: `scheme://domain/prefix/`.
pub open spec fn spec_head(scheme: Seq<u8>, domain: Seq<u8>, prefix: Seq<u8>) -> Seq<u8> {
    scheme + seq![58u8, 47u8, 47u8] + domain + seq![47u8] + prefix + seq![47u8]
}

/// The fragment part of a secret share link: key, permissions, the
/// expiry when present, then the signature, separated by `#`.
pub open spec fn spec_fragments(v: SecretShareLinkView) -> Seq<u8> {
    b64_encode_spec(v.bucket_key) + seq![35u8] + b64_encode_spec(spec_be32(v.permission_bits))
        + seq![35u8] + (match v.expires {
        Some(t) => b64_encode_spec(timestamp_bytes_spec(t)) + seq![35u8],
        None => Seq::empty(),
    }) + b64_encode_spec(v.signature)
}

/// The whole URL of a secret share link.
pub open spec fn spec_url(
    v: SecretShareLinkView,
    scheme: Seq<u8>,
    domain: Seq<u8>,
    prefix: Seq<u8>,
) -> Seq<u8> {
    spec_head(scheme, domain, prefix) + uuid_text_spec(v.user_id) + seq![47u8] + uuid_text_spec(
        v.bucket_id,
    ) + seq![35u8] + spec_fragments(v)
}

/// The base64url lengths of the fixed-size fields.
pub proof fn lemma_frag_lens(v: SecretShareLinkView)
    requires
        v.wf(),
    ensures
        b64_encode_spec(v.bucket_key).len() == 43,
        b64_encode_spec(spec_be32(v.permission_bits)).len() == 6,
        match v.expires {
            Some(t) => b64_encode_spec(timestamp_bytes_spec(t)).len() == 18,
            None => true,
        },
        b64_encode_spec(v.signature).len() == 86,
        spec_fragments(v).len() == (if v.expires is Some {
            156int
        } else {
            137int
        }),
{
    lemma_b64_encode_len(v.bucket_key);
    lemma_b64_encode_len(spec_be32(v.permission_bits));
    lemma_b64_encode_len(v.signature);
    assert(b64_len(32) == 43 && b64_len(4) == 6 && b64_len(13) == 18 && b64_len(64) == 86) by {
        reveal_with_fuel(b64_len, 23);
    }
    match v.expires {
        Some(t) => {
            lemma_b64_encode_len(timestamp_bytes_spec(t));
            assert(timestamp_bytes_spec(t).len() == 13);
        },
        None => {},
    }
}

/// Renders a secret share link to its URL bytes.
#[verifier::rlimit(80)]
pub fn encode_secret_share_link(link: &SecretShareLink, cfg: &LinkCodecConfig) -> (r: Vec<u8>)
    requires
        link.wf(),
    ensures
        r@ == spec_url(link@, cfg.scheme@, cfg.domain@, cfg.secret_share_prefix@),
{
    let mut out: Vec<u8> = Vec::new();
    push_range(&mut out, &cfg.scheme, 0, cfg.scheme.len());
    out.push(58);
    out.push(47);
    out.push(47);
    push_range(&mut out, &cfg.domain, 0, cfg.domain.len());
    out.push(47);
    push_range(&mut out, &cfg.secret_share_prefix, 0, cfg.secret_share_prefix.len());
    out.push(47);
    let u1 = uuid_to_text(&link.user_id);
    push_range(&mut out, &u1, 0, u1.len());
    out.push(47);
    let u2 = uuid_to_text(&link.bucket_id);
    push_range(&mut out, &u2, 0, u2.len());
    out.push(35);
    let key_seg = b64_encode(&link.bucket_key);
    push_range(&mut out, &key_seg, 0, key_seg.len());
    out.push(35);
    let mut perm_bytes: Vec<u8> = Vec::new();
    push_be32(&mut perm_bytes, link.permission.to_bits());
    let perm_seg = b64_encode(&perm_bytes);
    push_range(&mut out, &perm_seg, 0, perm_seg.len());
    out.push(35);
    match link.expires {
        Some(t) => {
            let mut ts_bytes: Vec<u8> = Vec::new();
            push_timestamp(&mut ts_bytes, t);
            let ts_seg = b64_encode(&ts_bytes);
            push_range(&mut out, &ts_seg, 0, ts_seg.len());
            out.push(35);
        },
        None => {},
    }
    let sig_seg = b64_encode(&link.signature);
    push_range(&mut out, &sig_seg, 0, sig_seg.len());
    proof {
        assert(cfg.scheme@.subrange(0, cfg.scheme@.len() as int) =~= cfg.scheme@);
        assert(cfg.domain@.subrange(0, cfg.domain@.len() as int) =~= cfg.domain@);
        assert(cfg.secret_share_prefix@.subrange(0, cfg.secret_share_prefix@.len() as int)
            =~= cfg.secret_share_prefix@);
        assert(u1@.subrange(0, u1@.len() as int) =~= u1@);
        assert(u2@.subrange(0, u2@.len() as int) =~= u2@);
        assert(key_seg@.subrange(0, key_seg@.len() as int) =~= key_seg@);
        assert(perm_seg@.subrange(0, perm_seg@.len() as int) =~= perm_seg@);
        assert(sig_seg@.subrange(0, sig_seg@.len() as int) =~= sig_seg@);
        assert(out@ =~= spec_url(link@, cfg.scheme@, cfg.domain@, cfg.secret_share_prefix@));
    }
    out
}

/// Positions of every piece of a well-formed link URL, relative to the
/// head length `hl`.
pub proof fn lemma_spec_url_parts(
    v: SecretShareLinkView,
    scheme: Seq<u8>,
    domain: Seq<u8>,
    prefix: Seq<u8>,
)
    requires
        v.wf(),
    ensures
        ({
            let u = spec_url(v, scheme, domain, prefix);
            let sl = scheme.len() as int;
            let dl = domain.len() as int;
            let pl = prefix.len() as int;
            let hl = sl + 3 + dl + 1 + pl + 1;
            &&& u.len() == hl + 74 + spec_fragments(v).len()
            &&& u.subrange(0, sl) == scheme
            &&& u[sl] == 58
            &&& u[sl + 1] == 47
            &&& u[sl + 2] == 47
            &&& u.subrange(sl + 3, sl + 3 + dl) == domain
            &&& u[sl + 3 + dl] == 47
            &&& u.subrange(sl + 4 + dl, sl + 4 + dl + pl) == prefix
            &&& u[hl - 1] == 47
            &&& u.subrange(hl, hl + 36) == uuid_text_spec(v.user_id)
            &&& u[hl + 36] == 47
            &&& u.subrange(hl + 37, hl + 73) == uuid_text_spec(v.bucket_id)
            &&& u[hl + 73] == 35
            &&& u.subrange(hl + 74, u.len() as int) == spec_fragments(v)
        }),
{
    lemma_uuid_text_parts(v.user_id);
    lemma_uuid_text_parts(v.bucket_id);
    let u = spec_url(v, scheme, domain, prefix);
    let sl = scheme.len() as int;
    let dl = domain.len() as int;
    let pl = prefix.len() as int;
    let hl = sl + 3 + dl + 1 + pl + 1;
    assert(u.subrange(0, sl) =~= scheme);
    assert(u.subrange(sl + 3, sl + 3 + dl) =~= domain);
    assert(u.subrange(sl + 4 + dl, sl + 4 + dl + pl) =~= prefix);
    assert(u.subrange(hl, hl + 36) =~= uuid_text_spec(v.user_id));
    assert(u.subrange(hl + 37, hl + 73) =~= uuid_text_spec(v.bucket_id));
    assert(u.subrange(hl + 74, u.len() as int) =~= spec_fragments(v));
}

/// Positions of every piece of the fragment part, and that `#` occurs
/// only at the separator positions.
pub proof fn lemma_fragments_parts(v: SecretShareLinkView)
    requires
        v.wf(),
    ensures
        ({
            let f = spec_fragments(v);
            &&& f.subrange(0, 43) == b64_encode_spec(v.bucket_key)
            &&& f[43] == 35
            &&& f.subrange(44, 50) == b64_encode_spec(spec_be32(v.permission_bits))
            &&& f[50] == 35
            &&& (v.expires matches Some(t) ==> f.subrange(51, 69) == b64_encode_spec(
                timestamp_bytes_spec(t),
            ) && f[69] == 35 && f.subrange(70, 156) == b64_encode_spec(v.signature))
            &&& (v.expires is None ==> f.subrange(51, 137) == b64_encode_spec(v.signature))
            &&& forall|i: int|
                0 <= i < f.len() && i != 43 && i != 50 && !(v.expires is Some && i == 69)
                    ==> #[trigger] f[i] != 35
        }),
{
    lemma_frag_lens(v);
    let f = spec_fragments(v);
    let ek = b64_encode_spec(v.bucket_key);
    let ep = b64_encode_spec(spec_be32(v.permission_bits));
    let es = b64_encode_spec(v.signature);
    lemma_b64_charset(v.bucket_key);
    lemma_b64_charset(spec_be32(v.permission_bits));
    lemma_b64_charset(v.signature);
    assert(f.subrange(0, 43) =~= ek);
    assert(f.subrange(44, 50) =~= ep);
    match v.expires {
        Some(t) => {
            let et = b64_encode_spec(timestamp_bytes_spec(t));
            lemma_b64_charset(timestamp_bytes_spec(t));
            assert(f.subrange(51, 69) =~= et);
            assert(f.subrange(70, 156) =~= es);
            assert forall|i: int|
                0 <= i < f.len() && i != 43 && i != 50 && !(v.expires is Some && i == 69) implies #[trigger] f[i]
                != 35 by {
                if i < 43 {
                    assert(f[i] == ek[i]);
                    assert(is_b64_byte(ek[i]));
                } else if 44 <= i < 50 {
                    assert(f[i] == ep[i - 44]);
                    assert(is_b64_byte(ep[i - 44]));
                } else if 51 <= i < 69 {
                    assert(f[i] == et[i - 51]);
                    assert(is_b64_byte(et[i - 51]));
                } else {
                    assert(f[i] == es[i - 70]);
                    assert(is_b64_byte(es[i - 70]));
                }
            }
        },
        None => {
            assert(f.subrange(51, 137) =~= es);
            assert forall|i: int|
                0 <= i < f.len() && i != 43 && i != 50 && !(v.expires is Some && i == 69) implies #[trigger] f[i]
                != 35 by {
                if i < 43 {
                    assert(f[i] == ek[i]);
                    assert(is_b64_byte(ek[i]));
                } else if 44 <= i < 50 {
                    assert(f[i] == ep[i - 44]);
                    assert(is_b64_byte(ep[i - 44]));
                } else {
                    assert(f[i] == es[i - 51]);
                    assert(is_b64_byte(es[i - 51]));
                }
            }
        },
    }
}

/// If a well-formed link URL equals `s`, the scan of `#` positions over
/// the fragment region is forced: there are exactly two or three, at
/// fixed offsets, and every segment of `s` equals the encoding of the
/// corresponding field.
#[verifier::rlimit(60)]
proof fn lemma_forced_layout(
    v: SecretShareLinkView,
    scheme: Seq<u8>,
    domain: Seq<u8>,
    prefix: Seq<u8>,
    s: Seq<u8>,
    pos: Seq<usize>,
    fr: int,
)
    requires
        v.wf(),
        spec_url(v, scheme, domain, prefix) == s,
        fr == scheme.len() + 3 + domain.len() + 1 + prefix.len() + 1 + 74,
        forall|k: int|
            0 <= k < pos.len() ==> fr <= #[trigger] pos[k] < s.len() && s[pos[k] as int] == 35,
        forall|idx: int|
            fr <= idx < s.len() && s[idx] == 35 ==> exists|k: int| 0 <= k < pos.len() && pos[k]
                == idx,
        forall|k1: int, k2: int| 0 <= k1 < k2 < pos.len() ==> pos[k1] < pos[k2],
    ensures
        v.expires is Some ==> pos.len() == 3 && pos[2] == fr + 69,
        v.expires is None ==> pos.len() == 2,
        pos.len() == 2 || pos.len() == 3,
        pos[0] == fr + 43,
        pos[1] == fr + 50,
        s.len() == fr + spec_fragments(v).len(),
        s.subrange(fr, fr + 43) == b64_encode_spec(v.bucket_key),
        s.subrange(fr + 44, fr + 50) == b64_encode_spec(spec_be32(v.permission_bits)),
        v.expires matches Some(t) ==> s.subrange(fr + 51, fr + 69) == b64_encode_spec(
            timestamp_bytes_spec(t),
        ) && s.subrange(fr + 70, s.len() as int) == b64_encode_spec(v.signature),
        v.expires is None ==> s.subrange(fr + 51, s.len() as int) == b64_encode_spec(v.signature),
{
    lemma_spec_url_parts(v, scheme, domain, prefix);
    lemma_fragments_parts(v);
    lemma_frag_lens(v);
    let u = spec_url(v, scheme, domain, prefix);
    let f = spec_fragments(v);
    assert(u.subrange(fr, u.len() as int) == f);
    assert(s.len() == fr + f.len());
    assert forall|i: int| 0 <= i < f.len() implies s[fr + i] == #[trigger] f[i] by {
        assert(f[i] == u.subrange(fr, u.len() as int)[i]);
    }
    let a = fr + 43;
    let b = fr + 50;
    let c = fr + 69;
    assert(s[a] == 35 && s[b] == 35);
    assert forall|idx: int|
        fr <= idx < s.len() && idx != a && idx != b && !(v.expires is Some && idx == c) implies s[idx]
        != 35 by {
        assert(s[idx] == f[idx - fr]);
    }
    let ka = choose|k: int| 0 <= k < pos.len() && pos[k] == a;
    let kb = choose|k: int| 0 <= k < pos.len() && pos[k] == b;
    assert(0 <= ka < pos.len() && pos[ka] == a);
    assert(0 <= kb < pos.len() && pos[kb] == b);
    assert(ka != kb);
    if v.expires is Some {
        assert(s[c] == f[c - fr]);
        assert(s[c] == 35);
        let kc = choose|k: int| 0 <= k < pos.len() && pos[k] == c;
        assert(0 <= kc < pos.len() && pos[kc] == c);
        assert(pos.len() >= 3) by {
            if pos.len() <= 2 {
                assert(ka == 0 || ka == 1);
                assert(kb == 0 || kb == 1);
                assert(kc == 0 || kc == 1);
            }
        }
        assert(pos.len() <= 3) by {
            if pos.len() >= 4 {
                assert(pos[0] < pos[1] < pos[2] < pos[3]);
                assert(pos[0] == a || pos[0] == b || pos[0] == c);
                assert(pos[1] == a || pos[1] == b || pos[1] == c);
                assert(pos[2] == a || pos[2] == b || pos[2] == c);
                assert(pos[3] == a || pos[3] == b || pos[3] == c);
            }
        }
        assert(pos.len() == 3);
        assert(ka == 0) by {
            if ka == 1 {
                assert(pos[0] < a);
                assert(pos[0] == b || pos[0] == c);
            }
            if ka == 2 {
                assert(pos[1] < a && pos[0] < a);
                assert(pos[0] == b || pos[0] == c);
            }
        }
        assert(kb == 1) by {
            if kb == 0 {
                assert(pos[1] > b && pos[2] > pos[1]);
                assert(pos[1] == a || pos[1] == c);
                assert(pos[2] == a || pos[2] == c);
            }
            if kb == 2 {
                assert(pos[1] < b && pos[1] != a);
                assert(pos[1] == c);
            }
        }
        assert(kc == 2);
        assert(s.subrange(fr + 51, fr + 69) =~= f.subrange(51, 69));
        assert(s.subrange(fr + 70, s.len() as int) =~= f.subrange(70, 156));
    } else {
        assert(pos.len() >= 2) by {
            if pos.len() <= 1 {
                assert(ka == 0 && kb == 0);
            }
        }
        assert(pos.len() <= 2) by {
            if pos.len() >= 3 {
                assert(pos[0] < pos[1] < pos[2]);
                assert(pos[0] == a || pos[0] == b);
                assert(pos[1] == a || pos[1] == b);
                assert(pos[2] == a || pos[2] == b);
            }
        }
        assert(pos.len() == 2);
        assert(ka == 0) by {
            if ka == 1 {
                assert(pos[0] < a && pos[0] == b);
            }
        }
        assert(kb == 1);
        assert(s.subrange(fr + 51, s.len() as int) =~= f.subrange(51, 137));
    }
    assert(s.subrange(fr, fr + 43) =~= f.subrange(0, 43));
    assert(s.subrange(fr + 44, fr + 50) =~= f.subrange(44, 50));
}

/// Whether `s` holds `pat` starting at `off`.
pub(crate) fn starts_with_at(s: &Vec<u8>, off: usize, pat: &Vec<u8>) -> (r: bool)
    requires
        off <= s@.len(),
    ensures
        r == (off + pat@.len() <= s@.len() && s@.subrange(
            off as int,
            off as int + pat@.len() as int,
        ) == pat@),
{
    let n = s.len();
    let m = pat.len();
    if n - off < m {
        return false;
    }
    let mut j: usize = 0;
    while j < m
        invariant
            j <= m,
            off + m <= n,
            n == s@.len(),
            m == pat@.len(),
            forall|k: int| 0 <= k < j ==> s@[off + k] == pat@[k],
        decreases m - j,
    {
        if s[off + j] != pat[j] {
            proof {
                let sub = s@.subrange(off as int, off as int + m as int);
                assert(sub[j as int] == s@[off + j as int]);
            }
            return false;
        }
        j = j + 1;
    }
    proof {
        assert(s@.subrange(off as int, off as int + m as int) =~= pat@);
    }
    true
}

/// Whether two byte vectors hold the same bytes.
pub(crate) fn bytes_eq(a: &Vec<u8>, b: &Vec<u8>) -> (r: bool)
    ensures
        r == (a@ == b@),
{
    let n = a.len();
    if n != b.len() {
        return false;
    }
    let mut j: usize = 0;
    while j < n
        invariant
            j <= n,
            n == a@.len(),
            n == b@.len(),
            forall|k: int| 0 <= k < j ==> a@[k] == b@[k],
        decreases n - j,
    {
        if a[j] != b[j] {
            return false;
        }
        j = j + 1;
    }
    proof {
        assert(a@ =~= b@);
    }
    true
}

/// Copies `s[a..b]` out as a fresh vector.
fn sub_vec(s: &Vec<u8>, a: usize, b: usize) -> (r: Vec<u8>)
    requires
        a <= b,
        b <= s@.len(),
    ensures
        r@ == s@.subrange(a as int, b as int),
{
    let mut v: Vec<u8> = Vec::new();
    push_range(&mut v, s, a, b);
    v
}

/// Collects, in increasing order, every index of `#` in `s[from..]`.
fn find_hashes(s: &Vec<u8>, from: usize) -> (pos: Vec<usize>)
    requires
        from <= s@.len(),
    ensures
        forall|k: int|
            0 <= k < pos@.len() ==> from <= #[trigger] pos@[k] < s@.len() && s@[pos@[k] as int]
                == 35,
        forall|idx: int|
            from <= idx < s@.len() && s@[idx] == 35 ==> exists|k: int|
                0 <= k < pos@.len() && pos@[k] == idx,
        forall|k1: int, k2: int| 0 <= k1 < k2 < pos@.len() ==> pos@[k1] < pos@[k2],
{
    let n = s.len();
    let mut pos: Vec<usize> = Vec::new();
    let mut j: usize = from;
    while j < n
        invariant
            from <= j <= n,
            n == s@.len(),
            forall|k: int|
                0 <= k < pos@.len() ==> from <= #[trigger] pos@[k] < j && s@[pos@[k] as int] == 35,
            forall|idx: int|
                from <= idx < j && s@[idx] == 35 ==> exists|k: int|
                    0 <= k < pos@.len() && pos@[k] == idx,
            forall|k1: int, k2: int| 0 <= k1 < k2 < pos@.len() ==> pos@[k1] < pos@[k2],
        decreases n - j,
    {
        if s[j] == 35 {
            let ghost old_pos = pos@;
            pos.push(j);
            proof {
                assert forall|idx: int| from <= idx < j + 1 && s@[idx] == 35 implies exists|k: int|
                    0 <= k < pos@.len() && pos@[k] == idx by {
                    if idx < j {
                        let k = choose|k: int| 0 <= k < old_pos.len() && old_pos[k] == idx;
                        assert(pos@[k] == idx);
                    } else {
                        assert(pos@[pos@.len() - 1] == idx);
                    }
                }
            }
        }
        j = j + 1;
    }
    pos
}

/// The configuration strings are ASCII, as host names and URL paths
/// are.
pub open spec fn cfg_ascii(cfg: LinkCodecConfig) -> bool {
    &&& crate::strconv::ascii_seq(cfg.scheme@)
    &&& crate::strconv::ascii_seq(cfg.domain@)
    &&& crate::strconv::ascii_seq(cfg.secret_share_prefix@)
    &&& crate::strconv::ascii_seq(cfg.share_prefix@)
}

/// With an ASCII configuration every byte of a link URL is ASCII: the
/// identifiers render as hex with hyphens and the fragments as
/// base64url, all below 128.
pub proof fn lemma_spec_url_ascii(
    v: SecretShareLinkView,
    scheme: Seq<u8>,
    domain: Seq<u8>,
    prefix: Seq<u8>,
)
    requires
        v.wf(),
        crate::strconv::ascii_seq(scheme),
        crate::strconv::ascii_seq(domain),
        crate::strconv::ascii_seq(prefix),
    ensures
        crate::strconv::ascii_seq(spec_url(v, scheme, domain, prefix)),
{
    let u = spec_url(v, scheme, domain, prefix);
    let sl = scheme.len() as int;
    let dl = domain.len() as int;
    let pl = prefix.len() as int;
    let hl = sl + 3 + dl + 1 + pl + 1;
    lemma_spec_url_parts(v, scheme, domain, prefix);
    lemma_fragments_parts(v);
    lemma_frag_lens(v);
    lemma_uuid_text_ascii(v.user_id);
    lemma_uuid_text_ascii(v.bucket_id);
    let f = spec_fragments(v);
    lemma_fragments_ascii(v);
    assert forall|i: int| 0 <= i < u.len() implies u[i] < 128 by {
        if i < sl {
            assert(u[i] == u.subrange(0, sl)[i]);
        } else if i < sl + 3 {
        } else if i < sl + 3 + dl {
            assert(u[i] == u.subrange(sl + 3, sl + 3 + dl)[i - (sl + 3)]);
        } else if i == sl + 3 + dl {
        } else if i < sl + 4 + dl + pl {
            assert(u[i] == u.subrange(sl + 4 + dl, sl + 4 + dl + pl)[i - (sl + 4 + dl)]);
        } else if i == hl - 1 {
        } else if i < hl + 36 {
            assert(u[i] == u.subrange(hl, hl + 36)[i - hl]);
        } else if i == hl + 36 {
        } else if i < hl + 73 {
            assert(u[i] == u.subrange(hl + 37, hl + 73)[i - (hl + 37)]);
        } else if i == hl + 73 {
        } else {
            assert(u[i] == u.subrange(hl + 74, u.len() as int)[i - (hl + 74)]);
        }
    }
}

/// Every byte of the hyphenated identifier form is ASCII.
proof fn lemma_uuid_text_ascii(b: Seq<u8>)
    requires
        b.len() == 16,
    ensures
        crate::strconv::ascii_seq(uuid_text_spec(b)),
{
    lemma_uuid_text_parts(b);
    crate::hexid::lemma_hex_charset(b);
    crate::hexid::lemma_hex_len(b);
    let t = uuid_text_spec(b);
    assert forall|i: int| 0 <= i < t.len() implies t[i] < 128 by {
        if i == 8 || i == 13 || i == 18 || i == 23 {
        } else if i < 8 {
            assert(t[i] == crate::hexid::hex_encode_spec(b)[i]);
            assert(crate::hexid::is_hex_byte(crate::hexid::hex_encode_spec(b)[i]));
        } else if i < 13 {
            assert(t[i] == crate::hexid::hex_encode_spec(b)[i - 1]);
            assert(crate::hexid::is_hex_byte(crate::hexid::hex_encode_spec(b)[i - 1]));
        } else if i < 18 {
            assert(t[i] == crate::hexid::hex_encode_spec(b)[i - 2]);
            assert(crate::hexid::is_hex_byte(crate::hexid::hex_encode_spec(b)[i - 2]));
        } else if i < 23 {
            assert(t[i] == crate::hexid::hex_encode_spec(b)[i - 3]);
            assert(crate::hexid::is_hex_byte(crate::hexid::hex_encode_spec(b)[i - 3]));
        } else {
            assert(t[i] == crate::hexid::hex_encode_spec(b)[i - 4]);
            assert(crate::hexid::is_hex_byte(crate::hexid::hex_encode_spec(b)[i - 4]));
        }
    }
}

/// Every byte of the fragment region is ASCII.
proof fn lemma_fragments_ascii(v: SecretShareLinkView)
    requires
        v.wf(),
    ensures
        crate::strconv::ascii_seq(spec_fragments(v)),
{
    lemma_fragments_parts(v);
    lemma_frag_lens(v);
    let f = spec_fragments(v);
    let ek = b64_encode_spec(v.bucket_key);
    let ep = b64_encode_spec(spec_be32(v.permission_bits));
    let es = b64_encode_spec(v.signature);
    lemma_b64_charset(v.bucket_key);
    lemma_b64_charset(spec_be32(v.permission_bits));
    lemma_b64_charset(v.signature);
    assert forall|i: int| 0 <= i < f.len() implies f[i] < 128 by {
        if i == 43 || i == 50 {
        } else if i < 43 {
            assert(f[i] == f.subrange(0, 43)[i]);
            assert(is_b64_byte(ek[i]));
        } else if i < 50 {
            assert(f[i] == f.subrange(44, 50)[i - 44]);
            assert(is_b64_byte(ep[i - 44]));
        } else {
            match v.expires {
                Some(t) => {
                    let et = b64_encode_spec(timestamp_bytes_spec(t));
                    lemma_b64_charset(timestamp_bytes_spec(t));
                    if i < 69 {
                        assert(f[i] == f.subrange(51, 69)[i - 51]);
                        assert(is_b64_byte(et[i - 51]));
                    } else if i == 69 {
                    } else {
                        assert(f[i] == f.subrange(70, 156)[i - 70]);
                        assert(is_b64_byte(es[i - 70]));
                    }
                },
                None => {
                    assert(f[i] == f.subrange(51, 137)[i - 51]);
                    assert(is_b64_byte(es[i - 51]));
                },
            }
        }
    }
}

/// Round-trip law: under one configuration, two well-formed links with
/// the same URL are the same link, in every field including the
/// signature.  Together with the codec contracts this pins decoding of
/// an encoded link down to the original.  The length bound only keeps
/// the URL addressable.
pub proof fn lemma_url_injective(
    v1: SecretShareLinkView,
    v2: SecretShareLinkView,
    scheme: Seq<u8>,
    domain: Seq<u8>,
    prefix: Seq<u8>,
)
    requires
        v1.wf(),
        v2.wf(),
        spec_url(v1, scheme, domain, prefix) == spec_url(v2, scheme, domain, prefix),
        spec_url(v1, scheme, domain, prefix).len() <= usize::MAX,
    ensures
        v1 == v2,
{
    let s = spec_url(v1, scheme, domain, prefix);
    let hl = scheme.len() as int + 3 + domain.len() + 1 + prefix.len() + 1;
    let fr = hl + 74;
    lemma_spec_url_parts(v1, scheme, domain, prefix);
    lemma_spec_url_parts(v2, scheme, domain, prefix);
    lemma_fragments_parts(v1);
    lemma_frag_lens(v1);
    crate::hexid::lemma_uuid_text_injective(v1.user_id, v2.user_id);
    crate::hexid::lemma_uuid_text_injective(v1.bucket_id, v2.bucket_id);
    let pos: Seq<usize> = if v1.expires is Some {
        seq![(fr + 43) as usize, (fr + 50) as usize, (fr + 69) as usize]
    } else {
        seq![(fr + 43) as usize, (fr + 50) as usize]
    };
    let f1 = spec_fragments(v1);
    assert(s.subrange(fr, s.len() as int) == f1);
    assert forall|i: int| 0 <= i < f1.len() implies s[fr + i] == #[trigger] f1[i] by {
        assert(f1[i] == s.subrange(fr, s.len() as int)[i]);
    }
    assert forall|k: int|
        0 <= k < pos.len() implies fr <= #[trigger] pos[k] < s.len() && s[pos[k] as int] == 35 by {
        assert(f1[pos[k] - fr] == 35);
    }
    assert forall|idx: int|
        fr <= idx < s.len() && s[idx] == 35 implies exists|k: int|
            0 <= k < pos.len() && pos[k] == idx by {
        assert(s[idx] == f1[idx - fr]);
        if idx == fr + 43 {
            assert(pos[0] == idx);
        } else if idx == fr + 50 {
            assert(pos[1] == idx);
        } else {
            assert(v1.expires is Some && idx == fr + 69);
            assert(pos[2] == idx);
        }
    }
    lemma_forced_layout(v1, scheme, domain, prefix, s, pos, fr);
    lemma_forced_layout(v2, scheme, domain, prefix, s, pos, fr);
    lemma_b64_injective(v1.bucket_key, v2.bucket_key);
    lemma_b64_injective(spec_be32(v1.permission_bits), spec_be32(v2.permission_bits));
    lemma_be32_roundtrip(v1.permission_bits);
    lemma_be32_roundtrip(v2.permission_bits);
    if v1.expires is Some {
        lemma_b64_injective(
            timestamp_bytes_spec(v1.expires->0),
            timestamp_bytes_spec(v2.expires->0),
        );
        lemma_timestamp_bytes_injective(v1.expires->0, v2.expires->0);
    }
    lemma_b64_injective(v1.signature, v2.signature);
    assert(v1 =~= v2);
}

/// No well-formed link renders to `s` under this configuration.
#[verifier::opaque]
pub open spec fn spec_no_valid_url(
    s: Seq<u8>,
    scheme: Seq<u8>,
    domain: Seq<u8>,
    prefix: Seq<u8>,
) -> bool {
    forall|v: SecretShareLinkView| v.wf() ==> spec_url(v, scheme, domain, prefix) != s
}

/// Validates the host and path of a link URL and parses the two
/// identifiers; `Ok` returns them with the index where the fragment
/// region starts.
#[verifier::rlimit(60)]
fn parse_head_and_ids(s: &Vec<u8>, cfg: &LinkCodecConfig) -> (r: Result<
    (Vec<u8>, Vec<u8>, usize),
    SecretShareLinkParsingError,
>)
    ensures
        r matches Ok(t) ==> ({
            &&& t.0@.len() == 16
            &&& t.1@.len() == 16
            &&& t.2 as int == cfg.scheme@.len() + 3 + cfg.domain@.len() + 1
                + cfg.secret_share_prefix@.len() + 1 + 74
            &&& t.2 <= s@.len()
            &&& uuid_text_spec(t.0@) == s@.subrange(t.2 as int - 74, t.2 as int - 38)
            &&& uuid_text_spec(t.1@) == s@.subrange(t.2 as int - 37, t.2 as int - 1)
        }),
        r is Err ==> spec_no_valid_url(s@, cfg.scheme@, cfg.domain@, cfg.secret_share_prefix@),
{
    let ghost sch = cfg.scheme@;
    let ghost dom = cfg.domain@;
    let ghost pre = cfg.secret_share_prefix@;
    let n = s.len();
    if !starts_with_at(s, 0, &cfg.scheme) {
        proof {
            assert(spec_no_valid_url(s@, sch, dom, pre)) by {
                reveal(spec_no_valid_url);
                assert forall|v: SecretShareLinkView| v.wf() implies spec_url(v, sch, dom, pre)
                    != s@ by {
                    if spec_url(v, sch, dom, pre) == s@ {
                        lemma_spec_url_parts(v, sch, dom, pre);
                    }
                }
            }
        }
        return Err(SecretShareLinkParsingError::InvalidHostDomain);
    }
    let mut off: usize = cfg.scheme.len();
    if n - off < 3 || !(s[off] == 58 && s[off + 1] == 47 && s[off + 2] == 47) {
        proof {
            assert(spec_no_valid_url(s@, sch, dom, pre)) by {
                reveal(spec_no_valid_url);
                assert forall|v: SecretShareLinkView| v.wf() implies spec_url(v, sch, dom, pre)
                    != s@ by {
                    if spec_url(v, sch, dom, pre) == s@ {
                        lemma_spec_url_parts(v, sch, dom, pre);
                    }
                }
            }
        }
        return Err(SecretShareLinkParsingError::InvalidHostDomain);
    }
    off = off + 3;
    if !starts_with_at(s, off, &cfg.domain) {
        proof {
            assert(spec_no_valid_url(s@, sch, dom, pre)) by {
                reveal(spec_no_valid_url);
                assert forall|v: SecretShareLinkView| v.wf() implies spec_url(v, sch, dom, pre)
                    != s@ by {
                    if spec_url(v, sch, dom, pre) == s@ {
                        lemma_spec_url_parts(v, sch, dom, pre);
                    }
                }
            }
        }
        return Err(SecretShareLinkParsingError::InvalidHostDomain);
    }
    off = off + cfg.domain.len();
    if n - off < 1 || s[off] != 47 {
        proof {
            assert(spec_no_valid_url(s@, sch, dom, pre)) by {
                reveal(spec_no_valid_url);
                assert forall|v: SecretShareLinkView| v.wf() implies spec_url(v, sch, dom, pre)
                    != s@ by {
                    if spec_url(v, sch, dom, pre) == s@ {
                        lemma_spec_url_parts(v, sch, dom, pre);
                    }
                }
            }
        }
        return Err(SecretShareLinkParsingError::InvalidHostDomain);
    }
    off = off + 1;
    if !starts_with_at(s, off, &cfg.secret_share_prefix) {
        proof {
            assert(spec_no_valid_url(s@, sch, dom, pre)) by {
                reveal(spec_no_valid_url);
                assert forall|v: SecretShareLinkView| v.wf() implies spec_url(v, sch, dom, pre)
                    != s@ by {
                    if spec_url(v, sch, dom, pre) == s@ {
                        lemma_spec_url_parts(v, sch, dom, pre);
                    }
                }
            }
        }
        return Err(SecretShareLinkParsingError::InvalidPathShape);
    }
    off = off + cfg.secret_share_prefix.len();
    if n - off < 1 || s[off] != 47 {
        proof {
            assert(spec_no_valid_url(s@, sch, dom, pre)) by {
                reveal(spec_no_valid_url);
                assert forall|v: SecretShareLinkView| v.wf() implies spec_url(v, sch, dom, pre)
                    != s@ by {
                    if spec_url(v, sch, dom, pre) == s@ {
                        lemma_spec_url_parts(v, sch, dom, pre);
                    }
                }
            }
        }
        return Err(SecretShareLinkParsingError::InvalidPathShape);
    }
    off = off + 1;
    let ghost hl = sch.len() + 3 + dom.len() + 1 + pre.len() + 1;
    proof {
        assert(off == hl);
    }
    // Path: the two 36-character identifiers, then the first `#`.
    if n - off < 74 {
        proof {
            assert(spec_no_valid_url(s@, sch, dom, pre)) by {
                reveal(spec_no_valid_url);
                assert forall|v: SecretShareLinkView| v.wf() implies spec_url(v, sch, dom, pre)
                    != s@ by {
                    if spec_url(v, sch, dom, pre) == s@ {
                        lemma_spec_url_parts(v, sch, dom, pre);
                        lemma_frag_lens(v);
                    }
                }
            }
        }
        return Err(SecretShareLinkParsingError::InvalidPathShape);
    }
    let useg = sub_vec(s, off, off + 36);
    let user_id = match uuid_from_text(&useg) {
        Some(u) => u,
        None => {
            proof {
                assert(spec_no_valid_url(s@, sch, dom, pre)) by {
                    reveal(spec_no_valid_url);
                    assert forall|v: SecretShareLinkView| v.wf() implies spec_url(v, sch, dom, pre)
                        != s@ by {
                        if spec_url(v, sch, dom, pre) == s@ {
                            lemma_spec_url_parts(v, sch, dom, pre);
                            assert(useg@ =~= uuid_text_spec(v.user_id));
                        }
                    }
                }
            }
            return Err(SecretShareLinkParsingError::InvalidEncoding);
        },
    };
    if s[off + 36] != 47 {
        proof {
            assert(spec_no_valid_url(s@, sch, dom, pre)) by {
                reveal(spec_no_valid_url);
                assert forall|v: SecretShareLinkView| v.wf() implies spec_url(v, sch, dom, pre)
                    != s@ by {
                    if spec_url(v, sch, dom, pre) == s@ {
                        lemma_spec_url_parts(v, sch, dom, pre);
                    }
                }
            }
        }
        return Err(SecretShareLinkParsingError::InvalidPathShape);
    }
    let bseg = sub_vec(s, off + 37, off + 73);
    let bucket_id = match uuid_from_text(&bseg) {
        Some(u) => u,
        None => {
            proof {
                assert(spec_no_valid_url(s@, sch, dom, pre)) by {
                    reveal(spec_no_valid_url);
                    assert forall|v: SecretShareLinkView| v.wf() implies spec_url(v, sch, dom, pre)
                        != s@ by {
                        if spec_url(v, sch, dom, pre) == s@ {
                            lemma_spec_url_parts(v, sch, dom, pre);
                            assert(bseg@ =~= uuid_text_spec(v.bucket_id));
                        }
                    }
                }
            }
            return Err(SecretShareLinkParsingError::InvalidEncoding);
        },
    };
    if s[off + 73] != 35 {
        proof {
            assert(spec_no_valid_url(s@, sch, dom, pre)) by {
                reveal(spec_no_valid_url);
                assert forall|v: SecretShareLinkView| v.wf() implies spec_url(v, sch, dom, pre)
                    != s@ by {
                    if spec_url(v, sch, dom, pre) == s@ {
                        lemma_spec_url_parts(v, sch, dom, pre);
                    }
                }
            }
        }
        return Err(SecretShareLinkParsingError::InvalidPathShape);
    }
    Ok((user_id, bucket_id, off + 74))
}

/// Under a fixed configuration, any well-formed link whose URL is `s`
/// carries exactly the fields recovered by the fragment parser.
#[verifier::rlimit(60)]
proof fn lemma_fields_forced(
    scheme: Seq<u8>,
    domain: Seq<u8>,
    prefix: Seq<u8>,
    s: Seq<u8>,
    pos: Seq<usize>,
    fr: int,
    key: Seq<u8>,
    bits: u32,
    expires: Option<Timestamp>,
    ts_bytes: Seq<u8>,
    sig: Seq<u8>,
)
    requires
        fr == scheme.len() + 3 + domain.len() + 1 + prefix.len() + 1 + 74,
        forall|k: int|
            0 <= k < pos.len() ==> fr <= #[trigger] pos[k] < s.len() && s[pos[k] as int] == 35,
        forall|idx: int|
            fr <= idx < s.len() && s[idx] == 35 ==> exists|k: int| 0 <= k < pos.len() && pos[k]
                == idx,
        forall|k1: int, k2: int| 0 <= k1 < k2 < pos.len() ==> pos[k1] < pos[k2],
        pos.len() == 2 || pos.len() == 3,
        (pos.len() == 3) == (expires is Some),
        b64_encode_spec(key) == s.subrange(fr, pos[0] as int),
        b64_encode_spec(spec_be32(bits)) == s.subrange(pos[0] as int + 1, pos[1] as int),
        expires matches Some(t) ==> b64_encode_spec(ts_bytes) == s.subrange(
            pos[1] as int + 1,
            pos[2] as int,
        ) && timestamp_bytes_spec(t) == ts_bytes,
        pos.len() == 3 ==> b64_encode_spec(sig) == s.subrange(pos[2] as int + 1, s.len() as int),
        pos.len() == 2 ==> b64_encode_spec(sig) == s.subrange(pos[1] as int + 1, s.len() as int),
    ensures
        forall|v: SecretShareLinkView|
            v.wf() && spec_url(v, scheme, domain, prefix) == s ==> v.bucket_key == key
                && v.permission_bits == bits && v.expires == expires && v.signature == sig,
{
    assert forall|v: SecretShareLinkView|
        v.wf() && spec_url(v, scheme, domain, prefix) == s implies v.bucket_key == key
        && v.permission_bits == bits && v.expires == expires && v.signature == sig by {
        lemma_forced_layout(v, scheme, domain, prefix, s, pos, fr);
        assert(b64_encode_spec(key) == b64_encode_spec(v.bucket_key));
        lemma_b64_injective(key, v.bucket_key);
        lemma_b64_injective(spec_be32(bits), spec_be32(v.permission_bits));
        crate::bytes::lemma_be32_injective(bits, v.permission_bits);
        if pos.len() == 3 {
            assert(v.expires is Some);
            lemma_b64_injective(ts_bytes, timestamp_bytes_spec(v.expires->0));
            lemma_timestamp_bytes_injective(expires->0, v.expires->0);
        } else {
            assert(v.expires is None);
        }
        lemma_b64_injective(sig, v.signature);
    }
}

/// Scans the fragment separators and parses the key and permission
/// components.
#[verifier::rlimit(100)]
fn parse_key_and_perm(s: &Vec<u8>, cfg: &LinkCodecConfig, fr: usize) -> (r: Result<
    (Vec<usize>, Vec<u8>, BucketSharePermissionFlags),
    SecretShareLinkParsingError,
>)
    requires
        fr <= s@.len(),
        fr as int == cfg.scheme@.len() + 3 + cfg.domain@.len() + 1 + cfg.secret_share_prefix@.len()
            + 1 + 74,
    ensures
        r matches Ok(t) ==> ({
            let pos = t.0@;
            &&& pos.len() == 2 || pos.len() == 3
            &&& forall|k: int|
                0 <= k < pos.len() ==> fr <= #[trigger] pos[k] < s@.len() && s@[pos[k] as int]
                    == 35
            &&& forall|idx: int|
                fr <= idx < s@.len() && s@[idx] == 35 ==> exists|k: int|
                    0 <= k < pos.len() && pos[k] == idx
            &&& forall|k1: int, k2: int| 0 <= k1 < k2 < pos.len() ==> pos[k1] < pos[k2]
            &&& t.1@.len() == 32
            &&& t.2.wf()
            &&& b64_encode_spec(t.1@) == s@.subrange(fr as int, pos[0] as int)
            &&& b64_encode_spec(spec_be32(t.2@)) == s@.subrange(
                pos[0] as int + 1,
                pos[1] as int,
            )
        }),
        r is Err ==> spec_no_valid_url(s@, cfg.scheme@, cfg.domain@, cfg.secret_share_prefix@),
{
    let ghost sch = cfg.scheme@;
    let ghost dom = cfg.domain@;
    let ghost pre = cfg.secret_share_prefix@;
    let n = s.len();
    let pos = find_hashes(s, fr);
    if !(pos.len() == 2 || pos.len() == 3) {
        proof {
            assert(spec_no_valid_url(s@, sch, dom, pre)) by {
                reveal(spec_no_valid_url);
                assert forall|v: SecretShareLinkView| v.wf() implies spec_url(v, sch, dom, pre)
                    != s@ by {
                    if spec_url(v, sch, dom, pre) == s@ {
                        lemma_forced_layout(v, sch, dom, pre, s@, pos@, fr as int);
                    }
                }
            }
        }
        return Err(SecretShareLinkParsingError::InvalidPathShape);
    }
    let p0 = pos[0];
    let p1 = pos[1];
    let key_seg = sub_vec(s, fr, p0);
    let bucket_key = match b64_decode(&key_seg) {
        Some(o) => o,
        None => {
            proof {
                assert(spec_no_valid_url(s@, sch, dom, pre)) by {
                    reveal(spec_no_valid_url);
                    assert forall|v: SecretShareLinkView| v.wf() implies spec_url(v, sch, dom, pre)
                        != s@ by {
                        if spec_url(v, sch, dom, pre) == s@ {
                            lemma_forced_layout(v, sch, dom, pre, s@, pos@, fr as int);
                            assert(key_seg@ =~= b64_encode_spec(v.bucket_key));
                        }
                    }
                }
            }
            return Err(SecretShareLinkParsingError::InvalidEncoding);
        },
    };
    if bucket_key.len() != 32 {
        proof {
            assert(spec_no_valid_url(s@, sch, dom, pre)) by {
                reveal(spec_no_valid_url);
                assert forall|v: SecretShareLinkView| v.wf() implies spec_url(v, sch, dom, pre)
                    != s@ by {
                    if spec_url(v, sch, dom, pre) == s@ {
                        lemma_forced_layout(v, sch, dom, pre, s@, pos@, fr as int);
                        assert(key_seg@ =~= b64_encode_spec(v.bucket_key));
                        lemma_b64_injective(bucket_key@, v.bucket_key);
                    }
                }
            }
        }
        return Err(SecretShareLinkParsingError::InvalidFieldLength);
    }
    let perm_seg = sub_vec(s, p0 + 1, p1);
    let perm_bytes = match b64_decode(&perm_seg) {
        Some(o) => o,
        None => {
            proof {
                assert(spec_no_valid_url(s@, sch, dom, pre)) by {
                    reveal(spec_no_valid_url);
                    assert forall|v: SecretShareLinkView| v.wf() implies spec_url(v, sch, dom, pre)
                        != s@ by {
                        if spec_url(v, sch, dom, pre) == s@ {
                            lemma_forced_layout(v, sch, dom, pre, s@, pos@, fr as int);
                            assert(perm_seg@ =~= b64_encode_spec(spec_be32(v.permission_bits)));
                        }
                    }
                }
            }
            return Err(SecretShareLinkParsingError::InvalidEncoding);
        },
    };
    if perm_bytes.len() != 4 {
        proof {
            assert(spec_no_valid_url(s@, sch, dom, pre)) by {
                reveal(spec_no_valid_url);
                assert forall|v: SecretShareLinkView| v.wf() implies spec_url(v, sch, dom, pre)
                    != s@ by {
                    if spec_url(v, sch, dom, pre) == s@ {
                        lemma_forced_layout(v, sch, dom, pre, s@, pos@, fr as int);
                        assert(perm_seg@ =~= b64_encode_spec(spec_be32(v.permission_bits)));
                        lemma_b64_injective(perm_bytes@, spec_be32(v.permission_bits));
                    }
                }
            }
        }
        return Err(SecretShareLinkParsingError::InvalidFieldLength);
    }
    let bits = read_be32(&perm_bytes, 0);
    proof {
        assert(perm_bytes@.subrange(0, 4) =~= perm_bytes@);
    }
    let permission = match BucketSharePermissionFlags::from_bits(bits) {
        Ok(p) => p,
        Err(_) => {
            proof {
                assert(spec_no_valid_url(s@, sch, dom, pre)) by {
                    reveal(spec_no_valid_url);
                    assert forall|v: SecretShareLinkView| v.wf() implies spec_url(v, sch, dom, pre)
                        != s@ by {
                        if spec_url(v, sch, dom, pre) == s@ {
                            lemma_forced_layout(v, sch, dom, pre, s@, pos@, fr as int);
                            assert(perm_seg@ =~= b64_encode_spec(spec_be32(v.permission_bits)));
                            lemma_b64_injective(perm_bytes@, spec_be32(v.permission_bits));
                            lemma_be32_roundtrip(v.permission_bits);
                        }
                    }
                }
            }
            return Err(SecretShareLinkParsingError::InvalidFlags);
        },
    };
    proof {
        crate::bytes::lemma_be32_val_roundtrip(perm_bytes@);
        assert(bucket_key@.len() == 32);
        assert(permission.wf());
        assert(spec_be32(permission@) == perm_bytes@);
        assert(b64_encode_spec(bucket_key@) == s@.subrange(fr as int, pos@[0] as int));
        assert(b64_encode_spec(spec_be32(permission@)) == s@.subrange(
            pos@[0] as int + 1,
            pos@[1] as int,
        ));
    }
    Ok((pos, bucket_key, permission))
}

/// Parses the fragment region of a link URL starting at `fr`: the
/// key, the permissions, the expiry when a fourth component is present,
/// and the signature.  On success the returned fields are the only ones
/// any well-formed link rendering to `s` can carry.
#[verifier::rlimit(100)]
fn parse_fragments(s: &Vec<u8>, cfg: &LinkCodecConfig, fr: usize) -> (r: Result<
    (Vec<u8>, BucketSharePermissionFlags, Option<Timestamp>, Vec<u8>),
    SecretShareLinkParsingError,
>)
    requires
        fr <= s@.len(),
        fr as int == cfg.scheme@.len() + 3 + cfg.domain@.len() + 1 + cfg.secret_share_prefix@.len()
            + 1 + 74,
    ensures
        r matches Ok(t) ==> ({
            &&& t.0@.len() == 32
            &&& t.1.wf()
            &&& (t.2 matches Some(ts) ==> ts.wf())
            &&& t.3@.len() == 64
            &&& forall|v: SecretShareLinkView|
                v.wf() && spec_url(v, cfg.scheme@, cfg.domain@, cfg.secret_share_prefix@) == s@
                    ==> v.bucket_key == t.0@ && v.permission_bits == t.1@ && v.expires == t.2
                    && v.signature == t.3@
        }),
        r is Err ==> spec_no_valid_url(s@, cfg.scheme@, cfg.domain@, cfg.secret_share_prefix@),
{
    let ghost sch = cfg.scheme@;
    let ghost dom = cfg.domain@;
    let ghost pre = cfg.secret_share_prefix@;
    let n = s.len();
    let (pos, bucket_key, permission) = match parse_key_and_perm(s, cfg, fr) {
        Ok(t) => t,
        Err(e) => {
            return Err(e);
        },
    };
    let p1 = pos[1];
    let expires: Option<Timestamp>;
    let sig_start: usize;
    let ghost mut ts_seg_g: Seq<u8> = Seq::empty();
    let ghost mut ts_bytes_g: Seq<u8> = Seq::empty();
    if pos.len() == 3 {
        let p2 = pos[2];
        let ts_seg = sub_vec(s, p1 + 1, p2);
        let ts_bytes = match b64_decode(&ts_seg) {
            Some(o) => o,
            None => {
                proof {
                    assert(spec_no_valid_url(s@, sch, dom, pre)) by {
                        reveal(spec_no_valid_url);
                        assert forall|v: SecretShareLinkView| v.wf() implies spec_url(v, sch, dom, pre)
                            != s@ by {
                            if spec_url(v, sch, dom, pre) == s@ {
                                lemma_forced_layout(v, sch, dom, pre, s@, pos@, fr as int);
                                assert(ts_seg@ =~= b64_encode_spec(timestamp_bytes_spec(v.expires->0)));
                            }
                        }
                    }
                }
                return Err(SecretShareLinkParsingError::InvalidEncoding);
            },
        };
        if ts_bytes.len() != 13 {
            proof {
                assert(spec_no_valid_url(s@, sch, dom, pre)) by {
                    reveal(spec_no_valid_url);
                    assert forall|v: SecretShareLinkView| v.wf() implies spec_url(v, sch, dom, pre)
                        != s@ by {
                        if spec_url(v, sch, dom, pre) == s@ {
                            lemma_forced_layout(v, sch, dom, pre, s@, pos@, fr as int);
                            assert(ts_seg@ =~= b64_encode_spec(timestamp_bytes_spec(v.expires->0)));
                            lemma_b64_injective(ts_bytes@, timestamp_bytes_spec(v.expires->0));
                        }
                    }
                }
            }
            return Err(SecretShareLinkParsingError::InvalidFieldLength);
        }
        let t = match timestamp_from_bytes(&ts_bytes) {
            Some(t) => t,
            None => {
                proof {
                    assert(spec_no_valid_url(s@, sch, dom, pre)) by {
                        reveal(spec_no_valid_url);
                        assert forall|v: SecretShareLinkView| v.wf() implies spec_url(v, sch, dom, pre)
                            != s@ by {
                            if spec_url(v, sch, dom, pre) == s@ {
                                lemma_forced_layout(v, sch, dom, pre, s@, pos@, fr as int);
                                assert(ts_seg@ =~= b64_encode_spec(timestamp_bytes_spec(v.expires->0)));
                                lemma_b64_injective(ts_bytes@, timestamp_bytes_spec(v.expires->0));
                            }
                        }
                    }
                }
                return Err(SecretShareLinkParsingError::InvalidEncoding);
            },
        };
        proof {
            ts_seg_g = ts_seg@;
            ts_bytes_g = ts_bytes@;
        }
        expires = Some(t);
        sig_start = p2 + 1;
    } else {
        expires = None;
        sig_start = p1 + 1;
    }
    let sig_seg = sub_vec(s, sig_start, n);
    let signature = match b64_decode(&sig_seg) {
        Some(o) => o,
        None => {
            proof {
                assert(spec_no_valid_url(s@, sch, dom, pre)) by {
                    reveal(spec_no_valid_url);
                    assert forall|v: SecretShareLinkView| v.wf() implies spec_url(v, sch, dom, pre)
                        != s@ by {
                        if spec_url(v, sch, dom, pre) == s@ {
                            lemma_forced_layout(v, sch, dom, pre, s@, pos@, fr as int);
                            assert(sig_seg@ =~= b64_encode_spec(v.signature));
                        }
                    }
                }
            }
            return Err(SecretShareLinkParsingError::InvalidEncoding);
        },
    };
    if signature.len() != 64 {
        proof {
            assert(spec_no_valid_url(s@, sch, dom, pre)) by {
                reveal(spec_no_valid_url);
                assert forall|v: SecretShareLinkView| v.wf() implies spec_url(v, sch, dom, pre)
                    != s@ by {
                    if spec_url(v, sch, dom, pre) == s@ {
                        lemma_forced_layout(v, sch, dom, pre, s@, pos@, fr as int);
                        assert(sig_seg@ =~= b64_encode_spec(v.signature));
                        lemma_b64_injective(signature@, v.signature);
                    }
                }
            }
        }
        return Err(SecretShareLinkParsingError::InvalidFieldLength);
    }
    proof {
        lemma_fields_forced(
            sch,
            dom,
            pre,
            s@,
            pos@,
            fr as int,
            bucket_key@,
            permission@,
            expires,
            ts_bytes_g,
            signature@,
        );
    }
    Ok((bucket_key, permission, expires, signature))
}

/// Parses the URL bytes of a secret share link, validating in order the
/// host, the path shape, each segment's encoding, every decoded field
/// length, and the permission bits.  Succeeds exactly on the canonical
/// renderings of well-formed links: `Ok(l)` returns the unique link
/// whose rendering is `s`, and `Err` means no such link exists.
/// Parsing alone never implies signature validity; callers must verify
/// separately.
#[verifier::rlimit(100)]
pub fn decode_secret_share_link(s: &Vec<u8>, cfg: &LinkCodecConfig) -> (r: Result<
    SecretShareLink,
    SecretShareLinkParsingError,
>)
    ensures
        r matches Ok(l) ==> l.wf() && spec_url(
            l@,
            cfg.scheme@,
            cfg.domain@,
            cfg.secret_share_prefix@,
        ) == s@,
        r is Err ==> spec_no_valid_url(s@, cfg.scheme@, cfg.domain@, cfg.secret_share_prefix@),
{
    let ghost sch = cfg.scheme@;
    let ghost dom = cfg.domain@;
    let ghost pre = cfg.secret_share_prefix@;
    let n = s.len();
    let (user_id, bucket_id, fr) = match parse_head_and_ids(s, cfg) {
        Ok(t) => t,
        Err(e) => {
            return Err(e);
        },
    };
    let ghost hl = sch.len() + 3 + dom.len() + 1 + pre.len() + 1;
    // Fragments: branch on the number of `#`-delimited components.
    let (bucket_key, permission, expires, signature) = match parse_fragments(s, cfg, fr) {
        Ok(t) => t,
        Err(e) => {
            return Err(e);
        },
    };
    let link = SecretShareLink { user_id, bucket_id, bucket_key, permission, expires, signature };
    // The parsed fields are the only ones any well-formed link whose
    // rendering is `s` can have.
    proof {
        assert forall|v: SecretShareLinkView|
            v.wf() && spec_url(v, sch, dom, pre) == s@ implies v == link@ by {
            lemma_spec_url_parts(v, sch, dom, pre);
            assert(uuid_text_spec(user_id@) == s@.subrange(hl as int, hl as int + 36));
            assert(s@.subrange(hl as int, hl as int + 36) == uuid_text_spec(v.user_id));
            crate::hexid::lemma_uuid_text_injective(user_id@, v.user_id);
            assert(uuid_text_spec(bucket_id@) == s@.subrange(hl as int + 37, hl as int + 73));
            assert(s@.subrange(hl as int + 37, hl as int + 73) == uuid_text_spec(v.bucket_id));
            crate::hexid::lemma_uuid_text_injective(bucket_id@, v.bucket_id);
            assert(v.bucket_key == bucket_key@ && v.permission_bits == permission@ && v.expires
                == expires && v.signature == signature@);
            assert(v =~= link@);
        }
    }
    let rendered = encode_secret_share_link(&link, cfg);
    if bytes_eq(&rendered, s) {
        Ok(link)
    } else {
        proof {
            assert(spec_no_valid_url(s@, sch, dom, pre)) by {
                reveal(spec_no_valid_url);
                assert forall|v: SecretShareLinkView| v.wf() implies spec_url(v, sch, dom, pre)
                    != s@ by {
                    if spec_url(v, sch, dom, pre) == s@ {
                        assert(v == link@);
                        assert(rendered@ == s@);
                    }
                }
            }
        }
        Err(SecretShareLinkParsingError::InvalidEncoding)
    }
}


/// Renders a secret share link to its URL string.
pub fn secret_share_link_to_string(link: &SecretShareLink, cfg: &LinkCodecConfig) -> (r: String)
    requires
        link.wf(),
        cfg_ascii(*cfg),
    ensures
        r@ == spec_url(link@, cfg.scheme@, cfg.domain@, cfg.secret_share_prefix@).map_values(
            |b: u8| b as char,
        ),
{
    let bytes = encode_secret_share_link(link, cfg);
    proof {
        lemma_spec_url_ascii(link@, cfg.scheme@, cfg.domain@, cfg.secret_share_prefix@);
    }
    crate::strconv::ascii_to_string(bytes)
}

/// Parses a secret share link from a URL string: the string's UTF-8
/// bytes go through the byte-level parser unchanged.
pub fn secret_share_link_from_str(s: &str, cfg: &LinkCodecConfig) -> (r: Result<
    SecretShareLink,
    SecretShareLinkParsingError,
>)
    ensures
        r matches Ok(l) ==> l.wf() && spec_url(
            l@,
            cfg.scheme@,
            cfg.domain@,
            cfg.secret_share_prefix@,
        ) == vstd::utf8::encode_utf8(s@),
        r is Err ==> spec_no_valid_url(
            vstd::utf8::encode_utf8(s@),
            cfg.scheme@,
            cfg.domain@,
            cfg.secret_share_prefix@,
        ),
{
    let bytes = crate::strconv::str_to_bytes(s);
    decode_secret_share_link(&bytes, cfg)
}

} // verus!
