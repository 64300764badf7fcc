//! The plain share link: a bare 256-bit random token with no embedded
//! fields, used only as an opaque server-side lookup key.  Its URL form
//! is the configured head followed by the base64url token.
use vstd::prelude::*;
use crate::base64url::{b64_encode_spec, b64_encode, b64_decode, lemma_b64_injective};
use crate::codec::LinkCodecConfig;
use crate::crypto::random_32;
use crate::hexid::push_range;

verus! {

/// Error kinds of share-link parsing: wrong host, wrong path shape, a
/// token that does not decode, a token of the wrong size.
#[derive(Clone, Copy, Debug, PartialEq, Eq, Structural)]
pub enum ShareLinkParsingError {
    InvalidHostDomain,
    InvalidPathShape,
    InvalidEncoding,
    InvalidFieldLength,
}

/// A plain share link: an opaque 32-byte token.
#[derive(Clone, Debug)]
pub struct ShareLink {
    pub token: Vec<u8>,
}

/// The URL bytes of a share link: `scheme://domain/prefix/<token>`.
pub open spec fn spec_share_url(
    token: Seq<u8>,
    scheme: Seq<u8>,
    domain: Seq<u8>,
    prefix: Seq<u8>,
) -> Seq<u8> {
    scheme + seq![58u8, 47u8, 47u8] + domain + seq![47u8] + prefix + seq![47u8] + b64_encode_spec(
        token,
    )
}

impl ShareLink {
    /// A share link holds exactly 32 token bytes.
    pub open spec fn wf(&self) -> bool {
        self.token@.len() == 32
    }

    /// Draws a fresh random token.
    pub fn new() -> (r: Self)
        ensures
            r.wf(),
    {
        ShareLink { token: random_32() }
    }

    /// The token itself.
    pub fn get_token(&self) -> (r: Vec<u8>)
        ensures
            r@ == self.token@,
    {
        let mut out: Vec<u8> = Vec::new();
        push_range(&mut out, &self.token, 0, self.token.len());
        proof {
            assert(self.token@.subrange(0, self.token@.len() as int) =~= self.token@);
        }
        out
    }

    /// Draws token bytes without building a link.
    pub fn gen_token() -> (r: Vec<u8>)
        ensures
            r@.len() == 32,
    {
        random_32()
    }

    /// Renders the link to its URL bytes.
    pub fn to_url_bytes(&self, cfg: &LinkCodecConfig) -> (r: Vec<u8>)
        ensures
            r@ == spec_share_url(self.token@, cfg.scheme@, cfg.domain@, cfg.share_prefix@),
    {
        let mut out: Vec<u8> = Vec::new();
        push_range(&mut out, &cfg.scheme, 0, cfg.scheme.len());
        out.push(58);
        out.push(47);
        out.push(47);
        push_range(&mut out, &cfg.domain, 0, cfg.domain.len());
        out.push(47);
        push_range(&mut out, &cfg.share_prefix, 0, cfg.share_prefix.len());
        out.push(47);
        let seg = b64_encode(&self.token);
        push_range(&mut out, &seg, 0, seg.len());
        proof {
            assert(cfg.scheme@.subrange(0, cfg.scheme@.len() as int) =~= cfg.scheme@);
            assert(cfg.domain@.subrange(0, cfg.domain@.len() as int) =~= cfg.domain@);
            assert(cfg.share_prefix@.subrange(0, cfg.share_prefix@.len() as int)
                =~= cfg.share_prefix@);
            assert(seg@.subrange(0, seg@.len() as int) =~= seg@);
            assert(out@ =~= spec_share_url(
                self.token@,
                cfg.scheme@,
                cfg.domain@,
                cfg.share_prefix@,
            ));
        }
        out
    }
}

impl ShareLink {
    /// Renders the link to its URL string.
    pub fn to_url_string(&self, cfg: &LinkCodecConfig) -> (r: String)
        requires
            crate::codec::cfg_ascii(*cfg),
        ensures
            r@ == spec_share_url(
                self.token@,
                cfg.scheme@,
                cfg.domain@,
                cfg.share_prefix@,
            ).map_values(|b: u8| b as char),
    {
        let bytes = self.to_url_bytes(cfg);
        proof {
            lemma_share_url_ascii(self.token@, cfg.scheme@, cfg.domain@, cfg.share_prefix@);
        }
        crate::strconv::ascii_to_string(bytes)
    }
}

/// Parses a share link from a URL string: the string's UTF-8 bytes go
/// through the byte-level parser unchanged.
pub fn share_link_from_str(s: &str, cfg: &LinkCodecConfig) -> (r: Result<
    ShareLink,
    ShareLinkParsingError,
>)
    ensures
        r matches Ok(l) ==> l.wf() && spec_share_url(
            l.token@,
            cfg.scheme@,
            cfg.domain@,
            cfg.share_prefix@,
        ) == vstd::utf8::encode_utf8(s@),
        r is Err ==> forall|tk: Seq<u8>|
            tk.len() == 32 ==> spec_share_url(tk, cfg.scheme@, cfg.domain@, cfg.share_prefix@)
                != vstd::utf8::encode_utf8(s@),
{
    let bytes = crate::strconv::str_to_bytes(s);
    share_link_from_url_bytes(&bytes, cfg)
}

/// With an ASCII configuration every byte of a share-link URL is ASCII.
proof fn lemma_share_url_ascii(token: Seq<u8>, scheme: Seq<u8>, domain: Seq<u8>, prefix: Seq<u8>)
    requires
        crate::strconv::ascii_seq(scheme),
        crate::strconv::ascii_seq(domain),
        crate::strconv::ascii_seq(prefix),
    ensures
        crate::strconv::ascii_seq(spec_share_url(token, scheme, domain, prefix)),
{
    lemma_share_url_parts(token, scheme, domain, prefix);
    crate::base64url::lemma_b64_charset(token);
    let u = spec_share_url(token, scheme, domain, prefix);
    let sl = scheme.len() as int;
    let dl = domain.len() as int;
    let pl = prefix.len() as int;
    let hl = sl + 3 + dl + 1 + pl + 1;
    assert forall|i: int| 0 <= i < u.len() implies u[i] < 128 by {
        if i < sl {
            assert(u[i] == u.subrange(0, sl)[i]);
        } else if i < sl + 3 {
        } else if i < sl + 3 + dl {
            assert(u[i] == u.subrange(sl + 3, sl + 3 + dl)[i - (sl + 3)]);
        } else if i == sl + 3 + dl {
        } else if i < sl + 4 + dl + pl {
            assert(u[i] == u.subrange(sl + 4 + dl, sl + 4 + dl + pl)[i - (sl + 4 + dl)]);
        } else if i == hl - 1 {
        } else {
            assert(u[i] == u.subrange(hl, u.len() as int)[i - hl]);
            assert(crate::base64url::is_b64_byte(b64_encode_spec(token)[i - hl]));
        }
    }
}

/// Positions of the pieces of a share-link URL.
proof fn lemma_share_url_parts(token: Seq<u8>, scheme: Seq<u8>, domain: Seq<u8>, prefix: Seq<u8>)
    ensures
        ({
            let u = spec_share_url(token, scheme, domain, prefix);
            let sl = scheme.len() as int;
            let dl = domain.len() as int;
            let pl = prefix.len() as int;
            let hl = sl + 3 + dl + 1 + pl + 1;
            &&& u.len() == hl + b64_encode_spec(token).len()
            &&& u.subrange(0, sl) == scheme
            &&& u[sl] == 58
            &&& u[sl + 1] == 47
            &&& u[sl + 2] == 47
            &&& u.subrange(sl + 3, sl + 3 + dl) == domain
            &&& u[sl + 3 + dl] == 47
            &&& u.subrange(sl + 4 + dl, sl + 4 + dl + pl) == prefix
            &&& u[hl - 1] == 47
            &&& u.subrange(hl, u.len() as int) == b64_encode_spec(token)
        }),
{
    let u = spec_share_url(token, scheme, domain, prefix);
    let sl = scheme.len() as int;
    let dl = domain.len() as int;
    let pl = prefix.len() as int;
    let hl = sl + 3 + dl + 1 + pl + 1;
    assert(u.subrange(0, sl) =~= scheme);
    assert(u.subrange(sl + 3, sl + 3 + dl) =~= domain);
    assert(u.subrange(sl + 4 + dl, sl + 4 + dl + pl) =~= prefix);
    assert(u.subrange(hl, u.len() as int) =~= b64_encode_spec(token));
}

/// Parses the URL bytes of a share link: host, path prefix, then the
/// base64url token, which must decode to exactly 32 bytes.  Succeeds
/// exactly on the canonical renderings of 32-byte tokens.
#[verifier::rlimit(60)]
pub fn share_link_from_url_bytes(s: &Vec<u8>, cfg: &LinkCodecConfig) -> (r: Result<
    ShareLink,
    ShareLinkParsingError,
>)
    ensures
        r matches Ok(l) ==> l.wf() && spec_share_url(
            l.token@,
            cfg.scheme@,
            cfg.domain@,
            cfg.share_prefix@,
        ) == s@,
        r is Err ==> forall|tk: Seq<u8>|
            tk.len() == 32 ==> spec_share_url(tk, cfg.scheme@, cfg.domain@, cfg.share_prefix@)
                != s@,
{
    let ghost sch = cfg.scheme@;
    let ghost dom = cfg.domain@;
    let ghost pre = cfg.share_prefix@;
    let n = s.len();
    if !crate::codec::starts_with_at(s, 0, &cfg.scheme) {
        proof {
            assert forall|tk: Seq<u8>| tk.len() == 32 implies spec_share_url(tk, sch, dom, pre)
                != s@ by {
                if spec_share_url(tk, sch, dom, pre) == s@ {
                    lemma_share_url_parts(tk, sch, dom, pre);
                }
            }
        }
        return Err(ShareLinkParsingError::InvalidHostDomain);
    }
    let mut off: usize = cfg.scheme.len();
    if n - off < 3 || !(s[off] == 58 && s[off + 1] == 47 && s[off + 2] == 47) {
        proof {
            assert forall|tk: Seq<u8>| tk.len() == 32 implies spec_share_url(tk, sch, dom, pre)
                != s@ by {
                if spec_share_url(tk, sch, dom, pre) == s@ {
                    lemma_share_url_parts(tk, sch, dom, pre);
                }
            }
        }
        return Err(ShareLinkParsingError::InvalidHostDomain);
    }
    off = off + 3;
    if !crate::codec::starts_with_at(s, off, &cfg.domain) {
        proof {
            assert forall|tk: Seq<u8>| tk.len() == 32 implies spec_share_url(tk, sch, dom, pre)
                != s@ by {
                if spec_share_url(tk, sch, dom, pre) == s@ {
                    lemma_share_url_parts(tk, sch, dom, pre);
                }
            }
        }
        return Err(ShareLinkParsingError::InvalidHostDomain);
    }
    off = off + cfg.domain.len();
    if n - off < 1 || s[off] != 47 {
        proof {
            assert forall|tk: Seq<u8>| tk.len() == 32 implies spec_share_url(tk, sch, dom, pre)
                != s@ by {
                if spec_share_url(tk, sch, dom, pre) == s@ {
                    lemma_share_url_parts(tk, sch, dom, pre);
                }
            }
        }
        return Err(ShareLinkParsingError::InvalidHostDomain);
    }
    off = off + 1;
    if !crate::codec::starts_with_at(s, off, &cfg.share_prefix) {
        proof {
            assert forall|tk: Seq<u8>| tk.len() == 32 implies spec_share_url(tk, sch, dom, pre)
                != s@ by {
                if spec_share_url(tk, sch, dom, pre) == s@ {
                    lemma_share_url_parts(tk, sch, dom, pre);
                }
            }
        }
        return Err(ShareLinkParsingError::InvalidPathShape);
    }
    off = off + cfg.share_prefix.len();
    if n - off < 1 || s[off] != 47 {
        proof {
            assert forall|tk: Seq<u8>| tk.len() == 32 implies spec_share_url(tk, sch, dom, pre)
                != s@ by {
                if spec_share_url(tk, sch, dom, pre) == s@ {
                    lemma_share_url_parts(tk, sch, dom, pre);
                }
            }
        }
        return Err(ShareLinkParsingError::InvalidPathShape);
    }
    off = off + 1;
    let ghost hl = sch.len() + 3 + dom.len() + 1 + pre.len() + 1;
    let mut seg: Vec<u8> = Vec::new();
    push_range(&mut seg, s, off, n);
    let token = match b64_decode(&seg) {
        Some(o) => o,
        None => {
            proof {
                assert forall|tk: Seq<u8>| tk.len() == 32 implies spec_share_url(tk, sch, dom, pre)
                    != s@ by {
                    if spec_share_url(tk, sch, dom, pre) == s@ {
                        lemma_share_url_parts(tk, sch, dom, pre);
                        assert(seg@ =~= b64_encode_spec(tk));
                    }
                }
            }
            return Err(ShareLinkParsingError::InvalidEncoding);
        },
    };
    if token.len() != 32 {
        proof {
            assert forall|tk: Seq<u8>| tk.len() == 32 implies spec_share_url(tk, sch, dom, pre)
                != s@ by {
                if spec_share_url(tk, sch, dom, pre) == s@ {
                    lemma_share_url_parts(tk, sch, dom, pre);
                    assert(seg@ =~= b64_encode_spec(tk));
                    lemma_b64_injective(token@, tk);
                }
            }
        }
        return Err(ShareLinkParsingError::InvalidFieldLength);
    }
    proof {
        assert(seg@ =~= s@.subrange(off as int, n as int));
        assert(spec_share_url(token@, sch, dom, pre) =~= s@);
    }
    Ok(ShareLink { token })
}

} // verus!
