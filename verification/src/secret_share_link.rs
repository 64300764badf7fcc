//! The secret share link: a self-contained capability that embeds the
//! subject, the bucket, the bucket's symmetric key, the granted
//! permissions and an optional expiry, bound together by an ed25519
//! signature over the SHA3-512 digest of a fixed-order preimage.
use vstd::prelude::*;
use crate::permissions::{BucketSharePermissionFlags, PERM_ALL_MASK};
use crate::timestamp::{Timestamp, timestamp_bytes_spec, push_timestamp, lemma_timestamp_bytes_injective};
use crate::bytes::{spec_be32, push_be32, lemma_be32_injective};
use crate::hexid::push_range;
use crate::crypto::{
    sha3_512_of,
    ed25519_public_of,
    ed25519_sign_of,
    ed25519_verifies,
    ed25519_keypair_ok,
    sha3_512,
    ed25519_sign,
    ed25519_verify,
};

verus! {

/// The mathematical content of a link: its fields as plain sequences
/// and values.
#[verifier::ext_equal]
pub ghost struct SecretShareLinkView {
    pub user_id: Seq<u8>,
    pub bucket_id: Seq<u8>,
    pub bucket_key: Seq<u8>,
    pub permission_bits: u32,
    pub expires: Option<Timestamp>,
    pub signature: Seq<u8>,
}

impl SecretShareLinkView {
    /// Field sizes are fixed: 16-byte identifiers, a 32-byte key, only
    /// defined permission bits, a well-formed expiry, a 64-byte
    /// signature.
    pub open spec fn wf(self) -> bool {
        &&& self.user_id.len() == 16
        &&& self.bucket_id.len() == 16
        &&& self.bucket_key.len() == 32
        &&& self.permission_bits & PERM_ALL_MASK == self.permission_bits
        &&& match self.expires {
            Some(t) => t.wf(),
            None => true,
        }
        &&& self.signature.len() == 64
    }
}

/// The deterministic preimage that is digested and signed: the fields
/// in fixed order, the signature itself never included.  An absent
/// expiry contributes nothing, so the preimage length signals presence.
pub open spec fn spec_preimage(v: SecretShareLinkView) -> Seq<u8> {
    v.user_id + v.bucket_id + v.bucket_key + spec_be32(v.permission_bits) + (match v.expires {
        Some(t) => timestamp_bytes_spec(t),
        None => Seq::empty(),
    })
}

/// The digest that is signed: SHA3-512 of the preimage.
pub open spec fn spec_digest(v: SecretShareLinkView) -> Seq<u8> {
    sha3_512_of(spec_preimage(v))
}

/// The 32-byte lookup token: the fixed prefix of the digest.
pub open spec fn spec_token(v: SecretShareLinkView) -> Seq<u8> {
    spec_digest(v).take(32)
}

/// Two well-formed links with equal preimages agree on every signed
/// field: the preimage binds subject, bucket, key, permissions and
/// expiry.
pub proof fn lemma_preimage_injective(a: SecretShareLinkView, b: SecretShareLinkView)
    requires
        a.wf(),
        b.wf(),
        spec_preimage(a) == spec_preimage(b),
    ensures
        a.user_id == b.user_id,
        a.bucket_id == b.bucket_id,
        a.bucket_key == b.bucket_key,
        a.permission_bits == b.permission_bits,
        a.expires == b.expires,
{
    let pa = spec_preimage(a);
    let pb = spec_preimage(b);
    let ta = match a.expires {
        Some(t) => timestamp_bytes_spec(t),
        None => Seq::<u8>::empty(),
    };
    let tb = match b.expires {
        Some(t) => timestamp_bytes_spec(t),
        None => Seq::<u8>::empty(),
    };
    assert(pa.len() == 68 + ta.len() && pb.len() == 68 + tb.len());
    assert(ta.len() == 0 || ta.len() == 13);
    assert(tb.len() == 0 || tb.len() == 13);
    assert(a.user_id =~= pa.subrange(0, 16));
    assert(b.user_id =~= pb.subrange(0, 16));
    assert(a.bucket_id =~= pa.subrange(16, 32));
    assert(b.bucket_id =~= pb.subrange(16, 32));
    assert(a.bucket_key =~= pa.subrange(32, 64));
    assert(b.bucket_key =~= pb.subrange(32, 64));
    assert(spec_be32(a.permission_bits) =~= pa.subrange(64, 68));
    assert(spec_be32(b.permission_bits) =~= pb.subrange(64, 68));
    lemma_be32_injective(a.permission_bits, b.permission_bits);
    if a.expires is Some {
        assert(ta =~= pa.subrange(68, 81));
        assert(tb =~= pb.subrange(68, 81));
        lemma_timestamp_bytes_injective(a.expires->0, b.expires->0);
    }
}

/// Error returned when a signature does not verify.
#[derive(Clone, Copy, Debug, PartialEq, Eq, Structural)]
pub enum SecretShareLinkVerifySignatureError {
    InvalidSignature,
}

/// A secret share link.  The fields are fixed at construction and never
/// mutated; the signature covers all of them.
#[derive(Clone, Debug)]
pub struct SecretShareLink {
    pub user_id: Vec<u8>,
    pub bucket_id: Vec<u8>,
    pub bucket_key: Vec<u8>,
    pub permission: BucketSharePermissionFlags,
    pub expires: Option<Timestamp>,
    pub signature: Vec<u8>,
}

impl View for SecretShareLink {
    type V = SecretShareLinkView;

    open spec fn view(&self) -> SecretShareLinkView {
        SecretShareLinkView {
            user_id: self.user_id@,
            bucket_id: self.bucket_id@,
            bucket_key: self.bucket_key@,
            permission_bits: self.permission@,
            expires: self.expires,
            signature: self.signature@,
        }
    }
}

/// Builds the preimage of the given fields: identifiers and key as raw
/// bytes, permissions as four big-endian bytes, then the binary expiry
/// when present.
fn build_preimage(
    user_id: &Vec<u8>,
    bucket_id: &Vec<u8>,
    bucket_key: &Vec<u8>,
    permission: BucketSharePermissionFlags,
    expires: Option<Timestamp>,
) -> (r: Vec<u8>)
    requires
        user_id@.len() == 16,
        bucket_id@.len() == 16,
        bucket_key@.len() == 32,
    ensures
        r@ == spec_preimage(
            SecretShareLinkView {
                user_id: user_id@,
                bucket_id: bucket_id@,
                bucket_key: bucket_key@,
                permission_bits: permission@,
                expires: expires,
                signature: Seq::empty(),
            },
        ),
{
    let mut out: Vec<u8> = Vec::new();
    push_range(&mut out, user_id, 0, user_id.len());
    push_range(&mut out, bucket_id, 0, bucket_id.len());
    push_range(&mut out, bucket_key, 0, bucket_key.len());
    push_be32(&mut out, permission.to_bits());
    match expires {
        Some(t) => {
            push_timestamp(&mut out, t);
        },
        None => {},
    }
    proof {
        assert(user_id@.subrange(0, 16) =~= user_id@);
        assert(bucket_id@.subrange(0, 16) =~= bucket_id@);
        assert(bucket_key@.subrange(0, 32) =~= bucket_key@);
        assert(out@ =~= spec_preimage(
            SecretShareLinkView {
                user_id: user_id@,
                bucket_id: bucket_id@,
                bucket_key: bucket_key@,
                permission_bits: permission@,
                expires: expires,
                signature: Seq::empty(),
            },
        ));
    }
    out
}

impl SecretShareLink {
    /// The view is well formed.
    pub open spec fn wf(&self) -> bool {
        self@.wf()
    }

    /// Issues a link: digests the fields and signs the digest with the
    /// 64-byte secret key, deriving the signing noise from the bucket
    /// identifier so that signing is deterministic per bucket.  For a
    /// consistent secret key the resulting signature verifies under the
    /// key's public half.
    pub fn new(
        user_id: Vec<u8>,
        bucket_id: Vec<u8>,
        bucket_key: Vec<u8>,
        permission: BucketSharePermissionFlags,
        expires: Option<Timestamp>,
        secret_key: &Vec<u8>,
    ) -> (r: Self)
        requires
            user_id@.len() == 16,
            bucket_id@.len() == 16,
            bucket_key@.len() == 32,
            permission.wf(),
            match expires {
                Some(t) => t.wf(),
                None => true,
            },
            secret_key@.len() == 64,
        ensures
            r@.user_id == user_id@,
            r@.bucket_id == bucket_id@,
            r@.bucket_key == bucket_key@,
            r@.permission_bits == permission@,
            r@.expires == expires,
            r@.signature == ed25519_sign_of(secret_key@, spec_digest(r@), bucket_id@),
            r.wf(),
            ed25519_keypair_ok(secret_key@) ==> ed25519_verifies(
                ed25519_public_of(secret_key@),
                spec_digest(r@),
                r@.signature,
            ),
    {
        let preimage = build_preimage(&user_id, &bucket_id, &bucket_key, permission, expires);
        let digest = sha3_512(&preimage);
        let signature = ed25519_sign(secret_key, &digest, &bucket_id);
        let r = SecretShareLink { user_id, bucket_id, bucket_key, permission, expires, signature };
        proof {
            assert(spec_preimage(r@) =~= preimage@);
        }
        r
    }

    /// Rebuilds the preimage from the link's own fields, digests it and
    /// checks the stored signature against the given 32-byte public
    /// key.  Success if and only if the triple matches; this is the
    /// sole authority on whether a link is genuine.
    pub fn verify_signature(&self, public_signing_key: &Vec<u8>) -> (r: Result<
        (),
        SecretShareLinkVerifySignatureError,
    >)
        requires
            self.wf(),
            public_signing_key@.len() == 32,
        ensures
            r is Ok <==> ed25519_verifies(public_signing_key@, spec_digest(self@), self@.signature),
            r matches Err(e) ==> e == SecretShareLinkVerifySignatureError::InvalidSignature,
    {
        let preimage = build_preimage(
            &self.user_id,
            &self.bucket_id,
            &self.bucket_key,
            self.permission,
            self.expires,
        );
        let digest = sha3_512(&preimage);
        proof {
            assert(spec_preimage(self@) =~= preimage@);
        }
        if ed25519_verify(public_signing_key, &digest, &self.signature) {
            Ok(())
        } else {
            Err(SecretShareLinkVerifySignatureError::InvalidSignature)
        }
    }

    /// Derives the 32-byte lookup token: the fixed prefix of the same
    /// digest that is signed.  Non-secret and non-reversible; a server
    /// may index auxiliary state by it.
    pub fn get_token(&self) -> (r: Vec<u8>)
        requires
            self.wf(),
        ensures
            r@ == spec_token(self@),
            r@.len() == 32,
    {
        let preimage = build_preimage(
            &self.user_id,
            &self.bucket_id,
            &self.bucket_key,
            self.permission,
            self.expires,
        );
        let mut digest = sha3_512(&preimage);
        digest.truncate(32);
        proof {
            assert(spec_preimage(self@) =~= preimage@);
            assert(digest@ =~= spec_token(self@));
        }
        digest
    }
}

} // verus!
