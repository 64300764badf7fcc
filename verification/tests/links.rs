use bucket_share_link::codec::{
    decode_secret_share_link, encode_secret_share_link, secret_share_link_from_str,
    secret_share_link_to_string, LinkCodecConfig, SecretShareLinkParsingError,
};
use bucket_share_link::crypto::ed25519_keypair_from_seed;
use bucket_share_link::permissions::{
    BucketSharePermissionFlags, PermissionSetError, PERM_READ, PERM_VIEW, PERM_WRITE,
};
use bucket_share_link::secret_share_link::SecretShareLink;
use bucket_share_link::share_link::{share_link_from_url_bytes, ShareLink};
use bucket_share_link::timestamp::Timestamp;
use bucket_share_link::vocab::{
    parse_u32_digits, BucketEncryption, BucketEncryptionParsingError, BucketRegion, RegionCluster,
};
use base64::Engine;
use sha3::Digest;

fn test_config() -> LinkCodecConfig {
    LinkCodecConfig {
        scheme: b"https".to_vec(),
        domain: b"bucketdrive.co".to_vec(),
        secret_share_prefix: b"api/v1/secret_share".to_vec(),
        share_prefix: b"api/v1/share".to_vec(),
    }
}

fn now_timestamp() -> Timestamp {
    let now = time::OffsetDateTime::now_utc();
    Timestamp::new(now.unix_timestamp(), now.nanosecond()).unwrap()
}

fn view_flag() -> BucketSharePermissionFlags {
    BucketSharePermissionFlags::from_bits(PERM_VIEW).unwrap()
}

#[test]
fn create_secret_share_link() {
    let bucket_key_bytes = rand::random::<[u8; 32]>();
    let bucket_key = bucket_key_bytes.to_vec();
    let permission = view_flag();
    let seed = rand::random::<[u8; 32]>().to_vec();
    let (secret_key, _public_key) = ed25519_keypair_from_seed(&seed);
    let ssl = SecretShareLink::new(
        uuid::Uuid::new_v4().as_bytes().to_vec(),
        uuid::Uuid::new_v4().as_bytes().to_vec(),
        bucket_key,
        permission,
        Some(now_timestamp()),
        &secret_key,
    );
    assert!(ssl.bucket_key != vec![0u8; 32]);
    assert!(ssl.permission == permission);
}

#[test]
fn secret_share_link_to_and_from_url() {
    let cfg = test_config();
    let user_id = uuid::Uuid::new_v4().as_bytes().to_vec();
    let bucket_id = uuid::Uuid::new_v4().as_bytes().to_vec();
    let bucket_key = vec![0u8; 32];
    let permission = view_flag();
    let expires = Some(now_timestamp());
    let (secret_key, _pk) = ed25519_keypair_from_seed(&vec![1u8; 32]);
    let original_link = SecretShareLink::new(
        user_id,
        bucket_id,
        bucket_key,
        permission,
        expires,
        &secret_key,
    );
    let url = secret_share_link_to_string(&original_link, &cfg);
    let parsed_link = secret_share_link_from_str(&url, &cfg).unwrap();
    assert_eq!(original_link.user_id, parsed_link.user_id);
    assert_eq!(original_link.bucket_id, parsed_link.bucket_id);
    assert_eq!(original_link.bucket_key, parsed_link.bucket_key);
    assert_eq!(original_link.permission, parsed_link.permission);
    assert_eq!(
        original_link.expires.unwrap().unix_seconds,
        parsed_link.expires.unwrap().unix_seconds
    );
    assert_eq!(
        original_link.expires.unwrap().nanos,
        parsed_link.expires.unwrap().nanos
    );
    assert_eq!(original_link.signature, parsed_link.signature);
}

#[test]
fn signature_verification() {
    let user_id = uuid::Uuid::new_v4().as_bytes().to_vec();
    let bucket_id = uuid::Uuid::new_v4().as_bytes().to_vec();
    let seed = rand::random::<[u8; 32]>().to_vec();
    let (secret_key, public_key) = ed25519_keypair_from_seed(&seed);
    let bucket_key = rand::random::<[u8; 32]>().to_vec();
    let permission = view_flag();
    let expires = Some(now_timestamp());
    let link = SecretShareLink::new(
        user_id,
        bucket_id,
        bucket_key,
        permission,
        expires,
        &secret_key,
    );
    assert_eq!(link.verify_signature(&public_key), Ok(()));
}

#[test]
fn unknown_permission_bits_are_rejected() {
    assert_eq!(
        BucketSharePermissionFlags::from_bits(0x100),
        Err(PermissionSetError::InvalidFlags)
    );
    assert_eq!(
        BucketSharePermissionFlags::from_bits(0x8000_0000),
        Err(PermissionSetError::InvalidFlags)
    );
    let all = BucketSharePermissionFlags::from_bits(0xff).unwrap();
    assert_eq!(all.to_bits(), 0xff);
}

#[test]
fn permission_set_operations() {
    let view = view_flag();
    let read = BucketSharePermissionFlags::from_bits(PERM_READ).unwrap();
    let both = view.union(read);
    assert_eq!(both.to_bits(), PERM_VIEW | PERM_READ);
    assert!(both.contains(view));
    assert!(both.contains(read));
    assert!(!view.contains(read));
}

fn fixed_scenario_link() -> (SecretShareLink, Vec<u8>, Vec<u8>) {
    let subject_id = vec![0x11u8; 16];
    let resource_id = vec![0x22u8; 16];
    let resource_key = vec![0u8; 32];
    let permissions = BucketSharePermissionFlags::from_bits(PERM_VIEW | PERM_READ).unwrap();
    let (secret_key, public_key) = ed25519_keypair_from_seed(&vec![42u8; 32]);
    let link = SecretShareLink::new(
        subject_id,
        resource_id,
        resource_key,
        permissions,
        None,
        &secret_key,
    );
    (link, secret_key, public_key)
}

#[test]
fn fixed_scenario_encodes_and_verifies() {
    let cfg = test_config();
    let (link, _sk, public_key) = fixed_scenario_link();
    let url = secret_share_link_to_string(&link, &cfg);
    // Splitting the whole URL on `#` yields four parts: no expiry.
    assert_eq!(url.split('#').count(), 4);
    assert!(url.starts_with(
        "https://bucketdrive.co/api/v1/secret_share/11111111-1111-1111-1111-111111111111/22222222-2222-2222-2222-222222222222#"
    ));
    let parsed = secret_share_link_from_str(&url, &cfg).unwrap();
    assert_eq!(parsed.verify_signature(&public_key), Ok(()));
    let (_other_sk, other_pk) = ed25519_keypair_from_seed(&vec![43u8; 32]);
    assert!(parsed.verify_signature(&other_pk).is_err());
}

#[test]
fn flipped_permission_bit_fails_verification() {
    let cfg = test_config();
    let (link, _sk, public_key) = fixed_scenario_link();
    // Re-encode with an extra permission bit but the original signature.
    let tampered = SecretShareLink {
        user_id: link.user_id.clone(),
        bucket_id: link.bucket_id.clone(),
        bucket_key: link.bucket_key.clone(),
        permission: BucketSharePermissionFlags::from_bits(PERM_VIEW | PERM_READ | PERM_WRITE)
            .unwrap(),
        expires: link.expires,
        signature: link.signature.clone(),
    };
    let url = secret_share_link_to_string(&tampered, &cfg);
    let parsed = secret_share_link_from_str(&url, &cfg).unwrap();
    assert!(parsed.verify_signature(&public_key).is_err());
}

#[test]
fn tampered_field_fails_verification() {
    let (link, _sk, public_key) = fixed_scenario_link();
    let mut altered = link.clone();
    altered.user_id[0] ^= 1;
    assert!(altered.verify_signature(&public_key).is_err());
    let mut altered = link.clone();
    altered.bucket_id[15] ^= 0x80;
    assert!(altered.verify_signature(&public_key).is_err());
    let mut altered = link.clone();
    altered.bucket_key[7] ^= 4;
    assert!(altered.verify_signature(&public_key).is_err());
    let mut altered = link.clone();
    altered.expires = Some(Timestamp::new(1, 0).unwrap());
    assert!(altered.verify_signature(&public_key).is_err());
    assert_eq!(link.verify_signature(&public_key), Ok(()));
}

#[test]
fn tampered_url_is_rejected_without_panic() {
    let cfg = test_config();
    let (link, _sk, _pk) = fixed_scenario_link();
    let url = secret_share_link_to_string(&link, &cfg);

    // Wrong host.
    let wrong_host = url.replace("bucketdrive.co", "bucketdrive.io");
    assert!(matches!(
        secret_share_link_from_str(&wrong_host, &cfg),
        Err(SecretShareLinkParsingError::InvalidHostDomain)
    ));

    // Corrupted base64 segment.
    let hash = url.find('#').unwrap();
    let mut corrupted = url.clone().into_bytes();
    corrupted[hash + 1] = b'!';
    let corrupted = String::from_utf8(corrupted).unwrap();
    assert!(matches!(
        secret_share_link_from_str(&corrupted, &cfg),
        Err(SecretShareLinkParsingError::InvalidEncoding)
    ));

    // Missing fragment.
    let last = url.rfind('#').unwrap();
    let missing = &url[..last];
    assert!(secret_share_link_from_str(missing, &cfg).is_err());

    // Truncated string.
    let truncated = &url[..url.len() - 5];
    assert!(secret_share_link_from_str(truncated, &cfg).is_err());

    // Empty string.
    assert!(secret_share_link_from_str("", &cfg).is_err());
}

#[test]
fn expiry_round_trips_to_the_nanosecond() {
    let cfg = test_config();
    let (secret_key, _pk) = ed25519_keypair_from_seed(&vec![9u8; 32]);
    let expires = Timestamp::new(-1234567890, 987654321).unwrap();
    let link = SecretShareLink::new(
        vec![1u8; 16],
        vec![2u8; 16],
        vec![3u8; 32],
        view_flag(),
        Some(expires),
        &secret_key,
    );
    let url = encode_secret_share_link(&link, &cfg);
    let parsed = decode_secret_share_link(&url, &cfg).unwrap();
    assert_eq!(parsed.expires.unwrap().unix_seconds, -1234567890);
    assert_eq!(parsed.expires.unwrap().nanos, 987654321);
    // The URL with an expiry has five `#`-separated parts.
    assert_eq!(url.iter().filter(|&&b| b == b'#').count(), 4);
}

#[test]
fn nanos_out_of_range_are_rejected() {
    assert!(Timestamp::new(0, 1_000_000_000).is_none());
    assert!(Timestamp::new(0, 999_999_999).is_some());
}

#[test]
fn token_matches_digest_prefix() {
    let (link, _sk, _pk) = fixed_scenario_link();
    let token = link.get_token();
    assert_eq!(token.len(), 32);
    // The token is the 32-byte prefix of the SHA3-512 digest of the
    // fixed-order preimage.
    let mut hasher = sha3::Sha3_512::new();
    hasher.update(&link.user_id);
    hasher.update(&link.bucket_id);
    hasher.update(&link.bucket_key);
    hasher.update(link.permission.to_bits().to_be_bytes());
    let digest = hasher.finalize();
    assert_eq!(&token[..], &digest[..32]);
}

#[test]
fn base64_agrees_with_reference_implementation() {
    let data = [
        vec![],
        vec![0u8],
        vec![251u8, 255],
        (0u8..=255).collect::<Vec<u8>>(),
    ];
    for d in data.iter() {
        let mine = bucket_share_link::base64url::b64_encode(d);
        let reference = base64::engine::general_purpose::URL_SAFE_NO_PAD.encode(d);
        assert_eq!(mine, reference.as_bytes().to_vec());
        let decoded = bucket_share_link::base64url::b64_decode(&mine).unwrap();
        assert_eq!(&decoded, d);
    }
    assert!(bucket_share_link::base64url::b64_decode(&b"a".to_vec()).is_none());
    assert!(bucket_share_link::base64url::b64_decode(&b"a!".to_vec()).is_none());
    // Non-canonical trailing bits are rejected.
    assert!(bucket_share_link::base64url::b64_decode(&b"ab".to_vec()).is_none());
    assert!(bucket_share_link::base64url::b64_decode(&b"aQ".to_vec()).is_some());
}

#[test]
fn uuid_text_agrees_with_reference_implementation() {
    let raw = rand::random::<[u8; 16]>();
    let mine = bucket_share_link::hexid::uuid_to_text(&raw.to_vec());
    let reference = uuid::Uuid::from_bytes(raw).hyphenated().to_string();
    assert_eq!(mine, reference.as_bytes().to_vec());
    let back = bucket_share_link::hexid::uuid_from_text(&mine).unwrap();
    assert_eq!(back, raw.to_vec());
    assert!(bucket_share_link::hexid::uuid_from_text(&b"not-a-uuid".to_vec()).is_none());
}

#[test]
fn share_link_round_trip() {
    let cfg = test_config();
    let link = ShareLink::new();
    let token = link.get_token();
    assert_eq!(token.len(), 32);
    let url = link.to_url_bytes(&cfg);
    let parsed = share_link_from_url_bytes(&url, &cfg).unwrap();
    assert_eq!(parsed.get_token(), token);
    let other = ShareLink::gen_token();
    assert_eq!(other.len(), 32);

    let mut wrong_host = url.clone();
    wrong_host[8] ^= 1;
    assert!(share_link_from_url_bytes(&wrong_host, &cfg).is_err());
}

#[test]
fn share_link_string_round_trip() {
    let cfg = test_config();
    let link = ShareLink::new();
    let url = link.to_url_string(&cfg);
    assert!(url.starts_with("https://bucketdrive.co/api/v1/share/"));
    let parsed = bucket_share_link::share_link::share_link_from_str(&url, &cfg).unwrap();
    assert_eq!(parsed.get_token(), link.get_token());
    assert!(bucket_share_link::share_link::share_link_from_str("https://elsewhere.example/x", &cfg)
        .is_err());
}

#[test]
fn region_and_encryption_parsing() {
    assert!(matches!(
        BucketRegion::from_str("eu-center"),
        Ok(BucketRegion::EuropeCentral(0))
    ));
    assert!(BucketRegion::from_str("eu").is_err());
    // Region codes contain a hyphen, so the hyphen-splitting cluster
    // parser never sees a whole code in its first token.
    assert!(RegionCluster::from_str("eu-center-1").is_err());
    assert!(RegionCluster::from_str("nowhere").is_err());

    assert_eq!(parse_u32_digits(&b"123".to_vec()), Ok(123));
    assert_eq!(parse_u32_digits(&b"4294967295".to_vec()), Ok(u32::MAX));
    assert!(parse_u32_digits(&b"4294967296".to_vec()).is_err());
    assert!(parse_u32_digits(&b"".to_vec()).is_err());
    assert!(parse_u32_digits(&b"12a".to_vec()).is_err());

    assert!(matches!(
        BucketEncryption::from_str("None"),
        Ok(BucketEncryption::NoEncryption)
    ));
    assert!(matches!(
        BucketEncryption::from_str("AES256"),
        Ok(BucketEncryption::AES256)
    ));
    assert!(matches!(
        BucketEncryption::from_str("ZeroKnowledge"),
        Ok(BucketEncryption::ZeroKnowledge)
    ));
    match BucketEncryption::from_str("Custom-chacha") {
        Ok(BucketEncryption::Custom(label)) => assert_eq!(label, "Custom-chacha"),
        other => panic!("unexpected: {:?}", other),
    }
    assert_eq!(
        BucketEncryption::from_str("chacha"),
        Err(BucketEncryptionParsingError::InvalidCustomFormat)
    );
    let long = format!("Custom-{}", "x".repeat(70));
    assert_eq!(
        BucketEncryption::from_str(&long),
        Err(BucketEncryptionParsingError::InvalidCustomFormat)
    );
}
