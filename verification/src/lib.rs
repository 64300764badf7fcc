//! Capability share links for storage buckets.
//!
//! A secret share link embeds a subject id, a bucket id, the bucket's
//! symmetric key, a permission set and an optional expiry, all bound
//! together by an ed25519 signature over a sha3 digest of the fields.
//! The link is rendered to, and parsed back from, a URL-shaped string
//! with strict validation of every segment.
pub mod base64url;
pub mod bytes;
pub mod codec;
pub mod crypto;
pub mod hexid;
pub mod permissions;
pub mod secret_share_link;
pub mod share_link;
pub mod strconv;
pub mod timestamp;
pub mod vocab;
