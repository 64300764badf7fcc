//! Static vocabularies of the bucket service: regions, storage classes,
//! compression and codec choices, payment plans, visibility.  These
//! carry no behaviour of their own; only the two small parsers below
//! have any logic.
use vstd::prelude::*;
use crate::strconv::str_to_bytes;
use vstd::utf8::encode_utf8;

verus! {

/// A geographic region of a bucket cluster.
#[derive(Debug, Clone, Eq, PartialEq)]
pub enum BucketRegion {
    EuropeCentral(u32),
    EuropeNorth(u32),
    EuropeSouth(u32),
    EuropeWest(u32),
    EuropeEast(u32),
    AmericaCentral(u32),
    AmericaNorth(u32),
    AmericaSouth(u32),
    AmericaWest(u32),
    AmericaEast(u32),
    AfricaCentral(u32),
    AfricaNorth(u32),
    AfricaSouth(u32),
    AfricaWest(u32),
    AfricaEast(u32),
    AsiaPacificCentral(u32),
    AsiaPacificNorth(u32),
    AsiaPacificSouth(u32),
    AsiaPacificWest(u32),
    AsiaPacificEast(u32),
    MiddleEastCentral(u32),
    MiddleEastNorth(u32),
    MiddleEastSouth(u32),
    MiddleEastWest(u32),
    MiddleEastEast(u32),
    SouthAmericaCentral(u32),
    SouthAmericaNorth(u32),
    SouthAmericaSouth(u32),
    SouthAmericaWest(u32),
    SouthAmericaEast(u32),
}

/// The code each region parses from; the numeric payload of a parsed
/// region is zero.
pub open spec fn spec_region_code(r: BucketRegion) -> Seq<char> {
    match r {
        BucketRegion::EuropeCentral(_) => "eu-center"@,
        BucketRegion::EuropeNorth(_) => "eu-north"@,
        BucketRegion::EuropeSouth(_) => "eu-south"@,
        BucketRegion::EuropeWest(_) => "eu-west"@,
        BucketRegion::EuropeEast(_) => "eu-east"@,
        BucketRegion::AmericaCentral(_) => "us-central"@,
        BucketRegion::AmericaNorth(_) => "us-north"@,
        BucketRegion::AmericaSouth(_) => "us-south"@,
        BucketRegion::AmericaWest(_) => "us-west"@,
        BucketRegion::AmericaEast(_) => "us-east"@,
        BucketRegion::AfricaCentral(_) => "af-central"@,
        BucketRegion::AfricaNorth(_) => "af-north"@,
        BucketRegion::AfricaSouth(_) => "af-south"@,
        BucketRegion::AfricaWest(_) => "af-west"@,
        BucketRegion::AfricaEast(_) => "af-east"@,
        BucketRegion::AsiaPacificCentral(_) => "ap-center"@,
        BucketRegion::AsiaPacificNorth(_) => "ap-north"@,
        BucketRegion::AsiaPacificSouth(_) => "ap-south"@,
        BucketRegion::AsiaPacificWest(_) => "ap-west"@,
        BucketRegion::AsiaPacificEast(_) => "ap-east"@,
        BucketRegion::MiddleEastCentral(_) => "me-central"@,
        BucketRegion::MiddleEastNorth(_) => "me-north"@,
        BucketRegion::MiddleEastSouth(_) => "me-south"@,
        BucketRegion::MiddleEastWest(_) => "me-west"@,
        BucketRegion::MiddleEastEast(_) => "me-east"@,
        BucketRegion::SouthAmericaCentral(_) => "sa-central"@,
        BucketRegion::SouthAmericaNorth(_) => "sa-north"@,
        BucketRegion::SouthAmericaSouth(_) => "sa-south"@,
        BucketRegion::SouthAmericaWest(_) => "sa-west"@,
        BucketRegion::SouthAmericaEast(_) => "sa-east"@,
    }
}

/// Compares two strings for character equality.
pub fn str_eq(a: &str, b: &str) -> (r: bool)
    ensures
        r == (a@ == b@),
{
    let va = str_to_bytes(a);
    let vb = str_to_bytes(b);
    let r = crate::codec::bytes_eq(&va, &vb);
    proof {
        if va@ == vb@ {
            vstd::utf8::encode_utf8_decode_utf8(a@);
            vstd::utf8::encode_utf8_decode_utf8(b@);
        }
    }
    r
}

impl BucketRegion {
    /// Parses a region code; the payload of a parsed region is zero.
    pub fn from_str(s: &str) -> (r: Result<BucketRegion, ()>)
        ensures
            r matches Ok(reg) ==> spec_region_code(reg) == s@,
            r is Err ==> forall|reg: BucketRegion| spec_region_code(reg) != s@,
    {
        if str_eq(s, "eu-center") {
            Ok(BucketRegion::EuropeCentral(0))
        } else if str_eq(s, "eu-north") {
            Ok(BucketRegion::EuropeNorth(0))
        } else if str_eq(s, "eu-south") {
            Ok(BucketRegion::EuropeSouth(0))
        } else if str_eq(s, "eu-west") {
            Ok(BucketRegion::EuropeWest(0))
        } else if str_eq(s, "eu-east") {
            Ok(BucketRegion::EuropeEast(0))
        } else if str_eq(s, "us-central") {
            Ok(BucketRegion::AmericaCentral(0))
        } else if str_eq(s, "us-north") {
            Ok(BucketRegion::AmericaNorth(0))
        } else if str_eq(s, "us-south") {
            Ok(BucketRegion::AmericaSouth(0))
        } else if str_eq(s, "us-west") {
            Ok(BucketRegion::AmericaWest(0))
        } else if str_eq(s, "us-east") {
            Ok(BucketRegion::AmericaEast(0))
        } else if str_eq(s, "af-central") {
            Ok(BucketRegion::AfricaCentral(0))
        } else if str_eq(s, "af-north") {
            Ok(BucketRegion::AfricaNorth(0))
        } else if str_eq(s, "af-south") {
            Ok(BucketRegion::AfricaSouth(0))
        } else if str_eq(s, "af-west") {
            Ok(BucketRegion::AfricaWest(0))
        } else if str_eq(s, "af-east") {
            Ok(BucketRegion::AfricaEast(0))
        } else if str_eq(s, "ap-center") {
            Ok(BucketRegion::AsiaPacificCentral(0))
        } else if str_eq(s, "ap-north") {
            Ok(BucketRegion::AsiaPacificNorth(0))
        } else if str_eq(s, "ap-south") {
            Ok(BucketRegion::AsiaPacificSouth(0))
        } else if str_eq(s, "ap-west") {
            Ok(BucketRegion::AsiaPacificWest(0))
        } else if str_eq(s, "ap-east") {
            Ok(BucketRegion::AsiaPacificEast(0))
        } else if str_eq(s, "me-central") {
            Ok(BucketRegion::MiddleEastCentral(0))
        } else if str_eq(s, "me-north") {
            Ok(BucketRegion::MiddleEastNorth(0))
        } else if str_eq(s, "me-south") {
            Ok(BucketRegion::MiddleEastSouth(0))
        } else if str_eq(s, "me-west") {
            Ok(BucketRegion::MiddleEastWest(0))
        } else if str_eq(s, "me-east") {
            Ok(BucketRegion::MiddleEastEast(0))
        } else if str_eq(s, "sa-central") {
            Ok(BucketRegion::SouthAmericaCentral(0))
        } else if str_eq(s, "sa-north") {
            Ok(BucketRegion::SouthAmericaNorth(0))
        } else if str_eq(s, "sa-south") {
            Ok(BucketRegion::SouthAmericaSouth(0))
        } else if str_eq(s, "sa-west") {
            Ok(BucketRegion::SouthAmericaWest(0))
        } else if str_eq(s, "sa-east") {
            Ok(BucketRegion::SouthAmericaEast(0))
        } else {
            Err(())
        }
    }
}

/// A numeric cluster identifier within a region.
pub type ClusterId = u32;

/// A region together with a cluster number, written `<region>-<n>`.
#[derive(Debug, Clone, Eq, PartialEq)]
pub struct RegionCluster {
    pub region: BucketRegion,
    pub cluster_id: ClusterId,
}

/// The value of a sequence of ASCII decimal digits.
pub open spec fn spec_dec_val(b: Seq<u8>) -> nat
    decreases b.len(),
{
    if b.len() == 0 {
        0
    } else {
        (spec_dec_val(b.take(b.len() - 1)) * 10 + (b[b.len() - 1] - 48)) as nat
    }
}

/// Whether every byte is an ASCII decimal digit.
pub open spec fn spec_all_digits(b: Seq<u8>) -> bool {
    forall|i: int| 0 <= i < b.len() ==> 48 <= #[trigger] b[i] <= 57
}

/// Parses a nonempty run of decimal digits as a 32-bit integer,
/// rejecting other characters, an empty run, and overflow.
pub fn parse_u32_digits(b: &Vec<u8>) -> (r: Result<u32, ()>)
    ensures
        r matches Ok(x) ==> b@.len() > 0 && spec_all_digits(b@) && x == spec_dec_val(b@),
        r is Err ==> b@.len() == 0 || !spec_all_digits(b@) || spec_dec_val(b@) > u32::MAX,
{
    let n = b.len();
    if n == 0 {
        return Err(());
    }
    let mut acc: u32 = 0;
    let mut i: usize = 0;
    while i < n
        invariant
            i <= n,
            n == b@.len(),
            n > 0,
            spec_all_digits(b@.take(i as int)),
            acc == spec_dec_val(b@.take(i as int)),
        decreases n - i,
    {
        let c = b[i];
        if !(48 <= c && c <= 57) {
            proof {
                assert(!spec_all_digits(b@));
            }
            return Err(());
        }
        let d = (c - 48) as u32;
        if acc > 429496729 || (acc == 429496729 && d > 5) {
            proof {
                assert(b@.take(i as int + 1).take(i as int) =~= b@.take(i as int));
                assert(b@.take(i as int + 1)[i as int] == c);
                assert(spec_dec_val(b@.take(i as int + 1)) > u32::MAX);
                if spec_all_digits(b@) {
                    lemma_dec_val_monotone(b@, i as int + 1);
                }
            }
            return Err(());
        }
        acc = acc * 10 + d;
        proof {
            assert(b@.take(i as int + 1).take(i as int) =~= b@.take(i as int));
            assert(b@.take(i as int + 1)[i as int] == c);
        }
        i = i + 1;
    }
    proof {
        assert(b@.take(n as int) =~= b@);
    }
    Ok(acc)
}

/// Over digits, a longer prefix never has a smaller value.
proof fn lemma_dec_val_monotone(b: Seq<u8>, j: int)
    requires
        0 < j <= b.len(),
        spec_all_digits(b),
    ensures
        spec_dec_val(b) >= spec_dec_val(b.take(j)),
    decreases b.len() - j,
{
    if j < b.len() {
        lemma_dec_val_monotone(b, j + 1);
        assert(b.take(j + 1).take(j) =~= b.take(j));
        assert(b.take(j + 1)[j] == b[j]);
        assert(spec_dec_val(b.take(j + 1)) == (spec_dec_val(b.take(j)) * 10 + (b[j]
            - 48)) as nat);
    } else {
        assert(b.take(j) =~= b);
    }
}

impl RegionCluster {
    /// Parses `<first>-<second>` by splitting on hyphens: the first
    /// token must be a region code and the second a cluster number.
    /// Region codes themselves contain a hyphen, so a full
    /// `<region>-<n>` string never splits this way and is rejected.
    pub fn from_str(s: &str) -> (r: Result<RegionCluster, ()>)
        ensures
            r matches Ok(rc) ==> exists|i: int, j: int|
                #![trigger encode_utf8(s@).subrange(i + 1, j)]
                {
                    let b = encode_utf8(s@);
                    &&& 0 <= i < j <= b.len()
                    &&& b.subrange(0, i) == encode_utf8(spec_region_code(rc.region))
                    &&& b[i] == 45
                    &&& spec_all_digits(b.subrange(i + 1, j))
                    &&& rc.cluster_id == spec_dec_val(b.subrange(i + 1, j))
                },
    {
        let bytes = str_to_bytes(s);
        let n = bytes.len();
        let mut first_end: usize = 0;
        while first_end < n && bytes[first_end] != 45
            invariant
                first_end <= n,
                n == bytes@.len(),
            decreases n - first_end,
        {
            first_end = first_end + 1;
        }
        if first_end == n {
            // No hyphen: there is no second token to number the cluster.
            return Err(());
        }
        let mut second_end: usize = first_end + 1;
        while second_end < n && bytes[second_end] != 45
            invariant
                first_end + 1 <= second_end <= n,
                n == bytes@.len(),
            decreases n - second_end,
        {
            second_end = second_end + 1;
        }
        let mut region_bytes: Vec<u8> = Vec::new();
        crate::hexid::push_range(&mut region_bytes, &bytes, 0, first_end);
        let mut cluster_bytes: Vec<u8> = Vec::new();
        crate::hexid::push_range(&mut cluster_bytes, &bytes, first_end + 1, second_end);
        let cluster_id = match parse_u32_digits(&cluster_bytes) {
            Ok(x) => x,
            Err(_) => {
                return Err(());
            },
        };
        let region = match region_from_code_bytes(&region_bytes) {
            Ok(reg) => reg,
            Err(_) => {
                return Err(());
            },
        };
        let rc = RegionCluster { region, cluster_id };
        proof {
            let b = encode_utf8(s@);
            let i = first_end as int;
            let j = second_end as int;
            assert(region_bytes@ == b.subrange(0, i));
            assert(cluster_bytes@ == b.subrange(i + 1, j));
        }
        Ok(rc)
    }
}

/// Whether `b` holds exactly the UTF-8 bytes of the literal.
fn bytes_is(b: &Vec<u8>, lit: &str) -> (r: bool)
    ensures
        r == (b@ == encode_utf8(lit@)),
{
    let lb = str_to_bytes(lit);
    crate::codec::bytes_eq(b, &lb)
}

/// Parses a region code given as UTF-8 bytes.
fn region_from_code_bytes(b: &Vec<u8>) -> (r: Result<BucketRegion, ()>)
    ensures
        r matches Ok(reg) ==> encode_utf8(spec_region_code(reg)) == b@,
{
    if bytes_is(b, "eu-center") {
        Ok(BucketRegion::EuropeCentral(0))
    } else if bytes_is(b, "eu-north") {
        Ok(BucketRegion::EuropeNorth(0))
    } else if bytes_is(b, "eu-south") {
        Ok(BucketRegion::EuropeSouth(0))
    } else if bytes_is(b, "eu-west") {
        Ok(BucketRegion::EuropeWest(0))
    } else if bytes_is(b, "eu-east") {
        Ok(BucketRegion::EuropeEast(0))
    } else if bytes_is(b, "us-central") {
        Ok(BucketRegion::AmericaCentral(0))
    } else if bytes_is(b, "us-north") {
        Ok(BucketRegion::AmericaNorth(0))
    } else if bytes_is(b, "us-south") {
        Ok(BucketRegion::AmericaSouth(0))
    } else if bytes_is(b, "us-west") {
        Ok(BucketRegion::AmericaWest(0))
    } else if bytes_is(b, "us-east") {
        Ok(BucketRegion::AmericaEast(0))
    } else if bytes_is(b, "af-central") {
        Ok(BucketRegion::AfricaCentral(0))
    } else if bytes_is(b, "af-north") {
        Ok(BucketRegion::AfricaNorth(0))
    } else if bytes_is(b, "af-south") {
        Ok(BucketRegion::AfricaSouth(0))
    } else if bytes_is(b, "af-west") {
        Ok(BucketRegion::AfricaWest(0))
    } else if bytes_is(b, "af-east") {
        Ok(BucketRegion::AfricaEast(0))
    } else if bytes_is(b, "ap-center") {
        Ok(BucketRegion::AsiaPacificCentral(0))
    } else if bytes_is(b, "ap-north") {
        Ok(BucketRegion::AsiaPacificNorth(0))
    } else if bytes_is(b, "ap-south") {
        Ok(BucketRegion::AsiaPacificSouth(0))
    } else if bytes_is(b, "ap-west") {
        Ok(BucketRegion::AsiaPacificWest(0))
    } else if bytes_is(b, "ap-east") {
        Ok(BucketRegion::AsiaPacificEast(0))
    } else if bytes_is(b, "me-central") {
        Ok(BucketRegion::MiddleEastCentral(0))
    } else if bytes_is(b, "me-north") {
        Ok(BucketRegion::MiddleEastNorth(0))
    } else if bytes_is(b, "me-south") {
        Ok(BucketRegion::MiddleEastSouth(0))
    } else if bytes_is(b, "me-west") {
        Ok(BucketRegion::MiddleEastWest(0))
    } else if bytes_is(b, "me-east") {
        Ok(BucketRegion::MiddleEastEast(0))
    } else if bytes_is(b, "sa-central") {
        Ok(BucketRegion::SouthAmericaCentral(0))
    } else if bytes_is(b, "sa-north") {
        Ok(BucketRegion::SouthAmericaNorth(0))
    } else if bytes_is(b, "sa-south") {
        Ok(BucketRegion::SouthAmericaSouth(0))
    } else if bytes_is(b, "sa-west") {
        Ok(BucketRegion::SouthAmericaWest(0))
    } else if bytes_is(b, "sa-east") {
        Ok(BucketRegion::SouthAmericaEast(0))
    } else {
        Err(())
    }
}

/// The compression applied to a bucket's contents.
#[derive(Debug, Clone, Eq, PartialEq, Structural)]
pub enum BucketCompression {
    NoCompression,
    Gzip,
    Brotli,
    Zstd,
}

/// The video codecs a bucket supports.
#[derive(Debug, Clone, Eq, PartialEq, Structural)]
pub enum VideoCodec {
    AV1,
    H264,
}

/// The lifecycle state of a bucket.
#[derive(Debug, Clone, Eq, PartialEq, Structural)]
pub enum AvailabilityStatus {
    Creating,
    Available,
    Deleting,
    Deleted,
    Updating,
    Archiving,
    Restoring,
    Unavailable,
    Unreachable,
    Corrupted,
}

/// The storage class of a bucket.
#[derive(Debug, Clone, Eq, PartialEq, Structural)]
pub enum BucketStorageClass {
    General,
    ReducedRedundancy,
}

/// How usage of the service is paid for.
#[derive(Debug, Clone, Eq, PartialEq, Structural)]
pub enum PaymentModel {
    Metered,
    Subscription,
    OneTime,
}

/// How a bucket's contents are encrypted, if at all; a custom scheme is
/// named by a label of the form `Custom-<name>`.
#[derive(Debug, Clone, Eq, PartialEq)]
pub enum BucketEncryption {
    NoEncryption,
    AES256,
    ZeroKnowledge,
    Custom(String),
}

/// Error for a custom encryption label of the wrong shape.
#[derive(Debug, Clone, Eq, PartialEq, Structural)]
pub enum BucketEncryptionParsingError {
    InvalidCustomFormat,
}

impl BucketEncryption {
    /// Parses an encryption label: one of the three fixed names, or a
    /// custom label that must start with `Custom-` and stay within 64
    /// bytes in all.
    pub fn from_str(s: &str) -> (r: Result<BucketEncryption, BucketEncryptionParsingError>)
        ensures
            (r matches Ok(e) && e == BucketEncryption::NoEncryption) <==> s@ == "None"@,
            (r matches Ok(e) && e == BucketEncryption::AES256) <==> s@ == "AES256"@,
            (r matches Ok(e) && e == BucketEncryption::ZeroKnowledge) <==> s@ == "ZeroKnowledge"@,
            r matches Ok(e) ==> (e matches BucketEncryption::Custom(c) ==> c@ == s@ && encode_utf8(
                s@,
            ).len() <= 64 && encode_utf8(s@).subrange(
                0,
                encode_utf8("Custom-"@).len() as int,
            ) == encode_utf8("Custom-"@)),
            r is Err ==> s@ != "None"@ && s@ != "AES256"@ && s@ != "ZeroKnowledge"@ && (encode_utf8(
                s@,
            ).len() < encode_utf8("Custom-"@).len() || encode_utf8(s@).len() > 64 || encode_utf8(
                s@,
            ).subrange(0, encode_utf8("Custom-"@).len() as int) != encode_utf8("Custom-"@)),
    {
        proof {
            reveal_strlit("None");
            reveal_strlit("AES256");
            reveal_strlit("ZeroKnowledge");
            assert("None"@.len() == 4 && "AES256"@.len() == 6 && "ZeroKnowledge"@.len() == 13);
            assert("None"@ != "AES256"@ && "None"@ != "ZeroKnowledge"@ && "AES256"@
                != "ZeroKnowledge"@);
        }
        if str_eq(s, "None") {
            return Ok(BucketEncryption::NoEncryption);
        }
        if str_eq(s, "AES256") {
            return Ok(BucketEncryption::AES256);
        }
        if str_eq(s, "ZeroKnowledge") {
            return Ok(BucketEncryption::ZeroKnowledge);
        }
        let bytes = str_to_bytes(s);
        let prefix = str_to_bytes("Custom-");
        if !crate::codec::starts_with_at(&bytes, 0, &prefix) {
            return Err(BucketEncryptionParsingError::InvalidCustomFormat);
        }
        if bytes.len() > 64 {
            return Err(BucketEncryptionParsingError::InvalidCustomFormat);
        }
        Ok(BucketEncryption::Custom(s.to_owned()))
    }
}

/// Who can see a bucket.
#[derive(Debug, Clone, Eq, PartialEq, Structural)]
pub enum BucketVisibility {
    Public,
    PrivateShared,
    Private,
}

/// The archive format of a bulk download.
#[derive(Debug, Clone, Eq, PartialEq, Structural)]
pub enum DownloadFormat {
    Zip,
    Tar,
    Raw,
}

/// The plan a customer is on.
#[derive(Debug, Clone, Copy, Eq, PartialEq, Structural)]
pub enum PaymentPlan {
    Free,
    MeteredSubscription,
    MonthlySubscription,
    OneTime,
    Canceled,
}

/// How a customer pays.
#[derive(Debug, Clone, Eq, PartialEq, Structural)]
pub enum PaymentMethod {
    Card,
    Wallet,
    BankDebit,
}

} // verus!
