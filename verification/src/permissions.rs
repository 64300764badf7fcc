//! The set of operations a share link may grant, held as 32-bit flags.
use vstd::prelude::*;

verus! {

/// The ability to view the bucket's file structure.
pub const PERM_VIEW: u32 = 0x01;

/// The ability to read from the bucket.
pub const PERM_READ: u32 = 0x02;

/// The ability to write to the bucket.
pub const PERM_WRITE: u32 = 0x04;

/// The ability to delete a file from the bucket.
pub const PERM_DELETE_FILE: u32 = 0x08;

/// The ability to delete the bucket.
pub const PERM_DELETE_BUCKET: u32 = 0x10;

/// The ability to share the bucket with others.
pub const PERM_SHARE_BUCKET: u32 = 0x20;

/// The ability to clone the bucket.
pub const PERM_CLONE: u32 = 0x40;

/// The ability to search inside the bucket.
pub const PERM_SEARCH: u32 = 0x80;

/// Every defined permission bit; any bit outside this mask is invalid.
pub const PERM_ALL_MASK: u32 = 0xff;

/// Error for a bit pattern that holds bits outside the defined flags.
#[derive(Clone, Copy, Debug, PartialEq, Eq, Structural)]
pub enum PermissionSetError {
    InvalidFlags,
}

/// A combinable set of named operations, stored as a 32-bit integer in
/// which only the bits of `PERM_ALL_MASK` may ever be set.
#[derive(Clone, Copy, Debug, PartialEq, Eq, Structural)]
pub struct BucketSharePermissionFlags {
    bits: u32,
}

impl View for BucketSharePermissionFlags {
    type V = u32;

    closed spec fn view(&self) -> u32 {
        self.bits
    }
}

impl BucketSharePermissionFlags {
    /// A permission set is well formed when no undefined bit is set.
    pub open spec fn wf(self) -> bool {
        self@ & PERM_ALL_MASK == self@
    }

    /// The empty permission set.
    pub fn empty() -> (r: Self)
        ensures
            r@ == 0u32,
            r.wf(),
    {
        proof {
            assert(0u32 & PERM_ALL_MASK == 0u32) by (bit_vector);
        }
        BucketSharePermissionFlags { bits: 0 }
    }

    /// Builds a permission set from raw bits, rejecting any bit pattern
    /// with a bit outside the defined flags rather than truncating it.
    pub fn from_bits(bits: u32) -> (r: Result<Self, PermissionSetError>)
        ensures
            r is Ok <==> bits & PERM_ALL_MASK == bits,
            r matches Ok(p) ==> p@ == bits && p.wf(),
            r matches Err(e) ==> e == PermissionSetError::InvalidFlags,
    {
        if bits & PERM_ALL_MASK == bits {
            Ok(BucketSharePermissionFlags { bits })
        } else {
            Err(PermissionSetError::InvalidFlags)
        }
    }

    /// The raw 32-bit value of the set.
    pub fn to_bits(&self) -> (r: u32)
        ensures
            r == self@,
    {
        self.bits
    }

    /// Whether every bit of `other` is also set in `self`.
    pub fn contains(&self, other: Self) -> (r: bool)
        ensures
            r == (self@ & other@ == other@),
    {
        self.bits & other.bits == other.bits
    }

    /// The union of two permission sets.
    pub fn union(&self, other: Self) -> (r: Self)
        ensures
            r@ == self@ | other@,
            self.wf() && other.wf() ==> r.wf(),
    {
        proof {
            let a = self.bits;
            let b = other.bits;
            assert(a & PERM_ALL_MASK == a && b & PERM_ALL_MASK == b ==> (a | b) & PERM_ALL_MASK
                == (a | b)) by (bit_vector);
        }
        BucketSharePermissionFlags { bits: self.bits | other.bits }
    }
}

} // verus!
