//! Extraction flags.
//!
//! A bitset of independent options honoured when an entry is applied to
//! disk.  The options are orthogonal: any subset is valid, and the empty
//! set is the default, safest behaviour.

use vstd::prelude::*;

verus! {

/// Restore the owning user and group.
pub const EXTRACT_OWNER: u32 = 0x0001;

/// Restore the permission bits of the entry.
pub const EXTRACT_PERM: u32 = 0x0002;

/// Restore the timestamps of the entry.
pub const EXTRACT_TIME: u32 = 0x0004;

/// Refuse to replace a file that already exists at the target path.
pub const EXTRACT_NO_OVERWRITE: u32 = 0x0008;

/// Remove an existing file at the target path before creating the new one.
pub const EXTRACT_UNLINK: u32 = 0x0010;

/// Restore access control lists.
pub const EXTRACT_ACL: u32 = 0x0020;

/// Restore file attribute flags.
pub const EXTRACT_FFLAGS: u32 = 0x0040;

/// Restore extended attributes.
pub const EXTRACT_XATTR: u32 = 0x0080;

/// Refuse to extract through a symbolic link.
pub const EXTRACT_SECURE_SYMLINKS: u32 = 0x0100;

/// Refuse a path that contains a parent-directory segment.
pub const EXTRACT_SECURE_NODOTDOT: u32 = 0x0200;

/// Keep an existing file at the target path when it is newer than the
/// entry being extracted.
pub const EXTRACT_NO_OVERWRITE_NEWER: u32 = 0x0800;

/// Preserve sparse regions of the entry.
pub const EXTRACT_SPARSE: u32 = 0x1000;

/// Refuse an absolute target path.
pub const EXTRACT_SECURE_NOABSOLUTEPATHS: u32 = 0x10000;

/// A set of extraction options.
#[derive(Clone, Copy, Debug, PartialEq, Eq, Structural)]
pub struct ExtractFlags {
    pub bits: u32,
}

impl ExtractFlags {
    /// Whether every option of `mask` is in the set.
    pub open spec fn spec_has(self, mask: u32) -> bool {
        self.bits & mask == mask
    }

    /// The default: no option set.
    pub fn empty() -> (r: ExtractFlags)
        ensures
            r.bits == 0,
    {
        ExtractFlags { bits: 0 }
    }

    /// The set holding exactly the options of `mask`.
    pub fn from_bits(mask: u32) -> (r: ExtractFlags)
        ensures
            r.bits == mask,
    {
        ExtractFlags { bits: mask }
    }

    /// Adds every option of `mask` to the set.
    pub fn with(self, mask: u32) -> (r: ExtractFlags)
        ensures
            r.bits == self.bits | mask,
    {
        ExtractFlags { bits: self.bits | mask }
    }

    /// Whether every option of `mask` is in the set.
    pub fn has(&self, mask: u32) -> (r: bool)
        ensures
            r == self.spec_has(mask),
    {
        self.bits & mask == mask
    }

    /// The raw bit pattern of the set.
    pub fn bits(&self) -> (r: u32)
        ensures
            r == self.bits,
    {
        self.bits
    }
}

/// Adding options never removes one: whatever `flags` holds is still
/// held after `with`.
pub proof fn lemma_with_keeps_options(flags: ExtractFlags, mask: u32, other: u32)
    ensures
        flags.spec_has(other) ==> (ExtractFlags { bits: flags.bits | mask }).spec_has(other),
        (ExtractFlags { bits: flags.bits | mask }).spec_has(mask),
{
    let b = flags.bits;
    assert(b & other == other ==> (b | mask) & other == other) by (bit_vector);
    assert((b | mask) & mask == mask) by (bit_vector);
}

} // verus!
