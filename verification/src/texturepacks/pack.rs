//! A resource pack's `pack.mcmeta` metadata. 1.8.x packs declare
//! `pack_format` 1; any other value is reported as a mismatch rather
//! than refused, since many community packs get it wrong but still work.

use vstd::prelude::*;

verus! {

/// The `pack_format` of 1.6 to 1.8.9 resource packs.
pub const EXPECTED_PACK_FORMAT_1_8: i64 = 1;

/// What `pack.mcmeta` declares.
pub struct PackMeta {
    pub pack_format: i64,
    pub description: String,
}

impl PackMeta {
    /// Whether the pack declares the 1.8.x format.
    pub fn matches_1_8(&self) -> (b: bool)
        ensures
            b == (self.pack_format == EXPECTED_PACK_FORMAT_1_8),
    {
        self.pack_format == EXPECTED_PACK_FORMAT_1_8
    }
}

} // verus!
