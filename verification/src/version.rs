//! The library version, packed into one 32-bit word.

use vstd::prelude::*;

verus! {

/// The major number of the protocol's version.
pub const ENET_VERSION_MAJOR: u32 = 1;

/// The minor number of the protocol's version.
pub const ENET_VERSION_MINOR: u32 = 3;

/// The patch number of the protocol's version.
pub const ENET_VERSION_PATCH: u32 = 18;

/// `ENET_VERSION_CREATE(1, 3, 18)`.
pub const ENET_VERSION: u32 = 0x0001_0312;

/// The packed word: major above bit 16, minor in bits 8 to 15, patch below.
pub open spec fn spec_version_create(major: u32, minor: u32, patch: u32) -> u32 {
    (major << 16) | (minor << 8) | patch
}

/// A version as one number: a byte each for major, minor and patch.
pub fn ENET_VERSION_CREATE(major: u32, minor: u32, patch: u32) -> (v: u32)
    ensures
        v == spec_version_create(major, minor, patch),
{
    (major << 16) | (minor << 8) | patch
}

/// The major number of a version.
pub fn ENET_VERSION_GET_MAJOR(version: u32) -> (r: u32)
    ensures
        r == (version >> 16) & 0xFF,
        r < 256,
{
    assert(((version >> 16) & 0xFF) < 256) by (bit_vector);
    (version >> 16) & 0xFF
}

/// The minor number of a version.
pub fn ENET_VERSION_GET_MINOR(version: u32) -> (r: u32)
    ensures
        r == (version >> 8) & 0xFF,
        r < 256,
{
    assert(((version >> 8) & 0xFF) < 256) by (bit_vector);
    (version >> 8) & 0xFF
}

/// The patch number of a version.
pub fn ENET_VERSION_GET_PATCH(version: u32) -> (r: u32)
    ensures
        r == version & 0xFF,
        r < 256,
{
    assert((version & 0xFF) < 256) by (bit_vector);
    version & 0xFF
}

/// A version packed from three bytes gives each of them back.
pub proof fn lemma_version_roundtrip(major: u32, minor: u32, patch: u32)
    requires
        major < 256,
        minor < 256,
        patch < 256,
    ensures
        (spec_version_create(major, minor, patch) >> 16) & 0xFF == major,
        (spec_version_create(major, minor, patch) >> 8) & 0xFF == minor,
        spec_version_create(major, minor, patch) & 0xFF == patch,
        spec_version_create(major, minor, patch) == major * 65536 + minor * 256 + patch,
{
    assert((((major << 16) | (minor << 8) | patch) >> 16) & 0xFF == major) by (bit_vector)
        requires
            major < 256,
            minor < 256,
            patch < 256,
    ;
    assert((((major << 16) | (minor << 8) | patch) >> 8) & 0xFF == minor) by (bit_vector)
        requires
            major < 256,
            minor < 256,
            patch < 256,
    ;
    assert(((major << 16) | (minor << 8) | patch) & 0xFF == patch) by (bit_vector)
        requires
            major < 256,
            minor < 256,
            patch < 256,
    ;
    assert(((major << 16) | (minor << 8) | patch) == major * 65536 + minor * 256 + patch)
        by (bit_vector)
        requires
            major < 256,
            minor < 256,
            patch < 256,
    ;
}

/// The version constant is the packed form of its three parts.
pub proof fn lemma_version_constant()
    ensures
        ENET_VERSION == spec_version_create(
            ENET_VERSION_MAJOR,
            ENET_VERSION_MINOR,
            ENET_VERSION_PATCH,
        ),
{
    lemma_version_roundtrip(1, 3, 18);
}

} // verus!
