//! The protocol version carried in every header.

use vstd::prelude::*;

verus! {

/// Major version constant.
pub const VERSION_MAJOR: u8 = 0;

/// Minor version constant.
pub const VERSION_MINOR: u8 = 4;

/// Patch version constant.
pub const VERSION_PATCH: u8 = 1;

/// The version triple as a sequence: major, minor, patch.
pub open spec fn version_seq() -> Seq<u8> {
    seq![VERSION_MAJOR, VERSION_MINOR, VERSION_PATCH]
}

/// The version triple this library writes into the headers it creates.
pub fn version() -> (v: [u8; 3])
    ensures
        v@ == version_seq(),
{
    let v = [VERSION_MAJOR, VERSION_MINOR, VERSION_PATCH];
    assert(v@ =~= version_seq());
    v
}

} // verus!
