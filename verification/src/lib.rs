pub mod model;
pub mod system;
pub mod hexload;
pub mod props;

use vstd::prelude::*;

verus! {

/// Pixel colour used by a host when presenting the monochrome display:
/// a lit pixel is opaque white, an unlit pixel is black.
pub fn display_value(v: bool) -> (r: u32)
    ensures
        r == (if v { 0xFFFF_FFFFu32 } else { 0u32 }),
{
    if v {
        0xFFFFFFFF
    } else {
        0
    }
}

} // verus!
