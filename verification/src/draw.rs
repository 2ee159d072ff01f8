//! Grid coordinates to window pixels.

use vstd::prelude::*;

verus! {

/// The side of a grid cell, in pixels.
pub const BLOCK_SIZE: u32 = 25;

/// The pixel position of a grid coordinate: `BLOCK_SIZE` pixels per cell,
/// held to the range of `u32` (negative positions give 0, positions past the
/// range give `u32::MAX`).
pub open spec fn pixel_of(game_coord: int) -> int {
    let p = game_coord * 25;
    if p < 0 {
        0
    } else if p > u32::MAX {
        u32::MAX as int
    } else {
        p
    }
}

/// The pixel position of a grid coordinate as a `u32`.
pub fn to_coord_u32(game_coord: i32) -> (r: u32)
    ensures
        r as int == pixel_of(game_coord as int),
{
    if game_coord <= 0 {
        0
    } else {
        let p: u64 = (game_coord as u64) * 25;
        if p > u32::MAX as u64 {
            u32::MAX
        } else {
            p as u32
        }
    }
}

} // verus!
