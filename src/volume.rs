use vstd::prelude::*;

verus! {

/// The level that stands for full volume: levels are thousandths of it.
pub const FULL_VOLUME: u32 = 1000;

/// The lowest level a master-volume adjustment leaves on a playing sound.
pub const MASTER_FLOOR: u32 = 20;

/// `v` bounded to `[lo, hi]`.
pub open spec fn clamp_spec(v: int, lo: int, hi: int) -> int {
    if v < lo {
        lo
    } else if v > hi {
        hi
    } else {
        v
    }
}

/// Adds `offset` to `level` and bounds the sum to `[floor, FULL_VOLUME]`.
pub fn offset_level(level: u32, offset: i32, floor: u32) -> (r: u32)
    requires
        level <= FULL_VOLUME,
        floor <= FULL_VOLUME,
    ensures
        r == clamp_spec(level + offset, floor as int, FULL_VOLUME as int),
        floor <= r <= FULL_VOLUME,
{
    let sum: i64 = level as i64 + offset as i64;
    if sum < floor as i64 {
        floor
    } else if sum > FULL_VOLUME as i64 {
        FULL_VOLUME
    } else {
        sum as u32
    }
}

} // verus!
