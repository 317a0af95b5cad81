//! Saturating pixel arithmetic.
//!
//! All geometry in this crate is measured in whole pixels held in `i64`.
//! To keep every operation total, sums and differences are clamped to the
//! range `[-PX_MAX, PX_MAX]`; the clamp is far beyond any realistic layout,
//! so in practice the operations behave like exact integer arithmetic.
use vstd::prelude::*;

verus! {

/// Largest pixel magnitude the arithmetic helpers will produce.
pub const PX_MAX: i64 = 0x2000_0000_0000_0000;

/// Clamp a mathematical integer into the representable pixel range.
pub open spec fn clip(v: int) -> int {
    if v > PX_MAX as int {
        PX_MAX as int
    } else if v < -(PX_MAX as int) {
        -(PX_MAX as int)
    } else {
        v
    }
}

/// Saturating sum of two pixel quantities.
pub open spec fn spec_px_add(a: int, b: int) -> int {
    clip(a + b)
}

/// Saturating difference of two pixel quantities.
pub open spec fn spec_px_sub(a: int, b: int) -> int {
    clip(a - b)
}

/// Half of a pixel quantity, rounded toward negative infinity.
pub open spec fn spec_px_half(v: int) -> int {
    if v >= 0 {
        v / 2
    } else {
        -((-v + 1) / 2)
    }
}

/// True when a value is already inside the representable pixel range.
pub open spec fn in_px_range(v: int) -> bool {
    -(PX_MAX as int) <= v <= PX_MAX as int
}

pub fn px_add(a: i64, b: i64) -> (r: i64)
    ensures
        r as int == spec_px_add(a as int, b as int),
{
    let s: i128 = a as i128 + b as i128;
    if s > PX_MAX as i128 {
        PX_MAX
    } else if s < -(PX_MAX as i128) {
        -PX_MAX
    } else {
        s as i64
    }
}

pub fn px_sub(a: i64, b: i64) -> (r: i64)
    ensures
        r as int == spec_px_sub(a as int, b as int),
{
    let s: i128 = a as i128 - b as i128;
    if s > PX_MAX as i128 {
        PX_MAX
    } else if s < -(PX_MAX as i128) {
        -PX_MAX
    } else {
        s as i64
    }
}

pub fn px_half(v: i64) -> (r: i64)
    requires
        in_px_range(v as int),
    ensures
        r as int == spec_px_half(v as int),
{
    if v >= 0 {
        v / 2
    } else {
        let m: i64 = -v + 1;
        -(m / 2)
    }
}

/// Clipping never leaves the representable range.
pub proof fn lemma_clip_in_range(v: int)
    ensures
        in_px_range(clip(v)),
{
}

/// Clipping is the identity on values already in range.
pub proof fn lemma_clip_exact(v: int)
    requires
        in_px_range(v),
    ensures
        clip(v) == v,
{
}

} // verus!
