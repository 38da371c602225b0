//! Fluent 2 motion curves and durations.

use vstd::prelude::*;
use super::duration::{ULTRA_FAST, FASTER, FAST, NORMAL, GENTLE, SLOW, SLOWER, ULTRA_SLOW};

verus! {

/// A Fluent 2 easing curve (a CSS cubic bezier from (0, 0) to (1, 1)).
/// Accelerate curves suit exits, decelerate curves entrances.
#[derive(Debug, Clone, Copy, PartialEq, Eq, Structural)]
pub enum Curve {
    /// No easing.
    Linear,
    AccelerateMax,
    AccelerateMid,
    AccelerateMin,
    DecelerateMax,
    DecelerateMid,
    DecelerateMin,
    EasyEaseMax,
    EasyEase,
}

/// The duration table, shortest first.
pub fn durations() -> (d: [u32; 8])
    ensures
        d@ == seq![ULTRA_FAST, FASTER, FAST, NORMAL, GENTLE, SLOW, SLOWER, ULTRA_SLOW],
{
    let d = [ULTRA_FAST, FASTER, FAST, NORMAL, GENTLE, SLOW, SLOWER, ULTRA_SLOW];
    assert(d@ =~= seq![ULTRA_FAST, FASTER, FAST, NORMAL, GENTLE, SLOW, SLOWER, ULTRA_SLOW]);
    d
}

} // verus!
