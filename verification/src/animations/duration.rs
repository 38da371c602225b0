//! Animation durations from the Fluent 2 token set, in milliseconds.

use vstd::prelude::*;

verus! {

/// Checkbox tick, toggle snap (ms).
pub const ULTRA_FAST: u32 = 50;
/// Button press feedback (ms).
pub const FASTER: u32 = 100;
/// Small control state changes (ms).
pub const FAST: u32 = 150;
/// Panel slide, card expand (ms).
pub const NORMAL: u32 = 200;
/// Slightly softer than `NORMAL` (ms).
pub const GENTLE: u32 = 250;
/// Dialog entrance, page transition (ms).
pub const SLOW: u32 = 300;
/// Large-surface movement (ms).
pub const SLOWER: u32 = 400;
/// Full-screen morph (ms).
pub const ULTRA_SLOW: u32 = 500;

} // verus!
