//! One-shot press feedback: full weight at the press instant, decaying to
//! zero over the (config-scaled) `FASTER` duration, independent of the
//! button ever coming up. Pressing another control replaces the pulse.

use vstd::prelude::*;
use super::curve::Curve;
use super::timed::{Nanos, Timed};

verus! {

/// A decaying press highlight for at most one item of one model.
#[derive(Debug, Clone, Copy)]
pub struct PressPulse<Id> {
    /// The item that was pressed, if any.
    id: Option<Id>,
    /// Runs 0 → 1 while the pulse decays 1 → 0.
    anim: Timed,
}

impl<Id: Copy> PressPulse<Id> {
    pub closed spec fn spec_id(&self) -> Option<Id> {
        self.id
    }

    pub closed spec fn spec_anim(&self) -> Timed {
        self.anim
    }

    /// A pulse that weighs nothing: no item, and a timer born finished.
    pub fn new() -> (p: Self)
        ensures
            p.spec_id() is None,
            p.spec_anim().spec_duration_ms() == 0,
    {
        PressPulse { id: None, anim: Timed::new(0, 0, Curve::EasyEase) }
    }

    /// Fire a pulse on `id` at `now`, replacing whatever was decaying.
    /// `duration_ms` is the press duration already scaled by the user's
    /// animation settings (0 when animations are off).
    pub fn press(&mut self, id: Id, now: Nanos, duration_ms: u32)
        ensures
            final(self).spec_id() == Some(id),
            final(self).spec_anim().spec_start() == now,
            final(self).spec_anim().spec_duration_ms() == duration_ms,
            final(self).spec_anim().spec_curve() == Curve::EasyEase,
    {
        self.id = Some(id);
        self.anim = Timed::new(now, duration_ms, Curve::EasyEase);
    }

    /// The pressed item, if any.
    pub fn pressed(&self) -> (r: Option<Id>)
        ensures
            r == self.spec_id(),
    {
        self.id
    }

    /// The decay timer.
    pub fn anim(&self) -> (t: Timed)
        ensures
            t == self.spec_anim(),
    {
        self.anim
    }

    /// Whether another frame is needed: an item was pressed and its pulse
    /// has not run out.
    pub fn is_active(&self, now: Nanos) -> (b: bool)
        ensures
            b == (self.spec_id() is Some && !self.spec_anim().spec_is_done(now)),
    {
        self.id.is_some() && !self.anim.is_done(now)
    }
}

} // verus!
