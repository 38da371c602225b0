//! The open/close timer pair of an overlay surface. The surface's own
//! openness stays the truth for input and the accessibility tree; this is
//! the renderer's permission to keep drawing while the exit runs.

use vstd::prelude::*;
use super::timed::{Nanos, Timed};

verus! {

/// One surface's entrance and exit animations.
#[derive(Debug, Clone, Copy)]
pub struct SurfaceMotion {
    /// Entrance: `Some` from the moment the surface opens until it closes.
    open_anim: Option<Timed>,
    /// Exit, render-only; dropped by [`SurfaceMotion::retire`] once done.
    closing: Option<Timed>,
}

impl SurfaceMotion {
    /// A surface is never entering and exiting at once.
    #[verifier::type_invariant]
    closed spec fn entrance_or_exit(self) -> bool {
        self.open_anim is None || self.closing is None
    }

    pub closed spec fn spec_open_anim(&self) -> Option<Timed> {
        self.open_anim
    }

    pub closed spec fn spec_closing(&self) -> Option<Timed> {
        self.closing
    }

    /// A surface that was never opened.
    pub fn new() -> (m: Self)
        ensures
            m.spec_open_anim() is None,
            m.spec_closing() is None,
    {
        SurfaceMotion { open_anim: None, closing: None }
    }

    /// Start the entrance with `anim` (which the caller built to resume from
    /// the value on screen), abandoning any exit.
    pub fn begin_open(&mut self, anim: Timed)
        ensures
            final(self).spec_open_anim() == Some(anim),
            final(self).spec_closing() is None,
    {
        self.closing = None;
        self.open_anim = Some(anim);
    }

    /// Start the exit with `anim`, dropping the entrance.
    pub fn begin_close(&mut self, anim: Timed)
        ensures
            final(self).spec_open_anim() is None,
            final(self).spec_closing() == Some(anim),
    {
        self.open_anim = None;
        self.closing = Some(anim);
    }

    /// The entrance timer, if open.
    pub fn open_anim(&self) -> (r: Option<Timed>)
        ensures
            r == self.spec_open_anim(),
    {
        self.open_anim
    }

    /// The exit timer, if closing; a closing surface has no entrance.
    pub fn closing(&self) -> (r: Option<Timed>)
        ensures
            r == self.spec_closing(),
            r is Some ==> self.spec_open_anim() is None,
    {
        proof {
            use_type_invariant(self);
        }
        self.closing
    }

    /// Whether the renderer should draw the surface at all.
    pub fn is_visible(&self) -> (b: bool)
        ensures
            b == (self.spec_open_anim() is Some || self.spec_closing() is Some),
    {
        self.open_anim.is_some() || self.closing.is_some()
    }

    /// Whether another frame is needed: an unfinished exit or entrance.
    pub fn is_active(&self, now: Nanos) -> (b: bool)
        ensures
            b == ((self.spec_closing() matches Some(c) && !c.spec_is_done(now)) || (
            self.spec_open_anim() matches Some(a) && !a.spec_is_done(now))),
    {
        let closing_active = match self.closing {
            Some(c) => !c.is_done(now),
            None => false,
        };
        let open_active = match self.open_anim {
            Some(a) => !a.is_done(now),
            None => false,
        };
        closing_active || open_active
    }

    /// Drop a finished exit so the surface stops being drawn; a finished
    /// entrance is kept, it is the surface's visibility while open. After a
    /// finished exit the surface is neither drawn nor animating; an
    /// unfinished exit keeps it drawn.
    pub fn retire(&mut self, now: Nanos)
        ensures
            old(self).spec_closing() matches Some(c) && c.spec_is_done(now) ==> final(self).spec_open_anim() is None
                && final(self).spec_closing() is None,
            old(self).spec_closing() matches Some(c) ==> (!c.spec_is_done(now) ==> final(self).spec_closing() == Some(c)),
            final(self).spec_open_anim() == old(self).spec_open_anim(),
            final(self).spec_closing() == match old(self).spec_closing() {
                Some(c) => if c.spec_is_done(now) {
                    None
                } else {
                    Some(c)
                },
                None => None,
            },
    {
        proof {
            use_type_invariant(&*self);
        }
        let done = match self.closing {
            Some(c) => c.is_done(now),
            None => false,
        };
        if done {
            self.closing = None;
        }
    }
}

} // verus!
