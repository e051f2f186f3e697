use vstd::prelude::*;

verus! {

/// The redraw policy of an event loop. Times are milliseconds on the
/// caller's monotonic clock; the caller performs the waiting and drawing.
pub struct MainLoop {
    /// The least time between two redraws, if redraws are limited.
    pub min_delay: Option<u64>,
    /// When the last redraw happened.
    pub last_draw: u64,
}

impl MainLoop {
    /// Unlimited redraws, the last one at time zero.
    pub fn new() -> (r: MainLoop)
        ensures
            r.min_delay is None,
            r.last_draw == 0,
    {
        MainLoop { min_delay: None, last_draw: 0 }
    }

    /// Redraws at most once per `delay` milliseconds.
    pub fn min_delay(&mut self, delay: u64) -> (r: &mut MainLoop)
        ensures
            *r == (MainLoop { min_delay: Some(delay), ..*old(self) }),
            *final(self) == *final(r),
    {
        self.min_delay = Some(delay);
        self
    }

    /// Redraws after every action.
    pub fn unlimited(&mut self) -> (r: &mut MainLoop)
        ensures
            *r == (MainLoop { min_delay: None, ..*old(self) }),
            *final(self) == *final(r),
    {
        self.min_delay = None;
        self
    }

    /// Redraws at most `fps` times a second: at least `1000 / fps`
    /// milliseconds apart.
    pub fn max_fps(&mut self, fps: u64) -> (r: &mut MainLoop)
        requires
            fps > 0,
        ensures
            *r == (MainLoop { min_delay: Some((1000u64 / fps) as u64), ..*old(self) }),
            *final(self) == *final(r),
    {
        self.min_delay = Some(1000 / fps);
        self
    }

    /// Whether a redraw is due at time `now`: always when unlimited,
    /// otherwise once `min_delay` has passed since the last redraw.
    pub open spec fn redraw_due(&self, now: u64) -> bool {
        match self.min_delay {
            None => true,
            Some(d) => now >= self.last_draw && now - self.last_draw >= d,
        }
    }

    /// Decides, after an action was handled at time `now`, whether to redraw;
    /// a redraw is recorded as the last one.
    pub fn should_redraw(&mut self, now: u64) -> (r: bool)
        ensures
            r == old(self).redraw_due(now),
            r ==> *final(self) == (MainLoop { last_draw: now, ..*old(self) }),
            !r ==> *final(self) == *old(self),
    {
        let due = match self.min_delay {
            None => true,
            Some(d) => now >= self.last_draw && now - self.last_draw >= d,
        };
        if due {
            self.last_draw = now;
        }
        due
    }
}

} // verus!
