//! The swipe-to-dash gesture: which pointer steers, when an upward flick
//! starts a dash, and when a dash that outlived its gesture snaps the runner
//! back to the centre lane.

use vstd::prelude::*;

verus! {

/// Gesture state between frames.
#[derive(Clone, Copy, Debug, PartialEq, Eq, Structural)]
pub struct DashGesture {
    /// A finger or the mouse button is down and steering.
    pub active: bool,
    /// This gesture already started a dash.
    pub dash_triggered: bool,
    /// The gesture ended while its dash was running: snap to the centre when the dash ends.
    pub flick_dash: bool,
    /// The touch that steers, if a touch does.
    pub touch_id: Option<u64>,
}

/// No pointer down, no dash pending.
pub open spec fn idle() -> DashGesture {
    DashGesture { active: false, dash_triggered: false, flick_dash: false, touch_id: None }
}

/// The gesture after its pointer is lifted: steering stops, and a dash it
/// started is remembered as a flick.
pub open spec fn after_release(g: DashGesture) -> DashGesture {
    DashGesture {
        active: false,
        dash_triggered: false,
        flick_dash: g.flick_dash || g.dash_triggered,
        touch_id: g.touch_id,
    }
}

/// The gesture once the frame knows whether the runner is dashing: a finished
/// dash lets a held gesture dash again, else a finished flick is consumed.
pub open spec fn after_settle(g: DashGesture, dashing: bool) -> DashGesture {
    if !dashing && g.dash_triggered {
        DashGesture { dash_triggered: false, ..g }
    } else if !dashing && g.flick_dash {
        DashGesture { flick_dash: false, ..g }
    } else {
        g
    }
}

/// Whether settling snaps the runner to the centre lane.
pub open spec fn settle_snaps(g: DashGesture, dashing: bool) -> bool {
    !dashing && !g.dash_triggered && g.flick_dash
}

/// Whether an upward flick at this speed starts a dash now.
pub open spec fn starts_dash(g: DashGesture, fast_upward: bool) -> bool {
    g.active && !g.dash_triggered && fast_upward
}

impl DashGesture {
    /// No pointer down, no dash pending.
    pub fn new() -> (g: Self)
        ensures
            g == idle(),
    {
        DashGesture { active: false, dash_triggered: false, flick_dash: false, touch_id: None }
    }

    /// A finger touched down: it now steers.
    pub fn press_touch(&mut self, id: u64)
        ensures
            *final(self) == (DashGesture { active: true, touch_id: Some(id), ..*old(self) }),
    {
        self.active = true;
        self.touch_id = Some(id);
    }

    /// The mouse button went down: the mouse now steers.
    pub fn press_mouse(&mut self)
        ensures
            *final(self) == (DashGesture { active: true, ..*old(self) }),
    {
        self.active = true;
    }

    /// Whether the touch `id` is the one steering.
    pub fn tracks(&self, id: u64) -> (b: bool)
        ensures
            b == (self.touch_id == Some(id)),
    {
        match self.touch_id {
            Some(t) => t == id,
            None => false,
        }
    }

    /// The steering touch lifted: the gesture ends and no touch steers.
    pub fn release_touch(&mut self)
        ensures
            *final(self) == (DashGesture { touch_id: None, ..after_release(*old(self)) }),
    {
        self.release_mouse();
        self.touch_id = None;
    }

    /// The mouse button went up: the gesture ends.
    pub fn release_mouse(&mut self)
        ensures
            *final(self) == after_release(*old(self)),
    {
        self.active = false;
        if self.dash_triggered {
            self.flick_dash = true;
        }
        self.dash_triggered = false;
    }

    /// Given whether the runner is still dashing, clears what a finished dash
    /// leaves behind; returns whether the runner snaps to the centre lane.
    pub fn settle(&mut self, dashing: bool) -> (snap: bool)
        ensures
            *final(self) == after_settle(*old(self), dashing),
            snap == settle_snaps(*old(self), dashing),
    {
        if !dashing && self.dash_triggered {
            self.dash_triggered = false;
            false
        } else if !dashing && self.flick_dash {
            self.flick_dash = false;
            true
        } else {
            false
        }
    }

    /// Given whether the pointer moved up faster than the swipe threshold,
    /// returns whether a dash starts now.
    pub fn try_dash(&mut self, fast_upward: bool) -> (start: bool)
        ensures
            start == starts_dash(*old(self), fast_upward),
            *final(self) == (if start { DashGesture { dash_triggered: true, ..*old(self) } } else { *old(self) }),
    {
        if self.active && !self.dash_triggered && fast_upward {
            self.dash_triggered = true;
            true
        } else {
            false
        }
    }
}

/// Lifting the pointer stops steering and lets a held gesture dash again,
/// and never drops a pending snap: the flick is pending afterwards exactly
/// when it was pending before or this gesture had started a dash.
pub proof fn lemma_release_keeps_pending_flick(g: DashGesture)
    ensures
        !after_release(g).active,
        !after_release(g).dash_triggered,
        after_release(g).flick_dash == (g.flick_dash || g.dash_triggered),
        g.flick_dash ==> after_release(g).flick_dash,
        g.flick_dash ==> settle_snaps(after_release(g), false),
{
}

/// Touching again and lifting before the dash ends keeps the pending snap:
/// after a flick dash, a second press and release still snap the runner to
/// the centre lane when the dash ends.
pub proof fn lemma_second_touch_keeps_snap(g: DashGesture)
    requires
        g.dash_triggered,
    ensures
        settle_snaps(after_release(DashGesture { active: true, ..after_release(g) }), false),
{
}

/// A gesture starts at most one dash while the runner keeps dashing: after a
/// dash starts, settling while still dashing and flicking again starts none.
pub proof fn lemma_one_dash_per_gesture(g: DashGesture, fast_upward: bool)
    requires
        starts_dash(g, true),
    ensures
        !starts_dash(after_settle(DashGesture { dash_triggered: true, ..g }, true), fast_upward),
{
}

/// Lifting the pointer during a dash snaps the runner to the centre lane once
/// the dash is over, and only once.
pub proof fn lemma_flick_snaps_once(g: DashGesture)
    requires
        g.dash_triggered,
    ensures
        settle_snaps(after_release(g), false),
        !settle_snaps(after_settle(after_release(g), false), false),
{
}

/// A gesture that never dashed does not snap the runner when it ends.
pub proof fn lemma_plain_release_keeps_lane(g: DashGesture)
    requires
        !g.dash_triggered,
        !g.flick_dash,
    ensures
        !settle_snaps(after_release(g), false),
{
}

} // verus!
