use vstd::prelude::*;

verus! {

/// The wall-clock budget of one animation cycle, in milliseconds.
pub const FRAME_MILLIS: u64 = 40;

/// The two modes of the animation clock.
#[derive(Clone, Copy, PartialEq, Eq, Structural, Debug)]
pub enum ClockMode {
    Ticking,
    Stopped,
}

/// The events the display shell reports to the clock: the user asked to
/// close the window, the surface asked to be redrawn, or the ticking
/// thread's fixed period elapsed.
#[derive(Clone, Copy, PartialEq, Eq, Structural, Debug)]
pub enum ClockEvent {
    CloseRequested,
    RedrawRequested,
    TickElapsed,
}

/// What the shell must do after the clock has handled an event: leave the
/// event loop, compose and present a fresh frame, or nothing.
#[derive(Clone, Copy, PartialEq, Eq, Structural, Debug)]
pub enum ClockAction {
    Exit,
    Render,
    Ignore,
}

/// The animation clock. The rotation state belongs to the clock alone, and
/// only the clock's own fixed-period tick advances it: an elapsed period
/// while ticking advances the counter by one and demands a render, a redraw
/// request while ticking demands a render of the unchanged state, and a
/// close request stops the clock for good. The tick counter is the
/// animation's whole logical state: the angle shown for tick `n` is the
/// fixed per-tick increment times `n`, reduced to one turn, which the
/// display shell derives from the counter. A redraw therefore recomposes
/// exactly the frame of the current tick.
pub struct AnimationClock {
    mode: ClockMode,
    ticks: u64,
}

impl AnimationClock {
    pub closed spec fn spec_mode(self) -> ClockMode {
        self.mode
    }

    pub closed spec fn spec_ticks(self) -> u64 {
        self.ticks
    }

    /// A clock at the start of the animation: ticking, zero ticks elapsed.
    pub fn new() -> (clock: AnimationClock)
        ensures
            clock.spec_mode() == ClockMode::Ticking,
            clock.spec_ticks() == 0,
    {
        AnimationClock { mode: ClockMode::Ticking, ticks: 0 }
    }

    pub fn mode(&self) -> (m: ClockMode)
        ensures
            m == self.spec_mode(),
    {
        self.mode
    }

    pub fn ticks(&self) -> (t: u64)
        ensures
            t == self.spec_ticks(),
    {
        self.ticks
    }

    /// Handle one event. A close request stops the clock and asks the shell
    /// to exit, whatever the mode. While ticking, an elapsed period advances
    /// the clock exactly one tick and asks for a render, and a redraw
    /// request asks for a render of the unchanged state: only the clock's
    /// own fixed-period tick may advance the rotation, so both render paths
    /// show the same frame for a given tick. While stopped, anything but a
    /// close request changes nothing and asks for nothing.
    pub fn handle_event(&mut self, event: ClockEvent) -> (action: ClockAction)
        requires
            old(self).spec_mode() == ClockMode::Ticking && event == ClockEvent::TickElapsed
                ==> old(self).spec_ticks() < u64::MAX,
        ensures
            event == ClockEvent::CloseRequested ==> final(self).spec_mode() == ClockMode::Stopped
                && final(self).spec_ticks() == old(self).spec_ticks() && action
                == ClockAction::Exit,
            event == ClockEvent::TickElapsed && old(self).spec_mode() == ClockMode::Ticking
                ==> final(self).spec_mode() == ClockMode::Ticking && final(self).spec_ticks()
                == old(self).spec_ticks() + 1 && action == ClockAction::Render,
            event == ClockEvent::RedrawRequested && old(self).spec_mode() == ClockMode::Ticking
                ==> *final(self) == *old(self) && action == ClockAction::Render,
            event != ClockEvent::CloseRequested && old(self).spec_mode() == ClockMode::Stopped
                ==> *final(self) == *old(self) && action == ClockAction::Ignore,
    {
        match event {
            ClockEvent::CloseRequested => {
                self.mode = ClockMode::Stopped;
                ClockAction::Exit
            },
            ClockEvent::TickElapsed => {
                match self.mode {
                    ClockMode::Ticking => {
                        self.ticks = self.ticks + 1;
                        ClockAction::Render
                    },
                    ClockMode::Stopped => ClockAction::Ignore,
                }
            },
            ClockEvent::RedrawRequested => {
                match self.mode {
                    ClockMode::Ticking => ClockAction::Render,
                    ClockMode::Stopped => ClockAction::Ignore,
                }
            },
        }
    }
}

/// How long the ticking thread must still wait after a cycle that took
/// `elapsed_millis`: the remainder of the fixed frame budget, or nothing if
/// the cycle overran it. An overrunning cycle is never caught up.
pub fn sleep_budget(elapsed_millis: u64) -> (remaining: u64)
    ensures
        remaining == (if elapsed_millis < FRAME_MILLIS {
            FRAME_MILLIS - elapsed_millis
        } else {
            0
        }),
{
    if elapsed_millis < FRAME_MILLIS {
        FRAME_MILLIS - elapsed_millis
    } else {
        0
    }
}

} // verus!
