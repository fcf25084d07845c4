//! What the tool windows' timers and the expand button decide, tick by tick
//! and click by click. The toolkit runs the timers, measures the window, and
//! carries out the decisions.

use vstd::prelude::*;
use crate::instance::InstanceCommand;

verus! {

/// Ticks during which the focus watch only learns whether the window came up
/// active.
pub const FOCUS_GRACE_TICKS: u8 = 4;

/// Ticks on which the taskbar hint is applied again.
pub const SKIP_TASKBAR_TRIES: u8 = 12;

/// What the instance timer does with what came in on the endpoint.
#[derive(Debug, Clone, Copy, PartialEq, Eq, Structural)]
pub enum TimerAction {
    /// Leave the process.
    Exit,
    /// Show the window and raise it.
    Show,
    /// Nothing came in.
    Idle,
}

/// A quit leaves, a raise shows the window, nothing does nothing.
pub fn command_action(command: &Option<InstanceCommand>) -> (r: TimerAction)
    ensures
        match command {
            Some(InstanceCommand::Quit) => r == TimerAction::Exit,
            Some(InstanceCommand::Raise(_)) => r == TimerAction::Show,
            None => r == TimerAction::Idle,
        },
{
    match command {
        Some(InstanceCommand::Quit) => TimerAction::Exit,
        Some(InstanceCommand::Raise(_)) => TimerAction::Show,
        None => TimerAction::Idle,
    }
}

/// Counts the ticks on which the taskbar hint is applied: the first twelve.
pub struct SkipTaskbarTries {
    pub count: u8,
}

impl SkipTaskbarTries {
    /// No tick yet.
    pub fn new() -> (r: SkipTaskbarTries)
        ensures
            r.count == 0,
    {
        SkipTaskbarTries { count: 0 }
    }

    /// Whether to apply the hint on this tick.
    pub fn tick(&mut self) -> (apply: bool)
        ensures
            apply == (old(self).count < SKIP_TASKBAR_TRIES),
            final(self).count == if apply { old(self).count + 1 } else { old(self).count as int },
    {
        if self.count < SKIP_TASKBAR_TRIES {
            self.count = self.count + 1;
            true
        } else {
            false
        }
    }
}

/// Watches whether the tool window has the focus, to leave once the user
/// has moved on: after a grace period, the first tick that finds the window
/// inactive, after it was once active, ends the process.
pub struct FocusWatch {
    pub ticks: u8,
    pub was_active: bool,
}

impl FocusWatch {
    /// Nothing seen yet.
    pub fn new() -> (r: FocusWatch)
        ensures
            r.ticks == 0 && !r.was_active,
    {
        FocusWatch { ticks: 0, was_active: false }
    }

    /// One tick, with whether the window is active (`None` where that could
    /// not be found out). Returns whether to leave.
    pub fn step(&mut self, active: Option<bool>) -> (leave: bool)
        requires
            old(self).ticks <= FOCUS_GRACE_TICKS,
        ensures
            final(self).ticks <= FOCUS_GRACE_TICKS,
            old(self).ticks < FOCUS_GRACE_TICKS ==> !leave && final(self).ticks == old(self).ticks + 1,
            old(self).ticks == FOCUS_GRACE_TICKS ==> final(self).ticks == FOCUS_GRACE_TICKS && leave == (
            old(self).was_active && active == Some(false)),
            final(self).was_active == (old(self).was_active || active == Some(true)),
    {
        if self.ticks < FOCUS_GRACE_TICKS {
            self.ticks = self.ticks + 1;
            if active == Some(true) {
                self.was_active = true;
            }
            return false;
        }
        match active {
            Some(true) => {
                self.was_active = true;
                false
            },
            Some(false) => self.was_active,
            None => false,
        }
    }
}

/// A size in physical pixels, width then height.
pub type Size = (u32, u32);

/// Whether `current` is the expanded size, up to `tolerance` less in each
/// direction.
pub open spec fn near_expanded(current: Size, expanded: Size, tolerance: u32) -> bool {
    current.0 >= (if expanded.0 >= tolerance { expanded.0 - tolerance } else { 0 })
        && current.1 >= (if expanded.1 >= tolerance { expanded.1 - tolerance } else { 0 })
}

/// The expand button: from (near) the expanded size, back to the size saved
/// when expanding, or to the normal size; from any other size, to the
/// expanded size, saving the current one. Gives the saved size afterwards,
/// the size to set, and whether the window is now expanded.
pub open spec fn toggle_outcome(saved: Option<Size>, current: Size, normal: Size, expanded: Size, tolerance: u32) -> (
    Option<Size>,
    Size,
    bool,
) {
    if near_expanded(current, expanded, tolerance) {
        (None, match saved {
            Some(s) => s,
            None => normal,
        }, false)
    } else {
        (Some(current), expanded, true)
    }
}

/// The window size remembered across the expand button's clicks.
pub struct ExpandState {
    pub saved: Option<Size>,
}

impl ExpandState {
    /// Nothing saved.
    pub fn new() -> (r: ExpandState)
        ensures
            r.saved is None,
    {
        ExpandState { saved: None }
    }

    /// One click of the expand button; returns the size to set and whether
    /// the window is now expanded.
    pub fn toggle_expand(&mut self, current: Size, normal: Size, expanded: Size, tolerance: u32) -> (r: (Size, bool))
        ensures
            (final(self).saved, r.0, r.1) == toggle_outcome(old(self).saved, current, normal, expanded, tolerance),
    {
        if current.0 >= expanded.0.saturating_sub(tolerance) && current.1 >= expanded.1.saturating_sub(tolerance) {
            let target = match self.saved {
                Some(s) => s,
                None => normal,
            };
            self.saved = None;
            (target, false)
        } else {
            self.saved = Some(current);
            (expanded, true)
        }
    }
}

/// Expanding from a size that is not (near) the expanded one, and clicking
/// again once the window has that size, brings back the size it had.
pub proof fn lemma_expand_then_restore(saved: Option<Size>, current: Size, normal: Size, expanded: Size, tolerance: u32)
    requires
        !near_expanded(current, expanded, tolerance),
    ensures
        ({
            let (s1, size1, on1) = toggle_outcome(saved, current, normal, expanded, tolerance);
            let (s2, size2, on2) = toggle_outcome(s1, size1, normal, expanded, tolerance);
            on1 && size1 == expanded && !on2 && size2 == current && s2 is None
        }),
{
}

} // verus!
