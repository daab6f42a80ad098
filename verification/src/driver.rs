//! Run modes and the refresh loop.
//!
//! The library neither sleeps nor prints.  It says what comes next: the
//! caller does what a phase asks for and then asks for the phase after it.

use crate::visual::Palette;
use vstd::prelude::*;

verus! {

/// How the dashboard runs.
#[derive(Clone, Copy, Debug, PartialEq, Eq, Structural)]
pub struct RunMode {
    /// No colour codes, and one frame only.
    pub plain: bool,
    /// The inventory of the hardware in place of frames.
    pub static_info: bool,
    /// Frames with the table of all device groups.
    pub extended: bool,
}

/// What the caller does next.
#[derive(Clone, Copy, Debug, PartialEq, Eq, Structural)]
pub enum Phase {
    /// Nothing has been done yet.
    Init,
    /// Write the inventory of the hardware.
    Inventory,
    /// Wait for the sampling interval and sample the sources.
    RefreshSample,
    /// Compose the frame from the samples.
    Compose,
    /// Write the frame, whole.
    Emit,
    /// Stop.
    Done,
}

impl RunMode {
    /// The mode that redraws in colour until it is stopped from outside.
    pub fn interactive() -> (mode: RunMode)
        ensures
            mode == (RunMode { plain: false, static_info: false, extended: false }),
    {
        RunMode { plain: false, static_info: false, extended: false }
    }

    /// Whether the run ends after one frame.
    pub open spec fn is_single_shot(self) -> bool {
        self.plain
    }

    /// Whether the run ends after one frame.
    pub fn single_shot(&self) -> (b: bool)
        ensures
            b == self.is_single_shot(),
    {
        self.plain
    }

    /// The palette of the mode: without colour if the mode is plain.
    pub fn palette(&self) -> (p: Palette)
        ensures
            self.plain ==> p.is_plain(),
            !self.plain ==> p == Palette::ansi_codes(),
    {
        if self.plain {
            Palette::plain()
        } else {
            Palette::ansi()
        }
    }
}

/// The phase that follows `phase` in a run of mode `mode`.
pub open spec fn phase_after(phase: Phase, mode: RunMode) -> Phase {
    match phase {
        Phase::Init => if mode.static_info {
            Phase::Inventory
        } else {
            Phase::RefreshSample
        },
        Phase::Inventory => Phase::Done,
        Phase::RefreshSample => Phase::Compose,
        Phase::Compose => Phase::Emit,
        Phase::Emit => if mode.is_single_shot() {
            Phase::Done
        } else {
            Phase::RefreshSample
        },
        Phase::Done => Phase::Done,
    }
}

/// The phase after `count` steps from `phase`.
pub open spec fn phase_after_steps(phase: Phase, mode: RunMode, count: nat) -> Phase
    decreases count,
{
    if count == 0 {
        phase
    } else {
        phase_after(phase_after_steps(phase, mode, (count - 1) as nat), mode)
    }
}

/// The phase that follows `phase` in a run of mode `mode`.
pub fn next_phase(phase: Phase, mode: &RunMode) -> (next: Phase)
    ensures
        next == phase_after(phase, *mode),
{
    match phase {
        Phase::Init => {
            if mode.static_info {
                Phase::Inventory
            } else {
                Phase::RefreshSample
            }
        },
        Phase::Inventory => Phase::Done,
        Phase::RefreshSample => Phase::Compose,
        Phase::Compose => Phase::Emit,
        Phase::Emit => {
            if mode.plain {
                Phase::Done
            } else {
                Phase::RefreshSample
            }
        },
        Phase::Done => Phase::Done,
    }
}

/// A single-shot run samples, composes and emits exactly once and is then
/// done for good.
pub proof fn lemma_single_shot_emits_once(mode: RunMode, count: nat)
    requires
        mode.is_single_shot(),
        !mode.static_info,
    ensures
        phase_after_steps(Phase::Init, mode, count) == if count == 0 {
            Phase::Init
        } else if count == 1 {
            Phase::RefreshSample
        } else if count == 2 {
            Phase::Compose
        } else if count == 3 {
            Phase::Emit
        } else {
            Phase::Done
        },
    decreases count,
{
    if count > 0 {
        lemma_single_shot_emits_once(mode, (count - 1) as nat);
    }
}

/// A run that shows the inventory never samples: it writes the inventory
/// and is done.
pub proof fn lemma_inventory_runs_once(mode: RunMode, count: nat)
    requires
        mode.static_info,
    ensures
        phase_after_steps(Phase::Init, mode, count) == if count == 0 {
            Phase::Init
        } else if count == 1 {
            Phase::Inventory
        } else {
            Phase::Done
        },
    decreases count,
{
    if count > 0 {
        lemma_inventory_runs_once(mode, (count - 1) as nat);
    }
}

/// A run that is neither single-shot nor an inventory never ends by itself:
/// after the first step it samples, composes and emits in turn.
pub proof fn lemma_interactive_repeats(mode: RunMode, count: nat)
    requires
        !mode.is_single_shot(),
        !mode.static_info,
        count > 0,
    ensures
        phase_after_steps(Phase::Init, mode, count) == if count % 3 == 1 {
            Phase::RefreshSample
        } else if count % 3 == 2 {
            Phase::Compose
        } else {
            Phase::Emit
        },
    decreases count,
{
    if count > 1 {
        lemma_interactive_repeats(mode, (count - 1) as nat);
    } else {
        assert(phase_after_steps(Phase::Init, mode, 0) == Phase::Init);
    }
}

} // verus!
