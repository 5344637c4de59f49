//! The control process as a state machine: from its phase and one event to
//! the next phase and the action to perform.
use vstd::prelude::*;
use crate::blacklist::PrefixKey;
use crate::gossip::{attack_block, is_attack};

verus! {

/// Demonstration offender blocked on an attack report: 1.2.3.4.
pub const DEFAULT_OFFENDER: u32 = 0x01020304;

/// Phases of the control process.
#[derive(Clone, Copy, Debug, PartialEq, Eq, Structural)]
pub enum Phase {
    Initializing,
    Attaching,
    Running,
    ShuttingDown,
}

/// What the environment reports to the control process.
#[derive(Debug)]
pub enum ControlEvent {
    /// The program image was opened.
    Loaded,
    /// The classifier and both probes were attached.
    Attached,
    /// Loading or attaching failed.
    Failed,
    /// The report timer fired.
    Tick,
    /// A gossip message arrived with this payload.
    Message(Vec<u8>),
    /// The shutdown signal arrived.
    Interrupt,
}

/// What the control process asks the environment to do.
#[derive(Clone, Copy, Debug, PartialEq, Eq, Structural)]
pub enum ControlAction {
    /// Attach the classifier and both probes.
    Attach,
    /// Join the overlay and start the report timer.
    Join,
    /// Print the histogram's non-empty buckets.
    Report,
    /// Insert this block into the blacklist.
    Block(PrefixKey),
    /// Nothing to do.
    Ignore,
    /// Stop the process with this exit code.
    Exit(i32),
}

/// The next phase and the action for event `e` in phase `p`, where an attack
/// report blocks `offender`.
pub open spec fn control_step(p: Phase, e: ControlEvent, offender: u32) -> (Phase, ControlAction) {
    match p {
        Phase::ShuttingDown => (Phase::ShuttingDown, ControlAction::Ignore),
        _ => match e {
            ControlEvent::Interrupt => (Phase::ShuttingDown, ControlAction::Exit(0)),
            ControlEvent::Failed => if p == Phase::Running {
                (Phase::Running, ControlAction::Ignore)
            } else {
                (Phase::ShuttingDown, ControlAction::Exit(1))
            },
            ControlEvent::Loaded => if p == Phase::Initializing {
                (Phase::Attaching, ControlAction::Attach)
            } else {
                (p, ControlAction::Ignore)
            },
            ControlEvent::Attached => if p == Phase::Attaching {
                (Phase::Running, ControlAction::Join)
            } else {
                (p, ControlAction::Ignore)
            },
            ControlEvent::Tick => if p == Phase::Running {
                (Phase::Running, ControlAction::Report)
            } else {
                (p, ControlAction::Ignore)
            },
            ControlEvent::Message(data) => if p == Phase::Running && is_attack(data@) {
                (Phase::Running, ControlAction::Block(PrefixKey { prefix_len: 32, addr: offender }))
            } else {
                (p, ControlAction::Ignore)
            },
        },
    }
}

/// One step of the control process.
pub fn step(phase: Phase, event: &ControlEvent, offender: u32) -> (r: (Phase, ControlAction))
    ensures
        r == control_step(phase, *event, offender),
{
    if phase == Phase::ShuttingDown {
        return (Phase::ShuttingDown, ControlAction::Ignore);
    }
    match event {
        ControlEvent::Interrupt => (Phase::ShuttingDown, ControlAction::Exit(0)),
        ControlEvent::Failed => {
            if phase == Phase::Running {
                (Phase::Running, ControlAction::Ignore)
            } else {
                (Phase::ShuttingDown, ControlAction::Exit(1))
            }
        },
        ControlEvent::Loaded => {
            if phase == Phase::Initializing {
                (Phase::Attaching, ControlAction::Attach)
            } else {
                (phase, ControlAction::Ignore)
            }
        },
        ControlEvent::Attached => {
            if phase == Phase::Attaching {
                (Phase::Running, ControlAction::Join)
            } else {
                (phase, ControlAction::Ignore)
            }
        },
        ControlEvent::Tick => {
            if phase == Phase::Running {
                (Phase::Running, ControlAction::Report)
            } else {
                (phase, ControlAction::Ignore)
            }
        },
        ControlEvent::Message(data) => {
            if phase == Phase::Running {
                match attack_block(data.as_slice(), offender) {
                    Some(key) => (Phase::Running, ControlAction::Block(key)),
                    None => (Phase::Running, ControlAction::Ignore),
                }
            } else {
                (phase, ControlAction::Ignore)
            }
        },
    }
}

/// A failure before the process runs ends it with a non-zero code, so that
/// it never runs half attached.
pub proof fn lemma_failure_before_running_exits(p: Phase, offender: u32)
    requires
        p == Phase::Initializing || p == Phase::Attaching,
    ensures
        control_step(p, ControlEvent::Failed, offender) == (Phase::ShuttingDown, ControlAction::Exit(1)),
{
}

/// Only the attached event leads into the running phase.
pub proof fn lemma_running_only_after_attach(p: Phase, e: ControlEvent, offender: u32)
    requires
        p != Phase::Running,
        control_step(p, e, offender).0 == Phase::Running,
    ensures
        p == Phase::Attaching,
        e is Attached,
{
}

} // verus!
