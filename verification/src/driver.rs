//! The reconciliation driver: a state machine over one `ZoneFile`
//! instance. The surrounding process performs the blocking work (the
//! upstream fetch, the artifact and status writes, the label patches,
//! the backoff sleeps) and feeds the result back as an event; every
//! decision is taken here.
use vstd::prelude::*;

verus! {

/// Transient failures are retried with backoff this many times before
/// the resource is marked degraded; the next watch event starts over.
pub const MAX_ATTEMPTS: u32 = 5;

/// Where the driver stands between events.
#[derive(Clone, Copy, Debug, PartialEq, Eq, Structural)]
pub enum DriverState {
    /// Nothing in flight; waiting for a watch event.
    Idle,
    /// References resolved; the upstream snapshot is being fetched.
    Fetching { attempt: u32 },
    /// A pass decided to render; artifact, status and labels are being
    /// persisted.
    Persisting { attempt: u32 },
    /// Retries were exhausted; waiting for the next watch event.
    Degraded,
}

/// What the surrounding process reports.
#[derive(Clone, Copy, Debug, PartialEq, Eq, Structural)]
pub enum DriverEvent {
    /// A watch event on the resource or on a labelled upstream zone.
    Watch,
    /// Reference resolution failed: a configuration error.
    ResolveFailed,
    /// The snapshot was fetched and the pass ran; `needs_render` says
    /// whether it produced an artifact to persist.
    Fetched { needs_render: bool },
    /// The upstream fetch failed transiently.
    FetchFailed,
    /// Artifact, status and labels were persisted.
    Persisted,
    /// Persisting failed transiently.
    PersistFailed,
}

/// What the surrounding process must do next.
#[derive(Clone, Copy, Debug, PartialEq, Eq, Structural)]
pub enum DriverAction {
    DoNothing,
    /// Resolve the references, fetch the snapshot, run the pass.
    Resolve,
    /// Write the artifact, the status and the label patches.
    Persist,
    /// Sleep with exponential backoff for this attempt, then resolve
    /// and fetch again.
    Backoff { attempt: u32 },
    /// Surface a terminal condition: the spec must be corrected.
    SurfaceConfigError,
    /// Surface a degraded (non-terminal) condition.
    SurfaceDegraded,
}

/// The transition relation: next state and required action for a state
/// and an event. Events that cannot belong to the current state are
/// stale and change nothing; a watch event supersedes any in-flight
/// pass and starts over.
pub open spec fn spec_step(state: DriverState, event: DriverEvent) -> (DriverState, DriverAction) {
    match state {
        DriverState::Idle => match event {
            DriverEvent::Watch => (DriverState::Fetching { attempt: 0 }, DriverAction::Resolve),
            _ => (state, DriverAction::DoNothing),
        },
        DriverState::Fetching { attempt } => match event {
            DriverEvent::Watch => (DriverState::Fetching { attempt: 0 }, DriverAction::Resolve),
            DriverEvent::ResolveFailed => (DriverState::Idle, DriverAction::SurfaceConfigError),
            DriverEvent::Fetched { needs_render } => if needs_render {
                (DriverState::Persisting { attempt }, DriverAction::Persist)
            } else {
                (DriverState::Idle, DriverAction::DoNothing)
            },
            DriverEvent::FetchFailed => if attempt < MAX_ATTEMPTS {
                (
                    DriverState::Fetching { attempt: (attempt + 1) as u32 },
                    DriverAction::Backoff { attempt: (attempt + 1) as u32 },
                )
            } else {
                (DriverState::Degraded, DriverAction::SurfaceDegraded)
            },
            _ => (state, DriverAction::DoNothing),
        },
        DriverState::Persisting { attempt } => match event {
            DriverEvent::Watch => (DriverState::Fetching { attempt: 0 }, DriverAction::Resolve),
            DriverEvent::Persisted => (DriverState::Idle, DriverAction::DoNothing),
            DriverEvent::PersistFailed => if attempt < MAX_ATTEMPTS {
                (
                    DriverState::Fetching { attempt: (attempt + 1) as u32 },
                    DriverAction::Backoff { attempt: (attempt + 1) as u32 },
                )
            } else {
                (DriverState::Degraded, DriverAction::SurfaceDegraded)
            },
            _ => (state, DriverAction::DoNothing),
        },
        DriverState::Degraded => match event {
            DriverEvent::Watch => (DriverState::Fetching { attempt: 0 }, DriverAction::Resolve),
            _ => (state, DriverAction::DoNothing),
        },
    }
}

/// Take one step of the driver.
pub fn step(state: &DriverState, event: &DriverEvent) -> (r: (DriverState, DriverAction))
    ensures
        r == spec_step(*state, *event),
{
    match state {
        DriverState::Idle => match event {
            DriverEvent::Watch => (DriverState::Fetching { attempt: 0 }, DriverAction::Resolve),
            _ => (*state, DriverAction::DoNothing),
        },
        DriverState::Fetching { attempt } => match event {
            DriverEvent::Watch => (DriverState::Fetching { attempt: 0 }, DriverAction::Resolve),
            DriverEvent::ResolveFailed => (DriverState::Idle, DriverAction::SurfaceConfigError),
            DriverEvent::Fetched { needs_render } => if *needs_render {
                (DriverState::Persisting { attempt: *attempt }, DriverAction::Persist)
            } else {
                (DriverState::Idle, DriverAction::DoNothing)
            },
            DriverEvent::FetchFailed => if *attempt < MAX_ATTEMPTS {
                (
                    DriverState::Fetching { attempt: *attempt + 1 },
                    DriverAction::Backoff { attempt: *attempt + 1 },
                )
            } else {
                (DriverState::Degraded, DriverAction::SurfaceDegraded)
            },
            _ => (*state, DriverAction::DoNothing),
        },
        DriverState::Persisting { attempt } => match event {
            DriverEvent::Watch => (DriverState::Fetching { attempt: 0 }, DriverAction::Resolve),
            DriverEvent::Persisted => (DriverState::Idle, DriverAction::DoNothing),
            DriverEvent::PersistFailed => if *attempt < MAX_ATTEMPTS {
                (
                    DriverState::Fetching { attempt: *attempt + 1 },
                    DriverAction::Backoff { attempt: *attempt + 1 },
                )
            } else {
                (DriverState::Degraded, DriverAction::SurfaceDegraded)
            },
            _ => (*state, DriverAction::DoNothing),
        },
        DriverState::Degraded => match event {
            DriverEvent::Watch => (DriverState::Fetching { attempt: 0 }, DriverAction::Resolve),
            _ => (*state, DriverAction::DoNothing),
        },
    }
}

/// The attempt counter never leaves `0 ..= MAX_ATTEMPTS`.
pub open spec fn state_wf(s: DriverState) -> bool {
    match s {
        DriverState::Fetching { attempt } => attempt <= MAX_ATTEMPTS,
        DriverState::Persisting { attempt } => attempt <= MAX_ATTEMPTS,
        _ => true,
    }
}

/// Retries are bounded: every step keeps the attempt counter within
/// its bound, so backoff cannot recur without limit before the driver
/// surfaces a degraded condition.
pub proof fn lemma_step_preserves_wf(s: DriverState, e: DriverEvent)
    requires
        state_wf(s),
    ensures
        state_wf(spec_step(s, e).0),
{
}

} // verus!
