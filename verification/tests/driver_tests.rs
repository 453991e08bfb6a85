use zonefile::driver::{step, DriverAction, DriverEvent, DriverState, MAX_ATTEMPTS};
use zonefile::labels::label_ops;
use zonefile::refs::RefKey;

fn rkey(ns: &str, name: &str) -> RefKey {
    RefKey { namespace: ns.to_string(), name: name.to_string() }
}

#[test]
fn watch_starts_a_pass() {
    let (s, a) = step(&DriverState::Idle, &DriverEvent::Watch);
    assert_eq!(s, DriverState::Fetching { attempt: 0 });
    assert_eq!(a, DriverAction::Resolve);
}

#[test]
fn unchanged_pass_returns_to_idle_without_persisting() {
    let (s, a) = step(
        &DriverState::Fetching { attempt: 0 },
        &DriverEvent::Fetched { needs_render: false },
    );
    assert_eq!(s, DriverState::Idle);
    assert_eq!(a, DriverAction::DoNothing);
}

#[test]
fn dirty_pass_moves_to_persisting() {
    let (s, a) = step(
        &DriverState::Fetching { attempt: 2 },
        &DriverEvent::Fetched { needs_render: true },
    );
    assert_eq!(s, DriverState::Persisting { attempt: 2 });
    assert_eq!(a, DriverAction::Persist);
    let (s2, a2) = step(&s, &DriverEvent::Persisted);
    assert_eq!(s2, DriverState::Idle);
    assert_eq!(a2, DriverAction::DoNothing);
}

#[test]
fn transient_failures_back_off_then_degrade() {
    let mut state = DriverState::Fetching { attempt: 0 };
    for expected in 1..=MAX_ATTEMPTS {
        let (s, a) = step(&state, &DriverEvent::FetchFailed);
        assert_eq!(s, DriverState::Fetching { attempt: expected });
        assert_eq!(a, DriverAction::Backoff { attempt: expected });
        state = s;
    }
    let (s, a) = step(&state, &DriverEvent::FetchFailed);
    assert_eq!(s, DriverState::Degraded);
    assert_eq!(a, DriverAction::SurfaceDegraded);

    let (s2, a2) = step(&s, &DriverEvent::Watch);
    assert_eq!(s2, DriverState::Fetching { attempt: 0 });
    assert_eq!(a2, DriverAction::Resolve);
}

#[test]
fn persist_conflict_retries_from_fetch() {
    let (s, a) = step(&DriverState::Persisting { attempt: 1 }, &DriverEvent::PersistFailed);
    assert_eq!(s, DriverState::Fetching { attempt: 2 });
    assert_eq!(a, DriverAction::Backoff { attempt: 2 });
}

#[test]
fn configuration_error_is_terminal_until_the_spec_changes() {
    let (s, a) = step(&DriverState::Fetching { attempt: 0 }, &DriverEvent::ResolveFailed);
    assert_eq!(s, DriverState::Idle);
    assert_eq!(a, DriverAction::SurfaceConfigError);
}

#[test]
fn newer_watch_event_supersedes_an_in_flight_pass() {
    let (s, a) = step(&DriverState::Persisting { attempt: 3 }, &DriverEvent::Watch);
    assert_eq!(s, DriverState::Fetching { attempt: 0 });
    assert_eq!(a, DriverAction::Resolve);
}

#[test]
fn stale_events_change_nothing() {
    let (s, a) = step(&DriverState::Idle, &DriverEvent::Persisted);
    assert_eq!(s, DriverState::Idle);
    assert_eq!(a, DriverAction::DoNothing);
    let (s2, a2) = step(&DriverState::Degraded, &DriverEvent::FetchFailed);
    assert_eq!(s2, DriverState::Degraded);
    assert_eq!(a2, DriverAction::DoNothing);
}

#[test]
fn label_ops_compute_symmetric_difference() {
    let desired = vec![rkey("n", "a"), rkey("n", "b")];
    let current = vec![rkey("n", "a"), rkey("n", "c")];
    let (adds, removes) = label_ops(&desired, &current);
    assert_eq!(adds.len(), 1);
    assert_eq!(adds[0].name, "b");
    assert_eq!(removes.len(), 1);
    assert_eq!(removes[0].name, "c");
}

#[test]
fn label_ops_are_empty_when_already_symmetric() {
    let desired = vec![rkey("n", "a"), rkey("m", "b")];
    let (adds, removes) = label_ops(&desired, &desired.clone());
    assert!(adds.is_empty());
    assert!(removes.is_empty());
}
