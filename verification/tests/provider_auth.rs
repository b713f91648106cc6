use bastion_runtime::provider_auth::{
    after_mark, begin_refresh, lost_race_reason, revocation, state_for_failure, BackoffPolicy,
    Clock, CredentialLifecycleRecord, ExponentialBackoff, Flight, Flights, MarkOutcome,
    MemoryCredentialStore, ProviderAuthError, ProviderAuthRef, ProviderAuthState,
    ProviderCredentialLifecycle, ProviderCredentialRefresher, RefreshStart, StoreFault, Transition,
};
use std::cell::Cell;
use std::rc::Rc;

/// Counts upstream calls, so "exactly one" is assertable, and can be told to fail with a
/// specific typed error.
#[derive(Clone)]
struct FakeRefresher {
    calls: Rc<Cell<u32>>,
    revokes: Rc<Cell<u32>>,
    outcome: Rc<Cell<Result<(), ProviderAuthError>>>,
}

impl FakeRefresher {
    fn with(outcome: Result<(), ProviderAuthError>) -> Self {
        Self {
            calls: Rc::new(Cell::new(0)),
            revokes: Rc::new(Cell::new(0)),
            outcome: Rc::new(Cell::new(outcome)),
        }
    }

    fn ok() -> Self {
        Self::with(Ok(()))
    }

    fn failing(err: ProviderAuthError) -> Self {
        Self::with(Err(err))
    }
}

impl ProviderCredentialRefresher for FakeRefresher {
    type Credential = &'static str;

    fn refresh(&mut self, _reference: &ProviderAuthRef) -> Result<&'static str, ProviderAuthError> {
        self.calls.set(self.calls.get() + 1);
        self.outcome.get().map(|()| "fresh-material")
    }

    fn revoke(&mut self, _reference: &ProviderAuthRef) -> Result<(), ProviderAuthError> {
        self.revokes.set(self.revokes.get() + 1);
        Ok(())
    }
}

/// Test clock: reads are free, advancing is explicit.
#[derive(Clone)]
struct FakeClock(Rc<Cell<i64>>);

impl FakeClock {
    fn at(nanos: i64) -> Self {
        Self(Rc::new(Cell::new(nanos)))
    }

    fn advance(&self, nanos: i64) {
        self.0.set(self.0.get() + nanos);
    }
}

impl Clock for FakeClock {
    fn now_nanos(&self) -> i64 {
        self.0.get()
    }
}

fn reference(owner: &str, profile: &str) -> ProviderAuthRef {
    ProviderAuthRef::new(owner, "openai", profile)
}

fn lifecycle(
    refresher: &FakeRefresher,
    clock: &FakeClock,
) -> ProviderCredentialLifecycle<FakeRefresher, FakeClock, ExponentialBackoff> {
    ProviderCredentialLifecycle::new(
        MemoryCredentialStore::new(),
        refresher.clone(),
        clock.clone(),
        ExponentialBackoff::new_default(),
    )
}

#[test]
fn concurrent_refreshes_share_a_single_upstream_call() {
    let refresher = FakeRefresher::ok();
    let clock = FakeClock::at(1_000);
    let mut life = lifecycle(&refresher, &clock);
    let reference = reference("alice", "default");

    // Every caller arrives before the leader has its answer.
    let mut flights = Flights::new();
    let mut leaders = 0;
    let mut followers = 0;
    for _ in 0..8 {
        if flights.join_or_lead(&reference) {
            leaders += 1;
        } else {
            followers += 1;
        }
    }
    assert_eq!((leaders, followers), (1, 7));

    let outcome = life.refresh(&reference);
    flights.land(&reference);

    let mut ok = 0;
    for _ in 0..leaders + followers {
        match &outcome {
            Ok(credential) => {
                assert_eq!(*credential, "fresh-material");
                ok += 1;
            }
            Err(e) => panic!("every joined caller must get the leader's success, got {e:?}"),
        }
    }
    assert_eq!(ok, 8);
    assert_eq!(
        refresher.calls.get(),
        1,
        "a single-use refresh token must not be exchanged twice concurrently"
    );
    assert!(flights.join_or_lead(&reference));
}

#[test]
fn different_references_do_not_share_a_flight() {
    let refresher = FakeRefresher::ok();
    let clock = FakeClock::at(1_000);
    let mut life = lifecycle(&refresher, &clock);
    let mut flights = Flights::new();
    assert!(flights.join_or_lead(&reference("alice", "default")));
    assert!(flights.join_or_lead(&reference("mallory", "default")));

    let a = life.refresh(&reference("alice", "default"));
    let b = life.refresh(&reference("mallory", "default"));
    assert!(a.is_ok() && b.is_ok());
    assert_eq!(refresher.calls.get(), 2);
}

#[test]
fn a_transient_failure_enters_cooldown_with_growing_backoff() {
    let refresher = FakeRefresher::failing(ProviderAuthError::Throttled);
    let clock = FakeClock::at(0);
    let mut life = lifecycle(&refresher, &clock);
    let reference = reference("alice", "default");

    let err = life.refresh(&reference).err().unwrap();
    assert_eq!(err, ProviderAuthError::Throttled);
    let record = life.store.load(&reference).unwrap();
    assert_eq!(record.attempt, 1);
    assert_eq!(
        record.state,
        ProviderAuthState::Cooldown {
            until: 1_000_000_000,
            reason: ProviderAuthError::Throttled,
        }
    );

    // While in cooldown, no upstream call is spent at all.
    let calls_before = refresher.calls.get();
    let err = life.refresh(&reference).err().unwrap();
    assert_eq!(err, ProviderAuthError::Throttled);
    assert_eq!(refresher.calls.get(), calls_before);

    // Past the deadline the attempt happens again and the wait doubles.
    clock.advance(1_000_000_001);
    let err = life.refresh(&reference).err().unwrap();
    assert_eq!(err, ProviderAuthError::Throttled);
    let record = life.store.load(&reference).unwrap();
    assert_eq!(record.attempt, 2);
    match record.state {
        ProviderAuthState::Cooldown { until, .. } => {
            assert_eq!(until - clock.now_nanos(), 2_000_000_000)
        }
        other => panic!("expected cooldown, got {other:?}"),
    }
}

#[test]
fn a_success_resets_the_attempt_counter() {
    let refresher = FakeRefresher::failing(ProviderAuthError::Throttled);
    let clock = FakeClock::at(0);
    let mut life = lifecycle(&refresher, &clock);
    let reference = reference("alice", "default");

    life.refresh(&reference).err().unwrap();
    assert_eq!(life.store.load(&reference).unwrap().attempt, 1);

    refresher.outcome.set(Ok(()));
    clock.advance(2_000_000_000);
    life.refresh(&reference).unwrap();

    let record = life.store.load(&reference).unwrap();
    assert_eq!(record.state, ProviderAuthState::Ready);
    assert_eq!(record.attempt, 0);
}

#[test]
fn a_permanent_failure_requires_reauth_and_never_retries() {
    let refresher = FakeRefresher::failing(ProviderAuthError::Invalid);
    let clock = FakeClock::at(0);
    let mut life = lifecycle(&refresher, &clock);
    let reference = reference("alice", "default");

    assert_eq!(
        life.refresh(&reference).err().unwrap(),
        ProviderAuthError::Invalid
    );
    assert_eq!(
        life.store.load(&reference).unwrap().state,
        ProviderAuthState::ReauthRequired {
            reason: ProviderAuthError::Invalid
        }
    );

    clock.advance(86_400_000_000_000);
    let calls_before = refresher.calls.get();
    assert_eq!(
        life.refresh(&reference).err().unwrap(),
        ProviderAuthError::Invalid
    );
    assert_eq!(
        refresher.calls.get(),
        calls_before,
        "no amount of waiting may turn a permanent failure into a retry"
    );
}

#[test]
fn an_upstream_revocation_lands_in_revoked() {
    let refresher = FakeRefresher::failing(ProviderAuthError::Revoked);
    let clock = FakeClock::at(0);
    let mut life = lifecycle(&refresher, &clock);
    let reference = reference("alice", "default");

    assert_eq!(
        life.refresh(&reference).err().unwrap(),
        ProviderAuthError::Revoked
    );
    assert_eq!(
        life.store.load(&reference).unwrap().state,
        ProviderAuthState::Revoked
    );
}

#[test]
fn a_failed_write_preserves_the_last_valid_record() {
    let refresher = FakeRefresher::ok();
    let clock = FakeClock::at(500);
    let mut life = lifecycle(&refresher, &clock);
    let reference = reference("alice", "default");

    life.refresh(&reference).unwrap();
    let good = life.store.load(&reference).unwrap();
    assert_eq!(good.state, ProviderAuthState::Ready);

    let mark = match begin_refresh(Ok(Some(good)), 500, 500) {
        RefreshStart::Mark(mark) => mark,
        other => panic!("expected Mark, got {other:?}"),
    };
    // The write fails, so nothing is swapped and the caller is refused.
    assert_eq!(
        after_mark(mark, Err(StoreFault)),
        MarkOutcome::Refuse(ProviderAuthError::Throttled)
    );
    assert_eq!(
        life.store.load(&reference).unwrap(),
        good,
        "a storage failure must not rewrite or corrupt the stored record"
    );
}

#[test]
fn a_transition_from_stale_state_is_not_applied() {
    let mut store = MemoryCredentialStore::new();
    let reference = reference("alice", "default");
    let revoked = CredentialLifecycleRecord {
        state: ProviderAuthState::Revoked,
        attempt: 0,
        observed_at: 1,
    };
    assert!(store.compare_and_swap(
        &reference,
        &Transition {
            expected: None,
            next: revoked
        }
    ));

    // A record built from the pre-revocation view must lose.
    let ready = CredentialLifecycleRecord::ready(2);
    assert!(!store.compare_and_swap(
        &reference,
        &Transition {
            expected: None,
            next: ready
        }
    ));
    assert_eq!(store.load(&reference).unwrap(), revoked);
}

#[test]
fn revoke_touches_only_the_requested_reference() {
    let refresher = FakeRefresher::ok();
    let clock = FakeClock::at(10);
    let mut life = lifecycle(&refresher, &clock);

    let targets = [
        reference("alice", "work"),
        reference("alice", "personal"),
        reference("mallory", "work"),
        reference("mallory", "personal"),
    ];
    for reference in &targets {
        life.refresh(reference).unwrap();
    }

    life.revoke(&targets[0]).unwrap();

    assert_eq!(
        life.store.load(&targets[0]).unwrap().state,
        ProviderAuthState::Revoked
    );
    for untouched in &targets[1..] {
        assert_eq!(
            life.store.load(untouched).unwrap().state,
            ProviderAuthState::Ready,
            "{untouched:?} was not the revoked reference"
        );
    }
    assert_eq!(
        refresher.revokes.get(),
        1,
        "exactly one upstream revocation, for the requested reference"
    );
}

struct FailingRevoke;

impl ProviderCredentialRefresher for FailingRevoke {
    type Credential = ();

    fn refresh(&mut self, _reference: &ProviderAuthRef) -> Result<(), ProviderAuthError> {
        Err(ProviderAuthError::Missing)
    }

    fn revoke(&mut self, _reference: &ProviderAuthRef) -> Result<(), ProviderAuthError> {
        Err(ProviderAuthError::UnsupportedProtocol)
    }
}

#[test]
fn revoke_marks_local_state_even_when_upstream_fails() {
    let mut store = MemoryCredentialStore::new();
    let reference = reference("alice", "default");
    assert!(store.compare_and_swap(
        &reference,
        &Transition {
            expected: None,
            next: CredentialLifecycleRecord::ready(1)
        }
    ));

    let mut life = ProviderCredentialLifecycle::new(
        store,
        FailingRevoke,
        FakeClock::at(5),
        ExponentialBackoff::new_default(),
    );

    let err = life.revoke(&reference).err().unwrap();
    assert_eq!(err, ProviderAuthError::UnsupportedProtocol);
    assert_eq!(
        life.store.load(&reference).unwrap().state,
        ProviderAuthState::Revoked,
        "an operator's revocation must not depend on vendor support"
    );
}

#[test]
fn forget_removes_the_record_without_pretending_to_revoke() {
    let refresher = FakeRefresher::ok();
    let clock = FakeClock::at(10);
    let mut life = lifecycle(&refresher, &clock);
    let reference = reference("alice", "default");

    life.refresh(&reference).unwrap();
    life.forget(&reference);

    assert!(life.store.load(&reference).is_none());
    assert_eq!(
        refresher.revokes.get(),
        0,
        "forgetting must not silently claim an upstream revocation"
    );
}

#[test]
fn backoff_doubles_and_then_caps() {
    let policy = ExponentialBackoff {
        base_nanos: 1_000,
        max_nanos: 8_000,
    };
    assert_eq!(policy.cooldown_nanos(1), 1_000);
    assert_eq!(policy.cooldown_nanos(2), 2_000);
    assert_eq!(policy.cooldown_nanos(3), 4_000);
    assert_eq!(policy.cooldown_nanos(4), 8_000);
    assert_eq!(policy.cooldown_nanos(5), 8_000, "capped");
    // Absurd attempt counts must not overflow into a negative deadline.
    assert_eq!(policy.cooldown_nanos(u32::MAX), 8_000);
}

#[test]
fn backoff_doubles_for_as_long_as_the_limit_allows() {
    let policy = ExponentialBackoff {
        base_nanos: 1,
        max_nanos: i64::MAX,
    };
    assert_eq!(policy.cooldown_nanos(0), 1);
    assert_eq!(policy.cooldown_nanos(33), 4_294_967_296);
    assert_eq!(policy.cooldown_nanos(34), 8_589_934_592);
    assert_eq!(policy.cooldown_nanos(63), 1 << 62);
    assert_eq!(policy.cooldown_nanos(64), i64::MAX);
    assert_eq!(policy.cooldown_nanos(u32::MAX), i64::MAX);
    let odd = ExponentialBackoff {
        base_nanos: -5,
        max_nanos: 10,
    };
    assert_eq!(odd.cooldown_nanos(40), 0);
    let none = ExponentialBackoff {
        base_nanos: 5,
        max_nanos: -1,
    };
    assert_eq!(none.cooldown_nanos(40), 0);
}

#[test]
fn state_reports_none_for_an_unknown_reference() {
    let life = lifecycle(&FakeRefresher::ok(), &FakeClock::at(0));
    assert!(life.state(&reference("nobody", "default")).is_none());
}

#[test]
fn only_throttling_passes() {
    for (error, transient) in [
        (ProviderAuthError::Missing, false),
        (ProviderAuthError::Invalid, false),
        (ProviderAuthError::Revoked, false),
        (ProviderAuthError::Throttled, true),
        (ProviderAuthError::UnsupportedProtocol, false),
    ] {
        assert_eq!(error.is_transient(), transient, "{error:?}");
    }
}

#[test]
fn a_failure_is_kept_by_its_kind() {
    let policy = ExponentialBackoff {
        base_nanos: 10,
        max_nanos: 100,
    };
    assert_eq!(
        state_for_failure(ProviderAuthError::Throttled, 2, 1_000, &policy),
        CredentialLifecycleRecord {
            state: ProviderAuthState::Cooldown {
                until: 1_040,
                reason: ProviderAuthError::Throttled
            },
            attempt: 3,
            observed_at: 1_000,
        }
    );
    assert_eq!(
        state_for_failure(ProviderAuthError::Missing, 0, 7, &policy).state,
        ProviderAuthState::ReauthRequired {
            reason: ProviderAuthError::Missing
        }
    );
    assert_eq!(
        state_for_failure(ProviderAuthError::Revoked, 0, 7, &policy).state,
        ProviderAuthState::Revoked
    );
}

#[test]
fn a_late_answer_does_not_undo_a_revocation() {
    let mut store = MemoryCredentialStore::new();
    let reference = reference("alice", "default");
    let mark = match begin_refresh(Ok(None), 1, 2) {
        RefreshStart::Mark(mark) => mark,
        other => panic!("expected Mark, got {other:?}"),
    };
    assert!(store.compare_and_swap(&reference, &mark));
    let flight: Flight = match after_mark(mark, Ok(true)) {
        MarkOutcome::CallVendor(flight) => flight,
        other => panic!("expected CallVendor, got {other:?}"),
    };
    // The owner revokes while the vendor is asked.
    assert!(store.compare_and_swap(&reference, &revocation(Ok(store.load(&reference)), 3)));
    let late = flight.settle(
        &Ok::<(), ProviderAuthError>(()),
        4,
        &ExponentialBackoff::new_default(),
    );
    assert!(!store.compare_and_swap(&reference, &late));
    assert_eq!(
        store.load(&reference).map(|r| r.state),
        Some(ProviderAuthState::Revoked)
    );
}

#[test]
fn a_lost_race_says_why() {
    let record = |state: ProviderAuthState| {
        Ok(Some(CredentialLifecycleRecord {
            state,
            attempt: 0,
            observed_at: 0,
        }))
    };
    assert_eq!(
        lost_race_reason(record(ProviderAuthState::Revoked)),
        ProviderAuthError::Revoked
    );
    assert_eq!(
        lost_race_reason(record(ProviderAuthState::ReauthRequired {
            reason: ProviderAuthError::Missing
        })),
        ProviderAuthError::Missing
    );
    assert_eq!(lost_race_reason(Ok(None)), ProviderAuthError::Throttled);
    assert_eq!(
        lost_race_reason(Err(StoreFault)),
        ProviderAuthError::Throttled
    );
}
