use bastion_runtime::task::contract::{
    ActionKind, Attempt, Bounds, BudgetCoverage, CandidateAction, CorrelationIds, Evidence, EvidenceKind,
    Frame, Intent, IntentOrigin, OpaqueState, TaskCase, UsageAccum, Usd, Verdict,
    VerdictProvenance, VerificationStatus,
};
use bastion_runtime::task::cycle::{
    count_attempts, gen_id, last_verdict, over_budget, survey, ActionOutcome, AdaptiveCycle, ChosenStep, Survey, DEFAULT_STEP_CEILING,
};
use bastion_runtime::task::drive::{
    Chooser, CycleError, CycleHistory, CycleHost, TaskExecutor, TaskObserver, Verifier,
};
use bastion_runtime::task::event::TaskLifecycleEvent;
use bastion_runtime::task::memory::MemoryTaskStore;
use bastion_runtime::task::verify::{LayerStep, LayeredVerifier};
use bastion_runtime::task::{
    ActionId, ApprovalRef, ArtifactRef, AttemptId, BudgetKind, EvidenceId, ExecutionMode,
    StopReason, TaskCaseId, TaskStatus,
};
use bastion_runtime::types::BastionError;

/// Acts `acts` times, then reports `Complete`.
struct StepChooser {
    acts: u32,
    calls: u32,
}

impl Chooser for StepChooser {
    fn next_step(
        &mut self,
        _case: &TaskCase,
        _history: &CycleHistory<'_>,
    ) -> Result<ChosenStep, BastionError> {
        let n = self.calls;
        self.calls += 1;
        if n < self.acts {
            Ok(ChosenStep::Act(act(&format!("act-{n}"))))
        } else {
            Ok(ChosenStep::Complete)
        }
    }
}

/// Never completes — used to exercise the step ceiling.
struct AlwaysAct;

impl Chooser for AlwaysAct {
    fn next_step(
        &mut self,
        _case: &TaskCase,
        _history: &CycleHistory<'_>,
    ) -> Result<ChosenStep, BastionError> {
        Ok(ChosenStep::Act(act("a")))
    }
}

struct Escalator;

impl Chooser for Escalator {
    fn next_step(
        &mut self,
        _case: &TaskCase,
        _history: &CycleHistory<'_>,
    ) -> Result<ChosenStep, BastionError> {
        Ok(ChosenStep::Escalate("nope".to_string()))
    }
}

/// Produces one piece of evidence, and asks for an approval where it is told to.
struct OkExecutor {
    approval: Option<&'static str>,
    cancelled: u32,
}

fn ok_executor() -> OkExecutor {
    OkExecutor {
        approval: None,
        cancelled: 0,
    }
}

impl TaskExecutor for OkExecutor {
    fn execute(
        &mut self,
        _action: &CandidateAction,
        _case: &TaskCase,
    ) -> Result<ActionOutcome, String> {
        Ok(ActionOutcome {
            evidence: vec![Evidence {
                id: EvidenceId(String::new()),
                // stamped by the cycle:
                attempt: AttemptId(String::new()),
                action: None,
                kind: EvidenceKind::Observation,
                source_ref: ArtifactRef("art".to_string()),
                trusted: true,
                max_tier: None,
                captured_at: 0,
            }],
            usage: UsageAccum::default(),
            pending_approval: self.approval.map(|a| ApprovalRef(a.to_string())),
        })
    }

    fn cancel(&mut self, _case: &TaskCase) {
        self.cancelled += 1;
    }
}

struct FailingExecutor;

impl TaskExecutor for FailingExecutor {
    fn execute(
        &mut self,
        _action: &CandidateAction,
        _case: &TaskCase,
    ) -> Result<ActionOutcome, String> {
        Err("disk full".to_string())
    }

    fn cancel(&mut self, _case: &TaskCase) {}
}

struct FixedVerifier(VerificationStatus);

impl Verifier for FixedVerifier {
    fn verify(
        &mut self,
        _case: &TaskCase,
        attempt: &AttemptId,
        _evidence: &Vec<Evidence>,
    ) -> Result<Verdict, BastionError> {
        Ok(verdict(attempt, self.0, VerdictProvenance::Deterministic))
    }
}

/// A host that counts its time.
struct TestHost {
    clock: i64,
    numbers: u64,
    cancel: bool,
}

fn host() -> TestHost {
    TestHost {
        clock: 0,
        numbers: 0,
        cancel: false,
    }
}

/// An observer that remembers the names of the events.
struct Watcher {
    events: Vec<&'static str>,
}

fn watcher() -> Watcher {
    Watcher { events: vec![] }
}

impl TaskObserver for Watcher {
    fn record(&mut self, event: &TaskLifecycleEvent) {
        self.events.push(event.event_name());
    }
}

impl CycleHost for TestHost {
    fn now_nanos(&mut self) -> i64 {
        self.clock += 1;
        self.clock
    }

    fn elapsed_ms(&mut self) -> u64 {
        0
    }

    fn cancel_requested(&mut self) -> bool {
        self.cancel
    }

    fn next_number(&mut self) -> u64 {
        self.numbers += 1;
        self.numbers
    }

    fn total_cost(&mut self, so_far: Option<Usd>, step: Option<Usd>) -> Option<Usd> {
        match (so_far, step) {
            (Some(a), Some(b)) => Some(Usd {
                bits: (f64::from_bits(a.bits) + f64::from_bits(b.bits)).to_bits(),
            }),
            (a, b) => a.or(b),
        }
    }
}

fn act(id: &str) -> CandidateAction {
    CandidateAction {
        id: ActionId(id.to_string()),
        kind: ActionKind::Respond,
        rationale: String::new(),
        belief_refs: vec![],
    }
}

fn verdict(
    attempt: &AttemptId,
    status: VerificationStatus,
    provenance: VerdictProvenance,
) -> Verdict {
    Verdict {
        attempt: attempt.clone(),
        status,
        provenance,
        evidence: vec![],
        detail: None,
    }
}

fn seed_case(bounds: Bounds) -> TaskCase {
    TaskCase {
        id: TaskCaseId("t1".to_string()),
        owner: "alice".to_string(),
        mode: ExecutionMode::Pursue,
        intent: Intent {
            owner: "alice".to_string(),
            mode: ExecutionMode::Pursue,
            summary: "do".to_string(),
            origin: IntentOrigin::Message,
        },
        frame: Frame {
            objective: "obj".to_string(),
            acceptance: vec![],
            context_refs: vec![],
        },
        bounds,
        status: TaskStatus::Pending,
        stop_reason: None,
        attempts: vec![],
        pending_approvals: vec![],
        next_decision: None,
        usage: UsageAccum::default(),
        parent: None,
        correlation: CorrelationIds::default(),
        business_state: OpaqueState::default(),
        created_at: 0,
        updated_at: 0,
        revision: 1,
    }
}

fn seed(bounds: Bounds) -> (MemoryTaskStore, AdaptiveCycle) {
    let mut store = MemoryTaskStore::new();
    store.create_case(seed_case(bounds), "key".to_string(), 0);
    let cycle = AdaptiveCycle {
        owner: "alice".to_string(),
        task: TaskCaseId("t1".to_string()),
    };
    (store, cycle)
}

#[test]
fn completes_after_a_succeeding_verdict() {
    let (mut store, cycle) = seed(Bounds::default());
    let status = cycle
        .run(
            &mut store,
            &mut StepChooser { acts: 1, calls: 0 },
            &mut ok_executor(),
            &mut FixedVerifier(VerificationStatus::Succeeded),
            &mut host(),
            &mut watcher(),
        )
        .expect("run");
    assert_eq!(status, TaskStatus::Completed);

    let case = store.load_case("alice", &cycle.task).unwrap();
    assert_eq!(case.status, TaskStatus::Completed);
    assert_eq!(case.attempts.len(), 1);
    assert!(matches!(case.stop_reason, Some(StopReason::Completed)));
}

#[test]
fn stops_on_step_ceiling() {
    let bounds = Bounds {
        max_steps: Some(2),
        ..Bounds::default()
    };
    let (mut store, cycle) = seed(bounds);
    let status = cycle
        .run(
            &mut store,
            &mut AlwaysAct,
            &mut ok_executor(),
            &mut FixedVerifier(VerificationStatus::Unverified),
            &mut host(),
            &mut watcher(),
        )
        .expect("run");
    assert_eq!(status, TaskStatus::Failed);

    let case = store.load_case("alice", &cycle.task).unwrap();
    assert!(matches!(
        case.stop_reason,
        Some(StopReason::BudgetExceeded(BudgetKind::Steps))
    ));
    assert_eq!(case.attempts.len(), 2);
}

#[test]
fn escalates_when_chooser_escalates() {
    let (mut store, cycle) = seed(Bounds::default());
    let status = cycle
        .run(
            &mut store,
            &mut Escalator,
            &mut ok_executor(),
            &mut FixedVerifier(VerificationStatus::Unverified),
            &mut host(),
            &mut watcher(),
        )
        .expect("run");
    assert_eq!(status, TaskStatus::Escalated);

    let case = store.load_case("alice", &cycle.task).unwrap();
    assert!(matches!(case.stop_reason, Some(StopReason::Escalated(_))));
}

#[test]
fn a_claim_of_success_needs_a_verdict() {
    let (mut store, cycle) = seed(Bounds::default());
    let status = cycle
        .run(
            &mut store,
            &mut StepChooser { acts: 1, calls: 0 },
            &mut ok_executor(),
            &mut FixedVerifier(VerificationStatus::Partial),
            &mut host(),
            &mut watcher(),
        )
        .expect("run");
    assert_eq!(status, TaskStatus::Escalated);
    let case = store.load_case("alice", &cycle.task).unwrap();
    assert_eq!(
        case.stop_reason,
        Some(StopReason::Escalated(
            "completion claimed without a succeeding verdict".to_string()
        ))
    );
}

#[test]
fn a_failing_executor_fails_the_task() {
    let (mut store, cycle) = seed(Bounds::default());
    let status = cycle
        .run(
            &mut store,
            &mut AlwaysAct,
            &mut FailingExecutor,
            &mut FixedVerifier(VerificationStatus::Succeeded),
            &mut host(),
            &mut watcher(),
        )
        .expect("run");
    assert_eq!(status, TaskStatus::Failed);
    let case = store.load_case("alice", &cycle.task).unwrap();
    assert_eq!(
        case.stop_reason,
        Some(StopReason::Impossible("executor error: disk full".to_string()))
    );
    assert!(case.attempts.is_empty());
}

#[test]
fn a_cancelled_run_cancels_the_executor_and_the_task() {
    let (mut store, cycle) = seed(Bounds::default());
    let mut executor = ok_executor();
    let mut cancelling = host();
    cancelling.cancel = true;
    let mut told = watcher();
    let status = cycle
        .run(
            &mut store,
            &mut AlwaysAct,
            &mut executor,
            &mut FixedVerifier(VerificationStatus::Succeeded),
            &mut cancelling,
            &mut told,
        )
        .expect("run");
    assert_eq!(status, TaskStatus::Cancelled);
    assert_eq!(executor.cancelled, 1);
    assert_eq!(told.events, vec!["task.terminal"]);
}

#[test]
fn a_task_that_needs_approval_is_parked_and_left_alone() {
    let (mut store, cycle) = seed(Bounds::default());
    let mut executor = ok_executor();
    executor.approval = Some("row-9");
    let mut clock = host();
    let mut told = watcher();
    for _ in 0..2 {
        let status = cycle
            .run(
                &mut store,
                &mut AlwaysAct,
                &mut executor,
                &mut FixedVerifier(VerificationStatus::Succeeded),
                &mut clock,
                &mut told,
            )
            .expect("run");
        assert_eq!(status, TaskStatus::AwaitingApproval);
    }
    let case = store.load_case("alice", &cycle.task).unwrap();
    assert_eq!(case.status, TaskStatus::AwaitingApproval);
    assert_eq!(case.attempts.len(), 1);
    assert!(case.attempts[0].as_str().starts_with("attempt-"));
    assert_eq!(
        case.pending_approvals,
        vec![ApprovalRef("row-9".to_string())]
    );
    assert_eq!(case.revision, 4);
    let attempts = store.list_attempts_for_case("alice", &cycle.task);
    assert_eq!(attempts.len(), 1);
    assert!(attempts[0].verdict.is_none() && attempts[0].ended_at.is_none());
    assert_eq!(
        told.events,
        vec![
            "task.status_changed",
            "task.attempt_started",
            "task.action_chosen",
            "task.action_observed",
            "task.approval_pending",
            "task.status_changed",
        ]
    );
}

fn attempt(id: &str, judged: Option<VerificationStatus>) -> Attempt {
    let id = AttemptId(id.to_string());
    Attempt {
        verdict: judged.map(|status| verdict(&id, status, VerdictProvenance::Deterministic)),
        id,
        task: TaskCaseId("t1".to_string()),
        started_at: 0,
        ended_at: None,
        actions: vec![],
        belief_refs: vec![],
        usage: UsageAccum::default(),
    }
}

#[test]
fn only_the_latest_attempt_has_the_word() {
    let proven = attempt("a1", Some(VerificationStatus::Succeeded));
    let parked = attempt("a2", None);
    let failed = attempt("a3", Some(VerificationStatus::Failed));
    let status = |attempts: Vec<&Attempt>| last_verdict(&attempts).map(|v| v.status);
    assert_eq!(status(vec![]), None);
    assert_eq!(status(vec![&proven]), Some(VerificationStatus::Succeeded));
    assert_eq!(status(vec![&proven, &parked]), None);
    assert_eq!(
        status(vec![&proven, &parked, &failed]),
        Some(VerificationStatus::Failed)
    );
}

/// Completes at once.
struct Claimer;

impl Chooser for Claimer {
    fn next_step(
        &mut self,
        _case: &TaskCase,
        history: &CycleHistory<'_>,
    ) -> Result<ChosenStep, BastionError> {
        assert!(history.last_verdict.is_none());
        Ok(ChosenStep::Complete)
    }
}

/// Nobody may ask anything here.
struct Untouched;

impl Chooser for Untouched {
    fn next_step(
        &mut self,
        _case: &TaskCase,
        _history: &CycleHistory<'_>,
    ) -> Result<ChosenStep, BastionError> {
        panic!("the chooser was asked")
    }
}

impl TaskExecutor for Untouched {
    fn execute(
        &mut self,
        _action: &CandidateAction,
        _case: &TaskCase,
    ) -> Result<ActionOutcome, String> {
        panic!("the executor was asked")
    }

    fn cancel(&mut self, _case: &TaskCase) {
        panic!("the executor was cancelled")
    }
}

impl Verifier for Untouched {
    fn verify(
        &mut self,
        _case: &TaskCase,
        _attempt: &AttemptId,
        _evidence: &Vec<Evidence>,
    ) -> Result<Verdict, BastionError> {
        panic!("the verifier was asked")
    }
}

impl TaskObserver for Untouched {
    fn record(&mut self, _event: &TaskLifecycleEvent) {
        panic!("the observer was told")
    }
}

#[test]
fn an_unproven_claim_escalates_without_an_attempt() {
    let (mut store, cycle) = seed(Bounds::default());
    let mut told = watcher();
    let status = cycle
        .run(
            &mut store,
            &mut Claimer,
            &mut Untouched,
            &mut Untouched,
            &mut host(),
            &mut told,
        )
        .expect("run");
    assert_eq!(status, TaskStatus::Escalated);
    let case = store.load_case("alice", &cycle.task).unwrap();
    assert!(matches!(case.stop_reason, Some(StopReason::Escalated(_))));
    assert!(case.attempts.is_empty());
    assert_eq!(told.events, vec!["task.status_changed", "task.terminal"]);
}

#[test]
fn a_resting_task_is_left_as_it_is() {
    for status in [
        TaskStatus::Paused,
        TaskStatus::AwaitingApproval,
        TaskStatus::Completed,
        TaskStatus::Escalated,
        TaskStatus::Cancelled,
        TaskStatus::Failed,
    ] {
        let mut store = MemoryTaskStore::new();
        let mut case = seed_case(Bounds {
            max_steps: Some(0),
            ..Bounds::default()
        });
        case.status = status;
        store.create_case(case, "key".to_string(), 0);
        let cycle = AdaptiveCycle {
            owner: "alice".to_string(),
            task: TaskCaseId("t1".to_string()),
        };
        let mut cancelling = host();
        cancelling.cancel = true;
        let reached = cycle
            .run(
                &mut store,
                &mut Untouched,
                &mut Untouched,
                &mut Untouched,
                &mut cancelling,
                &mut Untouched,
            )
            .expect("run");
        assert_eq!(reached, status);
        let case = store.load_case("alice", &cycle.task).unwrap();
        assert_eq!((case.status, case.revision), (status, 1));
    }
}

#[test]
fn a_spent_budget_fails_the_task_before_anybody_is_asked() {
    let bounds = Bounds {
        max_tokens: Some(10),
        ..Bounds::default()
    };
    let mut store = MemoryTaskStore::new();
    let mut case = seed_case(bounds);
    case.usage.input_tokens = 10;
    store.create_case(case, "key".to_string(), 0);
    let cycle = AdaptiveCycle {
        owner: "alice".to_string(),
        task: TaskCaseId("t1".to_string()),
    };
    let mut told = watcher();
    let status = cycle
        .run(
            &mut store,
            &mut Untouched,
            &mut Untouched,
            &mut Untouched,
            &mut host(),
            &mut told,
        )
        .expect("run");
    assert_eq!(status, TaskStatus::Failed);
    let case = store.load_case("alice", &cycle.task).unwrap();
    assert_eq!(
        case.stop_reason,
        Some(StopReason::BudgetExceeded(BudgetKind::Tokens))
    );
    assert_eq!(told.events, vec!["task.terminal"]);
}

/// Cannot judge.
struct BrokenVerifier;

impl Verifier for BrokenVerifier {
    fn verify(
        &mut self,
        _case: &TaskCase,
        _attempt: &AttemptId,
        _evidence: &Vec<Evidence>,
    ) -> Result<Verdict, BastionError> {
        Err(BastionError::Failed("no judge".to_string()))
    }
}

#[test]
fn a_failing_verifier_fails_the_run_and_stores_no_attempt() {
    let (mut store, cycle) = seed(Bounds::default());
    let error = cycle
        .run(
            &mut store,
            &mut AlwaysAct,
            &mut ok_executor(),
            &mut BrokenVerifier,
            &mut host(),
            &mut watcher(),
        )
        .expect_err("verifier");
    assert!(matches!(error, CycleError::Host(_)));
    let case = store.load_case("alice", &cycle.task).unwrap();
    assert_eq!(case.status, TaskStatus::Running);
    assert!(case.attempts.is_empty());
    assert!(store
        .list_attempts_for_case("alice", &cycle.task)
        .is_empty());
}

#[test]
fn a_run_of_a_missing_task_is_an_error() {
    let (mut store, mut cycle) = seed(Bounds::default());
    cycle.owner = "mallory".to_string();
    let error = cycle
        .run(
            &mut store,
            &mut AlwaysAct,
            &mut ok_executor(),
            &mut FixedVerifier(VerificationStatus::Succeeded),
            &mut host(),
            &mut watcher(),
        )
        .expect_err("not the owner");
    assert!(matches!(error, CycleError::Missing(_)));
    assert_eq!(
        error.message(),
        "adaptive cycle: case t1 not found for owner"
    );
}

#[test]
fn evidence_is_stamped_with_its_attempt_and_action() {
    let cycle = AdaptiveCycle {
        owner: "alice".to_string(),
        task: TaskCaseId("t1".to_string()),
    };
    let mut executor = ok_executor();
    let case = seed_case(Bounds::default());
    let outcome = executor.execute(&act("x"), &case).expect("outcome");
    let attempt = AttemptId("a1".to_string());
    let observed = cycle.observe(case, &attempt, act("x"), outcome, None, 7);
    match observed {
        bastion_runtime::task::cycle::Observed::Verify { pending, .. } => {
            assert_eq!(pending.evidence[0].attempt, attempt);
            assert_eq!(
                pending.evidence[0].action,
                Some(ActionId("x".to_string()))
            );
            assert_eq!(pending.case.usage.steps, 1);
            assert_eq!(pending.case.attempts, vec![attempt]);
        }
        other => panic!("expected Verify, got {other:?}"),
    }
}

#[test]
fn a_limit_stops_a_task_in_a_fixed_order() {
    let mut case = seed_case(Bounds {
        max_steps: Some(3),
        max_wall_clock_ms: Some(100),
        max_tokens: Some(10),
        max_cost_usd: Some(Usd {
            bits: 1.5f64.to_bits(),
        }),
        max_parallelism: None,
    });
    assert_eq!(over_budget(&case, 2, 99), None);
    case.usage.cost_usd = Some(Usd {
        bits: 1.5f64.to_bits(),
    });
    assert_eq!(over_budget(&case, 2, 99), Some(BudgetKind::Money));
    case.usage.input_tokens = 4;
    case.usage.output_tokens = 6;
    assert_eq!(over_budget(&case, 2, 99), Some(BudgetKind::Tokens));
    assert_eq!(over_budget(&case, 3, 99), Some(BudgetKind::Steps));
    assert_eq!(over_budget(&case, 3, 100), Some(BudgetKind::WallClock));
    assert_eq!(
        TaskCase::budget_stop(BudgetKind::Money),
        StopReason::BudgetExceeded(BudgetKind::Money)
    );
    let unbounded = seed_case(Bounds::default());
    assert_eq!(over_budget(&unbounded, 99, u64::MAX), None);
    assert_eq!(
        over_budget(&unbounded, DEFAULT_STEP_CEILING, 0),
        Some(BudgetKind::Steps)
    );
    assert_eq!(DEFAULT_STEP_CEILING, 100);
}

#[test]
fn a_name_is_made_of_the_time_and_a_number() {
    assert_eq!(gen_id("attempt", 1_700, 3), "attempt-1700-3");
    assert_eq!(gen_id("attempt", -5, 0), "attempt--5-0");
}

#[test]
fn a_survey_says_whether_to_go_on() {
    let mut case = seed_case(Bounds::default());
    assert_eq!(survey(None, false, 0), Survey::Missing);
    assert_eq!(
        survey(Some(&case), false, 0),
        Survey::Proceed { start: true }
    );
    assert_eq!(survey(Some(&case), true, 0), Survey::Cancel);
    case.status = TaskStatus::Running;
    assert_eq!(
        survey(Some(&case), false, 0),
        Survey::Proceed { start: false }
    );
    case.status = TaskStatus::Paused;
    assert_eq!(
        survey(Some(&case), true, 0),
        Survey::Stop(TaskStatus::Paused)
    );
}

#[test]
fn amounts_compare_as_numbers() {
    let usd = |x: f64| Usd { bits: x.to_bits() };
    let values = [-2.5, -0.0, 0.0, 0.5, 1.5, f64::INFINITY, f64::NEG_INFINITY, f64::NAN];
    for a in values {
        for b in values {
            assert_eq!(usd(a).at_least(usd(b)), a >= b, "{a} >= {b}");
        }
    }
}

#[test]
fn usage_is_added_and_never_wraps() {
    let mut total = UsageAccum::default();
    total.add_tokens(u64::MAX, 1);
    total.add_tokens(1, 1);
    assert_eq!((total.input_tokens, total.output_tokens), (u64::MAX, 2));
    let mut step = UsageAccum::default();
    step.llm_calls = 2;
    step.cost_coverage = BudgetCoverage::Reported;
    total.merge_from(&step, None);
    assert_eq!(total.llm_calls, 2);
    assert_eq!(total.input_tokens, u64::MAX);
}

/// Asks layer after layer.
fn layered(layers: Vec<(VerificationStatus, VerdictProvenance)>) -> Verdict {
    let attempt = AttemptId("a".to_string());
    let mut verifier = LayeredVerifier::new(&attempt);
    for (status, provenance) in layers {
        match verifier.hear(verdict(&attempt, status, provenance)) {
            LayerStep::Decided(verdict) => return verdict,
            LayerStep::Abstained => {}
        }
    }
    verifier.conclude()
}

#[test]
fn first_deciding_layer_short_circuits() {
    let verdict = layered(vec![
        // deterministic layer abstains...
        (
            VerificationStatus::Unverified,
            VerdictProvenance::Deterministic,
        ),
        // ...LLM judge decides.
        (
            VerificationStatus::Succeeded,
            VerdictProvenance::LlmJudge {
                model: "m".to_string(),
            },
        ),
        // never reached
        (VerificationStatus::Failed, VerdictProvenance::Deterministic),
    ]);
    assert_eq!(verdict.status, VerificationStatus::Succeeded);
    assert!(matches!(
        verdict.provenance,
        VerdictProvenance::LlmJudge { .. }
    ));
}

#[test]
fn all_abstaining_stays_unverified() {
    let verdict = layered(vec![(
        VerificationStatus::Unverified,
        VerdictProvenance::Deterministic,
    )]);
    assert_eq!(verdict.status, VerificationStatus::Unverified);
}

#[test]
fn deterministic_layer_wins_before_llm() {
    let verdict = layered(vec![
        (VerificationStatus::Failed, VerdictProvenance::Deterministic),
        (
            VerificationStatus::Succeeded,
            VerdictProvenance::LlmJudge {
                model: "m".to_string(),
            },
        ),
    ]);
    assert_eq!(verdict.status, VerificationStatus::Failed);
    assert!(matches!(
        verdict.provenance,
        VerdictProvenance::Deterministic
    ));
}

#[test]
fn no_layers_leave_an_attempt_unverified() {
    let verdict = layered(vec![]);
    assert_eq!(verdict.status, VerificationStatus::Unverified);
    assert_eq!(verdict.attempt, AttemptId("a".to_string()));
}

/// Counts how often it is asked, and never succeeds.
struct Doubtful {
    asked: u32,
}

impl Verifier for Doubtful {
    fn verify(
        &mut self,
        _case: &TaskCase,
        attempt: &AttemptId,
        _evidence: &Vec<Evidence>,
    ) -> Result<Verdict, BastionError> {
        self.asked += 1;
        Ok(verdict(attempt, VerificationStatus::Failed, VerdictProvenance::Deterministic))
    }
}

#[test]
fn each_attempt_is_judged_once_and_each_event_told_once() {
    let (mut store, cycle) = seed(Bounds::default());
    let mut verifier = Doubtful { asked: 0 };
    let mut observer = watcher();
    let status = cycle
        .run(
            &mut store,
            &mut StepChooser { acts: 2, calls: 0 },
            &mut ok_executor(),
            &mut verifier,
            &mut host(),
            &mut observer,
        )
        .expect("run");
    assert_eq!(status, TaskStatus::Escalated);
    assert_eq!(verifier.asked, 2);
    let told = |name: &str| observer.events.iter().filter(|event| **event == name).count();
    let terminal = TaskLifecycleEvent::Terminal {
        owner: "alice".to_string(),
        task: cycle.task.clone(),
        status,
        stop_reason: StopReason::Completed,
    };
    assert_eq!(told(terminal.event_name()), 1);
    assert_eq!(observer.events.last(), Some(&terminal.event_name()));
    assert_eq!(observer.events.len(), 1 + 2 * 5 + 1);
}

#[test]
fn the_attempts_of_a_task_are_counted() {
    let mut case = seed_case(Bounds::default());
    assert_eq!(count_attempts(&case), 0);
    case.attempts.push(AttemptId("a1".to_string()));
    case.attempts.push(AttemptId("a2".to_string()));
    assert_eq!(count_attempts(&case), 2);
}
