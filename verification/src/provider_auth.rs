//! The life of a subscription credential: it expires, is refreshed, is throttled or revoked,
//! and several callers may want it refreshed at once.
//!
//! A refresh is led by one caller at a time ([`Flights`]). The leader reads the record, asks
//! [`begin_refresh`] whether it may go on, marks the record, talks to the vendor and settles
//! the record by what the vendor said. Every write replaces the record that it was computed
//! from and no other: where somebody else has moved the credential on, the write is refused, so
//! that an old conclusion never takes the place of a newer one.
use vstd::arithmetic::power2::{
    lemma2_to64, lemma_pow2_pos, lemma_pow2_strictly_increases, lemma_pow2_unfold, pow2,
};
use vstd::bits::lemma_u64_shl_is_mul;
use vstd::prelude::*;
use crate::table::{Key, KeyView, Row, Table};
use crate::text;

verus! {

/// Which credential: whose, for which provider, under which profile.
#[derive(Debug, PartialEq)]
pub struct ProviderAuthRef {
    pub owner_id: String,
    pub provider_id: String,
    pub profile_id: String,
}

impl ProviderAuthRef {
    /// The credential of an owner for a provider under a profile.
    pub fn new(owner_id: &str, provider_id: &str, profile_id: &str) -> (r: Self)
        ensures
            r.owner_id@ == owner_id@,
            r.provider_id@ == provider_id@,
            r.profile_id@ == profile_id@,
    {
        ProviderAuthRef {
            owner_id: owner_id.to_owned(),
            provider_id: provider_id.to_owned(),
            profile_id: profile_id.to_owned(),
        }
    }

    /// The key to look the credential up by.
    fn as_key(&self) -> (r: Key<'_>)
        ensures
            r@ == self.key(),
    {
        Key::Triple(self.owner_id.as_str(), self.provider_id.as_str(), self.profile_id.as_str())
    }

    /// Whether this is the credential with that key.
    fn is(&self, key: Key) -> (r: bool)
        ensures
            r == (self.key() == key@),
    {
        match key {
            Key::Triple(owner, provider, profile) => {
                text::same(self.owner_id.as_str(), owner) && text::same(
                    self.provider_id.as_str(),
                    provider,
                ) && text::same(self.profile_id.as_str(), profile)
            },
            _ => false,
        }
    }
}

impl Clone for ProviderAuthRef {
    fn clone(&self) -> (r: Self)
        ensures
            r == *self,
    {
        ProviderAuthRef {
            owner_id: self.owner_id.clone(),
            provider_id: self.provider_id.clone(),
            profile_id: self.profile_id.clone(),
        }
    }
}

/// Why a credential cannot be had.
#[derive(Clone, Copy, Debug, PartialEq, Eq, Structural)]
pub enum ProviderAuthError {
    Missing,
    Invalid,
    Revoked,
    Throttled,
    UnsupportedProtocol,
}

/// The failure may pass by itself.
pub open spec fn transient(e: ProviderAuthError) -> bool {
    e == ProviderAuthError::Throttled
}

impl ProviderAuthError {
    /// Whether the failure may pass by itself.
    pub fn is_transient(&self) -> (r: bool)
        ensures
            r == transient(*self),
    {
        *self == ProviderAuthError::Throttled
    }
}

/// Where a credential stands.
#[derive(Clone, Copy, Debug, PartialEq, Eq, Structural)]
pub enum ProviderAuthState {
    Ready,
    Refreshing,
    Cooldown { until: i64, reason: ProviderAuthError },
    ReauthRequired { reason: ProviderAuthError },
    Revoked,
}

/// What is kept of a credential: where it stands, how many passing failures in a row it has
/// had, and when this was written.
#[derive(Clone, Copy, Debug, PartialEq, Eq, Structural)]
pub struct CredentialLifecycleRecord {
    pub state: ProviderAuthState,
    pub attempt: u32,
    pub observed_at: i64,
}

impl CredentialLifecycleRecord {
    /// A usable credential without failures.
    pub fn ready(observed_at: i64) -> (r: Self)
        ensures
            r == (CredentialLifecycleRecord {
                state: ProviderAuthState::Ready,
                attempt: 0,
                observed_at,
            }),
    {
        CredentialLifecycleRecord { state: ProviderAuthState::Ready, attempt: 0, observed_at }
    }
}

/// A source of time.
pub trait Clock {
    /// Nanoseconds since 1970.
    fn now_nanos(&self) -> i64;
}

/// How long to wait after a passing failure.
pub trait BackoffPolicy {
    /// The wait after this many failures in a row.
    spec fn cooldown(&self, attempt: u32) -> i64;

    /// The wait after this many failures in a row, the first of which counts as one.
    fn cooldown_nanos(&self, attempt: u32) -> (r: i64)
        ensures
            r == self.cooldown(attempt),
    ;
}

/// A wait that doubles with every failure, up to a limit.
#[derive(Clone, Copy, Debug, PartialEq, Eq, Structural)]
pub struct ExponentialBackoff {
    pub base_nanos: i64,
    pub max_nanos: i64,
}

/// How often the wait has doubled before this failure.
pub open spec fn doublings(attempt: u32) -> nat {
    if attempt == 0 {
        0
    } else {
        (attempt - 1) as nat
    }
}

/// The base, doubled for every failure after the first, but at most the limit, and never below
/// zero.
pub open spec fn backoff(base: int, max: int, attempt: u32) -> int {
    let wait = base * pow2(doublings(attempt)) as int;
    let capped = if wait > max {
        max
    } else {
        wait
    };
    if capped < 0 {
        0
    } else {
        capped
    }
}

impl ExponentialBackoff {
    /// One second at first, five minutes at most.
    pub fn new_default() -> (r: Self)
        ensures
            r.base_nanos == 1_000_000_000,
            r.max_nanos == 300_000_000_000,
    {
        ExponentialBackoff { base_nanos: 1_000_000_000, max_nanos: 300_000_000_000 }
    }
}

impl BackoffPolicy for ExponentialBackoff {
    open spec fn cooldown(&self, attempt: u32) -> i64 {
        backoff(self.base_nanos as int, self.max_nanos as int, attempt) as i64
    }

    fn cooldown_nanos(&self, attempt: u32) -> (r: i64)
        ensures
            r == backoff(self.base_nanos as int, self.max_nanos as int, attempt),
    {
        let earlier: u32 = attempt.saturating_sub(1);
        let ghost power = pow2(doublings(attempt)) as int;
        proof {
            lemma_pow2_pos(doublings(attempt));
            lemma2_to64();
            lemma_pow2_unfold(64);
        }
        if self.base_nanos <= 0 {
            assert(self.base_nanos * power <= 0) by (nonlinear_arith)
                requires
                    self.base_nanos <= 0,
                    power > 0,
            ;
            return 0;
        }
        if self.max_nanos <= 0 {
            return 0;
        }
        if earlier >= 63 {
            proof {
                if earlier > 63 {
                    lemma_pow2_strictly_increases(63, earlier as nat);
                }
                assert(self.base_nanos * power >= power) by (nonlinear_arith)
                    requires
                        self.base_nanos >= 1,
                        power > 0,
                ;
            }
            return self.max_nanos;
        }
        proof {
            lemma_pow2_strictly_increases(earlier as nat, 63);
            lemma_u64_shl_is_mul(1, earlier as u64);
        }
        let multiplier: u64 = 1u64 << (earlier as u64);
        assert(multiplier == power);
        let base: i128 = self.base_nanos as i128;
        let factor: i128 = multiplier as i128;
        assert(0 <= base * factor <= 0x7fff_ffff_ffff_ffff * 0x8000_0000_0000_0000)
            by (nonlinear_arith)
            requires
                0 <= base <= 0x7fff_ffff_ffff_ffff,
                0 <= factor <= 0x8000_0000_0000_0000,
        ;
        let wait: i128 = base * factor;
        if wait > self.max_nanos as i128 {
            self.max_nanos
        } else {
            wait as i64
        }
    }
}

/// With a base and a limit that are not negative, the wait lies between nothing and the limit,
/// never gets shorter, and doubles for as long as the limit allows.
pub proof fn the_cooldown_doubles_until_it_is_capped(base: int, max: int, attempt: u32)
    requires
        0 <= base,
        0 <= max,
        attempt < u32::MAX,
    ensures
        0 <= backoff(base, max, attempt) <= max,
        backoff(base, max, attempt) <= backoff(base, max, (attempt + 1) as u32),
        backoff(base, max, 1) == if base > max {
            max
        } else {
            base
        },
        1 <= attempt ==> backoff(base, max, (attempt + 1) as u32) == if 2 * backoff(
            base,
            max,
            attempt,
        ) > max {
            max
        } else {
            2 * backoff(base, max, attempt)
        },
{
    lemma2_to64();
    let now = pow2(doublings(attempt)) as int;
    let next = pow2(doublings((attempt + 1) as u32)) as int;
    if 1 <= attempt {
        lemma_pow2_unfold(attempt as nat);
        assert(next == 2 * now);
    } else {
        assert(next == now);
    }
    assert(0 <= base * now) by (nonlinear_arith)
        requires
            0 <= base,
            0 <= now,
    ;
    assert(base * (2 * now) == 2 * (base * now)) by (nonlinear_arith);
    assert(base * 1 == base);
}

/// The reason for which a refresh is refused by what is on record, if there is one.
pub open spec fn refusal(record: Option<CredentialLifecycleRecord>, now: i64) -> Option<
    ProviderAuthError,
> {
    match record {
        None => None,
        Some(record) => match record.state {
            ProviderAuthState::Revoked => Some(ProviderAuthError::Revoked),
            ProviderAuthState::ReauthRequired { reason } => Some(reason),
            ProviderAuthState::Cooldown { until, reason } => if now < until {
                Some(reason)
            } else {
                None
            },
            ProviderAuthState::Ready => None,
            ProviderAuthState::Refreshing => None,
        },
    }
}

/// How many passing failures in a row are on record.
pub open spec fn failures(record: Option<CredentialLifecycleRecord>) -> u32 {
    match record {
        None => 0,
        Some(record) => record.attempt,
    }
}

/// The store could not be read or written.
#[derive(Clone, Copy, Debug, PartialEq, Eq, Structural)]
pub struct StoreFault;

/// What the store holds for a credential, as far as it could be read.
pub type Loaded = Result<Option<CredentialLifecycleRecord>, StoreFault>;

/// A write: where the store holds what is expected, it is to hold the next record.
#[derive(Clone, Copy, Debug, PartialEq, Eq, Structural)]
pub struct Transition {
    pub expected: Option<CredentialLifecycleRecord>,
    pub next: CredentialLifecycleRecord,
}

/// How a refresh begins.
#[derive(Clone, Copy, Debug, PartialEq, Eq, Structural)]
pub enum RefreshStart {
    /// It does not: this is the answer, and nothing is written.
    Refuse(ProviderAuthError),
    /// Mark the credential as being refreshed.
    Mark(Transition),
}

/// What follows the attempt to mark the credential.
#[derive(Clone, Copy, Debug, PartialEq, Eq, Structural)]
pub enum MarkOutcome {
    /// The vendor may be called.
    CallVendor(Flight),
    /// Somebody else moved the credential: read it again and answer by [`lost_race_reason`].
    ReadAgain,
    /// This is the answer.
    Refuse(ProviderAuthError),
}

/// A refresh under way, with the record that marks it.
#[derive(Clone, Copy, Debug, PartialEq, Eq, Structural)]
pub struct Flight {
    pub refreshing: CredentialLifecycleRecord,
}

/// Whether a refresh may go on by what is on record. A store that cannot be read says nothing
/// of the credential: the caller may try again, and nothing is written.
pub fn begin_refresh(loaded: Loaded, check_now: i64, mark_now: i64) -> (r: RefreshStart)
    ensures
        match loaded {
            Err(_) => r == RefreshStart::Refuse(ProviderAuthError::Throttled),
            Ok(current) => match refusal(current, check_now) {
                Some(reason) => r == RefreshStart::Refuse(reason),
                None => r == RefreshStart::Mark(
                    Transition {
                        expected: current,
                        next: CredentialLifecycleRecord {
                            state: ProviderAuthState::Refreshing,
                            attempt: failures(current),
                            observed_at: mark_now,
                        },
                    },
                ),
            },
        },
{
    let current: Option<CredentialLifecycleRecord> = match loaded {
        Err(_) => {
            return RefreshStart::Refuse(ProviderAuthError::Throttled);
        },
        Ok(current) => current,
    };
    let mut attempt: u32 = 0;
    if let Some(record) = current {
        match record.state {
            ProviderAuthState::Revoked => {
                return RefreshStart::Refuse(ProviderAuthError::Revoked);
            },
            ProviderAuthState::ReauthRequired { reason } => {
                return RefreshStart::Refuse(reason);
            },
            ProviderAuthState::Cooldown { until, reason } => {
                if check_now < until {
                    return RefreshStart::Refuse(reason);
                }
            },
            ProviderAuthState::Ready | ProviderAuthState::Refreshing => {},
        }
        attempt = record.attempt;
    }
    RefreshStart::Mark(
        Transition {
            expected: current,
            next: CredentialLifecycleRecord {
                state: ProviderAuthState::Refreshing,
                attempt,
                observed_at: mark_now,
            },
        },
    )
}

/// What follows the attempt to mark the credential, which succeeded, lost a race, or failed.
pub fn after_mark(mark: Transition, swapped: Result<bool, StoreFault>) -> (r: MarkOutcome)
    ensures
        r == match swapped {
            Ok(true) => MarkOutcome::CallVendor(Flight { refreshing: mark.next }),
            Ok(false) => MarkOutcome::ReadAgain,
            Err(_) => MarkOutcome::Refuse(ProviderAuthError::Throttled),
        },
{
    match swapped {
        Ok(true) => MarkOutcome::CallVendor(Flight { refreshing: mark.next }),
        Ok(false) => MarkOutcome::ReadAgain,
        Err(_) => MarkOutcome::Refuse(ProviderAuthError::Throttled),
    }
}

/// What to say to a caller who lost a race, by the record that the winner left.
pub open spec fn left_behind(loaded: Loaded) -> ProviderAuthError {
    match loaded {
        Ok(Some(record)) => match record.state {
            ProviderAuthState::Revoked => ProviderAuthError::Revoked,
            ProviderAuthState::ReauthRequired { reason } => reason,
            ProviderAuthState::Cooldown { until, reason } => reason,
            ProviderAuthState::Ready => ProviderAuthError::Throttled,
            ProviderAuthState::Refreshing => ProviderAuthError::Throttled,
        },
        _ => ProviderAuthError::Throttled,
    }
}

/// What to say to a caller who lost a race, by the record that the winner left.
pub fn lost_race_reason(loaded: Loaded) -> (r: ProviderAuthError)
    ensures
        r == left_behind(loaded),
{
    match loaded {
        Ok(Some(record)) => match record.state {
            ProviderAuthState::Revoked => ProviderAuthError::Revoked,
            ProviderAuthState::ReauthRequired { reason } => reason,
            ProviderAuthState::Cooldown { until, reason } => reason,
            ProviderAuthState::Ready | ProviderAuthState::Refreshing => {
                ProviderAuthError::Throttled
            },
        },
        _ => ProviderAuthError::Throttled,
    }
}

/// A sum that stays within the range of a timestamp.
pub open spec fn clamped(sum: int) -> int {
    if sum > i64::MAX {
        i64::MAX as int
    } else if sum < i64::MIN {
        i64::MIN as int
    } else {
        sum
    }
}

/// The record that a failed refresh leaves behind. A passing failure is one more in a row and
/// cools the credential down; a revocation is a state of its own; anything else waits for a
/// human.
pub open spec fn failed_record(
    e: ProviderAuthError,
    attempt_before: u32,
    now: i64,
    wait: i64,
) -> CredentialLifecycleRecord {
    if e == ProviderAuthError::Revoked {
        CredentialLifecycleRecord {
            state: ProviderAuthState::Revoked,
            attempt: attempt_before,
            observed_at: now,
        }
    } else if transient(e) {
        CredentialLifecycleRecord {
            state: ProviderAuthState::Cooldown { until: clamped(now + wait) as i64, reason: e },
            attempt: one_more(attempt_before),
            observed_at: now,
        }
    } else {
        CredentialLifecycleRecord {
            state: ProviderAuthState::ReauthRequired { reason: e },
            attempt: attempt_before,
            observed_at: now,
        }
    }
}

/// One more failure, as far as the count goes.
pub open spec fn one_more(attempt: u32) -> u32 {
    if attempt == u32::MAX {
        attempt
    } else {
        (attempt + 1) as u32
    }
}

/// The record that a failed refresh leaves behind.
pub fn state_for_failure<B: BackoffPolicy>(
    e: ProviderAuthError,
    attempt_before: u32,
    now: i64,
    backoff: &B,
) -> (r: CredentialLifecycleRecord)
    ensures
        r == failed_record(e, attempt_before, now, backoff.cooldown(one_more(attempt_before))),
{
    if e == ProviderAuthError::Revoked {
        return CredentialLifecycleRecord {
            state: ProviderAuthState::Revoked,
            attempt: attempt_before,
            observed_at: now,
        };
    }
    if e.is_transient() {
        let attempt: u32 = attempt_before.saturating_add(1);
        let wait: i64 = backoff.cooldown_nanos(attempt);
        let sum: i128 = now as i128 + wait as i128;
        let until: i64 = if sum > i64::MAX as i128 {
            i64::MAX
        } else if sum < i64::MIN as i128 {
            i64::MIN
        } else {
            sum as i64
        };
        return CredentialLifecycleRecord {
            state: ProviderAuthState::Cooldown { until, reason: e },
            attempt,
            observed_at: now,
        };
    }
    CredentialLifecycleRecord {
        state: ProviderAuthState::ReauthRequired { reason: e },
        attempt: attempt_before,
        observed_at: now,
    }
}

/// The record that a refresh leaves behind.
pub open spec fn settled_record<T>(
    flight: Flight,
    outcome: Result<T, ProviderAuthError>,
    now: i64,
    wait: i64,
) -> CredentialLifecycleRecord {
    match outcome {
        Ok(_) => CredentialLifecycleRecord {
            state: ProviderAuthState::Ready,
            attempt: 0,
            observed_at: now,
        },
        Err(e) => failed_record(e, flight.refreshing.attempt, now, wait),
    }
}

impl Flight {
    /// The write that settles the credential by what the vendor said. The caller gets what the
    /// vendor said, whether or not the write is applied.
    pub fn settle<T, B: BackoffPolicy>(
        &self,
        outcome: &Result<T, ProviderAuthError>,
        now: i64,
        backoff: &B,
    ) -> (r: Transition)
        ensures
            r.expected == Some(self.refreshing),
            r.next == settled_record(
                *self,
                *outcome,
                now,
                backoff.cooldown(one_more(self.refreshing.attempt)),
            ),
    {
        let next: CredentialLifecycleRecord = match outcome {
            Ok(_) => CredentialLifecycleRecord::ready(now),
            Err(e) => state_for_failure(*e, self.refreshing.attempt, now, backoff),
        };
        Transition { expected: Some(self.refreshing), next }
    }
}

/// The write that revokes a credential, whatever the vendor says to it. A store that cannot be
/// read counts as one that holds nothing.
pub fn revocation(loaded: Loaded, now: i64) -> (r: Transition)
    ensures
        ({
            let current = match loaded {
                Ok(current) => current,
                Err(_) => None,
            };
            r == (Transition {
                expected: current,
                next: CredentialLifecycleRecord {
                    state: ProviderAuthState::Revoked,
                    attempt: failures(current),
                    observed_at: now,
                },
            })
        }),
{
    let current: Option<CredentialLifecycleRecord> = match loaded {
        Ok(current) => current,
        Err(_) => None,
    };
    let attempt: u32 = match current {
        Some(record) => record.attempt,
        None => 0,
    };
    Transition {
        expected: current,
        next: CredentialLifecycleRecord {
            state: ProviderAuthState::Revoked,
            attempt,
            observed_at: now,
        },
    }
}

/// What is on record, by credential.
pub type CredentialRecords = Map<KeyView, CredentialLifecycleRecord>;

/// The record of a credential, if there is one.
pub open spec fn on_record(records: CredentialRecords, key: KeyView) -> Option<
    CredentialLifecycleRecord,
> {
    if records.contains_key(key) {
        Some(records[key])
    } else {
        None
    }
}

/// The records after a write: applied where the credential's record is the expected one, and
/// nothing at all where it is not.
pub open spec fn after_swap(
    records: CredentialRecords,
    key: KeyView,
    write: Transition,
) -> CredentialRecords {
    if on_record(records, key) == write.expected {
        records.insert(key, write.next)
    } else {
        records
    }
}

/// One credential and its record.
struct CredentialRow {
    reference: ProviderAuthRef,
    record: CredentialLifecycleRecord,
}

impl Row for CredentialRow {
    closed spec fn key(&self) -> KeyView {
        self.reference.key()
    }

    fn has_key(&self, key: Key) -> bool {
        self.reference.is(key)
    }
}

/// The records of credentials, in memory.
pub struct MemoryCredentialStore {
    rows: Table<CredentialRow>,
}

impl View for MemoryCredentialStore {
    type V = CredentialRecords;

    closed spec fn view(&self) -> CredentialRecords {
        self.rows@.map_values(|row: CredentialRow| row.record)
    }
}

impl MemoryCredentialStore {
    /// A store without records.
    pub fn new() -> (r: Self)
        ensures
            r@ == CredentialRecords::empty(),
    {
        let r: MemoryCredentialStore = MemoryCredentialStore { rows: Table::new() };
        assert(r@ =~= CredentialRecords::empty());
        r
    }

    /// The record of a credential, if there is one.
    pub fn load(&self, reference: &ProviderAuthRef) -> (r: Option<CredentialLifecycleRecord>)
        ensures
            r == on_record(self@, reference.key()),
    {
        match self.rows.get(reference.as_key()) {
            Some(row) => Some(row.record),
            None => None,
        }
    }

    /// Writes where the record is the expected one, and says whether it did.
    pub fn compare_and_swap(&mut self, reference: &ProviderAuthRef, write: &Transition) -> (r: bool)
        ensures
            r == (on_record(old(self)@, reference.key()) == write.expected),
            final(self)@ == after_swap(old(self)@, reference.key(), *write),
    {
        let ghost before = self@;
        let ghost key = reference.key();
        match self.rows.find(reference.as_key()) {
            Some(i) => {
                let held: CredentialLifecycleRecord = self.rows.at(i).record;
                if write.expected != Some(held) {
                    return false;
                }
                let mut row: CredentialRow = self.rows.remove_at(i);
                row.record = write.next;
                self.rows.insert_at(i, row);
                assert(self@ =~= before.insert(key, write.next));
                true
            },
            None => {
                if write.expected.is_some() {
                    return false;
                }
                self.rows.push(CredentialRow { reference: reference.clone(), record: write.next });
                assert(self@ =~= before.insert(key, write.next));
                true
            },
        }
    }

    /// Forgets a credential.
    pub fn delete(&mut self, reference: &ProviderAuthRef)
        ensures
            final(self)@ == old(self)@.remove(reference.key()),
    {
        let ghost before = self@;
        match self.rows.find(reference.as_key()) {
            Some(i) => {
                let _row: CredentialRow = self.rows.remove_at(i);
            },
            None => {},
        }
        assert(self@ =~= before.remove(reference.key()));
    }
}

impl Row for ProviderAuthRef {
    open spec fn key(&self) -> KeyView {
        KeyView::Triple(self.owner_id@, self.provider_id@, self.profile_id@)
    }

    fn has_key(&self, key: Key) -> bool {
        self.is(key)
    }
}

/// The credentials whose refresh is under way.
pub struct Flights {
    flying: Table<ProviderAuthRef>,
}

impl View for Flights {
    type V = Set<KeyView>;

    closed spec fn view(&self) -> Set<KeyView> {
        self.flying@.dom()
    }
}

impl Flights {
    /// None is under way.
    pub fn new() -> (r: Self)
        ensures
            r@ == Set::<KeyView>::empty(),
    {
        let r: Flights = Flights { flying: Table::new() };
        assert(r@ =~= Set::<KeyView>::empty());
        r
    }

    /// Whether the caller leads the refresh of this credential; if not, somebody else does, and
    /// the caller waits for what that one gets.
    pub fn join_or_lead(&mut self, reference: &ProviderAuthRef) -> (r: bool)
        ensures
            r == !old(self)@.contains(reference.key()),
            final(self)@ == old(self)@.insert(reference.key()),
    {
        let ghost before = self@;
        match self.flying.find(reference.as_key()) {
            Some(_) => {
                assert(before.insert(reference.key()) =~= before);
                false
            },
            None => {
                self.flying.push(reference.clone());
                assert(self@ =~= before.insert(reference.key()));
                true
            },
        }
    }

    /// The leader is done.
    pub fn land(&mut self, reference: &ProviderAuthRef)
        ensures
            final(self)@ == old(self)@.remove(reference.key()),
    {
        let ghost before = self@;
        match self.flying.find(reference.as_key()) {
            Some(i) => {
                let _reference: ProviderAuthRef = self.flying.remove_at(i);
            },
            None => {},
        }
        assert(self@ =~= before.remove(reference.key()));
    }
}

/// What speaks to the vendor.
pub trait ProviderCredentialRefresher {
    /// A credential that can be used.
    type Credential;

    /// Whether the vendor may say this to one call for a refresh, after which what speaks to it is
    /// like this. Who says nothing here promises nothing.
    open spec fn may_refresh(
        &self,
        reference: &ProviderAuthRef,
        said: Result<Self::Credential, ProviderAuthError>,
        after: &Self,
    ) -> bool {
        true
    }

    /// Whether the vendor may say this to one withdrawal, after which what speaks to it is like
    /// this. Who says nothing here promises nothing.
    open spec fn may_revoke(
        &self,
        reference: &ProviderAuthRef,
        said: Result<(), ProviderAuthError>,
        after: &Self,
    ) -> bool {
        true
    }

    /// Exchanges what is durable of a credential for one that can be used.
    fn refresh(&mut self, reference: &ProviderAuthRef) -> (r: Result<
        Self::Credential,
        ProviderAuthError,
    >)
        ensures
            old(self).may_refresh(reference, r, final(self)),
    ;

    /// Tells the vendor that the credential is withdrawn.
    fn revoke(&mut self, reference: &ProviderAuthRef) -> (r: Result<(), ProviderAuthError>)
        ensures
            old(self).may_revoke(reference, r, final(self)),
    ;
}

/// The clock said that it is this time.
pub open spec fn timed<K: Clock>(clock: &K, now: i64) -> bool {
    call_ensures(K::now_nanos, (clock,), now)
}

/// The refresh was refused by what is on record, at the time that the clock said.
pub open spec fn refused<K: Clock>(
    clock: &K,
    record: Option<CredentialLifecycleRecord>,
    e: ProviderAuthError,
) -> bool {
    exists|now: i64| #[trigger] timed(clock, now) && refusal(record, now) == Some(e)
}

/// What is on record did not refuse the refresh, and the record was settled by what the vendor
/// said, each at the time that the clock said.
pub open spec fn settled<K: Clock, T>(
    clock: &K,
    before: Option<CredentialLifecycleRecord>,
    outcome: Result<T, ProviderAuthError>,
    wait: i64,
    after: CredentialLifecycleRecord,
) -> bool {
    &&& exists|check: i64| #[trigger] timed(clock, check) && refusal(before, check) is None
    &&& exists|mark: i64, now: i64|
        #![trigger timed(clock, mark), timed(clock, now)]
        timed(clock, mark) && timed(clock, now) && after == settled_record(
            Flight {
                refreshing: CredentialLifecycleRecord {
                    state: ProviderAuthState::Refreshing,
                    attempt: failures(before),
                    observed_at: mark,
                },
            },
            outcome,
            now,
            wait,
        )
}

/// The lives of credentials whose records nobody else touches.
pub struct ProviderCredentialLifecycle<R, K, B> {
    pub store: MemoryCredentialStore,
    pub refresher: R,
    pub clock: K,
    pub backoff: B,
}

impl<R: ProviderCredentialRefresher, K: Clock, B: BackoffPolicy> ProviderCredentialLifecycle<
    R,
    K,
    B,
> {
    /// The lives of the credentials in a store.
    pub fn new(store: MemoryCredentialStore, refresher: R, clock: K, backoff: B) -> (r: Self)
        ensures
            r == (ProviderCredentialLifecycle { store, refresher, clock, backoff }),
    {
        ProviderCredentialLifecycle { store, refresher, clock, backoff }
    }

    /// Refreshes a credential. What is on record may refuse it before the vendor is called;
    /// else the vendor is called once, the caller gets what it says, and the record is settled by
    /// it.
    pub fn refresh(&mut self, reference: &ProviderAuthRef) -> (r: Result<
        R::Credential,
        ProviderAuthError,
    >)
        ensures
            final(self).backoff == old(self).backoff,
            final(self).clock == old(self).clock,
            ({
                let key = reference.key();
                let before = on_record(old(self).store@, key);
                let wait = old(self).backoff.cooldown(one_more(failures(before)));
                ||| {
                    &&& r matches Err(e)
                    &&& refused(&old(self).clock, before, e)
                    &&& final(self).store@ == old(self).store@
                    &&& final(self).refresher == old(self).refresher
                }
                ||| {
                    &&& old(self).refresher.may_refresh(reference, r, &final(self).refresher)
                    &&& final(self).store@.contains_key(key)
                    &&& settled(&old(self).clock, before, r, wait, final(self).store@[key])
                    &&& final(self).store@ == old(self).store@.insert(
                        key,
                        final(self).store@[key],
                    )
                }
            }),
    {
        let ghost key = reference.key();
        let ghost records = self.store@;
        let loaded: Loaded = Ok(self.store.load(reference));
        let ghost before = on_record(records, key);
        let check_now: i64 = self.clock.now_nanos();
        assert(timed(&self.clock, check_now));
        let mark_now: i64 = self.clock.now_nanos();
        assert(timed(&self.clock, mark_now));
        let mark: Transition = match begin_refresh(loaded, check_now, mark_now) {
            RefreshStart::Refuse(reason) => {
                assert(refusal(before, check_now) == Some(reason));
                return Err(reason);
            },
            RefreshStart::Mark(mark) => mark,
        };
        assert(refusal(before, check_now) is None);
        let swapped: bool = self.store.compare_and_swap(reference, &mark);
        let flight: Flight = match after_mark(mark, Ok(swapped)) {
            MarkOutcome::CallVendor(flight) => flight,
            MarkOutcome::ReadAgain => {
                return Err(lost_race_reason(Ok(self.store.load(reference))));
            },
            MarkOutcome::Refuse(reason) => {
                return Err(reason);
            },
        };
        let outcome: Result<R::Credential, ProviderAuthError> = self.refresher.refresh(reference);
        let now: i64 = self.clock.now_nanos();
        assert(timed(&self.clock, now));
        let write: Transition = flight.settle(&outcome, now, &self.backoff);
        let _applied: bool = self.store.compare_and_swap(reference, &write);
        assert(self.store@ =~= records.insert(key, write.next));
        outcome
    }

    /// Revokes a credential, and that one alone. The vendor is told once, the record says so even
    /// where the vendor does not go along, and the caller gets what the vendor says.
    pub fn revoke(&mut self, reference: &ProviderAuthRef) -> (r: Result<(), ProviderAuthError>)
        ensures
            final(self).backoff == old(self).backoff,
            final(self).clock == old(self).clock,
            old(self).refresher.may_revoke(reference, r, &final(self).refresher),
            ({
                let key = reference.key();
                let after = final(self).store@[key];
                &&& final(self).store@ == old(self).store@.insert(key, after)
                &&& timed(&old(self).clock, after.observed_at)
                &&& after.state == ProviderAuthState::Revoked
                &&& after.attempt == failures(on_record(old(self).store@, key))
            }),
    {
        let ghost key = reference.key();
        let ghost records = self.store@;
        let upstream: Result<(), ProviderAuthError> = self.refresher.revoke(reference);
        let current: Option<CredentialLifecycleRecord> = self.store.load(reference);
        let now: i64 = self.clock.now_nanos();
        assert(timed(&self.clock, now));
        let write: Transition = revocation(Ok(current), now);
        let _applied: bool = self.store.compare_and_swap(reference, &write);
        assert(self.store@ =~= records.insert(key, write.next));
        upstream
    }

    /// Drops the record of a credential. The vendor is not told.
    pub fn forget(&mut self, reference: &ProviderAuthRef)
        ensures
            final(self).store@ == old(self).store@.remove(reference.key()),
            final(self).refresher == old(self).refresher,
            final(self).clock == old(self).clock,
            final(self).backoff == old(self).backoff,
    {
        self.store.delete(reference)
    }

    /// The record of a credential. Without one, nothing is known of it.
    pub fn state(&self, reference: &ProviderAuthRef) -> (r: Option<CredentialLifecycleRecord>)
        ensures
            r == on_record(self.store@, reference.key()),
    {
        self.store.load(reference)
    }
}

/// A revoked credential, and one that waits for a human, is refused at every time: no waiting
/// clears it. A cooldown ends when its time has come.
pub proof fn only_a_cooldown_passes(record: CredentialLifecycleRecord, now: i64)
    ensures
        record.state == ProviderAuthState::Revoked ==> refusal(Some(record), now) == Some(
            ProviderAuthError::Revoked,
        ),
        record.state matches ProviderAuthState::ReauthRequired { reason } ==> refusal(
            Some(record),
            now,
        ) == Some(reason),
        record.state matches ProviderAuthState::Cooldown { until, reason } ==> (refusal(
            Some(record),
            now,
        ) is Some <==> now < until),
{
}

/// A refresh that fails for good leaves a record that refuses every later refresh, with the same
/// reason; one that fails in passing leaves a record that refuses until the wait is over.
pub proof fn a_failure_is_remembered(
    flight: Flight,
    e: ProviderAuthError,
    now: i64,
    wait: i64,
    later: i64,
)
    ensures
        ({
            let record = settled_record(
                flight,
                Err::<(), ProviderAuthError>(e),
                now,
                wait,
            );
            if transient(e) {
                refusal(Some(record), later) == if later < clamped(now + wait) {
                    Some(e)
                } else {
                    None
                }
            } else {
                refusal(Some(record), later) == Some(e)
            }
        }),
{
}

/// A success leaves nothing of the failures before it.
pub proof fn a_success_clears_the_failures<T>(flight: Flight, credential: T, now: i64, wait: i64)
    ensures
        ({
            let record = settled_record(flight, Ok::<T, ProviderAuthError>(credential), now, wait);
            &&& failures(Some(record)) == 0
            &&& forall|later: i64| #[trigger] refusal(Some(record), later) is None
        }),
{
}

/// A credential that was revoked while its refresh was under way stays revoked, whatever the
/// vendor said to the refresh.
pub proof fn a_late_answer_does_not_bring_a_credential_back<T>(
    records: CredentialRecords,
    key: KeyView,
    flight: Flight,
    outcome: Result<T, ProviderAuthError>,
    now: i64,
    wait: i64,
)
    requires
        records.contains_key(key),
        records[key].state == ProviderAuthState::Revoked,
        flight.refreshing.state == ProviderAuthState::Refreshing,
    ensures
        after_swap(
            records,
            key,
            Transition {
                expected: Some(flight.refreshing),
                next: settled_record(flight, outcome, now, wait),
            },
        ) == records,
{
}

/// A write concerns one credential: every other record stays as it is.
pub proof fn a_write_concerns_one_credential(
    records: CredentialRecords,
    key: KeyView,
    write: Transition,
    other: KeyView,
)
    requires
        other != key,
    ensures
        on_record(after_swap(records, key, write), other) == on_record(records, other),
        on_record(records.remove(key), other) == on_record(records, other),
{
}

/// A credential has one leader: after somebody has taken the lead nobody else gets it until the
/// leader is done, and no other credential has to wait for that.
pub proof fn a_credential_has_one_leader(flying: Set<KeyView>, key: KeyView, other: KeyView)
    requires
        other != key,
    ensures
        flying.insert(key).contains(key),
        flying.insert(key).contains(other) == flying.contains(other),
        !flying.insert(key).remove(key).contains(key),
{
}

/// Only a throttled call may succeed later by itself.
pub proof fn only_throttling_passes(e: ProviderAuthError)
    ensures
        transient(e) <==> e == ProviderAuthError::Throttled,
{
}

/// The first failure waits for the base, as if there were none before it, and neither a negative
/// base nor a negative limit makes a wait.
pub proof fn the_first_wait_is_the_base(base: int, max: int, attempt: u32)
    ensures
        backoff(base, max, 0) == backoff(base, max, 1),
        0 <= base <= max ==> backoff(base, max, 1) == base,
        base <= 0 || max <= 0 ==> backoff(base, max, attempt) == 0,
{
    lemma2_to64();
    assert(base * 1 == base);
    let power = pow2(doublings(attempt)) as int;
    lemma_pow2_pos(doublings(attempt));
    if base <= 0 {
        assert(base * power <= 0) by (nonlinear_arith)
            requires
                base <= 0,
                power > 0,
        ;
    }
}

/// Passing failures are counted in a row and make the credential wait from now on; a revocation and
/// what needs a human leave the count as it is. Every record says when it was written.
pub proof fn a_failure_is_counted(e: ProviderAuthError, attempt: u32, now: i64, wait: i64)
    ensures
        ({
            let record = failed_record(e, attempt, now, wait);
            &&& record.observed_at == now
            &&& match e {
                ProviderAuthError::Throttled => {
                    &&& attempt < u32::MAX ==> record.attempt == attempt + 1
                    &&& attempt == u32::MAX ==> record.attempt == attempt
                    &&& record.state matches ProviderAuthState::Cooldown { until, reason }
                    &&& reason == e
                    &&& i64::MIN <= now + wait <= i64::MAX ==> until == now + wait
                    &&& now + wait > i64::MAX ==> until == i64::MAX
                    &&& now + wait < i64::MIN ==> until == i64::MIN
                },
                ProviderAuthError::Revoked => record.attempt == attempt && record.state
                    == ProviderAuthState::Revoked,
                ProviderAuthError::Missing
                | ProviderAuthError::Invalid
                | ProviderAuthError::UnsupportedProtocol => record.attempt == attempt
                    && record.state == (ProviderAuthState::ReauthRequired { reason: e }),
            }
        }),
{
}

/// A credential of which nothing is on record, one that is ready, one whose refresh was begun and
/// one whose wait is over may be refreshed; any other is refused for the reason on record.
pub proof fn what_is_on_record_refuses(record: Option<CredentialLifecycleRecord>, now: i64)
    ensures
        refusal(record, now) == match record {
            None => None,
            Some(kept) => match kept.state {
                ProviderAuthState::Ready | ProviderAuthState::Refreshing => None,
                ProviderAuthState::Revoked => Some(ProviderAuthError::Revoked),
                ProviderAuthState::ReauthRequired { reason } => Some(reason),
                ProviderAuthState::Cooldown { until, reason } => if until <= now {
                    None
                } else {
                    Some(reason)
                },
            },
        },
        failures(record) == match record {
            None => 0,
            Some(kept) => kept.attempt,
        },
{
}

/// Who lost a race is told what the winner left: the reason on record, or to come again.
pub proof fn who_lost_a_race_is_told_why(loaded: Loaded)
    ensures
        loaded matches Ok(Some(record)) ==> match record.state {
            ProviderAuthState::Revoked => left_behind(loaded) == ProviderAuthError::Revoked,
            ProviderAuthState::ReauthRequired { reason } => left_behind(loaded) == reason,
            ProviderAuthState::Cooldown { until, reason } => left_behind(loaded) == reason,
            _ => left_behind(loaded) == ProviderAuthError::Throttled,
        },
        !(loaded matches Ok(Some(_))) ==> left_behind(loaded) == ProviderAuthError::Throttled,
{
}

/// A write is applied exactly where nobody wrote in between, and is then what is on record.
pub proof fn a_write_is_applied_where_nobody_came_between(
    records: CredentialRecords,
    key: KeyView,
    write: Transition,
)
    ensures
        on_record(records, key) == write.expected ==> on_record(
            after_swap(records, key, write),
            key,
        ) == Some(write.next),
        on_record(records, key) != write.expected ==> after_swap(records, key, write) == records,
{
}

/// What a refresh leaves on record goes by what the vendor said, at the time that the clock said: a
/// success is ready and without failures, a passing failure waits from then on and is counted, and
/// any other failure stands until somebody acts.
pub proof fn a_refresh_is_settled_by_what_the_vendor_said<K: Clock, T>(
    clock: &K,
    before: Option<CredentialLifecycleRecord>,
    outcome: Result<T, ProviderAuthError>,
    wait: i64,
    after: CredentialLifecycleRecord,
)
    requires
        settled(clock, before, outcome, wait, after),
    ensures
        exists|now: i64|
            {
                &&& #[trigger] timed(clock, now)
                &&& after.observed_at == now
                &&& match outcome {
                    Ok(_) => after.state == ProviderAuthState::Ready && after.attempt == 0,
                    Err(ProviderAuthError::Throttled) => {
                        &&& after.state matches ProviderAuthState::Cooldown { until, reason }
                        &&& reason == ProviderAuthError::Throttled
                        &&& i64::MIN <= now + wait <= i64::MAX ==> until == now + wait
                        &&& failures(before) < u32::MAX ==> after.attempt == failures(before) + 1
                    },
                    Err(ProviderAuthError::Revoked) => after.state == ProviderAuthState::Revoked
                        && after.attempt == failures(before),
                    Err(e) => after.state == (ProviderAuthState::ReauthRequired { reason: e })
                        && after.attempt == failures(before),
                }
            },
        exists|check: i64| #[trigger] timed(clock, check) && refusal(before, check) is None,
{
    let (mark, now) = choose|mark: i64, now: i64|
        #![trigger timed(clock, mark), timed(clock, now)]
        timed(clock, mark) && timed(clock, now) && after == settled_record(
            Flight {
                refreshing: CredentialLifecycleRecord {
                    state: ProviderAuthState::Refreshing,
                    attempt: failures(before),
                    observed_at: mark,
                },
            },
            outcome,
            now,
            wait,
        );
    assert(timed(clock, now));
}

/// A refresh begins only where what is on record does not refuse it, and then marks the credential
/// without touching the count of its failures; a store that cannot be read lets none begin.
pub proof fn a_refresh_begins_where_nothing_refuses_it(
    loaded: Loaded,
    check_now: i64,
    mark_now: i64,
    r: RefreshStart,
)
    requires
        call_ensures(begin_refresh, (loaded, check_now, mark_now), r),
    ensures
        r is Mark <==> (loaded matches Ok(current) && refusal(current, check_now) is None),
        r matches RefreshStart::Mark(mark) ==> {
            &&& loaded == Ok::<Option<CredentialLifecycleRecord>, StoreFault>(mark.expected)
            &&& mark.next.state == ProviderAuthState::Refreshing
            &&& mark.next.attempt == failures(mark.expected)
            &&& mark.next.observed_at == mark_now
        },
        r matches RefreshStart::Refuse(e) ==> match loaded {
            Ok(current) => refusal(current, check_now) == Some(e),
            Err(_) => e == ProviderAuthError::Throttled,
        },
{
}

/// The vendor is called only by who marked the credential.
pub proof fn only_who_marked_calls_the_vendor(
    mark: Transition,
    swapped: Result<bool, StoreFault>,
    r: MarkOutcome,
)
    requires
        call_ensures(after_mark, (mark, swapped), r),
    ensures
        r is CallVendor <==> swapped == Ok::<bool, StoreFault>(true),
        r matches MarkOutcome::CallVendor(flight) ==> flight.refreshing == mark.next,
        r is ReadAgain <==> swapped == Ok::<bool, StoreFault>(false),
{
}

/// A revocation is written whatever was on record, and keeps the count.
pub proof fn a_revocation_is_always_written(loaded: Loaded, now: i64, r: Transition)
    requires
        call_ensures(revocation, (loaded, now), r),
    ensures
        r.next.state == ProviderAuthState::Revoked,
        r.next.observed_at == now,
        loaded matches Ok(current) ==> r.expected == current && r.next.attempt == failures(current),
        loaded is Err ==> r.expected is None,
        forall|later: i64| #[trigger]
            refusal(Some(r.next), later) == Some(ProviderAuthError::Revoked),
{
}

} // verus!
