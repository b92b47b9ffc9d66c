//! The deploy orchestrator's decision logic.
//!
//! Submitting a transaction and querying its status are remote calls; what
//! is decided in between is pure: how each status response is classified,
//! when polling stops, which outcome is reported, how long the next backoff
//! pause lasts, and how a stored value maps to a contract address. Those
//! decisions live here, stated over explicit inputs, so the whole
//! confirm-or-timeout state machine is checked for every possible response
//! sequence.

use vstd::prelude::*;

verus! {

/// The confirmation polling deadline: terminal conditions aside, polling
/// gives up this many milliseconds after the first attempt.
pub const CONTRACT_INIT_DEADLINE_MS: u64 = 60_000;

/// Classification of one status-query response.
#[derive(Debug, Clone, PartialEq, Eq)]
pub enum PollResponse {
    /// A transport-level failure: an HTTP error, or no response at all.
    TransportError(String),
    /// Any other error reported by the query.
    QueryError(String),
    /// The query succeeded but carries no execution information yet.
    NoExecutionInfo,
    /// Execution information is present but no execution result is attached
    /// yet.
    NoExecutionResult,
    /// An execution result is present and marked successful, under either
    /// result-format version.
    Success,
    /// An execution result is present and marked failed, carrying the
    /// on-chain error message.
    Failure(String),
}

/// The state of the confirmation polling loop.
#[derive(Debug, Clone, PartialEq, Eq)]
pub enum ConfirmState {
    /// No execution information has been observed yet.
    Pending,
    /// Execution information was observed, without a result attached.
    ObservedNoResult,
    /// Terminal: the deploy executed successfully.
    Success,
    /// Terminal: an authoritative on-chain failure, or a query error that is
    /// not transport-level; carries the reported message.
    Failure(String),
    /// Terminal: the deadline passed while only transient conditions were
    /// seen; carries the last transport error, when the final attempt ended
    /// in one, and nothing when it merely found no result yet.
    TimedOut(Option<String>),
}

impl ConfirmState {
    pub open spec fn is_terminal(self) -> bool {
        match self {
            ConfirmState::Pending => false,
            ConfirmState::ObservedNoResult => false,
            _ => true,
        }
    }

    pub fn terminal(&self) -> (b: bool)
        ensures
            b == self.is_terminal(),
    {
        match self {
            ConfirmState::Pending => false,
            ConfirmState::ObservedNoResult => false,
            _ => true,
        }
    }
}

/// One transition of the confirmation state machine. A terminal state
/// absorbs every further response. Otherwise: an authoritative result,
/// successful or failed, resolves immediately whether or not the deadline
/// has passed; a query error that is not transport-level fails immediately;
/// and the transient conditions keep polling while time remains but resolve
/// to a timeout once it has run out.
pub open spec fn spec_confirm_step(
    state: ConfirmState,
    response: PollResponse,
    timed_out: bool,
) -> ConfirmState {
    if state.is_terminal() {
        state
    } else {
        match response {
            PollResponse::TransportError(e) => if timed_out {
                ConfirmState::TimedOut(Some(e))
            } else {
                state
            },
            PollResponse::QueryError(e) => ConfirmState::Failure(e),
            PollResponse::NoExecutionInfo => if timed_out {
                ConfirmState::TimedOut(None)
            } else {
                ConfirmState::Pending
            },
            PollResponse::NoExecutionResult => if timed_out {
                ConfirmState::TimedOut(None)
            } else {
                ConfirmState::ObservedNoResult
            },
            PollResponse::Success => ConfirmState::Success,
            PollResponse::Failure(m) => ConfirmState::Failure(m),
        }
    }
}

pub fn confirm_step(state: ConfirmState, response: PollResponse, timed_out: bool) -> (r:
    ConfirmState)
    ensures
        r == spec_confirm_step(state, response, timed_out),
{
    if state.terminal() {
        return state;
    }
    match response {
        PollResponse::TransportError(e) => if timed_out {
            ConfirmState::TimedOut(Some(e))
        } else {
            state
        },
        PollResponse::QueryError(e) => ConfirmState::Failure(e),
        PollResponse::NoExecutionInfo => if timed_out {
            ConfirmState::TimedOut(None)
        } else {
            ConfirmState::Pending
        },
        PollResponse::NoExecutionResult => if timed_out {
            ConfirmState::TimedOut(None)
        } else {
            ConfirmState::ObservedNoResult
        },
        PollResponse::Success => ConfirmState::Success,
        PollResponse::Failure(m) => ConfirmState::Failure(m),
    }
}

/// One poll attempt as the driver saw it: how much wall-clock time had
/// passed since the first attempt when the response came in, and the
/// response itself.
#[derive(Debug, Clone, PartialEq, Eq)]
pub struct PollObservation {
    pub elapsed_ms: u64,
    pub response: PollResponse,
}

/// The state after running the machine from `state` over the observations
/// in order; a terminal state stops the run and stands.
pub open spec fn spec_run_confirmation_from(
    state: ConfirmState,
    observations: Seq<PollObservation>,
    deadline_ms: u64,
) -> ConfirmState
    decreases observations.len(),
{
    if observations.len() == 0 || state.is_terminal() {
        state
    } else {
        spec_run_confirmation_from(
            spec_confirm_step(
                state,
                observations[0].response,
                observations[0].elapsed_ms > deadline_ms,
            ),
            observations.drop_first(),
            deadline_ms,
        )
    }
}

/// The outcome of a whole confirmation run that starts before anything has
/// been observed.
pub open spec fn spec_run_confirmation(
    observations: Seq<PollObservation>,
    deadline_ms: u64,
) -> ConfirmState {
    spec_run_confirmation_from(ConfirmState::Pending, observations, deadline_ms)
}

/// Replays a recorded sequence of poll observations through the state
/// machine: each response is classified against the deadline, and the first
/// terminal outcome stands whatever follows it.
pub fn run_confirmation(observations: Vec<PollObservation>, deadline_ms: u64) -> (r: ConfirmState)
    ensures
        r == spec_run_confirmation(observations@, deadline_ms),
{
    let ghost all = observations@;
    let mut obs = observations;
    let mut state = ConfirmState::Pending;
    while obs.len() > 0 && !state.terminal()
        invariant
            spec_run_confirmation(all, deadline_ms) == spec_run_confirmation_from(
                state,
                obs@,
                deadline_ms,
            ),
        decreases obs.len(),
    {
        let ghost prev = obs@;
        let o = obs.remove(0);
        proof {
            assert(obs@ =~= prev.drop_first());
        }
        state = confirm_step(state, o.response, o.elapsed_ms > deadline_ms);
    }
    state
}

// ---------------------------------------------------------------------------
// Laws of the confirmation machine
// ---------------------------------------------------------------------------

/// A transient condition seen while the deadline has not passed never ends
/// the run: the machine keeps polling.
pub proof fn lemma_transient_keeps_polling(
    state: ConfirmState,
    response: PollResponse,
)
    requires
        !state.is_terminal(),
        response is TransportError || response is NoExecutionInfo
            || response is NoExecutionResult,
    ensures
        !spec_confirm_step(state, response, false).is_terminal(),
{
}

/// A transient condition seen after the deadline resolves to a timeout, and
/// a transport error at that last attempt is carried in the outcome.
pub proof fn lemma_timeout_carries_last_error(state: ConfirmState, response: PollResponse)
    requires
        !state.is_terminal(),
    ensures
        response matches PollResponse::TransportError(e) ==> spec_confirm_step(state, response, true)
            == ConfirmState::TimedOut(Some(e)),
        response is NoExecutionInfo || response is NoExecutionResult ==> spec_confirm_step(
            state,
            response,
            true,
        ) == ConfirmState::TimedOut(None),
{
}

/// An authoritative failure response resolves the step immediately to the
/// reported failure, whether or not the deadline has passed.
pub proof fn lemma_authoritative_failure_is_immediate(
    state: ConfirmState,
    response: PollResponse,
    timed_out: bool,
)
    requires
        !state.is_terminal(),
    ensures
        response matches PollResponse::Failure(m) ==> spec_confirm_step(state, response, timed_out)
            == ConfirmState::Failure(m),
{
}

/// A terminal state stands: whatever is observed afterwards, the run's
/// outcome does not change, so nothing is ever retried past it.
pub proof fn lemma_terminal_absorbs(
    state: ConfirmState,
    observations: Seq<PollObservation>,
    deadline_ms: u64,
)
    requires
        state.is_terminal(),
    ensures
        spec_run_confirmation_from(state, observations, deadline_ms) == state,
{
}

/// Running over a sequence equals running over a prefix and then over the
/// remainder from wherever the prefix left off.
pub proof fn lemma_run_confirmation_split(
    state: ConfirmState,
    observations: Seq<PollObservation>,
    deadline_ms: u64,
    i: int,
)
    requires
        0 <= i <= observations.len(),
    ensures
        spec_run_confirmation_from(state, observations, deadline_ms)
            == spec_run_confirmation_from(
            spec_run_confirmation_from(state, observations.subrange(0, i), deadline_ms),
            observations.subrange(i, observations.len() as int),
            deadline_ms,
        ),
    decreases i,
{
    if i == 0 {
        assert(observations.subrange(0, observations.len() as int) =~= observations);
    } else if state.is_terminal() {
        lemma_terminal_absorbs(state, observations, deadline_ms);
        lemma_terminal_absorbs(state, observations.subrange(0, i), deadline_ms);
        lemma_terminal_absorbs(
            state,
            observations.subrange(i, observations.len() as int),
            deadline_ms,
        );
    } else {
        let stepped = spec_confirm_step(
            state,
            observations[0].response,
            observations[0].elapsed_ms > deadline_ms,
        );
        lemma_run_confirmation_split(stepped, observations.drop_first(), deadline_ms, i - 1);
        assert(observations.drop_first().subrange(0, i - 1) =~= observations.subrange(
            0,
            i,
        ).drop_first());
        assert(observations.drop_first().subrange(i - 1, observations.drop_first().len() as int)
            =~= observations.subrange(i, observations.len() as int));
    }
}

/// An authoritative failure observed at any point of a run that is still
/// polling resolves the whole run to that failure, whatever follows.
pub proof fn lemma_failure_resolves_run(
    observations: Seq<PollObservation>,
    deadline_ms: u64,
    i: int,
)
    requires
        0 <= i < observations.len(),
        !spec_run_confirmation(observations.subrange(0, i), deadline_ms).is_terminal(),
        observations[i].response is Failure,
    ensures
        spec_run_confirmation(observations, deadline_ms) == ConfirmState::Failure(
            observations[i].response->Failure_0,
        ),
{
    let before = spec_run_confirmation(observations.subrange(0, i), deadline_ms);
    lemma_run_confirmation_split(ConfirmState::Pending, observations, deadline_ms, i);
    let tail = observations.subrange(i, observations.len() as int);
    assert(tail[0] == observations[i]);
    lemma_authoritative_failure_is_immediate(
        before,
        observations[i].response,
        observations[i].elapsed_ms > deadline_ms,
    );
    lemma_terminal_absorbs(
        ConfirmState::Failure(observations[i].response->Failure_0),
        tail.drop_first(),
        deadline_ms,
    );
}

// ---------------------------------------------------------------------------
// Backoff
// ---------------------------------------------------------------------------

/// The first backoff interval, in milliseconds.
pub const INITIAL_BACKOFF_INTERVAL_MS: u64 = 500;

/// The largest backoff interval ever used, in milliseconds.
pub const MAX_BACKOFF_INTERVAL_MS: u64 = 60_000;

/// The interval the exponential curve uses for the given attempt: half again
/// as long as the one before, starting at the initial interval and capped at
/// the maximum.
pub open spec fn spec_backoff_interval(attempt: nat) -> int
    decreases attempt,
{
    if attempt == 0 {
        INITIAL_BACKOFF_INTERVAL_MS as int
    } else {
        let prev = spec_backoff_interval((attempt - 1) as nat);
        if prev + prev / 2 > MAX_BACKOFF_INTERVAL_MS as int {
            MAX_BACKOFF_INTERVAL_MS as int
        } else {
            prev + prev / 2
        }
    }
}

proof fn lemma_backoff_interval_bounds(attempt: nat)
    ensures
        INITIAL_BACKOFF_INTERVAL_MS as int <= spec_backoff_interval(attempt)
            <= MAX_BACKOFF_INTERVAL_MS as int,
    decreases attempt,
{
    if attempt > 0 {
        lemma_backoff_interval_bounds((attempt - 1) as nat);
    }
}

/// The undelayed backoff interval for one attempt, counted from zero.
pub fn backoff_interval(attempt: u32) -> (r: u64)
    ensures
        r == spec_backoff_interval(attempt as nat),
        INITIAL_BACKOFF_INTERVAL_MS <= r <= MAX_BACKOFF_INTERVAL_MS,
{
    let mut current: u64 = INITIAL_BACKOFF_INTERVAL_MS;
    let mut i: u32 = 0;
    proof {
        lemma_backoff_interval_bounds(attempt as nat);
    }
    while i < attempt
        invariant
            0 <= i <= attempt,
            current == spec_backoff_interval(i as nat),
            INITIAL_BACKOFF_INTERVAL_MS <= current <= MAX_BACKOFF_INTERVAL_MS,
        decreases attempt - i,
    {
        proof {
            lemma_backoff_interval_bounds((i + 1) as nat);
        }
        let grown: u64 = current + current / 2;
        if grown > MAX_BACKOFF_INTERVAL_MS {
            current = MAX_BACKOFF_INTERVAL_MS;
        } else {
            current = grown;
        }
        i = i + 1;
    }
    current
}

/// The randomized pause before the next poll: uniformly within half the
/// interval either side of it, selected by the caller's jitter value. Any
/// jitter value is acceptable; the result always stays within those bounds.
pub fn backoff_delay(attempt: u32, jitter: u64) -> (r: u64)
    ensures
        ({
            let interval = spec_backoff_interval(attempt as nat);
            &&& r == interval - interval / 2 + jitter as int % (interval + 1)
            &&& interval - interval / 2 <= r <= interval - interval / 2 + interval
        }),
{
    let interval = backoff_interval(attempt);
    interval - interval / 2 + jitter % (interval + 1)
}

// ---------------------------------------------------------------------------
// Resolving the deployed contract's address
// ---------------------------------------------------------------------------

/// The shape of the stored value found under the contract's named key, as
/// far as address resolution reads it: either package form carries the
/// addresses of its versions in listed order; anything else is unexpected.
#[derive(Debug, Clone, PartialEq, Eq)]
pub enum StoredValueShape {
    /// A package stored value: one address per version, in listed order.
    Package(Vec<Vec<u8>>),
    /// A legacy contract-package stored value, shaped alike.
    ContractPackage(Vec<Vec<u8>>),
    /// Any other stored-value shape.
    Other,
}

/// Why address resolution failed.
#[derive(Debug, PartialEq, Eq, Clone, Copy, Structural)]
pub enum ResolveError {
    /// The package lists no version at all.
    NoVersions,
    /// The stored value is neither package shape.
    UnexpectedStoredValue,
}

/// Resolves the deployed contract's address from the stored value under its
/// named key: the first listed version's address, under either package
/// shape; no version, or any other shape, is a fatal mapping error.
pub fn resolve_contract_hash(shape: StoredValueShape) -> (r: Result<Vec<u8>, ResolveError>)
    ensures
        (match shape {
            StoredValueShape::Package(versions) => if versions@.len() == 0 {
                r == Err::<Vec<u8>, _>(ResolveError::NoVersions)
            } else {
                r matches Ok(h) && h@ == versions@[0]@
            },
            StoredValueShape::ContractPackage(versions) => if versions@.len() == 0 {
                r == Err::<Vec<u8>, _>(ResolveError::NoVersions)
            } else {
                r matches Ok(h) && h@ == versions@[0]@
            },
            StoredValueShape::Other => r == Err::<Vec<u8>, _>(
                ResolveError::UnexpectedStoredValue,
            ),
        }),
{
    match shape {
        StoredValueShape::Package(mut versions) => {
            if versions.len() == 0 {
                Err(ResolveError::NoVersions)
            } else {
                Ok(versions.remove(0))
            }
        },
        StoredValueShape::ContractPackage(mut versions) => {
            if versions.len() == 0 {
                Err(ResolveError::NoVersions)
            } else {
                Ok(versions.remove(0))
            }
        },
        StoredValueShape::Other => Err(ResolveError::UnexpectedStoredValue),
    }
}

// ---------------------------------------------------------------------------
// The persisted contract-hash text
// ---------------------------------------------------------------------------

pub open spec fn is_hex_digit_byte(b: u8) -> bool {
    ('0' as u8 <= b && b <= '9' as u8) || ('a' as u8 <= b && b <= 'f' as u8) || ('A' as u8 <= b
        && b <= 'F' as u8)
}

/// The value of one hexadecimal digit; meaningful only for hex digits.
pub open spec fn spec_hex_val(b: u8) -> int {
    if '0' as u8 <= b && b <= '9' as u8 {
        b - '0' as u8
    } else if 'a' as u8 <= b && b <= 'f' as u8 {
        b - 'a' as u8 + 10
    } else if 'A' as u8 <= b && b <= 'F' as u8 {
        b - 'A' as u8 + 10
    } else {
        0
    }
}

/// Why the persisted contract-hash text did not decode.
#[derive(Debug, PartialEq, Eq, Clone, Copy, Structural)]
pub enum HexDecodeError {
    /// The text does not hold exactly 64 hexadecimal digits' worth of bytes.
    InvalidLength,
    /// The byte at this position is not a hexadecimal digit; everything
    /// before it is.
    InvalidCharacter(usize),
}

fn hex_val_b(b: u8) -> (r: Option<u8>)
    ensures
        r matches Some(v) ==> is_hex_digit_byte(b) && v == spec_hex_val(b) && v <= 15,
        r is None ==> !is_hex_digit_byte(b),
{
    if '0' as u8 <= b && b <= '9' as u8 {
        Some(b - '0' as u8)
    } else if 'a' as u8 <= b && b <= 'f' as u8 {
        Some(b - 'a' as u8 + 10)
    } else if 'A' as u8 <= b && b <= 'F' as u8 {
        Some(b - 'A' as u8 + 10)
    } else {
        None
    }
}

/// Decodes the persisted contract-hash text back into the 32 address bytes:
/// exactly 64 hexadecimal digits, two per byte, upper or lower case. The
/// errors say exactly what was wrong: a text of the wrong length, or
/// otherwise the position of the first byte that is no hexadecimal digit.
pub fn decode_contract_hash_hex(text: &[u8]) -> (r: Result<Vec<u8>, HexDecodeError>)
    ensures
        (match r {
            Ok(bytes) => {
                &&& text@.len() == 64
                &&& forall|i: int| 0 <= i < 64 ==> is_hex_digit_byte(text@[i])
                &&& bytes@.len() == 32
                &&& forall|i: int|
                    0 <= i < 32 ==> bytes@[i] as int == 16 * spec_hex_val(text@[2 * i])
                        + spec_hex_val(text@[2 * i + 1])
            },
            Err(HexDecodeError::InvalidLength) => text@.len() != 64,
            Err(HexDecodeError::InvalidCharacter(i)) => {
                &&& text@.len() == 64
                &&& i < 64
                &&& !is_hex_digit_byte(text@[i as int])
                &&& forall|j: int| 0 <= j < i ==> is_hex_digit_byte(text@[j])
            },
        }),
{
    if text.len() != 64 {
        return Err(HexDecodeError::InvalidLength);
    }
    let mut bytes: Vec<u8> = Vec::new();
    let mut i: usize = 0;
    while i < 32
        invariant
            0 <= i <= 32,
            text@.len() == 64,
            bytes@.len() == i,
            forall|j: int| 0 <= j < 2 * i ==> is_hex_digit_byte(text@[j]),
            forall|j: int|
                0 <= j < i ==> bytes@[j] as int == 16 * spec_hex_val(text@[2 * j]) + spec_hex_val(
                    text@[2 * j + 1],
                ),
        decreases 32 - i,
    {
        let hi = match hex_val_b(text[2 * i]) {
            None => {
                return Err(HexDecodeError::InvalidCharacter(2 * i));
            },
            Some(v) => v,
        };
        let lo = match hex_val_b(text[2 * i + 1]) {
            None => {
                return Err(HexDecodeError::InvalidCharacter(2 * i + 1));
            },
            Some(v) => v,
        };
        bytes.push(16 * hi + lo);
        i = i + 1;
    }
    Ok(bytes)
}

} // verus!
