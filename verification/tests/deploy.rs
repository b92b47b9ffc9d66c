use cctl::deploy::backoff_delay;
use cctl::deploy::backoff_interval;
use cctl::deploy::confirm_step;
use cctl::deploy::decode_contract_hash_hex;
use cctl::deploy::resolve_contract_hash;
use cctl::deploy::run_confirmation;
use cctl::deploy::ConfirmState;
use cctl::deploy::HexDecodeError;
use cctl::deploy::PollObservation;
use cctl::deploy::PollResponse;
use cctl::deploy::ResolveError;
use cctl::deploy::StoredValueShape;
use cctl::deploy::CONTRACT_INIT_DEADLINE_MS;

fn obs(elapsed_ms: u64, response: PollResponse) -> PollObservation {
    PollObservation { elapsed_ms, response }
}

#[test]
fn two_transient_responses_then_success_confirms() {
    let observations = vec![
        obs(1_000, PollResponse::NoExecutionResult),
        obs(5_000, PollResponse::NoExecutionResult),
        obs(9_000, PollResponse::Success),
    ];
    let outcome = run_confirmation(observations, CONTRACT_INIT_DEADLINE_MS);
    assert_eq!(ConfirmState::Success, outcome);
}

#[test]
fn only_transient_responses_past_deadline_time_out_with_last_error() {
    let observations = vec![
        obs(1_000, PollResponse::NoExecutionInfo),
        obs(30_000, PollResponse::TransportError("connection refused".to_string())),
        obs(70_000, PollResponse::TransportError("connection reset".to_string())),
    ];
    let outcome = run_confirmation(observations, CONTRACT_INIT_DEADLINE_MS);
    assert_eq!(
        ConfirmState::TimedOut(Some("connection reset".to_string())),
        outcome
    );
}

#[test]
fn no_result_past_deadline_times_out_without_transport_error() {
    let observations = vec![
        obs(1_000, PollResponse::NoExecutionInfo),
        obs(70_000, PollResponse::NoExecutionResult),
    ];
    let outcome = run_confirmation(observations, CONTRACT_INIT_DEADLINE_MS);
    assert_eq!(ConfirmState::TimedOut(None), outcome);
}

#[test]
fn authoritative_failure_on_first_poll_is_immediate() {
    let observations = vec![
        obs(100, PollResponse::Failure("User error: 1".to_string())),
        obs(200, PollResponse::Success),
    ];
    let outcome = run_confirmation(observations, CONTRACT_INIT_DEADLINE_MS);
    assert_eq!(ConfirmState::Failure("User error: 1".to_string()), outcome);
}

#[test]
fn authoritative_failure_is_never_retried_even_before_deadline() {
    let state = confirm_step(
        ConfirmState::ObservedNoResult,
        PollResponse::Failure("out of gas".to_string()),
        false,
    );
    assert_eq!(ConfirmState::Failure("out of gas".to_string()), state);
    let after = confirm_step(state, PollResponse::Success, false);
    assert_eq!(ConfirmState::Failure("out of gas".to_string()), after);
}

#[test]
fn success_after_deadline_still_confirms() {
    let observations = vec![
        obs(1_000, PollResponse::NoExecutionResult),
        obs(70_000, PollResponse::Success),
    ];
    let outcome = run_confirmation(observations, CONTRACT_INIT_DEADLINE_MS);
    assert_eq!(ConfirmState::Success, outcome);
}

#[test]
fn query_error_fails_immediately() {
    let observations = vec![obs(
        500,
        PollResponse::QueryError("invalid params".to_string()),
    )];
    let outcome = run_confirmation(observations, CONTRACT_INIT_DEADLINE_MS);
    assert_eq!(ConfirmState::Failure("invalid params".to_string()), outcome);
}

#[test]
fn exhausted_observations_leave_polling_unresolved() {
    let observations = vec![
        obs(1_000, PollResponse::NoExecutionInfo),
        obs(2_000, PollResponse::NoExecutionResult),
    ];
    let outcome = run_confirmation(observations, CONTRACT_INIT_DEADLINE_MS);
    assert_eq!(ConfirmState::ObservedNoResult, outcome);
}

#[test]
fn backoff_intervals_grow_and_cap() {
    assert_eq!(500, backoff_interval(0));
    assert_eq!(750, backoff_interval(1));
    assert_eq!(1125, backoff_interval(2));
    assert_eq!(1687, backoff_interval(3));
    assert_eq!(60_000, backoff_interval(100));
}

#[test]
fn backoff_delay_stays_within_half_interval_either_side() {
    assert_eq!(250, backoff_delay(0, 0));
    assert_eq!(750, backoff_delay(0, 500));
    assert_eq!(250, backoff_delay(0, 501));
    for jitter in [0u64, 1, 17, 499, 500, 501, 12_345, u64::MAX] {
        let delay = backoff_delay(0, jitter);
        assert!((250..=750).contains(&delay));
    }
}

#[test]
fn resolve_takes_first_version_of_package() {
    let shape = StoredValueShape::Package(vec![vec![1u8; 32], vec![2u8; 32]]);
    assert_eq!(Ok(vec![1u8; 32]), resolve_contract_hash(shape));
}

#[test]
fn resolve_takes_first_version_of_legacy_package() {
    let shape = StoredValueShape::ContractPackage(vec![vec![9u8; 32]]);
    assert_eq!(Ok(vec![9u8; 32]), resolve_contract_hash(shape));
}

#[test]
fn resolve_fails_without_versions() {
    assert_eq!(
        Err(ResolveError::NoVersions),
        resolve_contract_hash(StoredValueShape::Package(vec![]))
    );
    assert_eq!(
        Err(ResolveError::NoVersions),
        resolve_contract_hash(StoredValueShape::ContractPackage(vec![]))
    );
}

#[test]
fn resolve_fails_on_unexpected_shape() {
    assert_eq!(
        Err(ResolveError::UnexpectedStoredValue),
        resolve_contract_hash(StoredValueShape::Other)
    );
}

#[test]
fn contract_hash_hex_round_trips_against_hex_crate() {
    let bytes: Vec<u8> = (0u8..32).map(|i| i.wrapping_mul(7).wrapping_add(3)).collect();
    let text = hex::encode(&bytes);
    let decoded = decode_contract_hash_hex(text.as_bytes()).unwrap();
    assert_eq!(bytes, decoded);
    let upper = text.to_uppercase();
    let decoded_upper = decode_contract_hash_hex(upper.as_bytes()).unwrap();
    assert_eq!(bytes, decoded_upper);
}

#[test]
fn contract_hash_hex_rejects_wrong_length() {
    assert_eq!(
        Err(HexDecodeError::InvalidLength),
        decode_contract_hash_hex(b"abcd")
    );
    assert_eq!(Err(HexDecodeError::InvalidLength), decode_contract_hash_hex(b""));
}

#[test]
fn contract_hash_hex_rejects_bad_character() {
    let mut text = "a".repeat(64);
    text.replace_range(10..11, "g");
    assert_eq!(
        Err(HexDecodeError::InvalidCharacter(10)),
        decode_contract_hash_hex(text.as_bytes())
    );
    let mut text = "0".repeat(64);
    text.replace_range(11..12, " ");
    assert_eq!(
        Err(HexDecodeError::InvalidCharacter(11)),
        decode_contract_hash_hex(text.as_bytes())
    );
}

#[test]
fn verbosity_follows_log_level() {
    assert_eq!(cctl::RpcVerbosity::High, cctl::casper_client_verbosity(true, true));
    assert_eq!(cctl::RpcVerbosity::High, cctl::casper_client_verbosity(true, false));
    assert_eq!(cctl::RpcVerbosity::Medium, cctl::casper_client_verbosity(false, true));
    assert_eq!(cctl::RpcVerbosity::Low, cctl::casper_client_verbosity(false, false));
}
