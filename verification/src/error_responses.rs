//! The contract's error codes and one predicate per code.

use vstd::prelude::*;

verus! {

/// Every error the SLA calculator contract can report.
#[derive(Clone, Copy, Debug, PartialEq, Eq, Structural)]
pub enum SLAError {
    AlreadyInitialized,
    NotInitialized,
    Unauthorized,
    ConfigNotFound,
    VersionMismatch,
    ContractPaused,
    NoPendingTransfer,
    InvalidThreshold,
    InvalidPenalty,
    InvalidReward,
    InvalidSeverity,
    RetentionLimitOutOfRange,
    DuplicateOutageInput,
    InvalidPenaltyAmount,
    InvalidRewardAmount,
    ConfigFrozen,
    InvalidInput,
}

/// Whether `err` is `SLAError::AlreadyInitialized`.
pub fn is_already_initialized(err: &SLAError) -> (r: bool)
    ensures
        r == (*err is AlreadyInitialized),
{
    matches!(err, SLAError::AlreadyInitialized)
}

/// Whether `err` is `SLAError::NotInitialized`.
pub fn is_not_initialized(err: &SLAError) -> (r: bool)
    ensures
        r == (*err is NotInitialized),
{
    matches!(err, SLAError::NotInitialized)
}

/// Whether `err` is `SLAError::Unauthorized`.
pub fn is_unauthorized(err: &SLAError) -> (r: bool)
    ensures
        r == (*err is Unauthorized),
{
    matches!(err, SLAError::Unauthorized)
}

/// Whether `err` is `SLAError::ConfigNotFound`.
pub fn is_config_not_found(err: &SLAError) -> (r: bool)
    ensures
        r == (*err is ConfigNotFound),
{
    matches!(err, SLAError::ConfigNotFound)
}

/// Whether `err` is `SLAError::VersionMismatch`.
pub fn is_version_mismatch(err: &SLAError) -> (r: bool)
    ensures
        r == (*err is VersionMismatch),
{
    matches!(err, SLAError::VersionMismatch)
}

/// Whether `err` is `SLAError::ContractPaused`.
pub fn is_contract_paused(err: &SLAError) -> (r: bool)
    ensures
        r == (*err is ContractPaused),
{
    matches!(err, SLAError::ContractPaused)
}

/// Whether `err` is `SLAError::NoPendingTransfer`.
pub fn is_no_pending_transfer(err: &SLAError) -> (r: bool)
    ensures
        r == (*err is NoPendingTransfer),
{
    matches!(err, SLAError::NoPendingTransfer)
}

/// Whether `err` is `SLAError::InvalidThreshold`.
pub fn is_invalid_threshold(err: &SLAError) -> (r: bool)
    ensures
        r == (*err is InvalidThreshold),
{
    matches!(err, SLAError::InvalidThreshold)
}

/// Whether `err` is `SLAError::InvalidPenalty`.
pub fn is_invalid_penalty(err: &SLAError) -> (r: bool)
    ensures
        r == (*err is InvalidPenalty),
{
    matches!(err, SLAError::InvalidPenalty)
}

/// Whether `err` is `SLAError::InvalidReward`.
pub fn is_invalid_reward(err: &SLAError) -> (r: bool)
    ensures
        r == (*err is InvalidReward),
{
    matches!(err, SLAError::InvalidReward)
}

/// Whether `err` is `SLAError::InvalidSeverity`.
pub fn is_invalid_severity(err: &SLAError) -> (r: bool)
    ensures
        r == (*err is InvalidSeverity),
{
    matches!(err, SLAError::InvalidSeverity)
}

/// Whether `err` is `SLAError::RetentionLimitOutOfRange`.
pub fn is_retention_limit_out_of_range(err: &SLAError) -> (r: bool)
    ensures
        r == (*err is RetentionLimitOutOfRange),
{
    matches!(err, SLAError::RetentionLimitOutOfRange)
}

/// Whether `err` is `SLAError::DuplicateOutageInput`.
pub fn is_duplicate_outage_input(err: &SLAError) -> (r: bool)
    ensures
        r == (*err is DuplicateOutageInput),
{
    matches!(err, SLAError::DuplicateOutageInput)
}

/// Whether `err` is `SLAError::InvalidPenaltyAmount`.
pub fn is_invalid_penalty_amount(err: &SLAError) -> (r: bool)
    ensures
        r == (*err is InvalidPenaltyAmount),
{
    matches!(err, SLAError::InvalidPenaltyAmount)
}

/// Whether `err` is `SLAError::InvalidRewardAmount`.
pub fn is_invalid_reward_amount(err: &SLAError) -> (r: bool)
    ensures
        r == (*err is InvalidRewardAmount),
{
    matches!(err, SLAError::InvalidRewardAmount)
}

/// Whether `err` is `SLAError::ConfigFrozen`.
pub fn is_config_frozen(err: &SLAError) -> (r: bool)
    ensures
        r == (*err is ConfigFrozen),
{
    matches!(err, SLAError::ConfigFrozen)
}

/// Whether `err` is `SLAError::InvalidInput`.
pub fn is_invalid_input(err: &SLAError) -> (r: bool)
    ensures
        r == (*err is InvalidInput),
{
    matches!(err, SLAError::InvalidInput)
}

/// How many of the error predicates hold of `err`.
pub open spec fn matching_predicates(err: SLAError) -> int {
    (if err is AlreadyInitialized { 1int } else { 0int })
        + (if err is NotInitialized { 1int } else { 0int })
        + (if err is Unauthorized { 1int } else { 0int })
        + (if err is ConfigNotFound { 1int } else { 0int })
        + (if err is VersionMismatch { 1int } else { 0int })
        + (if err is ContractPaused { 1int } else { 0int })
        + (if err is NoPendingTransfer { 1int } else { 0int })
        + (if err is InvalidThreshold { 1int } else { 0int })
        + (if err is InvalidPenalty { 1int } else { 0int })
        + (if err is InvalidReward { 1int } else { 0int })
        + (if err is InvalidSeverity { 1int } else { 0int })
        + (if err is RetentionLimitOutOfRange { 1int } else { 0int })
        + (if err is DuplicateOutageInput { 1int } else { 0int })
        + (if err is InvalidPenaltyAmount { 1int } else { 0int })
        + (if err is InvalidRewardAmount { 1int } else { 0int })
        + (if err is ConfigFrozen { 1int } else { 0int })
        + (if err is InvalidInput { 1int } else { 0int })
}

/// Law: the error predicates classify every error exactly once: for each
/// `SLAError` value precisely one of the `is_*` predicates answers `true`.
pub proof fn law_error_predicates_partition(err: SLAError)
    ensures
        matching_predicates(err) == 1,
{
}

} // verus!
