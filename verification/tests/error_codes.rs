use apexchainx_calculator::error_responses::{
    is_already_initialized, is_config_frozen, is_config_not_found, is_contract_paused,
    is_duplicate_outage_input, is_invalid_input, is_invalid_penalty, is_invalid_penalty_amount,
    is_invalid_reward, is_invalid_reward_amount, is_invalid_severity, is_invalid_threshold,
    is_no_pending_transfer, is_not_initialized, is_retention_limit_out_of_range,
    is_unauthorized, is_version_mismatch, SLAError,
};

fn all_errors() -> Vec<SLAError> {
    vec![
        SLAError::AlreadyInitialized,
        SLAError::NotInitialized,
        SLAError::Unauthorized,
        SLAError::ConfigNotFound,
        SLAError::VersionMismatch,
        SLAError::ContractPaused,
        SLAError::NoPendingTransfer,
        SLAError::InvalidThreshold,
        SLAError::InvalidPenalty,
        SLAError::InvalidReward,
        SLAError::InvalidSeverity,
        SLAError::RetentionLimitOutOfRange,
        SLAError::DuplicateOutageInput,
        SLAError::InvalidPenaltyAmount,
        SLAError::InvalidRewardAmount,
        SLAError::ConfigFrozen,
        SLAError::InvalidInput,
    ]
}

fn answers(err: &SLAError) -> Vec<bool> {
    vec![
        is_already_initialized(err),
        is_not_initialized(err),
        is_unauthorized(err),
        is_config_not_found(err),
        is_version_mismatch(err),
        is_contract_paused(err),
        is_no_pending_transfer(err),
        is_invalid_threshold(err),
        is_invalid_penalty(err),
        is_invalid_reward(err),
        is_invalid_severity(err),
        is_retention_limit_out_of_range(err),
        is_duplicate_outage_input(err),
        is_invalid_penalty_amount(err),
        is_invalid_reward_amount(err),
        is_config_frozen(err),
        is_invalid_input(err),
    ]
}

#[test]
fn each_predicate_recognises_exactly_its_error() {
    let errors = all_errors();
    for (i, err) in errors.iter().enumerate() {
        let got = answers(err);
        for (j, answer) in got.iter().enumerate() {
            assert_eq!(*answer, i == j, "predicate {} on error {:?}", j, err);
        }
    }
}

#[test]
fn exactly_one_predicate_holds_for_every_error() {
    for err in all_errors() {
        let count = answers(&err).into_iter().filter(|a| *a).count();
        assert_eq!(count, 1);
    }
}

#[test]
fn predicates_on_sample_errors() {
    assert!(is_unauthorized(&SLAError::Unauthorized));
    assert!(!is_unauthorized(&SLAError::ContractPaused));
    assert!(is_config_frozen(&SLAError::ConfigFrozen));
    assert!(!is_invalid_penalty(&SLAError::InvalidPenaltyAmount));
    assert!(is_invalid_penalty_amount(&SLAError::InvalidPenaltyAmount));
    assert!(!is_invalid_reward_amount(&SLAError::InvalidReward));
}
