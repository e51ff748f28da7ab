use vstd::prelude::*;

verus! {

/// Errors returned by the alert registry.
#[derive(Clone, Copy, Debug, PartialEq, Eq, Structural)]
pub enum ContractError {
    Unauthorized,
    AlertNotFound,
    AlreadyInitialized,
    NotInitialized,
    /// A watcher registry is configured and the querier is not a registered watcher.
    NotAWatcher,
    InvalidWebhookHash,
    LabelTooLong,
    TooManyRules,
    InvalidRuleDescriptor,
    OwnerAlertLimitExceeded,
    DuplicateAlertId,
    /// No webhook rotation is in progress.
    NoPendingWebhook,
    /// The global alert-count ceiling has been reached.
    GlobalAlertLimitExceeded,
    /// The target contract is at its per-contract alert limit.
    ContractAlertLimitExceeded,
    /// The configured address does not answer the watcher-registry interface.
    InvalidWatcherRegistry,
    /// A state-mutating call was made while the registry is paused.
    Paused,
    /// The same rule descriptor appears more than once.
    DuplicateRule,
}

impl ContractError {
    /// The numeric code the error carries on chain.
    pub open spec fn spec_code(&self) -> u32 {
        match self {
            ContractError::Unauthorized => 1,
            ContractError::AlertNotFound => 2,
            ContractError::AlreadyInitialized => 3,
            ContractError::NotInitialized => 4,
            ContractError::NotAWatcher => 5,
            ContractError::InvalidWebhookHash => 6,
            ContractError::LabelTooLong => 7,
            ContractError::TooManyRules => 8,
            ContractError::InvalidRuleDescriptor => 9,
            ContractError::OwnerAlertLimitExceeded => 10,
            ContractError::DuplicateAlertId => 11,
            ContractError::NoPendingWebhook => 12,
            ContractError::GlobalAlertLimitExceeded => 13,
            ContractError::ContractAlertLimitExceeded => 14,
            ContractError::InvalidWatcherRegistry => 16,
            ContractError::Paused => 17,
            ContractError::DuplicateRule => 15,
        }
    }

    /// The numeric code the error carries on chain.
    #[verifier::when_used_as_spec(spec_code)]
    pub fn code(&self) -> (c: u32)
        ensures
            c == self.spec_code(),
    {
        match self {
            ContractError::Unauthorized => 1,
            ContractError::AlertNotFound => 2,
            ContractError::AlreadyInitialized => 3,
            ContractError::NotInitialized => 4,
            ContractError::NotAWatcher => 5,
            ContractError::InvalidWebhookHash => 6,
            ContractError::LabelTooLong => 7,
            ContractError::TooManyRules => 8,
            ContractError::InvalidRuleDescriptor => 9,
            ContractError::OwnerAlertLimitExceeded => 10,
            ContractError::DuplicateAlertId => 11,
            ContractError::NoPendingWebhook => 12,
            ContractError::GlobalAlertLimitExceeded => 13,
            ContractError::ContractAlertLimitExceeded => 14,
            ContractError::InvalidWatcherRegistry => 16,
            ContractError::Paused => 17,
            ContractError::DuplicateRule => 15,
        }
    }
}

} // verus!
