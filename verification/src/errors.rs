//! What can be wrong with a request, and how the errors of one request become those of another.
use vstd::prelude::*;
use vstd::std_specs::convert::FromSpecImpl;

verus! {

/// An action on a stake was refused.
#[derive(Debug, PartialEq, Eq)]
pub enum StakeActionError<ErrorType> {
    /// There is no stake with the given identifier.
    StakeNotFound,
    /// The stake exists, and refused the action.
    Error(ErrorType),
}

/// Funds could not be moved from an account into the stake pool.
#[derive(Debug, Clone, Copy, PartialEq, Eq)]
pub enum TransferFromAccountError {
    InsufficientBalance,
}

/// Staking was refused.
#[derive(Debug, Clone, Copy, PartialEq, Eq)]
pub enum StakingError {
    CannotStakeZero,
    CannotStakeLessThanMinimumBalance,
    AlreadyStaked,
}

/// Staking the funds of an account was refused.
#[derive(Debug, Clone, Copy, PartialEq, Eq)]
pub enum StakingFromAccountError {
    StakingError(StakingError),
    InsufficientBalanceInSourceAccount,
}

/// Increasing a stake was refused.
#[derive(Debug, Clone, Copy, PartialEq, Eq)]
pub enum IncreasingStakeError {
    NotStaked,
    CannotChangeStakeByZero,
    CannotIncreaseStakeWhileUnstaking,
}

/// Increasing a stake by the funds of an account was refused.
#[derive(Debug, Clone, Copy, PartialEq, Eq)]
pub enum IncreasingStakeFromAccountError {
    IncreasingStakeError(IncreasingStakeError),
    InsufficientBalanceInSourceAccount,
}

/// Decreasing a stake was refused.
#[derive(Debug, Clone, Copy, PartialEq, Eq)]
pub enum DecreasingStakeError {
    NotStaked,
    CannotChangeStakeByZero,
    CannotDecreaseStakeWhileUnstaking,
    CannotDecreaseStakeWhileOngoingSlahes,
    InsufficientStake,
}

/// Initiating a slash was refused.
#[derive(Debug, Clone, Copy, PartialEq, Eq)]
pub enum InitiateSlashingError {
    NotStaked,
    SlashPeriodShouldBeGreaterThanZero,
    SlashAmountShouldBeGreaterThanZero,
}

/// Pausing a slash was refused.
#[derive(Debug, Clone, Copy, PartialEq, Eq)]
pub enum PauseSlashingError {
    NotStaked,
    SlashNotFound,
    AlreadyPaused,
}

/// Resuming a slash was refused.
#[derive(Debug, Clone, Copy, PartialEq, Eq)]
pub enum ResumeSlashingError {
    NotStaked,
    SlashNotFound,
    NotPaused,
}

/// Cancelling a slash was refused.
#[derive(Debug, Clone, Copy, PartialEq, Eq)]
pub enum CancelSlashingError {
    NotStaked,
    SlashNotFound,
}

/// Unstaking was refused.
#[derive(Debug, Clone, Copy, PartialEq, Eq)]
pub enum UnstakingError {
    NotStaked,
    AlreadyUnstaking,
    CannotUnstakeWhileSlashesOngoing,
}

/// Initiating an unstaking was refused.
#[derive(Debug, Clone, Copy, PartialEq, Eq)]
pub enum InitiateUnstakingError {
    UnstakingError(UnstakingError),
    UnstakingPeriodShouldBeGreaterThanZero,
}

/// Pausing an unstaking was refused.
#[derive(Debug, Clone, Copy, PartialEq, Eq)]
pub enum PauseUnstakingError {
    NotStaked,
    NotUnstaking,
    AlreadyPaused,
}

/// Resuming an unstaking was refused.
#[derive(Debug, Clone, Copy, PartialEq, Eq)]
pub enum ResumeUnstakingError {
    NotStaked,
    NotUnstaking,
    NotPaused,
}

/// What a stake refuses, the action on that stake is refused for.
impl<ErrorType> From<ErrorType> for StakeActionError<ErrorType> {
    fn from(error: ErrorType) -> (r: Self) {
        StakeActionError::Error(error)
    }
}

impl<ErrorType> FromSpecImpl<ErrorType> for StakeActionError<ErrorType> {
    open spec fn obeys_from_spec() -> bool {
        true
    }

    open spec fn from_spec(error: ErrorType) -> Self {
        StakeActionError::Error(error)
    }
}

impl From<StakingError> for StakeActionError<StakingFromAccountError> {
    fn from(error: StakingError) -> (r: Self) {
        StakeActionError::Error(StakingFromAccountError::StakingError(error))
    }
}

impl FromSpecImpl<StakingError> for StakeActionError<StakingFromAccountError> {
    open spec fn obeys_from_spec() -> bool {
        true
    }

    open spec fn from_spec(error: StakingError) -> Self {
        StakeActionError::Error(StakingFromAccountError::StakingError(error))
    }
}

impl From<TransferFromAccountError> for StakeActionError<StakingFromAccountError> {
    fn from(error: TransferFromAccountError) -> (r: Self) {
        match error {
            TransferFromAccountError::InsufficientBalance => StakeActionError::Error(
                StakingFromAccountError::InsufficientBalanceInSourceAccount,
            ),
        }
    }
}

impl FromSpecImpl<TransferFromAccountError> for StakeActionError<StakingFromAccountError> {
    open spec fn obeys_from_spec() -> bool {
        true
    }

    open spec fn from_spec(error: TransferFromAccountError) -> Self {
        StakeActionError::Error(StakingFromAccountError::InsufficientBalanceInSourceAccount)
    }
}

impl From<IncreasingStakeError> for StakeActionError<IncreasingStakeFromAccountError> {
    fn from(error: IncreasingStakeError) -> (r: Self) {
        StakeActionError::Error(IncreasingStakeFromAccountError::IncreasingStakeError(error))
    }
}

impl FromSpecImpl<IncreasingStakeError> for StakeActionError<IncreasingStakeFromAccountError> {
    open spec fn obeys_from_spec() -> bool {
        true
    }

    open spec fn from_spec(error: IncreasingStakeError) -> Self {
        StakeActionError::Error(IncreasingStakeFromAccountError::IncreasingStakeError(error))
    }
}

impl From<TransferFromAccountError> for StakeActionError<IncreasingStakeFromAccountError> {
    fn from(error: TransferFromAccountError) -> (r: Self) {
        match error {
            TransferFromAccountError::InsufficientBalance => StakeActionError::Error(
                IncreasingStakeFromAccountError::InsufficientBalanceInSourceAccount,
            ),
        }
    }
}

impl FromSpecImpl<TransferFromAccountError> for StakeActionError<IncreasingStakeFromAccountError> {
    open spec fn obeys_from_spec() -> bool {
        true
    }

    open spec fn from_spec(error: TransferFromAccountError) -> Self {
        StakeActionError::Error(
            IncreasingStakeFromAccountError::InsufficientBalanceInSourceAccount,
        )
    }
}

impl From<UnstakingError> for StakeActionError<InitiateUnstakingError> {
    fn from(error: UnstakingError) -> (r: Self) {
        StakeActionError::Error(InitiateUnstakingError::UnstakingError(error))
    }
}

impl FromSpecImpl<UnstakingError> for StakeActionError<InitiateUnstakingError> {
    open spec fn obeys_from_spec() -> bool {
        true
    }

    open spec fn from_spec(error: UnstakingError) -> Self {
        StakeActionError::Error(InitiateUnstakingError::UnstakingError(error))
    }
}

} // verus!
