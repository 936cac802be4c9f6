//! All stakes together, over the natural numbers: what each request does to them.
use crate::errors::{
    CancelSlashingError, DecreasingStakeError, IncreasingStakeError,
    IncreasingStakeFromAccountError, InitiateSlashingError, InitiateUnstakingError,
    PauseSlashingError, PauseUnstakingError, ResumeSlashingError, ResumeUnstakingError,
    StakeActionError, StakingError, StakingFromAccountError,
};
use crate::ordered::in_order;
use crate::pool::PoolAction;
use crate::stake::{StakeView, StakingStatusView};
use vstd::prelude::*;

verus! {

/// All stakes, by their identifiers, and the number of stakes that were ever created.
#[verifier::ext_equal]
pub struct ModuleView {
    pub stakes: Map<nat, StakeView>,
    pub stakes_created: nat,
}

impl ModuleView {
    /// The stakes with `stake` as the one with identifier `stake_id`.
    pub open spec fn with_stake(self, stake_id: nat, stake: StakeView) -> Self {
        ModuleView { stakes: self.stakes.insert(stake_id, stake), ..self }
    }

    /// The stakes after one of them has been asked for something, and has answered with `outcome`.
    pub open spec fn answered<ErrorType>(
        self,
        stake_id: nat,
        outcome: Result<StakeView, ErrorType>,
    ) -> Result<ModuleView, StakeActionError<ErrorType>> {
        if !self.stakes.contains_key(stake_id) {
            Err(StakeActionError::StakeNotFound)
        } else {
            match outcome {
                Ok(stake) => Ok(self.with_stake(stake_id, stake)),
                Err(error) => Err(StakeActionError::Error(error)),
            }
        }
    }

    /// The stakes after one more has been created at block `now`.
    pub open spec fn create_stake(self, now: nat) -> ModuleView {
        ModuleView {
            stakes: self.stakes.insert(
                self.stakes_created,
                StakeView { created: now, staking_status: StakingStatusView::NotStaked },
            ),
            stakes_created: self.stakes_created + 1,
        }
    }

    /// The stakes after one of them has been removed.
    pub open spec fn remove_stake(self, stake_id: nat) -> Result<
        ModuleView,
        StakeActionError<StakingError>,
    > {
        if !self.stakes.contains_key(stake_id) {
            Err(StakeActionError::StakeNotFound)
        } else if self.stakes[stake_id].staking_status is Staked {
            Err(StakeActionError::Error(StakingError::AlreadyStaked))
        } else {
            Ok(ModuleView { stakes: self.stakes.remove(stake_id), ..self })
        }
    }

    /// The stakes after funds have been staked.
    pub open spec fn stake(self, stake_id: nat, value: nat, minimum_balance: nat) -> Result<
        ModuleView,
        StakeActionError<StakingError>,
    > {
        self.answered(stake_id, self.stakes[stake_id].start_staking(value, minimum_balance))
    }

    /// Why funds of an account cannot be staked, whatever the account holds, or else the stake that
    /// they make.
    pub open spec fn stake_from_account(
        self,
        stake_id: nat,
        value: nat,
        minimum_balance: nat,
    ) -> Result<StakeView, StakeActionError<StakingFromAccountError>> {
        if !self.stakes.contains_key(stake_id) {
            Err(StakeActionError::StakeNotFound)
        } else {
            match self.stakes[stake_id].start_staking(value, minimum_balance) {
                Ok(stake) => Ok(stake),
                Err(error) => Err(
                    StakeActionError::Error(StakingFromAccountError::StakingError(error)),
                ),
            }
        }
    }

    /// The stakes after a stake has been increased.
    pub open spec fn increase_stake(self, stake_id: nat, value: nat) -> Result<
        ModuleView,
        StakeActionError<IncreasingStakeError>,
    > {
        self.answered(stake_id, self.stakes[stake_id].increase_stake(value))
    }

    /// Why a stake cannot be increased by funds of an account, whatever the account holds, or else
    /// the stake that they make.
    pub open spec fn increase_stake_from_account(self, stake_id: nat, value: nat) -> Result<
        StakeView,
        StakeActionError<IncreasingStakeFromAccountError>,
    > {
        if !self.stakes.contains_key(stake_id) {
            Err(StakeActionError::StakeNotFound)
        } else {
            match self.stakes[stake_id].increase_stake(value) {
                Ok(stake) => Ok(stake),
                Err(error) => Err(
                    StakeActionError::Error(
                        IncreasingStakeFromAccountError::IncreasingStakeError(error),
                    ),
                ),
            }
        }
    }

    /// The stakes after a stake has been decreased.
    pub open spec fn decrease_stake(
        self,
        stake_id: nat,
        value: nat,
        minimum_balance: nat,
    ) -> Result<ModuleView, StakeActionError<DecreasingStakeError>> {
        self.answered(stake_id, self.stakes[stake_id].decrease_stake(value, minimum_balance))
    }

    /// What a request released of a stake, where it made the stakes `after`.
    pub open spec fn released(self, after: ModuleView, stake_id: nat) -> nat {
        (self.stakes[stake_id].amount() - after.stakes[stake_id].amount()) as nat
    }

    /// The stakes after a slash has been initiated.
    pub open spec fn initiate_slashing(
        self,
        stake_id: nat,
        slash_amount: nat,
        slash_period: nat,
        now: nat,
    ) -> Result<ModuleView, StakeActionError<InitiateSlashingError>> {
        self.answered(
            stake_id,
            self.stakes[stake_id].initiate_slashing(slash_amount, slash_period, now),
        )
    }

    /// The stakes after a slash has been paused.
    pub open spec fn pause_slashing(self, stake_id: nat, slash_id: nat) -> Result<
        ModuleView,
        StakeActionError<PauseSlashingError>,
    > {
        self.answered(stake_id, self.stakes[stake_id].pause_slashing(slash_id))
    }

    /// The stakes after a slash has been resumed.
    pub open spec fn resume_slashing(self, stake_id: nat, slash_id: nat) -> Result<
        ModuleView,
        StakeActionError<ResumeSlashingError>,
    > {
        self.answered(stake_id, self.stakes[stake_id].resume_slashing(slash_id))
    }

    /// The stakes after a slash has been cancelled.
    pub open spec fn cancel_slashing(self, stake_id: nat, slash_id: nat) -> Result<
        ModuleView,
        StakeActionError<CancelSlashingError>,
    > {
        self.answered(stake_id, self.stakes[stake_id].cancel_slashing(slash_id))
    }

    /// The stakes after an unstaking has been initiated, or, without a period, has been done.
    pub open spec fn initiate_unstaking(
        self,
        stake_id: nat,
        unstaking_period: Option<nat>,
        now: nat,
    ) -> Result<ModuleView, StakeActionError<InitiateUnstakingError>> {
        match unstaking_period {
            Some(period) => self.answered(
                stake_id,
                self.stakes[stake_id].initiate_unstaking(period, now),
            ),
            None => self.answered(
                stake_id,
                match self.stakes[stake_id].unstake() {
                    Ok(stake) => Ok(stake),
                    Err(error) => Err(InitiateUnstakingError::UnstakingError(error)),
                },
            ),
        }
    }

    /// The stakes after an unstaking has been paused.
    pub open spec fn pause_unstaking(self, stake_id: nat) -> Result<
        ModuleView,
        StakeActionError<PauseUnstakingError>,
    > {
        self.answered(stake_id, self.stakes[stake_id].pause_unstaking())
    }

    /// The stakes after an unstaking has been resumed.
    pub open spec fn resume_unstaking(self, stake_id: nat) -> Result<
        ModuleView,
        StakeActionError<ResumeUnstakingError>,
    > {
        self.answered(stake_id, self.stakes[stake_id].resume_unstaking())
    }

    /// The stakes after one of them has seen a block finalised. It is stored only where a timer
    /// was advanced.
    pub open spec fn finalize_stake(self, stake_id: nat, minimum_balance: nat) -> ModuleView {
        let stake = self.stakes[stake_id];
        if self.stakes.contains_key(stake_id) && stake.advances(minimum_balance) {
            self.with_stake(stake_id, stake.finalize_slashing_and_unstaking(minimum_balance))
        } else {
            self
        }
    }

    /// What is to be done with the funds of a stake when a block is finalised.
    pub open spec fn finalize_stake_actions<AccountId>(
        self,
        stake_id: nat,
        minimum_balance: nat,
    ) -> Seq<PoolAction<AccountId, nat, nat, nat>> {
        if self.stakes.contains_key(stake_id) {
            self.stakes[stake_id].finalize_actions(stake_id, minimum_balance)
        } else {
            Seq::empty()
        }
    }

    /// The identifiers of all stakes, the most recently created one first.
    pub open spec fn newest_first(self) -> Seq<nat> {
        in_order(self.stakes.dom()).reverse()
    }
}

impl StakeView {
    /// Whether finalising a block advances a timer of the stake.
    pub open spec fn advances(self, minimum_balance: nat) -> bool {
        self.slashing_advances() || self.finalize_slashing(minimum_balance).unstaking_advances()
    }

    /// What is to be done with the funds of the stake when a block is finalised: what the executed
    /// slashes took is withdrawn, slash after slash, and then what a finished unstaking releases.
    pub open spec fn finalize_actions<AccountId>(self, stake_id: nat, minimum_balance: nat) -> Seq<
        PoolAction<AccountId, nat, nat, nat>,
    > {
        let slashed = self.executed_slashes(minimum_balance).map_values(
            |o: (nat, nat, nat)|
                PoolAction::Slashed {
                    stake_id,
                    slash_id: o.0,
                    amount: o.1,
                    remaining_stake: o.2,
                },
        );
        let left = self.finalize_slashing(minimum_balance);
        if left.unstaking_finishes() {
            slashed.push(PoolAction::Unstaked { stake_id, amount: left.amount() })
        } else {
            slashed
        }
    }
}

} // verus!
