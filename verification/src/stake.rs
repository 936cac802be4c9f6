//! A stake: whether it holds funds, and the requests that it grants or refuses.
use crate::arithmetic::SimpleArithmetic;
use crate::errors::{
    CancelSlashingError, DecreasingStakeError, IncreasingStakeError, InitiateSlashingError,
    InitiateUnstakingError, PauseSlashingError, PauseUnstakingError, ResumeSlashingError,
    ResumeUnstakingError, StakingError, UnstakingError,
};
use crate::ordered::{find, holds_nothing, lemma_by_number_empty, put, take_out};
use crate::staked::{
    outcomes, outcomes_by_number, Slash, StakedState, StakedStateView, StakedStatus, UnstakingState,
};
use std::collections::BTreeMap;
use vstd::prelude::*;

verus! {

/// Whether funds are at stake.
#[derive(Debug, Eq, PartialEq)]
pub enum StakingStatus<BlockNumber, Balance, SlashId: Ord> {
    NotStaked,
    Staked(StakedState<BlockNumber, Balance, SlashId>),
}

/// A stake.
#[derive(Debug, Default, Eq, PartialEq)]
pub struct Stake<BlockNumber, Balance, SlashId: Ord> {
    /// When role was created.
    pub created: BlockNumber,
    /// Status of any possible ongoing staking.
    pub staking_status: StakingStatus<BlockNumber, Balance, SlashId>,
}

/// `StakingStatus` over the natural numbers.
#[verifier::ext_equal]
pub enum StakingStatusView {
    NotStaked,
    Staked(StakedStateView),
}

/// `Stake` over the natural numbers.
#[verifier::ext_equal]
pub struct StakeView {
    pub created: nat,
    pub staking_status: StakingStatusView,
}

impl<
    BlockNumber: SimpleArithmetic,
    Balance: SimpleArithmetic,
    SlashId: SimpleArithmetic,
> View for StakingStatus<BlockNumber, Balance, SlashId> {
    type V = StakingStatusView;

    open spec fn view(&self) -> StakingStatusView {
        match self {
            StakingStatus::NotStaked => StakingStatusView::NotStaked,
            StakingStatus::Staked(state) => StakingStatusView::Staked(state@),
        }
    }
}

impl<
    BlockNumber: SimpleArithmetic,
    Balance: SimpleArithmetic,
    SlashId: SimpleArithmetic,
> View for Stake<BlockNumber, Balance, SlashId> {
    type V = StakeView;

    open spec fn view(&self) -> StakeView {
        StakeView { created: self.created.as_nat(), staking_status: self.staking_status@ }
    }
}

impl<BlockNumber, Balance, SlashId: Ord> Default for StakingStatus<BlockNumber, Balance, SlashId> {
    fn default() -> (r: Self)
        ensures
            r is NotStaked,
    {
        StakingStatus::NotStaked
    }
}

impl<
    BlockNumber: SimpleArithmetic,
    Balance: SimpleArithmetic,
    SlashId: SimpleArithmetic,
> Clone for Stake<BlockNumber, Balance, SlashId> {
    fn clone(&self) -> (r: Self)
        ensures
            r@ == self@,
    {
        Stake {
            created: self.created,
            staking_status: match &self.staking_status {
                StakingStatus::NotStaked => StakingStatus::NotStaked,
                StakingStatus::Staked(state) => StakingStatus::Staked(state.clone()),
            },
        }
    }
}

impl StakedStateView {
    /// The state with another amount at stake.
    pub open spec fn with_amount(self, staked_amount: nat) -> Self {
        StakedStateView { staked_amount, ..self }
    }

    /// The state with another set of slashes.
    pub open spec fn with_slashes(self, ongoing_slashes: Map<nat, Slash<nat, nat>>) -> Self {
        StakedStateView { ongoing_slashes, ..self }
    }

    /// The state in which a slash is active, or else paused.
    pub open spec fn with_slash_active(self, slash_id: nat, is_active: bool) -> Self {
        self.with_slashes(
            self.ongoing_slashes.insert(
                slash_id,
                Slash { is_active, ..self.ongoing_slashes[slash_id] },
            ),
        )
    }

    /// The state in which an unstaking that is under way is active, or else paused.
    pub open spec fn with_unstaking_active(self, is_active: bool) -> Self {
        match self.staked_status {
            StakedStatus::Normal => self,
            StakedStatus::Unstaking(unstaking) => StakedStateView {
                staked_status: StakedStatus::Unstaking(UnstakingState { is_active, ..unstaking }),
                ..self
            },
        }
    }
}

impl StakeView {
    /// The stake with the funds `state` at stake.
    pub open spec fn with_state(self, state: StakedStateView) -> Self {
        StakeView { staking_status: StakingStatusView::Staked(state), ..self }
    }

    /// The stake without funds at stake.
    pub open spec fn not_staked(self) -> Self {
        StakeView { staking_status: StakingStatusView::NotStaked, ..self }
    }

    /// The amount at stake.
    pub open spec fn amount(self) -> nat {
        match self.staking_status {
            StakingStatusView::NotStaked => 0,
            StakingStatusView::Staked(state) => state.staked_amount,
        }
    }

    /// The stake after it has been asked to hold `value`.
    pub open spec fn start_staking(self, value: nat, minimum_balance: nat) -> Result<
        StakeView,
        StakingError,
    > {
        if value == 0 {
            Err(StakingError::CannotStakeZero)
        } else if value < minimum_balance {
            Err(StakingError::CannotStakeLessThanMinimumBalance)
        } else if self.staking_status is Staked {
            Err(StakingError::AlreadyStaked)
        } else {
            Ok(
                self.with_state(
                    StakedStateView {
                        staked_amount: value,
                        staked_status: StakedStatus::Normal,
                        next_slash_id: 0,
                        ongoing_slashes: Map::empty(),
                    },
                ),
            )
        }
    }

    /// The stake after it has been asked to hold `value` more.
    pub open spec fn increase_stake(self, value: nat) -> Result<StakeView, IncreasingStakeError> {
        if value == 0 {
            Err(IncreasingStakeError::CannotChangeStakeByZero)
        } else {
            match self.staking_status {
                StakingStatusView::NotStaked => Err(IncreasingStakeError::NotStaked),
                StakingStatusView::Staked(state) => if state.staked_status is Normal {
                    Ok(self.with_state(state.with_amount(state.staked_amount + value)))
                } else {
                    Err(IncreasingStakeError::CannotIncreaseStakeWhileUnstaking)
                },
            }
        }
    }

    /// The stake after it has been asked to hold `value` less, or nothing where less than the
    /// minimum balance would be left.
    pub open spec fn decrease_stake(self, value: nat, minimum_balance: nat) -> Result<
        StakeView,
        DecreasingStakeError,
    > {
        if value == 0 {
            Err(DecreasingStakeError::CannotChangeStakeByZero)
        } else {
            match self.staking_status {
                StakingStatusView::NotStaked => Err(DecreasingStakeError::NotStaked),
                StakingStatusView::Staked(state) => if state.staked_status is Unstaking {
                    Err(DecreasingStakeError::CannotDecreaseStakeWhileUnstaking)
                } else if !state.ongoing_slashes.is_empty() {
                    Err(DecreasingStakeError::CannotDecreaseStakeWhileOngoingSlahes)
                } else if state.staked_amount < value {
                    Err(DecreasingStakeError::InsufficientStake)
                } else if state.staked_amount < value + minimum_balance {
                    Ok(self.with_state(state.with_amount(0)))
                } else {
                    Ok(self.with_state(state.with_amount((state.staked_amount - value) as nat)))
                },
            }
        }
    }

    /// The stake after a slash has been initiated on it.
    pub open spec fn initiate_slashing(
        self,
        slash_amount: nat,
        slash_period: nat,
        now: nat,
    ) -> Result<StakeView, InitiateSlashingError> {
        if slash_period == 0 {
            Err(InitiateSlashingError::SlashPeriodShouldBeGreaterThanZero)
        } else if slash_amount == 0 {
            Err(InitiateSlashingError::SlashAmountShouldBeGreaterThanZero)
        } else {
            match self.staking_status {
                StakingStatusView::NotStaked => Err(InitiateSlashingError::NotStaked),
                StakingStatusView::Staked(state) => {
                    let slash = Slash {
                        started_at_block: now,
                        is_active: true,
                        blocks_remaining_in_active_period_for_slashing: slash_period,
                        slash_amount,
                    };
                    let slashing = StakedStateView {
                        next_slash_id: state.next_slash_id + 1,
                        ongoing_slashes: state.ongoing_slashes.insert(state.next_slash_id, slash),
                        ..state
                    };
                    // an unstaking that is under way is paused
                    Ok(self.with_state(slashing.with_unstaking_active(false)))
                },
            }
        }
    }

    /// The identifier that the next slash on the stake will have.
    pub open spec fn next_slash_id(self) -> nat {
        match self.staking_status {
            StakingStatusView::NotStaked => 0,
            StakingStatusView::Staked(state) => state.next_slash_id,
        }
    }

    /// The stake after a slash on it has been paused.
    pub open spec fn pause_slashing(self, slash_id: nat) -> Result<StakeView, PauseSlashingError> {
        match self.staking_status {
            StakingStatusView::NotStaked => Err(PauseSlashingError::NotStaked),
            StakingStatusView::Staked(state) => if !state.ongoing_slashes.contains_key(slash_id) {
                Err(PauseSlashingError::SlashNotFound)
            } else if !state.ongoing_slashes[slash_id].is_active {
                Err(PauseSlashingError::AlreadyPaused)
            } else {
                Ok(self.with_state(state.with_slash_active(slash_id, false)))
            },
        }
    }

    /// The stake after a slash on it has been resumed.
    pub open spec fn resume_slashing(self, slash_id: nat) -> Result<
        StakeView,
        ResumeSlashingError,
    > {
        match self.staking_status {
            StakingStatusView::NotStaked => Err(ResumeSlashingError::NotStaked),
            StakingStatusView::Staked(state) => if !state.ongoing_slashes.contains_key(slash_id) {
                Err(ResumeSlashingError::SlashNotFound)
            } else if state.ongoing_slashes[slash_id].is_active {
                Err(ResumeSlashingError::NotPaused)
            } else {
                Ok(self.with_state(state.with_slash_active(slash_id, true)))
            },
        }
    }

    /// The stake after a slash on it has been cancelled. Where that was the last one, an unstaking
    /// that is under way is active again.
    pub open spec fn cancel_slashing(self, slash_id: nat) -> Result<
        StakeView,
        CancelSlashingError,
    > {
        match self.staking_status {
            StakingStatusView::NotStaked => Err(CancelSlashingError::NotStaked),
            StakingStatusView::Staked(state) => if !state.ongoing_slashes.contains_key(slash_id) {
                Err(CancelSlashingError::SlashNotFound)
            } else {
                let others = state.with_slashes(state.ongoing_slashes.remove(slash_id));
                Ok(
                    self.with_state(
                        if others.ongoing_slashes.is_empty() {
                            others.with_unstaking_active(true)
                        } else {
                            others
                        },
                    ),
                )
            },
        }
    }

    /// Why unstaking is refused, or else `None`.
    pub open spec fn unstaking_refused(self) -> Option<UnstakingError> {
        match self.staking_status {
            StakingStatusView::NotStaked => Some(UnstakingError::NotStaked),
            StakingStatusView::Staked(state) => if !state.ongoing_slashes.is_empty() {
                Some(UnstakingError::CannotUnstakeWhileSlashesOngoing)
            } else if state.staked_status is Unstaking {
                Some(UnstakingError::AlreadyUnstaking)
            } else {
                None
            },
        }
    }

    /// The stake after it has been unstaked at once.
    pub open spec fn unstake(self) -> Result<StakeView, UnstakingError> {
        match self.unstaking_refused() {
            Some(error) => Err(error),
            None => Ok(self.not_staked()),
        }
    }

    /// The stake after an unstaking over some period has been initiated.
    pub open spec fn initiate_unstaking(self, unstaking_period: nat, now: nat) -> Result<
        StakeView,
        InitiateUnstakingError,
    > {
        if unstaking_period == 0 {
            Err(InitiateUnstakingError::UnstakingPeriodShouldBeGreaterThanZero)
        } else {
            match self.unstaking_refused() {
                Some(error) => Err(InitiateUnstakingError::UnstakingError(error)),
                None => Ok(
                    self.with_state(
                        StakedStateView {
                            staked_status: StakedStatus::Unstaking(
                                UnstakingState {
                                    started_at_block: now,
                                    is_active: true,
                                    blocks_remaining_in_active_period_for_unstaking:
                                        unstaking_period,
                                },
                            ),
                            ..self.staking_status->Staked_0
                        },
                    ),
                ),
            }
        }
    }

    /// The stake after its unstaking has been paused.
    pub open spec fn pause_unstaking(self) -> Result<StakeView, PauseUnstakingError> {
        match self.staking_status {
            StakingStatusView::NotStaked => Err(PauseUnstakingError::NotStaked),
            StakingStatusView::Staked(state) => match state.staked_status {
                StakedStatus::Normal => Err(PauseUnstakingError::NotUnstaking),
                StakedStatus::Unstaking(unstaking) => if unstaking.is_active {
                    Ok(self.with_state(state.with_unstaking_active(false)))
                } else {
                    Err(PauseUnstakingError::AlreadyPaused)
                },
            },
        }
    }

    /// The stake after its unstaking has been resumed.
    pub open spec fn resume_unstaking(self) -> Result<StakeView, ResumeUnstakingError> {
        match self.staking_status {
            StakingStatusView::NotStaked => Err(ResumeUnstakingError::NotStaked),
            StakingStatusView::Staked(state) => match state.staked_status {
                StakedStatus::Normal => Err(ResumeUnstakingError::NotUnstaking),
                StakedStatus::Unstaking(unstaking) => if !unstaking.is_active {
                    Ok(self.with_state(state.with_unstaking_active(true)))
                } else {
                    Err(ResumeUnstakingError::NotPaused)
                },
            },
        }
    }

    /// The slashes that are executed when a block is finalised: of each its identifier, what it
    /// takes and what it leaves.
    pub open spec fn executed_slashes(self, minimum_balance: nat) -> Seq<(nat, nat, nat)> {
        match self.staking_status {
            StakingStatusView::NotStaked => Seq::empty(),
            StakingStatusView::Staked(state) => outcomes(
                state.staked_amount,
                state.advanced().due(),
                minimum_balance,
            ),
        }
    }

    /// Whether finalising a block advances the timer of a slash.
    pub open spec fn slashing_advances(self) -> bool {
        self.staking_status matches StakingStatusView::Staked(state)
            && !state.ticking().is_empty()
    }

    /// The stake after a block has been finalised, as far as slashes are concerned: timers have
    /// advanced, and the slashes whose time has come have been executed.
    pub open spec fn finalize_slashing(self, minimum_balance: nat) -> StakeView {
        match self.staking_status {
            StakingStatusView::NotStaked => self,
            StakingStatusView::Staked(state) => self.with_state(
                state.advanced().slashed(minimum_balance),
            ),
        }
    }

    /// The unstaking under way, after a block has been finalised. It is active again where no
    /// slash is ongoing, and the block counts where it is active.
    pub open spec fn unstaking_ticked(self) -> Option<UnstakingState<nat>> {
        match self.staking_status {
            StakingStatusView::Staked(
                StakedStateView {
                    staked_status: StakedStatus::Unstaking(unstaking),
                    ongoing_slashes,
                    ..
                },
            ) => {
                let is_active = unstaking.is_active || ongoing_slashes.is_empty();
                let remaining = unstaking.blocks_remaining_in_active_period_for_unstaking;
                Some(
                    UnstakingState {
                        is_active,
                        blocks_remaining_in_active_period_for_unstaking: if is_active && remaining
                            > 0 {
                            (remaining - 1) as nat
                        } else {
                            remaining
                        },
                        ..unstaking
                    },
                )
            },
            _ => None,
        }
    }

    /// Whether finalising a block finishes the unstaking under way.
    pub open spec fn unstaking_finishes(self) -> bool {
        self.unstaking_ticked() matches Some(unstaking)
            && unstaking.blocks_remaining_in_active_period_for_unstaking == 0
    }

    /// Whether finalising a block finishes the unstaking under way, or finds it active.
    pub open spec fn unstaking_advances(self) -> bool {
        self.unstaking_ticked() matches Some(unstaking) && (self.unstaking_finishes()
            || unstaking.is_active)
    }

    /// The stake after a block has been finalised, as far as unstaking is concerned.
    pub open spec fn finalize_unstaking(self) -> StakeView {
        match self.unstaking_ticked() {
            None => self,
            Some(unstaking) => if self.unstaking_finishes() {
                self.not_staked()
            } else {
                self.with_state(
                    StakedStateView {
                        staked_status: StakedStatus::Unstaking(unstaking),
                        ..self.staking_status->Staked_0
                    },
                )
            },
        }
    }

    /// The stake after a block has been finalised: first slashes, then unstaking.
    pub open spec fn finalize_slashing_and_unstaking(self, minimum_balance: nat) -> StakeView {
        self.finalize_slashing(minimum_balance).finalize_unstaking()
    }
}

impl<BlockNumber, Balance, SlashId> Stake<BlockNumber, Balance, SlashId> where
    BlockNumber: SimpleArithmetic,
    Balance: SimpleArithmetic,
    SlashId: SimpleArithmetic,
 {
    /// A stake that is created at the given block, without funds.
    pub fn new(created_at: BlockNumber) -> (r: Self)
        ensures
            r@ == (StakeView {
                created: created_at.as_nat(),
                staking_status: StakingStatusView::NotStaked,
            }),
            r@.sound(),
    {
        Stake { created: created_at, staking_status: StakingStatus::NotStaked }
    }

    /// Whether no funds are at stake.
    pub fn is_not_staked(&self) -> (r: bool)
        ensures
            r == self@.staking_status is NotStaked,
    {
        match self.staking_status {
            StakingStatus::NotStaked => true,
            StakingStatus::Staked(_) => false,
        }
    }

    /// The amount at stake.
    pub fn staked_amount(&self) -> (r: Balance)
        ensures
            r.as_nat() == self@.amount(),
    {
        match &self.staking_status {
            StakingStatus::NotStaked => Balance::zero(),
            StakingStatus::Staked(staked_state) => staked_state.staked_amount,
        }
    }

    /// If staking status is Staked and not currently Unstaking it will increase the staked amount
    /// by value. On success returns new total staked value.
    /// Increasing stake by zero is an error.
    pub fn increase_stake(&mut self, value: Balance) -> (r: Result<Balance, IncreasingStakeError>)
        requires
            old(self)@.increase_stake(value.as_nat()) matches Ok(stake) ==> stake.amount()
                <= Balance::max_nat(),
        ensures
            old(self)@.sound() ==> final(self)@.sound(),
            match old(self)@.increase_stake(value.as_nat()) {
                Ok(stake) => {
                    &&& final(self)@ == stake
                    &&& r matches Ok(total) && total.as_nat() == stake.amount()
                },
                Err(error) => final(self)@ == old(self)@ && r == Err::<Balance, _>(error),
            },
    {
        if value.is_zero() {
            return Err(IncreasingStakeError::CannotChangeStakeByZero);
        }
        match &mut self.staking_status {
            StakingStatus::Staked(staked_state) => match staked_state.staked_status {
                StakedStatus::Normal => {
                    staked_state.staked_amount = staked_state.staked_amount.plus(value);
                    Ok(staked_state.staked_amount)
                },
                _ => Err(IncreasingStakeError::CannotIncreaseStakeWhileUnstaking),
            },
            _ => Err(IncreasingStakeError::NotStaked),
        }
    }

    /// If staking status is Staked and not currently Unstaking, and no ongoing slashes exist, it
    /// will decrease the amount at stake by provided value. If remaining at stake drops below the
    /// minimum_balance it will decrease the stake to zero.
    /// On success returns (the actual amount of stake decreased, the remaining amount at stake).
    /// Decreasing stake by zero is an error.
    pub fn decrease_stake(&mut self, value: Balance, minimum_balance: Balance) -> (r: Result<
        (Balance, Balance),
        DecreasingStakeError,
    >)
        ensures
            old(self)@.sound() ==> final(self)@.sound(),
            match old(self)@.decrease_stake(value.as_nat(), minimum_balance.as_nat()) {
                Ok(stake) => {
                    &&& final(self)@ == stake
                    &&& r matches Ok((deducted, remaining))
                    &&& deducted.as_nat() == old(self)@.amount() - stake.amount()
                    &&& remaining.as_nat() == stake.amount()
                },
                Err(error) => final(self)@ == old(self)@ && r == Err::<(Balance, Balance), _>(
                    error,
                ),
            },
    {
        if value.is_zero() {
            return Err(DecreasingStakeError::CannotChangeStakeByZero);
        }
        match &mut self.staking_status {
            StakingStatus::Staked(staked_state) => match staked_state.staked_status {
                StakedStatus::Normal => {
                    // prevent decreasing stake if there are any ongoing slashes (irrespective if
                    // active or not)
                    if !holds_nothing(&staked_state.ongoing_slashes) {
                        return Err(DecreasingStakeError::CannotDecreaseStakeWhileOngoingSlahes);
                    }
                    if staked_state.staked_amount.less_than(value) {
                        return Err(DecreasingStakeError::InsufficientStake);
                    }
                    let stake_to_reduce = if staked_state.staked_amount.minus(value).less_than(
                        minimum_balance,
                    ) {
                        // If staked amount would drop below minimum balance, deduct the entire
                        // stake
                        staked_state.staked_amount
                    } else {
                        value
                    };
                    staked_state.staked_amount = staked_state.staked_amount.minus(stake_to_reduce);
                    Ok((stake_to_reduce, staked_state.staked_amount))
                },
                _ => Err(DecreasingStakeError::CannotDecreaseStakeWhileUnstaking),
            },
            _ => Err(DecreasingStakeError::NotStaked),
        }
    }

    /// Puts `value` at stake, where nothing is at stake yet.
    pub fn start_staking(&mut self, value: Balance, minimum_balance: Balance) -> (r: Result<
        (),
        StakingError,
    >)
        ensures
            old(self)@.sound() ==> final(self)@.sound(),
            match old(self)@.start_staking(value.as_nat(), minimum_balance.as_nat()) {
                Ok(stake) => final(self)@ == stake && r is Ok,
                Err(error) => final(self)@ == old(self)@ && r == Err::<(), _>(error),
            },
    {
        if value.is_zero() {
            return Err(StakingError::CannotStakeZero);
        }
        if value.less_than(minimum_balance) {
            return Err(StakingError::CannotStakeLessThanMinimumBalance);
        }
        if self.is_not_staked() {
            let ongoing_slashes: BTreeMap<SlashId, Slash<BlockNumber, Balance>> = BTreeMap::new();
            proof {
                lemma_by_number_empty(ongoing_slashes@);
            }
            self.staking_status = StakingStatus::Staked(
                StakedState {
                    staked_amount: value,
                    next_slash_id: SlashId::zero(),
                    ongoing_slashes,
                    staked_status: StakedStatus::Normal,
                },
            );
            Ok(())
        } else {
            Err(StakingError::AlreadyStaked)
        }
    }

    /// Initiates a slash, and returns its identifier. An unstaking that is under way is paused.
    pub fn initiate_slashing(
        &mut self,
        slash_amount: Balance,
        slash_period: BlockNumber,
        now: BlockNumber,
    ) -> (r: Result<SlashId, InitiateSlashingError>)
        requires
            old(self)@.initiate_slashing(
                slash_amount.as_nat(),
                slash_period.as_nat(),
                now.as_nat(),
            ) matches Ok(stake) ==> stake.next_slash_id() <= SlashId::max_nat(),
        ensures
            old(self)@.sound() ==> final(self)@.sound(),
            match old(self)@.initiate_slashing(
                slash_amount.as_nat(),
                slash_period.as_nat(),
                now.as_nat(),
            ) {
                Ok(stake) => {
                    &&& final(self)@ == stake
                    &&& r matches Ok(slash_id) && slash_id.as_nat() == old(self)@.next_slash_id()
                },
                Err(error) => final(self)@ == old(self)@ && r == Err::<SlashId, _>(error),
            },
    {
        if slash_period.is_zero() {
            return Err(InitiateSlashingError::SlashPeriodShouldBeGreaterThanZero);
        }
        if slash_amount.is_zero() {
            return Err(InitiateSlashingError::SlashAmountShouldBeGreaterThanZero);
        }
        match &mut self.staking_status {
            StakingStatus::Staked(staked_state) => {
                let slash_id = staked_state.next_slash_id;
                staked_state.next_slash_id = slash_id.plus(SlashId::one());
                put(
                    &mut staked_state.ongoing_slashes,
                    slash_id,
                    Slash {
                        is_active: true,
                        blocks_remaining_in_active_period_for_slashing: slash_period,
                        slash_amount,
                        started_at_block: now,
                    },
                );
                // pause Unstaking if unstaking is active
                match &mut staked_state.staked_status {
                    StakedStatus::Unstaking(unstaking_state) => {
                        unstaking_state.is_active = false;
                    },
                    _ => {},
                }
                Ok(slash_id)
            },
            _ => Err(InitiateSlashingError::NotStaked),
        }
    }

    /// Pauses an ongoing slash that is active.
    pub fn pause_slashing(&mut self, slash_id: &SlashId) -> (r: Result<(), PauseSlashingError>)
        ensures
            old(self)@.sound() ==> final(self)@.sound(),
            match old(self)@.pause_slashing(slash_id.as_nat()) {
                Ok(stake) => final(self)@ == stake && r is Ok,
                Err(error) => final(self)@ == old(self)@ && r == Err::<(), _>(error),
            },
    {
        match &mut self.staking_status {
            StakingStatus::Staked(staked_state) => {
                match find(&staked_state.ongoing_slashes, slash_id) {
                    Some(found) => {
                        let mut slash = *found;
                        if slash.is_active {
                            slash.is_active = false;
                            put(&mut staked_state.ongoing_slashes, *slash_id, slash);
                            Ok(())
                        } else {
                            Err(PauseSlashingError::AlreadyPaused)
                        }
                    },
                    _ => Err(PauseSlashingError::SlashNotFound),
                }
            },
            _ => Err(PauseSlashingError::NotStaked),
        }
    }

    /// Resumes an ongoing slash that is paused.
    pub fn resume_slashing(&mut self, slash_id: &SlashId) -> (r: Result<(), ResumeSlashingError>)
        ensures
            old(self)@.sound() ==> final(self)@.sound(),
            match old(self)@.resume_slashing(slash_id.as_nat()) {
                Ok(stake) => final(self)@ == stake && r is Ok,
                Err(error) => final(self)@ == old(self)@ && r == Err::<(), _>(error),
            },
    {
        match &mut self.staking_status {
            StakingStatus::Staked(staked_state) => {
                match find(&staked_state.ongoing_slashes, slash_id) {
                    Some(found) => {
                        let mut slash = *found;
                        if slash.is_active {
                            Err(ResumeSlashingError::NotPaused)
                        } else {
                            slash.is_active = true;
                            put(&mut staked_state.ongoing_slashes, *slash_id, slash);
                            Ok(())
                        }
                    },
                    _ => Err(ResumeSlashingError::SlashNotFound),
                }
            },
            _ => Err(ResumeSlashingError::NotStaked),
        }
    }

    /// Cancels an ongoing slash (regardless of whether it is active or paused). Where that was the
    /// last one, an unstaking that is under way is active again.
    pub fn cancel_slashing(&mut self, slash_id: &SlashId) -> (r: Result<(), CancelSlashingError>)
        ensures
            old(self)@.sound() ==> final(self)@.sound(),
            match old(self)@.cancel_slashing(slash_id.as_nat()) {
                Ok(stake) => final(self)@ == stake && r is Ok,
                Err(error) => final(self)@ == old(self)@ && r == Err::<(), _>(error),
            },
    {
        match &mut self.staking_status {
            StakingStatus::Staked(staked_state) => {
                if take_out(&mut staked_state.ongoing_slashes, slash_id).is_none() {
                    return Err(CancelSlashingError::SlashNotFound);
                }
                // unpause unstaking on last ongoing slash cancelled
                if holds_nothing(&staked_state.ongoing_slashes) {
                    match &mut staked_state.staked_status {
                        StakedStatus::Unstaking(unstaking_state) => {
                            unstaking_state.is_active = true;
                        },
                        _ => {},
                    }
                }
                Ok(())
            },
            _ => Err(CancelSlashingError::NotStaked),
        }
    }

    /// Ends the staking at once, and returns the amount that was at stake.
    pub fn unstake(&mut self) -> (r: Result<Balance, UnstakingError>)
        ensures
            old(self)@.sound() ==> final(self)@.sound(),
            match old(self)@.unstake() {
                Ok(stake) => {
                    &&& final(self)@ == stake
                    &&& r matches Ok(amount) && amount.as_nat() == old(self)@.amount()
                },
                Err(error) => final(self)@ == old(self)@ && r == Err::<Balance, _>(error),
            },
    {
        let staked_amount = match &self.staking_status {
            StakingStatus::Staked(staked_state) => {
                // prevent unstaking if there are any ongoing slashes (irrespective if active or
                // not)
                if !holds_nothing(&staked_state.ongoing_slashes) {
                    return Err(UnstakingError::CannotUnstakeWhileSlashesOngoing);
                }
                match staked_state.staked_status {
                    StakedStatus::Normal => staked_state.staked_amount,
                    _ => {
                        return Err(UnstakingError::AlreadyUnstaking);
                    },
                }
            },
            _ => {
                return Err(UnstakingError::NotStaked);
            },
        };
        self.staking_status = StakingStatus::NotStaked;
        Ok(staked_amount)
    }

    /// Starts an unstaking, which is finished after the given number of blocks.
    pub fn initiate_unstaking(&mut self, unstaking_period: BlockNumber, now: BlockNumber) -> (r:
        Result<(), InitiateUnstakingError>)
        ensures
            old(self)@.sound() ==> final(self)@.sound(),
            match old(self)@.initiate_unstaking(unstaking_period.as_nat(), now.as_nat()) {
                Ok(stake) => final(self)@ == stake && r is Ok,
                Err(error) => final(self)@ == old(self)@ && r == Err::<(), _>(error),
            },
    {
        if unstaking_period.is_zero() {
            return Err(InitiateUnstakingError::UnstakingPeriodShouldBeGreaterThanZero);
        }
        match &mut self.staking_status {
            StakingStatus::Staked(staked_state) => {
                // prevent unstaking if there are any ongoing slashes (irrespective if active or
                // not)
                if !holds_nothing(&staked_state.ongoing_slashes) {
                    return Err(
                        InitiateUnstakingError::UnstakingError(
                            UnstakingError::CannotUnstakeWhileSlashesOngoing,
                        ),
                    );
                }
                match staked_state.staked_status {
                    StakedStatus::Normal => {
                        staked_state.staked_status = StakedStatus::Unstaking(
                            UnstakingState {
                                started_at_block: now,
                                is_active: true,
                                blocks_remaining_in_active_period_for_unstaking: unstaking_period,
                            },
                        );
                        Ok(())
                    },
                    _ => Err(
                        InitiateUnstakingError::UnstakingError(UnstakingError::AlreadyUnstaking),
                    ),
                }
            },
            _ => Err(InitiateUnstakingError::UnstakingError(UnstakingError::NotStaked)),
        }
    }

    /// Pauses an unstaking that is active.
    pub fn pause_unstaking(&mut self) -> (r: Result<(), PauseUnstakingError>)
        ensures
            old(self)@.sound() ==> final(self)@.sound(),
            match old(self)@.pause_unstaking() {
                Ok(stake) => final(self)@ == stake && r is Ok,
                Err(error) => final(self)@ == old(self)@ && r == Err::<(), _>(error),
            },
    {
        match &mut self.staking_status {
            StakingStatus::Staked(staked_state) => match &mut staked_state.staked_status {
                StakedStatus::Unstaking(unstaking_state) => {
                    if unstaking_state.is_active {
                        unstaking_state.is_active = false;
                        Ok(())
                    } else {
                        Err(PauseUnstakingError::AlreadyPaused)
                    }
                },
                _ => Err(PauseUnstakingError::NotUnstaking),
            },
            _ => Err(PauseUnstakingError::NotStaked),
        }
    }

    /// Resumes an unstaking that is paused.
    pub fn resume_unstaking(&mut self) -> (r: Result<(), ResumeUnstakingError>)
        ensures
            old(self)@.sound() ==> final(self)@.sound(),
            match old(self)@.resume_unstaking() {
                Ok(stake) => final(self)@ == stake && r is Ok,
                Err(error) => final(self)@ == old(self)@ && r == Err::<(), _>(error),
            },
    {
        match &mut self.staking_status {
            StakingStatus::Staked(staked_state) => match &mut staked_state.staked_status {
                StakedStatus::Unstaking(unstaking_state) => {
                    if !unstaking_state.is_active {
                        unstaking_state.is_active = true;
                        Ok(())
                    } else {
                        Err(ResumeUnstakingError::NotPaused)
                    }
                },
                _ => Err(ResumeUnstakingError::NotUnstaking),
            },
            _ => Err(ResumeUnstakingError::NotStaked),
        }
    }

    /// Advances the timers of the slashes, and executes those whose time has come. Returns whether
    /// a timer was advanced, and the outcome of the executed slashes: identifier, slashed amount
    /// and remaining staked amount.
    pub fn finalize_slashing(&mut self, minimum_balance: Balance) -> (r: (
        bool,
        Vec<(SlashId, Balance, Balance)>,
    ))
        ensures
            old(self)@.sound() ==> final(self)@.sound(),
            final(self)@ == old(self)@.finalize_slashing(minimum_balance.as_nat()),
            r.0 == old(self)@.slashing_advances(),
            outcomes_by_number(r.1@) == old(self)@.executed_slashes(minimum_balance.as_nat()),
    {
        match &mut self.staking_status {
            StakingStatus::Staked(staked_state) => {
                // tick the slashing timer
                let update_count = staked_state.advance_slashing_timer();
                // finalize and apply slashes
                let slashed = staked_state.finalize_slashes(minimum_balance);
                (update_count > 0, slashed)
            },
            _ => (false, Vec::new()),
        }
    }

    /// Advances the timer of the unstaking, and ends the staking where its time has come. Returns
    /// whether that was so or the unstaking was found to be active, and the amount that was at
    /// stake, where the staking ended.
    pub fn finalize_unstaking(&mut self) -> (r: (bool, Option<Balance>))
        ensures
            old(self)@.sound() ==> final(self)@.sound(),
            final(self)@ == old(self)@.finalize_unstaking(),
            r.0 == old(self)@.unstaking_advances(),
            r.1 is Some == old(self)@.unstaking_finishes(),
            r.1 matches Some(amount) ==> amount.as_nat() == old(self)@.amount(),
    {
        let (did_update, unstaked): (bool, Option<Balance>) = match &mut self.staking_status {
            StakingStatus::Staked(staked_state) => match &mut staked_state.staked_status {
                StakedStatus::Unstaking(unstaking_state) => {
                    // if all slashes were processed and there are no more active slashes
                    // resume unstaking
                    if holds_nothing(&staked_state.ongoing_slashes) {
                        unstaking_state.is_active = true;
                    }
                    let remaining =
                        unstaking_state.blocks_remaining_in_active_period_for_unstaking;
                    if unstaking_state.is_active && !remaining.is_zero() {
                        // tick the unstaking timer
                        unstaking_state.blocks_remaining_in_active_period_for_unstaking =
                        remaining.minus(BlockNumber::one());
                    }
                    if unstaking_state.blocks_remaining_in_active_period_for_unstaking.is_zero() {
                        // finalize unstaking
                        (true, Some(staked_state.staked_amount))
                    } else {
                        (unstaking_state.is_active, None)
                    }
                },
                _ => (false, None),
            },
            _ => (false, None),
        };
        // if unstaking was finalized transition to NotStaked state
        if unstaked.is_some() {
            self.staking_status = StakingStatus::NotStaked;
        }
        (did_update, unstaked)
    }

    /// Finalises a block: first slashes, then unstaking. Returns whether a timer was advanced, the
    /// outcome of the executed slashes, and the unstaked amount, where an unstaking was finished.
    pub fn finalize_slashing_and_unstaking(&mut self, minimum_balance: Balance) -> (r: (
        bool,
        Vec<(SlashId, Balance, Balance)>,
        Option<Balance>,
    ))
        ensures
            old(self)@.sound() ==> final(self)@.sound(),
            final(self)@ == old(self)@.finalize_slashing_and_unstaking(minimum_balance.as_nat()),
            r.0 == (old(self)@.slashing_advances() || old(self)@.finalize_slashing(
                minimum_balance.as_nat(),
            ).unstaking_advances()),
            outcomes_by_number(r.1@) == old(self)@.executed_slashes(minimum_balance.as_nat()),
            r.2 is Some == old(self)@.finalize_slashing(
                minimum_balance.as_nat(),
            ).unstaking_finishes(),
            r.2 matches Some(amount) ==> amount.as_nat() == old(self)@.finalize_slashing(
                minimum_balance.as_nat(),
            ).amount(),
    {
        let (did_update_slashing_timers, slashed) = self.finalize_slashing(minimum_balance);
        let (did_update_unstaking_timer, unstaked) = self.finalize_unstaking();
        (did_update_slashing_timers || did_update_unstaking_timer, slashed, unstaked)
    }
}

} // verus!
