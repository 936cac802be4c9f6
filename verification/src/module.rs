//! The stakes of a runtime, and the requests that are made on them.
use crate::arithmetic::SimpleArithmetic;
use crate::errors::{
    CancelSlashingError, DecreasingStakeError, IncreasingStakeError,
    IncreasingStakeFromAccountError, InitiateSlashingError, InitiateUnstakingError,
    PauseSlashingError, PauseUnstakingError, ResumeSlashingError, ResumeUnstakingError,
    StakeActionError, StakingError, StakingFromAccountError, TransferFromAccountError,
};
use crate::events::{NegativeImbalance, StakingEventsHandler};
use crate::ordered::{
    by_number, find, keys_in_order, lemma_by_number_empty, numbers, put, take_out,
};
use crate::pool::{into_account, pool_account, PoolAction};
use crate::registry::ModuleView;
use crate::stake::{Stake, StakeView, StakingStatusView};
use crate::staked::outcomes_by_number;
use std::collections::BTreeMap;
use vstd::prelude::*;

verus! {

/// What a runtime provides to the module.
pub trait Trait: Sized {
    /// The type used as an account identifier.
    type AccountId;

    /// The type used as a block number.
    type BlockNumber: SimpleArithmetic;

    /// The balance of the currency that is managed by the module.
    type Balance: SimpleArithmetic;

    /// The type used as a stake identifier.
    type StakeId: SimpleArithmetic;

    /// The type used as slash identifier.
    type SlashId: SimpleArithmetic;

    /// Type that will handle various staking events.
    type StakingEventsHandler: StakingEventsHandler<Self::StakeId, Self::SlashId, Self::Balance>;
}

/// The balance of the currency that is managed by the module.
pub type BalanceOf<T> = <T as Trait>::Balance;

/// A stake of a runtime.
pub type StakeOf<T> = Stake<
    <T as Trait>::BlockNumber,
    <T as Trait>::Balance,
    <T as Trait>::SlashId,
>;

/// Something that is to be done with the funds in the stake pool of a runtime.
pub type PoolActionOf<T> = PoolAction<
    <T as Trait>::AccountId,
    <T as Trait>::StakeId,
    <T as Trait>::SlashId,
    <T as Trait>::Balance,
>;

/// The natural numbers of a list of actions.
pub open spec fn actions_by_number<T: Trait>(actions: Seq<PoolActionOf<T>>) -> Seq<
    PoolAction<T::AccountId, nat, nat, nat>,
> {
    actions.map_values(|action: PoolActionOf<T>| action@)
}

/// The stakes of a runtime.
pub struct Module<T: Trait> {
    /// Maps identifiers to a stake.
    pub stakes: BTreeMap<T::StakeId, StakeOf<T>>,
    /// Identifier value for next stake, and count of total stakes created (not necessarily the
    /// number of current stakes in the stakes map as stakes can be removed.)
    pub stakes_created: T::StakeId,
}

impl<T: Trait> View for Module<T> {
    type V = ModuleView;

    open spec fn view(&self) -> ModuleView {
        ModuleView {
            stakes: by_number(self.stakes@),
            stakes_created: self.stakes_created.as_nat(),
        }
    }
}

/// A transfer from an account into the stake pool that has been decided on and not been made yet,
/// and the stake that it makes.
pub struct PendingTransfer<T: Trait> {
    /// The stake that the funds are meant for.
    pub stake_id: T::StakeId,
    /// That stake with the funds.
    pub stake: StakeOf<T>,
    /// The account to withdraw the funds from.
    pub source_account_id: T::AccountId,
    /// The amount to withdraw.
    pub value: T::Balance,
}

impl<T: Trait> PendingTransfer<T> {
    /// The stake was created, and is sound.
    pub open spec fn sound(self, stakes: ModuleView) -> bool {
        self.stake_id.as_nat() < stakes.stakes_created && self.stake@.sound()
    }
}

/// The stakes that are still to be gone through before a block is finalized.
pub struct Finalization<StakeId> {
    /// Their identifiers, the one whose turn is next at the end.
    pub remaining: Vec<StakeId>,
}

impl<StakeId: SimpleArithmetic> View for Finalization<StakeId> {
    type V = Seq<nat>;

    /// The identifiers, the one whose turn is next first.
    open spec fn view(&self) -> Seq<nat> {
        numbers(self.remaining@).reverse()
    }
}

impl<StakeId: SimpleArithmetic> Finalization<StakeId> {
    /// The stake whose turn is next.
    pub fn next_stake_id(&self) -> (r: Option<StakeId>)
        ensures
            r is None == (self@.len() == 0),
            r matches Some(stake_id) ==> stake_id.as_nat() == self@.first(),
    {
        if self.remaining.len() == 0 {
            None
        } else {
            Some(self.remaining[self.remaining.len() - 1])
        }
    }
}

impl<T: Trait> Module<T> {
    /// No stakes at all.
    pub fn new() -> (r: Self)
        ensures
            r@ == ModuleView::none(),
            r@.sound(),
    {
        let stakes: BTreeMap<T::StakeId, StakeOf<T>> = BTreeMap::new();
        proof {
            lemma_by_number_empty(stakes@);
        }
        Module { stakes, stakes_created: T::StakeId::zero() }
    }

    /// The account ID of this module which holds all the staked balance (referred to as the stake
    /// pool).
    pub fn stake_pool_account_id(stake_pool_id: [u8; 8]) -> (account: [u8; 32])
        ensures
            account@ == pool_account(stake_pool_id@),
    {
        into_account(stake_pool_id)
    }

    /// Whether there is a stake with the given identifier.
    pub fn stake_exists(&self, stake_id: &T::StakeId) -> (r: bool)
        ensures
            r == self@.stakes.contains_key(stake_id.as_nat()),
    {
        find(&self.stakes, stake_id).is_some()
    }

    /// The stake with the given identifier. Where there is none, a stake that was created at block
    /// zero and holds nothing.
    pub fn stakes(&self, stake_id: &T::StakeId) -> (stake: StakeOf<T>)
        ensures
            stake@ == if self@.stakes.contains_key(stake_id.as_nat()) {
                self@.stakes[stake_id.as_nat()]
            } else {
                StakeView { created: 0, staking_status: StakingStatusView::NotStaked }
            },
    {
        match find(&self.stakes, stake_id) {
            Some(stake) => stake.clone(),
            None => Stake::new(T::BlockNumber::zero()),
        }
    }

    /// Identifier value for next stake.
    pub fn stakes_created(&self) -> (r: T::StakeId)
        ensures
            r == self.stakes_created,
    {
        self.stakes_created
    }

    /// Adds a new Stake which is NotStaked, created at given block, into stakes map.
    pub fn create_stake(&mut self, now: T::BlockNumber) -> (stake_id: T::StakeId)
        requires
            old(self)@.stakes_created < T::StakeId::max_nat(),
        ensures
            old(self)@.sound() ==> final(self)@.sound(),
            stake_id.as_nat() == old(self)@.stakes_created,
            final(self)@ == old(self)@.create_stake(now.as_nat()),
    {
        let stake_id = self.stakes_created();
        self.stakes_created = stake_id.plus(T::StakeId::one());
        put(&mut self.stakes, stake_id, Stake::new(now));
        assert(self@ =~= old(self)@.create_stake(now.as_nat()));
        stake_id
    }

    /// Given that stake with id exists in stakes and is NotStaked, remove from stakes.
    pub fn remove_stake(&mut self, stake_id: &T::StakeId) -> (r: Result<
        (),
        StakeActionError<StakingError>,
    >)
        ensures
            old(self)@.sound() ==> final(self)@.sound(),
            match old(self)@.remove_stake(stake_id.as_nat()) {
                Ok(stakes) => final(self)@ == stakes && r is Ok,
                Err(error) => final(self)@ == old(self)@ && r == Err::<(), _>(error),
            },
    {
        if !self.stake_exists(stake_id) {
            return Err(StakeActionError::StakeNotFound);
        }
        let stake = self.stakes(stake_id);
        if !stake.is_not_staked() {
            return Err(StakeActionError::Error(StakingError::AlreadyStaked));
        }
        take_out(&mut self.stakes, stake_id);
        Ok(())
    }

    /// Dry run to see if staking can be initiated for the specified stake id. This should
    /// be called before stake() to make sure staking is possible before withdrawing funds.
    pub fn ensure_can_stake(
        &self,
        stake_id: &T::StakeId,
        value: T::Balance,
        minimum_balance: T::Balance,
    ) -> (r: Result<(), StakeActionError<StakingError>>)
        ensures
            match self@.stake(stake_id.as_nat(), value.as_nat(), minimum_balance.as_nat()) {
                Ok(_) => r is Ok,
                Err(error) => r == Err::<(), _>(error),
            },
    {
        if !self.stake_exists(stake_id) {
            return Err(StakeActionError::StakeNotFound);
        }
        let mut stake = self.stakes(stake_id);
        match stake.start_staking(value, minimum_balance) {
            Ok(()) => Ok(()),
            Err(error) => Err(StakeActionError::Error(error)),
        }
    }

    /// Provided the stake exists and is in state NotStaked the value is to be transferred
    /// to the module's account, and the corresponding staked_balance is set to this amount in the
    /// new Staked state. On error, as the negative imbalance is not returned to the caller, it is
    /// the caller's responsibility to return the funds back to the source (by creating a new
    /// positive imbalance).
    pub fn stake(
        &mut self,
        stake_id: &T::StakeId,
        imbalance: NegativeImbalance<T::Balance>,
        minimum_balance: T::Balance,
    ) -> (r: Result<PoolActionOf<T>, StakeActionError<StakingError>>)
        ensures
            old(self)@.sound() ==> final(self)@.sound(),
            match old(self)@.stake(
                stake_id.as_nat(),
                imbalance@.amount,
                minimum_balance.as_nat(),
            ) {
                Ok(stakes) => {
                    &&& final(self)@ == stakes
                    &&& r == Ok::<PoolActionOf<T>, StakeActionError<StakingError>>(
                        PoolAction::Deposit { imbalance },
                    )
                },
                Err(error) => final(self)@ == old(self)@ && r == Err::<PoolActionOf<T>, _>(error),
            },
    {
        if !self.stake_exists(stake_id) {
            return Err(StakeActionError::StakeNotFound);
        }
        let mut stake = self.stakes(stake_id);
        let value = imbalance.peek();
        match stake.start_staking(value, minimum_balance) {
            Ok(()) => {},
            Err(error) => {
                return Err(StakeActionError::from(error));
            },
        }
        put(&mut self.stakes, *stake_id, stake);
        Ok(Self::deposit_funds_into_stake_pool(imbalance))
    }

    /// Provided the stake exists and is in state NotStaked, returns the transfer to be made from
    /// the source account, with the stake that it makes. Nothing is staked until
    /// `finish_stake_from_account` has been told how the withdrawal went.
    pub fn stake_from_account(
        &self,
        stake_id: &T::StakeId,
        source_account_id: T::AccountId,
        value: T::Balance,
        minimum_balance: T::Balance,
    ) -> (r: Result<PendingTransfer<T>, StakeActionError<StakingFromAccountError>>)
        ensures
            self@.sound() ==> (r matches Ok(pending) ==> pending.sound(self@)),
            match self@.stake_from_account(
                stake_id.as_nat(),
                value.as_nat(),
                minimum_balance.as_nat(),
            ) {
                Ok(stake) => {
                    &&& r matches Ok(pending)
                    &&& pending.stake_id == *stake_id
                    &&& pending.stake@ == stake
                    &&& pending.source_account_id == source_account_id
                    &&& pending.value == value
                },
                Err(error) => r == Err::<PendingTransfer<T>, _>(error),
            },
    {
        if !self.stake_exists(stake_id) {
            return Err(StakeActionError::StakeNotFound);
        }
        let mut stake = self.stakes(stake_id);
        match stake.start_staking(value, minimum_balance) {
            Ok(()) => {},
            Err(error) => {
                return Err(StakeActionError::from(error));
            },
        }
        Ok(PendingTransfer { stake_id: *stake_id, stake, source_account_id, value })
    }

    /// Takes the outcome of the withdrawal that `stake_from_account` asked for. Where it went
    /// well, the stake is stored and the withdrawn funds are to be moved into the pool.
    pub fn finish_stake_from_account(
        &mut self,
        pending: PendingTransfer<T>,
        withdrawn: Option<NegativeImbalance<T::Balance>>,
    ) -> (r: Result<PoolActionOf<T>, StakeActionError<StakingFromAccountError>>)
        ensures
            old(self)@.sound() && pending.sound(old(self)@) ==> final(self)@.sound(),
            match withdrawn {
                Some(imbalance) => {
                    &&& final(self)@ == old(self)@.with_stake(
                        pending.stake_id.as_nat(),
                        pending.stake@,
                    )
                    &&& r == Ok::<PoolActionOf<T>, StakeActionError<StakingFromAccountError>>(
                        PoolAction::Deposit { imbalance },
                    )
                },
                None => {
                    &&& final(self)@ == old(self)@
                    &&& r == Err::<PoolActionOf<T>, StakeActionError<StakingFromAccountError>>(
                        StakeActionError::Error(
                            StakingFromAccountError::InsufficientBalanceInSourceAccount,
                        ),
                    )
                },
            },
    {
        match Self::transfer_funds_from_account_into_stake_pool(withdrawn) {
            Ok(action) => {
                let ghost stake = pending.stake@;
                put(&mut self.stakes, pending.stake_id, pending.stake);
                assert(self@ =~= old(self)@.with_stake(pending.stake_id.as_nat(), stake));
                Ok(action)
            },
            Err(error) => Err(StakeActionError::from(error)),
        }
    }

    /// Moves funds that were withdrawn from an account into the module's account. Where they could
    /// not be withdrawn, the account holds too little.
    pub fn transfer_funds_from_account_into_stake_pool(
        withdrawn: Option<NegativeImbalance<T::Balance>>,
    ) -> (r: Result<PoolActionOf<T>, TransferFromAccountError>)
        ensures
            r == match withdrawn {
                Some(imbalance) => Ok::<PoolActionOf<T>, TransferFromAccountError>(
                    PoolAction::Deposit { imbalance },
                ),
                None => Err(TransferFromAccountError::InsufficientBalance),
            },
    {
        match withdrawn {
            Some(imbalance) => Ok(Self::deposit_funds_into_stake_pool(imbalance)),
            None => Err(TransferFromAccountError::InsufficientBalance),
        }
    }

    /// Moves the negative imbalance into the stake pool.
    pub fn deposit_funds_into_stake_pool(imbalance: NegativeImbalance<T::Balance>) -> (r:
        PoolActionOf<T>)
        ensures
            r == (PoolAction::<T::AccountId, T::StakeId, T::SlashId, T::Balance>::Deposit {
                imbalance,
            }),
    {
        PoolAction::Deposit { imbalance }
    }

    /// Moves funds from the module's account into specified account.
    pub fn transfer_funds_from_pool_into_account(
        destination: T::AccountId,
        value: T::Balance,
    ) -> (r: PoolActionOf<T>)
        ensures
            r == (PoolAction::<T::AccountId, T::StakeId, T::SlashId, T::Balance>::Transfer {
                destination,
                amount: value,
            }),
    {
        PoolAction::Transfer { destination, amount: value }
    }

    /// Withdraws value from the pool, as a negative imbalance.
    pub fn withdraw_funds_from_stake_pool(value: T::Balance) -> (r: PoolActionOf<T>)
        ensures
            r == (PoolAction::<T::AccountId, T::StakeId, T::SlashId, T::Balance>::Withdraw {
                amount: value,
            }),
    {
        PoolAction::Withdraw { amount: value }
    }

    /// Dry run to see if the state of stake allows for increasing stake. This should be called
    /// to make sure increasing stake is possible before withdrawing funds.
    pub fn ensure_can_increase_stake(&self, stake_id: &T::StakeId, value: T::Balance) -> (r: Result<
        (),
        StakeActionError<IncreasingStakeError>,
    >)
        requires
            self@.increase_stake(stake_id.as_nat(), value.as_nat()) matches Ok(stakes)
                ==> stakes.stakes[stake_id.as_nat()].amount() <= T::Balance::max_nat(),
        ensures
            match self@.increase_stake(stake_id.as_nat(), value.as_nat()) {
                Ok(_) => r is Ok,
                Err(error) => r == Err::<(), _>(error),
            },
    {
        if !self.stake_exists(stake_id) {
            return Err(StakeActionError::StakeNotFound);
        }
        let mut stake = self.stakes(stake_id);
        match stake.increase_stake(value) {
            Ok(_) => Ok(()),
            Err(error) => Err(StakeActionError::Error(error)),
        }
    }

    /// Provided the stake exists and is in state Staked.Normal, then the amount is to be
    /// transferred to the module's account, and the corresponding staked_amount is increased by
    /// the value. New value of staked_amount is returned.
    /// Caller should call check ensure_can_increase_stake() prior to avoid getting back an error.
    /// On error, as the negative imbalance is not returned to the caller, it is the caller's
    /// responsibility to return the funds back to the source (by creating a new positive
    /// imbalance).
    pub fn increase_stake(
        &mut self,
        stake_id: &T::StakeId,
        imbalance: NegativeImbalance<T::Balance>,
    ) -> (r: Result<(T::Balance, PoolActionOf<T>), StakeActionError<IncreasingStakeError>>)
        requires
            old(self)@.increase_stake(stake_id.as_nat(), imbalance@.amount) matches Ok(stakes)
                ==> stakes.stakes[stake_id.as_nat()].amount() <= T::Balance::max_nat(),
        ensures
            old(self)@.sound() ==> final(self)@.sound(),
            match old(self)@.increase_stake(stake_id.as_nat(), imbalance@.amount) {
                Ok(stakes) => {
                    &&& final(self)@ == stakes
                    &&& r matches Ok((total, action))
                    &&& total.as_nat() == stakes.stakes[stake_id.as_nat()].amount()
                    &&& action == (PoolAction::<
                        T::AccountId,
                        T::StakeId,
                        T::SlashId,
                        T::Balance,
                    >::Deposit { imbalance })
                },
                Err(error) => {
                    &&& final(self)@ == old(self)@
                    &&& r == Err::<(T::Balance, PoolActionOf<T>), _>(error)
                },
            },
    {
        if !self.stake_exists(stake_id) {
            return Err(StakeActionError::StakeNotFound);
        }
        let mut stake = self.stakes(stake_id);
        let total_staked_amount = match stake.increase_stake(imbalance.peek()) {
            Ok(total) => total,
            Err(error) => {
                return Err(StakeActionError::from(error));
            },
        };
        put(&mut self.stakes, *stake_id, stake);
        Ok((total_staked_amount, Self::deposit_funds_into_stake_pool(imbalance)))
    }

    /// Provided the stake exists and is in state Staked.Normal, returns the transfer to be made
    /// from the source account, with the stake that it makes. Nothing is staked until
    /// `finish_increase_stake_from_account` has been told how the withdrawal went.
    pub fn increase_stake_from_account(
        &self,
        stake_id: &T::StakeId,
        source_account_id: T::AccountId,
        value: T::Balance,
    ) -> (r: Result<PendingTransfer<T>, StakeActionError<IncreasingStakeFromAccountError>>)
        requires
            self@.increase_stake_from_account(stake_id.as_nat(), value.as_nat()) matches Ok(stake)
                ==> stake.amount() <= T::Balance::max_nat(),
        ensures
            self@.sound() ==> (r matches Ok(pending) ==> pending.sound(self@)),
            match self@.increase_stake_from_account(stake_id.as_nat(), value.as_nat()) {
                Ok(stake) => {
                    &&& r matches Ok(pending)
                    &&& pending.stake_id == *stake_id
                    &&& pending.stake@ == stake
                    &&& pending.source_account_id == source_account_id
                    &&& pending.value == value
                },
                Err(error) => r == Err::<PendingTransfer<T>, _>(error),
            },
    {
        if !self.stake_exists(stake_id) {
            return Err(StakeActionError::StakeNotFound);
        }
        let mut stake = self.stakes(stake_id);
        match stake.increase_stake(value) {
            Ok(_) => {},
            Err(error) => {
                return Err(StakeActionError::from(error));
            },
        }
        Ok(PendingTransfer { stake_id: *stake_id, stake, source_account_id, value })
    }

    /// Takes the outcome of the withdrawal that `increase_stake_from_account` asked for. Where it
    /// went well, the stake is stored, the withdrawn funds are to be moved into the pool, and the
    /// new value of staked_amount is returned.
    pub fn finish_increase_stake_from_account(
        &mut self,
        pending: PendingTransfer<T>,
        withdrawn: Option<NegativeImbalance<T::Balance>>,
    ) -> (r: Result<
        (T::Balance, PoolActionOf<T>),
        StakeActionError<IncreasingStakeFromAccountError>,
    >)
        ensures
            old(self)@.sound() && pending.sound(old(self)@) ==> final(self)@.sound(),
            match withdrawn {
                Some(imbalance) => {
                    &&& final(self)@ == old(self)@.with_stake(
                        pending.stake_id.as_nat(),
                        pending.stake@,
                    )
                    &&& r matches Ok((total, action))
                    &&& total.as_nat() == pending.stake@.amount()
                    &&& action == (PoolAction::<
                        T::AccountId,
                        T::StakeId,
                        T::SlashId,
                        T::Balance,
                    >::Deposit { imbalance })
                },
                None => {
                    &&& final(self)@ == old(self)@
                    &&& r == Err::<
                        (T::Balance, PoolActionOf<T>),
                        StakeActionError<IncreasingStakeFromAccountError>,
                    >(
                        StakeActionError::Error(
                            IncreasingStakeFromAccountError::InsufficientBalanceInSourceAccount,
                        ),
                    )
                },
            },
    {
        match Self::transfer_funds_from_account_into_stake_pool(withdrawn) {
            Ok(action) => {
                let total_staked_amount = pending.stake.staked_amount();
                let ghost stake = pending.stake@;
                put(&mut self.stakes, pending.stake_id, pending.stake);
                assert(self@ =~= old(self)@.with_stake(pending.stake_id.as_nat(), stake));
                Ok((total_staked_amount, action))
            },
            Err(error) => Err(StakeActionError::from(error)),
        }
    }

    /// Dry run to see if the state of stake allows for decreasing stake.
    pub fn ensure_can_decrease_stake(
        &self,
        stake_id: &T::StakeId,
        value: T::Balance,
        minimum_balance: T::Balance,
    ) -> (r: Result<(), StakeActionError<DecreasingStakeError>>)
        ensures
            match self@.decrease_stake(
                stake_id.as_nat(),
                value.as_nat(),
                minimum_balance.as_nat(),
            ) {
                Ok(_) => r is Ok,
                Err(error) => r == Err::<(), _>(error),
            },
    {
        if !self.stake_exists(stake_id) {
            return Err(StakeActionError::StakeNotFound);
        }
        let mut stake = self.stakes(stake_id);
        match stake.decrease_stake(value, minimum_balance) {
            Ok(_) => Ok(()),
            Err(error) => Err(StakeActionError::Error(error)),
        }
    }

    /// Provided the stake exists and is in state Staked.Normal, and the given stake holds at least
    /// the value, then the value is to be withdrawn from the module's account and handed to the
    /// caller, and the corresponding staked_amount is decreased by the value. Where less than
    /// minimum_balance would be left, the whole stake goes. New value of staked_amount is
    /// returned.
    pub fn decrease_stake(
        &mut self,
        stake_id: &T::StakeId,
        value: T::Balance,
        minimum_balance: T::Balance,
    ) -> (r: Result<(T::Balance, PoolActionOf<T>), StakeActionError<DecreasingStakeError>>)
        ensures
            old(self)@.sound() ==> final(self)@.sound(),
            match old(self)@.decrease_stake(
                stake_id.as_nat(),
                value.as_nat(),
                minimum_balance.as_nat(),
            ) {
                Ok(stakes) => {
                    &&& final(self)@ == stakes
                    &&& r matches Ok((remaining, action))
                    &&& remaining.as_nat() == stakes.stakes[stake_id.as_nat()].amount()
                    &&& action@ == (PoolAction::<T::AccountId, nat, nat, nat>::Withdraw {
                        amount: old(self)@.released(stakes, stake_id.as_nat()),
                    })
                },
                Err(error) => {
                    &&& final(self)@ == old(self)@
                    &&& r == Err::<(T::Balance, PoolActionOf<T>), _>(error)
                },
            },
    {
        if !self.stake_exists(stake_id) {
            return Err(StakeActionError::StakeNotFound);
        }
        let mut stake = self.stakes(stake_id);
        let (deduct_from_pool, staked_amount) = match stake.decrease_stake(value, minimum_balance) {
            Ok(amounts) => amounts,
            Err(error) => {
                return Err(StakeActionError::from(error));
            },
        };
        put(&mut self.stakes, *stake_id, stake);
        Ok((staked_amount, Self::withdraw_funds_from_stake_pool(deduct_from_pool)))
    }

    /// Provided the stake exists and is in state Staked.Normal, and the given stake holds at least
    /// the value, then the value is to be transferred from the module's account to the
    /// destination_account, and the corresponding staked_amount is decreased by the value. Where
    /// less than minimum_balance would be left, the whole stake goes. New value of staked_amount
    /// is returned.
    pub fn decrease_stake_to_account(
        &mut self,
        stake_id: &T::StakeId,
        destination_account_id: T::AccountId,
        value: T::Balance,
        minimum_balance: T::Balance,
    ) -> (r: Result<(T::Balance, PoolActionOf<T>), StakeActionError<DecreasingStakeError>>)
        ensures
            old(self)@.sound() ==> final(self)@.sound(),
            match old(self)@.decrease_stake(
                stake_id.as_nat(),
                value.as_nat(),
                minimum_balance.as_nat(),
            ) {
                Ok(stakes) => {
                    &&& final(self)@ == stakes
                    &&& r matches Ok((remaining, action))
                    &&& remaining.as_nat() == stakes.stakes[stake_id.as_nat()].amount()
                    &&& action@ == (PoolAction::<T::AccountId, nat, nat, nat>::Transfer {
                        destination: destination_account_id,
                        amount: old(self)@.released(stakes, stake_id.as_nat()),
                    })
                },
                Err(error) => {
                    &&& final(self)@ == old(self)@
                    &&& r == Err::<(T::Balance, PoolActionOf<T>), _>(error)
                },
            },
    {
        if !self.stake_exists(stake_id) {
            return Err(StakeActionError::StakeNotFound);
        }
        let mut stake = self.stakes(stake_id);
        let (deduct_from_pool, staked_amount) = match stake.decrease_stake(value, minimum_balance) {
            Ok(amounts) => amounts,
            Err(error) => {
                return Err(StakeActionError::from(error));
            },
        };
        put(&mut self.stakes, *stake_id, stake);
        Ok(
            (
                staked_amount,
                Self::transfer_funds_from_pool_into_account(
                    destination_account_id,
                    deduct_from_pool,
                ),
            ),
        )
    }

    /// Initiate a new slashing of a staked stake.
    pub fn initiate_slashing(
        &mut self,
        stake_id: &T::StakeId,
        slash_amount: T::Balance,
        slash_period: T::BlockNumber,
        now: T::BlockNumber,
    ) -> (r: Result<T::SlashId, StakeActionError<InitiateSlashingError>>)
        requires
            old(self)@.initiate_slashing(
                stake_id.as_nat(),
                slash_amount.as_nat(),
                slash_period.as_nat(),
                now.as_nat(),
            ) matches Ok(stakes) ==> stakes.stakes[stake_id.as_nat()].next_slash_id()
                <= T::SlashId::max_nat(),
        ensures
            old(self)@.sound() ==> final(self)@.sound(),
            match old(self)@.initiate_slashing(
                stake_id.as_nat(),
                slash_amount.as_nat(),
                slash_period.as_nat(),
                now.as_nat(),
            ) {
                Ok(stakes) => {
                    &&& final(self)@ == stakes
                    &&& r matches Ok(slash_id)
                    &&& slash_id.as_nat() == old(self)@.stakes[stake_id.as_nat()].next_slash_id()
                },
                Err(error) => final(self)@ == old(self)@ && r == Err::<T::SlashId, _>(error),
            },
    {
        if !self.stake_exists(stake_id) {
            return Err(StakeActionError::StakeNotFound);
        }
        let mut stake = self.stakes(stake_id);
        let slash_id = match stake.initiate_slashing(slash_amount, slash_period, now) {
            Ok(slash_id) => slash_id,
            Err(error) => {
                return Err(StakeActionError::from(error));
            },
        };
        put(&mut self.stakes, *stake_id, stake);
        Ok(slash_id)
    }

    /// Pause an ongoing slashing.
    pub fn pause_slashing(
        &mut self,
        stake_id: &T::StakeId,
        slash_id: &T::SlashId,
    ) -> (r: Result<(), StakeActionError<PauseSlashingError>>)
        ensures
            old(self)@.sound() ==> final(self)@.sound(),
            match old(self)@.pause_slashing(stake_id.as_nat(), slash_id.as_nat()) {
                Ok(stakes) => final(self)@ == stakes && r is Ok,
                Err(error) => final(self)@ == old(self)@ && r == Err::<(), _>(error),
            },
    {
        if !self.stake_exists(stake_id) {
            return Err(StakeActionError::StakeNotFound);
        }
        let mut stake = self.stakes(stake_id);
        match stake.pause_slashing(slash_id) {
            Ok(()) => {},
            Err(error) => {
                return Err(StakeActionError::from(error));
            },
        }
        put(&mut self.stakes, *stake_id, stake);
        Ok(())
    }

    /// Resume a currently paused ongoing slashing.
    pub fn resume_slashing(
        &mut self,
        stake_id: &T::StakeId,
        slash_id: &T::SlashId,
    ) -> (r: Result<(), StakeActionError<ResumeSlashingError>>)
        ensures
            old(self)@.sound() ==> final(self)@.sound(),
            match old(self)@.resume_slashing(stake_id.as_nat(), slash_id.as_nat()) {
                Ok(stakes) => final(self)@ == stakes && r is Ok,
                Err(error) => final(self)@ == old(self)@ && r == Err::<(), _>(error),
            },
    {
        if !self.stake_exists(stake_id) {
            return Err(StakeActionError::StakeNotFound);
        }
        let mut stake = self.stakes(stake_id);
        match stake.resume_slashing(slash_id) {
            Ok(()) => {},
            Err(error) => {
                return Err(StakeActionError::from(error));
            },
        }
        put(&mut self.stakes, *stake_id, stake);
        Ok(())
    }

    /// Cancel an ongoing slashing (regardless of whether its active or paused).
    pub fn cancel_slashing(
        &mut self,
        stake_id: &T::StakeId,
        slash_id: &T::SlashId,
    ) -> (r: Result<(), StakeActionError<CancelSlashingError>>)
        ensures
            old(self)@.sound() ==> final(self)@.sound(),
            match old(self)@.cancel_slashing(stake_id.as_nat(), slash_id.as_nat()) {
                Ok(stakes) => final(self)@ == stakes && r is Ok,
                Err(error) => final(self)@ == old(self)@ && r == Err::<(), _>(error),
            },
    {
        if !self.stake_exists(stake_id) {
            return Err(StakeActionError::StakeNotFound);
        }
        let mut stake = self.stakes(stake_id);
        match stake.cancel_slashing(slash_id) {
            Ok(()) => {},
            Err(error) => {
                return Err(StakeActionError::from(error));
            },
        }
        put(&mut self.stakes, *stake_id, stake);
        Ok(())
    }

    /// Initiate unstaking of a Staked stake. Without a period it is unstaked at once, and what was
    /// at stake is to be withdrawn from the pool.
    pub fn initiate_unstaking(
        &mut self,
        stake_id: &T::StakeId,
        unstaking_period: Option<T::BlockNumber>,
        now: T::BlockNumber,
    ) -> (r: Result<Option<PoolActionOf<T>>, StakeActionError<InitiateUnstakingError>>)
        ensures
            old(self)@.sound() ==> final(self)@.sound(),
            match old(self)@.initiate_unstaking(
                stake_id.as_nat(),
                match unstaking_period {
                    Some(period) => Some(period.as_nat()),
                    None => None,
                },
                now.as_nat(),
            ) {
                Ok(stakes) => {
                    &&& final(self)@ == stakes
                    &&& r matches Ok(action)
                    &&& action is Some == unstaking_period is None
                    &&& action matches Some(action) ==> action@ == (PoolAction::<
                        T::AccountId,
                        nat,
                        nat,
                        nat,
                    >::Unstaked {
                        stake_id: stake_id.as_nat(),
                        amount: old(self)@.released(stakes, stake_id.as_nat()),
                    })
                },
                Err(error) => {
                    &&& final(self)@ == old(self)@
                    &&& r == Err::<Option<PoolActionOf<T>>, _>(error)
                },
            },
    {
        if !self.stake_exists(stake_id) {
            return Err(StakeActionError::StakeNotFound);
        }
        let mut stake = self.stakes(stake_id);
        match unstaking_period {
            Some(unstaking_period) => {
                match stake.initiate_unstaking(unstaking_period, now) {
                    Ok(()) => {},
                    Err(error) => {
                        return Err(StakeActionError::from(error));
                    },
                }
                put(&mut self.stakes, *stake_id, stake);
                Ok(None)
            },
            None => {
                let staked_amount = match stake.unstake() {
                    Ok(amount) => amount,
                    Err(error) => {
                        return Err(StakeActionError::from(error));
                    },
                };
                put(&mut self.stakes, *stake_id, stake);
                Ok(Some(PoolAction::Unstaked { stake_id: *stake_id, amount: staked_amount }))
            },
        }
    }

    /// Pause an ongoing Unstaking.
    pub fn pause_unstaking(
        &mut self,
        stake_id: &T::StakeId,
    ) -> (r: Result<(), StakeActionError<PauseUnstakingError>>)
        ensures
            old(self)@.sound() ==> final(self)@.sound(),
            match old(self)@.pause_unstaking(stake_id.as_nat()) {
                Ok(stakes) => final(self)@ == stakes && r is Ok,
                Err(error) => final(self)@ == old(self)@ && r == Err::<(), _>(error),
            },
    {
        if !self.stake_exists(stake_id) {
            return Err(StakeActionError::StakeNotFound);
        }
        let mut stake = self.stakes(stake_id);
        match stake.pause_unstaking() {
            Ok(()) => {},
            Err(error) => {
                return Err(StakeActionError::from(error));
            },
        }
        put(&mut self.stakes, *stake_id, stake);
        Ok(())
    }

    /// Resume a currently paused ongoing unstaking.
    pub fn resume_unstaking(
        &mut self,
        stake_id: &T::StakeId,
    ) -> (r: Result<(), StakeActionError<ResumeUnstakingError>>)
        ensures
            old(self)@.sound() ==> final(self)@.sound(),
            match old(self)@.resume_unstaking(stake_id.as_nat()) {
                Ok(stakes) => final(self)@ == stakes && r is Ok,
                Err(error) => final(self)@ == old(self)@ && r == Err::<(), _>(error),
            },
    {
        if !self.stake_exists(stake_id) {
            return Err(StakeActionError::StakeNotFound);
        }
        let mut stake = self.stakes(stake_id);
        match stake.resume_unstaking() {
            Ok(()) => {},
            Err(error) => {
                return Err(StakeActionError::from(error));
            },
        }
        put(&mut self.stakes, *stake_id, stake);
        Ok(())
    }

    /// Begins to finalize a block: all stakes that exist are to be gone through.
    pub fn begin_finalization(&self) -> (finalization: Finalization<T::StakeId>)
        ensures
            finalization@ == self@.newest_first(),
    {
        let remaining = keys_in_order(&self.stakes);
        Finalization { remaining }
    }

    /// Handle timers for finalizing unstaking and slashing of one stake.
    ///
    /// What is returned is to be done in the given order. The stake has been brought up to date by
    /// then.
    pub fn finalize_stake(&mut self, stake_id: &T::StakeId, minimum_balance: T::Balance) -> (
    actions: Vec<PoolActionOf<T>>)
        ensures
            old(self)@.sound() ==> final(self)@.sound(),
            final(self)@ == old(self)@.finalize_stake(
                stake_id.as_nat(),
                minimum_balance.as_nat(),
            ),
            actions_by_number::<T>(actions@) == old(self)@.finalize_stake_actions::<T::AccountId>(
                stake_id.as_nat(),
                minimum_balance.as_nat(),
            ),
    {
        let mut actions: Vec<PoolActionOf<T>> = Vec::new();
        if !self.stake_exists(stake_id) {
            assert(actions_by_number::<T>(actions@) =~= Seq::empty());
            return actions;
        }
        let mut stake = self.stakes(stake_id);
        let ghost before = stake@;
        let (updated, slashed, unstaked) = stake.finalize_slashing_and_unstaking(minimum_balance);
        // update the state before anything is done with the funds
        if updated {
            put(&mut self.stakes, *stake_id, stake);
        }
        let ghost wanted = before.executed_slashes(minimum_balance.as_nat()).map_values(
            |o: (nat, nat, nat)|
                PoolAction::<T::AccountId, nat, nat, nat>::Slashed {
                    stake_id: stake_id.as_nat(),
                    slash_id: o.0,
                    amount: o.1,
                    remaining_stake: o.2,
                },
        );
        let mut i: usize = 0;
        while i < slashed.len()
            invariant
                i <= slashed@.len(),
                outcomes_by_number(slashed@) == before.executed_slashes(minimum_balance.as_nat()),
                wanted == before.executed_slashes(minimum_balance.as_nat()).map_values(
                    |o: (nat, nat, nat)|
                        PoolAction::<T::AccountId, nat, nat, nat>::Slashed {
                            stake_id: stake_id.as_nat(),
                            slash_id: o.0,
                            amount: o.1,
                            remaining_stake: o.2,
                        },
                ),
                actions_by_number::<T>(actions@) == wanted.take(i as int),
            decreases slashed@.len() - i,
        {
            let (slash_id, slashed_amount, staked_amount) = slashed[i];
            let ghost earlier = actions@;
            // remove the slashed amount from the pool
            actions.push(
                PoolAction::Slashed {
                    stake_id: *stake_id,
                    slash_id,
                    amount: slashed_amount,
                    remaining_stake: staked_amount,
                },
            );
            proof {
                assert(outcomes_by_number(slashed@)[i as int] == (
                    slash_id.as_nat(),
                    slashed_amount.as_nat(),
                    staked_amount.as_nat(),
                ));
                assert(actions_by_number::<T>(actions@) =~= actions_by_number::<T>(earlier).push(
                    wanted[i as int],
                ));
                assert(wanted.take(i + 1) =~= wanted.take(i as int).push(wanted[i as int]));
            }
            i = i + 1;
        }
        assert(wanted.take(wanted.len() as int) =~= wanted);
        if let Some(staked_amount) = unstaked {
            let ghost earlier = actions@;
            // remove the unstaked amount from the pool
            actions.push(PoolAction::Unstaked { stake_id: *stake_id, amount: staked_amount });
            assert(actions_by_number::<T>(actions@) =~= actions_by_number::<T>(earlier).push(
                actions@.last()@,
            ));
        }
        actions
    }

    /// Handle timers for finalizing unstaking and slashing of the next stake, the most recently
    /// created one first. When all stakes have had their turn there is nothing more to be done.
    /// Finalised unstaking results in the staked_balance in the given stake to be removed from the
    /// pool, and the corresponding imbalance to be provided to the unstaked() hook.
    /// Finalised slashing results in the staked_balance in the given stake being correspondingly
    /// reduced, and the imbalance to be provided to the slashed() hook.
    ///
    /// What is returned is to be done, in the given order, before the next stake has its turn. A
    /// handler may make requests meanwhile: a stake is read when its turn comes, and is passed over
    /// where it has been removed; stakes that are created have to wait for the next block.
    pub fn finalize_slashing_and_unstaking(
        &mut self,
        finalization: &mut Finalization<T::StakeId>,
        minimum_balance: T::Balance,
    ) -> (r: Option<Vec<PoolActionOf<T>>>)
        ensures
            old(self)@.sound() ==> final(self)@.sound(),
            r is None == (old(finalization)@.len() == 0),
            match r {
                Some(actions) => {
                    let stake_id = old(finalization)@.first();
                    &&& final(finalization)@ == old(finalization)@.drop_first()
                    &&& final(self)@ == old(self)@.finalize_stake(
                        stake_id,
                        minimum_balance.as_nat(),
                    )
                    &&& actions_by_number::<T>(actions@)
                        == old(self)@.finalize_stake_actions::<T::AccountId>(
                        stake_id,
                        minimum_balance.as_nat(),
                    )
                },
                None => final(self)@ == old(self)@ && final(finalization)@ == old(finalization)@,
            },
    {
        match finalization.remaining.pop() {
            Some(stake_id) => {
                assert(finalization@ =~= old(finalization)@.drop_first());
                Some(self.finalize_stake(&stake_id, minimum_balance))
            },
            None => None,
        }
    }

    /// Hands value that was withdrawn from the pool to the handler of staking events, where the
    /// action is one that the handler is told of, and returns what the handler has left of it.
    pub fn notify(
        action: &PoolActionOf<T>,
        imbalance: NegativeImbalance<T::Balance>,
    ) -> (left: NegativeImbalance<T::Balance>)
        ensures
            left.amount.as_nat() <= imbalance.amount.as_nat(),
            match *action {
                PoolAction::Unstaked { stake_id, amount } => {
                    T::StakingEventsHandler::unstaked_leaves(stake_id, amount, imbalance, left)
                },
                PoolAction::Slashed { stake_id, slash_id, amount, remaining_stake } => {
                    T::StakingEventsHandler::slashed_leaves(
                        stake_id,
                        slash_id,
                        amount,
                        remaining_stake,
                        imbalance,
                        left,
                    )
                },
                _ => left == imbalance,
            },
    {
        match action {
            PoolAction::Unstaked { stake_id, amount } => T::StakingEventsHandler::unstaked(
                stake_id,
                *amount,
                imbalance,
            ),
            PoolAction::Slashed {
                stake_id,
                slash_id,
                amount,
                remaining_stake,
            } => T::StakingEventsHandler::slashed(
                stake_id,
                slash_id,
                *amount,
                *remaining_stake,
                imbalance,
            ),
            _ => imbalance,
        }
    }
}

} // verus!
