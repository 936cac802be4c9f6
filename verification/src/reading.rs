//! How stakes, and what is told of them, are read over the natural numbers: one for one, with
//! nothing lost and nothing added.
use crate::arithmetic::SimpleArithmetic;
use crate::module::{actions_by_number, Finalization, Module, PoolActionOf, Trait};
use crate::ordered::lemma_by_number_lookup;
use crate::pool::PoolAction;
use crate::stake::{Stake, StakingStatus, StakingStatusView};
use crate::staked::{
    outcomes_by_number, slashes_by_number, Slash, StakedState, StakedStatus,
};
use vstd::prelude::*;

verus! {

/// A slash is read field by field.
pub proof fn law_a_slash_is_read_one_for_one<
    BlockNumber: SimpleArithmetic,
    Balance: SimpleArithmetic,
>(slash: Slash<BlockNumber, Balance>)
    ensures
        slash@.is_active == slash.is_active,
        slash@.started_at_block == slash.started_at_block.as_nat(),
        slash@.slash_amount == slash.slash_amount.as_nat(),
        slash@.blocks_remaining_in_active_period_for_slashing
            == slash.blocks_remaining_in_active_period_for_slashing.as_nat(),
{
}

/// Funds at stake are read field by field, and their slashes under their identifiers.
pub proof fn law_funds_at_stake_are_read_one_for_one<
    BlockNumber: SimpleArithmetic,
    Balance: SimpleArithmetic,
    SlashId: SimpleArithmetic,
>(state: StakedState<BlockNumber, Balance, SlashId>, slash_id: SlashId)
    ensures
        state@.staked_amount == state.staked_amount.as_nat(),
        state@.next_slash_id == state.next_slash_id.as_nat(),
        match state.staked_status {
            StakedStatus::Normal => state@.staked_status is Normal,
            StakedStatus::Unstaking(unstaking) => {
                &&& state@.staked_status matches StakedStatus::Unstaking(read)
                &&& read.is_active == unstaking.is_active
                &&& read.started_at_block == unstaking.started_at_block.as_nat()
                &&& read.blocks_remaining_in_active_period_for_unstaking
                    == unstaking.blocks_remaining_in_active_period_for_unstaking.as_nat()
            },
        },
        state@.ongoing_slashes.contains_key(slash_id.as_nat())
            <==> state.ongoing_slashes@.contains_key(slash_id),
        state.ongoing_slashes@.contains_key(slash_id) ==> state@.ongoing_slashes[slash_id.as_nat()]
            == state.ongoing_slashes@[slash_id]@,
{
    lemma_by_number_lookup(state.ongoing_slashes@, slash_id);
}

/// A stake is read with the block at which it was created, and with its funds where there are any.
pub proof fn law_a_stake_is_read_one_for_one<
    BlockNumber: SimpleArithmetic,
    Balance: SimpleArithmetic,
    SlashId: SimpleArithmetic,
>(stake: Stake<BlockNumber, Balance, SlashId>)
    ensures
        stake@.created == stake.created.as_nat(),
        match stake.staking_status {
            StakingStatus::NotStaked => stake@.staking_status is NotStaked,
            StakingStatus::Staked(state) => {
                stake@.staking_status matches StakingStatusView::Staked(read) && read == state@
            },
        },
{
}

/// The stakes of a runtime are read under their identifiers.
pub proof fn law_stakes_are_read_one_for_one<T: Trait>(module: Module<T>, stake_id: T::StakeId)
    ensures
        module@.stakes_created == module.stakes_created.as_nat(),
        module@.stakes.contains_key(stake_id.as_nat()) <==> module.stakes@.contains_key(stake_id),
        module.stakes@.contains_key(stake_id) ==> module@.stakes[stake_id.as_nat()]
            == module.stakes@[stake_id]@,
{
    lemma_by_number_lookup(module.stakes@, stake_id);
}

/// The stakes that are still to have their turn are read from the last one to the first.
pub proof fn law_remaining_stakes_are_read_from_the_end<StakeId: SimpleArithmetic>(
    finalization: Finalization<StakeId>,
)
    ensures
        finalization@.len() == finalization.remaining@.len(),
        forall|i: int|
            0 <= i < finalization@.len() ==> #[trigger] finalization@[i]
                == finalization.remaining@[finalization@.len() - 1 - i].as_nat(),
{
}

/// Outcomes and slashes are listed over the natural numbers one for one.
pub proof fn law_lists_are_read_one_for_one<
    BlockNumber: SimpleArithmetic,
    Balance: SimpleArithmetic,
    SlashId: SimpleArithmetic,
>(executed: Seq<(SlashId, Balance, Balance)>, slashes: Seq<(SlashId, Slash<BlockNumber, Balance>)>)
    ensures
        outcomes_by_number(executed).len() == executed.len(),
        forall|i: int|
            0 <= i < executed.len() ==> {
                &&& (#[trigger] outcomes_by_number(executed)[i]).0 == executed[i].0.as_nat()
                &&& outcomes_by_number(executed)[i].1 == executed[i].1.as_nat()
                &&& outcomes_by_number(executed)[i].2 == executed[i].2.as_nat()
            },
        slashes_by_number(slashes).len() == slashes.len(),
        forall|i: int|
            0 <= i < slashes.len() ==> {
                let (id, slash) = #[trigger] slashes_by_number(slashes)[i];
                &&& id == slashes[i].0.as_nat()
                &&& slash.is_active == slashes[i].1.is_active
                &&& slash.started_at_block == slashes[i].1.started_at_block.as_nat()
                &&& slash.slash_amount == slashes[i].1.slash_amount.as_nat()
                &&& slash.blocks_remaining_in_active_period_for_slashing
                    == slashes[i].1.blocks_remaining_in_active_period_for_slashing.as_nat()
            },
{
}

/// What is to be done with the funds in the pool is read over the natural numbers one for one.
pub proof fn law_actions_are_read_one_for_one<
    AccountId,
    StakeId: SimpleArithmetic,
    SlashId: SimpleArithmetic,
    Balance: SimpleArithmetic,
>(action: PoolAction<AccountId, StakeId, SlashId, Balance>)
    ensures
        match action {
            PoolAction::Deposit { imbalance } => {
                &&& action@ matches PoolAction::Deposit { imbalance: read }
                &&& read.amount == imbalance.amount.as_nat()
            },
            PoolAction::Withdraw { amount } => {
                action@ matches PoolAction::Withdraw { amount: read } && read == amount.as_nat()
            },
            PoolAction::Transfer { destination, amount } => {
                &&& action@ matches PoolAction::Transfer { destination: to, amount: read }
                &&& to == destination
                &&& read == amount.as_nat()
            },
            PoolAction::Unstaked { stake_id, amount } => {
                &&& action@ matches PoolAction::Unstaked { stake_id: of, amount: read }
                &&& of == stake_id.as_nat()
                &&& read == amount.as_nat()
            },
            PoolAction::Slashed { stake_id, slash_id, amount, remaining_stake } => {
                &&& action@ matches PoolAction::Slashed {
                    stake_id: of,
                    slash_id: slash,
                    amount: read,
                    remaining_stake: remaining,
                }
                &&& of == stake_id.as_nat()
                &&& slash == slash_id.as_nat()
                &&& read == amount.as_nat()
                &&& remaining == remaining_stake.as_nat()
            },
        },
{
}

/// Actions are listed over the natural numbers one for one.
pub proof fn law_lists_of_actions_are_read_one_for_one<T: Trait>(actions: Seq<PoolActionOf<T>>)
    ensures
        actions_by_number::<T>(actions).len() == actions.len(),
        forall|i: int|
            0 <= i < actions.len() ==> #[trigger] actions_by_number::<T>(actions)[i]
                == actions[i]@,
{
}

} // verus!
