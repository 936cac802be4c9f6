//! What each request on a stake is for: when it is granted, what it changes, and what it leaves
//! alone.
use crate::errors::{
    CancelSlashingError, DecreasingStakeError, IncreasingStakeError, InitiateSlashingError,
    InitiateUnstakingError, PauseSlashingError, PauseUnstakingError, ResumeSlashingError,
    ResumeUnstakingError, StakingError, UnstakingError,
};
use crate::stake::{StakeView, StakingStatusView};
use crate::staked::StakedStatus;
use crate::timers::{
    law_an_active_slash_is_executed_when_its_period_is_over,
    law_an_unstaking_is_finished_when_its_period_is_over,
};
use vstd::prelude::*;

verus! {

/// The amount of a stake is what is at stake in it, and nothing where there is no staking. The
/// identifiers of its slashes go on from the one that it holds.
pub proof fn law_amount_and_next_identifier_are_those_of_the_funds(stake: StakeView)
    ensures
        stake.staking_status is NotStaked ==> stake.amount() == 0 && stake.next_slash_id() == 0,
        stake.staking_status matches StakingStatusView::Staked(state) ==> stake.amount()
            == state.staked_amount && stake.next_slash_id() == state.next_slash_id,
{
}

/// Staking is granted for every value that is neither nought nor below the minimum balance, where
/// nothing is at stake yet. Exactly the value is at stake then, and nothing has happened to it.
pub proof fn law_staking_puts_the_value_at_stake(
    stake: StakeView,
    value: nat,
    minimum_balance: nat,
)
    ensures
        stake.start_staking(value, minimum_balance) is Ok <==> value > 0 && value
            >= minimum_balance && stake.staking_status is NotStaked,
        stake.start_staking(value, minimum_balance) == Err::<StakeView, StakingError>(
            StakingError::CannotStakeZero,
        ) <==> value == 0,
        stake.start_staking(value, minimum_balance) == Err::<StakeView, StakingError>(
            StakingError::CannotStakeLessThanMinimumBalance,
        ) <==> 0 < value < minimum_balance,
        stake.start_staking(value, minimum_balance) == Err::<StakeView, StakingError>(
            StakingError::AlreadyStaked,
        ) <==> value > 0 && value >= minimum_balance && stake.staking_status is Staked,
        stake.start_staking(value, minimum_balance) matches Ok(after) ==> {
            &&& after.created == stake.created
            &&& after.staking_status matches StakingStatusView::Staked(state)
            &&& state.staked_amount == value
            &&& state.staked_status is Normal
            &&& state.next_slash_id == 0
            &&& forall|id: nat| !#[trigger] state.ongoing_slashes.contains_key(id)
        },
{
}

/// Increasing by any value but nought is granted for every stake that is staked and not unstaking,
/// whatever slashes are ongoing. The value is added to what was at stake, and nothing else changes.
pub proof fn law_increasing_adds_the_value(stake: StakeView, value: nat)
    ensures
        stake.increase_stake(value) is Ok <==> value > 0 && (
        stake.staking_status matches StakingStatusView::Staked(state)
            && state.staked_status is Normal),
        stake.increase_stake(value) == Err::<StakeView, IncreasingStakeError>(
            IncreasingStakeError::CannotChangeStakeByZero,
        ) <==> value == 0,
        stake.increase_stake(value) == Err::<StakeView, IncreasingStakeError>(
            IncreasingStakeError::NotStaked,
        ) <==> value > 0 && stake.staking_status is NotStaked,
        stake.increase_stake(value) == Err::<StakeView, IncreasingStakeError>(
            IncreasingStakeError::CannotIncreaseStakeWhileUnstaking,
        ) <==> value > 0 && (stake.staking_status matches StakingStatusView::Staked(state)
            && state.staked_status is Unstaking),
        stake.increase_stake(value) matches Ok(after) ==> {
            &&& after.created == stake.created
            &&& stake.staking_status matches StakingStatusView::Staked(before)
            &&& after.staking_status matches StakingStatusView::Staked(state)
            &&& state.staked_amount == before.staked_amount + value
            &&& state.staked_status == before.staked_status
            &&& state.next_slash_id == before.next_slash_id
            &&& state.ongoing_slashes == before.ongoing_slashes
        },
{
}

/// Increasing twice is increasing once by both values together.
pub proof fn law_increases_add_up(stake: StakeView, first: nat, second: nat)
    requires
        first > 0,
        second > 0,
    ensures
        match stake.increase_stake(first) {
            Ok(once) => once.increase_stake(second) == stake.increase_stake(first + second),
            Err(error) => stake.increase_stake(first + second) == Err::<StakeView, _>(error),
        },
{
}

/// Decreasing by any value but nought is granted for every stake that holds at least the value, is
/// not unstaking, and has no ongoing slash. The value is taken out where the minimum balance can
/// stay at stake, and all of it else; nothing but the amount changes.
pub proof fn law_decreasing_takes_the_value_out_or_all(
    stake: StakeView,
    value: nat,
    minimum_balance: nat,
)
    ensures
        stake.decrease_stake(value, minimum_balance) is Ok <==> value > 0 && (
        stake.staking_status matches StakingStatusView::Staked(state)
            && state.staked_status is Normal && state.ongoing_slashes.is_empty() && value
            <= state.staked_amount),
        stake.decrease_stake(value, minimum_balance) == Err::<StakeView, DecreasingStakeError>(
            DecreasingStakeError::CannotChangeStakeByZero,
        ) <==> value == 0,
        stake.decrease_stake(value, minimum_balance) == Err::<StakeView, DecreasingStakeError>(
            DecreasingStakeError::NotStaked,
        ) <==> value > 0 && stake.staking_status is NotStaked,
        stake.decrease_stake(value, minimum_balance) == Err::<StakeView, DecreasingStakeError>(
            DecreasingStakeError::CannotDecreaseStakeWhileUnstaking,
        ) <==> value > 0 && (stake.staking_status matches StakingStatusView::Staked(state)
            && state.staked_status is Unstaking),
        stake.decrease_stake(value, minimum_balance) == Err::<StakeView, DecreasingStakeError>(
            DecreasingStakeError::CannotDecreaseStakeWhileOngoingSlahes,
        ) <==> value > 0 && (stake.staking_status matches StakingStatusView::Staked(state)
            && state.staked_status is Normal && !state.ongoing_slashes.is_empty()),
        stake.decrease_stake(value, minimum_balance) == Err::<StakeView, DecreasingStakeError>(
            DecreasingStakeError::InsufficientStake,
        ) <==> value > 0 && (stake.staking_status matches StakingStatusView::Staked(state)
            && state.staked_status is Normal && state.ongoing_slashes.is_empty() && value
            > state.staked_amount),
        stake.decrease_stake(value, minimum_balance) matches Ok(after) ==> {
            &&& after.created == stake.created
            &&& stake.staking_status matches StakingStatusView::Staked(before)
            &&& after.staking_status matches StakingStatusView::Staked(state)
            &&& before.staked_amount - value >= minimum_balance ==> state.staked_amount
                == before.staked_amount - value
            &&& before.staked_amount - value < minimum_balance ==> state.staked_amount == 0
            &&& state.staked_status == before.staked_status
            &&& state.next_slash_id == before.next_slash_id
            &&& state.ongoing_slashes == before.ongoing_slashes
        },
{
}

/// A slash can be initiated on every stake that is staked, for every amount and every period but
/// nought. It is active, waits for exactly its period, and is for exactly its amount, whenever it
/// was initiated. It has an identifier of its own, the next one is higher by one, and all other
/// slashes stay as they are. An unstaking is paused, and waits for as many blocks as before.
pub proof fn law_a_new_slash_waits_for_its_period(
    stake: StakeView,
    slash_amount: nat,
    slash_period: nat,
    now: nat,
)
    ensures
        stake.initiate_slashing(slash_amount, slash_period, now) is Ok <==> slash_period > 0
            && slash_amount > 0 && stake.staking_status is Staked,
        stake.initiate_slashing(slash_amount, slash_period, now) == Err::<
            StakeView,
            InitiateSlashingError,
        >(InitiateSlashingError::SlashPeriodShouldBeGreaterThanZero) <==> slash_period == 0,
        stake.initiate_slashing(slash_amount, slash_period, now) == Err::<
            StakeView,
            InitiateSlashingError,
        >(InitiateSlashingError::SlashAmountShouldBeGreaterThanZero) <==> slash_period > 0
            && slash_amount == 0,
        stake.initiate_slashing(slash_amount, slash_period, now) == Err::<
            StakeView,
            InitiateSlashingError,
        >(InitiateSlashingError::NotStaked) <==> slash_period > 0 && slash_amount > 0
            && stake.staking_status is NotStaked,
        stake.initiate_slashing(slash_amount, slash_period, now) matches Ok(after) ==> {
            &&& after.created == stake.created
            &&& stake.staking_status matches StakingStatusView::Staked(before)
            &&& after.staking_status matches StakingStatusView::Staked(state)
            &&& state.staked_amount == before.staked_amount
            &&& state.next_slash_id == before.next_slash_id + 1
            &&& state.ongoing_slashes.contains_key(before.next_slash_id)
            &&& {
                let slash = state.ongoing_slashes[before.next_slash_id];
                &&& slash.is_active
                &&& slash.started_at_block == now
                &&& slash.slash_amount == slash_amount
                &&& slash.blocks_remaining_in_active_period_for_slashing == slash_period
            }
            &&& forall|id: nat|
                id != before.next_slash_id ==> (#[trigger] state.ongoing_slashes.contains_key(id)
                    <==> before.ongoing_slashes.contains_key(id))
            &&& forall|id: nat|
                id != before.next_slash_id && before.ongoing_slashes.contains_key(id)
                    ==> #[trigger] state.ongoing_slashes[id] == before.ongoing_slashes[id]
            &&& before.staked_status is Normal ==> state.staked_status is Normal
            &&& before.staked_status matches StakedStatus::Unstaking(earlier) ==> {
                &&& state.staked_status matches StakedStatus::Unstaking(unstaking)
                &&& !unstaking.is_active
                &&& unstaking.started_at_block == earlier.started_at_block
                &&& unstaking.blocks_remaining_in_active_period_for_unstaking
                    == earlier.blocks_remaining_in_active_period_for_unstaking
            }
        },
{
}

/// A slash that is left alone is executed with the block that is the last one of its period,
/// counted from when it was initiated, and with no other: for every amount, period and time. Until
/// then it is for the amount that it was initiated with.
pub proof fn law_a_slash_left_alone_is_executed_after_its_period(
    stake: StakeView,
    slash_amount: nat,
    slash_period: nat,
    now: nat,
    blocks: nat,
    minimum_balance: nat,
)
    requires
        stake.sound(),
        slash_amount > 0,
        stake.staking_status is Staked,
        blocks < slash_period,
    ensures
        ({
            let slash_id = stake.staking_status->Staked_0.next_slash_id;
            &&& stake.initiate_slashing(slash_amount, slash_period, now) matches Ok(slashed)
            &&& slashed.after_blocks(blocks, minimum_balance).slash(slash_id) matches Some(slash)
            &&& slash.slash_amount == slash_amount
            &&& slashed.after_blocks(blocks, minimum_balance).executes(slash_id, minimum_balance)
                <==> blocks + 1 == slash_period
            &&& blocks + 1 == slash_period ==> slashed.after_blocks(
                slash_period,
                minimum_balance,
            ).slash(slash_id) is None
        }),
{
    let slash_id = stake.staking_status->Staked_0.next_slash_id;
    let slashed = stake.initiate_slashing(slash_amount, slash_period, now)->Ok_0;
    law_a_new_slash_waits_for_its_period(stake, slash_amount, slash_period, now);
    assert(slashed.sound());
    law_an_active_slash_is_executed_when_its_period_is_over(
        slashed,
        slash_id,
        blocks,
        minimum_balance,
    );
}

/// Pausing is granted for every ongoing slash that is active, and makes it wait: nothing else of it
/// changes, and nothing of any other.
pub proof fn law_pausing_a_slash_only_pauses_it(stake: StakeView, slash_id: nat)
    ensures
        stake.pause_slashing(slash_id) is Ok <==> (
        stake.staking_status matches StakingStatusView::Staked(state)
            && state.ongoing_slashes.contains_key(slash_id)
            && state.ongoing_slashes[slash_id].is_active),
        stake.pause_slashing(slash_id) == Err::<StakeView, PauseSlashingError>(
            PauseSlashingError::NotStaked,
        ) <==> stake.staking_status is NotStaked,
        stake.pause_slashing(slash_id) == Err::<StakeView, PauseSlashingError>(
            PauseSlashingError::SlashNotFound,
        ) <==> (stake.staking_status matches StakingStatusView::Staked(state)
            && !state.ongoing_slashes.contains_key(slash_id)),
        stake.pause_slashing(slash_id) == Err::<StakeView, PauseSlashingError>(
            PauseSlashingError::AlreadyPaused,
        ) <==> (stake.staking_status matches StakingStatusView::Staked(state)
            && state.ongoing_slashes.contains_key(slash_id)
            && !state.ongoing_slashes[slash_id].is_active),
        stake.pause_slashing(slash_id) matches Ok(after) ==> only_slash_active_changes(
            stake,
            after,
            slash_id,
            false,
        ),
{
}

/// Resuming is granted for every ongoing slash that is paused, and lets it go on: nothing else of
/// it changes, and nothing of any other.
pub proof fn law_resuming_a_slash_only_resumes_it(stake: StakeView, slash_id: nat)
    ensures
        stake.resume_slashing(slash_id) is Ok <==> (
        stake.staking_status matches StakingStatusView::Staked(state)
            && state.ongoing_slashes.contains_key(slash_id)
            && !state.ongoing_slashes[slash_id].is_active),
        stake.resume_slashing(slash_id) == Err::<StakeView, ResumeSlashingError>(
            ResumeSlashingError::NotStaked,
        ) <==> stake.staking_status is NotStaked,
        stake.resume_slashing(slash_id) == Err::<StakeView, ResumeSlashingError>(
            ResumeSlashingError::SlashNotFound,
        ) <==> (stake.staking_status matches StakingStatusView::Staked(state)
            && !state.ongoing_slashes.contains_key(slash_id)),
        stake.resume_slashing(slash_id) == Err::<StakeView, ResumeSlashingError>(
            ResumeSlashingError::NotPaused,
        ) <==> (stake.staking_status matches StakingStatusView::Staked(state)
            && state.ongoing_slashes.contains_key(slash_id)
            && state.ongoing_slashes[slash_id].is_active),
        stake.resume_slashing(slash_id) matches Ok(after) ==> only_slash_active_changes(
            stake,
            after,
            slash_id,
            true,
        ),
{
}

/// Whether two stakes differ in nothing but that a slash is active in the second one, or else
/// paused.
pub open spec fn only_slash_active_changes(
    stake: StakeView,
    after: StakeView,
    slash_id: nat,
    is_active: bool,
) -> bool {
    &&& after.created == stake.created
    &&& stake.staking_status matches StakingStatusView::Staked(before)
    &&& after.staking_status matches StakingStatusView::Staked(state)
    &&& state.staked_amount == before.staked_amount
    &&& state.staked_status == before.staked_status
    &&& state.next_slash_id == before.next_slash_id
    &&& forall|id: nat|
        #![trigger state.ongoing_slashes.contains_key(id)]
        #![trigger before.ongoing_slashes.contains_key(id)]
        state.ongoing_slashes.contains_key(id) <==> before.ongoing_slashes.contains_key(id)
    &&& forall|id: nat|
        id != slash_id && before.ongoing_slashes.contains_key(id)
            ==> #[trigger] state.ongoing_slashes[id] == before.ongoing_slashes[id]
    &&& state.ongoing_slashes[slash_id].is_active == is_active
    &&& state.ongoing_slashes[slash_id].started_at_block
        == before.ongoing_slashes[slash_id].started_at_block
    &&& state.ongoing_slashes[slash_id].slash_amount
        == before.ongoing_slashes[slash_id].slash_amount
    &&& state.ongoing_slashes[slash_id].blocks_remaining_in_active_period_for_slashing
        == before.ongoing_slashes[slash_id].blocks_remaining_in_active_period_for_slashing
}

/// Cancelling is granted for every ongoing slash, active or paused. That slash is gone, and every
/// other one is still ongoing and as it was. Where it was the last one, an unstaking is active
/// again; where it was not, an unstaking stays as it was.
pub proof fn law_cancelling_ends_one_slash_only(stake: StakeView, slash_id: nat)
    ensures
        stake.cancel_slashing(slash_id) is Ok <==> (
        stake.staking_status matches StakingStatusView::Staked(state)
            && state.ongoing_slashes.contains_key(slash_id)),
        stake.cancel_slashing(slash_id) == Err::<StakeView, CancelSlashingError>(
            CancelSlashingError::NotStaked,
        ) <==> stake.staking_status is NotStaked,
        stake.cancel_slashing(slash_id) == Err::<StakeView, CancelSlashingError>(
            CancelSlashingError::SlashNotFound,
        ) <==> (stake.staking_status matches StakingStatusView::Staked(state)
            && !state.ongoing_slashes.contains_key(slash_id)),
        stake.cancel_slashing(slash_id) matches Ok(after) ==> {
            &&& after.created == stake.created
            &&& stake.staking_status matches StakingStatusView::Staked(before)
            &&& after.staking_status matches StakingStatusView::Staked(state)
            &&& state.staked_amount == before.staked_amount
            &&& state.next_slash_id == before.next_slash_id
            &&& !state.ongoing_slashes.contains_key(slash_id)
            &&& forall|id: nat|
                #![trigger state.ongoing_slashes.contains_key(id)]
                #![trigger before.ongoing_slashes.contains_key(id)]
                id != slash_id ==> (state.ongoing_slashes.contains_key(id)
                    <==> before.ongoing_slashes.contains_key(id))
            &&& forall|id: nat|
                id != slash_id && before.ongoing_slashes.contains_key(id)
                    ==> #[trigger] state.ongoing_slashes[id] == before.ongoing_slashes[id]
            &&& before.staked_status is Normal ==> state.staked_status is Normal
            &&& before.staked_status matches StakedStatus::Unstaking(earlier) ==> {
                &&& state.staked_status matches StakedStatus::Unstaking(unstaking)
                &&& unstaking.started_at_block == earlier.started_at_block
                &&& unstaking.blocks_remaining_in_active_period_for_unstaking
                    == earlier.blocks_remaining_in_active_period_for_unstaking
                &&& (exists|id: nat|
                    id != slash_id && #[trigger] before.ongoing_slashes.contains_key(id))
                    ==> unstaking.is_active == earlier.is_active
                &&& (forall|id: nat| #[trigger]
                    before.ongoing_slashes.contains_key(id) ==> id == slash_id)
                    ==> unstaking.is_active
            }
        },
{
    if let StakingStatusView::Staked(before) = stake.staking_status {
        let others = before.ongoing_slashes.remove(slash_id);
        if exists|id: nat| id != slash_id && #[trigger] before.ongoing_slashes.contains_key(id) {
            let id = choose|id: nat|
                id != slash_id && #[trigger] before.ongoing_slashes.contains_key(id);
            assert(others.dom().contains(id));
            assert(!others.is_empty());
        } else {
            assert(others.dom() =~= Set::empty());
            assert(others.is_empty());
        }
    }
}

/// In which order two slashes are cancelled does not matter.
pub proof fn law_cancellations_can_be_swapped(stake: StakeView, first: nat, second: nat)
    requires
        first != second,
        stake.cancel_slashing(first) is Ok,
        stake.cancel_slashing(second) is Ok,
    ensures
        stake.cancel_slashing(first)->Ok_0.cancel_slashing(second) is Ok,
        stake.cancel_slashing(first)->Ok_0.cancel_slashing(second) == stake.cancel_slashing(
            second,
        )->Ok_0.cancel_slashing(first),
{
    let before = stake.staking_status->Staked_0.ongoing_slashes;
    assert(before.remove(first).dom().contains(second));
    assert(before.remove(second).dom().contains(first));
    assert(before.remove(first).remove(second) =~= before.remove(second).remove(first));
}

/// Unstaking at once is granted for every stake that is staked, has no ongoing slash and is not
/// unstaking, whatever its amount. It ends the staking.
pub proof fn law_unstaking_ends_the_staking(stake: StakeView)
    ensures
        stake.unstake() is Ok <==> (stake.staking_status matches StakingStatusView::Staked(state)
            && state.ongoing_slashes.is_empty() && state.staked_status is Normal),
        stake.unstake() == Err::<StakeView, UnstakingError>(UnstakingError::NotStaked)
            <==> stake.staking_status is NotStaked,
        stake.unstake() == Err::<StakeView, UnstakingError>(
            UnstakingError::CannotUnstakeWhileSlashesOngoing,
        ) <==> (stake.staking_status matches StakingStatusView::Staked(state)
            && !state.ongoing_slashes.is_empty()),
        stake.unstake() == Err::<StakeView, UnstakingError>(UnstakingError::AlreadyUnstaking)
            <==> (stake.staking_status matches StakingStatusView::Staked(state)
            && state.ongoing_slashes.is_empty() && state.staked_status is Unstaking),
        stake.unstake() matches Ok(after) ==> after.created == stake.created
            && after.staking_status is NotStaked,
{
}

/// An unstaking over any period but nought can be initiated where unstaking at once is granted, and
/// is refused for the same reasons else. It is active and waits for exactly its period, whenever it
/// was initiated; all that was at stake stays there until it is finished.
pub proof fn law_a_new_unstaking_waits_for_its_period(
    stake: StakeView,
    unstaking_period: nat,
    now: nat,
)
    ensures
        stake.initiate_unstaking(unstaking_period, now) is Ok <==> unstaking_period > 0 && (
        stake.staking_status matches StakingStatusView::Staked(state)
            && state.ongoing_slashes.is_empty() && state.staked_status is Normal),
        stake.initiate_unstaking(unstaking_period, now) == Err::<StakeView, InitiateUnstakingError>(
            InitiateUnstakingError::UnstakingPeriodShouldBeGreaterThanZero,
        ) <==> unstaking_period == 0,
        stake.initiate_unstaking(unstaking_period, now) == Err::<StakeView, InitiateUnstakingError>(
            InitiateUnstakingError::UnstakingError(UnstakingError::NotStaked),
        ) <==> unstaking_period > 0 && stake.staking_status is NotStaked,
        stake.initiate_unstaking(unstaking_period, now) == Err::<StakeView, InitiateUnstakingError>(
            InitiateUnstakingError::UnstakingError(
                UnstakingError::CannotUnstakeWhileSlashesOngoing,
            ),
        ) <==> unstaking_period > 0 && (
        stake.staking_status matches StakingStatusView::Staked(state)
            && !state.ongoing_slashes.is_empty()),
        stake.initiate_unstaking(unstaking_period, now) == Err::<StakeView, InitiateUnstakingError>(
            InitiateUnstakingError::UnstakingError(UnstakingError::AlreadyUnstaking),
        ) <==> unstaking_period > 0 && (
        stake.staking_status matches StakingStatusView::Staked(state)
            && state.ongoing_slashes.is_empty() && state.staked_status is Unstaking),
        stake.initiate_unstaking(unstaking_period, now) matches Ok(after) ==> {
            &&& after.created == stake.created
            &&& stake.staking_status matches StakingStatusView::Staked(before)
            &&& after.staking_status matches StakingStatusView::Staked(state)
            &&& state.staked_amount == before.staked_amount
            &&& state.next_slash_id == before.next_slash_id
            &&& state.ongoing_slashes == before.ongoing_slashes
            &&& state.staked_status matches StakedStatus::Unstaking(unstaking)
            &&& unstaking.is_active
            &&& unstaking.started_at_block == now
            &&& unstaking.blocks_remaining_in_active_period_for_unstaking == unstaking_period
        },
{
}

/// An unstaking that is left alone is finished with the block that is the last one of its period,
/// counted from when it was initiated, and not earlier: for every period and time. Until then all
/// that was at stake stays there.
pub proof fn law_an_unstaking_left_alone_is_finished_after_its_period(
    stake: StakeView,
    unstaking_period: nat,
    now: nat,
    blocks: nat,
    minimum_balance: nat,
)
    requires
        stake.sound(),
        stake.staking_status matches StakingStatusView::Staked(state)
            && state.ongoing_slashes.is_empty() && state.staked_status is Normal,
        blocks < unstaking_period,
    ensures
        ({
            let before = stake.staking_status->Staked_0;
            &&& stake.initiate_unstaking(unstaking_period, now) matches Ok(unstaking)
            &&& unstaking.after_blocks(
                blocks,
                minimum_balance,
            ).staking_status matches StakingStatusView::Staked(state)
            &&& state.staked_amount == before.staked_amount
            &&& blocks + 1 == unstaking_period ==> {
                let after = unstaking.after_blocks(unstaking_period, minimum_balance);
                after.staking_status is NotStaked && after.created == stake.created
            }
        }),
{
    law_a_new_unstaking_waits_for_its_period(stake, unstaking_period, now);
    law_an_unstaking_is_finished_when_its_period_is_over(
        stake.initiate_unstaking(unstaking_period, now)->Ok_0,
        blocks,
        minimum_balance,
    );
}

/// Pausing is granted for every unstaking that is active, and makes it wait: nothing else changes.
pub proof fn law_pausing_an_unstaking_only_pauses_it(stake: StakeView)
    ensures
        stake.pause_unstaking() is Ok <==> (
        stake.staking_status matches StakingStatusView::Staked(state) && (
        state.staked_status matches StakedStatus::Unstaking(unstaking) && unstaking.is_active)),
        stake.pause_unstaking() == Err::<StakeView, PauseUnstakingError>(
            PauseUnstakingError::NotStaked,
        ) <==> stake.staking_status is NotStaked,
        stake.pause_unstaking() == Err::<StakeView, PauseUnstakingError>(
            PauseUnstakingError::NotUnstaking,
        ) <==> (stake.staking_status matches StakingStatusView::Staked(state)
            && state.staked_status is Normal),
        stake.pause_unstaking() == Err::<StakeView, PauseUnstakingError>(
            PauseUnstakingError::AlreadyPaused,
        ) <==> (stake.staking_status matches StakingStatusView::Staked(state) && (
        state.staked_status matches StakedStatus::Unstaking(unstaking) && !unstaking.is_active)),
        stake.pause_unstaking() matches Ok(after) ==> only_unstaking_active_changes(
            stake,
            after,
            false,
        ),
{
}

/// Resuming is granted for every unstaking that is paused, whatever slashes are ongoing, and lets
/// it go on: nothing else changes.
pub proof fn law_resuming_an_unstaking_only_resumes_it(stake: StakeView)
    ensures
        stake.resume_unstaking() is Ok <==> (
        stake.staking_status matches StakingStatusView::Staked(state) && (
        state.staked_status matches StakedStatus::Unstaking(unstaking) && !unstaking.is_active)),
        stake.resume_unstaking() == Err::<StakeView, ResumeUnstakingError>(
            ResumeUnstakingError::NotStaked,
        ) <==> stake.staking_status is NotStaked,
        stake.resume_unstaking() == Err::<StakeView, ResumeUnstakingError>(
            ResumeUnstakingError::NotUnstaking,
        ) <==> (stake.staking_status matches StakingStatusView::Staked(state)
            && state.staked_status is Normal),
        stake.resume_unstaking() == Err::<StakeView, ResumeUnstakingError>(
            ResumeUnstakingError::NotPaused,
        ) <==> (stake.staking_status matches StakingStatusView::Staked(state) && (
        state.staked_status matches StakedStatus::Unstaking(unstaking) && unstaking.is_active)),
        stake.resume_unstaking() matches Ok(after) ==> only_unstaking_active_changes(
            stake,
            after,
            true,
        ),
{
}

/// Whether two stakes differ in nothing but that the unstaking is active in the second one, or else
/// paused.
pub open spec fn only_unstaking_active_changes(
    stake: StakeView,
    after: StakeView,
    is_active: bool,
) -> bool {
    &&& after.created == stake.created
    &&& stake.staking_status matches StakingStatusView::Staked(before)
    &&& after.staking_status matches StakingStatusView::Staked(state)
    &&& state.staked_amount == before.staked_amount
    &&& state.next_slash_id == before.next_slash_id
    &&& state.ongoing_slashes == before.ongoing_slashes
    &&& before.staked_status matches StakedStatus::Unstaking(earlier)
    &&& state.staked_status matches StakedStatus::Unstaking(unstaking)
    &&& unstaking.is_active == is_active
    &&& unstaking.started_at_block == earlier.started_at_block
    &&& unstaking.blocks_remaining_in_active_period_for_unstaking
        == earlier.blocks_remaining_in_active_period_for_unstaking
}

} // verus!
