//! How requests on all stakes together are answered: each goes to the stake that it names, and to
//! no other.
use crate::arithmetic::SimpleArithmetic;
use crate::errors::{
    CancelSlashingError, DecreasingStakeError, IncreasingStakeError,
    IncreasingStakeFromAccountError, InitiateSlashingError, InitiateUnstakingError,
    PauseSlashingError, PauseUnstakingError, ResumeSlashingError, ResumeUnstakingError,
    StakeActionError, StakingError, StakingFromAccountError,
};
use crate::events::{NegativeImbalance, StakingEventsHandler};
use crate::pool::pool_account;
use crate::registry::ModuleView;
use crate::stake::{StakeView, StakingStatusView};
use vstd::prelude::*;

verus! {

/// Whether a stake was replaced, and nothing else changed.
pub open spec fn only_stake_changes(
    stakes: ModuleView,
    after: ModuleView,
    stake_id: nat,
    stake: StakeView,
) -> bool {
    &&& after.stakes_created == stakes.stakes_created
    &&& after.stakes.contains_key(stake_id)
    &&& after.stakes[stake_id] == stake
    &&& forall|id: nat|
        #![trigger after.stakes.contains_key(id)]
        #![trigger stakes.stakes.contains_key(id)]
        id != stake_id ==> (after.stakes.contains_key(id) <==> stakes.stakes.contains_key(id))
    &&& forall|id: nat|
        #![trigger after.stakes[id]]
        id != stake_id && stakes.stakes.contains_key(id) ==> after.stakes[id] == stakes.stakes[id]
}

/// Whether a request on one of all stakes was answered as the stake itself answers it: where there
/// is no such stake, that is the answer; where the stake refuses, its reason is passed on; where it
/// grants the request, the stake is stored, and nothing else changes.
pub open spec fn answered_by_its_stake<ErrorType>(
    stakes: ModuleView,
    stake_id: nat,
    answer: Result<StakeView, ErrorType>,
    outcome: Result<ModuleView, StakeActionError<ErrorType>>,
) -> bool {
    if !stakes.stakes.contains_key(stake_id) {
        outcome == Err::<ModuleView, _>(StakeActionError::<ErrorType>::StakeNotFound)
    } else {
        match answer {
            Ok(stake) => outcome matches Ok(after) && only_stake_changes(
                stakes,
                after,
                stake_id,
                stake,
            ),
            Err(error) => outcome == Err::<ModuleView, _>(StakeActionError::Error(error)),
        }
    }
}

/// Storing a stake changes nothing else.
pub proof fn law_storing_a_stake_changes_nothing_else(
    stakes: ModuleView,
    stake_id: nat,
    stake: StakeView,
)
    ensures
        only_stake_changes(stakes, stakes.with_stake(stake_id, stake), stake_id, stake),
{
}

/// At first there are no stakes, and none has been created.
pub proof fn law_at_first_there_are_no_stakes()
    ensures
        ModuleView::none().stakes_created == 0,
        forall|id: nat| !#[trigger] ModuleView::none().stakes.contains_key(id),
{
}

/// A new stake has the next identifier, was created at the given block, and holds nothing; the next
/// identifier is higher by one, and all other stakes stay as they are.
pub proof fn law_creating_adds_one_stake_without_funds(stakes: ModuleView, now: nat)
    ensures
        ({
            let after = stakes.create_stake(now);
            let stake_id = stakes.stakes_created;
            &&& after.stakes_created == stakes.stakes_created + 1
            &&& after.stakes.contains_key(stake_id)
            &&& after.stakes[stake_id].created == now
            &&& after.stakes[stake_id].staking_status is NotStaked
            &&& forall|id: nat|
                #![trigger after.stakes.contains_key(id)]
                #![trigger stakes.stakes.contains_key(id)]
                id != stake_id ==> (after.stakes.contains_key(id)
                    <==> stakes.stakes.contains_key(id))
            &&& forall|id: nat|
                #![trigger after.stakes[id]]
                id != stake_id && stakes.stakes.contains_key(id) ==> after.stakes[id]
                    == stakes.stakes[id]
        }),
{
}

/// Every stake in which nothing is at stake can be removed, and no other. All others stay as they
/// are, and so does the next identifier.
pub proof fn law_removing_takes_one_stake_without_funds(stakes: ModuleView, stake_id: nat)
    ensures
        stakes.remove_stake(stake_id) is Ok <==> stakes.stakes.contains_key(stake_id)
            && stakes.stakes[stake_id].staking_status is NotStaked,
        stakes.remove_stake(stake_id) == Err::<ModuleView, StakeActionError<StakingError>>(
            StakeActionError::StakeNotFound,
        ) <==> !stakes.stakes.contains_key(stake_id),
        stakes.remove_stake(stake_id) == Err::<ModuleView, StakeActionError<StakingError>>(
            StakeActionError::Error(StakingError::AlreadyStaked),
        ) <==> stakes.stakes.contains_key(stake_id)
            && stakes.stakes[stake_id].staking_status is Staked,
        stakes.remove_stake(stake_id) matches Ok(after) ==> {
            &&& after.stakes_created == stakes.stakes_created
            &&& !after.stakes.contains_key(stake_id)
            &&& forall|id: nat|
                #![trigger after.stakes.contains_key(id)]
                #![trigger stakes.stakes.contains_key(id)]
                id != stake_id ==> (after.stakes.contains_key(id)
                    <==> stakes.stakes.contains_key(id))
            &&& forall|id: nat|
                #![trigger after.stakes[id]]
                id != stake_id && stakes.stakes.contains_key(id) ==> after.stakes[id]
                    == stakes.stakes[id]
        },
{
}

/// Staking is answered by the stake that it is asked for.
pub proof fn law_staking_is_answered_by_the_stake(
    stakes: ModuleView,
    stake_id: nat,
    value: nat,
    minimum_balance: nat,
)
    ensures
        answered_by_its_stake::<StakingError>(
            stakes,
            stake_id,
            stakes.stakes[stake_id].start_staking(value, minimum_balance),
            stakes.stake(stake_id, value, minimum_balance),
        ),
{
}

/// Increasing a stake is answered by the stake that it is asked for.
pub proof fn law_increasing_is_answered_by_the_stake(
    stakes: ModuleView,
    stake_id: nat,
    value: nat,
)
    ensures
        answered_by_its_stake::<IncreasingStakeError>(
            stakes,
            stake_id,
            stakes.stakes[stake_id].increase_stake(value),
            stakes.increase_stake(stake_id, value),
        ),
{
}

/// Decreasing a stake is answered by the stake that it is asked for.
pub proof fn law_decreasing_is_answered_by_the_stake(
    stakes: ModuleView,
    stake_id: nat,
    value: nat,
    minimum_balance: nat,
)
    ensures
        answered_by_its_stake::<DecreasingStakeError>(
            stakes,
            stake_id,
            stakes.stakes[stake_id].decrease_stake(value, minimum_balance),
            stakes.decrease_stake(stake_id, value, minimum_balance),
        ),
{
}

/// Initiating a slash is answered by the stake that it is asked for.
pub proof fn law_initiating_a_slash_is_answered_by_the_stake(
    stakes: ModuleView,
    stake_id: nat,
    slash_amount: nat,
    slash_period: nat,
    now: nat,
)
    ensures
        answered_by_its_stake::<InitiateSlashingError>(
            stakes,
            stake_id,
            stakes.stakes[stake_id].initiate_slashing(slash_amount, slash_period, now),
            stakes.initiate_slashing(stake_id, slash_amount, slash_period, now),
        ),
{
}

/// Pausing a slash is answered by the stake that it is asked for.
pub proof fn law_pausing_a_slash_is_answered_by_the_stake(
    stakes: ModuleView,
    stake_id: nat,
    slash_id: nat,
)
    ensures
        answered_by_its_stake::<PauseSlashingError>(
            stakes,
            stake_id,
            stakes.stakes[stake_id].pause_slashing(slash_id),
            stakes.pause_slashing(stake_id, slash_id),
        ),
{
}

/// Resuming a slash is answered by the stake that it is asked for.
pub proof fn law_resuming_a_slash_is_answered_by_the_stake(
    stakes: ModuleView,
    stake_id: nat,
    slash_id: nat,
)
    ensures
        answered_by_its_stake::<ResumeSlashingError>(
            stakes,
            stake_id,
            stakes.stakes[stake_id].resume_slashing(slash_id),
            stakes.resume_slashing(stake_id, slash_id),
        ),
{
}

/// Cancelling a slash is answered by the stake that it is asked for.
pub proof fn law_cancelling_a_slash_is_answered_by_the_stake(
    stakes: ModuleView,
    stake_id: nat,
    slash_id: nat,
)
    ensures
        answered_by_its_stake::<CancelSlashingError>(
            stakes,
            stake_id,
            stakes.stakes[stake_id].cancel_slashing(slash_id),
            stakes.cancel_slashing(stake_id, slash_id),
        ),
{
}

/// Initiating an unstaking over a period is answered by the stake that it is asked for.
pub proof fn law_initiating_an_unstaking_is_answered_by_the_stake(
    stakes: ModuleView,
    stake_id: nat,
    unstaking_period: nat,
    now: nat,
)
    ensures
        answered_by_its_stake::<InitiateUnstakingError>(
            stakes,
            stake_id,
            stakes.stakes[stake_id].initiate_unstaking(unstaking_period, now),
            stakes.initiate_unstaking(stake_id, Some(unstaking_period), now),
        ),
{
}

/// Pausing an unstaking is answered by the stake that it is asked for.
pub proof fn law_pausing_an_unstaking_is_answered_by_the_stake(
    stakes: ModuleView,
    stake_id: nat,
)
    ensures
        answered_by_its_stake::<PauseUnstakingError>(
            stakes,
            stake_id,
            stakes.stakes[stake_id].pause_unstaking(),
            stakes.pause_unstaking(stake_id),
        ),
{
}

/// Resuming an unstaking is answered by the stake that it is asked for.
pub proof fn law_resuming_an_unstaking_is_answered_by_the_stake(
    stakes: ModuleView,
    stake_id: nat,
)
    ensures
        answered_by_its_stake::<ResumeUnstakingError>(
            stakes,
            stake_id,
            stakes.stakes[stake_id].resume_unstaking(),
            stakes.resume_unstaking(stake_id),
        ),
{
}

/// Unstaking at once is answered by the stake that it is asked for, whatever the time.
pub proof fn law_unstaking_at_once_is_answered_by_the_stake(
    stakes: ModuleView,
    stake_id: nat,
    now: nat,
)
    ensures
        answered_by_its_stake::<InitiateUnstakingError>(
            stakes,
            stake_id,
            match stakes.stakes[stake_id].unstake() {
                Ok(stake) => Ok(stake),
                Err(error) => Err(InitiateUnstakingError::UnstakingError(error)),
            },
            stakes.initiate_unstaking(stake_id, None, now),
        ),
{
}

/// Whether a request to be paid from an account was answered as the stake itself answers it, with
/// the stake that the payment makes; `refused` is how its reasons are passed on.
pub open spec fn answered_before_payment<ErrorType, FromAccountError>(
    stakes: ModuleView,
    stake_id: nat,
    answer: Result<StakeView, ErrorType>,
    refused: spec_fn(ErrorType) -> FromAccountError,
    outcome: Result<StakeView, StakeActionError<FromAccountError>>,
) -> bool {
    if !stakes.stakes.contains_key(stake_id) {
        outcome == Err::<StakeView, _>(StakeActionError::<FromAccountError>::StakeNotFound)
    } else {
        match answer {
            Ok(stake) => outcome == Ok::<StakeView, StakeActionError<FromAccountError>>(stake),
            Err(error) => outcome == Err::<StakeView, _>(StakeActionError::Error(refused(error))),
        }
    }
}

/// Staking from an account is answered by the stake, before anything is withdrawn.
pub proof fn law_staking_from_an_account_is_answered_by_the_stake(
    stakes: ModuleView,
    stake_id: nat,
    value: nat,
    minimum_balance: nat,
)
    ensures
        answered_before_payment::<StakingError, StakingFromAccountError>(
            stakes,
            stake_id,
            stakes.stakes[stake_id].start_staking(value, minimum_balance),
            |error: StakingError| StakingFromAccountError::StakingError(error),
            stakes.stake_from_account(stake_id, value, minimum_balance),
        ),
{
}

/// Increasing a stake from an account is answered by the stake, before anything is withdrawn.
pub proof fn law_increasing_from_an_account_is_answered_by_the_stake(
    stakes: ModuleView,
    stake_id: nat,
    value: nat,
)
    ensures
        answered_before_payment::<IncreasingStakeError, IncreasingStakeFromAccountError>(
            stakes,
            stake_id,
            stakes.stakes[stake_id].increase_stake(value),
            |error: IncreasingStakeError|
                IncreasingStakeFromAccountError::IncreasingStakeError(error),
            stakes.increase_stake_from_account(stake_id, value),
        ),
{
}

/// What a decrease releases is the value, where at least the minimum balance stays at stake, and
/// else all of it: what it releases and what stays are together what there was.
pub proof fn law_a_decrease_releases_the_value_or_all(
    stakes: ModuleView,
    stake_id: nat,
    value: nat,
    minimum_balance: nat,
)
    ensures
        stakes.decrease_stake(stake_id, value, minimum_balance) matches Ok(after) ==> {
            &&& stakes.stakes[stake_id].staking_status matches StakingStatusView::Staked(before)
            &&& after.stakes[stake_id].staking_status matches StakingStatusView::Staked(state)
            &&& stakes.released(after, stake_id) + state.staked_amount == before.staked_amount
            &&& before.staked_amount >= value + minimum_balance ==> stakes.released(after, stake_id)
                == value
            &&& before.staked_amount < value + minimum_balance ==> stakes.released(after, stake_id)
                == before.staked_amount
        },
{
}

/// What unstaking at once releases is all that was at stake.
pub proof fn law_unstaking_at_once_releases_all(stakes: ModuleView, stake_id: nat, now: nat)
    ensures
        stakes.initiate_unstaking(stake_id, None, now) matches Ok(after) ==> {
            &&& stakes.stakes[stake_id].staking_status matches StakingStatusView::Staked(before)
            &&& after.stakes[stake_id].staking_status is NotStaked
            &&& stakes.released(after, stake_id) == before.staked_amount
        },
{
}

/// The account of a stake pool has 32 bytes: the letters `modl`, the identifier, and zeroes.
pub proof fn law_the_account_of_a_pool_holds_its_identifier(stake_pool_id: Seq<u8>)
    requires
        stake_pool_id.len() == 8,
    ensures
        pool_account(stake_pool_id).len() == 32,
        pool_account(stake_pool_id)[0] == 0x6d,
        pool_account(stake_pool_id)[1] == 0x6f,
        pool_account(stake_pool_id)[2] == 0x64,
        pool_account(stake_pool_id)[3] == 0x6c,
        forall|i: int| 0 <= i < 8 ==> #[trigger] stake_pool_id[i] == pool_account(
            stake_pool_id,
        )[i + 4],
        forall|i: int| 12 <= i < 32 ==> #[trigger] pool_account(stake_pool_id)[i] == 0,
{
}

/// The default handler leaves nothing of what it is handed.
pub proof fn law_the_default_handler_leaves_nothing<StakeId, SlashId, Balance: SimpleArithmetic>(
    id: StakeId,
    slash_id: SlashId,
    amount: Balance,
    remaining_stake: Balance,
    imbalance: NegativeImbalance<Balance>,
    left: NegativeImbalance<Balance>,
)
    ensures
        <() as StakingEventsHandler<StakeId, SlashId, Balance>>::unstaked_leaves(
            id,
            amount,
            imbalance,
            left,
        ) <==> left.amount.as_nat() == 0,
        <() as StakingEventsHandler<StakeId, SlashId, Balance>>::slashed_leaves(
            id,
            slash_id,
            amount,
            remaining_stake,
            imbalance,
            left,
        ) <==> left.amount.as_nat() == 0,
{
}

/// Of two handlers in a chain, the first one is handed the whole value of an unstaking, and the
/// second one what the first one leaves, and no other value: what the second one leaves of that is
/// left. Both are told of the same stake and the same amount.
pub proof fn law_the_second_handler_of_an_unstaking_is_handed_what_the_first_leaves<
    StakeId,
    SlashId,
    Balance: SimpleArithmetic,
    X: StakingEventsHandler<StakeId, SlashId, Balance>,
    Y: StakingEventsHandler<StakeId, SlashId, Balance>,
>(
    id: StakeId,
    amount: Balance,
    imbalance: NegativeImbalance<Balance>,
    between: NegativeImbalance<Balance>,
    left: NegativeImbalance<Balance>,
)
    requires
        forall|unused: NegativeImbalance<Balance>| #[trigger]
            X::unstaked_leaves(id, amount, imbalance, unused) <==> unused == between,
    ensures
        <(X, Y) as StakingEventsHandler<StakeId, SlashId, Balance>>::unstaked_leaves(
            id,
            amount,
            imbalance,
            left,
        ) <==> Y::unstaked_leaves(id, amount, between, left),
{
    assert(X::unstaked_leaves(id, amount, imbalance, between));
}

/// Of two handlers in a chain, the first one is handed the whole value of a slash, and the second
/// one what the first one leaves, and no other value: what the second one leaves of that is left.
/// Both are told of the same stake, slash and amounts.
pub proof fn law_the_second_handler_of_a_slash_is_handed_what_the_first_leaves<
    StakeId,
    SlashId,
    Balance: SimpleArithmetic,
    X: StakingEventsHandler<StakeId, SlashId, Balance>,
    Y: StakingEventsHandler<StakeId, SlashId, Balance>,
>(
    id: StakeId,
    slash_id: SlashId,
    amount: Balance,
    remaining_stake: Balance,
    imbalance: NegativeImbalance<Balance>,
    between: NegativeImbalance<Balance>,
    left: NegativeImbalance<Balance>,
)
    requires
        forall|unused: NegativeImbalance<Balance>| #[trigger]
            X::slashed_leaves(id, slash_id, amount, remaining_stake, imbalance, unused)
                <==> unused == between,
    ensures
        <(X, Y) as StakingEventsHandler<StakeId, SlashId, Balance>>::slashed_leaves(
            id,
            slash_id,
            amount,
            remaining_stake,
            imbalance,
            left,
        ) <==> Y::slashed_leaves(id, slash_id, amount, remaining_stake, between, left),
{
    assert(X::slashed_leaves(id, slash_id, amount, remaining_stake, imbalance, between));
}

} // verus!
