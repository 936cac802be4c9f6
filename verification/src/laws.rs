//! Laws of a stake: what one request undoes of another, and what holds of all of them.
use crate::arithmetic::SimpleArithmetic;
use crate::errors::{
    CancelSlashingError, DecreasingStakeError, IncreasingStakeFromAccountError,
    PauseSlashingError, PauseUnstakingError, ResumeSlashingError, ResumeUnstakingError,
    StakeActionError, StakingFromAccountError, UnstakingError,
};
use crate::events::{NegativeImbalance, StakingEventsHandler};
use crate::pool::pool_account;
use crate::registry::ModuleView;
use crate::soundness::{law_histories_keep_stakes_sound, Request};
use crate::stake::{StakeView, StakingStatusView};
use crate::staked::{
    left_after, lemma_outcomes_prefix, outcomes, slash_takes, Slash, StakedStateView,
};
use vstd::prelude::*;

verus! {

/// Pausing a slash and resuming it leaves the stake as it was, and so does resuming and pausing it.
pub proof fn law_pausing_and_resuming_a_slash_undo_each_other(stake: StakeView, slash_id: nat)
    ensures
        stake.pause_slashing(slash_id) matches Ok(paused) ==> paused.resume_slashing(slash_id)
            == Ok::<StakeView, ResumeSlashingError>(stake),
        stake.resume_slashing(slash_id) matches Ok(resumed) ==> resumed.pause_slashing(slash_id)
            == Ok::<StakeView, PauseSlashingError>(stake),
{
    if let StakingStatusView::Staked(state) = stake.staking_status {
        if state.ongoing_slashes.contains_key(slash_id) {
            let slash = state.ongoing_slashes[slash_id];
            let there = state.with_slash_active(slash_id, !slash.is_active);
            let back = there.with_slash_active(slash_id, slash.is_active);
            assert(back.ongoing_slashes =~= state.ongoing_slashes);
        }
    }
}

/// Pausing an unstaking and resuming it leaves the stake as it was, and so does resuming and
/// pausing it.
pub proof fn law_pausing_and_resuming_an_unstaking_undo_each_other(stake: StakeView)
    ensures
        stake.pause_unstaking() matches Ok(paused) ==> paused.resume_unstaking() == Ok::<
            StakeView,
            ResumeUnstakingError,
        >(stake),
        stake.resume_unstaking() matches Ok(resumed) ==> resumed.pause_unstaking() == Ok::<
            StakeView,
            PauseUnstakingError,
        >(stake),
{
}

/// A new slash has an identifier of its own, and leaves all other slashes and the amount at stake
/// alone.
pub proof fn law_a_new_slash_replaces_none(
    stake: StakeView,
    slash_amount: nat,
    slash_period: nat,
    now: nat,
)
    requires
        stake.sound(),
    ensures
        stake.initiate_slashing(slash_amount, slash_period, now) matches Ok(slashed) ==> {
            let before = stake.staking_status->Staked_0;
            let after = slashed.staking_status->Staked_0;
            &&& !before.ongoing_slashes.contains_key(stake.next_slash_id())
            &&& after.ongoing_slashes.contains_key(stake.next_slash_id())
            &&& after.ongoing_slashes.remove(stake.next_slash_id()) == before.ongoing_slashes
            &&& slashed.amount() == stake.amount()
        },
{
    if let Ok(slashed) = stake.initiate_slashing(slash_amount, slash_period, now) {
        let before = stake.staking_status->Staked_0;
        let after = slashed.staking_status->Staked_0;
        assert(after.ongoing_slashes.remove(stake.next_slash_id()) =~= before.ongoing_slashes);
    }
}

/// While a slash is ongoing that was initiated last, an unstaking is paused. Cancelling the slash
/// brings back all but its identifier, which is not given out again; an unstaking stays paused
/// where other slashes are ongoing, and is active where there is none.
pub proof fn law_cancelling_undoes_initiating_a_slash(
    stake: StakeView,
    slash_amount: nat,
    slash_period: nat,
    now: nat,
)
    requires
        stake.sound(),
    ensures
        stake.initiate_slashing(slash_amount, slash_period, now) matches Ok(slashed) ==> {
            let before = stake.staking_status->Staked_0;
            let cancelled = StakedStateView {
                next_slash_id: before.next_slash_id + 1,
                ..before
            };
            slashed.cancel_slashing(stake.next_slash_id()) == Ok::<StakeView, CancelSlashingError>(
                stake.with_state(
                    cancelled.with_unstaking_active(before.ongoing_slashes.is_empty()),
                ),
            )
        },
{
    law_a_new_slash_replaces_none(stake, slash_amount, slash_period, now);
}

/// While an unstaking is under way, or a slash is ongoing, nothing is unstaked or taken out.
pub proof fn law_nothing_leaves_a_stake_that_is_slashed_or_unstaking(
    stake: StakeView,
    value: nat,
    minimum_balance: nat,
    unstaking_period: nat,
    now: nat,
)
    requires
        stake.staking_status matches StakingStatusView::Staked(state) && (
        !state.ongoing_slashes.is_empty() || state.staked_status is Unstaking),
    ensures
        stake.decrease_stake(value, minimum_balance) is Err,
        stake.unstake() is Err,
        stake.initiate_unstaking(unstaking_period, now) is Err,
{
}

/// What has been staked can be unstaked at once, and leaves the stake as it was.
pub proof fn law_unstaking_undoes_staking(stake: StakeView, value: nat, minimum_balance: nat)
    ensures
        stake.start_staking(value, minimum_balance) matches Ok(staked) ==> staked.amount() == value
            && staked.unstake() == Ok::<StakeView, UnstakingError>(stake),
{
}

/// What has been added to a stake can be taken out again, where no slash is ongoing and the stake
/// held at least the minimum balance before.
pub proof fn law_decreasing_undoes_increasing(stake: StakeView, value: nat, minimum_balance: nat)
    requires
        stake.amount() >= minimum_balance,
        stake.staking_status matches StakingStatusView::Staked(state)
            ==> state.ongoing_slashes.is_empty(),
    ensures
        stake.increase_stake(value) matches Ok(increased) ==> increased.amount() == stake.amount()
            + value && increased.decrease_stake(value, minimum_balance) == Ok::<
            StakeView,
            DecreasingStakeError,
        >(stake),
{
}

/// A slash takes its amount, or more where less than the minimum balance would be left; only where
/// the stake cannot cover its amount does it take less, and then it takes all.
pub proof fn law_a_slash_takes_its_amount_or_all(
    staked: nat,
    slash_amount: nat,
    minimum_balance: nat,
)
    ensures
        slash_takes(staked, slash_amount, minimum_balance) <= staked,
        slash_takes(staked, slash_amount, minimum_balance) == slash_amount || slash_takes(
            staked,
            slash_amount,
            minimum_balance,
        ) == staked,
        slash_takes(staked, slash_amount, minimum_balance) < slash_amount ==> staked < slash_amount,
        staked - slash_takes(staked, slash_amount, minimum_balance) == 0 || staked - slash_takes(
            staked,
            slash_amount,
            minimum_balance,
        ) >= minimum_balance,
{
}

/// The sum of what slashes took.
pub open spec fn sum_taken(list: Seq<(nat, nat, nat)>) -> nat
    decreases list.len(),
{
    if list.len() == 0 {
        0
    } else {
        sum_taken(list.drop_last()) + list.last().1
    }
}

/// Nothing is lost in slashing: what executed slashes took and what is left at stake are together
/// what was at stake, and the last of them reports what is left.
pub proof fn law_slashes_take_what_the_stake_loses(stake: StakeView, minimum_balance: nat)
    ensures
        sum_taken(stake.executed_slashes(minimum_balance)) + stake.finalize_slashing(
            minimum_balance,
        ).amount() == stake.amount(),
        stake.executed_slashes(minimum_balance).len() > 0 ==> stake.executed_slashes(
            minimum_balance,
        ).last().2 == stake.finalize_slashing(minimum_balance).amount(),
{
    if let StakingStatusView::Staked(state) = stake.staking_status {
        let due = state.advanced().due();
        lemma_sum_taken(state.staked_amount, due, minimum_balance);
        if due.len() > 0 {
            lemma_outcomes_prefix(state.staked_amount, due, minimum_balance);
        }
    }
}

/// What slashes took and what they left are together what there was.
proof fn lemma_sum_taken(staked: nat, slashes: Seq<(nat, Slash<nat, nat>)>, minimum_balance: nat)
    ensures
        sum_taken(outcomes(staked, slashes, minimum_balance)) + left_after(
            staked,
            slashes,
            minimum_balance,
        ) == staked,
    decreases slashes.len(),
{
    if slashes.len() > 0 {
        lemma_sum_taken(staked, slashes.drop_last(), minimum_balance);
        lemma_outcomes_prefix(staked, slashes, minimum_balance);
    }
}

/// A new stake has an identifier of its own, which no stake had before.
pub proof fn law_a_new_stake_replaces_none(stakes: ModuleView, now: nat)
    requires
        stakes.sound(),
    ensures
        !stakes.stakes.contains_key(stakes.stakes_created),
        stakes.create_stake(now).stakes.remove(stakes.stakes_created) == stakes.stakes,
{
    assert(stakes.create_stake(now).stakes.remove(stakes.stakes_created) =~= stakes.stakes);
}

/// The next identifier counts the stakes that were created, and a stake that is gone does not come
/// back: identifiers are given out once.
pub proof fn law_identifiers_are_given_out_once<AccountId>(
    stakes: ModuleView,
    request: Request<AccountId>,
    minimum_balance: nat,
    stake_id: nat,
)
    requires
        stake_id < stakes.stakes_created,
        !stakes.stakes.contains_key(stake_id),
    ensures
        stakes.after(request, minimum_balance).stakes_created == stakes.stakes_created
            + if request is CreateStake {
            1int
        } else {
            0int
        },
        !stakes.after(request, minimum_balance).stakes.contains_key(stake_id),
{
}

impl<AccountId> Request<AccountId> {
    /// The stake that the request is about, where it is about one that exists.
    pub open spec fn stake_id(self) -> Option<nat> {
        match self {
            Request::CreateStake { .. } => None,
            Request::RemoveStake { stake_id }
            | Request::Stake { stake_id, .. }
            | Request::StakeFromAccount { stake_id, .. }
            | Request::IncreaseStake { stake_id, .. }
            | Request::IncreaseStakeFromAccount { stake_id, .. }
            | Request::DecreaseStake { stake_id, .. }
            | Request::DecreaseStakeToAccount { stake_id, .. }
            | Request::InitiateSlashing { stake_id, .. }
            | Request::PauseSlashing { stake_id, .. }
            | Request::ResumeSlashing { stake_id, .. }
            | Request::CancelSlashing { stake_id, .. }
            | Request::InitiateUnstaking { stake_id, .. }
            | Request::PauseUnstaking { stake_id }
            | Request::ResumeUnstaking { stake_id }
            | Request::FinalizeStake { stake_id } => Some(stake_id),
        }
    }
}

/// A request on one stake leaves all others alone.
pub proof fn law_a_request_touches_one_stake<AccountId>(
    stakes: ModuleView,
    request: Request<AccountId>,
    minimum_balance: nat,
    other: nat,
)
    requires
        request.stake_id() matches Some(stake_id) && stake_id != other,
    ensures
        stakes.after(request, minimum_balance).stakes.contains_key(other)
            == stakes.stakes.contains_key(other),
        stakes.stakes.contains_key(other) ==> stakes.after(request, minimum_balance).stakes[other]
            == stakes.stakes[other],
{
}

/// A history of requests on other stakes, and of new stakes, leaves a stake alone.
pub proof fn law_requests_on_others_leave_a_stake_alone<AccountId>(
    stakes: ModuleView,
    history: Seq<(Request<AccountId>, nat)>,
    stake_id: nat,
)
    requires
        stakes.sound(),
        stakes.stakes.contains_key(stake_id),
        forall|i: int|
            0 <= i < history.len() ==> (#[trigger] history[i]).0.stake_id() != Some(stake_id),
    ensures
        stakes.after_all(history).stakes.contains_key(stake_id),
        stakes.after_all(history).stakes[stake_id] == stakes.stakes[stake_id],
    decreases history.len(),
{
    if history.len() > 0 {
        let earlier = history.drop_last();
        let (request, minimum_balance) = history.last();
        assert forall|i: int| 0 <= i < earlier.len() implies (
        #[trigger] earlier[i]).0.stake_id() != Some(stake_id) by {
            assert(earlier[i] == history[i]);
        }
        law_requests_on_others_leave_a_stake_alone(stakes, earlier, stake_id);
        law_histories_keep_stakes_sound(stakes, earlier);
        assert(history[history.len() - 1] == history.last());
        if request.stake_id() is Some {
            law_a_request_touches_one_stake(
                stakes.after_all(earlier),
                request,
                minimum_balance,
                stake_id,
            );
        }
    }
}

impl ModuleView {
    /// Whether there is a stake with the given identifier, and funds are at stake in it.
    pub open spec fn is_staked(self, stake_id: nat) -> bool {
        self.stakes.contains_key(stake_id) && self.stakes[stake_id].staking_status is Staked
    }

    /// Whether a request is granted that initiates a slash on the given stake.
    pub open spec fn slash_initiated<AccountId>(
        self,
        request: Request<AccountId>,
        stake_id: nat,
    ) -> bool {
        request matches Request::InitiateSlashing { stake_id: on, slash_amount, slash_period, now }
            && on == stake_id && self.initiate_slashing(
            stake_id,
            slash_amount,
            slash_period,
            now,
        ) is Ok
    }

    /// Whether funds are at stake in the given stake at the beginning of a history and after each
    /// of its requests.
    pub open spec fn stays_staked<AccountId>(
        self,
        history: Seq<(Request<AccountId>, nat)>,
        stake_id: nat,
    ) -> bool {
        forall|i: int|
            0 <= i <= history.len() ==> #[trigger] self.after_all(history.take(i)).is_staked(
                stake_id,
            )
    }
}

/// While funds are at stake, the identifier of the next slash on them counts the slashes that are
/// initiated: no request lowers it. Only a new staking begins anew.
pub proof fn law_slash_identifiers_count_slashes<AccountId>(
    stakes: ModuleView,
    request: Request<AccountId>,
    minimum_balance: nat,
    stake_id: nat,
)
    requires
        stakes.sound(),
        stakes.is_staked(stake_id),
        stakes.after(request, minimum_balance).is_staked(stake_id),
    ensures
        stakes.after(request, minimum_balance).stakes[stake_id].next_slash_id()
            == stakes.stakes[stake_id].next_slash_id() + if stakes.slash_initiated(
            request,
            stake_id,
        ) {
            1int
        } else {
            0int
        },
{
}

/// While funds are at stake, no two slashes on them are given the same identifier: of two that are
/// initiated, the later one has the higher identifier.
pub proof fn law_slash_identifiers_are_given_out_once<AccountId>(
    stakes: ModuleView,
    history: Seq<(Request<AccountId>, nat)>,
    stake_id: nat,
    first: int,
    second: int,
)
    requires
        stakes.sound(),
        stakes.stays_staked(history, stake_id),
        0 <= first < second < history.len(),
        stakes.after_all(history.take(first)).slash_initiated(history[first].0, stake_id),
        stakes.after_all(history.take(second)).slash_initiated(history[second].0, stake_id),
    ensures
        stakes.after_all(history.take(first)).stakes[stake_id].next_slash_id() < stakes.after_all(
            history.take(second),
        ).stakes[stake_id].next_slash_id(),
{
    lemma_slash_identifiers_grow(stakes, history, stake_id, first, second);
}

/// A slash raises the identifier of the next one for good.
proof fn lemma_slash_identifiers_grow<AccountId>(
    stakes: ModuleView,
    history: Seq<(Request<AccountId>, nat)>,
    stake_id: nat,
    first: int,
    later: int,
)
    requires
        stakes.sound(),
        stakes.stays_staked(history, stake_id),
        0 <= first < later <= history.len(),
        stakes.after_all(history.take(first)).slash_initiated(history[first].0, stake_id),
    ensures
        stakes.after_all(history.take(first)).stakes[stake_id].next_slash_id() < stakes.after_all(
            history.take(later),
        ).stakes[stake_id].next_slash_id(),
    decreases later,
{
    let before = later - 1;
    if first < before {
        lemma_slash_identifiers_grow(stakes, history, stake_id, first, before);
    }
    assert(history.take(later).drop_last() =~= history.take(before));
    assert(history.take(later).last() == history[before]);
    assert(stakes.after_all(history.take(before)).is_staked(stake_id));
    assert(stakes.after_all(history.take(later)).is_staked(stake_id));
    law_histories_keep_stakes_sound(stakes, history.take(before));
    law_slash_identifiers_count_slashes(
        stakes.after_all(history.take(before)),
        history[before].0,
        history[before].1,
        stake_id,
    );
}

/// Staking from an account is refused for the same reasons as staking is, and increasing a stake
/// from an account for the same reasons as increasing it, as long as the account can pay.
pub proof fn law_paying_from_an_account_is_refused_alike(
    stakes: ModuleView,
    stake_id: nat,
    value: nat,
    minimum_balance: nat,
)
    ensures
        match stakes.stake(stake_id, value, minimum_balance) {
            Ok(after) => {
                &&& stakes.stake_from_account(stake_id, value, minimum_balance) matches Ok(stake)
                &&& stakes.with_stake(stake_id, stake) == after
            },
            Err(StakeActionError::StakeNotFound) => stakes.stake_from_account(
                stake_id,
                value,
                minimum_balance,
            ) == Err::<StakeView, StakeActionError<StakingFromAccountError>>(
                StakeActionError::StakeNotFound,
            ),
            Err(StakeActionError::Error(error)) => stakes.stake_from_account(
                stake_id,
                value,
                minimum_balance,
            ) == Err::<StakeView, StakeActionError<StakingFromAccountError>>(
                StakeActionError::Error(StakingFromAccountError::StakingError(error)),
            ),
        },
        match stakes.increase_stake(stake_id, value) {
            Ok(after) => {
                &&& stakes.increase_stake_from_account(stake_id, value) matches Ok(stake)
                &&& stakes.with_stake(stake_id, stake) == after
            },
            Err(StakeActionError::StakeNotFound) => stakes.increase_stake_from_account(
                stake_id,
                value,
            ) == Err::<StakeView, StakeActionError<IncreasingStakeFromAccountError>>(
                StakeActionError::StakeNotFound,
            ),
            Err(StakeActionError::Error(error)) => stakes.increase_stake_from_account(
                stake_id,
                value,
            ) == Err::<StakeView, StakeActionError<IncreasingStakeFromAccountError>>(
                StakeActionError::Error(
                    IncreasingStakeFromAccountError::IncreasingStakeError(error),
                ),
            ),
        },
{
}

/// Different stake pools have different accounts.
pub proof fn law_pools_have_accounts_of_their_own(a: Seq<u8>, b: Seq<u8>)
    requires
        a.len() == 8,
        b.len() == 8,
        pool_account(a) == pool_account(b),
    ensures
        a == b,
{
    assert forall|i: int| 0 <= i < 8 implies a[i] == b[i] by {
        assert(pool_account(a)[i + 4] == a[i]);
        assert(pool_account(b)[i + 4] == b[i]);
    }
    assert(a =~= b);
}

/// It does not matter how the handlers of an unstaking are grouped in a chain.
pub proof fn law_grouping_handlers_of_an_unstaking_does_not_matter<
    StakeId,
    SlashId,
    Balance: SimpleArithmetic,
    A: StakingEventsHandler<StakeId, SlashId, Balance>,
    B: StakingEventsHandler<StakeId, SlashId, Balance>,
    C: StakingEventsHandler<StakeId, SlashId, Balance>,
>(
    id: StakeId,
    amount: Balance,
    imbalance: NegativeImbalance<Balance>,
    left: NegativeImbalance<Balance>,
)
    ensures
        <((A, B), C) as StakingEventsHandler<StakeId, SlashId, Balance>>::unstaked_leaves(
            id, amount,
            imbalance,
            left,
        ) == <(A, (B, C)) as StakingEventsHandler<StakeId, SlashId, Balance>>::unstaked_leaves(
            id, amount,
            imbalance,
            left,
        ),
{
    if <((A, B), C) as StakingEventsHandler<StakeId, SlashId, Balance>>::unstaked_leaves(
        id, amount,
        imbalance,
        left,
    ) {
        let second = choose|second: NegativeImbalance<Balance>|
            {
                &&& #[trigger] <(A, B) as StakingEventsHandler<StakeId, SlashId, Balance>>::unstaked_leaves(
                    id, amount,
                    imbalance,
                    second,
                )
                &&& C::unstaked_leaves(id, amount, second, left)
            };
        let first = choose|first: NegativeImbalance<Balance>|
            {
                &&& #[trigger] A::unstaked_leaves(id, amount, imbalance, first)
                &&& B::unstaked_leaves(id, amount, first, second)
            };
        assert(B::unstaked_leaves(id, amount, first, second));
        assert(<(B, C) as StakingEventsHandler<StakeId, SlashId, Balance>>::unstaked_leaves(
            id, amount,
            first,
            left,
        ));
        assert(A::unstaked_leaves(id, amount, imbalance, first));
    }
    if <(A, (B, C)) as StakingEventsHandler<StakeId, SlashId, Balance>>::unstaked_leaves(
        id, amount,
        imbalance,
        left,
    ) {
        let first = choose|first: NegativeImbalance<Balance>|
            {
                &&& #[trigger] A::unstaked_leaves(id, amount, imbalance, first)
                &&& <(B, C) as StakingEventsHandler<StakeId, SlashId, Balance>>::unstaked_leaves(
                    id, amount,
                    first,
                    left,
                )
            };
        let second = choose|second: NegativeImbalance<Balance>|
            {
                &&& #[trigger] B::unstaked_leaves(id, amount, first, second)
                &&& C::unstaked_leaves(id, amount, second, left)
            };
        assert(A::unstaked_leaves(id, amount, imbalance, first));
        assert(<(A, B) as StakingEventsHandler<StakeId, SlashId, Balance>>::unstaked_leaves(
            id, amount,
            imbalance,
            second,
        ));
    }
}

/// It does not matter how the handlers of a slash are grouped in a chain.
pub proof fn law_grouping_handlers_of_a_slash_does_not_matter<
    StakeId,
    SlashId,
    Balance: SimpleArithmetic,
    A: StakingEventsHandler<StakeId, SlashId, Balance>,
    B: StakingEventsHandler<StakeId, SlashId, Balance>,
    C: StakingEventsHandler<StakeId, SlashId, Balance>,
>(
    id: StakeId,
    slash_id: SlashId,
    amount: Balance,
    remaining: Balance,
    imbalance: NegativeImbalance<Balance>,
    left: NegativeImbalance<Balance>,
)
    ensures
        <((A, B), C) as StakingEventsHandler<StakeId, SlashId, Balance>>::slashed_leaves(
            id, slash_id, amount, remaining,
            imbalance,
            left,
        ) == <(A, (B, C)) as StakingEventsHandler<StakeId, SlashId, Balance>>::slashed_leaves(
            id, slash_id, amount, remaining,
            imbalance,
            left,
        ),
{
    if <((A, B), C) as StakingEventsHandler<StakeId, SlashId, Balance>>::slashed_leaves(
        id, slash_id, amount, remaining,
        imbalance,
        left,
    ) {
        let second = choose|second: NegativeImbalance<Balance>|
            {
                &&& #[trigger] <(A, B) as StakingEventsHandler<StakeId, SlashId, Balance>>::slashed_leaves(
                    id, slash_id, amount, remaining,
                    imbalance,
                    second,
                )
                &&& C::slashed_leaves(id, slash_id, amount, remaining, second, left)
            };
        let first = choose|first: NegativeImbalance<Balance>|
            {
                &&& #[trigger] A::slashed_leaves(id, slash_id, amount, remaining, imbalance, first)
                &&& B::slashed_leaves(id, slash_id, amount, remaining, first, second)
            };
        assert(B::slashed_leaves(id, slash_id, amount, remaining, first, second));
        assert(<(B, C) as StakingEventsHandler<StakeId, SlashId, Balance>>::slashed_leaves(
            id, slash_id, amount, remaining,
            first,
            left,
        ));
        assert(A::slashed_leaves(id, slash_id, amount, remaining, imbalance, first));
    }
    if <(A, (B, C)) as StakingEventsHandler<StakeId, SlashId, Balance>>::slashed_leaves(
        id, slash_id, amount, remaining,
        imbalance,
        left,
    ) {
        let first = choose|first: NegativeImbalance<Balance>|
            {
                &&& #[trigger] A::slashed_leaves(id, slash_id, amount, remaining, imbalance, first)
                &&& <(B, C) as StakingEventsHandler<StakeId, SlashId, Balance>>::slashed_leaves(
                    id, slash_id, amount, remaining,
                    first,
                    left,
                )
            };
        let second = choose|second: NegativeImbalance<Balance>|
            {
                &&& #[trigger] B::slashed_leaves(id, slash_id, amount, remaining, first, second)
                &&& C::slashed_leaves(id, slash_id, amount, remaining, second, left)
            };
        assert(A::slashed_leaves(id, slash_id, amount, remaining, imbalance, first));
        assert(<(A, B) as StakingEventsHandler<StakeId, SlashId, Balance>>::slashed_leaves(
            id, slash_id, amount, remaining,
            imbalance,
            second,
        ));
    }
}

} // verus!
