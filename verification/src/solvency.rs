//! The stake pool always covers what is at stake.
use crate::events::NegativeImbalance;
use crate::ordered::lemma_in_order;
use crate::pool::PoolAction;
use crate::registry::ModuleView;
use crate::soundness::{law_stakes_are_always_sound, Request};
use crate::stake::{StakeView, StakingStatusView};
use crate::staked::{left_after, lemma_outcomes_prefix, outcomes, Slash};
use vstd::prelude::*;

verus! {

/// The sum of the amounts at stake, over the stakes whose identifiers are below `bound`.
pub open spec fn staked_below(stakes: Map<nat, StakeView>, bound: nat) -> nat
    decreases bound,
{
    if bound == 0 {
        0
    } else {
        let id = (bound - 1) as nat;
        staked_below(stakes, id) + if stakes.contains_key(id) {
            stakes[id].amount()
        } else {
            0
        }
    }
}

impl ModuleView {
    /// The total amount at stake.
    pub open spec fn total_staked(self) -> nat {
        staked_below(self.stakes, self.stakes_created)
    }

    /// What a request leads to being done with the funds in the pool.
    pub open spec fn actions<AccountId>(
        self,
        request: Request<AccountId>,
        minimum_balance: nat,
    ) -> Seq<PoolAction<AccountId, nat, nat, nat>> {
        match request {
            Request::Stake { stake_id, value } => if self.stake(
                stake_id,
                value,
                minimum_balance,
            ) is Ok {
                seq![PoolAction::Deposit { imbalance: NegativeImbalance { amount: value } }]
            } else {
                Seq::empty()
            },
            Request::StakeFromAccount { stake_id, value, withdrawn } => if withdrawn
                && self.stake_from_account(stake_id, value, minimum_balance) is Ok {
                seq![PoolAction::Deposit { imbalance: NegativeImbalance { amount: value } }]
            } else {
                Seq::empty()
            },
            Request::IncreaseStake { stake_id, value } => if self.increase_stake(
                stake_id,
                value,
            ) is Ok {
                seq![PoolAction::Deposit { imbalance: NegativeImbalance { amount: value } }]
            } else {
                Seq::empty()
            },
            Request::IncreaseStakeFromAccount { stake_id, value, withdrawn } => if withdrawn
                && self.increase_stake_from_account(stake_id, value) is Ok {
                seq![PoolAction::Deposit { imbalance: NegativeImbalance { amount: value } }]
            } else {
                Seq::empty()
            },
            Request::DecreaseStake { stake_id, value } => match self.decrease_stake(
                stake_id,
                value,
                minimum_balance,
            ) {
                Ok(stakes) => seq![
                    PoolAction::Withdraw {
                        amount: self.released(stakes, stake_id),
                    },
                ],
                Err(_) => Seq::empty(),
            },
            Request::DecreaseStakeToAccount {
                stake_id,
                destination,
                value,
            } => match self.decrease_stake(stake_id, value, minimum_balance) {
                Ok(stakes) => seq![
                    PoolAction::Transfer {
                        destination,
                        amount: self.released(stakes, stake_id),
                    },
                ],
                Err(_) => Seq::empty(),
            },
            Request::InitiateUnstaking {
                stake_id,
                unstaking_period,
                now,
            } => match self.initiate_unstaking(stake_id, unstaking_period, now) {
                Ok(stakes) => if unstaking_period is None {
                    seq![PoolAction::Unstaked { stake_id, amount: self.released(stakes, stake_id) }]
                } else {
                    Seq::empty()
                },
                Err(_) => Seq::empty(),
            },
            Request::FinalizeStake { stake_id } => self.finalize_stake_actions::<AccountId>(
                stake_id,
                minimum_balance,
            ),
            _ => Seq::empty(),
        }
    }
}

/// By how much actions change the funds in the pool.
pub open spec fn net_inflow<AccountId>(actions: Seq<PoolAction<AccountId, nat, nat, nat>>) -> int
    decreases actions.len(),
{
    if actions.len() == 0 {
        0
    } else {
        net_inflow(actions.drop_last()) + actions.last().inflow()
    }
}

/// Whether a pool with the given funds covers every withdrawal among actions that are performed
/// one after the other.
pub open spec fn covered<AccountId>(
    pool: int,
    actions: Seq<PoolAction<AccountId, nat, nat, nat>>,
) -> bool {
    forall|i: int| 0 <= i <= actions.len() ==> pool + #[trigger] net_inflow(actions.take(i)) >= 0
}

/// Replacing a stake changes the sum by the difference of the two amounts.
proof fn lemma_staked_below_insert(
    stakes: Map<nat, StakeView>,
    bound: nat,
    id: nat,
    stake: StakeView,
)
    ensures
        id < bound ==> staked_below(stakes.insert(id, stake), bound) == staked_below(stakes, bound)
            + stake.amount() - if stakes.contains_key(id) {
            stakes[id].amount()
        } else {
            0
        },
        id >= bound ==> staked_below(stakes.insert(id, stake), bound) == staked_below(
            stakes,
            bound,
        ),
    decreases bound,
{
    if bound > 0 {
        lemma_staked_below_insert(stakes, (bound - 1) as nat, id, stake);
    }
}

/// Removing a stake takes its amount from the sum.
proof fn lemma_staked_below_remove(stakes: Map<nat, StakeView>, bound: nat, id: nat)
    requires
        stakes.contains_key(id),
    ensures
        id < bound ==> staked_below(stakes.remove(id), bound) == staked_below(stakes, bound)
            - stakes[id].amount(),
        id >= bound ==> staked_below(stakes.remove(id), bound) == staked_below(stakes, bound),
    decreases bound,
{
    if bound > 0 {
        lemma_staked_below_remove(stakes, (bound - 1) as nat, id);
    }
}

/// The net inflow of a single action is its inflow.
proof fn lemma_net_inflow_single<AccountId>(action: PoolAction<AccountId, nat, nat, nat>)
    ensures
        net_inflow(seq![action]) == action.inflow(),
{
    assert(seq![action].drop_last() =~= Seq::empty());
    assert(net_inflow(seq![action].drop_last()) == 0);
}

/// What executed slashes withdraw from the pool is what they took from the stake.
proof fn lemma_slashed_inflow<AccountId>(
    staked: nat,
    slashes: Seq<(nat, Slash<nat, nat>)>,
    minimum_balance: nat,
    f: spec_fn((nat, nat, nat)) -> PoolAction<AccountId, nat, nat, nat>,
)
    requires
        forall|o: (nat, nat, nat)| #[trigger] f(o).inflow() == -o.1,
    ensures
        net_inflow(outcomes(staked, slashes, minimum_balance).map_values(f)) == left_after(
            staked,
            slashes,
            minimum_balance,
        ) - staked,
    decreases slashes.len(),
{
    let all = outcomes(staked, slashes, minimum_balance);
    if slashes.len() > 0 {
        let first = slashes.drop_last();
        lemma_slashed_inflow(staked, first, minimum_balance, f);
        lemma_outcomes_prefix(staked, slashes, minimum_balance);
        assert(all.map_values(f).drop_last() =~= all.drop_last().map_values(f));
        assert(all.map_values(f).last() == f(all.last()));
    }
}

/// What finalising a block withdraws from the pool is what it takes from the stake.
proof fn lemma_finalize_inflow<AccountId>(stake: StakeView, stake_id: nat, minimum_balance: nat)
    ensures
        net_inflow(stake.finalize_actions::<AccountId>(stake_id, minimum_balance))
            == stake.finalize_slashing_and_unstaking(minimum_balance).amount() - stake.amount(),
{
    let f = |o: (nat, nat, nat)|
        PoolAction::<AccountId, nat, nat, nat>::Slashed {
            stake_id,
            slash_id: o.0,
            amount: o.1,
            remaining_stake: o.2,
        };
    let slashed = stake.executed_slashes(minimum_balance).map_values(f);
    let left = stake.finalize_slashing(minimum_balance);
    match stake.staking_status {
        StakingStatusView::NotStaked => {
            assert(slashed =~= Seq::empty());
        },
        StakingStatusView::Staked(state) => {
            lemma_slashed_inflow(state.staked_amount, state.advanced().due(), minimum_balance, f);
        },
    }
    assert(net_inflow(slashed) == left.amount() - stake.amount());
    if left.unstaking_finishes() {
        let unstaked = PoolAction::<AccountId, nat, nat, nat>::Unstaked {
            stake_id,
            amount: left.amount(),
        };
        assert(slashed.push(unstaked).drop_last() =~= slashed);
    }
}

/// A sound stake that does not advance when a block is finalised does not change either, and
/// nothing is done with its funds.
pub proof fn law_a_stake_that_does_not_advance_stays_as_it_is<AccountId>(
    stake: StakeView,
    stake_id: nat,
    minimum_balance: nat,
)
    requires
        stake.sound(),
        !stake.advances(minimum_balance),
    ensures
        stake.finalize_slashing_and_unstaking(minimum_balance) == stake,
        stake.finalize_actions::<AccountId>(stake_id, minimum_balance).len() == 0,
{
    if let StakingStatusView::Staked(state) = stake.staking_status {
        assert forall|id: nat| #[trigger] state.ongoing_slashes.contains_key(id) implies
            !state.ongoing_slashes[id].ticks() by {
            assert(!state.ticking().contains(id));
        }
        assert(state.advanced().ongoing_slashes =~= state.ongoing_slashes);
        assert(state.due_ids() =~= Set::empty());
        let none: Seq<nat> = Seq::empty();
        assert(none.to_set() =~= Set::empty());
        lemma_in_order(none);
        assert(state.due().len() == 0);
        assert(state.without_due().ongoing_slashes =~= state.ongoing_slashes);
        assert(stake.finalize_slashing(minimum_balance) =~= stake);
    }
}

/// Finalising a block for one stake changes what is at stake by what flows into the pool.
proof fn lemma_finalize_stake_in_sync<AccountId>(
    stakes: ModuleView,
    stake_id: nat,
    minimum_balance: nat,
)
    requires
        stakes.sound(),
    ensures
        stakes.finalize_stake(stake_id, minimum_balance).total_staked() == stakes.total_staked()
            + net_inflow(
            stakes.finalize_stake_actions::<AccountId>(stake_id, minimum_balance),
        ),
{
    if stakes.stakes.contains_key(stake_id) {
        let stake = stakes.stakes[stake_id];
        let done = stake.finalize_slashing_and_unstaking(minimum_balance);
        lemma_finalize_inflow::<AccountId>(stake, stake_id, minimum_balance);
        if stake.advances(minimum_balance) {
            lemma_staked_below_insert(stakes.stakes, stakes.stakes_created, stake_id, done);
        } else {
            law_a_stake_that_does_not_advance_stays_as_it_is::<AccountId>(
                stake,
                stake_id,
                minimum_balance,
            );
        }
    }
}

/// The pool is in sync with the total amount at stake: whatever is requested, the total changes by
/// exactly what flows into the pool.
pub proof fn law_pool_is_in_sync_with_stakes<AccountId>(
    stakes: ModuleView,
    request: Request<AccountId>,
    minimum_balance: nat,
)
    requires
        stakes.sound(),
    ensures
        stakes.after(request, minimum_balance).total_staked() == stakes.total_staked() + net_inflow(
            stakes.actions(request, minimum_balance),
        ),
{
    let after = stakes.after(request, minimum_balance);
    let actions = stakes.actions(request, minimum_balance);
    let bound = stakes.stakes_created;
    if actions.len() == 1 {
        assert(actions =~= seq![actions[0]]);
        lemma_net_inflow_single(actions[0]);
    }
    match request {
        Request::CreateStake { now } => {
            lemma_staked_below_insert(
                stakes.stakes,
                bound,
                bound,
                StakeView { created: now, staking_status: StakingStatusView::NotStaked },
            );
        },
        Request::RemoveStake { stake_id } => {
            if stakes.stakes.contains_key(stake_id) {
                lemma_staked_below_remove(stakes.stakes, bound, stake_id);
            }
        },
        Request::FinalizeStake { stake_id } => {
            lemma_finalize_stake_in_sync::<AccountId>(stakes, stake_id, minimum_balance);
        },
        Request::Stake { stake_id, .. }
        | Request::StakeFromAccount { stake_id, .. }
        | Request::IncreaseStake { stake_id, .. }
        | Request::IncreaseStakeFromAccount { stake_id, .. }
        | Request::DecreaseStake { stake_id, .. }
        | Request::DecreaseStakeToAccount { stake_id, .. }
        | Request::InitiateSlashing { stake_id, .. }
        | Request::PauseSlashing { stake_id, .. }
        | Request::ResumeSlashing { stake_id, .. }
        | Request::CancelSlashing { stake_id, .. }
        | Request::InitiateUnstaking { stake_id, .. }
        | Request::PauseUnstaking { stake_id }
        | Request::ResumeUnstaking { stake_id } => {
            if stakes.stakes.contains_key(stake_id) {
                lemma_staked_below_insert(stakes.stakes, bound, stake_id, after.stakes[stake_id]);
            }
        },
    }
}

/// Whether none of the actions puts anything into the pool.
spec fn only_withdraws<AccountId>(actions: Seq<PoolAction<AccountId, nat, nat, nat>>) -> bool {
    forall|i: int| 0 <= i < actions.len() ==> (#[trigger] actions[i]).inflow() <= 0
}

/// Withdrawals that the pool covers altogether, it covers one after the other.
proof fn lemma_withdrawals_covered<AccountId>(
    pool: int,
    actions: Seq<PoolAction<AccountId, nat, nat, nat>>,
)
    requires
        only_withdraws(actions),
        pool + net_inflow(actions) >= 0,
    ensures
        covered(pool, actions),
    decreases actions.len(),
{
    if actions.len() == 0 {
        assert(actions.take(0) =~= actions);
    } else {
        let first = actions.drop_last();
        assert(only_withdraws(first));
        lemma_withdrawals_covered(pool, first);
        assert forall|i: int| 0 <= i <= actions.len() implies pool + #[trigger] net_inflow(
            actions.take(i),
        ) >= 0 by {
            if i < actions.len() {
                assert(actions.take(i) =~= first.take(i));
            } else {
                assert(actions.take(i) =~= actions);
            }
        }
    }
}

/// Withdrawing from the pool never fails for want of funds: a pool that covers the total amount at
/// stake covers every withdrawal that a request leads to, and the total afterwards. What earlier
/// requests have led to may still be outstanding, as long as the pool covers that too: a handler
/// that is told of one withdrawal can make a request before the next withdrawal is made.
pub proof fn law_pool_covers_every_withdrawal<AccountId>(
    stakes: ModuleView,
    request: Request<AccountId>,
    minimum_balance: nat,
    pool: int,
    outstanding: nat,
)
    requires
        stakes.sound(),
        stakes.total_staked() + outstanding <= pool,
    ensures
        covered(pool - outstanding, stakes.actions(request, minimum_balance)),
        stakes.after(request, minimum_balance).total_staked() + outstanding <= pool + net_inflow(
            stakes.actions(request, minimum_balance),
        ),
{
    let actions = stakes.actions(request, minimum_balance);
    law_pool_is_in_sync_with_stakes(stakes, request, minimum_balance);
    if only_withdraws(actions) {
        lemma_withdrawals_covered(pool - outstanding, actions);
    } else {
        // a single deposit
        assert(actions.len() == 1);
        assert(actions.take(0) =~= Seq::empty());
        assert(actions.take(1) =~= actions);
        assert(net_inflow(actions.take(0)) == 0);
    }
}

/// The funds in the pool after a history of requests that began with no stakes, where others have
/// paid in `extra` besides.
pub open spec fn pool_after<AccountId>(
    history: Seq<(Request<AccountId>, nat)>,
    extra: nat,
) -> int
    decreases history.len(),
{
    if history.len() == 0 {
        extra as int
    } else {
        let (request, minimum_balance) = history.last();
        pool_after(history.drop_last(), extra) + net_inflow(
            ModuleView::none().after_all(history.drop_last()).actions(request, minimum_balance),
        )
    }
}

/// At all times the pool holds the total amount at stake and what others have paid in, and covers
/// whatever the next request leads to. The minimum balance may be another one with each request.
pub proof fn law_pool_always_holds_what_is_staked<AccountId>(
    history: Seq<(Request<AccountId>, nat)>,
    extra: nat,
    next: Request<AccountId>,
    minimum_balance: nat,
)
    ensures
        pool_after(history, extra) == ModuleView::none().after_all(history).total_staked() + extra,
        covered(
            pool_after(history, extra),
            ModuleView::none().after_all(history).actions(next, minimum_balance),
        ),
    decreases history.len(),
{
    let stakes = ModuleView::none().after_all(history);
    law_stakes_are_always_sound(history);
    if history.len() > 0 {
        let before = history.drop_last();
        let (request, minimum_balance_then) = history.last();
        law_pool_always_holds_what_is_staked(before, extra, next, minimum_balance);
        law_stakes_are_always_sound(before);
        law_pool_is_in_sync_with_stakes(
            ModuleView::none().after_all(before),
            request,
            minimum_balance_then,
        );
    }
    law_pool_covers_every_withdrawal(
        stakes,
        next,
        minimum_balance,
        pool_after(history, extra),
        0,
    );
}

impl StakeView {
    /// Whether the stake holds nothing, or at least the minimum balance.
    pub open spec fn free_of_dust(self, minimum_balance: nat) -> bool {
        self.amount() == 0 || self.amount() >= minimum_balance
    }
}

impl ModuleView {
    /// Whether every stake holds nothing, or at least the minimum balance.
    pub open spec fn free_of_dust(self, minimum_balance: nat) -> bool {
        forall|id: nat| #[trigger]
            self.stakes.contains_key(id) ==> self.stakes[id].free_of_dust(minimum_balance)
    }

    /// Whether a request adds less than the minimum balance to a stake that slashes, or a
    /// decrease, have emptied.
    pub open spec fn adds_dust<AccountId>(
        self,
        request: Request<AccountId>,
        minimum_balance: nat,
    ) -> bool {
        match request {
            Request::IncreaseStake { stake_id, value } => self.stakes[stake_id].amount() == 0
                && value < minimum_balance,
            Request::IncreaseStakeFromAccount { stake_id, value, .. } => {
                self.stakes[stake_id].amount() == 0 && value < minimum_balance
            },
            _ => false,
        }
    }
}

/// Executed slashes leave nothing, or at least the minimum balance.
proof fn lemma_slashes_leave_no_dust(
    staked: nat,
    slashes: Seq<(nat, Slash<nat, nat>)>,
    minimum_balance: nat,
)
    requires
        staked == 0 || staked >= minimum_balance,
    ensures
        left_after(staked, slashes, minimum_balance) == 0 || left_after(
            staked,
            slashes,
            minimum_balance,
        ) >= minimum_balance,
    decreases slashes.len(),
{
    if slashes.len() > 0 {
        lemma_slashes_leave_no_dust(staked, slashes.drop_last(), minimum_balance);
    }
}

/// Less than the minimum balance is never left at stake, unless a stake that has been emptied is
/// increased by less than that.
pub proof fn law_no_dust_is_left_at_stake<AccountId>(
    stakes: ModuleView,
    request: Request<AccountId>,
    minimum_balance: nat,
)
    requires
        stakes.free_of_dust(minimum_balance),
        !stakes.adds_dust(request, minimum_balance),
    ensures
        stakes.after(request, minimum_balance).free_of_dust(minimum_balance),
{
    if let Request::FinalizeStake { stake_id } = request {
        if stakes.is_staked(stake_id) {
            let state = stakes.stakes[stake_id].staking_status->Staked_0;
            lemma_slashes_leave_no_dust(
                state.staked_amount,
                state.advanced().due(),
                minimum_balance,
            );
        }
    }
}

} // verus!
