//! What finalising a block does to a stake: which slashes are executed and what they take, how
//! timers advance, and when an unstaking is finished.
use crate::ordered::{ascending, in_order, lemma_in_order_bounded};
use crate::pool::PoolAction;
use crate::registry::ModuleView;
use crate::stake::{StakeView, StakingStatusView};
use crate::staked::{left_after, outcomes, slash_takes, Slash, StakedStateView, StakedStatus};
use vstd::prelude::*;

verus! {

/// Numbers of which there are finitely many have a bound.
proof fn lemma_finite_bounded(s: Set<nat>) -> (bound: nat)
    requires
        s.finite(),
    ensures
        forall|x: nat| #[trigger] s.contains(x) ==> x < bound,
    decreases s.len(),
{
    if s.is_empty() {
        0
    } else {
        let x = s.choose();
        let below = lemma_finite_bounded(s.remove(x));
        let bound: nat = if below > x {
            below
        } else {
            x + 1
        };
        assert forall|y: nat| #[trigger] s.contains(y) implies y < bound by {
            if y != x {
                assert(s.remove(x).contains(y));
            }
        }
        bound
    }
}

/// Putting finitely many numbers in order neither loses nor adds any.
pub proof fn law_order_has_all_members(s: Set<nat>)
    requires
        s.finite(),
    ensures
        forall|i: int, j: int| 0 <= i < j < in_order(s).len() ==> in_order(s)[i] < in_order(s)[j],
        forall|x: nat| #[trigger] s.contains(x) <==> in_order(s).contains(x),
{
    let bound = lemma_finite_bounded(s);
    lemma_in_order_bounded(s, bound);
    assert forall|x: nat| #[trigger] s.contains(x) <==> in_order(s).contains(x) by {
        assert(in_order(s).to_set().contains(x) <==> in_order(s).contains(x));
    }
}

/// A slash takes exactly its amount wherever the minimum balance can stay at stake besides. Where
/// it cannot, the slash takes all.
pub proof fn law_a_slash_takes_exactly_its_amount_where_it_can(
    staked: nat,
    slash_amount: nat,
    minimum_balance: nat,
)
    ensures
        staked >= slash_amount + minimum_balance ==> slash_takes(
            staked,
            slash_amount,
            minimum_balance,
        ) == slash_amount,
        staked < slash_amount + minimum_balance ==> slash_takes(
            staked,
            slash_amount,
            minimum_balance,
        ) == staked,
{
}

/// Whether outcomes follow from slashes that are executed one after the other on `staked` funds:
/// each slash finds what the one before it left, takes exactly its amount where at least the
/// minimum balance stays, and all else.
pub open spec fn executed_in_turn(
    staked: nat,
    slashes: Seq<(nat, Slash<nat, nat>)>,
    minimum_balance: nat,
    executed: Seq<(nat, nat, nat)>,
) -> bool {
    &&& executed.len() == slashes.len()
    &&& forall|i: int|
        0 <= i < executed.len() ==> {
            let found = if i == 0 {
                staked
            } else {
                executed[i - 1].2
            };
            let amount = slashes[i].1.slash_amount;
            &&& (#[trigger] executed[i]).0 == slashes[i].0
            &&& executed[i].1 + executed[i].2 == found
            &&& found >= amount + minimum_balance ==> executed[i].1 == amount
            &&& found < amount + minimum_balance ==> executed[i].2 == 0
        }
}

/// Slashes are executed in turn, and what the last one leaves is left in the end.
pub proof fn law_slashes_are_executed_in_turn(
    staked: nat,
    slashes: Seq<(nat, Slash<nat, nat>)>,
    minimum_balance: nat,
)
    ensures
        executed_in_turn(
            staked,
            slashes,
            minimum_balance,
            outcomes(staked, slashes, minimum_balance),
        ),
        slashes.len() == 0 ==> left_after(staked, slashes, minimum_balance) == staked,
        slashes.len() > 0 ==> left_after(staked, slashes, minimum_balance) == outcomes(
            staked,
            slashes,
            minimum_balance,
        ).last().2,
{
    let executed = outcomes(staked, slashes, minimum_balance);
    assert forall|i: int| 0 <= i < executed.len() implies {
        let found = if i == 0 {
            staked
        } else {
            executed[i - 1].2
        };
        let amount = slashes[i].1.slash_amount;
        &&& (#[trigger] executed[i]).0 == slashes[i].0
        &&& executed[i].1 + executed[i].2 == found
        &&& found >= amount + minimum_balance ==> executed[i].1 == amount
        &&& found < amount + minimum_balance ==> executed[i].2 == 0
    } by {
        assert(slashes.take(i + 1).drop_last() =~= slashes.take(i));
        assert(slashes.take(i + 1).last() == slashes[i]);
        if i == 0 {
            assert(slashes.take(0).len() == 0);
        }
    }
    assert(slashes.take(slashes.len() as int) =~= slashes);
}

/// A block counts for every slash that is active and has blocks left to wait for, and for no other;
/// nothing else changes.
pub proof fn law_a_block_counts_for_active_slashes(state: StakedStateView)
    ensures
        state.advanced().staked_amount == state.staked_amount,
        state.advanced().staked_status == state.staked_status,
        state.advanced().next_slash_id == state.next_slash_id,
        forall|id: nat|
            #![trigger state.advanced().ongoing_slashes.contains_key(id)]
            #![trigger state.ongoing_slashes.contains_key(id)]
            state.advanced().ongoing_slashes.contains_key(id)
                <==> state.ongoing_slashes.contains_key(id),
        forall|id: nat| #[trigger]
            state.ongoing_slashes.contains_key(id) ==> {
                let before = state.ongoing_slashes[id];
                let after = state.advanced().ongoing_slashes[id];
                &&& after.is_active == before.is_active
                &&& after.started_at_block == before.started_at_block
                &&& after.slash_amount == before.slash_amount
                &&& if before.is_active && before.blocks_remaining_in_active_period_for_slashing
                    > 0 {
                    after.blocks_remaining_in_active_period_for_slashing + 1
                        == before.blocks_remaining_in_active_period_for_slashing
                } else {
                    after.blocks_remaining_in_active_period_for_slashing
                        == before.blocks_remaining_in_active_period_for_slashing
                }
            },
        forall|id: nat| #[trigger]
            state.ticking().contains(id) <==> state.ongoing_slashes.contains_key(id)
                && state.ongoing_slashes[id].is_active
                && state.ongoing_slashes[id].blocks_remaining_in_active_period_for_slashing > 0,
{
}

/// The slashes that have no block left to wait for are executed, all of them, by ascending
/// identifier, and no other; those that are not stay ongoing as they are.
pub proof fn law_slashes_without_blocks_left_are_executed(
    state: StakedStateView,
    minimum_balance: nat,
)
    requires
        state.ongoing_slashes.dom().finite(),
    ensures
        forall|i: int, j: int|
            0 <= i < j < state.due().len() ==> state.due()[i].0 < state.due()[j].0,
        forall|i: int|
            0 <= i < state.due().len() ==> {
                &&& state.ongoing_slashes.contains_key((#[trigger] state.due()[i]).0)
                &&& state.due()[i].1 == state.ongoing_slashes[state.due()[i].0]
                &&& state.due()[i].1.blocks_remaining_in_active_period_for_slashing == 0
            },
        forall|id: nat| #[trigger]
            state.ongoing_slashes.contains_key(id)
                && state.ongoing_slashes[id].blocks_remaining_in_active_period_for_slashing == 0
                ==> state.due().contains((id, state.ongoing_slashes[id])),
        kept_after_execution(state, state.without_due()),
        state.without_due().staked_amount == state.staked_amount,
        kept_after_execution(state, state.slashed(minimum_balance)),
        state.slashed(minimum_balance).staked_amount == left_after(
            state.staked_amount,
            state.due(),
            minimum_balance,
        ),
{
    let ids = in_order(state.due_ids());
    let due = state.due();
    assert(state.due_ids().subset_of(state.ongoing_slashes.dom()));
    vstd::set_lib::lemma_set_subset_finite(state.ongoing_slashes.dom(), state.due_ids());
    law_order_has_all_members(state.due_ids());
    assert forall|i: int| 0 <= i < due.len() implies {
        &&& state.ongoing_slashes.contains_key((#[trigger] due[i]).0)
        &&& due[i].1 == state.ongoing_slashes[due[i].0]
        &&& due[i].1.blocks_remaining_in_active_period_for_slashing == 0
    } by {
        assert(ids.contains(ids[i]));
        assert(state.due_ids().contains(ids[i]));
    }
    assert forall|id: nat| #[trigger]
        state.ongoing_slashes.contains_key(id)
            && state.ongoing_slashes[id].blocks_remaining_in_active_period_for_slashing
            == 0 implies due.contains((id, state.ongoing_slashes[id])) by {
        assert(state.due_ids().contains(id));
        let i = choose|i: int| 0 <= i < ids.len() && ids[i] == id;
        assert(due[i] == (id, state.ongoing_slashes[id]));
    }
}

/// Whether funds at stake have kept, of their slashes, exactly those with blocks left to wait for,
/// and all else but the amount.
pub open spec fn kept_after_execution(state: StakedStateView, after: StakedStateView) -> bool {
    &&& after.staked_status == state.staked_status
    &&& after.next_slash_id == state.next_slash_id
    &&& forall|id: nat|
        #![trigger after.ongoing_slashes.contains_key(id)]
        #![trigger state.ongoing_slashes.contains_key(id)]
        after.ongoing_slashes.contains_key(id) <==> state.ongoing_slashes.contains_key(id)
            && state.ongoing_slashes[id].blocks_remaining_in_active_period_for_slashing > 0
    &&& forall|id: nat|
        #![trigger after.ongoing_slashes[id]]
        after.ongoing_slashes.contains_key(id) ==> after.ongoing_slashes[id]
            == state.ongoing_slashes[id]
}

/// Whether a slash is executed with the next block that is finalised: the block is the last one
/// that it waits for.
pub open spec fn runs_out(slash: Slash<nat, nat>) -> bool {
    slash.blocks_remaining_in_active_period_for_slashing == 0 || slash.is_active
        && slash.blocks_remaining_in_active_period_for_slashing == 1
}

/// Finalising a block executes exactly the slashes whose last block it is, by ascending identifier
/// and in turn. All others stay ongoing, and the block counts for those of them that are active.
/// What the last one leaves stays at stake, and where none is executed, all of it. Whether a timer
/// has advanced is whether a slash is active that had a block left.
pub proof fn law_a_block_executes_the_slashes_whose_last_block_it_is(
    stake: StakeView,
    minimum_balance: nat,
)
    requires
        stake.staking_status matches StakingStatusView::Staked(state)
            ==> state.ongoing_slashes.dom().finite(),
    ensures
        stake.finalize_slashing(minimum_balance).created == stake.created,
        stake.staking_status is NotStaked ==> stake.finalize_slashing(
            minimum_balance,
        ).staking_status is NotStaked && stake.executed_slashes(minimum_balance).len() == 0
            && !stake.slashing_advances(),
        stake.staking_status matches StakingStatusView::Staked(before) ==> {
            let executed = stake.executed_slashes(minimum_balance);
            &&& stake.finalize_slashing(
                minimum_balance,
            ).staking_status matches StakingStatusView::Staked(after)
            &&& after.staked_status == before.staked_status
            &&& after.next_slash_id == before.next_slash_id
            &&& after.staked_amount == if executed.len() == 0 {
                before.staked_amount
            } else {
                executed.last().2
            }
            &&& forall|i: int, j: int| 0 <= i < j < executed.len() ==> executed[i].0 < executed[j].0
            &&& forall|i: int|
                0 <= i < executed.len() ==> {
                    let slash = before.ongoing_slashes[executed[i].0];
                    let found = if i == 0 {
                        before.staked_amount
                    } else {
                        executed[i - 1].2
                    };
                    &&& before.ongoing_slashes.contains_key((#[trigger] executed[i]).0)
                    &&& runs_out(slash)
                    &&& executed[i].1 + executed[i].2 == found
                    &&& found >= slash.slash_amount + minimum_balance ==> executed[i].1
                        == slash.slash_amount
                    &&& found < slash.slash_amount + minimum_balance ==> executed[i].2 == 0
                }
            &&& forall|id: nat| #[trigger]
                before.ongoing_slashes.contains_key(id) && runs_out(before.ongoing_slashes[id])
                    ==> (exists|i: int|
                    0 <= i < executed.len() && (#[trigger] executed[i]).0 == id)
            &&& forall|id: nat|
                #![trigger after.ongoing_slashes.contains_key(id)]
                #![trigger before.ongoing_slashes.contains_key(id)]
                after.ongoing_slashes.contains_key(id) <==> before.ongoing_slashes.contains_key(id)
                    && !runs_out(before.ongoing_slashes[id])
            &&& forall|id: nat|
                #![trigger after.ongoing_slashes[id]]
                after.ongoing_slashes.contains_key(id) ==> {
                    let earlier = before.ongoing_slashes[id];
                    let slash = after.ongoing_slashes[id];
                    &&& slash.is_active == earlier.is_active
                    &&& slash.started_at_block == earlier.started_at_block
                    &&& slash.slash_amount == earlier.slash_amount
                    &&& if earlier.is_active {
                        slash.blocks_remaining_in_active_period_for_slashing + 1
                            == earlier.blocks_remaining_in_active_period_for_slashing
                    } else {
                        slash.blocks_remaining_in_active_period_for_slashing
                            == earlier.blocks_remaining_in_active_period_for_slashing
                    }
                }
            &&& stake.slashing_advances() <==> (exists|id: nat|
                {
                    &&& #[trigger] before.ongoing_slashes.contains_key(id)
                    &&& before.ongoing_slashes[id].is_active
                    &&& before.ongoing_slashes[id].blocks_remaining_in_active_period_for_slashing
                        > 0
                })
        },
{
    if let StakingStatusView::Staked(before) = stake.staking_status {
        let ticked = before.advanced();
        let executed = stake.executed_slashes(minimum_balance);
        let due = ticked.due();
        assert(ticked.ongoing_slashes.dom() =~= before.ongoing_slashes.dom());
        law_a_block_counts_for_active_slashes(before);
        law_slashes_without_blocks_left_are_executed(ticked, minimum_balance);
        law_slashes_are_executed_in_turn(before.staked_amount, due, minimum_balance);
        assert forall|i: int| 0 <= i < executed.len() implies {
            let slash = before.ongoing_slashes[executed[i].0];
            let found = if i == 0 {
                before.staked_amount
            } else {
                executed[i - 1].2
            };
            &&& before.ongoing_slashes.contains_key((#[trigger] executed[i]).0)
            &&& runs_out(slash)
            &&& executed[i].1 + executed[i].2 == found
            &&& found >= slash.slash_amount + minimum_balance ==> executed[i].1
                == slash.slash_amount
            &&& found < slash.slash_amount + minimum_balance ==> executed[i].2 == 0
        } by {
            assert(executed[i].0 == due[i].0);
            assert(ticked.ongoing_slashes.contains_key(due[i].0));
        }
        assert forall|id: nat| #[trigger]
            before.ongoing_slashes.contains_key(id) && runs_out(
                before.ongoing_slashes[id],
            ) implies (exists|i: int| 0 <= i < executed.len() && (#[trigger] executed[i]).0
            == id) by {
            assert(ticked.ongoing_slashes.contains_key(id));
            let i = choose|i: int|
                0 <= i < due.len() && due[i] == (id, ticked.ongoing_slashes[id]);
            assert(executed[i].0 == id);
        }
        assert forall|i: int, j: int| 0 <= i < j < executed.len() implies executed[i].0
            < executed[j].0 by {
            assert(executed[i].0 == due[i].0);
            assert(executed[j].0 == due[j].0);
        }
        if stake.slashing_advances() {
            let id = before.ticking().choose();
            assert(before.ticking().contains(id));
            assert(before.ongoing_slashes.contains_key(id));
        }
        if exists|id: nat|
            {
                &&& #[trigger] before.ongoing_slashes.contains_key(id)
                &&& before.ongoing_slashes[id].is_active
                &&& before.ongoing_slashes[id].blocks_remaining_in_active_period_for_slashing > 0
            } {
            let id = choose|id: nat|
                {
                    &&& #[trigger] before.ongoing_slashes.contains_key(id)
                    &&& before.ongoing_slashes[id].is_active
                    &&& before.ongoing_slashes[id].blocks_remaining_in_active_period_for_slashing
                        > 0
                };
            assert(before.ticking().contains(id));
        }
    }
}

/// Where no slash is left, or the unstaking is active, a block counts for it; it is finished where
/// no block is left to wait for, and the staking ends. Else it goes on, and nothing but its timer
/// changes. A stake that is not unstaking stays as it is.
pub proof fn law_a_block_counts_for_an_unstaking_that_no_slash_holds_up(stake: StakeView)
    ensures
        stake.finalize_unstaking().created == stake.created,
        stake.staking_status is NotStaked ==> stake.finalize_unstaking().staking_status is NotStaked
            && !stake.unstaking_advances() && !stake.unstaking_finishes(),
        stake.staking_status matches StakingStatusView::Staked(before)
            && before.staked_status is Normal ==> stake.finalize_unstaking().staking_status
            == stake.staking_status && !stake.unstaking_advances() && !stake.unstaking_finishes(),
        stake.staking_status matches StakingStatusView::Staked(before) ==> (
        before.staked_status matches StakedStatus::Unstaking(earlier) ==> {
            let counts = earlier.is_active || before.ongoing_slashes.is_empty();
            let blocks = earlier.blocks_remaining_in_active_period_for_unstaking;
            let finished = blocks == 0 || counts && blocks == 1;
            &&& stake.unstaking_finishes() <==> finished
            &&& stake.unstaking_advances() <==> finished || counts
            &&& finished ==> stake.finalize_unstaking().staking_status is NotStaked
            &&& !finished ==> {
                &&& stake.finalize_unstaking().staking_status matches StakingStatusView::Staked(
                    after,
                )
                &&& after.staked_amount == before.staked_amount
                &&& after.next_slash_id == before.next_slash_id
                &&& after.ongoing_slashes == before.ongoing_slashes
                &&& after.staked_status matches StakedStatus::Unstaking(unstaking)
                &&& unstaking.is_active == counts
                &&& unstaking.started_at_block == earlier.started_at_block
                &&& unstaking.blocks_remaining_in_active_period_for_unstaking == if counts {
                    blocks - 1
                } else {
                    blocks as int
                }
            }
        }),
{
}

/// A block is finalised for slashes first and for the unstaking then: what slashes of the block
/// take is not released, and an unstaking that they held up goes on with the same block.
pub proof fn law_slashes_come_before_the_unstaking(stake: StakeView, minimum_balance: nat)
    ensures
        stake.finalize_slashing_and_unstaking(minimum_balance) == stake.finalize_slashing(
            minimum_balance,
        ).finalize_unstaking(),
        stake.advances(minimum_balance) <==> stake.slashing_advances() || stake.finalize_slashing(
            minimum_balance,
        ).unstaking_advances(),
{
}

/// A block ends the staking exactly where it is the last one that an unstaking waits for, and it
/// counts for the unstaking where that is active or no slash goes on after the block. What is
/// released then, or else stays at stake, is what the executed slashes leave.
pub proof fn law_a_block_releases_what_slashes_leave(stake: StakeView, minimum_balance: nat)
    requires
        stake.staking_status matches StakingStatusView::Staked(state)
            && state.ongoing_slashes.dom().finite(),
    ensures
        ({
            let before = stake.staking_status->Staked_0;
            let after = stake.finalize_slashing_and_unstaking(minimum_balance);
            let executed = stake.executed_slashes(minimum_balance);
            let left = if executed.len() == 0 {
                before.staked_amount
            } else {
                executed.last().2
            };
            let slashes_go_on = exists|id: nat| #[trigger]
                before.ongoing_slashes.contains_key(id) && !runs_out(before.ongoing_slashes[id]);
            &&& after.created == stake.created
            &&& before.staked_status is Normal ==> {
                &&& after.staking_status matches StakingStatusView::Staked(state)
                &&& state.staked_status is Normal
                &&& state.staked_amount == left
            }
            &&& before.staked_status matches StakedStatus::Unstaking(earlier) ==> {
                let counts = earlier.is_active || !slashes_go_on;
                let blocks = earlier.blocks_remaining_in_active_period_for_unstaking;
                let finished = blocks == 0 || counts && blocks == 1;
                &&& after.staking_status is NotStaked <==> finished
                &&& stake.finalize_slashing(minimum_balance).unstaking_finishes() <==> finished
                &&& stake.finalize_slashing(minimum_balance).amount() == left
                &&& !finished ==> {
                    &&& after.staking_status matches StakingStatusView::Staked(state)
                    &&& state.staked_amount == left
                    &&& state.staked_status matches StakedStatus::Unstaking(unstaking)
                    &&& unstaking.is_active == counts
                    &&& unstaking.started_at_block == earlier.started_at_block
                    &&& unstaking.blocks_remaining_in_active_period_for_unstaking == if counts {
                        blocks - 1
                    } else {
                        blocks as int
                    }
                }
            }
        }),
{
    let before = stake.staking_status->Staked_0;
    let slashed = stake.finalize_slashing(minimum_balance);
    let kept = slashed.staking_status->Staked_0.ongoing_slashes;
    law_a_block_executes_the_slashes_whose_last_block_it_is(stake, minimum_balance);
    law_a_block_counts_for_an_unstaking_that_no_slash_holds_up(slashed);
    if exists|id: nat| #[trigger]
        before.ongoing_slashes.contains_key(id) && !runs_out(before.ongoing_slashes[id]) {
        let id = choose|id: nat| #[trigger]
            before.ongoing_slashes.contains_key(id) && !runs_out(before.ongoing_slashes[id]);
        assert(kept.contains_key(id));
        assert(kept.dom().contains(id));
        assert(!kept.is_empty());
    } else {
        assert forall|id: nat| !#[trigger] kept.dom().contains(id) by {
            assert(kept.contains_key(id) <==> before.ongoing_slashes.contains_key(id) && !runs_out(
                before.ongoing_slashes[id],
            ));
        }
        assert(kept.dom() =~= Set::empty());
        assert(kept.is_empty());
    }
}

/// When a block is finalised, exactly the amount of each executed slash is withdrawn, slash after
/// slash, and the handler is told of the slash and of what it left; then, where the unstaking is
/// finished, all that is left, and the handler is told of that. For a stake that there is not,
/// nothing is done.
pub proof fn law_what_a_block_takes_from_a_stake_leaves_the_pool<AccountId>(
    stakes: ModuleView,
    stake_id: nat,
    minimum_balance: nat,
)
    ensures
        ({
            let actions = stakes.finalize_stake_actions::<AccountId>(stake_id, minimum_balance);
            let stake = stakes.stakes[stake_id];
            let executed = stake.executed_slashes(minimum_balance);
            let slashed = stake.finalize_slashing(minimum_balance);
            &&& !stakes.stakes.contains_key(stake_id) ==> actions.len() == 0
            &&& stakes.stakes.contains_key(stake_id) ==> {
                &&& actions.len() == executed.len() + if slashed.unstaking_finishes() {
                    1int
                } else {
                    0int
                }
                &&& forall|i: int|
                    0 <= i < executed.len() ==> {
                        &&& #[trigger] actions[i] matches PoolAction::Slashed {
                            stake_id: of,
                            slash_id,
                            amount,
                            remaining_stake,
                        }
                        &&& of == stake_id
                        &&& slash_id == executed[i].0
                        &&& amount == executed[i].1
                        &&& remaining_stake == executed[i].2
                    }
                &&& slashed.unstaking_finishes() ==> {
                    &&& actions.last() matches PoolAction::Unstaked { stake_id: of, amount }
                    &&& of == stake_id
                    &&& slashed.staking_status matches StakingStatusView::Staked(state)
                    &&& amount == state.staked_amount
                }
            }
        }),
{
}

/// A stake that a block advances is stored as the block leaves it, one that it does not advance
/// stays as it is, and so do all other stakes.
pub proof fn law_a_block_is_finalised_for_one_stake_at_a_time(
    stakes: ModuleView,
    stake_id: nat,
    minimum_balance: nat,
)
    ensures
        ({
            let after = stakes.finalize_stake(stake_id, minimum_balance);
            let stake = stakes.stakes[stake_id];
            &&& after.stakes_created == stakes.stakes_created
            &&& forall|id: nat|
                #![trigger after.stakes.contains_key(id)]
                #![trigger stakes.stakes.contains_key(id)]
                after.stakes.contains_key(id) <==> stakes.stakes.contains_key(id)
            &&& forall|id: nat|
                #![trigger after.stakes[id]]
                id != stake_id && stakes.stakes.contains_key(id) ==> after.stakes[id]
                    == stakes.stakes[id]
            &&& stakes.stakes.contains_key(stake_id) ==> after.stakes[stake_id]
                == if stake.advances(minimum_balance) {
                stake.finalize_slashing_and_unstaking(minimum_balance)
            } else {
                stake
            }
        }),
{
}

/// Every stake has its turn, and stakes that were created later have it earlier.
pub proof fn law_stakes_have_their_turn_newest_first(stakes: ModuleView)
    requires
        stakes.stakes.dom().finite(),
    ensures
        forall|i: int, j: int|
            0 <= i < j < stakes.newest_first().len() ==> stakes.newest_first()[i]
                > stakes.newest_first()[j],
        forall|id: nat| #[trigger]
            stakes.stakes.contains_key(id) <==> stakes.newest_first().contains(id),
{
    let up = in_order(stakes.stakes.dom());
    let down = stakes.newest_first();
    law_order_has_all_members(stakes.stakes.dom());
    assert(ascending(up));
    assert forall|id: nat| #[trigger]
        stakes.stakes.contains_key(id) <==> down.contains(id) by {
        assert(stakes.stakes.dom().contains(id) <==> up.contains(id));
        if up.contains(id) {
            let i = choose|i: int| 0 <= i < up.len() && up[i] == id;
            assert(down[up.len() - 1 - i] == id);
        }
        if down.contains(id) {
            let i = choose|i: int| 0 <= i < down.len() && down[i] == id;
            assert(up[up.len() - 1 - i] == id);
        }
    }
}

} // verus!
