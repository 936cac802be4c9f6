//! When slashes are executed, and when unstakings are finished.
use crate::laws::{
    law_requests_on_others_leave_a_stake_alone, law_slashes_take_what_the_stake_loses, sum_taken,
};
use crate::ordered::{in_order, lemma_in_order, lemma_in_order_bounded};
use crate::registry::ModuleView;
use crate::solvency::law_a_stake_that_does_not_advance_stays_as_it_is;
use crate::soundness::{
    law_histories_keep_stakes_sound, law_requests_keep_stakes_sound, Request,
};
use crate::stake::{StakeView, StakingStatusView};
use crate::staked::{Slash, StakedStateView, StakedStatus, UnstakingState};
use vstd::prelude::*;

verus! {

impl StakeView {
    /// The stake after a number of blocks have been finalised.
    pub open spec fn after_blocks(self, blocks: nat, minimum_balance: nat) -> StakeView
        decreases blocks,
    {
        if blocks == 0 {
            self
        } else {
            self.after_blocks((blocks - 1) as nat, minimum_balance).finalize_slashing_and_unstaking(
                minimum_balance,
            )
        }
    }

    /// Whether funds are at stake, and no unstaking of them is active that has fewer blocks left.
    pub open spec fn is_held_for(self, blocks: nat) -> bool {
        self.staking_status matches StakingStatusView::Staked(state) && (
        state.staked_status matches StakedStatus::Unstaking(unstaking) ==> unstaking.is_active
            ==> unstaking.blocks_remaining_in_active_period_for_unstaking >= blocks)
    }

    /// What slashes take from the stake while a number of blocks are finalised.
    pub open spec fn taken_in_blocks(self, blocks: nat, minimum_balance: nat) -> nat
        decreases blocks,
    {
        if blocks == 0 {
            0
        } else {
            let before = (blocks - 1) as nat;
            self.taken_in_blocks(before, minimum_balance) + sum_taken(
                self.after_blocks(before, minimum_balance).executed_slashes(minimum_balance),
            )
        }
    }

    /// The slash with a given identifier, where it is ongoing.
    pub open spec fn slash(self, slash_id: nat) -> Option<Slash<nat, nat>> {
        match self.staking_status {
            StakingStatusView::Staked(state) => if state.ongoing_slashes.contains_key(slash_id) {
                Some(state.ongoing_slashes[slash_id])
            } else {
                None
            },
            StakingStatusView::NotStaked => None,
        }
    }

    /// Whether a slash is among those that are executed when a block is finalised.
    pub open spec fn executes(self, slash_id: nat, minimum_balance: nat) -> bool {
        exists|i: int|
            0 <= i < self.executed_slashes(minimum_balance).len() && (
            #[trigger] self.executed_slashes(minimum_balance)[i]).0 == slash_id
    }
}

/// A slash that is not due after a block has been finalised goes on, and with it the staking.
proof fn lemma_slash_goes_on(stake: StakeView, slash_id: nat, blocks: nat, minimum_balance: nat)
    requires
        stake.sound(),
        blocks > 1,
        stake.is_held_for(blocks),
        stake.slash(slash_id) matches Some(slash) && !slash.ticked().is_due(),
    ensures
        stake.finalize_slashing_and_unstaking(minimum_balance).sound(),
        stake.finalize_slashing_and_unstaking(minimum_balance).is_held_for((blocks - 1) as nat),
        stake.finalize_slashing_and_unstaking(minimum_balance).slash(slash_id) == Some(
            stake.slash(slash_id)->0.ticked(),
        ),
{
    let state = stake.staking_status->Staked_0;
    let slashed = stake.finalize_slashing(minimum_balance).staking_status->Staked_0;
    assert(!state.advanced().due_ids().contains(slash_id));
    assert(slashed.ongoing_slashes.contains_key(slash_id));
    assert(slashed.ongoing_slashes.dom().contains(slash_id));
    assert(!slashed.ongoing_slashes.is_empty());
}

/// A paused slash waits: finalising a block does not execute it, and does not change it either,
/// unless that is the block in which an unstaking is finished. Then all slashes end with the
/// staking.
pub proof fn law_a_paused_slash_waits(stake: StakeView, slash_id: nat, minimum_balance: nat)
    requires
        stake.sound(),
        stake.slash(slash_id) matches Some(slash) && !slash.is_active,
    ensures
        !stake.executes(slash_id, minimum_balance),
        ({
            let after = stake.finalize_slashing_and_unstaking(minimum_balance);
            if stake.is_held_for(2) {
                after.slash(slash_id) == stake.slash(slash_id)
            } else {
                after == stake.not_staked()
            }
        }),
{
    lemma_executes(stake, slash_id, minimum_balance);
    if stake.is_held_for(2) {
        lemma_slash_goes_on(stake, slash_id, 2, minimum_balance);
    }
}

/// The slashes that are executed are those that are due.
proof fn lemma_executes(stake: StakeView, slash_id: nat, minimum_balance: nat)
    requires
        stake.sound(),
    ensures
        stake.executes(slash_id, minimum_balance) == (stake.slash(slash_id) matches Some(slash)
            && slash.ticked().is_due()),
{
    if let StakingStatusView::Staked(state) = stake.staking_status {
        let ticked = state.advanced();
        let ids = in_order(ticked.due_ids());
        let executed = stake.executed_slashes(minimum_balance);
        lemma_in_order_bounded(ticked.due_ids(), state.next_slash_id);
        assert forall|i: int| 0 <= i < executed.len() implies (#[trigger] executed[i]).0
            == ids[i] by {
            assert(ticked.due()[i].0 == ids[i]);
        }
        if ticked.due_ids().contains(slash_id) {
            assert(ids.to_set().contains(slash_id));
            let i = choose|i: int| 0 <= i < ids.len() && ids[i] == slash_id;
            assert(executed[i].0 == slash_id);
        }
        if stake.executes(slash_id, minimum_balance) {
            let i = choose|i: int|
                0 <= i < executed.len() && (#[trigger] executed[i]).0 == slash_id;
            assert(ids.to_set().contains(ids[i]));
            assert(ticked.due_ids().contains(slash_id));
        }
    }
}

/// A slash that stays active is executed when as many blocks have been finalised as it waits for,
/// not earlier, and no more than once. This is so as long as no unstaking is finished before that:
/// slashes of the block in which it is are executed first.
pub proof fn law_an_active_slash_is_executed_when_its_period_is_over(
    stake: StakeView,
    slash_id: nat,
    blocks: nat,
    minimum_balance: nat,
)
    requires
        stake.sound(),
        stake.slash(slash_id) matches Some(slash) && slash.is_active && stake.is_held_for(
            slash.blocks_remaining_in_active_period_for_slashing,
        ),
        blocks < stake.slash(slash_id)->0.blocks_remaining_in_active_period_for_slashing,
    ensures
        ({
            let slash = stake.slash(slash_id)->0;
            let remaining = (slash.blocks_remaining_in_active_period_for_slashing - blocks) as nat;
            let now = stake.after_blocks(blocks, minimum_balance);
            &&& now.sound()
            &&& now.is_held_for(remaining)
            &&& now.slash(slash_id) == Some(
                Slash { blocks_remaining_in_active_period_for_slashing: remaining, ..slash },
            )
            &&& now.executes(slash_id, minimum_balance) == (remaining == 1)
            &&& remaining == 1 ==> now.finalize_slashing_and_unstaking(minimum_balance).slash(
                slash_id,
            ) is None
        }),
    decreases blocks,
{
    let now = stake.after_blocks(blocks, minimum_balance);
    if blocks > 0 {
        let before = (blocks - 1) as nat;
        law_an_active_slash_is_executed_when_its_period_is_over(
            stake,
            slash_id,
            before,
            minimum_balance,
        );
        lemma_slash_goes_on(
            stake.after_blocks(before, minimum_balance),
            slash_id,
            (stake.slash(slash_id)->0.blocks_remaining_in_active_period_for_slashing
                - before) as nat,
            minimum_balance,
        );
    }
    lemma_executes(now, slash_id, minimum_balance);
    let state = now.staking_status->Staked_0;
    if state.ongoing_slashes[slash_id].ticked().is_due() {
        assert(state.advanced().due_ids().contains(slash_id));
    }
}

/// An unstaking that is active, or that no slash holds up, is finished when as many blocks have
/// been finalised as it waits for, and not earlier. What is released is what was at stake, less
/// what slashes have taken in those blocks.
pub proof fn law_an_unstaking_is_finished_when_its_period_is_over(
    stake: StakeView,
    blocks: nat,
    minimum_balance: nat,
)
    requires
        stake.sound(),
        stake.staking_status matches StakingStatusView::Staked(state) && (
        state.staked_status matches StakedStatus::Unstaking(unstaking) && blocks
            < unstaking.blocks_remaining_in_active_period_for_unstaking && (unstaking.is_active
            || state.ongoing_slashes.is_empty())),
    ensures
        ({
            let before = stake.staking_status->Staked_0;
            let unstaking = before.staked_status->Unstaking_0;
            let remaining = (unstaking.blocks_remaining_in_active_period_for_unstaking
                - blocks) as nat;
            let goes_on = StakedStatus::Unstaking(
                UnstakingState {
                    is_active: unstaking.is_active || blocks > 0,
                    blocks_remaining_in_active_period_for_unstaking: remaining,
                    ..unstaking
                },
            );
            let now = stake.after_blocks(blocks, minimum_balance);
            let slashed = now.finalize_slashing(minimum_balance);
            &&& now.sound()
            &&& now.created == stake.created
            &&& now.staking_status matches StakingStatusView::Staked(state)
            &&& state.staked_status == goes_on
            &&& now.amount() + stake.taken_in_blocks(blocks, minimum_balance) == stake.amount()
            &&& slashed.unstaking_finishes() == (remaining == 1)
            &&& slashed.amount() + stake.taken_in_blocks(blocks + 1, minimum_balance)
                == stake.amount()
            &&& remaining == 1 ==> now.finalize_slashing_and_unstaking(minimum_balance)
                == stake.not_staked()
            &&& before.ongoing_slashes.is_empty() ==> {
                &&& now == stake.with_state(StakedStateView { staked_status: goes_on, ..before })
                &&& now.executed_slashes(minimum_balance).len() == 0
            }
        }),
    decreases blocks,
{
    let state = stake.staking_status->Staked_0;
    let now = stake.after_blocks(blocks, minimum_balance);
    if blocks > 0 {
        let previous = stake.after_blocks((blocks - 1) as nat, minimum_balance);
        law_an_unstaking_is_finished_when_its_period_is_over(
            stake,
            (blocks - 1) as nat,
            minimum_balance,
        );
        if state.ongoing_slashes.is_empty() {
            lemma_no_slashes(previous, minimum_balance);
        }
    }
    if state.ongoing_slashes.is_empty() {
        lemma_no_slashes(now, minimum_balance);
    }
    law_slashes_take_what_the_stake_loses(now, minimum_balance);
}

/// Without ongoing slashes there is nothing to be slashed.
proof fn lemma_no_slashes(stake: StakeView, minimum_balance: nat)
    requires
        stake.staking_status matches StakingStatusView::Staked(state)
            && state.ongoing_slashes.is_empty(),
    ensures
        stake.finalize_slashing(minimum_balance) == stake,
        stake.executed_slashes(minimum_balance).len() == 0,
{
    let state = stake.staking_status->Staked_0;
    assert(state.advanced().ongoing_slashes =~= state.ongoing_slashes);
    assert(state.due_ids() =~= Set::empty());
    let none: Seq<nat> = Seq::empty();
    assert(none.to_set() =~= Set::empty());
    lemma_in_order(none);
    assert(state.without_due().ongoing_slashes =~= state.ongoing_slashes);
}

/// A paused unstaking waits while slashes are ongoing, and goes on with the block that leaves none
/// of them.
pub proof fn law_a_paused_unstaking_waits_for_slashes(stake: StakeView, minimum_balance: nat)
    requires
        stake.sound(),
        stake.staking_status matches StakingStatusView::Staked(state) && (
        state.staked_status matches StakedStatus::Unstaking(unstaking) && !unstaking.is_active),
    ensures
        ({
            let unstaking = stake.staking_status->Staked_0.staked_status->Unstaking_0;
            let slashed = stake.finalize_slashing(minimum_balance).staking_status->Staked_0;
            let after = stake.finalize_slashing_and_unstaking(minimum_balance);
            let remaining = unstaking.blocks_remaining_in_active_period_for_unstaking;
            if !slashed.ongoing_slashes.is_empty() {
                after == stake.with_state(slashed) && slashed.staked_status
                    == StakedStatus::Unstaking(unstaking)
            } else if remaining == 1 {
                after == stake.not_staked()
            } else {
                after == stake.with_state(
                    StakedStateView {
                        staked_status: StakedStatus::Unstaking(
                            UnstakingState {
                                is_active: true,
                                blocks_remaining_in_active_period_for_unstaking: (remaining
                                    - 1) as nat,
                                ..unstaking
                            },
                        ),
                        ..slashed
                    },
                )
            }
        }),
{
}

impl ModuleView {
    /// The stakes after those with the given identifiers have had their turn, one after the other,
    /// while a block was being finalised. `meanwhile` are the requests that were made when each of
    /// them had had its turn.
    pub open spec fn finalize_stakes<AccountId>(
        self,
        stake_ids: Seq<nat>,
        meanwhile: Seq<Seq<(Request<AccountId>, nat)>>,
        minimum_balance: nat,
    ) -> ModuleView
        decreases stake_ids.len(),
    {
        if stake_ids.len() == 0 {
            self
        } else {
            let last = stake_ids.len() - 1;
            self.finalize_stakes(
                stake_ids.drop_last(),
                meanwhile,
                minimum_balance,
            ).finalize_stake(stake_ids[last], minimum_balance).after_all(meanwhile[last])
        }
    }
}

/// Finalising a block finalises every stake that there is at its beginning, and each of them once,
/// whatever is requested meanwhile of other stakes.
pub proof fn law_every_stake_is_finalised_once<AccountId>(
    stakes: ModuleView,
    meanwhile: Seq<Seq<(Request<AccountId>, nat)>>,
    minimum_balance: nat,
    stake_id: nat,
)
    requires
        stakes.sound(),
        stakes.stakes.contains_key(stake_id),
        forall|i: int, j: int|
            0 <= i < stakes.newest_first().len() && 0 <= j < meanwhile[i].len() ==> (
            #[trigger] meanwhile[i][j]).0.stake_id() != Some(stake_id),
    ensures
        ({
            let after = stakes.finalize_stakes(
                stakes.newest_first(),
                meanwhile,
                minimum_balance,
            );
            &&& after.stakes.contains_key(stake_id)
            &&& after.stakes[stake_id] == stakes.stakes[stake_id].finalize_slashing_and_unstaking(
                minimum_balance,
            )
        }),
{
    let ids = stakes.newest_first();
    let up = in_order(stakes.stakes.dom());
    lemma_in_order_bounded(stakes.stakes.dom(), stakes.stakes_created);
    assert forall|i: int, j: int| 0 <= i < j < ids.len() implies ids[i] != ids[j] by {
        assert(up[ids.len() - 1 - j] < up[ids.len() - 1 - i]);
    }
    assert(up.to_set().contains(stake_id));
    let i = choose|i: int| 0 <= i < up.len() && up[i] == stake_id;
    assert(ids[up.len() - 1 - i] == stake_id);
    assert(ids.contains(stake_id));
    lemma_stake_has_one_turn(stakes, ids, meanwhile, minimum_balance, stake_id);
}

/// A stake is finalised once where it is among those that have their turn, and else not at all.
proof fn lemma_stake_has_one_turn<AccountId>(
    stakes: ModuleView,
    ids: Seq<nat>,
    meanwhile: Seq<Seq<(Request<AccountId>, nat)>>,
    minimum_balance: nat,
    stake_id: nat,
)
    requires
        stakes.sound(),
        stakes.stakes.contains_key(stake_id),
        forall|i: int, j: int| 0 <= i < j < ids.len() ==> ids[i] != ids[j],
        forall|i: int, j: int|
            0 <= i < ids.len() && 0 <= j < meanwhile[i].len() ==> (
            #[trigger] meanwhile[i][j]).0.stake_id() != Some(stake_id),
    ensures
        ({
            let after = stakes.finalize_stakes(ids, meanwhile, minimum_balance);
            &&& after.sound()
            &&& after.stakes.contains_key(stake_id)
            &&& after.stakes[stake_id] == if ids.contains(stake_id) {
                stakes.stakes[stake_id].finalize_slashing_and_unstaking(minimum_balance)
            } else {
                stakes.stakes[stake_id]
            }
        }),
    decreases ids.len(),
{
    if ids.len() > 0 {
        let first = ids.drop_last();
        let last = ids.len() - 1;
        lemma_stake_has_one_turn(stakes, first, meanwhile, minimum_balance, stake_id);
        let before = stakes.finalize_stakes(first, meanwhile, minimum_balance);
        let turn = before.finalize_stake(ids[last], minimum_balance);
        law_requests_keep_stakes_sound(
            before,
            Request::<AccountId>::FinalizeStake { stake_id: ids[last] },
            minimum_balance,
        );
        law_requests_on_others_leave_a_stake_alone(turn, meanwhile[last], stake_id);
        law_histories_keep_stakes_sound(turn, meanwhile[last]);
        if ids[last] == stake_id {
            assert(!first.contains(stake_id));
            if !before.stakes[stake_id].advances(minimum_balance) {
                law_a_stake_that_does_not_advance_stays_as_it_is::<AccountId>(
                    before.stakes[stake_id],
                    stake_id,
                    minimum_balance,
                );
            }
        } else if first.contains(stake_id) {
            let i = choose|i: int| 0 <= i < first.len() && first[i] == stake_id;
            assert(ids[i] == stake_id);
        } else if ids.contains(stake_id) {
            let i = choose|i: int| 0 <= i < ids.len() && ids[i] == stake_id;
            assert(first[i] == stake_id);
        }
    }
}

/// There are never more stakes than were created.
pub proof fn law_no_more_stakes_than_were_created(stakes: ModuleView)
    requires
        stakes.sound(),
    ensures
        stakes.stakes.dom().finite(),
        stakes.stakes.len() <= stakes.stakes_created,
{
    let up = in_order(stakes.stakes.dom());
    lemma_in_order_bounded(stakes.stakes.dom(), stakes.stakes_created);
    assert(up.no_duplicates());
    up.unique_seq_to_set();
    vstd::seq_lib::seq_to_set_is_finite(up);
}

} // verus!
