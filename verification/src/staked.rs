//! Funds at stake: the amount, the slashes that threaten it, and an unstaking under way.
use crate::arithmetic::SimpleArithmetic;
use crate::ordered::{
    ascending, by_number, find, in_order, keys_in_order, lemma_in_order, numbers, put, take_out,
};
use std::collections::BTreeMap;
use vstd::prelude::*;

verus! {

/// A slash that has been initiated and not yet executed.
#[derive(Copy, Clone, Debug, Default, Eq, PartialEq)]
pub struct Slash<BlockNumber, Balance> {
    /// The block where slashing was initiated.
    pub started_at_block: BlockNumber,
    /// Whether slashing is in active, or conversely paused state.
    /// Blocks are only counted towards slashing execution delay when active.
    pub is_active: bool,
    /// The number of blocks which must be finalised while in the active period before the
    /// slashing can be executed.
    pub blocks_remaining_in_active_period_for_slashing: BlockNumber,
    /// Amount to slash.
    pub slash_amount: Balance,
}

/// An unstaking that has been initiated and not yet finished.
#[derive(Debug, Default, Eq, PartialEq)]
pub struct UnstakingState<BlockNumber> {
    /// The block where the unstaking was initiated.
    pub started_at_block: BlockNumber,
    /// Whether unstaking is in active, or conversely paused state.
    /// Blocks are only counted towards unstaking period when active.
    pub is_active: bool,
    /// The number of blocks which must be finalised while in the active period before the
    /// unstaking is finished.
    pub blocks_remaining_in_active_period_for_unstaking: BlockNumber,
}

/// What is happening to funds at stake, slashes apart.
#[derive(Debug, Eq, PartialEq)]
pub enum StakedStatus<BlockNumber> {
    /// Baseline staking status, nothing is happening.
    Normal,
    /// Unstaking is under way.
    Unstaking(UnstakingState<BlockNumber>),
}

/// Funds at stake.
#[derive(Debug, Default, Eq, PartialEq)]
pub struct StakedState<BlockNumber, Balance, SlashId: Ord> {
    /// Total amount of funds at stake.
    pub staked_amount: Balance,
    /// Status of the staking.
    pub staked_status: StakedStatus<BlockNumber>,
    /// SlashId to use for next Slash that is initiated.
    /// Will be incremented by one after adding a new Slash.
    pub next_slash_id: SlashId,
    /// All ongoing slashing.
    pub ongoing_slashes: BTreeMap<SlashId, Slash<BlockNumber, Balance>>,
}

/// `StakedState` over the natural numbers.
#[verifier::ext_equal]
pub struct StakedStateView {
    pub staked_amount: nat,
    pub staked_status: StakedStatus<nat>,
    pub next_slash_id: nat,
    pub ongoing_slashes: Map<nat, Slash<nat, nat>>,
}

impl<BlockNumber: SimpleArithmetic, Balance: SimpleArithmetic> View for Slash<
    BlockNumber,
    Balance,
> {
    type V = Slash<nat, nat>;

    open spec fn view(&self) -> Slash<nat, nat> {
        Slash {
            started_at_block: self.started_at_block.as_nat(),
            is_active: self.is_active,
            blocks_remaining_in_active_period_for_slashing:
                self.blocks_remaining_in_active_period_for_slashing.as_nat(),
            slash_amount: self.slash_amount.as_nat(),
        }
    }
}

impl<BlockNumber: SimpleArithmetic> View for UnstakingState<BlockNumber> {
    type V = UnstakingState<nat>;

    open spec fn view(&self) -> UnstakingState<nat> {
        UnstakingState {
            started_at_block: self.started_at_block.as_nat(),
            is_active: self.is_active,
            blocks_remaining_in_active_period_for_unstaking:
                self.blocks_remaining_in_active_period_for_unstaking.as_nat(),
        }
    }
}

impl<BlockNumber: SimpleArithmetic> View for StakedStatus<BlockNumber> {
    type V = StakedStatus<nat>;

    open spec fn view(&self) -> StakedStatus<nat> {
        match self {
            StakedStatus::Normal => StakedStatus::Normal,
            StakedStatus::Unstaking(state) => StakedStatus::Unstaking(state@),
        }
    }
}

impl<
    BlockNumber: SimpleArithmetic,
    Balance: SimpleArithmetic,
    SlashId: SimpleArithmetic,
> View for StakedState<BlockNumber, Balance, SlashId> {
    type V = StakedStateView;

    open spec fn view(&self) -> StakedStateView {
        StakedStateView {
            staked_amount: self.staked_amount.as_nat(),
            staked_status: self.staked_status@,
            next_slash_id: self.next_slash_id.as_nat(),
            ongoing_slashes: by_number(self.ongoing_slashes@),
        }
    }
}

impl<BlockNumber: SimpleArithmetic> Clone for StakedStatus<BlockNumber> {
    fn clone(&self) -> (r: Self)
        ensures
            r == *self,
    {
        match self {
            StakedStatus::Normal => StakedStatus::Normal,
            StakedStatus::Unstaking(state) => StakedStatus::Unstaking(
                UnstakingState {
                    started_at_block: state.started_at_block,
                    is_active: state.is_active,
                    blocks_remaining_in_active_period_for_unstaking:
                        state.blocks_remaining_in_active_period_for_unstaking,
                },
            ),
        }
    }
}

impl<
    BlockNumber: SimpleArithmetic,
    Balance: SimpleArithmetic,
    SlashId: SimpleArithmetic,
> Clone for StakedState<BlockNumber, Balance, SlashId> {
    fn clone(&self) -> (r: Self)
        ensures
            r@ == self@,
    {
        StakedState {
            staked_amount: self.staked_amount,
            staked_status: self.staked_status.clone(),
            next_slash_id: self.next_slash_id,
            ongoing_slashes: self.ongoing_slashes.clone(),
        }
    }
}

impl<BlockNumber> Default for StakedStatus<BlockNumber> {
    fn default() -> (r: Self)
        ensures
            r is Normal,
    {
        StakedStatus::Normal
    }
}

impl Slash<nat, nat> {
    /// Whether the block being finalised counts towards the execution of the slash.
    pub open spec fn ticks(self) -> bool {
        self.is_active && self.blocks_remaining_in_active_period_for_slashing > 0
    }

    /// The slash after a block has been finalised.
    pub open spec fn ticked(self) -> Self {
        if self.ticks() {
            Slash {
                blocks_remaining_in_active_period_for_slashing: (
                self.blocks_remaining_in_active_period_for_slashing - 1) as nat,
                ..self
            }
        } else {
            self
        }
    }

    /// Whether there is no block left to wait for.
    pub open spec fn is_due(self) -> bool {
        self.blocks_remaining_in_active_period_for_slashing == 0
    }
}

/// How much a slash takes from `staked` funds: its amount, as far as the funds reach, and all of
/// them where less than the minimum balance would be left.
pub open spec fn slash_takes(staked: nat, slash_amount: nat, minimum_balance: nat) -> nat {
    if staked < slash_amount + minimum_balance {
        staked
    } else {
        slash_amount
    }
}

/// What is left of `staked` funds after slashes have been executed one after the other.
pub open spec fn left_after(
    staked: nat,
    slashes: Seq<(nat, Slash<nat, nat>)>,
    minimum_balance: nat,
) -> nat
    decreases slashes.len(),
{
    if slashes.len() == 0 {
        staked
    } else {
        let left = left_after(staked, slashes.drop_last(), minimum_balance);
        (left - slash_takes(left, slashes.last().1.slash_amount, minimum_balance)) as nat
    }
}

/// The outcome of executing slashes one after the other: of each its identifier, what it took and
/// what it left.
pub open spec fn outcomes(
    staked: nat,
    slashes: Seq<(nat, Slash<nat, nat>)>,
    minimum_balance: nat,
) -> Seq<(nat, nat, nat)> {
    Seq::new(
        slashes.len(),
        |i: int|
            {
                let left = left_after(staked, slashes.take(i), minimum_balance);
                (
                    slashes[i].0,
                    slash_takes(left, slashes[i].1.slash_amount, minimum_balance),
                    left_after(staked, slashes.take(i + 1), minimum_balance),
                )
            },
    )
}

/// The first outcomes of slashes are the outcomes of the first slashes.
pub proof fn lemma_outcomes_prefix(
    staked: nat,
    slashes: Seq<(nat, Slash<nat, nat>)>,
    minimum_balance: nat,
)
    requires
        slashes.len() > 0,
    ensures
        outcomes(staked, slashes, minimum_balance).drop_last() == outcomes(
            staked,
            slashes.drop_last(),
            minimum_balance,
        ),
        outcomes(staked, slashes, minimum_balance).last() == (
            slashes.last().0,
            slash_takes(
                left_after(staked, slashes.drop_last(), minimum_balance),
                slashes.last().1.slash_amount,
                minimum_balance,
            ),
            left_after(staked, slashes, minimum_balance),
        ),
{
    let first = slashes.drop_last();
    let n = slashes.len() as int;
    let all = outcomes(staked, slashes, minimum_balance);
    assert forall|i: int| 0 <= i < first.len() implies all.drop_last()[i] == outcomes(
        staked,
        first,
        minimum_balance,
    )[i] by {
        assert(slashes.take(i) =~= first.take(i));
        assert(slashes.take(i + 1) =~= first.take(i + 1));
    }
    assert(all.drop_last() =~= outcomes(staked, first, minimum_balance));
    assert(slashes.take(n - 1) =~= first);
    assert(slashes.take(n) =~= slashes);
}

/// The members of `ids` that satisfy `p`.
spec fn among(ids: Seq<nat>, p: spec_fn(nat) -> bool) -> Set<nat> {
    ids.to_set().filter(p)
}

impl StakedStateView {
    /// The slashes towards whose execution the block being finalised counts.
    pub open spec fn ticking(self) -> Set<nat> {
        self.ongoing_slashes.dom().filter(|id: nat| self.ongoing_slashes[id].ticks())
    }

    /// The state after every slash has seen a block finalised.
    pub open spec fn advanced(self) -> Self {
        StakedStateView {
            ongoing_slashes: self.ongoing_slashes.map_values(
                |slash: Slash<nat, nat>| slash.ticked(),
            ),
            ..self
        }
    }

    /// The identifiers of the slashes that are to be executed.
    pub open spec fn due_ids(self) -> Set<nat> {
        self.ongoing_slashes.dom().filter(|id: nat| self.ongoing_slashes[id].is_due())
    }

    /// The slashes that are to be executed, by ascending identifier.
    pub open spec fn due(self) -> Seq<(nat, Slash<nat, nat>)> {
        in_order(self.due_ids()).map_values(|id: nat| (id, self.ongoing_slashes[id]))
    }

    /// The state without the slashes that are to be executed.
    pub open spec fn without_due(self) -> Self {
        StakedStateView {
            ongoing_slashes: self.ongoing_slashes.remove_keys(self.due_ids()),
            ..self
        }
    }

    /// The state after the slashes that are due have been executed.
    pub open spec fn slashed(self, minimum_balance: nat) -> Self {
        StakedStateView {
            staked_amount: left_after(self.staked_amount, self.due(), minimum_balance),
            ..self.without_due()
        }
    }
}

/// The natural numbers of a list of slashes.
pub open spec fn slashes_by_number<
    BlockNumber: SimpleArithmetic,
    Balance: SimpleArithmetic,
    SlashId: SimpleArithmetic,
>(slashes: Seq<(SlashId, Slash<BlockNumber, Balance>)>) -> Seq<(nat, Slash<nat, nat>)> {
    slashes.map_values(|s: (SlashId, Slash<BlockNumber, Balance>)| (s.0.as_nat(), s.1@))
}

/// The natural numbers of a list of outcomes.
pub open spec fn outcomes_by_number<Balance: SimpleArithmetic, SlashId: SimpleArithmetic>(
    list: Seq<(SlashId, Balance, Balance)>,
) -> Seq<(nat, nat, nat)> {
    list.map_values(
        |o: (SlashId, Balance, Balance)| (o.0.as_nat(), o.1.as_nat(), o.2.as_nat()),
    )
}

impl<BlockNumber, Balance, SlashId> StakedState<BlockNumber, Balance, SlashId> where
    BlockNumber: SimpleArithmetic,
    Balance: SimpleArithmetic,
    SlashId: SimpleArithmetic,
 {
    /// Executes a slash. If what remains at stake drops below `minimum_balance`, it will slash the
    /// entire staked amount. Returns the actual slashed amount.
    pub fn apply_slash(
        &mut self,
        slash: Slash<BlockNumber, Balance>,
        minimum_balance: Balance,
    ) -> (slashed: Balance)
        ensures
            slashed.as_nat() == slash_takes(
                old(self)@.staked_amount,
                slash@.slash_amount,
                minimum_balance.as_nat(),
            ),
            final(self)@ == (StakedStateView {
                staked_amount: (old(self)@.staked_amount - slashed.as_nat()) as nat,
                ..old(self)@
            }),
    {
        // calculate how much to slash
        let mut slash_amount = if self.staked_amount.less_than(slash.slash_amount) {
            self.staked_amount
        } else {
            slash.slash_amount
        };
        // apply the slashing
        self.staked_amount = self.staked_amount.minus(slash_amount);
        // don't leave less than minimum_balance at stake
        if self.staked_amount.less_than(minimum_balance) {
            proof {
                Balance::lemma_represents(old(self).staked_amount);
            }
            slash_amount = slash_amount.plus(self.staked_amount);
            self.staked_amount = Balance::zero();
        }
        slash_amount
    }

    /// Iterates over all ongoing slashes and decrements the blocks that remain of the active ones
    /// (advancing the timer). Returns the number of slashes that were found to be active and had
    /// their timer advanced.
    pub fn advance_slashing_timer(&mut self) -> (slashes_updated: usize)
        ensures
            slashes_updated == old(self)@.ticking().len(),
            slashes_updated == 0 <==> old(self)@.ticking().is_empty(),
            final(self)@ == old(self)@.advanced(),
    {
        let slash_ids = keys_in_order(&self.ongoing_slashes);
        let ghost before = self@;
        let ghost ids = numbers(slash_ids@);
        let ghost ticks = |id: nat| before.ongoing_slashes[id].ticks();
        let mut slashes_updated: usize = 0;
        let mut i: usize = 0;
        assert(among(ids.take(0), ticks) =~= Set::empty());
        while i < slash_ids.len()
            invariant
                i <= slash_ids@.len(),
                slashes_updated <= i,
                before == old(self)@,
                ticks == (|id: nat| before.ongoing_slashes[id].ticks()),
                ids == numbers(slash_ids@),
                ids.to_set() == before.ongoing_slashes.dom(),
                ascending(ids),
                self.staked_amount == old(self).staked_amount,
                self.staked_status == old(self).staked_status,
                self.next_slash_id == old(self).next_slash_id,
                self@.ongoing_slashes.dom() == before.ongoing_slashes.dom(),
                forall|j: int|
                    0 <= j < i ==> self@.ongoing_slashes[#[trigger] ids[j]]
                        == before.ongoing_slashes[ids[j]].ticked(),
                forall|j: int|
                    i <= j < ids.len() ==> self@.ongoing_slashes[#[trigger] ids[j]]
                        == before.ongoing_slashes[ids[j]],
                slashes_updated == among(ids.take(i as int), ticks).len(),
                among(ids.take(i as int), ticks).finite(),
            decreases slash_ids@.len() - i,
        {
            let slash_id = slash_ids[i];
            let ghost id = ids[i as int];
            proof {
                assert(ids.contains(id));
                assert(ids.to_set().contains(id));
                lemma_among_next(ids, i as int, ticks);
            }
            let mut slash = *find(&self.ongoing_slashes, &slash_id).unwrap();
            if slash.is_active && !slash.blocks_remaining_in_active_period_for_slashing.is_zero() {
                slash.blocks_remaining_in_active_period_for_slashing =
                slash.blocks_remaining_in_active_period_for_slashing.minus(BlockNumber::one());
                put(&mut self.ongoing_slashes, slash_id, slash);
                slashes_updated = slashes_updated + 1;
            }
            i = i + 1;
        }
        proof {
            assert(ids.take(ids.len() as int) =~= ids);
            assert(among(ids, ticks) =~= before.ticking());
            if slashes_updated == 0 && !before.ticking().is_empty() {
                let id = before.ticking().choose();
                assert(before.ticking().remove(id).len() + 1 == 0);
            }
            assert forall|id: nat| before.ongoing_slashes.contains_key(id) implies
                #[trigger] self@.ongoing_slashes[id] == before.ongoing_slashes[id].ticked() by {
                assert(ids.to_set().contains(id));
                let j = choose|j: int| 0 <= j < ids.len() && ids[j] == id;
                assert(ids[j] == id);
            }
            assert(self@.ongoing_slashes =~= before.advanced().ongoing_slashes);
        }
        slashes_updated
    }

    /// Removes the slashes that should be executed, and returns them with their identifiers, by
    /// ascending identifier.
    pub fn get_slashes_to_finalize(&mut self) -> (slashes: Vec<
        (SlashId, Slash<BlockNumber, Balance>),
    >)
        ensures
            slashes_by_number(slashes@) == old(self)@.due(),
            final(self)@ == old(self)@.without_due(),
    {
        let slash_ids = keys_in_order(&self.ongoing_slashes);
        let ghost before = self@;
        let ghost ids = numbers(slash_ids@);
        let ghost is_due = |id: nat| before.ongoing_slashes[id].is_due();
        let mut slashes: Vec<(SlashId, Slash<BlockNumber, Balance>)> = Vec::new();
        let ghost mut collected: Seq<nat> = Seq::empty();
        let mut i: usize = 0;
        proof {
            assert(among(ids.take(0), is_due) =~= Set::empty());
            assert(collected.to_set() =~= Set::empty());
            assert(before.ongoing_slashes.remove_keys(Set::empty()) =~= before.ongoing_slashes);
        }
        while i < slash_ids.len()
            invariant
                i <= slash_ids@.len(),
                before == old(self)@,
                is_due == (|id: nat| before.ongoing_slashes[id].is_due()),
                ids == numbers(slash_ids@),
                ids.to_set() == before.ongoing_slashes.dom(),
                ascending(ids),
                self.staked_amount == old(self).staked_amount,
                self.staked_status == old(self).staked_status,
                self.next_slash_id == old(self).next_slash_id,
                self@.ongoing_slashes == before.ongoing_slashes.remove_keys(
                    among(ids.take(i as int), is_due),
                ),
                ascending(collected),
                collected.to_set() == among(ids.take(i as int), is_due),
                slashes_by_number(slashes@) == collected.map_values(
                    |id: nat| (id, before.ongoing_slashes[id]),
                ),
            decreases slash_ids@.len() - i,
        {
            let slash_id = slash_ids[i];
            let ghost id = ids[i as int];
            proof {
                assert(ids.to_set().contains(id));
                lemma_among_next(ids, i as int, is_due);
                assert(!among(ids.take(i as int), is_due).contains(id));
                assert forall|j: int| 0 <= j < collected.len() implies #[trigger] collected[j]
                    < id by {
                    assert(collected.to_set().contains(collected[j]));
                }
            }
            let slash = *find(&self.ongoing_slashes, &slash_id).unwrap();
            let ghost earlier = slashes@;
            if slash.blocks_remaining_in_active_period_for_slashing.is_zero() {
                take_out(&mut self.ongoing_slashes, &slash_id);
                slashes.push((slash_id, slash));
                proof {
                    assert(collected.push(id).to_set() =~= collected.to_set().insert(id)) by {
                        broadcast use vstd::seq_lib::group_seq_properties;

                    }
                    let pair = |id: nat| (id, before.ongoing_slashes[id]);
                    assert(slashes_by_number(slashes@) =~= slashes_by_number(earlier).push(
                        (id, slash@),
                    ));
                    assert(collected.push(id).map_values(pair) =~= collected.map_values(pair).push(
                        pair(id),
                    ));
                    collected = collected.push(id);
                    assert(self@.ongoing_slashes =~= before.ongoing_slashes.remove_keys(
                        among(ids.take(i + 1), is_due),
                    ));
                }
            }
            i = i + 1;
        }
        proof {
            assert(ids.take(ids.len() as int) =~= ids);
            assert(among(ids, is_due) =~= before.due_ids());
            lemma_in_order(collected);
        }
        slashes
    }

    /// For all slashes that should be executed, applies the slash to the staked amount, and drops
    /// it from the ongoing slashes. Returns the outcome of the executed slashes: identifier,
    /// slashed amount and remaining staked amount.
    pub fn finalize_slashes(&mut self, minimum_balance: Balance) -> (executed: Vec<
        (SlashId, Balance, Balance),
    >)
        ensures
            outcomes_by_number(executed@) == outcomes(
                old(self)@.staked_amount,
                old(self)@.due(),
                minimum_balance.as_nat(),
            ),
            final(self)@ == old(self)@.slashed(minimum_balance.as_nat()),
    {
        let slashes = self.get_slashes_to_finalize();
        let ghost due = old(self)@.due();
        let ghost staked = old(self)@.staked_amount;
        let mut executed: Vec<(SlashId, Balance, Balance)> = Vec::new();
        let mut i: usize = 0;
        while i < slashes.len()
            invariant
                i <= slashes@.len(),
                slashes_by_number(slashes@) == due,
                due == old(self)@.due(),
                staked == old(self)@.staked_amount,
                self@ == (StakedStateView {
                    staked_amount: left_after(staked, due.take(i as int), minimum_balance.as_nat()),
                    ..old(self)@.without_due()
                }),
                outcomes_by_number(executed@) == outcomes(
                    staked,
                    due,
                    minimum_balance.as_nat(),
                ).take(i as int),
            decreases slashes@.len() - i,
        {
            let (slash_id, slash) = slashes[i];
            // apply the slashing and get back actual amount slashed
            let slashed_amount = self.apply_slash(slash, minimum_balance);
            let ghost earlier = executed@;
            executed.push((slash_id, slashed_amount, self.staked_amount));
            proof {
                assert(due.take(i + 1).drop_last() =~= due.take(i as int));
                assert(due.take(i + 1).last() == due[i as int]);
                assert(due[i as int] == (slash_id.as_nat(), slash@));
                let all = outcomes(staked, due, minimum_balance.as_nat());
                assert(outcomes_by_number(executed@) =~= outcomes_by_number(earlier).push(
                    all[i as int],
                ));
                assert(all.take(i + 1) =~= all.take(i as int).push(all[i as int]));
            }
            i = i + 1;
        }
        assert(due.take(due.len() as int) =~= due);
        executed
    }
}

/// One more identifier adds itself to those that satisfy `p`, where it does so itself.
proof fn lemma_among_next(ids: Seq<nat>, i: int, p: spec_fn(nat) -> bool)
    requires
        ascending(ids),
        0 <= i < ids.len(),
    ensures
        among(ids.take(i + 1), p) == if p(ids[i]) {
            among(ids.take(i), p).insert(ids[i])
        } else {
            among(ids.take(i), p)
        },
        forall|id: nat| #[trigger] among(ids.take(i), p).contains(id) ==> id < ids[i],
{
    let a = ids.take(i);
    let b = ids.take(i + 1);
    assert forall|id: nat| #[trigger] a.contains(id) implies b.contains(id) && id < ids[i] by {
        let j = choose|j: int| 0 <= j < a.len() && a[j] == id;
        assert(b[j] == id);
    }
    assert forall|id: nat| #[trigger] b.contains(id) implies a.contains(id) || id == ids[i] by {
        let j = choose|j: int| 0 <= j < b.len() && b[j] == id;
        if j < i {
            assert(a[j] == id);
        }
    }
    assert(b[i] == ids[i]);
    if p(ids[i]) {
        assert(among(b, p) =~= among(a, p).insert(ids[i]));
    } else {
        assert(among(b, p) =~= among(a, p));
    }
}

} // verus!
