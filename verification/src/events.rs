//! What is told of slashes and unstakings, and to whom.
use crate::arithmetic::SimpleArithmetic;
use vstd::prelude::*;

verus! {

/// Value that has been taken out of an account and has not been put anywhere yet.
///
/// It stands for an amount, and is neither copied nor cloned here: what is handed to a request or a
/// handler is handed on, or dropped, once.
#[derive(Debug, PartialEq, Eq)]
pub struct NegativeImbalance<Balance> {
    pub amount: Balance,
}

impl<Balance: SimpleArithmetic> NegativeImbalance<Balance> {
    /// No value at all.
    pub fn zero() -> (r: Self)
        ensures
            r.amount.as_nat() == 0,
    {
        NegativeImbalance { amount: Balance::zero() }
    }

    /// The value that was taken out.
    pub fn peek(&self) -> (r: Balance)
        ensures
            r == self.amount,
    {
        self.amount
    }
}

/// Type that will handle various staking events.
pub trait StakingEventsHandler<StakeId, SlashId, Balance: SimpleArithmetic> {
    /// Whether the handler may leave `left` of the value of an unstaking. Unless a handler says
    /// otherwise, it may leave anything up to that value.
    open spec fn unstaked_leaves(
        id: StakeId,
        unstaked_amount: Balance,
        imbalance: NegativeImbalance<Balance>,
        left: NegativeImbalance<Balance>,
    ) -> bool {
        true
    }

    /// Whether the handler may leave `left` of the value of a slash. Unless a handler says
    /// otherwise, it may leave anything up to that value.
    open spec fn slashed_leaves(
        id: StakeId,
        slash_id: SlashId,
        slashed_amount: Balance,
        remaining_stake: Balance,
        imbalance: NegativeImbalance<Balance>,
        left: NegativeImbalance<Balance>,
    ) -> bool {
        true
    }

    /// Handler for unstaking event.
    /// The handler is informed of the amount that was unstaked, and the value removed from stake
    /// is passed as a negative imbalance. The handler is responsible to consume part or all of the
    /// value (for example by moving it into an account). The remainder of the value that is not
    /// consumed should be returned as a negative imbalance.
    fn unstaked(
        id: &StakeId,
        unstaked_amount: Balance,
        remaining_imbalance: NegativeImbalance<Balance>,
    ) -> (left: NegativeImbalance<Balance>)
        ensures
            left.amount.as_nat() <= remaining_imbalance.amount.as_nat(),
            Self::unstaked_leaves(*id, unstaked_amount, remaining_imbalance, left),
    ;

    /// Handler for slashing event.
    /// NB: slashed_amount can be less than amount of the slash itself if the claim amount on the
    /// stake cannot cover it fully.
    fn slashed(
        id: &StakeId,
        slash_id: &SlashId,
        slashed_amount: Balance,
        remaining_stake: Balance,
        remaining_imbalance: NegativeImbalance<Balance>,
    ) -> (left: NegativeImbalance<Balance>)
        ensures
            left.amount.as_nat() <= remaining_imbalance.amount.as_nat(),
            Self::slashed_leaves(
                *id,
                *slash_id,
                slashed_amount,
                remaining_stake,
                remaining_imbalance,
                left,
            ),
    ;
}

/// Default implementation just destroys the unstaked or slashed value.
impl<StakeId, SlashId, Balance: SimpleArithmetic> StakingEventsHandler<
    StakeId,
    SlashId,
    Balance,
> for () {
    open spec fn unstaked_leaves(
        id: StakeId,
        unstaked_amount: Balance,
        imbalance: NegativeImbalance<Balance>,
        left: NegativeImbalance<Balance>,
    ) -> bool {
        left.amount.as_nat() == 0
    }

    open spec fn slashed_leaves(
        id: StakeId,
        slash_id: SlashId,
        slashed_amount: Balance,
        remaining_stake: Balance,
        imbalance: NegativeImbalance<Balance>,
        left: NegativeImbalance<Balance>,
    ) -> bool {
        left.amount.as_nat() == 0
    }

    fn unstaked(
        _id: &StakeId,
        _unstaked_amount: Balance,
        _remaining_imbalance: NegativeImbalance<Balance>,
    ) -> (left: NegativeImbalance<Balance>) {
        NegativeImbalance::zero()
    }

    fn slashed(
        _id: &StakeId,
        _slash_id: &SlashId,
        _slashed_amount: Balance,
        _remaining_stake: Balance,
        _remaining_imbalance: NegativeImbalance<Balance>,
    ) -> (left: NegativeImbalance<Balance>) {
        NegativeImbalance::zero()
    }
}

/// Helper implementation so we can chain multiple handlers by grouping handlers in tuple pairs.
/// For example for three handlers, A, B and C we can set the handler to ((A, B), C).
/// Individual handlers are expected to consume in full or in part the negative imbalance and
/// return any unconsumed value. The unconsumed value is then passed to the next handler in the
/// chain.
impl<
    StakeId,
    SlashId,
    Balance: SimpleArithmetic,
    X: StakingEventsHandler<StakeId, SlashId, Balance>,
    Y: StakingEventsHandler<StakeId, SlashId, Balance>,
> StakingEventsHandler<StakeId, SlashId, Balance> for (X, Y) {
    open spec fn unstaked_leaves(
        id: StakeId,
        unstaked_amount: Balance,
        imbalance: NegativeImbalance<Balance>,
        left: NegativeImbalance<Balance>,
    ) -> bool {
        exists|unused: NegativeImbalance<Balance>|
            {
                &&& #[trigger] <X as StakingEventsHandler<
                    StakeId,
                    SlashId,
                    Balance,
                >>::unstaked_leaves(id, unstaked_amount, imbalance, unused)
                &&& <Y as StakingEventsHandler<StakeId, SlashId, Balance>>::unstaked_leaves(
                    id,
                    unstaked_amount,
                    unused,
                    left,
                )
            }
    }

    open spec fn slashed_leaves(
        id: StakeId,
        slash_id: SlashId,
        slashed_amount: Balance,
        remaining_stake: Balance,
        imbalance: NegativeImbalance<Balance>,
        left: NegativeImbalance<Balance>,
    ) -> bool {
        exists|unused: NegativeImbalance<Balance>|
            {
                &&& #[trigger] X::slashed_leaves(
                    id,
                    slash_id,
                    slashed_amount,
                    remaining_stake,
                    imbalance,
                    unused,
                )
                &&& Y::slashed_leaves(
                    id,
                    slash_id,
                    slashed_amount,
                    remaining_stake,
                    unused,
                    left,
                )
            }
    }

    fn unstaked(
        id: &StakeId,
        unstaked_amount: Balance,
        imbalance: NegativeImbalance<Balance>,
    ) -> (left: NegativeImbalance<Balance>) {
        let unused_imbalance = X::unstaked(id, unstaked_amount, imbalance);
        Y::unstaked(id, unstaked_amount, unused_imbalance)
    }

    fn slashed(
        id: &StakeId,
        slash_id: &SlashId,
        slashed_amount: Balance,
        remaining_stake: Balance,
        imbalance: NegativeImbalance<Balance>,
    ) -> (left: NegativeImbalance<Balance>) {
        let unused_imbalance = X::slashed(
            id,
            slash_id,
            slashed_amount,
            remaining_stake,
            imbalance,
        );
        Y::slashed(id, slash_id, slashed_amount, remaining_stake, unused_imbalance)
    }
}

} // verus!
