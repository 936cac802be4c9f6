//! The stake pool: the account that holds all funds at stake, and what is to be done with them.
use crate::arithmetic::SimpleArithmetic;
use crate::events::NegativeImbalance;
use frame_support::PalletId;
use sp_runtime::traits::AccountIdConversion;
use vstd::prelude::*;

verus! {

/// The account of the stake pool with a given identifier: the letters `modl`, the identifier, and
/// zeroes.
pub open spec fn pool_account(stake_pool_id: Seq<u8>) -> Seq<u8> {
    seq![0x6du8, 0x6fu8, 0x64u8, 0x6cu8] + stake_pool_id + Seq::new(20, |i: int| 0u8)
}

/// The account of a pallet: `AccountIdConversion::into_account_truncating` of `sp_runtime`, on a
/// `PalletId` of `frame_support`, for accounts of 32 bytes.
///
/// It encodes the type identifier of `PalletId`, which is `modl`, and the eight bytes of the
/// identifier, and fills the account up with zeroes. As those twelve bytes fit, nothing is
/// truncated.
#[verifier::external_body]
pub(crate) fn into_account(stake_pool_id: [u8; 8]) -> (account: [u8; 32])
    ensures
        account@ == pool_account(stake_pool_id@),
{
    PalletId(stake_pool_id).into_account_truncating()
}

/// Something that is to be done with the funds in the stake pool.
///
/// What moves funds decides nothing: each action is decided on, and the stake that it is about has
/// been brought up to date, before the action is handed out.
#[derive(Debug, PartialEq, Eq)]
pub enum PoolAction<AccountId, StakeId, SlashId, Balance> {
    /// Move the negative imbalance into the pool, whose account is created where it is missing.
    Deposit { imbalance: NegativeImbalance<Balance> },
    /// Withdraw the amount from the pool, and hand it to the caller as a negative imbalance.
    Withdraw { amount: Balance },
    /// Withdraw the amount from the pool, and move it into the destination, which is created where
    /// it is missing.
    Transfer { destination: AccountId, amount: Balance },
    /// Withdraw the amount of a finished unstaking from the pool, and tell the handler.
    Unstaked { stake_id: StakeId, amount: Balance },
    /// Withdraw the amount of an executed slash from the pool, and tell the handler.
    Slashed { stake_id: StakeId, slash_id: SlashId, amount: Balance, remaining_stake: Balance },
}

impl<Balance: SimpleArithmetic> View for NegativeImbalance<Balance> {
    type V = NegativeImbalance<nat>;

    open spec fn view(&self) -> NegativeImbalance<nat> {
        NegativeImbalance { amount: self.amount.as_nat() }
    }
}

impl<
    AccountId,
    StakeId: SimpleArithmetic,
    SlashId: SimpleArithmetic,
    Balance: SimpleArithmetic,
> View for PoolAction<AccountId, StakeId, SlashId, Balance> {
    type V = PoolAction<AccountId, nat, nat, nat>;

    open spec fn view(&self) -> PoolAction<AccountId, nat, nat, nat> {
        match *self {
            PoolAction::Deposit { imbalance } => PoolAction::Deposit { imbalance: imbalance@ },
            PoolAction::Withdraw { amount } => PoolAction::Withdraw { amount: amount.as_nat() },
            PoolAction::Transfer { destination, amount } => PoolAction::Transfer {
                destination,
                amount: amount.as_nat(),
            },
            PoolAction::Unstaked { stake_id, amount } => PoolAction::Unstaked {
                stake_id: stake_id.as_nat(),
                amount: amount.as_nat(),
            },
            PoolAction::Slashed {
                stake_id,
                slash_id,
                amount,
                remaining_stake,
            } => PoolAction::Slashed {
                stake_id: stake_id.as_nat(),
                slash_id: slash_id.as_nat(),
                amount: amount.as_nat(),
                remaining_stake: remaining_stake.as_nat(),
            },
        }
    }
}

impl<AccountId> PoolAction<AccountId, nat, nat, nat> {
    /// By how much the action changes the funds in the pool.
    pub open spec fn inflow(self) -> int {
        match self {
            PoolAction::Deposit { imbalance } => imbalance.amount as int,
            PoolAction::Withdraw { amount } => -amount,
            PoolAction::Transfer { amount, .. } => -amount,
            PoolAction::Unstaked { amount, .. } => -amount,
            PoolAction::Slashed { amount, .. } => -amount,
        }
    }
}

} // verus!
