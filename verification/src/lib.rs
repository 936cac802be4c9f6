//! Stakes, slashes and unstakings.
//!
//! A runtime keeps its stakes in a [`Module`]. Every request on them is decided here; the funds
//! lie in the account of the stake pool, and what is to be done with them is handed out as
//! [`PoolAction`]s, in the order in which it is to be done.
pub mod answers;
pub mod arithmetic;
pub mod blocks;
pub mod errors;
pub mod events;
pub mod laws;
pub mod module;
pub mod ordered;
pub mod pool;
pub mod reading;
pub mod registry;
pub mod requests;
pub mod solvency;
pub mod soundness;
pub mod stake;
pub mod staked;
pub mod timers;

pub use arithmetic::SimpleArithmetic;
pub use errors::{
    CancelSlashingError, DecreasingStakeError, IncreasingStakeError,
    IncreasingStakeFromAccountError, InitiateSlashingError, InitiateUnstakingError,
    PauseSlashingError, PauseUnstakingError, ResumeSlashingError, ResumeUnstakingError,
    StakeActionError, StakingError, StakingFromAccountError, TransferFromAccountError,
    UnstakingError,
};
pub use events::{NegativeImbalance, StakingEventsHandler};
pub use module::{BalanceOf, Finalization, Module, PendingTransfer, PoolActionOf, StakeOf, Trait};
pub use pool::PoolAction;
pub use stake::{Stake, StakingStatus};
pub use staked::{Slash, StakedState, StakedStatus, UnstakingState};
