//! What holds of all stakes at all times, whatever is requested of them.
use crate::registry::ModuleView;
use crate::stake::{StakeView, StakingStatusView};
use crate::staked::{StakedStateView, StakedStatus};
use vstd::prelude::*;

verus! {

impl StakedStateView {
    /// Slashes have identifiers that were given out, and wait for a block; so does an unstaking.
    pub open spec fn sound(self) -> bool {
        &&& forall|id: nat| #[trigger]
            self.ongoing_slashes.contains_key(id) ==> id < self.next_slash_id
                && !self.ongoing_slashes[id].is_due()
        &&& self.staked_status matches StakedStatus::Unstaking(unstaking)
            ==> unstaking.blocks_remaining_in_active_period_for_unstaking > 0
    }
}

impl StakeView {
    /// The funds at stake, where there are any, are in a sound state.
    pub open spec fn sound(self) -> bool {
        self.staking_status matches StakingStatusView::Staked(state) ==> state.sound()
    }
}

impl ModuleView {
    /// Stakes have identifiers that were given out, and are in a sound state.
    pub open spec fn sound(self) -> bool {
        forall|id: nat| #[trigger]
            self.stakes.contains_key(id) ==> id < self.stakes_created && self.stakes[id].sound()
    }
}

/// A request that a runtime can make on its stakes.
pub enum Request<AccountId> {
    CreateStake { now: nat },
    RemoveStake { stake_id: nat },
    Stake { stake_id: nat, value: nat },
    /// `withdrawn` is whether the value could be withdrawn from the source account.
    StakeFromAccount { stake_id: nat, value: nat, withdrawn: bool },
    IncreaseStake { stake_id: nat, value: nat },
    /// `withdrawn` is whether the value could be withdrawn from the source account.
    IncreaseStakeFromAccount { stake_id: nat, value: nat, withdrawn: bool },
    DecreaseStake { stake_id: nat, value: nat },
    DecreaseStakeToAccount { stake_id: nat, destination: AccountId, value: nat },
    InitiateSlashing { stake_id: nat, slash_amount: nat, slash_period: nat, now: nat },
    PauseSlashing { stake_id: nat, slash_id: nat },
    ResumeSlashing { stake_id: nat, slash_id: nat },
    CancelSlashing { stake_id: nat, slash_id: nat },
    InitiateUnstaking { stake_id: nat, unstaking_period: Option<nat>, now: nat },
    PauseUnstaking { stake_id: nat },
    ResumeUnstaking { stake_id: nat },
    /// The turn of a stake has come while a block is being finalised.
    FinalizeStake { stake_id: nat },
}

impl ModuleView {
    /// The stakes that a request makes, or else the stakes as they were.
    pub open spec fn or_unchanged<ErrorType>(self, outcome: Result<ModuleView, ErrorType>) -> Self {
        match outcome {
            Ok(stakes) => stakes,
            Err(_) => self,
        }
    }

    /// The stakes after a transfer from an account was asked for, with the stake that it makes.
    pub open spec fn after_transfer<ErrorType>(
        self,
        stake_id: nat,
        pending: Result<StakeView, ErrorType>,
        withdrawn: bool,
    ) -> Self {
        match pending {
            Ok(stake) => if withdrawn {
                self.with_stake(stake_id, stake)
            } else {
                self
            },
            Err(_) => self,
        }
    }

    /// The stakes after a request, granted or refused.
    pub open spec fn after<AccountId>(
        self,
        request: Request<AccountId>,
        minimum_balance: nat,
    ) -> Self {
        match request {
            Request::CreateStake { now } => self.create_stake(now),
            Request::RemoveStake { stake_id } => self.or_unchanged(self.remove_stake(stake_id)),
            Request::Stake { stake_id, value } => self.or_unchanged(
                self.stake(stake_id, value, minimum_balance),
            ),
            Request::StakeFromAccount { stake_id, value, withdrawn } => self.after_transfer(
                stake_id,
                self.stake_from_account(stake_id, value, minimum_balance),
                withdrawn,
            ),
            Request::IncreaseStake { stake_id, value } => self.or_unchanged(
                self.increase_stake(stake_id, value),
            ),
            Request::IncreaseStakeFromAccount {
                stake_id,
                value,
                withdrawn,
            } => self.after_transfer(
                stake_id,
                self.increase_stake_from_account(stake_id, value),
                withdrawn,
            ),
            Request::DecreaseStake { stake_id, value } => self.or_unchanged(
                self.decrease_stake(stake_id, value, minimum_balance),
            ),
            Request::DecreaseStakeToAccount {
                stake_id,
                destination: _,
                value,
            } => self.or_unchanged(self.decrease_stake(stake_id, value, minimum_balance)),
            Request::InitiateSlashing {
                stake_id,
                slash_amount,
                slash_period,
                now,
            } => self.or_unchanged(
                self.initiate_slashing(stake_id, slash_amount, slash_period, now),
            ),
            Request::PauseSlashing { stake_id, slash_id } => self.or_unchanged(
                self.pause_slashing(stake_id, slash_id),
            ),
            Request::ResumeSlashing { stake_id, slash_id } => self.or_unchanged(
                self.resume_slashing(stake_id, slash_id),
            ),
            Request::CancelSlashing { stake_id, slash_id } => self.or_unchanged(
                self.cancel_slashing(stake_id, slash_id),
            ),
            Request::InitiateUnstaking {
                stake_id,
                unstaking_period,
                now,
            } => self.or_unchanged(self.initiate_unstaking(stake_id, unstaking_period, now)),
            Request::PauseUnstaking { stake_id } => self.or_unchanged(
                self.pause_unstaking(stake_id),
            ),
            Request::ResumeUnstaking { stake_id } => self.or_unchanged(
                self.resume_unstaking(stake_id),
            ),
            Request::FinalizeStake { stake_id } => self.finalize_stake(stake_id, minimum_balance),
        }
    }

    /// The stakes after a history of requests, each with the minimum balance at its time.
    pub open spec fn after_all<AccountId>(self, history: Seq<(Request<AccountId>, nat)>) -> Self
        decreases history.len(),
    {
        if history.len() == 0 {
            self
        } else {
            let (request, minimum_balance) = history.last();
            self.after_all(history.drop_last()).after(request, minimum_balance)
        }
    }

    /// No stakes at all.
    pub open spec fn none() -> Self {
        ModuleView { stakes: Map::empty(), stakes_created: 0 }
    }
}

/// Finalising a block keeps a stake sound.
proof fn lemma_finalize_keeps_stake_sound(stake: StakeView, minimum_balance: nat)
    requires
        stake.sound(),
    ensures
        stake.finalize_slashing_and_unstaking(minimum_balance).sound(),
{
}

/// Every request keeps the stakes sound.
pub proof fn law_requests_keep_stakes_sound<AccountId>(
    stakes: ModuleView,
    request: Request<AccountId>,
    minimum_balance: nat,
)
    requires
        stakes.sound(),
    ensures
        stakes.after(request, minimum_balance).sound(),
{
    if let Request::FinalizeStake { stake_id } = request {
        if stakes.stakes.contains_key(stake_id) {
            lemma_finalize_keeps_stake_sound(stakes.stakes[stake_id], minimum_balance);
        }
    }
}

/// Stakes that are sound stay so, whatever is requested of them.
pub proof fn law_histories_keep_stakes_sound<AccountId>(
    stakes: ModuleView,
    history: Seq<(Request<AccountId>, nat)>,
)
    requires
        stakes.sound(),
    ensures
        stakes.after_all(history).sound(),
    decreases history.len(),
{
    if history.len() > 0 {
        let (request, minimum_balance) = history.last();
        law_histories_keep_stakes_sound(stakes, history.drop_last());
        law_requests_keep_stakes_sound(
            stakes.after_all(history.drop_last()),
            request,
            minimum_balance,
        );
    }
}

/// Stakes are sound whatever has been requested of them since there were none, and whatever the
/// minimum balance was at each time.
pub proof fn law_stakes_are_always_sound<AccountId>(history: Seq<(Request<AccountId>, nat)>)
    ensures
        ModuleView::none().after_all(history).sound(),
{
    law_histories_keep_stakes_sound(ModuleView::none(), history);
}

} // verus!
