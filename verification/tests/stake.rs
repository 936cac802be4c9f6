use stake::{
    CancelSlashingError, DecreasingStakeError, IncreasingStakeError, InitiateSlashingError,
    InitiateUnstakingError, PauseSlashingError, PauseUnstakingError, ResumeSlashingError,
    ResumeUnstakingError, Slash, Stake, StakedState, StakedStatus, StakingError, StakingStatus,
    UnstakingError, UnstakingState,
};
use std::collections::BTreeMap;

type TestStake = Stake<u64, u64, u64>;

const MINIMUM: u64 = 10;

fn staked(amount: u64) -> TestStake {
    let mut stake = TestStake::new(1);
    assert_eq!(stake.start_staking(amount, MINIMUM), Ok(()));
    stake
}

fn state(stake: &TestStake) -> &StakedState<u64, u64, u64> {
    match &stake.staking_status {
        StakingStatus::Staked(state) => state,
        StakingStatus::NotStaked => panic!("nothing is staked"),
    }
}

fn unstaking(stake: &TestStake) -> &UnstakingState<u64> {
    match &state(stake).staked_status {
        StakedStatus::Unstaking(unstaking) => unstaking,
        StakedStatus::Normal => panic!("not unstaking"),
    }
}

#[test]
fn a_new_stake_holds_nothing() {
    let stake = TestStake::new(7);
    assert_eq!(stake.created, 7);
    assert!(stake.is_not_staked());
    assert_eq!(stake.staked_amount(), 0);
    assert_eq!(StakingStatus::<u64, u64, u64>::default(), StakingStatus::NotStaked);
    assert_eq!(StakedStatus::<u64>::default(), StakedStatus::Normal);
    assert_eq!(
        TestStake::default(),
        Stake { created: 0, staking_status: StakingStatus::NotStaked }
    );
}

#[test]
fn staking_starts_with_a_clean_state() {
    let stake = staked(100);
    assert_eq!(
        stake.staking_status,
        StakingStatus::Staked(StakedState {
            staked_amount: 100,
            staked_status: StakedStatus::Normal,
            next_slash_id: 0,
            ongoing_slashes: BTreeMap::new(),
        })
    );
    assert!(!stake.is_not_staked());
}

#[test]
fn staking_is_refused() {
    let mut stake = TestStake::new(1);
    assert_eq!(stake.start_staking(0, MINIMUM), Err(StakingError::CannotStakeZero));
    assert_eq!(stake.start_staking(0, 0), Err(StakingError::CannotStakeZero));
    assert_eq!(
        stake.start_staking(MINIMUM - 1, MINIMUM),
        Err(StakingError::CannotStakeLessThanMinimumBalance)
    );
    assert!(stake.is_not_staked());
    assert_eq!(stake.start_staking(MINIMUM, MINIMUM), Ok(()));
    assert_eq!(stake.start_staking(50, MINIMUM), Err(StakingError::AlreadyStaked));
    assert_eq!(stake.staked_amount(), MINIMUM);
}

#[test]
fn increasing_adds_to_the_stake() {
    let mut stake = staked(100);
    assert_eq!(stake.increase_stake(1), Ok(101));
    assert_eq!(stake.increase_stake(u64::MAX - 101), Ok(u64::MAX));
    assert_eq!(stake.staked_amount(), u64::MAX);
}

#[test]
fn increasing_is_refused() {
    let mut stake = TestStake::new(1);
    assert_eq!(stake.increase_stake(0), Err(IncreasingStakeError::CannotChangeStakeByZero));
    assert_eq!(stake.increase_stake(5), Err(IncreasingStakeError::NotStaked));
    let mut stake = staked(100);
    assert_eq!(stake.initiate_unstaking(3, 2), Ok(()));
    assert_eq!(
        stake.increase_stake(5),
        Err(IncreasingStakeError::CannotIncreaseStakeWhileUnstaking)
    );
    assert_eq!(stake.staked_amount(), 100);
}

#[test]
fn decreasing_takes_from_the_stake() {
    let mut stake = staked(100);
    assert_eq!(stake.decrease_stake(30, MINIMUM), Ok((30, 70)));
    // exactly the minimum may stay
    assert_eq!(stake.decrease_stake(60, MINIMUM), Ok((60, 10)));
    // less than that may not
    assert_eq!(stake.decrease_stake(1, MINIMUM), Ok((10, 0)));
    assert!(!stake.is_not_staked());
    assert_eq!(stake.decrease_stake(1, MINIMUM), Err(DecreasingStakeError::InsufficientStake));
}

#[test]
fn decreasing_is_refused() {
    let mut stake = TestStake::new(1);
    assert_eq!(
        stake.decrease_stake(0, MINIMUM),
        Err(DecreasingStakeError::CannotChangeStakeByZero)
    );
    assert_eq!(stake.decrease_stake(1, MINIMUM), Err(DecreasingStakeError::NotStaked));
    let mut stake = staked(100);
    assert_eq!(stake.decrease_stake(101, MINIMUM), Err(DecreasingStakeError::InsufficientStake));
    assert_eq!(stake.initiate_slashing(5, 3, 2), Ok(0));
    assert_eq!(
        stake.decrease_stake(1, MINIMUM),
        Err(DecreasingStakeError::CannotDecreaseStakeWhileOngoingSlahes)
    );
    // a paused slash is as good as an active one
    assert_eq!(stake.pause_slashing(&0), Ok(()));
    assert_eq!(
        stake.decrease_stake(1, MINIMUM),
        Err(DecreasingStakeError::CannotDecreaseStakeWhileOngoingSlahes)
    );
    assert_eq!(stake.cancel_slashing(&0), Ok(()));
    assert_eq!(stake.initiate_unstaking(3, 2), Ok(()));
    assert_eq!(
        stake.decrease_stake(1, MINIMUM),
        Err(DecreasingStakeError::CannotDecreaseStakeWhileUnstaking)
    );
    assert_eq!(stake.staked_amount(), 100);
}

#[test]
fn a_slash_is_noted_with_the_next_identifier() {
    let mut stake = staked(100);
    assert_eq!(stake.initiate_slashing(5, 3, 2), Ok(0));
    assert_eq!(stake.initiate_slashing(6, 4, 3), Ok(1));
    assert_eq!(state(&stake).next_slash_id, 2);
    assert_eq!(
        state(&stake).ongoing_slashes.get(&1),
        Some(&Slash {
            started_at_block: 3,
            is_active: true,
            blocks_remaining_in_active_period_for_slashing: 4,
            slash_amount: 6,
        })
    );
    assert_eq!(stake.staked_amount(), 100);
}

#[test]
fn initiating_a_slash_is_refused() {
    let mut stake = TestStake::new(1);
    assert_eq!(
        stake.initiate_slashing(0, 0, 2),
        Err(InitiateSlashingError::SlashPeriodShouldBeGreaterThanZero)
    );
    assert_eq!(
        stake.initiate_slashing(0, 1, 2),
        Err(InitiateSlashingError::SlashAmountShouldBeGreaterThanZero)
    );
    assert_eq!(stake.initiate_slashing(1, 1, 2), Err(InitiateSlashingError::NotStaked));
}

#[test]
fn slashes_are_paused_and_resumed() {
    let mut stake = TestStake::new(1);
    assert_eq!(stake.pause_slashing(&0), Err(PauseSlashingError::NotStaked));
    assert_eq!(stake.resume_slashing(&0), Err(ResumeSlashingError::NotStaked));
    let mut stake = staked(100);
    assert_eq!(stake.pause_slashing(&0), Err(PauseSlashingError::SlashNotFound));
    assert_eq!(stake.resume_slashing(&0), Err(ResumeSlashingError::SlashNotFound));
    assert_eq!(stake.initiate_slashing(5, 3, 2), Ok(0));
    let before = stake.clone();
    assert_eq!(stake.resume_slashing(&0), Err(ResumeSlashingError::NotPaused));
    assert_eq!(stake.pause_slashing(&0), Ok(()));
    assert_ne!(stake, before);
    assert_eq!(stake.pause_slashing(&0), Err(PauseSlashingError::AlreadyPaused));
    assert_eq!(stake.resume_slashing(&0), Ok(()));
    assert_eq!(stake, before);
}

#[test]
fn slashes_are_cancelled() {
    let mut stake = TestStake::new(1);
    assert_eq!(stake.cancel_slashing(&0), Err(CancelSlashingError::NotStaked));
    let mut stake = staked(100);
    assert_eq!(stake.cancel_slashing(&0), Err(CancelSlashingError::SlashNotFound));
    assert_eq!(stake.initiate_slashing(5, 3, 2), Ok(0));
    assert_eq!(stake.initiate_slashing(5, 3, 2), Ok(1));
    assert_eq!(stake.pause_slashing(&0), Ok(()));
    assert_eq!(stake.cancel_slashing(&0), Ok(()));
    assert_eq!(stake.cancel_slashing(&0), Err(CancelSlashingError::SlashNotFound));
    assert_eq!(stake.cancel_slashing(&1), Ok(()));
    assert!(state(&stake).ongoing_slashes.is_empty());
    // an identifier is not given out again
    assert_eq!(stake.initiate_slashing(5, 3, 2), Ok(2));
}

#[test]
fn a_slash_pauses_unstaking_and_its_cancelling_resumes_it() {
    let mut stake = staked(100);
    assert_eq!(stake.initiate_unstaking(9, 2), Ok(()));
    assert!(unstaking(&stake).is_active);
    assert_eq!(stake.initiate_slashing(5, 3, 2), Ok(0));
    assert_eq!(stake.initiate_slashing(5, 3, 2), Ok(1));
    assert!(!unstaking(&stake).is_active);
    assert_eq!(stake.cancel_slashing(&1), Ok(()));
    assert!(!unstaking(&stake).is_active);
    assert_eq!(stake.cancel_slashing(&0), Ok(()));
    assert!(unstaking(&stake).is_active);
}

#[test]
fn unstaking_at_once_returns_everything() {
    let mut stake = staked(100);
    assert_eq!(stake.unstake(), Ok(100));
    assert_eq!(stake, TestStake::new(1));
    assert_eq!(stake.unstake(), Err(UnstakingError::NotStaked));
}

#[test]
fn unstaking_is_refused() {
    let mut stake = TestStake::new(1);
    assert_eq!(
        stake.initiate_unstaking(0, 2),
        Err(InitiateUnstakingError::UnstakingPeriodShouldBeGreaterThanZero)
    );
    assert_eq!(
        stake.initiate_unstaking(1, 2),
        Err(InitiateUnstakingError::UnstakingError(UnstakingError::NotStaked))
    );
    let mut stake = staked(100);
    assert_eq!(stake.initiate_slashing(5, 3, 2), Ok(0));
    assert_eq!(stake.unstake(), Err(UnstakingError::CannotUnstakeWhileSlashesOngoing));
    assert_eq!(
        stake.initiate_unstaking(1, 2),
        Err(InitiateUnstakingError::UnstakingError(
            UnstakingError::CannotUnstakeWhileSlashesOngoing
        ))
    );
    assert_eq!(stake.cancel_slashing(&0), Ok(()));
    assert_eq!(stake.initiate_unstaking(1, 2), Ok(()));
    assert_eq!(stake.unstake(), Err(UnstakingError::AlreadyUnstaking));
    assert_eq!(
        stake.initiate_unstaking(1, 2),
        Err(InitiateUnstakingError::UnstakingError(UnstakingError::AlreadyUnstaking))
    );
    // a slash comes before an unstaking under way
    assert_eq!(stake.initiate_slashing(5, 3, 2), Ok(1));
    assert_eq!(stake.unstake(), Err(UnstakingError::CannotUnstakeWhileSlashesOngoing));
}

#[test]
fn unstakings_are_paused_and_resumed() {
    let mut stake = TestStake::new(1);
    assert_eq!(stake.pause_unstaking(), Err(PauseUnstakingError::NotStaked));
    assert_eq!(stake.resume_unstaking(), Err(ResumeUnstakingError::NotStaked));
    let mut stake = staked(100);
    assert_eq!(stake.pause_unstaking(), Err(PauseUnstakingError::NotUnstaking));
    assert_eq!(stake.resume_unstaking(), Err(ResumeUnstakingError::NotUnstaking));
    assert_eq!(stake.initiate_unstaking(4, 2), Ok(()));
    assert_eq!(
        unstaking(&stake),
        &UnstakingState {
            started_at_block: 2,
            is_active: true,
            blocks_remaining_in_active_period_for_unstaking: 4,
        }
    );
    assert_eq!(stake.resume_unstaking(), Err(ResumeUnstakingError::NotPaused));
    let before = stake.clone();
    assert_eq!(stake.pause_unstaking(), Ok(()));
    assert_eq!(stake.pause_unstaking(), Err(PauseUnstakingError::AlreadyPaused));
    assert!(!unstaking(&stake).is_active);
    assert_eq!(stake.resume_unstaking(), Ok(()));
    assert_eq!(stake, before);
}

#[test]
fn a_slash_takes_its_amount_or_all() {
    let slash = |slash_amount: u64| Slash {
        started_at_block: 1,
        is_active: true,
        blocks_remaining_in_active_period_for_slashing: 0,
        slash_amount,
    };
    let fresh = || StakedState::<u64, u64, u64> { staked_amount: 100, ..Default::default() };
    let mut funds = fresh();
    assert_eq!(funds.apply_slash(slash(30), MINIMUM), 30);
    assert_eq!(funds.staked_amount, 70);
    let mut funds = fresh();
    assert_eq!(funds.apply_slash(slash(90), MINIMUM), 90);
    assert_eq!(funds.staked_amount, 10);
    let mut funds = fresh();
    assert_eq!(funds.apply_slash(slash(91), MINIMUM), 100);
    assert_eq!(funds.staked_amount, 0);
    let mut funds = fresh();
    assert_eq!(funds.apply_slash(slash(500), MINIMUM), 100);
    assert_eq!(funds.staked_amount, 0);
    let mut funds = fresh();
    assert_eq!(funds.apply_slash(slash(500), 0), 100);
    assert_eq!(funds.staked_amount, 0);
}

#[test]
fn timers_advance_for_active_slashes_only() {
    let mut stake = staked(100);
    assert_eq!(stake.initiate_slashing(1, 3, 2), Ok(0));
    assert_eq!(stake.initiate_slashing(1, 2, 2), Ok(1));
    assert_eq!(stake.pause_slashing(&1), Ok(()));
    let funds = match &mut stake.staking_status {
        StakingStatus::Staked(funds) => funds,
        StakingStatus::NotStaked => panic!("nothing is staked"),
    };
    assert_eq!(funds.advance_slashing_timer(), 1);
    assert_eq!(funds.ongoing_slashes[&0].blocks_remaining_in_active_period_for_slashing, 2);
    assert_eq!(funds.ongoing_slashes[&1].blocks_remaining_in_active_period_for_slashing, 2);
    assert_eq!(funds.advance_slashing_timer(), 1);
    assert_eq!(funds.advance_slashing_timer(), 1);
    // a timer that has run out does not advance
    assert_eq!(funds.advance_slashing_timer(), 0);
    let due = funds.get_slashes_to_finalize();
    assert_eq!(due.len(), 1);
    assert_eq!(due[0].0, 0);
    assert_eq!(due[0].1.slash_amount, 1);
    assert_eq!(funds.ongoing_slashes.len(), 1);
    assert!(funds.get_slashes_to_finalize().is_empty());
}

#[test]
fn slashes_are_executed_by_ascending_identifier() {
    let mut stake = staked(100);
    assert_eq!(stake.initiate_slashing(20, 2, 1), Ok(0));
    assert_eq!(stake.initiate_slashing(1, 5, 1), Ok(1));
    assert_eq!(stake.initiate_slashing(30, 2, 1), Ok(2));
    assert_eq!(stake.initiate_slashing(45, 2, 1), Ok(3));
    assert_eq!(stake.finalize_slashing(MINIMUM), (true, vec![]));
    // the last one would leave five, which is less than the minimum
    assert_eq!(
        stake.finalize_slashing(MINIMUM),
        (true, vec![(0, 20, 80), (2, 30, 50), (3, 50, 0)])
    );
    assert_eq!(stake.staked_amount(), 0);
    assert_eq!(state(&stake).ongoing_slashes.len(), 1);
    assert_eq!(TestStake::new(1).finalize_slashing(MINIMUM), (false, vec![]));
}

#[test]
fn finalize_slashes_executes_what_is_due() {
    let mut funds = StakedState::<u64, u64, u64> { staked_amount: 100, ..Default::default() };
    funds.ongoing_slashes.insert(
        4,
        Slash {
            started_at_block: 1,
            is_active: false,
            blocks_remaining_in_active_period_for_slashing: 0,
            slash_amount: 40,
        },
    );
    assert_eq!(funds.finalize_slashes(MINIMUM), vec![(4, 40, 60)]);
    assert_eq!(funds.staked_amount, 60);
    assert!(funds.ongoing_slashes.is_empty());
}

#[test]
fn an_active_slash_is_executed_when_its_period_is_over() {
    let mut stake = staked(100);
    assert_eq!(stake.initiate_slashing(25, 3, 1), Ok(0));
    assert_eq!(stake.finalize_slashing_and_unstaking(MINIMUM), (true, vec![], None));
    assert_eq!(stake.pause_slashing(&0), Ok(()));
    // blocks do not count while it is paused
    assert_eq!(stake.finalize_slashing_and_unstaking(MINIMUM), (false, vec![], None));
    assert_eq!(stake.finalize_slashing_and_unstaking(MINIMUM), (false, vec![], None));
    assert_eq!(stake.resume_slashing(&0), Ok(()));
    assert_eq!(stake.finalize_slashing_and_unstaking(MINIMUM), (true, vec![], None));
    assert_eq!(
        stake.finalize_slashing_and_unstaking(MINIMUM),
        (true, vec![(0, 25, 75)], None)
    );
    assert_eq!(stake.finalize_slashing_and_unstaking(MINIMUM), (false, vec![], None));
    assert_eq!(stake.staked_amount(), 75);
}

#[test]
fn an_unstaking_is_finished_when_its_period_is_over() {
    let mut stake = staked(100);
    assert_eq!(stake.initiate_unstaking(3, 1), Ok(()));
    assert_eq!(stake.finalize_unstaking(), (true, None));
    // without slashes a pause does not outlast the next block
    assert_eq!(stake.pause_unstaking(), Ok(()));
    assert_eq!(stake.finalize_unstaking(), (true, None));
    assert_eq!(stake.finalize_unstaking(), (true, Some(100)));
    assert_eq!(stake, TestStake::new(1));
    assert_eq!(stake.finalize_unstaking(), (false, None));
    assert_eq!(staked(50).finalize_unstaking(), (false, None));
}

#[test]
fn an_unstaking_waits_for_slashes() {
    let mut stake = staked(100);
    assert_eq!(stake.initiate_unstaking(2, 1), Ok(()));
    assert_eq!(stake.finalize_slashing_and_unstaking(MINIMUM), (true, vec![], None));
    assert_eq!(stake.initiate_slashing(40, 2, 2), Ok(0));
    assert_eq!(stake.finalize_slashing_and_unstaking(MINIMUM), (true, vec![], None));
    assert_eq!(unstaking(&stake).blocks_remaining_in_active_period_for_unstaking, 1);
    // the block that executes the last slash counts again
    assert_eq!(
        stake.finalize_slashing_and_unstaking(MINIMUM),
        (true, vec![(0, 40, 60)], Some(60))
    );
    assert!(stake.is_not_staked());
}

#[test]
fn an_unstaking_resumed_by_hand_does_not_wait() {
    let mut stake = staked(100);
    assert_eq!(stake.initiate_unstaking(1, 1), Ok(()));
    assert_eq!(stake.initiate_slashing(40, 5, 2), Ok(0));
    assert_eq!(stake.resume_unstaking(), Ok(()));
    assert_eq!(stake.finalize_slashing_and_unstaking(MINIMUM), (true, vec![], Some(100)));
    assert!(stake.is_not_staked());
}

#[test]
fn decreasing_undoes_increasing() {
    let mut stake = staked(100);
    let before = stake.clone();
    assert_eq!(stake.increase_stake(40), Ok(140));
    assert_eq!(stake.decrease_stake(40, MINIMUM), Ok((40, 100)));
    assert_eq!(stake, before);
}

#[test]
fn other_number_types_work_alike() {
    let mut stake = Stake::<u32, u128, u32>::new(1);
    assert_eq!(stake.start_staking(u128::MAX, 1), Ok(()));
    assert_eq!(stake.initiate_slashing(7, 1, 1), Ok(0));
    assert_eq!(
        stake.finalize_slashing_and_unstaking(1),
        (true, vec![(0, 7, u128::MAX - 7)], None)
    );
}

#[test]
fn cancelling_undoes_initiating_but_for_the_identifier() {
    let mut stake = staked(100);
    assert_eq!(stake.initiate_unstaking(9, 2), Ok(()));
    let mut expected = stake.clone();
    assert_eq!(stake.initiate_slashing(5, 3, 2), Ok(0));
    assert_eq!(stake.cancel_slashing(&0), Ok(()));
    match &mut expected.staking_status {
        StakingStatus::Staked(state) => state.next_slash_id = 1,
        StakingStatus::NotStaked => panic!("nothing is staked"),
    }
    assert_eq!(stake, expected);
}
