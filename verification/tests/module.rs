use stake::{
    CancelSlashingError, DecreasingStakeError, IncreasingStakeError,
    IncreasingStakeFromAccountError, InitiateSlashingError, InitiateUnstakingError, Module,
    NegativeImbalance, PauseSlashingError, PauseUnstakingError, PendingTransfer, PoolAction,
    ResumeSlashingError, ResumeUnstakingError, StakeActionError, StakingError,
    StakingEventsHandler, StakingFromAccountError, Trait, TransferFromAccountError,
    UnstakingError,
};

struct Test;

impl Trait for Test {
    type AccountId = &'static str;
    type BlockNumber = u64;
    type Balance = u64;
    type StakeId = u64;
    type SlashId = u64;
    type StakingEventsHandler = (Half, Third);
}

/// Keeps half of what it is given of an unstaking, and leaves slashes alone.
struct Half;

impl StakingEventsHandler<u64, u64, u64> for Half {
    fn unstaked(
        _id: &u64,
        _amount: u64,
        imbalance: NegativeImbalance<u64>,
    ) -> NegativeImbalance<u64> {
        NegativeImbalance { amount: imbalance.amount - imbalance.amount / 2 }
    }

    fn slashed(
        _id: &u64,
        _slash_id: &u64,
        _amount: u64,
        _remaining_stake: u64,
        imbalance: NegativeImbalance<u64>,
    ) -> NegativeImbalance<u64> {
        imbalance
    }
}

/// Keeps a third of what it is given, and the rest where it is told of the third slash.
struct Third;

impl StakingEventsHandler<u64, u64, u64> for Third {
    fn unstaked(
        _id: &u64,
        _amount: u64,
        imbalance: NegativeImbalance<u64>,
    ) -> NegativeImbalance<u64> {
        NegativeImbalance { amount: imbalance.amount - imbalance.amount / 3 }
    }

    fn slashed(
        _id: &u64,
        slash_id: &u64,
        _amount: u64,
        _remaining_stake: u64,
        imbalance: NegativeImbalance<u64>,
    ) -> NegativeImbalance<u64> {
        if *slash_id == 2 {
            NegativeImbalance { amount: 0 }
        } else {
            NegativeImbalance { amount: imbalance.amount - imbalance.amount / 3 }
        }
    }
}

const MINIMUM: u64 = 10;

type Action = PoolAction<&'static str, u64, u64, u64>;

fn value(amount: u64) -> NegativeImbalance<u64> {
    NegativeImbalance { amount }
}

fn deposit(amount: u64) -> Action {
    PoolAction::Deposit { imbalance: value(amount) }
}

/// A module with one stake, which has the identifier 0 and holds `amount`.
fn with_stake(amount: u64) -> Module<Test> {
    let mut module = Module::<Test>::new();
    assert_eq!(module.create_stake(1), 0);
    assert_eq!(module.stake(&0, value(amount), MINIMUM), Ok(deposit(amount)));
    module
}

fn amount(module: &Module<Test>, stake_id: u64) -> u64 {
    module.stakes(&stake_id).staked_amount()
}

fn total(module: &Module<Test>) -> u64 {
    module.stakes.keys().map(|id| amount(module, *id)).sum()
}

/// Finalises a block without any request being made meanwhile.
fn finalize(module: &mut Module<Test>) -> Vec<Action> {
    let mut all = vec![];
    let mut finalization = module.begin_finalization();
    while let Some(actions) = module.finalize_slashing_and_unstaking(&mut finalization, MINIMUM) {
        all.extend(actions);
    }
    all
}

/// The pool, after an action has been performed.
fn perform(pool: u64, action: &Action) -> u64 {
    match action {
        PoolAction::Deposit { imbalance } => pool + imbalance.amount,
        PoolAction::Withdraw { amount }
        | PoolAction::Transfer { amount, .. }
        | PoolAction::Unstaked { amount, .. }
        | PoolAction::Slashed { amount, .. } => pool.checked_sub(*amount).unwrap(),
    }
}

#[test]
fn the_pool_has_an_account_of_its_own() {
    let mut expected = [0u8; 32];
    expected[..12].copy_from_slice(b"modlmy/stake");
    assert_eq!(Module::<Test>::stake_pool_account_id(*b"my/stake"), expected);
    assert_ne!(
        Module::<Test>::stake_pool_account_id(*b"my/stake"),
        Module::<Test>::stake_pool_account_id(*b"my/steak")
    );
}

#[test]
fn stakes_are_created_and_removed() {
    let mut module = Module::<Test>::new();
    assert_eq!(module.stakes_created(), 0);
    assert!(!module.stake_exists(&0));
    // where there is no stake, the one that is read was created at block zero and holds nothing
    assert_eq!(module.stakes(&0).created, 0);
    assert!(module.stakes(&0).is_not_staked());
    assert_eq!(module.create_stake(4), 0);
    assert_eq!(module.create_stake(5), 1);
    assert_eq!(module.stakes(&1).created, 5);
    assert!(module.stakes(&1).is_not_staked());
    assert!(module.stake_exists(&0));
    assert_eq!(module.stakes(&0).created, 4);
    assert_eq!(module.remove_stake(&0), Ok(()));
    assert!(!module.stake_exists(&0));
    assert_eq!(module.stakes(&0).created, 0);
    assert_eq!(module.remove_stake(&0), Err(StakeActionError::StakeNotFound));
    assert_eq!(module.stake(&1, value(50), MINIMUM), Ok(deposit(50)));
    assert_eq!(
        module.remove_stake(&1),
        Err(StakeActionError::Error(StakingError::AlreadyStaked))
    );
    // identifiers are not given out again
    assert_eq!(module.create_stake(6), 2);
    assert_eq!(module.stakes_created(), 3);
    let remaining: Vec<u64> = module.stakes.keys().copied().collect();
    assert_eq!(remaining, vec![1, 2]);
    assert!(remaining.len() as u64 <= module.stakes_created());
}

#[test]
fn a_dry_run_of_staking_tells_what_staking_does() {
    let mut module = Module::<Test>::new();
    assert_eq!(module.ensure_can_stake(&0, 50, MINIMUM), Err(StakeActionError::StakeNotFound));
    assert_eq!(module.stake(&0, value(50), MINIMUM), Err(StakeActionError::StakeNotFound));
    module.create_stake(1);
    let zero = StakeActionError::Error(StakingError::CannotStakeZero);
    assert_eq!(module.ensure_can_stake(&0, 0, MINIMUM), Err(zero));
    let little = || StakeActionError::Error(StakingError::CannotStakeLessThanMinimumBalance);
    assert_eq!(module.ensure_can_stake(&0, 9, MINIMUM), Err(little()));
    assert_eq!(module.stake(&0, value(9), MINIMUM), Err(little()));
    assert_eq!(module.ensure_can_stake(&0, 50, MINIMUM), Ok(()));
    assert!(module.stakes(&0).is_not_staked());
    assert_eq!(module.stake(&0, value(50), MINIMUM), Ok(deposit(50)));
    let already = || StakeActionError::Error(StakingError::AlreadyStaked);
    assert_eq!(module.ensure_can_stake(&0, 50, MINIMUM), Err(already()));
    assert_eq!(module.stake(&0, value(50), MINIMUM), Err(already()));
    assert_eq!(amount(&module, 0), 50);
}

fn pending<E: std::fmt::Debug>(
    r: Result<PendingTransfer<Test>, StakeActionError<E>>,
) -> PendingTransfer<Test> {
    match r {
        Ok(pending) => pending,
        Err(error) => panic!("{:?}", error),
    }
}

#[test]
fn staking_from_an_account_waits_for_the_withdrawal() {
    let mut module = Module::<Test>::new();
    assert!(matches!(
        module.stake_from_account(&0, "alice", 50, MINIMUM),
        Err(StakeActionError::StakeNotFound)
    ));
    module.create_stake(1);
    assert!(matches!(
        module.stake_from_account(&0, "alice", 5, MINIMUM),
        Err(StakeActionError::Error(StakingFromAccountError::StakingError(
            StakingError::CannotStakeLessThanMinimumBalance
        )))
    ));
    let transfer = pending(module.stake_from_account(&0, "alice", 50, MINIMUM));
    assert_eq!(transfer.stake_id, 0);
    assert_eq!(transfer.source_account_id, "alice");
    assert_eq!(transfer.value, 50);
    assert_eq!(transfer.stake.staked_amount(), 50);
    assert!(module.stakes(&0).is_not_staked());
    assert_eq!(
        module.finish_stake_from_account(transfer, None),
        Err(StakeActionError::Error(
            StakingFromAccountError::InsufficientBalanceInSourceAccount
        ))
    );
    assert!(module.stakes(&0).is_not_staked());
    let transfer = pending(module.stake_from_account(&0, "alice", 50, MINIMUM));
    assert_eq!(module.finish_stake_from_account(transfer, Some(value(50))), Ok(deposit(50)));
    assert_eq!(amount(&module, 0), 50);
    assert!(matches!(
        module.stake_from_account(&0, "alice", 50, MINIMUM),
        Err(StakeActionError::Error(StakingFromAccountError::StakingError(
            StakingError::AlreadyStaked
        )))
    ));
}

#[test]
fn transfers_into_the_pool_need_a_withdrawal() {
    assert_eq!(
        Module::<Test>::transfer_funds_from_account_into_stake_pool(None),
        Err(TransferFromAccountError::InsufficientBalance)
    );
    assert_eq!(
        Module::<Test>::transfer_funds_from_account_into_stake_pool(Some(value(8))),
        Ok(deposit(8))
    );
    assert_eq!(Module::<Test>::deposit_funds_into_stake_pool(value(9)), deposit(9));
    assert_eq!(
        Module::<Test>::withdraw_funds_from_stake_pool(7),
        PoolAction::Withdraw { amount: 7 }
    );
    assert_eq!(
        Module::<Test>::transfer_funds_from_pool_into_account("bob", 7),
        PoolAction::Transfer { destination: "bob", amount: 7 }
    );
}

#[test]
fn stakes_are_increased() {
    let mut module = with_stake(50);
    assert_eq!(module.ensure_can_increase_stake(&1, 5), Err(StakeActionError::StakeNotFound));
    assert_eq!(module.increase_stake(&1, value(5)), Err(StakeActionError::StakeNotFound));
    let zero = || StakeActionError::Error(IncreasingStakeError::CannotChangeStakeByZero);
    assert_eq!(module.ensure_can_increase_stake(&0, 0), Err(zero()));
    assert_eq!(module.increase_stake(&0, value(0)), Err(zero()));
    assert_eq!(module.ensure_can_increase_stake(&0, 5), Ok(()));
    assert_eq!(amount(&module, 0), 50);
    assert_eq!(module.increase_stake(&0, value(5)), Ok((55, deposit(5))));
    assert_eq!(amount(&module, 0), 55);
}

#[test]
fn increasing_from_an_account_waits_for_the_withdrawal() {
    let mut module = with_stake(50);
    assert!(matches!(
        module.increase_stake_from_account(&1, "alice", 5),
        Err(StakeActionError::StakeNotFound)
    ));
    assert!(matches!(
        module.increase_stake_from_account(&0, "alice", 0),
        Err(StakeActionError::Error(IncreasingStakeFromAccountError::IncreasingStakeError(
            IncreasingStakeError::CannotChangeStakeByZero
        )))
    ));
    let transfer = pending(module.increase_stake_from_account(&0, "alice", 5));
    assert_eq!((transfer.source_account_id, transfer.value), ("alice", 5));
    assert_eq!(
        module.finish_increase_stake_from_account(transfer, None),
        Err(StakeActionError::Error(
            IncreasingStakeFromAccountError::InsufficientBalanceInSourceAccount
        ))
    );
    assert_eq!(amount(&module, 0), 50);
    let transfer = pending(module.increase_stake_from_account(&0, "alice", 5));
    assert_eq!(
        module.finish_increase_stake_from_account(transfer, Some(value(5))),
        Ok((55, deposit(5)))
    );
    assert_eq!(amount(&module, 0), 55);
}

#[test]
fn stakes_are_decreased() {
    let mut module = with_stake(50);
    assert_eq!(
        module.ensure_can_decrease_stake(&1, 5, MINIMUM),
        Err(StakeActionError::StakeNotFound)
    );
    let much = || StakeActionError::Error(DecreasingStakeError::InsufficientStake);
    assert_eq!(module.ensure_can_decrease_stake(&0, 51, MINIMUM), Err(much()));
    assert_eq!(module.decrease_stake(&0, 51, MINIMUM), Err(much()));
    assert_eq!(module.ensure_can_decrease_stake(&0, 5, MINIMUM), Ok(()));
    assert_eq!(amount(&module, 0), 50);
    assert_eq!(
        module.decrease_stake(&0, 5, MINIMUM),
        Ok((45, PoolAction::Withdraw { amount: 5 }))
    );
    assert_eq!(
        module.decrease_stake_to_account(&0, "bob", 15, MINIMUM),
        Ok((30, PoolAction::Transfer { destination: "bob", amount: 15 }))
    );
    // all of it goes where less than the minimum would be left
    assert_eq!(
        module.decrease_stake_to_account(&0, "bob", 21, MINIMUM),
        Ok((0, PoolAction::Transfer { destination: "bob", amount: 30 }))
    );
    assert_eq!(
        module.decrease_stake_to_account(&1, "bob", 1, MINIMUM),
        Err(StakeActionError::StakeNotFound)
    );
    assert_eq!(module.decrease_stake(&0, 1, MINIMUM), Err(much()));
}

#[test]
fn slashes_are_managed() {
    let mut module = with_stake(50);
    assert_eq!(module.initiate_slashing(&1, 5, 2, 3), Err(StakeActionError::StakeNotFound));
    assert_eq!(
        module.initiate_slashing(&0, 0, 2, 3),
        Err(StakeActionError::Error(
            InitiateSlashingError::SlashAmountShouldBeGreaterThanZero
        ))
    );
    assert_eq!(module.initiate_slashing(&0, 5, 2, 3), Ok(0));
    assert_eq!(module.pause_slashing(&1, &0), Err(StakeActionError::StakeNotFound));
    assert_eq!(module.pause_slashing(&0, &0), Ok(()));
    assert_eq!(
        module.pause_slashing(&0, &0),
        Err(StakeActionError::Error(PauseSlashingError::AlreadyPaused))
    );
    assert_eq!(module.resume_slashing(&1, &0), Err(StakeActionError::StakeNotFound));
    assert_eq!(module.resume_slashing(&0, &0), Ok(()));
    assert_eq!(
        module.resume_slashing(&0, &0),
        Err(StakeActionError::Error(ResumeSlashingError::NotPaused))
    );
    assert_eq!(module.cancel_slashing(&1, &0), Err(StakeActionError::StakeNotFound));
    assert_eq!(module.cancel_slashing(&0, &0), Ok(()));
    assert_eq!(
        module.cancel_slashing(&0, &0),
        Err(StakeActionError::Error(CancelSlashingError::SlashNotFound))
    );
}

#[test]
fn unstakings_are_managed() {
    let mut module = with_stake(50);
    assert_eq!(
        module.initiate_unstaking(&1, Some(2), 3),
        Err(StakeActionError::StakeNotFound)
    );
    assert_eq!(
        module.initiate_unstaking(&0, Some(0), 3),
        Err(StakeActionError::Error(
            InitiateUnstakingError::UnstakingPeriodShouldBeGreaterThanZero
        ))
    );
    assert_eq!(
        module.pause_unstaking(&0),
        Err(StakeActionError::Error(PauseUnstakingError::NotUnstaking))
    );
    assert_eq!(module.initiate_unstaking(&0, Some(2), 3), Ok(None));
    assert_eq!(
        module.initiate_unstaking(&0, None, 3),
        Err(StakeActionError::Error(InitiateUnstakingError::UnstakingError(
            UnstakingError::AlreadyUnstaking
        )))
    );
    assert_eq!(module.pause_unstaking(&1), Err(StakeActionError::StakeNotFound));
    assert_eq!(module.pause_unstaking(&0), Ok(()));
    assert_eq!(module.resume_unstaking(&1), Err(StakeActionError::StakeNotFound));
    assert_eq!(module.resume_unstaking(&0), Ok(()));
    assert_eq!(
        module.resume_unstaking(&0),
        Err(StakeActionError::Error(ResumeUnstakingError::NotPaused))
    );
    let mut module = with_stake(70);
    assert_eq!(
        module.initiate_unstaking(&0, None, 3),
        Ok(Some(PoolAction::Unstaked { stake_id: 0, amount: 70 }))
    );
    assert!(module.stakes(&0).is_not_staked());
    assert_eq!(
        module.initiate_unstaking(&0, None, 3),
        Err(StakeActionError::Error(InitiateUnstakingError::UnstakingError(
            UnstakingError::NotStaked
        )))
    );
}

#[test]
fn finalising_goes_through_the_stakes_newest_first() {
    let mut module = with_stake(50);
    module.create_stake(1);
    module.create_stake(1);
    assert_eq!(module.stake(&1, value(80), MINIMUM), Ok(deposit(80)));
    assert_eq!(module.initiate_slashing(&0, 5, 1, 1), Ok(0));
    assert_eq!(module.initiate_slashing(&0, 6, 1, 1), Ok(1));
    assert_eq!(module.initiate_unstaking(&1, Some(1), 1), Ok(None));
    assert_eq!(
        finalize(&mut module),
        vec![
            PoolAction::Unstaked { stake_id: 1, amount: 80 },
            PoolAction::Slashed { stake_id: 0, slash_id: 0, amount: 5, remaining_stake: 45 },
            PoolAction::Slashed { stake_id: 0, slash_id: 1, amount: 6, remaining_stake: 39 },
        ]
    );
    assert!(module.stakes(&1).is_not_staked());
    assert_eq!(amount(&module, 0), 39);
    assert_eq!(finalize(&mut module), vec![]);
}

#[test]
fn requests_can_be_made_while_a_block_is_finalised() {
    let mut module = with_stake(50);
    for _ in 0..3 {
        module.create_stake(1);
    }
    assert_eq!(module.stake(&3, value(80), MINIMUM), Ok(deposit(80)));
    assert_eq!(module.initiate_slashing(&0, 5, 1, 1), Ok(0));
    assert_eq!(module.initiate_unstaking(&3, Some(1), 1), Ok(None));
    let mut finalization = module.begin_finalization();
    assert_eq!(finalization.next_stake_id(), Some(3));
    assert_eq!(
        module.finalize_slashing_and_unstaking(&mut finalization, MINIMUM),
        Some(vec![PoolAction::Unstaked { stake_id: 3, amount: 80 }])
    );
    // told of the unstaking, a handler makes requests
    assert_eq!(module.cancel_slashing(&0, &0), Ok(()));
    assert_eq!(module.initiate_slashing(&0, 7, 2, 1), Ok(1));
    assert_eq!(module.initiate_slashing(&0, 9, 1, 1), Ok(2));
    assert_eq!(module.remove_stake(&1), Ok(()));
    assert_eq!(module.create_stake(1), 4);
    assert_eq!(module.stake(&4, value(60), MINIMUM), Ok(deposit(60)));
    assert_eq!(module.initiate_slashing(&4, 20, 1, 1), Ok(0));
    // the stakes are read when their turn comes: there is nothing to do for 2, and 1 is gone
    assert_eq!(finalization.next_stake_id(), Some(2));
    assert_eq!(
        module.finalize_slashing_and_unstaking(&mut finalization, MINIMUM),
        Some(vec![])
    );
    assert_eq!(
        module.finalize_slashing_and_unstaking(&mut finalization, MINIMUM),
        Some(vec![])
    );
    assert_eq!(finalization.next_stake_id(), Some(0));
    assert_eq!(
        module.finalize_slashing_and_unstaking(&mut finalization, MINIMUM),
        Some(vec![PoolAction::Slashed {
            stake_id: 0,
            slash_id: 2,
            amount: 9,
            remaining_stake: 41
        }])
    );
    assert_eq!(finalization.next_stake_id(), None);
    assert_eq!(module.finalize_slashing_and_unstaking(&mut finalization, MINIMUM), None);
    // the new stake has to wait for the next block
    assert_eq!(amount(&module, 4), 60);
    assert_eq!(
        finalize(&mut module),
        vec![
            PoolAction::Slashed { stake_id: 4, slash_id: 0, amount: 20, remaining_stake: 40 },
            PoolAction::Slashed { stake_id: 0, slash_id: 1, amount: 7, remaining_stake: 34 },
        ]
    );
}

#[test]
fn slash_identifiers_are_given_out_once_while_funds_are_at_stake() {
    let mut module = with_stake(50);
    assert_eq!(module.initiate_slashing(&0, 5, 1, 1), Ok(0));
    assert_eq!(module.initiate_slashing(&0, 6, 3, 1), Ok(1));
    assert_eq!(module.cancel_slashing(&0, &1), Ok(()));
    finalize(&mut module);
    assert_eq!(module.initiate_slashing(&0, 7, 1, 1), Ok(2));
    finalize(&mut module);
    assert_eq!(
        module.initiate_unstaking(&0, None, 1),
        Ok(Some(PoolAction::Unstaked { stake_id: 0, amount: 38 }))
    );
    // a new staking begins anew
    assert_eq!(module.stake(&0, value(20), MINIMUM), Ok(deposit(20)));
    assert_eq!(module.initiate_slashing(&0, 5, 1, 1), Ok(0));
}

#[test]
fn an_active_unstaking_takes_its_time_with_slashes_too() {
    let mut module = with_stake(100);
    assert_eq!(module.initiate_unstaking(&0, Some(3), 1), Ok(None));
    for (slash_amount, period) in [(5, 1), (6, 3), (7, 4), (8, 1)] {
        assert!(module.initiate_slashing(&0, slash_amount, period, 1).is_ok());
    }
    assert_eq!(module.pause_slashing(&0, &3), Ok(()));
    assert_eq!(module.resume_unstaking(&0), Ok(()));
    let slashed = |slash_id, amount, remaining_stake| PoolAction::Slashed {
        stake_id: 0,
        slash_id,
        amount,
        remaining_stake,
    };
    assert_eq!(finalize(&mut module), vec![slashed(0, 5, 95)]);
    assert_eq!(finalize(&mut module), vec![]);
    // a slash whose time has come in the last block is executed, the others end with the staking
    assert_eq!(
        finalize(&mut module),
        vec![slashed(1, 6, 89), PoolAction::Unstaked { stake_id: 0, amount: 89 }]
    );
    assert!(module.stakes(&0).is_not_staked());
    assert_eq!(finalize(&mut module), vec![]);
}

#[test]
fn the_minimum_balance_may_change_between_requests() {
    let mut module = with_stake(50);
    let mut pool = 50;
    let (left, action) = module.decrease_stake(&0, 20, 5).unwrap();
    pool = perform(pool, &action);
    assert_eq!((left, pool, total(&module)), (30, 30, 30));
    assert_eq!(module.initiate_slashing(&0, 11, 1, 1), Ok(0));
    for action in module.finalize_stake(&0, 20).iter() {
        pool = perform(pool, action);
    }
    assert_eq!((pool, total(&module)), (0, 0));
}

#[test]
fn stakes_are_finalised_one_by_one() {
    let mut module = with_stake(50);
    module.create_stake(1);
    assert_eq!(module.stake(&1, value(80), MINIMUM), Ok(deposit(80)));
    assert_eq!(module.initiate_slashing(&0, 45, 1, 1), Ok(0));
    assert_eq!(module.initiate_slashing(&1, 10, 1, 1), Ok(0));
    assert_eq!(module.finalize_stake(&7, MINIMUM), vec![]);
    assert_eq!(
        module.finalize_stake(&0, MINIMUM),
        vec![PoolAction::Slashed { stake_id: 0, slash_id: 0, amount: 50, remaining_stake: 0 }]
    );
    assert_eq!(amount(&module, 1), 80);
    assert_eq!(
        module.finalize_stake(&1, MINIMUM),
        vec![PoolAction::Slashed { stake_id: 1, slash_id: 0, amount: 10, remaining_stake: 70 }]
    );
}

#[test]
fn handlers_are_told_of_slashes_and_unstakings() {
    let unstaked = PoolAction::Unstaked { stake_id: 0, amount: 60 };
    // the first one keeps 30, the second one 10 of the rest
    assert_eq!(Module::<Test>::notify(&unstaked, value(60)), value(20));
    let slashed =
        |slash_id| PoolAction::Slashed { stake_id: 0, slash_id, amount: 60, remaining_stake: 5 };
    assert_eq!(Module::<Test>::notify(&slashed(1), value(60)), value(40));
    assert_eq!(Module::<Test>::notify(&slashed(2), value(60)), value(0));
    // of anything else nobody is told
    assert_eq!(
        Module::<Test>::notify(&PoolAction::Withdraw { amount: 60 }, value(60)),
        value(60)
    );
}

#[test]
fn the_default_handler_destroys_everything() {
    assert_eq!(
        <() as StakingEventsHandler<u64, u64, u64>>::unstaked(&0, 60, value(60)),
        value(0)
    );
    assert_eq!(
        <() as StakingEventsHandler<u64, u64, u64>>::slashed(&0, &0, 60, 1, value(60)),
        value(0)
    );
    assert_eq!(NegativeImbalance::<u64>::zero().peek(), 0);
}

#[test]
fn handlers_can_be_grouped_either_way() {
    type Left = ((Half, Third), Half);
    type Right = (Half, (Third, Half));
    for amount in [0u64, 1, 7, 60, 1000] {
        assert_eq!(
            <Left as StakingEventsHandler<u64, u64, u64>>::unstaked(&0, amount, value(amount)),
            <Right as StakingEventsHandler<u64, u64, u64>>::unstaked(&0, amount, value(amount))
        );
        assert_eq!(
            <Left as StakingEventsHandler<u64, u64, u64>>::slashed(&0, &1, amount, 0, value(60)),
            <Right as StakingEventsHandler<u64, u64, u64>>::slashed(&0, &1, amount, 0, value(60))
        );
    }
}

#[test]
fn the_pool_stays_in_sync_with_the_stakes() {
    let mut module = Module::<Test>::new();
    let mut pool = 0;
    for i in 0..3 {
        module.create_stake(1);
        pool = perform(pool, &module.stake(&i, value(40 + 20 * i), MINIMUM).unwrap());
    }
    assert_eq!((pool, total(&module)), (180, 180));
    pool = perform(pool, &module.increase_stake(&0, value(3)).unwrap().1);
    pool = perform(pool, &module.decrease_stake(&1, 55, MINIMUM).unwrap().1);
    assert_eq!((pool, total(&module)), (123, 123));
    assert_eq!(module.initiate_slashing(&0, 30, 2, 1), Ok(0));
    assert_eq!(module.initiate_slashing(&0, 30, 2, 1), Ok(1));
    assert_eq!(module.initiate_slashing(&2, 1, 1, 1), Ok(0));
    assert_eq!(module.initiate_unstaking(&1, Some(2), 1), Ok(None));
    for _ in 0..3 {
        for action in finalize(&mut module).iter() {
            pool = perform(pool, action);
        }
        assert_eq!(pool, total(&module));
    }
    assert_eq!(pool, 79);
    let action = module.initiate_unstaking(&2, None, 4).unwrap().unwrap();
    pool = perform(pool, &action);
    assert_eq!((pool, total(&module)), (0, 0));
}

#[test]
fn an_emptied_stake_can_be_increased_by_less_than_the_minimum() {
    let mut module = with_stake(50);
    assert_eq!(
        module.decrease_stake(&0, 50, MINIMUM),
        Ok((0, PoolAction::Withdraw { amount: 50 }))
    );
    assert_eq!(module.increase_stake(&0, value(1)), Ok((1, deposit(1))));
    assert_eq!(amount(&module, 0), 1);
}

#[test]
fn a_request_touches_one_stake() {
    let mut module = with_stake(50);
    module.create_stake(1);
    assert_eq!(module.stake(&1, value(80), MINIMUM), Ok(deposit(80)));
    let other = module.stakes(&1);
    assert_eq!(module.initiate_slashing(&0, 5, 1, 1), Ok(0));
    module.finalize_stake(&0, MINIMUM);
    assert_eq!(module.initiate_unstaking(&0, Some(4), 1), Ok(None));
    assert_eq!(module.stakes(&1), other);
}

#[test]
fn a_stake_that_does_not_advance_stays_as_it_is() {
    let mut module = with_stake(50);
    assert_eq!(module.initiate_unstaking(&0, Some(4), 1), Ok(None));
    assert_eq!(module.initiate_slashing(&0, 5, 1, 1), Ok(0));
    assert_eq!(module.pause_slashing(&0, &0), Ok(()));
    let before = module.stakes(&0);
    assert_eq!(finalize(&mut module), vec![]);
    assert_eq!(module.stakes(&0), before);
}

#[test]
fn paying_from_an_account_makes_the_same_stake() {
    let mut module = Module::<Test>::new();
    module.create_stake(1);
    module.create_stake(1);
    assert_eq!(module.stake(&0, value(50), MINIMUM), Ok(deposit(50)));
    let transfer = pending(module.stake_from_account(&1, "alice", 50, MINIMUM));
    assert_eq!(module.finish_stake_from_account(transfer, Some(value(50))), Ok(deposit(50)));
    assert_eq!(module.stakes(&0), module.stakes(&1));
    assert_eq!(module.increase_stake(&0, value(5)), Ok((55, deposit(5))));
    let transfer = pending(module.increase_stake_from_account(&1, "alice", 5));
    assert_eq!(
        module.finish_increase_stake_from_account(transfer, Some(value(5))),
        Ok((55, deposit(5)))
    );
    assert_eq!(module.stakes(&0), module.stakes(&1));
}
