use subspace_consensus::balances::Balances;
use subspace_consensus::staking::{
    Error as StakingError, Nominator, OperatorConfig, OperatorPool, StakingLedger, StakingSummary,
    Withdraw,
};

/// One whole unit of the native token.
const SSC: u128 = 1_000_000_000_000_000_000;
const MIN_OPERATOR_STAKE: u128 = 100 * SSC;
const MAX_FREEZES: u64 = 16;

fn empty_summary() -> StakingSummary {
    StakingSummary {
        current_epoch_index: 0,
        current_total_stake: 0,
        current_operators: vec![],
        next_operators: vec![],
    }
}

#[test]
fn register_operator() {
    let domain_id = 0u64;
    let operator_account = 1u64;
    let operator_free_balance = 1500 * SSC;
    let operator_stake = 1000 * SSC;
    let signing_key = [7u8; 32];

    let mut ledger = StakingLedger::new(MIN_OPERATOR_STAKE);
    let mut balances = Balances::new(MAX_FREEZES);
    balances.set_balance(operator_account, operator_free_balance);
    assert!(balances.reducible_balance(operator_account) == operator_free_balance);

    ledger.insert_staking_summary(domain_id, empty_summary());

    let operator_config = OperatorConfig {
        signing_key,
        minimum_nominator_stake: 0,
        nomination_tax: 0,
    };

    let res = ledger.register_operator(
        &mut balances,
        operator_account,
        domain_id,
        operator_stake,
        operator_config,
    );
    assert_eq!(res, Ok(0));

    assert_eq!(ledger.next_operator_id(), 1);
    // operator_id should be 0 and be registered
    assert_eq!(ledger.operator_id_owner(0).unwrap(), operator_account);
    assert_eq!(
        ledger.operator_pool(0).unwrap(),
        OperatorPool {
            signing_key,
            current_domain_id: domain_id,
            next_domain_id: domain_id,
            minimum_nominator_stake: 0,
            nomination_tax: 0,
            current_total_stake: 0,
            current_epoch_rewards: 0,
            total_shares: 0,
            is_frozen: false,
        }
    );
    let pending_deposit = ledger.pending_deposit(0, operator_account).unwrap();
    assert_eq!(pending_deposit, operator_stake);

    assert_eq!(
        balances.reducible_balance(operator_account),
        operator_free_balance - operator_stake
    );

    // cannot use the locked funds to register a new operator
    let res = ledger.register_operator(
        &mut balances,
        operator_account,
        domain_id,
        operator_stake,
        operator_config,
    );
    assert_eq!(res, Err(StakingError::InsufficientBalance));
}

#[test]
fn nominate_operator() {
    let domain_id = 0u64;
    let operator_account = 1u64;
    let operator_free_balance = 1500 * SSC;
    let operator_stake = 1000 * SSC;
    let signing_key = [7u8; 32];

    let nominator_account = 2u64;
    let nominator_free_balance = 150 * SSC;
    let nominator_stake = 100 * SSC;

    let mut ledger = StakingLedger::new(MIN_OPERATOR_STAKE);
    let mut balances = Balances::new(MAX_FREEZES);
    balances.set_balance(operator_account, operator_free_balance);
    balances.set_balance(nominator_account, nominator_free_balance);
    assert!(balances.reducible_balance(nominator_account) == nominator_free_balance);

    ledger.insert_staking_summary(domain_id, empty_summary());

    let operator_config = OperatorConfig {
        signing_key,
        minimum_nominator_stake: 100 * SSC,
        nomination_tax: 0,
    };

    let res = ledger.register_operator(
        &mut balances,
        operator_account,
        domain_id,
        operator_stake,
        operator_config,
    );
    assert!(res.is_ok());

    let operator_id = 0u64;
    let res = ledger.nominate_operator(&mut balances, operator_id, nominator_account, nominator_stake);
    assert!(res.is_ok());

    let pending_deposit = ledger.pending_deposit(0, operator_account).unwrap();
    assert_eq!(pending_deposit, operator_stake);
    let pending_deposit = ledger.pending_deposit(0, nominator_account).unwrap();
    assert_eq!(pending_deposit, nominator_stake);

    assert_eq!(
        balances.reducible_balance(nominator_account),
        nominator_free_balance - nominator_stake
    );

    // another transfer with an existing transfer in place should lead to single
    let res = ledger.nominate_operator(&mut balances, operator_id, nominator_account, 40 * SSC);
    assert!(res.is_ok());
    let pending_deposit = ledger.pending_deposit(0, nominator_account).unwrap();
    assert_eq!(pending_deposit, nominator_stake + 40 * SSC);
}

#[test]
fn switch_domain_operator() {
    let old_domain_id = 0u64;
    let new_domain_id = 1u64;
    let operator_account = 1u64;
    let operator_id = 1u64;
    let signing_key = [7u8; 32];

    let mut ledger = StakingLedger::new(MIN_OPERATOR_STAKE);

    ledger.insert_staking_summary(
        old_domain_id,
        StakingSummary {
            current_epoch_index: 0,
            current_total_stake: 0,
            current_operators: vec![operator_id],
            next_operators: vec![operator_id],
        },
    );
    ledger.insert_staking_summary(new_domain_id, empty_summary());

    ledger.insert_operator_id_owner(operator_id, operator_account);
    ledger.insert_operator_pool(
        operator_id,
        OperatorPool {
            signing_key,
            current_domain_id: old_domain_id,
            next_domain_id: old_domain_id,
            minimum_nominator_stake: 100 * SSC,
            nomination_tax: 0,
            current_total_stake: 0,
            current_epoch_rewards: 0,
            total_shares: 0,
            is_frozen: false,
        },
    );

    let res = ledger.switch_operator_domain(operator_account, operator_id, new_domain_id);
    assert_eq!(res, Ok(old_domain_id));

    let old_domain_stake_summary = ledger.staking_summary(old_domain_id).unwrap();
    assert!(!old_domain_stake_summary.next_operators.contains(&operator_id));

    let new_domain_stake_summary = ledger.staking_summary(new_domain_id).unwrap();
    assert!(!new_domain_stake_summary.next_operators.contains(&operator_id));

    let operator_pool = ledger.operator_pool(operator_id).unwrap();
    assert_eq!(operator_pool.current_domain_id, old_domain_id);
    assert_eq!(operator_pool.next_domain_id, new_domain_id);
    assert_eq!(ledger.pending_switches(old_domain_id).unwrap(), &vec![operator_id]);
}

#[test]
fn operator_deregistration() {
    let domain_id = 0u64;
    let operator_account = 1u64;
    let operator_id = 1u64;
    let signing_key = [7u8; 32];

    let mut ledger = StakingLedger::new(MIN_OPERATOR_STAKE);
    let mut balances = Balances::new(MAX_FREEZES);

    ledger.insert_staking_summary(
        domain_id,
        StakingSummary {
            current_epoch_index: 0,
            current_total_stake: 0,
            current_operators: vec![operator_id],
            next_operators: vec![operator_id],
        },
    );

    ledger.insert_operator_id_owner(operator_id, operator_account);
    ledger.insert_operator_pool(
        operator_id,
        OperatorPool {
            signing_key,
            current_domain_id: domain_id,
            next_domain_id: domain_id,
            minimum_nominator_stake: 100 * SSC,
            nomination_tax: 0,
            current_total_stake: 0,
            current_epoch_rewards: 0,
            total_shares: 0,
            is_frozen: false,
        },
    );

    let res = ledger.deregister_operator(operator_account, operator_id);
    assert!(res.is_ok());

    let domain_stake_summary = ledger.staking_summary(domain_id).unwrap();
    assert!(!domain_stake_summary.next_operators.contains(&operator_id));

    let operator_pool = ledger.operator_pool(operator_id).unwrap();
    assert!(operator_pool.is_frozen);

    assert!(ledger.pending_deregistrations().contains(&operator_id));

    // domain switch will not work since the operator pool is frozen
    let new_domain_id = 1u64;
    ledger.insert_staking_summary(new_domain_id, empty_summary());
    let res = ledger.switch_operator_domain(operator_account, operator_id, new_domain_id);
    assert_eq!(res, Err(StakingError::OperatorPoolFrozen));

    // nominations will not work since the pool is frozen
    let nominator_account = 100u64;
    let nominator_stake = 100 * SSC;
    balances.set_balance(nominator_account, nominator_stake);
    let res = ledger.nominate_operator(&mut balances, operator_id, nominator_account, nominator_stake);
    assert_eq!(res, Err(StakingError::OperatorPoolFrozen));
}

type WithdrawWithResult = Vec<(Withdraw, Result<(), StakingError>)>;

struct WithdrawParams {
    minimum_nominator_stake: u128,
    total_stake: u128,
    nominators: Vec<(u64, u128)>,
    operator_reward: u128,
    nominator_id: u64,
    withdraws: WithdrawWithResult,
    expected_withdraw: Option<Withdraw>,
}

fn withdraw_stake(params: WithdrawParams) {
    let WithdrawParams {
        minimum_nominator_stake,
        total_stake,
        nominators,
        operator_reward,
        nominator_id,
        withdraws,
        expected_withdraw,
    } = params;
    let domain_id = 0u64;
    let operator_account = 0u64;
    let operator_id = 0u64;
    let signing_key = [7u8; 32];

    let mut ledger = StakingLedger::new(MIN_OPERATOR_STAKE);

    ledger.insert_staking_summary(
        domain_id,
        StakingSummary {
            current_epoch_index: 0,
            current_total_stake: total_stake,
            current_operators: vec![operator_id],
            next_operators: vec![operator_id],
        },
    );

    ledger.insert_operator_id_owner(operator_id, operator_account);

    let mut total_shares: u128 = 0;
    for (nominator_id, shares) in nominators {
        ledger.insert_nominator(operator_id, nominator_id, Nominator { shares });
        total_shares += shares;
    }

    ledger.insert_operator_pool(
        operator_id,
        OperatorPool {
            signing_key,
            current_domain_id: domain_id,
            next_domain_id: domain_id,
            minimum_nominator_stake,
            nomination_tax: 0,
            current_total_stake: total_stake,
            current_epoch_rewards: operator_reward,
            total_shares,
            is_frozen: false,
        },
    );

    for (withdraw, expected_result) in withdraws {
        let res = ledger.withdraw_stake(operator_id, nominator_id, withdraw);
        assert_eq!(res, expected_result);
    }

    assert_eq!(ledger.pending_withdrawal(operator_id, nominator_id), expected_withdraw);
}

#[test]
fn withdraw_stake_operator_all() {
    withdraw_stake(WithdrawParams {
        minimum_nominator_stake: 10 * SSC,
        total_stake: 210 * SSC,
        nominators: vec![(0, 150 * SSC), (1, 50 * SSC), (2, 10 * SSC)],
        operator_reward: 20 * SSC,
        nominator_id: 0,
        withdraws: vec![(Withdraw::All, Err(StakingError::MinimumOperatorStake))],
        expected_withdraw: None,
    })
}

#[test]
fn withdraw_stake_operator_below_minimum() {
    withdraw_stake(WithdrawParams {
        minimum_nominator_stake: 10 * SSC,
        total_stake: 210 * SSC,
        nominators: vec![(0, 150 * SSC), (1, 50 * SSC), (2, 10 * SSC)],
        operator_reward: 20 * SSC,
        nominator_id: 0,
        withdraws: vec![(
            Withdraw::Partial(65 * SSC),
            Err(StakingError::MinimumOperatorStake),
        )],
        expected_withdraw: None,
    })
}

#[test]
fn withdraw_stake_operator_below_minimum_no_rewards() {
    withdraw_stake(WithdrawParams {
        minimum_nominator_stake: 10 * SSC,
        total_stake: 210 * SSC,
        nominators: vec![(0, 150 * SSC), (1, 50 * SSC), (2, 10 * SSC)],
        operator_reward: 0,
        nominator_id: 0,
        withdraws: vec![(
            Withdraw::Partial(51 * SSC),
            Err(StakingError::MinimumOperatorStake),
        )],
        expected_withdraw: None,
    })
}

#[test]
fn withdraw_stake_operator_above_minimum() {
    withdraw_stake(WithdrawParams {
        minimum_nominator_stake: 10 * SSC,
        total_stake: 210 * SSC,
        nominators: vec![(0, 150 * SSC), (1, 50 * SSC), (2, 10 * SSC)],
        operator_reward: 20 * SSC,
        nominator_id: 0,
        withdraws: vec![(Withdraw::Partial(64 * SSC), Ok(()))],
        expected_withdraw: Some(Withdraw::Partial(64 * SSC)),
    })
}

#[test]
fn withdraw_stake_operator_above_minimum_multiple_withdraws_error() {
    withdraw_stake(WithdrawParams {
        minimum_nominator_stake: 10 * SSC,
        total_stake: 210 * SSC,
        nominators: vec![(0, 150 * SSC), (1, 50 * SSC), (2, 10 * SSC)],
        operator_reward: 20 * SSC,
        nominator_id: 0,
        withdraws: vec![
            (Withdraw::Partial(60 * SSC), Ok(())),
            (
                Withdraw::Partial(5 * SSC),
                Err(StakingError::MinimumOperatorStake),
            ),
        ],
        expected_withdraw: Some(Withdraw::Partial(60 * SSC)),
    })
}

#[test]
fn withdraw_stake_operator_above_minimum_multiple_withdraws() {
    withdraw_stake(WithdrawParams {
        minimum_nominator_stake: 10 * SSC,
        total_stake: 210 * SSC,
        nominators: vec![(0, 150 * SSC), (1, 50 * SSC), (2, 10 * SSC)],
        operator_reward: 20 * SSC,
        nominator_id: 0,
        withdraws: vec![
            (Withdraw::Partial(60 * SSC), Ok(())),
            (Withdraw::Partial(4 * SSC), Ok(())),
        ],
        expected_withdraw: Some(Withdraw::Partial(64 * SSC)),
    })
}

#[test]
fn withdraw_stake_operator_above_minimum_no_rewards() {
    withdraw_stake(WithdrawParams {
        minimum_nominator_stake: 10 * SSC,
        total_stake: 210 * SSC,
        nominators: vec![(0, 150 * SSC), (1, 50 * SSC), (2, 10 * SSC)],
        operator_reward: 0,
        nominator_id: 0,
        withdraws: vec![(Withdraw::Partial(49 * SSC), Ok(()))],
        expected_withdraw: Some(Withdraw::Partial(49 * SSC)),
    })
}

#[test]
fn withdraw_stake_nominator_below_minimum() {
    withdraw_stake(WithdrawParams {
        minimum_nominator_stake: 10 * SSC,
        total_stake: 210 * SSC,
        nominators: vec![(0, 150 * SSC), (1, 50 * SSC), (2, 10 * SSC)],
        operator_reward: 20 * SSC,
        nominator_id: 1,
        withdraws: vec![(Withdraw::Partial(45 * SSC), Ok(()))],
        expected_withdraw: Some(Withdraw::All),
    })
}

#[test]
fn withdraw_stake_nominator_below_minimum_no_reward() {
    withdraw_stake(WithdrawParams {
        minimum_nominator_stake: 10 * SSC,
        total_stake: 210 * SSC,
        nominators: vec![(0, 150 * SSC), (1, 50 * SSC), (2, 10 * SSC)],
        operator_reward: 0,
        nominator_id: 1,
        withdraws: vec![(Withdraw::Partial(45 * SSC), Ok(()))],
        expected_withdraw: Some(Withdraw::All),
    })
}

#[test]
fn withdraw_stake_nominator_above_minimum() {
    withdraw_stake(WithdrawParams {
        minimum_nominator_stake: 10 * SSC,
        total_stake: 210 * SSC,
        nominators: vec![(0, 150 * SSC), (1, 50 * SSC), (2, 10 * SSC)],
        operator_reward: 20 * SSC,
        nominator_id: 1,
        withdraws: vec![(Withdraw::Partial(44 * SSC), Ok(()))],
        expected_withdraw: Some(Withdraw::Partial(44 * SSC)),
    })
}

#[test]
fn withdraw_stake_nominator_above_minimum_multiple_withdraw_all() {
    withdraw_stake(WithdrawParams {
        minimum_nominator_stake: 10 * SSC,
        total_stake: 210 * SSC,
        nominators: vec![(0, 150 * SSC), (1, 50 * SSC), (2, 10 * SSC)],
        operator_reward: 20 * SSC,
        nominator_id: 1,
        withdraws: vec![
            (Withdraw::Partial(40 * SSC), Ok(())),
            (Withdraw::Partial(5 * SSC), Ok(())),
        ],
        expected_withdraw: Some(Withdraw::All),
    })
}

#[test]
fn withdraw_stake_nominator_withdraw_all() {
    withdraw_stake(WithdrawParams {
        minimum_nominator_stake: 10 * SSC,
        total_stake: 210 * SSC,
        nominators: vec![(0, 150 * SSC), (1, 50 * SSC), (2, 10 * SSC)],
        operator_reward: 20 * SSC,
        nominator_id: 1,
        withdraws: vec![(Withdraw::All, Ok(()))],
        expected_withdraw: Some(Withdraw::All),
    })
}

#[test]
fn withdraw_stake_nominator_withdraw_all_multiple_withdraws_error() {
    withdraw_stake(WithdrawParams {
        minimum_nominator_stake: 10 * SSC,
        total_stake: 210 * SSC,
        nominators: vec![(0, 150 * SSC), (1, 50 * SSC), (2, 10 * SSC)],
        operator_reward: 20 * SSC,
        nominator_id: 1,
        withdraws: vec![
            (Withdraw::All, Ok(())),
            (
                Withdraw::Partial(10 * SSC),
                Err(StakingError::ExistingFullWithdraw),
            ),
        ],
        expected_withdraw: Some(Withdraw::All),
    })
}

#[test]
fn withdraw_stake_nominator_above_minimum_no_rewards() {
    withdraw_stake(WithdrawParams {
        minimum_nominator_stake: 10 * SSC,
        total_stake: 210 * SSC,
        nominators: vec![(0, 150 * SSC), (1, 50 * SSC), (2, 10 * SSC)],
        operator_reward: 0,
        nominator_id: 1,
        withdraws: vec![(Withdraw::Partial(39 * SSC), Ok(()))],
        expected_withdraw: Some(Withdraw::Partial(39 * SSC)),
    })
}

#[test]
fn withdraw_stake_unknown_entities() {
    withdraw_stake(WithdrawParams {
        minimum_nominator_stake: 10 * SSC,
        total_stake: 210 * SSC,
        nominators: vec![(0, 150 * SSC), (1, 50 * SSC), (2, 10 * SSC)],
        operator_reward: 20 * SSC,
        nominator_id: 7,
        withdraws: vec![(Withdraw::Partial(1 * SSC), Err(StakingError::UnknownNominator))],
        expected_withdraw: None,
    });
    let mut ledger = StakingLedger::new(MIN_OPERATOR_STAKE);
    let res = ledger.withdraw_stake(9, 0, Withdraw::All);
    assert_eq!(res, Err(StakingError::UnknownOperator));
}

#[test]
fn withdraw_stake_underflow() {
    // asking for more than the nominator's stake is worth
    withdraw_stake(WithdrawParams {
        minimum_nominator_stake: 10 * SSC,
        total_stake: 210 * SSC,
        nominators: vec![(0, 150 * SSC), (1, 50 * SSC), (2, 10 * SSC)],
        operator_reward: 20 * SSC,
        nominator_id: 1,
        withdraws: vec![(
            Withdraw::Partial(200 * SSC),
            Err(StakingError::BalanceUnderflow),
        )],
        expected_withdraw: None,
    })
}

#[test]
fn register_operator_needs_initialized_domain() {
    let mut ledger = StakingLedger::new(MIN_OPERATOR_STAKE);
    let mut balances = Balances::new(MAX_FREEZES);
    balances.set_balance(1, 1500 * SSC);
    let config = OperatorConfig {
        signing_key: [7u8; 32],
        minimum_nominator_stake: 0,
        nomination_tax: 0,
    };
    let res = ledger.register_operator(&mut balances, 1, 0, 1000 * SSC, config);
    assert_eq!(res, Err(StakingError::DomainNotInitialized));
}

#[test]
fn register_operator_below_minimum_stake() {
    let mut ledger = StakingLedger::new(MIN_OPERATOR_STAKE);
    let mut balances = Balances::new(MAX_FREEZES);
    balances.set_balance(1, 1500 * SSC);
    ledger.insert_staking_summary(0, empty_summary());
    let config = OperatorConfig {
        signing_key: [7u8; 32],
        minimum_nominator_stake: 0,
        nomination_tax: 0,
    };
    let res = ledger.register_operator(&mut balances, 1, 0, 99 * SSC, config);
    assert_eq!(res, Err(StakingError::MinimumOperatorStake));
}

#[test]
fn register_operator_exhausted_identifiers() {
    let mut ledger = StakingLedger::new(MIN_OPERATOR_STAKE);
    ledger.insert_staking_summary(0, empty_summary());
    ledger.set_next_operator_id(u64::MAX);
    let mut balances = Balances::new(MAX_FREEZES);
    balances.set_balance(1, 1500 * SSC);
    let config = OperatorConfig {
        signing_key: [7u8; 32],
        minimum_nominator_stake: 0,
        nomination_tax: 0,
    };
    let res = ledger.register_operator(&mut balances, 1, 0, 1000 * SSC, config);
    assert_eq!(res, Err(StakingError::MaximumOperatorId));
}

#[test]
fn register_operator_without_freeze_slot() {
    let mut ledger = StakingLedger::new(MIN_OPERATOR_STAKE);
    ledger.insert_staking_summary(0, empty_summary());
    let mut balances = Balances::new(0);
    balances.set_balance(1, 1500 * SSC);
    let config = OperatorConfig {
        signing_key: [7u8; 32],
        minimum_nominator_stake: 0,
        nomination_tax: 0,
    };
    let res = ledger.register_operator(&mut balances, 1, 0, 1000 * SSC, config);
    assert_eq!(res, Err(StakingError::BalanceFreeze));
}

#[test]
fn nominate_operator_below_minimum_nominator_stake() {
    let mut ledger = StakingLedger::new(MIN_OPERATOR_STAKE);
    let mut balances = Balances::new(MAX_FREEZES);
    balances.set_balance(1, 1500 * SSC);
    balances.set_balance(2, 150 * SSC);
    ledger.insert_staking_summary(0, empty_summary());
    let config = OperatorConfig {
        signing_key: [7u8; 32],
        minimum_nominator_stake: 100 * SSC,
        nomination_tax: 0,
    };
    let res = ledger.register_operator(&mut balances, 1, 0, 1000 * SSC, config);
    assert!(res.is_ok());
    let res = ledger.nominate_operator(&mut balances, 0, 2, 99 * SSC);
    assert_eq!(res, Err(StakingError::MinimumNominatorStake));
    let res = ledger.nominate_operator(&mut balances, 7, 2, 100 * SSC);
    assert_eq!(res, Err(StakingError::UnknownOperator));
}

#[test]
fn nominate_operator_deposit_overflow() {
    let mut ledger = StakingLedger::new(MIN_OPERATOR_STAKE);
    let mut balances = Balances::new(MAX_FREEZES);
    balances.set_balance(1, u128::MAX);
    ledger.insert_staking_summary(0, empty_summary());
    let config = OperatorConfig {
        signing_key: [7u8; 32],
        minimum_nominator_stake: 0,
        nomination_tax: 0,
    };
    let res = ledger.register_operator(&mut balances, 1, 0, u128::MAX - 1, config);
    assert_eq!(res, Ok(0));
    // the owner's pending deposit would exceed the balance type
    let res = ledger.nominate_operator(&mut balances, 0, 1, 2);
    assert_eq!(res, Err(StakingError::BalanceOverflow));
}

#[test]
fn switch_domain_checks_owner_and_domain() {
    let mut ledger = StakingLedger::new(MIN_OPERATOR_STAKE);
    ledger.insert_staking_summary(0, empty_summary());
    ledger.insert_operator_id_owner(1, 1);
    ledger.insert_operator_pool(
        1,
        OperatorPool {
            signing_key: [7u8; 32],
            current_domain_id: 0,
            next_domain_id: 0,
            minimum_nominator_stake: 0,
            nomination_tax: 0,
            current_total_stake: 0,
            current_epoch_rewards: 0,
            total_shares: 0,
            is_frozen: false,
        },
    );
    // a stranger may not switch someone else's pool
    assert_eq!(
        ledger.switch_operator_domain(2, 1, 0),
        Err(StakingError::NotOperatorOwner)
    );
    // the target domain must exist
    assert_eq!(
        ledger.switch_operator_domain(1, 1, 3),
        Err(StakingError::DomainNotInitialized)
    );
    // deregistration owner check
    assert_eq!(
        ledger.deregister_operator(2, 1),
        Err(StakingError::NotOperatorOwner)
    );
}

/// Registration allocates identifiers densely and never reuses one, and a
/// deregistered pool stays in the ledger frozen.
#[test]
fn operator_ids_are_dense_and_never_reused() {
    let mut ledger = StakingLedger::new(MIN_OPERATOR_STAKE);
    let mut balances = Balances::new(MAX_FREEZES);
    ledger.insert_staking_summary(0, empty_summary());
    balances.set_balance(1, 1500 * SSC);
    balances.set_balance(2, 1500 * SSC);
    let config = OperatorConfig {
        signing_key: [7u8; 32],
        minimum_nominator_stake: 0,
        nomination_tax: 0,
    };
    assert_eq!(
        ledger.register_operator(&mut balances, 1, 0, 500 * SSC, config),
        Ok(0)
    );
    assert_eq!(
        ledger.register_operator(&mut balances, 2, 0, 500 * SSC, config),
        Ok(1)
    );
    assert_eq!(ledger.next_operator_id(), 2);
    assert!(ledger.deregister_operator(1, 0).is_ok());
    // the pool is still present, frozen, and the counter did not move back
    assert!(ledger.operator_pool(0).unwrap().is_frozen);
    assert_eq!(ledger.operator_id_owner(0).unwrap(), 1);
    assert_eq!(ledger.next_operator_id(), 2);
    // a frozen pool rejects any further withdrawal intent
    ledger.insert_nominator(0, 1, Nominator { shares: 10 });
    assert_eq!(
        ledger.withdraw_stake(0, 1, Withdraw::All),
        Err(StakingError::OperatorPoolFrozen)
    );
}
