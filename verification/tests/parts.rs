use collective_commitment_protocol::{
    add_to_pool, calculate_penalty, count_claimable_members, get_creator_vaults,
    get_group_vault_unchecked, get_member_record, get_member_vaults, get_pool,
    is_supported_token, maybe_transition_to_settlement_ready, next_vault_id, save_creator_vaults,
    save_member_record, save_member_vaults, set_pool, Address, CcpContract, CcpError, DataKey,
    HostEnv, LockType, MemberRecord, MemberState, Storage, VaultState,
};
use collective_commitment_protocol::storage::LEDGER_BUMP_AMOUNT;

fn member(i: u64) -> Address {
    Address { id: 10 + i }
}

fn members(n: u64) -> Vec<Address> {
    (0..n).map(member).collect()
}

fn env_with_vault(amounts: Vec<i128>, lock: LockType, rate: u32) -> (HostEnv, u64) {
    let mut env = HostEnv::new(100);
    CcpContract::initialize(&mut env, Address { id: 1 }, Address { id: 2 }, Address { id: 3 }).unwrap();
    let n = amounts.len() as u64;
    let id = CcpContract::create_group_vault(
        &mut env,
        Address { id: 50 },
        Address { id: 1 },
        members(n),
        amounts,
        1_000,
        500,
        lock,
        rate,
    )
    .unwrap();
    (env, id)
}

#[test]
fn penalty_readme_example() {
    // amount 1000 at 500 bps: penalty 50, payout 950.
    assert_eq!(calculate_penalty(1000, 500), (950, 50));
}

#[test]
fn penalty_rounds_toward_zero_and_sums_to_amount() {
    assert_eq!(calculate_penalty(999, 1), (999, 0));
    assert_eq!(calculate_penalty(19_999, 5_000), (10_000, 9_999));
    assert_eq!(calculate_penalty(1234, 10_000), (0, 1234));
    assert_eq!(calculate_penalty(0, 700), (0, 0));
    assert_eq!(calculate_penalty(-1000, 3333), (-667, -333));
    for (amount, rate) in [(7i128, 9u32), (123_456_789, 4321), (10_000, 1)] {
        let (payout, penalty) = calculate_penalty(amount, rate);
        assert_eq!(payout + penalty, amount);
    }
}

#[test]
fn error_codes() {
    assert_eq!(CcpError::AlreadyInitialized.code(), 1);
    assert_eq!(CcpError::NotInitialized.code(), 2);
    assert_eq!(CcpError::InvalidMemberCount.code(), 10);
    assert_eq!(CcpError::MemberAmountMismatch.code(), 11);
    assert_eq!(CcpError::InvalidObligationAmount.code(), 12);
    assert_eq!(CcpError::UnsupportedToken.code(), 13);
    assert_eq!(CcpError::InvalidUnlockTime.code(), 14);
    assert_eq!(CcpError::InvalidFundingDeadline.code(), 15);
    assert_eq!(CcpError::InvalidPenaltyRate.code(), 16);
    assert_eq!(CcpError::VaultNotFound.code(), 20);
    assert_eq!(CcpError::NotMember.code(), 21);
    assert_eq!(CcpError::WrongVaultState.code(), 22);
    assert_eq!(CcpError::WrongMemberState.code(), 23);
    assert_eq!(CcpError::FundingDeadlinePassed.code(), 24);
    assert_eq!(CcpError::FundingDeadlineNotPassed.code(), 25);
    assert_eq!(CcpError::EarlyExitNotAllowed.code(), 26);
    assert_eq!(CcpError::Unauthorized.code(), 30);
    assert_eq!(CcpError::TransferFailed.code(), 40);
}

#[test]
fn storage_counter_and_keys() {
    let mut st = Storage::new();
    assert!(!st.has(&DataKey::VaultCounter));
    assert_eq!(next_vault_id(&mut st), 0);
    assert_eq!(next_vault_id(&mut st), 1);
    assert!(st.has(&DataKey::VaultCounter));
    assert!(!st.has(&DataKey::SupportedTokens));
    assert!(!is_supported_token(&st, &Address { id: 1 }));
    assert_eq!(st.supported_tokens(), None);
    st.set_supported_tokens(vec![Address { id: 1 }, Address { id: 5 }]);
    assert!(st.has(&DataKey::SupportedTokens));
    assert_eq!(st.supported_tokens(), Some(vec![Address { id: 1 }, Address { id: 5 }]));
    assert!(is_supported_token(&st, &Address { id: 5 }));
    assert!(!is_supported_token(&st, &Address { id: 2 }));
    st.set_vault_counter(7);
    assert_eq!(next_vault_id(&mut st), 7);
}

#[test]
fn storage_reads_what_was_written() {
    let mut st = Storage::new();
    let a = Address { id: 4 };
    assert_eq!(get_member_record(&st, 3, &a), None);
    let rec = MemberRecord { state: MemberState::Deposited, amount: 77 };
    save_member_record(&mut st, 3, &a, &rec);
    assert_eq!(get_member_record(&st, 3, &a), Some(rec));
    assert_eq!(get_member_record(&st, 4, &a), None);
    assert!(st.has(&DataKey::MemberRecord(3, a)));
    let rec2 = MemberRecord { state: MemberState::Exited, amount: 5 };
    save_member_record(&mut st, 3, &a, &rec2);
    assert_eq!(get_member_record(&st, 3, &a), Some(rec2));

    assert_eq!(get_pool(&st, 9), 0);
    add_to_pool(&mut st, 9, 40);
    add_to_pool(&mut st, 9, 2);
    assert_eq!(get_pool(&st, 9), 42);
    assert!(st.has(&DataKey::CommunityPool(9)));
    set_pool(&mut st, 9, 5);
    assert_eq!(get_pool(&st, 9), 5);

    assert!(get_creator_vaults(&st, &a).is_empty());
    save_creator_vaults(&mut st, &a, &vec![3, 8]);
    assert_eq!(get_creator_vaults(&st, &a), vec![3, 8]);
    save_member_vaults(&mut st, &a, &vec![1]);
    assert_eq!(get_member_vaults(&st, &a), vec![1]);
    assert!(get_member_vaults(&st, &Address { id: 5 }).is_empty());
    assert!(get_group_vault_unchecked(&st, 3).is_none());
}

#[test]
fn counting_claimers_and_settling() {
    let (mut env, id) = env_with_vault(vec![100; 5], LockType::Penalty, 1_000);
    for i in 0..5 {
        CcpContract::deposit(&mut env, member(i), id).unwrap();
    }
    env.timestamp = 900;
    CcpContract::withdraw(&mut env, member(3), id).unwrap();
    let mut vault = get_group_vault_unchecked(&env.storage, id).unwrap();
    assert_eq!(count_claimable_members(&env.storage, id, &vault), 4);
    // Not yet at the unlock time: nothing changes.
    maybe_transition_to_settlement_ready(&env.storage, id, &mut vault, 999);
    assert_eq!(vault.state, VaultState::ActiveLocked);
    maybe_transition_to_settlement_ready(&env.storage, id, &mut vault, 1_000);
    assert_eq!(vault.state, VaultState::SettlementReady);
    assert_eq!(vault.eligible_claimers, 4);
    // 95 locked at 1000 bps: penalty 9.
    assert_eq!(vault.original_pool, 9);
    assert_eq!(get_pool(&env.storage, id), 9);
}

#[test]
fn arithmetic_limits() {
    let big = i128::MAX / 100;
    let (mut env, id) = env_with_vault(vec![big; 5], LockType::Penalty, 10_000);
    // The total of five such amounts still fits.
    assert!(CcpContract::create_arithmetic_fits(&env, &vec![big; 5]));
    assert!(!CcpContract::create_arithmetic_fits(&env, &vec![i128::MAX / 2; 5]));
    // Non-positive amounts are refused before any addition.
    assert!(CcpContract::create_arithmetic_fits(&env, &vec![i128::MAX, i128::MAX, 0, 1, 1]));
    // The 500 bps commission on such an amount overflows.
    assert!(!CcpContract::deposit_arithmetic_fits(&env, member(0), id));
    assert!(CcpContract::deposit_arithmetic_fits(&env, Address { id: 999 }, id));
    let (env2, id2) = env_with_vault(vec![1_000; 5], LockType::Penalty, 10_000);
    assert!(CcpContract::deposit_arithmetic_fits(&env2, member(0), id2));
    assert!(CcpContract::withdraw_arithmetic_fits(&env2, member(0), id2));
    env.timestamp = 100;
    assert!(CcpContract::withdraw_arithmetic_fits(&env, member(0), id));
}

#[test]
fn early_exit_penalty_overflow_is_detected() {
    let big = i128::MAX / 1_000;
    let (mut env, id) = env_with_vault(vec![big; 5], LockType::Penalty, 10_000);
    for i in 0..5 {
        assert!(CcpContract::deposit_arithmetic_fits(&env, member(i), id));
        CcpContract::deposit(&mut env, member(i), id).unwrap();
    }
    // The locked amount times 10000 bps no longer fits.
    assert!(!CcpContract::withdraw_arithmetic_fits(&env, member(0), id));
    env.timestamp = 1_000;
    // At maturity no penalty is computed.
    assert!(CcpContract::withdraw_arithmetic_fits(&env, member(0), id));
}

#[test]
fn persistent_writes_extend_time_to_live() {
    let mut st = Storage::new();
    let a = Address { id: 4 };
    assert_eq!(st.ttl_of(&DataKey::MemberRecord(3, a)), None);
    save_member_record(&mut st, 3, &a, &MemberRecord { state: MemberState::Committed, amount: 1 });
    assert_eq!(st.ttl_of(&DataKey::MemberRecord(3, a)), Some(535_000));
    assert_eq!(LEDGER_BUMP_AMOUNT, 535_000);
    save_creator_vaults(&mut st, &a, &vec![1]);
    assert_eq!(st.ttl_of(&DataKey::CreatorVaults(a)), Some(LEDGER_BUMP_AMOUNT));
    save_member_vaults(&mut st, &a, &vec![1]);
    assert_eq!(st.ttl_of(&DataKey::MemberVaults(a)), Some(LEDGER_BUMP_AMOUNT));
    // Pools live in instance storage: no time to live of their own.
    set_pool(&mut st, 3, 9);
    assert_eq!(st.ttl_of(&DataKey::CommunityPool(3)), None);

    let (env, id) = env_with_vault(vec![100; 5], LockType::Strict, 0);
    assert_eq!(env.storage.ttl_of(&DataKey::GroupVault(id)), Some(LEDGER_BUMP_AMOUNT));
    assert_eq!(env.storage.ttl_of(&DataKey::MemberRecord(id, member(2))), Some(LEDGER_BUMP_AMOUNT));
    assert_eq!(env.storage.ttl_of(&DataKey::MemberVaults(member(0))), Some(LEDGER_BUMP_AMOUNT));
}
