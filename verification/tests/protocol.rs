use collective_commitment_protocol::{
    Address, CcpContract, CcpError, Effect, Event, GroupVaultCreatedEvent, HostEnv, LockType,
    MemberDepositedEvent, MemberEarlyExitEvent, MemberState, MemberWithdrawnEvent, Party,
    PoolClaimedEvent, Transfer, VaultActivatedEvent, VaultCancelledEvent, VaultResolvedEvent,
    VaultState,
};

const XLM: Address = Address { id: 1 };
const USDC: Address = Address { id: 2 };
const EURC: Address = Address { id: 3 };
const CREATOR: Address = Address { id: 100 };
const OUTSIDER: Address = Address { id: 999 };

const START: u64 = 1_000;
const DEADLINE: u64 = 2_000;
const UNLOCK: u64 = 5_000;

fn member(i: u64) -> Address {
    Address { id: 10 + i }
}

fn members(n: u64) -> Vec<Address> {
    (0..n).map(member).collect()
}

fn initialized_env() -> HostEnv {
    let mut env = HostEnv::new(START);
    CcpContract::initialize(&mut env, XLM, USDC, EURC).unwrap();
    env
}

/// Five members, each committed to 1000, in a penalty vault at 500 bps.
fn penalty_vault(env: &mut HostEnv) -> u64 {
    CcpContract::create_group_vault(
        env,
        CREATOR,
        XLM,
        members(5),
        vec![1000; 5],
        UNLOCK,
        DEADLINE,
        LockType::Penalty,
        500,
    )
    .unwrap()
}

fn fund_all(env: &mut HostEnv, id: u64, n: u64) {
    for i in 0..n {
        CcpContract::deposit(env, member(i), id).unwrap();
    }
}

fn transfer(token: Address, from: Party, to: Party, amount: i128) -> Effect {
    Effect::Transfer(Transfer { token, from, to, amount })
}

// ─── initialize ──────────────────────────────────────────────────────────────

#[test]
fn initialize_only_once() {
    let mut env = HostEnv::new(START);
    assert_eq!(CcpContract::initialize(&mut env, XLM, USDC, EURC), Ok(()));
    assert_eq!(
        CcpContract::initialize(&mut env, XLM, USDC, EURC),
        Err(CcpError::AlreadyInitialized)
    );
    assert!(env.effects.is_empty());
}

#[test]
fn create_before_initialize_is_not_initialized() {
    let mut env = HostEnv::new(START);
    let r = CcpContract::create_group_vault(
        &mut env,
        CREATOR,
        XLM,
        members(5),
        vec![1000; 5],
        UNLOCK,
        DEADLINE,
        LockType::Strict,
        0,
    );
    assert_eq!(r, Err(CcpError::NotInitialized));
}

// ─── create_group_vault ──────────────────────────────────────────────────────

fn create_with(
    env: &mut HostEnv,
    ms: Vec<Address>,
    amounts: Vec<i128>,
    token: Address,
    unlock: u64,
    deadline: u64,
    lock: LockType,
    rate: u32,
) -> Result<u64, CcpError> {
    CcpContract::create_group_vault(env, CREATOR, token, ms, amounts, unlock, deadline, lock, rate)
}

#[test]
fn create_rejects_member_counts_outside_five_to_hundred() {
    let mut env = initialized_env();
    let four = create_with(&mut env, members(4), vec![1; 4], XLM, UNLOCK, DEADLINE, LockType::Strict, 0);
    assert_eq!(four, Err(CcpError::InvalidMemberCount));
    let many = create_with(&mut env, members(101), vec![1; 101], XLM, UNLOCK, DEADLINE, LockType::Strict, 0);
    assert_eq!(many, Err(CcpError::InvalidMemberCount));
    let hundred = create_with(&mut env, members(100), vec![1; 100], XLM, UNLOCK, DEADLINE, LockType::Strict, 0);
    assert_eq!(hundred, Ok(0));
}

#[test]
fn create_rejects_amount_mismatch() {
    let mut env = initialized_env();
    let r = create_with(&mut env, members(5), vec![1; 4], XLM, UNLOCK, DEADLINE, LockType::Strict, 0);
    assert_eq!(r, Err(CcpError::MemberAmountMismatch));
}

#[test]
fn create_rejects_non_positive_amounts() {
    let mut env = initialized_env();
    let zero = create_with(&mut env, members(5), vec![5, 5, 0, 5, 5], XLM, UNLOCK, DEADLINE, LockType::Strict, 0);
    assert_eq!(zero, Err(CcpError::InvalidObligationAmount));
    let negative = create_with(&mut env, members(5), vec![5, 5, 5, 5, -1], XLM, UNLOCK, DEADLINE, LockType::Strict, 0);
    assert_eq!(negative, Err(CcpError::InvalidObligationAmount));
}

#[test]
fn create_rejects_unsupported_token() {
    let mut env = initialized_env();
    let r = create_with(&mut env, members(5), vec![1; 5], OUTSIDER, UNLOCK, DEADLINE, LockType::Strict, 0);
    assert_eq!(r, Err(CcpError::UnsupportedToken));
    let eurc = create_with(&mut env, members(5), vec![1; 5], EURC, UNLOCK, DEADLINE, LockType::Strict, 0);
    assert_eq!(eurc, Ok(0));
}

#[test]
fn create_rejects_bad_times() {
    let mut env = initialized_env();
    let past = create_with(&mut env, members(5), vec![1; 5], XLM, START, START - 1, LockType::Strict, 0);
    assert_eq!(past, Err(CcpError::InvalidUnlockTime));
    let deadline_now = create_with(&mut env, members(5), vec![1; 5], XLM, UNLOCK, START, LockType::Strict, 0);
    assert_eq!(deadline_now, Err(CcpError::InvalidFundingDeadline));
    let deadline_at_unlock = create_with(&mut env, members(5), vec![1; 5], XLM, UNLOCK, UNLOCK, LockType::Strict, 0);
    assert_eq!(deadline_at_unlock, Err(CcpError::InvalidFundingDeadline));
}

#[test]
fn create_checks_penalty_rate_only_for_penalty_vaults() {
    let mut env = initialized_env();
    let zero = create_with(&mut env, members(5), vec![1; 5], XLM, UNLOCK, DEADLINE, LockType::Penalty, 0);
    assert_eq!(zero, Err(CcpError::InvalidPenaltyRate));
    let over = create_with(&mut env, members(5), vec![1; 5], XLM, UNLOCK, DEADLINE, LockType::Penalty, 10_001);
    assert_eq!(over, Err(CcpError::InvalidPenaltyRate));
    let full = create_with(&mut env, members(5), vec![1; 5], XLM, UNLOCK, DEADLINE, LockType::Penalty, 10_000);
    assert_eq!(full, Ok(0));
    let strict = create_with(&mut env, members(5), vec![1; 5], XLM, UNLOCK, DEADLINE, LockType::Strict, 20_000);
    assert_eq!(strict, Ok(1));
}

#[test]
fn create_stores_vault_records_and_indexes() {
    let mut env = initialized_env();
    let amounts = vec![100, 200, 300, 400, 500];
    let id = create_with(&mut env, members(5), amounts, USDC, UNLOCK, DEADLINE, LockType::Penalty, 250).unwrap();
    assert_eq!(id, 0);
    let v = CcpContract::get_group_vault(&env, id).unwrap();
    assert_eq!(v.vault_id, 0);
    assert_eq!(v.creator, CREATOR);
    assert_eq!(v.token, USDC);
    assert_eq!(v.members, members(5));
    assert_eq!(v.total_size, 1500);
    assert_eq!(v.state, VaultState::FundingOpen);
    assert_eq!(v.commission_rate, 500);
    assert_eq!(v.penalty_rate, 250);
    assert_eq!(v.deposited_count, 0);
    assert_eq!(v.obligations.get(&member(2)), Some(&300));
    assert_eq!(v.obligations.get(&OUTSIDER), None);
    let rec = CcpContract::get_member_state(&env, id, member(4)).unwrap();
    assert_eq!(rec.state, MemberState::Committed);
    assert_eq!(rec.amount, 500);
    assert_eq!(CcpContract::get_vaults_by_creator(&env, CREATOR), vec![0]);
    assert_eq!(CcpContract::get_vaults_by_member(&env, member(1)), vec![0]);
    assert_eq!(
        env.effects,
        vec![Effect::Publish(Event::GroupVaultCreated(GroupVaultCreatedEvent {
            vault_id: 0,
            creator: CREATOR,
            token: USDC,
            member_count: 5,
            total_vault_size: 1500,
            unlock_time: UNLOCK,
            lock_type: LockType::Penalty,
        }))]
    );
}

#[test]
fn vault_ids_are_consecutive() {
    let mut env = initialized_env();
    assert_eq!(penalty_vault(&mut env), 0);
    assert_eq!(penalty_vault(&mut env), 1);
    assert_eq!(penalty_vault(&mut env), 2);
    assert_eq!(CcpContract::get_vaults_by_creator(&env, CREATOR), vec![0, 1, 2]);
    assert_eq!(CcpContract::get_vaults_by_member(&env, member(3)), vec![0, 1, 2]);
}

#[test]
fn duplicate_member_keeps_last_obligation() {
    let mut env = initialized_env();
    let ms = vec![member(0), member(1), member(2), member(3), member(0)];
    let id = create_with(&mut env, ms, vec![10, 20, 30, 40, 50], XLM, UNLOCK, DEADLINE, LockType::Strict, 0).unwrap();
    let v = CcpContract::get_group_vault(&env, id).unwrap();
    // The total counts every entry; the obligation keeps the last one.
    assert_eq!(v.total_size, 150);
    assert_eq!(v.obligations.get(&member(0)), Some(&50));
    assert_eq!(CcpContract::get_member_state(&env, id, member(0)).unwrap().amount, 50);
    assert_eq!(CcpContract::get_vaults_by_member(&env, member(0)), vec![id, id]);
    // Four distinct members can never fill five places.
    fund_all(&mut env, id, 4);
    let v = CcpContract::get_group_vault(&env, id).unwrap();
    assert_eq!(v.deposited_count, 4);
    assert_eq!(v.state, VaultState::FundingOpen);
}

// ─── deposit ─────────────────────────────────────────────────────────────────

#[test]
fn deposit_splits_commission_and_locks_rest() {
    let mut env = initialized_env();
    let id = penalty_vault(&mut env);
    env.effects.clear();
    CcpContract::deposit(&mut env, member(0), id).unwrap();
    let rec = CcpContract::get_member_state(&env, id, member(0)).unwrap();
    assert_eq!(rec.state, MemberState::Deposited);
    assert_eq!(rec.amount, 950);
    assert_eq!(
        env.effects,
        vec![
            transfer(XLM, Party::Account(member(0)), Party::Contract, 1000),
            transfer(XLM, Party::Contract, Party::Account(CREATOR), 50),
            Effect::Publish(Event::MemberDeposited(MemberDepositedEvent {
                vault_id: id,
                member: member(0),
                amount: 950,
            })),
        ]
    );
    assert_eq!(CcpContract::get_group_vault(&env, id).unwrap().deposited_count, 1);
}

#[test]
fn deposit_with_zero_commission_forwards_nothing() {
    let mut env = initialized_env();
    let id = create_with(&mut env, members(5), vec![19; 5], XLM, UNLOCK, DEADLINE, LockType::Strict, 0).unwrap();
    env.effects.clear();
    CcpContract::deposit(&mut env, member(1), id).unwrap();
    assert_eq!(env.effects.len(), 2);
    assert_eq!(env.effects[0], transfer(XLM, Party::Account(member(1)), Party::Contract, 19));
    assert_eq!(CcpContract::get_member_state(&env, id, member(1)).unwrap().amount, 19);
}

#[test]
fn deposit_errors() {
    let mut env = initialized_env();
    let id = penalty_vault(&mut env);
    assert_eq!(CcpContract::deposit(&mut env, member(0), 7), Err(CcpError::VaultNotFound));
    assert_eq!(CcpContract::deposit(&mut env, OUTSIDER, id), Err(CcpError::NotMember));
    CcpContract::deposit(&mut env, member(0), id).unwrap();
    assert_eq!(CcpContract::deposit(&mut env, member(0), id), Err(CcpError::WrongMemberState));
    env.timestamp = DEADLINE + 1;
    assert_eq!(CcpContract::deposit(&mut env, member(1), id), Err(CcpError::FundingDeadlinePassed));
}

#[test]
fn deposit_on_deadline_is_accepted() {
    let mut env = initialized_env();
    let id = penalty_vault(&mut env);
    env.timestamp = DEADLINE;
    assert_eq!(CcpContract::deposit(&mut env, member(0), id), Ok(()));
}

#[test]
fn last_deposit_activates_vault() {
    let mut env = initialized_env();
    let id = penalty_vault(&mut env);
    fund_all(&mut env, id, 4);
    assert_eq!(CcpContract::get_group_vault(&env, id).unwrap().state, VaultState::FundingOpen);
    env.effects.clear();
    CcpContract::deposit(&mut env, member(4), id).unwrap();
    let v = CcpContract::get_group_vault(&env, id).unwrap();
    assert_eq!(v.state, VaultState::ActiveLocked);
    assert_eq!(v.deposited_count, 5);
    for i in 0..5 {
        let rec = CcpContract::get_member_state(&env, id, member(i)).unwrap();
        assert_eq!(rec.state, MemberState::Active);
        assert_eq!(rec.amount, 950);
    }
    assert_eq!(
        env.effects.last(),
        Some(&Effect::Publish(Event::VaultActivated(VaultActivatedEvent { vault_id: id })))
    );
    assert_eq!(CcpContract::deposit(&mut env, member(0), id), Err(CcpError::WrongVaultState));
}

// ─── cancel and refunds ──────────────────────────────────────────────────────

#[test]
fn cancel_needs_open_vault_past_deadline() {
    let mut env = initialized_env();
    let id = penalty_vault(&mut env);
    assert_eq!(CcpContract::cancel(&mut env, 9), Err(CcpError::VaultNotFound));
    env.timestamp = DEADLINE;
    assert_eq!(CcpContract::cancel(&mut env, id), Err(CcpError::FundingDeadlineNotPassed));
    env.timestamp = DEADLINE + 1;
    env.effects.clear();
    assert_eq!(CcpContract::cancel(&mut env, id), Ok(()));
    assert_eq!(CcpContract::get_group_vault(&env, id).unwrap().state, VaultState::Cancelled);
    assert_eq!(
        env.effects,
        vec![Effect::Publish(Event::VaultCancelled(VaultCancelledEvent { vault_id: id }))]
    );
    assert_eq!(CcpContract::cancel(&mut env, id), Err(CcpError::WrongVaultState));
}

#[test]
fn cancelled_vault_refunds_locked_amount_once() {
    let mut env = initialized_env();
    let id = penalty_vault(&mut env);
    CcpContract::deposit(&mut env, member(0), id).unwrap();
    env.timestamp = DEADLINE + 1;
    CcpContract::cancel(&mut env, id).unwrap();
    env.effects.clear();
    assert_eq!(CcpContract::withdraw(&mut env, member(0), id), Ok(()));
    assert_eq!(
        env.effects,
        vec![
            transfer(XLM, Party::Contract, Party::Account(member(0)), 950),
            Effect::Publish(Event::MemberWithdrawn(MemberWithdrawnEvent {
                vault_id: id,
                member: member(0),
                amount: 950,
            })),
        ]
    );
    assert_eq!(
        CcpContract::get_member_state(&env, id, member(0)).unwrap().state,
        MemberState::Withdrawn
    );
    assert_eq!(CcpContract::withdraw(&mut env, member(0), id), Err(CcpError::WrongMemberState));
    // A member who never paid in has nothing to get back.
    assert_eq!(CcpContract::withdraw(&mut env, member(1), id), Err(CcpError::WrongMemberState));
    assert_eq!(CcpContract::withdraw(&mut env, OUTSIDER, id), Err(CcpError::NotMember));
}

#[test]
fn withdraw_from_open_vault_is_refused() {
    let mut env = initialized_env();
    let id = penalty_vault(&mut env);
    CcpContract::deposit(&mut env, member(0), id).unwrap();
    assert_eq!(CcpContract::withdraw(&mut env, member(0), id), Err(CcpError::WrongVaultState));
    assert_eq!(CcpContract::withdraw(&mut env, member(0), 3), Err(CcpError::VaultNotFound));
}

// ─── early exit ──────────────────────────────────────────────────────────────

#[test]
fn early_exit_pays_penalty_into_pool() {
    let mut env = initialized_env();
    let id = penalty_vault(&mut env);
    fund_all(&mut env, id, 5);
    env.timestamp = UNLOCK - 1;
    env.effects.clear();
    assert_eq!(CcpContract::withdraw(&mut env, member(2), id), Ok(()));
    // 950 at 500 bps: penalty 47 (47.5 rounded down), payout 903.
    assert_eq!(
        env.effects,
        vec![
            transfer(XLM, Party::Contract, Party::Account(member(2)), 903),
            Effect::Publish(Event::MemberEarlyExit(MemberEarlyExitEvent {
                vault_id: id,
                member: member(2),
                payout: 903,
                penalty: 47,
            })),
        ]
    );
    assert_eq!(CcpContract::get_pool_balance(&env, id), 47);
    let rec = CcpContract::get_member_state(&env, id, member(2)).unwrap();
    assert_eq!(rec.state, MemberState::Exited);
    assert_eq!(rec.amount, 950);
    assert_eq!(CcpContract::get_group_vault(&env, id).unwrap().state, VaultState::ActiveLocked);
    assert_eq!(CcpContract::withdraw(&mut env, member(2), id), Err(CcpError::WrongMemberState));
}

#[test]
fn strict_vault_blocks_early_exit() {
    let mut env = initialized_env();
    let id = create_with(&mut env, members(5), vec![1000; 5], XLM, UNLOCK, DEADLINE, LockType::Strict, 0).unwrap();
    fund_all(&mut env, id, 5);
    assert_eq!(CcpContract::withdraw(&mut env, member(0), id), Err(CcpError::EarlyExitNotAllowed));
    assert_eq!(CcpContract::get_pool_balance(&env, id), 0);
}

// ─── maturity and the pool ───────────────────────────────────────────────────

#[test]
fn mature_withdrawal_settles_and_returns_locked_amount() {
    let mut env = initialized_env();
    let id = penalty_vault(&mut env);
    fund_all(&mut env, id, 5);
    env.timestamp = UNLOCK - 1;
    CcpContract::withdraw(&mut env, member(0), id).unwrap();
    env.timestamp = UNLOCK;
    env.effects.clear();
    assert_eq!(CcpContract::withdraw(&mut env, member(1), id), Ok(()));
    assert_eq!(env.effects[0], transfer(XLM, Party::Contract, Party::Account(member(1)), 950));
    let v = CcpContract::get_group_vault(&env, id).unwrap();
    assert_eq!(v.state, VaultState::SettlementReady);
    assert_eq!(v.eligible_claimers, 4);
    assert_eq!(v.original_pool, 47);
    assert_eq!(v.claimed_count, 0);
    assert_eq!(
        CcpContract::get_member_state(&env, id, member(1)).unwrap().state,
        MemberState::Withdrawn
    );
    // An exited member cannot withdraw again at maturity.
    assert_eq!(CcpContract::withdraw(&mut env, member(0), id), Err(CcpError::WrongMemberState));
}

#[test]
fn pool_is_shared_with_remainder_to_first_claimer() {
    let mut env = initialized_env();
    let id = penalty_vault(&mut env);
    fund_all(&mut env, id, 5);
    env.timestamp = UNLOCK - 10;
    CcpContract::withdraw(&mut env, member(0), id).unwrap();
    env.timestamp = UNLOCK + 10;
    // The query reads the pool as stored: four active members share 47.
    assert_eq!(CcpContract::get_member_claim_amount(&env, id, member(1)), 11);
    CcpContract::withdraw(&mut env, member(1), id).unwrap();
    assert_eq!(CcpContract::get_member_claim_amount(&env, id, member(1)), 11);
    assert_eq!(CcpContract::get_member_claim_amount(&env, id, member(0)), 0);

    env.effects.clear();
    CcpContract::claim_pool(&mut env, member(1), id).unwrap();
    assert_eq!(
        env.effects,
        vec![
            transfer(XLM, Party::Contract, Party::Account(member(1)), 14),
            Effect::Publish(Event::PoolClaimed(PoolClaimedEvent {
                vault_id: id,
                member: member(1),
                claimed: 14,
            })),
        ]
    );
    assert_eq!(CcpContract::get_pool_balance(&env, id), 33);
    assert_eq!(CcpContract::claim_pool(&mut env, member(1), id), Err(CcpError::WrongMemberState));
    assert_eq!(CcpContract::claim_pool(&mut env, member(0), id), Err(CcpError::WrongMemberState));
    assert_eq!(CcpContract::claim_pool(&mut env, OUTSIDER, id), Err(CcpError::NotMember));

    CcpContract::claim_pool(&mut env, member(2), id).unwrap();
    CcpContract::claim_pool(&mut env, member(3), id).unwrap();
    assert_eq!(CcpContract::get_pool_balance(&env, id), 11);
    env.effects.clear();
    CcpContract::claim_pool(&mut env, member(4), id).unwrap();
    assert_eq!(CcpContract::get_pool_balance(&env, id), 0);
    assert_eq!(
        env.effects.last(),
        Some(&Effect::Publish(Event::VaultResolved(VaultResolvedEvent { vault_id: id })))
    );
    let v = CcpContract::get_group_vault(&env, id).unwrap();
    assert_eq!(v.state, VaultState::Resolved);
    assert_eq!(v.claimed_count, 4);
    // A member who withdrew at maturity may still claim, but not after resolution.
    assert_eq!(CcpContract::claim_pool(&mut env, member(1), id), Err(CcpError::WrongVaultState));
}

#[test]
fn empty_pool_claims_nothing_but_records_claim() {
    let mut env = initialized_env();
    let id = penalty_vault(&mut env);
    fund_all(&mut env, id, 5);
    env.timestamp = UNLOCK;
    env.effects.clear();
    CcpContract::claim_pool(&mut env, member(0), id).unwrap();
    assert_eq!(
        env.effects,
        vec![Effect::Publish(Event::PoolClaimed(PoolClaimedEvent {
            vault_id: id,
            member: member(0),
            claimed: 0,
        }))]
    );
    assert_eq!(
        CcpContract::get_member_state(&env, id, member(0)).unwrap().state,
        MemberState::ClaimedActive
    );
    // A member who claimed before withdrawing still gets its locked amount back.
    env.effects.clear();
    assert_eq!(CcpContract::withdraw(&mut env, member(0), id), Ok(()));
    assert_eq!(env.effects[0], transfer(XLM, Party::Contract, Party::Account(member(0)), 950));
    assert_eq!(
        CcpContract::get_member_state(&env, id, member(0)).unwrap().state,
        MemberState::Claimed
    );
    assert_eq!(CcpContract::withdraw(&mut env, member(0), id), Err(CcpError::WrongMemberState));
    assert_eq!(CcpContract::claim_pool(&mut env, member(0), id), Err(CcpError::WrongMemberState));
}

#[test]
fn claim_before_unlock_is_refused() {
    let mut env = initialized_env();
    let id = penalty_vault(&mut env);
    assert_eq!(CcpContract::claim_pool(&mut env, member(0), id), Err(CcpError::WrongVaultState));
    fund_all(&mut env, id, 5);
    env.timestamp = UNLOCK - 1;
    assert_eq!(CcpContract::claim_pool(&mut env, member(0), id), Err(CcpError::WrongVaultState));
    assert_eq!(CcpContract::claim_pool(&mut env, member(0), 42), Err(CcpError::VaultNotFound));
}

#[test]
fn refused_request_changes_nothing() {
    let mut env = initialized_env();
    let id = penalty_vault(&mut env);
    fund_all(&mut env, id, 5);
    env.timestamp = UNLOCK;
    let effects_before = env.effects.clone();
    // The vault would settle, but the outsider is refused, so nothing is stored.
    assert_eq!(CcpContract::withdraw(&mut env, OUTSIDER, id), Err(CcpError::NotMember));
    assert_eq!(env.effects, effects_before);
    assert_eq!(CcpContract::get_group_vault(&env, id).unwrap().state, VaultState::ActiveLocked);
}

#[test]
fn queries_on_unknown_ids() {
    let env = initialized_env();
    assert!(CcpContract::get_group_vault(&env, 0).is_err());
    assert_eq!(CcpContract::get_member_state(&env, 0, member(0)), Err(CcpError::VaultNotFound));
    assert_eq!(CcpContract::get_pool_balance(&env, 0), 0);
    assert_eq!(CcpContract::get_member_claim_amount(&env, 0, member(0)), 0);
    assert!(CcpContract::get_vaults_by_creator(&env, CREATOR).is_empty());
    assert!(CcpContract::get_vaults_by_member(&env, member(0)).is_empty());
}

#[test]
fn get_member_state_outsider_is_not_member() {
    let mut env = initialized_env();
    let id = penalty_vault(&mut env);
    assert_eq!(CcpContract::get_member_state(&env, id, OUTSIDER), Err(CcpError::NotMember));
}

/// What the effects so far moved into the contract, less what they moved out.
fn contract_inflow(effects: &[Effect]) -> i128 {
    effects
        .iter()
        .map(|e| match e {
            Effect::Transfer(t) => {
                let mut flow = 0;
                if t.to == Party::Contract {
                    flow += t.amount;
                }
                if t.from == Party::Contract {
                    flow -= t.amount;
                }
                flow
            },
            Effect::Publish(_) => 0,
        })
        .sum()
}

/// What the vault holds: locked amounts of deposited or active members and the pool.
fn holdings(env: &HostEnv, id: u64) -> i128 {
    let v = CcpContract::get_group_vault(env, id).unwrap();
    let mut total = CcpContract::get_pool_balance(env, id);
    for m in v.members.iter() {
        let r = CcpContract::get_member_state(env, id, *m).unwrap();
        if r.state == MemberState::Deposited
            || r.state == MemberState::Active
            || r.state == MemberState::ClaimedActive
        {
            total += r.amount;
        }
    }
    total
}

#[test]
fn holdings_follow_transfers() {
    let mut env = initialized_env();
    let id = penalty_vault(&mut env);
    assert_eq!(holdings(&env, id), 0);
    fund_all(&mut env, id, 5);
    assert_eq!(holdings(&env, id), contract_inflow(&env.effects));
    assert_eq!(holdings(&env, id), 4750);
    env.timestamp = UNLOCK - 1;
    CcpContract::withdraw(&mut env, member(0), id).unwrap();
    assert_eq!(holdings(&env, id), contract_inflow(&env.effects));
    env.timestamp = UNLOCK;
    CcpContract::withdraw(&mut env, member(1), id).unwrap();
    CcpContract::claim_pool(&mut env, member(1), id).unwrap();
    assert_eq!(holdings(&env, id), contract_inflow(&env.effects));
    assert_eq!(holdings(&env, id), 3 * 950 + 33);
}

#[test]
fn claim_while_active_keeps_locked_amount_owed() {
    let mut env = initialized_env();
    let id = penalty_vault(&mut env);
    fund_all(&mut env, id, 5);
    env.timestamp = UNLOCK;
    let before = contract_inflow(&env.effects);
    CcpContract::claim_pool(&mut env, member(2), id).unwrap();
    // Nothing was paid out, and the member's 950 still counts as held.
    assert_eq!(contract_inflow(&env.effects), before);
    assert_eq!(holdings(&env, id), before);
    assert_eq!(CcpContract::withdraw(&mut env, member(2), id), Ok(()));
    assert_eq!(holdings(&env, id), contract_inflow(&env.effects));
    assert_eq!(holdings(&env, id), 4 * 950);
}

#[test]
fn resolved_vault_still_pays_members_who_claimed_while_active() {
    let mut env = initialized_env();
    let id = penalty_vault(&mut env);
    fund_all(&mut env, id, 5);
    env.timestamp = UNLOCK;
    for i in 0..5 {
        CcpContract::claim_pool(&mut env, member(i), id).unwrap();
    }
    assert_eq!(CcpContract::get_group_vault(&env, id).unwrap().state, VaultState::Resolved);
    assert_eq!(holdings(&env, id), 5 * 950);
    for i in 0..5 {
        env.effects.clear();
        assert_eq!(CcpContract::withdraw(&mut env, member(i), id), Ok(()));
        assert_eq!(env.effects[0], transfer(XLM, Party::Contract, Party::Account(member(i)), 950));
        assert_eq!(CcpContract::withdraw(&mut env, member(i), id), Err(CcpError::WrongVaultState));
    }
    assert_eq!(holdings(&env, id), 0);
    assert_eq!(CcpContract::withdraw(&mut env, OUTSIDER, id), Err(CcpError::WrongVaultState));
}

/// What the effects so far paid out of the contract.
fn paid_out(effects: &[Effect]) -> i128 {
    effects
        .iter()
        .map(|e| match e {
            Effect::Transfer(t) if t.from == Party::Contract => t.amount,
            _ => 0,
        })
        .sum()
}

#[test]
fn whole_vault_life_pays_out_exactly_what_deposits_kept() {
    let mut env = initialized_env();
    let id = penalty_vault(&mut env);
    fund_all(&mut env, id, 5);
    // Each deposit of 1000 keeps 950 after the 50 commission.
    let kept = 5 * 950;
    env.timestamp = UNLOCK - 1;
    CcpContract::withdraw(&mut env, member(0), id).unwrap();
    env.timestamp = UNLOCK;
    for i in 1..5 {
        CcpContract::withdraw(&mut env, member(i), id).unwrap();
        CcpContract::claim_pool(&mut env, member(i), id).unwrap();
    }
    assert_eq!(CcpContract::get_group_vault(&env, id).unwrap().state, VaultState::Resolved);
    assert_eq!(holdings(&env, id), 0);
    // Commissions go to the creator; everything else kept was paid back out.
    let commissions = 5 * 50;
    assert_eq!(paid_out(&env.effects), kept + commissions);
    assert_eq!(contract_inflow(&env.effects), 0);
}

#[test]
fn creator_and_member_lists_follow_creation_order() {
    let mut env = initialized_env();
    let other = Address { id: 200 };
    let a = penalty_vault(&mut env);
    let b = CcpContract::create_group_vault(
        &mut env,
        other,
        XLM,
        vec![member(0), member(0), member(7), member(8), member(9)],
        vec![10; 5],
        UNLOCK,
        DEADLINE,
        LockType::Strict,
        0,
    )
    .unwrap();
    let c = penalty_vault(&mut env);
    assert_eq!((a, b, c), (0, 1, 2));
    assert_eq!(CcpContract::get_vaults_by_creator(&env, CREATOR), vec![0, 2]);
    assert_eq!(CcpContract::get_vaults_by_creator(&env, other), vec![1]);
    assert_eq!(CcpContract::get_vaults_by_member(&env, member(0)), vec![0, 1, 1, 2]);
    assert_eq!(CcpContract::get_vaults_by_member(&env, member(7)), vec![1]);
    assert_eq!(CcpContract::get_vaults_by_member(&env, OUTSIDER), Vec::<u64>::new());
    // A refused creation adds nothing anywhere.
    let refused = create_with(&mut env, members(4), vec![1; 4], XLM, UNLOCK, DEADLINE, LockType::Strict, 0);
    assert_eq!(refused, Err(CcpError::InvalidMemberCount));
    assert_eq!(CcpContract::get_vaults_by_creator(&env, CREATOR), vec![0, 2]);
    assert!(matches!(CcpContract::get_group_vault(&env, 3), Err(CcpError::VaultNotFound)));
}
