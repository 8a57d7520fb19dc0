//! A collective commitment protocol: a group of members commit to lock
//! amounts of one token in a shared vault until an unlock time. Early exits
//! from penalty vaults pay a penalty into a community pool, which the members
//! who stayed share out at settlement.
use vstd::prelude::*;

pub mod assoc_map;
pub mod contract_laws;
pub mod history;
pub mod host;
pub mod laws;
pub mod ledger_history;
pub mod ledger_inv;
pub mod lemmas;
pub mod model;
pub mod storage;
pub mod storage_types;
pub mod types;
pub mod utils;

pub use crate::host::HostEnv;
pub use crate::storage::{
    add_to_pool, get_creator_vaults, get_group_vault_unchecked, get_member_record,
    get_member_vaults, get_pool, is_supported_token, next_vault_id, save_creator_vaults,
    save_group_vault, save_member_record, save_member_vaults, set_pool, Storage,
};
pub use crate::storage_types::{CcpError, DataKey};
pub use crate::types::{
    Address, Effect, Event, GroupVault, GroupVaultCreatedEvent, LockType, MemberDepositedEvent,
    MemberEarlyExitEvent, MemberRecord, MemberState, MemberWithdrawnEvent, Party,
    PoolClaimedEvent, Transfer, VaultActivatedEvent, VaultCancelledEvent, VaultResolvedEvent,
    VaultState,
};
pub use crate::utils::{
    calculate_penalty, count_claimable_members, maybe_transition_to_settlement_ready,
};

use crate::assoc_map::AssocMap;
use crate::ledger_inv::{
    lemma_claim_preserves, lemma_create_preserves, lemma_deposit_preserves, lemma_settled_facts,
    lemma_vault_ok_frame, lemma_withdraw_preserves,
};
use crate::lemmas::{
    lemma_commitments_step, lemma_index_members_step, lemma_obligations_step,
    lemma_sum_prefix_le, lemma_sum_prefix_step,
};
use crate::model::{
    build_obligations, create_error, create_fits, deposit_fits, index_members,
    member_claim_amount, pay, publish, records_with_commitments, seq_sum, spec_cancel,
    spec_claim, spec_create, spec_deposit, spec_initialize, spec_withdraw, valid_ledger, vault_ok,
    withdraw_fits,
};
use crate::storage::{list_of, peek_vault_counter, persistent_entries_extended, pool_of, rkey, RecordKey, StorageModel};

verus! {

/// Whether every amount is positive.
fn all_positive(amounts: &Vec<i128>) -> (r: bool)
    ensures
        r == forall|j: int| 0 <= j < amounts@.len() ==> #[trigger] amounts@[j] > 0,
{
    let mut i: usize = 0;
    while i < amounts.len()
        invariant
            0 <= i <= amounts@.len(),
            forall|j: int| 0 <= j < i ==> #[trigger] amounts@[j] > 0,
        decreases amounts@.len() - i,
    {
        if amounts[i] <= 0 {
            return false;
        }
        i = i + 1;
    }
    true
}

/// The contract's entry points.
pub struct CcpContract;

impl CcpContract {
    // ─── initialize ──────────────────────────────────────────────────────────

    /// Stores the three supported tokens and starts the vault counter; refused
    /// once the tokens are stored.
    pub fn initialize(env: &mut HostEnv, xlm_token: Address, usdc_token: Address, eurc_token: Address) -> (r: Result<(), CcpError>)
        requires
            valid_ledger(old(env).storage@),
        ensures
            match spec_initialize(old(env).storage@, xlm_token, usdc_token, eurc_token) {
                Ok(s2) => {
                    &&& r == Ok::<(), CcpError>(())
                    &&& final(env).storage@ == s2
                    &&& final(env).effects@ == old(env).effects@
                    &&& final(env).timestamp == old(env).timestamp
                },
                Err(e) => r == Err::<(), CcpError>(e) && *final(env) == *old(env),
            },
            valid_ledger(final(env).storage@),
            persistent_entries_extended(&old(env).storage) ==> persistent_entries_extended(
                &final(env).storage,
            ),
    {
        if env.storage.has(&DataKey::SupportedTokens) {
            return Err(CcpError::AlreadyInitialized);
        }
        let mut tokens: Vec<Address> = Vec::new();
        tokens.push(xlm_token);
        tokens.push(usdc_token);
        tokens.push(eurc_token);
        env.storage.set_supported_tokens(tokens);
        env.storage.set_vault_counter(0);
        proof {
            assert(tokens@ =~= seq![xlm_token, usdc_token, eurc_token]);
        }
        Ok(())
    }

    // ─── create_group_vault ──────────────────────────────────────────────────

    /// Creates a vault in which each listed member commits to lock the amount
    /// at the same position of `amounts` (a later entry for a member replaces
    /// an earlier one), and returns its id. Nothing moves until members deposit.
    pub fn create_group_vault(
        env: &mut HostEnv,
        creator: Address,
        token: Address,
        members: Vec<Address>,
        amounts: Vec<i128>,
        unlock_time: u64,
        funding_deadline: u64,
        lock_type: LockType,
        penalty_rate: u32,
    ) -> (r: Result<u64, CcpError>)
        requires
            valid_ledger(old(env).storage@),
            create_error(
                old(env).storage@,
                old(env).timestamp,
                token,
                members@,
                amounts@,
                unlock_time,
                funding_deadline,
                lock_type,
                penalty_rate,
            ) is None ==> create_fits(old(env).storage@, amounts@),
        ensures
            match spec_create(
                old(env).storage@,
                old(env).timestamp,
                creator,
                token,
                members@,
                amounts@,
                unlock_time,
                funding_deadline,
                lock_type,
                penalty_rate,
            ) {
                Ok((s2, fx, id)) => {
                    &&& r == Ok::<u64, CcpError>(id)
                    &&& final(env).storage@ == s2
                    &&& final(env).effects@ == old(env).effects@ + fx
                    &&& final(env).timestamp == old(env).timestamp
                },
                Err(e) => r == Err::<u64, CcpError>(e) && *final(env) == *old(env),
            },
            r is Ok ==> {
                &&& 5 <= members@.len() <= 100
                &&& amounts@.len() == members@.len()
                &&& forall|i: int| 0 <= i < amounts@.len() ==> #[trigger] amounts@[i] > 0
                &&& old(env).storage@.supported_tokens matches Some(ts) && ts.contains(token)
                &&& old(env).timestamp < funding_deadline
                &&& funding_deadline < unlock_time
                &&& lock_type == LockType::Penalty ==> 1 <= penalty_rate <= 10_000
            },
            valid_ledger(final(env).storage@),
            persistent_entries_extended(&old(env).storage) ==> persistent_entries_extended(
                &final(env).storage,
            ),
    {
        proof {
            crate::contract_laws::lemma_create_requirements(
                env.storage@,
                env.timestamp,
                creator,
                token,
                members@,
                amounts@,
                unlock_time,
                funding_deadline,
                lock_type,
                penalty_rate,
            );
        }
        let member_count = members.len();
        if member_count < 5 || member_count > 100 {
            return Err(CcpError::InvalidMemberCount);
        }
        if amounts.len() != member_count {
            return Err(CcpError::MemberAmountMismatch);
        }
        if !all_positive(&amounts) {
            return Err(CcpError::InvalidObligationAmount);
        }
        if !env.storage.has(&DataKey::SupportedTokens) {
            return Err(CcpError::NotInitialized);
        }
        if !is_supported_token(&env.storage, &token) {
            return Err(CcpError::UnsupportedToken);
        }
        let now = env.timestamp;
        if unlock_time <= now {
            return Err(CcpError::InvalidUnlockTime);
        }
        if funding_deadline <= now || funding_deadline >= unlock_time {
            return Err(CcpError::InvalidFundingDeadline);
        }
        match lock_type {
            LockType::Penalty => {
                if penalty_rate == 0 || penalty_rate > 10_000 {
                    return Err(CcpError::InvalidPenaltyRate);
                }
            },
            LockType::Strict => {},
        }
        let ghost s0 = env.storage@;
        let ghost fx0 = env.effects@;
        let ghost ms = members@;
        let ghost am = amounts@;
        proof {
            lemma_create_preserves(
                s0,
                now,
                creator,
                token,
                ms,
                am,
                unlock_time,
                funding_deadline,
                lock_type,
                penalty_rate,
            );
        }
        // Build obligations map and compute total_size
        let mut obligations: AssocMap<Address, i128> = AssocMap::new();
        let mut total_size: i128 = 0;
        let mut i: usize = 0;
        while i < member_count
            invariant
                member_count == ms.len(),
                am.len() == ms.len(),
                ms == members@,
                am == amounts@,
                0 <= i <= member_count,
                obligations@ == build_obligations(ms.take(i as int), am.take(i as int)),
                total_size == seq_sum(am.take(i as int)),
                seq_sum(am) <= i128::MAX,
                forall|j: int| 0 <= j < am.len() ==> #[trigger] am[j] > 0,
            decreases member_count - i,
        {
            proof {
                lemma_obligations_step(ms, am, i as int);
                lemma_sum_prefix_step(am, i as int);
                lemma_sum_prefix_le(am, i + 1);
            }
            let member = members[i];
            let amount = amounts[i];
            obligations.insert(member, amount);
            total_size = total_size + amount;
            i = i + 1;
        }
        proof {
            assert(ms.take(member_count as int) =~= ms);
            assert(am.take(member_count as int) =~= am);
        }
        // Fixed 5% creator commission (500 basis points)
        let commission_rate: u32 = 500;
        let vault_id = next_vault_id(&mut env.storage);
        let vault = GroupVault {
            vault_id,
            creator,
            token,
            members,
            obligations,
            unlock_time,
            funding_deadline,
            lock_type,
            penalty_rate,
            state: VaultState::FundingOpen,
            total_size,
            deposited_count: 0,
            claimed_count: 0,
            eligible_claimers: 0,
            original_pool: 0,
            commission_rate,
        };
        save_group_vault(&mut env.storage, vault_id, &vault);
        let ghost s1 = env.storage@;
        proof {
            assert(records_with_commitments(s1.records, vault_id, ms.take(0), am.take(0))
                =~= s1.records);
            assert(index_members(s1.member_vaults, vault_id, ms.take(0)) =~= s1.member_vaults);
            assert(env.storage@ =~= StorageModel {
                records: records_with_commitments(s1.records, vault_id, ms.take(0), am.take(0)),
                member_vaults: index_members(s1.member_vaults, vault_id, ms.take(0)),
                ..s1
            });
        }
        // Create a member record for each member and index the vault under it
        let mut i: usize = 0;
        while i < member_count
            invariant
                member_count == ms.len(),
                am.len() == ms.len(),
                vault.members@ == ms,
                am == amounts@,
                0 <= i <= member_count,
                env.storage@ == (StorageModel {
                    records: records_with_commitments(
                        s1.records,
                        vault_id,
                        ms.take(i as int),
                        am.take(i as int),
                    ),
                    member_vaults: index_members(s1.member_vaults, vault_id, ms.take(i as int)),
                    ..s1
                }),
                env.effects@ == fx0,
                env.timestamp == now,
                persistent_entries_extended(&old(env).storage) ==> persistent_entries_extended(
                    &env.storage,
                ),
            decreases member_count - i,
        {
            let member = vault.members[i];
            let amount = amounts[i];
            save_member_record(
                &mut env.storage,
                vault_id,
                &member,
                &MemberRecord { state: MemberState::Committed, amount },
            );
            let mut mv = get_member_vaults(&env.storage, &member);
            mv.push(vault_id);
            save_member_vaults(&mut env.storage, &member, &mv);
            proof {
                lemma_commitments_step(s1.records, vault_id, ms, am, i as int);
                lemma_index_members_step(s1.member_vaults, vault_id, ms, i as int);
            }
            i = i + 1;
            proof {
                assert(env.storage@ =~= StorageModel {
                    records: records_with_commitments(
                        s1.records,
                        vault_id,
                        ms.take(i as int),
                        am.take(i as int),
                    ),
                    member_vaults: index_members(s1.member_vaults, vault_id, ms.take(i as int)),
                    ..s1
                });
            }
        }
        // Index vault under creator
        let mut cv = get_creator_vaults(&env.storage, &creator);
        cv.push(vault_id);
        save_creator_vaults(&mut env.storage, &creator, &cv);
        env.publish(
            Event::GroupVaultCreated(
                GroupVaultCreatedEvent {
                    vault_id,
                    creator,
                    token,
                    member_count: member_count as u32,
                    total_vault_size: total_size,
                    unlock_time,
                    lock_type,
                },
            ),
        );
        proof {
            assert(ms.take(member_count as int) =~= ms);
            assert(am.take(member_count as int) =~= am);
            let sp = spec_create(
                s0,
                now,
                creator,
                token,
                ms,
                am,
                unlock_time,
                funding_deadline,
                lock_type,
                penalty_rate,
            )->Ok_0;
            assert(env.storage@ =~= sp.0);
            assert(env.effects@ =~= fx0 + sp.1);
        }
        Ok(vault_id)
    }

    // ─── deposit ─────────────────────────────────────────────────────────────

    /// A committed member pays in: the full amount moves to the contract, the
    /// creator's commission is forwarded, and the rest is locked. When every
    /// listed member has paid in, the vault becomes active and locked.
    pub fn deposit(env: &mut HostEnv, caller: Address, vault_id: u64) -> (r: Result<(), CcpError>)
        requires
            valid_ledger(old(env).storage@),
            deposit_fits(old(env).storage@, old(env).timestamp, caller, vault_id),
        ensures
            match spec_deposit(old(env).storage@, old(env).timestamp, caller, vault_id) {
                Ok((s2, fx)) => {
                    &&& r == Ok::<(), CcpError>(())
                    &&& final(env).storage@ == s2
                    &&& final(env).effects@ == old(env).effects@ + fx
                    &&& final(env).timestamp == old(env).timestamp
                },
                Err(e) => r == Err::<(), CcpError>(e) && *final(env) == *old(env),
            },
            r is Ok <==> {
                let s = old(env).storage@;
                &&& s.vaults.dom().contains(vault_id)
                &&& s.vaults[vault_id].state == VaultState::FundingOpen
                &&& old(env).timestamp <= s.vaults[vault_id].funding_deadline
                &&& s.records.dom().contains(rkey(vault_id, caller))
                &&& s.records[rkey(vault_id, caller)].state == MemberState::Committed
            },
            r is Ok ==> {
                let a = old(env).storage@.records[rkey(vault_id, caller)].amount as int;
                let locked = final(env).storage@.records[rkey(vault_id, caller)].amount as int;
                let rate = old(env).storage@.vaults[vault_id].commission_rate as int;
                &&& 10_000 * (a - locked) <= a * rate
                &&& a * rate < 10_000 * (a - locked + 1)
                &&& 0 <= locked <= a
            },
            valid_ledger(final(env).storage@),
            persistent_entries_extended(&old(env).storage) ==> persistent_entries_extended(
                &final(env).storage,
            ),
    {
        proof {
            crate::contract_laws::lemma_deposit_requirements(
                env.storage@,
                env.timestamp,
                caller,
                vault_id,
            );
        }
        let mut vault = match get_group_vault_unchecked(&env.storage, vault_id) {
            Some(v) => v,
            None => return Err(CcpError::VaultNotFound),
        };
        if vault.state != VaultState::FundingOpen {
            return Err(CcpError::WrongVaultState);
        }
        if env.timestamp > vault.funding_deadline {
            return Err(CcpError::FundingDeadlinePassed);
        }
        let mut record = match get_member_record(&env.storage, vault_id, &caller) {
            Some(r) => r,
            None => return Err(CcpError::NotMember),
        };
        if record.state != MemberState::Committed {
            return Err(CcpError::WrongMemberState);
        }
        let ghost s0 = env.storage@;
        let ghost fx0 = env.effects@;
        let ghost now = env.timestamp;
        proof {
            lemma_deposit_preserves(s0, now, caller, vault_id);
            assert(vault_ok(s0, vault_id));
        }
        let amount = record.amount;
        // Split deposit: commission to creator, remainder locked in contract
        let commission = amount * (vault.commission_rate as i128) / 10_000;
        let locked_amount = amount - commission;
        // Transfer full amount from member to contract first
        env.transfer(vault.token, Party::Account(caller), Party::Contract, amount);
        // Immediately forward commission to creator
        if commission > 0 {
            env.transfer(vault.token, Party::Contract, Party::Account(vault.creator), commission);
        }
        // Store the net locked amount in the member record
        record.state = MemberState::Deposited;
        record.amount = locked_amount;
        save_member_record(&mut env.storage, vault_id, &caller, &record);
        vault.deposited_count = vault.deposited_count + 1;
        save_group_vault(&mut env.storage, vault_id, &vault);
        env.publish(
            Event::MemberDeposited(
                MemberDepositedEvent { vault_id, member: caller, amount: locked_amount },
            ),
        );
        let ghost s1 = env.storage@;
        // Check if fully funded → activate
        if vault.deposited_count == vault.members.len() as u32 {
            let n = vault.members.len();
            let mut i: usize = 0;
            while i < n
                invariant
                    n == vault.members@.len(),
                    vault.members@ == s0.vaults[vault_id].members,
                    vault_ok(s0, vault_id),
                    s0.vaults.dom().contains(vault_id),
                    s1.records.dom() == s0.records.dom(),
                    0 <= i <= n,
                    env.storage@ == (StorageModel {
                        records: Map::new(
                            |k: RecordKey| s1.records.dom().contains(k),
                            |k: RecordKey|
                                if k.vault_id == vault_id && vault.members@.take(i as int).contains(
                                    k.member,
                                ) {
                                    MemberRecord {
                                        state: MemberState::Active,
                                        amount: s1.records[k].amount,
                                    }
                                } else {
                                    s1.records[k]
                                },
                        ),
                        ..s1
                    }),
                    env.timestamp == now,
                    persistent_entries_extended(&old(env).storage) ==> persistent_entries_extended(
                        &env.storage,
                    ),
                    env.effects@ == old(env).effects@ + seq![
                        pay(vault.token, Party::Account(caller), Party::Contract, amount as int),
                    ] + (if commission > 0 {
                        seq![pay(vault.token, Party::Contract, Party::Account(vault.creator), commission as int)]
                    } else {
                        Seq::empty()
                    }) + seq![
                        publish(
                            Event::MemberDeposited(
                                MemberDepositedEvent { vault_id, member: caller, amount: locked_amount },
                            ),
                        ),
                    ],
                decreases n - i,
            {
                let member = vault.members[i];
                proof {
                    assert(s0.records.dom().contains(rkey(vault_id, vault.members@[i as int])));
                }
                let mut mr = get_member_record(&env.storage, vault_id, &member).unwrap();
                mr.state = MemberState::Active;
                save_member_record(&mut env.storage, vault_id, &member, &mr);
                proof {
                    let t0 = vault.members@.take(i as int);
                    let t1 = vault.members@.take(i + 1);
                    assert forall|x: Address| t1.contains(x) == (t0.contains(x) || x == member) by {
                        if t1.contains(x) {
                            let j = choose|j: int| 0 <= j < t1.len() && t1[j] == x;
                            if j < i {
                                assert(t0[j] == x);
                            }
                        }
                        if t0.contains(x) {
                            let j = choose|j: int| 0 <= j < t0.len() && t0[j] == x;
                            assert(t1[j] == x);
                        }
                        if x == member {
                            assert(t1[i as int] == x);
                        }
                    }
                }
                i = i + 1;
                proof {
                    let cur = env.storage@.records;
                    let want = Map::new(
                        |k: RecordKey| s1.records.dom().contains(k),
                        |k: RecordKey|
                            if k.vault_id == vault_id && vault.members@.take(i as int).contains(
                                k.member,
                            ) {
                                MemberRecord {
                                    state: MemberState::Active,
                                    amount: s1.records[k].amount,
                                }
                            } else {
                                s1.records[k]
                            },
                    );
                    assert(cur =~= want);
                    assert(env.storage@ =~= StorageModel { records: want, ..s1 });
                }
            }
            vault.state = VaultState::ActiveLocked;
            save_group_vault(&mut env.storage, vault_id, &vault);
            env.publish(Event::VaultActivated(VaultActivatedEvent { vault_id }));
            proof {
                assert(vault.members@.take(n as int) =~= vault.members@);
                let sp = spec_deposit(s0, now, caller, vault_id)->Ok_0;
                assert(env.storage@.records =~= sp.0.records);
                assert(env.storage@ =~= sp.0);
                assert(env.effects@ =~= fx0 + sp.1);
            }
        } else {
            proof {
                let sp = spec_deposit(s0, now, caller, vault_id)->Ok_0;
                assert(env.storage@ =~= sp.0);
                assert(env.effects@ =~= fx0 + sp.1);
            }
        }
        Ok(())
    }

    // ─── cancel ──────────────────────────────────────────────────────────────

    /// Cancels a vault whose funding deadline passed before every member paid
    /// in. Anyone may call it.
    pub fn cancel(env: &mut HostEnv, vault_id: u64) -> (r: Result<(), CcpError>)
        requires
            valid_ledger(old(env).storage@),
        ensures
            match spec_cancel(old(env).storage@, old(env).timestamp, vault_id) {
                Ok((s2, fx)) => {
                    &&& r == Ok::<(), CcpError>(())
                    &&& final(env).storage@ == s2
                    &&& final(env).effects@ == old(env).effects@ + fx
                    &&& final(env).timestamp == old(env).timestamp
                },
                Err(e) => r == Err::<(), CcpError>(e) && *final(env) == *old(env),
            },
            r is Ok <==> {
                let s = old(env).storage@;
                &&& s.vaults.dom().contains(vault_id)
                &&& s.vaults[vault_id].state == VaultState::FundingOpen
                &&& old(env).timestamp > s.vaults[vault_id].funding_deadline
            },
            r is Ok ==> final(env).storage@.vaults[vault_id].state == VaultState::Cancelled,
            valid_ledger(final(env).storage@),
            persistent_entries_extended(&old(env).storage) ==> persistent_entries_extended(
                &final(env).storage,
            ),
    {
        proof {
            crate::contract_laws::lemma_cancel_only_after_deadline(
                env.storage@,
                env.timestamp,
                vault_id,
            );
        }
        let mut vault = match get_group_vault_unchecked(&env.storage, vault_id) {
            Some(v) => v,
            None => return Err(CcpError::VaultNotFound),
        };
        if vault.state != VaultState::FundingOpen {
            return Err(CcpError::WrongVaultState);
        }
        if env.timestamp <= vault.funding_deadline {
            return Err(CcpError::FundingDeadlineNotPassed);
        }
        let ghost s0 = env.storage@;
        let ghost fx0 = env.effects@;
        vault.state = VaultState::Cancelled;
        save_group_vault(&mut env.storage, vault_id, &vault);
        env.publish(Event::VaultCancelled(VaultCancelledEvent { vault_id }));
        proof {
            let s1 = env.storage@;
            assert(s1 =~= spec_cancel(s0, env.timestamp, vault_id)->Ok_0.0);
            assert(env.effects@ =~= fx0 + spec_cancel(s0, env.timestamp, vault_id)->Ok_0.1);
            assert forall|id: u64| #[trigger] s1.vaults.dom().contains(id) implies id
                < s1.vault_counter.unwrap_or(0) && vault_ok(s1, id) by {
                if id != vault_id {
                    lemma_vault_ok_frame(s0, s1, id);
                } else {
                    assert(vault_ok(s0, id));
                    assert forall|m: Address| #[trigger] s1.records.dom().contains(rkey(id, m)) implies crate::model::record_ok(
                        VaultState::Cancelled,
                        s1.records[rkey(id, m)],
                    ) by {
                        assert(crate::model::record_ok(VaultState::FundingOpen, s0.records[rkey(id, m)]));
                    }
                }
            }
        }
        Ok(())
    }

    // ─── withdraw ────────────────────────────────────────────────────────────

    /// Takes a member's money out of a vault: a refund of the locked amount
    /// from a cancelled vault, the locked amount at maturity, or an early exit
    /// from a penalty vault that pays the penalty into the community pool.
    /// A locked vault whose unlock time has come becomes settlement-ready first.
    pub fn withdraw(env: &mut HostEnv, caller: Address, vault_id: u64) -> (r: Result<(), CcpError>)
        requires
            valid_ledger(old(env).storage@),
            withdraw_fits(old(env).storage@, old(env).timestamp, caller, vault_id),
        ensures
            match spec_withdraw(old(env).storage@, old(env).timestamp, caller, vault_id) {
                Ok((s2, fx)) => {
                    &&& r == Ok::<(), CcpError>(())
                    &&& final(env).storage@ == s2
                    &&& final(env).effects@ == old(env).effects@ + fx
                    &&& final(env).timestamp == old(env).timestamp
                },
                Err(e) => r == Err::<(), CcpError>(e) && *final(env) == *old(env),
            },
            r is Ok && old(env).storage@.vaults[vault_id].state == VaultState::ActiveLocked
                && old(env).timestamp < old(env).storage@.vaults[vault_id].unlock_time ==> {
                let a = old(env).storage@.records[rkey(vault_id, caller)].amount as int;
                let penalty = pool_of(final(env).storage@, vault_id) - pool_of(
                    old(env).storage@,
                    vault_id,
                );
                let rate = old(env).storage@.vaults[vault_id].penalty_rate as int;
                &&& 10_000 * penalty <= a * rate
                &&& a * rate < 10_000 * (penalty + 1)
                &&& 0 <= penalty <= a
                &&& final(env).storage@.records[rkey(vault_id, caller)].state == MemberState::Exited
            },
            valid_ledger(final(env).storage@),
            persistent_entries_extended(&old(env).storage) ==> persistent_entries_extended(
                &final(env).storage,
            ),
    {
        proof {
            if spec_withdraw(env.storage@, env.timestamp, caller, vault_id) is Ok
                && env.storage@.vaults[vault_id].state == VaultState::ActiveLocked
                && env.timestamp < env.storage@.vaults[vault_id].unlock_time {
                crate::contract_laws::lemma_early_exit_penalty(
                    env.storage@,
                    env.timestamp,
                    caller,
                    vault_id,
                );
            }
        }
        let mut vault = match get_group_vault_unchecked(&env.storage, vault_id) {
            Some(v) => v,
            None => return Err(CcpError::VaultNotFound),
        };
        let ghost s0 = env.storage@;
        let ghost fx0 = env.effects@;
        let ghost now = env.timestamp;
        proof {
            assert(vault_ok(s0, vault_id));
            lemma_settled_facts(s0, vault_id, now);
        }
        // Lazy SettlementReady transition
        maybe_transition_to_settlement_ready(&env.storage, vault_id, &mut vault, env.timestamp);
        match vault.state {
            VaultState::Cancelled => {
                // Refund path
                let mut record = match get_member_record(&env.storage, vault_id, &caller) {
                    Some(r) => r,
                    None => return Err(CcpError::NotMember),
                };
                if record.state != MemberState::Deposited {
                    return Err(CcpError::WrongMemberState);
                }
                proof {
                    lemma_withdraw_preserves(s0, now, caller, vault_id);
                }
                let amount = record.amount;
                env.transfer(vault.token, Party::Contract, Party::Account(caller), amount);
                record.state = MemberState::Withdrawn;
                save_member_record(&mut env.storage, vault_id, &caller, &record);
                save_group_vault(&mut env.storage, vault_id, &vault);
                env.publish(
                    Event::MemberWithdrawn(MemberWithdrawnEvent { vault_id, member: caller, amount }),
                );
            },
            VaultState::SettlementReady => {
                // Mature withdrawal
                let mut record = match get_member_record(&env.storage, vault_id, &caller) {
                    Some(r) => r,
                    None => return Err(CcpError::NotMember),
                };
                if record.state != MemberState::Active && record.state
                    != MemberState::ClaimedActive {
                    return Err(CcpError::WrongMemberState);
                }
                proof {
                    lemma_withdraw_preserves(s0, now, caller, vault_id);
                }
                let amount = record.amount;
                env.transfer(vault.token, Party::Contract, Party::Account(caller), amount);
                // A member who already claimed its pool share is done.
                record.state =
                    if record.state == MemberState::ClaimedActive {
                        MemberState::Claimed
                    } else {
                        MemberState::Withdrawn
                    };
                save_member_record(&mut env.storage, vault_id, &caller, &record);
                save_group_vault(&mut env.storage, vault_id, &vault);
                env.publish(
                    Event::MemberWithdrawn(MemberWithdrawnEvent { vault_id, member: caller, amount }),
                );
            },
            VaultState::ActiveLocked => {
                // Early exit
                let mut record = match get_member_record(&env.storage, vault_id, &caller) {
                    Some(r) => r,
                    None => return Err(CcpError::NotMember),
                };
                if record.state != MemberState::Active {
                    return Err(CcpError::WrongMemberState);
                }
                if vault.lock_type == LockType::Strict {
                    return Err(CcpError::EarlyExitNotAllowed);
                }
                proof {
                    lemma_withdraw_preserves(s0, now, caller, vault_id);
                    assert(vault_ok(s0, vault_id));
                }
                let (payout, penalty) = calculate_penalty(record.amount, vault.penalty_rate);
                env.transfer(vault.token, Party::Contract, Party::Account(caller), payout);
                add_to_pool(&mut env.storage, vault_id, penalty);
                record.state = MemberState::Exited;
                save_member_record(&mut env.storage, vault_id, &caller, &record);
                save_group_vault(&mut env.storage, vault_id, &vault);
                // An early exit never settles the vault: its unlock time has not come.
                env.publish(
                    Event::MemberEarlyExit(
                        MemberEarlyExitEvent { vault_id, member: caller, payout, penalty },
                    ),
                );
            },
            VaultState::Resolved => {
                // Mature withdrawal by a member who claimed its pool share while active
                let mut record = match get_member_record(&env.storage, vault_id, &caller) {
                    Some(r) => r,
                    None => return Err(CcpError::WrongVaultState),
                };
                if record.state != MemberState::ClaimedActive {
                    return Err(CcpError::WrongVaultState);
                }
                proof {
                    lemma_withdraw_preserves(s0, now, caller, vault_id);
                }
                let amount = record.amount;
                env.transfer(vault.token, Party::Contract, Party::Account(caller), amount);
                record.state = MemberState::Claimed;
                save_member_record(&mut env.storage, vault_id, &caller, &record);
                save_group_vault(&mut env.storage, vault_id, &vault);
                env.publish(
                    Event::MemberWithdrawn(MemberWithdrawnEvent { vault_id, member: caller, amount }),
                );
            },
            VaultState::FundingOpen => {
                return Err(CcpError::WrongVaultState);
            },
        }
        proof {
            let sp = spec_withdraw(s0, now, caller, vault_id)->Ok_0;
            assert(env.storage@ =~= sp.0);
            assert(env.effects@ =~= fx0 + sp.1);
        }
        Ok(())
    }

    // ─── claim_pool ──────────────────────────────────────────────────────────

    /// A member who stayed to maturity takes a share of the community pool:
    /// the pool fixed at settlement is shared equally among the members who
    /// were eligible then, the first claimer also taking the remainder. When
    /// every eligible member has claimed, the vault is resolved.
    pub fn claim_pool(env: &mut HostEnv, caller: Address, vault_id: u64) -> (r: Result<(), CcpError>)
        requires
            valid_ledger(old(env).storage@),
        ensures
            match spec_claim(old(env).storage@, old(env).timestamp, caller, vault_id) {
                Ok((s2, fx)) => {
                    &&& r == Ok::<(), CcpError>(())
                    &&& final(env).storage@ == s2
                    &&& final(env).effects@ == old(env).effects@ + fx
                    &&& final(env).timestamp == old(env).timestamp
                },
                Err(e) => r == Err::<(), CcpError>(e) && *final(env) == *old(env),
            },
            valid_ledger(final(env).storage@),
            persistent_entries_extended(&old(env).storage) ==> persistent_entries_extended(
                &final(env).storage,
            ),
    {
        let mut vault = match get_group_vault_unchecked(&env.storage, vault_id) {
            Some(v) => v,
            None => return Err(CcpError::VaultNotFound),
        };
        let ghost s0 = env.storage@;
        let ghost fx0 = env.effects@;
        let ghost now = env.timestamp;
        proof {
            assert(vault_ok(s0, vault_id));
        }
        // Lazy SettlementReady transition
        maybe_transition_to_settlement_ready(&env.storage, vault_id, &mut vault, env.timestamp);
        if vault.state != VaultState::SettlementReady {
            return Err(CcpError::WrongVaultState);
        }
        let mut record = match get_member_record(&env.storage, vault_id, &caller) {
            Some(r) => r,
            None => return Err(CcpError::NotMember),
        };
        if record.state != MemberState::Active && record.state != MemberState::Withdrawn {
            return Err(CcpError::WrongMemberState);
        }
        proof {
            lemma_claim_preserves(s0, now, caller, vault_id);
        }
        let pool_balance = get_pool(&env.storage, vault_id);
        let claimable_count = vault.eligible_claimers;
        let claim_amount: i128 = if vault.original_pool == 0 || claimable_count == 0 {
            0
        } else {
            let base = vault.original_pool / (claimable_count as i128);
            let remainder = vault.original_pool % (claimable_count as i128);
            // The first claimer takes the remainder too.
            if vault.claimed_count == 0 {
                base + remainder
            } else {
                base
            }
        };
        if claim_amount > 0 {
            env.transfer(vault.token, Party::Contract, Party::Account(caller), claim_amount);
            set_pool(&mut env.storage, vault_id, pool_balance - claim_amount);
        }
        // A member who has not withdrawn keeps its locked amount owed.
        record.state =
            if record.state == MemberState::Active {
                MemberState::ClaimedActive
            } else {
                MemberState::Claimed
            };
        save_member_record(&mut env.storage, vault_id, &caller, &record);
        vault.claimed_count = vault.claimed_count + 1;
        save_group_vault(&mut env.storage, vault_id, &vault);
        env.publish(
            Event::PoolClaimed(PoolClaimedEvent { vault_id, member: caller, claimed: claim_amount }),
        );
        // Resolve when all eligible claimers have claimed
        if vault.claimed_count == claimable_count {
            vault.state = VaultState::Resolved;
            save_group_vault(&mut env.storage, vault_id, &vault);
            env.publish(Event::VaultResolved(VaultResolvedEvent { vault_id }));
        }
        proof {
            let sp = spec_claim(s0, now, caller, vault_id)->Ok_0;
            assert(env.storage@ =~= sp.0);
            assert(env.effects@ =~= fx0 + sp.1);
        }
        Ok(())
    }

    // ─── Arithmetic limits ───────────────────────────────────────────────────

    /// Whether the arithmetic of this creation fits the machine, wherever
    /// the creation would get as far as adding up the amounts.
    pub fn create_arithmetic_fits(env: &HostEnv, amounts: &Vec<i128>) -> (r: bool)
        ensures
            (forall|j: int| 0 <= j < amounts@.len() ==> #[trigger] amounts@[j] > 0) ==> r
                == create_fits(env.storage@, amounts@),
    {
        if !all_positive(amounts) {
            return true;
        }
        if peek_vault_counter(&env.storage) == u64::MAX {
            return false;
        }
        let ghost am = amounts@;
        let mut total: i128 = 0;
        let mut i: usize = 0;
        while i < amounts.len()
            invariant
                am == amounts@,
                0 <= i <= am.len(),
                total == seq_sum(am.take(i as int)),
                forall|j: int| 0 <= j < am.len() ==> #[trigger] am[j] > 0,
            decreases am.len() - i,
        {
            proof {
                lemma_sum_prefix_step(am, i as int);
                lemma_sum_prefix_le(am, i + 1);
            }
            match total.checked_add(amounts[i]) {
                Some(t) => total = t,
                None => return false,
            }
            i = i + 1;
        }
        proof {
            assert(am.take(am.len() as int) =~= am);
        }
        true
    }

    /// Whether the commission of this deposit fits the machine.
    pub fn deposit_arithmetic_fits(env: &HostEnv, caller: Address, vault_id: u64) -> (r: bool)
        ensures
            r == deposit_fits(env.storage@, env.timestamp, caller, vault_id),
    {
        let vault = match get_group_vault_unchecked(&env.storage, vault_id) {
            Some(v) => v,
            None => return true,
        };
        if vault.state != VaultState::FundingOpen || env.timestamp > vault.funding_deadline {
            return true;
        }
        let record = match get_member_record(&env.storage, vault_id, &caller) {
            Some(r) => r,
            None => return true,
        };
        if record.state != MemberState::Committed {
            return true;
        }
        if record.amount < 0 {
            proof {
                let a = record.amount as int;
                let c = vault.commission_rate as int;
                assert(a * c <= 0) by (nonlinear_arith)
                    requires
                        a < 0,
                        c >= 0,
                ;
            }
            return true;
        }
        record.amount.checked_mul(vault.commission_rate as i128).is_some()
    }

    /// Whether the penalty of this early exit, and the pool it joins, fit the
    /// machine.
    pub fn withdraw_arithmetic_fits(env: &HostEnv, caller: Address, vault_id: u64) -> (r: bool)
        ensures
            r == withdraw_fits(env.storage@, env.timestamp, caller, vault_id),
    {
        let vault = match get_group_vault_unchecked(&env.storage, vault_id) {
            Some(v) => v,
            None => return true,
        };
        // Only an early exit from a locked penalty vault computes a penalty.
        if vault.state != VaultState::ActiveLocked || env.timestamp >= vault.unlock_time {
            return true;
        }
        let record = match get_member_record(&env.storage, vault_id, &caller) {
            Some(r) => r,
            None => return true,
        };
        if record.state != MemberState::Active || vault.lock_type == LockType::Strict {
            return true;
        }
        match record.amount.checked_mul(vault.penalty_rate as i128) {
            None => false,
            Some(product) => {
                let penalty = product / 10_000;
                get_pool(&env.storage, vault_id).checked_add(penalty).is_some()
            },
        }
    }

    // ─── Read-only queries ───────────────────────────────────────────────────

    /// The stored vault.
    pub fn get_group_vault(env: &HostEnv, vault_id: u64) -> (r: Result<GroupVault, CcpError>)
        ensures
            r is Ok == env.storage@.vaults.dom().contains(vault_id),
            r is Ok ==> r->Ok_0@ == env.storage@.vaults[vault_id],
            r is Err ==> r->Err_0 == CcpError::VaultNotFound,
    {
        match get_group_vault_unchecked(&env.storage, vault_id) {
            Some(v) => Ok(v),
            None => Err(CcpError::VaultNotFound),
        }
    }

    /// A member's record in a vault.
    pub fn get_member_state(env: &HostEnv, vault_id: u64, member: Address) -> (r: Result<
        MemberRecord,
        CcpError,
    >)
        ensures
            r == (if !env.storage@.vaults.dom().contains(vault_id) {
                Err(CcpError::VaultNotFound)
            } else if !env.storage@.records.dom().contains(rkey(vault_id, member)) {
                Err(CcpError::NotMember)
            } else {
                Ok(env.storage@.records[rkey(vault_id, member)])
            }),
    {
        if get_group_vault_unchecked(&env.storage, vault_id).is_none() {
            return Err(CcpError::VaultNotFound);
        }
        match get_member_record(&env.storage, vault_id, &member) {
            Some(r) => Ok(r),
            None => Err(CcpError::NotMember),
        }
    }

    /// The ids of the vaults `creator` created, oldest first.
    pub fn get_vaults_by_creator(env: &HostEnv, creator: Address) -> (r: Vec<u64>)
        ensures
            r@ == list_of(env.storage@.creator_vaults, creator),
    {
        get_creator_vaults(&env.storage, &creator)
    }

    /// The ids of the vaults that list `member`, oldest first, once per listing.
    pub fn get_vaults_by_member(env: &HostEnv, member: Address) -> (r: Vec<u64>)
        ensures
            r@ == list_of(env.storage@.member_vaults, member),
    {
        get_member_vaults(&env.storage, &member)
    }

    /// The vault's community pool.
    pub fn get_pool_balance(env: &HostEnv, vault_id: u64) -> (r: i128)
        ensures
            r == pool_of(env.storage@, vault_id),
    {
        get_pool(&env.storage, vault_id)
    }

    /// What `member` would receive if the current pool were shared equally
    /// among the members who may claim now; 0 where the member may not claim.
    pub fn get_member_claim_amount(env: &HostEnv, vault_id: u64, member: Address) -> (r: i128)
        requires
            valid_ledger(env.storage@),
        ensures
            r == member_claim_amount(env.storage@, vault_id, member),
            !(env.storage@.vaults.dom().contains(vault_id) && env.storage@.records.dom().contains(
                rkey(vault_id, member),
            ) && (env.storage@.records[rkey(vault_id, member)].state == MemberState::Active
                || env.storage@.records[rkey(vault_id, member)].state == MemberState::Withdrawn))
                ==> r == 0,
            0 <= r <= pool_of(env.storage@, vault_id),
    {
        proof {
            crate::contract_laws::lemma_claim_amount_only_for_claimers(
                env.storage@,
                vault_id,
                member,
            );
        }
        let vault = match get_group_vault_unchecked(&env.storage, vault_id) {
            Some(v) => v,
            None => return 0,
        };
        let record = match get_member_record(&env.storage, vault_id, &member) {
            Some(r) => r,
            None => return 0,
        };
        if record.state != crate::types::MemberState::Active && record.state
            != crate::types::MemberState::Withdrawn {
            return 0;
        }
        proof {
            assert(vault_ok(env.storage@, vault_id));
        }
        let pool_balance = get_pool(&env.storage, vault_id);
        let claimable_count = crate::utils::count_claimable_members(&env.storage, vault_id, &vault);
        if pool_balance == 0 || claimable_count == 0 {
            return 0;
        }
        pool_balance / (claimable_count as i128)
    }
}

} // verus!
