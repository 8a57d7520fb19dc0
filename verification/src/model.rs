//! The protocol as mathematics: integer helpers, counts over a vault's
//! members, the ledger invariant, and what each entry point does to storage
//! and which effects it asks for.
use vstd::prelude::*;

use crate::storage::{list_of, pool_of, rkey, token_supported, RecordKey, StorageModel};
use crate::storage_types::CcpError;
use crate::types::{
    Address, Effect, Event, GroupVaultCreatedEvent, GroupVaultModel, LockType,
    MemberDepositedEvent, MemberEarlyExitEvent, MemberRecord, MemberState,
    MemberWithdrawnEvent, Party, PoolClaimedEvent, Transfer, VaultActivatedEvent,
    VaultCancelledEvent, VaultResolvedEvent, VaultState,
};

verus! {

// ─── Integer helpers ─────────────────────────────────────────────────────────

/// Division rounding toward zero, as machine integers divide (for `b > 0`).
pub open spec fn div_trunc(a: int, b: int) -> int {
    if a >= 0 {
        a / b
    } else {
        -((-a) / b)
    }
}

/// The remainder that goes with `div_trunc` (for `b > 0`).
pub open spec fn rem_trunc(a: int, b: int) -> int {
    if a >= 0 {
        a % b
    } else {
        -((-a) % b)
    }
}

/// `rate` basis points of `amount`, rounded toward zero.
pub open spec fn bps_share(amount: int, rate: int) -> int {
    div_trunc(amount * rate, 10_000)
}

/// The sum of a sequence of amounts.
pub open spec fn seq_sum(s: Seq<i128>) -> int
    decreases s.len(),
{
    if s.len() == 0 {
        0
    } else {
        seq_sum(s.drop_last()) + s.last()
    }
}

// ─── Counting over members ───────────────────────────────────────────────────

/// How many entries of `s` satisfy `p`, each occurrence counted.
pub open spec fn count_where(s: Seq<Address>, p: spec_fn(Address) -> bool) -> nat
    decreases s.len(),
{
    if s.len() == 0 {
        0
    } else {
        count_where(s.drop_last(), p) + if p(s.last()) {
            1nat
        } else {
            0nat
        }
    }
}

/// How many distinct values in `s` satisfy `p`.
pub open spec fn count_distinct_where(s: Seq<Address>, p: spec_fn(Address) -> bool) -> nat
    decreases s.len(),
{
    if s.len() == 0 {
        0
    } else {
        count_distinct_where(s.drop_last(), p) + if p(s.last()) && !s.drop_last().contains(
            s.last(),
        ) {
            1nat
        } else {
            0nat
        }
    }
}

/// Members of vault `id` that have paid in.
pub open spec fn deposited_pred(s: StorageModel, id: u64) -> spec_fn(Address) -> bool {
    |m: Address|
        s.records.dom().contains(rkey(id, m)) && s.records[rkey(id, m)].state
            != MemberState::Committed
}

/// Members of vault `id` that may still claim a share of the pool.
pub open spec fn claimable_pred(s: StorageModel, id: u64) -> spec_fn(Address) -> bool {
    |m: Address|
        s.records.dom().contains(rkey(id, m)) && (s.records[rkey(id, m)].state
            == MemberState::Active || s.records[rkey(id, m)].state == MemberState::Withdrawn)
}

// ─── The ledger invariant ────────────────────────────────────────────────────

/// Which member states a vault in state `vs` can hold.
pub open spec fn state_allows(vs: VaultState, ms: MemberState) -> bool {
    match vs {
        VaultState::FundingOpen => ms == MemberState::Committed || ms == MemberState::Deposited,
        VaultState::Cancelled => ms == MemberState::Committed || ms == MemberState::Deposited
            || ms == MemberState::Withdrawn,
        VaultState::ActiveLocked => ms == MemberState::Active || ms == MemberState::Exited,
        VaultState::SettlementReady => ms == MemberState::Active || ms == MemberState::Exited
            || ms == MemberState::Withdrawn || ms == MemberState::Claimed || ms
            == MemberState::ClaimedActive,
        VaultState::Resolved => ms == MemberState::Exited || ms == MemberState::Claimed || ms
            == MemberState::ClaimedActive,
    }
}

pub open spec fn record_ok(vs: VaultState, r: MemberRecord) -> bool {
    &&& state_allows(vs, r.state)
    &&& r.amount >= 0
    &&& r.state == MemberState::Committed ==> r.amount > 0
}

/// What the pool of a settlement-ready vault holds, given how many have claimed.
pub open spec fn pool_after_claims(v: GroupVaultModel) -> int {
    let k = v.eligible_claimers as int;
    let c = v.claimed_count as int;
    if v.original_pool == 0 || k == 0 || c == 0 {
        v.original_pool as int
    } else {
        (k - c) * div_trunc(v.original_pool as int, k)
    }
}

pub open spec fn vault_ok(s: StorageModel, id: u64) -> bool {
    let v = s.vaults[id];
    &&& v.vault_id == id
    &&& v.members.len() <= 100
    &&& v.commission_rate <= 10_000
    &&& v.lock_type == LockType::Penalty ==> v.penalty_rate <= 10_000
    &&& forall|i: int|
        0 <= i < v.members.len() ==> #[trigger] s.records.dom().contains(rkey(id, v.members[i]))
    &&& forall|m: Address|
        #[trigger] s.records.dom().contains(rkey(id, m)) ==> record_ok(
            v.state,
            s.records[rkey(id, m)],
        )
    &&& match v.state {
        VaultState::FundingOpen => {
            &&& v.deposited_count == count_distinct_where(v.members, deposited_pred(s, id))
            &&& v.claimed_count == 0
            &&& pool_of(s, id) == 0
        },
        VaultState::Cancelled => pool_of(s, id) == 0,
        VaultState::ActiveLocked => {
            &&& v.members.no_duplicates()
            &&& v.claimed_count == 0
            &&& pool_of(s, id) >= 0
        },
        VaultState::SettlementReady => {
            &&& v.members.no_duplicates()
            &&& v.claimed_count <= v.eligible_claimers <= v.members.len()
            &&& count_where(v.members, claimable_pred(s, id)) + v.claimed_count
                == v.eligible_claimers
            &&& v.original_pool >= 0
            &&& pool_of(s, id) == pool_after_claims(v)
        },
        VaultState::Resolved => pool_of(s, id) == 0,
    }
}

/// The invariant that every entry point keeps.
pub open spec fn valid_ledger(s: StorageModel) -> bool {
    &&& s.supported_tokens is None ==> forall|id: u64| !s.vaults.dom().contains(id)
    &&& forall|id: u64| #[trigger]
        s.vaults.dom().contains(id) ==> id < s.vault_counter.unwrap_or(0) && vault_ok(s, id)
    &&& forall|k: RecordKey| #[trigger]
        s.records.dom().contains(k) ==> s.vaults.dom().contains(k.vault_id)
            && s.vaults[k.vault_id].members.contains(k.member)
    &&& forall|id: u64| #[trigger] s.pools.dom().contains(id) ==> s.vaults.dom().contains(id)
}

// ─── Effects ─────────────────────────────────────────────────────────────────

pub open spec fn pay(token: Address, from: Party, to: Party, amount: int) -> Effect {
    Effect::Transfer(Transfer { token, from, to, amount: amount as i128 })
}

pub open spec fn publish(e: Event) -> Effect {
    Effect::Publish(e)
}

// ─── initialize ──────────────────────────────────────────────────────────────

pub open spec fn spec_initialize(s: StorageModel, xlm: Address, usdc: Address, eurc: Address) -> Result<
    StorageModel,
    CcpError,
> {
    if s.supported_tokens is Some {
        Err(CcpError::AlreadyInitialized)
    } else {
        Ok(
            StorageModel {
                supported_tokens: Some(seq![xlm, usdc, eurc]),
                vault_counter: Some(0),
                ..s
            },
        )
    }
}

// ─── create_group_vault ──────────────────────────────────────────────────────

/// The obligations map: each member's amount, a later entry for the same
/// member replacing an earlier one.
pub open spec fn build_obligations(members: Seq<Address>, amounts: Seq<i128>) -> Map<
    Address,
    i128,
>
    decreases members.len(),
{
    if members.len() == 0 || amounts.len() == 0 {
        Map::empty()
    } else {
        build_obligations(members.drop_last(), amounts.drop_last()).insert(
            members.last(),
            amounts.last(),
        )
    }
}

pub open spec fn create_error(
    s: StorageModel,
    now: u64,
    token: Address,
    members: Seq<Address>,
    amounts: Seq<i128>,
    unlock_time: u64,
    funding_deadline: u64,
    lock_type: LockType,
    penalty_rate: u32,
) -> Option<CcpError> {
    if members.len() < 5 || members.len() > 100 {
        Some(CcpError::InvalidMemberCount)
    } else if amounts.len() != members.len() {
        Some(CcpError::MemberAmountMismatch)
    } else if exists|i: int| 0 <= i < amounts.len() && #[trigger] amounts[i] <= 0 {
        Some(CcpError::InvalidObligationAmount)
    } else if s.supported_tokens is None {
        Some(CcpError::NotInitialized)
    } else if !token_supported(s, token) {
        Some(CcpError::UnsupportedToken)
    } else if unlock_time <= now {
        Some(CcpError::InvalidUnlockTime)
    } else if funding_deadline <= now || funding_deadline >= unlock_time {
        Some(CcpError::InvalidFundingDeadline)
    } else if lock_type == LockType::Penalty && (penalty_rate == 0 || penalty_rate > 10_000) {
        Some(CcpError::InvalidPenaltyRate)
    } else {
        None
    }
}

/// The vault that a successful creation stores.
pub open spec fn new_vault(
    id: u64,
    creator: Address,
    token: Address,
    members: Seq<Address>,
    amounts: Seq<i128>,
    unlock_time: u64,
    funding_deadline: u64,
    lock_type: LockType,
    penalty_rate: u32,
) -> GroupVaultModel {
    GroupVaultModel {
        vault_id: id,
        creator,
        token,
        members,
        obligations: build_obligations(members, amounts),
        unlock_time,
        funding_deadline,
        lock_type,
        penalty_rate,
        state: VaultState::FundingOpen,
        total_size: seq_sum(amounts) as i128,
        deposited_count: 0,
        claimed_count: 0,
        eligible_claimers: 0,
        original_pool: 0,
        commission_rate: 500,
    }
}

/// Each member of the new vault `id` gets a committed record for its obligation.
pub open spec fn records_with_commitments(
    records: Map<RecordKey, MemberRecord>,
    id: u64,
    members: Seq<Address>,
    amounts: Seq<i128>,
) -> Map<RecordKey, MemberRecord> {
    Map::new(
        |k: RecordKey| records.dom().contains(k) || (k.vault_id == id && members.contains(k.member)),
        |k: RecordKey|
            if k.vault_id == id && members.contains(k.member) {
                MemberRecord {
                    state: MemberState::Committed,
                    amount: build_obligations(members, amounts)[k.member],
                }
            } else {
                records[k]
            },
    )
}

/// The predicate "is `a`".
pub open spec fn is_addr(a: Address) -> spec_fn(Address) -> bool {
    |x: Address| x == a
}

/// Vault `id` is appended to each member's index, once per time the member is listed.
pub open spec fn index_members(index: Map<Address, Seq<u64>>, id: u64, members: Seq<Address>) -> Map<
    Address,
    Seq<u64>,
> {
    Map::new(
        |a: Address| index.dom().contains(a) || members.contains(a),
        |a: Address| list_of(index, a) + Seq::new(count_where(members, is_addr(a)), |i: int| id),
    )
}

/// Whether the arithmetic of a creation fits the machine: the total of the
/// amounts and the next counter value.
pub open spec fn create_fits(s: StorageModel, amounts: Seq<i128>) -> bool {
    &&& seq_sum(amounts) <= i128::MAX
    &&& s.vault_counter.unwrap_or(0) < u64::MAX
}

pub open spec fn spec_create(
    s: StorageModel,
    now: u64,
    creator: Address,
    token: Address,
    members: Seq<Address>,
    amounts: Seq<i128>,
    unlock_time: u64,
    funding_deadline: u64,
    lock_type: LockType,
    penalty_rate: u32,
) -> Result<(StorageModel, Seq<Effect>, u64), CcpError> {
    match create_error(
        s,
        now,
        token,
        members,
        amounts,
        unlock_time,
        funding_deadline,
        lock_type,
        penalty_rate,
    ) {
        Some(e) => Err(e),
        None => {
            let id = s.vault_counter.unwrap_or(0);
            let v = new_vault(
                id,
                creator,
                token,
                members,
                amounts,
                unlock_time,
                funding_deadline,
                lock_type,
                penalty_rate,
            );
            let s2 = StorageModel {
                vault_counter: Some((id + 1) as u64),
                vaults: s.vaults.insert(id, v),
                records: records_with_commitments(s.records, id, members, amounts),
                member_vaults: index_members(s.member_vaults, id, members),
                creator_vaults: s.creator_vaults.insert(
                    creator,
                    list_of(s.creator_vaults, creator).push(id),
                ),
                ..s
            };
            let fx = seq![
                publish(
                    Event::GroupVaultCreated(
                        GroupVaultCreatedEvent {
                            vault_id: id,
                            creator,
                            token,
                            member_count: members.len() as u32,
                            total_vault_size: v.total_size,
                            unlock_time,
                            lock_type,
                        },
                    ),
                ),
            ];
            Ok((s2, fx, id))
        },
    }
}

// ─── deposit ─────────────────────────────────────────────────────────────────

pub open spec fn deposit_error(s: StorageModel, now: u64, caller: Address, id: u64) -> Option<
    CcpError,
> {
    if !s.vaults.dom().contains(id) {
        Some(CcpError::VaultNotFound)
    } else if s.vaults[id].state != VaultState::FundingOpen {
        Some(CcpError::WrongVaultState)
    } else if now > s.vaults[id].funding_deadline {
        Some(CcpError::FundingDeadlinePassed)
    } else if !s.records.dom().contains(rkey(id, caller)) {
        Some(CcpError::NotMember)
    } else if s.records[rkey(id, caller)].state != MemberState::Committed {
        Some(CcpError::WrongMemberState)
    } else {
        None
    }
}

/// Whether the commission of a deposit fits the machine.
pub open spec fn deposit_fits(s: StorageModel, now: u64, caller: Address, id: u64) -> bool {
    deposit_error(s, now, caller, id) is None ==> s.records[rkey(id, caller)].amount
        * s.vaults[id].commission_rate <= i128::MAX
}

/// Every member record of vault `id` becomes active, keeping its amount.
pub open spec fn activate_records(records: Map<RecordKey, MemberRecord>, id: u64) -> Map<
    RecordKey,
    MemberRecord,
> {
    Map::new(
        |k: RecordKey| records.dom().contains(k),
        |k: RecordKey|
            if k.vault_id == id {
                MemberRecord { state: MemberState::Active, amount: records[k].amount }
            } else {
                records[k]
            },
    )
}

pub open spec fn spec_deposit(s: StorageModel, now: u64, caller: Address, id: u64) -> Result<
    (StorageModel, Seq<Effect>),
    CcpError,
> {
    match deposit_error(s, now, caller, id) {
        Some(e) => Err(e),
        None => {
            let v = s.vaults[id];
            let amount = s.records[rkey(id, caller)].amount;
            let commission = bps_share(amount as int, v.commission_rate as int);
            let locked = amount - commission;
            let records1 = s.records.insert(
                rkey(id, caller),
                MemberRecord { state: MemberState::Deposited, amount: locked as i128 },
            );
            let count = v.deposited_count + 1;
            let activated = count == v.members.len();
            let v2 = GroupVaultModel {
                deposited_count: count as u32,
                state: if activated {
                    VaultState::ActiveLocked
                } else {
                    VaultState::FundingOpen
                },
                ..v
            };
            let s2 = StorageModel {
                vaults: s.vaults.insert(id, v2),
                records: if activated {
                    activate_records(records1, id)
                } else {
                    records1
                },
                ..s
            };
            let fx = seq![pay(v.token, Party::Account(caller), Party::Contract, amount as int)]
                + (if commission > 0 {
                seq![pay(v.token, Party::Contract, Party::Account(v.creator), commission)]
            } else {
                Seq::empty()
            }) + seq![
                publish(
                    Event::MemberDeposited(
                        MemberDepositedEvent { vault_id: id, member: caller, amount: locked as i128 },
                    ),
                ),
            ] + (if activated {
                seq![publish(Event::VaultActivated(VaultActivatedEvent { vault_id: id }))]
            } else {
                Seq::empty()
            });
            Ok((s2, fx))
        },
    }
}

// ─── cancel ──────────────────────────────────────────────────────────────────

pub open spec fn spec_cancel(s: StorageModel, now: u64, id: u64) -> Result<
    (StorageModel, Seq<Effect>),
    CcpError,
> {
    if !s.vaults.dom().contains(id) {
        Err(CcpError::VaultNotFound)
    } else if s.vaults[id].state != VaultState::FundingOpen {
        Err(CcpError::WrongVaultState)
    } else if now <= s.vaults[id].funding_deadline {
        Err(CcpError::FundingDeadlineNotPassed)
    } else {
        let v2 = GroupVaultModel { state: VaultState::Cancelled, ..s.vaults[id] };
        Ok(
            (
                StorageModel { vaults: s.vaults.insert(id, v2), ..s },
                seq![publish(Event::VaultCancelled(VaultCancelledEvent { vault_id: id }))],
            ),
        )
    }
}

// ─── The lazy settlement transition ──────────────────────────────────────────

/// A locked vault whose unlock time has come becomes settlement-ready: the
/// members that may claim are counted and the pool is fixed.
pub open spec fn settle_vault(s: StorageModel, id: u64, v: GroupVaultModel, now: u64) -> GroupVaultModel {
    if v.state == VaultState::ActiveLocked && now >= v.unlock_time {
        GroupVaultModel {
            state: VaultState::SettlementReady,
            eligible_claimers: count_where(v.members, claimable_pred(s, id)) as u32,
            original_pool: pool_of(s, id),
            ..v
        }
    } else {
        v
    }
}

/// Vault `id` as the settlement transition leaves it at time `now`.
pub open spec fn settled(s: StorageModel, id: u64, now: u64) -> GroupVaultModel {
    settle_vault(s, id, s.vaults[id], now)
}

// ─── withdraw ────────────────────────────────────────────────────────────────

pub open spec fn withdraw_error(s: StorageModel, now: u64, caller: Address, id: u64) -> Option<
    CcpError,
> {
    if !s.vaults.dom().contains(id) {
        Some(CcpError::VaultNotFound)
    } else {
        let v = settled(s, id, now);
        let k = rkey(id, caller);
        match v.state {
            VaultState::Cancelled => if !s.records.dom().contains(k) {
                Some(CcpError::NotMember)
            } else if s.records[k].state != MemberState::Deposited {
                Some(CcpError::WrongMemberState)
            } else {
                None
            },
            VaultState::SettlementReady => if !s.records.dom().contains(k) {
                Some(CcpError::NotMember)
            } else if s.records[k].state != MemberState::Active && s.records[k].state
                != MemberState::ClaimedActive {
                Some(CcpError::WrongMemberState)
            } else {
                None
            },
            // After every eligible member has claimed, only a member who
            // claimed while active still has its locked amount to withdraw.
            VaultState::Resolved => if s.records.dom().contains(k) && s.records[k].state
                == MemberState::ClaimedActive {
                None
            } else {
                Some(CcpError::WrongVaultState)
            },
            VaultState::ActiveLocked => if !s.records.dom().contains(k) {
                Some(CcpError::NotMember)
            } else if s.records[k].state != MemberState::Active {
                Some(CcpError::WrongMemberState)
            } else if v.lock_type == LockType::Strict {
                Some(CcpError::EarlyExitNotAllowed)
            } else {
                None
            },
            _ => Some(CcpError::WrongVaultState),
        }
    }
}

/// Whether the arithmetic of an early exit fits the machine: the penalty and
/// the pool it is added to.
pub open spec fn withdraw_fits(s: StorageModel, now: u64, caller: Address, id: u64) -> bool {
    (withdraw_error(s, now, caller, id) is None && settled(s, id, now).state
        == VaultState::ActiveLocked) ==> {
        let amount = s.records[rkey(id, caller)].amount;
        let rate = s.vaults[id].penalty_rate;
        &&& i128::MIN <= amount * rate <= i128::MAX
        &&& i128::MIN <= pool_of(s, id) + bps_share(amount as int, rate as int) <= i128::MAX
    }
}

pub open spec fn spec_withdraw(s: StorageModel, now: u64, caller: Address, id: u64) -> Result<
    (StorageModel, Seq<Effect>),
    CcpError,
> {
    match withdraw_error(s, now, caller, id) {
        Some(e) => Err(e),
        None => {
            let v = settled(s, id, now);
            let k = rkey(id, caller);
            let amount = s.records[k].amount;
            let vaults2 = s.vaults.insert(id, v);
            if v.state == VaultState::ActiveLocked {
                let penalty = bps_share(amount as int, v.penalty_rate as int);
                let payout = amount - penalty;
                Ok(
                    (
                        StorageModel {
                            vaults: vaults2,
                            records: s.records.insert(
                                k,
                                MemberRecord { state: MemberState::Exited, amount },
                            ),
                            pools: s.pools.insert(id, (pool_of(s, id) + penalty) as i128),
                            ..s
                        },
                        seq![
                            pay(v.token, Party::Contract, Party::Account(caller), payout),
                            publish(
                                Event::MemberEarlyExit(
                                    MemberEarlyExitEvent {
                                        vault_id: id,
                                        member: caller,
                                        payout: payout as i128,
                                        penalty: penalty as i128,
                                    },
                                ),
                            ),
                        ],
                    ),
                )
            } else {
                Ok(
                    (
                        StorageModel {
                            vaults: vaults2,
                            records: s.records.insert(
                                k,
                                MemberRecord {
                                    state: if s.records[k].state == MemberState::ClaimedActive {
                                        MemberState::Claimed
                                    } else {
                                        MemberState::Withdrawn
                                    },
                                    amount,
                                },
                            ),
                            ..s
                        },
                        seq![
                            pay(v.token, Party::Contract, Party::Account(caller), amount as int),
                            publish(
                                Event::MemberWithdrawn(
                                    MemberWithdrawnEvent { vault_id: id, member: caller, amount },
                                ),
                            ),
                        ],
                    ),
                )
            }
        },
    }
}

// ─── claim_pool ──────────────────────────────────────────────────────────────

/// What the next claimer of a settlement-ready vault receives: an equal share
/// of the fixed pool, the first claimer also taking the remainder.
pub open spec fn claim_share(v: GroupVaultModel) -> int {
    let k = v.eligible_claimers as int;
    if v.original_pool == 0 || k == 0 {
        0
    } else if v.claimed_count == 0 {
        div_trunc(v.original_pool as int, k) + rem_trunc(v.original_pool as int, k)
    } else {
        div_trunc(v.original_pool as int, k)
    }
}

pub open spec fn claim_error(s: StorageModel, now: u64, caller: Address, id: u64) -> Option<
    CcpError,
> {
    if !s.vaults.dom().contains(id) {
        Some(CcpError::VaultNotFound)
    } else if settled(s, id, now).state != VaultState::SettlementReady {
        Some(CcpError::WrongVaultState)
    } else if !s.records.dom().contains(rkey(id, caller)) {
        Some(CcpError::NotMember)
    } else if s.records[rkey(id, caller)].state != MemberState::Active
        && s.records[rkey(id, caller)].state != MemberState::Withdrawn {
        Some(CcpError::WrongMemberState)
    } else {
        None
    }
}

pub open spec fn spec_claim(s: StorageModel, now: u64, caller: Address, id: u64) -> Result<
    (StorageModel, Seq<Effect>),
    CcpError,
> {
    match claim_error(s, now, caller, id) {
        Some(e) => Err(e),
        None => {
            let v = settled(s, id, now);
            let k = rkey(id, caller);
            let claim = claim_share(v);
            let count = v.claimed_count + 1;
            let resolved = count == v.eligible_claimers;
            let v2 = GroupVaultModel {
                claimed_count: count as u32,
                state: if resolved {
                    VaultState::Resolved
                } else {
                    VaultState::SettlementReady
                },
                ..v
            };
            let s2 = StorageModel {
                vaults: s.vaults.insert(id, v2),
                records: s.records.insert(
                    k,
                    MemberRecord {
                        state: if s.records[k].state == MemberState::Active {
                            MemberState::ClaimedActive
                        } else {
                            MemberState::Claimed
                        },
                        amount: s.records[k].amount,
                    },
                ),
                pools: if claim > 0 {
                    s.pools.insert(id, (pool_of(s, id) - claim) as i128)
                } else {
                    s.pools
                },
                ..s
            };
            let fx = (if claim > 0 {
                seq![pay(v.token, Party::Contract, Party::Account(caller), claim)]
            } else {
                Seq::empty()
            }) + seq![
                publish(
                    Event::PoolClaimed(
                        PoolClaimedEvent { vault_id: id, member: caller, claimed: claim as i128 },
                    ),
                ),
            ] + (if resolved {
                seq![publish(Event::VaultResolved(VaultResolvedEvent { vault_id: id }))]
            } else {
                Seq::empty()
            });
            Ok((s2, fx))
        },
    }
}

// ─── What the contract holds ─────────────────────────────────────────────────

/// What a member still has locked in vault `id`: the amount of a deposited or
/// active record, or of one that claimed while active; nothing otherwise.
pub open spec fn locked_of(s: StorageModel, id: u64) -> spec_fn(Address) -> int {
    |m: Address|
        if s.records.dom().contains(rkey(id, m)) && (s.records[rkey(id, m)].state
            == MemberState::Deposited || s.records[rkey(id, m)].state == MemberState::Active
            || s.records[rkey(id, m)].state == MemberState::ClaimedActive) {
            s.records[rkey(id, m)].amount as int
        } else {
            0
        }
}

/// The sum of `f` over the distinct values of `s`.
pub open spec fn sum_distinct(s: Seq<Address>, f: spec_fn(Address) -> int) -> int
    decreases s.len(),
{
    if s.len() == 0 {
        0
    } else {
        sum_distinct(s.drop_last(), f) + if !s.drop_last().contains(s.last()) {
            f(s.last())
        } else {
            0
        }
    }
}

/// What the contract holds for vault `id`: every member's locked amount and
/// the community pool.
pub open spec fn vault_holdings(s: StorageModel, id: u64) -> int {
    sum_distinct(s.vaults[id].members, locked_of(s, id)) + pool_of(s, id)
}

/// What a list of effects moves into the contract, less what it moves out.
pub open spec fn contract_inflow(fx: Seq<Effect>) -> int
    decreases fx.len(),
{
    if fx.len() == 0 {
        0
    } else {
        contract_inflow(fx.drop_last()) + effect_inflow(fx.last())
    }
}

/// What one effect moves into the contract, less what it moves out.
pub open spec fn effect_inflow(e: Effect) -> int {
    match e {
        Effect::Transfer(t) => (if t.to == Party::Contract {
            t.amount as int
        } else {
            0
        }) - (if t.from == Party::Contract {
            t.amount as int
        } else {
            0
        }),
        Effect::Publish(_) => 0,
    }
}

// ─── Queries ─────────────────────────────────────────────────────────────────

/// What a member would receive from the pool now, by the current pool and
/// the members that may still claim.
pub open spec fn member_claim_amount(s: StorageModel, id: u64, member: Address) -> int {
    if !s.vaults.dom().contains(id) {
        0
    } else if !s.records.dom().contains(rkey(id, member)) {
        0
    } else if s.records[rkey(id, member)].state != MemberState::Active && s.records[rkey(
        id,
        member,
    )].state != MemberState::Withdrawn {
        0
    } else {
        let pool = pool_of(s, id);
        let count = count_where(s.vaults[id].members, claimable_pred(s, id));
        if pool == 0 || count == 0 {
            0
        } else {
            div_trunc(pool as int, count as int)
        }
    }
}

} // verus!
