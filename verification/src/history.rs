//! Laws over any sequence of calls.
//!
//! A call that is refused, or that would overflow the machine's arithmetic
//! and so stops the contract, leaves storage as it was.
use vstd::prelude::*;

use crate::ledger_inv::{
    lemma_claim_preserves, lemma_create_preserves, lemma_deposit_preserves,
    lemma_withdraw_preserves,
};
use crate::model::{
    bps_share, claim_share, create_error, create_fits, deposit_fits, record_ok, settled,
    spec_cancel, spec_claim,
    spec_create, spec_deposit, spec_initialize, spec_withdraw, valid_ledger, vault_ok,
    withdraw_fits,
};
use crate::storage::{list_of, pool_of, rkey, RecordKey, StorageModel};
use crate::types::{Address, LockType, MemberState, VaultState};

verus! {

/// A call of one of the contract's entry points that change storage, with its arguments.
pub enum Call {
    Initialize { xlm: Address, usdc: Address, eurc: Address },
    Create {
        creator: Address,
        token: Address,
        members: Seq<Address>,
        amounts: Seq<i128>,
        unlock_time: u64,
        funding_deadline: u64,
        lock_type: LockType,
        penalty_rate: u32,
    },
    Deposit { caller: Address, vault_id: u64 },
    Cancel { vault_id: u64 },
    Withdraw { caller: Address, vault_id: u64 },
    Claim { caller: Address, vault_id: u64 },
}

/// Storage after the call `c` at time `now`.
pub open spec fn step(s: StorageModel, now: u64, c: Call) -> StorageModel {
    match c {
        Call::Initialize { xlm, usdc, eurc } => match spec_initialize(s, xlm, usdc, eurc) {
            Ok(s2) => s2,
            Err(_) => s,
        },
        Call::Create {
            creator,
            token,
            members,
            amounts,
            unlock_time,
            funding_deadline,
            lock_type,
            penalty_rate,
        } => if create_error(
            s,
            now,
            token,
            members,
            amounts,
            unlock_time,
            funding_deadline,
            lock_type,
            penalty_rate,
        ) is None && !create_fits(s, amounts) {
            s
        } else {
            match spec_create(
                s,
                now,
                creator,
                token,
                members,
                amounts,
                unlock_time,
                funding_deadline,
                lock_type,
                penalty_rate,
            ) {
                Ok((s2, _, _)) => s2,
                Err(_) => s,
            }
        },
        Call::Deposit { caller, vault_id } => if !deposit_fits(s, now, caller, vault_id) {
            s
        } else {
            match spec_deposit(s, now, caller, vault_id) {
                Ok((s2, _)) => s2,
                Err(_) => s,
            }
        },
        Call::Cancel { vault_id } => match spec_cancel(s, now, vault_id) {
            Ok((s2, _)) => s2,
            Err(_) => s,
        },
        Call::Withdraw { caller, vault_id } => if !withdraw_fits(s, now, caller, vault_id) {
            s
        } else {
            match spec_withdraw(s, now, caller, vault_id) {
                Ok((s2, _)) => s2,
                Err(_) => s,
            }
        },
        Call::Claim { caller, vault_id } => match spec_claim(s, now, caller, vault_id) {
            Ok((s2, _)) => s2,
            Err(_) => s,
        },
    }
}

/// Storage after the calls `calls`, each with its time, oldest first.
pub open spec fn run(s: StorageModel, calls: Seq<(u64, Call)>) -> StorageModel
    decreases calls.len(),
{
    if calls.len() == 0 {
        s
    } else {
        step(run(s, calls.drop_last()), calls.last().0, calls.last().1)
    }
}

/// Member `m` of vault `id` has paid into the vault.
pub open spec fn has_deposited(s: StorageModel, id: u64, m: Address) -> bool {
    s.records.dom().contains(rkey(id, m)) && s.records[rkey(id, m)].state != MemberState::Committed
}

/// Member `m` of vault `id` has had its money back: refunded, withdrawn at
/// maturity, or paid out on an early exit.
pub open spec fn has_been_paid(s: StorageModel, id: u64, m: Address) -> bool {
    s.records.dom().contains(rkey(id, m)) && (s.records[rkey(id, m)].state
        == MemberState::Withdrawn || s.records[rkey(id, m)].state == MemberState::Exited
        || s.records[rkey(id, m)].state == MemberState::Claimed)
}

/// How a vault's state may change in one call at time `now`: a locked vault
/// settles only once its unlock time has come.
pub open spec fn vault_state_may_become(a: VaultState, b: VaultState, now: u64, unlock_time: u64) -> bool {
    ||| a == b
    ||| a == VaultState::FundingOpen && (b == VaultState::ActiveLocked || b == VaultState::Cancelled)
    ||| a == VaultState::ActiveLocked && now >= unlock_time && (b == VaultState::SettlementReady
        || b == VaultState::Resolved)
    ||| a == VaultState::SettlementReady && b == VaultState::Resolved
}

/// How a member's state may change in one call.
pub open spec fn member_state_may_become(a: MemberState, b: MemberState) -> bool {
    ||| a == b
    ||| a == MemberState::Committed && (b == MemberState::Deposited || b == MemberState::Active)
    ||| a == MemberState::Deposited && (b == MemberState::Active || b == MemberState::Withdrawn)
    ||| a == MemberState::Active && (b == MemberState::Withdrawn || b == MemberState::Exited || b
        == MemberState::ClaimedActive)
    ||| a == MemberState::Withdrawn && b == MemberState::Claimed
    ||| a == MemberState::ClaimedActive && b == MemberState::Claimed
}

/// Every call keeps the ledger valid.
pub proof fn lemma_step_valid(s: StorageModel, now: u64, c: Call)
    requires
        valid_ledger(s),
    ensures
        valid_ledger(step(s, now, c)),
{
    match c {
        Call::Initialize { xlm, usdc, eurc } => {
            if spec_initialize(s, xlm, usdc, eurc) is Ok {
                let s2 = step(s, now, c);
                assert forall|k: RecordKey| !#[trigger] s.records.dom().contains(k) by {
                    if s.records.dom().contains(k) {
                        assert(s.vaults.dom().contains(k.vault_id));
                    }
                }
                assert forall|id: u64| !#[trigger] s.pools.dom().contains(id) by {
                    if s.pools.dom().contains(id) {
                        assert(s.vaults.dom().contains(id));
                    }
                }
                assert forall|id: u64| !#[trigger] s2.vaults.dom().contains(id) by {}
            }
        },
        Call::Create {
            creator,
            token,
            members,
            amounts,
            unlock_time,
            funding_deadline,
            lock_type,
            penalty_rate,
        } => {
            if create_error(
                s,
                now,
                token,
                members,
                amounts,
                unlock_time,
                funding_deadline,
                lock_type,
                penalty_rate,
            ) is None && create_fits(s, amounts) {
                lemma_create_preserves(
                    s,
                    now,
                    creator,
                    token,
                    members,
                    amounts,
                    unlock_time,
                    funding_deadline,
                    lock_type,
                    penalty_rate,
                );
            }
        },
        Call::Deposit { caller, vault_id } => {
            if deposit_fits(s, now, caller, vault_id) && spec_deposit(s, now, caller, vault_id) is Ok {
                lemma_deposit_preserves(s, now, caller, vault_id);
            }
        },
        Call::Cancel { vault_id } => {
            if spec_cancel(s, now, vault_id) is Ok {
                lemma_cancel_preserves(s, now, vault_id);
            }
        },
        Call::Withdraw { caller, vault_id } => {
            if withdraw_fits(s, now, caller, vault_id) && spec_withdraw(s, now, caller, vault_id)
                is Ok {
                lemma_withdraw_preserves(s, now, caller, vault_id);
            }
        },
        Call::Claim { caller, vault_id } => {
            if spec_claim(s, now, caller, vault_id) is Ok {
                lemma_claim_preserves(s, now, caller, vault_id);
            }
        },
    }
}

/// Cancelling keeps the ledger valid.
pub proof fn lemma_cancel_preserves(s: StorageModel, now: u64, id: u64)
    requires
        valid_ledger(s),
        spec_cancel(s, now, id) is Ok,
    ensures
        valid_ledger(spec_cancel(s, now, id)->Ok_0.0),
{
    let s1 = spec_cancel(s, now, id)->Ok_0.0;
    assert forall|id2: u64| #[trigger] s1.vaults.dom().contains(id2) implies id2
        < s1.vault_counter.unwrap_or(0) && vault_ok(s1, id2) by {
        if id2 != id {
            crate::ledger_inv::lemma_vault_ok_frame(s, s1, id2);
        } else {
            assert(vault_ok(s, id));
            assert forall|m: Address| #[trigger] s1.records.dom().contains(rkey(id, m)) implies record_ok(
                VaultState::Cancelled,
                s1.records[rkey(id, m)],
            ) by {
                assert(record_ok(VaultState::FundingOpen, s.records[rkey(id, m)]));
            }
        }
    }
}

/// Any sequence of calls keeps the ledger valid.
pub proof fn lemma_run_valid(s: StorageModel, calls: Seq<(u64, Call)>)
    requires
        valid_ledger(s),
    ensures
        valid_ledger(run(s, calls)),
    decreases calls.len(),
{
    if calls.len() > 0 {
        lemma_run_valid(s, calls.drop_last());
        lemma_step_valid(run(s, calls.drop_last()), calls.last().0, calls.last().1);
    }
}

/// In one call a stored vault stays stored and its state moves only forward.
pub proof fn lemma_vault_state_step(s: StorageModel, now: u64, c: Call, id: u64)
    requires
        valid_ledger(s),
        s.vaults.dom().contains(id),
    ensures
        step(s, now, c).vaults.dom().contains(id),
        vault_state_may_become(
            s.vaults[id].state,
            step(s, now, c).vaults[id].state,
            now,
            s.vaults[id].unlock_time,
        ),
        step(s, now, c).vaults[id].unlock_time == s.vaults[id].unlock_time,
{
    match c {
        Call::Create {
            creator,
            token,
            members,
            amounts,
            unlock_time,
            funding_deadline,
            lock_type,
            penalty_rate,
        } => {
            if create_error(
                s,
                now,
                token,
                members,
                amounts,
                unlock_time,
                funding_deadline,
                lock_type,
                penalty_rate,
            ) is None && create_fits(s, amounts) {
                lemma_create_preserves(
                    s,
                    now,
                    creator,
                    token,
                    members,
                    amounts,
                    unlock_time,
                    funding_deadline,
                    lock_type,
                    penalty_rate,
                );
            }
        },
        _ => {},
    }
}

/// In one call a member's record stays stored and its state moves only
/// forward; its amount changes only when it leaves `Committed`.
pub proof fn lemma_member_state_step(s: StorageModel, now: u64, c: Call, id: u64, m: Address)
    requires
        valid_ledger(s),
        s.records.dom().contains(rkey(id, m)),
    ensures
        step(s, now, c).records.dom().contains(rkey(id, m)),
        member_state_may_become(
            s.records[rkey(id, m)].state,
            step(s, now, c).records[rkey(id, m)].state,
        ),
        s.records[rkey(id, m)].state != MemberState::Committed ==> step(s, now, c).records[rkey(
            id,
            m,
        )].amount == s.records[rkey(id, m)].amount,
{
    let k = rkey(id, m);
    assert(s.vaults.dom().contains(id));
    assert(vault_ok(s, id));
    assert(record_ok(s.vaults[id].state, s.records[k]));
    match c {
        Call::Create {
            creator,
            token,
            members,
            amounts,
            unlock_time,
            funding_deadline,
            lock_type,
            penalty_rate,
        } => {
            if create_error(
                s,
                now,
                token,
                members,
                amounts,
                unlock_time,
                funding_deadline,
                lock_type,
                penalty_rate,
            ) is None && create_fits(s, amounts) {
                lemma_create_preserves(
                    s,
                    now,
                    creator,
                    token,
                    members,
                    amounts,
                    unlock_time,
                    funding_deadline,
                    lock_type,
                    penalty_rate,
                );
            }
        },
        Call::Claim { caller, vault_id } => {
            if spec_claim(s, now, caller, vault_id) is Ok && vault_id == id {
                assert(vault_ok(s, vault_id));
                crate::ledger_inv::lemma_settled_facts(s, vault_id, now);
            }
        },
        Call::Withdraw { caller, vault_id } => {
            if vault_id == id {
                crate::ledger_inv::lemma_settled_facts(s, vault_id, now);
            }
        },
        _ => {},
    }
}

/// A member who has paid in stays paid in through any call.
pub proof fn lemma_deposited_step(s: StorageModel, now: u64, c: Call, id: u64, m: Address)
    requires
        valid_ledger(s),
        has_deposited(s, id, m),
    ensures
        has_deposited(step(s, now, c), id, m),
{
    lemma_member_state_step(s, now, c, id, m);
}

/// A member who has had its money back stays so through any call.
pub proof fn lemma_paid_step(s: StorageModel, now: u64, c: Call, id: u64, m: Address)
    requires
        valid_ledger(s),
        has_been_paid(s, id, m),
    ensures
        has_been_paid(step(s, now, c), id, m),
{
    lemma_member_state_step(s, now, c, id, m);
}

/// Over any sequence of calls, a member who has paid in stays paid in, and one
/// who has had its money back stays so.
pub proof fn lemma_run_keeps_member_progress(
    s: StorageModel,
    calls: Seq<(u64, Call)>,
    id: u64,
    m: Address,
)
    requires
        valid_ledger(s),
    ensures
        has_deposited(s, id, m) ==> has_deposited(run(s, calls), id, m),
        has_been_paid(s, id, m) ==> has_been_paid(run(s, calls), id, m),
    decreases calls.len(),
{
    if calls.len() > 0 {
        let d = calls.drop_last();
        lemma_run_keeps_member_progress(s, d, id, m);
        lemma_run_valid(s, d);
        let r = run(s, d);
        if has_deposited(r, id, m) {
            lemma_deposited_step(r, calls.last().0, calls.last().1, id, m);
        }
        if has_been_paid(r, id, m) {
            lemma_paid_step(r, calls.last().0, calls.last().1, id, m);
        }
    }
}

/// Each member pays into a vault at most once: after a deposit, whatever
/// calls follow, that member's deposit into that vault is refused.
pub proof fn lemma_deposit_at_most_once(
    s: StorageModel,
    now: u64,
    caller: Address,
    id: u64,
    later: Seq<(u64, Call)>,
    now2: u64,
)
    requires
        valid_ledger(s),
        deposit_fits(s, now, caller, id),
        spec_deposit(s, now, caller, id) is Ok,
    ensures
        spec_deposit(run(spec_deposit(s, now, caller, id)->Ok_0.0, later), now2, caller, id) is Err,
{
    let s1 = spec_deposit(s, now, caller, id)->Ok_0.0;
    lemma_deposit_preserves(s, now, caller, id);
    assert(has_deposited(s1, id, caller));
    lemma_run_keeps_member_progress(s1, later, id, caller);
    lemma_run_valid(s1, later);
}

/// Each member has its money back from a vault at most once: after a
/// withdrawal, whatever calls follow, that member's withdrawal from that
/// vault is refused.
pub proof fn lemma_withdraw_at_most_once(
    s: StorageModel,
    now: u64,
    caller: Address,
    id: u64,
    later: Seq<(u64, Call)>,
    now2: u64,
)
    requires
        valid_ledger(s),
        withdraw_fits(s, now, caller, id),
        spec_withdraw(s, now, caller, id) is Ok,
    ensures
        spec_withdraw(run(spec_withdraw(s, now, caller, id)->Ok_0.0, later), now2, caller, id)
            is Err,
{
    let s1 = spec_withdraw(s, now, caller, id)->Ok_0.0;
    lemma_withdraw_preserves(s, now, caller, id);
    assert(has_been_paid(s1, id, caller));
    lemma_run_keeps_member_progress(s1, later, id, caller);
    let r = run(s1, later);
    lemma_run_valid(s1, later);
    assert(r.vaults.dom().contains(id));
    assert(vault_ok(r, id));
    crate::ledger_inv::lemma_settled_facts(r, id, now2);
}

/// A cancelled or resolved vault stays so through any sequence of calls.
pub proof fn lemma_final_vault_states(s: StorageModel, calls: Seq<(u64, Call)>, id: u64)
    requires
        valid_ledger(s),
        s.vaults.dom().contains(id),
        s.vaults[id].state == VaultState::Cancelled || s.vaults[id].state == VaultState::Resolved,
    ensures
        run(s, calls).vaults.dom().contains(id),
        run(s, calls).vaults[id].state == s.vaults[id].state,
    decreases calls.len(),
{
    if calls.len() > 0 {
        let d = calls.drop_last();
        lemma_final_vault_states(s, d, id);
        lemma_run_valid(s, d);
        lemma_vault_state_step(run(s, d), calls.last().0, calls.last().1, id);
    }
}

/// Once the supported tokens are stored they never change, so a second
/// `initialize` is always refused and changes nothing.
pub proof fn lemma_tokens_fixed(s: StorageModel, calls: Seq<(u64, Call)>)
    requires
        s.supported_tokens is Some,
    ensures
        run(s, calls).supported_tokens == s.supported_tokens,
    decreases calls.len(),
{
    if calls.len() > 0 {
        lemma_tokens_fixed(s, calls.drop_last());
    }
}

/// Only a successful creation moves the vault counter, and only by one; a
/// creation changes no vault that was already stored.
pub proof fn lemma_create_step(s: StorageModel, now: u64, c: Call)
    requires
        valid_ledger(s),
        s.supported_tokens is Some,
    ensures
        c is Create && step(s, now, c) != s ==> {
            &&& step(s, now, c).vault_counter == Some((s.vault_counter.unwrap_or(0) + 1) as u64)
            &&& !s.vaults.dom().contains(s.vault_counter.unwrap_or(0))
            &&& step(s, now, c).vaults == s.vaults.insert(
                s.vault_counter.unwrap_or(0),
                step(s, now, c).vaults[s.vault_counter.unwrap_or(0)],
            )
        },
        !(c is Create) ==> step(s, now, c).vault_counter == s.vault_counter,
{
    match c {
        Call::Create {
            creator,
            token,
            members,
            amounts,
            unlock_time,
            funding_deadline,
            lock_type,
            penalty_rate,
        } => {
            if create_error(
                s,
                now,
                token,
                members,
                amounts,
                unlock_time,
                funding_deadline,
                lock_type,
                penalty_rate,
            ) is None && create_fits(s, amounts) {
                lemma_create_preserves(
                    s,
                    now,
                    creator,
                    token,
                    members,
                    amounts,
                    unlock_time,
                    funding_deadline,
                    lock_type,
                    penalty_rate,
                );
                let s2 = step(s, now, c);
                let id = s.vault_counter.unwrap_or(0);
                assert(s2.vaults =~= s.vaults.insert(id, s2.vaults[id]));
            }
        },
        _ => {},
    }
}

/// Vault ids are handed out one after another: between two creations, no
/// other call moves the counter, so the second vault's id is the first's
/// plus one.
pub proof fn lemma_vault_ids_consecutive(s: StorageModel, calls: Seq<(u64, Call)>)
    requires
        valid_ledger(s),
        s.supported_tokens is Some,
        forall|i: int| 0 <= i < calls.len() ==> !(#[trigger] calls[i].1 is Create),
    ensures
        run(s, calls).vault_counter == s.vault_counter,
    decreases calls.len(),
{
    if calls.len() > 0 {
        let d = calls.drop_last();
        assert forall|i: int| 0 <= i < d.len() implies !(#[trigger] d[i].1 is Create) by {
            assert(d[i] == calls[i]);
        }
        lemma_vault_ids_consecutive(s, d);
        lemma_run_valid(s, d);
        lemma_tokens_fixed(s, d);
        assert(!(calls[calls.len() - 1].1 is Create));
        lemma_create_step(run(s, d), calls.last().0, calls.last().1);
    }
}

/// Claims on vault `id` by the members `ms`, in order, all at time `now`.
pub open spec fn claims(id: u64, now: u64, ms: Seq<Address>) -> Seq<(u64, Call)> {
    Seq::new(ms.len(), |i: int| (now, Call::Claim { caller: ms[i], vault_id: id }))
}

/// Claims by distinct members who may claim all succeed: each is counted,
/// the vault stays settlement-ready until the last eligible member has
/// claimed and is then resolved, and no other member's record changes.
pub proof fn lemma_claims_progress(s: StorageModel, id: u64, now: u64, ms: Seq<Address>)
    requires
        valid_ledger(s),
        s.vaults.dom().contains(id),
        s.vaults[id].state == VaultState::SettlementReady,
        ms.no_duplicates(),
        s.vaults[id].claimed_count + ms.len() <= s.vaults[id].eligible_claimers,
        forall|i: int|
            0 <= i < ms.len() ==> s.records.dom().contains(rkey(id, #[trigger] ms[i])) && (
            s.records[rkey(id, ms[i])].state == MemberState::Active || s.records[rkey(
                id,
                ms[i],
            )].state == MemberState::Withdrawn),
    ensures
        ({
            let r = run(s, claims(id, now, ms));
            &&& valid_ledger(r)
            &&& r.vaults.dom().contains(id)
            &&& r.vaults[id].claimed_count == s.vaults[id].claimed_count + ms.len()
            &&& r.vaults[id].eligible_claimers == s.vaults[id].eligible_claimers
            &&& r.vaults[id].original_pool == s.vaults[id].original_pool
            &&& r.vaults[id].state == if ms.len() > 0 && s.vaults[id].claimed_count + ms.len()
                == s.vaults[id].eligible_claimers {
                VaultState::Resolved
            } else {
                VaultState::SettlementReady
            }
            &&& forall|m: Address|
                !ms.contains(m) ==> (#[trigger] r.records.dom().contains(rkey(id, m))
                    == s.records.dom().contains(rkey(id, m)) && r.records[rkey(id, m)]
                    == s.records[rkey(id, m)])
        }),
    decreases ms.len(),
{
    if ms.len() == 0 {
        assert(claims(id, now, ms) =~= Seq::<(u64, Call)>::empty());
    } else {
        let d = ms.drop_last();
        let last = ms.last();
        assert(claims(id, now, ms).drop_last() =~= claims(id, now, d));
        assert(d.no_duplicates()) by {
            assert forall|i: int, j: int| 0 <= i < d.len() && 0 <= j < d.len() && i != j implies d[i]
                != d[j] by {
                assert(d[i] == ms[i] && d[j] == ms[j]);
            }
        }
        assert forall|i: int| 0 <= i < d.len() implies s.records.dom().contains(
            rkey(id, #[trigger] d[i]),
        ) && (s.records[rkey(id, d[i])].state == MemberState::Active || s.records[rkey(
            id,
            d[i],
        )].state == MemberState::Withdrawn) by {
            assert(d[i] == ms[i]);
        }
        lemma_claims_progress(s, id, now, d);
        let r = run(s, claims(id, now, d));
        assert(!d.contains(last)) by {
            if d.contains(last) {
                let j = choose|j: int| 0 <= j < d.len() && d[j] == last;
                assert(ms[j] == ms[ms.len() - 1]);
            }
        }
        assert(ms[ms.len() - 1] == last);
        assert(r.records[rkey(id, last)] == s.records[rkey(id, last)]);
        assert(claim_error_none(r, now, last, id));
        lemma_claim_preserves(r, now, last, id);
        assert(claims(id, now, ms).last() == (now, Call::Claim { caller: last, vault_id: id }));
        let r2 = run(s, claims(id, now, ms));
        assert(r2 == spec_claim(r, now, last, id)->Ok_0.0);
        assert forall|m: Address| !ms.contains(m) implies (#[trigger] r2.records.dom().contains(
            rkey(id, m),
        ) == s.records.dom().contains(rkey(id, m)) && r2.records[rkey(id, m)] == s.records[rkey(
            id,
            m,
        )]) by {
            assert(!d.contains(m)) by {
                if d.contains(m) {
                    let j = choose|j: int| 0 <= j < d.len() && d[j] == m;
                    assert(ms[j] == m);
                }
            }
            if m == last {
                assert(ms[ms.len() - 1] == m);
            }
            assert(rkey(id, m) != rkey(id, last));
        }
    }
}

/// The claim of `caller` on vault `id` is not refused.
pub open spec fn claim_error_none(s: StorageModel, now: u64, caller: Address, id: u64) -> bool {
    crate::model::claim_error(s, now, caller, id) is None
}

/// When every eligible member of a settlement-ready vault with no claims yet
/// claims once, every claim succeeds, the vault is resolved and its pool is
/// empty: the claims have paid out exactly the pool fixed at settlement.
pub proof fn lemma_all_claims_empty_pool(s: StorageModel, id: u64, now: u64, ms: Seq<Address>)
    requires
        valid_ledger(s),
        s.vaults.dom().contains(id),
        s.vaults[id].state == VaultState::SettlementReady,
        s.vaults[id].claimed_count == 0,
        ms.no_duplicates(),
        ms.len() == s.vaults[id].eligible_claimers,
        ms.len() > 0,
        forall|i: int|
            0 <= i < ms.len() ==> s.records.dom().contains(rkey(id, #[trigger] ms[i])) && (
            s.records[rkey(id, ms[i])].state == MemberState::Active || s.records[rkey(
                id,
                ms[i],
            )].state == MemberState::Withdrawn),
    ensures
        crate::storage::pool_of(s, id) == s.vaults[id].original_pool,
        run(s, claims(id, now, ms)).vaults[id].state == VaultState::Resolved,
        crate::storage::pool_of(run(s, claims(id, now, ms)), id) == 0,
{
    assert(vault_ok(s, id));
    lemma_claims_progress(s, id, now, ms);
    let r = run(s, claims(id, now, ms));
    assert(vault_ok(r, id));
}

// ─── Creations over any sequence of calls ────────────────────────────────────

/// The id of the vault that the call `c` creates, when it is a creation that
/// succeeds.
pub open spec fn created_id(s: StorageModel, now: u64, c: Call) -> Option<u64> {
    match c {
        Call::Create {
            creator,
            token,
            members,
            amounts,
            unlock_time,
            funding_deadline,
            lock_type,
            penalty_rate,
        } => if create_error(
            s,
            now,
            token,
            members,
            amounts,
            unlock_time,
            funding_deadline,
            lock_type,
            penalty_rate,
        ) is None && create_fits(s, amounts) {
            Some(s.vault_counter.unwrap_or(0))
        } else {
            None
        },
        _ => None,
    }
}

/// What the call `c` appends to the vault list of creator `a`.
pub open spec fn creator_part(s: StorageModel, now: u64, c: Call, a: Address) -> Seq<u64> {
    match c {
        Call::Create { creator, .. } => if created_id(s, now, c) is Some && creator == a {
            seq![created_id(s, now, c)->0]
        } else {
            Seq::empty()
        },
        _ => Seq::empty(),
    }
}

/// What the call `c` appends to the vault list of member `a`: the new id,
/// once for each time the new vault lists `a`.
pub open spec fn member_part(s: StorageModel, now: u64, c: Call, a: Address) -> Seq<u64> {
    match c {
        Call::Create { members, .. } => if created_id(s, now, c) is Some {
            Seq::new(
                crate::model::count_where(members, crate::model::is_addr(a)),
                |i: int| created_id(s, now, c)->0,
            )
        } else {
            Seq::empty()
        },
        _ => Seq::empty(),
    }
}

/// The ids of the vaults created during `calls`.
pub open spec fn created_ids(s: StorageModel, calls: Seq<(u64, Call)>) -> Set<u64>
    decreases calls.len(),
{
    if calls.len() == 0 {
        Set::empty()
    } else {
        let r = run(s, calls.drop_last());
        match created_id(r, calls.last().0, calls.last().1) {
            Some(id) => created_ids(s, calls.drop_last()).insert(id),
            None => created_ids(s, calls.drop_last()),
        }
    }
}

/// The ids of the vaults that `a` created during `calls`, in order.
pub open spec fn created_by(s: StorageModel, calls: Seq<(u64, Call)>, a: Address) -> Seq<u64>
    decreases calls.len(),
{
    if calls.len() == 0 {
        Seq::empty()
    } else {
        created_by(s, calls.drop_last(), a) + creator_part(
            run(s, calls.drop_last()),
            calls.last().0,
            calls.last().1,
            a,
        )
    }
}

/// The ids of the vaults created during `calls` that list `a`, in order, once
/// per listing.
pub open spec fn listed_in(s: StorageModel, calls: Seq<(u64, Call)>, a: Address) -> Seq<u64>
    decreases calls.len(),
{
    if calls.len() == 0 {
        Seq::empty()
    } else {
        listed_in(s, calls.drop_last(), a) + member_part(
            run(s, calls.drop_last()),
            calls.last().0,
            calls.last().1,
            a,
        )
    }
}

/// What one call does to the stored vaults, the indexes, the tokens and the
/// counter: only a successful creation adds a vault, at the counter's id,
/// appends that id to its creator's list and to each member's list once per
/// listing, and advances the counter by one.
pub proof fn lemma_creation_step(s: StorageModel, now: u64, c: Call)
    requires
        valid_ledger(s),
    ensures
        step(s, now, c).vaults.dom() == match created_id(s, now, c) {
            Some(id) => s.vaults.dom().insert(id),
            None => s.vaults.dom(),
        },
        forall|a: Address|
            #[trigger] list_of(step(s, now, c).creator_vaults, a) == list_of(s.creator_vaults, a)
                + creator_part(s, now, c, a),
        forall|a: Address|
            #[trigger] list_of(step(s, now, c).member_vaults, a) == list_of(s.member_vaults, a)
                + member_part(s, now, c, a),
        s.supported_tokens is Some ==> step(s, now, c).supported_tokens == s.supported_tokens,
        created_id(s, now, c) is Some ==> {
            &&& s.supported_tokens is Some
            &&& step(s, now, c).vault_counter == Some((s.vault_counter.unwrap_or(0) + 1) as u64)
            &&& s.vault_counter.unwrap_or(0) < u64::MAX
        },
        created_id(s, now, c) is None && s.supported_tokens is Some ==> step(s, now, c).vault_counter
            == s.vault_counter,
{
    let s2 = step(s, now, c);
    match c {
        Call::Create {
            creator,
            token,
            members,
            amounts,
            unlock_time,
            funding_deadline,
            lock_type,
            penalty_rate,
        } => {
            if created_id(s, now, c) is Some {
                let id = s.vault_counter.unwrap_or(0);
                assert(s2.vaults.dom() =~= s.vaults.dom().insert(id));
                assert forall|a: Address| #[trigger]
                    list_of(s2.creator_vaults, a) == list_of(s.creator_vaults, a) + creator_part(
                        s,
                        now,
                        c,
                        a,
                    ) by {
                    if a == creator {
                        assert(list_of(s2.creator_vaults, a) =~= list_of(s.creator_vaults, a)
                            + creator_part(s, now, c, a));
                    } else {
                        assert(list_of(s2.creator_vaults, a) =~= list_of(s.creator_vaults, a)
                            + creator_part(s, now, c, a));
                    }
                }
                assert forall|a: Address| #[trigger]
                    list_of(s2.member_vaults, a) == list_of(s.member_vaults, a) + member_part(
                        s,
                        now,
                        c,
                        a,
                    ) by {
                    crate::lemmas::lemma_index_list(s.member_vaults, id, members, a);
                }
            } else {
                assert forall|a: Address| #[trigger]
                    list_of(s2.creator_vaults, a) == list_of(s.creator_vaults, a) + creator_part(
                        s,
                        now,
                        c,
                        a,
                    ) by {
                    assert(list_of(s.creator_vaults, a) + Seq::<u64>::empty() =~= list_of(
                        s.creator_vaults,
                        a,
                    ));
                }
                assert forall|a: Address| #[trigger]
                    list_of(s2.member_vaults, a) == list_of(s.member_vaults, a) + member_part(
                        s,
                        now,
                        c,
                        a,
                    ) by {
                    assert(list_of(s.member_vaults, a) + Seq::<u64>::empty() =~= list_of(
                        s.member_vaults,
                        a,
                    ));
                }
            }
        },
        _ => {
            assert(s2.vaults.dom() =~= s.vaults.dom());
            assert forall|a: Address| #[trigger]
                list_of(s2.creator_vaults, a) == list_of(s.creator_vaults, a) + creator_part(
                    s,
                    now,
                    c,
                    a,
                ) by {
                assert(list_of(s.creator_vaults, a) + Seq::<u64>::empty() =~= list_of(
                    s.creator_vaults,
                    a,
                ));
            }
            assert forall|a: Address| #[trigger]
                list_of(s2.member_vaults, a) == list_of(s.member_vaults, a) + member_part(
                    s,
                    now,
                    c,
                    a,
                ) by {
                assert(list_of(s.member_vaults, a) + Seq::<u64>::empty() =~= list_of(
                    s.member_vaults,
                    a,
                ));
            }
        },
    }
}

// ─── The pool over any sequence of calls ────────────────────────────────────

/// The penalty that the call `c` pays into vault `id`'s pool: an early exit's.
pub open spec fn step_penalty(s: StorageModel, now: u64, c: Call, id: u64) -> int {
    match c {
        Call::Withdraw { caller, vault_id } => if vault_id == id && withdraw_fits(
            s,
            now,
            caller,
            id,
        ) && spec_withdraw(s, now, caller, id) is Ok && settled(s, id, now).state
            == VaultState::ActiveLocked {
            bps_share(s.records[rkey(id, caller)].amount as int, s.vaults[id].penalty_rate as int)
        } else {
            0
        },
        _ => 0,
    }
}

/// What the call `c` pays out of vault `id`'s pool: a claim's share.
pub open spec fn step_claim_paid(s: StorageModel, now: u64, c: Call, id: u64) -> int {
    match c {
        Call::Claim { caller, vault_id } => if vault_id == id && spec_claim(s, now, caller, id)
            is Ok {
            claim_share(settled(s, id, now))
        } else {
            0
        },
        _ => 0,
    }
}

/// The early-exit penalties paid into vault `id`'s pool during `calls`.
pub open spec fn penalties_paid_in(s: StorageModel, calls: Seq<(u64, Call)>, id: u64) -> int
    decreases calls.len(),
{
    if calls.len() == 0 {
        0
    } else {
        penalties_paid_in(s, calls.drop_last(), id) + step_penalty(
            run(s, calls.drop_last()),
            calls.last().0,
            calls.last().1,
            id,
        )
    }
}

/// The claim shares paid out of vault `id`'s pool during `calls`.
pub open spec fn claims_paid_out(s: StorageModel, calls: Seq<(u64, Call)>, id: u64) -> int
    decreases calls.len(),
{
    if calls.len() == 0 {
        0
    } else {
        claims_paid_out(s, calls.drop_last(), id) + step_claim_paid(
            run(s, calls.drop_last()),
            calls.last().0,
            calls.last().1,
            id,
        )
    }
}

/// In one call, a vault's pool gains the early-exit penalty and loses the
/// claim share, and nothing else.
pub proof fn lemma_pool_step(s: StorageModel, now: u64, c: Call, id: u64)
    requires
        valid_ledger(s),
    ensures
        pool_of(step(s, now, c), id) == pool_of(s, id) + step_penalty(s, now, c, id)
            - step_claim_paid(s, now, c, id),
{
    match c {
        Call::Withdraw { caller, vault_id } => {
            if withdraw_fits(s, now, caller, vault_id) && spec_withdraw(s, now, caller, vault_id)
                is Ok && vault_id == id {
                crate::ledger_inv::lemma_settled_facts(s, id, now);
            }
        },
        Call::Claim { caller, vault_id } => {
            if spec_claim(s, now, caller, vault_id) is Ok && vault_id == id {
                lemma_claim_preserves(s, now, caller, id);
            }
        },
        _ => {},
    }
}

/// Over any sequence of calls a vault's pool holds what it held before, plus
/// the early-exit penalties paid in, less the claim shares paid out. In a
/// valid ledger it is never negative, and a vault that is not stored has none.
pub proof fn lemma_pool_history(s: StorageModel, calls: Seq<(u64, Call)>, id: u64)
    requires
        valid_ledger(s),
    ensures
        pool_of(run(s, calls), id) == pool_of(s, id) + penalties_paid_in(s, calls, id)
            - claims_paid_out(s, calls, id),
        pool_of(run(s, calls), id) >= 0,
        !run(s, calls).vaults.dom().contains(id) ==> pool_of(run(s, calls), id) == 0,
    decreases calls.len(),
{
    lemma_run_valid(s, calls);
    let r = run(s, calls);
    if r.vaults.dom().contains(id) {
        crate::laws::lemma_pool_accounting(r, id);
    } else {
        assert(!r.pools.dom().contains(id));
    }
    if calls.len() > 0 {
        let d = calls.drop_last();
        lemma_pool_history(s, d, id);
        lemma_run_valid(s, d);
        lemma_pool_step(run(s, d), calls.last().0, calls.last().1, id);
    }
}

} // verus!
