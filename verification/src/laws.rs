//! Properties of the protocol that span several calls or every ledger state.
use vstd::prelude::*;

use crate::ledger_inv::{
    lemma_bps_share_bounds, lemma_claim_preserves, lemma_create_preserves, lemma_settled_facts,
    lemma_share_arithmetic,
};
use crate::lemmas::{
    lemma_count_distinct_bound, lemma_count_distinct_step_up, lemma_inflow_append,
    lemma_inflow_single, lemma_sum_distinct_frame, lemma_sum_distinct_step,
    lemma_sum_distinct_zero,
};
use crate::model::{
    bps_share, claim_share, contract_inflow, deposited_pred, div_trunc, locked_of,
    pool_after_claims, record_ok, rem_trunc, settled, spec_cancel, spec_claim, spec_create,
    spec_deposit, spec_withdraw, sum_distinct, valid_ledger, vault_holdings, vault_ok,
    withdraw_fits,
};
use crate::storage::{pool_of, rkey, Storage, StorageModel};
use crate::types::{Address, Effect, GroupVaultModel, LockType, MemberRecord, MemberState, VaultState};

verus! {

/// Empty storage is a valid ledger, so every ledger reached from it by the
/// entry points is valid.
pub proof fn lemma_empty_ledger_valid()
    ensures
        valid_ledger(Storage::new_model()),
{
}

/// A member pays into a vault at most once: after a deposit, the same
/// member's next deposit into that vault is refused.
pub proof fn lemma_no_double_deposit(
    s: StorageModel,
    now1: u64,
    now2: u64,
    caller: Address,
    id: u64,
)
    requires
        valid_ledger(s),
        spec_deposit(s, now1, caller, id) is Ok,
    ensures
        spec_deposit(spec_deposit(s, now1, caller, id)->Ok_0.0, now2, caller, id) is Err,
{
}

/// A member takes money out of a vault at most once: after a withdrawal
/// (refund, mature withdrawal or early exit), the same member's next
/// withdrawal from that vault is refused.
pub proof fn lemma_no_double_withdraw(
    s: StorageModel,
    now1: u64,
    now2: u64,
    caller: Address,
    id: u64,
)
    requires
        valid_ledger(s),
        spec_withdraw(s, now1, caller, id) is Ok,
    ensures
        spec_withdraw(spec_withdraw(s, now1, caller, id)->Ok_0.0, now2, caller, id) is Err,
{
}

/// A member claims from a pool at most once: after a claim, the same member's
/// next claim on that vault is refused.
pub proof fn lemma_no_double_claim(s: StorageModel, now1: u64, now2: u64, caller: Address, id: u64)
    requires
        valid_ledger(s),
        spec_claim(s, now1, caller, id) is Ok,
    ensures
        spec_claim(spec_claim(s, now1, caller, id)->Ok_0.0, now2, caller, id) is Err,
{
}

/// Claiming a share of the pool does not forfeit the locked amount: a member
/// who claims while active can still withdraw the whole of it, whenever it
/// asks, even after the vault is resolved.
pub proof fn lemma_claim_keeps_principal(
    s: StorageModel,
    now1: u64,
    now2: u64,
    caller: Address,
    id: u64,
)
    requires
        valid_ledger(s),
        spec_claim(s, now1, caller, id) is Ok,
        s.records[rkey(id, caller)].state == MemberState::Active,
    ensures
        ({
            let s2 = spec_claim(s, now1, caller, id)->Ok_0.0;
            &&& spec_withdraw(s2, now2, caller, id) is Ok
            &&& spec_withdraw(s2, now2, caller, id)->Ok_0.1[0] == crate::model::pay(
                s.vaults[id].token,
                crate::types::Party::Contract,
                crate::types::Party::Account(caller),
                s.records[rkey(id, caller)].amount as int,
            )
        }),
{
}

/// The claims on a settled pool share out exactly the pool: the first
/// claimer's share (with the remainder) and one equal share for each of the
/// other eligible members add up to the pool.
pub proof fn lemma_shares_sum_to_pool(v: GroupVaultModel)
    requires
        v.eligible_claimers > 0,
        v.original_pool >= 0,
    ensures
        claim_share(GroupVaultModel { claimed_count: 0, ..v }) + (v.eligible_claimers - 1)
            * claim_share(GroupVaultModel { claimed_count: 1, ..v }) == v.original_pool,
{
    let op = v.original_pool as int;
    let k = v.eligible_claimers as int;
    if op > 0 {
        lemma_share_arithmetic(op, k, 0);
    } else {
        assert((k - 1) * 0 == 0) by (nonlinear_arith);
    }
}

/// In a valid ledger no pool is negative, a settlement-ready vault has had no
/// more claims than eligible members, and a resolved vault has paid out its
/// whole pool.
pub proof fn lemma_pool_accounting(s: StorageModel, id: u64)
    requires
        valid_ledger(s),
        s.vaults.dom().contains(id),
    ensures
        pool_of(s, id) >= 0,
        s.vaults[id].state == VaultState::SettlementReady ==> s.vaults[id].claimed_count
            <= s.vaults[id].eligible_claimers,
        s.vaults[id].state == VaultState::Resolved ==> pool_of(s, id) == 0,
{
    assert(vault_ok(s, id));
    let v = s.vaults[id];
    if v.state == VaultState::SettlementReady {
        let k = v.eligible_claimers as int;
        let c = v.claimed_count as int;
        let op = v.original_pool as int;
        if op != 0 && k != 0 && c != 0 {
            let b = div_trunc(op, k);
            assert(b >= 0);
            assert((k - c) * b >= 0) by (nonlinear_arith)
                requires
                    b >= 0,
                    c <= k,
            ;
        }
        assert(pool_of(s, id) == pool_after_claims(v));
    }
}

/// A new vault never overwrites a stored one: its id was free.
pub proof fn lemma_created_id_fresh(
    s: StorageModel,
    now: u64,
    creator: Address,
    token: Address,
    members: Seq<Address>,
    amounts: Seq<i128>,
    unlock_time: u64,
    funding_deadline: u64,
    lock_type: LockType,
    penalty_rate: u32,
)
    requires
        valid_ledger(s),
        s.vault_counter.unwrap_or(0) < u64::MAX,
        spec_create(
            s,
            now,
            creator,
            token,
            members,
            amounts,
            unlock_time,
            funding_deadline,
            lock_type,
            penalty_rate,
        ) is Ok,
    ensures
        ({
            let (s2, fx, id) = spec_create(
                s,
                now,
                creator,
                token,
                members,
                amounts,
                unlock_time,
                funding_deadline,
                lock_type,
                penalty_rate,
            )->Ok_0;
            &&& !s.vaults.dom().contains(id)
            &&& s2.vaults.dom().contains(id)
            &&& s2.vault_counter == Some((id + 1) as u64)
        }),
{
    lemma_create_preserves(
        s,
        now,
        creator,
        token,
        members,
        amounts,
        unlock_time,
        funding_deadline,
        lock_type,
        penalty_rate,
    );
}

// ─── Every unit the contract moves is accounted for ──────────────────────────

/// A new vault holds nothing, and creating it moves no tokens.
pub proof fn lemma_create_holds_nothing(
    s: StorageModel,
    now: u64,
    creator: Address,
    token: Address,
    members: Seq<Address>,
    amounts: Seq<i128>,
    unlock_time: u64,
    funding_deadline: u64,
    lock_type: LockType,
    penalty_rate: u32,
)
    requires
        valid_ledger(s),
        s.vault_counter.unwrap_or(0) < u64::MAX,
        spec_create(
            s,
            now,
            creator,
            token,
            members,
            amounts,
            unlock_time,
            funding_deadline,
            lock_type,
            penalty_rate,
        ) is Ok,
    ensures
        ({
            let (s2, fx, id) = spec_create(
                s,
                now,
                creator,
                token,
                members,
                amounts,
                unlock_time,
                funding_deadline,
                lock_type,
                penalty_rate,
            )->Ok_0;
            &&& vault_holdings(s2, id) == 0
            &&& contract_inflow(fx) == 0
        }),
{
    let (s2, fx, id) = spec_create(
        s,
        now,
        creator,
        token,
        members,
        amounts,
        unlock_time,
        funding_deadline,
        lock_type,
        penalty_rate,
    )->Ok_0;
    lemma_create_preserves(
        s,
        now,
        creator,
        token,
        members,
        amounts,
        unlock_time,
        funding_deadline,
        lock_type,
        penalty_rate,
    );
    assert(vault_ok(s2, id));
    assert forall|i: int| 0 <= i < members.len() implies locked_of(s2, id)(#[trigger] members[i])
        == 0 by {
        assert(members.contains(members[i]));
    }
    lemma_sum_distinct_zero(members, locked_of(s2, id));
    assert(!s.pools.dom().contains(id));
    lemma_inflow_single(fx[0]);
    assert(fx =~= seq![fx[0]]);
}

/// A deposit adds to what the vault holds exactly what it moves into the
/// contract: the amount paid in, less the commission forwarded to the creator.
pub proof fn lemma_deposit_holdings(s: StorageModel, now: u64, caller: Address, id: u64)
    requires
        valid_ledger(s),
        spec_deposit(s, now, caller, id) is Ok,
    ensures
        ({
            let (s2, fx) = spec_deposit(s, now, caller, id)->Ok_0;
            let amount = s.records[rkey(id, caller)].amount as int;
            &&& vault_holdings(s2, id) == vault_holdings(s, id) + contract_inflow(fx)
            &&& contract_inflow(fx) == amount - bps_share(amount, s.vaults[id].commission_rate as int)
            &&& contract_inflow(fx) >= 0
        }),
{
    let (s2, fx) = spec_deposit(s, now, caller, id)->Ok_0;
    let v = s.vaults[id];
    let k = rkey(id, caller);
    assert(vault_ok(s, id));
    assert(record_ok(v.state, s.records[k]));
    let amount = s.records[k].amount;
    lemma_bps_share_bounds(amount as int, v.commission_rate as int);
    let commission = bps_share(amount as int, v.commission_rate as int);
    let locked = amount - commission;
    let r1 = s.records.insert(k, MemberRecord { state: MemberState::Deposited, amount: locked as i128 });
    let s1 = StorageModel { records: r1, ..s };
    assert(v.members.contains(caller));
    // The caller's record starts to count with its locked amount.
    let f = locked_of(s, id);
    let g = locked_of(s1, id);
    assert forall|x: Address| x != caller implies #[trigger] f(x) == g(x) by {
        assert(rkey(id, x) != k);
    }
    lemma_sum_distinct_step(v.members, f, g, caller);
    let count = v.deposited_count + 1;
    if count == v.members.len() {
        // Activation turns deposited records into active ones with the same amounts.
        let p = deposited_pred(s, id);
        let q = deposited_pred(s1, id);
        assert forall|x: Address| x != caller implies #[trigger] p(x) == q(x) by {
            assert(rkey(id, x) != k);
        }
        lemma_count_distinct_step_up(v.members, p, q, caller);
        lemma_count_distinct_bound(v.members, q);
        let h = locked_of(s2, id);
        assert forall|i: int| 0 <= i < v.members.len() implies g(#[trigger] v.members[i]) == h(
            v.members[i],
        ) by {
            let m = v.members[i];
            assert(q(m));
            if m != caller {
                assert(rkey(id, m) != k);
                assert(record_ok(v.state, s.records[rkey(id, m)]));
            }
        }
        lemma_sum_distinct_frame(v.members, g, h);
    } else {
        assert(locked_of(s2, id) == g);
    }
    // The flow: the amount in, the commission out.
    let e_in = crate::model::pay(v.token, crate::types::Party::Account(caller), crate::types::Party::Contract, amount as int);
    let e_com = crate::model::pay(v.token, crate::types::Party::Contract, crate::types::Party::Account(v.creator), commission);
    let opt_com = if commission > 0 { seq![e_com] } else { Seq::<Effect>::empty() };
    lemma_inflow_single(e_in);
    lemma_inflow_single(e_com);
    assert(contract_inflow(Seq::<Effect>::empty()) == 0);
    let a = seq![e_in] + opt_com;
    lemma_inflow_append(seq![e_in], opt_com);
    let n = a.len() as int;
    let pub1 = fx.subrange(n, n + 1);
    let rest = fx.subrange(n + 1, fx.len() as int);
    assert(fx =~= a + pub1 + rest);
    lemma_inflow_append(a, pub1);
    lemma_inflow_append(a + pub1, rest);
    lemma_inflow_single(pub1[0]);
    assert(pub1 =~= seq![pub1[0]]);
    if rest.len() > 0 {
        lemma_inflow_single(rest[0]);
        assert(rest =~= seq![rest[0]]);
    }
}

/// Cancelling moves nothing and changes no holdings.
pub proof fn lemma_cancel_holdings(s: StorageModel, now: u64, id: u64)
    requires
        spec_cancel(s, now, id) is Ok,
    ensures
        ({
            let (s2, fx) = spec_cancel(s, now, id)->Ok_0;
            vault_holdings(s2, id) == vault_holdings(s, id) && contract_inflow(fx) == 0
        }),
{
    let (s2, fx) = spec_cancel(s, now, id)->Ok_0;
    assert(locked_of(s2, id) == locked_of(s, id));
    lemma_inflow_single(fx[0]);
    assert(fx =~= seq![fx[0]]);
}

/// A withdrawal takes from what the vault holds exactly what the contract
/// pays out; an early exit keeps its penalty in the pool.
pub proof fn lemma_withdraw_holdings(s: StorageModel, now: u64, caller: Address, id: u64)
    requires
        valid_ledger(s),
        withdraw_fits(s, now, caller, id),
        spec_withdraw(s, now, caller, id) is Ok,
    ensures
        ({
            let (s2, fx) = spec_withdraw(s, now, caller, id)->Ok_0;
            &&& vault_holdings(s2, id) == vault_holdings(s, id) + contract_inflow(fx)
            &&& contract_inflow(fx) <= 0
        }),
{
    let (s2, fx) = spec_withdraw(s, now, caller, id)->Ok_0;
    let v0 = s.vaults[id];
    let v = settled(s, id, now);
    let k = rkey(id, caller);
    assert(vault_ok(s, id));
    lemma_settled_facts(s, id, now);
    assert(record_ok(v0.state, s.records[k]));
    let amount = s.records[k].amount;
    assert(v0.members.contains(caller));
    let f = locked_of(s, id);
    let g = locked_of(s2, id);
    assert forall|x: Address| x != caller implies #[trigger] f(x) == g(x) by {
        assert(rkey(id, x) != k);
    }
    lemma_sum_distinct_step(v0.members, f, g, caller);
    lemma_inflow_single(fx[0]);
    lemma_inflow_single(fx[1]);
    lemma_inflow_append(seq![fx[0]], seq![fx[1]]);
    assert(fx =~= seq![fx[0]] + seq![fx[1]]);
    if v.state == VaultState::ActiveLocked {
        lemma_bps_share_bounds(amount as int, v0.penalty_rate as int);
    }
}

/// A claim takes from the pool exactly what the contract pays out; a member
/// who claims while active keeps its locked amount owed.
pub proof fn lemma_claim_holdings(s: StorageModel, now: u64, caller: Address, id: u64)
    requires
        valid_ledger(s),
        spec_claim(s, now, caller, id) is Ok,
    ensures
        ({
            let (s2, fx) = spec_claim(s, now, caller, id)->Ok_0;
            &&& vault_holdings(s2, id) == vault_holdings(s, id) + contract_inflow(fx)
            &&& contract_inflow(fx) == -claim_share(settled(s, id, now))
            &&& contract_inflow(fx) <= 0
        }),
{
    let (s2, fx) = spec_claim(s, now, caller, id)->Ok_0;
    let v0 = s.vaults[id];
    let v = settled(s, id, now);
    let k = rkey(id, caller);
    lemma_claim_preserves(s, now, caller, id);
    assert(vault_ok(s, id));
    lemma_settled_facts(s, id, now);
    assert(v0.members.contains(caller));
    let f = locked_of(s, id);
    let g = locked_of(s2, id);
    assert forall|x: Address| x != caller implies #[trigger] f(x) == g(x) by {
        assert(rkey(id, x) != k);
    }
    lemma_sum_distinct_step(v0.members, f, g, caller);
    let claim = claim_share(v);
    assert(contract_inflow(Seq::<Effect>::empty()) == 0);
    if claim > 0 {
        let a = fx.subrange(0, 1);
        let b = fx.subrange(1, 2);
        let rest = fx.subrange(2, fx.len() as int);
        assert(fx =~= a + b + rest);
        lemma_inflow_append(a, b);
        lemma_inflow_append(a + b, rest);
        lemma_inflow_single(a[0]);
        assert(a =~= seq![a[0]]);
        lemma_inflow_single(b[0]);
        assert(b =~= seq![b[0]]);
        if rest.len() > 0 {
            lemma_inflow_single(rest[0]);
            assert(rest =~= seq![rest[0]]);
        }
    } else {
        let b = fx.subrange(0, 1);
        let rest = fx.subrange(1, fx.len() as int);
        assert(fx =~= b + rest);
        lemma_inflow_append(b, rest);
        lemma_inflow_single(b[0]);
        assert(b =~= seq![b[0]]);
        if rest.len() > 0 {
            lemma_inflow_single(rest[0]);
            assert(rest =~= seq![rest[0]]);
        }
    }
}

} // verus!
