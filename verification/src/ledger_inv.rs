//! Why the ledger invariant survives each change the entry points make.
use vstd::prelude::*;

use crate::lemmas::{
    lemma_count_distinct_none, lemma_obligations_facts, lemma_count_bound, lemma_count_distinct_bound, lemma_count_distinct_frame,
    lemma_count_distinct_step_up, lemma_count_frame, lemma_count_positive, lemma_count_step_down,
};
use crate::model::{
    activate_records, bps_share, create_error, spec_create, claim_error, claim_share, claimable_pred, count_where,
    deposit_error, deposit_fits, deposited_pred, div_trunc, pool_after_claims, record_ok,
    rem_trunc, settled, spec_claim, spec_deposit, spec_withdraw, valid_ledger, vault_ok,
    withdraw_error, withdraw_fits,
};
use crate::storage::{pool_of, rkey, RecordKey, StorageModel};
use crate::types::{Address, LockType, MemberRecord, MemberState, VaultState};

verus! {

/// Storage `s2` agrees with `s` on everything that belongs to vault `id`.
pub open spec fn same_vault_data(s: StorageModel, s2: StorageModel, id: u64) -> bool {
    &&& s2.vaults.dom().contains(id) == s.vaults.dom().contains(id)
    &&& s2.vaults[id] == s.vaults[id]
    &&& pool_of(s2, id) == pool_of(s, id)
    &&& forall|m: Address| #[trigger]
        s2.records.dom().contains(rkey(id, m)) == s.records.dom().contains(rkey(id, m))
    &&& forall|m: Address| #[trigger]
        s.records.dom().contains(rkey(id, m)) ==> s2.records[rkey(id, m)] == s.records[rkey(id, m)]
}

/// A vault's invariant depends only on that vault's own data.
pub proof fn lemma_vault_ok_frame(s: StorageModel, s2: StorageModel, id: u64)
    requires
        s.vaults.dom().contains(id),
        vault_ok(s, id),
        same_vault_data(s, s2, id),
    ensures
        vault_ok(s2, id),
{
    let v = s.vaults[id];
    assert forall|i: int| 0 <= i < v.members.len() implies deposited_pred(s, id)(
        #[trigger] v.members[i],
    ) == deposited_pred(s2, id)(v.members[i]) by {
        let m = v.members[i];
        assert(s2.records.dom().contains(rkey(id, m)) == s.records.dom().contains(rkey(id, m)));
    }
    lemma_count_distinct_frame(v.members, deposited_pred(s, id), deposited_pred(s2, id));
    assert forall|i: int| 0 <= i < v.members.len() implies claimable_pred(s, id)(
        #[trigger] v.members[i],
    ) == claimable_pred(s2, id)(v.members[i]) by {
        let m = v.members[i];
        assert(s2.records.dom().contains(rkey(id, m)) == s.records.dom().contains(rkey(id, m)));
    }
    lemma_count_frame(v.members, claimable_pred(s, id), claimable_pred(s2, id));
    assert forall|i: int| 0 <= i < v.members.len() implies #[trigger] s2.records.dom().contains(
        rkey(id, v.members[i]),
    ) by {
        assert(s.records.dom().contains(rkey(id, v.members[i])));
    }
    assert forall|m: Address| #[trigger] s2.records.dom().contains(rkey(id, m)) implies crate::model::record_ok(
        v.state,
        s2.records[rkey(id, m)],
    ) by {
        assert(s.records.dom().contains(rkey(id, m)));
    }
}

/// Creating a vault keeps the ledger valid: the new vault takes a fresh id and
/// every member starts committed to a positive amount.
pub proof fn lemma_create_preserves(
    s: StorageModel,
    now: u64,
    creator: Address,
    token: Address,
    members: Seq<Address>,
    amounts: Seq<i128>,
    unlock_time: u64,
    funding_deadline: u64,
    lock_type: LockType,
    penalty_rate: u32,
)
    requires
        valid_ledger(s),
        create_error(
            s,
            now,
            token,
            members,
            amounts,
            unlock_time,
            funding_deadline,
            lock_type,
            penalty_rate,
        ) is None,
        s.vault_counter.unwrap_or(0) < u64::MAX,
    ensures
        !s.vaults.dom().contains(s.vault_counter.unwrap_or(0)),
        valid_ledger(
            spec_create(
                s,
                now,
                creator,
                token,
                members,
                amounts,
                unlock_time,
                funding_deadline,
                lock_type,
                penalty_rate,
            )->Ok_0.0,
        ),
{
    let id = s.vault_counter.unwrap_or(0);
    let s2 = spec_create(
        s,
        now,
        creator,
        token,
        members,
        amounts,
        unlock_time,
        funding_deadline,
        lock_type,
        penalty_rate,
    )->Ok_0.0;
    assert(!s.vaults.dom().contains(id));
    assert forall|j: int| 0 <= j < amounts.len() implies #[trigger] amounts[j] > 0 by {
        if amounts[j] <= 0 {
            assert(create_error(
                s,
                now,
                token,
                members,
                amounts,
                unlock_time,
                funding_deadline,
                lock_type,
                penalty_rate,
            ) is Some);
        }
    }
    lemma_obligations_facts(members, amounts);
    // No record belongs to the new id yet.
    assert forall|m: Address| !#[trigger] s.records.dom().contains(rkey(id, m)) by {
        if s.records.dom().contains(rkey(id, m)) {
            assert(s.vaults.dom().contains(rkey(id, m).vault_id));
        }
    }
    assert forall|id2: u64| #[trigger] s2.vaults.dom().contains(id2) implies id2
        < s2.vault_counter.unwrap_or(0) && vault_ok(s2, id2) by {
        if id2 != id {
            assert(s.vaults.dom().contains(id2));
            assert forall|m: Address| #[trigger] s2.records.dom().contains(rkey(id2, m))
                == s.records.dom().contains(rkey(id2, m)) by {}
            assert forall|m: Address| #[trigger] s.records.dom().contains(rkey(id2, m)) implies s2.records[rkey(id2, m)] == s.records[rkey(id2, m)] by {}
            assert(same_vault_data(s, s2, id2));
            lemma_vault_ok_frame(s, s2, id2);
        } else {
            let v2 = s2.vaults[id];
            assert forall|i: int| 0 <= i < v2.members.len() implies #[trigger] s2.records.dom().contains(
                rkey(id, v2.members[i]),
            ) by {
                assert(members.contains(members[i]));
            }
            assert forall|m: Address| #[trigger] s2.records.dom().contains(rkey(id, m)) implies record_ok(
                v2.state,
                s2.records[rkey(id, m)],
            ) by {
                assert(members.contains(m));
                assert(crate::model::build_obligations(members, amounts).dom().contains(m));
            }
            assert forall|i: int| 0 <= i < v2.members.len() implies !deposited_pred(s2, id)(
                #[trigger] v2.members[i],
            ) by {
                assert(members.contains(members[i]));
            }
            lemma_count_distinct_none(v2.members, deposited_pred(s2, id));
            assert(!s.pools.dom().contains(id));
        }
    }
    assert forall|k2: RecordKey| #[trigger] s2.records.dom().contains(k2) implies s2.vaults.dom().contains(
        k2.vault_id,
    ) && s2.vaults[k2.vault_id].members.contains(k2.member) by {
        if !(k2.vault_id == id && members.contains(k2.member)) {
            assert(s.records.dom().contains(k2));
        }
    }
}

/// `rate` basis points of a non-negative amount, for a rate of at most a
/// whole, lie between nothing and the amount.
pub proof fn lemma_bps_share_bounds(amount: int, rate: int)
    requires
        amount >= 0,
        0 <= rate <= 10_000,
    ensures
        0 <= bps_share(amount, rate) <= amount,
{
    assert(0 <= amount * rate <= amount * 10_000) by (nonlinear_arith)
        requires
            amount >= 0,
            0 <= rate <= 10_000,
    ;
}

/// A deposit keeps the ledger valid; the count of deposits stays within the
/// member list and the commission within the amount.
pub proof fn lemma_deposit_preserves(s: StorageModel, now: u64, caller: Address, id: u64)
    requires
        valid_ledger(s),
        deposit_error(s, now, caller, id) is None,
        deposit_fits(s, now, caller, id),
    ensures
        s.records[rkey(id, caller)].amount > 0,
        0 <= bps_share(
            s.records[rkey(id, caller)].amount as int,
            s.vaults[id].commission_rate as int,
        ) <= s.records[rkey(id, caller)].amount,
        s.vaults[id].deposited_count + 1 <= s.vaults[id].members.len(),
        valid_ledger(spec_deposit(s, now, caller, id)->Ok_0.0),
{
    let v = s.vaults[id];
    let k = rkey(id, caller);
    assert(vault_ok(s, id));
    assert(record_ok(v.state, s.records[k]));
    let amount = s.records[k].amount;
    lemma_bps_share_bounds(amount as int, v.commission_rate as int);
    let commission = bps_share(amount as int, v.commission_rate as int);
    let locked = amount - commission;
    let r1 = s.records.insert(k, MemberRecord { state: MemberState::Deposited, amount: locked as i128 });
    let s1 = StorageModel { records: r1, ..s };
    assert(v.members.contains(caller));
    let p = deposited_pred(s, id);
    let q = deposited_pred(s1, id);
    assert forall|x: Address| x != caller implies #[trigger] p(x) == q(x) by {
        assert(rkey(id, x) != k);
    }
    lemma_count_distinct_step_up(v.members, p, q, caller);
    lemma_count_distinct_bound(v.members, q);
    let s2 = spec_deposit(s, now, caller, id)->Ok_0.0;
    let count = v.deposited_count + 1;
    let activated = count == v.members.len();
    assert(s2.records.dom() =~= s.records.dom());
    assert forall|id2: u64| #[trigger] s2.vaults.dom().contains(id2) implies id2
        < s2.vault_counter.unwrap_or(0) && vault_ok(s2, id2) by {
        if id2 != id {
            assert(s.vaults.dom().contains(id2));
            assert forall|m: Address| #[trigger] s.records.dom().contains(rkey(id2, m)) implies s2.records[rkey(id2, m)] == s.records[rkey(id2, m)] by {
                assert(rkey(id2, m) != k);
            }
            assert(same_vault_data(s, s2, id2));
            lemma_vault_ok_frame(s, s2, id2);
        } else {
            let v2 = s2.vaults[id];
            if activated {
                assert forall|m: Address| #[trigger] s2.records.dom().contains(rkey(id, m)) implies record_ok(
                    v2.state,
                    s2.records[rkey(id, m)],
                ) by {
                    if m != caller {
                        assert(rkey(id, m) != k);
                        assert(record_ok(v.state, s.records[rkey(id, m)]));
                    }
                }
            } else {
                assert forall|m: Address| #[trigger] s2.records.dom().contains(rkey(id, m)) implies record_ok(
                    v2.state,
                    s2.records[rkey(id, m)],
                ) by {
                    if m != caller {
                        assert(rkey(id, m) != k);
                        assert(record_ok(v.state, s.records[rkey(id, m)]));
                    }
                }
                assert(deposited_pred(s2, id) == q);
            }
            assert forall|i: int| 0 <= i < v2.members.len() implies #[trigger] s2.records.dom().contains(
                rkey(id, v2.members[i]),
            ) by {
                assert(s.records.dom().contains(rkey(id, v.members[i])));
            }
        }
    }
    assert forall|k2: RecordKey| #[trigger] s2.records.dom().contains(k2) implies s2.vaults.dom().contains(
        k2.vault_id,
    ) && s2.vaults[k2.vault_id].members.contains(k2.member) by {
        assert(s.records.dom().contains(k2));
    }
}

/// The settlement transition leaves a vault within its member list, and a
/// vault that becomes settlement-ready has no claims yet and a pool that
/// counts only what is fixed.
pub proof fn lemma_settled_facts(s: StorageModel, id: u64, now: u64)
    requires
        valid_ledger(s),
        s.vaults.dom().contains(id),
    ensures
        settled(s, id, now).members == s.vaults[id].members,
        settled(s, id, now).members.len() <= 100,
        settled(s, id, now).lock_type == s.vaults[id].lock_type,
        settled(s, id, now).penalty_rate == s.vaults[id].penalty_rate,
        settled(s, id, now).token == s.vaults[id].token,
        s.vaults[id].state == VaultState::ActiveLocked && settled(s, id, now).state
            == VaultState::SettlementReady ==> {
            let v = settled(s, id, now);
            &&& v.eligible_claimers as int == crate::model::count_where(
                v.members,
                claimable_pred(s, id),
            )
            &&& v.eligible_claimers <= v.members.len()
            &&& v.claimed_count == 0
            &&& v.original_pool == pool_of(s, id)
            &&& v.original_pool >= 0
        },
        settled(s, id, now).state != s.vaults[id].state ==> s.vaults[id].state
            == VaultState::ActiveLocked && settled(s, id, now).state
            == VaultState::SettlementReady,
{
    assert(vault_ok(s, id));
    lemma_count_bound(s.vaults[id].members, claimable_pred(s, id));
}

/// A withdrawal keeps the ledger valid.
pub proof fn lemma_withdraw_preserves(s: StorageModel, now: u64, caller: Address, id: u64)
    requires
        valid_ledger(s),
        withdraw_error(s, now, caller, id) is None,
        withdraw_fits(s, now, caller, id),
    ensures
        valid_ledger(spec_withdraw(s, now, caller, id)->Ok_0.0),
        settled(s, id, now).state == VaultState::ActiveLocked ==> 0 <= bps_share(
            s.records[rkey(id, caller)].amount as int,
            s.vaults[id].penalty_rate as int,
        ),
{
    let v0 = s.vaults[id];
    let v = settled(s, id, now);
    let k = rkey(id, caller);
    assert(vault_ok(s, id));
    lemma_settled_facts(s, id, now);
    assert(record_ok(v0.state, s.records[k]));
    let amount = s.records[k].amount;
    let s2 = spec_withdraw(s, now, caller, id)->Ok_0.0;
    if v.state == VaultState::ActiveLocked {
        let p = amount * v0.penalty_rate;
        assert(p >= 0) by (nonlinear_arith)
            requires
                amount >= 0,
                v0.penalty_rate >= 0,
                p == amount * v0.penalty_rate,
        ;
    }
    assert(s2.records.dom() =~= s.records.dom());
    assert forall|id2: u64| #[trigger] s2.vaults.dom().contains(id2) implies id2
        < s2.vault_counter.unwrap_or(0) && vault_ok(s2, id2) by {
        if id2 != id {
            assert(s.vaults.dom().contains(id2));
            assert forall|m: Address| #[trigger] s.records.dom().contains(rkey(id2, m)) implies s2.records[rkey(id2, m)] == s.records[rkey(id2, m)] by {
                assert(rkey(id2, m) != k);
            }
            assert(same_vault_data(s, s2, id2));
            lemma_vault_ok_frame(s, s2, id2);
        } else {
            let v2 = s2.vaults[id];
            assert(v2 == v);
            assert forall|m: Address| #[trigger] s2.records.dom().contains(rkey(id, m)) implies record_ok(
                v2.state,
                s2.records[rkey(id, m)],
            ) by {
                if m != caller {
                    assert(rkey(id, m) != k);
                    assert(record_ok(v0.state, s.records[rkey(id, m)]));
                }
            }
            assert forall|i: int| 0 <= i < v2.members.len() implies #[trigger] s2.records.dom().contains(
                rkey(id, v2.members[i]),
            ) by {
                assert(s.records.dom().contains(rkey(id, v0.members[i])));
            }
            if v.state == VaultState::SettlementReady {
                let p = claimable_pred(s, id);
                let q = claimable_pred(s2, id);
                assert forall|i: int| 0 <= i < v.members.len() implies p(#[trigger] v.members[i])
                    == q(v.members[i]) by {
                    let m = v.members[i];
                    if m != caller {
                        assert(rkey(id, m) != k);
                    }
                }
                lemma_count_frame(v.members, p, q);
                assert(pool_of(s2, id) == pool_of(s, id));
                if v0.state == VaultState::SettlementReady {
                    assert(pool_of(s, id) == pool_after_claims(v0));
                }
            }
        }
    }
    assert forall|k2: RecordKey| #[trigger] s2.records.dom().contains(k2) implies s2.vaults.dom().contains(
        k2.vault_id,
    ) && s2.vaults[k2.vault_id].members.contains(k2.member) by {
        assert(s.records.dom().contains(k2));
    }
}

/// Sharing `op` among `k` claimers: the first takes an equal share and the
/// remainder, each later one an equal share, and what stays in the pool after
/// `c + 1` claims is `k - c - 1` shares.
pub proof fn lemma_share_arithmetic(op: int, k: int, c: int)
    requires
        op > 0,
        0 <= c < k,
    ensures
        0 <= div_trunc(op, k),
        0 <= rem_trunc(op, k) < k,
        k * div_trunc(op, k) + rem_trunc(op, k) == op,
        div_trunc(op, k) + rem_trunc(op, k) > 0,
        c == 0 ==> op - (div_trunc(op, k) + rem_trunc(op, k)) == (k - 1) * div_trunc(op, k),
        c > 0 ==> (k - c) * div_trunc(op, k) - div_trunc(op, k) == (k - c - 1) * div_trunc(op, k),
        (k - c - 1) * div_trunc(op, k) >= 0,
        (k - c) * div_trunc(op, k) >= div_trunc(op, k),
        div_trunc(op, k) + rem_trunc(op, k) <= op,
        (k - k) * div_trunc(op, k) == 0,
{
    let b = op / k;
    let r = op % k;
    assert(op == k * b + r && 0 <= r < k && b >= 0) by (nonlinear_arith)
        requires
            op > 0,
            k > 0,
            b == op / k,
            r == op % k,
    ;
    assert(b + r > 0) by (nonlinear_arith)
        requires
            op == k * b + r,
            op > 0,
            b >= 0,
            r >= 0,
    ;
    assert(op - (b + r) == (k - 1) * b) by (nonlinear_arith)
        requires
            op == k * b + r,
    ;
    assert((k - c) * b - b == (k - c - 1) * b) by (nonlinear_arith);
    assert((k - c - 1) * b >= 0 && (k - c) * b >= b && (k - 1) * b >= 0) by (nonlinear_arith)
        requires
            b >= 0,
            0 <= c < k,
    ;
    assert((k - k) * b == 0) by (nonlinear_arith);
}

/// A claim keeps the ledger valid: claims never outnumber the eligible
/// members, and the pool never pays out more than it holds.
pub proof fn lemma_claim_preserves(s: StorageModel, now: u64, caller: Address, id: u64)
    requires
        valid_ledger(s),
        claim_error(s, now, caller, id) is None,
    ensures
        settled(s, id, now).claimed_count < settled(s, id, now).eligible_claimers <= 100,
        settled(s, id, now).original_pool >= 0,
        0 <= claim_share(settled(s, id, now)) <= settled(s, id, now).original_pool,
        claim_share(settled(s, id, now)) <= pool_of(s, id),
        settled(s, id, now).eligible_claimers > 0 && settled(s, id, now).original_pool != 0 ==> {
            let op = settled(s, id, now).original_pool as int;
            let k = settled(s, id, now).eligible_claimers as int;
            &&& 0 <= div_trunc(op, k) <= op
            &&& 0 <= rem_trunc(op, k)
            &&& div_trunc(op, k) + rem_trunc(op, k) <= op
        },
        valid_ledger(spec_claim(s, now, caller, id)->Ok_0.0),
{
    let v0 = s.vaults[id];
    let v = settled(s, id, now);
    let key = rkey(id, caller);
    assert(vault_ok(s, id));
    lemma_settled_facts(s, id, now);
    assert(record_ok(v0.state, s.records[key]));
    assert(v.state == VaultState::SettlementReady);
    // What a settlement-ready vault satisfies, whether it became one now or earlier.
    assert(v.members.no_duplicates());
    assert(v.claimed_count <= v.eligible_claimers <= v.members.len());
    assert(count_where(v.members, claimable_pred(s, id)) + v.claimed_count == v.eligible_claimers);
    assert(pool_of(s, id) == pool_after_claims(v));
    let p = claimable_pred(s, id);
    assert(v.members.contains(caller));
    lemma_count_positive(v.members, p, caller);
    let k = v.eligible_claimers as int;
    let c = v.claimed_count as int;
    let op = v.original_pool as int;
    if op > 0 {
        lemma_share_arithmetic(op, k, c);
    }
    let claim = claim_share(v);
    let s2 = spec_claim(s, now, caller, id)->Ok_0.0;
    let v2 = s2.vaults[id];
    let q = claimable_pred(s2, id);
    assert forall|x: Address| x != caller implies #[trigger] p(x) == q(x) by {
        assert(rkey(id, x) != key);
    }
    lemma_count_step_down(v.members, p, q, caller);
    assert(count_where(v2.members, q) + v2.claimed_count == v2.eligible_claimers);
    // The pool after this claim.
    if op == 0 {
        assert(pool_of(s2, id) == 0);
    } else if c == 0 {
        assert(pool_of(s2, id) == (k - 1) * div_trunc(op, k));
    } else {
        if div_trunc(op, k) > 0 {
            assert(pool_of(s2, id) == (k - c - 1) * div_trunc(op, k));
        } else {
            assert(pool_of(s2, id) == 0);
            assert((k - c - 1) * div_trunc(op, k) == 0) by (nonlinear_arith)
                requires
                    div_trunc(op, k) == 0,
            ;
        }
    }
    assert(pool_of(s2, id) == pool_after_claims(v2));
    assert(s2.records.dom() =~= s.records.dom());
    assert forall|id2: u64| #[trigger] s2.vaults.dom().contains(id2) implies id2
        < s2.vault_counter.unwrap_or(0) && vault_ok(s2, id2) by {
        if id2 != id {
            assert(s.vaults.dom().contains(id2));
            assert forall|m: Address| #[trigger] s.records.dom().contains(rkey(id2, m)) implies s2.records[rkey(id2, m)] == s.records[rkey(id2, m)] by {
                assert(rkey(id2, m) != key);
            }
            assert(same_vault_data(s, s2, id2));
            lemma_vault_ok_frame(s, s2, id2);
        } else {
            assert forall|i: int| 0 <= i < v2.members.len() implies #[trigger] s2.records.dom().contains(
                rkey(id, v2.members[i]),
            ) by {
                assert(s.records.dom().contains(rkey(id, v0.members[i])));
            }
            assert(v2.members.no_duplicates());
            assert(v2.claimed_count <= v2.eligible_claimers <= v2.members.len());
            assert(v2.original_pool >= 0);
            if v2.state == VaultState::Resolved {
                assert(pool_of(s2, id) == 0);
                assert forall|m: Address| #[trigger] s2.records.dom().contains(rkey(id, m)) implies record_ok(
                    v2.state,
                    s2.records[rkey(id, m)],
                ) by {
                    if m != caller {
                        assert(rkey(id, m) != key);
                        assert(record_ok(v0.state, s.records[rkey(id, m)]));
                        assert(v2.members.contains(m));
                        if q(m) {
                            lemma_count_positive(v2.members, q, m);
                        }
                    }
                }
            } else {
                assert forall|m: Address| #[trigger] s2.records.dom().contains(rkey(id, m)) implies record_ok(
                    v2.state,
                    s2.records[rkey(id, m)],
                ) by {
                    if m != caller {
                        assert(rkey(id, m) != key);
                        assert(record_ok(v0.state, s.records[rkey(id, m)]));
                    }
                }
            }
        }
    }
    assert forall|k2: RecordKey| #[trigger] s2.records.dom().contains(k2) implies s2.vaults.dom().contains(
        k2.vault_id,
    ) && s2.vaults[k2.vault_id].members.contains(k2.member) by {
        assert(s.records.dom().contains(k2));
    }
}

} // verus!
