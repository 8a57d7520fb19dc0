//! What each entry point accepts and what it does with its inputs, stated
//! directly over the ledger and the arguments.
use vstd::prelude::*;

use crate::model::{
    bps_share, member_claim_amount, spec_cancel, spec_create, spec_deposit, spec_withdraw,
    valid_ledger, vault_ok, withdraw_fits,
};
use crate::storage::{pool_of, rkey, StorageModel};
use crate::types::{
    Address, Effect, LockType, MemberRecord, MemberState, Party, Transfer, VaultState,
};

verus! {

/// `rate` basis points of a non-negative amount are the amount times the rate
/// over ten thousand, rounded down, with no other cap; for a rate of at most
/// ten thousand they are never more than the amount.
pub proof fn lemma_bps_share_floor(amount: int, rate: int)
    requires
        amount >= 0,
        rate >= 0,
    ensures
        10_000 * bps_share(amount, rate) <= amount * rate,
        amount * rate < 10_000 * (bps_share(amount, rate) + 1),
        0 <= bps_share(amount, rate),
        rate <= 10_000 ==> bps_share(amount, rate) <= amount,
{
    assert(amount * rate >= 0) by (nonlinear_arith)
        requires
            amount >= 0,
            rate >= 0,
    ;
    if rate <= 10_000 {
        assert(amount * rate <= amount * 10_000) by (nonlinear_arith)
            requires
                amount >= 0,
                rate <= 10_000,
        ;
    }
}

/// Only a member whose record is active or withdrawn at maturity has a claim
/// amount; for any other member, an outsider, or an unknown vault it is 0.
/// The amount is never negative and never more than the pool.
pub proof fn lemma_claim_amount_only_for_claimers(s: StorageModel, id: u64, m: Address)
    requires
        valid_ledger(s),
    ensures
        !(s.vaults.dom().contains(id) && s.records.dom().contains(rkey(id, m)) && (s.records[rkey(
            id,
            m,
        )].state == MemberState::Active || s.records[rkey(id, m)].state
            == MemberState::Withdrawn)) ==> member_claim_amount(s, id, m) == 0,
        0 <= member_claim_amount(s, id, m) <= pool_of(s, id),
        pool_of(s, id) == 0 ==> member_claim_amount(s, id, m) == 0,
        ({
            let n = crate::model::count_where(
                s.vaults[id].members,
                crate::model::claimable_pred(s, id),
            ) as int;
            let r = member_claim_amount(s, id, m) as int;
            s.vaults.dom().contains(id) && s.records.dom().contains(rkey(id, m)) && (s.records[rkey(
                id,
                m,
            )].state == MemberState::Active || s.records[rkey(id, m)].state
                == MemberState::Withdrawn) && n > 0 ==> n * r <= pool_of(s, id) < n * (r + 1)
        }),
{
    if s.vaults.dom().contains(id) {
        crate::laws::lemma_pool_accounting(s, id);
    }
    let r = member_claim_amount(s, id, m);
    if r != 0 {
        let pool = pool_of(s, id) as int;
        let n = crate::model::count_where(
            s.vaults[id].members,
            crate::model::claimable_pred(s, id),
        ) as int;
        assert(pool >= 0 && n > 0);
        assert(r == pool / n);
        assert(0 <= pool / n <= pool) by (nonlinear_arith)
            requires
                pool >= 0,
                n > 0,
        ;
    }
    if s.vaults.dom().contains(id) && s.records.dom().contains(rkey(id, m)) {
        let pool = pool_of(s, id) as int;
        let n = crate::model::count_where(
            s.vaults[id].members,
            crate::model::claimable_pred(s, id),
        ) as int;
        if n > 0 && pool > 0 {
            assert(n * (pool / n) <= pool < n * (pool / n + 1)) by (nonlinear_arith)
                requires
                    pool >= 0,
                    n > 0,
            ;
        }
    }
}

/// A cancellation succeeds exactly on a stored vault that is still open for
/// funding and whose funding deadline has passed; it marks the vault
/// cancelled, changes nothing else in it, and touches no record or pool.
/// Before the deadline it is refused as such.
pub proof fn lemma_cancel_only_after_deadline(s: StorageModel, now: u64, id: u64)
    ensures
        spec_cancel(s, now, id) is Ok <==> (s.vaults.dom().contains(id) && s.vaults[id].state
            == VaultState::FundingOpen && now > s.vaults[id].funding_deadline),
        s.vaults.dom().contains(id) && s.vaults[id].state == VaultState::FundingOpen && now
            <= s.vaults[id].funding_deadline ==> spec_cancel(s, now, id) == Err::<
            (StorageModel, Seq<Effect>),
            crate::storage_types::CcpError,
        >(crate::storage_types::CcpError::FundingDeadlineNotPassed),
        spec_cancel(s, now, id) is Ok ==> ({
            let s2 = spec_cancel(s, now, id)->Ok_0.0;
            &&& s2.vaults.dom() == s.vaults.dom()
            &&& s2.vaults[id].state == VaultState::Cancelled
            &&& s2.vaults[id].funding_deadline == s.vaults[id].funding_deadline
            &&& s2.vaults[id].deposited_count == s.vaults[id].deposited_count
            &&& s2.vaults[id].members == s.vaults[id].members
            &&& s2.records == s.records
            &&& s2.pools == s.pools
            &&& forall|i: int|
                0 <= i < spec_cancel(s, now, id)->Ok_0.1.len() ==> !(#[trigger] spec_cancel(
                    s,
                    now,
                    id,
                )->Ok_0.1[i] is Transfer)
        }),
{
    if spec_cancel(s, now, id) is Ok {
        let s2 = spec_cancel(s, now, id)->Ok_0.0;
        assert(s2.vaults.dom() =~= s.vaults.dom());
    }
}

/// A creation succeeds exactly when it lists 5 to 100 members with as many
/// amounts, all positive, the tokens are set and include `token`, and
/// `now < funding_deadline < unlock_time`, with a penalty rate of 1 to 10 000
/// basis points for a penalty vault; the vault it stores keeps those times.
pub proof fn lemma_create_requirements(
    s: StorageModel,
    now: u64,
    creator: Address,
    token: Address,
    members: Seq<Address>,
    amounts: Seq<i128>,
    unlock_time: u64,
    funding_deadline: u64,
    lock_type: LockType,
    penalty_rate: u32,
)
    ensures
        spec_create(
            s,
            now,
            creator,
            token,
            members,
            amounts,
            unlock_time,
            funding_deadline,
            lock_type,
            penalty_rate,
        ) is Ok <==> {
            &&& 5 <= members.len() <= 100
            &&& amounts.len() == members.len()
            &&& forall|i: int| 0 <= i < amounts.len() ==> #[trigger] amounts[i] > 0
            &&& s.supported_tokens matches Some(ts) && ts.contains(token)
            &&& now < funding_deadline
            &&& funding_deadline < unlock_time
            &&& lock_type == LockType::Penalty ==> 1 <= penalty_rate <= 10_000
        },
        spec_create(
            s,
            now,
            creator,
            token,
            members,
            amounts,
            unlock_time,
            funding_deadline,
            lock_type,
            penalty_rate,
        ) is Ok ==> ({
            let (s2, fx, id) = spec_create(
                s,
                now,
                creator,
                token,
                members,
                amounts,
                unlock_time,
                funding_deadline,
                lock_type,
                penalty_rate,
            )->Ok_0;
            &&& s2.vaults.dom().contains(id)
            &&& s2.vaults[id].funding_deadline == funding_deadline
            &&& s2.vaults[id].unlock_time == unlock_time
            &&& s2.vaults[id].members == members
            &&& s2.vaults[id].creator == creator
            &&& s2.vaults[id].token == token
            &&& s2.vaults[id].state == VaultState::FundingOpen
            &&& s2.vaults[id].deposited_count == 0
            &&& s2.vaults[id].claimed_count == 0
            &&& s2.vaults[id].commission_rate == 500
            &&& fx.len() == 1 && fx[0] is Publish
            &&& forall|j: int|
                0 <= j < members.len() && (forall|k: int|
                    j < k < members.len() ==> members[k] != members[j]) ==> s2.records[rkey(
                    id,
                    #[trigger] members[j],
                )] == MemberRecord { state: MemberState::Committed, amount: amounts[j] }
        }),
{
    if spec_create(
        s,
        now,
        creator,
        token,
        members,
        amounts,
        unlock_time,
        funding_deadline,
        lock_type,
        penalty_rate,
    ) is Ok {
        let (s2, fx, id) = spec_create(
            s,
            now,
            creator,
            token,
            members,
            amounts,
            unlock_time,
            funding_deadline,
            lock_type,
            penalty_rate,
        )->Ok_0;
        assert forall|j: int|
            0 <= j < members.len() && (forall|k: int|
                j < k < members.len() ==> members[k] != members[j]) implies s2.records[rkey(
            id,
            #[trigger] members[j],
        )] == MemberRecord { state: MemberState::Committed, amount: amounts[j] } by {
            assert(members.contains(members[j]));
            lemma_obligation_is_last(members, amounts, j);
        }
    }
}

/// A member's obligation is the amount at its last position in the list.
pub proof fn lemma_obligation_is_last(ms: Seq<Address>, amounts: Seq<i128>, j: int)
    requires
        ms.len() == amounts.len(),
        0 <= j < ms.len(),
        forall|k: int| j < k < ms.len() ==> ms[k] != ms[j],
    ensures
        crate::model::build_obligations(ms, amounts).dom().contains(ms[j]),
        crate::model::build_obligations(ms, amounts)[ms[j]] == amounts[j],
    decreases ms.len(),
{
    if j < ms.len() - 1 {
        let dm = ms.drop_last();
        let da = amounts.drop_last();
        assert(ms.last() == ms[ms.len() - 1]);
        assert(dm[j] == ms[j]);
        assert(da[j] == amounts[j]);
        assert forall|k: int| j < k < dm.len() implies dm[k] != dm[j] by {
            assert(dm[k] == ms[k]);
        }
        lemma_obligation_is_last(dm, da, j);
    }
}

/// A deposit succeeds exactly for a member whose commitment is still unpaid,
/// in a stored vault open for funding, no later than its funding deadline.
/// It takes the member's whole committed amount into the contract and locks
/// that amount less the commission, which is the commission rate's share of
/// the amount rounded down.
pub proof fn lemma_deposit_requirements(s: StorageModel, now: u64, caller: Address, id: u64)
    requires
        valid_ledger(s),
    ensures
        spec_deposit(s, now, caller, id) is Ok <==> {
            &&& s.vaults.dom().contains(id)
            &&& s.vaults[id].state == VaultState::FundingOpen
            &&& now <= s.vaults[id].funding_deadline
            &&& s.records.dom().contains(rkey(id, caller))
            &&& s.records[rkey(id, caller)].state == MemberState::Committed
        },
        spec_deposit(s, now, caller, id) is Ok ==> ({
            let (s2, fx) = spec_deposit(s, now, caller, id)->Ok_0;
            let a = s.records[rkey(id, caller)].amount as int;
            let locked = s2.records[rkey(id, caller)].amount as int;
            let rate = s.vaults[id].commission_rate as int;
            &&& 10_000 * (a - locked) <= a * rate
            &&& a * rate < 10_000 * (a - locked + 1)
            &&& 0 <= locked <= a
            &&& fx[0] == Effect::Transfer(
                Transfer {
                    token: s.vaults[id].token,
                    from: Party::Account(caller),
                    to: Party::Contract,
                    amount: a as i128,
                },
            )
            &&& a - locked > 0 ==> fx[1] == Effect::Transfer(
                Transfer {
                    token: s.vaults[id].token,
                    from: Party::Contract,
                    to: Party::Account(s.vaults[id].creator),
                    amount: (a - locked) as i128,
                },
            )
            &&& a - locked == 0 ==> !(fx[1] is Transfer)
            &&& s2.vaults[id].deposited_count == s.vaults[id].deposited_count + 1
            &&& (s2.vaults[id].state == VaultState::ActiveLocked) == (s.vaults[id].deposited_count
                + 1 == s.vaults[id].members.len())
            &&& s2.vaults[id].state != VaultState::ActiveLocked ==> s2.vaults[id].state
                == VaultState::FundingOpen
        }),
{
    if spec_deposit(s, now, caller, id) is Ok {
        let k = rkey(id, caller);
        assert(vault_ok(s, id));
        assert(crate::model::record_ok(s.vaults[id].state, s.records[k]));
        let a = s.records[k].amount as int;
        let v = s.vaults[id];
        lemma_bps_share_floor(a, v.commission_rate as int);
        crate::lemmas::lemma_count_distinct_bound(v.members, crate::model::deposited_pred(s, id));
        let (s2, fx) = spec_deposit(s, now, caller, id)->Ok_0;
        let c = bps_share(a, v.commission_rate as int);
        assert(s2.records[k].amount == a - c);
        let e_in = crate::model::pay(v.token, Party::Account(caller), Party::Contract, a);
        let e_com = crate::model::pay(v.token, Party::Contract, Party::Account(v.creator), c);
        let opt = if c > 0 { seq![e_com] } else { Seq::<Effect>::empty() };
        let rest = fx.subrange(1 + opt.len() as int, fx.len() as int);
        assert(fx =~= seq![e_in] + opt + rest);
        assert(fx[0] == e_in);
        if c > 0 {
            assert(fx[1] == e_com);
        } else {
            assert(fx[1] == rest[0]);
            assert(rest[0] is Publish);
        }
    }
}

/// An early exit from a locked penalty vault pays the member its locked
/// amount less the penalty, and adds the penalty to the pool; the penalty is
/// the penalty rate's share of the amount rounded down.
pub proof fn lemma_early_exit_penalty(s: StorageModel, now: u64, caller: Address, id: u64)
    requires
        valid_ledger(s),
        withdraw_fits(s, now, caller, id),
        spec_withdraw(s, now, caller, id) is Ok,
        s.vaults[id].state == VaultState::ActiveLocked,
        now < s.vaults[id].unlock_time,
    ensures
        ({
            let (s2, fx) = spec_withdraw(s, now, caller, id)->Ok_0;
            let a = s.records[rkey(id, caller)].amount as int;
            let penalty = pool_of(s2, id) - pool_of(s, id);
            let rate = s.vaults[id].penalty_rate as int;
            &&& 10_000 * penalty <= a * rate
            &&& a * rate < 10_000 * (penalty + 1)
            &&& 0 <= penalty <= a
            &&& s2.records[rkey(id, caller)].state == MemberState::Exited
            &&& fx[0] == Effect::Transfer(
                Transfer {
                    token: s.vaults[id].token,
                    from: Party::Contract,
                    to: Party::Account(caller),
                    amount: (a - penalty) as i128,
                },
            )
        }),
{
    let k = rkey(id, caller);
    assert(vault_ok(s, id));
    assert(crate::model::record_ok(s.vaults[id].state, s.records[k]));
    let a = s.records[k].amount as int;
    lemma_bps_share_floor(a, s.vaults[id].penalty_rate as int);
}


/// A withdrawal succeeds only in four situations: a deposited member of a
/// cancelled vault; an active member of a locked penalty vault before its
/// unlock time; an active member, or one who claimed while active, once the
/// unlock time has come; and a member who claimed while active, after the
/// vault is resolved. Outside an early exit, it pays the member's whole
/// locked amount and leaves the pool as it was.
pub proof fn lemma_withdraw_cases(s: StorageModel, now: u64, caller: Address, id: u64)
    requires
        valid_ledger(s),
    ensures
        spec_withdraw(s, now, caller, id) is Ok ==> {
            let v = s.vaults[id];
            let st = s.records[rkey(id, caller)].state;
            &&& s.vaults.dom().contains(id)
            &&& s.records.dom().contains(rkey(id, caller))
            &&& {
                ||| v.state == VaultState::Cancelled && st == MemberState::Deposited
                ||| v.state == VaultState::ActiveLocked && now < v.unlock_time && v.lock_type
                    == LockType::Penalty && st == MemberState::Active
                ||| (v.state == VaultState::ActiveLocked && now >= v.unlock_time || v.state
                    == VaultState::SettlementReady) && (st == MemberState::Active || st
                    == MemberState::ClaimedActive)
                ||| v.state == VaultState::Resolved && st == MemberState::ClaimedActive
            }
        },
        spec_withdraw(s, now, caller, id) is Ok && !(s.vaults[id].state
            == VaultState::ActiveLocked && now < s.vaults[id].unlock_time) ==> ({
            let (s2, fx) = spec_withdraw(s, now, caller, id)->Ok_0;
            let k = rkey(id, caller);
            &&& fx[0] == Effect::Transfer(
                Transfer {
                    token: s.vaults[id].token,
                    from: Party::Contract,
                    to: Party::Account(caller),
                    amount: s.records[k].amount,
                },
            )
            &&& pool_of(s2, id) == pool_of(s, id)
            &&& s2.records[k].amount == s.records[k].amount
            &&& s2.records[k].state == if s.records[k].state == MemberState::ClaimedActive {
                MemberState::Claimed
            } else {
                MemberState::Withdrawn
            }
        }),
{
    if s.vaults.dom().contains(id) {
        crate::ledger_inv::lemma_settled_facts(s, id, now);
    }
}

/// A claim succeeds only for a member that is active or withdrew at
/// maturity, on a stored vault that is settlement-ready or locked with its
/// unlock time come. It takes what it pays out of the pool, and pays it to
/// the member.
pub proof fn lemma_claim_cases(s: StorageModel, now: u64, caller: Address, id: u64)
    requires
        valid_ledger(s),
    ensures
        crate::model::spec_claim(s, now, caller, id) is Ok ==> {
            let v = s.vaults[id];
            let st = s.records[rkey(id, caller)].state;
            &&& s.vaults.dom().contains(id)
            &&& s.records.dom().contains(rkey(id, caller))
            &&& st == MemberState::Active || st == MemberState::Withdrawn
            &&& v.state == VaultState::SettlementReady || v.state == VaultState::ActiveLocked
                && now >= v.unlock_time
        },
        crate::model::spec_claim(s, now, caller, id) is Ok ==> ({
            let (s2, fx) = crate::model::spec_claim(s, now, caller, id)->Ok_0;
            let paid = pool_of(s, id) - pool_of(s2, id);
            &&& 0 <= paid <= pool_of(s, id)
            &&& paid > 0 ==> fx[0] == Effect::Transfer(
                Transfer {
                    token: s.vaults[id].token,
                    from: Party::Contract,
                    to: Party::Account(caller),
                    amount: paid as i128,
                },
            )
            &&& paid == 0 ==> !(fx[0] is Transfer)
            &&& s2.records[rkey(id, caller)].amount == s.records[rkey(id, caller)].amount
        }),
{
    if crate::model::spec_claim(s, now, caller, id) is Ok {
        crate::ledger_inv::lemma_settled_facts(s, id, now);
        crate::ledger_inv::lemma_claim_preserves(s, now, caller, id);
    }
}

} // verus!
