//! Penalty arithmetic, counting claimers, and the lazy settlement transition.
use vstd::prelude::*;

use crate::model::{bps_share, claimable_pred, count_where, div_trunc, settle_vault};
use crate::storage::{get_member_record, get_pool, Storage};
use crate::types::{GroupVault, MemberState, VaultState};

verus! {

/// Splits an early withdrawal of `amount` at `penalty_rate` basis points into
/// `(payout, penalty)`: the penalty is the rate's share of the amount, rounded
/// toward zero, and the payout is the rest.
pub fn calculate_penalty(amount: i128, penalty_rate: u32) -> (r: (i128, i128))
    requires
        i128::MIN <= amount * penalty_rate <= i128::MAX,
    ensures
        r.1 == bps_share(amount as int, penalty_rate as int),
        r.0 == amount - r.1,
        r.0 + r.1 == amount,
        amount >= 0 ==> 10_000 * r.1 <= amount * penalty_rate < 10_000 * (r.1 + 1),
        amount >= 0 && penalty_rate <= 10_000 ==> 0 <= r.1 <= amount,
        amount < 0 ==> 10_000 * (r.1 - 1) < amount * penalty_rate <= 10_000 * r.1,
{
    proof {
        if amount >= 0 {
            crate::contract_laws::lemma_bps_share_floor(amount as int, penalty_rate as int);
        } else {
            let p = amount * penalty_rate;
            assert(p <= 0) by (nonlinear_arith)
                requires
                    amount < 0,
                    penalty_rate >= 0,
                    p == amount * penalty_rate,
            ;
        }
    }
    let rate: i128 = penalty_rate as i128;
    let product: i128 = amount * rate;
    let penalty: i128 = product / 10_000;
    proof {
        let p = amount * rate;
        if amount >= 0 {
            assert(p >= 0) by (nonlinear_arith)
                requires
                    amount >= 0,
                    rate >= 0,
                    p == amount * rate,
            ;
            assert(0 <= p / 10_000 <= p / 10_000);
        } else {
            assert(p <= 0) by (nonlinear_arith)
                requires
                    amount < 0,
                    rate >= 0,
                    p == amount * rate,
            ;
            assert(0 <= (-p) / 10_000 <= i128::MAX);
        }
        assert(penalty == div_trunc(p, 10_000));
    }
    let payout: i128 = amount - penalty;
    (payout, penalty)
}

/// How many listed members of the vault are active or have withdrawn at
/// maturity: those who may claim a share of the pool.
pub fn count_claimable_members(st: &Storage, vault_id: u64, vault: &GroupVault) -> (n: u32)
    requires
        vault.members@.len() <= u32::MAX,
    ensures
        n == count_where(vault.members@, claimable_pred(st@, vault_id)),
{
    let ghost p = claimable_pred(st@, vault_id);
    let ghost ms = vault.members@;
    let mut count: u32 = 0;
    let mut i: usize = 0;
    while i < vault.members.len()
        invariant
            ms == vault.members@,
            ms.len() <= u32::MAX,
            p == claimable_pred(st@, vault_id),
            0 <= i <= ms.len(),
            count == count_where(ms.take(i as int), p),
        decreases ms.len() - i,
    {
        proof {
            assert(ms.take(i + 1).drop_last() =~= ms.take(i as int));
            crate::lemmas::lemma_count_bound(ms.take(i as int), p);
        }
        let member = vault.members[i];
        match get_member_record(st, vault_id, &member) {
            Some(record) => {
                if record.state == MemberState::Active || record.state == MemberState::Withdrawn {
                    count = count + 1;
                }
            },
            None => {},
        }
        i = i + 1;
    }
    proof {
        assert(ms.take(ms.len() as int) =~= ms);
    }
    count
}

/// A locked vault whose unlock time has come becomes settlement-ready: the
/// members that may claim are counted and the current pool is fixed as the
/// pool to share out. The caller stores the vault.
pub fn maybe_transition_to_settlement_ready(
    st: &Storage,
    vault_id: u64,
    vault: &mut GroupVault,
    now: u64,
)
    requires
        old(vault).members@.len() <= u32::MAX,
    ensures
        final(vault)@ == settle_vault(st@, vault_id, old(vault)@, now),
{
    if vault.state == VaultState::ActiveLocked && now >= vault.unlock_time {
        let eligible = count_claimable_members(st, vault_id, vault);
        let pool = get_pool(st, vault_id);
        vault.state = VaultState::SettlementReady;
        vault.eligible_claimers = eligible;
        vault.original_pool = pool;
    }
}

} // verus!
