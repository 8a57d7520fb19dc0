//! What any sequence of calls does to the set of stored vaults, to the
//! creator and member indexes, and to what the contract holds for a vault.
use vstd::prelude::*;

use crate::history::{
    created_by, created_id, created_ids, creator_part, lemma_creation_step, lemma_run_valid,
    listed_in, member_part, run, step, Call,
};
use crate::ledger_inv::same_vault_data;
use crate::model::{
    bps_share, contract_inflow, deposit_fits, locked_of, record_ok, spec_cancel, spec_claim, spec_create,
    spec_deposit, spec_withdraw, valid_ledger, vault_holdings, vault_ok, withdraw_fits,
};
use crate::storage::{list_of, rkey, StorageModel};
use crate::types::Address;

verus! {

/// Each value is larger than the one before it.
pub open spec fn increasing(xs: Seq<u64>) -> bool {
    forall|i: int, j: int| 0 <= i < j < xs.len() ==> xs[i] < xs[j]
}

/// No value is smaller than the one before it.
pub open spec fn nondecreasing(xs: Seq<u64>) -> bool {
    forall|i: int, j: int| 0 <= i <= j < xs.len() ==> xs[i] <= xs[j]
}

/// The id that a call names as created is the id that `create_group_vault`
/// returns for it, and no vault was stored under that id before: a creation
/// never overwrites a vault.
pub proof fn lemma_created_id_returned(s: StorageModel, now: u64, c: Call)
    requires
        valid_ledger(s),
        created_id(s, now, c) is Some,
    ensures
        !s.vaults.dom().contains(created_id(s, now, c)->0),
        created_id(s, now, c)->0 == s.vault_counter.unwrap_or(0),
        c matches Call::Create {
            creator,
            token,
            members,
            amounts,
            unlock_time,
            funding_deadline,
            lock_type,
            penalty_rate,
        } ==> spec_create(
            s,
            now,
            creator,
            token,
            members,
            amounts,
            unlock_time,
            funding_deadline,
            lock_type,
            penalty_rate,
        ) is Ok && spec_create(
            s,
            now,
            creator,
            token,
            members,
            amounts,
            unlock_time,
            funding_deadline,
            lock_type,
            penalty_rate,
        )->Ok_0.2 == created_id(s, now, c)->0,
{
    match c {
        Call::Create {
            creator,
            token,
            members,
            amounts,
            unlock_time,
            funding_deadline,
            lock_type,
            penalty_rate,
        } => {
            crate::ledger_inv::lemma_create_preserves(
                s,
                now,
                creator,
                token,
                members,
                amounts,
                unlock_time,
                funding_deadline,
                lock_type,
                penalty_rate,
            );
        },
        _ => {},
    }
}

/// Over any sequence of calls, the vaults stored afterwards are exactly those
/// stored before and those whose ids a creation during the calls returned.
pub proof fn lemma_vaults_history(s: StorageModel, calls: Seq<(u64, Call)>)
    requires
        valid_ledger(s),
    ensures
        run(s, calls).vaults.dom() == s.vaults.dom().union(created_ids(s, calls)),
    decreases calls.len(),
{
    if calls.len() == 0 {
        assert(s.vaults.dom().union(Set::empty()) =~= s.vaults.dom());
    } else {
        let d = calls.drop_last();
        lemma_vaults_history(s, d);
        lemma_run_valid(s, d);
        lemma_creation_step(run(s, d), calls.last().0, calls.last().1);
        assert(run(s, calls).vaults.dom() =~= s.vaults.dom().union(created_ids(s, calls)));
    }
}

/// Two creations with no creation between them return consecutive ids, and
/// the second leaves the vault that the first created as it was.
pub proof fn lemma_create_twice(
    s: StorageModel,
    now1: u64,
    c1: Call,
    later: Seq<(u64, Call)>,
    now2: u64,
    c2: Call,
)
    requires
        valid_ledger(s),
        created_id(s, now1, c1) is Some,
        forall|i: int| 0 <= i < later.len() ==> !(#[trigger] later[i].1 is Create),
        created_id(run(step(s, now1, c1), later), now2, c2) is Some,
    ensures
        created_id(run(step(s, now1, c1), later), now2, c2)->0 == created_id(s, now1, c1)->0 + 1,
        ({
            let id1 = created_id(s, now1, c1)->0;
            let r = run(step(s, now1, c1), later);
            &&& step(r, now2, c2).vaults.dom().contains(id1)
            &&& step(r, now2, c2).vaults[id1] == r.vaults[id1]
        }),
{
    let id1 = created_id(s, now1, c1)->0;
    let s1 = step(s, now1, c1);
    lemma_creation_step(s, now1, c1);
    crate::history::lemma_step_valid(s, now1, c1);
    crate::history::lemma_tokens_fixed(s1, later);
    crate::history::lemma_vault_ids_consecutive(s1, later);
    lemma_vaults_history(s1, later);
    let r = run(s1, later);
    lemma_run_valid(s1, later);
    assert(r.vaults.dom().contains(id1));
    lemma_step_frame(r, now2, c2, id1);
}

/// Over any sequence of calls, the ids created lie below the vault counter,
/// and only once the tokens are set; each creator's new ids come in
/// increasing order, and each member's new ids, once per listing, never
/// decrease. Every one of them is an id created during the calls.
pub proof fn lemma_index_order(s: StorageModel, calls: Seq<(u64, Call)>, a: Address)
    requires
        valid_ledger(s),
    ensures
        forall|x: u64| #[trigger]
            created_ids(s, calls).contains(x) ==> x < run(s, calls).vault_counter.unwrap_or(0)
                && run(s, calls).supported_tokens is Some,
        forall|i: int|
            0 <= i < created_by(s, calls, a).len() ==> created_ids(s, calls).contains(
                #[trigger] created_by(s, calls, a)[i],
            ),
        forall|i: int|
            0 <= i < listed_in(s, calls, a).len() ==> created_ids(s, calls).contains(
                #[trigger] listed_in(s, calls, a)[i],
            ),
        increasing(created_by(s, calls, a)),
        nondecreasing(listed_in(s, calls, a)),
    decreases calls.len(),
{
    if calls.len() > 0 {
        let d = calls.drop_last();
        let r = run(s, d);
        let now = calls.last().0;
        let c = calls.last().1;
        lemma_index_order(s, d, a);
        lemma_run_valid(s, d);
        lemma_creation_step(r, now, c);
        let r2 = run(s, calls);
        assert(r2 == step(r, now, c));
        let old_ids = created_ids(s, d);
        let cb0 = created_by(s, d, a);
        let li0 = listed_in(s, d, a);
        let cb = created_by(s, calls, a);
        let li = listed_in(s, calls, a);
        assert(cb == cb0 + creator_part(r, now, c, a));
        assert(li == li0 + member_part(r, now, c, a));
        match created_id(r, now, c) {
            Some(id) => {
                assert(created_ids(s, calls) == old_ids.insert(id));
                assert(id == r.vault_counter.unwrap_or(0));
                assert forall|x: u64| #[trigger] created_ids(s, calls).contains(x) implies x
                    < r2.vault_counter.unwrap_or(0) && r2.supported_tokens is Some by {}
                assert forall|i: int| 0 <= i < cb.len() implies created_ids(s, calls).contains(
                    #[trigger] cb[i],
                ) by {
                    if i < cb0.len() {
                        assert(cb[i] == cb0[i]);
                    }
                }
                assert forall|i: int| 0 <= i < li.len() implies created_ids(s, calls).contains(
                    #[trigger] li[i],
                ) by {
                    if i < li0.len() {
                        assert(li[i] == li0[i]);
                    }
                }
                assert forall|i: int, j: int| 0 <= i < j < cb.len() implies cb[i] < cb[j] by {
                    if j < cb0.len() {
                        assert(cb[i] == cb0[i] && cb[j] == cb0[j]);
                    } else {
                        assert(cb[i] == cb0[i]);
                        assert(old_ids.contains(cb0[i]));
                    }
                }
                assert forall|i: int, j: int| 0 <= i <= j < li.len() implies li[i] <= li[j] by {
                    if j < li0.len() {
                        assert(li[i] == li0[i] && li[j] == li0[j]);
                    } else if i < li0.len() {
                        assert(li[i] == li0[i]);
                        assert(old_ids.contains(li0[i]));
                    }
                }
            },
            None => {
                assert(created_ids(s, calls) == old_ids);
                assert(cb =~= cb0);
                assert(li =~= li0);
            },
        }
    }
}

/// Over any sequence of calls, a creator's vault list grows by exactly the
/// ids of the vaults it created, in the order they were created, and a
/// member's list grows by the ids of the created vaults that list it, once
/// per listing, in order. So from a ledger with no vaults, a creator's list
/// is exactly its created ids, each larger than the one before.
pub proof fn lemma_index_history(s: StorageModel, calls: Seq<(u64, Call)>, a: Address)
    requires
        valid_ledger(s),
    ensures
        list_of(run(s, calls).creator_vaults, a) == list_of(s.creator_vaults, a) + created_by(
            s,
            calls,
            a,
        ),
        list_of(run(s, calls).member_vaults, a) == list_of(s.member_vaults, a) + listed_in(
            s,
            calls,
            a,
        ),
        increasing(created_by(s, calls, a)),
        nondecreasing(listed_in(s, calls, a)),
    decreases calls.len(),
{
    lemma_index_order(s, calls, a);
    if calls.len() == 0 {
        assert(list_of(s.creator_vaults, a) + Seq::<u64>::empty() =~= list_of(
            s.creator_vaults,
            a,
        ));
        assert(list_of(s.member_vaults, a) + Seq::<u64>::empty() =~= list_of(s.member_vaults, a));
    } else {
        let d = calls.drop_last();
        let r = run(s, d);
        let now = calls.last().0;
        let c = calls.last().1;
        lemma_index_history(s, d, a);
        lemma_run_valid(s, d);
        lemma_creation_step(r, now, c);
        assert(list_of(run(s, calls).creator_vaults, a) =~= list_of(s.creator_vaults, a)
            + created_by(s, calls, a));
        assert(list_of(run(s, calls).member_vaults, a) =~= list_of(s.member_vaults, a)
            + listed_in(s, calls, a));
    }
}


// ─── What the contract holds for a vault, over any sequence of calls ────────

/// The call `c` is a deposit, cancellation, withdrawal or claim on vault `id`.
pub open spec fn targets(c: Call, id: u64) -> bool {
    match c {
        Call::Deposit { vault_id, .. } => vault_id == id,
        Call::Cancel { vault_id } => vault_id == id,
        Call::Withdraw { vault_id, .. } => vault_id == id,
        Call::Claim { vault_id, .. } => vault_id == id,
        _ => false,
    }
}

/// What the contract holds for vault `id`: its members' locked amounts and
/// its pool; nothing for an id under which no vault is stored.
pub open spec fn holdings_of(s: StorageModel, id: u64) -> int {
    if s.vaults.dom().contains(id) {
        vault_holdings(s, id)
    } else {
        0
    }
}

/// What a deposit into vault `id` leaves in the contract: the amount paid in,
/// less the commission forwarded to the creator.
pub open spec fn step_kept(s: StorageModel, now: u64, c: Call, id: u64) -> int {
    match c {
        Call::Deposit { caller, vault_id } => if vault_id == id && deposit_fits(s, now, caller, id)
            && spec_deposit(s, now, caller, id) is Ok {
            contract_inflow(spec_deposit(s, now, caller, id)->Ok_0.1)
        } else {
            0
        },
        _ => 0,
    }
}

/// What a withdrawal or a claim on vault `id` pays out of the contract.
pub open spec fn step_paid_out(s: StorageModel, now: u64, c: Call, id: u64) -> int {
    match c {
        Call::Withdraw { caller, vault_id } => if vault_id == id && withdraw_fits(
            s,
            now,
            caller,
            id,
        ) && spec_withdraw(s, now, caller, id) is Ok {
            -contract_inflow(spec_withdraw(s, now, caller, id)->Ok_0.1)
        } else {
            0
        },
        Call::Claim { caller, vault_id } => if vault_id == id && spec_claim(s, now, caller, id)
            is Ok {
            -contract_inflow(spec_claim(s, now, caller, id)->Ok_0.1)
        } else {
            0
        },
        _ => 0,
    }
}

/// What the deposits into vault `id` during `calls` left in the contract.
pub open spec fn kept_from_deposits(s: StorageModel, calls: Seq<(u64, Call)>, id: u64) -> int
    decreases calls.len(),
{
    if calls.len() == 0 {
        0
    } else {
        kept_from_deposits(s, calls.drop_last(), id) + step_kept(
            run(s, calls.drop_last()),
            calls.last().0,
            calls.last().1,
            id,
        )
    }
}

/// What the contract paid out for vault `id` during `calls`: refunds,
/// withdrawals at maturity, early-exit payouts and pool claims.
pub open spec fn paid_out_for(s: StorageModel, calls: Seq<(u64, Call)>, id: u64) -> int
    decreases calls.len(),
{
    if calls.len() == 0 {
        0
    } else {
        paid_out_for(s, calls.drop_last(), id) + step_paid_out(
            run(s, calls.drop_last()),
            calls.last().0,
            calls.last().1,
            id,
        )
    }
}

/// A call aimed at no vault, or at another vault, leaves vault `id`'s data
/// as it was.
pub proof fn lemma_step_frame(s: StorageModel, now: u64, c: Call, id: u64)
    requires
        valid_ledger(s),
        s.vaults.dom().contains(id),
        !targets(c, id),
    ensures
        same_vault_data(s, step(s, now, c), id),
{
    let s2 = step(s, now, c);
    if created_id(s, now, c) is Some {
        lemma_created_id_returned(s, now, c);
    }
    assert forall|m: Address| #[trigger] s2.records.dom().contains(rkey(id, m))
        == s.records.dom().contains(rkey(id, m)) by {}
    assert forall|m: Address| #[trigger] s.records.dom().contains(rkey(id, m)) implies s2.records[rkey(
        id,
        m,
    )] == s.records[rkey(id, m)] by {}
}

/// What the contract holds for a vault is never negative.
pub proof fn lemma_holdings_nonneg(s: StorageModel, id: u64)
    requires
        valid_ledger(s),
    ensures
        holdings_of(s, id) >= 0,
{
    if s.vaults.dom().contains(id) {
        assert(vault_ok(s, id));
        let v = s.vaults[id];
        assert forall|i: int| 0 <= i < v.members.len() implies locked_of(s, id)(
            #[trigger] v.members[i],
        ) >= 0 by {
            let m = v.members[i];
            assert(s.records.dom().contains(rkey(id, m)));
            assert(record_ok(v.state, s.records[rkey(id, m)]));
        }
        crate::lemmas::lemma_sum_distinct_nonneg(v.members, locked_of(s, id));
        crate::laws::lemma_pool_accounting(s, id);
    }
}

/// In one call, what the contract holds for vault `id` grows by what a
/// deposit into it leaves and shrinks by what a withdrawal or claim on it
/// pays out, and by nothing else; neither amount is negative, and a deposit
/// keeps its amount less the commission.
pub proof fn lemma_holdings_step(s: StorageModel, now: u64, c: Call, id: u64)
    requires
        valid_ledger(s),
    ensures
        holdings_of(step(s, now, c), id) == holdings_of(s, id) + step_kept(s, now, c, id)
            - step_paid_out(s, now, c, id),
        step_kept(s, now, c, id) >= 0,
        step_paid_out(s, now, c, id) >= 0,
        c matches Call::Deposit { caller, vault_id } ==> (vault_id == id && deposit_fits(
            s,
            now,
            caller,
            id,
        ) && spec_deposit(s, now, caller, id) is Ok ==> step_kept(s, now, c, id)
            == s.records[rkey(id, caller)].amount - bps_share(
            s.records[rkey(id, caller)].amount as int,
            s.vaults[id].commission_rate as int,
        )),
{
    let s2 = step(s, now, c);
    lemma_creation_step(s, now, c);
    if s.vaults.dom().contains(id) {
        crate::history::lemma_vault_state_step(s, now, c, id);
        if !targets(c, id) {
            lemma_step_frame(s, now, c, id);
            let v = s.vaults[id];
            assert forall|i: int| 0 <= i < v.members.len() implies locked_of(s, id)(
                #[trigger] v.members[i],
            ) == locked_of(s2, id)(v.members[i]) by {}
            crate::lemmas::lemma_sum_distinct_frame(v.members, locked_of(s, id), locked_of(s2, id));
        } else {
            match c {
                Call::Deposit { caller, vault_id } => {
                    if deposit_fits(s, now, caller, id) && spec_deposit(s, now, caller, id) is Ok {
                        crate::laws::lemma_deposit_holdings(s, now, caller, id);
                    }
                },
                Call::Cancel { vault_id } => {
                    if spec_cancel(s, now, id) is Ok {
                        crate::laws::lemma_cancel_holdings(s, now, id);
                    }
                },
                Call::Withdraw { caller, vault_id } => {
                    if withdraw_fits(s, now, caller, id) && spec_withdraw(s, now, caller, id) is Ok {
                        crate::laws::lemma_withdraw_holdings(s, now, caller, id);
                    }
                },
                Call::Claim { caller, vault_id } => {
                    if spec_claim(s, now, caller, id) is Ok {
                        crate::laws::lemma_claim_holdings(s, now, caller, id);
                    }
                },
                _ => {},
            }
        }
    } else {
        match c {
            Call::Create {
                creator,
                token,
                members,
                amounts,
                unlock_time,
                funding_deadline,
                lock_type,
                penalty_rate,
            } => {
                if created_id(s, now, c) == Some(id) {
                    lemma_created_id_returned(s, now, c);
                    crate::laws::lemma_create_holds_nothing(
                        s,
                        now,
                        creator,
                        token,
                        members,
                        amounts,
                        unlock_time,
                        funding_deadline,
                        lock_type,
                        penalty_rate,
                    );
                }
            },
            _ => {},
        }
    }
}

/// Over any sequence of calls, what the contract holds for vault `id` is
/// what it held before, plus what the deposits into it left, less what the
/// contract paid out for it. Since that is never negative, the contract never
/// pays out for a vault more than its deposits left in it and what it held
/// before; for a vault created during the calls, never more than its
/// deposits left.
pub proof fn lemma_holdings_history(s: StorageModel, calls: Seq<(u64, Call)>, id: u64)
    requires
        valid_ledger(s),
    ensures
        holdings_of(run(s, calls), id) == holdings_of(s, id) + kept_from_deposits(s, calls, id)
            - paid_out_for(s, calls, id),
        kept_from_deposits(s, calls, id) >= 0,
        paid_out_for(s, calls, id) >= 0,
        paid_out_for(s, calls, id) <= holdings_of(s, id) + kept_from_deposits(s, calls, id),
        !s.vaults.dom().contains(id) ==> paid_out_for(s, calls, id) <= kept_from_deposits(
            s,
            calls,
            id,
        ),
    decreases calls.len(),
{
    lemma_run_valid(s, calls);
    lemma_holdings_nonneg(run(s, calls), id);
    if calls.len() > 0 {
        let d = calls.drop_last();
        lemma_holdings_history(s, d, id);
        lemma_run_valid(s, d);
        lemma_holdings_step(run(s, d), calls.last().0, calls.last().1, id);
    }
}

} // verus!
