//! The protocol's data: vault and member records, and what the contract asks
//! its host to do (token transfers and published events).
use vstd::prelude::*;

use crate::assoc_map::{AssocMap, MapKey};

verus! {

/// An account or contract on the ledger, by its identifier.
#[derive(Clone, Copy, PartialEq, Eq, Structural, Debug)]
pub struct Address {
    pub id: u64,
}

impl MapKey for Address {
    fn same_key(&self, other: &Self) -> (r: bool) {
        self.id == other.id
    }
}

// ─── Enums ───────────────────────────────────────────────────────────────────

#[derive(Clone, Copy, PartialEq, Eq, Structural, Debug)]
pub enum VaultState {
    FundingOpen,
    ActiveLocked,
    SettlementReady,
    Resolved,
    Cancelled,
}

#[derive(Clone, Copy, PartialEq, Eq, Structural, Debug)]
pub enum MemberState {
    Committed,
    Deposited,
    Active,
    Exited,
    Withdrawn,
    /// Claimed a share of the pool after withdrawing, or claimed while active
    /// and withdrew afterwards: nothing more is owed.
    Claimed,
    /// Claimed a share of the pool while still active: the locked amount is
    /// still owed.
    ClaimedActive,
}

#[derive(Clone, Copy, PartialEq, Eq, Structural, Debug)]
pub enum LockType {
    Strict,
    Penalty,
}

// ─── Core structs ────────────────────────────────────────────────────────────

/// A group vault: a set of members who each committed to lock an amount of one
/// token until `unlock_time`.
#[derive(Debug)]
pub struct GroupVault {
    pub vault_id: u64,
    pub creator: Address,
    pub token: Address,
    pub members: Vec<Address>,
    pub obligations: AssocMap<Address, i128>,
    pub unlock_time: u64,
    pub funding_deadline: u64,
    pub lock_type: LockType,
    pub penalty_rate: u32,
    pub state: VaultState,
    pub total_size: i128,
    pub deposited_count: u32,
    pub claimed_count: u32,
    /// Set when the vault becomes settlement-ready: how many members may claim the pool.
    pub eligible_claimers: u32,
    /// Set when the vault becomes settlement-ready: the pool that is shared out.
    pub original_pool: i128,
    /// Creator commission in basis points, deducted from each deposit.
    pub commission_rate: u32,
}

/// The mathematical value of a `GroupVault`.
#[verifier::ext_equal]
pub struct GroupVaultModel {
    pub vault_id: u64,
    pub creator: Address,
    pub token: Address,
    pub members: Seq<Address>,
    pub obligations: Map<Address, i128>,
    pub unlock_time: u64,
    pub funding_deadline: u64,
    pub lock_type: LockType,
    pub penalty_rate: u32,
    pub state: VaultState,
    pub total_size: i128,
    pub deposited_count: u32,
    pub claimed_count: u32,
    pub eligible_claimers: u32,
    pub original_pool: i128,
    pub commission_rate: u32,
}

impl View for GroupVault {
    type V = GroupVaultModel;

    open spec fn view(&self) -> GroupVaultModel {
        GroupVaultModel {
            vault_id: self.vault_id,
            creator: self.creator,
            token: self.token,
            members: self.members@,
            obligations: self.obligations@,
            unlock_time: self.unlock_time,
            funding_deadline: self.funding_deadline,
            lock_type: self.lock_type,
            penalty_rate: self.penalty_rate,
            state: self.state,
            total_size: self.total_size,
            deposited_count: self.deposited_count,
            claimed_count: self.claimed_count,
            eligible_claimers: self.eligible_claimers,
            original_pool: self.original_pool,
            commission_rate: self.commission_rate,
        }
    }
}

impl GroupVault {
    /// A copy of this vault.
    pub fn copy(&self) -> (r: GroupVault)
        ensures
            r@ == self@,
    {
        let members = self.members.clone();
        proof {
            assert forall|i| 0 <= i < members@.len() implies members@[i] == self.members@[i] by {
                assert(cloned::<Address>(self.members[i], members[i]));
            }
            assert(members@ =~= self.members@);
        }
        GroupVault {
            vault_id: self.vault_id,
            creator: self.creator,
            token: self.token,
            members,
            obligations: self.obligations.copy(),
            unlock_time: self.unlock_time,
            funding_deadline: self.funding_deadline,
            lock_type: self.lock_type,
            penalty_rate: self.penalty_rate,
            state: self.state,
            total_size: self.total_size,
            deposited_count: self.deposited_count,
            claimed_count: self.claimed_count,
            eligible_claimers: self.eligible_claimers,
            original_pool: self.original_pool,
            commission_rate: self.commission_rate,
        }
    }
}

/// What one member of one vault owes or holds, and how far they have come.
#[derive(Clone, Copy, PartialEq, Eq, Structural, Debug)]
pub struct MemberRecord {
    pub state: MemberState,
    pub amount: i128,
}

// ─── Event structs ───────────────────────────────────────────────────────────

#[derive(Clone, Copy, PartialEq, Eq, Structural, Debug)]
pub struct GroupVaultCreatedEvent {
    pub vault_id: u64,
    pub creator: Address,
    pub token: Address,
    pub member_count: u32,
    pub total_vault_size: i128,
    pub unlock_time: u64,
    pub lock_type: LockType,
}

#[derive(Clone, Copy, PartialEq, Eq, Structural, Debug)]
pub struct MemberDepositedEvent {
    pub vault_id: u64,
    pub member: Address,
    pub amount: i128,
}

#[derive(Clone, Copy, PartialEq, Eq, Structural, Debug)]
pub struct VaultActivatedEvent {
    pub vault_id: u64,
}

#[derive(Clone, Copy, PartialEq, Eq, Structural, Debug)]
pub struct VaultCancelledEvent {
    pub vault_id: u64,
}

#[derive(Clone, Copy, PartialEq, Eq, Structural, Debug)]
pub struct MemberEarlyExitEvent {
    pub vault_id: u64,
    pub member: Address,
    pub payout: i128,
    pub penalty: i128,
}

#[derive(Clone, Copy, PartialEq, Eq, Structural, Debug)]
pub struct MemberWithdrawnEvent {
    pub vault_id: u64,
    pub member: Address,
    pub amount: i128,
}

#[derive(Clone, Copy, PartialEq, Eq, Structural, Debug)]
pub struct PoolClaimedEvent {
    pub vault_id: u64,
    pub member: Address,
    pub claimed: i128,
}

#[derive(Clone, Copy, PartialEq, Eq, Structural, Debug)]
pub struct VaultResolvedEvent {
    pub vault_id: u64,
}

/// An event the contract publishes.
#[derive(Clone, Copy, PartialEq, Eq, Structural, Debug)]
pub enum Event {
    GroupVaultCreated(GroupVaultCreatedEvent),
    MemberDeposited(MemberDepositedEvent),
    VaultActivated(VaultActivatedEvent),
    VaultCancelled(VaultCancelledEvent),
    MemberEarlyExit(MemberEarlyExitEvent),
    MemberWithdrawn(MemberWithdrawnEvent),
    PoolClaimed(PoolClaimedEvent),
    VaultResolved(VaultResolvedEvent),
}

/// One side of a token transfer: the contract itself, or an account.
#[derive(Clone, Copy, PartialEq, Eq, Structural, Debug)]
pub enum Party {
    Contract,
    Account(Address),
}

/// A transfer of `amount` units of `token` from `from` to `to`.
#[derive(Clone, Copy, PartialEq, Eq, Structural, Debug)]
pub struct Transfer {
    pub token: Address,
    pub from: Party,
    pub to: Party,
    pub amount: i128,
}

/// Something the contract asks its host to do, in order.
#[derive(Clone, Copy, PartialEq, Eq, Structural, Debug)]
pub enum Effect {
    Transfer(Transfer),
    Publish(Event),
}

} // verus!
