//! The contract's storage: one table per kind of key, each read and written
//! whole by value.
use vstd::prelude::*;

use crate::assoc_map::{AssocMap, MapKey};
use crate::storage_types::DataKey;
use crate::types::{Address, GroupVault, GroupVaultModel, MemberRecord};

verus! {

/// The key of a member record: which vault, which member.
#[derive(Clone, Copy, PartialEq, Eq, Structural, Debug)]
pub struct RecordKey {
    pub vault_id: u64,
    pub member: Address,
}

impl MapKey for RecordKey {
    fn same_key(&self, other: &Self) -> (r: bool) {
        self.vault_id == other.vault_id && self.member.id == other.member.id
    }
}

impl MapKey for DataKey {
    fn same_key(&self, other: &Self) -> (r: bool) {
        *self == *other
    }
}

/// How many ledgers a persistent entry is kept alive for after each write.
pub const LEDGER_BUMP_AMOUNT: u32 = 535_000;

/// What the storage holds, as mathematical values.
#[verifier::ext_equal]
pub struct StorageModel {
    pub supported_tokens: Option<Seq<Address>>,
    pub vault_counter: Option<u64>,
    pub pools: Map<u64, i128>,
    pub vaults: Map<u64, GroupVaultModel>,
    pub records: Map<RecordKey, MemberRecord>,
    pub creator_vaults: Map<Address, Seq<u64>>,
    pub member_vaults: Map<Address, Seq<u64>>,
}

pub open spec fn rkey(vault_id: u64, member: Address) -> RecordKey {
    RecordKey { vault_id, member }
}

/// The community pool of a vault; a vault with no pool entry has an empty pool.
pub open spec fn pool_of(s: StorageModel, vault_id: u64) -> i128 {
    if s.pools.dom().contains(vault_id) {
        s.pools[vault_id]
    } else {
        0
    }
}

/// The list stored under `a` in an index table, empty when there is none.
pub open spec fn list_of(m: Map<Address, Seq<u64>>, a: Address) -> Seq<u64> {
    if m.dom().contains(a) {
        m[a]
    } else {
        Seq::empty()
    }
}

pub open spec fn token_supported(s: StorageModel, token: Address) -> bool {
    s.supported_tokens matches Some(ts) && ts.contains(token)
}

/// Whether anything is stored under `key`.
pub open spec fn spec_has(s: StorageModel, key: DataKey) -> bool {
    match key {
        DataKey::VaultCounter => s.vault_counter is Some,
        DataKey::SupportedTokens => s.supported_tokens is Some,
        DataKey::CommunityPool(id) => s.pools.dom().contains(id),
        DataKey::GroupVault(id) => s.vaults.dom().contains(id),
        DataKey::MemberRecord(id, m) => s.records.dom().contains(rkey(id, m)),
        DataKey::CreatorVaults(a) => s.creator_vaults.dom().contains(a),
        DataKey::MemberVaults(a) => s.member_vaults.dom().contains(a),
    }
}

pub struct Storage {
    tokens_stored: bool,
    supported_tokens: Vec<Address>,
    vault_counter: Option<u64>,
    pools: AssocMap<u64, i128>,
    vaults: AssocMap<u64, GroupVault>,
    records: AssocMap<RecordKey, MemberRecord>,
    creator_vaults: AssocMap<Address, Vec<u64>>,
    member_vaults: AssocMap<Address, Vec<u64>>,
    /// The time to live each persistent entry was extended to when last written.
    ttl: AssocMap<DataKey, u32>,
}

/// Every persistent entry (vaults, member records, the creator and member
/// indexes) has had its time to live extended to `LEDGER_BUMP_AMOUNT`.
pub open spec fn persistent_entries_extended(st: &Storage) -> bool {
    let t = st.time_to_live();
    &&& forall|id: u64| #[trigger]
        st@.vaults.dom().contains(id) ==> t.dom().contains(DataKey::GroupVault(id))
            && t[DataKey::GroupVault(id)] == LEDGER_BUMP_AMOUNT
    &&& forall|k: RecordKey| #[trigger]
        st@.records.dom().contains(k) ==> t.dom().contains(DataKey::MemberRecord(k.vault_id, k.member))
            && t[DataKey::MemberRecord(k.vault_id, k.member)] == LEDGER_BUMP_AMOUNT
    &&& forall|a: Address| #[trigger]
        st@.creator_vaults.dom().contains(a) ==> t.dom().contains(DataKey::CreatorVaults(a))
            && t[DataKey::CreatorVaults(a)] == LEDGER_BUMP_AMOUNT
    &&& forall|a: Address| #[trigger]
        st@.member_vaults.dom().contains(a) ==> t.dom().contains(DataKey::MemberVaults(a))
            && t[DataKey::MemberVaults(a)] == LEDGER_BUMP_AMOUNT
}


impl View for Storage {
    type V = StorageModel;

    closed spec fn view(&self) -> StorageModel {
        StorageModel {
            supported_tokens: if self.tokens_stored {
                Some(self.supported_tokens@)
            } else {
                None
            },
            vault_counter: self.vault_counter,
            pools: self.pools@,
            vaults: self.vaults@.map_values(|v: GroupVault| v@),
            records: self.records@,
            creator_vaults: self.creator_vaults@.map_values(|v: Vec<u64>| v@),
            member_vaults: self.member_vaults@.map_values(|v: Vec<u64>| v@),
        }
    }
}

fn copy_ids(v: &Vec<u64>) -> (r: Vec<u64>)
    ensures
        r@ == v@,
{
    let mut out: Vec<u64> = Vec::new();
    let mut i: usize = 0;
    while i < v.len()
        invariant
            0 <= i <= v@.len(),
            out@ == v@.subrange(0, i as int),
        decreases v@.len() - i,
    {
        out.push(v[i]);
        i = i + 1;
        proof {
            assert(out@ =~= v@.subrange(0, i as int));
        }
    }
    proof {
        assert(out@ =~= v@);
    }
    out
}

impl Storage {
    /// The time to live each persistent entry was extended to when last written.
    pub closed spec fn time_to_live(&self) -> Map<DataKey, u32> {
        self.ttl@
    }

    /// The time to live the entry under `key` was extended to when last written.
    pub fn ttl_of(&self, key: &DataKey) -> (r: Option<u32>)
        ensures
            r.is_some() == self.time_to_live().dom().contains(*key),
            r.is_some() ==> r.unwrap() == self.time_to_live()[*key],
    {
        match self.ttl.get(key) {
            Some(t) => Some(*t),
            None => None,
        }
    }

    /// What empty storage holds.
    pub open spec fn new_model() -> StorageModel {
        StorageModel {
            supported_tokens: None,
            vault_counter: None,
            pools: Map::empty(),
            vaults: Map::empty(),
            records: Map::empty(),
            creator_vaults: Map::empty(),
            member_vaults: Map::empty(),
        }
    }

    /// Storage with nothing in it.
    pub fn new() -> (s: Storage)
        ensures
            s@ == Storage::new_model(),
            s.time_to_live() == Map::<DataKey, u32>::empty(),
            persistent_entries_extended(&s),
    {
        let s = Storage {
            tokens_stored: false,
            supported_tokens: Vec::new(),
            vault_counter: None,
            pools: AssocMap::new(),
            vaults: AssocMap::new(),
            records: AssocMap::new(),
            creator_vaults: AssocMap::new(),
            member_vaults: AssocMap::new(),
            ttl: AssocMap::new(),
        };
        proof {
            assert(s@.vaults =~= Map::<u64, GroupVaultModel>::empty());
            assert(s@.creator_vaults =~= Map::<Address, Seq<u64>>::empty());
            assert(s@.member_vaults =~= Map::<Address, Seq<u64>>::empty());
        }
        s
    }

    /// Whether anything is stored under `key`.
    pub fn has(&self, key: &DataKey) -> (r: bool)
        ensures
            r == spec_has(self@, *key),
    {
        match key {
            DataKey::VaultCounter => self.vault_counter.is_some(),
            DataKey::SupportedTokens => self.tokens_stored,
            DataKey::CommunityPool(id) => self.pools.contains_key(id),
            DataKey::GroupVault(id) => self.vaults.contains_key(id),
            DataKey::MemberRecord(id, m) => self.records.contains_key(
                &RecordKey { vault_id: *id, member: *m },
            ),
            DataKey::CreatorVaults(a) => self.creator_vaults.contains_key(a),
            DataKey::MemberVaults(a) => self.member_vaults.contains_key(a),
        }
    }

    /// Stores the list of supported tokens.
    pub fn set_supported_tokens(&mut self, tokens: Vec<Address>)
        ensures
            final(self)@ == (StorageModel { supported_tokens: Some(tokens@), ..old(self)@ }),
            final(self).time_to_live() == old(self).time_to_live(),
            persistent_entries_extended(&*old(self)) ==> persistent_entries_extended(&*final(self)),
    {
        self.tokens_stored = true;
        self.supported_tokens = tokens;
    }

    /// The supported tokens, once they are stored.
    pub fn supported_tokens(&self) -> (r: Option<Vec<Address>>)
        ensures
            r is Some == self@.supported_tokens is Some,
            r is Some ==> r->0@ == self@.supported_tokens->0,
    {
        if !self.tokens_stored {
            return None;
        }
        let mut out: Vec<Address> = Vec::new();
        let mut i: usize = 0;
        while i < self.supported_tokens.len()
            invariant
                i <= self.supported_tokens@.len(),
                out@ == self.supported_tokens@.take(i as int),
            decreases self.supported_tokens@.len() - i,
        {
            out.push(self.supported_tokens[i]);
            i = i + 1;
            assert(out@ =~= self.supported_tokens@.take(i as int));
        }
        assert(out@ =~= self.supported_tokens@);
        Some(out)
    }

    /// Stores the vault counter.
    pub fn set_vault_counter(&mut self, n: u64)
        ensures
            final(self)@ == (StorageModel { vault_counter: Some(n), ..old(self)@ }),
            final(self).time_to_live() == old(self).time_to_live(),
            persistent_entries_extended(&*old(self)) ==> persistent_entries_extended(&*final(self)),
    {
        self.vault_counter = Some(n);
    }
}

/// Hands out the next vault id and advances the counter.
pub fn next_vault_id(st: &mut Storage) -> (id: u64)
    requires
        old(st)@.vault_counter.unwrap_or(0) < u64::MAX,
    ensures
        id == old(st)@.vault_counter.unwrap_or(0),
        final(st)@ == (StorageModel { vault_counter: Some((id + 1) as u64), ..old(st)@ }),
        final(st).time_to_live() == old(st).time_to_live(),
        persistent_entries_extended(&*old(st)) ==> persistent_entries_extended(&*final(st)),
{
    let counter: u64 = match st.vault_counter {
        Some(c) => c,
        None => 0,
    };
    st.vault_counter = Some(counter + 1);
    counter
}

/// The next id the counter would hand out.
pub fn peek_vault_counter(st: &Storage) -> (n: u64)
    ensures
        n == st@.vault_counter.unwrap_or(0),
{
    match st.vault_counter {
        Some(c) => c,
        None => 0,
    }
}

/// Whether `token` is in the supported list; nothing is supported before
/// the list is stored.
pub fn is_supported_token(st: &Storage, token: &Address) -> (r: bool)
    ensures
        r == token_supported(st@, *token),
{
    if !st.tokens_stored {
        return false;
    }
    let tokens = &st.supported_tokens;
    let mut i: usize = 0;
    while i < tokens.len()
        invariant
            st.tokens_stored,
            tokens@ == st.supported_tokens@,
            0 <= i <= tokens@.len(),
            forall|j: int| 0 <= j < i ==> tokens@[j] != *token,
        decreases tokens@.len() - i,
    {
        if tokens[i].id == token.id {
            proof {
                assert(tokens@[i as int] == *token);
                assert(tokens@.contains(*token));
            }
            return true;
        }
        i = i + 1;
    }
    false
}

pub fn get_group_vault_unchecked(st: &Storage, vault_id: u64) -> (r: Option<GroupVault>)
    ensures
        r.is_some() == st@.vaults.dom().contains(vault_id),
        r.is_some() ==> r.unwrap()@ == st@.vaults[vault_id],
{
    match st.vaults.get(&vault_id) {
        Some(v) => Some(v.copy()),
        None => None,
    }
}

pub fn save_group_vault(st: &mut Storage, vault_id: u64, vault: &GroupVault)
    ensures
        final(st)@ == (StorageModel {
            vaults: old(st)@.vaults.insert(vault_id, vault@),
            ..old(st)@
        }),
        final(st).time_to_live() == old(st).time_to_live().insert(DataKey::GroupVault(vault_id), LEDGER_BUMP_AMOUNT),
        persistent_entries_extended(&*old(st)) ==> persistent_entries_extended(&*final(st)),
{
    let ghost before = st.vaults@;
    st.vaults.insert(vault_id, vault.copy());
    st.ttl.insert(DataKey::GroupVault(vault_id), LEDGER_BUMP_AMOUNT);
    proof {
        assert(st.vaults@.map_values(|v: GroupVault| v@) =~= before.map_values(
            |v: GroupVault| v@,
        ).insert(vault_id, vault@));
    }
}

pub fn get_member_record(st: &Storage, vault_id: u64, member: &Address) -> (r: Option<
    MemberRecord,
>)
    ensures
        r.is_some() == st@.records.dom().contains(rkey(vault_id, *member)),
        r.is_some() ==> r.unwrap() == st@.records[rkey(vault_id, *member)],
{
    match st.records.get(&RecordKey { vault_id, member: *member }) {
        Some(r) => Some(*r),
        None => None,
    }
}

pub fn save_member_record(st: &mut Storage, vault_id: u64, member: &Address, record: &MemberRecord)
    ensures
        final(st)@ == (StorageModel {
            records: old(st)@.records.insert(rkey(vault_id, *member), *record),
            ..old(st)@
        }),
        final(st).time_to_live() == old(st).time_to_live().insert(DataKey::MemberRecord(vault_id, *member), LEDGER_BUMP_AMOUNT),
        persistent_entries_extended(&*old(st)) ==> persistent_entries_extended(&*final(st)),
{
    st.records.insert(RecordKey { vault_id, member: *member }, *record);
    st.ttl.insert(DataKey::MemberRecord(vault_id, *member), LEDGER_BUMP_AMOUNT);
}

pub fn get_pool(st: &Storage, vault_id: u64) -> (r: i128)
    ensures
        r == pool_of(st@, vault_id),
{
    match st.pools.get(&vault_id) {
        Some(v) => *v,
        None => 0,
    }
}

pub fn add_to_pool(st: &mut Storage, vault_id: u64, amount: i128)
    requires
        i128::MIN <= pool_of(old(st)@, vault_id) + amount <= i128::MAX,
    ensures
        final(st)@ == (StorageModel {
            pools: old(st)@.pools.insert(vault_id, (pool_of(old(st)@, vault_id) + amount) as i128),
            ..old(st)@
        }),
        final(st).time_to_live() == old(st).time_to_live(),
        persistent_entries_extended(&*old(st)) ==> persistent_entries_extended(&*final(st)),
{
    let current = get_pool(st, vault_id);
    st.pools.insert(vault_id, current + amount);
}

pub fn set_pool(st: &mut Storage, vault_id: u64, amount: i128)
    ensures
        final(st)@ == (StorageModel { pools: old(st)@.pools.insert(vault_id, amount), ..old(st)@ }),
        final(st).time_to_live() == old(st).time_to_live(),
        persistent_entries_extended(&*old(st)) ==> persistent_entries_extended(&*final(st)),
{
    st.pools.insert(vault_id, amount);
}

pub fn get_creator_vaults(st: &Storage, creator: &Address) -> (r: Vec<u64>)
    ensures
        r@ == list_of(st@.creator_vaults, *creator),
{
    match st.creator_vaults.get(creator) {
        Some(v) => copy_ids(v),
        None => Vec::new(),
    }
}

pub fn save_creator_vaults(st: &mut Storage, creator: &Address, ids: &Vec<u64>)
    ensures
        final(st)@ == (StorageModel {
            creator_vaults: old(st)@.creator_vaults.insert(*creator, ids@),
            ..old(st)@
        }),
        final(st).time_to_live() == old(st).time_to_live().insert(DataKey::CreatorVaults(*creator), LEDGER_BUMP_AMOUNT),
        persistent_entries_extended(&*old(st)) ==> persistent_entries_extended(&*final(st)),
{
    let ghost before = st.creator_vaults@;
    st.creator_vaults.insert(*creator, copy_ids(ids));
    st.ttl.insert(DataKey::CreatorVaults(*creator), LEDGER_BUMP_AMOUNT);
    proof {
        assert(st.creator_vaults@.map_values(|v: Vec<u64>| v@) =~= before.map_values(
            |v: Vec<u64>| v@,
        ).insert(*creator, ids@));
    }
}

pub fn get_member_vaults(st: &Storage, member: &Address) -> (r: Vec<u64>)
    ensures
        r@ == list_of(st@.member_vaults, *member),
{
    match st.member_vaults.get(member) {
        Some(v) => copy_ids(v),
        None => Vec::new(),
    }
}

pub fn save_member_vaults(st: &mut Storage, member: &Address, ids: &Vec<u64>)
    ensures
        final(st)@ == (StorageModel {
            member_vaults: old(st)@.member_vaults.insert(*member, ids@),
            ..old(st)@
        }),
        final(st).time_to_live() == old(st).time_to_live().insert(DataKey::MemberVaults(*member), LEDGER_BUMP_AMOUNT),
        persistent_entries_extended(&*old(st)) ==> persistent_entries_extended(&*final(st)),
{
    let ghost before = st.member_vaults@;
    st.member_vaults.insert(*member, copy_ids(ids));
    st.ttl.insert(DataKey::MemberVaults(*member), LEDGER_BUMP_AMOUNT);
    proof {
        assert(st.member_vaults@.map_values(|v: Vec<u64>| v@) =~= before.map_values(
            |v: Vec<u64>| v@,
        ).insert(*member, ids@));
    }
}

} // verus!
