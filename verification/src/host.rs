//! The contract's host: its storage, the ledger's clock, and the list of
//! effects (token transfers and published events) the contract has asked for.
use vstd::prelude::*;

use crate::storage::{persistent_entries_extended, Storage};
use crate::types::{Address, Effect, Event, Party, Transfer};

verus! {

pub struct HostEnv {
    pub storage: Storage,
    /// The ledger's timestamp during this call.
    pub timestamp: u64,
    /// What the contract has asked the host to do, oldest first.
    pub effects: Vec<Effect>,
}

impl HostEnv {
    /// A host with empty storage and no effects, at time `timestamp`.
    pub fn new(timestamp: u64) -> (env: HostEnv)
        ensures
            env.storage@ == Storage::new_model(),
            persistent_entries_extended(&env.storage),
            env.timestamp == timestamp,
            env.effects@ == Seq::<Effect>::empty(),
    {
        HostEnv { storage: Storage::new(), timestamp, effects: Vec::new() }
    }

    /// Asks for `amount` of `token` to move from `from` to `to`.
    pub fn transfer(&mut self, token: Address, from: Party, to: Party, amount: i128)
        ensures
            final(self).storage == old(self).storage,
            final(self).timestamp == old(self).timestamp,
            final(self).effects@ == old(self).effects@.push(
                Effect::Transfer(Transfer { token, from, to, amount }),
            ),
    {
        self.effects.push(Effect::Transfer(Transfer { token, from, to, amount }));
    }

    /// Publishes `event`.
    pub fn publish(&mut self, event: Event)
        ensures
            final(self).storage == old(self).storage,
            final(self).timestamp == old(self).timestamp,
            final(self).effects@ == old(self).effects@.push(Effect::Publish(event)),
    {
        self.effects.push(Effect::Publish(event));
    }
}

} // verus!
