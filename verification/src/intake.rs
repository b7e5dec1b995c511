//! The batches and the client table under one roof, so that the two always
//! agree and every payload can be handed in without a condition.

use vstd::prelude::*;
use libc::sockaddr_in;
use crate::batch::{BatchManager, BatchType, Payload};
use crate::clients::{handle_payload, took_in, took_signature, ClientState, ClientTable, Handled};

verus! {

/// A batch manager whose last batch is under construction, with the table of
/// the clients that stand in its batches.
pub struct Intake {
    manager: BatchManager,
    table: ClientTable,
}

impl Intake {
    #[verifier::type_invariant]
    spec fn agrees(self) -> bool {
        &&& self.manager.open()
        &&& self.table.tracks(self.manager)
    }

    /// The batches.
    pub closed spec fn manager(self) -> BatchManager {
        self.manager
    }

    /// The client table.
    pub closed spec fn table(self) -> ClientTable {
        self.table
    }

    /// One open, empty batch, and `population` clients that stand in no
    /// batch.
    pub fn new(population: usize) -> (intake: Self)
        ensures
            intake.manager().open(),
            intake.manager().batches@.len() == 1,
            intake.manager().batches@[0]->Construction_0.size == 0,
            intake.table().states@.len() == population,
            forall|c: int|
                0 <= c < population ==> #[trigger] intake.table().states@[c]
                    == ClientState::NotAssignedToBatch,
    {
        let mut manager = BatchManager::new();
        manager.add_batch();
        let table = ClientTable::new(population);
        Intake { manager, table }
    }

    /// Handles a payload that came from `addr`, by the state of its client.
    pub fn handle(&mut self, keys: &Vec<[u8; 48]>, addr: sockaddr_in, payload: Payload) -> (handled:
        Handled)
        ensures
            final(self).manager().open(),
            final(self).table().tracks(final(self).manager()),
            match old(self).table().state_at(payload.num_id) {
                Some(ClientState::NotAssignedToBatch) => took_in(
                    old(self).manager(),
                    final(self).manager(),
                    old(self).table(),
                    final(self).table(),
                    addr,
                    payload,
                    handled,
                ),
                Some(ClientState::AssignedToBatch(batch, pos)) => {
                    &&& took_signature(
                        old(self).manager(),
                        final(self).manager(),
                        keys@,
                        payload,
                        batch,
                        pos,
                        handled,
                    )
                    &&& final(self).table() == old(self).table()
                },
                _ => {
                    &&& handled is Dropped
                    &&& final(self).manager() == old(self).manager()
                    &&& final(self).table() == old(self).table()
                },
            },
    {
        // A stand-in keeps `self` whole while its parts are worked on.
        let mut taken = Intake::new(0);
        std::mem::swap(self, &mut taken);
        proof {
            use_type_invariant(&taken);
        }
        let Intake { mut manager, mut table } = taken;
        let handled = handle_payload(&mut manager, &mut table, keys, addr, payload);
        *self = Intake { manager, table };
        handled
    }

    /// The batches, to be read.
    pub fn batches(&self) -> (batches: &Vec<BatchType>)
        ensures
            batches == self.manager().batches,
    {
        &self.manager.batches
    }

    /// The state of a client, or `None` for a client that the table does not
    /// have.
    pub fn state_of(&self, client_id: u64) -> (state: Option<ClientState>)
        ensures
            state == self.table().state_at(client_id),
    {
        self.table.state_of(client_id)
    }

    /// Settles the batch at `batch_id` where it is a proposal, and says
    /// whether it was one. Any other batch, and a batch that does not exist,
    /// stays as it is.
    pub fn settle(&mut self, batch_id: usize) -> (settled: bool)
        ensures
            final(self).manager().open(),
            final(self).table() == old(self).table(),
            settled <==> batch_id < old(self).manager().batches@.len() && old(
                self,
            ).manager().batches@[batch_id as int] is Proposal,
            settled ==> {
                let proposal = old(self).manager().batches@[batch_id as int]->Proposal_0;
                &&& old(self).manager().same_but(final(self).manager(), batch_id as int)
                &&& final(self).manager().batches@[batch_id as int] is DistilledBatch
                &&& final(self).manager().batches@[batch_id as int]->DistilledBatch_0.settles(
                    proposal.list_sigs@,
                    proposal.lists_pks@,
                    proposal.batch_id,
                )
            },
            !settled ==> final(self).manager() == old(self).manager(),
    {
        proof {
            use_type_invariant(&*self);
        }
        if batch_id >= self.manager.batches.len() {
            return false;
        }
        let is_proposal = match &self.manager.batches[batch_id] {
            BatchType::Proposal(_) => true,
            _ => false,
        };
        if !is_proposal {
            return false;
        }
        let mut taken = Intake::new(0);
        std::mem::swap(self, &mut taken);
        let Intake { mut manager, table } = taken;
        manager.proposal_to_distilled(batch_id);
        *self = Intake { manager, table };
        true
    }

    /// The positions of the invalid signatures of the settled batch at
    /// `batch_id`, or `None` where there is no settled batch at that place.
    pub fn invalid_signatures(&self, batch_id: usize) -> (invalid: Option<Vec<usize>>)
        ensures
            invalid is Some <==> batch_id < self.manager().batches@.len()
                && self.manager().batches@[batch_id as int] is DistilledBatch,
            invalid is Some ==> {
                let tree = self.manager().batches@[batch_id as int]->DistilledBatch_0.sigtree;
                match tree.root {
                    Some(root) => crate::signature_tree::positions(invalid->Some_0@)
                        == root.shape().invalid_leaves(),
                    None => invalid->Some_0@.len() == 0,
                }
            },
    {
        proof {
            use_type_invariant(self);
        }
        if batch_id >= self.manager.batches.len() {
            return None;
        }
        match &self.manager.batches[batch_id] {
            BatchType::DistilledBatch(distilled) => {
                Some(distilled.sigtree.check())
            },
            _ => None,
        }
    }
}

} // verus!
