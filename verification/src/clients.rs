//! Which batch each client stands in, and what a payload that comes in leads
//! to.

use vstd::prelude::*;
use libc::sockaddr_in;
use crate::batch::{payload_leaves, BatchManager, BatchType, Payload, BATCH_SIZE};
use crate::merkle::{leaf_digests, lemma_batch_path_fits, path_of, MerklePath, MerkleTree};

verus! {

/// Where a client stands.
#[derive(Clone, Copy, Debug, PartialEq, Eq, Structural)]
pub enum ClientState {
    /// The client has sent nothing yet.
    NotAssignedToBatch,
    /// The payload of the client stands in this batch at this position.
    AssignedToBatch(usize, usize),
    /// The client is waited for and nothing is taken from it.
    WaitingForSignature(u8),
}

/// The state of every client, by client identifier.
#[derive(Debug)]
pub struct ClientTable {
    pub states: Vec<ClientState>,
}

/// What became of a payload.
#[derive(Debug)]
pub enum Handled {
    /// Nothing was done with it: the client is not in the table or is waited
    /// for, or the client has a place in a batch and what it sent is no
    /// signature, or there is no key for it.
    Dropped,
    /// It went into this batch at this position.
    Assigned(usize, usize),
    /// It went into this batch at this position, and the batch before was
    /// sealed: each address is owed the inclusion proof at its place, for the
    /// client at that place.
    Sealed(usize, usize, Vec<sockaddr_in>, Vec<MerklePath>, Vec<u64>),
    /// It was a signature and was handed to the batch of the client.
    Contributed,
}

/// Whether a batch has the position `pos`: a settled batch takes no position
/// into account any more.
pub open spec fn holds_position(slot: BatchType, pos: int) -> bool {
    match slot {
        BatchType::Construction(wip) => pos < wip.size,
        BatchType::Proposal(proposal) => pos < proposal.bitmap@.len(),
        BatchType::DistilledBatch(_) => true,
    }
}

impl ClientTable {
    /// The state of a client, where the table has the client.
    pub open spec fn state_at(&self, client_id: u64) -> Option<ClientState> {
        if client_id < self.states@.len() {
            Some(self.states@[client_id as int])
        } else {
            None
        }
    }

    /// The table agrees with the batches: every client whose payload stands
    /// in the batch under construction is assigned to its position there, and
    /// every client that is assigned to a batch names a batch that exists and
    /// a position that the batch has.
    pub open spec fn tracks(&self, manager: BatchManager) -> bool {
        let last = manager.batches@.len() - 1;
        let wip = manager.batches@[last]->Construction_0;
        &&& forall|p: int|
            0 <= p < wip.size ==> self.state_at(#[trigger] wip.clients_ids@[p]) == Some(
                ClientState::AssignedToBatch(last as usize, p as usize),
            )
        &&& forall|c: int|
            0 <= c < self.states@.len() ==> match #[trigger] self.states@[c] {
                ClientState::AssignedToBatch(batch, pos) => {
                    &&& batch < manager.batches@.len()
                    &&& holds_position(manager.batches@[batch as int], pos as int)
                },
                _ => true,
            }
    }

    /// A table for `population` clients, none of them assigned.
    pub fn new(population: usize) -> (table: Self)
        ensures
            table.states@.len() == population,
            forall|c: int|
                0 <= c < population ==> #[trigger] table.states@[c]
                    == ClientState::NotAssignedToBatch,
    {
        let mut states: Vec<ClientState> = Vec::new();
        let mut i: usize = 0;
        while i < population
            invariant
                i <= population,
                states@.len() == i,
                forall|c: int| 0 <= c < i ==> #[trigger] states@[c] == ClientState::NotAssignedToBatch,
            decreases population - i,
        {
            states.push(ClientState::NotAssignedToBatch);
            i += 1;
        }
        Self { states }
    }

    /// The state of a client, or `None` for a client that the table does not
    /// have.
    pub fn state_of(&self, client_id: u64) -> (state: Option<ClientState>)
        ensures
            state == self.state_at(client_id),
    {
        if client_id < self.states.len() as u64 {
            Some(self.states[client_id as usize])
        } else {
            None
        }
    }

    /// Assigns a client of the table to a position of a batch.
    pub fn assign(&mut self, client_id: u64, batch_id: usize, pos: usize)
        requires
            client_id < old(self).states@.len(),
        ensures
            final(self).states@ == old(self).states@.update(
                client_id as int,
                ClientState::AssignedToBatch(batch_id, pos),
            ),
    {
        if client_id < self.states.len() as u64 {
            let place = client_id as usize;
            self.states[place] = ClientState::AssignedToBatch(batch_id, pos);
        }
    }
}

/// The inclusion proofs of all leaves of a tree, in order.
pub fn all_paths(tree: &MerkleTree) -> (paths: Vec<MerklePath>)
    requires
        tree.wf(),
    ensures
        paths@.len() == tree.base().len(),
        forall|k: int|
            0 <= k < paths@.len() ==> (#[trigger] paths@[k])@ == path_of(tree.base(), k),
{
    let count = tree.tree[0].len();
    let mut paths: Vec<MerklePath> = Vec::new();
    let mut k: usize = 0;
    while k < count
        invariant
            tree.wf(),
            count == tree.base().len(),
            k <= count,
            paths@.len() == k,
            forall|j: int| 0 <= j < k ==> (#[trigger] paths@[j])@ == path_of(tree.base(), j),
        decreases count - k,
    {
        if let Ok(path) = tree.find_merkle_path(k) {
            paths.push(path);
        }
        k += 1;
    }
    paths
}

/// The signature that a message of 96 bytes is.
pub open spec fn as_signature(message: Seq<u8>) -> [u8; 96] {
    choose|sig: [u8; 96]| sig@ == message
}

/// The 96 bytes of a message that has exactly 96 bytes.
pub fn signature_of(message: &Vec<u8>) -> (sig: Option<[u8; 96]>)
    ensures
        sig is Some <==> message@.len() == 96,
        sig is Some ==> sig->Some_0@ == message@,
        sig is Some ==> sig->Some_0 == as_signature(message@),
{
    if message.len() != 96 {
        return None;
    }
    let mut sig: [u8; 96] = [0u8; 96];
    let mut i: usize = 0;
    while i < 96
        invariant
            i <= 96,
            message@.len() == 96,
            forall|k: int| 0 <= k < i ==> #[trigger] sig@[k] == message@[k],
        decreases 96 - i,
    {
        sig[i] = message[i];
        i += 1;
    }
    assert(sig@ =~= message@);
    Some(sig)
}

/// What a payload of a client that stands in no batch leads to: it enters the
/// batch under construction, and the client is assigned to the place it went
/// to. Where that sealed a batch, the proposal has its start time, and the
/// inclusion proofs of all its positions are handed out with the addresses
/// and clients they are owed to; each has a wire form.
pub open spec fn took_in(
    before: BatchManager,
    after: BatchManager,
    table_before: ClientTable,
    table_after: ClientTable,
    addr: sockaddr_in,
    payload: Payload,
    handled: Handled,
) -> bool {
    let last = before.batches@.len() - 1;
    let wip = before.batches@[last]->Construction_0;
    &&& before.entered_with(after, addr, payload.num_id, payload, true)
    &&& if wip.size < BATCH_SIZE {
        &&& handled is Assigned
        &&& handled->Assigned_0 == last
        &&& handled->Assigned_1 == wip.size
        &&& table_after.states@ == table_before.states@.update(
            payload.num_id as int,
            ClientState::AssignedToBatch(last as usize, wip.size),
        )
    } else {
        let base = leaf_digests(payload_leaves(wip.payloads@));
        &&& handled is Sealed
        &&& handled->Sealed_0 == last + 1
        &&& handled->Sealed_1 == 0
        &&& handled->Sealed_2@ == wip.addrs@
        &&& handled->Sealed_3@.len() == wip.size
        &&& forall|k: int|
            0 <= k < wip.size ==> (#[trigger] handled->Sealed_3@[k])@ == path_of(base, k)
        &&& forall|k: int| 0 <= k < wip.size ==> (#[trigger] handled->Sealed_3@[k]).path@.len() <= 16
        &&& handled->Sealed_4@ == wip.clients_ids@
        &&& table_after.states@ == table_before.states@.update(
            payload.num_id as int,
            ClientState::AssignedToBatch((last + 1) as usize, 0),
        )
    }
}

/// What a payload of a client that stands at `pos` of the batch `batch` leads
/// to: where its message has the 96 bytes of a signature and there is a key
/// for the client, the signature is handed to the batch with that key;
/// otherwise the payload is dropped.
pub open spec fn took_signature(
    before: BatchManager,
    after: BatchManager,
    keys: Seq<[u8; 48]>,
    payload: Payload,
    batch: usize,
    pos: usize,
    handled: Handled,
) -> bool {
    if payload.message@.len() == 96 && payload.num_id < keys.len() {
        &&& handled is Contributed
        &&& before.contributed_either(
            after,
            batch,
            pos,
            payload.num_id as usize,
            as_signature(payload.message@),
            keys[payload.num_id as int],
        )
    } else {
        &&& handled is Dropped
        &&& after == before
    }
}

/// Handles a payload that came from `addr`, by the state of its client. A
/// client that stands in no batch yet has the payload entered; a client that
/// stands in a batch has its message taken as its signature; of any other
/// client, and of a client that the table does not have, the payload is
/// dropped and nothing changes.
pub fn handle_payload(
    manager: &mut BatchManager,
    table: &mut ClientTable,
    keys: &Vec<[u8; 48]>,
    addr: sockaddr_in,
    payload: Payload,
) -> (handled: Handled)
    requires
        old(manager).open(),
        old(table).tracks(*old(manager)),
    ensures
        final(manager).open(),
        final(table).tracks(*final(manager)),
        match old(table).state_at(payload.num_id) {
            Some(ClientState::NotAssignedToBatch) => took_in(
                *old(manager),
                *final(manager),
                *old(table),
                *final(table),
                addr,
                payload,
                handled,
            ),
            Some(ClientState::AssignedToBatch(batch, pos)) => {
                &&& took_signature(*old(manager), *final(manager), keys@, payload, batch, pos, handled)
                &&& *final(table) == *old(table)
            },
            _ => {
                &&& handled is Dropped
                &&& *final(manager) == *old(manager)
                &&& *final(table) == *old(table)
            },
        },
{
    let client_id = payload.num_id;
    match table.state_of(client_id) {
        Some(ClientState::NotAssignedToBatch) => {
            let ghost wip = manager.batches@.last()->Construction_0;
            let (batch_id, pos, sealed) = manager.add_to_construction(addr, client_id, payload);
            table.assign(client_id, batch_id, pos);
            match sealed {
                None => Handled::Assigned(batch_id, pos),
                Some((addrs, tree, clients)) => {
                    let paths = all_paths(&tree);
                    manager.add_start_time(batch_id - 1);
                    proof {
                        let base = leaf_digests(payload_leaves(wip.payloads@));
                        assert forall|k: int| 0 <= k < wip.size implies (#[trigger] paths@[k]).path@.len()
                            <= 16 by {
                            lemma_batch_path_fits(base, k);
                        }
                    }
                    Handled::Sealed(batch_id, pos, addrs, paths, clients)
                },
            }
        },
        Some(ClientState::AssignedToBatch(batch, pos)) => {
            if client_id >= keys.len() as u64 {
                return Handled::Dropped;
            }
            match signature_of(&payload.message) {
                None => Handled::Dropped,
                Some(sig) => {
                    let place = client_id as usize;
                    let pk = keys[place];
                    manager.add_to_proposal(batch, pos, place, sig, pk);
                    Handled::Contributed
                },
            }
        },
        _ => Handled::Dropped,
    }
}

} // verus!
