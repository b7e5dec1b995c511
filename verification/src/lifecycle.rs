//! What holds of a batch manager over several steps.

use vstd::prelude::*;
use libc::sockaddr_in;
use crate::batch::{BatchManager, Payload, BATCH_SIZE};

verus! {

/// A manager that has just opened its first batch.
pub open spec fn fresh(manager: BatchManager) -> bool {
    &&& manager.open()
    &&& manager.batches@.len() == 1
    &&& manager.batches@[0]->Construction_0.size == 0
}

/// `states` are the managers that the entries lead through, one after the
/// other: the first state is the manager before the first entry, and each
/// entry leads from a state to the next.
pub open spec fn run(
    states: Seq<BatchManager>,
    addrs: Seq<sockaddr_in>,
    clients: Seq<u64>,
    payloads: Seq<Payload>,
) -> bool {
    &&& states.len() == payloads.len() + 1
    &&& addrs.len() == payloads.len()
    &&& clients.len() == payloads.len()
    &&& forall|k: int|
        0 <= k < payloads.len() ==> (#[trigger] states[k]).entered(
            states[k + 1],
            addrs[k],
            clients[k],
            payloads[k],
        )
}

/// Up to `BATCH_SIZE` entries into a fresh manager all stand in its first
/// batch, in order, and no batch is sealed.
pub proof fn lemma_first_batch_fills(
    states: Seq<BatchManager>,
    addrs: Seq<sockaddr_in>,
    clients: Seq<u64>,
    payloads: Seq<Payload>,
    k: int,
)
    requires
        run(states, addrs, clients, payloads),
        fresh(states[0]),
        0 <= k <= payloads.len(),
        k <= BATCH_SIZE,
    ensures
        states[k].open(),
        states[k].batches@.len() == 1,
        states[k].batches@[0]->Construction_0.batch_id == 0,
        states[k].batches@[0]->Construction_0.size == k,
        states[k].batches@[0]->Construction_0.addrs@ == addrs.take(k),
        states[k].batches@[0]->Construction_0.clients_ids@ == clients.take(k),
        states[k].batches@[0]->Construction_0.payloads@ == payloads.take(k),
    decreases k,
{
    if k > 0 {
        lemma_first_batch_fills(states, addrs, clients, payloads, k - 1);
    }
}

/// Entries into a fresh manager fill its first batch up to `BATCH_SIZE`
/// without sealing it. The entry after that seals exactly that batch, into the
/// proposal over the first `BATCH_SIZE` payloads, and opens exactly one
/// batch, which holds that entry alone.
pub proof fn lemma_full_batch_is_sealed_by_next_entry(
    states: Seq<BatchManager>,
    addrs: Seq<sockaddr_in>,
    clients: Seq<u64>,
    payloads: Seq<Payload>,
)
    requires
        run(states, addrs, clients, payloads),
        fresh(states[0]),
        payloads.len() <= BATCH_SIZE + 1,
    ensures
        payloads.len() <= BATCH_SIZE ==> {
            &&& states.last().batches@.len() == 1
            &&& states.last().batches@[0] is Construction
            &&& states.last().batches@[0]->Construction_0.size == payloads.len()
            &&& states.last().batches@[0]->Construction_0.payloads@ == payloads
        },
        payloads.len() == BATCH_SIZE + 1 ==> {
            &&& states.last().batches@.len() == 2
            &&& states.last().batches@[0] is Proposal
            &&& states.last().batches@[0]->Proposal_0.fresh_from(
                payloads.take(BATCH_SIZE as int),
                0,
            )
            &&& states.last().batches@[1] is Construction
            &&& states.last().batches@[1]->Construction_0.size == 1
            &&& states.last().batches@[1]->Construction_0.payloads@ == seq![payloads.last()]
        },
{
    if payloads.len() <= BATCH_SIZE {
        lemma_first_batch_fills(states, addrs, clients, payloads, payloads.len() as int);
    } else {
        lemma_first_batch_fills(states, addrs, clients, payloads, BATCH_SIZE as int);
    }
}

/// A contribution to a batch that is no proposal, be it settled or still
/// under construction, changes nothing: a settled batch stays settled with
/// the tree it has.
pub proof fn lemma_settled_batch_ignores_contributions(
    before: BatchManager,
    after: BatchManager,
    batch_id: usize,
    pos: usize,
    client_id: usize,
    sig: [u8; 96],
    pk: [u8; 48],
    timed_out: bool,
)
    requires
        batch_id < before.batches@.len(),
        !(before.batches@[batch_id as int] is Proposal),
        before.contributed(after, batch_id, pos, client_id, sig, pk, timed_out),
    ensures
        after.batches@ == before.batches@,
        after.batch_id == before.batch_id,
{
}

/// A proposal that times out before any signature has come in is settled with
/// a tree without a root, and the contribution that found it timed out is
/// dropped.
pub proof fn lemma_timeout_without_contributions(
    before: BatchManager,
    after: BatchManager,
    batch_id: usize,
    pos: usize,
    client_id: usize,
    sig: [u8; 96],
    pk: [u8; 48],
)
    requires
        batch_id < before.batches@.len(),
        before.batches@[batch_id as int] is Proposal,
        before.batches@[batch_id as int]->Proposal_0.list_sigs@.len() == 0,
        before.contributed(after, batch_id, pos, client_id, sig, pk, true),
    ensures
        after.batches@[batch_id as int] is DistilledBatch,
        after.batches@[batch_id as int]->DistilledBatch_0.sigtree.root is None,
        after.batches@[batch_id as int]->DistilledBatch_0.sigtree.wf(),
{
}

/// A batch never moves back: whatever a contribution leads to, a settled batch
/// stays settled, and a proposal stays a proposal or becomes settled.
pub proof fn lemma_contribution_moves_forward(
    before: BatchManager,
    after: BatchManager,
    batch_id: usize,
    pos: usize,
    client_id: usize,
    sig: [u8; 96],
    pk: [u8; 48],
    timed_out: bool,
    at: int,
)
    requires
        batch_id < before.batches@.len(),
        0 <= at < before.batches@.len(),
        before.contributed(after, batch_id, pos, client_id, sig, pk, timed_out),
    ensures
        before.batches@[at] is DistilledBatch ==> after.batches@[at] is DistilledBatch,
        before.batches@[at] is Proposal ==> !(after.batches@[at] is Construction),
        before.batches@[at] is Construction ==> after.batches@[at] == before.batches@[at],
{
}

} // verus!
