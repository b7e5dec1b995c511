//! Client payloads and the lifecycle of the batches they are gathered in:
//! under construction, proposed to the clients, and settled.

use vstd::prelude::*;
use libc::sockaddr_in;
use std::time::SystemTime;
use crate::merkle::{byte_strings, leaf_digests, MerkleTree};
use crate::signature_tree::{build, leaves_of, SignatureTree};
use crate::wire::{be_bytes, be_value, lemma_be_value_of_bytes, u64_from_be, u64_to_be};

verus! {

/// Number of payloads that a batch holds.
pub const BATCH_SIZE: usize = 65536;

/// Milliseconds that a proposal waits for signatures.
pub const TIMEOUT_DURATION_BATCH: u64 = 500;

/// Number of bytes before the message in the wire form of a payload.
pub const HEADER_LEN: usize = 24;

/// Largest buffer that is read as a payload.
pub const MAX_DATAGRAM: usize = 1024;

/// What a client sends: who it is, its sequence number, and a message.
#[derive(Clone, Debug, PartialEq, Eq, Hash)]
pub struct Payload {
    pub num_id: u64,
    pub seq_num: u64,
    pub message: Vec<u8>,
}

/// A payload as a mathematical value.
pub struct PayloadView {
    pub num_id: u64,
    pub seq_num: u64,
    pub message: Seq<u8>,
}

impl View for Payload {
    type V = PayloadView;

    open spec fn view(&self) -> PayloadView {
        PayloadView { num_id: self.num_id, seq_num: self.seq_num, message: self.message@ }
    }
}

/// A buffer that holds no payload.
#[derive(Debug)]
pub struct NotAPayload;

/// The wire form of a payload: client identifier, sequence number and message
/// length, eight big-endian bytes each, then the message.
pub open spec fn encode_payload(p: PayloadView) -> Seq<u8> {
    be_bytes(p.num_id) + be_bytes(p.seq_num) + be_bytes(p.message.len() as u64) + p.message
}

/// The payload that a buffer holds, where it holds one: the buffer has
/// between 24 and 1024 bytes, and the message length in its header does not
/// reach past its end. Bytes after the message are not read.
pub open spec fn decode_payload(bytes: Seq<u8>) -> Option<PayloadView> {
    if bytes.len() < HEADER_LEN || bytes.len() > MAX_DATAGRAM {
        None
    } else {
        let msg_len = be_value(bytes.subrange(16, 24));
        if msg_len > bytes.len() - HEADER_LEN {
            None
        } else {
            Some(
                PayloadView {
                    num_id: be_value(bytes.subrange(0, 8)),
                    seq_num: be_value(bytes.subrange(8, 16)),
                    message: bytes.subrange(24, 24 + msg_len),
                },
            )
        }
    }
}

/// Decoding the wire form of a payload whose message has at most 1000 bytes
/// gives back the payload.
pub proof fn lemma_decode_encoded_payload(p: PayloadView)
    requires
        p.message.len() <= 1000,
    ensures
        encode_payload(p).len() == 24 + p.message.len(),
        decode_payload(encode_payload(p)) == Some(p),
{
    let n = p.message.len() as u64;
    lemma_be_value_of_bytes(p.num_id, Seq::empty());
    lemma_be_value_of_bytes(p.seq_num, Seq::empty());
    lemma_be_value_of_bytes(n, Seq::empty());
    assert(encode_payload(p).subrange(24, 24 + n) =~= p.message);
}

impl Payload {
    /// The payload of client `num_id` with this sequence number and message.
    pub fn new(num_id: u64, seq_num: u64, message: Vec<u8>) -> (p: Self)
        ensures
            p.num_id == num_id,
            p.seq_num == seq_num,
            p.message == message,
    {
        Self { num_id, seq_num, message }
    }

    /// The wire form of the payload.
    pub fn to_bytes(&self) -> (buf: Vec<u8>)
        ensures
            buf@ == encode_payload(self@),
    {
        let mut buf: Vec<u8> = Vec::new();
        let serialized_id = u64_to_be(self.num_id);
        let serialized_seq_num = u64_to_be(self.seq_num);
        let serialized_msg_len = u64_to_be(self.message.len() as u64);
        let mut i: usize = 0;
        while i < 8
            invariant
                i <= 8,
                buf@ == serialized_id@.take(i as int),
            decreases 8 - i,
        {
            buf.push(serialized_id[i]);
            i += 1;
        }
        i = 0;
        while i < 8
            invariant
                i <= 8,
                buf@ == serialized_id@ + serialized_seq_num@.take(i as int),
            decreases 8 - i,
        {
            buf.push(serialized_seq_num[i]);
            i += 1;
        }
        i = 0;
        while i < 8
            invariant
                i <= 8,
                buf@ == serialized_id@ + serialized_seq_num@ + serialized_msg_len@.take(i as int),
            decreases 8 - i,
        {
            buf.push(serialized_msg_len[i]);
            i += 1;
        }
        let ghost header = buf@;
        i = 0;
        while i < self.message.len()
            invariant
                i <= self.message@.len(),
                buf@ == header + self.message@.take(i as int),
            decreases self.message@.len() - i,
        {
            buf.push(self.message[i]);
            i += 1;
        }
        buf
    }

    /// Reads a payload from the start of `buf`.
    pub fn from_bytes(buf: &[u8]) -> (res: Result<Self, NotAPayload>)
        ensures
            res is Ok <==> decode_payload(buf@) is Some,
            res is Ok ==> res->Ok_0@ == decode_payload(buf@)->Some_0,
    {
        if buf.len() < HEADER_LEN || buf.len() > MAX_DATAGRAM {
            return Err(NotAPayload);
        }
        let num_id = u64_from_be(buf, 0);
        let seq_num = u64_from_be(buf, 8);
        let msg_len = u64_from_be(buf, 16);
        if msg_len > (buf.len() - HEADER_LEN) as u64 {
            return Err(NotAPayload);
        }
        let end: usize = 24 + msg_len as usize;
        let mut message: Vec<u8> = Vec::new();
        let mut i: usize = 24;
        while i < end
            invariant
                24 <= i <= end <= buf.len(),
                message@ == buf@.subrange(24, i as int),
            decreases end - i,
        {
            message.push(buf[i]);
            i += 1;
        }
        Ok(Self { num_id, seq_num, message })
    }
}

/// The address of a client, as the transport hands it over. It is carried
/// along and never looked into.
#[verifier::external_type_specification]
#[verifier::external_body]
pub struct ExSockaddrIn(libc::sockaddr_in);

/// A point in wall-clock time. It is kept and handed back to the clock, never
/// looked into.
#[verifier::external_type_specification]
#[verifier::external_body]
pub struct ExSystemTime(std::time::SystemTime);

/// Calls `SystemTime::now`. Nothing is claimed of the time that comes back.
#[verifier::external_body]
pub(crate) fn clock_now() -> (now: SystemTime) {
    SystemTime::now()
}

/// Calls `SystemTime::elapsed` and gives the nanoseconds since `start`, or
/// `None` where the clock has gone back behind `start`. Nothing is claimed of
/// the number that comes back.
#[verifier::external_body]
pub(crate) fn nanos_since(start: &SystemTime) -> (elapsed: Option<u128>) {
    match start.elapsed() {
        Ok(duration) => Some(duration.as_nanos()),
        Err(_) => None,
    }
}

/// The leaves of a batch's tree: the wire forms of its payloads.
pub open spec fn payload_leaves(payloads: Seq<Payload>) -> Seq<Seq<u8>> {
    Seq::new(payloads.len(), |i: int| encode_payload(payloads[i]@))
}

/// A batch that is still being filled.
#[derive(Debug)]
pub struct BatchConstruction {
    pub batch_id: usize,
    pub addrs: Vec<sockaddr_in>,
    pub clients_ids: Vec<u64>,
    pub payloads: Vec<Payload>,
    pub size: usize,
}

/// A sealed batch that gathers the signatures of its clients.
#[derive(Debug)]
pub struct BatchProposal {
    pub batch_id: usize,
    /// The tree over the wire forms of the payloads.
    pub merkle: MerkleTree,
    /// For each position, whether its client has signed.
    pub bitmap: Vec<bool>,
    /// The signatures in the order they came in, compressed.
    pub list_sigs: Vec<[u8; 96]>,
    /// The key that came with each signature, compressed.
    pub lists_pks: Vec<[u8; 48]>,
    /// The client that each signature came from.
    pub pos_to_cliendid: Vec<usize>,
    /// When the proposal started to wait for signatures.
    pub start_time: Option<SystemTime>,
    /// Milliseconds that the proposal waits after its start.
    pub timeout_duration: u64,
    /// Stays false: a proposal that is found timed out is settled at once.
    pub has_timeout: bool,
}

/// A settled batch: the aggregation tree over the signatures that came in.
#[derive(Debug)]
pub struct DistilledBatch {
    pub batch_id: usize,
    pub sigtree: SignatureTree,
}

/// A batch in one of its three stages. A batch only moves forward: from
/// construction to proposal to settlement.
#[derive(Debug)]
pub enum BatchType {
    Construction(BatchConstruction),
    Proposal(BatchProposal),
    DistilledBatch(DistilledBatch),
}

/// The batches in the order they were opened. Only the last one can be under
/// construction.
#[derive(Debug)]
pub struct BatchManager {
    pub batches: Vec<BatchType>,
    pub batch_id: usize,
}

impl BatchConstruction {
    /// One address, one client and one payload for each position.
    pub open spec fn wf(&self) -> bool {
        &&& self.addrs@.len() == self.size
        &&& self.clients_ids@.len() == self.size
        &&& self.payloads@.len() == self.size
    }

    /// `after` is `self` with one more entry at the end.
    pub open spec fn appended(
        &self,
        after: BatchConstruction,
        addr: sockaddr_in,
        client_id: u64,
        payload: Payload,
    ) -> bool {
        &&& after.batch_id == self.batch_id
        &&& after.addrs@ == self.addrs@.push(addr)
        &&& after.clients_ids@ == self.clients_ids@.push(client_id)
        &&& after.payloads@ == self.payloads@.push(payload)
        &&& after.size == self.size + 1
    }

    /// An empty batch with this identifier.
    pub fn new(batch_id: usize) -> (batch: Self)
        ensures
            batch.wf(),
            batch.batch_id == batch_id,
            batch.size == 0,
    {
        Self {
            batch_id,
            addrs: Vec::new(),
            clients_ids: Vec::new(),
            payloads: Vec::new(),
            size: 0,
        }
    }

    /// Seals the batch: the proposal over its payloads.
    pub fn to_proposal(self) -> (proposal: BatchProposal)
        ensures
            proposal.fresh_from(self.payloads@, self.batch_id),
    {
        BatchProposal::new(self.payloads, self.batch_id)
    }

    /// Appends an entry and gives its position.
    pub fn add(&mut self, addr: sockaddr_in, client_id: u64, payload: Payload) -> (pos: usize)
        requires
            old(self).wf(),
            old(self).size < usize::MAX,
        ensures
            final(self).wf(),
            old(self).appended(*final(self), addr, client_id, payload),
            pos == old(self).size,
    {
        self.addrs.push(addr);
        self.clients_ids.push(client_id);
        self.payloads.push(payload);
        self.size += 1;
        let pos = self.size - 1;
        pos
    }

    /// The number of entries.
    pub fn get_size(&self) -> (size: usize)
        ensures
            size == self.size,
    {
        self.size
    }

    /// The identifier of the batch.
    pub fn get_batch_id(&self) -> (id: usize)
        ensures
            id == self.batch_id,
    {
        self.batch_id
    }
}

impl BatchProposal {
    /// The tree is well formed, the bitmap has one bit for each leaf, and
    /// each signature came with a key and a client.
    pub open spec fn wf(&self) -> bool {
        &&& self.merkle.wf()
        &&& self.bitmap@.len() == self.merkle.base().len()
        &&& self.lists_pks@.len() == self.list_sigs@.len()
        &&& self.pos_to_cliendid@.len() == self.list_sigs@.len()
    }

    /// The proposal over these payloads before any signature has come in: the
    /// tree over the wire forms of the payloads, no bit set, no signature.
    pub open spec fn sealed_from(&self, payloads: Seq<Payload>, batch_id: usize) -> bool {
        &&& self.wf()
        &&& self.batch_id == batch_id
        &&& self.merkle.base() == leaf_digests(payload_leaves(payloads))
        &&& self.bitmap@ == Seq::new(payloads.len(), |i: int| false)
        &&& self.list_sigs@.len() == 0
        &&& self.timeout_duration == TIMEOUT_DURATION_BATCH
        &&& !self.has_timeout
    }

    /// The proposal as it is when a batch with these payloads is sealed: as
    /// above, and without a start time yet.
    pub open spec fn fresh_from(&self, payloads: Seq<Payload>, batch_id: usize) -> bool {
        &&& self.sealed_from(payloads, batch_id)
        &&& self.start_time is None
    }

    /// `after` is `self` with one more contribution: the bit at `pos` set,
    /// and the signature, the key and the client appended.
    pub open spec fn recorded(
        &self,
        after: BatchProposal,
        pos: usize,
        client_id: usize,
        sig: [u8; 96],
        pk: [u8; 48],
    ) -> bool {
        &&& after.batch_id == self.batch_id
        &&& after.merkle == self.merkle
        &&& after.bitmap@ == self.bitmap@.update(pos as int, true)
        &&& after.list_sigs@ == self.list_sigs@.push(sig)
        &&& after.lists_pks@ == self.lists_pks@.push(pk)
        &&& after.pos_to_cliendid@ == self.pos_to_cliendid@.push(client_id)
        &&& after.start_time == self.start_time
        &&& after.timeout_duration == self.timeout_duration
        &&& after.has_timeout == self.has_timeout
    }

    /// `after` is `self` but for the start time.
    pub open spec fn started(&self, after: BatchProposal) -> bool {
        &&& after.batch_id == self.batch_id
        &&& after.merkle == self.merkle
        &&& after.bitmap == self.bitmap
        &&& after.list_sigs == self.list_sigs
        &&& after.lists_pks == self.lists_pks
        &&& after.pos_to_cliendid == self.pos_to_cliendid
        &&& after.timeout_duration == self.timeout_duration
        &&& after.has_timeout == self.has_timeout
    }

    /// Whether the proposal has waited longer than its timeout, given the
    /// nanoseconds since its start as far as the clock can tell them. A
    /// proposal that has not started has not timed out.
    pub open spec fn expired(&self, elapsed: Option<u128>) -> bool {
        &&& self.start_time is Some
        &&& elapsed is Some
        &&& elapsed->Some_0 > self.timeout_duration * 1_000_000
    }

    /// Seals these payloads: builds the tree over their wire forms.
    pub fn new(payloads: Vec<Payload>, batch_id: usize) -> (proposal: Self)
        ensures
            proposal.fresh_from(payloads@, batch_id),
    {
        let mut leaves: Vec<Vec<u8>> = Vec::new();
        let mut i: usize = 0;
        while i < payloads.len()
            invariant
                i <= payloads@.len(),
                leaves@.len() == i,
                forall|k: int| 0 <= k < i ==> (#[trigger] leaves@[k])@ == encode_payload(payloads@[k]@),
            decreases payloads@.len() - i,
        {
            let bytes = payloads[i].to_bytes();
            leaves.push(bytes);
            i += 1;
        }
        let mut leaves_slice: Vec<&[u8]> = Vec::new();
        let mut bitmap: Vec<bool> = Vec::new();
        let mut j: usize = 0;
        while j < leaves.len()
            invariant
                j <= leaves@.len(),
                leaves_slice@.len() == j,
                bitmap@.len() == j,
                forall|k: int| 0 <= k < j ==> (#[trigger] leaves_slice@[k])@ == leaves@[k]@,
                forall|k: int| 0 <= k < j ==> !(#[trigger] bitmap@[k]),
            decreases leaves@.len() - j,
        {
            leaves_slice.push(leaves[j].as_slice());
            bitmap.push(false);
            j += 1;
        }
        let merkletree = MerkleTree::new(&leaves_slice);
        proof {
            assert(byte_strings(leaves_slice@) =~= payload_leaves(payloads@));
            assert(bitmap@ =~= Seq::new(payloads@.len(), |i: int| false));
        }
        Self {
            batch_id,
            merkle: merkletree,
            bitmap,
            list_sigs: Vec::new(),
            lists_pks: Vec::new(),
            pos_to_cliendid: Vec::new(),
            start_time: None,
            timeout_duration: TIMEOUT_DURATION_BATCH,
            has_timeout: false,
        }
    }

    /// Settles the proposal: the aggregation tree over what came in.
    pub fn to_distilled(self) -> (distilled: DistilledBatch)
        requires
            self.wf(),
        ensures
            distilled.settles(self.list_sigs@, self.lists_pks@, self.batch_id),
    {
        DistilledBatch::new(self.list_sigs, self.lists_pks, self.batch_id)
    }
}

impl DistilledBatch {
    /// The aggregation tree is well formed.
    pub open spec fn wf(&self) -> bool {
        self.sigtree.wf()
    }

    /// The batch as it is when a proposal with these signatures and keys is
    /// settled: the tree built over them, without a root where there are
    /// none.
    pub open spec fn settles(&self, sigs: Seq<[u8; 96]>, pks: Seq<[u8; 48]>, batch_id: usize) -> bool {
        &&& self.wf()
        &&& self.batch_id == batch_id
        &&& self.sigtree.root is Some <==> sigs.len() > 0
        &&& self.sigtree.root is Some ==> self.sigtree.root->Some_0.shape() == build(
            leaves_of(sigs, pks),
        )
    }

    /// Builds the aggregation tree over the signatures and their keys.
    pub fn new(list_sigs: Vec<[u8; 96]>, list_pks: Vec<[u8; 48]>, batch_id: usize) -> (distilled:
        Self)
        requires
            list_sigs@.len() == list_pks@.len(),
        ensures
            distilled.settles(list_sigs@, list_pks@, batch_id),
    {
        Self { batch_id, sigtree: SignatureTree::new(list_sigs, list_pks) }
    }
}

impl BatchType {
    /// The batch is well formed for its stage; a batch under construction
    /// holds at most `BATCH_SIZE` entries.
    pub open spec fn wf(&self) -> bool {
        match self {
            BatchType::Construction(wip) => wip.wf() && wip.size <= BATCH_SIZE,
            BatchType::Proposal(proposal) => proposal.wf(),
            BatchType::DistilledBatch(distilled) => distilled.wf(),
        }
    }

    /// The identifier that the batch was opened with.
    pub open spec fn id(&self) -> usize {
        match self {
            BatchType::Construction(wip) => wip.batch_id,
            BatchType::Proposal(proposal) => proposal.batch_id,
            BatchType::DistilledBatch(distilled) => distilled.batch_id,
        }
    }
}

impl BatchManager {
    /// Every batch is well formed and carries its place in the list as its
    /// identifier, no batch before the last is under construction, and the
    /// counter is the place of the last batch.
    pub open spec fn slots_wf(&self) -> bool {
        &&& forall|i: int| 0 <= i < self.batches@.len() ==> (#[trigger] self.batches@[i]).wf()
        &&& forall|i: int| 0 <= i < self.batches@.len() ==> (#[trigger] self.batches@[i]).id() == i
        &&& forall|i: int|
            0 <= i < self.batches@.len() - 1 ==> !((#[trigger] self.batches@[i]) is Construction)
        &&& if self.batches@.len() == 0 {
            self.batch_id == 0
        } else {
            self.batch_id == self.batches@.len() - 1
        }
    }

    /// The last batch is under construction.
    pub open spec fn open(&self) -> bool {
        &&& self.slots_wf()
        &&& self.batches@.len() > 0
        &&& self.batches@.last() is Construction
    }

    /// No batch is under construction.
    pub open spec fn sealed(&self) -> bool {
        &&& self.slots_wf()
        &&& self.batches@.len() > 0 ==> !(self.batches@.last() is Construction)
    }

    /// `after` differs from `self` at most in the batch at `at`.
    pub open spec fn same_but(&self, after: BatchManager, at: int) -> bool {
        &&& after.batch_id == self.batch_id
        &&& after.batches@.len() == self.batches@.len()
        &&& forall|i: int|
            0 <= i < self.batches@.len() && i != at ==> #[trigger] after.batches@[i]
                == self.batches@[i]
    }

    /// What a contribution to the batch at `batch_id` leads to. A batch that
    /// is not a proposal stays as it is. A proposal that has timed out is
    /// settled with what it has, and the contribution is dropped. Otherwise
    /// the contribution is recorded, also where the same client has
    /// contributed before.
    pub open spec fn contributed(
        &self,
        after: BatchManager,
        batch_id: usize,
        pos: usize,
        client_id: usize,
        sig: [u8; 96],
        pk: [u8; 48],
        timed_out: bool,
    ) -> bool {
        &&& self.same_but(after, batch_id as int)
        &&& match self.batches@[batch_id as int] {
            BatchType::Proposal(proposal) => if timed_out {
                &&& after.batches@[batch_id as int] is DistilledBatch
                &&& after.batches@[batch_id as int]->DistilledBatch_0.settles(
                    proposal.list_sigs@,
                    proposal.lists_pks@,
                    proposal.batch_id,
                )
            } else {
                &&& after.batches@[batch_id as int] is Proposal
                &&& proposal.recorded(
                    after.batches@[batch_id as int]->Proposal_0,
                    pos,
                    client_id,
                    sig,
                    pk,
                )
            },
            _ => after.batches@[batch_id as int] == self.batches@[batch_id as int],
        }
    }

    /// What an entry leads to, for a manager whose last batch is under
    /// construction. While that batch has room, the entry is appended to it.
    /// Once it holds `BATCH_SIZE` entries, the next entry seals it into a
    /// proposal over its payloads and goes, alone, into a batch that is
    /// opened behind it.
    pub open spec fn entered(
        &self,
        after: BatchManager,
        addr: sockaddr_in,
        client_id: u64,
        payload: Payload,
    ) -> bool {
        self.entered_with(after, addr, client_id, payload, false)
    }

    /// As `entered`, where a proposal that the entry seals has its start time
    /// exactly if `started` says so.
    pub open spec fn entered_with(
        &self,
        after: BatchManager,
        addr: sockaddr_in,
        client_id: u64,
        payload: Payload,
        started: bool,
    ) -> bool {
        let last = self.batches@.len() - 1;
        let wip = self.batches@[last]->Construction_0;
        &&& after.open()
        &&& if wip.size < BATCH_SIZE {
            &&& self.same_but(after, last)
            &&& wip.appended(after.batches@[last]->Construction_0, addr, client_id, payload)
        } else {
            let opened = after.batches@[last + 1]->Construction_0;
            &&& after.batches@.len() == last + 2
            &&& forall|i: int| 0 <= i < last ==> #[trigger] after.batches@[i] == self.batches@[i]
            &&& after.batches@[last] is Proposal
            &&& after.batches@[last]->Proposal_0.sealed_from(wip.payloads@, wip.batch_id)
            &&& after.batches@[last]->Proposal_0.start_time is Some <==> started
            &&& opened.addrs@ == seq![addr]
            &&& opened.clients_ids@ == seq![client_id]
            &&& opened.payloads@ == seq![payload]
            &&& opened.size == 1
        }
    }

    /// What a contribution leads to when the clock is read on the way: it
    /// is taken in or dropped as `contributed` says without a timeout, or, for
    /// a proposal that has started, as it says with one.
    pub open spec fn contributed_either(
        &self,
        after: BatchManager,
        batch_id: usize,
        pos: usize,
        client_id: usize,
        sig: [u8; 96],
        pk: [u8; 48],
    ) -> bool {
        ||| self.contributed(after, batch_id, pos, client_id, sig, pk, false)
        ||| {
            &&& self.batches@[batch_id as int] is Proposal
            &&& self.batches@[batch_id as int]->Proposal_0.start_time is Some
            &&& self.contributed(after, batch_id, pos, client_id, sig, pk, true)
        }
    }

    /// A manager without batches.
    pub fn new() -> (manager: Self)
        ensures
            manager.sealed(),
            manager.batches@.len() == 0,
            manager.batch_id == 0,
    {
        Self { batches: Vec::new(), batch_id: 0 }
    }

    /// Opens a new batch behind the sealed ones.
    pub fn add_batch(&mut self)
        requires
            old(self).sealed(),
        ensures
            final(self).open(),
            final(self).batches@.len() == old(self).batches@.len() + 1,
            forall|i: int|
                0 <= i < old(self).batches@.len() ==> #[trigger] final(self).batches@[i] == old(
                    self,
                ).batches@[i],
            final(self).batches@.last()->Construction_0.size == 0,
    {
        if self.batches.len() > 0 {
            self.increment_batch_id();
        }
        let wip = BatchConstruction::new(self.batch_id);
        self.batches.push(BatchType::Construction(wip));
    }

    /// Adds an entry to the batch under construction and gives the batch and
    /// the position that it went to. Where that batch is full, it is sealed
    /// first and a new one is opened for the entry; the addresses, the tree
    /// and the clients of the sealed batch are then handed back, for the
    /// inclusion proofs to be sent out.
    pub fn add_to_construction(&mut self, addr: sockaddr_in, client_id: u64, payload: Payload) -> (res:
        (usize, usize, Option<(Vec<sockaddr_in>, MerkleTree, Vec<u64>)>))
        requires
            old(self).open(),
        ensures
            old(self).entered(*final(self), addr, client_id, payload),
            ({
                let last = old(self).batches@.len() - 1;
                let wip = old(self).batches@[last]->Construction_0;
                if wip.size < BATCH_SIZE {
                    &&& res.0 == last
                    &&& res.1 == wip.size
                    &&& res.2 is None
                } else {
                    &&& res.0 == last + 1
                    &&& res.1 == 0
                    &&& res.2 is Some
                    &&& res.2->Some_0.0@ == wip.addrs@
                    &&& res.2->Some_0.1.wf()
                    &&& res.2->Some_0.1.levels() == final(self).batches@[last]->Proposal_0.merkle.levels()
                    &&& res.2->Some_0.2@ == wip.clients_ids@
                }
            }),
    {
        let mut idx_wip = self.batch_id;
        let mut tuple: Option<(Vec<sockaddr_in>, MerkleTree, Vec<u64>)> = None;
        let mut has_created = false;
        let full = match &self.batches[idx_wip] {
            BatchType::Construction(wip) => wip.get_size() >= BATCH_SIZE,
            _ => false,
        };
        if full {
            let (batch_id, vec_addrs, merkle, client_ids) = self.construction_to_proposal(idx_wip);
            tuple = Some((vec_addrs, merkle, client_ids));
            idx_wip = batch_id;
            has_created = true;
        }
        if has_created {
            self.add_batch();
        }
        let mut pos: usize = 0;
        match &mut self.batches[idx_wip] {
            BatchType::Construction(wip) => {
                pos = wip.add(addr, client_id, payload);
            },
            _ => {},
        }
        proof {
            if has_created {
                let opened = self.batches@[idx_wip as int]->Construction_0;
                assert(opened.addrs@ =~= seq![addr]);
                assert(opened.clients_ids@ =~= seq![client_id]);
                assert(opened.payloads@ =~= seq![payload]);
            }
        }
        (idx_wip, pos, tuple)
    }

    /// Seals the batch at `batch_id`, which is under construction, and hands
    /// back the identifier of the batch to open next, and the addresses, the
    /// tree and the clients of the sealed batch. Where there is no such
    /// batch, nothing changes and everything handed back is empty.
    pub fn construction_to_proposal(&mut self, batch_id: usize) -> (res: (
        usize,
        Vec<sockaddr_in>,
        MerkleTree,
        Vec<u64>,
    ))
        requires
            old(self).slots_wf(),
            batch_id < old(self).batches@.len() ==> old(self).batches@[batch_id as int]
                is Construction,
        ensures
            final(self).batch_id == old(self).batch_id,
            batch_id < old(self).batches@.len() ==> {
                let wip = old(self).batches@[batch_id as int]->Construction_0;
                &&& final(self).sealed()
                &&& old(self).same_but(*final(self), batch_id as int)
                &&& final(self).batches@[batch_id as int] is Proposal
                &&& final(self).batches@[batch_id as int]->Proposal_0.fresh_from(
                    wip.payloads@,
                    wip.batch_id,
                )
                &&& res.0 == wip.batch_id + 1
                &&& res.1@ == wip.addrs@
                &&& res.2.wf()
                &&& res.2.levels() == final(self).batches@[batch_id as int]->Proposal_0.merkle.levels()
                &&& res.3@ == wip.clients_ids@
            },
            batch_id >= old(self).batches@.len() ==> {
                &&& *final(self) == *old(self)
                &&& res.0 == 0
                &&& res.1@.len() == 0
                &&& res.2.wf()
                &&& res.2.base().len() == 0
                &&& res.3@.len() == 0
            },
    {
        if batch_id < self.batches.len() {
            let mut taken = BatchType::Construction(BatchConstruction::new(0));
            std::mem::swap(&mut self.batches[batch_id], &mut taken);
            match taken {
                BatchType::Construction(wip) => {
                    let BatchConstruction { batch_id: id, addrs, clients_ids, payloads, size: _ } =
                        wip;
                    let next = id + 1;
                    let proposal = BatchProposal::new(payloads, id);
                    let merkle = proposal.merkle.clone();
                    self.batches.set(batch_id, BatchType::Proposal(proposal));
                    (next, addrs, merkle, clients_ids)
                },
                other => {
                    self.batches.set(batch_id, other);
                    (0, Vec::new(), MerkleTree::new(&Vec::new()), Vec::new())
                },
            }
        } else {
            let tree = MerkleTree::new(&Vec::new());
            (0, Vec::new(), tree, Vec::new())
        }
    }

    /// Settles the proposal at `batch_id`.
    pub fn proposal_to_distilled(&mut self, batch_id: usize)
        requires
            old(self).slots_wf(),
            batch_id < old(self).batch_id,
            old(self).batches@[batch_id as int] is Proposal,
        ensures
            final(self).slots_wf(),
            old(self).same_but(*final(self), batch_id as int),
            final(self).batches@[batch_id as int] is DistilledBatch,
            final(self).batches@[batch_id as int]->DistilledBatch_0.settles(
                old(self).batches@[batch_id as int]->Proposal_0.list_sigs@,
                old(self).batches@[batch_id as int]->Proposal_0.lists_pks@,
                old(self).batches@[batch_id as int]->Proposal_0.batch_id,
            ),
    {
        if batch_id < self.batches.len() {
            let mut taken = BatchType::Construction(BatchConstruction::new(0));
            std::mem::swap(&mut self.batches[batch_id], &mut taken);
            match taken {
                BatchType::Proposal(proposal) => {
                    let distilled = proposal.to_distilled();
                    self.batches.set(batch_id, BatchType::DistilledBatch(distilled));
                },
                other => {
                    self.batches.set(batch_id, other);
                },
            }
        }
    }

    /// Takes in the signature of the client at `pos` of the batch at
    /// `batch_id`, unless the proposal has waited longer than its timeout:
    /// then it is settled instead. The clock is read here, so either can
    /// happen to a proposal that has started.
    pub fn add_to_proposal(
        &mut self,
        batch_id: usize,
        pos: usize,
        client_id: usize,
        sig: [u8; 96],
        pk: [u8; 48],
    )
        requires
            old(self).open(),
            batch_id < old(self).batches@.len(),
            old(self).batches@[batch_id as int] is Proposal ==> pos < old(
                self,
            ).batches@[batch_id as int]->Proposal_0.bitmap@.len(),
        ensures
            final(self).open(),
            old(self).contributed_either(*final(self), batch_id, pos, client_id, sig, pk),
    {
        let elapsed = match &self.batches[batch_id] {
            BatchType::Proposal(proposal) => match &proposal.start_time {
                Some(start) => nanos_since(start),
                None => None,
            },
            _ => None,
        };
        self.record_contribution(batch_id, pos, client_id, sig, pk, elapsed);
    }

    /// Takes in the signature of the client at `pos` of the batch at
    /// `batch_id`, given the nanoseconds since the proposal started as far as
    /// the clock can tell them. A proposal that has waited longer than its
    /// timeout is settled and the signature is dropped; a batch that is no
    /// proposal stays as it is.
    pub fn record_contribution(
        &mut self,
        batch_id: usize,
        pos: usize,
        client_id: usize,
        sig: [u8; 96],
        pk: [u8; 48],
        elapsed: Option<u128>,
    )
        requires
            old(self).open(),
            batch_id < old(self).batches@.len(),
            old(self).batches@[batch_id as int] is Proposal ==> pos < old(
                self,
            ).batches@[batch_id as int]->Proposal_0.bitmap@.len(),
        ensures
            final(self).open(),
            old(self).contributed(
                *final(self),
                batch_id,
                pos,
                client_id,
                sig,
                pk,
                old(self).batches@[batch_id as int] is Proposal && old(
                    self,
                ).batches@[batch_id as int]->Proposal_0.expired(elapsed),
            ),
    {
        let expired = match &self.batches[batch_id] {
            BatchType::Proposal(proposal) => match (&proposal.start_time, elapsed) {
                (Some(_), Some(nanos)) => nanos > (proposal.timeout_duration as u128) * 1_000_000,
                _ => false,
            },
            _ => false,
        };
        if expired {
            self.proposal_to_distilled(batch_id);
            return ;
        }
        match &mut self.batches[batch_id] {
            BatchType::Proposal(proposal) => {
                proposal.list_sigs.push(sig);
                proposal.lists_pks.push(pk);
                proposal.bitmap[pos] = true;
                proposal.pos_to_cliendid.push(client_id);
            },
            _ => {},
        }
    }

    /// Notes the time at which the proposal at `batch_id` starts to wait for
    /// signatures. A batch that is no proposal stays as it is.
    pub fn add_start_time(&mut self, batch_id: usize)
        requires
            batch_id < old(self).batches@.len(),
            old(self).batches@[batch_id as int] is Proposal ==> old(
                self,
            ).batches@[batch_id as int]->Proposal_0.start_time is None,
        ensures
            old(self).same_but(*final(self), batch_id as int),
            old(self).slots_wf() ==> final(self).slots_wf(),
            old(self).open() ==> final(self).open(),
            match old(self).batches@[batch_id as int] {
                BatchType::Proposal(proposal) => {
                    &&& final(self).batches@[batch_id as int] is Proposal
                    &&& final(self).batches@[batch_id as int]->Proposal_0.start_time is Some
                    &&& proposal.started(final(self).batches@[batch_id as int]->Proposal_0)
                },
                _ => final(self).batches@[batch_id as int] == old(self).batches@[batch_id as int],
            },
    {
        let now = clock_now();
        self.start_proposal_at(batch_id, now);
    }

    /// Notes `now` as the time at which the proposal at `batch_id` starts to
    /// wait for signatures. A batch that is no proposal stays as it is.
    pub fn start_proposal_at(&mut self, batch_id: usize, now: SystemTime)
        requires
            batch_id < old(self).batches@.len(),
            old(self).batches@[batch_id as int] is Proposal ==> old(
                self,
            ).batches@[batch_id as int]->Proposal_0.start_time is None,
        ensures
            old(self).same_but(*final(self), batch_id as int),
            old(self).slots_wf() ==> final(self).slots_wf(),
            old(self).open() ==> final(self).open(),
            match old(self).batches@[batch_id as int] {
                BatchType::Proposal(proposal) => {
                    &&& final(self).batches@[batch_id as int] is Proposal
                    &&& final(self).batches@[batch_id as int]->Proposal_0.start_time == Some(now)
                    &&& proposal.started(final(self).batches@[batch_id as int]->Proposal_0)
                },
                _ => final(self).batches@[batch_id as int] == old(self).batches@[batch_id as int],
            },
    {
        match &mut self.batches[batch_id] {
            BatchType::Proposal(proposal) => {
                proposal.start_time = Some(now);
            },
            _ => {},
        }
    }

    fn increment_batch_id(&mut self)
        requires
            old(self).batch_id < usize::MAX,
        ensures
            final(self).batch_id == old(self).batch_id + 1,
            final(self).batches == old(self).batches,
    {
        self.batch_id += 1;
    }
}

} // verus!
