use std::time::{Duration, SystemTime};

use rainfall::batch::{
    BatchConstruction, BatchManager, BatchProposal, BatchType, DistilledBatch, Payload,
    BATCH_SIZE, TIMEOUT_DURATION_BATCH,
};
use rainfall::bls::{DOMAIN_TAG, SETTLEMENT_ROOT};
use rainfall::merkle::verify_merkle_proof;

fn hash_bytes(input: &[u8]) -> [u8; 32] {
    *blake3::hash(input).as_bytes()
}

fn address(port: u16) -> libc::sockaddr_in {
    libc::sockaddr_in {
        sin_family: libc::AF_INET as libc::sa_family_t,
        sin_port: port.to_be(),
        sin_addr: libc::in_addr { s_addr: u32::from_be_bytes([127, 0, 0, 1]).to_be() },
        sin_zero: [0; 8],
    }
}

fn payload(i: u64) -> Payload {
    Payload::new(i, i + 100, vec![(i % 251) as u8, 1, 2])
}

fn signature(i: usize, valid: bool) -> ([u8; 96], [u8; 48]) {
    let mut ikm = [7u8; 32];
    ikm[..8].copy_from_slice(&(i as u64).to_be_bytes());
    let sk = blst::min_pk::SecretKey::key_gen(&ikm, &[]).unwrap();
    let message: &[u8] = if valid { &SETTLEMENT_ROOT } else { b"something else" };
    (sk.sign(message, &DOMAIN_TAG, &[]).to_bytes(), sk.sk_to_pk().to_bytes())
}

/// A manager with one sealed batch of `n` payloads at place 0 and an open
/// batch at place 1.
fn manager_with_proposal(n: u64) -> BatchManager {
    let mut manager = BatchManager::new();
    manager.add_batch();
    for i in 0..n {
        manager.add_to_construction(address(i as u16), i, payload(i));
    }
    manager.construction_to_proposal(0);
    manager.add_batch();
    manager
}

#[test]
fn constants() {
    assert_eq!(BATCH_SIZE, 1 << 16);
    assert_eq!(TIMEOUT_DURATION_BATCH, 500);
}

#[test]
fn construction_appends_in_order() {
    let mut wip = BatchConstruction::new(4);
    assert_eq!(wip.get_batch_id(), 4);
    assert_eq!(wip.get_size(), 0);
    assert_eq!(wip.add(address(1), 10, payload(10)), 0);
    assert_eq!(wip.add(address(2), 20, payload(20)), 1);
    assert_eq!(wip.get_size(), 2);
    assert_eq!(wip.clients_ids, vec![10, 20]);
    assert_eq!(wip.payloads, vec![payload(10), payload(20)]);
    assert_eq!(wip.addrs[1].sin_port, 2u16.to_be());
}

#[test]
fn proposal_is_built_over_the_wire_forms() {
    let payloads = vec![payload(1), payload(2), payload(3)];
    let proposal = BatchProposal::new(payloads.clone(), 9);
    assert_eq!(proposal.batch_id, 9);
    assert_eq!(proposal.bitmap, vec![false, false, false]);
    assert!(proposal.list_sigs.is_empty());
    assert!(proposal.lists_pks.is_empty());
    assert!(proposal.pos_to_cliendid.is_empty());
    assert!(proposal.start_time.is_none());
    assert_eq!(proposal.timeout_duration, 500);
    assert!(!proposal.has_timeout);
    assert_eq!(proposal.merkle.tree[0][1], hash_bytes(&payloads[1].to_bytes()));
    let path = proposal.merkle.find_merkle_path(2).unwrap();
    assert_eq!(
        verify_merkle_proof(path, &payloads[2].to_bytes()),
        proposal.merkle.get_root_hash()
    );
}

#[test]
fn to_proposal_keeps_the_identifier() {
    let mut wip = BatchConstruction::new(3);
    wip.add(address(1), 1, payload(1));
    let proposal = wip.to_proposal();
    assert_eq!(proposal.batch_id, 3);
    assert_eq!(proposal.bitmap, vec![false]);
}

#[test]
fn distilled_batch_over_nothing_has_no_root() {
    let distilled = DistilledBatch::new(vec![], vec![], 5);
    assert_eq!(distilled.batch_id, 5);
    assert!(distilled.sigtree.root.is_none());
    assert_eq!(distilled.sigtree.check(), Vec::<usize>::new());
}

#[test]
fn fresh_manager_opens_batch_zero() {
    let mut manager = BatchManager::new();
    assert!(manager.batches.is_empty());
    assert_eq!(manager.batch_id, 0);
    manager.add_batch();
    assert_eq!(manager.batches.len(), 1);
    assert_eq!(manager.batch_id, 0);
    assert!(matches!(&manager.batches[0], BatchType::Construction(wip) if wip.get_size() == 0));
}

#[test]
fn entries_go_to_the_open_batch() {
    let mut manager = BatchManager::new();
    manager.add_batch();
    let (batch, pos, sealed) = manager.add_to_construction(address(1), 11, payload(11));
    assert_eq!((batch, pos), (0, 0));
    assert!(sealed.is_none());
    let (batch, pos, sealed) = manager.add_to_construction(address(2), 22, payload(22));
    assert_eq!((batch, pos), (0, 1));
    assert!(sealed.is_none());
    assert_eq!(manager.batches.len(), 1);
}

#[test]
fn full_batch_is_sealed_by_the_next_entry() {
    let mut manager = BatchManager::new();
    manager.add_batch();
    for i in 0..BATCH_SIZE as u64 {
        let (batch, pos, sealed) = manager.add_to_construction(address(i as u16), i, payload(i));
        assert_eq!(batch, 0);
        assert_eq!(pos, i as usize);
        assert!(sealed.is_none());
    }
    assert_eq!(manager.batches.len(), 1);
    assert!(
        matches!(&manager.batches[0], BatchType::Construction(wip) if wip.get_size() == BATCH_SIZE)
    );

    let extra = BATCH_SIZE as u64;
    let (batch, pos, sealed) = manager.add_to_construction(address(9), extra, payload(extra));
    assert_eq!((batch, pos), (1, 0));
    let (addrs, tree, clients) = sealed.unwrap();
    assert_eq!(addrs.len(), BATCH_SIZE);
    assert_eq!(addrs[5].sin_port, 5u16.to_be());
    assert_eq!(clients, (0..BATCH_SIZE as u64).collect::<Vec<u64>>());
    assert_eq!(tree.tree.len(), 17);
    assert_eq!(tree.tree[0].len(), BATCH_SIZE);

    assert_eq!(manager.batches.len(), 2);
    assert_eq!(manager.batch_id, 1);
    match &manager.batches[0] {
        BatchType::Proposal(proposal) => {
            assert_eq!(proposal.batch_id, 0);
            assert_eq!(proposal.bitmap.len(), BATCH_SIZE);
            assert_eq!(proposal.merkle.get_root_hash(), tree.get_root_hash());
            let path = tree.find_merkle_path(40_000).unwrap();
            assert_eq!(path.path.len(), 16);
            assert_eq!(
                verify_merkle_proof(path, &payload(40_000).to_bytes()),
                tree.get_root_hash()
            );
        }
        other => panic!("batch 0 is {:?}", matches!(other, BatchType::Construction(_))),
    }
    match &manager.batches[1] {
        BatchType::Construction(wip) => {
            assert_eq!(wip.get_batch_id(), 1);
            assert_eq!(wip.get_size(), 1);
            assert_eq!(wip.payloads, vec![payload(extra)]);
            assert_eq!(wip.clients_ids, vec![extra]);
        }
        _ => panic!("batch 1 is not under construction"),
    }
}

#[test]
fn sealing_hands_back_the_batch() {
    let mut manager = BatchManager::new();
    manager.add_batch();
    manager.add_to_construction(address(1), 11, payload(11));
    manager.add_to_construction(address(2), 22, payload(22));
    let (next, addrs, tree, clients) = manager.construction_to_proposal(0);
    assert_eq!(next, 1);
    assert_eq!(addrs.len(), 2);
    assert_eq!(clients, vec![11, 22]);
    assert_eq!(tree.tree[0], vec![hash_bytes(&payload(11).to_bytes()), hash_bytes(&payload(22).to_bytes())]);
    assert!(matches!(&manager.batches[0], BatchType::Proposal(_)));
    assert_eq!(manager.batch_id, 0);
}

#[test]
fn sealing_a_missing_batch_changes_nothing() {
    let mut manager = BatchManager::new();
    manager.add_batch();
    let (next, addrs, tree, clients) = manager.construction_to_proposal(3);
    assert_eq!(next, 0);
    assert!(addrs.is_empty());
    assert!(clients.is_empty());
    assert_eq!(tree.tree.len(), 1);
    assert!(tree.tree[0].is_empty());
    assert_eq!(manager.batches.len(), 1);
    assert!(matches!(&manager.batches[0], BatchType::Construction(_)));
}

#[test]
fn contribution_is_recorded() {
    let mut manager = manager_with_proposal(4);
    let (sig, pk) = signature(2, true);
    manager.add_to_proposal(0, 2, 77, sig, pk);
    match &manager.batches[0] {
        BatchType::Proposal(proposal) => {
            assert_eq!(proposal.bitmap, vec![false, false, true, false]);
            assert_eq!(proposal.list_sigs, vec![sig]);
            assert_eq!(proposal.lists_pks, vec![pk]);
            assert_eq!(proposal.pos_to_cliendid, vec![77]);
        }
        _ => panic!("batch 0 is no proposal"),
    }
}

#[test]
fn second_contribution_of_a_client_is_recorded_again() {
    let mut manager = manager_with_proposal(4);
    let (sig, pk) = signature(1, true);
    manager.record_contribution(0, 1, 5, sig, pk, None);
    manager.record_contribution(0, 1, 5, sig, pk, None);
    match &manager.batches[0] {
        BatchType::Proposal(proposal) => {
            assert_eq!(proposal.bitmap, vec![false, true, false, false]);
            assert_eq!(proposal.list_sigs, vec![sig, sig]);
            assert_eq!(proposal.lists_pks, vec![pk, pk]);
            assert_eq!(proposal.pos_to_cliendid, vec![5, 5]);
        }
        _ => panic!("batch 0 is no proposal"),
    }
}

#[test]
fn contribution_to_the_open_batch_is_dropped() {
    let mut manager = manager_with_proposal(2);
    manager.add_to_construction(address(1), 1, payload(1));
    let (sig, pk) = signature(0, true);
    manager.add_to_proposal(1, 0, 1, sig, pk);
    assert!(matches!(&manager.batches[1], BatchType::Construction(wip) if wip.get_size() == 1));
    assert!(matches!(&manager.batches[0], BatchType::Proposal(p) if p.list_sigs.is_empty()));
}

#[test]
fn timeout_is_strictly_more_than_the_duration() {
    let (sig, pk) = signature(0, true);
    let start = SystemTime::now();

    let mut manager = manager_with_proposal(2);
    manager.start_proposal_at(0, start);
    manager.record_contribution(0, 0, 1, sig, pk, Some(500_000_000));
    assert!(matches!(&manager.batches[0], BatchType::Proposal(p) if p.list_sigs.len() == 1));
    manager.record_contribution(0, 1, 2, sig, pk, Some(500_000_001));
    match &manager.batches[0] {
        BatchType::DistilledBatch(distilled) => {
            assert_eq!(distilled.batch_id, 0);
            assert_eq!(distilled.sigtree.check(), Vec::<usize>::new());
            assert!(distilled.sigtree.root.as_ref().unwrap().index == Some(0));
        }
        _ => panic!("batch 0 is not settled"),
    }
}

#[test]
fn proposal_that_has_not_started_does_not_time_out() {
    let (sig, pk) = signature(0, true);
    let mut manager = manager_with_proposal(2);
    manager.record_contribution(0, 0, 1, sig, pk, Some(u128::MAX));
    assert!(matches!(&manager.batches[0], BatchType::Proposal(p) if p.list_sigs.len() == 1));
}

#[test]
fn unknown_elapsed_time_does_not_time_out() {
    let (sig, pk) = signature(0, true);
    let mut manager = manager_with_proposal(2);
    manager.start_proposal_at(0, SystemTime::now());
    manager.record_contribution(0, 0, 1, sig, pk, None);
    assert!(matches!(&manager.batches[0], BatchType::Proposal(p) if p.list_sigs.len() == 1));
}

#[test]
fn proposal_without_contributions_times_out_to_an_empty_tree() {
    let (sig, pk) = signature(0, true);
    let mut manager = manager_with_proposal(3);
    manager.start_proposal_at(0, SystemTime::now() - Duration::from_secs(2));
    manager.add_to_proposal(0, 0, 1, sig, pk);
    match &manager.batches[0] {
        BatchType::DistilledBatch(distilled) => {
            assert!(distilled.sigtree.root.is_none());
            assert_eq!(distilled.sigtree.check(), Vec::<usize>::new());
        }
        _ => panic!("batch 0 is not settled"),
    }
}

#[test]
fn contribution_in_time_is_taken_in() {
    let (sig, pk) = signature(0, true);
    let mut manager = manager_with_proposal(3);
    manager.add_start_time(0);
    manager.add_to_proposal(0, 0, 1, sig, pk);
    assert!(matches!(&manager.batches[0], BatchType::Proposal(p) if p.list_sigs.len() == 1));
}

#[test]
fn settled_batch_ignores_contributions() {
    let (sig, pk) = signature(0, true);
    let mut manager = manager_with_proposal(3);
    manager.record_contribution(0, 0, 1, sig, pk, None);
    manager.proposal_to_distilled(0);
    let before = match &manager.batches[0] {
        BatchType::DistilledBatch(distilled) => distilled.sigtree.root.as_ref().unwrap().tuple,
        _ => panic!("batch 0 is not settled"),
    };
    let (late_sig, late_pk) = signature(1, true);
    manager.add_to_proposal(0, 1, 2, late_sig, late_pk);
    manager.record_contribution(0, 2, 3, late_sig, late_pk, Some(1));
    match &manager.batches[0] {
        BatchType::DistilledBatch(distilled) => {
            let root = distilled.sigtree.root.as_ref().unwrap();
            assert_eq!(root.tuple, before);
            assert_eq!(root.index, Some(0));
            assert_eq!(distilled.sigtree.check(), Vec::<usize>::new());
        }
        _ => panic!("batch 0 was brought back"),
    }
    assert_eq!(manager.batches.len(), 2);
}

#[test]
fn settlement_finds_the_invalid_contributions() {
    let mut manager = manager_with_proposal(4);
    for i in 0..4usize {
        let (sig, pk) = signature(i, i != 2);
        manager.add_to_proposal(0, i, i, sig, pk);
    }
    manager.proposal_to_distilled(0);
    match &manager.batches[0] {
        BatchType::DistilledBatch(distilled) => assert_eq!(distilled.sigtree.check(), vec![2]),
        _ => panic!("batch 0 is not settled"),
    }
}

#[test]
fn start_time_is_noted_once() {
    let mut manager = manager_with_proposal(2);
    manager.add_start_time(0);
    assert!(matches!(&manager.batches[0], BatchType::Proposal(p) if p.start_time.is_some()));
    manager.add_start_time(1);
    assert!(matches!(&manager.batches[1], BatchType::Construction(_)));

    let mut other = manager_with_proposal(2);
    let at = SystemTime::UNIX_EPOCH + Duration::from_secs(1_000);
    other.start_proposal_at(0, at);
    assert!(matches!(&other.batches[0], BatchType::Proposal(p) if p.start_time == Some(at)));
}
