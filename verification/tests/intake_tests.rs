use rainfall::batch::{BatchType, Payload};
use rainfall::bls::{DOMAIN_TAG, SETTLEMENT_ROOT};
use rainfall::clients::{ClientState, Handled};
use rainfall::intake::Intake;

fn address(port: u16) -> libc::sockaddr_in {
    libc::sockaddr_in {
        sin_family: libc::AF_INET as libc::sa_family_t,
        sin_port: port.to_be(),
        sin_addr: libc::in_addr { s_addr: 0 },
        sin_zero: [0; 8],
    }
}

#[test]
fn new_intake_has_one_open_batch() {
    let intake = Intake::new(10);
    assert_eq!(intake.batches().len(), 1);
    assert!(matches!(&intake.batches()[0], BatchType::Construction(wip) if wip.get_size() == 0));
    assert_eq!(intake.state_of(9), Some(ClientState::NotAssignedToBatch));
    assert_eq!(intake.state_of(10), None);
}

#[test]
fn payloads_are_taken_in_order() {
    let mut intake = Intake::new(10);
    let keys = vec![[0u8; 48]; 10];
    assert!(matches!(
        intake.handle(&keys, address(1), Payload::new(4, 0, vec![1])),
        Handled::Assigned(0, 0)
    ));
    assert!(matches!(
        intake.handle(&keys, address(2), Payload::new(6, 0, vec![2])),
        Handled::Assigned(0, 1)
    ));
    assert!(matches!(
        intake.handle(&keys, address(3), Payload::new(10, 0, vec![3])),
        Handled::Dropped
    ));
    assert_eq!(intake.state_of(4), Some(ClientState::AssignedToBatch(0, 0)));
    assert_eq!(intake.state_of(6), Some(ClientState::AssignedToBatch(0, 1)));
    assert!(matches!(&intake.batches()[0], BatchType::Construction(wip) if wip.get_size() == 2));
}

#[test]
fn only_a_proposal_can_be_settled() {
    let mut intake = Intake::new(4);
    intake.handle(&vec![], address(1), Payload::new(1, 0, vec![1]));
    assert!(!intake.settle(0));
    assert!(!intake.settle(1));
    assert!(matches!(&intake.batches()[0], BatchType::Construction(wip) if wip.get_size() == 1));
    assert_eq!(intake.invalid_signatures(0), None);
    assert_eq!(intake.invalid_signatures(5), None);
}

#[test]
fn sealed_batch_is_settled_and_checked() {
    let population = 65_540;
    let mut intake = Intake::new(population);
    let signers: Vec<blst::min_pk::SecretKey> = (0..3u8)
        .map(|i| blst::min_pk::SecretKey::key_gen(&[i + 1; 32], &[]).unwrap())
        .collect();
    let keys: Vec<[u8; 48]> = signers.iter().map(|sk| sk.sk_to_pk().to_bytes()).collect();
    for i in 0..=65_536u64 {
        intake.handle(&keys, address(0), Payload::new(i, 0, vec![]));
    }
    assert_eq!(intake.batches().len(), 2);
    assert!(matches!(&intake.batches()[0], BatchType::Proposal(p) if p.start_time.is_some()));

    for (i, sk) in signers.iter().enumerate() {
        let message: &[u8] = if i == 1 { b"wrong" } else { &SETTLEMENT_ROOT };
        let sig = sk.sign(message, &DOMAIN_TAG, &[]).to_bytes().to_vec();
        assert!(matches!(
            intake.handle(&keys, address(0), Payload::new(i as u64, 1, sig)),
            Handled::Contributed
        ));
    }
    assert_eq!(intake.invalid_signatures(0), None);
    assert!(intake.settle(0));
    assert!(!intake.settle(0));
    // Three leaves: the last stands in front of the pair of the first two.
    assert_eq!(intake.invalid_signatures(0), Some(vec![1]));

    let late = signers[2].sign(&SETTLEMENT_ROOT, &DOMAIN_TAG, &[]).to_bytes().to_vec();
    assert!(matches!(
        intake.handle(&keys, address(0), Payload::new(2, 2, late)),
        Handled::Contributed
    ));
    assert_eq!(intake.invalid_signatures(0), Some(vec![1]));
    assert!(matches!(&intake.batches()[0], BatchType::DistilledBatch(_)));
}
