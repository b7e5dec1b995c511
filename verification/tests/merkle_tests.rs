use rainfall::hash::hash_concat;
use rainfall::merkle::{
    byte_to_direction, directions_to_byte, verify_merkle_proof, Directions, MerklePath, MerkleTree,
};

fn hash_bytes(input: &[u8]) -> [u8; 32] {
    *blake3::hash(input).as_bytes()
}

fn joined(left: &[u8; 32], right: &[u8; 32]) -> [u8; 32] {
    let mut hasher = blake3::Hasher::new();
    hasher.update(left);
    hasher.update(right);
    *hasher.finalize().as_bytes()
}

#[test]
#[should_panic]
fn test_no_inclustion() {
    let deque: Vec<&[u8]> = vec![&[1, 2], &[3, 4], &[5, 6], &[7, 8], "hello".as_bytes()];
    let tree: MerkleTree = MerkleTree::new(&deque);
    let _path3 = tree.find_merkle_path(5).unwrap();
}

#[test]
fn test_build_merkle_odd_with_leftover() {
    let vec: Vec<&[u8]> = vec![&[1, 2], &[3, 4], &[5, 6]];
    let mut hasher = blake3::Hasher::new();

    let leaf1: &[u8] = &[1, 2];
    let leaf2: &[u8] = &[3, 4];
    let leaf3: &[u8] = &[5, 6];

    let leaf1_hashed = blake3::hash(leaf1);
    let leaf2_hashed = blake3::hash(leaf2);
    let leaf3_hashed = blake3::hash(leaf3);

    hasher.update(leaf1_hashed.as_bytes());
    hasher.update(leaf2_hashed.as_bytes());
    let parent12 = hasher.finalize();
    hasher.reset();

    hasher.update(parent12.as_bytes());
    hasher.update(leaf3_hashed.as_bytes());
    let root = hasher.finalize();

    let tree = MerkleTree::new(&vec);

    assert_eq!(root, blake3::Hash::from(tree.get_root_hash()));
}

#[test]
fn leaves_are_hashed_with_blake3() {
    let leaves: Vec<&[u8]> = vec![b"abc"];
    let tree = MerkleTree::new(&leaves);
    let digest = tree.get_root_hash();
    assert_eq!(&digest, blake3::hash(b"abc").as_bytes());
    assert_eq!(digest[..4], [0x64, 0x37, 0xb3, 0xac]);
    assert_eq!(digest[28..], [0xd5, 0xbd, 0x9d, 0x85]);
}

#[test]
fn hash_concat_hashes_left_then_right() {
    let left = hash_bytes(b"left");
    let right = hash_bytes(b"right");
    assert_eq!(hash_concat(left, right), joined(&left, &right));
    assert_ne!(hash_concat(left, right), hash_concat(right, left));
}

#[test]
fn levels_halve_up_to_the_root() {
    let leaves: Vec<&[u8]> = vec![b"a", b"b", b"c", b"d", b"e"];
    let tree = MerkleTree::new(&leaves);
    let sizes: Vec<usize> = tree.tree.iter().map(|level| level.len()).collect();
    assert_eq!(sizes, vec![5, 3, 2, 1]);
    assert_eq!(tree.tree[0][4], hash_bytes(b"e"));
    assert_eq!(tree.tree[1][2], hash_bytes(b"e"));
    assert_eq!(tree.tree[2][1], hash_bytes(b"e"));
    assert_eq!(tree.tree[1][0], joined(&hash_bytes(b"a"), &hash_bytes(b"b")));
}

#[test]
fn tree_over_nothing_is_one_empty_level() {
    let leaves: Vec<&[u8]> = vec![];
    let tree = MerkleTree::new(&leaves);
    assert_eq!(tree.tree.len(), 1);
    assert!(tree.tree[0].is_empty());
    assert!(tree.find_merkle_path(0).is_err());
}

#[test]
fn tree_over_one_leaf_has_the_leaf_as_root() {
    let leaves: Vec<&[u8]> = vec![b"only"];
    let tree = MerkleTree::new(&leaves);
    assert_eq!(tree.get_root_hash(), hash_bytes(b"only"));
    let path = tree.find_merkle_path(0).unwrap();
    assert!(path.path.is_empty());
    assert_eq!(verify_merkle_proof(path, b"only"), tree.get_root_hash());
}

#[test]
fn path_records_sibling_and_side() {
    let leaves: Vec<&[u8]> = vec![b"a", b"b", b"c", b"d"];
    let tree = MerkleTree::new(&leaves);
    let ab = joined(&hash_bytes(b"a"), &hash_bytes(b"b"));
    let cd = joined(&hash_bytes(b"c"), &hash_bytes(b"d"));

    let first = tree.find_merkle_path(0).unwrap();
    assert_eq!(first.path, vec![(hash_bytes(b"b"), Directions::Left), (cd, Directions::Left)]);

    let fourth = tree.find_merkle_path(3).unwrap();
    assert_eq!(fourth.path, vec![(hash_bytes(b"c"), Directions::Right), (ab, Directions::Right)]);
}

#[test]
fn unpaired_leaf_skips_the_level_it_is_carried_over() {
    let leaves: Vec<&[u8]> = vec![&[1, 2], &[3, 4], &[5, 6]];
    let tree = MerkleTree::new(&leaves);
    let parent12 = joined(&hash_bytes(&[1, 2]), &hash_bytes(&[3, 4]));
    let path = tree.find_merkle_path(2).unwrap();
    assert_eq!(path.path, vec![(parent12, Directions::Right)]);
    assert_eq!(verify_merkle_proof(path, &[5, 6]), tree.get_root_hash());
}

#[test]
fn every_leaf_verifies_for_every_size() {
    for n in 1usize..=33 {
        let owned: Vec<Vec<u8>> = (0..n).map(|i| vec![i as u8, (i * 7) as u8, 42]).collect();
        let leaves: Vec<&[u8]> = owned.iter().map(|leaf| &leaf[..]).collect();
        let tree = MerkleTree::new(&leaves);
        let root = tree.get_root_hash();
        for (i, leaf) in leaves.iter().enumerate() {
            let path = tree.find_merkle_path(i).unwrap();
            assert_eq!(verify_merkle_proof(path, leaf), root, "leaf {} of {}", i, n);
        }
        assert!(tree.find_merkle_path(n).is_err());
        assert!(tree.find_merkle_path(n + 1).is_err());
    }
}

#[test]
fn wrong_leaf_does_not_give_the_root() {
    let leaves: Vec<&[u8]> = vec![b"a", b"b", b"c", b"d"];
    let tree = MerkleTree::new(&leaves);
    let path = tree.find_merkle_path(1).unwrap();
    assert_ne!(verify_merkle_proof(path, b"x"), tree.get_root_hash());
}

#[test]
fn verify_joins_on_the_recorded_side() {
    let leaf = hash_bytes(b"leaf");
    let sibling = hash_bytes(b"sibling");
    let left = MerklePath::new(vec![(sibling, Directions::Left)]);
    assert_eq!(verify_merkle_proof(left, b"leaf"), joined(&leaf, &sibling));
    let right = MerklePath::new(vec![(sibling, Directions::Right)]);
    assert_eq!(verify_merkle_proof(right, b"leaf"), joined(&sibling, &leaf));
}

#[test]
fn direction_bits() {
    assert_eq!(Directions::Left.to_bit(), 0);
    assert_eq!(Directions::Right.to_bit(), 1);
    assert_eq!(Directions::from_bit(0).unwrap(), Directions::Left);
    assert_eq!(Directions::from_bit(1).unwrap(), Directions::Right);
    assert!(Directions::from_bit(2).is_err());
    assert!(Directions::from_bit(255).is_err());
}

#[test]
fn directions_pack_lowest_bit_first() {
    let l = Directions::Left;
    let r = Directions::Right;
    assert_eq!(directions_to_byte(vec![&r, &l, &l, &l, &l, &l, &l, &l]), 1);
    assert_eq!(directions_to_byte(vec![&l, &r, &l, &l, &l, &l, &l, &r]), 0b1000_0010);
    assert_eq!(directions_to_byte(vec![&r, &r, &r, &r, &r, &r, &r, &r]), 255);
    assert_eq!(directions_to_byte(vec![&l, &l, &r]), 4);
    assert_eq!(directions_to_byte(vec![]), 0);
}

#[test]
fn byte_unpacks_to_eight_directions() {
    let l = Directions::Left;
    let r = Directions::Right;
    assert_eq!(byte_to_direction(0), vec![l; 8]);
    assert_eq!(byte_to_direction(0b1000_0010), vec![l, r, l, l, l, l, l, r]);
    assert_eq!(byte_to_direction(255), vec![r; 8]);
}

fn sample_path(len: usize) -> MerklePath {
    let steps = (0..len)
        .map(|i| {
            let digest = hash_bytes(&[i as u8]);
            let side = if i % 3 == 0 { Directions::Right } else { Directions::Left };
            (digest, side)
        })
        .collect();
    MerklePath::new(steps)
}

#[test]
fn path_wire_layout() {
    let h1 = hash_bytes(b"one");
    let h2 = hash_bytes(b"two");
    let path = MerklePath::new(vec![(h1, Directions::Left), (h2, Directions::Right)]);
    let mut buf = [0xEEu8; 80];
    path.to_bytes(&mut buf, 0x0102_0304_0506_0708);
    assert_eq!(buf[0], 2);
    assert_eq!(buf[1], 0b10);
    assert_eq!(buf[2], 0);
    assert_eq!(&buf[3..35], &h1);
    assert_eq!(&buf[35..67], &h2);
    assert_eq!(&buf[67..75], &[1, 2, 3, 4, 5, 6, 7, 8]);
    assert_eq!(&buf[75..], &[0xEE; 5]);
    assert_eq!(path.encode(0x0102_0304_0506_0708), buf[..75].to_vec());
}

#[test]
fn path_round_trips_for_every_length() {
    for len in 0usize..=16 {
        let path = sample_path(len);
        let client_id = 0xDEAD_BEEF_0000_0000u64 + len as u64;
        let mut buf = vec![0u8; 3 + 32 * len + 8];
        path.to_bytes(&mut buf, client_id);
        let (decoded, id) = MerklePath::from_bytes(&buf).unwrap();
        assert_eq!(decoded.path, path.path);
        assert_eq!(id, client_id);
    }
}

#[test]
fn sixteen_directions_use_both_bytes() {
    let steps = (0..16).map(|i| (hash_bytes(&[i]), if i >= 8 { Directions::Right } else { Directions::Left })).collect();
    let path = MerklePath::new(steps);
    let mut buf = [0u8; 523];
    path.to_bytes(&mut buf, u64::MAX);
    assert_eq!(buf[0], 16);
    assert_eq!(buf[1], 0);
    assert_eq!(buf[2], 255);
    assert_eq!(&buf[515..523], &[255; 8]);
    let (decoded, id) = MerklePath::from_bytes(&buf).unwrap();
    assert_eq!(decoded.path, path.path);
    assert_eq!(id, u64::MAX);
}

#[test]
fn malformed_path_buffers_are_refused() {
    assert!(MerklePath::from_bytes(&[]).is_err());
    assert!(MerklePath::from_bytes(&[0, 0, 0]).is_err());
    assert!(MerklePath::from_bytes(&[0; 10]).is_err());
    assert!(MerklePath::from_bytes(&[0; 11]).is_ok());
    let mut too_long = vec![0u8; 3 + 32 * 17 + 8];
    too_long[0] = 17;
    assert!(MerklePath::from_bytes(&too_long).is_err());
    let mut short = vec![0u8; 3 + 32 * 2 + 7];
    short[0] = 2;
    assert!(MerklePath::from_bytes(&short).is_err());
    short.push(0);
    assert!(MerklePath::from_bytes(&short).is_ok());
}
