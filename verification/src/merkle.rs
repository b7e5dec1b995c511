//! Binary hash trees over a batch's payloads, and the inclusion proofs read
//! off them.

use vstd::prelude::*;
use crate::hash::{blake3_digest, blake3_hash, digest_pair, hash_concat};
use crate::wire::{be_bytes, be_value, u64_from_be, u64_to_be};

verus! {

/// Side on which a sibling is joined to the running hash when a root is
/// recomputed: with `Left` the running hash stands first and the sibling is
/// appended to it, with `Right` the sibling stands first.
#[derive(Debug, Clone, Copy, PartialEq, Eq, Structural)]
pub enum Directions {
    Right,
    Left,
}

/// A bit that is neither 0 nor 1.
#[derive(Debug)]
pub struct NotADirection;

impl Directions {
    /// The bit that stands for the direction on the wire.
    pub open spec fn bit(self) -> u8 {
        match self {
            Directions::Left => 0,
            Directions::Right => 1,
        }
    }

    /// The bit of the direction: 0 for `Left`, 1 for `Right`.
    pub fn to_bit(&self) -> (bit: u8)
        ensures
            bit == self.bit(),
    {
        match self {
            Directions::Left => 0,
            Directions::Right => 1,
        }
    }

    /// The direction of a bit, or an error for a number that is no bit.
    pub fn from_bit(bit: u8) -> (res: Result<Self, NotADirection>)
        ensures
            bit <= 1 <==> res is Ok,
            res is Ok ==> res->Ok_0.bit() == bit,
    {
        match bit {
            0 => Ok(Directions::Left),
            1 => Ok(Directions::Right),
            _ => Err(NotADirection),
        }
    }
}

/// The byte strings that a list of slices holds.
pub open spec fn byte_strings(leaves: Seq<&[u8]>) -> Seq<Seq<u8>> {
    Seq::new(leaves.len(), |i: int| leaves[i]@)
}

/// The digests of a list of byte strings, in order.
pub open spec fn leaf_digests(leaves: Seq<Seq<u8>>) -> Seq<Seq<u8>> {
    Seq::new(leaves.len(), |i: int| blake3_digest(leaves[i]))
}

/// The level above `level`: adjacent entries are hashed together, and an
/// unpaired last entry is carried up unchanged.
pub open spec fn parent_level(level: Seq<Seq<u8>>) -> Seq<Seq<u8>> {
    Seq::new(
        ((level.len() + 1) / 2) as nat,
        |i: int|
            if 2 * i + 1 < level.len() {
                digest_pair(level[2 * i], level[2 * i + 1])
            } else {
                level[2 * i]
            },
    )
}

/// All levels of the tree over `base`, from `base` itself up to the level that
/// holds the root alone. Over no entries at all it is the one empty level.
pub open spec fn tree_levels(base: Seq<Seq<u8>>) -> Seq<Seq<Seq<u8>>>
    decreases base.len(),
{
    if base.len() <= 1 {
        seq![base]
    } else {
        seq![base] + tree_levels(parent_level(base))
    }
}

/// The root of the tree over a non-empty `base`.
pub open spec fn root_of(base: Seq<Seq<u8>>) -> Seq<u8>
    decreases base.len(),
{
    if base.len() <= 1 {
        base[0]
    } else {
        root_of(parent_level(base))
    }
}

/// The digests that a level of the stored tree holds.
pub open spec fn digests_view(level: Seq<[u8; 32]>) -> Seq<Seq<u8>> {
    Seq::new(level.len(), |i: int| level[i]@)
}

/// One step of an inclusion proof: a sibling digest and the side it is joined
/// on.
pub type Step = (Seq<u8>, Directions);

/// The running hash after one step of a proof.
pub open spec fn join_step(step: Step, running: Seq<u8>) -> Seq<u8> {
    match step.1 {
        Directions::Right => digest_pair(step.0, running),
        Directions::Left => digest_pair(running, step.0),
    }
}

/// The hash reached from `running` by taking the steps of `path` in order.
pub open spec fn fold_path(path: Seq<Step>, running: Seq<u8>) -> Seq<u8>
    decreases path.len(),
{
    if path.len() == 0 {
        running
    } else {
        fold_path(path.drop_first(), join_step(path[0], running))
    }
}

/// The inclusion proof of entry `index` of `base`: level by level, the sibling
/// of the node on the way to the root, with `Left` where that node is the left
/// child and `Right` where it is the right child. A level at which the node is
/// the unpaired last entry gives no step, as the node is carried up unchanged.
pub open spec fn path_of(base: Seq<Seq<u8>>, index: int) -> Seq<Step>
    decreases base.len(),
{
    if base.len() <= 1 {
        Seq::empty()
    } else if index % 2 != 0 {
        seq![(base[index - 1], Directions::Right)] + path_of(parent_level(base), index / 2)
    } else if index + 1 < base.len() {
        seq![(base[index + 1], Directions::Left)] + path_of(parent_level(base), index / 2)
    } else {
        path_of(parent_level(base), index / 2)
    }
}

/// The steps that a stored path holds.
pub open spec fn steps_view(path: Seq<([u8; 32], Directions)>) -> Seq<Step> {
    Seq::new(path.len(), |i: int| (path[i].0@, path[i].1))
}

/// Folding an entry of `base` along its inclusion proof gives the root of the
/// tree over `base`.
pub proof fn lemma_path_recomputes_root(base: Seq<Seq<u8>>, index: int)
    requires
        0 <= index < base.len(),
    ensures
        fold_path(path_of(base, index), base[index]) == root_of(base),
    decreases base.len(),
{
    if base.len() > 1 {
        let up = parent_level(base);
        let rest = path_of(up, index / 2);
        lemma_path_recomputes_root(up, index / 2);
        if index % 2 != 0 {
            let step = (base[index - 1], Directions::Right);
            assert((seq![step] + rest).drop_first() =~= rest);
        } else if index + 1 < base.len() {
            let step = (base[index + 1], Directions::Left);
            assert((seq![step] + rest).drop_first() =~= rest);
        }
    }
}

/// For every list of leaves and every position in it, folding the digest of
/// the leaf along the inclusion proof of its position gives the root of the
/// tree over the leaves.
pub proof fn lemma_inclusion_proof_verifies(leaves: Seq<Seq<u8>>, index: int)
    requires
        0 <= index < leaves.len(),
    ensures
        fold_path(path_of(leaf_digests(leaves), index), blake3_digest(leaves[index])) == root_of(
            leaf_digests(leaves),
        ),
{
    lemma_path_recomputes_root(leaf_digests(leaves), index);
}

/// A tree has at least one level, and its first level is its base.
pub proof fn lemma_levels_nonempty(base: Seq<Seq<u8>>)
    ensures
        tree_levels(base).len() >= 1,
        tree_levels(base)[0] == base,
{
}

/// Two to the power of `k`.
pub open spec fn pow2(k: nat) -> nat
    decreases k,
{
    if k == 0 {
        1
    } else {
        2 * pow2((k - 1) as nat)
    }
}

/// The number of levels above a base of `n` entries: the least `h` with
/// `n <= 2^h`.
pub open spec fn height(n: nat) -> nat
    decreases n,
{
    if n <= 1 {
        0
    } else {
        1 + height((n + 1) / 2)
    }
}

/// The height is the logarithm to base two, rounded up.
pub proof fn lemma_height_is_log2(n: nat)
    requires
        n >= 1,
    ensures
        n <= pow2(height(n)),
        height(n) > 0 ==> pow2((height(n) - 1) as nat) < n,
    decreases n,
{
    if n > 1 {
        let half = (n + 1) / 2;
        lemma_height_is_log2(half);
    }
}

/// A tree has its base and the levels above it, each half as long as the one
/// below, rounded up.
pub proof fn lemma_levels_count(base: Seq<Seq<u8>>)
    ensures
        tree_levels(base).len() == height(base.len()) + 1,
        tree_levels(base)[0] == base,
        forall|i: int|
            0 < i < tree_levels(base).len() ==> (#[trigger] tree_levels(base)[i]).len() == (
            tree_levels(base)[i - 1].len() + 1) / 2,
    decreases base.len(),
{
    if base.len() > 1 {
        lemma_levels_count(parent_level(base));
    }
}

/// A tree over at most `2^k` entries has at most `k` levels above its base.
pub proof fn lemma_height(base: Seq<Seq<u8>>, k: nat)
    requires
        base.len() <= pow2(k),
    ensures
        tree_levels(base).len() <= k + 1,
    decreases k,
{
    if base.len() > 1 {
        lemma_height(parent_level(base), (k - 1) as nat);
    }
}

/// An inclusion proof has at most one step for each level above the base.
pub proof fn lemma_path_length(base: Seq<Seq<u8>>, index: int)
    ensures
        path_of(base, index).len() <= tree_levels(base).len() - 1,
    decreases base.len(),
{
    if base.len() > 1 {
        lemma_path_length(parent_level(base), index / 2);
    }
}

/// In a tree over at most 65536 entries every inclusion proof has at most 16
/// steps, and so has a wire form.
pub proof fn lemma_batch_path_fits(base: Seq<Seq<u8>>, index: int)
    requires
        base.len() <= 65536,
    ensures
        path_of(base, index).len() <= 16,
{
    assert(pow2(16) == 65536) by {
        reveal_with_fuel(pow2, 17);
    }
    lemma_height(base, 16);
    lemma_path_length(base, index);
}

/// The top level of the tree over a non-empty base holds the root alone.
pub proof fn lemma_last_level_is_root(base: Seq<Seq<u8>>)
    requires
        base.len() > 0,
    ensures
        tree_levels(base).len() >= 1,
        tree_levels(base).last() == seq![root_of(base)],
    decreases base.len(),
{
    if base.len() > 1 {
        lemma_last_level_is_root(parent_level(base));
    }
}

/// An inclusion proof: the steps from a leaf up to the root.
#[derive(Debug, Clone)]
pub struct MerklePath {
    pub path: Vec<([u8; 32], Directions)>,
}

impl View for MerklePath {
    type V = Seq<Step>;

    open spec fn view(&self) -> Seq<Step> {
        steps_view(self.path@)
    }
}

/// A buffer that holds no path: it is empty, announces more than 16 steps, or
/// ends before the steps and the client identifier do.
#[derive(Debug)]
pub struct MalformedPath;

impl MerklePath {
    /// The path with these steps, the first next to the leaf.
    pub fn new(path: Vec<([u8; 32], Directions)>) -> (p: Self)
        ensures
            p.path == path,
    {
        Self { path }
    }

    /// The wire form of the path and of the client it goes to.
    pub fn encode(&self, client_id: u64) -> (out: Vec<u8>)
        requires
            self.path@.len() <= 16,
        ensures
            out@ == encode_path(self@, client_id),
            out@.len() == encoded_len(self.path@.len() as int),
    {
        let n = self.path.len();
        let cut: usize = if n < 8 {
            n
        } else {
            8
        };
        let ghost dirs = directions_of(self@);
        let mut low: Vec<&Directions> = Vec::new();
        let mut i: usize = 0;
        while i < cut
            invariant
                i <= cut <= n,
                n == self.path@.len(),
                dirs == directions_of(self@),
                low@.len() == i,
                directions_view(low@) == dirs.take(i as int),
            decreases cut - i,
        {
            let ghost prev = low@;
            low.push(&self.path[i].1);
            i += 1;
            assert forall|k: int| 0 <= k < i implies directions_view(low@)[k] == dirs[k] by {
                if k < i - 1 {
                    assert(directions_view(prev)[k] == dirs.take(i - 1)[k]);
                }
            }
        }
        let mut high: Vec<&Directions> = Vec::new();
        while i < n
            invariant
                cut <= i <= n <= 16,
                n == self.path@.len(),
                dirs == directions_of(self@),
                high@.len() == i - cut,
                directions_view(high@) == dirs.subrange(cut as int, i as int),
            decreases n - i,
        {
            let ghost prev = high@;
            high.push(&self.path[i].1);
            i += 1;
            assert forall|k: int| 0 <= k < i - cut implies directions_view(high@)[k] == dirs[cut
                + k] by {
                if k < i - 1 - cut {
                    assert(directions_view(prev)[k] == dirs.subrange(cut as int, i - 1)[k]);
                }
            }
        }
        let low_byte = directions_to_byte(low);
        let high_byte = directions_to_byte(high);
        let mut out: Vec<u8> = Vec::new();
        out.push(n as u8);
        out.push(low_byte);
        out.push(high_byte);
        let ghost head = out@;
        let mut s: usize = 0;
        while s < n
            invariant
                s <= n,
                n == self.path@.len(),
                out@ == head + sibling_bytes(self@.take(s as int)),
            decreases n - s,
        {
            let digest = &self.path[s].0;
            let ghost before = out@;
            let mut k: usize = 0;
            while k < 32
                invariant
                    k <= 32,
                    out@ == before + digest@.take(k as int),
                decreases 32 - k,
            {
                out.push(digest[k]);
                k += 1;
            }
            assert(self@.take(s + 1).drop_last() =~= self@.take(s as int));
            s += 1;
        }
        assert(self@.take(n as int) =~= self@);
        let tail = u64_to_be(client_id);
        let ghost body = out@;
        let mut t: usize = 0;
        while t < 8
            invariant
                t <= 8,
                out@ == body + tail@.take(t as int),
            decreases 8 - t,
        {
            out.push(tail[t]);
            t += 1;
        }
        proof {
            lemma_encoded_len(self@, client_id);
        }
        out
    }

    /// Writes the wire form of the path and of the client it goes to at the
    /// start of `buf`, and leaves the rest of `buf` as it was.
    pub fn to_bytes(&self, buf: &mut [u8], client_id: u64)
        requires
            self.path@.len() <= 16,
            old(buf)@.len() >= encoded_len(self.path@.len() as int),
        ensures
            final(buf)@ == encode_path(self@, client_id) + old(buf)@.skip(
                encoded_len(self.path@.len() as int),
            ),
    {
        let encoded = self.encode(client_id);
        let mut i: usize = 0;
        while i < encoded.len()
            invariant
                i <= encoded@.len() <= buf@.len(),
                buf@.len() == old(buf)@.len(),
                buf@ == encoded@.take(i as int) + old(buf)@.skip(i as int),
            decreases encoded@.len() - i,
        {
            buf[i] = encoded[i];
            i += 1;
        }
    }

    /// Reads a path and the client identifier that follows it from the start
    /// of `buf`.
    pub fn from_bytes(buf: &[u8]) -> (res: Result<(Self, u64), MalformedPath>)
        ensures
            res is Ok <==> decode_path(buf@) is Some,
            res is Ok ==> res->Ok_0.0@ == decode_path(buf@)->Some_0.0,
            res is Ok ==> res->Ok_0.1 == decode_path(buf@)->Some_0.1,
    {
        if buf.len() < 1 {
            return Err(MalformedPath);
        }
        let path_len = buf[0] as usize;
        if path_len > 16 || buf.len() < 3 + path_len * 32 + 8 {
            return Err(MalformedPath);
        }
        let low = byte_to_direction(buf[1]);
        let high = byte_to_direction(buf[2]);
        let mut path: Vec<([u8; 32], Directions)> = Vec::new();
        let mut i: usize = 0;
        while i < path_len
            invariant
                i <= path_len <= 16,
                buf@.len() >= 3 + path_len * 32 + 8,
                low@.len() == 8,
                high@.len() == 8,
                forall|k: u8| k < 8 ==> #[trigger] low@[k as int] == direction_of_bit(buf@[1], k),
                forall|k: u8| k < 8 ==> #[trigger] high@[k as int] == direction_of_bit(buf@[2], k),
                path@.len() == i,
                forall|k: int| 0 <= k < i ==> #[trigger] steps_view(path@)[k] == decoded_step(buf@, k),
            decreases path_len - i,
        {
            let mut digest: [u8; 32] = [0u8; 32];
            let start = 3 + i * 32;
            let mut k: usize = 0;
            while k < 32
                invariant
                    k <= 32,
                    start + 32 <= buf.len(),
                    forall|m: int| 0 <= m < k ==> #[trigger] digest@[m] == buf@[start + m],
                decreases 32 - k,
            {
                digest[k] = buf[start + k];
                k += 1;
            }
            let dir = if i < 8 {
                low[i]
            } else {
                high[i - 8]
            };
            let ghost prev = path@;
            path.push((digest, dir));
            i += 1;
            assert forall|m: int| 0 <= m < i implies #[trigger] steps_view(path@)[m]
                == decoded_step(buf@, m) by {
                if m < i - 1 {
                    assert(steps_view(prev)[m] == decoded_step(buf@, m));
                }
            }
        }
        let client_id = u64_from_be(buf, 3 + path_len * 32);
        let decoded = MerklePath { path };
        Ok((decoded, client_id))
    }
}

/// A leaf position at or beyond the number of leaves.
#[derive(Debug)]
pub struct LeafOutOfRange;

/// A binary hash tree, stored level by level: the leaf digests first, the
/// root alone last. Built once and not changed afterwards.
#[derive(Debug)]
pub struct MerkleTree {
    pub tree: Vec<Vec<[u8; 32]>>,
}

impl Clone for MerkleTree {
    /// A copy with the same levels.
    fn clone(&self) -> (copy: Self)
        ensures
            copy.levels() == self.levels(),
            copy.wf() == self.wf(),
    {
        let mut tree: Vec<Vec<[u8; 32]>> = Vec::new();
        let mut i: usize = 0;
        while i < self.tree.len()
            invariant
                i <= self.tree@.len(),
                tree@.len() == i,
                forall|k: int| 0 <= k < i ==> (#[trigger] tree@[k])@ == self.tree@[k]@,
            decreases self.tree@.len() - i,
        {
            let row = &self.tree[i];
            let mut level: Vec<[u8; 32]> = Vec::new();
            let mut j: usize = 0;
            while j < row.len()
                invariant
                    j <= row@.len(),
                    level@ == row@.take(j as int),
                decreases row@.len() - j,
            {
                level.push(row[j]);
                j += 1;
            }
            tree.push(level);
            i += 1;
        }
        MerkleTree { tree }
    }
}

impl MerkleTree {
    /// The levels of the tree as sequences of digests, leaves first.
    pub open spec fn levels(&self) -> Seq<Seq<Seq<u8>>> {
        Seq::new(self.tree@.len(), |i: int| digests_view(self.tree@[i]@))
    }

    /// The leaf digests.
    pub open spec fn base(&self) -> Seq<Seq<u8>> {
        self.levels()[0]
    }

    /// The stored levels are those of the tree over the stored leaf level.
    pub open spec fn wf(&self) -> bool {
        &&& self.tree@.len() >= 1
        &&& self.levels() == tree_levels(self.base())
    }

    /// Builds the tree over `leaves`: each leaf is hashed on its own, then
    /// each level is paired off into the next until one digest is left.
    pub fn new(leaves: &Vec<&[u8]>) -> (t: Self)
        ensures
            t.wf(),
            t.base() == leaf_digests(byte_strings(leaves@)),
    {
        let ghost base = leaf_digests(byte_strings(leaves@));
        let mut hashed: Vec<[u8; 32]> = Vec::new();
        let mut i: usize = 0;
        while i < leaves.len()
            invariant
                i <= leaves@.len(),
                base == leaf_digests(byte_strings(leaves@)),
                digests_view(hashed@) == base.take(i as int),
            decreases leaves@.len() - i,
        {
            let ghost prev = hashed@;
            let digest = blake3_hash(leaves[i]);
            hashed.push(digest);
            i += 1;
            assert(digests_view(prev).len() == i - 1);
            assert forall|k: int| 0 <= k < i implies digests_view(hashed@)[k] == base[k] by {
                if k < i - 1 {
                    assert(digests_view(prev)[k] == base.take(i - 1)[k]);
                }
            }
        }
        assert(digests_view(hashed@) =~= base);
        let mut tree: Vec<Vec<[u8; 32]>> = Vec::new();
        tree.push(hashed);
        let ghost mut built = MerkleTree { tree };
        while tree[tree.len() - 1].len() > 1
            invariant
                tree@.len() >= 1,
                built == (MerkleTree { tree }),
                built.levels()[0] == base,
                tree_levels(base) == built.levels().drop_last() + tree_levels(
                    built.levels().last(),
                ),
            decreases tree@.last()@.len(),
        {
            let current = &tree[tree.len() - 1];
            let ghost cur = digests_view(current@);
            let n = current.len();
            let half = n / 2 + n % 2;
            let mut next_level: Vec<[u8; 32]> = Vec::new();
            let mut j: usize = 0;
            while j < half
                invariant
                    j <= half,
                    n == current@.len(),
                    half == (n + 1) / 2,
                    cur == digests_view(current@),
                    digests_view(next_level@) == parent_level(cur).take(j as int),
                decreases half - j,
            {
                let ghost prev = next_level@;
                if n - 2 * j >= 2 {
                    let joined = hash_concat(current[2 * j], current[2 * j + 1]);
                    next_level.push(joined);
                } else {
                    next_level.push(current[2 * j]);
                }
                j += 1;
                assert(digests_view(prev).len() == j - 1);
                assert forall|k: int| 0 <= k < j implies digests_view(next_level@)[k]
                    == parent_level(cur)[k] by {
                    if k < j - 1 {
                        assert(digests_view(prev)[k] == parent_level(cur).take(j - 1)[k]);
                    }
                }
            }
            tree.push(next_level);
            proof {
                built = MerkleTree { tree };
                assert(built.levels().last() == parent_level(cur));
            }
        }
        assert(built.levels() =~= built.levels().drop_last() + seq![built.levels().last()]);
        MerkleTree { tree }
    }

    /// The root: the one digest of the top level.
    pub fn get_root_hash(&self) -> (root: [u8; 32])
        requires
            self.wf(),
            self.base().len() > 0,
        ensures
            root@ == root_of(self.base()),
    {
        proof {
            lemma_last_level_is_root(self.base());
            assert(self.levels().last() == digests_view(self.tree@.last()@));
            assert(digests_view(self.tree@.last()@)[0] == self.tree@.last()@[0]@);
        }
        self.tree[self.tree.len() - 1][0]
    }

    /// The inclusion proof of the leaf at `target_index`, or an error where the
    /// tree has no such leaf.
    pub fn find_merkle_path(&self, target_index: usize) -> (res: Result<MerklePath, LeafOutOfRange>)
        requires
            self.wf(),
        ensures
            res is Ok <==> target_index < self.base().len(),
            res is Ok ==> res->Ok_0@ == path_of(self.base(), target_index as int),
    {
        if target_index >= self.tree[0].len() {
            return Err(LeafOutOfRange);
        }
        let ghost levels = self.levels();
        let ghost wanted = path_of(self.base(), target_index as int);
        let mut path: Vec<([u8; 32], Directions)> = Vec::new();
        let mut idx: usize = target_index;
        let mut level: usize = 0;
        while level < self.tree.len() - 1
            invariant
                self.wf(),
                levels == self.levels(),
                level <= self.tree@.len() - 1,
                idx < levels[level as int].len(),
                tree_levels(levels[level as int]) == levels.skip(level as int),
                steps_view(path@) + path_of(levels[level as int], idx as int) == wanted,
            decreases self.tree@.len() - level,
        {
            let row = &self.tree[level];
            let ghost cur = levels[level as int];
            proof {
                assert(levels.skip(level as int).len() >= 2);
                let above = tree_levels(parent_level(cur));
                assert((seq![cur] + above).drop_first() =~= above);
                assert(above[0] == parent_level(cur));
            }
            if idx % 2 != 0 {
                path.push((row[idx - 1], Directions::Right));
            } else if idx + 1 < row.len() {
                path.push((row[idx + 1], Directions::Left));
            }
            idx = idx / 2;
            level += 1;
        }
        proof {
            let cur = levels[level as int];
            if cur.len() > 1 {
                lemma_levels_nonempty(parent_level(cur));
            }
        }
        Ok(MerklePath::new(path))
    }
}

/// Recomputes a root from a leaf and its inclusion proof: hashes the leaf, then
/// joins each sibling of the path on its side and hashes again. The caller
/// compares the result with the root it knows.
pub fn verify_merkle_proof(merklepath: MerklePath, payload_sent: &[u8]) -> (root: [u8; 32])
    ensures
        root@ == fold_path(merklepath@, blake3_digest(payload_sent@)),
{
    let mut recomputed_root: [u8; 32] = blake3_hash(payload_sent);
    let ghost full = merklepath@;
    let ghost start = recomputed_root@;
    let mut i: usize = 0;
    assert(full.skip(0) =~= full);
    while i < merklepath.path.len()
        invariant
            i <= merklepath.path@.len(),
            full == merklepath@,
            fold_path(full.skip(i as int), recomputed_root@) == fold_path(full, start),
        decreases merklepath.path@.len() - i,
    {
        let tuple = &merklepath.path[i];
        assert(full.skip(i as int).drop_first() =~= full.skip(i + 1));
        match tuple.1 {
            Directions::Right => {
                recomputed_root = hash_concat(tuple.0, recomputed_root);
            },
            Directions::Left => {
                recomputed_root = hash_concat(recomputed_root, tuple.0);
            },
        }
        i += 1;
    }
    recomputed_root
}

/// The directions that a list of references points at.
pub open spec fn directions_view(directions: Seq<&Directions>) -> Seq<Directions> {
    Seq::new(directions.len(), |i: int| *directions[i])
}

/// Bit `i` of `byte`, counted from the least significant.
pub open spec fn bit_of(byte: u8, i: u8) -> u8 {
    (byte >> i) & 1
}

/// Up to eight directions packed into a byte: bit `i` is the bit of direction
/// `i`, and the bits past the last direction are 0.
pub open spec fn pack_bits(dirs: Seq<Directions>) -> u8
    decreases dirs.len(),
{
    if dirs.len() == 0 {
        0
    } else {
        pack_bits(dirs.drop_last()) | (dirs.last().bit() << ((dirs.len() - 1) as u8))
    }
}

/// The direction that a bit of a packed byte stands for.
pub open spec fn direction_of_bit(byte: u8, i: u8) -> Directions {
    if bit_of(byte, i) == 1 {
        Directions::Right
    } else {
        Directions::Left
    }
}

proof fn lemma_or_bit(low: u8, b: u8, k: u8, i: u8)
    requires
        b <= 1,
        k < 8,
        i < 8,
        low >> k == 0,
    ensures
        bit_of(low | (b << k), i) == (if i == k {
            b
        } else {
            bit_of(low, i)
        }),
        k < 7 ==> (low | (b << k)) >> ((k + 1) as u8) == 0,
        i >= k ==> bit_of(low, i) == 0,
{
    assert(((low | (b << k)) >> i) & 1 == (if i == k {
        b
    } else {
        (low >> i) & 1
    })) by (bit_vector)
        requires
            b <= 1,
            k < 8,
            i < 8,
            low >> k == 0,
    ;
    assert(k < 7 ==> (low | (b << k)) >> ((k + 1) as u8) == 0) by (bit_vector)
        requires
            b <= 1,
            k < 8,
            low >> k == 0,
    ;
    assert(i >= k ==> (low >> i) & 1 == 0) by (bit_vector)
        requires
            k < 8,
            i < 8,
            low >> k == 0,
    ;
}

/// Each bit of a packed byte is the bit of the direction at its position, and
/// 0 past the last direction.
pub proof fn lemma_pack_bits(dirs: Seq<Directions>, i: u8)
    requires
        dirs.len() <= 8,
        i < 8,
    ensures
        bit_of(pack_bits(dirs), i) == (if i < dirs.len() {
            dirs[i as int].bit()
        } else {
            0
        }),
        dirs.len() < 8 ==> pack_bits(dirs) >> (dirs.len() as u8) == 0,
    decreases dirs.len(),
{
    if dirs.len() == 0 {
        assert((0u8 >> i) & 1 == 0) by (bit_vector);
        assert(0u8 >> 0u8 == 0) by (bit_vector);
    } else {
        let front = dirs.drop_last();
        let k = (dirs.len() - 1) as u8;
        lemma_pack_bits(front, i);
        lemma_or_bit(pack_bits(front), dirs.last().bit(), k, i);
    }
}

/// A packed byte read back bit by bit gives the directions that were packed.
pub proof fn lemma_unpack_packed(dirs: Seq<Directions>, i: u8)
    requires
        dirs.len() <= 8,
        i < dirs.len(),
    ensures
        direction_of_bit(pack_bits(dirs), i) == dirs[i as int],
{
    lemma_pack_bits(dirs, i);
}

/// Packs up to eight directions into a byte, the first in the lowest bit.
pub fn directions_to_byte(directions: Vec<&Directions>) -> (byte: u8)
    requires
        directions@.len() <= 8,
    ensures
        byte == pack_bits(directions_view(directions@)),
{
    let ghost dirs = directions_view(directions@);
    let mut byte: u8 = 0u8;
    let mut idx: usize = 0;
    while idx < directions.len()
        invariant
            idx <= directions@.len() <= 8,
            dirs == directions_view(directions@),
            byte == pack_bits(dirs.take(idx as int)),
        decreases directions@.len() - idx,
    {
        let bit = directions[idx].to_bit();
        let shift: u8 = idx as u8;
        assert(dirs.take(idx + 1).drop_last() =~= dirs.take(idx as int));
        byte = byte | (bit << shift);
        idx += 1;
    }
    assert(dirs.take(idx as int) =~= dirs);
    byte
}

/// The eight directions that the bits of `byte` stand for, lowest bit first.
pub fn byte_to_direction(byte: u8) -> (directions: Vec<Directions>)
    ensures
        directions@.len() == 8,
        forall|i: u8| i < 8 ==> #[trigger] directions@[i as int] == direction_of_bit(byte, i),
{
    let mut directions: Vec<Directions> = Vec::new();
    let mut i: u8 = 0;
    while i < 8
        invariant
            i <= 8,
            directions@.len() == i,
            forall|k: u8| k < i ==> #[trigger] directions@[k as int] == direction_of_bit(byte, k),
        decreases 8 - i,
    {
        let bit: u8 = (byte >> i) & 1;
        assert(bit <= 1) by (bit_vector)
            requires
                bit == (byte >> i) & 1,
        ;
        let dir = Directions::from_bit(bit);
        if let Ok(d) = dir {
            directions.push(d);
        }
        i += 1;
    }
    directions
}

/// The sibling digests of a path laid end to end.
pub open spec fn sibling_bytes(path: Seq<Step>) -> Seq<u8>
    decreases path.len(),
{
    if path.len() == 0 {
        Seq::empty()
    } else {
        sibling_bytes(path.drop_last()) + path.last().0
    }
}

/// The directions of a path, in order.
pub open spec fn directions_of(path: Seq<Step>) -> Seq<Directions> {
    Seq::new(path.len(), |i: int| path[i].1)
}

/// Number of bytes that a path of `steps` steps takes on the wire, client
/// identifier included.
pub open spec fn encoded_len(steps: int) -> int {
    3 + 32 * steps + 8
}

/// A path can be written out when it has at most 16 steps (the directions
/// have two bytes) and its siblings are 32-byte digests.
pub open spec fn encodable(path: Seq<Step>) -> bool {
    &&& path.len() <= 16
    &&& forall|i: int| 0 <= i < path.len() ==> (#[trigger] path[i]).0.len() == 32
}

/// The wire form of a path and the client it goes to: one byte for the number
/// of steps, two bytes of directions (bit `i` of the pair is step `i`, 0 for
/// `Left` and 1 for `Right`), the sibling digests, and the client identifier
/// as eight big-endian bytes.
pub open spec fn encode_path(path: Seq<Step>, client_id: u64) -> Seq<u8> {
    let dirs = directions_of(path);
    let cut = if path.len() < 8 {
        path.len() as int
    } else {
        8
    };
    seq![path.len() as u8, pack_bits(dirs.take(cut)), pack_bits(dirs.skip(cut))] + sibling_bytes(
        path,
    ) + be_bytes(client_id)
}

/// Step `i` as it is read from a buffer.
pub open spec fn decoded_step(bytes: Seq<u8>, i: int) -> Step {
    (bytes.subrange(3 + 32 * i, 3 + 32 * i + 32), direction_of_bit(bytes[1 + i / 8], (i % 8) as u8))
}

/// The path and client identifier that a buffer holds, where it holds one: the
/// buffer announces at most 16 steps and is long enough for them and for the
/// client identifier. Bytes after the client identifier are not read.
pub open spec fn decode_path(bytes: Seq<u8>) -> Option<(Seq<Step>, u64)> {
    if bytes.len() < 1 || bytes[0] > 16 || bytes.len() < encoded_len(bytes[0] as int) {
        None
    } else {
        let n = bytes[0] as int;
        Some(
            (
                Seq::new(n as nat, |i: int| decoded_step(bytes, i)),
                be_value(bytes.subrange(3 + 32 * n, 3 + 32 * n + 8)),
            ),
        )
    }
}

/// All but the last step of an encodable path are an encodable path.
proof fn lemma_front_encodable(path: Seq<Step>)
    requires
        encodable(path),
        path.len() > 0,
    ensures
        encodable(path.drop_last()),
        path.last().0.len() == 32,
{
}

/// The sibling digests of an encodable path take 32 bytes each.
pub proof fn lemma_sibling_bytes_len(path: Seq<Step>)
    requires
        encodable(path),
    ensures
        sibling_bytes(path).len() == 32 * path.len(),
    decreases path.len(),
{
    if path.len() > 0 {
        lemma_front_encodable(path);
        lemma_sibling_bytes_len(path.drop_last());
    }
}

/// The sibling digests of an encodable path stand one after the other, 32
/// bytes each.
pub proof fn lemma_sibling_bytes(path: Seq<Step>, i: int)
    requires
        encodable(path),
        0 <= i < path.len(),
    ensures
        sibling_bytes(path).len() == 32 * path.len(),
        sibling_bytes(path).subrange(32 * i, 32 * i + 32) == path[i].0,
    decreases path.len(),
{
    let front = path.drop_last();
    lemma_front_encodable(path);
    lemma_sibling_bytes_len(path);
    lemma_sibling_bytes_len(front);
    if i < front.len() {
        lemma_sibling_bytes(front, i);
    }
}

/// The number of bytes of an encodable path's wire form.
pub proof fn lemma_encoded_len(path: Seq<Step>, client_id: u64)
    requires
        encodable(path),
    ensures
        encode_path(path, client_id).len() == encoded_len(path.len() as int),
{
    if path.len() > 0 {
        lemma_sibling_bytes(path, 0);
    }
    crate::wire::lemma_be_value_of_bytes(client_id, Seq::empty());
}

/// Decoding the wire form of a path gives back the path and the client
/// identifier, whatever follows the wire form in the buffer.
pub proof fn lemma_decode_encoded_path(path: Seq<Step>, client_id: u64, rest: Seq<u8>)
    requires
        encodable(path),
    ensures
        decode_path(encode_path(path, client_id) + rest) == Some((path, client_id)),
{
    let n = path.len() as int;
    let dirs = directions_of(path);
    let cut = if n < 8 {
        n
    } else {
        8
    };
    let bytes = encode_path(path, client_id) + rest;
    lemma_encoded_len(path, client_id);
    if n > 0 {
        lemma_sibling_bytes(path, 0);
    }
    crate::wire::lemma_be_value_of_bytes(client_id, Seq::empty());
    let decoded = Seq::new(n as nat, |i: int| decoded_step(bytes, i));
    assert forall|i: int| 0 <= i < n implies decoded[i] == path[i] by {
        lemma_sibling_bytes(path, i);
        if i < 8 {
            lemma_unpack_packed(dirs.take(cut), i as u8);
        } else {
            lemma_unpack_packed(dirs.skip(cut), (i - 8) as u8);
        }
    }
}

} // verus!
