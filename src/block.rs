use vstd::prelude::*;
use vstd::bytes::{
    spec_u32_to_le_bytes, spec_u64_to_le_bytes, spec_u32_from_le_bytes, spec_u64_from_le_bytes,
    lemma_auto_spec_u32_to_from_le_bytes, lemma_auto_spec_u64_to_from_le_bytes,
};
use crate::encoding::{append_bytes, append_u32_le, append_u64_le, eq32, zero32};
use crate::hash::{blake3_hash, blake3_of};
use crate::transaction::{Transaction, spec_tx_hash, spec_is_valid_coinbase};

verus! {

/// A block: its header fields and its transactions.
#[derive(Clone, Debug)]
pub struct Block {
    pub version: u32,
    pub height: u32,
    pub previous_block_hash: [u8; 32],
    pub merkle_root: [u8; 32],
    pub timestamp: u64,
    pub difficulty: u32,
    pub nonce: u32,
    pub transactions: Vec<Transaction>,
}

/// The byte values of a sequence of 32-byte hashes.
pub open spec fn hashes_view(hs: Seq<[u8; 32]>) -> Seq<Seq<u8>> {
    hs.map_values(|h: [u8; 32]| h@)
}

/// The parent of the hashes at `2k` and `2k + 1`, the last hash paired with itself when the
/// count is odd.
pub open spec fn merkle_parent(hs: Seq<Seq<u8>>, k: int) -> Seq<u8> {
    let right = if 2 * k + 1 < hs.len() { 2 * k + 1 } else { 2 * k };
    blake3_of(hs[2 * k] + hs[right])
}

/// One level up the Merkle tree.
pub open spec fn merkle_level(hs: Seq<Seq<u8>>) -> Seq<Seq<u8>> {
    Seq::new(((hs.len() + 1) / 2) as nat, |k: int| merkle_parent(hs, k))
}

/// Folds a non-empty level of hashes up to the single root.
pub open spec fn merkle_fold(hs: Seq<Seq<u8>>) -> Seq<u8>
    decreases hs.len(),
{
    if hs.len() <= 1 {
        hs[0]
    } else {
        merkle_fold(merkle_level(hs))
    }
}

/// The Merkle commitment of a transaction list: all zero for an empty list.
pub open spec fn spec_merkle_root(txs: Seq<Transaction>) -> Seq<u8> {
    if txs.len() == 0 {
        zero32()
    } else {
        merkle_fold(txs.map_values(|t: Transaction| spec_tx_hash(t)))
    }
}

/// The bytes hashed for a block header.
pub open spec fn header_bytes(b: Block) -> Seq<u8> {
    spec_u32_to_le_bytes(b.version) + b.previous_block_hash@ + b.merkle_root@
        + spec_u64_to_le_bytes(b.timestamp) + spec_u32_to_le_bytes(b.difficulty)
        + spec_u32_to_le_bytes(b.nonce)
}

/// The header hash of a block.
pub open spec fn spec_header_hash(b: Block) -> Seq<u8> {
    blake3_of(header_bytes(b))
}

/// Bit `k` of a byte, counting from the most significant bit.
pub open spec fn byte_bit(b: u8, k: int) -> bool {
    (b >> ((7 - k) as u8)) & 1u8 == 1u8
}

/// Bit `j` of a hash read as a big-endian bit string.
pub open spec fn hash_bit(h: Seq<u8>, j: int) -> bool {
    byte_bit(h[j / 8], j % 8)
}

/// Whether the first `difficulty` bits of the hash (all of them, if there are fewer) are zero.
pub open spec fn spec_meets_difficulty(h: Seq<u8>, difficulty: u32) -> bool {
    forall|j: int| 0 <= j < difficulty && j < h.len() * 8 ==> !#[trigger] hash_bit(h, j)
}

/// The block with another nonce.
pub open spec fn with_nonce(b: Block, nonce: u32) -> Block {
    Block { nonce, ..b }
}

/// The header checks of a candidate block against the expected parent hash, height and
/// difficulty; the header hash must also meet the block's own declared difficulty.
pub open spec fn spec_is_header_valid(b: Block, difficulty: u32, last_hash: Seq<u8>, block_height: u32) -> bool {
    &&& b.previous_block_hash@ == last_hash
    &&& b.height == block_height
    &&& spec_meets_difficulty(spec_header_hash(b), difficulty)
    &&& spec_meets_difficulty(spec_header_hash(b), b.difficulty)
    &&& b.merkle_root@ == spec_merkle_root(b.transactions@)
    &&& b.transactions@.len() > 0
}

proof fn lemma_byte_zero(b: u8)
    ensures
        b == 0 <==> forall|k: int| 0 <= k < 8 ==> !#[trigger] byte_bit(b, k),
{
    assert(b == 0 <==> ((b >> 7u8) & 1u8 != 1u8 && (b >> 6u8) & 1u8 != 1u8 && (b >> 5u8) & 1u8 != 1u8
        && (b >> 4u8) & 1u8 != 1u8 && (b >> 3u8) & 1u8 != 1u8 && (b >> 2u8) & 1u8 != 1u8
        && (b >> 1u8) & 1u8 != 1u8 && (b >> 0u8) & 1u8 != 1u8)) by (bit_vector);
    assert(byte_bit(b, 0) == ((b >> 7u8) & 1u8 == 1u8));
    assert(byte_bit(b, 1) == ((b >> 6u8) & 1u8 == 1u8));
    assert(byte_bit(b, 2) == ((b >> 5u8) & 1u8 == 1u8));
    assert(byte_bit(b, 3) == ((b >> 4u8) & 1u8 == 1u8));
    assert(byte_bit(b, 4) == ((b >> 3u8) & 1u8 == 1u8));
    assert(byte_bit(b, 5) == ((b >> 2u8) & 1u8 == 1u8));
    assert(byte_bit(b, 6) == ((b >> 1u8) & 1u8 == 1u8));
    assert(byte_bit(b, 7) == ((b >> 0u8) & 1u8 == 1u8));
}

fn merkle_parent_exec(hashes: &Vec<[u8; 32]>, k: usize) -> (r: [u8; 32])
    requires
        2 * k < hashes@.len(),
    ensures
        r@ == merkle_parent(hashes_view(hashes@), k as int),
{
    let n = hashes.len();
    let right = if 2 * k + 1 < n { 2 * k + 1 } else { 2 * k };
    let mut combined: Vec<u8> = Vec::new();
    append_bytes(&mut combined, hashes[2 * k].as_slice());
    append_bytes(&mut combined, hashes[right].as_slice());
    blake3_hash(combined.as_slice())
}

impl Block {
    /// A block over `transactions`, its Merkle root computed from them.
    pub fn new(
        version: u32,
        height: u32,
        previous_block_hash: [u8; 32],
        timestamp: u64,
        difficulty: u32,
        nonce: u32,
        transactions: Vec<Transaction>,
    ) -> (r: Block)
        ensures
            r.version == version,
            r.height == height,
            r.previous_block_hash == previous_block_hash,
            r.timestamp == timestamp,
            r.difficulty == difficulty,
            r.nonce == nonce,
            r.transactions@ == transactions@,
            r.merkle_root@ == spec_merkle_root(transactions@),
    {
        let merkle_root = Self::compute_merkle_root(&transactions);
        Block {
            version,
            height,
            previous_block_hash,
            merkle_root,
            timestamp,
            difficulty,
            nonce,
            transactions,
        }
    }

    /// The Merkle root of `transactions`; all zero for an empty list.
    pub fn compute_merkle_root(transactions: &Vec<Transaction>) -> (r: [u8; 32])
        ensures
            r@ == spec_merkle_root(transactions@),
    {
        let ghost leaves = transactions@.map_values(|t: Transaction| spec_tx_hash(t));
        let mut hashes: Vec<[u8; 32]> = Vec::new();
        let mut i: usize = 0;
        while i < transactions.len()
            invariant
                i <= transactions@.len(),
                leaves == transactions@.map_values(|t: Transaction| spec_tx_hash(t)),
                hashes@.len() == i,
                hashes_view(hashes@) == leaves.subrange(0, i as int),
            decreases transactions@.len() - i,
        {
            let h = transactions[i].tx_hash();
            assert(leaves[i as int] == spec_tx_hash(transactions@[i as int]));
            let ghost before = hashes@;
            hashes.push(h);
            assert(hashes@ == before.push(h));
            assert(hashes_view(hashes@).len() == i + 1);
            assert forall|j: int| 0 <= j <= i implies #[trigger] hashes_view(hashes@)[j] == leaves.subrange(0, i + 1)[j] by {
                if j < i {
                    assert(hashes_view(before)[j] == leaves.subrange(0, i as int)[j]);
                }
            }
            i = i + 1;
            assert(hashes_view(hashes@) =~= leaves.subrange(0, i as int));
        }
        assert(leaves.subrange(0, i as int) =~= leaves);
        if hashes.len() == 0 {
            let z: [u8; 32] = [0u8; 32];
            assert(z@ =~= zero32());
            return z;
        }
        while hashes.len() > 1
            invariant
                hashes@.len() >= 1,
                merkle_fold(hashes_view(hashes@)) == merkle_fold(leaves),
            decreases hashes@.len(),
        {
            let n = hashes.len();
            let half = n / 2 + n % 2;
            let ghost level = merkle_level(hashes_view(hashes@));
            let mut next: Vec<[u8; 32]> = Vec::new();
            let mut k: usize = 0;
            while k < half
                invariant
                    n == hashes@.len(),
                    half == (n + 1) / 2,
                    k <= half,
                    level == merkle_level(hashes_view(hashes@)),
                    next@.len() == k,
                    hashes_view(next@) == level.subrange(0, k as int),
                decreases half - k,
            {
                let p = merkle_parent_exec(&hashes, k);
                assert(level[k as int] == merkle_parent(hashes_view(hashes@), k as int));
                let ghost before = next@;
                next.push(p);
                assert(next@ == before.push(p));
                assert(hashes_view(next@).len() == k + 1);
                assert forall|j: int| 0 <= j <= k implies #[trigger] hashes_view(next@)[j] == level.subrange(0, k + 1)[j] by {
                    if j < k {
                        assert(hashes_view(before)[j] == level.subrange(0, k as int)[j]);
                    }
                }
                k = k + 1;
                assert(hashes_view(next@) =~= level.subrange(0, k as int));
            }
            assert(level.subrange(0, half as int) =~= level);
            hashes = next;
        }
        assert(hashes_view(hashes@).len() == 1);
        hashes[0]
    }

    /// The header hash: BLAKE3 of version, parent hash, Merkle root, timestamp, difficulty
    /// and nonce. The transactions enter only through the Merkle root.
    pub fn header_hash(&self) -> (r: [u8; 32])
        ensures
            r@ == spec_header_hash(*self),
    {
        let mut data: Vec<u8> = Vec::new();
        append_u32_le(&mut data, self.version);
        append_bytes(&mut data, self.previous_block_hash.as_slice());
        append_bytes(&mut data, self.merkle_root.as_slice());
        append_u64_le(&mut data, self.timestamp);
        append_u32_le(&mut data, self.difficulty);
        append_u32_le(&mut data, self.nonce);
        assert(data@ =~= header_bytes(*self));
        blake3_hash(data.as_slice())
    }

    /// Whether the first `difficulty` bits of `hash` are zero: whole zero bytes first, then
    /// the top bits of the next byte.
    pub fn meets_difficulty(hash: [u8; 32], difficulty: u32) -> (r: bool)
        ensures
            r == spec_meets_difficulty(hash@, difficulty),
    {
        let full: u32 = difficulty / 8;
        let rem: u32 = difficulty % 8;
        let mut i: usize = 0;
        while i < 32 && (i as u32) < full
            invariant
                i <= 32,
                i <= full,
                full == difficulty / 8,
                hash@.len() == 32,
                forall|j: int| 0 <= j < 8 * i ==> !#[trigger] hash_bit(hash@, j),
            decreases 32 - i,
        {
            proof {
                lemma_byte_zero(hash[i as int]);
            }
            if hash[i] != 0 {
                proof {
                    let k = choose|k: int| 0 <= k < 8 && #[trigger] byte_bit(hash@[i as int], k);
                    let j = 8 * i + k;
                    assert(j / 8 == i && j % 8 == k);
                    assert(hash_bit(hash@, j));
                }
                return false;
            }
            assert forall|j: int| 0 <= j < 8 * (i + 1) implies !#[trigger] hash_bit(hash@, j) by {
                if j >= 8 * i {
                    assert(j / 8 == i as int);
                    assert(!byte_bit(hash@[i as int], j % 8));
                }
            }
            i = i + 1;
        }
        if i == 32 || rem == 0 {
            return true;
        }
        let b: u8 = hash[i];
        let mut k: u32 = 0;
        while k < rem
            invariant
                i < 32,
                i == full,
                rem == difficulty % 8,
                difficulty as int == 8 * i + rem,
                rem < 8,
                k <= rem,
                b == hash@[i as int],
                hash@.len() == 32,
                forall|j: int| 0 <= j < 8 * i + k ==> !#[trigger] hash_bit(hash@, j),
            decreases rem - k,
        {
            let shift: u8 = (7 - k) as u8;
            if (b >> shift) & 1u8 == 1u8 {
                proof {
                    let j = 8 * i + k;
                    assert(j / 8 == i && j % 8 == k);
                    assert(hash_bit(hash@, j));
                }
                return false;
            }
            assert forall|j: int| 0 <= j < 8 * i + k + 1 implies !#[trigger] hash_bit(hash@, j) by {
                if j == 8 * i + k {
                    assert(j / 8 == i && j % 8 == k);
                }
            }
            k = k + 1;
        }
        true
    }

    /// Increments the nonce (wrapping) until the header hash meets the block's difficulty.
    /// Returns false, with the block unchanged, once every nonce has been tried in vain.
    pub fn mine(&mut self) -> (found: bool)
        ensures
            final(self).version == old(self).version,
            final(self).height == old(self).height,
            final(self).previous_block_hash == old(self).previous_block_hash,
            final(self).merkle_root == old(self).merkle_root,
            final(self).timestamp == old(self).timestamp,
            final(self).difficulty == old(self).difficulty,
            final(self).transactions@ == old(self).transactions@,
            found ==> spec_meets_difficulty(spec_header_hash(*final(self)), final(self).difficulty),
            !found ==> final(self).nonce == old(self).nonce && forall|n: u32|
                !spec_meets_difficulty(
                    #[trigger] spec_header_hash(with_nonce(*old(self), n)),
                    old(self).difficulty,
                ),
    {
        let ghost start = *self;
        let mut tried: u64 = 0;
        while tried < 0x1_0000_0000
            invariant
                tried <= 0x1_0000_0000,
                start == *old(self),
                self.version == start.version,
                self.height == start.height,
                self.previous_block_hash == start.previous_block_hash,
                self.merkle_root == start.merkle_root,
                self.timestamp == start.timestamp,
                self.difficulty == start.difficulty,
                self.transactions@ == start.transactions@,
                self.nonce as int == (start.nonce as int + tried) % 0x1_0000_0000,
                forall|t: int|
                    0 <= t < tried ==> !spec_meets_difficulty(
                        #[trigger] spec_header_hash(with_nonce(start, ((start.nonce as int + t) % 0x1_0000_0000) as u32)),
                        start.difficulty,
                    ),
            decreases 0x1_0000_0000 - tried,
        {
            let h = self.header_hash();
            assert(header_bytes(*self) == header_bytes(with_nonce(start, self.nonce)));
            if Self::meets_difficulty(h, self.difficulty) {
                return true;
            }
            self.nonce = self.nonce.wrapping_add(1);
            tried = tried + 1;
        }
        proof {
            assert forall|n: u32|
                !spec_meets_difficulty(
                    #[trigger] spec_header_hash(with_nonce(start, n)),
                    start.difficulty,
                ) by {
                let t = (n as int - start.nonce as int + 0x1_0000_0000) % 0x1_0000_0000;
                assert(((start.nonce as int + t) % 0x1_0000_0000) as u32 == n);
            }
            assert(header_bytes(*self) == header_bytes(start));
        }
        false
    }

    /// Whether the header follows `last_hash` at `block_height`, meets both `difficulty` and
    /// the block's declared difficulty, commits to its transactions, and the block holds at
    /// least one transaction.
    pub fn is_header_valid(&self, difficulty: u32, reward: u64, last_hash: [u8; 32], block_height: u32) -> (r: bool)
        ensures
            r == spec_is_header_valid(*self, difficulty, last_hash@, block_height),
    {
        if !eq32(&self.previous_block_hash, &last_hash) {
            return false;
        }
        if self.height != block_height {
            return false;
        }
        let hash = self.header_hash();
        if !Self::meets_difficulty(hash, difficulty) {
            return false;
        }
        if !Self::meets_difficulty(hash, self.difficulty) {
            return false;
        }
        let root = Self::compute_merkle_root(&self.transactions);
        if !eq32(&self.merkle_root, &root) {
            return false;
        }
        if self.transactions.len() == 0 {
            return false;
        }
        true
    }
}

/// The Merkle root of the empty transaction list is the all-zero value.
pub proof fn lemma_merkle_root_empty()
    ensures
        spec_merkle_root(Seq::<Transaction>::empty()) == zero32(),
{
}

/// Every hash meets difficulty zero.
pub proof fn lemma_difficulty_zero(h: Seq<u8>)
    ensures
        spec_meets_difficulty(h, 0),
{
}

/// Whether two blocks agree on every field that enters the header hash.
pub open spec fn same_hashed_fields(a: Block, b: Block) -> bool {
    &&& a.version == b.version
    &&& a.previous_block_hash@ == b.previous_block_hash@
    &&& a.merkle_root@ == b.merkle_root@
    &&& a.timestamp == b.timestamp
    &&& a.difficulty == b.difficulty
    &&& a.nonce == b.nonce
}

/// Two blocks have the same header encoding exactly when they agree on version, parent hash,
/// Merkle root, timestamp, difficulty and nonce; blocks that agree on those fields have the
/// same header hash.
pub proof fn lemma_header_encoding(a: Block, b: Block)
    ensures
        header_bytes(a) == header_bytes(b) <==> same_hashed_fields(a, b),
        same_hashed_fields(a, b) ==> spec_header_hash(a) == spec_header_hash(b),
{
    lemma_auto_spec_u32_to_from_le_bytes();
    lemma_auto_spec_u64_to_from_le_bytes();
    if same_hashed_fields(a, b) {
        assert(header_bytes(a) =~= header_bytes(b));
    }
    if header_bytes(a) == header_bytes(b) {
        let x = header_bytes(a);
        let y = header_bytes(b);
        assert(x.subrange(0, 4) =~= spec_u32_to_le_bytes(a.version));
        assert(y.subrange(0, 4) =~= spec_u32_to_le_bytes(b.version));
        assert(spec_u32_from_le_bytes(spec_u32_to_le_bytes(a.version)) == a.version);
        assert(spec_u32_from_le_bytes(spec_u32_to_le_bytes(b.version)) == b.version);
        assert(x.subrange(4, 36) =~= a.previous_block_hash@);
        assert(y.subrange(4, 36) =~= b.previous_block_hash@);
        assert(x.subrange(36, 68) =~= a.merkle_root@);
        assert(y.subrange(36, 68) =~= b.merkle_root@);
        assert(x.subrange(68, 76) =~= spec_u64_to_le_bytes(a.timestamp));
        assert(y.subrange(68, 76) =~= spec_u64_to_le_bytes(b.timestamp));
        assert(spec_u64_from_le_bytes(spec_u64_to_le_bytes(a.timestamp)) == a.timestamp);
        assert(spec_u64_from_le_bytes(spec_u64_to_le_bytes(b.timestamp)) == b.timestamp);
        assert(x.subrange(76, 80) =~= spec_u32_to_le_bytes(a.difficulty));
        assert(y.subrange(76, 80) =~= spec_u32_to_le_bytes(b.difficulty));
        assert(spec_u32_from_le_bytes(spec_u32_to_le_bytes(a.difficulty)) == a.difficulty);
        assert(spec_u32_from_le_bytes(spec_u32_to_le_bytes(b.difficulty)) == b.difficulty);
        assert(x.subrange(80, 84) =~= spec_u32_to_le_bytes(a.nonce));
        assert(y.subrange(80, 84) =~= spec_u32_to_le_bytes(b.nonce));
        assert(spec_u32_from_le_bytes(spec_u32_to_le_bytes(a.nonce)) == a.nonce);
        assert(spec_u32_from_le_bytes(spec_u32_to_le_bytes(b.nonce)) == b.nonce);
    }
}

} // verus!
