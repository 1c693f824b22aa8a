//! The mathematical model of the store: two ordered tables and the rules
//! that every reachable state obeys.
use crate::models::{BlockResponseModel, BlockSummaryModel, TxResponseModel};
use crate::records::{block_model, block_tx_models, BlockModel, TxModel};
use vstd::prelude::*;

verus! {

/// Whether `p` is the place at which a block of the given height enters a
/// table ordered by height: behind every block that is not higher, before
/// every block that is.
pub open spec fn is_insert_pos(blocks: Seq<BlockModel>, height: u32, p: int) -> bool {
    &&& 0 <= p <= blocks.len()
    &&& forall|i: int| 0 <= i < p ==> (#[trigger] blocks[i]).height <= height
    &&& forall|i: int| p <= i < blocks.len() ==> (#[trigger] blocks[i]).height > height
}

/// The place at which a block of the given height enters the table.
pub open spec fn insert_pos(blocks: Seq<BlockModel>, height: u32) -> int {
    choose|p: int| is_insert_pos(blocks, height, p)
}

/// Whether the blocks stand in ascending order of height.
pub open spec fn ascending(blocks: Seq<BlockModel>) -> bool {
    forall|i: int, j: int|
        0 <= i < j < blocks.len() ==> (#[trigger] blocks[i]).height <= (#[trigger] blocks[j]).height
}

/// Whether no two blocks have the same identity hash.
pub open spec fn distinct_hashes(blocks: Seq<BlockModel>) -> bool {
    forall|i: int, j: int|
        0 <= i < j < blocks.len() ==> (#[trigger] blocks[i]).hash != (#[trigger] blocks[j]).hash
}

/// Whether no two transactions have the same identity hash.
pub open spec fn distinct_txids(txs: Seq<TxModel>) -> bool {
    forall|i: int, j: int|
        0 <= i < j < txs.len() ==> (#[trigger] txs[i]).txid != (#[trigger] txs[j]).txid
}

/// The identities of the transactions that belong to the block `hash`, in
/// table order.
pub open spec fn tx_ids_of(txs: Seq<TxModel>, hash: Seq<char>) -> Seq<Seq<char>>
    decreases txs.len(),
{
    if txs.len() == 0 {
        Seq::empty()
    } else {
        let rest = tx_ids_of(txs.drop_last(), hash);
        if txs.last().block_hash == hash {
            rest.push(txs.last().txid)
        } else {
            rest
        }
    }
}

/// A block record as it is shown, beside the number of its transactions.
pub open spec fn shown_block(record: BlockModel, tx_count: nat) -> BlockResponseModel {
    BlockResponseModel {
        hash: record.hash,
        height: record.height,
        version: record.version,
        prev_block: record.prev_block,
        merkle_root: record.merkle_root,
        timestamp: record.timestamp,
        bits: record.bits,
        nonce: record.nonce,
        tx_count: tx_count as usize,
        size: record.size,
    }
}

/// The state of the store: the block table in ascending order of height,
/// where of two blocks with one height the one written later stands later,
/// and the transaction table in the order of writing.
#[verifier::ext_equal]
pub struct StoreModel {
    pub blocks: Seq<BlockModel>,
    pub txs: Seq<TxModel>,
}

impl StoreModel {
    /// The store without any record.
    pub open spec fn empty() -> StoreModel {
        StoreModel { blocks: Seq::empty(), txs: Seq::empty() }
    }

    /// Whether a block with this identity hash is stored.
    pub open spec fn has_block(self, hash: Seq<char>) -> bool {
        exists|i: int| 0 <= i < self.blocks.len() && (#[trigger] self.blocks[i]).hash == hash
    }

    /// The place of the block with this identity hash.
    pub open spec fn block_pos(self, hash: Seq<char>) -> int {
        choose|i: int| 0 <= i < self.blocks.len() && (#[trigger] self.blocks[i]).hash == hash
    }

    /// The block with this identity hash.
    pub open spec fn block(self, hash: Seq<char>) -> BlockModel {
        self.blocks[self.block_pos(hash)]
    }

    /// Whether a transaction with this identity hash is stored.
    pub open spec fn has_tx(self, txid: Seq<char>) -> bool {
        exists|i: int| 0 <= i < self.txs.len() && (#[trigger] self.txs[i]).txid == txid
    }

    /// The place of the transaction with this identity hash.
    pub open spec fn tx_pos(self, txid: Seq<char>) -> int {
        choose|i: int| 0 <= i < self.txs.len() && (#[trigger] self.txs[i]).txid == txid
    }

    /// The transaction with this identity hash.
    pub open spec fn tx(self, txid: Seq<char>) -> TxModel {
        self.txs[self.tx_pos(txid)]
    }

    /// Whether some block has this height.
    pub open spec fn has_height(self, height: u32) -> bool {
        exists|i: int| 0 <= i < self.blocks.len() && (#[trigger] self.blocks[i]).height == height
    }

    /// The place of the first block in table order that has this height.
    pub open spec fn height_pos(self, height: u32) -> int {
        choose|i: int|
            0 <= i < self.blocks.len() && (#[trigger] self.blocks[i]).height == height && forall|
                j: int,
            | 0 <= j < i ==> (#[trigger] self.blocks[j]).height != height
    }

    /// The identity hash of the first block in table order that has this
    /// height.
    pub open spec fn hash_at_height(self, height: u32) -> Seq<char> {
        self.blocks[self.height_pos(height)].hash
    }

    /// The rules of the store: identity hashes are unique in both tables, the
    /// block table is ordered by height, and every transaction belongs to a
    /// stored block.
    pub open spec fn wf(self) -> bool {
        &&& distinct_hashes(self.blocks)
        &&& ascending(self.blocks)
        &&& distinct_txids(self.txs)
        &&& forall|i: int|
            0 <= i < self.txs.len() ==> self.has_block((#[trigger] self.txs[i]).block_hash)
    }

    /// The block table without the block of this identity hash.
    pub open spec fn blocks_without(self, hash: Seq<char>) -> Seq<BlockModel> {
        if self.has_block(hash) {
            self.blocks.remove(self.block_pos(hash))
        } else {
            self.blocks
        }
    }

    /// The transaction table without the transaction of this identity hash.
    pub open spec fn txs_without(self, txid: Seq<char>) -> Seq<TxModel> {
        if self.has_tx(txid) {
            self.txs.remove(self.tx_pos(txid))
        } else {
            self.txs
        }
    }

    /// Writing a block record: a stored block of the same identity hash is
    /// taken out, and the record enters at the place of its height.
    pub open spec fn put_block(self, record: BlockModel) -> StoreModel {
        let rest = self.blocks_without(record.hash);
        StoreModel {
            blocks: rest.insert(insert_pos(rest, record.height), record),
            txs: self.txs,
        }
    }

    /// Writing a transaction record: a stored transaction of the same
    /// identity hash is taken out, and the record enters at the end.
    pub open spec fn put_tx(self, record: TxModel) -> StoreModel {
        StoreModel { blocks: self.blocks, txs: self.txs_without(record.txid).push(record) }
    }

    /// Writing transaction records one after the other.
    pub open spec fn put_txs(self, records: Seq<TxModel>) -> StoreModel
        decreases records.len(),
    {
        if records.len() == 0 {
            self
        } else {
            self.put_txs(records.drop_last()).put_tx(records.last())
        }
    }

    /// Writing a decoded block at a height: its record, then the records
    /// of its transactions in block order.
    pub open spec fn ingest(self, block: bitcoin::Block, height: u32) -> StoreModel {
        self.put_block(block_model(block, height)).put_txs(block_tx_models(block))
    }

    /// The number of stored transactions that belong to the block `hash`.
    pub open spec fn tx_count(self, hash: Seq<char>) -> nat {
        tx_ids_of(self.txs, hash).len()
    }

    /// The detail of the stored block `hash`: its record as it is shown,
    /// with the number of stored transactions that belong to it.
    pub open spec fn block_response(self, hash: Seq<char>) -> BlockResponseModel {
        shown_block(self.block(hash), self.tx_count(hash))
    }

    /// Whether the stored transaction `txid` can be shown: four times its
    /// length is a machine number.
    pub open spec fn tx_readable(self, txid: Seq<char>) -> bool {
        4 * self.tx(txid).raw_data.len() <= usize::MAX
    }

    /// The detail of the stored transaction `txid`. The height is that of
    /// the owning block as it is stored now; size and virtual size are the
    /// length of the serialisation, the weight is four times that.
    pub open spec fn tx_response(self, txid: Seq<char>) -> TxResponseModel {
        let t = self.tx(txid);
        TxResponseModel {
            txid: t.txid,
            version: 1,
            lock_time: 0,
            block_hash: Some(t.block_hash),
            block_height: if self.has_block(t.block_hash) {
                Some(self.block(t.block_hash).height)
            } else {
                None
            },
            confirmations: None,
            inputs: t.inputs,
            outputs: t.outputs,
            size: t.raw_data.len() as usize,
            vsize: t.raw_data.len() as usize,
            weight: (4 * t.raw_data.len()) as usize,
        }
    }

    /// The listing line of the block at place `i` of the block table.
    pub open spec fn summary(self, i: int) -> BlockSummaryModel {
        let b = self.blocks[i];
        BlockSummaryModel {
            hash: b.hash,
            height: b.height,
            timestamp: b.timestamp,
            tx_count: self.tx_count(b.hash) as usize,
        }
    }

    /// The number of lines of a window of at most `limit` lines that starts
    /// at place `offset`.
    pub open spec fn window_len(self, offset: int, limit: int) -> int {
        if offset >= self.blocks.len() {
            0
        } else if self.blocks.len() - offset < limit {
            self.blocks.len() - offset
        } else {
            limit
        }
    }

    /// A window of the block table in ascending order of height.
    pub open spec fn window(self, offset: int, limit: int) -> Seq<BlockSummaryModel> {
        Seq::new(self.window_len(offset, limit) as nat, |k: int| self.summary(offset + k))
    }

    /// The highest blocks, at most `limit` of them, the highest first.
    pub open spec fn latest(self, limit: int) -> Seq<BlockSummaryModel> {
        Seq::new(
            self.window_len(0, limit) as nat,
            |k: int| self.summary(self.blocks.len() - 1 - k),
        )
    }
}

/// The transactions of a block in the first `i + 1` rows are those in the
/// first `i` rows, and row `i` if it belongs to the block.
pub proof fn lemma_tx_ids_step(txs: Seq<TxModel>, hash: Seq<char>, i: int)
    requires
        0 <= i < txs.len(),
    ensures
        tx_ids_of(txs.take(i + 1), hash) == if txs[i].block_hash == hash {
            tx_ids_of(txs.take(i), hash).push(txs[i].txid)
        } else {
            tx_ids_of(txs.take(i), hash)
        },
{
    assert(txs.take(i + 1).drop_last() =~= txs.take(i));
}

/// A table ordered by height has a place for every height.
pub proof fn lemma_insert_pos_exists(blocks: Seq<BlockModel>, height: u32)
    requires
        ascending(blocks),
    ensures
        is_insert_pos(blocks, height, insert_pos(blocks, height)),
    decreases blocks.len(),
{
    if blocks.len() == 0 {
        assert(is_insert_pos(blocks, height, 0));
    } else {
        let front = blocks.drop_last();
        assert forall|i: int, j: int| 0 <= i < j < front.len() implies (#[trigger] front[i]).height
            <= (#[trigger] front[j]).height by {
            assert(front[i] == blocks[i] && front[j] == blocks[j]);
        }
        lemma_insert_pos_exists(front, height);
        let p = insert_pos(front, height);
        if blocks.last().height <= height {
            assert forall|i: int| 0 <= i < blocks.len() implies (#[trigger] blocks[i]).height
                <= height by {
                if i < blocks.len() - 1 {
                    assert(blocks[i].height <= blocks[blocks.len() - 1].height);
                }
            }
            assert(is_insert_pos(blocks, height, blocks.len() as int));
        } else {
            assert forall|i: int| 0 <= i < p implies (#[trigger] blocks[i]).height <= height by {
                assert(front[i] == blocks[i]);
            }
            assert forall|i: int| p <= i < blocks.len() implies (#[trigger] blocks[i]).height
                > height by {
                if i < blocks.len() - 1 {
                    assert(front[i] == blocks[i]);
                }
            }
            assert(is_insert_pos(blocks, height, p));
        }
    }
}

/// The place for a height is the only one.
pub proof fn lemma_insert_pos_unique(blocks: Seq<BlockModel>, height: u32, p: int)
    requires
        is_insert_pos(blocks, height, p),
    ensures
        insert_pos(blocks, height) == p,
{
    let q = insert_pos(blocks, height);
    assert(is_insert_pos(blocks, height, q));
    if q < p {
        assert(blocks[q].height <= height);
    } else if p < q {
        assert(blocks[p].height <= height);
    }
}

/// Taking a block out keeps the rules of the block table, and leaves no
/// block of that hash.
pub proof fn lemma_blocks_without(s: StoreModel, hash: Seq<char>)
    requires
        distinct_hashes(s.blocks),
        ascending(s.blocks),
    ensures
        distinct_hashes(s.blocks_without(hash)),
        ascending(s.blocks_without(hash)),
        forall|i: int|
            0 <= i < s.blocks_without(hash).len() ==> (#[trigger] s.blocks_without(hash)[i]).hash
                != hash,
        s.blocks_without(hash).len() == s.blocks.len() - if s.has_block(hash) {
            1int
        } else {
            0int
        },
{
    let rest = s.blocks_without(hash);
    if s.has_block(hash) {
        let p = s.block_pos(hash);
        assert forall|i: int| 0 <= i < rest.len() implies (#[trigger] rest[i]) == s.blocks[if i
            < p {
            i
        } else {
            i + 1
        }] by {}
        assert forall|i: int| 0 <= i < rest.len() implies (#[trigger] rest[i]).hash != hash by {
            let k = if i < p {
                i
            } else {
                i + 1
            };
            if k < p {
                assert(s.blocks[k].hash != s.blocks[p].hash);
            } else {
                assert(s.blocks[p].hash != s.blocks[k].hash);
            }
        }
    }
}

/// In a store that obeys the rules, the block found under a hash is the one
/// that stands at any place with that hash.
pub proof fn lemma_block_at(s: StoreModel, k: int)
    requires
        distinct_hashes(s.blocks),
        0 <= k < s.blocks.len(),
    ensures
        s.has_block(s.blocks[k].hash),
        s.block_pos(s.blocks[k].hash) == k,
        s.block(s.blocks[k].hash) == s.blocks[k],
{
    let h = s.blocks[k].hash;
    let p = s.block_pos(h);
    assert(0 <= p < s.blocks.len() && s.blocks[p].hash == h);
    if p < k {
        assert(s.blocks[p].hash != s.blocks[k].hash);
    } else if k < p {
        assert(s.blocks[k].hash != s.blocks[p].hash);
    }
}

/// In a store that obeys the rules, the transaction found under a hash is
/// the one that stands at any place with that hash.
pub proof fn lemma_tx_at(s: StoreModel, k: int)
    requires
        distinct_txids(s.txs),
        0 <= k < s.txs.len(),
    ensures
        s.has_tx(s.txs[k].txid),
        s.tx_pos(s.txs[k].txid) == k,
        s.tx(s.txs[k].txid) == s.txs[k],
{
    let h = s.txs[k].txid;
    let p = s.tx_pos(h);
    assert(0 <= p < s.txs.len() && s.txs[p].txid == h);
    if p < k {
        assert(s.txs[p].txid != s.txs[k].txid);
    } else if k < p {
        assert(s.txs[k].txid != s.txs[p].txid);
    }
}

/// A record that enters at the place of its height, into a table that does
/// not hold its hash, keeps the rules of the block table.
pub proof fn lemma_insert_keeps_order(rest: Seq<BlockModel>, p: int, record: BlockModel)
    requires
        distinct_hashes(rest),
        ascending(rest),
        forall|i: int| 0 <= i < rest.len() ==> (#[trigger] rest[i]).hash != record.hash,
        is_insert_pos(rest, record.height, p),
    ensures
        distinct_hashes(rest.insert(p, record)),
        ascending(rest.insert(p, record)),
{
    let t = rest.insert(p, record);
    assert forall|i: int, j: int| 0 <= i < j < t.len() implies (#[trigger] t[i]).hash != (
    #[trigger] t[j]).hash && t[i].height <= t[j].height by {
        let a = if i < p {
            i
        } else {
            i - 1
        };
        let b = if j < p {
            j
        } else {
            j - 1
        };
        if i == p {
            assert(t[j] == rest[b]);
        } else if j == p {
            assert(t[i] == rest[a]);
        } else {
            assert(t[i] == rest[a] && t[j] == rest[b]);
        }
    }
}

/// After a block is written it is found under its hash, and the table has
/// grown by one exactly if the hash was new.
pub proof fn lemma_put_block_self(s: StoreModel, record: BlockModel)
    requires
        s.wf(),
    ensures
        distinct_hashes(s.put_block(record).blocks),
        ascending(s.put_block(record).blocks),
        s.put_block(record).has_block(record.hash),
        s.put_block(record).block(record.hash) == record,
        s.put_block(record).blocks.len() == s.blocks.len() + if s.has_block(record.hash) {
            0int
        } else {
            1int
        },
{
    let rest = s.blocks_without(record.hash);
    lemma_blocks_without(s, record.hash);
    lemma_insert_pos_exists(rest, record.height);
    let p = insert_pos(rest, record.height);
    let t = s.put_block(record);
    lemma_insert_keeps_order(rest, p, record);
    assert(t.blocks[p] == record);
    lemma_block_at(t, p);
}

/// After a block is written, a block of another hash is stored exactly if
/// it was before, and is the same.
pub proof fn lemma_put_block_other(s: StoreModel, record: BlockModel, h: Seq<char>)
    requires
        s.wf(),
        h != record.hash,
    ensures
        s.put_block(record).has_block(h) <==> s.has_block(h),
        s.has_block(h) ==> s.put_block(record).block(h) == s.block(h),
{
    let rest = s.blocks_without(record.hash);
    lemma_insert_pos_exists(rest, record.height);
    lemma_put_block_self(s, record);
    let p = insert_pos(rest, record.height);
    let t = s.put_block(record);
    assert(t.blocks == rest.insert(p, record));
    if s.has_block(h) {
        let k = s.block_pos(h);
        let i = if s.has_block(record.hash) && s.block_pos(record.hash) < k {
            k - 1
        } else {
            k
        };
        assert(rest[i] == s.blocks[k]);
        let j = if i < p {
            i
        } else {
            i + 1
        };
        assert(t.blocks[j] == rest[i]);
        lemma_block_at(t, j);
    }
    if t.has_block(h) {
        let j = t.block_pos(h);
        let i = if j < p {
            j
        } else {
            j - 1
        };
        assert(t.blocks[j] == rest[i]);
        let k = if s.has_block(record.hash) && s.block_pos(record.hash) <= i {
            i + 1
        } else {
            i
        };
        assert(rest[i] == s.blocks[k]);
        assert(s.blocks[k].hash == h);
    }
}

/// Writing a block keeps the rules of the store.
pub proof fn lemma_put_block(s: StoreModel, record: BlockModel)
    requires
        s.wf(),
    ensures
        s.put_block(record).wf(),
{
    let t = s.put_block(record);
    lemma_put_block_self(s, record);
    assert forall|i: int| 0 <= i < t.txs.len() implies t.has_block(
        (#[trigger] t.txs[i]).block_hash,
    ) by {
        let h = t.txs[i].block_hash;
        assert(s.has_block(s.txs[i].block_hash));
        if h != record.hash {
            lemma_put_block_other(s, record, h);
        }
    }
}

/// After a transaction is written it is found under its hash, and the table
/// has grown by one exactly if the hash was new.
pub proof fn lemma_put_tx_self(s: StoreModel, record: TxModel)
    requires
        distinct_txids(s.txs),
    ensures
        distinct_txids(s.put_tx(record).txs),
        s.put_tx(record).has_tx(record.txid),
        s.put_tx(record).tx(record.txid) == record,
        s.put_tx(record).txs.len() == s.txs.len() + if s.has_tx(record.txid) {
            0int
        } else {
            1int
        },
        s.put_tx(record).blocks == s.blocks,
{
    let rest = s.txs_without(record.txid);
    let t = s.put_tx(record);
    assert forall|i: int| 0 <= i < rest.len() implies (#[trigger] rest[i]).txid != record.txid
        && exists|k: int| 0 <= k < s.txs.len() && #[trigger] s.txs[k] == rest[i] by {
        if s.has_tx(record.txid) {
            let q = s.tx_pos(record.txid);
            let k = if i < q {
                i
            } else {
                i + 1
            };
            assert(rest[i] == s.txs[k]);
            if k < q {
                assert(s.txs[k].txid != s.txs[q].txid);
            } else {
                assert(s.txs[q].txid != s.txs[k].txid);
            }
        } else {
            assert(rest[i] == s.txs[i]);
        }
    }
    assert forall|i: int, j: int| 0 <= i < j < rest.len() implies (#[trigger] rest[i]).txid != (
    #[trigger] rest[j]).txid by {
        if s.has_tx(record.txid) {
            let q = s.tx_pos(record.txid);
            let a = if i < q {
                i
            } else {
                i + 1
            };
            let b = if j < q {
                j
            } else {
                j + 1
            };
            assert(rest[i] == s.txs[a] && rest[j] == s.txs[b]);
        }
    }
    assert forall|i: int, j: int| 0 <= i < j < t.txs.len() implies (#[trigger] t.txs[i]).txid != (
    #[trigger] t.txs[j]).txid by {
        assert(t.txs[i] == rest[i]);
        if j < rest.len() {
            assert(t.txs[j] == rest[j]);
        }
    }
    assert(t.txs[rest.len() as int] == record);
    lemma_tx_at(t, rest.len() as int);
}

/// After a transaction is written, a transaction of another hash is stored
/// exactly if it was before, and is the same.
pub proof fn lemma_put_tx_other(s: StoreModel, record: TxModel, id: Seq<char>)
    requires
        distinct_txids(s.txs),
        id != record.txid,
    ensures
        s.put_tx(record).has_tx(id) <==> s.has_tx(id),
        s.has_tx(id) ==> s.put_tx(record).tx(id) == s.tx(id),
{
    let rest = s.txs_without(record.txid);
    let t = s.put_tx(record);
    lemma_put_tx_self(s, record);
    if s.has_tx(id) {
        let k = s.tx_pos(id);
        let i = if s.has_tx(record.txid) && s.tx_pos(record.txid) < k {
            k - 1
        } else {
            k
        };
        assert(rest[i] == s.txs[k]);
        assert(t.txs[i] == rest[i]);
        lemma_tx_at(t, i);
    }
    if t.has_tx(id) {
        let j = t.tx_pos(id);
        assert(j < rest.len());
        assert(t.txs[j] == rest[j]);
        let k = if s.has_tx(record.txid) && s.tx_pos(record.txid) <= j {
            j + 1
        } else {
            j
        };
        assert(rest[j] == s.txs[k]);
        assert(s.txs[k].txid == id);
    }
}

/// Writing a transaction that belongs to a stored block keeps the rules of
/// the store.
pub proof fn lemma_put_tx(s: StoreModel, record: TxModel)
    requires
        s.wf(),
        s.has_block(record.block_hash),
    ensures
        s.put_tx(record).wf(),
{
    let rest = s.txs_without(record.txid);
    let t = s.put_tx(record);
    lemma_put_tx_self(s, record);
    assert forall|i: int| 0 <= i < t.txs.len() implies t.has_block(
        (#[trigger] t.txs[i]).block_hash,
    ) by {
        if i < rest.len() {
            assert(t.txs[i] == rest[i]);
            let k = if s.has_tx(record.txid) && s.tx_pos(record.txid) <= i {
                i + 1
            } else {
                i
            };
            assert(rest[i] == s.txs[k]);
            assert(s.has_block(s.txs[k].block_hash));
        }
    }
}

/// The first place at which a block has a height is the place that is found
/// for that height.
pub proof fn lemma_height_at(s: StoreModel, height: u32, k: int)
    requires
        0 <= k < s.blocks.len(),
        s.blocks[k].height == height,
        forall|j: int| 0 <= j < k ==> (#[trigger] s.blocks[j]).height != height,
    ensures
        s.has_height(height),
        s.height_pos(height) == k,
{
    let p = s.height_pos(height);
    assert(0 <= p < s.blocks.len() && s.blocks[p].height == height && forall|j: int|
        0 <= j < p ==> (#[trigger] s.blocks[j]).height != height);
}

/// Whether every record belongs to the block `hash`.
pub open spec fn all_belong(records: Seq<TxModel>, hash: Seq<char>) -> bool {
    forall|k: int| 0 <= k < records.len() ==> (#[trigger] records[k]).block_hash == hash
}

/// Whether a transaction of each of these identity hashes is stored.
pub open spec fn all_stored(s: StoreModel, records: Seq<TxModel>) -> bool {
    forall|k: int| 0 <= k < records.len() ==> s.has_tx((#[trigger] records[k]).txid)
}

/// Writing the transactions of a stored block keeps the rules and the block
/// table, and keeps every transaction that was stored.
pub proof fn lemma_put_txs(s: StoreModel, records: Seq<TxModel>, hash: Seq<char>)
    requires
        s.wf(),
        s.has_block(hash),
        all_belong(records, hash),
    ensures
        s.put_txs(records).wf(),
        s.put_txs(records).blocks == s.blocks,
        forall|id: Seq<char>| s.has_tx(id) ==> #[trigger] s.put_txs(records).has_tx(id),
        s.put_txs(records).txs.len() >= s.txs.len(),
    decreases records.len(),
{
    if records.len() > 0 {
        let front = records.drop_last();
        let r = records.last();
        assert(all_belong(front, hash)) by {
            assert forall|k: int| 0 <= k < front.len() implies (#[trigger] front[k]).block_hash
                == hash by {
                assert(front[k] == records[k]);
            }
        }
        lemma_put_txs(s, front, hash);
        let t = s.put_txs(front);
        assert(t.has_block(r.block_hash));
        lemma_put_tx(t, r);
        lemma_put_tx_self(t, r);
        assert forall|id: Seq<char>| s.has_tx(id) implies #[trigger] s.put_txs(records).has_tx(
            id,
        ) by {
            assert(t.has_tx(id));
            if id != r.txid {
                lemma_put_tx_other(t, r, id);
            }
        }
    }
}

/// After the transactions of a stored block are written, each of them is
/// stored and belongs to that block.
pub proof fn lemma_put_txs_stored(s: StoreModel, records: Seq<TxModel>, hash: Seq<char>, k: int)
    requires
        s.wf(),
        s.has_block(hash),
        all_belong(records, hash),
        0 <= k < records.len(),
    ensures
        s.put_txs(records).has_tx(records[k].txid),
        s.put_txs(records).tx(records[k].txid).block_hash == hash,
    decreases records.len(),
{
    let front = records.drop_last();
    let r = records.last();
    assert(all_belong(front, hash)) by {
        assert forall|j: int| 0 <= j < front.len() implies (#[trigger] front[j]).block_hash
            == hash by {
            assert(front[j] == records[j]);
        }
    }
    lemma_put_txs(s, front, hash);
    let t = s.put_txs(front);
    lemma_put_tx_self(t, r);
    if records[k].txid != r.txid {
        assert(front[k] == records[k]);
        lemma_put_txs_stored(s, front, hash, k);
        lemma_put_tx_other(t, r, records[k].txid);
    }
}

/// Writing transactions that are all stored already keeps the number of
/// transactions.
pub proof fn lemma_put_txs_again(s: StoreModel, records: Seq<TxModel>, hash: Seq<char>)
    requires
        s.wf(),
        s.has_block(hash),
        all_belong(records, hash),
        all_stored(s, records),
    ensures
        s.put_txs(records).txs.len() == s.txs.len(),
    decreases records.len(),
{
    if records.len() > 0 {
        let front = records.drop_last();
        let r = records.last();
        assert(all_belong(front, hash) && all_stored(s, front)) by {
            assert forall|k: int| 0 <= k < front.len() implies (#[trigger] front[k]).block_hash
                == hash && s.has_tx(front[k].txid) by {
                assert(front[k] == records[k]);
            }
        }
        lemma_put_txs_again(s, front, hash);
        lemma_put_txs(s, front, hash);
        let t = s.put_txs(front);
        assert(s.has_tx(r.txid));
        assert(t.has_tx(r.txid));
        lemma_put_tx_self(t, r);
    }
}

/// The transactions of a block all name the block as their owner.
pub proof fn lemma_block_txs_belong(block: bitcoin::Block)
    ensures
        all_belong(block_tx_models(block), block_model(block, 0).hash),
{
}

/// Writing a decoded block keeps the rules of the store. Afterwards the
/// block is stored as it was decoded, every block and every transaction
/// that was stored before is still stored, and neither table is shorter.
pub proof fn lemma_ingest(s: StoreModel, block: bitcoin::Block, height: u32)
    requires
        s.wf(),
    ensures
        s.ingest(block, height).wf(),
        s.ingest(block, height).has_block(block_model(block, height).hash),
        s.ingest(block, height).block(block_model(block, height).hash) == block_model(
            block,
            height,
        ),
        s.ingest(block, height).blocks == s.put_block(block_model(block, height)).blocks,
        forall|h: Seq<char>| s.has_block(h) ==> #[trigger] s.ingest(block, height).has_block(h),
        forall|id: Seq<char>| s.has_tx(id) ==> #[trigger] s.ingest(block, height).has_tx(id),
        s.ingest(block, height).blocks.len() >= s.blocks.len(),
        s.ingest(block, height).txs.len() >= s.txs.len(),
{
    let record = block_model(block, height);
    let mid = s.put_block(record);
    lemma_put_block(s, record);
    lemma_put_block_self(s, record);
    lemma_block_txs_belong(block);
    lemma_put_txs(mid, block_tx_models(block), record.hash);
    let t = s.ingest(block, height);
    assert forall|h: Seq<char>| s.has_block(h) implies #[trigger] t.has_block(h) by {
        if h != record.hash {
            lemma_put_block_other(s, record, h);
        }
        assert(mid.has_block(h));
    }
}

/// Writing a decoded block of which the block and every transaction are
/// stored already keeps the length of both tables.
pub proof fn lemma_ingest_again(s: StoreModel, block: bitcoin::Block, height: u32)
    requires
        s.wf(),
        s.has_block(block_model(block, height).hash),
        all_stored(s, block_tx_models(block)),
    ensures
        s.ingest(block, height).blocks.len() == s.blocks.len(),
        s.ingest(block, height).txs.len() == s.txs.len(),
{
    let record = block_model(block, height);
    let mid = s.put_block(record);
    lemma_put_block(s, record);
    lemma_put_block_self(s, record);
    lemma_block_txs_belong(block);
    lemma_put_txs(mid, block_tx_models(block), record.hash);
    assert(all_stored(mid, block_tx_models(block))) by {
        assert(mid.txs == s.txs);
        assert forall|k: int| 0 <= k < block_tx_models(block).len() implies mid.has_tx(
            (#[trigger] block_tx_models(block)[k]).txid,
        ) by {
            assert(s.has_tx(block_tx_models(block)[k].txid));
        }
    }
    lemma_put_txs_again(mid, block_tx_models(block), record.hash);
}

} // verus!
