//! The store: the block and the transaction table, written with replace
//! semantics and read by the primitive queries.
use crate::codec::{block_header, block_transactions, read_transactions};
use crate::models::{BlockResponse, BlockSummary, TxInSimplified, TxOutSimplified, TxResponse};
use crate::records::{
    block_record, block_tx_models, text, tx_model, tx_record, BlockRecord, TxRecord,
};
use crate::store_model::{
    ascending, is_insert_pos, lemma_block_at, lemma_blocks_without, lemma_insert_pos_unique,
    lemma_height_at, lemma_put_block, lemma_put_block_self, lemma_put_tx, lemma_tx_at,
    lemma_tx_ids_step, tx_ids_of, StoreModel,
};
use vstd::prelude::*;

verus! {

/// Why the store refused a request.
#[derive(Debug, Clone, Copy, PartialEq, Eq, Structural)]
pub enum StoreError {
    /// A transaction names an owning block that is not stored.
    ForeignKey,
    /// A stored number does not fit the type in which it was asked for.
    OutOfRange,
}

impl StoreError {
    /// The error in words.
    pub fn message(&self) -> (r: &'static str)
        ensures
            r@ == match *self {
                StoreError::ForeignKey => "FOREIGN KEY constraint failed"@,
                StoreError::OutOfRange => "Integer out of range"@,
            },
    {
        match self {
            StoreError::ForeignKey => "FOREIGN KEY constraint failed",
            StoreError::OutOfRange => "Integer out of range",
        }
    }
}

/// The store. Its tables are reached through the functions of this module
/// only, which keep the rules of [`StoreModel::wf`].
pub struct Store {
    blocks: Vec<BlockRecord>,
    txs: Vec<TxRecord>,
}

impl View for Store {
    type V = StoreModel;

    closed spec fn view(&self) -> StoreModel {
        StoreModel { blocks: self.blocks.deep_view(), txs: self.txs.deep_view() }
    }
}

impl Store {
    /// Every store obeys the rules of [`StoreModel::wf`].
    #[verifier::type_invariant]
    pub open spec fn obeys_rules(self) -> bool {
        self@.wf()
    }

    /// A store without any record.
    pub fn new() -> (r: Store)
        ensures
            r@ == StoreModel::empty(),
            r@.wf(),
    {
        let r = Store { blocks: Vec::new(), txs: Vec::new() };
        assert(r@.blocks =~= Seq::empty());
        assert(r@.txs =~= Seq::empty());
        r
    }

    /// The block table, in its order.
    pub fn blocks(&self) -> (r: &Vec<BlockRecord>)
        ensures
            r.deep_view() == self@.blocks,
    {
        &self.blocks
    }

    /// The transaction table, in its order.
    pub fn transactions(&self) -> (r: &Vec<TxRecord>)
        ensures
            r.deep_view() == self@.txs,
    {
        &self.txs
    }

    /// The place of the block with this identity hash.
    fn find_block(&self, hash: &String) -> (r: Option<usize>)
        ensures
            r is Some <==> self@.has_block(hash@),
            r matches Some(i) ==> i == self@.block_pos(hash@) && i < self.blocks.len()
                && self.blocks[i as int]@ == self@.block(hash@),
    {
        let r = position_of_hash(&self.blocks, hash);
        proof {
            use_type_invariant(self);
            match r {
                Some(i) => {
                    assert(self@.blocks[i as int] == self.blocks[i as int]@);
                    lemma_block_at(self@, i as int);
                },
                None => {
                    if self@.has_block(hash@) {
                        let k = self@.block_pos(hash@);
                        assert(self@.blocks[k] == self.blocks[k]@);
                    }
                },
            }
        }
        r
    }

    /// The place of the transaction with this identity hash.
    fn find_tx(&self, txid: &String) -> (r: Option<usize>)
        ensures
            r is Some <==> self@.has_tx(txid@),
            r matches Some(i) ==> i == self@.tx_pos(txid@) && i < self.txs.len()
                && self.txs[i as int]@ == self@.tx(txid@),
    {
        let r = position_of_txid(&self.txs, txid);
        proof {
            use_type_invariant(self);
            match r {
                Some(i) => {
                    assert(self@.txs[i as int] == self.txs[i as int]@);
                    lemma_tx_at(self@, i as int);
                },
                None => {
                    if self@.has_tx(txid@) {
                        let k = self@.tx_pos(txid@);
                        assert(self@.txs[k] == self.txs[k]@);
                    }
                },
            }
        }
        r
    }

    /// The number of stored transactions that belong to the block `hash`.
    fn count_txs(&self, hash: &String) -> (r: usize)
        ensures
            r == self@.tx_count(hash@),
    {
        let mut count: usize = 0;
        let mut i: usize = 0;
        while i < self.txs.len()
            invariant
                i <= self.txs.len(),
                count == tx_ids_of(self@.txs.take(i as int), hash@).len(),
                count <= i,
            decreases self.txs.len() - i,
        {
            proof {
                lemma_tx_ids_step(self@.txs, hash@, i as int);
                assert(self@.txs[i as int] == self.txs[i as int]@);
            }
            if self.txs[i].block_hash == *hash {
                count += 1;
            }
            i += 1;
        }
        proof {
            assert(self@.txs.take(i as int) =~= self@.txs);
        }
        count
    }

    /// The listing line of the block at place `i`.
    fn summary_at(&self, i: usize) -> (r: BlockSummary)
        requires
            i < self@.blocks.len(),
        ensures
            r@ == self@.summary(i as int),
    {
        let b = &self.blocks[i];
        proof {
            assert(self@.blocks[i as int] == b@);
        }
        BlockSummary {
            hash: b.hash.clone(),
            height: b.height,
            timestamp: b.timestamp,
            tx_count: self.count_txs(&b.hash),
        }
    }

    /// Writes a block record, in place of a stored block of the same
    /// identity hash if there is one.
    pub fn put_block(&mut self, record: BlockRecord)
        ensures
            final(self)@ == old(self)@.put_block(record@),
            final(self)@.wf(),
    {
        proof {
            use_type_invariant(&*self);
        }
        let ghost before = self@;
        let found = self.find_block(&record.hash);
        let mut taken = Store::new();
        core::mem::swap(self, &mut taken);
        let Store { blocks: mut blocks, txs } = taken;
        if let Some(i) = found {
            blocks.remove(i);
        }
        let ghost rest = blocks.deep_view();
        proof {
            assert(rest =~= before.blocks_without(record@.hash));
            lemma_blocks_without(before, record@.hash);
        }
        let p = place_for_height(&blocks, record.height);
        proof {
            lemma_insert_pos_unique(rest, record.height, p as int);
            lemma_put_block(before, record@);
        }
        blocks.insert(p, record);
        assert(blocks.deep_view() =~= rest.insert(p as int, record@));
        *self = Store { blocks, txs };
    }

    /// Writes a transaction record, in place of a stored transaction of the
    /// same identity hash if there is one. A record whose owning block is
    /// not stored is refused, and the store stays as it was.
    pub fn put_tx(&mut self, record: TxRecord) -> (r: Result<(), StoreError>)
        ensures
            final(self)@.wf(),
            old(self)@.has_block(record@.block_hash) ==> r is Ok && final(self)@ == old(self)@.put_tx(
                record@,
            ),
            !old(self)@.has_block(record@.block_hash) ==> r == Err::<(), StoreError>(
                StoreError::ForeignKey,
            ) && final(self)@ == old(self)@,
    {
        proof {
            use_type_invariant(&*self);
        }
        if self.find_block(&record.block_hash).is_none() {
            return Err(StoreError::ForeignKey);
        }
        self.write_tx(record);
        Ok(())
    }

    /// Writes a transaction record whose owning block is stored.
    fn write_tx(&mut self, record: TxRecord)
        requires
            old(self)@.has_block(record@.block_hash),
        ensures
            final(self)@ == old(self)@.put_tx(record@),
            final(self)@.wf(),
    {
        proof {
            use_type_invariant(&*self);
        }
        let ghost before = self@;
        let found = self.find_tx(&record.txid);
        let mut taken = Store::new();
        core::mem::swap(self, &mut taken);
        let Store { blocks, txs: mut txs } = taken;
        if let Some(i) = found {
            txs.remove(i);
        }
        proof {
            assert(txs.deep_view() =~= before.txs_without(record@.txid));
            lemma_put_tx(before, record@);
        }
        txs.push(record);
        assert(txs.deep_view() =~= before.txs_without(record@.txid).push(record@));
        *self = Store { blocks, txs };
    }
}

/// The tables of a store have machine lengths.
pub proof fn lemma_store_fits(store: &Store)
    ensures
        store@.blocks.len() <= usize::MAX,
        store@.txs.len() <= usize::MAX,
{
    assert(store@.blocks.len() == store.blocks.len());
    assert(store@.txs.len() == store.txs.len());
}

/// Writes a decoded block at a height: first its record, in place of a
/// stored block of the same identity hash, then the record of each of its
/// transactions in block order, each in place of a stored transaction of
/// the same identity hash.
pub fn insert_block(store: &mut Store, block: &bitcoin::Block, height: u32) -> (r: Result<
    (),
    StoreError,
>)
    ensures
        r is Ok,
        final(store)@ == old(store)@.ingest(*block, height),
        final(store)@.wf(),
{
    let record = block_record(block, height);
    let hash = record.hash.clone();
    let ghost models = block_tx_models(*block);
    let ghost after = store@.put_block(record@);
    proof {
        use_type_invariant(&*store);
        lemma_put_block_self(store@, record@);
    }
    store.put_block(record);
    let txs = read_transactions(block);
    let mut k: usize = 0;
    while k < txs.len()
        invariant
            k <= txs.len(),
            txs@ == block_transactions(*block),
            models == block_tx_models(*block),
            hash@ == block_header(*block).hash,
            store@.wf(),
            store@.has_block(hash@),
            store@ == after.put_txs(models.take(k as int)),
        decreases txs.len() - k,
    {
        store.write_tx(tx_record(&txs[k], hash.as_str()));
        proof {
            assert(models.take(k + 1).drop_last() =~= models.take(k as int));
            assert(models.take(k + 1).last() == models[k as int]);
        }
        k += 1;
    }
    proof {
        assert(models.take(k as int) =~= models);
    }
    Ok(())
}

/// Writes the record of a transaction that belongs to the block
/// `block_hash`, in place of a stored transaction of the same identity hash.
/// Where no block of that hash is stored the write is refused and the store
/// stays as it was.
pub fn insert_tx(store: &mut Store, tx: &bitcoin::Transaction, block_hash: &str) -> (r: Result<
    (),
    StoreError,
>)
    ensures
        final(store)@.wf(),
        old(store)@.has_block(block_hash@) ==> r is Ok && final(store)@ == old(store)@.put_tx(
            tx_model(*tx, block_hash@),
        ),
        !old(store)@.has_block(block_hash@) ==> r == Err::<(), StoreError>(StoreError::ForeignKey)
            && final(store)@ == old(store)@,
{
    store.put_tx(tx_record(tx, block_hash))
}

/// The detail of the block with this identity hash, with every field as it
/// was decoded, or `None` where no such block is stored.
pub fn query_block(store: &Store, hash: &str) -> (r: Result<Option<BlockResponse>, StoreError>)
    ensures
        !store@.has_block(hash@) ==> r matches Ok(None),
        store@.has_block(hash@) ==> (r matches Ok(Some(b)) && b@ == store@.block_response(hash@)),
{
    let key = text(hash);
    match store.find_block(&key) {
        None => Ok(None),
        Some(i) => {
            let b = &store.blocks[i];
            let tx_count = store.count_txs(&key);
            Ok(
                Some(
                    BlockResponse {
                        hash: b.hash.clone(),
                        height: b.height,
                        version: b.version,
                        prev_block: b.prev_block.clone(),
                        merkle_root: b.merkle_root.clone(),
                        timestamp: b.timestamp,
                        bits: b.bits,
                        nonce: b.nonce,
                        tx_count,
                        size: b.size,
                    },
                ),
            )
        },
    }
}

/// The detail of the first block in table order that has this height, or
/// `None` where no block has it.
pub fn query_block_by_height(store: &Store, height: u32) -> (r: Result<
    Option<BlockResponse>,
    StoreError,
>)
    ensures
        !store@.has_height(height) ==> r matches Ok(None),
        store@.has_height(height) ==> (r matches Ok(Some(b)) && b@ == store@.block_response(
            store@.hash_at_height(height),
        )),
{
    proof {
        use_type_invariant(store);
    }
    let mut i: usize = 0;
    while i < store.blocks.len()
        invariant
            i <= store.blocks.len(),
            store@.wf(),
            forall|j: int| 0 <= j < i ==> (#[trigger] store@.blocks[j]).height != height,
        decreases store.blocks.len() - i,
    {
        if store.blocks[i].height == height {
            proof {
                assert(store@.blocks[i as int] == store.blocks[i as int]@);
                lemma_height_at(store@, height, i as int);
                lemma_block_at(store@, i as int);
            }
            return query_block(store, store.blocks[i].hash.as_str());
        }
        proof {
            assert(store@.blocks[i as int] == store.blocks[i as int]@);
        }
        i += 1;
    }
    Ok(None)
}

/// The detail of the transaction with this identity hash, or `None` where
/// no such transaction is stored. A transaction so long that four times its
/// length is no machine number cannot be shown, and is an error.
pub fn query_tx(store: &Store, txid: &str) -> (r: Result<Option<TxResponse>, StoreError>)
    ensures
        !store@.has_tx(txid@) ==> r matches Ok(None),
        store@.has_tx(txid@) && !store@.tx_readable(txid@) ==> r matches Err(
            StoreError::OutOfRange,
        ),
        store@.has_tx(txid@) && store@.tx_readable(txid@) ==> (r matches Ok(Some(t)) && t@
            == store@.tx_response(txid@)),
{
    let key = text(txid);
    match store.find_tx(&key) {
        None => Ok(None),
        Some(i) => {
            let t = &store.txs[i];
            let size = t.raw_data.len();
            let weight = match size.checked_mul(4) {
                Some(w) => w,
                None => {
                    return Err(StoreError::OutOfRange);
                },
            };
            let block_height = match store.find_block(&t.block_hash) {
                Some(b) => Some(store.blocks[b].height),
                None => None,
            };
            let mut inputs: Vec<TxInSimplified> = Vec::new();
            let mut k: usize = 0;
            while k < t.inputs.len()
                invariant
                    k <= t.inputs.len(),
                    inputs.len() == k,
                    forall|j: int| 0 <= j < k ==> (#[trigger] inputs[j])@ == t.inputs[j]@,
                decreases t.inputs.len() - k,
            {
                inputs.push(t.inputs[k].duplicate());
                k += 1;
            }
            let mut outputs: Vec<TxOutSimplified> = Vec::new();
            let mut k: usize = 0;
            while k < t.outputs.len()
                invariant
                    k <= t.outputs.len(),
                    outputs.len() == k,
                    forall|j: int| 0 <= j < k ==> (#[trigger] outputs[j])@ == t.outputs[j]@,
                decreases t.outputs.len() - k,
            {
                outputs.push(t.outputs[k].duplicate());
                k += 1;
            }
            let r = TxResponse {
                txid: t.txid.clone(),
                version: 1,
                lock_time: 0,
                block_hash: Some(t.block_hash.clone()),
                block_height,
                confirmations: None,
                inputs,
                outputs,
                size,
                vsize: size,
                weight,
            };
            proof {
                assert(r@.inputs =~= t@.inputs);
                assert(r@.outputs =~= t@.outputs);
            }
            Ok(Some(r))
        },
    }
}

/// The highest blocks, at most `limit` of them, the highest first.
pub fn query_latest_blocks(store: &Store, limit: usize) -> (r: Result<
    Vec<BlockSummary>,
    StoreError,
>)
    ensures
        r matches Ok(v) && v.deep_view() == store@.latest(limit as int),
{
    proof {
        use_type_invariant(store);
    }
    let n = store.blocks.len();
    let count = if n < limit {
        n
    } else {
        limit
    };
    let mut v: Vec<BlockSummary> = Vec::new();
    let mut k: usize = 0;
    while k < count
        invariant
            k <= count <= n,
            n == store.blocks.len(),
            store@.wf(),
            v.len() == k,
            forall|j: int| 0 <= j < k ==> (#[trigger] v[j])@ == store@.summary(n - 1 - j),
        decreases count - k,
    {
        v.push(store.summary_at(n - 1 - k));
        k += 1;
    }
    proof {
        assert(v.deep_view() =~= store@.latest(limit as int));
    }
    Ok(v)
}

/// The number of stored blocks. A number above `u32::MAX` is an error.
pub fn query_block_count(store: &Store) -> (r: Result<u32, StoreError>)
    ensures
        store@.blocks.len() <= u32::MAX ==> (r matches Ok(n) && n == store@.blocks.len()),
        store@.blocks.len() > u32::MAX ==> r matches Err(StoreError::OutOfRange),
{
    let n = store.blocks.len();
    if n <= 0xffff_ffff {
        Ok(n as u32)
    } else {
        Err(StoreError::OutOfRange)
    }
}

/// The number of stored transactions.
pub fn query_transaction_count(store: &Store) -> (r: Result<u64, StoreError>)
    ensures
        r matches Ok(n) && n == store@.txs.len(),
{
    Ok(store.txs.len() as u64)
}

/// The height and the identity hash of the highest block, or `None` where
/// the store holds no block. Of several blocks with the greatest height it
/// is the one written last.
pub fn query_latest_block(store: &Store) -> (r: Result<Option<(u32, String)>, StoreError>)
    ensures
        store@.blocks.len() == 0 ==> r matches Ok(None),
        store@.blocks.len() > 0 ==> (r matches Ok(Some(p)) && p.0
            == store@.blocks.last().height && p.1@ == store@.blocks.last().hash),
{
    let n = store.blocks.len();
    if n == 0 {
        Ok(None)
    } else {
        let b = &store.blocks[n - 1];
        proof {
            assert(store@.blocks[n - 1] == b@);
        }
        Ok(Some((b.height, b.hash.clone())))
    }
}

/// A window of the blocks in ascending order of height: at most `limit`
/// lines, starting at place `offset`.
pub fn query_all_blocks(store: &Store, limit: usize, offset: usize) -> (r: Result<
    Vec<BlockSummary>,
    StoreError,
>)
    ensures
        r matches Ok(v) && v.deep_view() == store@.window(offset as int, limit as int),
{
    proof {
        use_type_invariant(store);
    }
    let n = store.blocks.len();
    let count = if offset >= n {
        0
    } else if n - offset < limit {
        n - offset
    } else {
        limit
    };
    let mut v: Vec<BlockSummary> = Vec::new();
    let mut k: usize = 0;
    while k < count
        invariant
            k <= count,
            count == store@.window_len(offset as int, limit as int),
            n == store.blocks.len(),
            store@.wf(),
            v.len() == k,
            forall|j: int| 0 <= j < k ==> (#[trigger] v[j])@ == store@.summary(offset + j),
        decreases count - k,
    {
        v.push(store.summary_at(offset + k));
        k += 1;
    }
    proof {
        assert(v.deep_view() =~= store@.window(offset as int, limit as int));
    }
    Ok(v)
}

/// The identity hashes of the transactions that belong to the block `hash`,
/// in table order; none where the block has none or is not stored.
pub fn query_block_transactions(store: &Store, hash: &str) -> (r: Result<Vec<String>, StoreError>)
    ensures
        r matches Ok(v) && v.deep_view() == tx_ids_of(store@.txs, hash@),
{
    let key = text(hash);
    let mut v: Vec<String> = Vec::new();
    let mut i: usize = 0;
    while i < store.txs.len()
        invariant
            i <= store.txs.len(),
            key@ == hash@,
            v.deep_view() == tx_ids_of(store@.txs.take(i as int), hash@),
        decreases store.txs.len() - i,
    {
        proof {
            lemma_tx_ids_step(store@.txs, hash@, i as int);
            assert(store@.txs[i as int] == store.txs[i as int]@);
        }
        let ghost before = v.deep_view();
        if store.txs[i].block_hash == key {
            v.push(store.txs[i].txid.clone());
            assert(v.deep_view() =~= before.push(store.txs[i as int].txid@));
        }
        i += 1;
    }
    proof {
        assert(store@.txs.take(i as int) =~= store@.txs);
    }
    Ok(v)
}

/// The first place in a table at which a block has this identity hash.
fn position_of_hash(blocks: &Vec<BlockRecord>, hash: &String) -> (r: Option<usize>)
    ensures
        r matches Some(i) ==> i < blocks.len() && blocks[i as int].hash@ == hash@,
        r is None ==> forall|j: int| 0 <= j < blocks.len() ==> (#[trigger] blocks[j]).hash@ != hash@,
{
    let mut i: usize = 0;
    while i < blocks.len()
        invariant
            i <= blocks.len(),
            forall|j: int| 0 <= j < i ==> (#[trigger] blocks[j]).hash@ != hash@,
        decreases blocks.len() - i,
    {
        if blocks[i].hash == *hash {
            return Some(i);
        }
        i += 1;
    }
    None
}

/// The first place in a table at which a transaction has this identity hash.
fn position_of_txid(txs: &Vec<TxRecord>, txid: &String) -> (r: Option<usize>)
    ensures
        r matches Some(i) ==> i < txs.len() && txs[i as int].txid@ == txid@,
        r is None ==> forall|j: int| 0 <= j < txs.len() ==> (#[trigger] txs[j]).txid@ != txid@,
{
    let mut i: usize = 0;
    while i < txs.len()
        invariant
            i <= txs.len(),
            forall|j: int| 0 <= j < i ==> (#[trigger] txs[j]).txid@ != txid@,
        decreases txs.len() - i,
    {
        if txs[i].txid == *txid {
            return Some(i);
        }
        i += 1;
    }
    None
}

/// The place at which a block of this height enters an ordered table.
fn place_for_height(blocks: &Vec<BlockRecord>, height: u32) -> (p: usize)
    requires
        ascending(blocks.deep_view()),
    ensures
        is_insert_pos(blocks.deep_view(), height, p as int),
{
    let ghost table = blocks.deep_view();
    let mut p: usize = blocks.len();
    while p > 0 && blocks[p - 1].height > height
        invariant
            p <= blocks.len(),
            table == blocks.deep_view(),
            forall|i: int| p <= i < table.len() ==> (#[trigger] table[i]).height > height,
        decreases p,
    {
        p -= 1;
        assert(table[p as int] == blocks[p as int]@);
    }
    proof {
        assert forall|i: int| 0 <= i < p implies (#[trigger] table[i]).height <= height by {
            assert(table[p - 1] == blocks[p - 1]@);
            if i < p - 1 {
                assert(table[i].height <= table[p - 1].height);
            }
        }
    }
    p
}

} // verus!
