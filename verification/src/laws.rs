//! What holds of the store across writes, runs and queries.
use crate::codec::{block_header, block_transactions, decoded_block, tx_parts};
use crate::parser::{index_run, index_step, rejected_places};
use crate::records::{block_model, block_tx_models};
use crate::store_model::{
    all_stored, distinct_txids, insert_pos, is_insert_pos, lemma_block_txs_belong, lemma_blocks_without,
    lemma_height_at, lemma_ingest, lemma_ingest_again, lemma_insert_pos_exists,
    lemma_insert_pos_unique, lemma_put_block, lemma_put_block_other, lemma_put_block_self,
    lemma_put_txs_stored, shown_block, tx_ids_of, StoreModel,
};
use crate::records::TxModel;
use vstd::prelude::*;

verus! {

/// Whether no stored block other than the block `hash` has this height.
pub open spec fn height_free(s: StoreModel, height: u32, hash: Seq<char>) -> bool {
    forall|i: int|
        0 <= i < s.blocks.len() && (#[trigger] s.blocks[i]).hash != hash ==> s.blocks[i].height
            != height
}

/// A block that was written is found under its identity hash and shown with
/// the fields that were decoded and the height that it was given. Where no
/// other stored block had that height, the block found under the height is
/// the same one.
pub proof fn law_written_block_is_found(s: StoreModel, block: bitcoin::Block, height: u32)
    requires
        s.wf(),
    ensures
        s.ingest(block, height).wf(),
        s.ingest(block, height).has_block(block_header(block).hash),
        s.ingest(block, height).block(block_header(block).hash) == block_model(block, height),
        s.ingest(block, height).block_response(block_header(block).hash) == shown_block(
            block_model(block, height),
            s.ingest(block, height).tx_count(block_header(block).hash),
        ),
        height_free(s, height, block_header(block).hash) ==> s.ingest(block, height).has_height(
            height,
        ) && s.ingest(block, height).hash_at_height(height) == block_header(block).hash,
{
    let record = block_model(block, height);
    let t = s.ingest(block, height);
    lemma_ingest(s, block, height);
    if height_free(s, height, record.hash) {
        let rest = s.blocks_without(record.hash);
        lemma_blocks_without(s, record.hash);
        lemma_insert_pos_exists(rest, height);
        let p = insert_pos(rest, height);
        assert(t.blocks == rest.insert(p, record));
        assert(t.blocks[p] == record);
        assert forall|j: int| 0 <= j < p implies (#[trigger] t.blocks[j]).height != height by {
            assert(t.blocks[j] == rest[j]);
            let k = if s.has_block(record.hash) && s.block_pos(record.hash) <= j {
                j + 1
            } else {
                j
            };
            assert(rest[j] == s.blocks[k]);
        }
        lemma_height_at(t, height, p);
    }
}

/// The identity hash of a row that belongs to a block is among the
/// transactions of that block.
pub proof fn lemma_tx_ids_contains(txs: Seq<TxModel>, hash: Seq<char>, i: int)
    requires
        0 <= i < txs.len(),
        txs[i].block_hash == hash,
    ensures
        tx_ids_of(txs, hash).contains(txs[i].txid),
    decreases txs.len(),
{
    let rest = tx_ids_of(txs.drop_last(), hash);
    if i == txs.len() - 1 {
        assert(rest.push(txs[i].txid)[rest.len() as int] == txs[i].txid);
    } else {
        assert(txs.drop_last()[i] == txs[i]);
        lemma_tx_ids_contains(txs.drop_last(), hash, i);
        let k = choose|k: int| 0 <= k < rest.len() && rest[k] == txs[i].txid;
        if txs.last().block_hash == hash {
            assert(rest.push(txs.last().txid)[k] == txs[i].txid);
        }
    }
}

/// In every state of the store, a stored transaction belongs to a stored
/// block: it is listed among the transactions of that block, and its detail
/// shows its own identity hash, the hash of that block and the height of
/// that block.
pub proof fn law_transaction_is_linked(s: StoreModel, txid: Seq<char>)
    requires
        s.wf(),
        s.has_tx(txid),
    ensures
        s.has_block(s.tx(txid).block_hash),
        tx_ids_of(s.txs, s.tx(txid).block_hash).contains(txid),
        s.tx_response(txid).txid == txid,
        s.tx_response(txid).block_hash == Some(s.tx(txid).block_hash),
        s.tx_response(txid).block_height == Some(s.block(s.tx(txid).block_hash).height),
{
    let i = s.tx_pos(txid);
    assert(s.has_block(s.txs[i].block_hash));
    lemma_tx_ids_contains(s.txs, s.txs[i].block_hash, i);
}

/// After a block is written at a height, each of its transactions is listed
/// among the transactions of the block, and the detail of each shows the
/// hash of the block and that height.
pub proof fn law_block_transactions_are_linked(
    s: StoreModel,
    block: bitcoin::Block,
    height: u32,
    k: int,
)
    requires
        s.wf(),
        0 <= k < block_transactions(block).len(),
    ensures
        s.ingest(block, height).has_tx(tx_parts(block_transactions(block)[k]).txid),
        tx_ids_of(s.ingest(block, height).txs, block_header(block).hash).contains(
            tx_parts(block_transactions(block)[k]).txid,
        ),
        s.ingest(block, height).tx_response(tx_parts(block_transactions(block)[k]).txid).txid
            == tx_parts(block_transactions(block)[k]).txid,
        s.ingest(block, height).tx_response(
            tx_parts(block_transactions(block)[k]).txid,
        ).block_hash == Some(block_header(block).hash),
        s.ingest(block, height).tx_response(
            tx_parts(block_transactions(block)[k]).txid,
        ).block_height == Some(height),
{
    let record = block_model(block, height);
    let mid = s.put_block(record);
    let models = block_tx_models(block);
    let t = s.ingest(block, height);
    lemma_put_block(s, record);
    lemma_put_block_self(s, record);
    lemma_block_txs_belong(block);
    lemma_put_txs_stored(mid, models, record.hash, k);
    lemma_ingest(s, block, height);
    law_transaction_is_linked(t, models[k].txid);
}

/// Whether the block of a payload and each of its transactions are stored;
/// of a payload that the codec rejects nothing is asked.
pub open spec fn payload_stored(s: StoreModel, payload: Seq<u8>) -> bool {
    match decoded_block(payload) {
        Some(block) => s.has_block(block_header(block).hash) && all_stored(
            s,
            block_tx_models(block),
        ),
        None => true,
    }
}

/// Whether what each of the payloads holds is stored.
pub open spec fn payloads_stored(s: StoreModel, payloads: Seq<Seq<u8>>) -> bool {
    forall|i: int| 0 <= i < payloads.len() ==> payload_stored(s, #[trigger] payloads[i])
}

/// One step of the engine keeps the rules, and keeps stored what a payload
/// holds.
pub proof fn lemma_step_keeps(s: StoreModel, height: int, next: Seq<u8>, payload: Seq<u8>)
    requires
        s.wf(),
    ensures
        index_step((s, height), next).0.wf(),
        payload_stored(s, payload) ==> payload_stored(index_step((s, height), next).0, payload),
        payload_stored(index_step((s, height), next).0, next),
{
    match decoded_block(next) {
        Some(block) => {
            let t = s.ingest(block, height as u32);
            lemma_ingest(s, block, height as u32);
            if payload_stored(s, payload) {
                match decoded_block(payload) {
                    Some(b) => {
                        assert forall|k: int| 0 <= k < block_tx_models(b).len() implies t.has_tx(
                            (#[trigger] block_tx_models(b)[k]).txid,
                        ) by {
                            assert(s.has_tx(block_tx_models(b)[k].txid));
                        }
                    },
                    None => {},
                }
            }
            let record = block_model(block, height as u32);
            let mid = s.put_block(record);
            lemma_put_block(s, record);
            lemma_put_block_self(s, record);
            lemma_block_txs_belong(block);
            assert forall|k: int| 0 <= k < block_tx_models(block).len() implies t.has_tx(
                (#[trigger] block_tx_models(block)[k]).txid,
            ) by {
                lemma_put_txs_stored(mid, block_tx_models(block), record.hash, k);
            }
        },
        None => {},
    }
}

/// A run of the engine keeps the rules, and keeps stored what a payload
/// holds.
pub proof fn lemma_run_keeps(
    s: StoreModel,
    height: int,
    payloads: Seq<Seq<u8>>,
    payload: Seq<u8>,
)
    requires
        s.wf(),
    ensures
        index_run(s, height, payloads).0.wf(),
        payload_stored(s, payload) ==> payload_stored(index_run(s, height, payloads).0, payload),
    decreases payloads.len(),
{
    if payloads.len() > 0 {
        lemma_run_keeps(s, height, payloads.drop_last(), payload);
        let before = index_run(s, height, payloads.drop_last());
        lemma_step_keeps(before.0, before.1, payloads.last(), payload);
    }
}

/// After a run of the engine, what each of its payloads holds is stored.
pub proof fn lemma_run_stores(s: StoreModel, height: int, payloads: Seq<Seq<u8>>)
    requires
        s.wf(),
    ensures
        payloads_stored(index_run(s, height, payloads).0, payloads),
    decreases payloads.len(),
{
    if payloads.len() > 0 {
        let front = payloads.drop_last();
        lemma_run_stores(s, height, front);
        lemma_run_keeps(s, height, front, payloads.last());
        let before = index_run(s, height, front);
        let after = index_run(s, height, payloads).0;
        assert forall|i: int| 0 <= i < payloads.len() implies payload_stored(
            after,
            #[trigger] payloads[i],
        ) by {
            if i < front.len() {
                assert(front[i] == payloads[i]);
                assert(payload_stored(before.0, front[i]));
            }
            lemma_step_keeps(before.0, before.1, payloads.last(), payloads[i]);
        }
    }
}

/// A run of the engine over payloads of which everything is stored already
/// keeps the length of both tables.
pub proof fn lemma_run_again(s: StoreModel, height: int, payloads: Seq<Seq<u8>>)
    requires
        s.wf(),
        payloads_stored(s, payloads),
    ensures
        index_run(s, height, payloads).0.blocks.len() == s.blocks.len(),
        index_run(s, height, payloads).0.txs.len() == s.txs.len(),
    decreases payloads.len(),
{
    if payloads.len() > 0 {
        let front = payloads.drop_last();
        assert(payloads_stored(s, front)) by {
            assert forall|i: int| 0 <= i < front.len() implies payload_stored(
                s,
                #[trigger] front[i],
            ) by {
                assert(front[i] == payloads[i]);
            }
        }
        lemma_run_again(s, height, front);
        assert(payload_stored(s, payloads[payloads.len() - 1]));
        lemma_run_keeps(s, height, front, payloads.last());
        let before = index_run(s, height, front);
        match decoded_block(payloads.last()) {
            Some(block) => {
                lemma_ingest_again(before.0, block, before.1 as u32);
            },
            None => {},
        }
    }
}

/// Running the engine a second time over the same payloads leaves the
/// number of blocks and the number of transactions as the first run left
/// them, whatever the heights at which the two runs start.
pub proof fn law_second_run_keeps_counts(
    s: StoreModel,
    payloads: Seq<Seq<u8>>,
    first: int,
    second: int,
)
    requires
        s.wf(),
    ensures
        index_run(index_run(s, first, payloads).0, second, payloads).0.blocks.len() == index_run(
            s,
            first,
            payloads,
        ).0.blocks.len(),
        index_run(index_run(s, first, payloads).0, second, payloads).0.txs.len() == index_run(
            s,
            first,
            payloads,
        ).0.txs.len(),
{
    let once = index_run(s, first, payloads).0;
    lemma_run_keeps(s, first, payloads, Seq::empty());
    lemma_run_stores(s, first, payloads);
    lemma_run_again(once, second, payloads);
}

/// Whether the heights of the blocks grow from each place to the next.
pub open spec fn strictly_ascending(s: StoreModel) -> bool {
    forall|i: int, j: int|
        0 <= i < j < s.blocks.len() ==> (#[trigger] s.blocks[i]).height < (
        #[trigger] s.blocks[j]).height
}

/// Whether every stored block stands below the height `height`.
pub open spec fn heights_below(s: StoreModel, height: int) -> bool {
    forall|i: int| 0 <= i < s.blocks.len() ==> (#[trigger] s.blocks[i]).height < height
}

/// Whether none of the payloads decodes to a block of this identity hash.
pub open spec fn hash_absent(payloads: Seq<Seq<u8>>, hash: Seq<char>) -> bool {
    forall|j: int|
        0 <= j < payloads.len() ==> (decoded_block(#[trigger] payloads[j]) matches Some(block)
            ==> block_header(block).hash != hash)
}

/// A block that is written at a height above every stored height enters at
/// the end of the block table.
proof fn lemma_put_block_on_top(s: StoreModel, block: bitcoin::Block, height: u32)
    requires
        s.wf(),
        strictly_ascending(s),
        heights_below(s, height as int),
    ensures
        strictly_ascending(s.ingest(block, height)),
        heights_below(s.ingest(block, height), height + 1),
{
    let record = block_model(block, height);
    let rest = s.blocks_without(record.hash);
    let t = s.ingest(block, height);
    lemma_ingest(s, block, height);
    lemma_blocks_without(s, record.hash);
    assert forall|i: int| 0 <= i < rest.len() implies (#[trigger] rest[i]) == s.blocks[if s.has_block(
        record.hash,
    ) && s.block_pos(record.hash) <= i {
        i + 1
    } else {
        i
    }] by {}
    assert forall|i: int| 0 <= i < rest.len() implies (#[trigger] rest[i]).height < height by {
        let k = if s.has_block(record.hash) && s.block_pos(record.hash) <= i {
            i + 1
        } else {
            i
        };
        assert(rest[i] == s.blocks[k]);
    }
    assert(is_insert_pos(rest, height, rest.len() as int));
    lemma_insert_pos_unique(rest, height, rest.len() as int);
    assert(t.blocks == rest.push(record));
    assert forall|i: int, j: int| 0 <= i < j < t.blocks.len() implies (#[trigger] t.blocks[i]).height
        < (#[trigger] t.blocks[j]).height by {
        let a = if s.has_block(record.hash) && s.block_pos(record.hash) <= i {
            i + 1
        } else {
            i
        };
        assert(t.blocks[i] == rest[i]);
        assert(rest[i] == s.blocks[a]);
        if j < rest.len() {
            let b = if s.has_block(record.hash) && s.block_pos(record.hash) <= j {
                j + 1
            } else {
                j
            };
            assert(t.blocks[j] == rest[j]);
            assert(rest[j] == s.blocks[b]);
        }
    }
    assert forall|i: int| 0 <= i < t.blocks.len() implies (#[trigger] t.blocks[i]).height < height
        + 1 by {
        if i < rest.len() {
            assert(t.blocks[i] == rest[i]);
        }
    }
}

/// A run that starts above every stored height gives each block a height of
/// its own: the heights stay in strictly ascending order, below the next
/// height, which has advanced by no more than the number of payloads.
pub proof fn lemma_run_heights(s: StoreModel, start: int, payloads: Seq<Seq<u8>>)
    requires
        s.wf(),
        strictly_ascending(s),
        heights_below(s, start),
        0 <= start,
        start + payloads.len() <= u32::MAX,
    ensures
        index_run(s, start, payloads).0.wf(),
        strictly_ascending(index_run(s, start, payloads).0),
        heights_below(index_run(s, start, payloads).0, index_run(s, start, payloads).1),
        start <= index_run(s, start, payloads).1 <= start + payloads.len(),
    decreases payloads.len(),
{
    if payloads.len() > 0 {
        let front = payloads.drop_last();
        lemma_run_heights(s, start, front);
        let before = index_run(s, start, front);
        match decoded_block(payloads.last()) {
            Some(block) => {
                lemma_ingest(before.0, block, before.1 as u32);
                lemma_put_block_on_top(before.0, block, before.1 as u32);
            },
            None => {},
        }
    }
}

/// A run over payloads of which none holds a block of a given identity hash
/// leaves the stored block of that hash as it is.
pub proof fn lemma_run_keeps_block(
    s: StoreModel,
    start: int,
    payloads: Seq<Seq<u8>>,
    hash: Seq<char>,
)
    requires
        s.wf(),
        s.has_block(hash),
        hash_absent(payloads, hash),
    ensures
        index_run(s, start, payloads).0.wf(),
        index_run(s, start, payloads).0.has_block(hash),
        index_run(s, start, payloads).0.block(hash) == s.block(hash),
    decreases payloads.len(),
{
    if payloads.len() > 0 {
        let front = payloads.drop_last();
        assert(hash_absent(front, hash)) by {
            assert forall|j: int| 0 <= j < front.len() implies (decoded_block(
                #[trigger] front[j],
            ) matches Some(block) ==> block_header(block).hash != hash) by {
                assert(front[j] == payloads[j]);
            }
        }
        lemma_run_keeps_block(s, start, front, hash);
        let before = index_run(s, start, front);
        assert(payloads.last() == payloads[payloads.len() - 1]);
        match decoded_block(payloads.last()) {
            Some(block) => {
                let record = block_model(block, before.1 as u32);
                lemma_ingest(before.0, block, before.1 as u32);
                lemma_put_block_other(before.0, record, hash);
                let mid = before.0.put_block(record);
                let t = before.0.ingest(block, before.1 as u32);
                assert(t.blocks == mid.blocks);
                assert(t.block_pos(hash) == mid.block_pos(hash));
            },
            None => {},
        }
    }
}

/// A run over two lists of payloads one after the other is a run over the
/// first followed by a run over the second.
pub proof fn lemma_run_concat(s: StoreModel, start: int, a: Seq<Seq<u8>>, b: Seq<Seq<u8>>)
    ensures
        index_run(s, start, a + b) == index_run(
            index_run(s, start, a).0,
            index_run(s, start, a).1,
            b,
        ),
    decreases b.len(),
{
    if b.len() == 0 {
        assert(a + b =~= a);
    } else {
        lemma_run_concat(s, start, a, b.drop_last());
        assert((a + b).drop_last() =~= a + b.drop_last());
        assert((a + b).last() == b.last());
    }
}

/// In a run that starts above every stored height, a block whose identity
/// hash no later payload of the run repeats is found after the run under
/// its hash, as it was decoded and at the height that the run gave it; and
/// it is the block found under that height.
pub proof fn law_run_gives_each_block_its_height(
    s: StoreModel,
    start: int,
    payloads: Seq<Seq<u8>>,
    i: int,
)
    requires
        s.wf(),
        strictly_ascending(s),
        heights_below(s, start),
        0 <= start,
        start + payloads.len() <= u32::MAX,
        0 <= i < payloads.len(),
        decoded_block(payloads[i]) is Some,
        hash_absent(
            payloads.skip(i + 1),
            block_header(decoded_block(payloads[i])->Some_0).hash,
        ),
    ensures
        ({
            let block = decoded_block(payloads[i])->Some_0;
            let height = index_run(s, start, payloads.take(i)).1 as u32;
            let after = index_run(s, start, payloads).0;
            &&& start <= height < start + payloads.len()
            &&& after.has_block(block_header(block).hash)
            &&& after.block(block_header(block).hash) == block_model(block, height)
            &&& after.has_height(height)
            &&& after.hash_at_height(height) == block_header(block).hash
        }),
{
    let block = decoded_block(payloads[i])->Some_0;
    let hash = block_header(block).hash;
    let front = payloads.take(i);
    let upto = payloads.take(i + 1);
    let rest = payloads.skip(i + 1);
    assert(upto.drop_last() =~= front);
    assert(upto.last() == payloads[i]);
    assert(upto + rest =~= payloads);
    lemma_run_heights(s, start, front);
    let before = index_run(s, start, front);
    let height = before.1 as u32;
    let mid = before.0.ingest(block, height);
    assert(index_run(s, start, upto) == (mid, before.1 + 1));
    lemma_ingest(before.0, block, height);
    lemma_run_concat(s, start, upto, rest);
    lemma_run_keeps_block(mid, before.1 + 1, rest, hash);
    lemma_run_heights(s, start, payloads);
    let after = index_run(s, start, payloads).0;
    let p = after.block_pos(hash);
    assert(after.blocks[p] == block_model(block, height));
    assert forall|j: int| 0 <= j < p implies (#[trigger] after.blocks[j]).height != height by {
        assert(after.blocks[j].height < after.blocks[p].height);
    }
    lemma_height_at(after, height, p);
}

/// The identity hashes of the transactions of a block, in block order.
pub open spec fn block_txids(block: bitcoin::Block) -> Seq<Seq<char>> {
    Seq::new(
        block_transactions(block).len(),
        |k: int| tx_parts(block_transactions(block)[k]).txid,
    )
}

/// Each of the transactions of a block is the identity hash of a row that
/// belongs to the block.
pub proof fn lemma_tx_ids_members(txs: Seq<TxModel>, hash: Seq<char>, id: Seq<char>)
    requires
        tx_ids_of(txs, hash).contains(id),
    ensures
        exists|i: int|
            0 <= i < txs.len() && (#[trigger] txs[i]).txid == id && txs[i].block_hash == hash,
    decreases txs.len(),
{
    if txs.len() > 0 {
        let front = txs.drop_last();
        let rest = tx_ids_of(front, hash);
        let k = choose|k: int| 0 <= k < tx_ids_of(txs, hash).len() && tx_ids_of(txs, hash)[k] == id;
        if txs.last().block_hash == hash && k == rest.len() {
            assert(txs[txs.len() - 1].txid == id);
        } else {
            assert(rest[k] == id);
            lemma_tx_ids_members(front, hash, id);
            let i = choose|i: int|
                0 <= i < front.len() && (#[trigger] front[i]).txid == id && front[i].block_hash
                    == hash;
            assert(txs[i] == front[i]);
        }
    }
}

/// No identity hash stands twice among the transactions of a block.
pub proof fn lemma_tx_ids_distinct(txs: Seq<TxModel>, hash: Seq<char>)
    requires
        distinct_txids(txs),
    ensures
        tx_ids_of(txs, hash).no_duplicates(),
    decreases txs.len(),
{
    if txs.len() > 0 {
        let front = txs.drop_last();
        let rest = tx_ids_of(front, hash);
        assert(distinct_txids(front)) by {
            assert forall|i: int, j: int| 0 <= i < j < front.len() implies (#[trigger] front[i]).txid
                != (#[trigger] front[j]).txid by {
                assert(front[i] == txs[i] && front[j] == txs[j]);
            }
        }
        lemma_tx_ids_distinct(front, hash);
        if txs.last().block_hash == hash {
            if rest.contains(txs.last().txid) {
                lemma_tx_ids_members(front, hash, txs.last().txid);
                let i = choose|i: int|
                    0 <= i < front.len() && (#[trigger] front[i]).txid == txs.last().txid
                        && front[i].block_hash == hash;
                assert(front[i] == txs[i]);
                assert(txs[i].txid != txs[txs.len() - 1].txid);
            }
            let ids = rest.push(txs.last().txid);
            assert forall|i: int, j: int|
                0 <= i < ids.len() && 0 <= j < ids.len() && i != j implies ids[i] != ids[j] by {
                if i < rest.len() && j < rest.len() {
                    assert(rest[i] != rest[j]);
                } else if i < rest.len() {
                    assert(rest.contains(rest[i]));
                } else {
                    assert(rest.contains(rest[j]));
                }
            }
        }
    }
}

/// After the transactions of a block are written into a table that held no
/// transaction of that block, every row that belongs to the block is one of
/// those written.
pub proof fn lemma_put_txs_owned(s: StoreModel, records: Seq<TxModel>, hash: Seq<char>, i: int)
    requires
        forall|j: int| 0 <= j < s.txs.len() ==> (#[trigger] s.txs[j]).block_hash != hash,
        0 <= i < s.put_txs(records).txs.len(),
        s.put_txs(records).txs[i].block_hash == hash,
    ensures
        exists|k: int|
            0 <= k < records.len() && (#[trigger] records[k]).txid == s.put_txs(
                records,
            ).txs[i].txid,
    decreases records.len(),
{
    if records.len() > 0 {
        let front = records.drop_last();
        let r = records.last();
        let u = s.put_txs(front);
        let rest = u.txs_without(r.txid);
        let t = s.put_txs(records);
        assert(t.txs == rest.push(r));
        if i == rest.len() {
            assert(records[records.len() - 1].txid == t.txs[i].txid);
        } else {
            let m = if u.has_tx(r.txid) && u.tx_pos(r.txid) <= i {
                i + 1
            } else {
                i
            };
            assert(t.txs[i] == rest[i]);
            assert(rest[i] == u.txs[m]);
            lemma_put_txs_owned(s, front, hash, m);
            let k = choose|k: int|
                0 <= k < front.len() && (#[trigger] front[k]).txid == u.txs[m].txid;
            assert(records[k] == front[k]);
        }
    }
}

/// After a block is written into a store that held no transaction of that
/// block, the number of transactions of the block is the number of distinct
/// identity hashes among the transactions that were decoded.
pub proof fn law_written_block_counts_its_transactions(
    s: StoreModel,
    block: bitcoin::Block,
    height: u32,
)
    requires
        s.wf(),
        s.tx_count(block_header(block).hash) == 0,
    ensures
        s.ingest(block, height).tx_count(block_header(block).hash) == block_txids(
            block,
        ).to_set().len(),
{
    let record = block_model(block, height);
    let hash = record.hash;
    let mid = s.put_block(record);
    let models = block_tx_models(block);
    let t = s.ingest(block, height);
    let ids = tx_ids_of(t.txs, hash);
    let decoded = block_txids(block);
    lemma_ingest(s, block, height);
    assert forall|j: int| 0 <= j < mid.txs.len() implies (#[trigger] mid.txs[j]).block_hash
        != hash by {
        if mid.txs[j].block_hash == hash {
            lemma_tx_ids_contains(s.txs, hash, j);
        }
    }
    lemma_tx_ids_distinct(t.txs, hash);
    assert forall|id: Seq<char>| ids.contains(id) <==> decoded.contains(id) by {
        if ids.contains(id) {
            lemma_tx_ids_members(t.txs, hash, id);
            let i = choose|i: int|
                0 <= i < t.txs.len() && (#[trigger] t.txs[i]).txid == id && t.txs[i].block_hash
                    == hash;
            lemma_put_txs_owned(mid, models, hash, i);
            let k = choose|k: int|
                0 <= k < models.len() && (#[trigger] models[k]).txid == t.txs[i].txid;
            assert(decoded[k] == id);
        }
        if decoded.contains(id) {
            let k = choose|k: int| 0 <= k < decoded.len() && decoded[k] == id;
            law_block_transactions_are_linked(s, block, height, k);
        }
    }
    assert(ids.to_set() =~= decoded.to_set());
    ids.unique_seq_to_set();
}

/// In a run of the engine every payload either is written, and advances the
/// height by one, or is reported as rejected.
pub proof fn law_every_payload_is_written_or_reported(
    s: StoreModel,
    start: int,
    payloads: Seq<Seq<u8>>,
)
    ensures
        index_run(s, start, payloads).1 + rejected_places(payloads).len() == start
            + payloads.len(),
    decreases payloads.len(),
{
    if payloads.len() > 0 {
        law_every_payload_is_written_or_reported(s, start, payloads.drop_last());
    }
}

} // verus!
