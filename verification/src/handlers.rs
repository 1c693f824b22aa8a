//! The query layer: each operation reads the store once and gives either
//! what was asked for, a not-found with the key echoed, or the error of the
//! store.
use crate::db::{
    lemma_store_fits, query_all_blocks, query_block, query_block_by_height, query_block_count,
    query_block_transactions, query_latest_block, query_latest_blocks, query_transaction_count,
    query_tx, Store, StoreError,
};
use crate::models::{
    BlockResponse, BlockSummary, BlockSummaryModel, LatestBlocksResponse, StatsResponse, TxResponse,
};
use crate::records::text;
use crate::store_model::{tx_ids_of, StoreModel};
use vstd::prelude::*;

verus! {

/// The largest number of lines that a listing gives.
pub const MAX_LIMIT: usize = 100;

/// The number of lines of the latest-blocks listing where none is asked for.
pub const DEFAULT_LATEST: usize = 10;

/// The page size of the paginated listing where none is asked for.
pub const DEFAULT_PER_PAGE: usize = 20;

/// What a point lookup gives: the value, a not-found that echoes the key, or
/// the error of the store.
#[derive(Debug, PartialEq, Eq)]
pub enum Reply<T, K> {
    Found(T),
    NotFound(K),
    Failed(StoreError),
}

impl<T, K> Reply<T, K> {
    /// The status under which the reply is sent: 200, 404 or 500.
    pub fn status(&self) -> (code: u16)
        ensures
            code == match *self {
                Reply::Found(_) => 200u16,
                Reply::NotFound(_) => 404u16,
                Reply::Failed(_) => 500u16,
            },
    {
        match self {
            Reply::Found(_) => 200,
            Reply::NotFound(_) => 404,
            Reply::Failed(_) => 500,
        }
    }
}

/// The block with this identity hash: found exactly if it is stored.
pub fn get_block(store: &Store, hash: &str) -> (r: Reply<BlockResponse, String>)
    ensures
        match r {
            Reply::Found(b) => store@.has_block(hash@) && b@ == store@.block_response(hash@),
            Reply::NotFound(key) => !store@.has_block(hash@) && key@ == hash@,
            Reply::Failed(_) => false,
        },
{
    match query_block(store, hash) {
        Ok(Some(b)) => Reply::Found(b),
        Ok(None) => Reply::NotFound(text(hash)),
        Err(e) => Reply::Failed(e),
    }
}

/// The first block in table order that has this height: found exactly if
/// some block has it.
pub fn get_block_by_height(store: &Store, height: u32) -> (r: Reply<BlockResponse, u32>)
    ensures
        match r {
            Reply::Found(b) => store@.has_height(height) && b@ == store@.block_response(
                store@.hash_at_height(height),
            ),
            Reply::NotFound(key) => !store@.has_height(height) && key == height,
            Reply::Failed(_) => false,
        },
{
    match query_block_by_height(store, height) {
        Ok(Some(b)) => Reply::Found(b),
        Ok(None) => Reply::NotFound(height),
        Err(e) => Reply::Failed(e),
    }
}

/// The transaction with this identity hash.
pub fn get_tx(store: &Store, txid: &str) -> (r: Reply<TxResponse, String>)
    ensures
        match r {
            Reply::Found(t) => store@.has_tx(txid@) && store@.tx_readable(txid@) && t@
                == store@.tx_response(txid@),
            Reply::NotFound(key) => !store@.has_tx(txid@) && key@ == txid@,
            Reply::Failed(e) => store@.has_tx(txid@) && !store@.tx_readable(txid@) && e
                == StoreError::OutOfRange,
        },
{
    match query_tx(store, txid) {
        Ok(Some(t)) => Reply::Found(t),
        Ok(None) => Reply::NotFound(text(txid)),
        Err(e) => Reply::Failed(e),
    }
}

/// The number of lines of a listing for which `limit` lines were asked:
/// the default where none was, and never more than [`MAX_LIMIT`].
pub open spec fn capped(limit: Option<usize>, default: usize) -> usize {
    let asked = match limit {
        Some(n) => n,
        None => default,
    };
    if asked < MAX_LIMIT {
        asked
    } else {
        MAX_LIMIT
    }
}

/// Computes [`capped`].
pub fn cap_limit(limit: Option<usize>, default: usize) -> (r: usize)
    ensures
        r == capped(limit, default),
{
    let asked = match limit {
        Some(n) => n,
        None => default,
    };
    if asked < MAX_LIMIT {
        asked
    } else {
        MAX_LIMIT
    }
}

/// Whether the lines stand in non-increasing order of height.
pub open spec fn descending(lines: Seq<BlockSummaryModel>) -> bool {
    forall|i: int, j: int|
        0 <= i < j < lines.len() ==> (#[trigger] lines[i]).height >= (#[trigger] lines[j]).height
}

/// The latest blocks, the highest first: ten where no limit is given, and
/// never more than a hundred.
pub fn get_latest_blocks(store: &Store, limit: Option<usize>) -> (r: Result<
    LatestBlocksResponse,
    StoreError,
>)
    ensures
        r matches Ok(list) && list@.blocks == store@.latest(capped(limit, DEFAULT_LATEST) as int)
            && list@.total_count == list@.blocks.len() && list@.blocks.len() <= capped(
            limit,
            DEFAULT_LATEST,
        ) && descending(list@.blocks),
{
    proof {
        use_type_invariant(store);
    }
    let n = cap_limit(limit, DEFAULT_LATEST);
    match query_latest_blocks(store, n) {
        Ok(blocks) => {
            proof {
                lemma_latest_descending(store@, n as int);
            }
            let total_count = blocks.len() as u32;
            Ok(LatestBlocksResponse { blocks, total_count })
        },
        Err(e) => Err(e),
    }
}

/// The heights of the latest-blocks listing never increase.
pub proof fn lemma_latest_descending(s: StoreModel, limit: int)
    requires
        s.wf(),
        0 <= limit,
    ensures
        descending(s.latest(limit)),
        s.latest(limit).len() <= limit,
        s.latest(limit).len() <= s.blocks.len(),
{
    let lines = s.latest(limit);
    assert forall|i: int, j: int| 0 <= i < j < lines.len() implies (#[trigger] lines[i]).height >= (
    #[trigger] lines[j]).height by {
        let a = s.blocks.len() - 1 - i;
        let b = s.blocks.len() - 1 - j;
        assert(lines[i] == s.summary(a) && lines[j] == s.summary(b));
        assert(s.blocks[b].height <= s.blocks[a].height);
    }
}

/// What the stats operation gives: the totals with the highest block, the
/// totals alone where no block is stored yet, or the error of the store
/// where a read failed.
#[derive(Debug, PartialEq, Eq)]
pub enum StatsReply {
    Stats(StatsResponse),
    NoBlocks { total_blocks: u32, total_transactions: u64 },
    Failed(StoreError),
}

impl StatsReply {
    /// The status under which the reply is sent: 500 for an error of the
    /// store, 200 else.
    pub fn status(&self) -> (code: u16)
        ensures
            code == if *self is Failed {
                500u16
            } else {
                200u16
            },
    {
        match self {
            StatsReply::Failed(_) => 500,
            _ => 200,
        }
    }
}

/// The totals of the store, and the height and hash of its highest block.
/// Where the number of blocks cannot be read, the reply is that error.
pub fn get_stats(store: &Store) -> (r: StatsReply)
    ensures
        match r {
            StatsReply::Stats(stats) => 0 < store@.blocks.len() <= u32::MAX && stats@.total_blocks
                == store@.blocks.len() && stats@.total_transactions == store@.txs.len()
                && stats@.latest_block_height == store@.blocks.last().height
                && stats@.latest_block_hash == store@.blocks.last().hash,
            StatsReply::NoBlocks { total_blocks, total_transactions } => store@.blocks.len() == 0
                && total_blocks == 0 && total_transactions == store@.txs.len(),
            StatsReply::Failed(e) => store@.blocks.len() > u32::MAX && e == StoreError::OutOfRange,
        },
{
    let total_blocks = match query_block_count(store) {
        Ok(n) => n,
        Err(e) => {
            return StatsReply::Failed(e);
        },
    };
    let total_transactions = match query_transaction_count(store) {
        Ok(n) => n,
        Err(e) => {
            return StatsReply::Failed(e);
        },
    };
    match query_latest_block(store) {
        Ok(Some((height, hash))) => StatsReply::Stats(
            StatsResponse {
                total_blocks,
                total_transactions,
                latest_block_height: height,
                latest_block_hash: hash,
            },
        ),
        Ok(None) => StatsReply::NoBlocks { total_blocks, total_transactions },
        Err(e) => StatsReply::Failed(e),
    }
}

/// What the health operation gives.
#[derive(Debug, PartialEq, Eq)]
pub struct HealthResponse {
    pub status: String,
    pub service: String,
}

/// Says that the service is up.
pub fn health_check() -> (r: HealthResponse)
    ensures
        r.status@ == "healthy"@,
        r.service@ == "block-explorer-backend"@,
{
    HealthResponse { status: text("healthy"), service: text("block-explorer-backend") }
}

/// Where a page stands among the pages of the listing.
#[derive(Debug, Clone, Copy, PartialEq, Eq, Structural)]
pub struct Pagination {
    pub current_page: usize,
    pub per_page: usize,
    pub total_blocks: u32,
    pub total_pages: usize,
    pub has_next: bool,
    pub has_prev: bool,
}

/// One page of the block listing.
#[derive(Debug, PartialEq, Eq)]
pub struct BlocksPage {
    pub blocks: Vec<BlockSummary>,
    pub pagination: Pagination,
}

/// The page that is shown for the page asked: the first where none was
/// asked or page 0 was.
pub open spec fn page_number(page: Option<usize>) -> usize {
    match page {
        Some(p) => if p < 1 {
            1
        } else {
            p
        },
        None => 1,
    }
}

/// The number of pages that `total` lines fill: the quotient rounded up.
/// With a page size of 0 no number of pages holds a line, and the count is
/// the largest machine number unless there is no line at all.
pub open spec fn page_count(total: u32, per_page: usize) -> usize {
    if per_page == 0 {
        if total == 0 {
            0
        } else {
            usize::MAX
        }
    } else {
        ((total + per_page - 1) / (per_page as int)) as usize
    }
}

/// The pagination of the page `page` of size `per_page` over `total` lines.
pub open spec fn pagination_of(page: usize, per_page: usize, total: u32) -> Pagination {
    Pagination {
        current_page: page,
        per_page,
        total_blocks: total,
        total_pages: page_count(total, per_page),
        has_next: page < page_count(total, per_page),
        has_prev: page > 1,
    }
}

/// Computes [`page_count`].
pub fn count_pages(total: u32, per_page: usize) -> (r: usize)
    ensures
        r == page_count(total, per_page),
{
    if per_page == 0 {
        if total == 0 {
            0
        } else {
            usize::MAX
        }
    } else if total == 0 {
        assert((per_page - 1) / (per_page as int) == 0) by (nonlinear_arith)
            requires
                per_page >= 1,
        ;
        0
    } else if per_page >= total as usize {
        assert((total + per_page - 1) / (per_page as int) == 1) by (nonlinear_arith)
            requires
                1 <= total <= per_page,
        ;
        1
    } else {
        let pages: u64 = (total as u64 + per_page as u64 - 1) / (per_page as u64);
        assert(pages <= total) by (nonlinear_arith)
            requires
                pages == (total + per_page - 1) / (per_page as int),
                per_page >= 1,
        ;
        pages as usize
    }
}

/// One page of the blocks in ascending order of height, with its place among
/// the pages. Pages count from 1, and page 1 is shown where none or page 0
/// is asked; the page size is twenty where none is asked and never more
/// than a hundred. Where the number of blocks cannot be read, the result is
/// that error.
pub fn get_all_blocks(store: &Store, page: Option<usize>, limit: Option<usize>) -> (r: Result<
    BlocksPage,
    StoreError,
>)
    ensures
        store@.blocks.len() > u32::MAX ==> r matches Err(StoreError::OutOfRange),
        store@.blocks.len() <= u32::MAX ==> (r matches Ok(p) && p.blocks.deep_view()
            == store@.window(
            (page_number(page) - 1) * capped(limit, DEFAULT_PER_PAGE),
            capped(limit, DEFAULT_PER_PAGE) as int,
        ) && p.pagination == pagination_of(
            page_number(page),
            capped(limit, DEFAULT_PER_PAGE),
            store@.blocks.len() as u32,
        ) && p.blocks.len() <= capped(limit, DEFAULT_PER_PAGE) && (p.pagination.has_next
            <==> p.pagination.current_page < p.pagination.total_pages)),
{
    proof {
        use_type_invariant(store);
    }
    let current_page = match page {
        Some(p) => if p < 1 {
            1
        } else {
            p
        },
        None => 1,
    };
    let per_page = cap_limit(limit, DEFAULT_PER_PAGE);
    let found = match (current_page - 1).checked_mul(per_page) {
        Some(offset) => query_all_blocks(store, per_page, offset),
        None => {
            let empty: Vec<BlockSummary> = Vec::new();
            proof {
                lemma_store_fits(store);
                lemma_window_beyond(store@, (current_page - 1) * per_page, per_page as int);
                assert(empty.deep_view() =~= Seq::<BlockSummaryModel>::empty());
            }
            Ok(empty)
        },
    };
    let blocks = match found {
        Ok(blocks) => blocks,
        Err(e) => {
            return Err(e);
        },
    };
    assert(blocks.deep_view().len() == blocks.len());
    let total_blocks = match query_block_count(store) {
        Ok(n) => n,
        Err(e) => {
            return Err(e);
        },
    };
    let total_pages = count_pages(total_blocks, per_page);
    Ok(
        BlocksPage {
            blocks,
            pagination: Pagination {
                current_page,
                per_page,
                total_blocks,
                total_pages,
                has_next: current_page < total_pages,
                has_prev: current_page > 1,
            },
        },
    )
}

/// A window that starts behind the last block is empty.
pub proof fn lemma_window_beyond(s: StoreModel, offset: int, limit: int)
    requires
        offset >= s.blocks.len(),
    ensures
        s.window(offset, limit) == Seq::<BlockSummaryModel>::empty(),
{
    assert(s.window(offset, limit) =~= Seq::<BlockSummaryModel>::empty());
}

/// The transactions of a block.
#[derive(Debug, PartialEq, Eq)]
pub struct BlockTransactionsResponse {
    pub block_hash: String,
    pub transaction_count: usize,
    pub transactions: Vec<String>,
}

/// The identity hashes of the transactions that belong to the block `hash`,
/// in table order, and their number. A block without transactions and a
/// hash that is not stored both give the empty list.
pub fn get_block_transactions(store: &Store, hash: &str) -> (r: Result<
    BlockTransactionsResponse,
    StoreError,
>)
    ensures
        r matches Ok(list) && list.block_hash@ == hash@ && list.transactions.deep_view()
            == tx_ids_of(store@.txs, hash@) && list.transaction_count
            == list.transactions.len(),
{
    match query_block_transactions(store, hash) {
        Ok(transactions) => {
            let transaction_count = transactions.len();
            Ok(BlockTransactionsResponse { block_hash: text(hash), transaction_count, transactions })
        },
        Err(e) => Err(e),
    }
}

} // verus!
