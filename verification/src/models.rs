//! Response values of the query layer, with their mathematical views.
use vstd::prelude::*;

verus! {

/// Full detail of one block.
#[derive(Debug, PartialEq, Eq)]
pub struct BlockResponse {
    pub hash: String,
    pub height: u32,
    pub version: i32,
    pub prev_block: String,
    pub merkle_root: String,
    pub timestamp: u32,
    pub bits: u32,
    pub nonce: u32,
    pub tx_count: usize,
    pub size: usize,
}

/// What a [`BlockResponse`] holds.
#[verifier::ext_equal]
pub struct BlockResponseModel {
    pub hash: Seq<char>,
    pub height: u32,
    pub version: i32,
    pub prev_block: Seq<char>,
    pub merkle_root: Seq<char>,
    pub timestamp: u32,
    pub bits: u32,
    pub nonce: u32,
    pub tx_count: usize,
    pub size: usize,
}

impl View for BlockResponse {
    type V = BlockResponseModel;

    open spec fn view(&self) -> BlockResponseModel {
        BlockResponseModel {
            hash: self.hash@,
            height: self.height,
            version: self.version,
            prev_block: self.prev_block@,
            merkle_root: self.merkle_root@,
            timestamp: self.timestamp,
            bits: self.bits,
            nonce: self.nonce,
            tx_count: self.tx_count,
            size: self.size,
        }
    }
}

/// One input of a transaction, reduced to what is shown.
#[derive(Debug, PartialEq, Eq)]
pub struct TxInSimplified {
    pub prev_txid: String,
    pub vout: u32,
    pub script_sig: String,
    pub sequence: u32,
    pub witness: Vec<String>,
}

/// What a [`TxInSimplified`] holds.
#[verifier::ext_equal]
pub struct TxInModel {
    pub prev_txid: Seq<char>,
    pub vout: u32,
    pub script_sig: Seq<char>,
    pub sequence: u32,
    pub witness: Seq<Seq<char>>,
}

impl View for TxInSimplified {
    type V = TxInModel;

    open spec fn view(&self) -> TxInModel {
        TxInModel {
            prev_txid: self.prev_txid@,
            vout: self.vout,
            script_sig: self.script_sig@,
            sequence: self.sequence,
            witness: self.witness.deep_view(),
        }
    }
}

impl DeepView for TxInSimplified {
    type V = TxInModel;

    open spec fn deep_view(&self) -> TxInModel {
        self@
    }
}

impl TxInSimplified {
    /// A copy with the same contents.
    pub fn duplicate(&self) -> (r: TxInSimplified)
        ensures
            r@ == self@,
    {
        let mut witness: Vec<String> = Vec::new();
        let mut i: usize = 0;
        while i < self.witness.len()
            invariant
                i <= self.witness.len(),
                witness.len() == i,
                forall|j: int| 0 <= j < i ==> witness[j]@ == self.witness[j]@,
            decreases self.witness.len() - i,
        {
            witness.push(self.witness[i].clone());
            i += 1;
        }
        assert(witness.deep_view() =~= self.witness.deep_view());
        TxInSimplified {
            prev_txid: self.prev_txid.clone(),
            vout: self.vout,
            script_sig: self.script_sig.clone(),
            sequence: self.sequence,
            witness,
        }
    }
}

/// One output of a transaction, reduced to what is shown.
#[derive(Debug, PartialEq, Eq)]
pub struct TxOutSimplified {
    pub value: u64,
    pub script_pubkey: String,
}

/// What a [`TxOutSimplified`] holds.
#[verifier::ext_equal]
pub struct TxOutModel {
    pub value: u64,
    pub script_pubkey: Seq<char>,
}

impl View for TxOutSimplified {
    type V = TxOutModel;

    open spec fn view(&self) -> TxOutModel {
        TxOutModel { value: self.value, script_pubkey: self.script_pubkey@ }
    }
}

impl DeepView for TxOutSimplified {
    type V = TxOutModel;

    open spec fn deep_view(&self) -> TxOutModel {
        self@
    }
}

impl TxOutSimplified {
    /// A copy with the same contents.
    pub fn duplicate(&self) -> (r: TxOutSimplified)
        ensures
            r@ == self@,
    {
        TxOutSimplified { value: self.value, script_pubkey: self.script_pubkey.clone() }
    }
}

/// Full detail of one transaction.
#[derive(Debug, PartialEq, Eq)]
pub struct TxResponse {
    pub txid: String,
    pub version: u32,
    pub lock_time: u32,
    pub block_hash: Option<String>,
    pub block_height: Option<u32>,
    pub confirmations: Option<u64>,
    pub inputs: Vec<TxInSimplified>,
    pub outputs: Vec<TxOutSimplified>,
    pub size: usize,
    pub vsize: usize,
    pub weight: usize,
}

/// What a [`TxResponse`] holds.
#[verifier::ext_equal]
pub struct TxResponseModel {
    pub txid: Seq<char>,
    pub version: u32,
    pub lock_time: u32,
    pub block_hash: Option<Seq<char>>,
    pub block_height: Option<u32>,
    pub confirmations: Option<u64>,
    pub inputs: Seq<TxInModel>,
    pub outputs: Seq<TxOutModel>,
    pub size: usize,
    pub vsize: usize,
    pub weight: usize,
}

impl View for TxResponse {
    type V = TxResponseModel;

    open spec fn view(&self) -> TxResponseModel {
        TxResponseModel {
            txid: self.txid@,
            version: self.version,
            lock_time: self.lock_time,
            block_hash: match self.block_hash {
                Some(h) => Some(h@),
                None => None,
            },
            block_height: self.block_height,
            confirmations: self.confirmations,
            inputs: self.inputs.deep_view(),
            outputs: self.outputs.deep_view(),
            size: self.size,
            vsize: self.vsize,
            weight: self.weight,
        }
    }
}

/// One line of a block listing.
#[derive(Debug, PartialEq, Eq)]
pub struct BlockSummary {
    pub hash: String,
    pub height: u32,
    pub timestamp: u32,
    pub tx_count: usize,
}

/// What a [`BlockSummary`] holds.
#[verifier::ext_equal]
pub struct BlockSummaryModel {
    pub hash: Seq<char>,
    pub height: u32,
    pub timestamp: u32,
    pub tx_count: usize,
}

impl View for BlockSummary {
    type V = BlockSummaryModel;

    open spec fn view(&self) -> BlockSummaryModel {
        BlockSummaryModel {
            hash: self.hash@,
            height: self.height,
            timestamp: self.timestamp,
            tx_count: self.tx_count,
        }
    }
}

impl DeepView for BlockSummary {
    type V = BlockSummaryModel;

    open spec fn deep_view(&self) -> BlockSummaryModel {
        self@
    }
}

/// The latest blocks, highest first, with the number of lines.
#[derive(Debug, PartialEq, Eq)]
pub struct LatestBlocksResponse {
    pub blocks: Vec<BlockSummary>,
    pub total_count: u32,
}

/// What a [`LatestBlocksResponse`] holds.
#[verifier::ext_equal]
pub struct LatestBlocksModel {
    pub blocks: Seq<BlockSummaryModel>,
    pub total_count: u32,
}

impl View for LatestBlocksResponse {
    type V = LatestBlocksModel;

    open spec fn view(&self) -> LatestBlocksModel {
        LatestBlocksModel { blocks: self.blocks.deep_view(), total_count: self.total_count }
    }
}

/// The totals of the store and its highest block.
#[derive(Debug, PartialEq, Eq)]
pub struct StatsResponse {
    pub total_blocks: u32,
    pub total_transactions: u64,
    pub latest_block_height: u32,
    pub latest_block_hash: String,
}

/// What a [`StatsResponse`] holds.
#[verifier::ext_equal]
pub struct StatsModel {
    pub total_blocks: u32,
    pub total_transactions: u64,
    pub latest_block_height: u32,
    pub latest_block_hash: Seq<char>,
}

impl View for StatsResponse {
    type V = StatsModel;

    open spec fn view(&self) -> StatsModel {
        StatsModel {
            total_blocks: self.total_blocks,
            total_transactions: self.total_transactions,
            latest_block_height: self.latest_block_height,
            latest_block_hash: self.latest_block_hash@,
        }
    }
}

} // verus!
