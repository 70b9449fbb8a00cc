use vstd::prelude::*;

verus! {

/// Header of a block as the sources deliver it: hex text fields.
#[derive(Debug)]
pub struct BlockHeader {
    pub number: u64,
    pub hash: String,
    pub parent_hash: String,
    pub sha3_uncles: String,
    pub miner: String,
    pub state_root: String,
    pub transactions_root: String,
    pub receipts_root: String,
    pub logs_bloom: String,
    pub difficulty: String,
    pub total_difficulty: String,
    pub size: u64,
    pub gas_limit: String,
    pub gas_used: String,
    pub timestamp: u64,
    pub extra_data: String,
    pub mix_hash: String,
    pub nonce: String,
    pub base_fee_per_gas: Option<String>,
}

#[derive(Debug)]
pub struct Transaction {
    pub transaction_index: u32,
    pub hash: String,
    pub from: String,
    pub to: Option<String>,
    pub nonce: u64,
    pub gas_price: String,
    pub gas: String,
    pub gas_used: String,
    pub cumulative_gas_used: String,
    pub value: String,
    pub input: String,
    pub v: String,
    pub r: String,
    pub s: String,
    pub tx_type: i32,
    pub max_fee_per_gas: Option<String>,
    pub max_priority_fee_per_gas: Option<String>,
}

#[derive(Debug)]
pub struct Log {
    pub log_index: u32,
    pub transaction_index: u32,
    pub address: String,
    pub data: String,
    pub topics: Vec<String>,
}

#[derive(Debug, Clone, Copy, PartialEq, Eq)]
pub enum TraceType {
    Create,
    Call,
    Suicide,
    Reward,
}

#[derive(Debug, Clone, Copy, PartialEq, Eq)]
pub enum CallType {
    Call,
    Callcode,
    Delegatecall,
    Staticcall,
}

#[derive(Debug)]
pub struct TraceAction {
    pub from: Option<String>,
    pub to: Option<String>,
    pub value: Option<String>,
    pub gas: Option<String>,
    pub input: Option<String>,
    pub call_type: Option<CallType>,
}

#[derive(Debug)]
pub struct TraceResult {
    pub gas_used: Option<String>,
    pub address: Option<String>,
    pub output: Option<String>,
}

#[derive(Debug)]
pub struct Trace {
    pub transaction_index: u32,
    pub trace_type: TraceType,
    pub error: Option<String>,
    pub revert_reason: Option<String>,
    pub action: Option<TraceAction>,
    pub result: Option<TraceResult>,
}

/// A block with its transactions, logs and traces as flat lists.
#[derive(Debug)]
pub struct Block {
    pub header: BlockHeader,
    pub transactions: Vec<Transaction>,
    pub logs: Vec<Log>,
    pub traces: Vec<Trace>,
}

} // verus!
