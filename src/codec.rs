use crate::data::{Block, BlockHeader, CallType, Log, Trace, TraceType, Transaction};
use crate::error::{is_invalid_field, Error};
use crate::hex::{field_decode, parse_quantity, quantity_value, repaired, try_decode_hex};
use vstd::prelude::*;
use vstd::string::*;

verus! {

/// Header of a Firehose block.
#[derive(Debug)]
pub struct PbBlockHeader {
    pub parent_hash: Vec<u8>,
    pub uncle_hash: Vec<u8>,
    pub coinbase: Vec<u8>,
    pub state_root: Vec<u8>,
    pub transactions_root: Vec<u8>,
    pub receipt_root: Vec<u8>,
    pub logs_bloom: Vec<u8>,
    pub difficulty: Vec<u8>,
    pub total_difficulty: Vec<u8>,
    pub number: u64,
    pub gas_limit: u64,
    pub gas_used: u64,
    pub timestamp_seconds: i64,
    pub extra_data: Vec<u8>,
    pub mix_hash: Vec<u8>,
    pub nonce: u64,
    pub hash: Vec<u8>,
    pub base_fee_per_gas: Option<Vec<u8>>,
}

/// Log of a Firehose transaction receipt.
#[derive(Debug)]
pub struct PbLog {
    pub address: Vec<u8>,
    pub data: Vec<u8>,
    pub block_index: u32,
    pub topics: Vec<Vec<u8>>,
    pub index: u32,
}

/// Call of a Firehose transaction trace.
#[derive(Debug)]
pub struct PbCall {
    pub call_type: i32,
    pub caller: Vec<u8>,
    pub address: Vec<u8>,
    pub value: Option<Vec<u8>>,
    pub gas_limit: u64,
    pub gas_consumed: u64,
    pub return_data: Vec<u8>,
    pub input: Vec<u8>,
    pub status_failed: bool,
    pub status_reverted: bool,
    pub state_reverted: bool,
    pub failure_reason: String,
}

#[derive(Debug)]
pub struct PbReceipt {
    pub cumulative_gas_used: u64,
    pub logs_bloom: Vec<u8>,
    pub logs: Vec<PbLog>,
}

/// Transaction of a Firehose block.
#[derive(Debug)]
pub struct PbTransactionTrace {
    pub to: Vec<u8>,
    pub nonce: u64,
    pub gas_price: Vec<u8>,
    pub gas_limit: u64,
    pub gas_used: u64,
    pub value: Vec<u8>,
    pub input: Vec<u8>,
    pub v: Vec<u8>,
    pub r: Vec<u8>,
    pub s: Vec<u8>,
    pub tx_type: i32,
    pub max_fee_per_gas: Option<Vec<u8>>,
    pub max_priority_fee_per_gas: Option<Vec<u8>>,
    pub index: u32,
    pub hash: Vec<u8>,
    pub from: Vec<u8>,
    pub status: i32,
    pub receipt: Option<PbReceipt>,
    pub calls: Vec<PbCall>,
}

/// A Firehose block (`sf.ethereum.type.v2.Block`).
#[derive(Debug)]
pub struct PbBlock {
    pub ver: i32,
    pub hash: Vec<u8>,
    pub number: u64,
    pub size: u64,
    pub header: Option<PbBlockHeader>,
    pub transaction_traces: Vec<PbTransactionTrace>,
}

pub const STATUS_UNKNOWN: i32 = 0;
pub const STATUS_SUCCEEDED: i32 = 1;
pub const STATUS_FAILED: i32 = 2;
pub const STATUS_REVERTED: i32 = 3;

/// Length of an address in bytes.
pub const ADDRESS_LEN: usize = 20;

/// Length of a logs bloom in bytes.
pub const BLOOM_LEN: usize = 256;

pub open spec fn dec(s: String) -> Option<Seq<u8>> {
    field_decode(s@)
}

pub open spec fn qty(s: String) -> Option<u64> {
    quantity_value(s@)
}

/// Decoding of an optional hex field: absent stays absent.
pub open spec fn opt_dec(o: Option<String>) -> Option<Option<Seq<u8>>> {
    match o {
        None => Some(None),
        Some(s) => match field_decode(s@) {
            Some(b) => Some(Some(b)),
            None => None,
        },
    }
}

pub open spec fn opt_bytes(o: Option<Vec<u8>>) -> Option<Seq<u8>> {
    match o {
        None => None,
        Some(v) => Some(v@),
    }
}

pub open spec fn zero_bytes(n: nat) -> Seq<u8> {
    Seq::new(n, |i: int| 0u8)
}

fn zeros(n: usize) -> (r: Vec<u8>)
    ensures
        r@ == zero_bytes(n as nat),
{
    let mut v: Vec<u8> = Vec::new();
    while v.len() < n
        invariant
            v.len() <= n,
            v@ == zero_bytes(v.len() as nat),
        decreases n - v.len(),
    {
        v.push(0u8);
        assert(v@ =~= zero_bytes(v.len() as nat));
    }
    v
}

fn decode_opt(label: &str, o: &Option<String>) -> (r: Result<Option<Vec<u8>>, Error>)
    ensures
        match r {
            Ok(v) => opt_dec(*o) == Some(opt_bytes(v)),
            Err(e) => opt_dec(*o) is None && e is InvalidInput && (*o matches Some(v)
                && is_invalid_field(e, label@, repaired(v@))),
        },
{
    match o {
        None => Ok(None),
        Some(s) => match try_decode_hex(label, s.as_str()) {
            Ok(b) => Ok(Some(b)),
            Err(e) => Err(e),
        },
    }
}

pub open spec fn header_ok(h: BlockHeader) -> bool {
    &&& dec(h.parent_hash) is Some
    &&& dec(h.sha3_uncles) is Some
    &&& dec(h.miner) is Some
    &&& dec(h.state_root) is Some
    &&& dec(h.transactions_root) is Some
    &&& dec(h.receipts_root) is Some
    &&& dec(h.logs_bloom) is Some
    &&& dec(h.difficulty) is Some
    &&& dec(h.total_difficulty) is Some
    &&& qty(h.gas_limit) is Some
    &&& qty(h.gas_used) is Some
    &&& h.timestamp <= i64::MAX
    &&& dec(h.extra_data) is Some
    &&& dec(h.mix_hash) is Some
    &&& qty(h.nonce) is Some
    &&& dec(h.hash) is Some
    &&& opt_dec(h.base_fee_per_gas) is Some
}

pub open spec fn header_matches(h: BlockHeader, p: PbBlockHeader) -> bool {
    &&& Some(p.parent_hash@) == dec(h.parent_hash)
    &&& Some(p.uncle_hash@) == dec(h.sha3_uncles)
    &&& Some(p.coinbase@) == dec(h.miner)
    &&& Some(p.state_root@) == dec(h.state_root)
    &&& Some(p.transactions_root@) == dec(h.transactions_root)
    &&& Some(p.receipt_root@) == dec(h.receipts_root)
    &&& Some(p.logs_bloom@) == dec(h.logs_bloom)
    &&& Some(p.difficulty@) == dec(h.difficulty)
    &&& Some(p.total_difficulty@) == dec(h.total_difficulty)
    &&& p.number == h.number
    &&& Some(p.gas_limit) == qty(h.gas_limit)
    &&& Some(p.gas_used) == qty(h.gas_used)
    &&& p.timestamp_seconds == h.timestamp as i64
    &&& Some(p.extra_data@) == dec(h.extra_data)
    &&& Some(p.mix_hash@) == dec(h.mix_hash)
    &&& Some(p.nonce) == qty(h.nonce)
    &&& Some(p.hash@) == dec(h.hash)
    &&& Some(opt_bytes(p.base_fee_per_gas)) == opt_dec(h.base_fee_per_gas)
}

/// The errors a header translation may give: each names a field that fails.
pub open spec fn header_error(h: BlockHeader, e: Error) -> bool {
    ||| dec(h.parent_hash) is None && is_invalid_field(e, "parent hash"@, repaired(h.parent_hash@))
    ||| dec(h.sha3_uncles) is None && is_invalid_field(e, "sha3 uncles"@, repaired(h.sha3_uncles@))
    ||| dec(h.miner) is None && is_invalid_field(e, "miner"@, repaired(h.miner@))
    ||| dec(h.state_root) is None && is_invalid_field(e, "state root"@, repaired(h.state_root@))
    ||| dec(h.transactions_root) is None && is_invalid_field(e, "transactions root"@, repaired(h.transactions_root@))
    ||| dec(h.receipts_root) is None && is_invalid_field(e, "receipts root"@, repaired(h.receipts_root@))
    ||| dec(h.logs_bloom) is None && is_invalid_field(e, "logs bloom"@, repaired(h.logs_bloom@))
    ||| dec(h.difficulty) is None && is_invalid_field(e, "difficulty"@, repaired(h.difficulty@))
    ||| dec(h.total_difficulty) is None && is_invalid_field(e, "total difficulty"@, repaired(h.total_difficulty@))
    ||| dec(h.extra_data) is None && is_invalid_field(e, "extra data"@, repaired(h.extra_data@))
    ||| dec(h.mix_hash) is None && is_invalid_field(e, "mix hash"@, repaired(h.mix_hash@))
    ||| dec(h.hash) is None && is_invalid_field(e, "hash"@, repaired(h.hash@))
    ||| qty(h.gas_limit) is None && is_invalid_field(e, "gas limit"@, h.gas_limit@)
    ||| qty(h.gas_used) is None && is_invalid_field(e, "gas used"@, h.gas_used@)
    ||| qty(h.nonce) is None && is_invalid_field(e, "nonce"@, h.nonce@)
    ||| h.timestamp > i64::MAX && e is InvalidInput
    ||| (h.base_fee_per_gas matches Some(v) && dec(v) is None && is_invalid_field(e, "base fee per gas"@, repaired(v@)))
}

/// The errors a transaction translation may give: each names a field that
/// fails.
pub open spec fn tx_error(t: Transaction, e: Error) -> bool {
    ||| (t.to matches Some(to) && dec(to) is None && is_invalid_field(e, "tx to"@, repaired(to@)))
    ||| dec(t.gas_price) is None && is_invalid_field(e, "tx gas price"@, repaired(t.gas_price@))
    ||| dec(t.value) is None && is_invalid_field(e, "tx value"@, repaired(t.value@))
    ||| dec(t.input) is None && is_invalid_field(e, "tx input"@, repaired(t.input@))
    ||| dec(t.v) is None && is_invalid_field(e, "tx v"@, repaired(t.v@))
    ||| dec(t.r) is None && is_invalid_field(e, "tx r"@, repaired(t.r@))
    ||| dec(t.s) is None && is_invalid_field(e, "tx s"@, repaired(t.s@))
    ||| dec(t.hash) is None && is_invalid_field(e, "tx hash"@, repaired(t.hash@))
    ||| dec(t.from) is None && is_invalid_field(e, "tx from"@, repaired(t.from@))
    ||| qty(t.gas) is None && is_invalid_field(e, "tx gas"@, t.gas@)
    ||| qty(t.gas_used) is None && is_invalid_field(e, "tx gas used"@, t.gas_used@)
    ||| (t.max_fee_per_gas matches Some(v) && dec(v) is None && is_invalid_field(e, "tx max fee"@, repaired(v@)))
    ||| (t.max_priority_fee_per_gas matches Some(v) && dec(v) is None && is_invalid_field(e, "tx max priority"@, repaired(v@)))
}

/// The errors a log translation may give: each names a field that fails.
pub open spec fn log_error(l: Log, e: Error) -> bool {
    ||| dec(l.address) is None && is_invalid_field(e, "log address"@, repaired(l.address@))
    ||| dec(l.data) is None && is_invalid_field(e, "log data"@, repaired(l.data@))
    ||| exists|i: int|
        0 <= i < l.topics@.len() && dec(#[trigger] l.topics@[i]) is None && is_invalid_field(
            e,
            "log topic"@,
            repaired(l.topics@[i]@),
        )
}

/// Translates a block header; fails if a hex field or quantity is malformed
/// or the timestamp does not fit a signed 64-bit count of seconds.
pub fn header_to_pb(h: &BlockHeader) -> (r: Result<PbBlockHeader, Error>)
    ensures
        r is Ok <==> header_ok(*h),
        r matches Err(e) ==> e is InvalidInput && header_error(*h, e),
        r matches Ok(p) ==> header_matches(*h, p),
{
    let parent_hash = try_decode_hex("parent hash", h.parent_hash.as_str())?;
    let uncle_hash = try_decode_hex("sha3 uncles", h.sha3_uncles.as_str())?;
    let coinbase = try_decode_hex("miner", h.miner.as_str())?;
    let state_root = try_decode_hex("state root", h.state_root.as_str())?;
    let transactions_root = try_decode_hex("transactions root", h.transactions_root.as_str())?;
    let receipt_root = try_decode_hex("receipts root", h.receipts_root.as_str())?;
    let logs_bloom = try_decode_hex("logs bloom", h.logs_bloom.as_str())?;
    let difficulty = try_decode_hex("difficulty", h.difficulty.as_str())?;
    let total_difficulty = try_decode_hex("total difficulty", h.total_difficulty.as_str())?;
    let gas_limit = parse_quantity("gas limit", h.gas_limit.as_str())?;
    let gas_used = parse_quantity("gas used", h.gas_used.as_str())?;
    if h.timestamp > i64::MAX as u64 {
        return Err(Error::InvalidInput(String::from_str("timestamp out of range")));
    }
    let extra_data = try_decode_hex("extra data", h.extra_data.as_str())?;
    let mix_hash = try_decode_hex("mix hash", h.mix_hash.as_str())?;
    let nonce = parse_quantity("nonce", h.nonce.as_str())?;
    let hash = try_decode_hex("hash", h.hash.as_str())?;
    let base_fee_per_gas = decode_opt("base fee per gas", &h.base_fee_per_gas)?;
    Ok(
        PbBlockHeader {
            parent_hash,
            uncle_hash,
            coinbase,
            state_root,
            transactions_root,
            receipt_root,
            logs_bloom,
            difficulty,
            total_difficulty,
            number: h.number,
            gas_limit,
            gas_used,
            timestamp_seconds: h.timestamp as i64,
            extra_data,
            mix_hash,
            nonce,
            hash,
            base_fee_per_gas,
        },
    )
}

pub open spec fn log_ok(l: Log) -> bool {
    &&& dec(l.address) is Some
    &&& dec(l.data) is Some
    &&& forall|i: int| 0 <= i < l.topics@.len() ==> (#[trigger] dec(l.topics@[i])) is Some
}

pub open spec fn log_matches(l: Log, p: PbLog) -> bool {
    &&& Some(p.address@) == dec(l.address)
    &&& Some(p.data@) == dec(l.data)
    &&& p.block_index == l.log_index
    &&& p.index == l.transaction_index
    &&& p.topics@.len() == l.topics@.len()
    &&& forall|i: int| 0 <= i < l.topics@.len() ==> Some(#[trigger] p.topics@[i]@) == dec(
        l.topics@[i],
    )
}

/// Translates a log; fails if its address, data or a topic is malformed hex.
pub fn log_to_pb(l: &Log) -> (r: Result<PbLog, Error>)
    ensures
        r is Ok <==> log_ok(*l),
        r matches Err(e) ==> e is InvalidInput && log_error(*l, e),
        r matches Ok(p) ==> log_matches(*l, p),
{
    let address = try_decode_hex("log address", l.address.as_str())?;
    let data = try_decode_hex("log data", l.data.as_str())?;
    let mut topics: Vec<Vec<u8>> = Vec::new();
    let mut i: usize = 0;
    while i < l.topics.len()
        invariant
            i <= l.topics@.len(),
            topics@.len() == i,
            forall|k: int| 0 <= k < i ==> Some(#[trigger] topics@[k]@) == dec(l.topics@[k]),
            forall|k: int| 0 <= k < i ==> (#[trigger] dec(l.topics@[k])) is Some,
        decreases l.topics@.len() - i,
    {
        let t = match try_decode_hex("log topic", l.topics[i].as_str()) {
            Ok(t) => t,
            Err(e) => {
                assert(dec(l.topics@[i as int]) is None);
                return Err(e);
            },
        };
        topics.push(t);
        i = i + 1;
    }
    Ok(
        PbLog {
            address,
            data,
            block_index: l.log_index,
            topics,
            index: l.transaction_index,
        },
    )
}

pub open spec fn tx_ok(t: Transaction) -> bool {
    &&& (t.to matches Some(to) ==> dec(to) is Some)
    &&& dec(t.gas_price) is Some
    &&& qty(t.gas) is Some
    &&& qty(t.gas_used) is Some
    &&& dec(t.value) is Some
    &&& dec(t.input) is Some
    &&& dec(t.v) is Some
    &&& dec(t.r) is Some
    &&& dec(t.s) is Some
    &&& opt_dec(t.max_fee_per_gas) is Some
    &&& opt_dec(t.max_priority_fee_per_gas) is Some
    &&& dec(t.hash) is Some
    &&& dec(t.from) is Some
}

/// The fields of a translated transaction that come from the transaction
/// itself; a missing recipient is the zero address.
pub open spec fn tx_matches(t: Transaction, p: PbTransactionTrace) -> bool {
    &&& p.to@ == match t.to {
        Some(to) => dec(to)->0,
        None => zero_bytes(20),
    }
    &&& p.nonce == t.nonce
    &&& Some(p.gas_price@) == dec(t.gas_price)
    &&& Some(p.gas_limit) == qty(t.gas)
    &&& Some(p.gas_used) == qty(t.gas_used)
    &&& Some(p.value@) == dec(t.value)
    &&& Some(p.input@) == dec(t.input)
    &&& Some(p.v@) == dec(t.v)
    &&& Some(p.r@) == dec(t.r)
    &&& Some(p.s@) == dec(t.s)
    &&& p.tx_type == t.tx_type
    &&& Some(opt_bytes(p.max_fee_per_gas)) == opt_dec(t.max_fee_per_gas)
    &&& Some(opt_bytes(p.max_priority_fee_per_gas)) == opt_dec(t.max_priority_fee_per_gas)
    &&& p.index == t.transaction_index
    &&& Some(p.hash@) == dec(t.hash)
    &&& Some(p.from@) == dec(t.from)
}

/// Translates a transaction, without its status, receipt and calls (status
/// unknown, no receipt, no calls).
pub fn tx_to_pb(t: &Transaction) -> (r: Result<PbTransactionTrace, Error>)
    ensures
        r is Ok <==> tx_ok(*t),
        r matches Err(e) ==> e is InvalidInput && tx_error(*t, e),
        r matches Ok(p) ==> tx_matches(*t, p) && p.status == STATUS_UNKNOWN && p.receipt is None
            && p.calls@.len() == 0,
{
    let to = match &t.to {
        Some(a) => try_decode_hex("tx to", a.as_str())?,
        None => zeros(ADDRESS_LEN),
    };
    let gas_price = try_decode_hex("tx gas price", t.gas_price.as_str())?;
    let gas_limit = parse_quantity("tx gas", t.gas.as_str())?;
    let gas_used = parse_quantity("tx gas used", t.gas_used.as_str())?;
    let value = try_decode_hex("tx value", t.value.as_str())?;
    let input = try_decode_hex("tx input", t.input.as_str())?;
    let v = try_decode_hex("tx v", t.v.as_str())?;
    let r = try_decode_hex("tx r", t.r.as_str())?;
    let s = try_decode_hex("tx s", t.s.as_str())?;
    let max_fee_per_gas = decode_opt("tx max fee", &t.max_fee_per_gas)?;
    let max_priority_fee_per_gas = decode_opt("tx max priority", &t.max_priority_fee_per_gas)?;
    let hash = try_decode_hex("tx hash", t.hash.as_str())?;
    let from = try_decode_hex("tx from", t.from.as_str())?;
    Ok(
        PbTransactionTrace {
            to,
            nonce: t.nonce,
            gas_price,
            gas_limit,
            gas_used,
            value,
            input,
            v,
            r,
            s,
            tx_type: t.tx_type,
            max_fee_per_gas,
            max_priority_fee_per_gas,
            index: t.transaction_index,
            hash,
            from,
            status: STATUS_UNKNOWN,
            receipt: None,
            calls: Vec::new(),
        },
    )
}

pub open spec fn result_gas_used(t: Trace) -> Option<String> {
    match t.result {
        Some(r) => r.gas_used,
        None => None,
    }
}

pub open spec fn result_address(t: Trace) -> Option<String> {
    match t.result {
        Some(r) => r.address,
        None => None,
    }
}

pub open spec fn result_output(t: Trace) -> Option<String> {
    match t.result {
        Some(r) => r.output,
        None => None,
    }
}

/// Gas consumed by a trace; a missing value counts as zero.
pub open spec fn gas_consumed_of(t: Trace) -> Option<u64> {
    match result_gas_used(t) {
        Some(g) => qty(g),
        None => Some(0),
    }
}

/// Numeric call type: 5 for a creation, 1 to 4 for the kinds of call, 0 when
/// a call does not say its kind.
pub open spec fn call_type_code(t: Trace) -> i32 {
    match t.trace_type {
        TraceType::Create => 5,
        _ => match t.action->0.call_type {
            Some(CallType::Call) => 1,
            Some(CallType::Callcode) => 2,
            Some(CallType::Delegatecall) => 3,
            Some(CallType::Staticcall) => 4,
            None => 0,
        },
    }
}

pub open spec fn call_ok(t: Trace) -> bool {
    &&& (t.trace_type is Create || t.trace_type is Call)
    &&& t.action is Some
    &&& t.action->0.gas is Some
    &&& qty(t.action->0.gas->0) is Some
    &&& gas_consumed_of(t) is Some
    &&& t.action->0.from is Some
    &&& dec(t.action->0.from->0) is Some
    &&& opt_dec(t.action->0.value) is Some
    &&& if t.trace_type is Create {
        result_address(t) matches Some(a) ==> dec(a) is Some
    } else {
        &&& t.action->0.to is Some
        &&& dec(t.action->0.to->0) is Some
        &&& (result_output(t) matches Some(o) ==> dec(o) is Some)
        &&& t.action->0.input is Some
        &&& dec(t.action->0.input->0) is Some
    }
}

pub open spec fn call_matches(t: Trace, p: PbCall) -> bool {
    let a = t.action->0;
    &&& p.call_type == call_type_code(t)
    &&& Some(p.caller@) == dec(a.from->0)
    &&& Some(opt_bytes(p.value)) == opt_dec(a.value)
    &&& Some(p.gas_limit) == qty(a.gas->0)
    &&& Some(p.gas_consumed) == gas_consumed_of(t)
    &&& p.status_failed == (t.error is Some || t.revert_reason is Some)
    &&& p.status_reverted == t.revert_reason is Some
    &&& !p.state_reverted
    &&& p.failure_reason@ == match (t.error, t.revert_reason) {
        (Some(e), _) => e@,
        (None, Some(r)) => r@,
        (None, None) => Seq::<char>::empty(),
    }
    &&& if t.trace_type is Create {
        &&& p.address@ == match result_address(t) {
            Some(ad) => dec(ad)->0,
            None => zero_bytes(20),
        }
        &&& p.return_data@.len() == 0
        &&& p.input@.len() == 0
    } else {
        &&& Some(p.address@) == dec(a.to->0)
        &&& p.return_data@ == match result_output(t) {
            Some(o) => dec(o)->0,
            None => Seq::<u8>::empty(),
        }
        &&& Some(p.input@) == dec(a.input->0)
    }
}

fn encoding_error(msg: &str) -> (r: Error)
    ensures
        r is Encoding,
{
    Error::Encoding(String::from_str(msg))
}

/// Whether a trace has the fields a call needs: an action with gas and a
/// sender, and for a call also a recipient and an input.
pub open spec fn call_fields_present(t: Trace) -> bool {
    &&& t.action is Some
    &&& t.action->0.gas is Some
    &&& t.action->0.from is Some
    &&& t.trace_type is Call ==> t.action->0.to is Some && t.action->0.input is Some
}

/// The errors a trace translation may give: the kind of trace, a missing
/// field, or a malformed field that the error names.
pub open spec fn call_error(t: Trace, e: Error) -> bool {
    ||| (!is_call_trace(t) && e is Unsupported)
    ||| (is_call_trace(t) && !call_fields_present(t) && e is Encoding)
    ||| (is_call_trace(t) && call_fields_present(t) && call_field_error(t, e))
}

/// A malformed field of a trace that has all the fields a call needs.
pub open spec fn call_field_error(t: Trace, e: Error) -> bool {
    let a = t.action->0;
    ||| (qty(a.gas->0) is None && is_invalid_field(e, "trace gas"@, (a.gas->0)@))
    ||| (result_gas_used(t) matches Some(g) && qty(g) is None && is_invalid_field(
        e,
        "trace gas used"@,
        g@,
    ))
    ||| (dec(a.from->0) is None && is_invalid_field(e, "trace from"@, repaired((a.from->0)@)))
    ||| (a.value matches Some(v) && dec(v) is None && is_invalid_field(
        e,
        "trace value"@,
        repaired(v@),
    ))
    ||| (t.trace_type is Create && (result_address(t) matches Some(ad) && dec(ad) is None
        && is_invalid_field(e, "trace address"@, repaired(ad@))))
    ||| (t.trace_type is Call && dec(a.to->0) is None && is_invalid_field(
        e,
        "trace to"@,
        repaired((a.to->0)@),
    ))
    ||| (t.trace_type is Call && (result_output(t) matches Some(o) && dec(o) is None
        && is_invalid_field(e, "trace output"@, repaired(o@))))
    ||| (t.trace_type is Call && dec(a.input->0) is None && is_invalid_field(
        e,
        "trace input"@,
        repaired((a.input->0)@),
    ))
}

/// Translates a call or creation trace into a call; suicide and reward
/// traces, and traces that lack a required field, are refused.
pub fn call_to_pb(t: &Trace) -> (r: Result<PbCall, Error>)
    ensures
        r is Ok <==> call_ok(*t),
        r matches Err(e) ==> call_error(*t, e),
        r matches Err(e) ==> if !is_call_trace(*t) {
            e is Unsupported
        } else if !call_fields_present(*t) {
            e is Encoding
        } else {
            e is InvalidInput
        },
        r matches Ok(p) ==> call_matches(*t, p),
{
    let is_create = match t.trace_type {
        TraceType::Create => true,
        TraceType::Call => false,
        _ => {
            return Err(Error::Unsupported(String::from_str("unsupported trace type")));
        },
    };
    let action = match &t.action {
        Some(a) => a,
        None => {
            return Err(encoding_error("no action"));
        },
    };
    let call_type: i32 = if is_create {
        5
    } else {
        match action.call_type {
            Some(CallType::Call) => 1,
            Some(CallType::Callcode) => 2,
            Some(CallType::Delegatecall) => 3,
            Some(CallType::Staticcall) => 4,
            None => 0,
        }
    };
    let gas = match &action.gas {
        Some(g) => g,
        None => {
            return Err(encoding_error("no gas"));
        },
    };
    if action.from.is_none() {
        return Err(encoding_error("no from"));
    }
    if !is_create && action.to.is_none() {
        return Err(encoding_error("no to"));
    }
    if !is_create && action.input.is_none() {
        return Err(encoding_error("no input"));
    }
    let gas_limit = parse_quantity("trace gas", gas.as_str())?;
    let (res_gas_used, res_address, res_output) = match &t.result {
        Some(res) => (&res.gas_used, &res.address, &res.output),
        None => (&None, &None, &None),
    };
    let gas_consumed = match res_gas_used {
        Some(g) => parse_quantity("trace gas used", g.as_str())?,
        None => 0,
    };
    let from = match &action.from {
        Some(f) => f,
        None => {
            return Err(encoding_error("no from"));
        },
    };
    let caller = try_decode_hex("trace from", from.as_str())?;
    let value = decode_opt("trace value", &action.value)?;
    let (address, return_data, input) = if is_create {
        let address = match res_address {
            Some(a) => try_decode_hex("trace address", a.as_str())?,
            None => zeros(ADDRESS_LEN),
        };
        (address, Vec::new(), Vec::new())
    } else {
        let to = match &action.to {
            Some(a) => a,
            None => {
                return Err(encoding_error("no to"));
            },
        };
        let address = try_decode_hex("trace to", to.as_str())?;
        let return_data = match res_output {
            Some(o) => try_decode_hex("trace output", o.as_str())?,
            None => Vec::new(),
        };
        let input = match &action.input {
            Some(i) => try_decode_hex("trace input", i.as_str())?,
            None => {
                return Err(encoding_error("no input"));
            },
        };
        (address, return_data, input)
    };
    let failure_reason = match (&t.error, &t.revert_reason) {
        (Some(e), _) => e.clone(),
        (None, Some(r)) => r.clone(),
        (None, None) => String::new(),
    };
    Ok(
        PbCall {
            call_type,
            caller,
            address,
            value,
            gas_limit,
            gas_consumed,
            return_data,
            input,
            status_failed: t.error.is_some() || t.revert_reason.is_some(),
            status_reverted: t.revert_reason.is_some(),
            state_reverted: false,
            failure_reason,
        },
    )
}

/// Status of a transaction from its root call (the first): reverted if that
/// call failed with its state reverted, failed if it failed otherwise,
/// succeeded if it did not fail.
pub open spec fn status_of_root(root: PbCall) -> i32 {
    if root.status_failed && root.state_reverted {
        STATUS_REVERTED
    } else if root.status_failed {
        STATUS_FAILED
    } else {
        STATUS_SUCCEEDED
    }
}

pub fn get_tx_trace_status(calls: &Vec<PbCall>) -> (r: i32)
    requires
        calls@.len() > 0,
    ensures
        r == status_of_root(calls@[0]),
{
    let call = &calls[0];
    if call.status_failed && call.state_reverted {
        STATUS_REVERTED
    } else if call.status_failed {
        STATUS_FAILED
    } else {
        STATUS_SUCCEEDED
    }
}

/// The logs of transaction `idx`, in block order.
pub open spec fn logs_for(logs: Seq<Log>, idx: u32) -> Seq<Log>
    decreases logs.len(),
{
    if logs.len() == 0 {
        Seq::empty()
    } else {
        let rest = logs_for(logs.drop_last(), idx);
        if logs.last().transaction_index == idx {
            rest.push(logs.last())
        } else {
            rest
        }
    }
}

/// Whether a trace becomes a call: creations and calls do, suicides and
/// rewards are dropped.
pub open spec fn is_call_trace(t: Trace) -> bool {
    t.trace_type is Create || t.trace_type is Call
}

/// The call and creation traces of transaction `idx`, in block order.
pub open spec fn calls_for(traces: Seq<Trace>, idx: u32) -> Seq<Trace>
    decreases traces.len(),
{
    if traces.len() == 0 {
        Seq::empty()
    } else {
        let rest = calls_for(traces.drop_last(), idx);
        if traces.last().transaction_index == idx && is_call_trace(traces.last()) {
            rest.push(traces.last())
        } else {
            rest
        }
    }
}

pub open spec fn tx_logs_ok(logs: Seq<Log>, idx: u32) -> bool {
    forall|j: int|
        0 <= j < logs.len() && (#[trigger] logs[j]).transaction_index == idx ==> log_ok(logs[j])
}

pub open spec fn tx_calls_ok(traces: Seq<Trace>, idx: u32) -> bool {
    forall|j: int|
        0 <= j < traces.len() && (#[trigger] traces[j]).transaction_index == idx
            && is_call_trace(traces[j]) ==> call_ok(traces[j])
}

pub open spec fn logs_match(src: Seq<Log>, out: Seq<PbLog>) -> bool {
    &&& out.len() == src.len()
    &&& forall|k: int| 0 <= k < src.len() ==> log_matches(src[k], #[trigger] out[k])
}

pub open spec fn calls_match(src: Seq<Trace>, out: Seq<PbCall>) -> bool {
    &&& out.len() == src.len()
    &&& forall|k: int| 0 <= k < src.len() ==> call_matches(src[k], #[trigger] out[k])
}

/// Translates the logs of transaction `idx`.
fn tx_logs(logs: &Vec<Log>, idx: u32) -> (r: Result<Vec<PbLog>, Error>)
    ensures
        r is Ok <==> tx_logs_ok(logs@, idx),
        r matches Err(e) ==> exists|j: int|
            0 <= j < logs@.len() && (#[trigger] logs@[j]).transaction_index == idx && log_error(
                logs@[j],
                e,
            ),
        r matches Ok(out) ==> logs_match(logs_for(logs@, idx), out@),
{
    let mut out: Vec<PbLog> = Vec::new();
    let mut j: usize = 0;
    while j < logs.len()
        invariant
            j <= logs@.len(),
            logs_match(logs_for(logs@.subrange(0, j as int), idx), out@),
            forall|k: int|
                0 <= k < j && (#[trigger] logs@[k]).transaction_index == idx ==> log_ok(logs@[k]),
        decreases logs@.len() - j,
    {
        let ghost pre = logs@.subrange(0, j as int);
        assert(logs@.subrange(0, j + 1).drop_last() =~= pre);
        assert(logs@.subrange(0, j + 1).last() == logs@[j as int]);
        if logs[j].transaction_index == idx {
            let l = log_to_pb(&logs[j]);
            match l {
                Ok(pl) => {
                    out.push(pl);
                },
                Err(e) => {
                    assert(logs@[j as int].transaction_index == idx);
                    return Err(e);
                },
            }
        }
        j = j + 1;
    }
    assert(logs@.subrange(0, logs@.len() as int) =~= logs@);
    Ok(out)
}

/// Translates the call and creation traces of transaction `idx`.
fn tx_calls(traces: &Vec<Trace>, idx: u32) -> (r: Result<Vec<PbCall>, Error>)
    ensures
        r is Ok <==> tx_calls_ok(traces@, idx),
        r matches Err(e) ==> exists|j: int|
            0 <= j < traces@.len() && (#[trigger] traces@[j]).transaction_index == idx
                && call_error(traces@[j], e),
        r matches Ok(out) ==> calls_match(calls_for(traces@, idx), out@),
{
    let mut out: Vec<PbCall> = Vec::new();
    let mut j: usize = 0;
    while j < traces.len()
        invariant
            j <= traces@.len(),
            calls_match(calls_for(traces@.subrange(0, j as int), idx), out@),
            forall|k: int|
                0 <= k < j && (#[trigger] traces@[k]).transaction_index == idx && is_call_trace(
                    traces@[k],
                ) ==> call_ok(traces@[k]),
        decreases traces@.len() - j,
    {
        let ghost pre = traces@.subrange(0, j as int);
        assert(traces@.subrange(0, j + 1).drop_last() =~= pre);
        assert(traces@.subrange(0, j + 1).last() == traces@[j as int]);
        let t = &traces[j];
        let wanted = match t.trace_type {
            TraceType::Create => true,
            TraceType::Call => true,
            _ => false,
        };
        if t.transaction_index == idx && wanted {
            match call_to_pb(t) {
                Ok(c) => {
                    out.push(c);
                },
                Err(e) => {
                    assert(traces@[j as int].transaction_index == idx);
                    return Err(e);
                },
            }
        }
        j = j + 1;
    }
    assert(traces@.subrange(0, traces@.len() as int) =~= traces@);
    Ok(out)
}

/// Whether an earlier transaction of the block has the same index as
/// transaction `i`; the logs and calls of an index go to the first one.
pub open spec fn index_taken(txs: Seq<Transaction>, i: int) -> bool {
    exists|j: int| 0 <= j < i && (#[trigger] txs[j]).transaction_index == txs[i].transaction_index
}

pub open spec fn block_tx_ok(b: Block, t: Transaction, taken: bool) -> bool {
    &&& !taken ==> tx_logs_ok(b.logs@, t.transaction_index)
    &&& !taken ==> tx_calls_ok(b.traces@, t.transaction_index)
    &&& qty(t.cumulative_gas_used) is Some
    &&& tx_ok(t)
}

/// A translated transaction with its receipt, logs, calls and status; a
/// transaction whose index an earlier one took has no logs and no calls.
pub open spec fn block_tx_matches(b: Block, t: Transaction, taken: bool, p: PbTransactionTrace) -> bool {
    let logs = if taken {
        Seq::empty()
    } else {
        logs_for(b.logs@, t.transaction_index)
    };
    let calls = if taken {
        Seq::empty()
    } else {
        calls_for(b.traces@, t.transaction_index)
    };
    &&& tx_matches(t, p)
    &&& p.receipt matches Some(rc) && {
        &&& Some(rc.cumulative_gas_used) == qty(t.cumulative_gas_used)
        &&& rc.logs_bloom@ == zero_bytes(256)
        &&& logs_match(logs, rc.logs@)
    }
    &&& calls_match(calls, p.calls@)
    &&& p.status == if p.calls@.len() == 0 {
        STATUS_UNKNOWN
    } else {
        status_of_root(p.calls@[0])
    }
}

/// The errors of one transaction of a block: its own fields, its receipt's
/// gas, or one of its logs or calls.
pub open spec fn block_tx_error(b: Block, t: Transaction, e: Error) -> bool {
    ||| tx_error(t, e)
    ||| (qty(t.cumulative_gas_used) is None && is_invalid_field(
        e,
        "cumulative gas used"@,
        t.cumulative_gas_used@,
    ))
    ||| exists|j: int|
        0 <= j < b.logs@.len() && (#[trigger] b.logs@[j]).transaction_index == t.transaction_index
            && log_error(b.logs@[j], e)
    ||| exists|j: int|
        0 <= j < b.traces@.len() && (#[trigger] b.traces@[j]).transaction_index
            == t.transaction_index && call_error(b.traces@[j], e)
}

/// The errors a block translation may give: one of its header or of one of
/// its transactions.
pub open spec fn block_error(b: Block, e: Error) -> bool {
    ||| header_error(b.header, e)
    ||| exists|i: int|
        0 <= i < b.transactions@.len() && block_tx_error(b, #[trigger] b.transactions@[i], e)
}

pub open spec fn block_ok(b: Block) -> bool {
    &&& header_ok(b.header)
    &&& forall|i: int|
        0 <= i < b.transactions@.len() ==> block_tx_ok(
            b,
            #[trigger] b.transactions@[i],
            index_taken(b.transactions@, i),
        )
}

pub open spec fn block_matches(b: Block, p: PbBlock) -> bool {
    &&& p.ver == 2
    &&& Some(p.hash@) == dec(b.header.hash)
    &&& p.number == b.header.number
    &&& p.size == b.header.size
    &&& p.header matches Some(h) && header_matches(b.header, h)
    &&& p.transaction_traces@.len() == b.transactions@.len()
    &&& forall|i: int|
        0 <= i < b.transactions@.len() ==> block_tx_matches(
            b,
            b.transactions@[i],
            index_taken(b.transactions@, i),
            #[trigger] p.transaction_traces@[i],
        )
}

fn is_index_taken(txs: &Vec<Transaction>, i: usize) -> (r: bool)
    requires
        i < txs@.len(),
    ensures
        r == index_taken(txs@, i as int),
{
    let idx = txs[i].transaction_index;
    let mut j: usize = 0;
    while j < i
        invariant
            i < txs@.len(),
            idx == txs@[i as int].transaction_index,
            j <= i,
            forall|k: int| 0 <= k < j ==> (#[trigger] txs@[k]).transaction_index != idx,
        decreases i - j,
    {
        if txs[j].transaction_index == idx {
            return true;
        }
        j = j + 1;
    }
    false
}

fn block_tx_to_pb(b: &Block, t: &Transaction, taken: bool) -> (r: Result<PbTransactionTrace, Error>)
    ensures
        r is Ok <==> block_tx_ok(*b, *t, taken),
        r matches Err(e) ==> block_tx_error(*b, *t, e),
        r matches Ok(p) ==> block_tx_matches(*b, *t, taken, p),
{
    let (logs, calls) = if taken {
        (Vec::new(), Vec::new())
    } else {
        (tx_logs(&b.logs, t.transaction_index)?, tx_calls(&b.traces, t.transaction_index)?)
    };
    let cumulative_gas_used = parse_quantity("cumulative gas used", t.cumulative_gas_used.as_str())?;
    let receipt = PbReceipt { cumulative_gas_used, logs_bloom: zeros(BLOOM_LEN), logs };
    let mut p = tx_to_pb(t)?;
    p.status = if calls.len() == 0 {
        STATUS_UNKNOWN
    } else {
        get_tx_trace_status(&calls)
    };
    p.receipt = Some(receipt);
    p.calls = calls;
    Ok(p)
}

/// Translates a block: header, then each transaction with its own logs and
/// calls grouped by transaction index.
pub fn block_to_pb(b: &Block) -> (r: Result<PbBlock, Error>)
    ensures
        r is Ok <==> block_ok(*b),
        r matches Ok(p) ==> block_matches(*b, p),
        r matches Err(e) ==> block_error(*b, e),
{
    let header = header_to_pb(&b.header)?;
    let hash = try_decode_hex("hash", b.header.hash.as_str())?;
    let mut txs: Vec<PbTransactionTrace> = Vec::new();
    let mut i: usize = 0;
    while i < b.transactions.len()
        invariant
            i <= b.transactions@.len(),
            txs@.len() == i,
            forall|k: int|
                0 <= k < i ==> block_tx_ok(
                    *b,
                    #[trigger] b.transactions@[k],
                    index_taken(b.transactions@, k),
                ) && block_tx_matches(
                    *b,
                    b.transactions@[k],
                    index_taken(b.transactions@, k),
                    txs@[k],
                ),
        decreases b.transactions@.len() - i,
    {
        let taken = is_index_taken(&b.transactions, i);
        let p = match block_tx_to_pb(b, &b.transactions[i], taken) {
            Ok(p) => p,
            Err(e) => {
                assert(block_tx_error(*b, b.transactions@[i as int], e));
                return Err(e);
            },
        };
        txs.push(p);
        i = i + 1;
    }
    Ok(
        PbBlock {
            ver: 2,
            hash,
            number: b.header.number,
            size: b.header.size,
            header: Some(header),
            transaction_traces: txs,
        },
    )
}

} // verus!
