use firehose_adapter::codec::{
    block_to_pb, call_to_pb, get_tx_trace_status, PbCall, STATUS_FAILED, STATUS_REVERTED,
    STATUS_SUCCEEDED, STATUS_UNKNOWN,
};
use firehose_adapter::cursor::{Cursor, HashAndHeight};
use firehose_adapter::data::{
    Block, BlockHeader, CallType, Log, Trace, TraceAction, TraceResult, TraceType, Transaction,
};
use firehose_adapter::error::Error;
use firehose_adapter::hex::{qty2int, try_decode_hex};
use firehose_adapter::state::State;

fn header(number: u64, hash: &str) -> BlockHeader {
    BlockHeader {
        number,
        hash: hash.to_string(),
        parent_hash: "0x00".to_string(),
        sha3_uncles: "0x00".to_string(),
        miner: "0x00".to_string(),
        state_root: "0x00".to_string(),
        transactions_root: "0x00".to_string(),
        receipts_root: "0x00".to_string(),
        logs_bloom: "0x00".to_string(),
        difficulty: "0x0".to_string(),
        total_difficulty: "0x0".to_string(),
        size: 10,
        gas_limit: "0x10".to_string(),
        gas_used: "0x1".to_string(),
        timestamp: 1000,
        extra_data: "0x".to_string(),
        mix_hash: "0x00".to_string(),
        nonce: "0x0".to_string(),
        base_fee_per_gas: None,
    }
}

fn tx(index: u32) -> Transaction {
    Transaction {
        transaction_index: index,
        hash: "0xaa".to_string(),
        from: "0x01".to_string(),
        to: None,
        nonce: 3,
        gas_price: "0x1".to_string(),
        gas: "0x5208".to_string(),
        gas_used: "0x5208".to_string(),
        cumulative_gas_used: "0x10".to_string(),
        value: "0x0".to_string(),
        input: "0x".to_string(),
        v: "0x1".to_string(),
        r: "0x1".to_string(),
        s: "0x1".to_string(),
        tx_type: 2,
        max_fee_per_gas: None,
        max_priority_fee_per_gas: Some("0x2".to_string()),
    }
}

fn trace(index: u32, trace_type: TraceType, error: Option<&str>, revert: Option<&str>) -> Trace {
    Trace {
        transaction_index: index,
        trace_type,
        error: error.map(|e| e.to_string()),
        revert_reason: revert.map(|e| e.to_string()),
        action: Some(TraceAction {
            from: Some("0x01".to_string()),
            to: Some("0x02".to_string()),
            value: Some("0x5".to_string()),
            gas: Some("0x64".to_string()),
            input: Some("0xabcd".to_string()),
            call_type: Some(CallType::Delegatecall),
        }),
        result: Some(TraceResult {
            gas_used: Some("0x10".to_string()),
            address: None,
            output: Some("0x01".to_string()),
        }),
    }
}

fn call(failed: bool, reverted: bool) -> PbCall {
    PbCall {
        call_type: 1,
        caller: vec![],
        address: vec![],
        value: None,
        gas_limit: 0,
        gas_consumed: 0,
        return_data: vec![],
        input: vec![],
        status_failed: failed,
        status_reverted: false,
        state_reverted: reverted,
        failure_reason: String::new(),
    }
}

#[test]
fn decode_even_hex() {
    assert_eq!(try_decode_hex("hash", "0x0aff").unwrap(), vec![0x0a, 0xff]);
    assert_eq!(try_decode_hex("hash", "0x").unwrap(), Vec::<u8>::new());
}

#[test]
fn decode_odd_hex_pads_one_nibble() {
    assert_eq!(try_decode_hex("hash", "0xabc").unwrap(), vec![0x0a, 0xbc]);
    assert_eq!(try_decode_hex("hash", "0x1").unwrap(), vec![0x01]);
    assert_eq!(
        try_decode_hex("hash", "0xabc").unwrap(),
        try_decode_hex("hash", "0x0abc").unwrap()
    );
}

#[test]
fn decode_invalid_hex_names_field() {
    match try_decode_hex("tx hash", "0xzz") {
        Err(Error::InvalidInput(m)) => assert_eq!(m, "invalid tx hash: 0xzz"),
        other => panic!("unexpected {:?}", other),
    }
    assert!(try_decode_hex("hash", "ab").is_err());
    assert!(try_decode_hex("hash", "0").is_err());
    assert!(try_decode_hex("hash", "12abc").is_err());
    assert!(try_decode_hex("hash", "a\u{20ac}abc").is_err());
    assert!(try_decode_hex("hash", "\u{e9}").is_err());
}

#[test]
fn quantity_values() {
    assert_eq!(qty2int("0x1f").unwrap(), 31);
    assert_eq!(qty2int("0x0").unwrap(), 0);
    assert_eq!(qty2int("ff").unwrap(), 255);
    assert_eq!(qty2int("0xffffffffffffffff").unwrap(), u64::MAX);
    assert!(qty2int("0x10000000000000000").is_err());
    assert!(qty2int("0x").is_err());
    assert!(qty2int("0xg").is_err());
    assert!(qty2int("0x0x1").is_err());
    match qty2int("0xz") {
        Err(Error::InvalidInput(m)) => assert_eq!(m, "invalid quantity: 0xz"),
        other => panic!("unexpected {:?}", other),
    }
}

#[test]
fn cursor_round_trip() {
    let c = Cursor::new(
        HashAndHeight::new(95, "0xabc".to_string()),
        HashAndHeight::new(100, "0xdef0".to_string()),
    );
    let token = c.to_string();
    let back = Cursor::parse(&token).unwrap();
    assert_eq!(back.block.height, 95);
    assert_eq!(back.block.hash, "0xabc");
    assert_eq!(back.finalized.height, 100);
    assert_eq!(back.finalized.hash, "0xdef0");
    assert_eq!(back.to_string(), token);
}

#[test]
fn cursor_rejects_garbage() {
    assert!(matches!(Cursor::parse("not a cursor"), Err(Error::InvalidInput(_))));
    assert!(Cursor::parse("").is_err());
}

#[test]
fn state_views() {
    let mut s = State::new();
    assert_eq!(s.next_block(), 0);
    assert_eq!(s.current_block(), -1);
    s.update(HashAndHeight::new(41, "0x01".to_string()));
    assert_eq!(s.next_block(), 42);
    assert_eq!(s.current_block(), 41);
    let c = s.cursor();
    assert_eq!(c.block.height, 41);
    assert_eq!(c.finalized.height, 41);
}

#[test]
fn status_from_root_call() {
    assert_eq!(get_tx_trace_status(&vec![call(true, true)]), STATUS_REVERTED);
    assert_eq!(get_tx_trace_status(&vec![call(true, false)]), STATUS_FAILED);
    assert_eq!(get_tx_trace_status(&vec![call(false, true)]), STATUS_SUCCEEDED);
    assert_eq!(get_tx_trace_status(&vec![call(false, false), call(true, true)]), STATUS_SUCCEEDED);
}

#[test]
fn call_trace_translation() {
    let c = call_to_pb(&trace(0, TraceType::Call, None, Some("boom"))).unwrap();
    assert_eq!(c.call_type, 3);
    assert_eq!(c.caller, vec![0x01]);
    assert_eq!(c.address, vec![0x02]);
    assert_eq!(c.value, Some(vec![0x05]));
    assert_eq!(c.gas_limit, 100);
    assert_eq!(c.gas_consumed, 16);
    assert_eq!(c.return_data, vec![0x01]);
    assert_eq!(c.input, vec![0xab, 0xcd]);
    assert!(c.status_failed);
    assert!(c.status_reverted);
    assert!(!c.state_reverted);
    assert_eq!(c.failure_reason, "boom");
}

#[test]
fn create_trace_translation() {
    let mut t = trace(0, TraceType::Create, Some("out of gas"), None);
    t.result = None;
    let c = call_to_pb(&t).unwrap();
    assert_eq!(c.call_type, 5);
    assert_eq!(c.address, vec![0u8; 20]);
    assert_eq!(c.gas_consumed, 0);
    assert!(c.return_data.is_empty());
    assert!(c.input.is_empty());
    assert!(c.status_failed);
    assert!(!c.status_reverted);
    assert_eq!(c.failure_reason, "out of gas");
}

#[test]
fn trace_missing_fields_fail() {
    let mut t = trace(0, TraceType::Call, None, None);
    t.action = None;
    assert!(matches!(call_to_pb(&t), Err(Error::Encoding(_))));
    let mut t = trace(0, TraceType::Call, None, None);
    t.action.as_mut().unwrap().gas = None;
    assert!(matches!(call_to_pb(&t), Err(Error::Encoding(_))));
    let t = trace(0, TraceType::Reward, None, None);
    assert!(matches!(call_to_pb(&t), Err(Error::Unsupported(_))));
    let mut t = trace(0, TraceType::Call, None, None);
    t.action.as_mut().unwrap().gas = Some("0xzz".to_string());
    t.action.as_mut().unwrap().input = None;
    assert!(matches!(call_to_pb(&t), Err(Error::Encoding(_))));
    let mut t = trace(0, TraceType::Call, None, None);
    t.action.as_mut().unwrap().gas = Some("0xzz".to_string());
    assert!(matches!(call_to_pb(&t), Err(Error::InvalidInput(_))));
}

#[test]
fn block_groups_logs_and_traces() {
    let block = Block {
        header: header(7, "0x07"),
        transactions: vec![tx(0), tx(1)],
        logs: vec![
            Log {
                log_index: 0,
                transaction_index: 1,
                address: "0x0a".to_string(),
                data: "0x".to_string(),
                topics: vec!["0x01".to_string(), "0x2".to_string()],
            },
            Log {
                log_index: 1,
                transaction_index: 0,
                address: "0x0b".to_string(),
                data: "0xff".to_string(),
                topics: vec![],
            },
        ],
        traces: vec![
            trace(0, TraceType::Call, Some("bad"), None),
            trace(1, TraceType::Suicide, None, None),
            trace(0, TraceType::Reward, None, None),
        ],
    };
    let pb = block_to_pb(&block).unwrap();
    assert_eq!(pb.ver, 2);
    assert_eq!(pb.number, 7);
    assert_eq!(pb.hash, vec![0x07]);
    assert_eq!(pb.size, 10);
    let h = pb.header.as_ref().unwrap();
    assert_eq!(h.gas_limit, 16);
    assert_eq!(h.timestamp_seconds, 1000);
    assert_eq!(pb.transaction_traces.len(), 2);
    let t0 = &pb.transaction_traces[0];
    assert_eq!(t0.to, vec![0u8; 20]);
    assert_eq!(t0.calls.len(), 1);
    assert_eq!(t0.status, STATUS_FAILED);
    assert_eq!(t0.max_priority_fee_per_gas, Some(vec![0x02]));
    let r0 = t0.receipt.as_ref().unwrap();
    assert_eq!(r0.logs.len(), 1);
    assert_eq!(r0.logs[0].data, vec![0xff]);
    assert_eq!(r0.cumulative_gas_used, 16);
    assert_eq!(r0.logs_bloom, vec![0u8; 256]);
    let t1 = &pb.transaction_traces[1];
    assert_eq!(t1.calls.len(), 0);
    assert_eq!(t1.status, STATUS_UNKNOWN);
    let r1 = t1.receipt.as_ref().unwrap();
    assert_eq!(r1.logs.len(), 1);
    assert_eq!(r1.logs[0].topics, vec![vec![0x01], vec![0x02]]);
}

#[test]
fn block_with_bad_field_fails() {
    let mut h = header(1, "0x01");
    h.state_root = "0xq1".to_string();
    let block = Block { header: h, transactions: vec![], logs: vec![], traces: vec![] };
    assert!(matches!(block_to_pb(&block), Err(Error::InvalidInput(_))));
}

#[test]
fn duplicate_transaction_index_goes_to_first() {
    let block = Block {
        header: header(8, "0x08"),
        transactions: vec![tx(3), tx(3)],
        logs: vec![Log {
            log_index: 0,
            transaction_index: 3,
            address: "0x0a".to_string(),
            data: "0x".to_string(),
            topics: vec![],
        }],
        traces: vec![trace(3, TraceType::Call, None, None)],
    };
    let pb = block_to_pb(&block).unwrap();
    assert_eq!(pb.transaction_traces[0].receipt.as_ref().unwrap().logs.len(), 1);
    assert_eq!(pb.transaction_traces[0].calls.len(), 1);
    assert_eq!(pb.transaction_traces[0].status, STATUS_SUCCEEDED);
    assert!(pb.transaction_traces[1].receipt.as_ref().unwrap().logs.is_empty());
    assert!(pb.transaction_traces[1].calls.is_empty());
}

#[test]
fn transaction_error_names_field() {
    let mut t = tx(0);
    t.hash = "0xzz".to_string();
    match firehose_adapter::codec::tx_to_pb(&t) {
        Err(Error::InvalidInput(m)) => assert_eq!(m, "invalid tx hash: 0xzz"),
        other => panic!("unexpected {:?}", other),
    }
}

#[test]
fn odd_hex_error_quotes_padded_text() {
    match try_decode_hex("l", "0xz") {
        Err(Error::InvalidInput(m)) => assert_eq!(m, "invalid l: 0x0z"),
        other => panic!("unexpected {:?}", other),
    }
}

#[test]
fn quantity_errors_name_the_field() {
    let mut h = header(1, "0x01");
    h.gas_limit = "0xq".to_string();
    match firehose_adapter::codec::header_to_pb(&h) {
        Err(Error::InvalidInput(m)) => assert_eq!(m, "invalid gas limit: 0xq"),
        other => panic!("unexpected {:?}", other),
    }
}

#[test]
fn trace_error_names_field() {
    let mut t = trace(0, TraceType::Call, None, None);
    t.action.as_mut().unwrap().to = Some("0xzz".to_string());
    match call_to_pb(&t) {
        Err(Error::InvalidInput(m)) => assert_eq!(m, "invalid trace to: 0xzz"),
        other => panic!("unexpected {:?}", other),
    }
}

#[test]
fn block_error_names_log_field() {
    let block = Block {
        header: header(9, "0x09"),
        transactions: vec![tx(0)],
        logs: vec![Log {
            log_index: 0,
            transaction_index: 0,
            address: "0xnope".to_string(),
            data: "0x".to_string(),
            topics: vec![],
        }],
        traces: vec![],
    };
    match block_to_pb(&block) {
        Err(Error::InvalidInput(m)) => assert_eq!(m, "invalid log address: 0xnope"),
        other => panic!("unexpected {:?}", other),
    }
}

#[test]
fn state_heights_beyond_signed_range() {
    let mut s = State::new();
    s.update(HashAndHeight::new(u64::MAX - 1, "0x01".to_string()));
    assert_eq!(s.next_block(), u64::MAX);
}
