use firehose_adapter::cursor::{Cursor, HashAndHeight};
use firehose_adapter::data::{Block, BlockHeader};
use firehose_adapter::engine::{
    apply_hot_update, resolve_negative_start, Firehose, ForkStep, HotUpdate, Reference, Request,
    SingleBlockRequest, Step,
};
use firehose_adapter::error::Error;
use firehose_adapter::filter::{compile_filters, CallToFilter, CombinedFilter, LogFilter, LogRequest};

fn hash_of(n: u64, fork: u8) -> String {
    format!("0x{:02x}{:016x}", fork, n)
}

fn block(n: u64, fork: u8) -> Block {
    Block {
        header: BlockHeader {
            number: n,
            hash: hash_of(n, fork),
            parent_hash: "0x00".to_string(),
            sha3_uncles: "0x00".to_string(),
            miner: "0x00".to_string(),
            state_root: "0x00".to_string(),
            transactions_root: "0x00".to_string(),
            receipts_root: "0x00".to_string(),
            logs_bloom: "0x00".to_string(),
            difficulty: "0x0".to_string(),
            total_difficulty: "0x0".to_string(),
            size: 1,
            gas_limit: "0x1".to_string(),
            gas_used: "0x1".to_string(),
            timestamp: 1,
            extra_data: "0x".to_string(),
            mix_hash: "0x00".to_string(),
            nonce: "0x0".to_string(),
            base_fee_per_gas: None,
        },
        transactions: vec![],
        logs: vec![],
        traces: vec![],
    }
}

fn request(start: i64, stop: u64, cursor: &str) -> Request {
    Request {
        start_block_num: start,
        stop_block_num: stop,
        cursor: cursor.to_string(),
        final_blocks_only: false,
        transforms: vec![],
    }
}

fn cursor_height(token: &str) -> u64 {
    Cursor::parse(token).unwrap().block.height
}

#[test]
fn negative_start_resolution() {
    assert_eq!(resolve_negative_start(-10, 100), 90);
    assert_eq!(resolve_negative_start(-200, 100), 0);
    assert_eq!(resolve_negative_start(-5, 0), 0);
    assert_eq!(resolve_negative_start(7, 100), 7);
    assert_eq!(resolve_negative_start(i64::MIN, u64::MAX), u64::MAX - 0x8000_0000_0000_0000);
}

#[test]
fn fresh_portal_only_catch_up() {
    let fh = Firehose::new(false);
    let mut sub = fh.blocks(&request(0, 5, ""), 10).unwrap();
    let req = sub.portal_request(10, false).unwrap();
    assert_eq!(req.from, 0);
    assert_eq!(req.to, Some(5));
    let mut heights = vec![];
    for n in 0..=5 {
        assert!(!sub.stop_reached());
        let resp = sub.deliver(&block(n, 0)).unwrap();
        assert_eq!(resp.step, ForkStep::New);
        assert_eq!(resp.block.number, n);
        heights.push(cursor_height(&resp.cursor));
    }
    assert_eq!(heights, vec![0, 1, 2, 3, 4, 5]);
    assert!(sub.stop_reached());
    assert_eq!(sub.next_step(Step::Portal, true, false), Step::End);
}

#[test]
fn phase_order() {
    let fh = Firehose::new(true);
    let mut sub = fh.blocks(&request(0, 3, ""), 0).unwrap();
    assert_eq!(sub.next_step(Step::Portal, true, true), Step::Rpc);
    assert_eq!(sub.next_step(Step::Portal, false, false), Step::End);
    assert_eq!(sub.next_step(Step::Rpc, true, true), Step::Tail);
    for n in 0..=3 {
        sub.deliver(&block(n, 0)).unwrap();
    }
    assert_eq!(sub.next_step(Step::Portal, true, true), Step::End);
    assert_eq!(sub.next_step(Step::Portal, false, true), Step::Rpc);
    assert_eq!(sub.next_step(Step::Rpc, true, true), Step::End);
    assert_eq!(sub.next_step(Step::Tail, true, true), Step::End);
}

#[test]
fn negative_start_with_rpc_head() {
    let fh = Firehose::new(true);
    let mut sub = fh.blocks(&request(-10, 0, ""), 100).unwrap();
    assert_eq!(sub.start, 90);
    assert_eq!(sub.stop, None);
    let portal = sub.portal_request(50, true).unwrap();
    assert_eq!(portal.from, 90);
    let (rpc, to) = sub.rpc_request(100).unwrap();
    assert_eq!(rpc.from, 90);
    assert_eq!(to, 100);
    assert_eq!(rpc.to, Some(100));
    let first = sub.deliver(&block(90, 0)).unwrap();
    assert_eq!(first.step, ForkStep::New);
    assert_eq!(cursor_height(&first.cursor), 90);
    for n in 91..=100 {
        sub.deliver(&block(n, 0)).unwrap();
    }
    sub.finish_rpc_range(100, hash_of(100, 0)).unwrap();
    assert!(!sub.stop_reached());
    let (hot, head) = sub.hot_request().unwrap();
    assert_eq!(hot.from, 101);
    assert_eq!(hot.to, None);
    assert_eq!(head.height, 100);
}

#[test]
fn resume_across_phases() {
    let fh = Firehose::new(true);
    let mut sub = fh.blocks(&request(-10, 0, ""), 100).unwrap();
    let mut token = String::new();
    for n in 90..=95 {
        token = sub.deliver(&block(n, 0)).unwrap().cursor;
    }
    let resumed = fh.blocks(&request(0, 0, &token), 100).unwrap();
    assert_eq!(resumed.state.next_block(), 96);
    assert!(resumed.portal_request(50, true).is_none());
    let (rpc, _) = resumed.rpc_request(100).unwrap();
    assert_eq!(rpc.from, 96);
}

#[test]
fn reorg_emits_one_undo_then_new_blocks() {
    let mut last_head = HashAndHeight::new(101, hash_of(101, 0xa));
    let update = HotUpdate {
        base_head: HashAndHeight::new(99, hash_of(99, 0)),
        finalized_head: HashAndHeight::new(90, hash_of(90, 0)),
        blocks: vec![block(100, 0xb), block(101, 0xb), block(102, 0xb)],
    };
    let (rs, done) = apply_hot_update(&mut last_head, &update, None).unwrap();
    assert!(!done);
    assert_eq!(rs.len(), 4);
    assert_eq!(rs[0].step, ForkStep::Undo);
    let undo = rs[0].block.header.as_ref().unwrap();
    assert_eq!(undo.number, 101);
    let mut parent = vec![0u8];
    parent.extend_from_slice(&99u64.to_be_bytes());
    assert_eq!(undo.parent_hash, parent);
    let undo_cursor = Cursor::parse(&rs[0].cursor).unwrap();
    assert_eq!(undo_cursor.block.height, 99);
    assert_eq!(undo_cursor.finalized.height, 90);
    for (i, n) in (100..=102).enumerate() {
        assert_eq!(rs[i + 1].step, ForkStep::New);
        assert_eq!(rs[i + 1].block.number, n);
        let c = Cursor::parse(&rs[i + 1].cursor).unwrap();
        assert_eq!(c.block.height, n);
        assert_eq!(c.block.hash, hash_of(n, 0xb));
        assert_eq!(c.finalized.height, 90);
    }
    assert_eq!(last_head.height, 102);
    assert_eq!(last_head.hash, hash_of(102, 0xb));
}

#[test]
fn hot_update_without_fork_has_no_undo() {
    let mut last_head = HashAndHeight::new(100, hash_of(100, 0));
    let update = HotUpdate {
        base_head: HashAndHeight::new(100, hash_of(100, 0)),
        finalized_head: HashAndHeight::new(90, hash_of(90, 0)),
        blocks: vec![block(101, 0)],
    };
    let (rs, done) = apply_hot_update(&mut last_head, &update, None).unwrap();
    assert!(!done);
    assert_eq!(rs.len(), 1);
    assert_eq!(rs[0].step, ForkStep::New);
    assert_eq!(last_head.height, 101);
    let empty = HotUpdate {
        base_head: HashAndHeight::new(101, hash_of(101, 0)),
        finalized_head: HashAndHeight::new(95, hash_of(95, 0)),
        blocks: vec![],
    };
    assert!(apply_hot_update(&mut last_head, &empty, None).unwrap().0.is_empty());
}

#[test]
fn final_blocks_only_is_unsupported() {
    let mut r = request(0, 0, "");
    r.final_blocks_only = true;
    assert!(matches!(Firehose::new(false).blocks(&r, 0), Err(Error::Unsupported(_))));
}

#[test]
fn all_block_headers_is_unsupported() {
    let mut r = request(0, 0, "");
    r.transforms = vec![CombinedFilter {
        log_filters: vec![],
        call_filters: vec![],
        send_all_block_headers: true,
    }];
    assert!(matches!(Firehose::new(false).blocks(&r, 0), Err(Error::Unsupported(_))));
}

#[test]
fn malformed_cursor_is_invalid_input() {
    let r = request(0, 0, "xyz");
    assert!(matches!(Firehose::new(false).blocks(&r, 0), Err(Error::InvalidInput(_))));
}

#[test]
fn log_filters_with_same_topics_merge() {
    let t = vec![0xddu8, 0xf2];
    let transforms = vec![CombinedFilter {
        log_filters: vec![
            LogFilter { addresses: vec![vec![0x0a]], event_signatures: vec![t.clone()] },
            LogFilter { addresses: vec![vec![0x0b]], event_signatures: vec![t.clone()] },
        ],
        call_filters: vec![],
        send_all_block_headers: false,
    }];
    let c = compile_filters(&transforms).unwrap();
    assert_eq!(c.logs.len(), 1);
    assert_eq!(c.logs[0].topic0, vec!["0xddf2".to_string()]);
    assert_eq!(c.logs[0].address, vec!["0x0a".to_string(), "0x0b".to_string()]);
    assert!(c.logs[0].transaction && c.logs[0].transaction_traces && c.logs[0].transaction_logs);
    let again = compile_filters(&transforms).unwrap();
    assert_eq!(again.logs[0].address, c.logs[0].address);
    assert_eq!(again.logs[0].topic0, c.logs[0].topic0);
}

#[test]
fn topic_order_does_not_block_merging() {
    let transforms = vec![
        CombinedFilter {
            log_filters: vec![LogFilter {
                addresses: vec![vec![1], vec![2]],
                event_signatures: vec![vec![0xbb], vec![0xaa]],
            }],
            call_filters: vec![CallToFilter { addresses: vec![vec![3]], signatures: vec![vec![1, 2, 3, 4]] }],
            send_all_block_headers: false,
        },
        CombinedFilter {
            log_filters: vec![
                LogFilter { addresses: vec![vec![2], vec![4]], event_signatures: vec![vec![0xaa], vec![0xbb]] },
                LogFilter { addresses: vec![vec![5]], event_signatures: vec![vec![0xcc]] },
            ],
            call_filters: vec![CallToFilter { addresses: vec![vec![6]], signatures: vec![vec![1, 2, 3, 4]] }],
            send_all_block_headers: false,
        },
    ];
    let c = compile_filters(&transforms).unwrap();
    assert_eq!(c.logs.len(), 2);
    assert_eq!(c.logs[0].topic0, vec!["0xaa".to_string(), "0xbb".to_string()]);
    assert_eq!(
        c.logs[0].address,
        vec!["0x01".to_string(), "0x02".to_string(), "0x04".to_string()]
    );
    assert_eq!(c.logs[1].address, vec!["0x05".to_string()]);
    assert_eq!(c.traces.len(), 1);
    assert_eq!(c.traces[0].sighash, vec!["0x01020304".to_string()]);
    assert_eq!(c.traces[0].address, vec!["0x03".to_string(), "0x06".to_string()]);
    assert!(c.traces[0].transaction && c.traces[0].transaction_logs && c.traces[0].parents);
}

#[test]
fn log_request_from_filter_encodes_hex() {
    let f = LogFilter { addresses: vec![vec![0xab, 0x01]], event_signatures: vec![] };
    let r = LogRequest::from(&f);
    assert_eq!(r.address, vec!["0xab01".to_string()]);
    assert!(r.topic0.is_empty());
}

#[test]
fn single_block_sources() {
    let fh = Firehose::new(true);
    let d = fh.block_request(5, 10, None).unwrap();
    assert_eq!(d.from, 5);
    assert_eq!(d.to, Some(5));
    assert!(fh.block_request(15, 10, Some(20)).is_ok());
    assert!(matches!(fh.block_request(25, 10, Some(20)), Err(Error::NotFound(_))));
    assert!(matches!(Firehose::new(false).block_request(15, 10, Some(20)), Err(Error::NotFound(_))));
}

#[test]
fn single_block_reference() {
    let fh = Firehose::new(false);
    let r = SingleBlockRequest { reference: Some(Reference::BlockNumber(7)), transforms: vec![] };
    assert_eq!(fh.block(&r).unwrap(), 7);
    let token = Cursor::new(
        HashAndHeight::new(12, "0x0c".to_string()),
        HashAndHeight::new(12, "0x0c".to_string()),
    )
    .to_string();
    let r = SingleBlockRequest { reference: Some(Reference::Cursor(token)), transforms: vec![] };
    assert_eq!(fh.block(&r).unwrap(), 12);
    let r = SingleBlockRequest { reference: None, transforms: vec![] };
    assert!(matches!(fh.block(&r), Err(Error::InvalidInput(_))));
    let r = SingleBlockRequest {
        reference: Some(Reference::BlockNumber(7)),
        transforms: vec![CombinedFilter { log_filters: vec![], call_filters: vec![], send_all_block_headers: false }],
    };
    assert!(matches!(fh.block(&r), Err(Error::Unsupported(_))));
    assert!(matches!(fh.single_block(&vec![]), Err(Error::Upstream(_))));
    assert_eq!(fh.single_block(&vec![block(3, 0)]).unwrap().number, 3);
}

#[test]
fn hot_update_stops_at_stop_block() {
    let mut last_head = HashAndHeight::new(100, hash_of(100, 0));
    let update = HotUpdate {
        base_head: HashAndHeight::new(100, hash_of(100, 0)),
        finalized_head: HashAndHeight::new(90, hash_of(90, 0)),
        blocks: vec![block(101, 0), block(102, 0), block(103, 0)],
    };
    let (rs, done) = apply_hot_update(&mut last_head, &update, Some(102)).unwrap();
    assert!(done);
    assert_eq!(rs.len(), 2);
    assert_eq!(rs[1].block.number, 102);
    assert_eq!(last_head.height, 102);
}

#[test]
fn fork_with_unprefixed_base_hash_fails() {
    let mut last_head = HashAndHeight::new(100, hash_of(100, 0));
    let update = HotUpdate {
        base_head: HashAndHeight::new(99, "\u{e9}".to_string()),
        finalized_head: HashAndHeight::new(90, hash_of(90, 0)),
        blocks: vec![],
    };
    assert!(matches!(apply_hot_update(&mut last_head, &update, None), Err(Error::InvalidInput(_))));
    assert_eq!(last_head.height, 100);
}

#[test]
fn log_request_keeps_topic_order() {
    let f = LogFilter { addresses: vec![], event_signatures: vec![vec![0xbb], vec![0xaa]] };
    let r = LogRequest::from(&f);
    assert_eq!(r.topic0, vec!["0xbb".to_string(), "0xaa".to_string()]);
}

#[test]
fn single_block_request_is_the_default_one() {
    let d = Firehose::new(false).block_request(5, 10, None).unwrap();
    assert_eq!(d.filters.logs.len(), 1);
    assert!(!d.filters.logs[0].transaction);
    assert_eq!(d.filters.traces.len(), 1);
    assert!(!d.filters.traces[0].parents);
    assert_eq!(d.transactions.len(), 1);
    assert!(!d.transactions[0].transaction);
}
