use crate::codec::{block_matches, block_ok, block_to_pb, PbBlock, PbBlockHeader};
use crate::cursor::{emit_cursor, lemma_cursor_round_trip, parse_cursor, pow16, Cursor, HashAndHeight};
use crate::data::Block;
use crate::error::Error;
use crate::filter::{
    compile_filters, flat_call_requests, flat_log_requests, implied_flags, log_views, merge_all,
    trace_views, asks_all_headers, CombinedFilter, CompiledFilters, TxRequest,
};
use crate::hex::{decode_prefixed, has_hex_prefix, prefixed_decode, starts_with_hex_prefix};
use crate::state::{current_block_of, next_block_of, State, MAX_HEIGHT};
use vstd::prelude::*;
use vstd::string::*;

verus! {

/// Type URL of the block carried by a response.
pub const BLOCK_TYPE_URL: &'static str = "type.googleapis.com/sf.ethereum.type.v2.Block";

#[derive(Debug, Clone, Copy, PartialEq, Eq)]
pub enum ForkStep {
    New,
    Undo,
}

/// One message of a subscription's stream.
#[derive(Debug)]
pub struct Response {
    pub block: PbBlock,
    pub step: ForkStep,
    pub cursor: String,
}

/// A subscription request.
#[derive(Debug)]
pub struct Request {
    /// Negative: that many blocks below the finalized head.
    pub start_block_num: i64,
    /// 0: open-ended.
    pub stop_block_num: u64,
    /// Empty: a fresh subscription.
    pub cursor: String,
    pub final_blocks_only: bool,
    pub transforms: Vec<CombinedFilter>,
}

/// A range of blocks asked of a source, with the filters to apply.
#[derive(Debug)]
pub struct DataRequest {
    pub from: u64,
    pub to: Option<u64>,
    pub filters: CompiledFilters,
    pub transactions: Vec<TxRequest>,
}

/// An incremental update of the chain tip from the RPC source.
#[derive(Debug)]
pub struct HotUpdate {
    pub base_head: HashAndHeight,
    pub finalized_head: HashAndHeight,
    pub blocks: Vec<Block>,
}

/// The engine's configuration: whether an RPC source stands beside the
/// archive portal.
#[derive(Debug)]
pub struct Firehose {
    pub rpc: bool,
}

/// A normalized subscription and its stream state.
#[derive(Debug)]
pub struct Subscription {
    pub start: u64,
    pub stop: Option<u64>,
    pub state: State,
    pub filters: CompiledFilters,
}

/// The start height for `start_block_num` when the preferred source's
/// finalized head is `head`.
pub open spec fn resolved_start(start_block_num: i64, head: u64) -> int {
    if start_block_num < 0 {
        let d = head - (-start_block_num);
        if d > 0 {
            d
        } else {
            0
        }
    } else {
        start_block_num as int
    }
}

/// Resolves a negative start against the finalized head `head`.
pub fn resolve_negative_start(start_block_num: i64, head: u64) -> (r: u64)
    ensures
        r == resolved_start(start_block_num, head),
{
    if start_block_num < 0 {
        let delta: u64 = if start_block_num == i64::MIN {
            0x8000_0000_0000_0000
        } else {
            (-start_block_num) as u64
        };
        if head > delta {
            head - delta
        } else {
            0
        }
    } else {
        start_block_num as u64
    }
}

/// The cursor a request resumes from, if it carries one that parses.
pub open spec fn request_cursor(r: Request) -> Option<((u64, Seq<char>), (u64, Seq<char>))> {
    parse_cursor(r.cursor@)
}

/// Whether a request's cursor is absent, or parses to a block the engine
/// can track.
pub open spec fn cursor_ok(r: Request) -> bool {
    r.cursor@.len() > 0 ==> (request_cursor(r) matches Some(c) && (c.0).0 <= MAX_HEIGHT)
}

/// Whether a subscription request is accepted.
pub open spec fn request_ok(r: Request) -> bool {
    &&& !r.final_blocks_only
    &&& cursor_ok(r)
    &&& !asks_all_headers(r.transforms@)
}

pub open spec fn block_head(b: Block) -> (u64, Seq<char>) {
    (b.header.number, b.header.hash@)
}

pub open spec fn data_request_for(d: DataRequest, s: Subscription, to: Option<u64>) -> bool {
    &&& d.from as int == if next_block_of(s.state@) > s.start {
        next_block_of(s.state@)
    } else {
        s.start as int
    }
    &&& d.to == to
    &&& log_views(d.filters.logs@) == log_views(s.filters.logs@)
    &&& trace_views(d.filters.traces@) == trace_views(s.filters.traces@)
    &&& implied_flags(d.filters)
    &&& d.transactions@.len() == 0
}

/// The phases of a subscription, in the order the driver runs them.
#[derive(Debug, Clone, Copy, PartialEq, Eq)]
pub enum Step {
    /// Drain the portal's finalized range.
    Portal,
    /// Drain the RPC source's finalized range.
    Rpc,
    /// Tail the chain head.
    Tail,
    /// End the subscription successfully.
    End,
}

/// The step after `phase`: `ran` says whether its range was drained, `rpc`
/// whether an RPC source is configured, `stopped` whether the stop block has
/// been delivered. The portal phase is followed by the RPC phase, which is
/// followed by tailing; a drained range that reached the stop block ends the
/// subscription, and so does the end of the portal phase without an RPC
/// source, or the end of tailing.
pub open spec fn step_after(phase: Step, ran: bool, rpc: bool, stopped: bool) -> Step {
    match phase {
        Step::Portal => if (ran && stopped) || !rpc {
            Step::End
        } else {
            Step::Rpc
        },
        Step::Rpc => if ran && stopped {
            Step::End
        } else {
            Step::Tail
        },
        _ => Step::End,
    }
}

impl Subscription {
    pub open spec fn wf(&self) -> bool {
        self.state.wf()
    }

    fn range_request(&self, to: Option<u64>) -> (r: DataRequest)
        requires
            self.wf(),
        ensures
            data_request_for(r, *self, to),
    {
        let next = self.state.next_block();
        let from = if next > self.start {
            next
        } else {
            self.start
        };
        DataRequest { from, to, filters: self.filters.duplicate(), transactions: Vec::new() }
    }

    /// Phase A: the portal range to drain, if the portal is ahead of the
    /// state or no RPC source is configured.
    pub fn portal_request(&self, portal_height: u64, rpc: bool) -> (r: Option<DataRequest>)
        requires
            self.wf(),
        ensures
            r is Some <==> (portal_height > current_block_of(self.state@) || !rpc),
            r matches Some(d) ==> data_request_for(d, *self, self.stop),
    {
        if portal_height as i64 > self.state.current_block() || portal_height > MAX_HEIGHT || !rpc {
            Some(self.range_request(self.stop))
        } else {
            None
        }
    }

    /// Phase B: the RPC range to drain and its last height, if the RPC
    /// source's finalized head is ahead of the state.
    pub fn rpc_request(&self, rpc_height: u64) -> (r: Option<(DataRequest, u64)>)
        requires
            self.wf(),
        ensures
            r is Some <==> rpc_height > current_block_of(self.state@),
            r matches Some((d, to)) ==> to == match self.stop {
                Some(s) => if s < rpc_height {
                    s
                } else {
                    rpc_height
                },
                None => rpc_height,
            } && data_request_for(d, *self, Some(to)),
    {
        if rpc_height as i64 > self.state.current_block() || rpc_height > MAX_HEIGHT {
            let to = match self.stop {
                Some(s) => if s < rpc_height {
                    s
                } else {
                    rpc_height
                },
                None => rpc_height,
            };
            Some((self.range_request(Some(to)), to))
        } else {
            None
        }
    }

    /// Delivers one block of a finalized range: the state moves to it and the
    /// response carries it with a cursor on it.
    pub fn deliver(&mut self, block: &Block) -> (r: Result<Response, Error>)
        requires
            old(self).wf(),
        ensures
            final(self).wf(),
            r is Ok <==> block_ok(*block) && block.header.number <= MAX_HEIGHT,
            r matches Ok(resp) ==> {
                &&& final(self).state@ == Some(block_head(*block))
                &&& resp.step == ForkStep::New
                &&& resp.cursor@ == emit_cursor((block_head(*block), block_head(*block)))
                &&& block_matches(*block, resp.block)
            },
            r is Err ==> final(self).state@ == old(self).state@,
            final(self).start == old(self).start,
            final(self).stop == old(self).stop,
            final(self).filters == old(self).filters,
    {
        if block.header.number > MAX_HEIGHT {
            return Err(Error::InvalidInput(String::from_str("block height out of range")));
        }
        let pb = block_to_pb(block)?;
        self.state.update(HashAndHeight::new(block.header.number, block.header.hash.clone()));
        let cursor = self.state.cursor().to_string();
        Ok(Response { block: pb, step: ForkStep::New, cursor })
    }

    /// Whether the stop block has been delivered.
    pub open spec fn stopped(&self) -> bool {
        self.stop matches Some(s) && self.state@ matches Some(h) && h.0 == s
    }

    /// Whether the stop block has been delivered.
    pub fn stop_reached(&self) -> (r: bool)
        ensures
            r == self.stopped(),
    {
        match (self.stop, &self.state.last) {
            (Some(s), Some(h)) => h.height == s,
            _ => false,
        }
    }

    /// The step that follows `phase`; see `step_after`.
    pub fn next_step(&self, phase: Step, ran: bool, rpc: bool) -> (r: Step)
        ensures
            r == step_after(phase, ran, rpc, self.stopped()),
    {
        let stopped = self.stop_reached();
        match phase {
            Step::Portal => if (ran && stopped) || !rpc {
                Step::End
            } else {
                Step::Rpc
            },
            Step::Rpc => if ran && stopped {
                Step::End
            } else {
                Step::Tail
            },
            _ => Step::End,
        }
    }

    /// End of phase B: the state moves to the range's last height and the
    /// hash the RPC source gives for it.
    pub fn finish_rpc_range(&mut self, to: u64, hash: String) -> (r: Result<(), Error>)
        requires
            old(self).wf(),
        ensures
            final(self).wf(),
            r is Ok <==> to <= MAX_HEIGHT,
            r is Ok ==> final(self).state@ == Some((to, hash@)),
            r is Err ==> final(self).state@ == old(self).state@,
            final(self).start == old(self).start,
            final(self).stop == old(self).stop,
            final(self).filters == old(self).filters,
    {
        if to > MAX_HEIGHT {
            return Err(Error::InvalidInput(String::from_str("block height out of range")));
        }
        self.state.update(HashAndHeight::new(to, hash));
        Ok(())
    }

    /// Phase C: the request for the tail and the head it starts from, the
    /// last block the state holds.
    pub fn hot_request(&self) -> (r: Result<(DataRequest, HashAndHeight), Error>)
        requires
            self.wf(),
        ensures
            r is Ok <==> self.state@ is Some,
            r matches Ok((d, h)) ==> data_request_for(d, *self, self.stop) && h@ == self.state@->0,
    {
        match &self.state.last {
            Some(h) => Ok((self.range_request(self.stop), h.duplicate())),
            None => Err(Error::InvalidInput(String::from_str("no block to tail from"))),
        }
    }
}

impl Firehose {
    pub fn new(rpc: bool) -> (r: Firehose)
        ensures
            r.rpc == rpc,
    {
        Firehose { rpc }
    }

    /// Normalizes a subscription request. `head` is the finalized height of
    /// the preferred source (the RPC source if configured, else the portal);
    /// it is read only for a negative start.
    pub fn blocks(&self, request: &Request, head: u64) -> (r: Result<Subscription, Error>)
        ensures
            r is Ok <==> request_ok(*request),
            request.final_blocks_only ==> (r matches Err(e) && e is Unsupported),
            !request.final_blocks_only && cursor_ok(*request) && asks_all_headers(
                request.transforms@,
            ) ==> (r matches Err(e) && e is Unsupported),
            !request.final_blocks_only && !cursor_ok(*request) ==> (r matches Err(e)
                && e is InvalidInput),
            r matches Ok(s) ==> {
                &&& s.wf()
                &&& s.start == resolved_start(request.start_block_num, head)
                &&& s.stop == if request.stop_block_num == 0 {
                    None
                } else {
                    Some(request.stop_block_num)
                }
                &&& s.state@ == if request.cursor@.len() == 0 {
                    None
                } else {
                    Some((request_cursor(*request)->0).0)
                }
                &&& log_views(s.filters.logs@) == merge_all(flat_log_requests(request.transforms@))
                &&& trace_views(s.filters.traces@) == merge_all(
                    flat_call_requests(request.transforms@),
                )
                &&& implied_flags(s.filters)
            },
    {
        if request.final_blocks_only {
            return Err(
                Error::Unsupported(String::from_str("final_blocks_only requests aren't supported")),
            );
        }
        let start = resolve_negative_start(request.start_block_num, head);
        let stop = if request.stop_block_num == 0 {
            None
        } else {
            Some(request.stop_block_num)
        };
        let state = if request.cursor.as_str().unicode_len() == 0 {
            State::new()
        } else {
            let cursor = Cursor::parse(request.cursor.as_str())?;
            if cursor.block.height > MAX_HEIGHT {
                return Err(Error::InvalidInput(String::from_str("cursor height out of range")));
            }
            State::from_cursor(cursor)
        };
        let filters = compile_filters(&request.transforms)?;
        Ok(Subscription { start, stop, state, filters })
    }
}

/// The synthetic block of an undo: only the header's number and parent hash
/// are set.
pub open spec fn undo_block_matches(p: PbBlock, number: u64, parent_hash: Seq<u8>) -> bool {
    &&& p.ver == 0
    &&& p.hash@.len() == 0
    &&& p.number == 0
    &&& p.size == 0
    &&& p.transaction_traces@.len() == 0
    &&& p.header matches Some(h) && {
        &&& h.number == number
        &&& h.parent_hash@ == parent_hash
        &&& h.uncle_hash@.len() == 0
        &&& h.coinbase@.len() == 0
        &&& h.state_root@.len() == 0
        &&& h.transactions_root@.len() == 0
        &&& h.receipt_root@.len() == 0
        &&& h.logs_bloom@.len() == 0
        &&& h.difficulty@.len() == 0
        &&& h.total_difficulty@.len() == 0
        &&& h.gas_limit == 0
        &&& h.gas_used == 0
        &&& h.timestamp_seconds == 0
        &&& h.extra_data@.len() == 0
        &&& h.mix_hash@.len() == 0
        &&& h.nonce == 0
        &&& h.hash@.len() == 0
        &&& h.base_fee_per_gas is None
    }
}

fn undo_block(number: u64, parent_hash: Vec<u8>) -> (r: PbBlock)
    ensures
        undo_block_matches(r, number, parent_hash@),
{
    let header = PbBlockHeader {
        parent_hash,
        uncle_hash: Vec::new(),
        coinbase: Vec::new(),
        state_root: Vec::new(),
        transactions_root: Vec::new(),
        receipt_root: Vec::new(),
        logs_bloom: Vec::new(),
        difficulty: Vec::new(),
        total_difficulty: Vec::new(),
        number,
        gas_limit: 0,
        gas_used: 0,
        timestamp_seconds: 0,
        extra_data: Vec::new(),
        mix_hash: Vec::new(),
        nonce: 0,
        hash: Vec::new(),
        base_fee_per_gas: None,
    };
    PbBlock {
        ver: 0,
        hash: Vec::new(),
        number: 0,
        size: 0,
        header: Some(header),
        transaction_traces: Vec::new(),
    }
}

/// Whether an update reports a fork: its base is not the head last seen.
pub open spec fn is_fork(u: HotUpdate, last_head: (u64, Seq<char>)) -> bool {
    u.base_head@ != last_head
}

/// The head after an update: its last block, or its base if it has none.
pub open spec fn head_after(u: HotUpdate) -> (u64, Seq<char>) {
    if u.blocks@.len() == 0 {
        u.base_head@
    } else {
        block_head(u.blocks@.last())
    }
}

/// Whether no block before position `k` is the stop block.
pub open spec fn open_before(blocks: Seq<Block>, stop: Option<u64>, k: int) -> bool {
    forall|j: int| 0 <= j < k ==> stop != Some((#[trigger] blocks[j]).header.number)
}

/// Whether an update is handled without error: after a fork the base hash
/// must decode, and each block up to the stop block must translate.
pub open spec fn hot_update_ok(u: HotUpdate, last_head: (u64, Seq<char>), stop: Option<u64>) -> bool {
    &&& is_fork(u, last_head) ==> has_hex_prefix(u.base_head.hash@) && prefixed_decode(
        u.base_head.hash@,
    ) is Some
    &&& forall|k: int|
        0 <= k < u.blocks@.len() && open_before(u.blocks@, stop, k) ==> block_ok(
            #[trigger] u.blocks@[k],
        )
}

pub open spec fn undo_offset(u: HotUpdate, last_head: (u64, Seq<char>)) -> int {
    if is_fork(u, last_head) {
        1
    } else {
        0
    }
}

/// The responses for one update: after a fork, one undo down to the base,
/// then the blocks of the update, in order, as new, up to and including the
/// stop block; `done` says whether the stop block was among them.
pub open spec fn hot_responses(
    u: HotUpdate,
    last_head: (u64, Seq<char>),
    stop: Option<u64>,
    rs: Seq<Response>,
    done: bool,
) -> bool {
    let off = undo_offset(u, last_head);
    let n = rs.len() - off;
    &&& 0 <= n <= u.blocks@.len()
    &&& open_before(u.blocks@, stop, n - 1)
    &&& done == (n > 0 && stop == Some(u.blocks@[n - 1].header.number))
    &&& !done ==> n == u.blocks@.len()
    &&& is_fork(u, last_head) ==> {
        &&& rs[0].step == ForkStep::Undo
        &&& undo_block_matches(rs[0].block, last_head.0, prefixed_decode(u.base_head.hash@)->0)
        &&& rs[0].cursor@ == emit_cursor((u.base_head@, u.finalized_head@))
    }
    &&& forall|i: int|
        off <= i < rs.len() ==> {
            &&& (#[trigger] rs[i]).step == ForkStep::New
            &&& rs[i].cursor@ == emit_cursor((block_head(u.blocks@[i - off]), u.finalized_head@))
            &&& block_matches(u.blocks@[i - off], rs[i].block)
        }
}

/// Phase C: the responses for one update of the chain tip, and whether the
/// stop block was delivered, which ends the subscription. `last_head` is the
/// head the engine last saw and moves to the update's new head (to the stop
/// block when it was reached).
#[verifier::rlimit(80)]
pub fn apply_hot_update(last_head: &mut HashAndHeight, update: &HotUpdate, stop: Option<u64>) -> (r:
    Result<(Vec<Response>, bool), Error>)
    ensures
        r is Ok <==> hot_update_ok(*update, old(last_head)@, stop),
        r matches Ok((rs, done)) ==> hot_responses(*update, old(last_head)@, stop, rs@, done),
        r matches Ok((rs, done)) ==> final(last_head)@ == if done {
            block_head(update.blocks@[rs@.len() - undo_offset(*update, old(last_head)@) - 1])
        } else {
            head_after(*update)
        },
        r is Err ==> final(last_head)@ == old(last_head)@,
{
    let ghost lh = last_head@;
    let n = update.blocks.len();
    let mut out: Vec<Response> = Vec::new();
    let fork = !update.base_head.same_as(last_head);
    if fork {
        if !starts_with_hex_prefix(update.base_head.hash.as_str()) {
            return Err(Error::invalid_field("base head hash", update.base_head.hash.as_str()));
        }
        let parent_hash = match decode_prefixed(update.base_head.hash.as_str()) {
            Some(b) => b,
            None => {
                return Err(Error::invalid_field("base head hash", update.base_head.hash.as_str()));
            },
        };
        let cursor = Cursor::new(update.base_head.duplicate(), update.finalized_head.duplicate());
        out.push(
            Response {
                block: undo_block(last_head.height, parent_hash),
                step: ForkStep::Undo,
                cursor: cursor.to_string(),
            },
        );
    }
    let ghost off: int = undo_offset(*update, lh);
    let ghost blocks = update.blocks@;
    let mut k: usize = 0;
    let mut done = false;
    while k < n && !done
        invariant
            n == blocks.len(),
            blocks == update.blocks@,
            k <= n,
            last_head@ == lh,
            fork == is_fork(*update, lh),
            off == undo_offset(*update, lh),
            out@.len() == k + off,
            fork ==> has_hex_prefix(update.base_head.hash@) && prefixed_decode(
                update.base_head.hash@,
            ) is Some,
            forall|j: int| 0 <= j < k ==> block_ok(#[trigger] blocks[j]),
            open_before(blocks, stop, k as int - 1),
            done == (k > 0 && stop == Some(blocks[k - 1].header.number)),
            fork ==> {
                &&& out@[0].step == ForkStep::Undo
                &&& undo_block_matches(out@[0].block, lh.0, prefixed_decode(update.base_head.hash@)->0)
                &&& out@[0].cursor@ == emit_cursor((update.base_head@, update.finalized_head@))
            },
            forall|i: int|
                off <= i < k + off ==> {
                    &&& (#[trigger] out@[i]).step == ForkStep::New
                    &&& out@[i].cursor@ == emit_cursor(
                        (block_head(blocks[i - off]), update.finalized_head@),
                    )
                    &&& block_matches(blocks[i - off], out@[i].block)
                },
        decreases n - k,
    {
        let block = &update.blocks[k];
        let pb = block_to_pb(block)?;
        let cursor = Cursor::new(
            HashAndHeight::new(block.header.number, block.header.hash.clone()),
            update.finalized_head.duplicate(),
        );
        let ghost prev = out@;
        out.push(Response { block: pb, step: ForkStep::New, cursor: cursor.to_string() });
        assert(forall|i: int| 0 <= i < prev.len() ==> out@[i] == prev[i]);
        done = match stop {
            Some(s) => block.header.number == s,
            None => false,
        };
        k = k + 1;
    }
    proof {
        if done {
            assert forall|k2: int|
                0 <= k2 < blocks.len() && open_before(blocks, stop, k2) implies block_ok(
                #[trigger] blocks[k2],
            ) by {
                if k2 >= k {
                    assert(stop == Some(blocks[k - 1].header.number));
                }
            }
        }
    }
    if done {
        let last = &update.blocks[k - 1];
        *last_head = HashAndHeight::new(last.header.number, last.header.hash.clone());
    } else if n == 0 {
        *last_head = update.base_head.duplicate();
    } else {
        *last_head = HashAndHeight::new(
            update.blocks[n - 1].header.number,
            update.blocks[n - 1].header.hash.clone(),
        );
    }
    Ok((out, done))
}

/// How a single-block request names its block.
#[derive(Debug)]
pub enum Reference {
    BlockNumber(u64),
    BlockHashAndNumber(u64, String),
    Cursor(String),
}

/// A single-block request.
#[derive(Debug)]
pub struct SingleBlockRequest {
    pub reference: Option<Reference>,
    pub transforms: Vec<CombinedFilter>,
}

/// The height a single-block request names, if it is well formed.
pub open spec fn referenced_height(r: SingleBlockRequest) -> Option<u64> {
    match r.reference {
        Some(Reference::BlockNumber(n)) => Some(n),
        Some(Reference::BlockHashAndNumber(n, _)) => Some(n),
        Some(Reference::Cursor(c)) => match parse_cursor(c@) {
            Some(v) => Some((v.0).0),
            None => None,
        },
        None => None,
    }
}

impl Firehose {
    /// The height of the block a single-block request asks for; transforms
    /// are refused.
    pub fn block(&self, request: &SingleBlockRequest) -> (r: Result<u64, Error>)
        ensures
            request.transforms@.len() > 0 ==> (r matches Err(e) && e is Unsupported),
            request.transforms@.len() == 0 ==> match referenced_height(*request) {
                Some(n) => r == Ok::<u64, Error>(n),
                None => r matches Err(e) && e is InvalidInput,
            },
    {
        if request.transforms.len() > 0 {
            return Err(
                Error::Unsupported(String::from_str("transforms aren't supported in SingleBlockRequest")),
            );
        }
        match &request.reference {
            Some(Reference::BlockNumber(n)) => Ok(*n),
            Some(Reference::BlockHashAndNumber(n, _)) => Ok(*n),
            Some(Reference::Cursor(c)) => {
                let cursor = Cursor::parse(c.as_str())?;
                Ok(cursor.block.height)
            },
            None => Err(Error::InvalidInput(String::from_str("no block reference"))),
        }
    }

    /// The portal request for block `block_num`, given the portal's finalized
    /// height and, when the block is past it and an RPC source is configured,
    /// the RPC source's finalized height.
    pub fn block_request(&self, block_num: u64, portal_height: u64, rpc_height: Option<u64>) -> (r:
        Result<DataRequest, Error>)
        ensures
            r is Ok <==> (block_num <= portal_height || (self.rpc && (rpc_height matches Some(h)
                && block_num <= h))),
            r matches Err(e) ==> e is NotFound,
            r matches Ok(d) ==> {
                &&& d.from == block_num
                &&& d.to == Some(block_num)
                &&& d.filters.logs@.len() == 1
                &&& d.filters.logs@[0].address@.len() == 0
                &&& d.filters.logs@[0].topic0@.len() == 0
                &&& d.filters.traces@.len() == 1
                &&& d.filters.traces@[0].address@.len() == 0
                &&& d.filters.traces@[0].sighash@.len() == 0
                &&& !d.filters.logs@[0].transaction && !d.filters.logs@[0].transaction_traces
                    && !d.filters.logs@[0].transaction_logs
                &&& !d.filters.traces@[0].transaction && !d.filters.traces@[0].transaction_logs
                    && !d.filters.traces@[0].parents
                &&& d.transactions@.len() == 1
                &&& !d.transactions@[0].transaction
            },
    {
        let found = if block_num <= portal_height {
            true
        } else if self.rpc {
            match rpc_height {
                Some(h) => block_num <= h,
                None => false,
            }
        } else {
            false
        };
        if !found {
            return Err(Error::NotFound(String::from_str("block isn't found")));
        }
        let mut logs = Vec::new();
        logs.push(crate::filter::LogRequest::unrestricted());
        let mut traces = Vec::new();
        traces.push(crate::filter::TraceRequest::unrestricted());
        let mut transactions = Vec::new();
        transactions.push(TxRequest { transaction: false });
        Ok(
            DataRequest {
                from: block_num,
                to: Some(block_num),
                filters: CompiledFilters { logs, traces },
                transactions,
            },
        )
    }

    /// The block answering a single-block request: the first the source
    /// returned.
    pub fn single_block(&self, blocks: &Vec<Block>) -> (r: Result<PbBlock, Error>)
        ensures
            blocks@.len() == 0 ==> (r matches Err(e) && e is Upstream),
            blocks@.len() > 0 ==> (r is Ok <==> block_ok(blocks@[0])),
            blocks@.len() > 0 ==> (r matches Ok(p) ==> block_matches(blocks@[0], p)),
    {
        if blocks.len() == 0 {
            return Err(Error::Upstream(String::from_str("the source returned no block")));
        }
        block_to_pb(&blocks[0])
    }
}

/// Resumption: a request that carries the cursor emitted with a delivered
/// block is accepted, reads back that block, and resumes one height above it.
pub proof fn lemma_resume_after(r: Request, h: (u64, Seq<char>))
    requires
        r.cursor@ == emit_cursor((h, h)),
        h.1.len() < pow16(16),
        h.0 <= MAX_HEIGHT,
        !r.final_blocks_only,
        !asks_all_headers(r.transforms@),
    ensures
        request_ok(r),
        request_cursor(r) == Some((h, h)),
        next_block_of(Some((request_cursor(r)->0).0)) == h.0 + 1,
{
    lemma_cursor_round_trip((h, h));
    crate::cursor::lemma_fixed_hex_len(h.0);
}

/// Ordering within an update: the new responses of an update carry, in
/// order, cursors that read back the update's blocks one by one, so blocks
/// of consecutive heights give responses of consecutive heights.
pub proof fn lemma_hot_order(
    u: HotUpdate,
    last_head: (u64, Seq<char>),
    stop: Option<u64>,
    rs: Seq<Response>,
    done: bool,
)
    requires
        hot_responses(u, last_head, stop, rs, done),
        forall|k: int|
            0 <= k < u.blocks@.len() ==> (#[trigger] u.blocks@[k]).header.hash@.len() < pow16(16),
    ensures
        forall|i: int|
            undo_offset(u, last_head) <= i < rs.len() ==> parse_cursor(
                (#[trigger] rs[i]).cursor@,
            ) == Some((block_head(u.blocks@[i - undo_offset(u, last_head)]), u.finalized_head@)),
{
    let off = undo_offset(u, last_head);
    assert forall|i: int| off <= i < rs.len() implies parse_cursor((#[trigger] rs[i]).cursor@)
        == Some((block_head(u.blocks@[i - off]), u.finalized_head@)) by {
        lemma_cursor_round_trip((block_head(u.blocks@[i - off]), u.finalized_head@));
    }
}

} // verus!
