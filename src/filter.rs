use crate::error::Error;
use crate::hex::{encode_prefixed, prefixed_encode};
use vstd::prelude::*;
use vstd::string::*;

verus! {

/// Client filter on logs: contract addresses and topic-0 event signatures,
/// both raw bytes; an empty list leaves that axis unrestricted.
#[derive(Debug)]
pub struct LogFilter {
    pub addresses: Vec<Vec<u8>>,
    pub event_signatures: Vec<Vec<u8>>,
}

/// Client filter on calls: target addresses and 4-byte method selectors.
#[derive(Debug)]
pub struct CallToFilter {
    pub addresses: Vec<Vec<u8>>,
    pub signatures: Vec<Vec<u8>>,
}

/// One transform of a subscription request.
#[derive(Debug)]
pub struct CombinedFilter {
    pub log_filters: Vec<LogFilter>,
    pub call_filters: Vec<CallToFilter>,
    pub send_all_block_headers: bool,
}

/// Compiled log filter handed to the sources (hex text).
#[derive(Debug)]
pub struct LogRequest {
    pub address: Vec<String>,
    pub topic0: Vec<String>,
    pub transaction: bool,
    pub transaction_traces: bool,
    pub transaction_logs: bool,
}

/// Compiled call filter handed to the sources (hex text).
#[derive(Debug)]
pub struct TraceRequest {
    pub address: Vec<String>,
    pub sighash: Vec<String>,
    pub transaction: bool,
    pub transaction_logs: bool,
    pub parents: bool,
}

/// Request for every transaction of the selected blocks.
#[derive(Debug)]
pub struct TxRequest {
    pub transaction: bool,
}

pub open spec fn bytes_list(v: Seq<Vec<u8>>) -> Seq<Seq<u8>> {
    v.map_values(|b: Vec<u8>| b@)
}

pub open spec fn strs(v: Seq<String>) -> Seq<Seq<char>> {
    v.map_values(|s: String| s@)
}

pub open spec fn encode_all(v: Seq<Seq<u8>>) -> Seq<Seq<char>> {
    v.map_values(|b: Seq<u8>| prefixed_encode(b))
}

/// Lexicographic order on character sequences.
pub open spec fn text_le(a: Seq<char>, b: Seq<char>) -> bool
    decreases a.len(),
{
    if a.len() == 0 {
        true
    } else if b.len() == 0 {
        false
    } else if (a[0] as u32) != (b[0] as u32) {
        (a[0] as u32) < (b[0] as u32)
    } else {
        text_le(a.skip(1), b.skip(1))
    }
}

/// `s` with `x` inserted after every text not above it.
pub open spec fn insert_text(x: Seq<char>, s: Seq<Seq<char>>) -> Seq<Seq<char>>
    decreases s.len(),
{
    if s.len() == 0 || text_le(s.last(), x) {
        s.push(x)
    } else {
        insert_text(x, s.drop_last()).push(s.last())
    }
}

/// The list of texts in ascending order (a stable insertion sort).
pub open spec fn sorted_texts(v: Seq<Seq<char>>) -> Seq<Seq<char>>
    decreases v.len(),
{
    if v.len() == 0 {
        v
    } else {
        insert_text(v.last(), sorted_texts(v.drop_last()))
    }
}

/// Whether each text is not above the next one.
pub open spec fn texts_sorted(s: Seq<Seq<char>>) -> bool {
    forall|i: int| 0 <= i < s.len() - 1 ==> text_le(#[trigger] s[i], s[i + 1])
}

/// Relies on `slice::sort` of `String`s: a sort by `String`'s `Ord`, which
/// compares by bytes and so by characters. Its result is the ascending
/// permutation of the input; the order is total and equal texts are equal
/// strings, so that permutation is the one `sorted_texts` describes.
#[verifier::external_body]
fn sort_texts(v: &mut Vec<String>)
    ensures
        strs(final(v)@) == sorted_texts(strs(old(v)@)),
{
    v.sort();
}

proof fn lemma_text_le_total(a: Seq<char>, b: Seq<char>)
    ensures
        text_le(a, b) || text_le(b, a),
    decreases a.len(),
{
    if a.len() > 0 && b.len() > 0 && (a[0] as u32) == (b[0] as u32) {
        lemma_text_le_total(a.skip(1), b.skip(1));
    }
}

proof fn lemma_insert_sorted(x: Seq<char>, s: Seq<Seq<char>>)
    requires
        texts_sorted(s),
    ensures
        texts_sorted(insert_text(x, s)),
        insert_text(x, s).len() == s.len() + 1,
        insert_text(x, s).last() == if s.len() == 0 || text_le(s.last(), x) {
            x
        } else {
            s.last()
        },
    decreases s.len(),
{
    let r = insert_text(x, s);
    if s.len() == 0 || text_le(s.last(), x) {
        assert forall|i: int| 0 <= i < r.len() - 1 implies text_le(#[trigger] r[i], r[i + 1]) by {
            if i < s.len() - 1 {
                assert(r[i] == s[i] && r[i + 1] == s[i + 1]);
            }
        }
    } else {
        let d = s.drop_last();
        assert(texts_sorted(d)) by {
            assert forall|i: int| 0 <= i < d.len() - 1 implies text_le(#[trigger] d[i], d[i + 1]) by {
                assert(d[i] == s[i] && d[i + 1] == s[i + 1]);
            }
        }
        lemma_insert_sorted(x, d);
        lemma_text_le_total(s.last(), x);
        let q = insert_text(x, d);
        if d.len() > 0 {
            assert(text_le(s[d.len() - 1], s[d.len() as int]));
        }
        assert(text_le(q.last(), s.last()));
        assert forall|i: int| 0 <= i < r.len() - 1 implies text_le(#[trigger] r[i], r[i + 1]) by {
            if i < q.len() - 1 {
                assert(r[i] == q[i] && r[i + 1] == q[i + 1]);
            } else {
                assert(r[i] == q.last());
            }
        }
    }
}

/// Sorting gives an ascending list of the same length.
pub proof fn lemma_sorted_texts_sorted(v: Seq<Seq<char>>)
    ensures
        texts_sorted(sorted_texts(v)),
        sorted_texts(v).len() == v.len(),
    decreases v.len(),
{
    if v.len() > 0 {
        lemma_sorted_texts_sorted(v.drop_last());
        lemma_insert_sorted(v.last(), sorted_texts(v.drop_last()));
    }
}

/// Sorting an ascending list leaves it as it is.
pub proof fn lemma_sorted_texts_fixed(v: Seq<Seq<char>>)
    requires
        texts_sorted(v),
    ensures
        sorted_texts(v) == v,
    decreases v.len(),
{
    if v.len() > 0 {
        let d = v.drop_last();
        assert(texts_sorted(d)) by {
            assert forall|i: int| 0 <= i < d.len() - 1 implies text_le(#[trigger] d[i], d[i + 1]) by {
                assert(d[i] == v[i] && d[i + 1] == v[i + 1]);
            }
        }
        lemma_sorted_texts_fixed(d);
        if d.len() > 0 {
            assert(text_le(v[d.len() - 1], v[d.len() as int]));
        }
        assert(d.push(v.last()) =~= v);
    }
}

fn copy_bytes(v: &Vec<u8>) -> (r: Vec<u8>)
    ensures
        r@ == v@,
{
    let mut out: Vec<u8> = Vec::new();
    let mut i: usize = 0;
    while i < v.len()
        invariant
            i <= v@.len(),
            out@ == v@.subrange(0, i as int),
        decreases v@.len() - i,
    {
        out.push(v[i]);
        i = i + 1;
        assert(out@ =~= v@.subrange(0, i as int));
    }
    assert(v@.subrange(0, v@.len() as int) =~= v@);
    out
}

fn encode_list(v: &Vec<Vec<u8>>) -> (r: Vec<String>)
    ensures
        strs(r@) == encode_all(bytes_list(v@)),
{
    let mut out: Vec<String> = Vec::new();
    let mut i: usize = 0;
    while i < v.len()
        invariant
            i <= v@.len(),
            strs(out@) =~= encode_all(bytes_list(v@.subrange(0, i as int))),
        decreases v@.len() - i,
    {
        let b = copy_bytes(&v[i]);
        let e = encode_prefixed(b);
        let ghost prev = out@;
        out.push(e);
        assert(out@ == prev.push(e));
        assert(strs(out@) =~= strs(prev).push(e@));
        assert(bytes_list(v@.subrange(0, i + 1)) =~= bytes_list(v@.subrange(0, i as int)).push(
            v@[i as int]@,
        ));
        i = i + 1;
        assert(strs(out@) =~= encode_all(bytes_list(v@.subrange(0, i as int))));
    }
    assert(v@.subrange(0, v@.len() as int) =~= v@);
    out
}

/// View of a compiled filter: its addresses and its sorted topic-0 or
/// sighash list.
pub type RequestView = (Seq<Seq<char>>, Seq<Seq<char>>);

pub open spec fn log_request_view(r: LogRequest) -> RequestView {
    (strs(r.address@), strs(r.topic0@))
}

pub open spec fn trace_request_view(r: TraceRequest) -> RequestView {
    (strs(r.address@), strs(r.sighash@))
}

/// One log filter as hex text, in input order.
pub open spec fn log_filter_view(f: LogFilter) -> RequestView {
    (encode_all(bytes_list(f.addresses@)), encode_all(bytes_list(f.event_signatures@)))
}

/// One call filter as hex text, in input order.
pub open spec fn call_filter_view(f: CallToFilter) -> RequestView {
    (encode_all(bytes_list(f.addresses@)), encode_all(bytes_list(f.signatures@)))
}

/// The compiled form of one log filter: its topics sorted.
pub open spec fn log_filter_request(f: LogFilter) -> RequestView {
    (encode_all(bytes_list(f.addresses@)), sorted_texts(encode_all(bytes_list(f.event_signatures@))))
}

/// The compiled form of one call filter: its sighashes sorted.
pub open spec fn call_filter_request(f: CallToFilter) -> RequestView {
    (encode_all(bytes_list(f.addresses@)), sorted_texts(encode_all(bytes_list(f.signatures@))))
}

impl LogRequest {
    /// The request for one log filter, as hex text in input order; it asks
    /// for the owning transaction, its traces and its other logs.
    pub fn from(value: &LogFilter) -> (r: LogRequest)
        ensures
            log_request_view(r) == log_filter_view(*value),
            r.transaction && r.transaction_traces && r.transaction_logs,
    {
        let address = encode_list(&value.addresses);
        let topic0 = encode_list(&value.event_signatures);
        LogRequest {
            address,
            topic0,
            transaction: true,
            transaction_traces: true,
            transaction_logs: true,
        }
    }
}

impl TraceRequest {
    /// The request for one call filter, as hex text in input order; it asks
    /// for the owning transaction, its logs and the parent calls.
    pub fn from(value: &CallToFilter) -> (r: TraceRequest)
        ensures
            trace_request_view(r) == call_filter_view(*value),
            r.transaction && r.transaction_logs && r.parents,
    {
        let address = encode_list(&value.addresses);
        let sighash = encode_list(&value.signatures);
        TraceRequest { address, sighash, transaction: true, transaction_logs: true, parents: true }
    }
}

/// `a` followed by each text of `b` that is not already present, in order.
pub open spec fn add_missing(a: Seq<Seq<char>>, b: Seq<Seq<char>>) -> Seq<Seq<char>>
    decreases b.len(),
{
    if b.len() == 0 {
        a
    } else {
        let r = add_missing(a, b.drop_last());
        if r.contains(b.last()) {
            r
        } else {
            r.push(b.last())
        }
    }
}

/// Position of the first compiled filter whose key list equals `key`.
pub open spec fn first_with_key(acc: Seq<RequestView>, key: Seq<Seq<char>>) -> Option<int>
    decreases acc.len(),
{
    if acc.len() == 0 {
        None
    } else {
        match first_with_key(acc.drop_last(), key) {
            Some(i) => Some(i),
            None => if acc.last().1 == key {
                Some(acc.len() - 1)
            } else {
                None
            },
        }
    }
}

/// Adds one filter to the compiled list: merged into the filter with the
/// same key list, whose addresses gain the new ones, or else appended.
pub open spec fn merge_request(acc: Seq<RequestView>, req: RequestView) -> Seq<RequestView> {
    match first_with_key(acc, req.1) {
        Some(i) => acc.update(i, (add_missing(acc[i].0, req.0), acc[i].1)),
        None => acc.push(req),
    }
}

/// The compiled list of a sequence of filters, merged in order.
pub open spec fn merge_all(reqs: Seq<RequestView>) -> Seq<RequestView>
    decreases reqs.len(),
{
    if reqs.len() == 0 {
        Seq::empty()
    } else {
        merge_request(merge_all(reqs.drop_last()), reqs.last())
    }
}

/// Every log filter of the transforms, in order, in compiled form.
pub open spec fn flat_log_requests(ts: Seq<CombinedFilter>) -> Seq<RequestView>
    decreases ts.len(),
{
    if ts.len() == 0 {
        Seq::empty()
    } else {
        flat_log_requests(ts.drop_last()) + ts.last().log_filters@.map_values(
            |f: LogFilter| log_filter_request(f),
        )
    }
}

/// Every call filter of the transforms, in order, in compiled form.
pub open spec fn flat_call_requests(ts: Seq<CombinedFilter>) -> Seq<RequestView>
    decreases ts.len(),
{
    if ts.len() == 0 {
        Seq::empty()
    } else {
        flat_call_requests(ts.drop_last()) + ts.last().call_filters@.map_values(
            |f: CallToFilter| call_filter_request(f),
        )
    }
}

pub open spec fn asks_all_headers(ts: Seq<CombinedFilter>) -> bool {
    exists|i: int| 0 <= i < ts.len() && (#[trigger] ts[i]).send_all_block_headers
}

/// A filter under compilation: addresses and its key list.
struct Keyed {
    address: Vec<String>,
    key: Vec<String>,
}

spec fn keyed_view(k: Keyed) -> RequestView {
    (strs(k.address@), strs(k.key@))
}

spec fn keyed_views(v: Seq<Keyed>) -> Seq<RequestView> {
    v.map_values(|k: Keyed| keyed_view(k))
}

fn same_texts(a: &Vec<String>, b: &Vec<String>) -> (r: bool)
    ensures
        r == (strs(a@) == strs(b@)),
{
    if a.len() != b.len() {
        proof {
            assert(strs(a@).len() != strs(b@).len());
        }
        return false;
    }
    let mut i: usize = 0;
    while i < a.len()
        invariant
            a@.len() == b@.len(),
            i <= a@.len(),
            forall|k: int| 0 <= k < i ==> a@[k]@ == b@[k]@,
        decreases a@.len() - i,
    {
        if a[i] != b[i] {
            proof {
                assert(strs(a@)[i as int] != strs(b@)[i as int]);
            }
            return false;
        }
        i = i + 1;
    }
    assert(strs(a@) =~= strs(b@));
    true
}

fn contains_text(v: &Vec<String>, s: &String) -> (r: bool)
    ensures
        r == strs(v@).contains(s@),
{
    let mut i: usize = 0;
    while i < v.len()
        invariant
            i <= v@.len(),
            forall|k: int| 0 <= k < i ==> v@[k]@ != s@,
        decreases v@.len() - i,
    {
        if v[i] == *s {
            proof {
                assert(strs(v@)[i as int] == s@);
            }
            return true;
        }
        i = i + 1;
    }
    assert forall|k: int| 0 <= k < strs(v@).len() implies strs(v@)[k] != s@ by {
        assert(strs(v@)[k] == v@[k]@);
    }
    false
}

fn add_missing_texts(dst: &mut Vec<String>, src: Vec<String>)
    ensures
        strs(final(dst)@) == add_missing(strs(old(dst)@), strs(src@)),
{
    let ghost a = strs(dst@);
    let mut j: usize = 0;
    assert(strs(src@.subrange(0, 0)) =~= Seq::<Seq<char>>::empty());
    while j < src.len()
        invariant
            j <= src@.len(),
            strs(dst@) == add_missing(a, strs(src@.subrange(0, j as int))),
        decreases src@.len() - j,
    {
        let ghost b1 = strs(src@.subrange(0, j + 1));
        assert(b1.drop_last() =~= strs(src@.subrange(0, j as int)));
        assert(b1.last() == src@[j as int]@);
        if !contains_text(dst, &src[j]) {
            let t = src[j].clone();
            let ghost prev = dst@;
            dst.push(t);
            assert(strs(dst@) =~= strs(prev).push(t@));
        }
        j = j + 1;
    }
    assert(src@.subrange(0, src@.len() as int) =~= src@);
}

proof fn lemma_first_with_key_prefix(acc: Seq<RequestView>, key: Seq<Seq<char>>, n: int)
    requires
        0 <= n <= acc.len(),
    ensures
        first_with_key(acc.subrange(0, n), key) matches Some(i) ==> first_with_key(acc, key)
            == Some(i),
        first_with_key(acc, key) matches Some(i) ==> 0 <= i < acc.len() && acc[i].1 == key,
        first_with_key(acc, key) is None ==> forall|k: int|
            0 <= k < acc.len() ==> (#[trigger] acc[k]).1 != key,
    decreases acc.len(),
{
    if acc.len() > 0 {
        let d = acc.drop_last();
        if n < acc.len() {
            lemma_first_with_key_prefix(d, key, n);
            assert(d.subrange(0, n) =~= acc.subrange(0, n));
        } else {
            lemma_first_with_key_prefix(d, key, 0);
            assert(acc.subrange(0, n) =~= acc);
        }
        assert forall|k: int| 0 <= k < d.len() implies d[k] == acc[k] by {}
    } else {
        assert(acc.subrange(0, n) =~= acc);
    }
}

fn find_key(acc: &Vec<Keyed>, key: &Vec<String>) -> (r: Option<usize>)
    ensures
        match first_with_key(keyed_views(acc@), strs(key@)) {
            Some(i) => r == Some(i as usize),
            None => r is None,
        },
{
    let ghost views = keyed_views(acc@);
    let mut i: usize = 0;
    while i < acc.len()
        invariant
            i <= acc@.len(),
            views == keyed_views(acc@),
            first_with_key(views.subrange(0, i as int), strs(key@)) is None,
        decreases acc@.len() - i,
    {
        let ghost pre = views.subrange(0, i as int);
        let ghost cur = views.subrange(0, i + 1);
        assert(cur.drop_last() =~= pre);
        if same_texts(&acc[i].key, key) {
            proof {
                assert(cur.last() == keyed_view(acc@[i as int]));
                lemma_first_with_key_prefix(views, strs(key@), i + 1);
            }
            return Some(i);
        }
        i = i + 1;
    }
    assert(views.subrange(0, acc@.len() as int) =~= views);
    None
}

#[verifier::rlimit(40)]
fn merge_into(acc: &mut Vec<Keyed>, req: Keyed)
    ensures
        keyed_views(final(acc)@) == merge_request(keyed_views(old(acc)@), keyed_view(req)),
{
    let ghost before = keyed_views(acc@);
    let ghost rv = keyed_view(req);
    let n = acc.len();
    assert(before.len() == n);
    match find_key(acc, &req.key) {
        Some(i) => {
            proof {
                lemma_first_with_key_prefix(before, rv.1, 0);
                let fk = first_with_key(before, rv.1);
                assert(fk is Some);
                let j = fk->0;
                assert(0 <= j < before.len());
                assert(j as usize == i);
                assert(j == i as int);
            }
            let ghost old_acc = acc@;
            let mut item = acc.remove(i);
            assert(keyed_view(item) == before[i as int]);
            let ghost rest = acc@;
            add_missing_texts(&mut item.address, req.address);
            let ghost merged = keyed_view(item);
            assert(merged == (add_missing(before[i as int].0, rv.0), before[i as int].1));
            acc.insert(i, item);
            assert(acc@ =~= old_acc.update(i as int, item));
            assert(first_with_key(before, rv.1) == Some(i as int));
            let ghost target = merge_request(before, rv);
            assert(target == before.update(i as int, merged));
            assert(keyed_views(acc@) =~= target);
        },
        None => {
            acc.push(req);
            assert(keyed_views(acc@) =~= before.push(keyed_view(req)));
        },
    }
}

/// The compiled filters of a request.
#[derive(Debug)]
pub struct CompiledFilters {
    pub logs: Vec<LogRequest>,
    pub traces: Vec<TraceRequest>,
}

pub open spec fn log_views(v: Seq<LogRequest>) -> Seq<RequestView> {
    v.map_values(|r: LogRequest| log_request_view(r))
}

pub open spec fn trace_views(v: Seq<TraceRequest>) -> Seq<RequestView> {
    v.map_values(|r: TraceRequest| trace_request_view(r))
}

/// Whether every compiled filter asks for the related data that its kind
/// implies.
pub open spec fn implied_flags(c: CompiledFilters) -> bool {
    &&& forall|i: int| 0 <= i < c.logs@.len() ==> {
        let l = #[trigger] c.logs@[i];
        l.transaction && l.transaction_traces && l.transaction_logs
    }
    &&& forall|i: int| 0 <= i < c.traces@.len() ==> {
        let t = #[trigger] c.traces@[i];
        t.transaction && t.transaction_logs && t.parents
    }
}

fn check_headers_flag(transforms: &Vec<CombinedFilter>) -> (r: Result<(), Error>)
    ensures
        r is Ok <==> !asks_all_headers(transforms@),
        r matches Err(e) ==> e is Unsupported,
{
    let mut i: usize = 0;
    while i < transforms.len()
        invariant
            i <= transforms@.len(),
            forall|k: int| 0 <= k < i ==> !(#[trigger] transforms@[k]).send_all_block_headers,
        decreases transforms@.len() - i,
    {
        if transforms[i].send_all_block_headers {
            return Err(
                Error::Unsupported(
                    String::from_str("send_all_block_headers isn't implemented for CombinedFilter"),
                ),
            );
        }
        i = i + 1;
    }
    Ok(())
}

/// Compiles the transforms of a request into deduplicated log and call
/// filters; a transform that asks for all block headers is refused.
pub fn compile_filters(transforms: &Vec<CombinedFilter>) -> (r: Result<CompiledFilters, Error>)
    ensures
        r is Ok <==> !asks_all_headers(transforms@),
        r matches Err(e) ==> e is Unsupported,
        r matches Ok(c) ==> log_views(c.logs@) == merge_all(flat_log_requests(transforms@))
            && trace_views(c.traces@) == merge_all(flat_call_requests(transforms@))
            && implied_flags(c),
{
    check_headers_flag(transforms)?;
    let mut logs: Vec<Keyed> = Vec::new();
    let mut traces: Vec<Keyed> = Vec::new();
    let ghost ts = transforms@;
    let mut i: usize = 0;
    assert(ts.subrange(0, 0) =~= Seq::<CombinedFilter>::empty());
    while i < transforms.len()
        invariant
            ts == transforms@,
            i <= ts.len(),
            keyed_views(logs@) == merge_all(flat_log_requests(ts.subrange(0, i as int))),
            keyed_views(traces@) == merge_all(flat_call_requests(ts.subrange(0, i as int))),
        decreases ts.len() - i,
    {
        let t = &transforms[i];
        let ghost base_l = flat_log_requests(ts.subrange(0, i as int));
        let ghost base_c = flat_call_requests(ts.subrange(0, i as int));
        let ghost fl = t.log_filters@.map_values(|f: LogFilter| log_filter_request(f));
        let ghost fc = t.call_filters@.map_values(|f: CallToFilter| call_filter_request(f));
        assert(ts.subrange(0, i + 1).drop_last() =~= ts.subrange(0, i as int));
        assert(flat_log_requests(ts.subrange(0, i + 1)) == base_l + fl);
        assert(flat_call_requests(ts.subrange(0, i + 1)) == base_c + fc);
        let mut j: usize = 0;
        assert(base_l + fl.subrange(0, 0) =~= base_l);
        while j < t.log_filters.len()
            invariant
                j <= fl.len(),
                fl == t.log_filters@.map_values(|f: LogFilter| log_filter_request(f)),
                keyed_views(logs@) == merge_all(base_l + fl.subrange(0, j as int)),
            decreases fl.len() - j,
        {
            let req = LogRequest::from(&t.log_filters[j]);
            let mut key = req.topic0;
            sort_texts(&mut key);
            let keyed = Keyed { address: req.address, key };
            let ghost sofar = base_l + fl.subrange(0, j as int);
            assert((base_l + fl.subrange(0, j + 1)).drop_last() =~= sofar);
            assert((base_l + fl.subrange(0, j + 1)).last() == keyed_view(keyed));
            merge_into(&mut logs, keyed);
            j = j + 1;
        }
        assert(fl.subrange(0, fl.len() as int) =~= fl);
        let mut j: usize = 0;
        assert(base_c + fc.subrange(0, 0) =~= base_c);
        while j < t.call_filters.len()
            invariant
                j <= fc.len(),
                fc == t.call_filters@.map_values(|f: CallToFilter| call_filter_request(f)),
                keyed_views(traces@) == merge_all(base_c + fc.subrange(0, j as int)),
            decreases fc.len() - j,
        {
            let req = TraceRequest::from(&t.call_filters[j]);
            let mut key = req.sighash;
            sort_texts(&mut key);
            let keyed = Keyed { address: req.address, key };
            let ghost sofar = base_c + fc.subrange(0, j as int);
            assert((base_c + fc.subrange(0, j + 1)).drop_last() =~= sofar);
            assert((base_c + fc.subrange(0, j + 1)).last() == keyed_view(keyed));
            merge_into(&mut traces, keyed);
            j = j + 1;
        }
        assert(fc.subrange(0, fc.len() as int) =~= fc);
        i = i + 1;
    }
    assert(ts.subrange(0, ts.len() as int) =~= ts);
    let out_logs = to_log_requests(&logs);
    let out_traces = to_trace_requests(&traces);
    Ok(CompiledFilters { logs: out_logs, traces: out_traces })
}

fn copy_texts(v: &Vec<String>) -> (r: Vec<String>)
    ensures
        strs(r@) == strs(v@),
{
    let mut out: Vec<String> = Vec::new();
    let mut i: usize = 0;
    while i < v.len()
        invariant
            i <= v@.len(),
            strs(out@) =~= strs(v@.subrange(0, i as int)),
        decreases v@.len() - i,
    {
        let t = v[i].clone();
        let ghost prev = out@;
        out.push(t);
        assert(strs(out@) =~= strs(prev).push(t@));
        i = i + 1;
        assert(strs(out@) =~= strs(v@.subrange(0, i as int)));
    }
    assert(v@.subrange(0, v@.len() as int) =~= v@);
    out
}

fn to_log_requests(v: &Vec<Keyed>) -> (r: Vec<LogRequest>)
    ensures
        log_views(r@) == keyed_views(v@),
        forall|i: int| 0 <= i < r@.len() ==> {
            let l = #[trigger] r@[i];
            l.transaction && l.transaction_traces && l.transaction_logs
        },
{
    let mut out: Vec<LogRequest> = Vec::new();
    let mut i: usize = 0;
    while i < v.len()
        invariant
            i <= v@.len(),
            log_views(out@) =~= keyed_views(v@.subrange(0, i as int)),
            forall|k: int| 0 <= k < out@.len() ==> {
                let l = #[trigger] out@[k];
                l.transaction && l.transaction_traces && l.transaction_logs
            },
        decreases v@.len() - i,
    {
        let l = LogRequest {
            address: copy_texts(&v[i].address),
            topic0: copy_texts(&v[i].key),
            transaction: true,
            transaction_traces: true,
            transaction_logs: true,
        };
        let ghost prev = out@;
        out.push(l);
        assert(log_views(out@) =~= log_views(prev).push(log_request_view(l)));
        i = i + 1;
        assert(log_views(out@) =~= keyed_views(v@.subrange(0, i as int)));
    }
    assert(v@.subrange(0, v@.len() as int) =~= v@);
    out
}

fn to_trace_requests(v: &Vec<Keyed>) -> (r: Vec<TraceRequest>)
    ensures
        trace_views(r@) == keyed_views(v@),
        forall|i: int| 0 <= i < r@.len() ==> {
            let t = #[trigger] r@[i];
            t.transaction && t.transaction_logs && t.parents
        },
{
    let mut out: Vec<TraceRequest> = Vec::new();
    let mut i: usize = 0;
    while i < v.len()
        invariant
            i <= v@.len(),
            trace_views(out@) =~= keyed_views(v@.subrange(0, i as int)),
            forall|k: int| 0 <= k < out@.len() ==> {
                let t = #[trigger] out@[k];
                t.transaction && t.transaction_logs && t.parents
            },
        decreases v@.len() - i,
    {
        let t = TraceRequest {
            address: copy_texts(&v[i].address),
            sighash: copy_texts(&v[i].key),
            transaction: true,
            transaction_logs: true,
            parents: true,
        };
        let ghost prev = out@;
        out.push(t);
        assert(trace_views(out@) =~= trace_views(prev).push(trace_request_view(t)));
        i = i + 1;
        assert(trace_views(out@) =~= keyed_views(v@.subrange(0, i as int)));
    }
    assert(v@.subrange(0, v@.len() as int) =~= v@);
    out
}

impl CompiledFilters {
    /// A copy with the same filters.
    pub fn duplicate(&self) -> (r: CompiledFilters)
        ensures
            log_views(r.logs@) == log_views(self.logs@),
            trace_views(r.traces@) == trace_views(self.traces@),
            implied_flags(r),
    {
        let mut logs: Vec<LogRequest> = Vec::new();
        let mut i: usize = 0;
        while i < self.logs.len()
            invariant
                i <= self.logs@.len(),
                log_views(logs@) =~= log_views(self.logs@.subrange(0, i as int)),
                forall|k: int| 0 <= k < logs@.len() ==> {
                    let l = #[trigger] logs@[k];
                    l.transaction && l.transaction_traces && l.transaction_logs
                },
            decreases self.logs@.len() - i,
        {
            let l = LogRequest {
                address: copy_texts(&self.logs[i].address),
                topic0: copy_texts(&self.logs[i].topic0),
                transaction: true,
                transaction_traces: true,
                transaction_logs: true,
            };
            let ghost prev = logs@;
            logs.push(l);
            assert(log_views(logs@) =~= log_views(prev).push(log_request_view(l)));
            i = i + 1;
            assert(log_views(logs@) =~= log_views(self.logs@.subrange(0, i as int)));
        }
        assert(self.logs@.subrange(0, self.logs@.len() as int) =~= self.logs@);
        let mut traces: Vec<TraceRequest> = Vec::new();
        let mut i: usize = 0;
        while i < self.traces.len()
            invariant
                i <= self.traces@.len(),
                trace_views(traces@) =~= trace_views(self.traces@.subrange(0, i as int)),
                forall|k: int| 0 <= k < traces@.len() ==> {
                    let t = #[trigger] traces@[k];
                    t.transaction && t.transaction_logs && t.parents
                },
            decreases self.traces@.len() - i,
        {
            let t = TraceRequest {
                address: copy_texts(&self.traces[i].address),
                sighash: copy_texts(&self.traces[i].sighash),
                transaction: true,
                transaction_logs: true,
                parents: true,
            };
            let ghost prev = traces@;
            traces.push(t);
            assert(trace_views(traces@) =~= trace_views(prev).push(trace_request_view(t)));
            i = i + 1;
            assert(trace_views(traces@) =~= trace_views(self.traces@.subrange(0, i as int)));
        }
        assert(self.traces@.subrange(0, self.traces@.len() as int) =~= self.traces@);
        CompiledFilters { logs, traces }
    }
}

impl LogRequest {
    /// The log request with no restriction and no related data.
    pub fn unrestricted() -> (r: LogRequest)
        ensures
            r.address@.len() == 0 && r.topic0@.len() == 0,
            !r.transaction && !r.transaction_traces && !r.transaction_logs,
    {
        LogRequest {
            address: Vec::new(),
            topic0: Vec::new(),
            transaction: false,
            transaction_traces: false,
            transaction_logs: false,
        }
    }
}

impl TraceRequest {
    /// The trace request with no restriction and no related data.
    pub fn unrestricted() -> (r: TraceRequest)
        ensures
            r.address@.len() == 0 && r.sighash@.len() == 0,
            !r.transaction && !r.transaction_logs && !r.parents,
    {
        TraceRequest {
            address: Vec::new(),
            sighash: Vec::new(),
            transaction: false,
            transaction_logs: false,
            parents: false,
        }
    }
}

proof fn lemma_add_missing_contains(a: Seq<Seq<char>>, b: Seq<Seq<char>>, y: Seq<char>)
    ensures
        add_missing(a, b).contains(y) <==> (a.contains(y) || b.contains(y)),
    decreases b.len(),
{
    if b.len() > 0 {
        let d = b.drop_last();
        lemma_add_missing_contains(a, d, y);
        let r = add_missing(a, d);
        if d.contains(y) {
            let j = choose|j: int| 0 <= j < d.len() && d[j] == y;
            assert(b[j] == y);
        }
        if b.contains(y) && !d.contains(y) {
            let j = choose|j: int| 0 <= j < b.len() && b[j] == y;
            if j < d.len() {
                assert(d[j] == y);
            }
            assert(b.last() == y);
        }
        if !r.contains(b.last()) {
            if r.contains(y) {
                let j = choose|j: int| 0 <= j < r.len() && r[j] == y;
                assert(r.push(b.last())[j] == y);
            }
            if y == b.last() {
                assert(r.push(b.last())[r.len() as int] == y);
            }
            if r.push(b.last()).contains(y) && y != b.last() {
                let j = choose|j: int| 0 <= j < r.len() + 1 && r.push(b.last())[j] == y;
                assert(r[j] == y);
            }
        }
    }
}

/// Filter merging: in the compiled list no two filters share a key list,
/// each key list of the input stands in it, and the addresses of each
/// compiled filter are exactly the union of the addresses of the input
/// filters with the same key list.
pub proof fn lemma_merged_addresses(reqs: Seq<RequestView>)
    ensures
        forall|a: int, b: int|
            0 <= a < b < merge_all(reqs).len() ==> merge_all(reqs)[a].1 != merge_all(reqs)[b].1,
        forall|j: int|
            0 <= j < reqs.len() ==> exists|k: int|
                0 <= k < merge_all(reqs).len() && merge_all(reqs)[k].1 == (#[trigger] reqs[j]).1,
        forall|k: int, y: Seq<char>|
            0 <= k < merge_all(reqs).len() ==> (#[trigger] merge_all(reqs)[k].0.contains(y) <==> exists|j: int|
                0 <= j < reqs.len() && (#[trigger] reqs[j]).1 == merge_all(reqs)[k].1
                    && reqs[j].0.contains(y)),
    decreases reqs.len(),
{
    if reqs.len() > 0 {
        let d = reqs.drop_last();
        let x = reqs.last();
        lemma_merged_addresses(d);
        let m = merge_all(d);
        let m2 = merge_all(reqs);
        assert(m2 == merge_request(m, x));
        lemma_first_with_key_prefix(m, x.1, 0);
        assert forall|j: int| 0 <= j < d.len() implies d[j] == reqs[j] by {}
        match first_with_key(m, x.1) {
            Some(i) => {
                assert(m2 == m.update(i, (add_missing(m[i].0, x.0), m[i].1)));
                assert forall|j: int| 0 <= j < reqs.len() implies exists|k: int|
                    0 <= k < m2.len() && m2[k].1 == (#[trigger] reqs[j]).1 by {
                    if j < d.len() {
                        assert(d[j] == reqs[j]);
                        let k = choose|k: int| 0 <= k < m.len() && m[k].1 == d[j].1;
                        assert(m2[k].1 == reqs[j].1);
                    } else {
                        assert(m2[i].1 == reqs[j].1);
                    }
                }
                assert forall|k: int, y: Seq<char>| 0 <= k < m2.len() implies (
                #[trigger] m2[k].0.contains(y) <==> exists|j: int|
                    0 <= j < reqs.len() && (#[trigger] reqs[j]).1 == m2[k].1 && reqs[j].0.contains(
                        y,
                    )) by {
                    assert(m2[k].1 == m[k].1);
                    if k == i {
                        lemma_add_missing_contains(m[i].0, x.0, y);
                        if m[i].0.contains(y) {
                            let j = choose|j: int|
                                0 <= j < d.len() && (#[trigger] d[j]).1 == m[k].1 && d[j].0.contains(
                                    y,
                                );
                            assert(reqs[j] == d[j]);
                        }
                        if x.0.contains(y) {
                            assert(reqs[reqs.len() - 1] == x);
                        }
                        if exists|j: int|
                            0 <= j < reqs.len() && (#[trigger] reqs[j]).1 == m2[k].1
                                && reqs[j].0.contains(y) {
                            let j = choose|j: int|
                                0 <= j < reqs.len() && (#[trigger] reqs[j]).1 == m2[k].1
                                    && reqs[j].0.contains(y);
                            if j < d.len() {
                                assert(d[j] == reqs[j]);
                            }
                        }
                    } else {
                        assert(m2[k] == m[k]);
                        if m[k].0.contains(y) {
                            let j = choose|j: int|
                                0 <= j < d.len() && (#[trigger] d[j]).1 == m[k].1 && d[j].0.contains(
                                    y,
                                );
                            assert(reqs[j] == d[j]);
                        }
                        if exists|j: int|
                            0 <= j < reqs.len() && (#[trigger] reqs[j]).1 == m2[k].1
                                && reqs[j].0.contains(y) {
                            let j = choose|j: int|
                                0 <= j < reqs.len() && (#[trigger] reqs[j]).1 == m2[k].1
                                    && reqs[j].0.contains(y);
                            if j < d.len() {
                                assert(d[j] == reqs[j]);
                            } else {
                                assert(m[i].1 == x.1);
                            }
                        }
                    }
                }
            },
            None => {
                assert(m2 == m.push(x));
                assert forall|j: int| 0 <= j < reqs.len() implies exists|k: int|
                    0 <= k < m2.len() && m2[k].1 == (#[trigger] reqs[j]).1 by {
                    if j < d.len() {
                        assert(d[j] == reqs[j]);
                        let k = choose|k: int| 0 <= k < m.len() && m[k].1 == d[j].1;
                        assert(m2[k].1 == reqs[j].1);
                    } else {
                        assert(m2[m.len() as int].1 == reqs[j].1);
                    }
                }
                assert forall|k: int, y: Seq<char>| 0 <= k < m2.len() implies (
                #[trigger] m2[k].0.contains(y) <==> exists|j: int|
                    0 <= j < reqs.len() && (#[trigger] reqs[j]).1 == m2[k].1 && reqs[j].0.contains(
                        y,
                    )) by {
                    if k < m.len() {
                        assert(m2[k] == m[k]);
                        assert(m[k].1 != x.1);
                        if m[k].0.contains(y) {
                            let j = choose|j: int|
                                0 <= j < d.len() && (#[trigger] d[j]).1 == m[k].1 && d[j].0.contains(
                                    y,
                                );
                            assert(reqs[j] == d[j]);
                        }
                        if exists|j: int|
                            0 <= j < reqs.len() && (#[trigger] reqs[j]).1 == m2[k].1
                                && reqs[j].0.contains(y) {
                            let j = choose|j: int|
                                0 <= j < reqs.len() && (#[trigger] reqs[j]).1 == m2[k].1
                                    && reqs[j].0.contains(y);
                            if j < d.len() {
                                assert(d[j] == reqs[j]);
                            }
                        }
                    } else {
                        assert(m2[k] == x);
                        if x.0.contains(y) {
                            assert(reqs[reqs.len() - 1] == x);
                        }
                        if exists|j: int|
                            0 <= j < reqs.len() && (#[trigger] reqs[j]).1 == m2[k].1
                                && reqs[j].0.contains(y) {
                            let j = choose|j: int|
                                0 <= j < reqs.len() && (#[trigger] reqs[j]).1 == m2[k].1
                                    && reqs[j].0.contains(y);
                            if j < d.len() {
                                assert(d[j] == reqs[j]);
                                let kk = choose|kk: int| 0 <= kk < m.len() && m[kk].1 == d[j].1;
                                assert(m[kk].1 == x.1);
                            }
                        }
                    }
                }
            },
        }
    }
}

/// Compilation is a function of the transforms: two compilations of the
/// same transforms give the same filters.
pub proof fn lemma_compile_deterministic(ts: Seq<CombinedFilter>, a: CompiledFilters, b: CompiledFilters)
    requires
        log_views(a.logs@) == merge_all(flat_log_requests(ts)),
        trace_views(a.traces@) == merge_all(flat_call_requests(ts)),
        log_views(b.logs@) == merge_all(flat_log_requests(ts)),
        trace_views(b.traces@) == merge_all(flat_call_requests(ts)),
    ensures
        log_views(a.logs@) == log_views(b.logs@),
        trace_views(a.traces@) == trace_views(b.traces@),
{
}

/// Whether every key list of `reqs` is ascending.
pub open spec fn keys_sorted(reqs: Seq<RequestView>) -> bool {
    forall|j: int| 0 <= j < reqs.len() ==> texts_sorted(#[trigger] reqs[j].1)
}

/// The filters with their key lists sorted again, as a second compilation
/// does with the filters it is given.
pub open spec fn resorted(reqs: Seq<RequestView>) -> Seq<RequestView> {
    reqs.map_values(|r: RequestView| (r.0, sorted_texts(r.1)))
}

proof fn lemma_merged_keys_from_input(reqs: Seq<RequestView>)
    ensures
        forall|k: int|
            0 <= k < merge_all(reqs).len() ==> exists|j: int|
                0 <= j < reqs.len() && reqs[j].1 == (#[trigger] merge_all(reqs)[k]).1,
    decreases reqs.len(),
{
    if reqs.len() > 0 {
        let d = reqs.drop_last();
        let x = reqs.last();
        lemma_merged_keys_from_input(d);
        let m = merge_all(d);
        let m2 = merge_all(reqs);
        lemma_first_with_key_prefix(m, x.1, 0);
        assert forall|k: int| 0 <= k < m2.len() implies exists|j: int|
            0 <= j < reqs.len() && reqs[j].1 == (#[trigger] m2[k]).1 by {
            if k < m.len() {
                assert(m2[k].1 == m[k].1);
                let j = choose|j: int| 0 <= j < d.len() && d[j].1 == m[k].1;
                assert(reqs[j] == d[j]);
            } else {
                assert(m2[k].1 == x.1);
                assert(reqs[reqs.len() - 1] == x);
            }
        }
    }
}

proof fn lemma_flat_log_keys_sorted(ts: Seq<CombinedFilter>)
    ensures
        keys_sorted(flat_log_requests(ts)),
    decreases ts.len(),
{
    if ts.len() > 0 {
        lemma_flat_log_keys_sorted(ts.drop_last());
        let a = flat_log_requests(ts.drop_last());
        let b = ts.last().log_filters@.map_values(|f: LogFilter| log_filter_request(f));
        assert forall|j: int| 0 <= j < (a + b).len() implies texts_sorted(#[trigger] (a + b)[j].1) by {
            if j >= a.len() {
                let f = ts.last().log_filters@[j - a.len()];
                lemma_sorted_texts_sorted(encode_all(bytes_list(f.event_signatures@)));
            }
        }
    }
}

proof fn lemma_flat_call_keys_sorted(ts: Seq<CombinedFilter>)
    ensures
        keys_sorted(flat_call_requests(ts)),
    decreases ts.len(),
{
    if ts.len() > 0 {
        lemma_flat_call_keys_sorted(ts.drop_last());
        let a = flat_call_requests(ts.drop_last());
        let b = ts.last().call_filters@.map_values(|f: CallToFilter| call_filter_request(f));
        assert forall|j: int| 0 <= j < (a + b).len() implies texts_sorted(#[trigger] (a + b)[j].1) by {
            if j >= a.len() {
                let f = ts.last().call_filters@[j - a.len()];
                lemma_sorted_texts_sorted(encode_all(bytes_list(f.signatures@)));
            }
        }
    }
}

proof fn lemma_merge_keeps_sorted_keys(reqs: Seq<RequestView>)
    requires
        keys_sorted(reqs),
    ensures
        keys_sorted(merge_all(reqs)),
{
    lemma_merged_keys_from_input(reqs);
    let m = merge_all(reqs);
    assert forall|k: int| 0 <= k < m.len() implies texts_sorted(#[trigger] m[k].1) by {
        let j = choose|j: int| 0 <= j < reqs.len() && reqs[j].1 == (#[trigger] m[k]).1;
        assert(texts_sorted(reqs[j].1));
    }
}

/// The topic lists of the compiled log filters and the sighash lists of the
/// compiled call filters are in ascending order.
pub proof fn lemma_compiled_keys_sorted(ts: Seq<CombinedFilter>)
    ensures
        keys_sorted(merge_all(flat_log_requests(ts))),
        keys_sorted(merge_all(flat_call_requests(ts))),
{
    lemma_flat_log_keys_sorted(ts);
    lemma_flat_call_keys_sorted(ts);
    lemma_merge_keeps_sorted_keys(flat_log_requests(ts));
    lemma_merge_keeps_sorted_keys(flat_call_requests(ts));
}

proof fn lemma_merge_unique_keys(l: Seq<RequestView>)
    requires
        forall|a: int, b: int| 0 <= a < b < l.len() ==> l[a].1 != l[b].1,
    ensures
        merge_all(l) == l,
    decreases l.len(),
{
    if l.len() > 0 {
        let d = l.drop_last();
        lemma_merge_unique_keys(d);
        lemma_first_with_key_prefix(d, l.last().1, 0);
        if first_with_key(d, l.last().1) is Some {
            let i = first_with_key(d, l.last().1)->0;
            assert(l[i].1 != l[l.len() - 1].1);
        }
        assert(d.push(l.last()) =~= l);
    }
}

/// Compiling again: feeding the compiled filters back in as the input of a
/// second compilation yields the same compiled filters.
pub proof fn lemma_recompile_unchanged(reqs: Seq<RequestView>)
    requires
        keys_sorted(reqs),
    ensures
        merge_all(resorted(merge_all(reqs))) == merge_all(reqs),
{
    let m = merge_all(reqs);
    lemma_merge_keeps_sorted_keys(reqs);
    lemma_merged_addresses(reqs);
    assert forall|k: int| 0 <= k < m.len() implies sorted_texts(m[k].1) == m[k].1 by {
        assert(texts_sorted(m[k].1));
        lemma_sorted_texts_fixed(m[k].1);
    }
    assert(resorted(m) =~= m);
    lemma_merge_unique_keys(m);
}

/// Compiling the transforms, then compiling the compiled filters again,
/// changes nothing.
pub proof fn lemma_compile_idempotent(ts: Seq<CombinedFilter>)
    ensures
        merge_all(resorted(merge_all(flat_log_requests(ts)))) == merge_all(flat_log_requests(ts)),
        merge_all(resorted(merge_all(flat_call_requests(ts)))) == merge_all(
            flat_call_requests(ts),
        ),
{
    lemma_flat_log_keys_sorted(ts);
    lemma_flat_call_keys_sorted(ts);
    lemma_recompile_unchanged(flat_log_requests(ts));
    lemma_recompile_unchanged(flat_call_requests(ts));
}

} // verus!
