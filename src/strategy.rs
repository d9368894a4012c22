//! The pure steps of the pipeline: turning a found path into hops, recording
//! scores, and building the simulation and trade calls.
use vstd::prelude::*;
use crate::encoding::{TradeCall, count_true, encode_trade, header_value, hop_fees_fit, protocol_flags, v2_routers, v2_tokens, v3_blobs, v3_routers};
use crate::search::{Memo, PathT, Step, is_candidate, memo_entries, memo_insert, memo_new, path_get, path_len, path_steps, step_edge};
use crate::trading_graph::{Database, hops_of, hop_at, resolvable};
use crate::types::{ArbHop, FlashLoan};

verus! {

/// The validator payment percentage that trades carry: 128/256, half.
pub const VALIDATOR_PERCENTAGE: u8 = 128;

/// An empty score cache.
pub fn new_memo() -> (m: Memo)
    ensures
        memo_entries(m).dom().is_empty(),
{
    memo_new()
}

/// Records the score of a path in the cache; returns whether the path goes
/// on downstream, which it does when its score is not negative.
pub fn record_score(memo: &mut Memo, path: PathT, score: i128) -> (r: bool)
    ensures
        memo_entries(*final(memo)) == memo_entries(*old(memo)).insert(path_steps(path), score),
        r == (score >= 0),
{
    memo_insert(memo, path, score);
    score >= 0
}

/// A path accepted for scoring starts and ends at the source and takes no
/// edge twice.
pub proof fn lemma_candidate_closed_and_simple(
    es: Seq<(usize, usize, u64)>,
    source: usize,
    memo: Map<Seq<Step>, i128>,
    p: Seq<Step>,
)
    requires
        is_candidate(es, source, memo, p),
    ensures
        p[0].0 == source,
        p[p.len() - 1].0 == source,
        forall|i: int, j: int| 1 <= i < j < p.len() ==> step_edge(#[trigger] p[i]) != step_edge(#[trigger] p[j]),
{
}

/// The hops of a path: for each pair of consecutive steps, the tokens of the
/// two nodes and the router and fee tier of the venue of the edge taken;
/// `None` when a node has no token or an edge no venue.
pub fn resolve_hops(db: &Database, path: &PathT) -> (r: Option<Vec<ArbHop>>)
    ensures
        r is Some <==> resolvable(db.tokens@, db.pools@, path_steps(*path)),
        r matches Some(h) ==> h@ == hops_of(db.tokens@, db.pools@, path_steps(*path)),
{
    let ghost p = path_steps(*path);
    let n = path_len(path);
    let mut hops: Vec<ArbHop> = Vec::new();
    if n == 0 {
        proof {
            assert(hops@ =~= hops_of(db.tokens@, db.pools@, p));
        }
        return Some(hops);
    }
    let first = path_get(path, 0);
    if first.0 >= db.tokens.len() {
        return None;
    }
    for k in 1..n
        invariant
            n == p.len(),
            p == path_steps(*path),
            forall|j: int| 0 <= j < k ==> (#[trigger] p[j]).0 < db.tokens.len(),
            forall|j: int| 1 <= j < k ==> (#[trigger] p[j]).1 is Some && (p[j].1.unwrap() as int) < db.pools.len(),
            hops@.len() == k - 1,
            forall|j: int| 0 <= j < k - 1 ==> #[trigger] hops@[j] == hop_at(db.tokens@, db.pools@, p[j], p[j + 1]),
    {
        let a = path_get(path, k - 1);
        let b = path_get(path, k);
        if b.0 >= db.tokens.len() {
            return None;
        }
        match b.1 {
            None => {
                return None;
            },
            Some(e) => {
                if e >= db.pools.len() {
                    return None;
                }
                let v = db.pools[e];
                hops.push(ArbHop {
                    router_address: v.router,
                    token_in: db.tokens[a.0],
                    token_out: db.tokens[b.0],
                    fee: v.fee,
                });
            },
        }
    }
    proof {
        assert(hops@ =~= hops_of(db.tokens@, db.pools@, p));
    }
    Some(hops)
}

/// Whether every concentrated-liquidity hop's fee tier fits three bytes.
pub fn fees_fit_wire(hops: &Vec<ArbHop>) -> (r: bool)
    ensures
        r == hop_fees_fit(hops@),
{
    let n = hops.len();
    for i in 0..n
        invariant
            n == hops.len(),
            forall|j: int| 0 <= j < i ==> (#[trigger] hops@[j].fee matches Some(f) ==> f < 0x100_0000),
    {
        match hops[i].fee {
            Some(f) => {
                if f >= 0x100_0000 {
                    assert(!(hops@[i as int].fee matches Some(f) ==> f < 0x100_0000));
                    return false;
                }
            },
            None => {},
        }
    }
    true
}

/// The call that simulates a path with input `amount_in`: its hops encoded
/// with a pooled-liquidity flash loan and the given validator percentage;
/// `None` when the path does not resolve or a fee tier does not fit.
pub fn simulation_call(db: &Database, path: &PathT, amount_in: u128, percentage: u8) -> (r: Option<TradeCall>)
    ensures
        r is Some <==> (resolvable(db.tokens@, db.pools@, path_steps(*path))
            && hop_fees_fit(hops_of(db.tokens@, db.pools@, path_steps(*path)))),
        r matches Some(c) ==> {
            let h = hops_of(db.tokens@, db.pools@, path_steps(*path));
            &&& c.header.value() == header_value(amount_in as nat, percentage, FlashLoan::Balancer)
            &&& c.protocols@ == protocol_flags(h)
            &&& c.v3_routers@ == v3_routers(h)
            &&& c.v2_tokens@ == v2_tokens(h)
            &&& c.v2_routers@ == v2_routers(h)
            &&& c.v3_data.len() == v3_blobs(h).len()
            &&& c.v3_data.len() == count_true(c.protocols@)
            &&& forall|k: int| 0 <= k < c.v3_data.len() ==> #[trigger] c.v3_data[k]@ == v3_blobs(h)[k]
        },
{
    match resolve_hops(db, path) {
        None => None,
        Some(hops) => {
            if fees_fit_wire(&hops) {
                Some(encode_trade(&hops, amount_in, FlashLoan::Balancer, percentage))
            } else {
                None
            }
        },
    }
}

} // verus!
