use arrayvec::ArrayVec;
use main_flash::optimizer::{calculate_score, Bettermizer, ProbeStep};
use main_flash::search::{cache_invalidation, find_path, first_hops, search_branch, PathT};
use main_flash::strategy::{new_memo, record_score, resolve_hops, simulation_call, VALIDATOR_PERCENTAGE};
use main_flash::trading_graph::{
    changed_edges, node_index_of, Database, EdgeVenue, PriceGraph, Rates, VenueSnapshot, VenueState, RATE_ONE,
};
use main_flash::types::{Address, ArbHop};
use std::sync::atomic::AtomicBool;

fn addr(n: u128) -> Address {
    Address::from_u128(n)
}

/// A two-asset venue with ample reserves between tokens `a` and `b`.
fn v2(venue: u128, a: u128, b: u128, forward: u64, backward: u64) -> VenueSnapshot {
    VenueSnapshot {
        address: addr(venue),
        router: addr(0x2000),
        token_a: addr(a),
        token_b: addr(b),
        state: VenueState::ConstantProduct { reserve_0: 1_000, reserve_1: 1_000 },
        rates: Some(Rates { forward, backward }),
    }
}

fn rate(x_per_10000: u64) -> u64 {
    RATE_ONE / 10_000 * x_per_10000
}

fn build(venues: &Vec<VenueSnapshot>, settlement: u128) -> (PriceGraph, Option<usize>, Database) {
    let allow: Vec<Address> = venues.iter().map(|v| v.address).collect();
    let mut g = PriceGraph::new();
    let (src, db) = g.initialize(venues, &allow, addr(settlement));
    (g, src, db)
}

fn steps(p: &PathT) -> Vec<(usize, Option<usize>)> {
    p.iter().cloned().collect()
}

fn found_count_for_round_trip(forward: u64, backward: u64) -> usize {
    let venues = vec![v2(100, 1, 2, forward, backward)];
    let (g, src, _db) = build(&venues, 1);
    let stop = AtomicBool::new(false);
    let memo = new_memo();
    let out = find_path(&g, &stop, &memo, src.unwrap());
    assert!(!out.interrupted);
    // the one loop A->B->A is reached whether or not it is in the band
    assert_eq!(out.paths_searched, 1);
    out.found.len()
}

#[test]
fn band_rejects_product_exactly_one() {
    assert_eq!(found_count_for_round_trip(2 * RATE_ONE, RATE_ONE / 2), 0);
}

#[test]
fn band_accepts_product_just_above_one() {
    assert_eq!(found_count_for_round_trip(rate(10_001), RATE_ONE), 1);
}

#[test]
fn band_accepts_product_exactly_one_and_a_half() {
    assert_eq!(found_count_for_round_trip(rate(15_000), RATE_ONE), 1);
}

#[test]
fn band_rejects_product_just_above_one_and_a_half() {
    assert_eq!(found_count_for_round_trip(rate(15_001), RATE_ONE), 0);
}

/// Three tokens A=1, B=2, C=3 with A->B, B->C, C->A at the given rates and
/// the reverse edges at one half.
fn triangle(ca: u64) -> (PriceGraph, usize, Database) {
    let venues = vec![
        v2(100, 1, 2, rate(10_200), RATE_ONE / 2),
        v2(101, 2, 3, rate(10_100), RATE_ONE / 2),
        v2(102, 3, 1, ca, RATE_ONE / 2),
    ];
    let (g, src, db) = build(&venues, 1);
    (g, src.unwrap(), db)
}

#[test]
fn triangle_cycle_is_found_scored_and_forwarded() {
    let (g, src, db) = triangle(RATE_ONE);
    let stop = AtomicBool::new(false);
    let mut memo = new_memo();
    let out = find_path(&g, &stop, &memo, src);
    assert!(!out.interrupted);
    assert_eq!(out.found.len(), 1);
    let p = &out.found[0];
    // A -(edge 0)-> B -(edge 2)-> C -(edge 4)-> A
    assert_eq!(steps(p), vec![(0, None), (1, Some(0)), (2, Some(2)), (0, Some(4))]);
    // the first probe gives a positive output
    let mut opt = Bettermizer::new();
    let best = loop {
        match opt.next_step() {
            ProbeStep::Probe(a) => opt.observe(if a > 200_000_000_000_000_000 { 1 } else { a / 10 }),
            ProbeStep::Finished(r) => break r,
        }
    };
    assert!(best.is_some());
    let score = calculate_score(best, 3, 1);
    assert!(score >= 0);
    assert!(record_score(&mut memo, p.clone(), score));
    assert!(memo.contains_key(p));
    // once scored, the path is not handed out again
    let again = find_path(&g, &stop, &memo, src);
    assert_eq!(again.found.len(), 0);
    assert!(again.paths_searched >= 1);
    // its hops resolve to tokens and routers
    let hops = resolve_hops(&db, p).unwrap();
    assert_eq!(hops.len(), 3);
    assert_eq!(hops[0], ArbHop { router_address: addr(0x2000), token_in: addr(1), token_out: addr(2), fee: None });
    assert_eq!(hops[2].token_out, addr(1));
    let call = simulation_call(&db, p, 1_000, VALIDATOR_PERCENTAGE).unwrap();
    assert_eq!(call.protocols, vec![false, false, false]);
    assert_eq!(call.v2_tokens.len(), 6);
}

#[test]
fn triangle_over_the_band_never_reaches_scoring() {
    let (g, src, _db) = triangle(rate(16_000));
    let stop = AtomicBool::new(false);
    let memo = new_memo();
    let out = find_path(&g, &stop, &memo, src);
    assert!(!out.interrupted);
    assert_eq!(out.found.len(), 0);
    assert!(out.paths_searched >= 4);
}

#[test]
fn found_paths_are_closed_and_repeat_no_edge() {
    // a denser graph: every pair of four tokens, rates slightly above one
    let mut venues = Vec::new();
    let mut id = 100;
    for a in 1..=4u128 {
        for b in (a + 1)..=4u128 {
            venues.push(v2(id, a, b, rate(10_100), rate(10_050)));
            id += 1;
        }
    }
    let (g, src, _db) = build(&venues, 1);
    let stop = AtomicBool::new(false);
    let memo = new_memo();
    let out = find_path(&g, &stop, &memo, src.unwrap());
    assert!(!out.found.is_empty());
    for p in out.found.iter() {
        let s = steps(p);
        assert_eq!(s[0], (src.unwrap(), None));
        assert_eq!(s[s.len() - 1].0, src.unwrap());
        let mut edges: Vec<usize> = s[1..].iter().map(|x| x.1.unwrap()).collect();
        let n = edges.len();
        edges.sort();
        edges.dedup();
        assert_eq!(edges.len(), n);
        assert!(s.len() <= 5);
    }
}

#[test]
fn search_with_stop_already_set_explores_nothing() {
    let (g, src, _db) = triangle(RATE_ONE);
    let stop = AtomicBool::new(true);
    let memo = new_memo();
    let out = find_path(&g, &stop, &memo, src);
    assert!(out.interrupted);
    assert_eq!(out.found.len(), 0);
    assert_eq!(out.paths_searched, 0);
}

#[test]
fn branches_together_give_the_whole_search() {
    let (g, src, _db) = triangle(RATE_ONE);
    let stop = AtomicBool::new(false);
    let memo = new_memo();
    let mut found = Vec::new();
    let mut total = 0;
    for hop in first_hops(&g, src) {
        let (n, cut) = search_branch(&g, &stop, &memo, src, hop, &mut found);
        assert!(!cut);
        total += n;
    }
    let whole = find_path(&g, &stop, &memo, src);
    assert_eq!(found.len(), whole.found.len());
    assert_eq!(total, whole.paths_searched);
}

fn path_of(edges: &[usize]) -> PathT {
    let mut p = ArrayVec::new();
    p.push((0usize, None));
    for (i, e) in edges.iter().enumerate() {
        p.push((i + 1, Some(*e)));
    }
    p
}

#[test]
fn invalidation_drops_paths_through_changed_venue() {
    let v1 = EdgeVenue { address: addr(0xa1), router: addr(0x2000), fee: None };
    let v2 = EdgeVenue { address: addr(0xa2), router: addr(0x2000), fee: Some(500) };
    let db = Database { pools: vec![v1, v1, v2, v2], tokens: vec![addr(1), addr(2), addr(3), addr(4)] };
    let mut memo = new_memo();
    let p1 = path_of(&[0]);
    let p2 = path_of(&[2]);
    let p3 = path_of(&[1, 3]);
    record_score(&mut memo, p1.clone(), 5);
    record_score(&mut memo, p2.clone(), -5);
    record_score(&mut memo, p3.clone(), 7);
    let removed = cache_invalidation(&db, &mut memo, &vec![addr(0xa1)]);
    assert_eq!(removed, 2);
    assert!(!memo.contains_key(&p1));
    assert!(memo.contains_key(&p2));
    assert!(!memo.contains_key(&p3));
    assert_eq!(*memo.get(&p2).unwrap(), -5);
}

#[test]
fn invalidation_with_no_changes_keeps_everything() {
    let v1 = EdgeVenue { address: addr(0xa1), router: addr(0x2000), fee: None };
    let db = Database { pools: vec![v1, v1], tokens: vec![addr(1), addr(2)] };
    let mut memo = new_memo();
    record_score(&mut memo, path_of(&[0]), 1);
    assert_eq!(cache_invalidation(&db, &mut memo, &vec![]), 0);
    assert_eq!(memo.len(), 1);
}

#[test]
fn negative_score_is_cached_but_not_forwarded() {
    let mut memo = new_memo();
    assert!(!record_score(&mut memo, path_of(&[0]), -1));
    assert!(record_score(&mut memo, path_of(&[1]), 0));
    assert_eq!(memo.len(), 2);
}

#[test]
fn build_filters_venues() {
    let mut low = v2(200, 5, 6, RATE_ONE, RATE_ONE);
    low.state = VenueState::ConstantProduct { reserve_0: 99, reserve_1: 1_000 };
    let mut unpriced = v2(201, 7, 8, RATE_ONE, RATE_ONE);
    unpriced.rates = None;
    let mut bad_fee = v2(202, 9, 10, RATE_ONE, RATE_ONE);
    bad_fee.state = VenueState::Concentrated { fee: 1, liquidity: 5, token_a_decimals: 18, token_b_decimals: 6 };
    let mut good_v3 = v2(203, 1, 11, RATE_ONE, RATE_ONE);
    good_v3.state = VenueState::Concentrated { fee: 3000, liquidity: 5, token_a_decimals: 18, token_b_decimals: 6 };
    let not_allowed = v2(204, 1, 12, RATE_ONE, RATE_ONE);
    let venues = vec![v2(100, 1, 2, RATE_ONE, RATE_ONE), low, unpriced, bad_fee, good_v3, not_allowed];
    let allow = vec![addr(100), addr(200), addr(201), addr(202), addr(203)];
    let mut g = PriceGraph::new();
    let (src, db) = g.initialize(&venues, &allow, addr(1));
    assert_eq!(src, Some(0));
    assert_eq!(db.tokens, vec![addr(1), addr(2), addr(11)]);
    assert_eq!(db.pools.len(), 4);
    assert_eq!(db.pools[2], EdgeVenue { address: addr(203), router: addr(0x2000), fee: Some(3000) });
    assert_eq!(g.0.edge_count(), 4);
    assert_eq!(g.0.node_count(), 3);
}

#[test]
fn empty_allow_list_admits_nothing() {
    let venues = vec![v2(100, 1, 2, RATE_ONE, RATE_ONE)];
    let mut g = PriceGraph::new();
    let (src, db) = g.initialize(&venues, &vec![], addr(1));
    assert_eq!(src, None);
    assert!(db.tokens.is_empty());
    assert_eq!(node_index_of(&db, addr(1)), None);
}

#[test]
fn shared_tokens_are_added_once() {
    let venues = vec![v2(100, 1, 2, RATE_ONE, RATE_ONE), v2(101, 2, 1, RATE_ONE, RATE_ONE)];
    let (g, src, db) = build(&venues, 2);
    assert_eq!(src, Some(1));
    assert_eq!(db.tokens.len(), 2);
    assert_eq!(g.0.edge_count(), 4);
}

#[test]
fn weights_update_in_place_for_changed_venues() {
    let venues = vec![v2(100, 1, 2, RATE_ONE, RATE_ONE), v2(101, 2, 3, RATE_ONE, RATE_ONE)];
    let (mut g, _src, db) = build(&venues, 1);
    let edges = changed_edges(&db, &vec![addr(101)]);
    assert_eq!(edges, vec![2, 3]);
    g.update_weights(&edges, &vec![7, 8]);
    let w: Vec<u64> = g.0.edge_weights().cloned().collect();
    assert_eq!(w, vec![RATE_ONE, RATE_ONE, 7, 8]);
    assert_eq!(g.0.edge_count(), 4);
}

#[test]
fn unresolvable_path_gives_no_hops() {
    let db = Database { pools: vec![], tokens: vec![addr(1)] };
    assert_eq!(resolve_hops(&db, &path_of(&[0])), None);
    assert!(simulation_call(&db, &path_of(&[0]), 1, 128).is_none());
}

#[test]
fn oversized_fee_gives_no_simulation_call() {
    let v = EdgeVenue { address: addr(0xa1), router: addr(0x3000), fee: Some(0x100_0000) };
    let db = Database { pools: vec![v, v], tokens: vec![addr(1), addr(2)] };
    let mut p: PathT = ArrayVec::new();
    p.push((0, None));
    p.push((1, Some(0)));
    assert!(resolve_hops(&db, &p).is_some());
    assert!(simulation_call(&db, &p, 1, 128).is_none());
}

#[test]
fn snapshot_searches_like_the_graph() {
    let (g, src, _db) = triangle(RATE_ONE);
    let copy = g.snapshot();
    let stop = AtomicBool::new(false);
    let memo = new_memo();
    let a = find_path(&g, &stop, &memo, src);
    let b = find_path(&copy, &stop, &memo, src);
    assert_eq!(a.paths_searched, b.paths_searched);
    assert_eq!(a.found.len(), b.found.len());
    assert_eq!(copy.0.edge_count(), 6);
}
