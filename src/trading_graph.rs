//! The price graph: tokens as nodes, each accepted venue as a pair of
//! directed edges weighted by fixed-point exchange rates, and the metadata
//! that maps each edge back to its venue.
use vstd::prelude::*;
use petgraph::graph::DiGraph;
use petgraph::visit::EdgeRef;
use crate::types::{Address, ArbHop};

verus! {

#[verifier::external_type_specification]
#[verifier::external_body]
#[verifier::reject_recursive_types(N)]
#[verifier::reject_recursive_types(E)]
#[verifier::reject_recursive_types(Ty)]
#[verifier::reject_recursive_types(Ix)]
pub struct ExGraph<N, E, Ty, Ix>(petgraph::graph::Graph<N, E, Ty, Ix>);

#[verifier::external_type_specification]
#[verifier::external_body]
pub struct ExDirected(petgraph::Directed);

/// The rate that stands for an exchange rate of exactly one.
pub const RATE_ONE: u64 = 1_000_000_000_000;

/// The node weights of a graph, by node index.
pub uninterp spec fn graph_nodes(g: DiGraph<Address, u64>) -> Seq<Address>;

/// The edges of a graph, by edge index: source, target and weight.
pub uninterp spec fn graph_edges(g: DiGraph<Address, u64>) -> Seq<(usize, usize, u64)>;

/// Relies on petgraph's `Graph::new`: a graph with no nodes and no edges.
#[verifier::external_body]
fn graph_new() -> (g: DiGraph<Address, u64>)
    ensures
        graph_nodes(g) == Seq::<Address>::empty(),
        graph_edges(g) == Seq::<(usize, usize, u64)>::empty(),
{
    DiGraph::new()
}

/// Relies on petgraph's `Graph::add_node`: the node is appended, and its
/// index is the former node count (it panics only at `u32::MAX` nodes).
#[verifier::external_body]
fn graph_add_node(g: &mut DiGraph<Address, u64>, a: Address) -> (r: usize)
    requires
        graph_nodes(*old(g)).len() < u32::MAX,
    ensures
        r == graph_nodes(*old(g)).len(),
        graph_nodes(*final(g)) == graph_nodes(*old(g)).push(a),
        graph_edges(*final(g)) == graph_edges(*old(g)),
{
    g.add_node(a).index()
}

/// Relies on petgraph's `Graph::add_edge`: the edge is appended, and its
/// index is the former edge count (it panics only on a missing endpoint or
/// at `u32::MAX` edges).
#[verifier::external_body]
fn graph_add_edge(g: &mut DiGraph<Address, u64>, a: usize, b: usize, w: u64) -> (r: usize)
    requires
        a < graph_nodes(*old(g)).len(),
        b < graph_nodes(*old(g)).len(),
        graph_nodes(*old(g)).len() <= u32::MAX,
        graph_edges(*old(g)).len() < u32::MAX,
    ensures
        r == graph_edges(*old(g)).len(),
        graph_edges(*final(g)) == graph_edges(*old(g)).push((a, b, w)),
        graph_nodes(*final(g)) == graph_nodes(*old(g)),
{
    g.add_edge(petgraph::graph::NodeIndex::new(a), petgraph::graph::NodeIndex::new(b), w).index()
}

/// Relies on petgraph's `Clone` for `Graph`: a copy of the node and edge
/// lists, adjacency included, so each node lists its edges in the same order.
#[verifier::external_body]
fn graph_clone(g: &DiGraph<Address, u64>) -> (r: DiGraph<Address, u64>)
    ensures
        graph_nodes(r) == graph_nodes(*g),
        graph_edges(r) == graph_edges(*g),
        forall|a: usize| #[trigger] outgoing_of(r, a) == outgoing_of(*g, a),
{
    g.clone()
}

/// Relies on petgraph's `IndexMut<EdgeIndex>` for `Graph`: the weight of
/// edge `e` is overwritten, nothing else changes.
#[verifier::external_body]
pub(crate) fn graph_set_weight(g: &mut DiGraph<Address, u64>, e: usize, w: u64)
    requires
        e < graph_edges(*old(g)).len(),
        graph_edges(*old(g)).len() <= u32::MAX,
    ensures
        graph_edges(*final(g)) == graph_edges(*old(g)).update(
            e as int,
            (graph_edges(*old(g))[e as int].0, graph_edges(*old(g))[e as int].1, w),
        ),
        graph_nodes(*final(g)) == graph_nodes(*old(g)),
{
    g[petgraph::graph::EdgeIndex::new(e)] = w;
}

/// The outgoing edges of node `a`, in the order the graph lists them.
pub uninterp spec fn outgoing_of(g: DiGraph<Address, u64>, a: usize) -> Seq<(usize, usize, u64)>;

/// Relies on petgraph's `Graph::edges`: on a directed graph it yields each
/// outgoing edge of `a` once, as (edge index, target, weight), in an order
/// fixed by the graph's value.
#[verifier::external_body]
pub(crate) fn graph_outgoing(g: &DiGraph<Address, u64>, a: usize) -> (r: Vec<(usize, usize, u64)>)
    requires
        a < graph_nodes(*g).len(),
        graph_nodes(*g).len() <= u32::MAX,
    ensures
        r@ == outgoing_of(*g, a),
        forall|i: int| 0 <= i < r.len() ==> {
            let e = #[trigger] r[i];
            &&& e.0 < graph_edges(*g).len()
            &&& graph_edges(*g)[e.0 as int] == (a, e.1, e.2)
        },
        forall|i: int, j: int| 0 <= i < j < r.len() ==> r[i].0 != r[j].0,
        forall|e: int| 0 <= e < graph_edges(*g).len() && #[trigger] graph_edges(*g)[e].0 == a ==>
            exists|i: int| 0 <= i < r.len() && r[i].0 == e,
{
    g.edges(petgraph::graph::NodeIndex::new(a)).map(|e| (e.id().index(), e.target().index(), *e.weight())).collect()
}

/// The market state of a venue, by kind.
#[derive(Clone, Copy, Debug, PartialEq, Eq, Structural)]
pub enum VenueState {
    /// A two-asset constant-product pool and its reserves.
    ConstantProduct { reserve_0: u128, reserve_1: u128 },
    /// A concentrated-liquidity pool: its fee tier, active liquidity and the
    /// decimals of its two tokens.
    Concentrated { fee: u32, liquidity: u128, token_a_decimals: u8, token_b_decimals: u8 },
}

/// The two exchange rates of a venue, in units of `RATE_ONE`: the price of
/// token B in token A's terms (edge A to B) and the reverse.
#[derive(Clone, Copy, Debug, PartialEq, Eq, Structural)]
pub struct Rates {
    pub forward: u64,
    pub backward: u64,
}

/// A snapshot of one venue as the market-state provider delivers it, with
/// the rates computed from it (`None` when the computation failed).
#[derive(Clone, Copy, Debug, PartialEq, Eq, Structural)]
pub struct VenueSnapshot {
    pub address: Address,
    pub router: Address,
    pub token_a: Address,
    pub token_b: Address,
    pub state: VenueState,
    pub rates: Option<Rates>,
}

/// What an edge records of its venue: the venue's address, the router that
/// trades through it, and its fee tier for a concentrated-liquidity venue.
#[derive(Clone, Copy, Debug, PartialEq, Eq, Structural)]
pub struct EdgeVenue {
    pub address: Address,
    pub router: Address,
    pub fee: Option<u32>,
}

/// The venue has enough reserves or liquidity and sane fee and decimals.
pub open spec fn passes_filters(v: VenueSnapshot) -> bool {
    match v.state {
        VenueState::ConstantProduct { reserve_0, reserve_1 } => reserve_0 >= 100 && reserve_1 >= 100,
        VenueState::Concentrated { fee, liquidity, token_a_decimals, token_b_decimals } =>
            fee > 1 && liquidity != 0 && token_a_decimals != 0 && token_b_decimals != 0,
    }
}

/// The venue enters the graph: allow-listed, past the filters, and priced.
pub open spec fn accepted(v: VenueSnapshot, allow: Seq<Address>) -> bool {
    allow.contains(v.address) && passes_filters(v) && v.rates is Some
}

/// The metadata that the edges of venue `v` carry.
pub open spec fn edge_venue_of(v: VenueSnapshot) -> EdgeVenue {
    EdgeVenue {
        address: v.address,
        router: v.router,
        fee: match v.state {
            VenueState::Concentrated { fee, .. } => Some(fee),
            VenueState::ConstantProduct { .. } => None,
        },
    }
}

/// The node list after token `a` is looked up, added if new.
pub open spec fn with_token(nodes: Seq<Address>, a: Address) -> Seq<Address> {
    if nodes.contains(a) {
        nodes
    } else {
        nodes.push(a)
    }
}

/// The nodes of the graph built from `vs`: each token of an accepted venue,
/// once, in order of first appearance.
pub open spec fn built_nodes(vs: Seq<VenueSnapshot>, allow: Seq<Address>) -> Seq<Address>
    decreases vs.len(),
{
    if vs.len() == 0 {
        seq![]
    } else {
        let p = built_nodes(vs.drop_last(), allow);
        let v = vs.last();
        if accepted(v, allow) {
            with_token(with_token(p, v.token_a), v.token_b)
        } else {
            p
        }
    }
}

/// The edges of the graph built from `vs`: for each accepted venue, the edge
/// from token A to token B with the forward rate, then its reverse.
pub open spec fn built_edges(vs: Seq<VenueSnapshot>, allow: Seq<Address>) -> Seq<(usize, usize, u64)>
    decreases vs.len(),
{
    if vs.len() == 0 {
        seq![]
    } else {
        let p = built_edges(vs.drop_last(), allow);
        let v = vs.last();
        let n = built_nodes(vs, allow);
        let ia = n.index_of(v.token_a) as usize;
        let ib = n.index_of(v.token_b) as usize;
        if accepted(v, allow) {
            p.push((ia, ib, v.rates.unwrap().forward)).push((ib, ia, v.rates.unwrap().backward))
        } else {
            p
        }
    }
}

/// The venue of each edge of the graph built from `vs`.
pub open spec fn built_venues(vs: Seq<VenueSnapshot>, allow: Seq<Address>) -> Seq<EdgeVenue>
    decreases vs.len(),
{
    if vs.len() == 0 {
        seq![]
    } else {
        let p = built_venues(vs.drop_last(), allow);
        let v = vs.last();
        if accepted(v, allow) {
            p.push(edge_venue_of(v)).push(edge_venue_of(v))
        } else {
            p
        }
    }
}

/// The index of token `a` among `nodes`, when it is there.
pub open spec fn token_index(nodes: Seq<Address>, a: Address) -> Option<usize> {
    if nodes.contains(a) {
        Some(nodes.index_of(a) as usize)
    } else {
        None
    }
}

/// The lookups that the search and the encoder make: the token of each node
/// and the venue of each edge, by index.
#[derive(Clone)]
pub struct Database {
    pub pools: Vec<EdgeVenue>,
    pub tokens: Vec<Address>,
}

impl Database {
    /// A database with no edges and no tokens.
    pub fn empty() -> (r: Database)
        ensures
            r.pools@ == Seq::<EdgeVenue>::empty(),
            r.tokens@ == Seq::<Address>::empty(),
    {
        Database { pools: Vec::new(), tokens: Vec::new() }
    }
}

/// The directed graph of tokens, weighted by fixed-point exchange rates.
pub struct PriceGraph(pub DiGraph<Address, u64>);

impl PriceGraph {
    /// The node weights of the graph.
    pub open spec fn nodes(&self) -> Seq<Address> {
        graph_nodes(self.0)
    }

    /// The edges of the graph.
    pub open spec fn edges(&self) -> Seq<(usize, usize, u64)> {
        graph_edges(self.0)
    }

    /// The graph and the database agree, and every edge joins two nodes.
    pub open spec fn wf_with(&self, db: &Database) -> bool {
        &&& db.tokens@ == self.nodes()
        &&& db.pools.len() == self.edges().len()
        &&& self.nodes().no_duplicates()
        &&& forall|e: int| 0 <= e < self.edges().len() ==>
            (#[trigger] self.edges()[e]).0 < self.nodes().len() && self.edges()[e].1 < self.nodes().len()
    }

    /// Every edge joins two nodes of the graph, and indices fit the graph's
    /// 32-bit index type.
    pub open spec fn edges_in_range(&self) -> bool {
        &&& self.nodes().len() <= u32::MAX
        &&& self.edges().len() <= u32::MAX
        &&& forall|e: int| 0 <= e < self.edges().len() ==>
            (#[trigger] self.edges()[e]).0 < self.nodes().len() && self.edges()[e].1 < self.nodes().len()
    }

    /// A copy of the graph that a search can hold while the original is
    /// updated.
    pub fn snapshot(&self) -> (r: PriceGraph)
        ensures
            r.nodes() == self.nodes(),
            r.edges() == self.edges(),
            forall|a: usize| #[trigger] outgoing_of(r.0, a) == outgoing_of(self.0, a),
    {
        PriceGraph(graph_clone(&self.0))
    }

    /// An empty graph.
    pub fn new() -> (r: PriceGraph)
        ensures
            r.nodes() == Seq::<Address>::empty(),
            r.edges() == Seq::<(usize, usize, u64)>::empty(),
    {
        PriceGraph(graph_new())
    }
}

/// Finds the node of token `a`, adding it when it is new.
fn node_for(g: &mut PriceGraph, db: &mut Database, a: Address) -> (r: usize)
    requires
        old(g).wf_with(old(db)),
        old(g).nodes().len() < u32::MAX,
    ensures
        final(g).wf_with(final(db)),
        final(g).nodes() == with_token(old(g).nodes(), a),
        final(g).edges() == old(g).edges(),
        final(db).pools@ == old(db).pools@,
        r < final(g).nodes().len(),
        final(g).nodes()[r as int] == a,
        r == final(g).nodes().index_of(a),
{
    let n = db.tokens.len();
    for i in 0..n
        invariant
            n == db.tokens.len(),
            g.wf_with(db),
            forall|j: int| 0 <= j < i ==> db.tokens@[j] != a,
    {
        if db.tokens[i] == a {
            proof {
                assert(g.nodes().contains(a));
                let k = g.nodes().index_of(a);
                assert(g.nodes()[k] == a);
                assert(k == i);
            }
            return i;
        }
    }
    proof {
        assert(!g.nodes().contains(a));
    }
    let r = graph_add_node(&mut g.0, a);
    db.tokens.push(a);
    proof {
        let ns = g.nodes();
        assert(ns == old(g).nodes().push(a));
        assert(ns[r as int] == a);
        assert forall|i: int, j: int| 0 <= i < ns.len() && 0 <= j < ns.len() && i != j implies ns[i] != ns[j] by {
            if i < old(g).nodes().len() && j < old(g).nodes().len() {
            } else if i < old(g).nodes().len() {
                assert(old(g).nodes().contains(ns[i]));
            } else {
                assert(old(g).nodes().contains(ns[j]));
            }
        }
        assert(ns.contains(a));
        let k = ns.index_of(a);
        assert(ns[k] == a);
        assert(k == r);
        assert forall|e: int| 0 <= e < g.edges().len() implies
            (#[trigger] g.edges()[e]).0 < g.nodes().len() && g.edges()[e].1 < g.nodes().len() by {
            assert(g.edges()[e] == old(g).edges()[e]);
        }
    }
    r
}

/// The executable form of `passes_filters`.
fn venue_passes_filters(v: &VenueSnapshot) -> (r: bool)
    ensures
        r == passes_filters(*v),
{
    match v.state {
        VenueState::ConstantProduct { reserve_0, reserve_1 } => reserve_0 >= 100 && reserve_1 >= 100,
        VenueState::Concentrated { fee, liquidity, token_a_decimals, token_b_decimals } =>
            fee > 1 && liquidity != 0 && token_a_decimals != 0 && token_b_decimals != 0,
    }
}

/// Whether `a` is on the list.
pub fn list_contains(list: &Vec<Address>, a: Address) -> (r: bool)
    ensures
        r == list@.contains(a),
{
    let n = list.len();
    for i in 0..n
        invariant
            n == list.len(),
            forall|j: int| 0 <= j < i ==> list@[j] != a,
    {
        if list[i] == a {
            return true;
        }
    }
    false
}

impl PriceGraph {
    /// Builds the graph from venue snapshots: each allow-listed venue with
    /// enough reserves or liquidity, sane fee and decimals, and both rates
    /// adds its tokens (once each) and a pair of directed edges, both mapped
    /// to the venue. Returns the node of the settlement token, if any venue
    /// brought it, and the database of the new graph.
    pub fn initialize(&mut self, pools: &Vec<VenueSnapshot>, whitelist: &Vec<Address>, settlement: Address)
        -> (r: (Option<usize>, Database))
        requires
            old(self).nodes() == Seq::<Address>::empty(),
            old(self).edges() == Seq::<(usize, usize, u64)>::empty(),
            pools.len() < 0x7fff_ffff,
        ensures
            final(self).nodes() == built_nodes(pools@, whitelist@),
            final(self).edges() == built_edges(pools@, whitelist@),
            r.1.pools@ == built_venues(pools@, whitelist@),
            r.1.tokens@ == final(self).nodes(),
            r.0 == token_index(final(self).nodes(), settlement),
            final(self).wf_with(&r.1),
            final(self).edges_in_range(),
    {
        let mut db = Database::empty();
        let n = pools.len();
        for i in 0..n
            invariant
                n == pools.len(),
                n < 0x7fff_ffff,
                self.wf_with(&db),
                self.nodes() == built_nodes(pools@.subrange(0, i as int), whitelist@),
                self.edges() == built_edges(pools@.subrange(0, i as int), whitelist@),
                db.pools@ == built_venues(pools@.subrange(0, i as int), whitelist@),
                self.nodes().len() <= 2 * i,
                self.edges().len() <= 2 * i,
        {
            let ghost pre = pools@.subrange(0, i as int);
            let ghost cur = pools@.subrange(0, i + 1);
            proof {
                assert(cur.drop_last() =~= pre);
                assert(cur.last() == pools@[i as int]);
            }
            let v = pools[i];
            let admitted = list_contains(whitelist, v.address) && venue_passes_filters(&v);
            match v.rates {
                Some(rates) if admitted => {
                    let ia = node_for(self, &mut db, v.token_a);
                    let ib = node_for(self, &mut db, v.token_b);
                    proof {
                        let ns = self.nodes();
                        assert(ns == built_nodes(cur, whitelist@));
                        // the index of token A stays put when token B is added
                        assert(ns[ia as int] == v.token_a);
                        assert(ns.contains(v.token_a));
                        let k = ns.index_of(v.token_a);
                        assert(ns[k] == v.token_a);
                        assert(k == ia);
                    }
                    graph_add_edge(&mut self.0, ia, ib, rates.forward);
                    graph_add_edge(&mut self.0, ib, ia, rates.backward);
                    let meta = EdgeVenue {
                        address: v.address,
                        router: v.router,
                        fee: match v.state {
                            VenueState::Concentrated { fee, .. } => Some(fee),
                            VenueState::ConstantProduct { .. } => None,
                        },
                    };
                    db.pools.push(meta);
                    db.pools.push(meta);
                    proof {
                        let es = self.edges();
                        assert forall|e: int| 0 <= e < es.len() implies
                            (#[trigger] es[e]).0 < self.nodes().len() && es[e].1 < self.nodes().len() by {
                            if e < es.len() - 2 {
                                assert(es[e] == built_edges(pre, whitelist@)[e]);
                            }
                        }
                    }
                },
                _ => {},
            }
        }
        proof {
            assert(pools@.subrange(0, n as int) =~= pools@);
        }
        let found = node_index_of(&db, settlement);
        (found, db)
    }
}

/// The node of token `a`, when the graph has one.
pub fn node_index_of(db: &Database, a: Address) -> (r: Option<usize>)
    requires
        db.tokens@.no_duplicates(),
    ensures
        r == token_index(db.tokens@, a),
{
    let n = db.tokens.len();
    for i in 0..n
        invariant
            n == db.tokens.len(),
            db.tokens@.no_duplicates(),
            forall|j: int| 0 <= j < i ==> db.tokens@[j] != a,
    {
        if db.tokens[i] == a {
            proof {
                assert(db.tokens@[i as int] == a);
                assert(db.tokens@.contains(a));
                let k = db.tokens@.index_of(a);
                assert(0 <= k < db.tokens@.len() && db.tokens@[k] == a);
                assert(k == i);
            }
            return Some(i);
        }
    }
    None
}

/// The edges whose venue address is on the changed list, in index order.
pub fn changed_edges(db: &Database, changed: &Vec<Address>) -> (r: Vec<usize>)
    ensures
        forall|i: int| 0 <= i < r.len() ==> #[trigger] r[i] < db.pools.len() && changed@.contains(db.pools@[r[i] as int].address),
        forall|i: int, j: int| 0 <= i < j < r.len() ==> r[i] < r[j],
        forall|e: int| 0 <= e < db.pools.len() && changed@.contains(#[trigger] db.pools@[e].address) ==>
            r@.contains(e as usize),
{
    let mut r: Vec<usize> = Vec::new();
    let n = db.pools.len();
    for e in 0..n
        invariant
            n == db.pools.len(),
            forall|i: int| 0 <= i < r.len() ==> #[trigger] r[i] < e && changed@.contains(db.pools@[r[i] as int].address),
            forall|i: int, j: int| 0 <= i < j < r.len() ==> r[i] < r[j],
            forall|x: int| 0 <= x < e && changed@.contains(#[trigger] db.pools@[x].address) ==> r@.contains(x as usize),
    {
        if list_contains(changed, db.pools[e].address) {
            let ghost before = r@;
            r.push(e);
            proof {
                assert forall|x: int| 0 <= x < e + 1 && changed@.contains(#[trigger] db.pools@[x].address) implies r@.contains(x as usize) by {
                    if x < e {
                        let j = choose|j: int| 0 <= j < before.len() && before[j] == x as usize;
                        assert(r@[j] == x as usize);
                    } else {
                        assert(r@[r.len() - 1] == e);
                    }
                }
            }
        }
    }
    r
}

/// The edges `es` after each `ix[k]` in turn gets weight `ws[k]`.
pub open spec fn with_weights(es: Seq<(usize, usize, u64)>, ix: Seq<usize>, ws: Seq<u64>) -> Seq<(usize, usize, u64)>
    decreases ix.len(),
{
    if ix.len() == 0 || ws.len() == 0 {
        es
    } else {
        let p = with_weights(es, ix.drop_last(), ws.drop_last());
        let e = ix.last() as int;
        p.update(e, (p[e].0, p[e].1, ws.last()))
    }
}

impl PriceGraph {
    /// Overwrites the weight of each listed edge with its new rate, in list
    /// order; nodes and endpoints stay as they are.
    pub fn update_weights(&mut self, edges: &Vec<usize>, weights: &Vec<u64>)
        requires
            edges.len() == weights.len(),
            old(self).edges().len() <= u32::MAX,
            forall|i: int| 0 <= i < edges.len() ==> #[trigger] edges[i] < old(self).edges().len(),
        ensures
            final(self).nodes() == old(self).nodes(),
            final(self).edges() == with_weights(old(self).edges(), edges@, weights@),
            final(self).edges().len() == old(self).edges().len(),
            old(self).edges_in_range() ==> final(self).edges_in_range(),
    {
        let n = edges.len();
        for k in 0..n
            invariant
                n == edges.len(),
                n == weights.len(),
                forall|i: int| 0 <= i < edges.len() ==> #[trigger] edges[i] < old(self).edges().len(),
                old(self).edges().len() <= u32::MAX,
                self.nodes() == old(self).nodes(),
                self.edges() == with_weights(old(self).edges(), edges@.subrange(0, k as int), weights@.subrange(0, k as int)),
                self.edges().len() == old(self).edges().len(),
                forall|e: int| 0 <= e < self.edges().len() ==>
                    (#[trigger] self.edges()[e]).0 == old(self).edges()[e].0 && self.edges()[e].1 == old(self).edges()[e].1,
        {
            proof {
                assert(edges@.subrange(0, k + 1 as int).drop_last() =~= edges@.subrange(0, k as int));
                assert(weights@.subrange(0, k + 1 as int).drop_last() =~= weights@.subrange(0, k as int));
            }
            graph_set_weight(&mut self.0, edges[k], weights[k]);
        }
        proof {
            assert(edges@.subrange(0, n as int) =~= edges@);
            assert(weights@.subrange(0, n as int) =~= weights@);
        }
    }
}

/// The hop from step `a` to step `b`: the tokens of the two nodes, and the
/// router and fee tier of the venue of the edge taken.
pub open spec fn hop_at(tokens: Seq<Address>, pools: Seq<EdgeVenue>, a: (usize, Option<usize>), b: (usize, Option<usize>)) -> ArbHop {
    let v = pools[b.1.unwrap() as int];
    ArbHop { router_address: v.router, token_in: tokens[a.0 as int], token_out: tokens[b.0 as int], fee: v.fee }
}

/// Every node of the path has a token and every edge after the first step
/// has a venue.
pub open spec fn resolvable(tokens: Seq<Address>, pools: Seq<EdgeVenue>, p: Seq<(usize, Option<usize>)>) -> bool {
    &&& forall|k: int| 0 <= k < p.len() ==> (#[trigger] p[k]).0 < tokens.len()
    &&& forall|k: int| 1 <= k < p.len() ==> (#[trigger] p[k]).1 is Some && (p[k].1.unwrap() as int) < pools.len()
}

/// The hops of a path, one per pair of consecutive steps.
pub open spec fn hops_of(tokens: Seq<Address>, pools: Seq<EdgeVenue>, p: Seq<(usize, Option<usize>)>) -> Seq<ArbHop> {
    if p.len() == 0 {
        seq![]
    } else {
        Seq::new((p.len() - 1) as nat, |k: int| hop_at(tokens, pools, p[k], p[k + 1]))
    }
}

} // verus!
