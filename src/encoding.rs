//! The wire encoding of a trade: the packed header and the compressed route.
use vstd::prelude::*;
use crate::types::{Address, ArbHop, FlashLoan, V3Data, flash_loan_code, flash_loan_of_code};

verus! {

/// Two to the power of 112: amounts are split at this bit between the limbs.
pub const AMOUNT_SPLIT: u128 = 0x1_0000_0000_0000_0000_0000_0000_0000;

/// A 256-bit header as two 128-bit limbs: `hi * 2^128 + lo`.
#[derive(Clone, Copy, Debug, PartialEq, Eq, Structural)]
pub struct Header {
    pub hi: u128,
    pub lo: u128,
}

impl Header {
    /// The header as one number.
    pub open spec fn value(self) -> nat {
        self.hi as nat * (u128::MAX as nat + 1) + self.lo as nat
    }
}

/// The number that packs an amount, a payment percentage and a funding mode:
/// `(amount << 16) | (percentage << 8) | mode`.
pub open spec fn header_value(amount: nat, percentage: u8, mode: FlashLoan) -> nat {
    amount * 65536 + percentage as nat * 256 + flash_loan_code(mode) as nat
}

/// Packs the header of a trade: the amount in the high bits, the validator
/// payment percentage in the next byte, the funding mode in the lowest byte.
pub fn pack_header(amount: u128, percentage: u8, mode: FlashLoan) -> (r: Header)
    ensures
        r.value() == header_value(amount as nat, percentage, mode),
        r.hi < 65536,
{
    let code = mode.code();
    let rest = amount % AMOUNT_SPLIT;
    let hi = amount / AMOUNT_SPLIT;
    proof {
        assert(rest < AMOUNT_SPLIT);
        assert(rest * 65536 + percentage * 256 + code < (u128::MAX as nat + 1))
            by (nonlinear_arith)
            requires
                rest < AMOUNT_SPLIT,
                percentage < 256,
                code < 256,
        ;
        assert(hi < 65536) by (nonlinear_arith)
            requires
                hi == amount / AMOUNT_SPLIT,
                amount < (u128::MAX as nat + 1),
        ;
    }
    let lo = rest * 65536 + (percentage as u128) * 256 + code as u128;
    proof {
        vstd::arithmetic::div_mod::lemma_fundamental_div_mod(amount as int, AMOUNT_SPLIT as int);
        assert(hi * (u128::MAX as nat + 1) + rest * 65536
            == amount * 65536) by (nonlinear_arith)
            requires
                amount == AMOUNT_SPLIT * hi + rest,
                AMOUNT_SPLIT == 0x1_0000_0000_0000_0000_0000_0000_0000,
        ;
    }
    Header { hi, lo }
}

/// The header read back: the amount, percentage and mode that
/// `header_value` maps to `v`, when the amount fits 128 bits and the mode
/// byte names a mode.
pub open spec fn header_fields(v: nat) -> Option<(u128, u8, FlashLoan)> {
    let amount = v / 65536;
    let percentage = (v / 256) % 256;
    let code = (v % 256) as int;
    if amount <= u128::MAX && flash_loan_of_code(code).is_some() {
        Some((amount as u128, percentage as u8, flash_loan_of_code(code).unwrap()))
    } else {
        None
    }
}

/// Unpacks a header into amount, percentage and mode; `None` when the amount
/// does not fit 128 bits or the mode byte names no mode.
pub fn unpack_header(h: Header) -> (r: Option<(u128, u8, FlashLoan)>)
    ensures
        r == header_fields(h.value()),
{
    let code = (h.lo % 256) as u8;
    let percentage = ((h.lo / 256) % 256) as u8;
    let low_amount = h.lo / 65536;
    let ghost v = h.value();
    proof {
        assert(v % 256 == h.lo % 256) by (nonlinear_arith)
            requires v == h.hi * (u128::MAX as nat + 1) + h.lo;
        assert((v / 256) % 256 == (h.lo / 256) % 256) by (nonlinear_arith)
            requires v == h.hi * (u128::MAX as nat + 1) + h.lo;
        assert(v / 65536 == h.hi * AMOUNT_SPLIT + h.lo / 65536) by (nonlinear_arith)
            requires
                v == h.hi * (u128::MAX as nat + 1) + h.lo,
                AMOUNT_SPLIT == 0x1_0000_0000_0000_0000_0000_0000_0000,
        ;
        assert(h.lo / 65536 < AMOUNT_SPLIT) by (nonlinear_arith)
            requires
                h.lo < (u128::MAX as nat + 1),
                AMOUNT_SPLIT == 0x1_0000_0000_0000_0000_0000_0000_0000,
        ;
    }
    let mode = FlashLoan::from_code(code);
    if h.hi >= 65536 {
        proof {
            assert(v / 65536 > u128::MAX) by (nonlinear_arith)
                requires
                    v / 65536 == h.hi * AMOUNT_SPLIT + h.lo / 65536,
                    h.hi >= 65536,
                    AMOUNT_SPLIT == 0x1_0000_0000_0000_0000_0000_0000_0000,
            ;
        }
        return None;
    }
    match mode {
        None => None,
        Some(m) => {
            let amount = h.hi * AMOUNT_SPLIT + low_amount;
            Some((amount, percentage, m))
        },
    }
}

/// Packing then unpacking a header gives back its three fields.
pub proof fn lemma_header_round_trip(amount: u128, percentage: u8, mode: FlashLoan)
    ensures
        header_fields(header_value(amount as nat, percentage, mode))
            == Some((amount, percentage, mode)),
{
    let c = flash_loan_code(mode) as nat;
    let v = header_value(amount as nat, percentage, mode);
    assert(v / 65536 == amount && (v / 256) % 256 == percentage && v % 256 == c)
        by (nonlinear_arith)
        requires
            v == amount * 65536 + percentage * 256 + c,
            percentage < 256,
            c < 3,
    ;
}

/// The `n` low bytes of `x`, most significant first.
pub open spec fn be_bytes(x: nat, n: nat) -> Seq<u8>
    decreases n,
{
    if n == 0 {
        seq![]
    } else {
        be_bytes(x / 256, (n - 1) as nat).push((x % 256) as u8)
    }
}

/// The twenty bytes of an address, most significant first.
pub open spec fn address_bytes(a: Address) -> Seq<u8> {
    be_bytes(a.high as nat, 4) + be_bytes(a.low as nat, 16)
}

/// The packed form of one route item: twenty address bytes for a token,
/// three big-endian bytes for a fee tier.
pub open spec fn item_bytes(d: V3Data) -> Seq<u8> {
    match d {
        V3Data::Token(a) => address_bytes(a),
        V3Data::Fee(f) => be_bytes(f as nat, 3),
    }
}

/// The items of a route packed tightly, one after another.
pub open spec fn packed_bytes(s: Seq<V3Data>) -> Seq<u8>
    decreases s.len(),
{
    if s.len() == 0 {
        seq![]
    } else {
        packed_bytes(s.drop_last()) + item_bytes(s.last())
    }
}

/// A fee tier fits the three bytes that the wire format gives it.
pub open spec fn fee_fits(d: V3Data) -> bool {
    match d {
        V3Data::Fee(f) => f < 0x100_0000,
        V3Data::Token(_) => true,
    }
}

/// Every fee tier of the route fits three bytes.
pub open spec fn fees_fit(s: Seq<V3Data>) -> bool {
    forall|i: int| 0 <= i < s.len() ==> #[trigger] fee_fits(s[i])
}

/// Appends the `n` low bytes of `x` to `out`, most significant first.
fn push_be_bytes(out: &mut Vec<u8>, x: u128, n: usize)
    ensures
        final(out)@ == old(out)@ + be_bytes(x as nat, n as nat),
    decreases n,
{
    if n > 0 {
        push_be_bytes(out, x / 256, n - 1);
        out.push((x % 256) as u8);
        proof {
            let a = old(out)@;
            let b = be_bytes((x / 256) as nat, (n - 1) as nat);
            assert((a + b).push((x % 256) as u8) =~= a + b.push((x % 256) as u8));
        }
    } else {
        proof {
            assert(old(out)@ + be_bytes(x as nat, 0) =~= old(out)@);
        }
    }
}

/// Packs a concentrated-liquidity route into bytes: each token as its twenty
/// address bytes, each fee tier as three big-endian bytes.
pub fn generate_v3_bytecode(v3hops: &Vec<V3Data>) -> (r: Vec<u8>)
    requires
        fees_fit(v3hops@),
    ensures
        r@ == packed_bytes(v3hops@),
{
    let mut out: Vec<u8> = Vec::new();
    let n = v3hops.len();
    for i in 0..n
        invariant
            n == v3hops.len(),
            out@ == packed_bytes(v3hops@.subrange(0, i as int)),
    {
        proof {
            assert(v3hops@.subrange(0, i + 1).drop_last() =~= v3hops@.subrange(0, i as int));
        }
        match v3hops[i] {
            V3Data::Token(a) => {
                push_be_bytes(&mut out, a.high as u128, 4);
                push_be_bytes(&mut out, a.low, 16);
                proof {
                    let p = packed_bytes(v3hops@.subrange(0, i as int));
                    assert(p + be_bytes(a.high as nat, 4) + be_bytes(a.low as nat, 16)
                        =~= p + address_bytes(a));
                }
            },
            V3Data::Fee(f) => {
                push_be_bytes(&mut out, f as u128, 3);
            },
        }
    }
    proof {
        assert(v3hops@.subrange(0, n as int) =~= v3hops@);
    }
    out
}

/// The route with each run of equal neighbouring items kept once: the
/// boundary token shared by two consecutive hops appears a single time.
pub open spec fn dedup(s: Seq<V3Data>) -> Seq<V3Data>
    decreases s.len(),
{
    if s.len() <= 1 {
        s
    } else if s[s.len() - 1] == s[s.len() - 2] {
        dedup(s.drop_last())
    } else {
        dedup(s.drop_last()).push(s.last())
    }
}

proof fn lemma_dedup_last(s: Seq<V3Data>)
    requires
        s.len() >= 1,
    ensures
        dedup(s).len() >= 1,
        dedup(s).last() == s.last(),
    decreases s.len(),
{
    if s.len() > 1 {
        lemma_dedup_last(s.drop_last());
    }
}

/// Merges consecutive hops that share a boundary token:
/// `A, fee1, B, B, fee2, C` becomes `A, fee1, B, fee2, C`.
pub fn concat_v3_hops(v3hops: &Vec<V3Data>) -> (r: Vec<V3Data>)
    requires
        v3hops.len() >= 1,
    ensures
        r@ == dedup(v3hops@),
{
    let mut result: Vec<V3Data> = Vec::new();
    result.push(v3hops[0]);
    let n = v3hops.len();
    proof {
        assert(v3hops@.subrange(0, 1) =~= seq![v3hops@[0]]);
        assert(result@ =~= v3hops@.subrange(0, 1));
    }
    for i in 1..n
        invariant
            n == v3hops.len(),
            result@ == dedup(v3hops@.subrange(0, i as int)),
    {
        let ghost pre = v3hops@.subrange(0, i as int);
        let ghost cur = v3hops@.subrange(0, i + 1);
        proof {
            assert(cur.drop_last() =~= pre);
            lemma_dedup_last(pre);
        }
        let last = result.len() - 1;
        if v3hops[i] != result[last] {
            result.push(v3hops[i]);
        }
    }
    proof {
        assert(v3hops@.subrange(0, n as int) =~= v3hops@);
    }
    result
}

proof fn lemma_dedup_fees(s: Seq<V3Data>)
    requires
        fees_fit(s),
    ensures
        fees_fit(dedup(s)),
    decreases s.len(),
{
    if s.len() > 1 {
        let p = s.drop_last();
        assert forall|i: int| 0 <= i < p.len() implies #[trigger] fee_fits(p[i]) by {
            assert(p[i] == s[i]);
        }
        lemma_dedup_fees(p);
        let d = dedup(p);
        assert(fee_fits(s[s.len() - 1]));
        assert forall|i: int| 0 <= i < dedup(s).len() implies #[trigger] fee_fits(dedup(s)[i]) by {
            if i < d.len() {
                assert(dedup(s)[i] == d[i]);
            }
        }
    }
}

/// Merging leaves no two equal neighbours in a route.
pub proof fn lemma_dedup_no_equal_neighbours(s: Seq<V3Data>)
    ensures
        forall|i: int| 1 <= i < dedup(s).len() ==> #[trigger] dedup(s)[i] != dedup(s)[i - 1],
    decreases s.len(),
{
    if s.len() > 1 {
        let p = s.drop_last();
        lemma_dedup_no_equal_neighbours(p);
        lemma_dedup_last(p);
        let d = dedup(p);
        assert forall|i: int| 1 <= i < dedup(s).len() implies #[trigger] dedup(s)[i] != dedup(s)[i - 1] by {
            if i < d.len() {
                assert(dedup(s)[i] == d[i] && dedup(s)[i - 1] == d[i - 1]);
            } else {
                assert(dedup(s)[i - 1] == d.last());
                assert(d.last() == p.last());
            }
        }
    }
}

/// The concentrated-liquidity items of a hop list, three per such hop:
/// input token, fee tier, output token.
pub open spec fn v3_items(hops: Seq<ArbHop>) -> Seq<V3Data>
    decreases hops.len(),
{
    if hops.len() == 0 {
        seq![]
    } else {
        let p = v3_items(hops.drop_last());
        let h = hops.last();
        match h.fee {
            Some(f) => p + seq![V3Data::Token(h.token_in), V3Data::Fee(f), V3Data::Token(h.token_out)],
            None => p,
        }
    }
}

/// The items of one concentrated-liquidity hop: input token, fee tier,
/// output token.
pub open spec fn hop_items(h: ArbHop) -> Seq<V3Data> {
    seq![V3Data::Token(h.token_in), V3Data::Fee(h.fee.unwrap()), V3Data::Token(h.token_out)]
}

/// Hop `i` opens a concentrated-liquidity group: it is such a hop, and it is
/// the first hop, or follows a two-asset hop, or uses another router than the
/// hop before it. Each group goes through one venue's router only.
pub open spec fn opens_group(hops: Seq<ArbHop>, i: int) -> bool {
    &&& hops[i].fee is Some
    &&& (i == 0 || hops[i - 1].fee is None || hops[i - 1].router_address != hops[i].router_address)
}

/// The concentrated-liquidity groups of a hop list, in traversal order: the
/// items of each maximal run of consecutive concentrated-liquidity hops
/// through one router. A two-asset hop always ends a group.
pub open spec fn v3_groups(hops: Seq<ArbHop>) -> Seq<Seq<V3Data>>
    decreases hops.len(),
{
    if hops.len() == 0 {
        seq![]
    } else {
        let p = v3_groups(hops.drop_last());
        let i = hops.len() - 1;
        if hops[i].fee is None {
            p
        } else if opens_group(hops, i) {
            p.push(hop_items(hops[i]))
        } else {
            p.update(p.len() - 1, p.last() + hop_items(hops[i]))
        }
    }
}

/// The protocol flags of a hop list, in traversal order: `true` for each
/// concentrated-liquidity group, `false` for each two-asset hop.
pub open spec fn protocol_flags(hops: Seq<ArbHop>) -> Seq<bool>
    decreases hops.len(),
{
    if hops.len() == 0 {
        seq![]
    } else {
        let p = protocol_flags(hops.drop_last());
        let i = hops.len() - 1;
        if hops[i].fee is None {
            p.push(false)
        } else if opens_group(hops, i) {
            p.push(true)
        } else {
            p
        }
    }
}

/// The router of each concentrated-liquidity group.
pub open spec fn v3_routers(hops: Seq<ArbHop>) -> Seq<Address>
    decreases hops.len(),
{
    if hops.len() == 0 {
        seq![]
    } else {
        let p = v3_routers(hops.drop_last());
        let i = hops.len() - 1;
        if opens_group(hops, i) {
            p.push(hops[i].router_address)
        } else {
            p
        }
    }
}

/// The input and output token of each two-asset hop, flattened.
pub open spec fn v2_tokens(hops: Seq<ArbHop>) -> Seq<Address>
    decreases hops.len(),
{
    if hops.len() == 0 {
        seq![]
    } else {
        let p = v2_tokens(hops.drop_last());
        let h = hops.last();
        if h.fee is Some {
            p
        } else {
            p.push(h.token_in).push(h.token_out)
        }
    }
}

/// The router of each two-asset hop.
pub open spec fn v2_routers(hops: Seq<ArbHop>) -> Seq<Address>
    decreases hops.len(),
{
    if hops.len() == 0 {
        seq![]
    } else {
        let p = v2_routers(hops.drop_last());
        let h = hops.last();
        if h.fee is Some {
            p
        } else {
            p.push(h.router_address)
        }
    }
}

/// The number of `true` flags.
pub open spec fn count_true(s: Seq<bool>) -> nat
    decreases s.len(),
{
    if s.len() == 0 {
        0
    } else {
        count_true(s.drop_last()) + if s.last() { 1nat } else { 0nat }
    }
}

/// Every concentrated-liquidity hop has a fee tier that fits three bytes.
pub open spec fn hop_fees_fit(hops: Seq<ArbHop>) -> bool {
    forall|i: int| 0 <= i < hops.len() ==> (#[trigger] hops[i].fee matches Some(f) ==> f < 0x100_0000)
}

/// The byte blobs of a hop list: one per concentrated-liquidity group, its
/// items merged at shared boundary tokens and packed.
pub open spec fn v3_blobs(hops: Seq<ArbHop>) -> Seq<Seq<u8>> {
    v3_groups(hops).map_values(|g: Seq<V3Data>| packed_bytes(dedup(g)))
}

/// The arguments of the execution contract's trade call.
pub struct TradeCall {
    pub header: Header,
    pub protocols: Vec<bool>,
    pub v3_data: Vec<Vec<u8>>,
    pub v3_routers: Vec<Address>,
    pub v2_tokens: Vec<Address>,
    pub v2_routers: Vec<Address>,
}

/// There is one group per `true` flag, and a list that ends in a
/// concentrated-liquidity hop has a group.
pub proof fn lemma_one_group_per_true_flag(hops: Seq<ArbHop>)
    ensures
        v3_groups(hops).len() == count_true(protocol_flags(hops)),
        hops.len() > 0 && hops.last().fee is Some ==> v3_groups(hops).len() >= 1,
    decreases hops.len(),
{
    if hops.len() > 0 {
        let p = hops.drop_last();
        lemma_one_group_per_true_flag(p);
        let i = hops.len() - 1;
        if hops[i].fee is Some && !opens_group(hops, i) {
            assert(p.last() == hops[i - 1]);
        }
        let f = protocol_flags(hops);
        if hops[i].fee is None || opens_group(hops, i) {
            assert(f.drop_last() =~= protocol_flags(p));
        }
    }
}

/// Every group is non-empty, and its fee tiers fit three bytes when every
/// hop's does.
pub proof fn lemma_groups_well_formed(hops: Seq<ArbHop>)
    requires
        hop_fees_fit(hops),
    ensures
        forall|k: int| 0 <= k < v3_groups(hops).len() ==>
            fees_fit(#[trigger] v3_groups(hops)[k]) && v3_groups(hops)[k].len() >= 1,
    decreases hops.len(),
{
    if hops.len() > 0 {
        let p = hops.drop_last();
        assert forall|i: int| 0 <= i < p.len() implies (#[trigger] p[i].fee matches Some(f) ==> f < 0x100_0000) by {
            assert(p[i] == hops[i]);
        }
        lemma_groups_well_formed(p);
        lemma_one_group_per_true_flag(p);
        let i = hops.len() - 1;
        let g = v3_groups(p);
        if hops[i].fee is Some {
            let t = hop_items(hops[i]);
            assert(hops[i].fee matches Some(f) ==> f < 0x100_0000);
            assert(fees_fit(t)) by {
                assert forall|j: int| 0 <= j < t.len() implies #[trigger] fee_fits(t[j]) by {}
            }
            assert forall|k: int| 0 <= k < v3_groups(hops).len() implies
                fees_fit(#[trigger] v3_groups(hops)[k]) && v3_groups(hops)[k].len() >= 1 by {
                if k < g.len() && (opens_group(hops, i) || k < g.len() - 1) {
                    assert(v3_groups(hops)[k] == g[k]);
                } else if opens_group(hops, i) {
                    assert(v3_groups(hops)[k] == t);
                } else {
                    assert(p.last() == hops[i - 1]);
                    assert(g.len() >= 1 && k == g.len() - 1);
                    let c = g[k] + t;
                    assert(v3_groups(hops)[k] == c);
                    assert forall|j: int| 0 <= j < c.len() implies #[trigger] fee_fits(c[j]) by {
                        if j < g[k].len() {
                            assert(c[j] == g[k][j]);
                        } else {
                            assert(c[j] == t[j - g[k].len()]);
                        }
                    }
                }
            }
        }
    }
}

/// The groups, put back together, are all the concentrated-liquidity items
/// of the hop list in order: grouping loses and reorders nothing.
pub proof fn lemma_groups_rejoin(hops: Seq<ArbHop>)
    ensures
        v3_groups(hops).flatten() == v3_items(hops),
    decreases hops.len(),
{
    if hops.len() > 0 {
        let p = hops.drop_last();
        lemma_groups_rejoin(p);
        lemma_one_group_per_true_flag(p);
        let i = hops.len() - 1;
        let g = v3_groups(p);
        assert(hops.last() == hops[i]);
        if let Some(f) = hops[i].fee {
            let t = hop_items(hops[i]);
            assert(t =~= seq![V3Data::Token(hops[i].token_in), V3Data::Fee(f), V3Data::Token(hops[i].token_out)]);
            if opens_group(hops, i) {
                g.lemma_flatten_push(t);
            } else {
                assert(p.last() == hops[i - 1]);
                assert(g.len() >= 1);
                let u = g.drop_last();
                let c = g.last();
                assert(g =~= u.push(c));
                u.lemma_flatten_push(c);
                assert(g.update(g.len() - 1, c + t) =~= u.push(c + t));
                u.lemma_flatten_push(c + t);
                assert(u.flatten() + (c + t) =~= (u.flatten() + c) + t);
            }
        }
    }
}

/// Splits the concentrated-liquidity hops of a hop list into groups (see
/// `v3_groups`): a group ends at a two-asset hop or where the router changes.
pub fn split_v3_hops(hops: &Vec<ArbHop>) -> (r: Vec<Vec<V3Data>>)
    ensures
        r.len() == v3_groups(hops@).len(),
        forall|k: int| 0 <= k < r.len() ==> #[trigger] r[k]@ == v3_groups(hops@)[k],
{
    let mut result: Vec<Vec<V3Data>> = Vec::new();
    let mut buf: Vec<V3Data> = Vec::new();
    let mut open = false;
    let n = hops.len();
    for i in 0..n
        invariant
            n == hops.len(),
            open == (i > 0 && hops@[i - 1].fee is Some),
            open ==> result.len() + 1 == v3_groups(hops@.subrange(0, i as int)).len()
                && buf@ == v3_groups(hops@.subrange(0, i as int)).last(),
            !open ==> result.len() == v3_groups(hops@.subrange(0, i as int)).len(),
            forall|k: int| 0 <= k < result.len() ==> #[trigger] result[k]@ == v3_groups(hops@.subrange(0, i as int))[k],
    {
        let ghost pre = hops@.subrange(0, i as int);
        let ghost cur = hops@.subrange(0, i + 1);
        proof {
            assert(cur.drop_last() =~= pre);
            assert(cur[i as int] == hops@[i as int]);
            if i > 0 {
                assert(cur[i - 1] == hops@[i - 1]);
            }
        }
        let hop = hops[i];
        match hop.fee {
            None => {
                if open {
                    result.push(buf);
                    buf = Vec::new();
                }
                open = false;
            },
            Some(f) => {
                let opens = i == 0 || hops[i - 1].fee.is_none() || hops[i - 1].router_address != hop.router_address;
                if opens {
                    if open {
                        result.push(buf);
                    }
                    buf = Vec::new();
                }
                buf.push(V3Data::Token(hop.token_in));
                buf.push(V3Data::Fee(f));
                buf.push(V3Data::Token(hop.token_out));
                proof {
                    let g = v3_groups(pre);
                    let t = hop_items(hop);
                    if opens {
                        assert(buf@ =~= t);
                    } else {
                        assert(buf@ =~= g.last() + t);
                    }
                }
                open = true;
            },
        }
    }
    if open {
        result.push(buf);
    }
    proof {
        assert(hops@.subrange(0, n as int) =~= hops@);
    }
    result
}

/// Builds the arguments of the trade call for a hop list: the packed header,
/// the protocol flags, one packed blob and one router per
/// concentrated-liquidity group, and the two-asset tokens and routers.
pub fn encode_trade(hops: &Vec<ArbHop>, amount_in: u128, flashloan: FlashLoan, percentage: u8) -> (r: TradeCall)
    requires
        hop_fees_fit(hops@),
    ensures
        r.header.value() == header_value(amount_in as nat, percentage, flashloan),
        r.protocols@ == protocol_flags(hops@),
        r.v3_routers@ == v3_routers(hops@),
        r.v2_tokens@ == v2_tokens(hops@),
        r.v2_routers@ == v2_routers(hops@),
        r.v3_data.len() == v3_blobs(hops@).len(),
        r.v3_data.len() == count_true(r.protocols@),
        forall|k: int| 0 <= k < r.v3_data.len() ==> #[trigger] r.v3_data[k]@ == v3_blobs(hops@)[k],
{
    let header = pack_header(amount_in, percentage, flashloan);
    let mut protocols: Vec<bool> = Vec::new();
    let mut v3_routers_out: Vec<Address> = Vec::new();
    let mut v2_tokens_out: Vec<Address> = Vec::new();
    let mut v2_routers_out: Vec<Address> = Vec::new();
    let n = hops.len();
    for i in 0..n
        invariant
            n == hops.len(),
            protocols@ == protocol_flags(hops@.subrange(0, i as int)),
            v3_routers_out@ == v3_routers(hops@.subrange(0, i as int)),
            v2_tokens_out@ == v2_tokens(hops@.subrange(0, i as int)),
            v2_routers_out@ == v2_routers(hops@.subrange(0, i as int)),
    {
        let ghost cur = hops@.subrange(0, i + 1);
        proof {
            assert(cur.drop_last() =~= hops@.subrange(0, i as int));
            assert(cur[i as int] == hops@[i as int]);
            if i > 0 {
                assert(cur[i - 1] == hops@[i - 1]);
            }
        }
        let hop = hops[i];
        match hop.fee {
            Some(_) => {
                if i == 0 || hops[i - 1].fee.is_none() || hops[i - 1].router_address != hop.router_address {
                    protocols.push(true);
                    v3_routers_out.push(hop.router_address);
                }
            },
            None => {
                protocols.push(false);
                v2_routers_out.push(hop.router_address);
                v2_tokens_out.push(hop.token_in);
                v2_tokens_out.push(hop.token_out);
            },
        }
    }
    proof {
        assert(hops@.subrange(0, n as int) =~= hops@);
        lemma_one_group_per_true_flag(hops@);
        lemma_groups_well_formed(hops@);
    }
    let groups = split_v3_hops(hops);
    let mut v3_data: Vec<Vec<u8>> = Vec::new();
    let m = groups.len();
    for k in 0..m
        invariant
            m == groups.len(),
            m == v3_groups(hops@).len(),
            forall|j: int| 0 <= j < m ==> #[trigger] groups[j]@ == v3_groups(hops@)[j],
            forall|j: int| 0 <= j < m ==>
                fees_fit(#[trigger] v3_groups(hops@)[j]) && v3_groups(hops@)[j].len() >= 1,
            v3_data.len() == k,
            forall|j: int| 0 <= j < k ==> #[trigger] v3_data[j]@ == v3_blobs(hops@)[j],
    {
        let ghost g = v3_groups(hops@)[k as int];
        assert(groups[k as int]@ == g);
        assert(fees_fit(g) && g.len() >= 1);
        let merged = concat_v3_hops(&groups[k]);
        proof {
            lemma_dedup_fees(g);
        }
        let blob = generate_v3_bytecode(&merged);
        v3_data.push(blob);
        proof {
            assert(v3_data[k as int]@ == v3_blobs(hops@)[k as int]);
        }
    }
    TradeCall {
        header,
        protocols,
        v3_data,
        v3_routers: v3_routers_out,
        v2_tokens: v2_tokens_out,
        v2_routers: v2_routers_out,
    }
}

} // verus!
