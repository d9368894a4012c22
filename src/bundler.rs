//! The decisions around submission: the profitability gate over a bundle's
//! simulation report, and the sender's sequence counter.
use vstd::prelude::*;

verus! {

/// What the relay's simulation reports of one transaction of a bundle.
#[derive(Clone, Copy, Debug, PartialEq, Eq, Structural)]
pub struct SimReport {
    /// Gas the transaction used.
    pub gas_used: u64,
    /// Value paid to the block proposer, in wei.
    pub coinbase_tip: u128,
    /// The simulation reported an execution error.
    pub has_error: bool,
    /// The simulation reported a revert.
    pub reverted: bool,
}

/// Why a bundle was not sent, with the position of the transaction at fault.
#[derive(Clone, Copy, Debug, PartialEq, Eq, Structural)]
pub enum GateError {
    SimulationError(usize),
    SimulationRevert(usize),
    NotProfitable(usize),
}

/// A transaction pays: the revenue kept, `tip * (256 - pct) / pct`, exceeds
/// the gas cost `gas_used * gas_price` (both in wei).
pub open spec fn tx_profitable(r: SimReport, percentage: u8, gas_price: u64) -> bool {
    r.coinbase_tip as int * (256 - percentage as int)
        > r.gas_used as int * gas_price as int * percentage as int
}

/// The verdict on the transaction at position `i`.
pub open spec fn tx_verdict(r: SimReport, i: usize, percentage: u8, gas_price: u64) -> Result<(), GateError> {
    if r.has_error {
        Err(GateError::SimulationError(i))
    } else if r.reverted {
        Err(GateError::SimulationRevert(i))
    } else if !tx_profitable(r, percentage, gas_price) {
        Err(GateError::NotProfitable(i))
    } else {
        Ok(())
    }
}

/// The verdict on a bundle: that of its first transaction at fault, if any.
pub open spec fn bundle_verdict(reports: Seq<SimReport>, percentage: u8, gas_price: u64) -> Result<(), GateError>
    decreases reports.len(),
{
    if reports.len() == 0 {
        Ok(())
    } else {
        match bundle_verdict(reports.drop_last(), percentage, gas_price) {
            Err(e) => Err(e),
            Ok(()) => tx_verdict(reports.last(), (reports.len() - 1) as usize, percentage, gas_price),
        }
    }
}

/// `a * m` as `hi * 256 + lo` with `lo < 256`, for `m <= 256`.
fn mul_small(a: u128, m: u128) -> (r: (u128, u128))
    requires
        m <= 256,
    ensures
        r.0 as int * 256 + r.1 as int == a as int * m as int,
        r.1 < 256,
{
    let a1 = a / 256;
    let a0 = a % 256;
    proof {
        assert(a1 <= 0xff_ffff_ffff_ffff_ffff_ffff_ffff_ffff);
        vstd::arithmetic::mul::lemma_mul_upper_bound(a1 as int, 0xff_ffff_ffff_ffff_ffff_ffff_ffff_ffff, m as int, 256);
        assert(a0 * m < 65536) by (nonlinear_arith)
            requires a0 < 256, m <= 256;
    }
    let x = a1 * m;
    let y = a0 * m;
    let hi = x + y / 256;
    let lo = y % 256;
    proof {
        assert(hi * 256 + lo == a * m) by (nonlinear_arith)
            requires
                a == a1 * 256 + a0,
                x == a1 * m,
                y == a0 * m,
                hi == x + y / 256,
                lo == y % 256,
        ;
    }
    (hi, lo)
}

/// Whether `lhs <= rhs`, both given as `hi * 256 + lo` with `lo < 256`.
fn wide_le(l: (u128, u128), r: (u128, u128)) -> (b: bool)
    requires
        l.1 < 256,
        r.1 < 256,
    ensures
        b == (l.0 as int * 256 + l.1 as int <= r.0 as int * 256 + r.1 as int),
{
    proof {
        if l.0 < r.0 {
            assert(l.0 as int * 256 + l.1 < r.0 as int * 256 + r.1) by (nonlinear_arith)
                requires l.0 < r.0, l.1 < 256;
        } else if l.0 > r.0 {
            assert(l.0 as int * 256 + l.1 > r.0 as int * 256 + r.1) by (nonlinear_arith)
                requires l.0 > r.0, r.1 < 256;
        }
    }
    l.0 < r.0 || (l.0 == r.0 && l.1 <= r.1)
}

/// Checks a bundle's simulation before it is sent: each transaction in turn
/// must report no execution error, no revert, and a revenue kept (after the
/// validator's `percentage`/256 share) above its gas cost.
pub fn check_bundle(reports: &Vec<SimReport>, percentage: u8, gas_price: u64) -> (r: Result<(), GateError>)
    ensures
        r == bundle_verdict(reports@, percentage, gas_price),
{
    let n = reports.len();
    for i in 0..n
        invariant
            n == reports.len(),
            bundle_verdict(reports@.subrange(0, i as int), percentage, gas_price) is Ok,
    {
        proof {
            assert(reports@.subrange(0, i + 1).drop_last() =~= reports@.subrange(0, i as int));
        }
        let rep = reports[i];
        if rep.has_error {
            proof { lemma_verdict_stays(reports@, (i + 1) as nat, percentage, gas_price); }
            return Err(GateError::SimulationError(i));
        }
        if rep.reverted {
            proof { lemma_verdict_stays(reports@, (i + 1) as nat, percentage, gas_price); }
            return Err(GateError::SimulationRevert(i));
        }
        proof {
            assert(rep.gas_used as nat * gas_price as nat <= 0xffff_ffff_ffff_ffff * 0xffff_ffff_ffff_ffff) by (nonlinear_arith)
                requires rep.gas_used <= 0xffff_ffff_ffff_ffff, gas_price <= 0xffff_ffff_ffff_ffff;
        }
        let cost = rep.gas_used as u128 * gas_price as u128;
        let revenue = mul_small(rep.coinbase_tip, 256 - percentage as u128);
        let spent = mul_small(cost, percentage as u128);
        if wide_le(revenue, spent) {
            proof { lemma_verdict_stays(reports@, (i + 1) as nat, percentage, gas_price); }
            return Err(GateError::NotProfitable(i));
        }
    }
    proof {
        assert(reports@.subrange(0, n as int) =~= reports@);
    }
    Ok(())
}

/// A verdict of failure on a prefix is the verdict on the whole bundle.
proof fn lemma_verdict_stays(s: Seq<SimReport>, k: nat, percentage: u8, gas_price: u64)
    requires
        k <= s.len(),
    ensures
        bundle_verdict(s.subrange(0, k as int), percentage, gas_price) is Err ==>
            bundle_verdict(s, percentage, gas_price) == bundle_verdict(s.subrange(0, k as int), percentage, gas_price),
    decreases s.len() - k,
{
    if k < s.len() {
        lemma_verdict_stays(s, k + 1, percentage, gas_price);
        assert(s.subrange(0, k + 1 as int).drop_last() =~= s.subrange(0, k as int));
    } else {
        assert(s.subrange(0, k as int) =~= s);
    }
}

/// The sender's sequence counter: each transaction takes the current value
/// and advances it; a failed submission hands its value back.
#[derive(Clone, Copy, Debug, PartialEq, Eq, Structural)]
pub struct NonceCounter {
    pub nonce: u64,
}

impl NonceCounter {
    /// A counter that hands out `nonce` first.
    pub fn new(nonce: u64) -> (r: NonceCounter)
        ensures
            r.nonce == nonce,
    {
        NonceCounter { nonce }
    }

    /// Takes the current value and advances the counter; `None`, with the
    /// counter unchanged, once it is exhausted.
    pub fn take(&mut self) -> (r: Option<u64>)
        ensures
            old(self).nonce < u64::MAX ==> r == Some(old(self).nonce) && final(self).nonce == old(self).nonce + 1,
            old(self).nonce == u64::MAX ==> r is None && *final(self) == *old(self),
    {
        if self.nonce == u64::MAX {
            None
        } else {
            let n = self.nonce;
            self.nonce = n + 1;
            Some(n)
        }
    }

    /// Moves the counter back by one so that the next transaction reuses the
    /// slot of a failed one; `false`, with the counter unchanged, at zero.
    pub fn roll_back(&mut self) -> (r: bool)
        ensures
            old(self).nonce > 0 ==> r && final(self).nonce == old(self).nonce - 1,
            old(self).nonce == 0 ==> !r && *final(self) == *old(self),
    {
        if self.nonce == 0 {
            false
        } else {
            self.nonce = self.nonce - 1;
            true
        }
    }
}

} // verus!
