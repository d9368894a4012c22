//! Trade sizing: the probing optimizer as a step machine driven by simulated
//! outputs, the gas estimate, and the score of a sized path.
use vstd::prelude::*;

verus! {

/// The first input amount probed, in wei (0.1 of the settlement token).
pub const PROBE_BASE: u128 = 100_000_000_000_000_000;

/// The step between two probed input amounts, in wei.
pub const PROBE_STEP: u128 = 10_000_000_000_000_000;

/// The most outputs one optimization observes.
pub const MAX_PROBES: usize = 500;

/// The input amount of probe `k`.
pub open spec fn probe_amount(k: nat) -> nat {
    PROBE_BASE as nat + k * PROBE_STEP as nat
}

/// A sized trade: an input amount and the output it is simulated to give.
#[derive(Clone, Copy, Debug, PartialEq, Eq, Structural)]
pub struct TradeSize {
    pub amount_in: u128,
    pub amount_out: u128,
}

/// What the optimizer asks for next.
#[derive(Clone, Copy, Debug, PartialEq, Eq, Structural)]
pub enum ProbeStep {
    /// Simulate the path with this input amount and report the output.
    Probe(u128),
    /// Stop: the best (input, output) pair, or `None` for no viable trade.
    Finished(Option<TradeSize>),
}

/// The optimizer's decision after observing outputs `o` (output `k` is the
/// one for input `probe_amount(k)`): probe the first amount; give up when the
/// first output is zero; stop at the last probe before the output fell, or
/// at the probe bound; otherwise probe the next amount.
pub open spec fn probe_step(o: Seq<u128>) -> ProbeStep {
    let n = o.len();
    if n == 0 {
        ProbeStep::Probe(PROBE_BASE)
    } else if o[0] == 0 {
        ProbeStep::Finished(None)
    } else if n >= 2 && o[n - 1] < o[n - 2] {
        ProbeStep::Finished(Some(TradeSize { amount_in: probe_amount((n - 2) as nat) as u128, amount_out: o[n - 2] }))
    } else if n >= MAX_PROBES {
        ProbeStep::Finished(Some(TradeSize { amount_in: probe_amount((n - 1) as nat) as u128, amount_out: o[n - 1] }))
    } else {
        ProbeStep::Probe(probe_amount(n as nat) as u128)
    }
}

/// The probing optimizer: starting from a fixed input, it raises the input
/// by a fixed step while the simulated output does not fall, and reports the
/// best pair it saw.
pub struct Bettermizer {
    /// The outputs observed so far, one per probe, in probe order.
    pub seen: Vec<u128>,
}

impl Bettermizer {
    /// The invariant: the machine has not observed past its stopping point.
    pub open spec fn wf(&self) -> bool {
        &&& self.seen.len() <= MAX_PROBES
        &&& forall|m: nat| m < self.seen.len() ==> #[trigger] probe_step(self.seen@.take(m as int)) is Probe
    }

    /// A machine that has observed nothing yet.
    pub fn new() -> (r: Bettermizer)
        ensures
            r.seen@ == Seq::<u128>::empty(),
            r.wf(),
    {
        Bettermizer { seen: Vec::new() }
    }

    /// What the machine asks for next.
    pub fn next_step(&self) -> (r: ProbeStep)
        requires
            self.wf(),
        ensures
            r == probe_step(self.seen@),
    {
        let n = self.seen.len();
        if n == 0 {
            return ProbeStep::Probe(PROBE_BASE);
        }
        if self.seen[0] == 0 {
            return ProbeStep::Finished(None);
        }
        if n >= 2 && self.seen[n - 1] < self.seen[n - 2] {
            let k = (n - 2) as u128;
            return ProbeStep::Finished(Some(TradeSize { amount_in: PROBE_BASE + k * PROBE_STEP, amount_out: self.seen[n - 2] }));
        }
        if n >= MAX_PROBES {
            let k = (n - 1) as u128;
            return ProbeStep::Finished(Some(TradeSize { amount_in: PROBE_BASE + k * PROBE_STEP, amount_out: self.seen[n - 1] }));
        }
        let k = n as u128;
        ProbeStep::Probe(PROBE_BASE + k * PROBE_STEP)
    }

    /// Records the output of the probe that the machine asked for.
    pub fn observe(&mut self, output: u128)
        requires
            old(self).wf(),
            probe_step(old(self).seen@) is Probe,
        ensures
            final(self).seen@ == old(self).seen@.push(output),
            final(self).wf(),
    {
        let ghost before = self.seen@;
        self.seen.push(output);
        proof {
            assert forall|m: nat| m < self.seen.len() implies #[trigger] probe_step(self.seen@.take(m as int)) is Probe by {
                if m < before.len() {
                    assert(self.seen@.take(m as int) =~= before.take(m as int));
                } else {
                    assert(self.seen@.take(m as int) =~= before);
                }
            }
        }
    }
}

/// The outputs of the first `n` probes when the output at input `a` is `f(a)`.
pub open spec fn outputs_of(f: spec_fn(nat) -> u128, n: nat) -> Seq<u128> {
    Seq::new(n, |k: int| f(probe_amount(k as nat)))
}

/// On an output curve that rises (or stays level) up to probe `p` and falls
/// at probe `p + 1`, the optimizer probes every amount up to `p + 1` and then
/// reports the pair at probe `p`: the peak, not a point beyond it.
pub proof fn lemma_bettermizer_stops_at_peak(f: spec_fn(nat) -> u128, p: nat)
    requires
        f(probe_amount(0)) > 0,
        p + 2 <= MAX_PROBES,
        forall|k: nat| 0 < k <= p ==> #[trigger] f(probe_amount(k)) >= f(probe_amount((k - 1) as nat)),
        f(probe_amount(p + 1)) < f(probe_amount(p)),
    ensures
        forall|m: nat| m <= p + 1 ==> #[trigger] probe_step(outputs_of(f, m)) == ProbeStep::Probe(probe_amount(m) as u128),
        probe_step(outputs_of(f, p + 2)) == ProbeStep::Finished(
            Some(TradeSize { amount_in: probe_amount(p) as u128, amount_out: f(probe_amount(p)) }),
        ),
{
    assert forall|m: nat| m <= p + 1 implies #[trigger] probe_step(outputs_of(f, m)) == ProbeStep::Probe(probe_amount(m) as u128) by {
        let o = outputs_of(f, m);
        if m >= 2 {
            let k = (m - 1) as nat;
            assert(o[m - 1] == f(probe_amount(k)));
            assert(o[m - 2] == f(probe_amount((k - 1) as nat)));
            assert(f(probe_amount(k)) >= f(probe_amount((k - 1) as nat)));
        }
        if m >= 1 {
            assert(o[0] == f(probe_amount(0)));
        }
    }
    let o = outputs_of(f, p + 2);
    assert(o[0] == f(probe_amount(0)));
    assert(o[p + 1 as int] == f(probe_amount(p + 1)));
    assert(o[p as int] == f(probe_amount(p)));
}

/// The gas that a path of `hops` hops is estimated to use.
pub open spec fn gas_estimate(hops: nat) -> nat {
    hops * 100_000 + 100_000
}

/// Estimates the gas that a path of `hops` hops uses: a base cost plus a
/// fixed cost per hop.
pub fn calculate_gas(hops: u8) -> (r: u64)
    ensures
        r == gas_estimate(hops as nat),
{
    hops as u64 * 100_000 + 100_000
}

/// The score of an optimized path, in wei: its output less the gas it is
/// estimated to cost at `gas_price` wei per unit, capped to the range of an
/// `i128`; the lowest score when the optimizer found no viable trade.
pub open spec fn score_of(best: Option<TradeSize>, hops: nat, gas_price: nat) -> int {
    match best {
        None => i128::MIN as int,
        Some(t) => {
            let s = t.amount_out as int - gas_estimate(hops) * gas_price;
            if s > i128::MAX as int {
                i128::MAX as int
            } else {
                s
            }
        },
    }
}

/// Scores an optimized path: the output of its best pair less its estimated
/// gas cost; the lowest score when there is no viable trade.
pub fn calculate_score(best: Option<TradeSize>, hops: u8, gas_price: u64) -> (r: i128)
    ensures
        r as int == score_of(best, hops as nat, gas_price as nat),
{
    match best {
        None => i128::MIN,
        Some(t) => {
            let out = t.amount_out;
            let gas = calculate_gas(hops);
            proof {
                assert(gas as nat * gas_price as nat <= 25_600_000 * 0xffff_ffff_ffff_ffff) by (nonlinear_arith)
                    requires gas <= 25_600_000, gas_price <= 0xffff_ffff_ffff_ffff;
            }
            let cost = gas as u128 * gas_price as u128;
            if out > i128::MAX as u128 {
                if out - cost > i128::MAX as u128 {
                    i128::MAX
                } else {
                    (out - cost) as i128
                }
            } else {
                out as i128 - cost as i128
            }
        },
    }
}

} // verus!
