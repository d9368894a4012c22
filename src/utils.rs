//! Chain arithmetic shared by the stages.
use vstd::prelude::*;

verus! {

/// The gas target of a block: half its limit, and at least one.
pub open spec fn gas_target(gas_limit: nat) -> nat {
    if gas_limit / 2 == 0 {
        1
    } else {
        gas_limit / 2
    }
}

/// The base fee of the next block: the current one moved by an eighth of its
/// relative distance from the gas target, up when the block used more than
/// the target and down otherwise (rounding the change down).
pub open spec fn next_base_fee(gas_used: nat, gas_limit: nat, base_fee: nat) -> int {
    let t = gas_target(gas_limit) as int;
    let b = base_fee as int;
    if gas_used > t {
        b + b * (gas_used - t) / t / 8
    } else {
        b - b * (t - gas_used) / t / 8
    }
}

/// Predicts the base fee of the next block from the current block's gas use,
/// gas limit and base fee, plus a small `jitter` drawn by the caller.
pub fn calculate_next_block_base_fee(gas_used: u64, gas_limit: u64, base_fee_per_gas: u64, jitter: u64) -> (r: u128)
    ensures
        r as int == next_base_fee(gas_used as nat, gas_limit as nat, base_fee_per_gas as nat) + jitter as int,
{
    let half = gas_limit / 2;
    let target: u64 = if half == 0 { 1 } else { half };
    let base = base_fee_per_gas as u128;
    if gas_used > target {
        let diff = (gas_used - target) as u128;
        proof {
            assert(base * diff <= 0xffff_ffff_ffff_ffff * 0xffff_ffff_ffff_ffff) by (nonlinear_arith)
                requires base <= 0xffff_ffff_ffff_ffff, diff <= 0xffff_ffff_ffff_ffff;
            assert((base * diff) as int / (target as int) <= base * diff) by (nonlinear_arith)
                requires target >= 1, base * diff >= 0;
        }
        let delta = base * diff / target as u128 / 8;
        base + delta + jitter as u128
    } else {
        let diff = (target - gas_used) as u128;
        proof {
            assert(base * diff <= base * target) by (nonlinear_arith)
                requires diff <= target;
            assert(base * target <= 0xffff_ffff_ffff_ffff * 0xffff_ffff_ffff_ffff) by (nonlinear_arith)
                requires base <= 0xffff_ffff_ffff_ffff, target <= 0xffff_ffff_ffff_ffff;
            assert((base * diff) as int / (target as int) <= base) by (nonlinear_arith)
                requires diff <= target, target >= 1, base >= 0;
        }
        let delta = base * diff / target as u128 / 8;
        base - delta + jitter as u128
    }
}

} // verus!
