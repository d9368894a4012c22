use main_flash::bundler::{check_bundle, GateError, NonceCounter, SimReport};

fn report(gas_used: u64, tip: u128) -> SimReport {
    SimReport { gas_used, coinbase_tip: tip, has_error: false, reverted: false }
}

#[test]
fn profitable_bundle_passes() {
    // revenue kept at 128/256 equals the tip; cost 100 * 10 = 1000
    assert_eq!(check_bundle(&vec![report(100, 1001)], 128, 10), Ok(()));
}

#[test]
fn revenue_equal_to_cost_is_rejected() {
    assert_eq!(check_bundle(&vec![report(100, 1000)], 128, 10), Err(GateError::NotProfitable(0)));
}

#[test]
fn validator_share_reduces_revenue() {
    // pct 192: revenue kept = tip * 64 / 192 = tip / 3
    assert_eq!(check_bundle(&vec![report(1, 30)], 192, 10), Err(GateError::NotProfitable(0)));
    assert_eq!(check_bundle(&vec![report(1, 31)], 192, 10), Ok(()));
}

#[test]
fn simulation_error_is_reported_first() {
    let mut bad = report(1, 1_000_000);
    bad.has_error = true;
    bad.reverted = true;
    assert_eq!(check_bundle(&vec![report(1, 1_000_000), bad], 128, 1), Err(GateError::SimulationError(1)));
}

#[test]
fn simulation_revert_is_rejected() {
    let mut bad = report(1, 1_000_000);
    bad.reverted = true;
    assert_eq!(check_bundle(&vec![bad], 128, 1), Err(GateError::SimulationRevert(0)));
}

#[test]
fn empty_bundle_passes() {
    assert_eq!(check_bundle(&vec![], 128, 1), Ok(()));
}

#[test]
fn huge_values_compare_exactly() {
    let r = report(u64::MAX, u128::MAX);
    // revenue (u128::MAX * 1) vs cost (u64::MAX^2 * 255)
    assert_eq!(check_bundle(&vec![r], 255, u64::MAX), Err(GateError::NotProfitable(0)));
    assert_eq!(check_bundle(&vec![r], 1, u64::MAX), Ok(()));
}

#[test]
fn nonce_counter_takes_and_rolls_back() {
    let mut n = NonceCounter::new(5);
    assert_eq!(n.take(), Some(5));
    assert_eq!(n.take(), Some(6));
    assert!(n.roll_back());
    assert_eq!(n.take(), Some(6));
    assert_eq!(n.nonce, 7);
}

#[test]
fn nonce_counter_edges() {
    let mut z = NonceCounter::new(0);
    assert!(!z.roll_back());
    assert_eq!(z.nonce, 0);
    let mut m = NonceCounter::new(u64::MAX);
    assert_eq!(m.take(), None);
    assert_eq!(m.nonce, u64::MAX);
}
