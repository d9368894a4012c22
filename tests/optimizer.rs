use main_flash::optimizer::{
    calculate_gas, calculate_score, Bettermizer, ProbeStep, TradeSize, MAX_PROBES, PROBE_BASE, PROBE_STEP,
};

/// Runs the optimizer against an output curve given as a function of the input.
fn run(curve: impl Fn(u128) -> u128) -> (Option<TradeSize>, usize) {
    let mut opt = Bettermizer::new();
    let mut probes = 0;
    loop {
        match opt.next_step() {
            ProbeStep::Probe(amount) => {
                probes += 1;
                opt.observe(curve(amount));
            }
            ProbeStep::Finished(r) => return (r, probes),
        }
    }
}

#[test]
fn bettermizer_returns_the_peak_of_a_rising_then_falling_curve() {
    let peak = PROBE_BASE + 5 * PROBE_STEP;
    let curve = |a: u128| if a <= peak { a / 1000 } else { peak / 1000 - (a - peak) / 1000 };
    let (r, probes) = run(curve);
    assert_eq!(r, Some(TradeSize { amount_in: peak, amount_out: peak / 1000 }));
    assert_eq!(probes, 7);
}

#[test]
fn bettermizer_gives_up_when_first_output_is_zero() {
    let (r, probes) = run(|_| 0);
    assert_eq!(r, None);
    assert_eq!(probes, 1);
}

#[test]
fn bettermizer_stops_at_the_probe_bound_on_a_rising_curve() {
    let (r, probes) = run(|a| a);
    let last = PROBE_BASE + (MAX_PROBES as u128 - 1) * PROBE_STEP;
    assert_eq!(r, Some(TradeSize { amount_in: last, amount_out: last }));
    assert_eq!(probes, MAX_PROBES);
}

#[test]
fn bettermizer_climbs_over_a_level_stretch() {
    let (r, _) = run(|a| if a <= PROBE_BASE + 2 * PROBE_STEP { 10 } else { 9 });
    assert_eq!(r, Some(TradeSize { amount_in: PROBE_BASE + 2 * PROBE_STEP, amount_out: 10 }));
}

#[test]
fn gas_estimate_per_hop() {
    assert_eq!(calculate_gas(0), 100_000);
    assert_eq!(calculate_gas(3), 400_000);
    assert_eq!(calculate_gas(255), 25_600_000);
}

#[test]
fn score_is_output_less_gas_cost() {
    let t = TradeSize { amount_in: 1, amount_out: 1_000_000_000 };
    assert_eq!(calculate_score(Some(t), 2, 1_000), 1_000_000_000 - 300_000 * 1_000);
    let small = TradeSize { amount_in: 1, amount_out: 5 };
    assert_eq!(calculate_score(Some(small), 0, 1), 5 - 100_000);
}

#[test]
fn score_without_trade_is_lowest() {
    assert_eq!(calculate_score(None, 3, 10), i128::MIN);
}

#[test]
fn score_is_capped_for_huge_outputs() {
    let t = TradeSize { amount_in: 0, amount_out: u128::MAX };
    assert_eq!(calculate_score(Some(t), 0, 0), i128::MAX);
    let t2 = TradeSize { amount_in: 0, amount_out: (i128::MAX as u128) + 10 };
    assert_eq!(calculate_score(Some(t2), 0, 1), i128::MAX - 99_990);
}
