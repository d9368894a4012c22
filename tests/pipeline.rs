use main_flash::pipeline::{step, ChainView, PipelineEvent, PipelineState};
use main_flash::utils::calculate_next_block_base_fee;

#[test]
fn search_stage_runs_rounds_until_the_source_closes() {
    let mut s = PipelineState::Idle;
    s = step(s, PipelineEvent::Started);
    assert_eq!(s, PipelineState::WaitingForStateChange);
    for _ in 0..2 {
        s = step(s, PipelineEvent::StateChanged);
        assert_eq!(s, PipelineState::Searching);
        s = step(s, PipelineEvent::SearchDone);
        assert_eq!(s, PipelineState::Publishing);
        s = step(s, PipelineEvent::Published);
        assert_eq!(s, PipelineState::WaitingForStateChange);
    }
    s = step(s, PipelineEvent::SourceClosed);
    assert_eq!(s, PipelineState::Stopped);
    assert_eq!(step(s, PipelineEvent::Started), PipelineState::Stopped);
}

#[test]
fn out_of_turn_events_leave_the_stage_as_it_is() {
    assert_eq!(step(PipelineState::Searching, PipelineEvent::StateChanged), PipelineState::Searching);
    assert_eq!(step(PipelineState::Idle, PipelineEvent::Published), PipelineState::Idle);
    assert_eq!(step(PipelineState::Searching, PipelineEvent::SourceClosed), PipelineState::Stopped);
}

#[test]
fn chain_view_follows_blocks() {
    let mut c = ChainView::new();
    assert_eq!(c.target_block(), Some(1));
    c.on_block(100, 7);
    assert_eq!((c.current_block, c.base_fee), (100, 7));
    assert_eq!(c.target_block(), Some(101));
    c.on_block(u64::MAX, 1);
    assert_eq!(c.target_block(), None);
}

#[test]
fn base_fee_rises_above_target() {
    // target 15M, 5M over: 100 * 5M / 15M = 33, / 8 = 4
    assert_eq!(calculate_next_block_base_fee(20_000_000, 30_000_000, 100, 0), 104);
    assert_eq!(calculate_next_block_base_fee(20_000_000, 30_000_000, 100, 8), 112);
}

#[test]
fn base_fee_falls_below_target() {
    // empty block: 100 * 15M / 15M = 100, / 8 = 12
    assert_eq!(calculate_next_block_base_fee(0, 30_000_000, 100, 0), 88);
    assert_eq!(calculate_next_block_base_fee(15_000_000, 30_000_000, 100, 3), 103);
}

#[test]
fn base_fee_with_tiny_gas_limit_uses_target_one() {
    // target 1, 4 over: 100 * 4 / 1 = 400, / 8 = 50
    assert_eq!(calculate_next_block_base_fee(5, 1, 100, 0), 150);
}

#[test]
fn base_fee_extremes_do_not_overflow() {
    let r = calculate_next_block_base_fee(u64::MAX, 2, u64::MAX, u64::MAX);
    assert!(r > u64::MAX as u128);
}
