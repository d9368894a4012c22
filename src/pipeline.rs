//! The decisions of the pipeline's stages as state machines: the search
//! stage's round cycle and the submission stage's view of the chain.
use vstd::prelude::*;

verus! {

/// Where the search stage stands.
#[derive(Clone, Copy, Debug, PartialEq, Eq, Structural)]
pub enum PipelineState {
    Idle,
    WaitingForStateChange,
    Searching,
    Publishing,
    Stopped,
}

/// What the search stage is told.
#[derive(Clone, Copy, Debug, PartialEq, Eq, Structural)]
pub enum PipelineEvent {
    /// The stage has started.
    Started,
    /// A batch of changed venues arrived.
    StateChanged,
    /// The search of the round returned.
    SearchDone,
    /// The round's candidates were handed on.
    Published,
    /// The upstream event source closed.
    SourceClosed,
}

/// The transitions of the search stage: it waits for state changes, searches
/// on each, publishes what it found and waits again, until the source closes.
/// An event that does not fit the state leaves it unchanged.
pub open spec fn next_state(s: PipelineState, e: PipelineEvent) -> PipelineState {
    match (s, e) {
        (PipelineState::Stopped, _) => PipelineState::Stopped,
        (_, PipelineEvent::SourceClosed) => PipelineState::Stopped,
        (PipelineState::Idle, PipelineEvent::Started) => PipelineState::WaitingForStateChange,
        (PipelineState::WaitingForStateChange, PipelineEvent::StateChanged) => PipelineState::Searching,
        (PipelineState::Searching, PipelineEvent::SearchDone) => PipelineState::Publishing,
        (PipelineState::Publishing, PipelineEvent::Published) => PipelineState::WaitingForStateChange,
        _ => s,
    }
}

/// Moves the search stage along on an event.
pub fn step(s: PipelineState, e: PipelineEvent) -> (r: PipelineState)
    ensures
        r == next_state(s, e),
{
    match (s, e) {
        (PipelineState::Stopped, _) => PipelineState::Stopped,
        (_, PipelineEvent::SourceClosed) => PipelineState::Stopped,
        (PipelineState::Idle, PipelineEvent::Started) => PipelineState::WaitingForStateChange,
        (PipelineState::WaitingForStateChange, PipelineEvent::StateChanged) => PipelineState::Searching,
        (PipelineState::Searching, PipelineEvent::SearchDone) => PipelineState::Publishing,
        (PipelineState::Publishing, PipelineEvent::Published) => PipelineState::WaitingForStateChange,
        _ => s,
    }
}

/// Once stopped, the search stage stays stopped whatever it is told.
pub proof fn lemma_stopped_is_final(e: PipelineEvent)
    ensures
        next_state(PipelineState::Stopped, e) == PipelineState::Stopped,
{
}

/// What the submission stage knows of the chain: the latest block and the
/// base fee of the block to come, in wei.
#[derive(Clone, Copy, Debug, PartialEq, Eq, Structural)]
pub struct ChainView {
    pub current_block: u64,
    pub base_fee: u64,
}

impl ChainView {
    /// Nothing seen yet.
    pub fn new() -> (r: ChainView)
        ensures
            r.current_block == 0,
            r.base_fee == 0,
    {
        ChainView { current_block: 0, base_fee: 0 }
    }

    /// A block arrived: it becomes the current one, and its announced next
    /// base fee the one that trades are priced at.
    pub fn on_block(&mut self, block_number: u64, next_base_fee: u64)
        ensures
            final(self).current_block == block_number,
            final(self).base_fee == next_base_fee,
    {
        self.current_block = block_number;
        self.base_fee = next_base_fee;
    }

    /// The block that a bundle built now targets: the one after the current.
    pub fn target_block(&self) -> (r: Option<u64>)
        ensures
            self.current_block < u64::MAX ==> r == Some((self.current_block + 1) as u64),
            self.current_block == u64::MAX ==> r is None,
    {
        if self.current_block == u64::MAX {
            None
        } else {
            Some(self.current_block + 1)
        }
    }
}

} // verus!
