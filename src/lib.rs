//! Discovery, sizing and encoding of cyclic trades across on-chain exchange venues.
//!
//! The library holds the price graph, the bounded cycle search with its score
//! cache, the trade-size optimizer as a step machine, the profitability gate,
//! the stages' state machines, and the wire encoding of a trade plan.
pub mod types;
pub mod encoding;
pub mod optimizer;
pub mod bundler;
pub mod trading_graph;
pub mod search;
pub mod strategy;
pub mod pipeline;
pub mod utils;
