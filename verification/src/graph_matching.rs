//! The trade graph, its offers and the loops found in it.

pub mod finder;
pub mod graph;
pub mod parallel;
pub mod sampling;
pub mod scorer;
pub mod trade;
pub mod trade_loop;

pub use finder::{ATTEMPTS_PER_LOOP, SMALL_GRAPH_LIMIT};
pub use graph::{edge_row, GraphError, TradeGraph};
pub use trade::{is_legal_exchange, Trade, TradeView};
pub use trade_loop::{LoopType, Ratio, RatioView, TradeLoop, TradeLoopView};
