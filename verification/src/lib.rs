//! Discovery of closed barter cycles ("trade loops") among a set of offers.
//!
//! The engine works in three steps: it decides which directed exchanges
//! between offers are legal, it enumerates the cycles of length two and three
//! in the resulting graph, and it turns each cycle into a scored record.

pub mod graph_matching;
