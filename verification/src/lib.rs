//! A single-instrument matching core for limit orders.
//!
//! Sell orders rest in a [`Book`] ordered by price; every buy order is
//! matched at once against the best resting offers and what it cannot fill
//! is dropped. All executable code is verified against the contracts
//! stated on each function.

pub mod book;
pub mod engine;
pub mod guarantees;
pub mod matching;
pub mod order;
pub mod record;
pub mod text;

pub use book::Book;
pub use engine::MatchingEngine;
pub use order::{Order, OrderType, Trade};
pub use record::{parse_order, InvalidOrder};
