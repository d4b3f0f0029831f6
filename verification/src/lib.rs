//! A play-money parimutuel prediction market engine: users hold play-money
//! points, predict an outcome, the pool splits parimutuel-style, and a
//! committee resolves.

pub mod accounting;
pub mod error;
pub mod laws;
pub mod ledger;
pub mod models;
pub mod parimutuel;
pub mod requests;
pub mod store;
pub mod text;

pub use error::Error;
pub use models::{
    phase_of, Market, MarketStatus, OutcomeStat, Phase, PoolView, Position, ResolutionReceipt,
    User,
};
pub use store::MemStore;
