//! A turn-based economic simulation in which competing firms allocate funds
//! between wages, production, and share-price promotion, while a shared market
//! clears two finite pools each round: hireable workers and users seeking to
//! buy goods.
//!
//! The round-resolution engine is deterministic: given each firm's per-round
//! decision, it clears the goods market (ranked by usefulness), pays wages
//! (removing insolvent firms), recomputes share prices, clears the labor
//! market (ranked by wage), and computes advisory danger signals.  Gathering
//! decisions and displaying state are left to callers.

pub mod clearing;
pub mod danger;
pub mod firm;
pub mod laws;
pub mod market;
pub mod trend;
