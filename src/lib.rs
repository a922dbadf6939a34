//! Accounting core of a capped fungible token minted by burning whitelisted
//! collectibles: supply ledger, replay guard, collectible registry and the
//! burn-to-mint engine.

pub mod codec;
pub mod asset;
pub mod outside;
pub mod mint;
pub mod laws;
