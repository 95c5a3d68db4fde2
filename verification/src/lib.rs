//! Verified encoding and decoding of the Sapling components of Zcash transactions.

pub mod amount;
pub mod bundle;
pub mod curves;
pub mod encoding;
pub mod error;
pub mod fees;
pub mod sapling;
