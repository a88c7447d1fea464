//! A verified model of a peer-to-peer asset exchange: a maker locks a
//! quantity of one asset in an escrow vault controlled only by protocol
//! logic, publishing a standing offer; a taker may settle the swap
//! atomically, or the maker may cancel and recover the escrow.

pub mod derivation;
pub mod engine;
pub mod errors;
pub mod laws;
pub mod ledger;
pub mod offer;
pub mod profile;

pub use derivation::derive_offer_address;
pub use derivation::derive_user_address;
pub use derivation::derive_vault_address;
pub use derivation::u64_le_bytes;
pub use derivation::verify_offer_address;
pub use derivation::verify_vault_address;
pub use engine::Exchange;
pub use errors::ErrorCode;
pub use ledger::AssetLedger;
pub use ledger::TokenAccount;
pub use offer::Offer;
pub use profile::UserProfile;
