//! A threshold Schnorr signing coordinator for batches of cross-chain instructions.
//!
//! The coordinator drives one threshold keyset through the two signing rounds for each batch it is
//! asked to sign, persists every decision that must survive a reboot before acting on it, and
//! queues the messages and signed batches that its host ships out.
pub mod dex;
pub mod laws;
pub mod messages;
pub mod sessions;
pub mod signer;
pub mod store;

pub use dex::{Amount, Coin, DexCall, SeraiAddress, SeraiDex};
pub use messages::{Batch, CoordinatorMessage, ProcessorMessage, SignId, SignedBatch, SubstrateSignerEvent};
pub use sessions::{Session, Stage};
pub use signer::{SignerError, SignerFault, SigningRounds, SubstrateSigner};
pub use store::{MemDb, Txn};
