pub mod armor;
pub mod bytes;
pub mod chain;
pub mod codec;
pub mod crypto;
pub mod error;
pub mod message;
pub mod nostr_manager;
pub mod oracle;
pub mod reassembly;
pub mod relay;
pub mod router;
pub mod segment;
