//! Agents that find each other over Nostr relays, talk in private and pay each other in SOL.
//!
//! Each service turns plain values into what goes out to relays and RPC nodes, and what comes
//! back into plain values; sending and receiving is the caller's part.
use vstd::prelude::*;

pub mod dedup;
pub mod discovery;
pub mod error;
pub mod event;
pub mod identity;
pub mod json;
pub mod messaging;
pub mod number;
pub mod payment;
pub mod ranking;
pub mod text;

pub use discovery::{to_d_tag, AgentFilter, DiscoveredAgent, DiscoveryService};
pub use error::ElisymError;
pub use identity::CapabilityCard;
pub use messaging::{MessagingService, PrivateMessage};
pub use payment::solana::{SolanaNetwork, SolanaPaymentConfig, SolanaPaymentProvider};
pub use payment::{
    FeeConfig, PaymentChain, PaymentProvider, PaymentRequest, PaymentResult, PaymentStatus,
};

verus! {

} // verus!
