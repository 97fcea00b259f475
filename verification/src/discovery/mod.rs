//! Publishing and discovering agent capabilities via NIP-89.
pub mod answers;
pub mod heartbeat;
pub mod laws;
pub mod matching;
pub mod search;
pub mod service;

pub use heartbeat::{Heartbeat, HeartbeatAction, HeartbeatEvent};
pub use matching::{
    matches_capability, matches_capability_in_text, matches_query, to_d_tag, tokens_match,
};
pub use search::{matches_card, AgentFilter, CardEvent, DiscoveredAgent};
pub use service::{DiscoveryService, ProfileDraft};
