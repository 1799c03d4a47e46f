//! A registry of community-curated historical claims.
//!
//! Participants submit events, others cast support or challenge votes, and
//! each event's timeline category is derived from its accumulated votes by a
//! deterministic consensus score.

pub mod consensus;
pub mod event_store;
pub mod invariants;
pub mod laws;
pub mod model;
pub mod protocol;
pub mod timeline_index;
pub mod types;
pub mod user_index;
pub mod vote_ledger;

pub use protocol::HistoryProtocol;
pub use types::AccountId;
pub use types::Error;
pub use types::HistoricalEvent;
pub use types::Timeline;
pub use types::Vote;
