//! Storage core for a media-sharing service: content-addressed blob storage,
//! per-topic revision logs that define membership by replay, a best-effort
//! thumbnail pipeline, and a challenge-response ownership guard.

pub mod crypto;
pub mod errors;
pub mod json;
pub mod media;
pub mod persist;
pub mod pipeline;
pub mod state;
pub mod store;
pub mod text;
pub mod topic;

pub use errors::ServerErr;
pub use crypto::{PublicKey, Session, VerificationPayload};
pub use state::{Args, ServerState};
pub use store::{BlobStore, HashVal, TopicStore};
pub use topic::{Index, MediaUid, OwnedTopicId, RevisionOp, TopicData};
