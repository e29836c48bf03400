//! Persistence of sessions and retained messages.

pub mod memory;
pub mod rows;
pub mod types;

pub use memory::InMemoryStorage;

pub use types::{
    PersistedInboundQos2Message, PersistedInflightMessage, PersistedQos2State,
    PersistedRetainedMessage, PersistedSession, PersistedSubscription, PersistedWillMessage,
    StorageError, StoredQoS,
};
