//! Engine KV-event stream handling.

pub mod subscriber;

pub use subscriber::{KvEventKind, KvEventMessage, KvEventPayload, KvEventProcessor, MsgValue};
