//! The coordination core of a shared listening room server: rooms, their
//! track queues, track ingestion with a fingerprint cache, live audio fan-out
//! and the event bus that ties them together.

pub mod audio;
pub mod bus;
pub mod cache;
pub mod events;
pub mod fanout;
pub mod ingest;
pub mod input;
pub mod queue;
pub mod rooms;
pub mod router;
pub mod sse;
pub mod store;
pub mod track;
pub mod url;
pub mod util;
pub mod vinyl;

pub use events::VinylEvent;
pub use vinyl::{Vinyl, VinylContext, VinylError};
