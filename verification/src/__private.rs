//! Not public API. Used by generated code.
pub use flume;
pub use futures;
pub use tokio;
