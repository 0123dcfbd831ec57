//! Friend watching for Counter-Strike 2: the decisions behind presence
//! classification, join URIs, status lines, alert debouncing and the watch
//! queue, with their contracts.
pub mod text;
pub mod order;
pub mod rich;
pub mod watcher;
pub mod steam;
pub mod friendwatch;
pub mod audio;
pub mod config;
pub mod notify;
pub mod bootstrap;
