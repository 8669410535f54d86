//! Daily step counts from a rate-limited upstream, reconciled with a cache:
//! which days the cache can serve, which days must be fetched live, how the
//! live fetches are cut and paced, and how commands and replies are written
//! on the wire.

pub mod api;
pub mod cache;
pub mod dates;
pub mod errors;
pub mod fitbit;
pub mod models;
pub mod steps;
pub mod text;
pub mod utils;
