//! SidePulse Bridge: message passing over HTTPS and Server-Sent Events, with
//! push notifications.
//!
//! One side listens on a channel, the other posts to it. A post reaches the
//! listeners that are connected; while there is none, the latest few messages
//! wait in a short queue for a limited time. A post to a device becomes a push
//! notification, and a copy of it can be fetched for as long. Requests are
//! limited per client, and all that happens is counted without keeping what was
//! said.
//!
//! [`state::AppState`] is the bridge as the endpoints use it. Beneath it lie the
//! channels ([`hub`], [`channel`]), the rate limiter ([`ratelimit`]) and the
//! counters ([`stats`], [`ranking`]); beside it what a push says ([`apns`]), the
//! admin password ([`auth`]), replies ([`web`]) and settings ([`config`]). What
//! these promise together is proved in the modules whose names end in `_laws`.
//!
//! The outside crates are called in [`tables`] (`dashmap`), [`channel`]
//! (`tokio`), [`json`] (`serde_json`), [`push`] (`a2`) and [`auth`] (`base64`),
//! and the clocks of `std` in [`clock`].

pub mod addr;
pub mod apns;
pub mod apns_laws;
pub mod auth;
pub mod channel;
pub mod channel_laws;
pub mod clock;
pub mod config;
pub mod day_laws;
pub mod endpoint_laws;
pub mod hub;
pub mod json;
pub mod ledger_laws;
pub mod push;
pub mod ranking;
pub mod ratelimit;
pub mod ratelimit_laws;
pub mod renaming_laws;
pub mod state;
pub mod state_laws;
pub mod stats;
pub mod stats_laws;
pub mod tables;
pub mod text;
pub mod web;
