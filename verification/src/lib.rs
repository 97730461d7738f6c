//! A verified core for a channel-feed relay service: ad filtering, idempotent
//! message ingestion, subscription management, per-user rate limiting, outbound
//! message formatting and splitting under a hard length limit, and the retrying
//! fan-out delivery policy.
//!
//! The wire-level chat client, the bot-facing transport and the summarizer
//! call are external collaborators: they live in the surrounding application,
//! which feeds their outcomes to this library as plain values. The
//! subscription and message store itself lives here, with its key-uniqueness
//! and upsert semantics verified.

pub mod ad_filter;
pub mod command;
pub mod entities;
pub mod format;
pub mod gateway;
pub mod monitor;
pub mod rate_limit;
pub mod repo;
pub mod response;
pub mod retry;
pub mod splitter;
pub mod summarize;
pub mod update;
pub mod utf16;
