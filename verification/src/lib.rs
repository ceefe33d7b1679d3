//! A working-day digest pipeline for merged code-review requests.
//!
//! The library selects the time window covering the last working period,
//! filters out bot-authored merge records, models the request and response
//! of the generation backend together with the strict decoding of its
//! structured output, renders the digest for a chat channel and for durable
//! storage, and decides which delivery mechanisms run and how their failures
//! affect the run's outcome.

pub mod db;
pub mod delivery;
pub mod entry;
pub mod gemini;
pub mod json;
pub mod record;
pub mod slack;
pub mod window;
