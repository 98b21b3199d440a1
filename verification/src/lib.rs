//! Verified core of an OpenAI-compatible gateway in front of the Gemini API:
//! token checks, key-pool parsing, account scheduling with quota domains,
//! upstream error classification and the retry decisions around it.

pub mod text;
pub mod error;
pub mod auth;
pub mod retry;
pub mod config;
pub mod accounts;
pub mod scheduler;
pub mod classifier;
pub mod models;
pub mod metrics;
pub mod upstream;
pub mod router;
pub mod runtime;
