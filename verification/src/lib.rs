//! The logic of `pino`, a local reverse proxy for the Anthropic API that makes long conversations
//! cheaper: it places and retimes the cache breakpoints of each request, can trim a request's tools
//! and scaffolding, and counts what the cache saved.
//!
//! The modules work on plain values: `json::Json` for a body, `server::Header` for a header,
//! `String` and `Vec<u8>` for texts and bytes, whole numbers of a fixed unit for money. Reading,
//! sending, storing and floating point are left to the program around the library.
//!
//! `server` is where a request goes through; `cache`, `transform` and `model` change its body;
//! `identity`, `usage`, `http_decode` and `store` make the row that is kept of its response;
//! `dashboard`, `stats` and `backfill` serve the three ways to look at those rows.
//!
//! The modules whose names end in `_laws` say what all of this is for: what holds of the results
//! whatever the input, in the words of the input and the results alone.

pub mod backfill;
pub mod breakpoint_laws;
pub mod cache;
pub mod cache_laws;
pub mod config;
pub mod control_laws;
pub mod dashboard;
pub mod edit_laws;
pub mod http_decode;
pub mod identity;
pub mod json;
pub mod json_laws;
pub mod lifetime_laws;
pub mod logger;
pub mod message_laws;
pub mod model;
pub mod model_laws;
pub mod patterns;
pub mod record_laws;
pub mod request_laws;
pub mod server;
pub mod stats;
pub mod store;
pub mod text;
pub mod text_laws;
pub mod transform;
pub mod transform_laws;
pub mod usage;
pub mod usage_laws;
