//! Lyrics library core: LRC parsing and auditing, download decisions,
//! rate limiting, library scanning rules, artwork selection and the
//! library views, all proved against their contracts.
use vstd::prelude::*;

pub mod text;
pub mod lrc;
pub mod model;
pub mod providers;
pub mod fs;
pub mod download;
pub mod rate_limiter;
pub mod scanner;
pub mod art;
pub mod memo;
pub mod library;
pub mod config;
pub mod sources;
pub mod level;
pub mod image_cache;
pub mod art_jobs;
pub mod waveform;
pub mod batch;

verus! {

} // verus!
