//! Query keywords: intent classification, extraction mode and caching.
pub mod cache;
pub mod intent;
pub mod keyword_mode;
