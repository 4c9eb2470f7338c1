//! Ingestion of tournament decklists published as HTML: per-source link
//! discovery, resumable crawl-state tracking, source-specific extraction
//! into a canonical decklist model, and a persistence layer that
//! deduplicates cards and reconciles catalog metadata on insert.
//!
//! Everything that decides or computes is specified and verified here;
//! the binary around this library only fetches pages, parses the JSON
//! envelope, and mirrors outcomes to durable storage.

pub mod dates;
pub mod deck;
pub mod formats;
pub mod html;
pub mod mtgo;
pub mod orchestrator;
pub mod store;
pub mod tcdecks;
pub mod text;
