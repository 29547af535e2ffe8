//! Sortery's sort engine: files discovered under a source directory are
//! classified by a chosen filesystem timestamp, filtered by extension
//! allow- and deny-lists, and given collision-free destination names
//! rendered from a strftime-like pattern. The engine decides every
//! skip, move and failure of a run and drives a monotone progress
//! protocol; performing the filesystem operations is the caller's part.

pub mod civil;
pub mod config;
pub mod engine;
pub mod filter;
pub mod naming;
pub mod progress;
pub mod text;
pub mod timestamp;
