//! Verified core of a generative-collectible batch producer.
//!
//! A configuration declares named attribute layers, each with a weighted
//! table of possible values, optionally conditioned on values rolled for
//! earlier layers.  The library resolves one attribute set per item index,
//! enforces batch-wide uniqueness when asked to, injects guaranteed rolls at
//! evenly spaced slots, renders each result as a metadata record with a JSON
//! serialization, and plans the image-compositing work for each item.
//!
//! File and process I/O, the random generator, and the external compositing
//! tool stay outside the verified code; the library states what it computes
//! from the values they hand back.

pub mod attributes;
pub mod batch;
pub mod cli;
pub mod compose;
pub mod condition;
pub mod config;
pub mod errors;
pub mod json;
pub mod metadata;
pub mod rarity;
pub mod resolve;
mod rng;
pub mod text;
