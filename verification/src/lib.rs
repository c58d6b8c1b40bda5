//! A personal bookmark manager: articles saved by URL with fetched
//! metadata, tagged, starred, archived, searched and listed over an
//! embedded relational store.
//!
//! The stored table is modelled as a sequence of rows (`store::db_rows`),
//! and every operation's contract is stated against that model: what an
//! insertion appends and when it is refused, which rows a listing admits
//! and in what order it returns them, what each batch flag transition and
//! each piece of tag algebra rewrites, and what every lookup yields.
//!
//! - [`article`]: the entity, the raw stored row, and the mapping between
//!   them, timestamp repair included.
//! - [`store`]: the storage engine boundary; everything the engine is
//!   trusted for is stated there and nowhere else.
//! - [`queries`]: insertion, lookups, listings, samples, batch flag
//!   transitions, tag algebra and the tag tally, with the laws that
//!   relate them.
//! - [`listing`]: the filter predicates and sort orders a listing
//!   composes.
//! - [`tags`], [`tagjson`]: tag form, tag-list rewrites, and the JSON
//!   column codec with its round-trip law.
//! - [`metadata`], [`fingerprint`]: what a fetched page yields, and the
//!   URL fingerprint used for deduplication.
//! - [`config`], [`errors`], [`render`], [`theme`], [`icons`],
//!   [`humanize`], [`strutil`]: preferences, error reporting, and the
//!   pure parts of rendering.

pub mod article;
pub mod config;
pub mod errors;
pub mod fingerprint;
pub mod humanize;
pub mod icons;
pub mod listing;
pub mod metadata;
pub mod queries;
pub mod render;
pub mod store;
pub mod strutil;
pub mod tagjson;
pub mod tags;
pub mod theme;
