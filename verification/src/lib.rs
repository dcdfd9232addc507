//! A location-based shop directory: an in-memory store of shop records
//! queried by proximity and fuzzy title match, and a validation pipeline
//! that gates inserts and updates on the shape and resolvability of the
//! submitted URLs.

pub mod geo;
pub mod rest;
pub mod store;
pub mod text;
pub mod validate;
pub mod watchdog;
