//! A queryable index over a ledger of linked blocks.
//!
//! Container files are cut into framed payloads and the payloads are run
//! through the indexing engine ([`parser`]). Each payload is decoded by the
//! consensus codec ([`codec`]) and normalised into storage records
//! ([`records`]), which are written with replace semantics into the store
//! ([`db`], modelled in [`store_model`]). The read side assembles response
//! values from the store ([`handlers`], [`models`]). What holds across
//! writes, runs and queries is proved in [`laws`].
pub mod codec;
pub mod db;
pub mod handlers;
pub mod laws;
pub mod models;
pub mod parser;
pub mod records;
pub mod store_model;
