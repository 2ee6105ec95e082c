//! Verified core of the Search Patterns Protocol engine and its console:
//! pattern canonicalization and expansion, FON data lowering, catalog
//! materialization, stable identities, index synchronization planning,
//! crawl bookkeeping and origin checks, site ownership tokens and session
//! cookies.
pub mod text;
pub mod value;
pub mod pattern;
pub mod error;
pub mod syntax;
pub mod title;
pub mod document;
pub mod catalog;
pub mod sync;
pub mod crawl_state;
pub mod domain;
pub mod net;
pub mod crawler;
pub mod fetch;
pub mod ingest;
pub mod model;
pub mod console;
pub mod session;
pub mod mock;
