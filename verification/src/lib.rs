//! Core of a read-only image filesystem that presents host directories
//! through a virtual mount, rewriting every recognized raster image so it
//! appears as a HEIC file. Conversion results live in a content-addressed,
//! optionally encrypted on-disk cache keyed by source identity and encoder
//! parameters.
//!
//! This crate holds the verified logic: the virtual-to-real name mapping,
//! the cache file format with its authentication and validation rules,
//! LRU eviction planning, stable inode allocation, single-flight
//! conversion scheduling, and the byte-range read contract.

pub mod ascii;
pub mod cache;
pub mod config;
pub mod crypto;
pub mod detect;
pub mod eviction;
pub mod frontend;
pub mod hashing;
pub mod header;
pub mod inode;
pub mod mapper;
pub mod pool;
pub mod store;
