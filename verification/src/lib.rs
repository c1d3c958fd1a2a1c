//! Resolves IPv4 addresses to region strings over a binary-indexed xdb buffer.
//!
//! The buffer holds a 256-byte header, a 256 x 256 grid of 8-byte cells keyed
//! by the two most significant octets of an address, 14-byte segment records
//! and the UTF-8 payloads that the records point to. A lookup decodes the
//! cell of the address, binary-searches the records that the cell spans and
//! decodes the payload of the record whose range holds the address.
//!
//! - `decode`: little-endian integers out of bytes.
//! - `ip`: the spellings of an address and the `u32` they stand for.
//! - `xdb`: the layout of the buffer and, as functions on `Seq<u8>`, what a
//!   lookup yields.
//! - `searcher`: the lookup itself, proved to compute what `xdb` says.
//! - `config`: the cache policies and how a configuration is settled.
//! - `cache`: a searcher that retains, under its policy, what it is handed.
//! - `text`, `error`: payload text and the errors.
//!
//! The library reads no file: its callers hand it the bytes.

pub mod cache;
pub mod config;
pub mod decode;
pub mod error;
pub mod ip;
pub mod searcher;
pub mod text;
pub mod xdb;

pub use cache::Searcher;
pub use config::{default_detect_xdb_file, searcher_init, CachePolicy, SearcherConfig};
pub use decode::get_block_by_size;
pub use error::SearchError;
pub use ip::ToUIntIP;
pub use searcher::{get_start_end_ptr, get_vector_index_cache, search_by_ip};
