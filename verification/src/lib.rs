//! A content-addressed store of loose objects: the record codec, the bounded
//! reader that enforces declared sizes, the hash-to-path mapping and the
//! decoder of directory listings. Everything here works on bytes in memory;
//! files are the caller's business.

pub mod bytes;
pub mod codec;
pub mod error;
pub mod hash;
pub mod kind;
pub mod limit;
pub mod store;
pub mod tree;
pub mod zlib;

pub use codec::Object;
pub use error::{Corrupt, Error};
pub use kind::Kind;
pub use limit::LimitReader;
pub use store::Stored;
pub use tree::TreeEntry;
