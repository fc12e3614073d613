//! A safe, value-oriented interface over an ordered key-value store.
//!
//! The store keeps byte-string keys in ascending byte-lexicographic order.
//! Point operations (`put`, `get`, `delete`), atomic write batches, and a
//! cursor with an explicit validity state machine are all specified against
//! a mathematical map from key sequences to value sequences, and every
//! engine reply that crosses the boundary is bridged into a typed result by
//! the error channel in [`error`].

pub mod error;
pub mod iter;
pub mod laws;
pub mod options;
pub mod order;
pub mod store;

pub use error::Error;
pub use error::get_outcome;
pub use error::iterator_outcome;
pub use error::open_outcome;
pub use error::operation_outcome;
pub use iter::Cursor;
pub use iter::DBIterator;
pub use options::OpenFlags;
pub use options::OpenOption;
pub use options::ReadFlags;
pub use options::ReadOption;
pub use options::WriteFlags;
pub use options::WriteOption;
pub use options::open_flags;
pub use options::read_flags;
pub use options::write_flags;
pub use order::bytes_eq;
pub use order::bytes_lt;
pub use store::DB;
