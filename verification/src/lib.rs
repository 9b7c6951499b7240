//! A minimal persistent record store for a single entity type, `Book`:
//! an auto-incrementing identifier counter paired with an ordered map
//! from id to encoded record, both committed to their backing regions
//! before any operation returns — regions that, opened over the host's
//! default memory, carry the state from one process life to the next —
//! and the four CRUD operations that enforce the existence and
//! uniqueness invariants around them.

pub mod book;
pub mod codec;
pub mod stable;
pub mod store;
pub mod text;

pub use book::Book;
pub use book::BookPayload;
pub use book::Error;
pub use store::BookStore;
