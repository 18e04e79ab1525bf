//! A minimal persistent row store: fixed-schema rows are packed into
//! fixed-size pages, pages are cached in memory by a pager, and a cursor
//! walks the rows in index order.  The pager works on an in-memory image
//! of the backing file; reading that image from disk and writing it back
//! is left to the caller.

pub mod cursor;
pub mod pager;
pub mod row;
pub mod statement;
pub mod table;
pub mod util;
