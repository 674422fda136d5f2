//! Staging, revision binding and the append-only proof store of a code review
//! repository: the bookkeeping between "these files were reviewed" and a signed
//! proof appended to the project's store.
//!
//! The library holds no file handle and talks to no version control system. Its
//! functions take what was read (the persisted staging bytes, a snapshot of the
//! working tree, the current digest of each staged file) and return what is to
//! be written, so that every decision is made here and is verified.

pub mod bytes;
pub mod commit;
pub mod config;
pub mod frame;
pub mod level;
pub mod path;
pub mod repo;
pub mod review;
pub mod revision;
pub mod signing;
pub mod staging;
pub mod store;
