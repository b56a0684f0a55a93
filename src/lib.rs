//! An in-memory store of integer records, shared between concurrent requests
//! behind a reader-writer lock.
//!
//! `records` holds the store operations (search, append, bulk update) and their
//! laws; `fill` builds the initial contents from a seed; `std_db` keeps a store
//! behind a blocking reader-writer lock.

mod fill;
mod records;
mod std_db;

pub use records::{
    admissible_len, append_all, apply_updates, in_range, indexed, last_write, lemma_append_all,
    lemma_search_exact, lemma_update_targets, search_spec, DbCommon, DbError, Record, Records,
    MAX_LEN,
};
pub use std_db::{DbDesc, StdDb, StoreBound, DEFAULT_SEED, INITIAL_BOUND, INITIAL_LEN};
