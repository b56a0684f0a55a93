use crate::records::{admissible_len, in_range, search_spec, DbCommon, DbError, Record, Records};
use vstd::prelude::*;
use vstd::rwlock::{RwLock, RwLockPredicate};

verus! {

/// Number of records that a default store starts with.
pub const INITIAL_LEN: usize = 1_000_000;

/// Initial values of a default store are drawn below this bound.
pub const INITIAL_BOUND: i32 = 100_000;

/// Seed of the generator that fills a default store.
pub const DEFAULT_SEED: u64 = 0;

/// What a store behind a lock always satisfies: no operation removes a
/// record, so it never holds fewer than the `min_len` it started with, and its
/// length stays admissible.
pub struct StoreBound {
    pub min_len: usize,
}

impl RwLockPredicate<Vec<i32>> for StoreBound {
    open spec fn inv(self, v: Vec<i32>) -> bool {
        self.min_len <= v@.len() && admissible_len(v@.len())
    }
}

/// A store that names the lock it is kept behind.
pub trait DbDesc {
    fn description(&self) -> String;
}

/// A store behind a blocking reader-writer lock, whose waiters spin on atomic
/// flags: a search holds the shared scope, an append or an update holds the
/// exclusive one, and each operation releases its scope on every path before
/// it returns. No operation can fail while it holds a scope, so the lock never
/// holds a half-written store.
pub struct StdDb {
    records: RwLock<Vec<i32>, StoreBound>,
}

impl StdDb {
    /// The length that the store started with; it holds at least this many
    /// records in every state.
    pub closed spec fn min_len(&self) -> nat {
        self.records.pred().min_len as nat
    }

    /// A store holding `records`.
    pub fn new(records: Vec<i32>) -> (r: Self)
        requires
            admissible_len(records@.len()),
        ensures
            r.min_len() == records@.len(),
    {
        let ghost bound = StoreBound { min_len: records.len() };
        StdDb { records: RwLock::new(records, Ghost(bound)) }
    }

    /// The records that hold `query`, as the store stood at one instant
    /// between the call and the return, with no write half applied.
    pub fn search(&self, query: i32) -> (r: Records)
        ensures
            exists|s: Seq<i32>|
                self.min_len() <= s.len() && admissible_len(s.len()) && #[trigger] search_spec(
                    query,
                    s,
                ) == r.records@,
    {
        let handle = self.records.acquire_read();
        let r = DbCommon::search(query, handle.borrow().as_slice());
        handle.release_read();
        r
    }

    /// Appends `value` under the exclusive scope; fails only when the store
    /// is full.
    pub fn add(&self, value: i32) -> (r: Result<(), DbError>)
        ensures
            r is Err ==> r == Err::<(), DbError>(DbError::StoreFull),
    {
        let (mut records, handle) = self.records.acquire_write();
        let r = DbCommon::add(value, &mut records);
        handle.release_write(records);
        r
    }

    /// Applies `updates` under the exclusive scope, all or nothing: it fails,
    /// writing nothing, when an index lies outside the store as it stood.
    pub fn update(&self, updates: &[Record]) -> (r: Result<(), DbError>)
        ensures
            exists|s: Seq<i32>|
                self.min_len() <= s.len() && admissible_len(s.len()) && (r is Ok <==> #[trigger] in_range(
                    updates@,
                    s.len(),
                )),
            in_range(updates@, self.min_len()) ==> r is Ok,
            r is Err ==> r == Err::<(), DbError>(DbError::IndexOutOfRange),
    {
        let (mut records, handle) = self.records.acquire_write();
        let ghost before = records@;
        let r = DbCommon::update(updates, records.as_mut_slice());
        assert(self.min_len() <= before.len() && admissible_len(before.len()) && (r is Ok
            <==> in_range(updates@, before.len())));
        handle.release_write(records);
        r
    }

    /// A copy of the contents as they stood at one instant.
    pub fn snapshot(&self) -> (r: Vec<i32>)
        ensures
            self.min_len() <= r@.len(),
            admissible_len(r@.len()),
    {
        let handle = self.records.acquire_read();
        let r = handle.borrow().clone();
        handle.release_read();
        r
    }
}

impl Default for StdDb {
    /// A store of `INITIAL_LEN` values below `INITIAL_BOUND`, drawn from a
    /// generator seeded with `DEFAULT_SEED`.
    fn default() -> (r: Self)
        ensures
            r.min_len() == INITIAL_LEN,
    {
        StdDb::new(DbCommon::initial_records(INITIAL_LEN, INITIAL_BOUND, DEFAULT_SEED))
    }
}

impl DbDesc for StdDb {
    fn description(&self) -> String {
        "StdDb (with a spinning reader-writer lock)".to_owned()
    }
}

} // verus!
