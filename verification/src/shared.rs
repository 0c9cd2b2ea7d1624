use vstd::prelude::*;
use vstd::rwlock::RwLock;
use vstd::rwlock::RwLockPredicate;

use crate::cache::OriginCache;
use crate::error::AppError;
use crate::error::StoreError;
use crate::origin::Origin;

verus! {

/// What every generation installed in the shared lock satisfies: a
/// well-formed snapshot, holding at most one entry per domain.
pub struct CachePred;

impl RwLockPredicate<OriginCache> for CachePred {
    open spec fn inv(self, c: OriginCache) -> bool {
        c.wf()
    }
}

/// A snapshot shared between many concurrent readers and a refresh task.
///
/// The lock only ever holds one complete, well-formed generation at a time:
/// a refresh builds its replacement entirely outside the lock and installs
/// it in a single swap, so the exclusive hold covers the swap alone, never
/// store I/O, and a reader's view is never a mixture of two generations.
pub struct SharedOriginCache {
    lock: RwLock<OriginCache, CachePred>,
}

impl SharedOriginCache {
    /// A freshly shared cache holds the empty generation.
    pub fn new() -> (c: Self) {
        let cache = OriginCache::new();
        SharedOriginCache { lock: RwLock::new(cache, Ghost(CachePred)) }
    }

    /// Installs the outcome of a batch store read as the next generation.
    ///
    /// On a successful read the replacement generation is built first, in
    /// isolation, and then swapped in whole; on a failed read nothing is
    /// acquired or installed, so the previous generation stays authoritative,
    /// and the store's error is surfaced for the trigger to act on.
    pub fn refresh(&self, loaded: Result<Vec<Origin>, StoreError>) -> (r: Result<(), AppError>)
        ensures
            r is Ok <==> loaded is Ok,
            (loaded matches Err(e) ==> r == Err::<(), AppError>(AppError::Store(e))),
    {
        match loaded {
            Ok(records) => {
                let fresh = OriginCache::from_records(records);
                let (_stale, write_handle) = self.lock.acquire_write();
                write_handle.release_write(fresh);
                Ok(())
            },
            Err(e) => Err(AppError::Store(e)),
        }
    }

    /// Answers a point lookup against the one generation the reader
    /// observes: some complete, well-formed snapshot, never a value absent
    /// from every installed generation, and never a blocking store access.
    pub fn get(&self, domain: &str) -> (r: Option<Origin>)
        ensures
            exists|g: OriginCache| g.wf() && r == g.spec_get(domain@),
    {
        let read_handle = self.lock.acquire_read();
        let snapshot = read_handle.borrow();
        let r = snapshot.get(domain);
        proof {
            assert((*snapshot).wf() && r == (*snapshot).spec_get(domain@));
        }
        read_handle.release_read();
        r
    }
}

} // verus!
