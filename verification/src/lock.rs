//! A global lock for things like migrations, built on the server's refusal
//! to create a table that exists.
//!
//! The library decides; the caller talks to the server: it executes the
//! query that a lock hands out and hands the outcome back.

use crate::errors::KlickhouseError;
use crate::text::{chars_of, contains_chars, contains_text, push_str, string_of};
use vstd::prelude::*;

verus! {

/// Milliseconds to wait before the lock query is tried again.
pub const LOCK_RETRY_MILLIS: u64 = 100;

/// A named lock, optionally on a cluster.
#[derive(Debug)]
pub struct ClickhouseLock {
    name: String,
    cluster_str: String,
}

/// A handle on a lock that was acquired. Release it with
/// [`ClickhouseLockHandle::unlock`].
#[derive(Debug)]
pub struct ClickhouseLockHandle<'a> {
    lock: Option<&'a ClickhouseLock>,
}

/// What to do after one attempt to acquire a lock.
#[derive(Debug)]
pub enum LockAttempt<'a> {
    /// The lock is held.
    Acquired(ClickhouseLockHandle<'a>),
    /// Someone else holds the lock: wait this many milliseconds, execute the
    /// lock query again and report the outcome.
    Wait(u64),
    /// The server failed in another way.
    Failed(KlickhouseError),
}

impl ClickhouseLock {
    /// The name of the lock.
    pub closed spec fn name(&self) -> Seq<char> {
        self.name@
    }

    /// The cluster clause of the queries: empty, or `" ON CLUSTER "` and the
    /// cluster's name.
    pub closed spec fn cluster_clause(&self) -> Seq<char> {
        self.cluster_str@
    }

    /// The text of the query that takes the lock.
    pub open spec fn spec_lock_query(&self) -> Seq<char> {
        "CREATE TABLE _lock_"@ + self.name() + self.cluster_clause() + " (i Int64)ENGINE=Null"@
    }

    /// The text of the query that releases the lock.
    pub open spec fn spec_reset_query(&self) -> Seq<char> {
        "DROP TABLE IF EXISTS _lock_"@ + self.name() + self.cluster_clause() + " SYNC"@
    }

    /// Initialize a new lock.
    pub fn new(name: &str) -> (r: Self)
        ensures
            r.name() == name@,
            r.cluster_clause() == Seq::<char>::empty(),
    {
        ClickhouseLock { name: name.to_owned(), cluster_str: String::new() }
    }

    /// The same lock, taken on every node of `cluster`.
    pub fn with_cluster(self, cluster: &str) -> (r: Self)
        ensures
            r.name() == self.name(),
            r.cluster_clause() == " ON CLUSTER "@ + cluster@,
    {
        let mut clause: Vec<char> = Vec::new();
        push_str(&mut clause, " ON CLUSTER ");
        push_str(&mut clause, cluster);
        assert(clause@ =~= " ON CLUSTER "@ + cluster@);
        ClickhouseLock { name: self.name, cluster_str: string_of(&clause) }
    }

    /// The query whose success means that the lock was taken.
    pub fn lock_query(&self) -> (r: String)
        ensures
            r@ == self.spec_lock_query(),
    {
        let mut query: Vec<char> = Vec::new();
        push_str(&mut query, "CREATE TABLE _lock_");
        push_str(&mut query, self.name.as_str());
        push_str(&mut query, self.cluster_str.as_str());
        push_str(&mut query, " (i Int64)ENGINE=Null");
        assert(query@ =~= self.spec_lock_query());
        string_of(&query)
    }

    /// Whether an error of the lock query says that the lock is held by
    /// someone else.
    pub open spec fn spec_is_held(error: &KlickhouseError) -> bool {
        contains_text(error.message(), "already exists"@)
    }

    /// Whether an error of the lock query says that the lock is held by
    /// someone else.
    pub fn is_held(error: &KlickhouseError) -> (r: bool)
        ensures
            r == Self::spec_is_held(error),
    {
        let text = error.to_string();
        let hay = chars_of(text.as_str());
        let needle = chars_of("already exists");
        contains_chars(hay.as_slice(), needle.as_slice())
    }

    /// Attempts to lock a single time: `executed` is the outcome of
    /// executing [`ClickhouseLock::lock_query`]. Success gives a handle, an
    /// error that says the table already exists gives nothing, any other
    /// error is handed on.
    pub fn try_lock(&self, executed: Result<(), KlickhouseError>) -> (r: Result<
        Option<ClickhouseLockHandle<'_>>,
        KlickhouseError,
    >)
        ensures
            match executed {
                Ok(()) => r matches Ok(Some(handle)) && handle.held() == Some(*self),
                Err(e) => if Self::spec_is_held(&e) {
                    r matches Ok(None)
                } else {
                    r matches Err(f) && f == e
                },
            },
    {
        match executed {
            Ok(()) => Ok(Some(ClickhouseLockHandle { lock: Some(self) })),
            Err(e) => {
                if Self::is_held(&e) {
                    Ok(None)
                } else {
                    Err(e)
                }
            },
        }
    }

    /// One step of locking with retries: `executed` is the outcome of
    /// executing [`ClickhouseLock::lock_query`]. While someone else holds
    /// the lock, the caller is told to wait `LOCK_RETRY_MILLIS` and try again.
    pub fn lock(&self, executed: Result<(), KlickhouseError>) -> (r: LockAttempt<'_>)
        ensures
            match executed {
                Ok(()) => r matches LockAttempt::Acquired(handle) && handle.held() == Some(*self),
                Err(e) => if Self::spec_is_held(&e) {
                    r matches LockAttempt::Wait(millis) && millis == LOCK_RETRY_MILLIS
                } else {
                    r matches LockAttempt::Failed(f) && f == e
                },
            },
    {
        match executed {
            Ok(()) => LockAttempt::Acquired(ClickhouseLockHandle { lock: Some(self) }),
            Err(e) => {
                if Self::is_held(&e) {
                    LockAttempt::Wait(LOCK_RETRY_MILLIS)
                } else {
                    LockAttempt::Failed(e)
                }
            },
        }
    }

    /// Resets this lock, forcefully unlocking it: the query to execute.
    pub fn reset(&self) -> (r: String)
        ensures
            r@ == self.spec_reset_query(),
    {
        let mut query: Vec<char> = Vec::new();
        push_str(&mut query, "DROP TABLE IF EXISTS _lock_");
        push_str(&mut query, self.name.as_str());
        push_str(&mut query, self.cluster_str.as_str());
        push_str(&mut query, " SYNC");
        assert(query@ =~= self.spec_reset_query());
        string_of(&query)
    }
}

impl<'a> ClickhouseLockHandle<'a> {
    /// The lock that this handle still holds.
    pub closed spec fn held(&self) -> Option<ClickhouseLock> {
        match self.lock {
            Some(lock) => Some(*lock),
            None => None,
        }
    }

    /// Unlocks this handle explicitly: the query to execute, or nothing
    /// where the handle holds no lock any more.
    pub fn unlock(self) -> (r: Option<String>)
        ensures
            match self.held() {
                Some(lock) => r matches Some(query) && query@ == lock.spec_reset_query(),
                None => r is None,
            },
    {
        match self.lock {
            Some(lock) => Some(lock.reset()),
            None => None,
        }
    }
}

} // verus!
