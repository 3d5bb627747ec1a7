//! The registry service: the sole API surface the transport layer consumes.
//! One store is shared by all callers, guarded by a verified reader/writer
//! lock: any number of lookups and searches may run concurrently, while a
//! creation or deletion takes exclusive access for its single map mutation.
//! The lock's invariant keeps the store well-formed — identifiers unique
//! among stored records — across every interleaving.

use vstd::prelude::*;
use vstd::rwlock::{RwLock, RwLockPredicate};

use crate::data::{Email, Pulsar, PulsarId};
use crate::store::{has_user, user_filter, views_of, RegistryStore};

verus! {

/// The one failure the registry reports: no stored record carries the
/// requested identifier (unknown, or already deleted). Empty search results
/// and duplicate user registrations are not errors.
#[derive(Debug, PartialEq, Eq)]
pub enum RegistryError {
    NotFound,
}

/// The lock invariant: every store that goes into the lock is well-formed.
pub struct StoreInv;

impl RwLockPredicate<RegistryStore> for StoreInv {
    open spec fn inv(self, s: RegistryStore) -> bool {
        s.wf()
    }
}

/// The registry service. Each operation is a single store call under the
/// lock, so every mutation is atomic: a call either fully applies or has no
/// effect, and an operation that completes before another begins is seen by
/// it. The lock hides the shared state, so each operation's contract speaks
/// of its own result; what an operation does to the store is stated, per
/// state, on [`RegistryStore`]'s operations, and the laws beside them.
pub struct PulsarService {
    pulsars: RwLock<RegistryStore, StoreInv>,
}

impl PulsarService {
    /// A service over a new, empty store.
    pub fn new() -> Self {
        PulsarService { pulsars: RwLock::new(RegistryStore::new(), Ghost(StoreInv)) }
    }

    /// Registers an endpoint: the store assigns a fresh identifier under the
    /// write lock and keeps a copy of the record. Always succeeds; the
    /// returned record is the stored one, with the identifier set and the
    /// given URL and users unchanged.
    pub fn create_pulsar(&self, users: Vec<Email>, pulsar_url: String) -> (r: Result<
        Pulsar,
        RegistryError,
    >)
        ensures
            r is Ok,
            (r->Ok_0).id is Some,
            (r->Ok_0).pulsar_url == pulsar_url,
            (r->Ok_0).users == users,
    {
        let record = Pulsar { id: None, pulsar_url, users };
        let (mut store, write_handle) = self.pulsars.acquire_write();
        let stored = store.insert(record);
        write_handle.release_write(store);
        Ok(stored)
    }

    /// The record carrying `id` at the moment the read lock is held, a copy
    /// of the stored one; `NotFound` when no stored record carries `id`.
    pub fn get_pulsar(&self, id: PulsarId) -> (r: Result<Pulsar, RegistryError>)
        ensures
            r is Ok ==> (r->Ok_0).id == Some(id),
            r is Err ==> r->Err_0 == RegistryError::NotFound,
    {
        let read_handle = self.pulsars.acquire_read();
        let found = read_handle.borrow().lookup(id);
        read_handle.release_read();
        match found {
            Some(p) => Ok(p),
            None => Err(RegistryError::NotFound),
        }
    }

    /// Every record whose user list contains `email` at the moment the read
    /// lock is held. An empty result is success, not an error; callers must
    /// not rely on the order.
    pub fn search_pulsar(&self, email: Email) -> (r: Result<Vec<Pulsar>, RegistryError>)
        ensures
            r is Ok,
            forall|k: int|
                0 <= k < (r->Ok_0)@.len() ==> has_user((#[trigger] (r->Ok_0)@[k])@, email@),
    {
        let read_handle = self.pulsars.acquire_read();
        let store = read_handle.borrow();
        let out = store.scan_by_email(&email);
        proof {
            assert forall|k: int| 0 <= k < out@.len() implies has_user(
                (#[trigger] out@[k])@,
                email@,
            ) by {
                store.records_seq().lemma_filter_pred(user_filter(email@), k);
                assert(views_of(out@)[k] == out@[k]@);
            }
        }
        read_handle.release_read();
        Ok(out)
    }

    /// Removes the record carrying `id` under the write lock: success when
    /// one was stored, `NotFound` when none was — so a second deletion of the
    /// same identifier reports `NotFound`, the removal being permanent. The
    /// lock hides which of the two happened here; [`RegistryStore::remove`]
    /// states both outcomes exactly, per store state.
    pub fn delete_pulsar(&self, id: PulsarId) -> (r: Result<(), RegistryError>)
        ensures
            r is Err ==> r->Err_0 == RegistryError::NotFound,
    {
        let (mut store, write_handle) = self.pulsars.acquire_write();
        let found = store.remove(id);
        write_handle.release_write(store);
        if found {
            Ok(())
        } else {
            Err(RegistryError::NotFound)
        }
    }

    /// Number of records stored at the moment the read lock is held.
    pub fn len(&self) -> usize {
        let read_handle = self.pulsars.acquire_read();
        let n = read_handle.borrow().len();
        read_handle.release_read();
        n
    }
}

} // verus!
