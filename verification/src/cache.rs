use vstd::prelude::*;
use dashmap::DashMap;

verus! {

/// A directory from peer id to a per-peer index, backed by the concurrent
/// map so that transport tasks and pool workers can share it. The struct
/// is opaque to the verifier; everything the rest of the crate knows about
/// it comes from the contracts of the accessors below, each of which leans
/// on one method of the underlying map.
#[verifier::external_body]
pub struct PeerDirectory {
    inner: DashMap<u32, usize>,
}

/// The entries the directory currently holds, as a map from peer id to
/// the stored index.
pub uninterp spec fn dir_entries(d: PeerDirectory) -> Map<u32, usize>;

impl View for PeerDirectory {
    type V = Map<u32, usize>;

    open spec fn view(&self) -> Map<u32, usize> {
        dir_entries(*self)
    }
}

/// The state of a directory that holds no entries at all.
pub open spec fn empty_directory() -> Map<u32, usize> {
    Map::empty()
}

impl PeerDirectory {
    /// Relies on dashmap::DashMap::new: creates an empty map.
    #[verifier::external_body]
    pub fn new() -> (r: PeerDirectory)
        ensures
            r@ == empty_directory(),
            r@.dom().finite(),
    {
        PeerDirectory { inner: DashMap::new() }
    }

    /// Relies on dashmap::DashMap::insert: stores the value under the key
    /// and returns the value previously stored there, if any.
    #[verifier::external_body]
    pub fn insert(&mut self, key: u32, value: usize) -> (r: Option<usize>)
        ensures
            dir_entries(*final(self)) == dir_entries(*old(self)).insert(key, value),
            dir_entries(*final(self)).dom().finite() == dir_entries(*old(self)).dom().finite(),
            r == if dir_entries(*old(self)).dom().contains(key) {
                Some(dir_entries(*old(self))[key])
            } else {
                None::<usize>
            },
    {
        self.inner.insert(key, value)
    }

    /// Relies on dashmap::DashMap::get: returns the value stored under
    /// the key, if any.
    #[verifier::external_body]
    pub fn get(&self, key: u32) -> (r: Option<usize>)
        ensures
            r == if dir_entries(*self).dom().contains(key) {
                Some(dir_entries(*self)[key])
            } else {
                None::<usize>
            },
    {
        self.inner.get(&key).map(|entry| *entry)
    }

    /// Relies on dashmap::DashMap::remove: takes the entry for the key out
    /// of the map and returns its value, if the key was present.
    #[verifier::external_body]
    pub fn remove(&mut self, key: u32) -> (r: Option<usize>)
        ensures
            dir_entries(*final(self)) == dir_entries(*old(self)).remove(key),
            dir_entries(*final(self)).dom().finite() == dir_entries(*old(self)).dom().finite(),
            r == if dir_entries(*old(self)).dom().contains(key) {
                Some(dir_entries(*old(self))[key])
            } else {
                None::<usize>
            },
    {
        self.inner.remove(&key).map(|entry| entry.1)
    }
}

} // verus!
