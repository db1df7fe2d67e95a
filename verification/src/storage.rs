//! In-memory storage of pending cross-chain transaction records, by id.

use vstd::prelude::*;

use crate::assoc::{DeepClone, StrMap};
use crate::coordinator::CoordinatorError;
use crate::pending_xt::{PendingXt, PendingXtView};

verus! {

/// Pending instances kept in memory under their ids.
#[derive(Debug)]
pub struct InMemoryStorage {
    pub store: StrMap<PendingXt>,
}

impl InMemoryStorage {
    pub fn new() -> (s: Self)
        ensures
            s.store@ == Map::<Seq<char>, PendingXtView>::empty(),
    {
        InMemoryStorage { store: StrMap::new() }
    }

    /// Store a new instance; an id already in use is refused and nothing changes.
    pub fn insert(&mut self, id: &String, xt: PendingXt) -> (r: Result<(), CoordinatorError>)
        ensures
            match r {
                Ok(()) => !old(self).store@.dom().contains(id@) && final(self).store@ == old(self).store@.insert(
                    id@,
                    xt.deep_view(),
                ),
                Err(e) => old(self).store@.dom().contains(id@) && final(self).store@ == old(self).store@
                    && (e matches CoordinatorError::InstanceAlreadyPending(s) && s@ == id@),
            },
    {
        if self.store.contains_key(id) {
            return Err(CoordinatorError::InstanceAlreadyPending(id.clone()));
        }
        self.store.insert(id.clone(), xt);
        Ok(())
    }

    /// A copy of the instance stored under `id`.
    pub fn get(&self, id: &String) -> (r: Option<PendingXt>)
        ensures
            match r {
                Some(x) => self.store@.dom().contains(id@) && x.deep_view() == self.store@[id@],
                None => !self.store@.dom().contains(id@),
            },
    {
        match self.store.get(id) {
            Some(x) => Some(x.deep_clone()),
            None => None,
        }
    }

    /// Store `xt` under `id`, replacing what was there.
    pub fn update(&mut self, id: &String, xt: PendingXt)
        ensures
            final(self).store@ == old(self).store@.insert(id@, xt.deep_view()),
    {
        self.store.insert(id.clone(), xt);
    }

    /// Forget the instance stored under `id`, if any.
    pub fn remove(&mut self, id: &String)
        ensures
            final(self).store@ == old(self).store@.remove(id@),
    {
        let _ = self.store.remove(id);
    }

    /// The ids of the stored instances, each once.
    pub fn list_ids(&self) -> (ids: Vec<String>)
        ensures
            ids.deep_view().no_duplicates(),
            forall|k: Seq<char>| ids.deep_view().contains(k) <==> self.store@.dom().contains(k),
    {
        self.store.keys()
    }
}

} // verus!
