use vstd::prelude::*;
use std::collections::HashMap;
use crate::custom_errors::CustomError;

verus! {

broadcast use vstd::std_specs::hash::group_hash_axioms;

/// The resource store: a process-wide singleton value per type.
///
/// Types are identified by the same caller-chosen tokens as component
/// types, and values are carried as plain 64-bit payloads; the store keeps
/// at most one payload per token.
pub struct Resource {
    /// The stored payload of every token that has one.
    pub data: HashMap<u64, u64>,
}

impl Resource {
    /// Returns the whole token-to-payload map.
    pub fn get_data(&self) -> (r: &HashMap<u64, u64>)
        ensures
            r@ == self.data@,
    {
        &self.data
    }

    /// Stores `value` under `token`, replacing and dropping any value the
    /// token already had; replacement is not an error.
    pub fn add_resource(&mut self, token: u64, value: u64)
        ensures
            final(self).data@ == old(self).data@.insert(token, value),
    {
        self.data.insert(token, value);
    }

    /// Returns a borrowed view of the value stored under `token`, or
    /// `None` when the token has none.
    pub fn get_ref(&self, token: u64) -> (r: Option<&u64>)
        ensures
            match r {
                Some(v) => self.data@.contains_key(token) && *v == self.data@[token],
                None => !self.data@.contains_key(token),
            },
    {
        match self.data.get(&token) {
            Some(d) => Some(d),
            None => None,
        }
    }

    /// The exclusive counterpart of [`Resource::get_ref`]: when `token`
    /// holds a value, replaces it with `value` and returns the previous
    /// payload; when it holds none, stores nothing and returns `None`.
    ///
    /// A borrow of a single slot cannot cross this store's boundary, so
    /// the exclusive view is taken and released inside the call: the read
    /// of the old payload and the write of the new one are one step.
    pub fn get_ref_mut(&mut self, token: u64, value: u64) -> (r: Option<u64>)
        ensures
            match r {
                Some(prev) => old(self).data@.contains_key(token) && prev == old(
                    self,
                ).data@[token] && final(self).data@ == old(self).data@.insert(token, value),
                None => !old(self).data@.contains_key(token) && final(self).data@ == old(
                    self,
                ).data@,
            },
    {
        if self.data.contains_key(&token) {
            match self.data.insert(token, value) {
                Some(prev) => Some(prev),
                None => vstd::pervasive::unreached(),
            }
        } else {
            None
        }
    }

    /// Deletes the value stored under `token`. Fails with
    /// `CanNotDeleteResource`, leaving the store unchanged, when the token
    /// has no stored value.
    pub fn delete_resource(&mut self, token: u64) -> (r: Result<(), CustomError>)
        ensures
            r is Ok <==> old(self).data@.contains_key(token),
            r is Ok ==> final(self).data@ == old(self).data@.remove(token),
            !old(self).data@.contains_key(token) ==> r == Err::<(), CustomError>(
                CustomError::CanNotDeleteResource,
            ) && final(self).data@ == old(self).data@,
    {
        match self.data.remove(&token) {
            Some(_) => Ok(()),
            None => Err(CustomError::CanNotDeleteResource),
        }
    }
}

impl Default for Resource {
    /// An empty resource store.
    fn default() -> (r: Resource)
        ensures
            r.data@ == Map::<u64, u64>::empty(),
    {
        Resource { data: HashMap::new() }
    }
}

} // verus!
