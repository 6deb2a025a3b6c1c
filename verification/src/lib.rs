use vstd::prelude::*;

pub mod custom_errors;
pub mod entity;
pub mod resource;

use crate::custom_errors::CustomError;
use crate::entity::Entity;
use crate::entity::query::Query;
use crate::resource::Resource;

verus! {

/// The façade over the two stores: an entity/component store and a
/// resource store, wired together and exposed to callers as one world.
pub struct World {
    /// The singleton values of the world, one per type token at most.
    pub resources: Resource,
    /// The entity rows and their typed component columns.
    pub entities: Entity,
}

impl World {
    /// Well-formedness of the world: its entity store is well-formed.
    pub open spec fn wf(self) -> bool {
        self.entities.wf()
    }

    /// A world with no resources, no registered types and no entities.
    pub fn new() -> (w: World)
        ensures
            w.wf(),
            w.entities.n_types() == 0,
            w.entities.n_entities() == 0,
            w.resources.data@ == Map::<u64, u64>::empty(),
    {
        World { resources: Resource::default(), entities: Entity::default() }
    }

    /// Adds a resource value under its type token, replacing any value
    /// that token already had.
    pub fn add_resource(&mut self, token: u64, value: u64)
        ensures
            final(self).resources.data@ == old(self).resources.data@.insert(token, value),
            final(self).entities == old(self).entities,
    {
        self.resources.add_resource(token, value);
    }

    /// Returns an immutable view of the resource stored under `token`.
    pub fn get_resources(&self, token: u64) -> (r: Option<&u64>)
        ensures
            match r {
                Some(v) => self.resources.data@.contains_key(token) && *v
                    == self.resources.data@[token],
                None => !self.resources.data@.contains_key(token),
            },
    {
        self.resources.get_ref(token)
    }

    /// Returns an immutable view of the world's entity store.
    pub fn get_entities(&self) -> (r: &Entity)
        ensures
            *r == self.entities,
    {
        &self.entities
    }

    /// The exclusive counterpart of [`World::get_resources`]: when `token`
    /// holds a value, replaces it with `value` and returns the previous
    /// payload; otherwise changes nothing and returns `None`.
    pub fn get_resource_mut(&mut self, token: u64, value: u64) -> (r: Option<u64>)
        ensures
            final(self).entities == old(self).entities,
            r is Some ==> old(self).resources.data@.contains_key(token),
            r is Some ==> r->Some_0 == old(self).resources.data@[token],
            r is Some ==> final(self).resources.data@ == old(self).resources.data@.insert(
                token,
                value,
            ),
            r is None ==> !old(self).resources.data@.contains_key(token),
            r is None ==> final(self).resources.data@ == old(self).resources.data@,
    {
        self.resources.get_ref_mut(token, value)
    }

    /// Deletes the resource stored under `token`; fails with
    /// `CanNotDeleteResource` when none is stored.
    pub fn delete_from_resources(&mut self, token: u64) -> (r: Result<(), CustomError>)
        ensures
            final(self).entities == old(self).entities,
            r is Ok <==> old(self).resources.data@.contains_key(token),
            r is Ok ==> final(self).resources.data@ == old(self).resources.data@.remove(token),
            !old(self).resources.data@.contains_key(token) ==> r == Err::<(), CustomError>(
                CustomError::CanNotDeleteResource,
            ) && final(self).resources.data@ == old(self).resources.data@,
    {
        self.resources.delete_resource(token)
    }

    /// Registers a component type on the world's entity store; see
    /// [`Entity::register_component`] for the bit assignment and the
    /// preconditions.
    pub fn register_component(&mut self, token: u64)
        requires
            old(self).wf(),
            !old(self).entities.is_registered(token),
            old(self).entities.n_types() < crate::entity::MAX_COMPONENT_TYPES,
        ensures
            final(self).wf(),
            final(self).resources == old(self).resources,
            final(self).entities.tokens@ == old(self).entities.tokens@.push(token),
            final(self).entities.bitmap@ == old(self).entities.bitmap@,
            final(self).entities.type_index(token) == old(self).entities.n_types(),
            final(self).entities.bit_of(token) == 1u32 << (old(self).entities.n_types() as u32),
            forall|t: u64|
                old(self).entities.is_registered(t)
                    ==> #[trigger] final(self).entities.type_index(t)
                    == old(self).entities.type_index(t)
                    && final(self).entities.bit_of(t) == old(self).entities.bit_of(t),
    {
        self.entities.register_component(token);
    }

    /// Appends a fresh entity row and returns the entity store itself, so
    /// that components can be attached to the new row.
    pub fn create_entity(&mut self) -> (r: &mut Entity)
        requires
            old(self).wf(),
        ensures
            (*r).wf(),
            (*r).tokens@ == old(self).entities.tokens@,
            (*r).index_of@ == old(self).entities.index_of@,
            (*r).n_entities() == old(self).entities.n_entities() + 1,
            (*r).bitmap@ == old(self).entities.bitmap@.push(0u32),
            (*r).components@.len() == old(self).entities.components@.len(),
            forall|k: int|
                0 <= k < old(self).entities.n_types() ==> #[trigger] (*r).column(k) == old(
                    self,
                ).entities.column(k).push(None),
            final(self).entities == *final(r),
            final(self).resources == old(self).resources,
    {
        self.entities.create_entity();
        &mut self.entities
    }

    /// Binds a fresh, empty query to the world's entity store.
    pub fn query<'a>(&'a self) -> (q: Query<'a>)
        requires
            self.wf(),
        ensures
            q.wf(),
            q.entities == &self.entities,
            q.map == 0,
            q.type_ids@.len() == 0,
    {
        Query::new(&self.entities)
    }
}

} // verus!
