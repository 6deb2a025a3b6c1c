use vstd::prelude::*;

verus! {

/// The recoverable failures of the store.
///
/// Every fallible operation reports one of these by value; none of them is
/// ever raised as a panic. `ComponentNotFound` is part of the taxonomy for
/// the defensive check inside `Query::run`, which is proved unreachable.
#[derive(Clone, Copy, Debug, PartialEq, Eq, Structural)]
pub enum CustomError {
    /// A component was attached before any entity row existed.
    CreateComponentNeverCalled,
    /// An operation named a component type that was never registered.
    UnregisteredComponentAdded,
    /// A resource deletion named a type with no stored value.
    CanNotDeleteResource,
    /// A component slot that had to be filled was empty; never produced.
    ComponentNotFound,
}

impl CustomError {
    /// A human-readable description of the failure.
    pub fn message(&self) -> (r: &'static str)
        ensures
            r@ == match *self {
                CustomError::CreateComponentNeverCalled => "Function with_component has called before calling create_entity"@,
                CustomError::UnregisteredComponentAdded => "Attempted to add a component to unregistered component"@,
                CustomError::CanNotDeleteResource => "Can not delete the specified resource"@,
                CustomError::ComponentNotFound => "Component Not Found"@,
            },
    {
        match *self {
            CustomError::CreateComponentNeverCalled => "Function with_component has called before calling create_entity",
            CustomError::UnregisteredComponentAdded => "Attempted to add a component to unregistered component",
            CustomError::CanNotDeleteResource => "Can not delete the specified resource",
            CustomError::ComponentNotFound => "Component Not Found",
        }
    }
}

} // verus!
