//! A dependency-injection engine: an ordered, type-key-indexed registry of
//! providers, a recursive type-directed resolver, scope forking with
//! shadowing, and a scoped owner that fixes the teardown order of a
//! per-request scope and the computation borrowing from it.

use vstd::prelude::*;

pub mod cell;
pub mod laws;
pub mod owner;
pub mod provider;
pub mod totality;
pub mod container;
pub mod value;

use crate::container::InstanceContainer;
use crate::value::{Value, ValueModel};

verus! {

/// Yields an owned value out of a wrapped container, possibly changing
/// the container's state.
pub trait Get<T: View>: Sized {
    /// What the next `get` returns, as a model.
    spec fn got_spec(&self) -> T::V;

    /// Takes a value out.
    fn get(&mut self) -> (r: T)
        ensures
            r@ == old(self).got_spec(),
    ;
}

/// Lends a value out of a wrapped container by reference.
pub trait GetRef<T: View>: Sized {
    /// What `get_ref` lends, as a model.
    spec fn ref_spec(&self) -> T::V;

    /// Borrows the held value.
    fn get_ref(&self) -> (r: &T)
        ensures
            r@ == self.ref_spec(),
    ;
}

/// Yields a duplicate of a wrapped container's value.
pub trait GetClone<T: View + Clone>: Sized {
    /// What `get_clone` duplicates, as a model.
    spec fn clone_spec(&self) -> T::V;

    /// Duplicates the held value.
    fn get_clone(&self) -> (r: T)
        ensures
            r@ == self.clone_spec(),
    ;
}

/// Wraps one container so that the access traits can be implemented on
/// it.
pub struct ContainerWrapper<T>(pub T);

impl GetRef<Value> for ContainerWrapper<InstanceContainer> {
    open spec fn ref_spec(&self) -> ValueModel {
        self.0@->Instance_value
    }

    fn get_ref(&self) -> (r: &Value) {
        self.0.get()
    }
}

impl GetClone<Value> for ContainerWrapper<InstanceContainer> {
    open spec fn clone_spec(&self) -> ValueModel {
        self.0@->Instance_value
    }

    fn get_clone(&self) -> (r: Value) {
        self.0.get().clone()
    }
}

impl Get<Value> for ContainerWrapper<InstanceContainer> {
    open spec fn got_spec(&self) -> ValueModel {
        self.0@->Instance_value
    }

    fn get(&mut self) -> (r: Value) {
        self.0.get().clone()
    }
}

} // verus!
