//! The write-once cell behind singleton providers.
//!
//! Singleton state lives in `once_cell::sync::OnceCell`, a write-once,
//! concurrency-safe cell.  The cell is opaque here; what it holds is named
//! by [`cell_contents`], and the few operations the engine uses are trusted
//! wrappers whose contracts say how they read or change that contents.
//! Every wrapper that changes the contents takes the cell exclusively, so
//! the contents named for a cell value never changes behind a shared
//! borrow.

use vstd::prelude::*;

use crate::value::{Value, ValueModel};

verus! {

#[verifier::external_type_specification]
#[verifier::external_body]
#[verifier::reject_recursive_types(T)]
pub struct ExOnceCell<T>(once_cell::sync::OnceCell<T>);

/// What a cell holds: nothing, or the one value it was initialized with.
pub uninterp spec fn cell_contents(c: once_cell::sync::OnceCell<Value>) -> Option<ValueModel>;

/// Relies on `once_cell::sync::OnceCell::new`: creates an empty cell.
#[verifier::external_body]
pub(crate) fn cell_new() -> (r: once_cell::sync::OnceCell<Value>)
    ensures
        cell_contents(r) is None,
{
    once_cell::sync::OnceCell::new()
}

/// Relies on `once_cell::sync::OnceCell::get`: returns a reference to the
/// stored value, or `None` while the cell is empty.
#[verifier::external_body]
pub(crate) fn cell_get(c: &once_cell::sync::OnceCell<Value>) -> (r: Option<&Value>)
    ensures
        match r {
            Some(v) => cell_contents(*c) == Some(v@),
            None => cell_contents(*c) is None,
        },
{
    c.get()
}

/// Relies on `once_cell::sync::OnceCell::set`: stores a value in an empty
/// cell; later reads return that value.
#[verifier::external_body]
pub(crate) fn cell_init(c: &mut once_cell::sync::OnceCell<Value>, v: Value)
    requires
        cell_contents(*old(c)) is None,
    ensures
        cell_contents(*final(c)) == Some(v@),
{
    let _ = c.set(v);
}

} // verus!
