//! The scoped owner: a per-request scope bundled with the computation
//! that borrows from it, under a fixed teardown order.
//!
//! A handler's computation may outlive the stack frame that forked its
//! scope, so the owner takes the forked registry by value and keeps it
//! alive for as long as the computation runs.  Advancing the computation
//! is delegated transparently to the registry's resolver; teardown is
//! fixed and total: the computation is dropped first, and only then can
//! the registry leave the owner.  The phase order makes the invariant a
//! type-checked protocol — the registry is never reclaimable while the
//! computation that borrows from it is still alive.

use vstd::prelude::*;

use crate::provider::{resolve_fuel, s_resolve, ServiceProvider};
use crate::value::Value;

verus! {

/// Where an owner stands in its fixed teardown order.
#[derive(Debug, PartialEq, Eq, Structural)]
pub enum OwnerPhase {
    /// The computation is alive and may still resolve from the scope.
    Active,
    /// The computation has been dropped; the registry is still held.
    ComputationDropped,
}

/// A unit of work's registry and the computation borrowing from it,
/// bundled so that the computation is always torn down before the
/// registry it borrows from.
pub struct ScopedOwner {
    /// The registry, held for the computation's whole lifetime.
    pub provider: ServiceProvider,
    /// The scope the computation resolves from.
    pub scope: usize,
    /// The teardown phase.
    pub phase: OwnerPhase,
}

impl ScopedOwner {
    /// Bundles a registry and the scope a computation will borrow from;
    /// the computation starts alive.
    pub fn new(provider: ServiceProvider, scope: usize) -> (r: Self)
        ensures
            r.provider@ == provider@,
            r.scope == scope,
            r.phase == OwnerPhase::Active,
    {
        ScopedOwner { provider, scope, phase: OwnerPhase::Active }
    }

    /// One advance of the computation: resolves `key` from the owned
    /// scope, exactly as the registry's resolver would, with no
    /// observation in between.  Only an alive computation may advance.
    pub fn poll_resolve(&mut self, key: u64) -> (r: Option<Value>)
        requires
            old(self).phase == OwnerPhase::Active,
        ensures
            final(self).scope == old(self).scope,
            final(self).phase == OwnerPhase::Active,
            ({
                let (m2, ov) = s_resolve(
                    old(self).provider@,
                    old(self).scope as int,
                    key,
                    resolve_fuel(old(self).provider@),
                );
                &&& final(self).provider@ == m2
                &&& match (r, ov) {
                    (Some(v), Some(vm)) => v@ == vm,
                    (None, None) => true,
                    _ => false,
                }
            }),
    {
        self.provider.resolve(self.scope, key)
    }

    /// First teardown step: drops the computation.  After this, the scope
    /// can no longer be resolved from through the owner.
    pub fn drop_computation(&mut self)
        requires
            old(self).phase == OwnerPhase::Active,
        ensures
            final(self).phase == OwnerPhase::ComputationDropped,
            final(self).provider@ == old(self).provider@,
            final(self).scope == old(self).scope,
    {
        self.phase = OwnerPhase::ComputationDropped;
    }

    /// Second teardown step: releases the registry.  Only reachable after
    /// the computation has been dropped, so the registry always outlives
    /// everything that borrowed from it.
    pub fn release(self) -> (r: ServiceProvider)
        requires
            self.phase == OwnerPhase::ComputationDropped,
        ensures
            r@ == self.provider@,
    {
        self.provider
    }
}

} // verus!
