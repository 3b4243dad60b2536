//! The engine's laws: what resolution guarantees, stated over the spec
//! resolver and proved once for every registry.
//!
//! The supporting lemmas say what resolution may change (singleton cells
//! and the identity counter, nothing else) and what it keeps (lookup
//! positions, scope layout, identity monotonicity); the public laws state
//! transient independence, singleton identity, instance passthrough,
//! scope isolation and shadowing, conversion composition, and factory
//! equivalence.

use vstd::prelude::*;

use crate::container::{cm_key, rc_needed, rc_step, ContainerModel};
use crate::provider::{
    find_in_chain, find_in_containers, lemma_deps_shape, lemma_find_chain_in_range,
    lemma_find_shape, lemma_resolve_shape, s_deps, s_resolve, same_shape, shape_eq, sp_push,
    sp_update, ScopeModel, SpModel,
};
use crate::value::{eval_ctor, ValueModel};

verus! {

/// A provider that constructs anew on every resolution.
pub open spec fn is_transient(c: ContainerModel) -> bool {
    c is Transient || c is TransientFactory
}

/// A provider that constructs at most once and caches the result.
pub open spec fn is_singleton(c: ContainerModel) -> bool {
    c is Singleton || c is SingletonFactory
}

/// The cached value of a singleton provider.
pub open spec fn cm_cell(c: ContainerModel) -> Option<ValueModel> {
    match c {
        ContainerModel::Singleton { cell, .. } => cell,
        ContainerModel::SingletonFactory { cell, .. } => cell,
        _ => None,
    }
}

/// The registry extended by one fresh scope, as forking extends it.
pub open spec fn sp_fork(m: SpModel, sc: ScopeModel) -> SpModel {
    SpModel { scopes: m.scopes.push(sc), next_uid: m.next_uid }
}

/// One production step never decreases the identity counter.
pub proof fn lemma_rc_step_uid(c: ContainerModel, ds: Seq<ValueModel>, u: u64)
    ensures
        rc_step(c, ds, u).2 >= u,
    decreases c,
{
    match c {
        ContainerModel::Convert { inner, .. } => lemma_rc_step_uid(*inner, ds, u),
        _ => {},
    }
}

/// Resolution never decreases the identity counter.
pub proof fn lemma_resolve_uid(m: SpModel, s: int, key: u64, fuel: nat)
    ensures
        s_resolve(m, s, key, fuel).0.next_uid >= m.next_uid,
    decreases fuel, 0nat,
{
    if fuel != 0 {
        match find_in_chain(m, s, key) {
            None => {},
            Some((si, ci)) => {
                let c0 = m.scopes[si].containers[ci];
                if rc_needed(c0).len() == 0 {
                    lemma_rc_step_uid(c0, Seq::empty(), m.next_uid);
                } else {
                    let (m1, ods) = s_deps(m, s, rc_needed(c0), (fuel - 1) as nat);
                    lemma_deps_uid(m, s, rc_needed(c0), (fuel - 1) as nat);
                    match ods {
                        None => {},
                        Some(ds) => {
                            lemma_rc_step_uid(m1.scopes[si].containers[ci], ds, m1.next_uid);
                        },
                    }
                }
            },
        }
    }
}

/// Dependency-list resolution never decreases the identity counter.
pub proof fn lemma_deps_uid(m: SpModel, s: int, keys: Seq<u64>, fuel: nat)
    ensures
        s_deps(m, s, keys, fuel).0.next_uid >= m.next_uid,
    decreases fuel, 1 + keys.len(),
{
    if keys.len() != 0 {
        let (m1, ov) = s_resolve(m, s, keys[0], fuel);
        lemma_resolve_uid(m, s, keys[0], fuel);
        match ov {
            None => {},
            Some(v) => {
                lemma_deps_uid(m1, s, keys.skip(1), fuel);
            },
        }
    }
}

/// Replacing a container by the value it already holds, keeping the
/// counter, changes nothing.
proof fn lemma_sp_update_identity(m: SpModel, si: int, ci: int)
    requires
        0 <= si < m.scopes.len(),
        0 <= ci < m.scopes[si].containers.len(),
    ensures
        sp_update(m, si, ci, m.scopes[si].containers[ci], m.next_uid) == m,
{
    let m2 = sp_update(m, si, ci, m.scopes[si].containers[ci], m.next_uid);
    assert(m.scopes[si].containers.update(ci, m.scopes[si].containers[ci]) =~= m.scopes[
        si
    ].containers);
    assert(m2.scopes[si] =~= m.scopes[si]);
    assert(m2.scopes =~= m.scopes);
    assert(m2 =~= m);
}

/// A successful production step of a transient provider mints exactly the
/// handed identity and advances the counter past it.
proof fn lemma_rc_step_transient(c: ContainerModel, ds: Seq<ValueModel>, u: u64)
    requires
        is_transient(c),
        rc_step(c, ds, u).1 is Some,
    ensures
        rc_step(c, ds, u).1->0.uid == u,
        rc_step(c, ds, u).2 == u + 1,
{
}

/// A successful resolution of a transient provider returns a value whose
/// identity was minted during this very resolution: at least the counter
/// before the call, strictly below the counter after it.
pub proof fn lemma_transient_resolve_uid(m: SpModel, s: int, key: u64, fuel: nat)
    requires
        find_in_chain(m, s, key) matches Some((si, ci)) && is_transient(
            m.scopes[si].containers[ci],
        ),
        s_resolve(m, s, key, fuel).1 is Some,
    ensures
        m.next_uid <= s_resolve(m, s, key, fuel).1->0.uid,
        s_resolve(m, s, key, fuel).1->0.uid < s_resolve(m, s, key, fuel).0.next_uid,
{
    let (si, ci) = find_in_chain(m, s, key)->0;
    lemma_find_chain_in_range(m, s, key);
    let c0 = m.scopes[si].containers[ci];
    if rc_needed(c0).len() == 0 {
        lemma_rc_step_transient(c0, Seq::empty(), m.next_uid);
    } else {
        let (m1, ods) = s_deps(m, s, rc_needed(c0), (fuel - 1) as nat);
        lemma_deps_uid(m, s, rc_needed(c0), (fuel - 1) as nat);
        lemma_deps_shape(m, s, rc_needed(c0), (fuel - 1) as nat);
        let ds = ods->0;
        let c1 = m1.scopes[si].containers[ci];
        assert(shape_eq(c0, c1));
        assert(is_transient(c1));
        lemma_rc_step_transient(c1, ds, m1.next_uid);
    }
}

/// Transient independence: resolving the same transient-declared key
/// twice from the same registry yields two values with distinct storage
/// identities — no state is shared between the two constructions.
pub proof fn lemma_transient_independence(m: SpModel, s: int, key: u64, fuel1: nat, fuel2: nat)
    requires
        find_in_chain(m, s, key) matches Some((si, ci)) && is_transient(
            m.scopes[si].containers[ci],
        ),
        s_resolve(m, s, key, fuel1).1 is Some,
        s_resolve(s_resolve(m, s, key, fuel1).0, s, key, fuel2).1 is Some,
    ensures
        s_resolve(m, s, key, fuel1).1->0.uid != s_resolve(
            s_resolve(m, s, key, fuel1).0,
            s,
            key,
            fuel2,
        ).1->0.uid,
{
    let (si, ci) = find_in_chain(m, s, key)->0;
    let (m1, ov1) = s_resolve(m, s, key, fuel1);
    lemma_transient_resolve_uid(m, s, key, fuel1);
    lemma_resolve_shape(m, s, key, fuel1);
    lemma_find_shape(m, m1, s, key);
    lemma_find_chain_in_range(m, s, key);
    assert(shape_eq(m.scopes[si].containers[ci], m1.scopes[si].containers[ci]));
    lemma_transient_resolve_uid(m1, s, key, fuel2);
}

/// A successful production step of a singleton provider leaves the
/// produced value in the cell.
proof fn lemma_rc_step_singleton(c: ContainerModel, ds: Seq<ValueModel>, u: u64)
    requires
        is_singleton(c),
        rc_step(c, ds, u).1 is Some,
    ensures
        is_singleton(rc_step(c, ds, u).0),
        cm_cell(rc_step(c, ds, u).0) == Some(rc_step(c, ds, u).1->0),
{
}

/// After a successful resolution of a singleton provider, its cell holds
/// exactly the returned value.
pub proof fn lemma_singleton_first_resolve(m: SpModel, s: int, key: u64, fuel: nat)
    requires
        find_in_chain(m, s, key) matches Some((si, ci)) && is_singleton(
            m.scopes[si].containers[ci],
        ),
        s_resolve(m, s, key, fuel).1 is Some,
    ensures
        ({
            let (m1, ov) = s_resolve(m, s, key, fuel);
            let (si, ci) = find_in_chain(m, s, key)->0;
            &&& is_singleton(m1.scopes[si].containers[ci])
            &&& cm_cell(m1.scopes[si].containers[ci]) == Some(ov->0)
        }),
{
    let (si, ci) = find_in_chain(m, s, key)->0;
    lemma_find_chain_in_range(m, s, key);
    let c0 = m.scopes[si].containers[ci];
    if rc_needed(c0).len() == 0 {
        lemma_rc_step_singleton(c0, Seq::empty(), m.next_uid);
    } else {
        let (md, ods) = s_deps(m, s, rc_needed(c0), (fuel - 1) as nat);
        lemma_deps_shape(m, s, rc_needed(c0), (fuel - 1) as nat);
        let c1 = md.scopes[si].containers[ci];
        assert(shape_eq(c0, c1));
        lemma_rc_step_singleton(c1, ods->0, md.next_uid);
    }
}

/// Singleton identity: once a singleton-declared key has been resolved,
/// resolving it again from the same registry returns the identical cached
/// value and changes nothing — the constructor does not run again, no
/// dependency is resolved, no identity is minted.
pub proof fn lemma_singleton_identity(m: SpModel, s: int, key: u64, fuel1: nat, fuel2: nat)
    requires
        find_in_chain(m, s, key) matches Some((si, ci)) && is_singleton(
            m.scopes[si].containers[ci],
        ),
        s_resolve(m, s, key, fuel1).1 is Some,
        fuel2 > 0,
    ensures
        s_resolve(s_resolve(m, s, key, fuel1).0, s, key, fuel2).1 == s_resolve(
            m,
            s,
            key,
            fuel1,
        ).1,
        s_resolve(s_resolve(m, s, key, fuel1).0, s, key, fuel2).0 == s_resolve(m, s, key, fuel1).0,
{
    let (si, ci) = find_in_chain(m, s, key)->0;
    let (m1, ov1) = s_resolve(m, s, key, fuel1);
    let v1 = ov1->0;
    lemma_singleton_first_resolve(m, s, key, fuel1);
    lemma_resolve_shape(m, s, key, fuel1);
    lemma_find_shape(m, m1, s, key);
    lemma_find_chain_in_range(m, s, key);
    let c1 = m1.scopes[si].containers[ci];
    assert(cm_cell(c1) == Some(v1));
    assert(rc_needed(c1).len() == 0);
    assert(rc_step(c1, Seq::empty(), m1.next_uid) == (c1, Some(v1), m1.next_uid));
    lemma_sp_update_identity(m1, si, ci);
}

/// Instance passthrough: resolving a key provided by an instance
/// registration returns exactly the registered value — same contents,
/// same storage identity — and changes nothing in the registry.
pub proof fn lemma_instance_passthrough(m: SpModel, s: int, key: u64, fuel: nat)
    requires
        fuel > 0,
        find_in_chain(m, s, key) matches Some((si, ci)) && m.scopes[si].containers[ci] matches
            ContainerModel::Instance { .. },
    ensures
        ({
            let (si, ci) = find_in_chain(m, s, key)->0;
            &&& s_resolve(m, s, key, fuel).1 == Some(
                m.scopes[si].containers[ci]->Instance_value,
            )
            &&& s_resolve(m, s, key, fuel).0 == m
        }),
{
    let (si, ci) = find_in_chain(m, s, key)->0;
    lemma_find_chain_in_range(m, s, key);
    lemma_sp_update_identity(m, si, ci);
}

/// Scope shadowing: a scope that itself provides `key` answers lookups
/// for `key` from its own containers, whatever the parent chain provides.
pub proof fn lemma_scope_shadowing(m: SpModel, child: int, key: u64)
    requires
        0 <= child < m.scopes.len(),
        find_in_containers(m.scopes[child].containers, key) is Some,
    ensures
        find_in_chain(m, child, key) == Some(
            (child, find_in_containers(m.scopes[child].containers, key)->0),
        ),
{
}

/// Lookup from an existing scope is blind to a freshly appended scope.
pub proof fn lemma_find_extend(m: SpModel, sc: ScopeModel, s: int, key: u64)
    requires
        s < m.scopes.len(),
    ensures
        find_in_chain(sp_fork(m, sc), s, key) == find_in_chain(m, s, key),
    decreases s,
{
    let me = sp_fork(m, sc);
    if 0 <= s {
        assert(me.scopes[s] == m.scopes[s]);
        let p = m.scopes[s].parent as int;
        if find_in_containers(m.scopes[s].containers, key) is None && p < s {
            lemma_find_extend(m, sc, p, key);
        }
    }
}

/// Scope isolation: forking a child scope changes nothing about what any
/// existing scope resolves.  Resolution from scope `s` in the extended
/// registry returns the same value and performs the same state change as
/// in the registry without the new scope; the new scope rides along
/// untouched.
pub proof fn lemma_fork_isolation(m: SpModel, sc: ScopeModel, s: int, key: u64, fuel: nat)
    requires
        0 <= s < m.scopes.len(),
    ensures
        s_resolve(sp_fork(m, sc), s, key, fuel).1 == s_resolve(m, s, key, fuel).1,
        s_resolve(sp_fork(m, sc), s, key, fuel).0 == sp_fork(s_resolve(m, s, key, fuel).0, sc),
    decreases fuel, 0nat,
{
    let me = sp_fork(m, sc);
    if fuel == 0 {
        assert(s_resolve(me, s, key, fuel).0 =~= sp_fork(s_resolve(m, s, key, fuel).0, sc));
    } else {
        lemma_find_extend(m, sc, s, key);
        match find_in_chain(m, s, key) {
            None => {
                assert(s_resolve(me, s, key, fuel).0 =~= sp_fork(s_resolve(m, s, key, fuel).0, sc));
            },
            Some((si, ci)) => {
                lemma_find_chain_in_range(m, s, key);
                assert(me.scopes[si] == m.scopes[si]);
                let c0 = m.scopes[si].containers[ci];
                if rc_needed(c0).len() == 0 {
                    let (c2, ov, u2) = rc_step(c0, Seq::empty(), m.next_uid);
                    lemma_sp_update_extend(m, sc, si, ci, c2, u2);
                } else {
                    let needed = rc_needed(c0);
                    lemma_deps_isolation(m, sc, s, needed, (fuel - 1) as nat);
                    let (m1, ods) = s_deps(m, s, needed, (fuel - 1) as nat);
                    lemma_deps_shape(m, s, needed, (fuel - 1) as nat);
                    match ods {
                        None => {},
                        Some(ds) => {
                            assert(sp_fork(m1, sc).scopes[si] == m1.scopes[si]);
                            let c1 = m1.scopes[si].containers[ci];
                            let (c2, ov, u2) = rc_step(c1, ds, m1.next_uid);
                            lemma_sp_update_extend(m1, sc, si, ci, c2, u2);
                        },
                    }
                }
            },
        }
    }
}

/// Updating a container commutes with appending a scope.
proof fn lemma_sp_update_extend(m: SpModel, sc: ScopeModel, si: int, ci: int, c2: ContainerModel, u2: u64)
    requires
        0 <= si < m.scopes.len(),
    ensures
        sp_update(sp_fork(m, sc), si, ci, c2, u2) == sp_fork(sp_update(m, si, ci, c2, u2), sc),
{
    assert(sp_fork(m, sc).scopes[si] == m.scopes[si]);
    assert(sp_update(sp_fork(m, sc), si, ci, c2, u2).scopes =~= sp_fork(
        sp_update(m, si, ci, c2, u2),
        sc,
    ).scopes);
    assert(sp_update(sp_fork(m, sc), si, ci, c2, u2) =~= sp_fork(
        sp_update(m, si, ci, c2, u2),
        sc,
    ));
}

/// Dependency-list resolution from an existing scope is likewise blind to
/// a freshly appended scope.
pub proof fn lemma_deps_isolation(m: SpModel, sc: ScopeModel, s: int, keys: Seq<u64>, fuel: nat)
    requires
        0 <= s < m.scopes.len(),
    ensures
        s_deps(sp_fork(m, sc), s, keys, fuel).1 == s_deps(m, s, keys, fuel).1,
        s_deps(sp_fork(m, sc), s, keys, fuel).0 == sp_fork(s_deps(m, s, keys, fuel).0, sc),
    decreases fuel, 1 + keys.len(),
{
    let me = sp_fork(m, sc);
    if keys.len() == 0 {
        assert(s_deps(me, s, keys, fuel).0 =~= sp_fork(s_deps(m, s, keys, fuel).0, sc));
    } else {
        lemma_fork_isolation(m, sc, s, keys[0], fuel);
        let (m1, ov) = s_resolve(m, s, keys[0], fuel);
        lemma_resolve_shape(m, s, keys[0], fuel);
        match ov {
            None => {},
            Some(v) => {
                lemma_deps_isolation(m1, sc, s, keys.skip(1), fuel);
            },
        }
    }
}

/// Conversion composition: one production step of a conversion provider
/// performs exactly the inner provider's production step — same inner
/// state change, same construction effects — and then applies the
/// conversion to the produced value, minting one identity for the
/// converted value.
pub proof fn lemma_conversion_composition(
    key: u64,
    seed: Seq<u64>,
    inner: ContainerModel,
    ds: Seq<ValueModel>,
    u: u64,
)
    ensures
        ({
            let (i2, ov, u2) = rc_step(inner, ds, u);
            let (c2, ovc, u3) = rc_step(
                ContainerModel::Convert { key, seed, inner: Box::new(inner) },
                ds,
                u,
            );
            &&& c2 == (ContainerModel::Convert { key, seed, inner: Box::new(i2) })
            &&& match (ovc, ov) {
                (Some(cv), Some(t)) => {
                    &&& cv.fields == seed + t.fields
                    &&& cv.key == key
                    &&& cv.uid == u2
                    &&& u3 == u2 + 1
                },
                (None, Some(t)) => u2 == u64::MAX,
                (None, None) => u3 == u2,
                (Some(_), None) => false,
            }
        }),
{
}

/// Factory equivalence: a factory registration behaves exactly as a plain
/// transient registration with the same dependency list and constructor —
/// and what it produces is precisely the supplied constructor applied to
/// the resolved dependency tuple.
pub proof fn lemma_factory_equivalence(
    key: u64,
    deps: Seq<u64>,
    seed: Seq<u64>,
    ds: Seq<ValueModel>,
    u: u64,
)
    ensures
        rc_step(ContainerModel::TransientFactory { key, deps, seed }, ds, u).1 == rc_step(
            ContainerModel::Transient { key, deps, seed },
            ds,
            u,
        ).1,
        rc_step(ContainerModel::TransientFactory { key, deps, seed }, ds, u).2 == rc_step(
            ContainerModel::Transient { key, deps, seed },
            ds,
            u,
        ).2,
        rc_step(ContainerModel::TransientFactory { key, deps, seed }, ds, u).1 matches Some(v)
            ==> v.fields == eval_ctor(seed, ds),
{
}

/// Whether scope `c` lies on the parent chain of scope `s` (itself
/// included).
pub open spec fn in_chain(m: SpModel, s: int, c: int) -> bool
    decreases s,
{
    if s < 0 || s >= m.scopes.len() {
        false
    } else if c == s {
        true
    } else {
        let p = m.scopes[s].parent as int;
        p < s && in_chain(m, p, c)
    }
}

/// A lookup from scope `s` lands on a scope of `s`'s own chain.
pub proof fn lemma_find_lands_in_chain(m: SpModel, s: int, key: u64)
    ensures
        find_in_chain(m, s, key) matches Some((si, ci)) ==> in_chain(m, s, si),
    decreases s,
{
    if 0 <= s < m.scopes.len() {
        let p = m.scopes[s].parent as int;
        if find_in_containers(m.scopes[s].containers, key) is None && p < s {
            lemma_find_lands_in_chain(m, p, key);
        }
    }
}

/// Chain membership depends only on the registry's build.
proof fn lemma_in_chain_shape(m: SpModel, m2: SpModel, s: int, c: int)
    requires
        same_shape(m, m2),
    ensures
        in_chain(m, s, c) == in_chain(m2, s, c),
    decreases s,
{
    if 0 <= s < m.scopes.len() && c != s {
        let p = m.scopes[s].parent as int;
        if p < s {
            lemma_in_chain_shape(m, m2, p, c);
        }
    }
}

/// Lookup from scope `s` is blind to a registration in a scope off `s`'s
/// chain.
proof fn lemma_find_push(m: SpModel, c: int, x: ContainerModel, s: int, key: u64)
    requires
        0 <= c < m.scopes.len(),
        !in_chain(m, s, c),
    ensures
        find_in_chain(sp_push(m, c, x), s, key) == find_in_chain(m, s, key),
    decreases s,
{
    let me = sp_push(m, c, x);
    if 0 <= s < m.scopes.len() {
        assert(me.scopes[s] == m.scopes[s]);
        let p = m.scopes[s].parent as int;
        if find_in_containers(m.scopes[s].containers, key) is None && p < s {
            lemma_find_push(m, c, x, p, key);
        }
    }
}

/// Updating a container off scope `c` commutes with a registration in
/// scope `c`.
proof fn lemma_sp_update_push(
    m: SpModel,
    c: int,
    x: ContainerModel,
    si: int,
    ci: int,
    c2: ContainerModel,
    u2: u64,
)
    requires
        0 <= c < m.scopes.len(),
        0 <= si < m.scopes.len(),
        si != c,
    ensures
        sp_update(sp_push(m, c, x), si, ci, c2, u2) == sp_push(
            sp_update(m, si, ci, c2, u2),
            c,
            x,
        ),
{
    assert(sp_push(m, c, x).scopes[si] == m.scopes[si]);
    assert(sp_update(m, si, ci, c2, u2).scopes[c] == m.scopes[c]);
    assert(sp_update(sp_push(m, c, x), si, ci, c2, u2).scopes =~= sp_push(
        sp_update(m, si, ci, c2, u2),
        c,
        x,
    ).scopes);
    assert(sp_update(sp_push(m, c, x), si, ci, c2, u2) =~= sp_push(
        sp_update(m, si, ci, c2, u2),
        c,
        x,
    ));
}

/// Registration isolation: registering a provider in a scope off `s`'s
/// chain — a sibling scope, or a child of `s` — changes nothing about
/// what `s` resolves: same value, same state change, with the
/// registration riding along untouched.  With [`lemma_fork_isolation`]
/// this is the scope-independence of concurrently active children: a
/// child's fork and its local registrations never reach the parent or a
/// sibling.
pub proof fn lemma_registration_isolation(
    m: SpModel,
    c: int,
    x: ContainerModel,
    s: int,
    key: u64,
    fuel: nat,
)
    requires
        0 <= c < m.scopes.len(),
        0 <= s < m.scopes.len(),
        !in_chain(m, s, c),
    ensures
        s_resolve(sp_push(m, c, x), s, key, fuel).1 == s_resolve(m, s, key, fuel).1,
        s_resolve(sp_push(m, c, x), s, key, fuel).0 == sp_push(
            s_resolve(m, s, key, fuel).0,
            c,
            x,
        ),
    decreases fuel, 0nat,
{
    let me = sp_push(m, c, x);
    if fuel == 0 {
        assert(s_resolve(me, s, key, fuel).0 =~= sp_push(s_resolve(m, s, key, fuel).0, c, x));
    } else {
        lemma_find_push(m, c, x, s, key);
        match find_in_chain(m, s, key) {
            None => {
                assert(s_resolve(me, s, key, fuel).0 =~= sp_push(
                    s_resolve(m, s, key, fuel).0,
                    c,
                    x,
                ));
            },
            Some((si, ci)) => {
                lemma_find_chain_in_range(m, s, key);
                lemma_find_lands_in_chain(m, s, key);
                assert(si != c);
                assert(me.scopes[si] == m.scopes[si]);
                let c0 = m.scopes[si].containers[ci];
                if rc_needed(c0).len() == 0 {
                    let (c2, ov, u2) = rc_step(c0, Seq::empty(), m.next_uid);
                    lemma_sp_update_push(m, c, x, si, ci, c2, u2);
                } else {
                    let needed = rc_needed(c0);
                    lemma_deps_registration_isolation(m, c, x, s, needed, (fuel - 1) as nat);
                    let (m1, ods) = s_deps(m, s, needed, (fuel - 1) as nat);
                    lemma_deps_shape(m, s, needed, (fuel - 1) as nat);
                    match ods {
                        None => {},
                        Some(ds) => {
                            assert(sp_push(m1, c, x).scopes[si] == m1.scopes[si]);
                            let c1 = m1.scopes[si].containers[ci];
                            let (c2, ov, u2) = rc_step(c1, ds, m1.next_uid);
                            lemma_sp_update_push(m1, c, x, si, ci, c2, u2);
                        },
                    }
                }
            },
        }
    }
}

/// Dependency-list resolution from scope `s` is likewise blind to a
/// registration in a scope off `s`'s chain.
pub proof fn lemma_deps_registration_isolation(
    m: SpModel,
    c: int,
    x: ContainerModel,
    s: int,
    keys: Seq<u64>,
    fuel: nat,
)
    requires
        0 <= c < m.scopes.len(),
        0 <= s < m.scopes.len(),
        !in_chain(m, s, c),
    ensures
        s_deps(sp_push(m, c, x), s, keys, fuel).1 == s_deps(m, s, keys, fuel).1,
        s_deps(sp_push(m, c, x), s, keys, fuel).0 == sp_push(s_deps(m, s, keys, fuel).0, c, x),
    decreases fuel, 1 + keys.len(),
{
    let me = sp_push(m, c, x);
    if keys.len() == 0 {
        assert(s_deps(me, s, keys, fuel).0 =~= sp_push(s_deps(m, s, keys, fuel).0, c, x));
    } else {
        lemma_registration_isolation(m, c, x, s, keys[0], fuel);
        let (m1, ov) = s_resolve(m, s, keys[0], fuel);
        lemma_resolve_shape(m, s, keys[0], fuel);
        match ov {
            None => {},
            Some(v) => {
                lemma_in_chain_shape(m, m1, s, c);
                lemma_deps_registration_isolation(m1, c, x, s, keys.skip(1), fuel);
            },
        }
    }
}

} // verus!
