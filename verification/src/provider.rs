//! The registry and the type-directed resolver.
//!
//! A [`ServiceProvider`] is an arena of scopes.  Scope 0 is the root; every
//! other scope is a fork of an earlier one and names its parent.  A scope
//! holds an ordered sequence of containers; looking a type key up from a
//! scope searches the scope's own containers first and then walks up the
//! parent chain, so local providers shadow parent providers of the same
//! key.
//!
//! Resolution is the spec function [`s_resolve`]: find the container for
//! the requested key along the chain, resolve the container's dependency
//! list left to right against the same requesting scope, then run one
//! production step of the container.  The spec threads the whole registry
//! state through every recursive call, so singleton memoization and the
//! storage-identity counter are part of the statement.  The exec resolver
//! is proved to match it exactly.
//!
//! Resolution is bounded by fuel, two units per dependency level; the
//! public resolver supplies fuel proportional to the number of registered
//! containers, which suffices for every acyclic registry.

use vstd::prelude::*;

use crate::container::{
    cm_key, rc_needed, rc_step, Container, ContainerModel, ResolveContainer, TransientContainer,
    SingletonContainer, TransientFactoryContainer, SingletonFactoryContainer, InstanceContainer,
    ConvertContainer, container_key,
};
use crate::value::{views_of, Ctor, TypeDecl, Value, ValueModel};

verus! {

/// Mathematical model of one scope: its parent's index and the models of
/// its containers, in registration order.
#[verifier::ext_equal]
pub struct ScopeModel {
    /// Index of the parent scope; the root names itself.
    pub parent: usize,
    /// The scope's own providers, in registration order.
    pub containers: Seq<ContainerModel>,
}

/// Mathematical model of a whole registry.
#[verifier::ext_equal]
pub struct SpModel {
    /// All scopes; index 0 is the root, and every other scope's parent has
    /// a smaller index.
    pub scopes: Seq<ScopeModel>,
    /// The next free storage identity.
    pub next_uid: u64,
}

/// The models of a sequence of containers.
pub open spec fn conts_of(cs: Seq<Container>) -> Seq<ContainerModel> {
    cs.map(|i: int, c: Container| c@)
}

/// The index of the first container producing `key`, if any.
pub open spec fn find_in_containers(cs: Seq<ContainerModel>, key: u64) -> Option<int>
    decreases cs.len(),
{
    if cs.len() == 0 {
        None
    } else if cm_key(cs[0]) == key {
        Some(0)
    } else {
        match find_in_containers(cs.skip(1), key) {
            Some(i) => Some(i + 1),
            None => None,
        }
    }
}

/// Where a lookup of `key` from scope `s` lands: the first matching
/// container of the scope itself, else of its parent chain, so that local
/// providers shadow parent providers of the same key.
pub open spec fn find_in_chain(m: SpModel, s: int, key: u64) -> Option<(int, int)>
    decreases s,
{
    if s < 0 || s >= m.scopes.len() {
        None
    } else {
        match find_in_containers(m.scopes[s].containers, key) {
            Some(ci) => Some((s, ci)),
            None => {
                let p = m.scopes[s].parent as int;
                if p < s {
                    find_in_chain(m, p, key)
                } else {
                    None
                }
            },
        }
    }
}

/// The registry after replacing the container at `(si, ci)` and setting
/// the next free identity.
pub open spec fn sp_update(m: SpModel, si: int, ci: int, c2: ContainerModel, u2: u64) -> SpModel {
    SpModel {
        scopes: m.scopes.update(
            si,
            ScopeModel {
                parent: m.scopes[si].parent,
                containers: m.scopes[si].containers.update(ci, c2),
            },
        ),
        next_uid: u2,
    }
}

/// The registry after appending a container to scope `scope`.
pub open spec fn sp_push(m: SpModel, scope: int, c: ContainerModel) -> SpModel {
    SpModel {
        scopes: m.scopes.update(
            scope,
            ScopeModel {
                parent: m.scopes[scope].parent,
                containers: m.scopes[scope].containers.push(c),
            },
        ),
        next_uid: m.next_uid,
    }
}

/// Type-directed resolution of `key` from scope `s`: find the container
/// along the chain, resolve its dependency list against the same scope,
/// run one production step, and thread the registry state through.
/// Yields the registry after the resolution and the produced value;
/// `None` when no provider matches, when the fuel is exhausted, or when
/// storage identities run out.
pub open spec fn s_resolve(m: SpModel, s: int, key: u64, fuel: nat) -> (SpModel, Option<ValueModel>)
    decreases fuel, 0nat,
{
    if fuel == 0 {
        (m, None)
    } else {
        match find_in_chain(m, s, key) {
            None => (m, None),
            Some((si, ci)) => {
                let c0 = m.scopes[si].containers[ci];
                let needed = rc_needed(c0);
                if needed.len() == 0 {
                    let (c2, ov, u2) = rc_step(c0, Seq::empty(), m.next_uid);
                    (sp_update(m, si, ci, c2, u2), ov)
                } else {
                    let (m1, ods) = s_deps(m, s, needed, (fuel - 1) as nat);
                    match ods {
                        None => (m1, None),
                        Some(ds) => {
                            let c1 = m1.scopes[si].containers[ci];
                            let (c2, ov, u2) = rc_step(c1, ds, m1.next_uid);
                            (sp_update(m1, si, ci, c2, u2), ov)
                        },
                    }
                }
            },
        }
    }
}

/// Resolves a dependency list left to right from scope `s`, threading the
/// registry state; yields the resolved values in order, or `None` as soon
/// as one of them fails.
pub open spec fn s_deps(m: SpModel, s: int, keys: Seq<u64>, fuel: nat) -> (
    SpModel,
    Option<Seq<ValueModel>>,
)
    decreases fuel, 1 + keys.len(),
{
    if keys.len() == 0 {
        (m, Some(Seq::empty()))
    } else {
        let (m1, ov) = s_resolve(m, s, keys[0], fuel);
        match ov {
            None => (m1, None),
            Some(v) => {
                let (m2, ovs) = s_deps(m1, s, keys.skip(1), fuel);
                match ovs {
                    None => (m2, None),
                    Some(vs) => (m2, Some(seq![v] + vs)),
                }
            },
        }
    }
}

/// How many containers the registry holds over all scopes, counting from
/// scope `i` on.
pub open spec fn count_containers_from(ss: Seq<ScopeModel>, i: int) -> nat
    decreases ss.len() - i,
{
    if i < 0 || i >= ss.len() {
        0
    } else {
        ss[i].containers.len() + count_containers_from(ss, i + 1)
    }
}

/// The fuel the public resolver supplies: two units per registered
/// container, plus two, capped at the machine limit.  Enough for every
/// registry whose dependency graph is acyclic.
pub open spec fn resolve_fuel(m: SpModel) -> nat {
    if 2 * count_containers_from(m.scopes, 0) + 2 <= u64::MAX {
        2 * count_containers_from(m.scopes, 0) + 2
    } else {
        u64::MAX as nat
    }
}

/// No scope registers two providers for one output key.
pub open spec fn distinct_keys(cs: Seq<ContainerModel>) -> bool {
    forall|i: int, j: int|
        0 <= i < j < cs.len() ==> cm_key(#[trigger] cs[i]) != cm_key(#[trigger] cs[j])
}

/// Every scope of the registry is free of ambiguous registrations.
pub open spec fn no_ambiguity(m: SpModel) -> bool {
    forall|s: int| 0 <= s < m.scopes.len() ==> distinct_keys(#[trigger] m.scopes[s].containers)
}

/// The scope arena is well formed: there is a root, it names itself, and
/// every other scope's parent has a smaller index.
pub open spec fn scopes_wf(m: SpModel) -> bool {
    &&& m.scopes.len() >= 1
    &&& m.scopes[0].parent == 0
    &&& forall|i: int| 1 <= i < m.scopes.len() ==> (#[trigger] m.scopes[i].parent) < i
}

/// The value a provider can lend by reference without constructing:
/// a registered instance, or a singleton's cached value.
pub open spec fn cached_of(c: ContainerModel) -> Option<ValueModel> {
    match c {
        ContainerModel::Instance { value, .. } => Some(value),
        ContainerModel::Singleton { cell, .. } => cell,
        ContainerModel::SingletonFactory { cell, .. } => cell,
        _ => None,
    }
}

/// Borrowed resolution: what resolving `key` from scope `s` lends without
/// running any constructor.
pub open spec fn s_resolve_ref(m: SpModel, s: int, key: u64) -> Option<ValueModel> {
    match find_in_chain(m, s, key) {
        None => None,
        Some((si, ci)) => cached_of(m.scopes[si].containers[ci]),
    }
}

/// An ordered, type-key-indexed registry of providers, with scope forking.
///
/// Built once by chaining registrations; per unit of work, [`Self::fork`]
/// derives a child scope that sees everything its parent sees plus its own
/// local providers, which shadow parent providers of the same key.
pub struct ServiceProvider {
    /// The scope arena; index 0 is the root.
    pub scopes: Vec<Scope>,
    /// The next free storage identity.
    pub next_uid: u64,
}

/// One scope of the arena.
pub struct Scope {
    /// Index of the parent scope; the root names itself.
    pub parent: usize,
    /// The scope's own providers, in registration order.
    pub containers: Vec<Container>,
}

impl View for Scope {
    type V = ScopeModel;

    open spec fn view(&self) -> ScopeModel {
        ScopeModel { parent: self.parent, containers: conts_of(self.containers@) }
    }
}

impl View for ServiceProvider {
    type V = SpModel;

    open spec fn view(&self) -> SpModel {
        SpModel { scopes: self.scopes@.map(|i: int, sc: Scope| sc@), next_uid: self.next_uid }
    }
}

/// A found container is in range, produces the key, and nothing before it
/// in the same sequence does; a missed key occurs nowhere.
pub proof fn lemma_find_char(cs: Seq<ContainerModel>, key: u64)
    ensures
        match find_in_containers(cs, key) {
            Some(i) => 0 <= i < cs.len() && cm_key(cs[i]) == key && (forall|j: int|
                0 <= j < i ==> cm_key(#[trigger] cs[j]) != key),
            None => forall|j: int| 0 <= j < cs.len() ==> cm_key(#[trigger] cs[j]) != key,
        },
    decreases cs.len(),
{
    if cs.len() != 0 && cm_key(cs[0]) != key {
        let rest = cs.skip(1);
        lemma_find_char(rest, key);
        assert(forall|j: int| 0 <= j < rest.len() ==> #[trigger] rest[j] == cs[j + 1]);
        match find_in_containers(rest, key) {
            Some(i) => {
                assert(cs[i + 1] == rest[i]);
                assert forall|j: int| 0 <= j < i + 1 implies cm_key(#[trigger] cs[j]) != key by {
                    if j > 0 {
                        assert(cs[j] == rest[j - 1]);
                    }
                }
            },
            None => {
                assert forall|j: int| 0 <= j < cs.len() implies cm_key(#[trigger] cs[j]) != key by {
                    if j > 0 {
                        assert(cs[j] == rest[j - 1]);
                    }
                }
            },
        }
    }
}

/// Containers of the same build: same strategy, key, dependency list and
/// constructor; singleton cells are free to differ.
pub open spec fn shape_eq(c1: ContainerModel, c2: ContainerModel) -> bool
    decreases c1,
{
    match (c1, c2) {
        (
            ContainerModel::Transient { key: k1, deps: d1, seed: s1 },
            ContainerModel::Transient { key: k2, deps: d2, seed: s2 },
        ) => k1 == k2 && d1 == d2 && s1 == s2,
        (
            ContainerModel::TransientFactory { key: k1, deps: d1, seed: s1 },
            ContainerModel::TransientFactory { key: k2, deps: d2, seed: s2 },
        ) => k1 == k2 && d1 == d2 && s1 == s2,
        (
            ContainerModel::Singleton { key: k1, deps: d1, seed: s1, .. },
            ContainerModel::Singleton { key: k2, deps: d2, seed: s2, .. },
        ) => k1 == k2 && d1 == d2 && s1 == s2,
        (
            ContainerModel::SingletonFactory { key: k1, deps: d1, seed: s1, .. },
            ContainerModel::SingletonFactory { key: k2, deps: d2, seed: s2, .. },
        ) => k1 == k2 && d1 == d2 && s1 == s2,
        (
            ContainerModel::Instance { key: k1, value: v1 },
            ContainerModel::Instance { key: k2, value: v2 },
        ) => k1 == k2 && v1 == v2,
        (
            ContainerModel::Convert { key: k1, seed: s1, inner: i1 },
            ContainerModel::Convert { key: k2, seed: s2, inner: i2 },
        ) => k1 == k2 && s1 == s2 && shape_eq(*i1, *i2),
        _ => false,
    }
}

/// Registries of the same build: same scopes, parents and container
/// shapes; only singleton cells and the identity counter may differ.
pub open spec fn same_shape(m1: SpModel, m2: SpModel) -> bool {
    &&& m1.scopes.len() == m2.scopes.len()
    &&& forall|i: int|
        0 <= i < m1.scopes.len() ==> {
            &&& (#[trigger] m2.scopes[i]).parent == m1.scopes[i].parent
            &&& m2.scopes[i].containers.len() == m1.scopes[i].containers.len()
            &&& forall|j: int|
                0 <= j < m1.scopes[i].containers.len() ==> shape_eq(
                    m1.scopes[i].containers[j],
                    #[trigger] m2.scopes[i].containers[j],
                )
        }
}

/// Same-shaped containers produce the same output key.
pub proof fn lemma_shape_key(c1: ContainerModel, c2: ContainerModel)
    requires
        shape_eq(c1, c2),
    ensures
        cm_key(c1) == cm_key(c2),
{
}

/// Same build is reflexive.
pub proof fn lemma_shape_refl(m: SpModel)
    ensures
        same_shape(m, m),
{
    assert forall|c: ContainerModel| true implies shape_eq(c, c) by {
        lemma_shape_eq_refl(c);
    }
}

proof fn lemma_shape_eq_refl(c: ContainerModel)
    ensures
        shape_eq(c, c),
    decreases c,
{
    match c {
        ContainerModel::Convert { inner, .. } => lemma_shape_eq_refl(*inner),
        _ => {},
    }
}

/// Same build composes.
pub proof fn lemma_shape_trans(m1: SpModel, m2: SpModel, m3: SpModel)
    requires
        same_shape(m1, m2),
        same_shape(m2, m3),
    ensures
        same_shape(m1, m3),
{
    assert forall|i: int, j: int|
        0 <= i < m1.scopes.len() && 0 <= j < m1.scopes[i].containers.len() implies shape_eq(
        m1.scopes[i].containers[j],
        m3.scopes[i].containers[j],
    ) by {
        lemma_shape_eq_trans(
            m1.scopes[i].containers[j],
            m2.scopes[i].containers[j],
            m3.scopes[i].containers[j],
        );
    }
}

proof fn lemma_shape_eq_trans(c1: ContainerModel, c2: ContainerModel, c3: ContainerModel)
    requires
        shape_eq(c1, c2),
        shape_eq(c2, c3),
    ensures
        shape_eq(c1, c3),
    decreases c1,
{
    match (c1, c2, c3) {
        (
            ContainerModel::Convert { inner: i1, .. },
            ContainerModel::Convert { inner: i2, .. },
            ContainerModel::Convert { inner: i3, .. },
        ) => lemma_shape_eq_trans(*i1, *i2, *i3),
        _ => {},
    }
}

/// One production step keeps the container's build.
pub proof fn lemma_rc_step_shape(c: ContainerModel, ds: Seq<ValueModel>, u: u64)
    ensures
        shape_eq(c, rc_step(c, ds, u).0),
    decreases c,
{
    match c {
        ContainerModel::Convert { inner, .. } => lemma_rc_step_shape(*inner, ds, u),
        _ => {
            lemma_shape_eq_refl(c);
            lemma_shape_eq_refl(rc_step(c, ds, u).0);
        },
    }
}

/// Same-built container sequences agree on lookup.
pub proof fn lemma_find_containers_shape(cs1: Seq<ContainerModel>, cs2: Seq<ContainerModel>, key: u64)
    requires
        cs1.len() == cs2.len(),
        forall|j: int| 0 <= j < cs1.len() ==> shape_eq(#[trigger] cs1[j], cs2[j]),
    ensures
        find_in_containers(cs1, key) == find_in_containers(cs2, key),
    decreases cs1.len(),
{
    if cs1.len() != 0 {
        lemma_shape_key(cs1[0], cs2[0]);
        let r1 = cs1.skip(1);
        let r2 = cs2.skip(1);
        assert(forall|j: int| 0 <= j < r1.len() ==> #[trigger] r1[j] == cs1[j + 1]);
        assert(forall|j: int| 0 <= j < r2.len() ==> #[trigger] r2[j] == cs2[j + 1]);
        lemma_find_containers_shape(r1, r2, key);
    }
}

/// Same-built registries agree on lookup from every scope.
pub proof fn lemma_find_shape(m1: SpModel, m2: SpModel, s: int, key: u64)
    requires
        same_shape(m1, m2),
    ensures
        find_in_chain(m1, s, key) == find_in_chain(m2, s, key),
    decreases s,
{
    if 0 <= s < m1.scopes.len() {
        lemma_find_containers_shape(m1.scopes[s].containers, m2.scopes[s].containers, key);
        let p = m1.scopes[s].parent as int;
        if find_in_containers(m1.scopes[s].containers, key) is None && p < s {
            lemma_find_shape(m1, m2, p, key);
        }
    }
}

/// Replacing a container by a same-built one keeps the registry's build.
pub proof fn lemma_sp_update_shape(m: SpModel, si: int, ci: int, c2: ContainerModel, u2: u64)
    requires
        0 <= si < m.scopes.len(),
        0 <= ci < m.scopes[si].containers.len(),
        shape_eq(m.scopes[si].containers[ci], c2),
    ensures
        same_shape(m, sp_update(m, si, ci, c2, u2)),
{
    let m2 = sp_update(m, si, ci, c2, u2);
    assert forall|i: int, j: int|
        0 <= i < m.scopes.len() && 0 <= j < m.scopes[i].containers.len() implies shape_eq(
        m.scopes[i].containers[j],
        m2.scopes[i].containers[j],
    ) by {
        if i != si || j != ci {
            lemma_shape_eq_refl(m.scopes[i].containers[j]);
        }
    }
}

/// Resolution keeps the registry's build: it fills singleton cells and
/// mints identities, and changes nothing else.
pub proof fn lemma_resolve_shape(m: SpModel, s: int, key: u64, fuel: nat)
    ensures
        same_shape(m, s_resolve(m, s, key, fuel).0),
    decreases fuel, 0nat,
{
    lemma_shape_refl(m);
    if fuel != 0 {
        match find_in_chain(m, s, key) {
            None => {},
            Some((si, ci)) => {
                lemma_find_chain_in_range(m, s, key);
                let c0 = m.scopes[si].containers[ci];
                let needed = rc_needed(c0);
                if needed.len() == 0 {
                    let (c2, ov, u2) = rc_step(c0, Seq::empty(), m.next_uid);
                    lemma_rc_step_shape(c0, Seq::empty(), m.next_uid);
                    lemma_sp_update_shape(m, si, ci, c2, u2);
                } else {
                    let (m1, ods) = s_deps(m, s, needed, (fuel - 1) as nat);
                    lemma_deps_shape(m, s, needed, (fuel - 1) as nat);
                    match ods {
                        None => {},
                        Some(ds) => {
                            let c1 = m1.scopes[si].containers[ci];
                            let (c2, ov, u2) = rc_step(c1, ds, m1.next_uid);
                            lemma_rc_step_shape(c1, ds, m1.next_uid);
                            lemma_sp_update_shape(m1, si, ci, c2, u2);
                            lemma_shape_trans(m, m1, sp_update(m1, si, ci, c2, u2));
                        },
                    }
                }
            },
        }
    }
}

/// Dependency-list resolution keeps the registry's build.
pub proof fn lemma_deps_shape(m: SpModel, s: int, keys: Seq<u64>, fuel: nat)
    ensures
        same_shape(m, s_deps(m, s, keys, fuel).0),
    decreases fuel, 1 + keys.len(),
{
    lemma_shape_refl(m);
    if keys.len() != 0 {
        let (m1, ov) = s_resolve(m, s, keys[0], fuel);
        lemma_resolve_shape(m, s, keys[0], fuel);
        match ov {
            None => {},
            Some(v) => {
                lemma_deps_shape(m1, s, keys.skip(1), fuel);
                lemma_shape_trans(m, m1, s_deps(m1, s, keys.skip(1), fuel).0);
            },
        }
    }
}

/// A successful lookup lands on a container in range that produces the
/// requested key.
pub proof fn lemma_find_chain_in_range(m: SpModel, s: int, key: u64)
    ensures
        find_in_chain(m, s, key) matches Some((si, ci)) ==> {
            &&& 0 <= si < m.scopes.len()
            &&& 0 <= ci < m.scopes[si].containers.len()
            &&& cm_key(m.scopes[si].containers[ci]) == key
        },
    decreases s,
{
    if 0 <= s < m.scopes.len() {
        lemma_find_char(m.scopes[s].containers, key);
        let p = m.scopes[s].parent as int;
        if p < s {
            lemma_find_chain_in_range(m, p, key);
        }
    }
}

impl ServiceProvider {
    /// A fresh registry: one empty root scope, no identities minted.
    pub fn new() -> (r: Self)
        ensures
            r@.scopes =~= seq![ScopeModel { parent: 0, containers: Seq::empty() }],
            r@.next_uid == 0,
            scopes_wf(r@),
            no_ambiguity(r@),
    {
        let mut scopes: Vec<Scope> = Vec::new();
        scopes.push(Scope { parent: 0, containers: Vec::new() });
        let r = ServiceProvider { scopes, next_uid: 0 };
        proof {
            assert(r@.scopes.len() == 1);
            assert(r@.scopes[0].containers =~= Seq::<ContainerModel>::empty());
            assert(r@.scopes[0] =~= (ScopeModel { parent: 0, containers: Seq::empty() }));
            assert(r@.scopes =~= seq![ScopeModel { parent: 0, containers: Seq::empty() }]);
        }
        r
    }

    /// Derives a child scope of `parent`: the child sees every provider of
    /// the parent chain and can register its own in front of them, without
    /// the parent being changed.  Returns the child's scope index.
    pub fn fork(&mut self, parent: usize) -> (r: usize)
        requires
            parent < old(self)@.scopes.len(),
        ensures
            final(self)@.scopes =~= old(self)@.scopes.push(
                ScopeModel { parent, containers: Seq::empty() },
            ),
            final(self)@.next_uid == old(self)@.next_uid,
            r == old(self)@.scopes.len(),
            scopes_wf(old(self)@) ==> scopes_wf(final(self)@),
    {
        let r = self.scopes.len();
        self.scopes.push(Scope { parent, containers: Vec::new() });
        proof {
            let target = old(self)@.scopes.push(ScopeModel { parent, containers: Seq::empty() });
            assert(final(self)@.scopes.len() == target.len());
            assert(final(self)@.scopes[r as int].containers =~= Seq::<ContainerModel>::empty());
            assert(final(self)@.scopes[r as int] =~= (ScopeModel {
                parent,
                containers: Seq::empty(),
            }));
            assert(forall|i: int|
                0 <= i < r ==> final(self)@.scopes[i] == #[trigger] old(self)@.scopes[i]);
            assert(final(self)@.scopes =~= target);
        }
        r
    }

    /// Appends a container to the given scope.
    fn push_container(&mut self, scope: usize, c: Container)
        requires
            scope < old(self)@.scopes.len(),
        ensures
            final(self)@ == sp_push(old(self)@, scope as int, c@),
    {
        let mut sc = self.scopes.remove(scope);
        sc.containers.push(c);
        self.scopes.insert(scope, sc);
        proof {
            let target = sp_push(old(self)@, scope as int, c@).scopes;
            assert(self.scopes@ =~= old(self).scopes@.update(scope as int, self.scopes@[scope as int]));
            assert(final(self)@.scopes[scope as int].containers =~= target[scope as int].containers);
            assert(final(self)@.scopes[scope as int] =~= target[scope as int]);
            assert(final(self)@.scopes =~= target);
        }
    }

    /// Registers a transient provider for the declared type: every
    /// resolution of `decl.key` constructs a fresh value.
    pub fn add_transient(self, scope: usize, decl: &TypeDecl) -> (r: Self)
        requires
            scope < self@.scopes.len(),
        ensures
            r@ == sp_push(
                self@,
                scope as int,
                ContainerModel::Transient { key: decl.key, deps: decl.dep_keys@, seed: decl.ctor@ },
            ),
    {
        let mut s = self;
        s.push_container(scope, Container::Transient(TransientContainer::new(decl)));
        s
    }

    /// Registers a transient provider whose constructor `body` is supplied
    /// here rather than taken from a type declaration.
    pub fn add_transient_factory(self, scope: usize, key: u64, dep_keys: Vec<u64>, body: Ctor) -> (r:
        Self)
        requires
            scope < self@.scopes.len(),
        ensures
            r@ == sp_push(
                self@,
                scope as int,
                ContainerModel::TransientFactory { key, deps: dep_keys@, seed: body@ },
            ),
    {
        let mut s = self;
        s.push_container(
            scope,
            Container::TransientFactory(TransientFactoryContainer::new(key, dep_keys, body)),
        );
        s
    }

    /// Registers a singleton provider for the declared type: the first
    /// resolution of `decl.key` constructs and caches the value, every
    /// later one returns the cached value.
    pub fn add_singleton(self, scope: usize, decl: &TypeDecl) -> (r: Self)
        requires
            scope < self@.scopes.len(),
        ensures
            r@ == sp_push(
                self@,
                scope as int,
                ContainerModel::Singleton {
                    key: decl.key,
                    deps: decl.dep_keys@,
                    seed: decl.ctor@,
                    cell: None,
                },
            ),
    {
        let mut s = self;
        s.push_container(scope, Container::Singleton(SingletonContainer::new(decl)));
        s
    }

    /// Registers a singleton provider whose constructor `body` is supplied
    /// here rather than taken from a type declaration.
    pub fn add_singleton_factory(self, scope: usize, key: u64, dep_keys: Vec<u64>, body: Ctor) -> (r:
        Self)
        requires
            scope < self@.scopes.len(),
        ensures
            r@ == sp_push(
                self@,
                scope as int,
                ContainerModel::SingletonFactory { key, deps: dep_keys@, seed: body@, cell: None },
            ),
    {
        let mut s = self;
        s.push_container(
            scope,
            Container::SingletonFactory(SingletonFactoryContainer::new(key, dep_keys, body)),
        );
        s
    }

    /// Registers an already-built value for type `key`: resolution returns
    /// it as it stands and never reconstructs it.  The value's storage
    /// identity is minted here, at registration.
    pub fn add_instance(self, scope: usize, key: u64, fields: Vec<u64>) -> (r: Self)
        requires
            scope < self@.scopes.len(),
            self@.next_uid < u64::MAX,
        ensures
            r@ == sp_push(
                SpModel { scopes: self@.scopes, next_uid: (self@.next_uid + 1) as u64 },
                scope as int,
                ContainerModel::Instance {
                    key,
                    value: ValueModel { key, fields: fields@, uid: self@.next_uid },
                },
            ),
    {
        let mut s = self;
        let uid = s.next_uid;
        s.next_uid = uid + 1;
        let v = Value { key, fields, uid };
        s.push_container(scope, Container::Instance(InstanceContainer::new(v)));
        s
    }

    /// Registers a conversion provider for type `key`: resolution resolves
    /// the wrapped `inner` container and applies the total conversion
    /// `conv` to its result.
    pub fn add_convert(self, scope: usize, key: u64, conv: Ctor, inner: Container) -> (r: Self)
        requires
            scope < self@.scopes.len(),
        ensures
            r@ == sp_push(
                self@,
                scope as int,
                ContainerModel::Convert { key, seed: conv@, inner: Box::new(inner@) },
            ),
    {
        let mut s = self;
        s.push_container(scope, Container::Convert(ConvertContainer::new(inner, key, conv)));
        s
    }

    /// The index of the first container for `key` in one scope's own
    /// sequence.
    fn find_local(cs: &Vec<Container>, key: u64) -> (r: Option<usize>)
        ensures
            match r {
                Some(i) => find_in_containers(conts_of(cs@), key) == Some(i as int),
                None => find_in_containers(conts_of(cs@), key) is None,
            },
    {
        let mut i: usize = 0;
        while i < cs.len()
            invariant
                i <= cs.len(),
                forall|j: int| 0 <= j < i ==> cm_key(#[trigger] conts_of(cs@)[j]) != key,
            decreases cs.len() - i,
        {
            if container_key(&cs[i]) == key {
                proof {
                    lemma_find_char(conts_of(cs@), key);
                    assert(conts_of(cs@)[i as int] == cs@[i as int]@);
                    match find_in_containers(conts_of(cs@), key) {
                        Some(f) => {
                            if f < i {
                                assert(cm_key(conts_of(cs@)[f]) != key);
                            }
                            if f > i {
                                assert(cm_key(conts_of(cs@)[i as int]) != key);
                            }
                        },
                        None => {
                            assert(cm_key(conts_of(cs@)[i as int]) != key);
                        },
                    }
                }
                return Some(i);
            }
            proof {
                assert(conts_of(cs@)[i as int] == cs@[i as int]@);
            }
            i = i + 1;
        }
        proof {
            lemma_find_char(conts_of(cs@), key);
            match find_in_containers(conts_of(cs@), key) {
                Some(f) => {
                    assert(cm_key(conts_of(cs@)[f]) != key);
                },
                None => {},
            }
        }
        None
    }

    /// Where a lookup of `key` from scope `s` lands, walking the parent
    /// chain with local providers first.
    pub(crate) fn find(&self, s: usize, key: u64) -> (r: Option<(usize, usize)>)
        ensures
            match r {
                Some((si, ci)) => {
                    &&& find_in_chain(self@, s as int, key) == Some((si as int, ci as int))
                    &&& si < self@.scopes.len()
                    &&& ci < self@.scopes[si as int].containers.len()
                },
                None => find_in_chain(self@, s as int, key) is None,
            },
    {
        let mut cur = s;
        loop
            invariant
                find_in_chain(self@, s as int, key) == find_in_chain(self@, cur as int, key),
            decreases cur,
        {
            if cur >= self.scopes.len() {
                return None;
            }
            let found = Self::find_local(&self.scopes[cur].containers, key);
            match found {
                Some(ci) => {
                    proof {
                        lemma_find_char(self@.scopes[cur as int].containers, key);
                    }
                    return Some((cur, ci));
                },
                None => {
                    let p = self.scopes[cur].parent;
                    if p < cur {
                        cur = p;
                    } else {
                        return None;
                    }
                },
            }
        }
    }

    /// Runs one production step of the container at `(si, ci)` on the
    /// given resolved dependency values, minting identities from the
    /// registry's counter.
    fn step_container(&mut self, si: usize, ci: usize, deps: &Vec<Value>) -> (r: Option<Value>)
        requires
            si < old(self)@.scopes.len(),
            ci < old(self)@.scopes[si as int].containers.len(),
        ensures
            ({
                let c1 = old(self)@.scopes[si as int].containers[ci as int];
                let (c2, ov, u2) = rc_step(c1, views_of(deps@), old(self)@.next_uid);
                &&& final(self)@ == sp_update(old(self)@, si as int, ci as int, c2, u2)
                &&& match (r, ov) {
                    (Some(v), Some(vm)) => v@ == vm,
                    (None, None) => true,
                    _ => false,
                }
            }),
    {
        let uid = self.next_uid;
        let mut sc = self.scopes.remove(si);
        let mut c = sc.containers.remove(ci);
        let (ov, u2) = c.resolve_container(deps, uid);
        sc.containers.insert(ci, c);
        self.scopes.insert(si, sc);
        self.next_uid = u2;
        proof {
            let c1 = old(self)@.scopes[si as int].containers[ci as int];
            let (c2, ov2, u22) = rc_step(c1, views_of(deps@), old(self)@.next_uid);
            assert(sc@.containers =~= old(self)@.scopes[si as int].containers.update(
                ci as int,
                c2,
            ));
            assert(final(self)@.scopes =~= sp_update(
                old(self)@,
                si as int,
                ci as int,
                c2,
                u22,
            ).scopes);
        }
        ov
    }

    /// Resolves `key` from scope `s` with the given fuel; matches
    /// [`s_resolve`] exactly, state change included.
    fn resolve_key(&mut self, s: usize, key: u64, fuel: u64) -> (r: Option<Value>)
        ensures
            ({
                let (m2, ov) = s_resolve(old(self)@, s as int, key, fuel as nat);
                &&& final(self)@ == m2
                &&& match (r, ov) {
                    (Some(v), Some(vm)) => v@ == vm,
                    (None, None) => true,
                    _ => false,
                }
            }),
        decreases fuel, 0nat,
    {
        if fuel == 0 {
            return None;
        }
        let found = self.find(s, key);
        match found {
            None => None,
            Some((si, ci)) => {
                proof {
                    assert(self@.scopes[si as int] == self.scopes@[si as int]@);
                    assert(self@.scopes[si as int].containers[ci as int] == self.scopes@[si as int].containers@[ci as int]@);
                }
                let needed = self.scopes[si].containers[ci].needed_deps();
                if needed.len() == 0 {
                    let empty_deps: Vec<Value> = Vec::new();
                    proof {
                        assert(views_of(empty_deps@) =~= Seq::<ValueModel>::empty());
                        assert(rc_needed(self@.scopes[si as int].containers[ci as int]).len() == 0);
                    }
                    self.step_container(si, ci, &empty_deps)
                } else {
                    let ds_opt = self.resolve_deps(s, &needed, 0, fuel - 1);
                    proof {
                        assert(needed@.skip(0) =~= needed@);
                        lemma_deps_shape(old(self)@, s as int, needed@, (fuel - 1) as nat);
                    }
                    match ds_opt {
                        None => None,
                        Some(ds) => self.step_container(si, ci, &ds),
                    }
                }
            },
        }
    }

    /// Resolves the dependency keys `keys[i..]` from scope `s`, left to
    /// right; matches [`s_deps`] exactly.
    fn resolve_deps(&mut self, s: usize, keys: &Vec<u64>, i: usize, fuel: u64) -> (r: Option<
        Vec<Value>,
    >)
        requires
            i <= keys@.len(),
        ensures
            ({
                let (m2, ovs) = s_deps(old(self)@, s as int, keys@.skip(i as int), fuel as nat);
                &&& final(self)@ == m2
                &&& match (r, ovs) {
                    (Some(vs), Some(ms)) => views_of(vs@) == ms,
                    (None, None) => true,
                    _ => false,
                }
            }),
        decreases fuel, 1 + keys@.len() - i,
    {
        if i == keys.len() {
            let out: Vec<Value> = Vec::new();
            proof {
                assert(keys@.skip(i as int) =~= Seq::<u64>::empty());
                assert(views_of(out@) =~= Seq::<ValueModel>::empty());
            }
            return Some(out);
        }
        let v_opt = self.resolve_key(s, keys[i], fuel);
        proof {
            assert(keys@.skip(i as int)[0] == keys@[i as int]);
        }
        match v_opt {
            None => None,
            Some(v) => {
                let rest = self.resolve_deps(s, keys, i + 1, fuel);
                proof {
                    assert(keys@.skip(i as int).skip(1) =~= keys@.skip(i + 1));
                }
                match rest {
                    None => None,
                    Some(mut vs) => {
                        vs.insert(0, v);
                        proof {
                            let (m1, ov) = s_resolve(old(self)@, s as int, keys@[i as int], fuel as nat);
                            let (m2, ovs) = s_deps(m1, s as int, keys@.skip(i + 1), fuel as nat);
                            if ovs is Some {
                                assert(views_of(vs@) =~= seq![v@] + ovs->0);
                            }
                        }
                        Some(vs)
                    },
                }
            },
        }
    }

    /// How many containers all scopes hold together, counted from scope
    /// `i` on and capped at the machine limit.
    fn count_from(&self, i: usize) -> (r: u64)
        ensures
            ({
                let n = count_containers_from(self@.scopes, i as int);
                if n <= u64::MAX {
                    r == n
                } else {
                    r == u64::MAX
                }
            }),
        decreases self.scopes.len() - i,
    {
        if i >= self.scopes.len() {
            return 0;
        }
        let rest = self.count_from(i + 1);
        let here = self.scopes[i].containers.len();
        if here as u64 <= u64::MAX - rest {
            here as u64 + rest
        } else {
            u64::MAX
        }
    }

    /// Resolves `key` from scope `scope`.
    ///
    /// Returns the produced value, or `None` when no provider along the
    /// scope chain produces `key` (or the registry's dependency lists are
    /// cyclic, which the supplied fuel bounds out).  The call and its
    /// effect on the registry — singleton caching and identity minting —
    /// match [`s_resolve`] with fuel [`resolve_fuel`] exactly.
    pub fn resolve(&mut self, scope: usize, key: u64) -> (r: Option<Value>)
        ensures
            ({
                let (m2, ov) = s_resolve(old(self)@, scope as int, key, resolve_fuel(old(self)@));
                &&& final(self)@ == m2
                &&& match (r, ov) {
                    (Some(v), Some(vm)) => v@ == vm,
                    (None, None) => true,
                    _ => false,
                }
            }),
    {
        let n = self.count_from(0);
        let fuel: u64 = if n <= (u64::MAX - 2) / 2 {
            2 * n + 2
        } else {
            u64::MAX
        };
        proof {
            assert(fuel as nat == resolve_fuel(self@)) by (nonlinear_arith)
                requires
                    fuel == if n <= (u64::MAX - 2) / 2 {
                        (2 * n + 2) as u64
                    } else {
                        u64::MAX
                    },
                    ({
                        let c = count_containers_from(self@.scopes, 0);
                        if c <= u64::MAX {
                            n == c
                        } else {
                            n == u64::MAX
                        }
                    }),
                    resolve_fuel(self@) == if 2 * count_containers_from(self@.scopes, 0) + 2
                        <= u64::MAX {
                        2 * count_containers_from(self@.scopes, 0) + 2
                    } else {
                        u64::MAX as nat
                    },
            ;
        }
        self.resolve_key(scope, key, fuel)
    }

    /// Resolves `key` from scope `scope` by reference, without running
    /// any constructor: the registered instance, or a singleton's cached
    /// value.  `None` exactly when no provider along the chain matches or
    /// the matching provider holds no materialized value to lend.
    pub fn resolve_ref(&self, scope: usize, key: u64) -> (r: Option<&Value>)
        ensures
            match r {
                Some(v) => s_resolve_ref(self@, scope as int, key) == Some(v@),
                None => s_resolve_ref(self@, scope as int, key) is None,
            },
    {
        let found = self.find(scope, key);
        match found {
            None => None,
            Some((si, ci)) => {
                proof {
                    assert(self@.scopes[si as int].containers[ci as int] == self.scopes@[si as int].containers@[ci as int]@);
                }
                match &self.scopes[si].containers[ci] {
                    Container::Instance(ic) => Some(ic.get()),
                    Container::Singleton(sg) => crate::cell::cell_get(&sg.cell),
                    Container::SingletonFactory(sg) => crate::cell::cell_get(&sg.cell),
                    _ => None,
                }
            },
        }
    }

    /// Checks that no scope registers two providers for one output key:
    /// the ambiguous-provider error of registration, caught before any
    /// resolution runs.
    pub fn validate(&self) -> (r: bool)
        ensures
            r == no_ambiguity(self@),
    {
        let mut s: usize = 0;
        while s < self.scopes.len()
            invariant
                s <= self@.scopes.len(),
                forall|t: int| 0 <= t < s ==> distinct_keys(#[trigger] self@.scopes[t].containers),
            decreases self.scopes.len() - s,
        {
            let cs = &self.scopes[s].containers;
            let mut i: usize = 0;
            while i < cs.len()
                invariant
                    s < self@.scopes.len(),
                    cs == &self.scopes@[s as int].containers,
                    i <= cs@.len(),
                    forall|a: int, b: int|
                        0 <= a < b < cs@.len() && a < i ==> cm_key(#[trigger] conts_of(cs@)[a])
                            != cm_key(#[trigger] conts_of(cs@)[b]),
                decreases cs.len() - i,
            {
                let ki = container_key(&cs[i]);
                let mut j: usize = i + 1;
                while j < cs.len()
                    invariant
                        s < self@.scopes.len(),
                        cs == &self.scopes@[s as int].containers,
                        i < j,
                        i < cs@.len(),
                        j <= cs@.len(),
                        ki == cm_key(conts_of(cs@)[i as int]),
                        forall|b: int|
                            i < b < j ==> cm_key(conts_of(cs@)[i as int]) != cm_key(
                                #[trigger] conts_of(cs@)[b],
                            ),
                    decreases cs.len() - j,
                {
                    if container_key(&cs[j]) == ki {
                        proof {
                            assert(conts_of(cs@)[j as int] == cs@[j as int]@);
                            assert(cm_key(conts_of(cs@)[i as int]) == cm_key(
                                conts_of(cs@)[j as int],
                            ));
                            assert(!distinct_keys(self@.scopes[s as int].containers));
                        }
                        return false;
                    }
                    proof {
                        assert(conts_of(cs@)[j as int] == cs@[j as int]@);
                    }
                    j = j + 1;
                }
                i = i + 1;
            }
            s = s + 1;
        }
        true
    }
}

} // verus!
