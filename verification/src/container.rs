//! Provider strategies: one container kind per way of producing a value.
//!
//! A container declares one output type key and produces values of it from
//! a tuple of already-resolved dependency values.  Transient containers
//! construct on every resolution; singleton containers construct at most
//! once and cache the result in a write-once cell; instance containers
//! return a value supplied at registration; conversion containers wrap an
//! inner container and apply a total conversion to whatever it produces.
//!
//! The semantics of one production step is the pure function [`rc_step`]:
//! given a container's model, the resolved dependency values, and the next
//! free storage identity, it yields the container's model after the step,
//! the produced value (or nothing, when identities are exhausted), and the
//! next free identity.  Every container's `resolve_container` is proved
//! against it.

use vstd::prelude::*;

use crate::cell::{cell_contents, cell_get, cell_init, cell_new};
use crate::value::{apply_ctor, clone_fields, eval_ctor, views_of, Ctor, TypeDecl, Value, ValueModel};

verus! {

/// Mathematical model of a container.
#[verifier::ext_equal]
pub enum ContainerModel {
    /// Constructs anew on every resolution.
    Transient { key: u64, deps: Seq<u64>, seed: Seq<u64> },
    /// Like `Transient`, but the constructor was supplied at registration.
    TransientFactory { key: u64, deps: Seq<u64>, seed: Seq<u64> },
    /// Constructs at most once; `cell` holds the cached value.
    Singleton { key: u64, deps: Seq<u64>, seed: Seq<u64>, cell: Option<ValueModel> },
    /// Like `Singleton`, but the constructor was supplied at registration.
    SingletonFactory { key: u64, deps: Seq<u64>, seed: Seq<u64>, cell: Option<ValueModel> },
    /// Returns the value supplied at registration; never constructs.
    Instance { key: u64, value: ValueModel },
    /// Resolves the inner container, then applies a conversion.
    Convert { key: u64, seed: Seq<u64>, inner: Box<ContainerModel> },
}

/// The output type key a container produces.
pub open spec fn cm_key(c: ContainerModel) -> u64 {
    match c {
        ContainerModel::Transient { key, .. } => key,
        ContainerModel::TransientFactory { key, .. } => key,
        ContainerModel::Singleton { key, .. } => key,
        ContainerModel::SingletonFactory { key, .. } => key,
        ContainerModel::Instance { key, .. } => key,
        ContainerModel::Convert { key, .. } => key,
    }
}

/// How many conversion layers wrap the base container.
pub open spec fn cm_height(c: ContainerModel) -> nat
    decreases c,
{
    match c {
        ContainerModel::Convert { inner, .. } => 1 + cm_height(*inner),
        _ => 0,
    }
}

/// The dependency keys a resolution of this container must resolve first.
/// Empty for instances and for singletons whose value is already cached:
/// those return without invoking any dependency construction.
pub open spec fn rc_needed(c: ContainerModel) -> Seq<u64>
    decreases c,
{
    match c {
        ContainerModel::Transient { deps, .. } => deps,
        ContainerModel::TransientFactory { deps, .. } => deps,
        ContainerModel::Singleton { deps, cell, .. } => if cell is Some {
            Seq::empty()
        } else {
            deps
        },
        ContainerModel::SingletonFactory { deps, cell, .. } => if cell is Some {
            Seq::empty()
        } else {
            deps
        },
        ContainerModel::Instance { .. } => Seq::empty(),
        ContainerModel::Convert { inner, .. } => rc_needed(*inner),
    }
}

/// One production step: from the container's model, the resolved
/// dependency values, and the next free storage identity, to the model
/// after the step, the produced value, and the next free identity.
/// Production fails only when storage identities are exhausted.
pub open spec fn rc_step(c: ContainerModel, ds: Seq<ValueModel>, u: u64) -> (
    ContainerModel,
    Option<ValueModel>,
    u64,
)
    decreases c,
{
    match c {
        ContainerModel::Instance { key, value } => (c, Some(value), u),
        ContainerModel::Transient { key, deps, seed } => {
            if u == u64::MAX {
                (c, None, u)
            } else {
                (c, Some(ValueModel { key, fields: eval_ctor(seed, ds), uid: u }), (u + 1) as u64)
            }
        },
        ContainerModel::TransientFactory { key, deps, seed } => {
            if u == u64::MAX {
                (c, None, u)
            } else {
                (c, Some(ValueModel { key, fields: eval_ctor(seed, ds), uid: u }), (u + 1) as u64)
            }
        },
        ContainerModel::Singleton { key, deps, seed, cell } => {
            match cell {
                Some(w) => (c, Some(w), u),
                None => {
                    if u == u64::MAX {
                        (c, None, u)
                    } else {
                        let v = ValueModel { key, fields: eval_ctor(seed, ds), uid: u };
                        (
                            ContainerModel::Singleton { key, deps, seed, cell: Some(v) },
                            Some(v),
                            (u + 1) as u64,
                        )
                    }
                },
            }
        },
        ContainerModel::SingletonFactory { key, deps, seed, cell } => {
            match cell {
                Some(w) => (c, Some(w), u),
                None => {
                    if u == u64::MAX {
                        (c, None, u)
                    } else {
                        let v = ValueModel { key, fields: eval_ctor(seed, ds), uid: u };
                        (
                            ContainerModel::SingletonFactory { key, deps, seed, cell: Some(v) },
                            Some(v),
                            (u + 1) as u64,
                        )
                    }
                },
            }
        },
        ContainerModel::Convert { key, seed, inner } => {
            let (i2, ov, u2) = rc_step(*inner, ds, u);
            let c2 = ContainerModel::Convert { key, seed, inner: Box::new(i2) };
            match ov {
                None => (c2, None, u2),
                Some(t) => {
                    if u2 == u64::MAX {
                        (c2, None, u2)
                    } else {
                        (
                            c2,
                            Some(ValueModel { key, fields: seed + t.fields, uid: u2 }),
                            (u2 + 1) as u64,
                        )
                    }
                },
            }
        },
    }
}

/// Holds exactly when a `resolve_container` call matches one production
/// step: `c1`, `r` and `u1` are the container model after the call, the
/// returned value and the returned next identity, for a container that
/// started as `c0` and was handed dependency values `ds` and identity `u0`.
pub open spec fn rc_post(
    c0: ContainerModel,
    ds: Seq<ValueModel>,
    u0: u64,
    c1: ContainerModel,
    r: Option<Value>,
    u1: u64,
) -> bool {
    let (c2, ov, u2) = rc_step(c0, ds, u0);
    &&& c1 == c2
    &&& u1 == u2
    &&& match (r, ov) {
        (Some(v), Some(vm)) => v@ == vm,
        (None, None) => true,
        _ => false,
    }
}

/// A strategy that produces values of its declared output type from a
/// tuple of already-resolved dependency values.  Implement it for a
/// container so that it can stand inside a [`ConvertContainer`] and in a
/// registry.
pub trait ResolveContainer: View<V = ContainerModel> + Sized {
    /// The dependency keys the resolver must resolve before invoking
    /// `resolve_container` now.  Empty when no construction will run.
    fn needed_deps(&self) -> (r: Vec<u64>)
        ensures
            r@ == rc_needed(self@),
    ;

    /// Produces one value from the resolved dependency values `deps`,
    /// minting storage identities from `next_uid` up; returns the value
    /// and the next free identity.
    fn resolve_container(&mut self, deps: &Vec<Value>, next_uid: u64) -> (r: (Option<Value>, u64))
        ensures
            rc_post(old(self)@, views_of(deps@), next_uid, final(self)@, r.0, r.1),
    ;
}

/// Constructs its output anew on every resolution from the type's own
/// declaration; retains no state.
pub struct TransientContainer {
    /// Output type key.
    pub key: u64,
    /// Ordered dependency keys.
    pub dep_keys: Vec<u64>,
    /// The type's own constructor.
    pub ctor: Ctor,
}

impl View for TransientContainer {
    type V = ContainerModel;

    open spec fn view(&self) -> ContainerModel {
        ContainerModel::Transient { key: self.key, deps: self.dep_keys@, seed: self.ctor@ }
    }
}

impl TransientContainer {
    /// A transient provider for the declared type.
    pub fn new(decl: &TypeDecl) -> (r: Self)
        ensures
            r@ == (ContainerModel::Transient {
                key: decl.key,
                deps: decl.dep_keys@,
                seed: decl.ctor@,
            }),
    {
        TransientContainer {
            key: decl.key,
            dep_keys: clone_fields(&decl.dep_keys),
            ctor: decl.ctor.clone(),
        }
    }
}

impl ResolveContainer for TransientContainer {
    fn needed_deps(&self) -> (r: Vec<u64>) {
        clone_fields(&self.dep_keys)
    }

    fn resolve_container(&mut self, deps: &Vec<Value>, next_uid: u64) -> (r: (Option<Value>, u64)) {
        if next_uid == u64::MAX {
            (None, next_uid)
        } else {
            let fields = apply_ctor(&self.ctor, deps);
            (Some(Value { key: self.key, fields, uid: next_uid }), next_uid + 1)
        }
    }
}

/// Like [`TransientContainer`], but the constructor is an arbitrary body
/// supplied at registration rather than the type's own declaration.
pub struct TransientFactoryContainer {
    /// Output type key.
    pub key: u64,
    /// Ordered dependency keys.
    pub dep_keys: Vec<u64>,
    /// The supplied constructor body.
    pub body: Ctor,
}

impl View for TransientFactoryContainer {
    type V = ContainerModel;

    open spec fn view(&self) -> ContainerModel {
        ContainerModel::TransientFactory { key: self.key, deps: self.dep_keys@, seed: self.body@ }
    }
}

impl TransientFactoryContainer {
    /// A transient provider whose constructor `body` was supplied by the
    /// registering caller.
    pub fn new(key: u64, dep_keys: Vec<u64>, body: Ctor) -> (r: Self)
        ensures
            r@ == (ContainerModel::TransientFactory { key, deps: dep_keys@, seed: body@ }),
    {
        TransientFactoryContainer { key, dep_keys, body }
    }
}

impl ResolveContainer for TransientFactoryContainer {
    fn needed_deps(&self) -> (r: Vec<u64>) {
        clone_fields(&self.dep_keys)
    }

    fn resolve_container(&mut self, deps: &Vec<Value>, next_uid: u64) -> (r: (Option<Value>, u64)) {
        if next_uid == u64::MAX {
            (None, next_uid)
        } else {
            let fields = apply_ctor(&self.body, deps);
            (Some(Value { key: self.key, fields, uid: next_uid }), next_uid + 1)
        }
    }
}

/// Constructs its output at most once; the value lives in a write-once
/// cell and every later resolution returns the cached value without
/// resolving any dependency.
pub struct SingletonContainer {
    /// Output type key.
    pub key: u64,
    /// Ordered dependency keys.
    pub dep_keys: Vec<u64>,
    /// The type's own constructor.
    pub ctor: Ctor,
    /// The write-once cell holding the constructed value.
    pub cell: once_cell::sync::OnceCell<Value>,
}

impl View for SingletonContainer {
    type V = ContainerModel;

    open spec fn view(&self) -> ContainerModel {
        ContainerModel::Singleton {
            key: self.key,
            deps: self.dep_keys@,
            seed: self.ctor@,
            cell: cell_contents(self.cell),
        }
    }
}

impl SingletonContainer {
    /// A singleton provider for the declared type, with an empty cell.
    pub fn new(decl: &TypeDecl) -> (r: Self)
        ensures
            r@ == (ContainerModel::Singleton {
                key: decl.key,
                deps: decl.dep_keys@,
                seed: decl.ctor@,
                cell: None,
            }),
    {
        SingletonContainer {
            key: decl.key,
            dep_keys: clone_fields(&decl.dep_keys),
            ctor: decl.ctor.clone(),
            cell: cell_new(),
        }
    }

    /// The cell caching the constructed value.
    pub fn get(&self) -> (r: &once_cell::sync::OnceCell<Value>)
        ensures
            cell_contents(*r) == self@->Singleton_cell,
    {
        &self.cell
    }
}

impl ResolveContainer for SingletonContainer {
    fn needed_deps(&self) -> (r: Vec<u64>) {
        match cell_get(&self.cell) {
            Some(_) => Vec::new(),
            None => clone_fields(&self.dep_keys),
        }
    }

    fn resolve_container(&mut self, deps: &Vec<Value>, next_uid: u64) -> (r: (Option<Value>, u64)) {
        let cached = cell_get(&self.cell);
        match cached {
            Some(v) => {
                let out = v.clone();
                (Some(out), next_uid)
            },
            None => {
                if next_uid == u64::MAX {
                    (None, next_uid)
                } else {
                    let fields = apply_ctor(&self.ctor, deps);
                    let v = Value { key: self.key, fields, uid: next_uid };
                    let out = v.clone();
                    cell_init(&mut self.cell, v);
                    (Some(out), next_uid + 1)
                }
            },
        }
    }
}

/// Like [`SingletonContainer`], but the constructor is an arbitrary body
/// supplied at registration.
pub struct SingletonFactoryContainer {
    /// Output type key.
    pub key: u64,
    /// Ordered dependency keys.
    pub dep_keys: Vec<u64>,
    /// The supplied constructor body.
    pub body: Ctor,
    /// The write-once cell holding the constructed value.
    pub cell: once_cell::sync::OnceCell<Value>,
}

impl View for SingletonFactoryContainer {
    type V = ContainerModel;

    open spec fn view(&self) -> ContainerModel {
        ContainerModel::SingletonFactory {
            key: self.key,
            deps: self.dep_keys@,
            seed: self.body@,
            cell: cell_contents(self.cell),
        }
    }
}

impl SingletonFactoryContainer {
    /// A singleton provider whose constructor `body` was supplied by the
    /// registering caller, with an empty cell.
    pub fn new(key: u64, dep_keys: Vec<u64>, body: Ctor) -> (r: Self)
        ensures
            r@ == (ContainerModel::SingletonFactory {
                key,
                deps: dep_keys@,
                seed: body@,
                cell: None,
            }),
    {
        SingletonFactoryContainer { key, dep_keys, body, cell: cell_new() }
    }
}

impl ResolveContainer for SingletonFactoryContainer {
    fn needed_deps(&self) -> (r: Vec<u64>) {
        match cell_get(&self.cell) {
            Some(_) => Vec::new(),
            None => clone_fields(&self.dep_keys),
        }
    }

    fn resolve_container(&mut self, deps: &Vec<Value>, next_uid: u64) -> (r: (Option<Value>, u64)) {
        let cached = cell_get(&self.cell);
        match cached {
            Some(v) => {
                let out = v.clone();
                (Some(out), next_uid)
            },
            None => {
                if next_uid == u64::MAX {
                    (None, next_uid)
                } else {
                    let fields = apply_ctor(&self.body, deps);
                    let v = Value { key: self.key, fields, uid: next_uid };
                    let out = v.clone();
                    cell_init(&mut self.cell, v);
                    (Some(out), next_uid + 1)
                }
            },
        }
    }
}

/// Holds a value supplied at registration; resolution returns it and never
/// constructs anything.
pub struct InstanceContainer {
    /// The stored instance.
    pub value: Value,
}

impl View for InstanceContainer {
    type V = ContainerModel;

    open spec fn view(&self) -> ContainerModel {
        ContainerModel::Instance { key: self.value.key, value: self.value@ }
    }
}

impl InstanceContainer {
    /// A provider holding the supplied instance; its output type key is
    /// the instance's own key.
    pub fn new(instance: Value) -> (r: Self)
        ensures
            r@ == (ContainerModel::Instance { key: instance.key, value: instance@ }),
    {
        InstanceContainer { value: instance }
    }

    /// The stored instance.
    pub fn get(&self) -> (r: &Value)
        ensures
            r@ == self@->Instance_value,
    {
        &self.value
    }
}

impl ResolveContainer for InstanceContainer {
    fn needed_deps(&self) -> (r: Vec<u64>) {
        Vec::new()
    }

    fn resolve_container(&mut self, deps: &Vec<Value>, next_uid: u64) -> (r: (Option<Value>, u64)) {
        let out = self.value.clone();
        (Some(out), next_uid)
    }
}

/// Wraps an inner container and applies a total conversion to whatever it
/// produces, adapting the inner output type to the declared one.
pub struct ConvertContainer {
    /// The wrapped inner container.
    pub cont: Box<Container>,
    /// Output type key after conversion.
    pub key: u64,
    /// The conversion: the converted value's fields are this seed followed
    /// by the inner value's fields.
    pub conv: Ctor,
}

impl View for ConvertContainer {
    type V = ContainerModel;

    open spec fn view(&self) -> ContainerModel {
        ContainerModel::Convert {
            key: self.key,
            seed: self.conv@,
            inner: Box::new(cont_model(*self.cont)),
        }
    }
}

impl ConvertContainer {
    /// Wraps `cont`; resolved values of `cont` are converted by `conv`
    /// into values of type `key`.
    pub fn new(cont: Container, key: u64, conv: Ctor) -> (r: Self)
        ensures
            r@ == (ContainerModel::Convert {
                key,
                seed: conv@,
                inner: Box::new(cont_model(cont)),
            }),
    {
        ConvertContainer { cont: Box::new(cont), key, conv }
    }

    /// The wrapped inner container.
    pub fn get(&self) -> (r: &Container)
        ensures
            cont_model(*r) == *self@->Convert_inner,
    {
        &self.cont
    }
}

impl ResolveContainer for ConvertContainer {
    fn needed_deps(&self) -> (r: Vec<u64>)
        decreases cm_height(self@), 0nat,
    {
        (&*self.cont).needed_deps()
    }

    fn resolve_container(&mut self, deps: &Vec<Value>, next_uid: u64) -> (r: (Option<Value>, u64))
        decreases cm_height(old(self)@), 0nat,
    {
        let (ov, u2) = (&mut *self.cont).resolve_container(deps, next_uid);
        match ov {
            None => (None, u2),
            Some(t) => {
                if u2 == u64::MAX {
                    (None, u2)
                } else {
                    let mut tup: Vec<Value> = Vec::new();
                    tup.push(t);
                    let fields = apply_ctor(&self.conv, &tup);
                    proof {
                        lemma_concat_single(views_of(tup@));
                    }
                    (Some(Value { key: self.key, fields, uid: u2 }), u2 + 1)
                }
            },
        }
    }
}

/// Concatenating the fields of a one-value sequence gives that value's
/// fields.
proof fn lemma_concat_single(vs: Seq<ValueModel>)
    requires
        vs.len() == 1,
    ensures
        crate::value::concat_fields(vs) == vs[0].fields,
{
    assert(vs.skip(1) =~= Seq::<ValueModel>::empty());
    assert(crate::value::concat_fields(Seq::<ValueModel>::empty()) == Seq::<u64>::empty());
    assert(crate::value::concat_fields(vs) == vs[0].fields + Seq::<u64>::empty());
    assert(vs[0].fields + Seq::<u64>::empty() =~= vs[0].fields);
}

/// A registered provider: any one of the strategies.
pub enum Container {
    Transient(TransientContainer),
    TransientFactory(TransientFactoryContainer),
    Singleton(SingletonContainer),
    SingletonFactory(SingletonFactoryContainer),
    Instance(InstanceContainer),
    Convert(ConvertContainer),
}

/// The model of a registered provider.
pub open spec fn cont_model(c: Container) -> ContainerModel
    decreases c,
{
    match c {
        Container::Transient(t) => ContainerModel::Transient {
            key: t.key,
            deps: t.dep_keys@,
            seed: t.ctor@,
        },
        Container::TransientFactory(t) => ContainerModel::TransientFactory {
            key: t.key,
            deps: t.dep_keys@,
            seed: t.body@,
        },
        Container::Singleton(s) => s@,
        Container::SingletonFactory(s) => s@,
        Container::Instance(i) => i@,
        Container::Convert(cv) => ContainerModel::Convert {
            key: cv.key,
            seed: cv.conv@,
            inner: Box::new(cont_model(*cv.cont)),
        },
    }
}

impl View for Container {
    type V = ContainerModel;

    open spec fn view(&self) -> ContainerModel {
        cont_model(*self)
    }
}

impl ResolveContainer for Container {
    fn needed_deps(&self) -> (r: Vec<u64>)
        decreases cm_height(self@), 1nat,
    {
        match self {
            Container::Transient(t) => t.needed_deps(),
            Container::TransientFactory(t) => t.needed_deps(),
            Container::Singleton(s) => s.needed_deps(),
            Container::SingletonFactory(s) => s.needed_deps(),
            Container::Instance(i) => i.needed_deps(),
            Container::Convert(cv) => cv.needed_deps(),
        }
    }

    fn resolve_container(&mut self, deps: &Vec<Value>, next_uid: u64) -> (r: (Option<Value>, u64))
        decreases cm_height(old(self)@), 1nat,
    {
        match self {
            Container::Transient(t) => t.resolve_container(deps, next_uid),
            Container::TransientFactory(t) => t.resolve_container(deps, next_uid),
            Container::Singleton(s) => s.resolve_container(deps, next_uid),
            Container::SingletonFactory(s) => s.resolve_container(deps, next_uid),
            Container::Instance(i) => i.resolve_container(deps, next_uid),
            Container::Convert(cv) => cv.resolve_container(deps, next_uid),
        }
    }
}

/// The output type key an exec container produces.
pub fn container_key(c: &Container) -> (r: u64)
    ensures
        r == cm_key(c@),
{
    match c {
        Container::Transient(t) => t.key,
        Container::TransientFactory(t) => t.key,
        Container::Singleton(s) => s.key,
        Container::SingletonFactory(s) => s.key,
        Container::Instance(i) => i.get().key,
        Container::Convert(cv) => cv.key,
    }
}

} // verus!
