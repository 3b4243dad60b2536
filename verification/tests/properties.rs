use teloc::container::{Container, InstanceContainer, TransientContainer};
use teloc::owner::{OwnerPhase, ScopedOwner};
use teloc::provider::ServiceProvider;
use teloc::value::{Ctor, TypeDecl, Value};
use teloc::{ContainerWrapper, Get, GetClone, GetRef};

const LEAF: u64 = 1;
const WIDGET: u64 = 2;
const IFACE: u64 = 3;

fn widget_decl() -> TypeDecl {
    TypeDecl { key: WIDGET, dep_keys: vec![LEAF], ctor: Ctor { seed: vec![4] } }
}

#[test]
fn transient_independence() {
    let mut sp = ServiceProvider::new()
        .add_transient(0, &widget_decl())
        .add_instance(0, LEAF, vec![9]);
    let a = sp.resolve(0, WIDGET).unwrap();
    let b = sp.resolve(0, WIDGET).unwrap();
    assert_eq!(a.fields, vec![4, 9]);
    assert_eq!(b.fields, vec![4, 9]);
    assert_ne!(a.uid, b.uid);

    let mut a = a;
    a.fields[0] = 77;
    assert_eq!(b.fields[0], 4);
}

#[test]
fn singleton_identity_and_single_construction() {
    let mut sp = ServiceProvider::new()
        .add_singleton(0, &widget_decl())
        .add_instance(0, LEAF, vec![9]);
    let minted_before = sp.next_uid;
    let a = sp.resolve(0, WIDGET).unwrap();
    let minted_after_first = sp.next_uid;
    let b = sp.resolve(0, WIDGET).unwrap();
    let minted_after_second = sp.next_uid;

    assert_eq!(a.uid, b.uid);
    assert_eq!(a.fields, b.fields);
    assert_eq!(a.fields, vec![4, 9]);
    // the constructor ran exactly once: the first resolution minted one
    // identity, the second minted none
    assert_eq!(minted_after_first, minted_before + 1);
    assert_eq!(minted_after_second, minted_after_first);
}

#[test]
fn instance_passthrough() {
    let mut sp = ServiceProvider::new().add_instance(0, LEAF, vec![10]);
    let registered_uid = sp.next_uid - 1;
    let a = sp.resolve(0, LEAF).unwrap();
    let b = sp.resolve(0, LEAF).unwrap();
    assert_eq!(a.uid, registered_uid);
    assert_eq!(b.uid, registered_uid);
    assert_eq!(a.fields, vec![10]);
    assert_eq!(b.fields, vec![10]);
}

#[test]
fn scope_shadowing() {
    let mut sp = ServiceProvider::new().add_instance(0, LEAF, vec![1]);
    let child1 = sp.fork(0);
    let child2 = sp.fork(0);
    let mut sp = sp.add_instance(child1, LEAF, vec![2]);

    assert_eq!(sp.resolve(child1, LEAF).unwrap().fields, vec![2]);
    assert_eq!(sp.resolve(0, LEAF).unwrap().fields, vec![1]);
    assert_eq!(sp.resolve(child2, LEAF).unwrap().fields, vec![1]);
}

#[test]
fn child_sees_parent_providers() {
    let mut sp = ServiceProvider::new()
        .add_singleton(0, &widget_decl())
        .add_instance(0, LEAF, vec![9]);
    let child = sp.fork(0);
    let from_child = sp.resolve(child, WIDGET).unwrap();
    let from_root = sp.resolve(0, WIDGET).unwrap();
    // the singleton lives in the parent: both scopes observe one identity
    assert_eq!(from_child.uid, from_root.uid);
    assert_eq!(from_child.fields, vec![4, 9]);
}

#[test]
fn conversion_composition() {
    let inner = Container::Transient(TransientContainer::new(&widget_decl()));
    let mut sp = ServiceProvider::new()
        .add_instance(0, LEAF, vec![9])
        .add_convert(0, IFACE, Ctor { seed: vec![100] }, inner);
    let direct = sp.resolve(0, WIDGET);
    assert!(direct.is_none());
    let converted = sp.resolve(0, IFACE).unwrap();
    // exactly convert(resolve(widget)): the conversion's seed, then the
    // inner value's fields
    assert_eq!(converted.fields, vec![100, 4, 9]);
    assert_eq!(converted.key, IFACE);
}

#[test]
fn conversion_of_singleton_constructs_once() {
    let decl = widget_decl();
    let inner = Container::Singleton(teloc::container::SingletonContainer::new(&decl));
    let mut sp = ServiceProvider::new()
        .add_instance(0, LEAF, vec![9])
        .add_convert(0, IFACE, Ctor { seed: vec![] }, inner);
    let a = sp.resolve(0, IFACE).unwrap();
    let after_first = sp.next_uid;
    let b = sp.resolve(0, IFACE).unwrap();
    let after_second = sp.next_uid;
    assert_eq!(a.fields, vec![4, 9]);
    assert_eq!(b.fields, vec![4, 9]);
    // the inner singleton was constructed once; each resolution minted
    // one identity for the converted value only
    assert_eq!(after_second, after_first + 1);
}

#[test]
fn factory_equivalence() {
    let mut with_factory = ServiceProvider::new()
        .add_transient_factory(0, WIDGET, vec![LEAF], Ctor { seed: vec![4] })
        .add_instance(0, LEAF, vec![9]);
    let mut with_decl = ServiceProvider::new()
        .add_transient(0, &widget_decl())
        .add_instance(0, LEAF, vec![9]);
    let from_factory = with_factory.resolve(0, WIDGET).unwrap();
    let from_decl = with_decl.resolve(0, WIDGET).unwrap();
    assert_eq!(from_factory.fields, from_decl.fields);
    assert_eq!(from_factory.fields, vec![4, 9]);
}

#[test]
fn end_to_end_scenario() {
    const A: u64 = 11;
    const B: u64 = 12;
    const C: u64 = 13;
    let mut sp = ServiceProvider::new()
        .add_singleton(0, &TypeDecl { key: A, dep_keys: vec![], ctor: Ctor { seed: vec![7] } })
        .add_instance(0, B, vec![10])
        .add_transient(0, &TypeDecl { key: C, dep_keys: vec![A, B], ctor: Ctor { seed: vec![] } });

    let c1 = sp.resolve(0, C).unwrap();
    let c2 = sp.resolve(0, C).unwrap();
    // both resolutions observed the same singleton A and the same B{10}
    assert_eq!(c1.fields, vec![7, 10]);
    assert_eq!(c2.fields, vec![7, 10]);
    // while C itself is two independent values
    assert_ne!(c1.uid, c2.uid);
    // and A keeps one identity across direct resolutions too
    let a1 = sp.resolve(0, A).unwrap();
    let a2 = sp.resolve(0, A).unwrap();
    assert_eq!(a1.uid, a2.uid);
}

#[test]
fn missing_key_resolves_to_none() {
    let mut sp = ServiceProvider::new().add_instance(0, LEAF, vec![1]);
    assert!(sp.resolve(0, 999).is_none());
    assert!(sp.resolve(7, LEAF).is_none());
}

#[test]
fn validate_flags_ambiguous_registrations() {
    let sp = ServiceProvider::new()
        .add_instance(0, LEAF, vec![1])
        .add_instance(0, LEAF, vec![2]);
    assert!(!sp.validate());

    let mut sp = ServiceProvider::new().add_instance(0, LEAF, vec![1]);
    let child = sp.fork(0);
    let sp = sp.add_instance(child, LEAF, vec![2]);
    // shadowing across scopes is not ambiguity
    assert!(sp.validate());
}

#[test]
fn empty_registry_and_empty_fields() {
    let mut sp = ServiceProvider::new();
    assert!(sp.resolve(0, LEAF).is_none());
    let mut sp = sp.add_instance(0, LEAF, vec![]);
    let v = sp.resolve(0, LEAF).unwrap();
    assert_eq!(v.fields.len(), 0);
}

#[test]
fn scoped_owner_teardown_order() {
    let mut sp = ServiceProvider::new().add_instance(0, LEAF, vec![10]);
    let scope = sp.fork(0);
    let sp = sp.add_instance(scope, WIDGET, vec![3]);

    let mut owner = ScopedOwner::new(sp, scope);
    assert_eq!(owner.phase, OwnerPhase::Active);
    let local = owner.poll_resolve(WIDGET).unwrap();
    let shared = owner.poll_resolve(LEAF).unwrap();
    assert_eq!(local.fields, vec![3]);
    assert_eq!(shared.fields, vec![10]);

    owner.drop_computation();
    assert_eq!(owner.phase, OwnerPhase::ComputationDropped);
    let mut sp = owner.release();
    // the registry survives the computation and stays usable
    assert_eq!(sp.resolve(0, LEAF).unwrap().fields, vec![10]);
}

#[test]
fn wrapper_access_traits() {
    let held = Value { key: LEAF, fields: vec![5, 6], uid: 42 };
    let mut w = ContainerWrapper(InstanceContainer::new(held));
    let by_ref: &Value = w.get_ref();
    assert_eq!(by_ref.fields, vec![5, 6]);
    assert_eq!(by_ref.uid, 42);
    let cloned: Value = w.get_clone();
    assert_eq!(cloned.fields, vec![5, 6]);
    assert_eq!(cloned.uid, 42);
    let got: Value = w.get();
    assert_eq!(got.fields, vec![5, 6]);
}

#[test]
fn container_constructors_and_getters() {
    let decl = widget_decl();
    let t = TransientContainer::new(&decl);
    assert_eq!(t.key, WIDGET);
    assert_eq!(t.dep_keys, vec![LEAF]);

    let s = teloc::container::SingletonContainer::new(&decl);
    assert!(s.get().get().is_none());

    let i = InstanceContainer::new(Value { key: LEAF, fields: vec![1], uid: 0 });
    assert_eq!(i.get().fields, vec![1]);

    let cv = teloc::container::ConvertContainer::new(
        Container::Transient(TransientContainer::new(&decl)),
        IFACE,
        Ctor { seed: vec![] },
    );
    match cv.get() {
        Container::Transient(inner) => assert_eq!(inner.key, WIDGET),
        _ => panic!("wrong inner container"),
    }

    let v = Value { key: LEAF, fields: vec![8], uid: 3 };
    let w = v.clone();
    assert_eq!(w.key, v.key);
    assert_eq!(w.fields, v.fields);
    assert_eq!(w.uid, v.uid);
}

#[test]
fn resolve_ref_lends_without_constructing() {
    let mut sp = ServiceProvider::new()
        .add_singleton(0, &widget_decl())
        .add_instance(0, LEAF, vec![9]);
    // the instance is lendable at once
    assert_eq!(sp.resolve_ref(0, LEAF).unwrap().fields, vec![9]);
    // the singleton only after it has been materialized
    assert!(sp.resolve_ref(0, WIDGET).is_none());
    let owned = sp.resolve(0, WIDGET).unwrap();
    let lent = sp.resolve_ref(0, WIDGET).unwrap();
    assert_eq!(lent.fields, vec![4, 9]);
    assert_eq!(lent.uid, owned.uid);
    // transients lend nothing
    let mut sp2 = ServiceProvider::new()
        .add_transient(0, &widget_decl())
        .add_instance(0, LEAF, vec![9]);
    sp2.resolve(0, WIDGET).unwrap();
    assert!(sp2.resolve_ref(0, WIDGET).is_none());
}

#[test]
fn validate_scope_accepts_acyclic_and_rejects_broken_graphs() {
    // acyclic and fully provided
    let sp = ServiceProvider::new()
        .add_transient(0, &widget_decl())
        .add_instance(0, LEAF, vec![9]);
    assert!(sp.validate_scope(0));

    // a dependency nobody provides
    let sp = ServiceProvider::new().add_transient(0, &widget_decl());
    assert!(!sp.validate_scope(0));

    // a cycle: two providers that need each other
    let sp = ServiceProvider::new()
        .add_transient(0, &TypeDecl { key: 1, dep_keys: vec![2], ctor: Ctor { seed: vec![] } })
        .add_transient(0, &TypeDecl { key: 2, dep_keys: vec![1], ctor: Ctor { seed: vec![] } });
    assert!(!sp.validate_scope(0));

    // a self-cycle
    let sp = ServiceProvider::new()
        .add_transient(0, &TypeDecl { key: 1, dep_keys: vec![1], ctor: Ctor { seed: vec![] } });
    assert!(!sp.validate_scope(0));

    // validation looks through the whole chain of a forked scope
    let mut sp = ServiceProvider::new().add_transient(0, &widget_decl());
    let child = sp.fork(0);
    let sp = sp.add_instance(child, LEAF, vec![9]);
    assert!(sp.validate_scope(child));
    assert!(!sp.validate_scope(0));
}

#[test]
fn sibling_scopes_do_not_interfere() {
    let mut sp = ServiceProvider::new()
        .add_singleton(0, &widget_decl())
        .add_instance(0, LEAF, vec![1]);
    let child1 = sp.fork(0);
    let child2 = sp.fork(0);
    let mut sp = sp.add_transient_factory(child1, WIDGET, vec![], Ctor { seed: vec![8] });
    // the first child's local provider shadows the parent's singleton
    assert_eq!(sp.resolve(child1, WIDGET).unwrap().fields, vec![8]);
    // the parent and the other child still see the parent's singleton,
    // untouched by the first child's registration
    let w0 = sp.resolve(0, WIDGET).unwrap();
    let w2 = sp.resolve(child2, WIDGET).unwrap();
    assert_eq!(w0.fields, vec![4, 1]);
    assert_eq!(w2.uid, w0.uid);
}
