use teloc::provider::ServiceProvider;
use teloc::value::{Ctor, TypeDecl};

const CONST_SERVICE: u64 = 1;
const CONTROLLER_A: u64 = 2;
const CONTROLLER_WITH_DEPENDENCY_CLONE: u64 = 3;

fn controller_a_decl() -> TypeDecl {
    TypeDecl { key: CONTROLLER_A, dep_keys: vec![CONST_SERVICE], ctor: Ctor { seed: vec![] } }
}

fn controller_clone_decl() -> TypeDecl {
    TypeDecl {
        key: CONTROLLER_WITH_DEPENDENCY_CLONE,
        dep_keys: vec![CONST_SERVICE],
        ctor: Ctor { seed: vec![] },
    }
}

#[test]
fn test_resolve_singleton_by_reference() {
    let sp = ServiceProvider::new()
        .add_singleton(0, &controller_a_decl())
        .add_instance(0, CONST_SERVICE, vec![10, 8]);

    let mut sp = sp;
    let controller_a = sp.resolve(0, CONTROLLER_A).unwrap();
    assert_eq!(controller_a.fields[0], 10);
}

#[test]
fn test_resolve_singleton_by_dependency_clone() {
    let sp = ServiceProvider::new()
        .add_singleton(0, &controller_clone_decl())
        .add_instance(0, CONST_SERVICE, vec![10, 8]);

    let mut sp = sp;
    let controller = sp.resolve(0, CONTROLLER_WITH_DEPENDENCY_CLONE).unwrap();
    assert_eq!(controller.fields[0], 10);
}

#[test]
fn test_resolve_singleton_factory_by_reference() {
    let sp = ServiceProvider::new()
        .add_singleton_factory(0, CONTROLLER_A, vec![CONST_SERVICE], Ctor { seed: vec![] })
        .add_instance(0, CONST_SERVICE, vec![10, 8]);

    let mut sp = sp;
    let controller_a = sp.resolve(0, CONTROLLER_A).unwrap();
    assert_eq!(controller_a.fields[0], 10);
}

#[test]
fn test_resolve_singleton_factory_by_dependency_clone() {
    let sp = ServiceProvider::new()
        .add_singleton_factory(
            0,
            CONTROLLER_WITH_DEPENDENCY_CLONE,
            vec![CONST_SERVICE],
            Ctor { seed: vec![] },
        )
        .add_instance(0, CONST_SERVICE, vec![10, 8]);

    let mut sp = sp;
    let controller = sp.resolve(0, CONTROLLER_WITH_DEPENDENCY_CLONE).unwrap();
    assert_eq!(controller.fields[0], 10);
}
