use teloc::provider::ServiceProvider;
use teloc::value::{Ctor, TypeDecl};

const CONTROLLER_A: u64 = 1;
const CONTROLLER_B: u64 = 2;
const SCHEMA_A: u64 = 3;
const SCHEMA_B: u64 = 4;

#[test]
fn test() {
    let container = ServiceProvider::new()
        .add_transient(
            0,
            &TypeDecl { key: CONTROLLER_A, dep_keys: vec![], ctor: Ctor { seed: vec![0, 1] } },
        )
        .add_transient(
            0,
            &TypeDecl { key: CONTROLLER_B, dep_keys: vec![], ctor: Ctor { seed: vec![1, 5] } },
        )
        .add_transient(
            0,
            &TypeDecl {
                key: SCHEMA_A,
                dep_keys: vec![CONTROLLER_A, CONTROLLER_B],
                ctor: Ctor { seed: vec![] },
            },
        )
        .add_transient_factory(0, SCHEMA_B, vec![CONTROLLER_B], Ctor { seed: vec![] });
    let mut container = container;
    let schema = container.resolve(0, SCHEMA_A).unwrap();
    assert_eq!(schema.fields[0], 0);
    assert_eq!(schema.fields[1], 1);
    assert_eq!(schema.fields[2], 1);
    assert_eq!(schema.fields[3], 5);

    let schema = container.resolve(0, SCHEMA_B).unwrap();
    assert_eq!(schema.fields[0], 1);
    assert_eq!(schema.fields[1], 5);
}
