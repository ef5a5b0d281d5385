use classfile::class_registry::ClassRegistry;
use classfile::class_registry::derive_name;
use classfile::error::DecodeError;

fn push_u16(b: &mut Vec<u8>, v: u16) {
    b.push((v >> 8) as u8);
    b.push(v as u8);
}

fn push_u32(b: &mut Vec<u8>, v: u32) {
    b.push((v >> 24) as u8);
    b.push((v >> 16) as u8);
    b.push((v >> 8) as u8);
    b.push(v as u8);
}

fn minimal_class(major: u16) -> Vec<u8> {
    let mut b = Vec::new();
    push_u32(&mut b, 0xCAFEBABE);
    push_u16(&mut b, 0);
    push_u16(&mut b, major);
    push_u16(&mut b, 1); // constant_pool_count
    push_u16(&mut b, 0x0021);
    push_u16(&mut b, 0);
    push_u16(&mut b, 0);
    push_u16(&mut b, 0); // interfaces_count
    push_u16(&mut b, 0); // fields_count
    push_u16(&mut b, 0); // methods_count
    push_u16(&mut b, 0); // attributes_count
    b
}

#[test]
fn define_decodes_and_caches() {
    let mut registry = ClassRegistry::new();
    let bytes = minimal_class(52);
    {
        let cf = registry.define("A.class", &bytes).unwrap();
        assert_eq!(cf.major_version, 52);
    }
    let found = registry.find(&"A".to_owned()).unwrap();
    assert_eq!(found.major_version, 52);
}

#[test]
fn define_is_first_wins() {
    // bytes_a and bytes_b are structurally different; both calls must
    // return the decoding of bytes_a, and the second call must leave
    // the registry untouched.
    let bytes_a = minimal_class(52);
    let bytes_b = minimal_class(61);
    let mut registry = ClassRegistry::new();
    {
        let first = registry.define("A.class", &bytes_a).unwrap();
        assert_eq!(first.major_version, 52);
    }
    {
        let second = registry.define("A.class", &bytes_b).unwrap();
        assert_eq!(second.major_version, 52);
    }
    let found = registry.find(&"A".to_owned()).unwrap();
    assert_eq!(found.major_version, 52);
}

#[test]
fn second_define_never_decodes_the_new_bytes() {
    // The second buffer is garbage; first-wins means it is never even
    // decoded, so no error surfaces.
    let bytes_a = minimal_class(52);
    let garbage = vec![0x00, 0x01, 0x02];
    let mut registry = ClassRegistry::new();
    registry.define("A.class", &bytes_a).unwrap();
    let second = registry.define("A.class", &garbage).unwrap();
    assert_eq!(second.major_version, 52);
}

#[test]
fn failed_define_inserts_nothing() {
    let mut registry = ClassRegistry::new();
    let bad = minimal_class(44);
    assert_eq!(
        registry.define("A.class", &bad).map(|_| ()).unwrap_err(),
        DecodeError::UnsupportedVersion(44)
    );
    assert!(registry.find(&"A".to_owned()).is_none());
    // The name is still free: a later good definition takes it.
    let good = minimal_class(45);
    let cf = registry.define("A.class", &good).unwrap();
    assert_eq!(cf.major_version, 45);
}

#[test]
fn find_miss_reports_none() {
    let registry = ClassRegistry::new();
    assert!(registry.find(&"Missing".to_owned()).is_none());
}

#[test]
fn distinct_names_are_cached_separately() {
    let mut registry = ClassRegistry::new();
    registry.define("A.class", &minimal_class(50)).unwrap();
    registry.define("B.class", &minimal_class(51)).unwrap();
    assert_eq!(registry.find(&"A".to_owned()).unwrap().major_version, 50);
    assert_eq!(registry.find(&"B".to_owned()).unwrap().major_version, 51);
}

#[test]
fn derive_name_strips_directory_and_suffix() {
    assert_eq!(derive_name("com/example/Main.class").as_str(), "Main");
    assert_eq!(derive_name("Main.class").as_str(), "Main");
    assert_eq!(derive_name("Main").as_str(), "Main");
    assert_eq!(derive_name("com/example/Main").as_str(), "Main");
    assert_eq!(derive_name("a/b/").as_str(), "");
    assert_eq!(derive_name(".class").as_str(), "");
    assert_eq!(derive_name("x.клас").as_str(), "x.клас");
    assert_eq!(derive_name("dir.class/Main.class").as_str(), "Main");
}

#[test]
fn define_keys_by_derived_name() {
    // Two paths with the same final segment collide in the registry.
    let mut registry = ClassRegistry::new();
    registry.define("com/example/Main.class", &minimal_class(52)).unwrap();
    let second = registry.define("other/dir/Main.class", &minimal_class(61)).unwrap();
    assert_eq!(second.major_version, 52);
    assert_eq!(registry.find(&"Main".to_owned()).unwrap().major_version, 52);
}
