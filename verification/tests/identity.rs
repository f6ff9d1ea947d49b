use skirmish_script::definition::AssetStore;
use skirmish_script::identity::{append_field, append_identity_prefix, append_sources_with_dependencies, encode_program_record};

const COMPILER: [u8; 32] = [7; 32];

fn append_sources(bytes: &mut Vec<u8>, selected: &[String], assets: &AssetStore) {
    append_sources_with_dependencies(bytes, &selected.to_vec(), assets, &Vec::new(), COMPILER, None, b"sdk-id");
}

fn identity(dependency: &str) -> Vec<u8> {
    let mut assets = AssetStore::new();
    assets.register("helper.py".into(), dependency.into());
    let mut bytes = Vec::new();
    append_sources(&mut bytes, &["from helper import BONUS".to_owned()], &assets);
    bytes
}

#[test]
fn imported_dependency_changes_script_identity() {
    assert_ne!(identity("one"), identity("two"));
}

#[test]
fn dependency_order_is_deterministic() {
    let mut first = AssetStore::new();
    first.register("z.py".into(), "z".into());
    first.register("a.py".into(), "a".into());
    let mut second = AssetStore::new();
    second.register("a.py".into(), "a".into());
    second.register("z.py".into(), "z".into());
    let source = ["source".to_owned()];
    let mut first_bytes = Vec::new();
    append_sources(&mut first_bytes, &source, &first);
    let mut second_bytes = Vec::new();
    append_sources(&mut second_bytes, &source, &second);
    assert_eq!(first_bytes, second_bytes);
}

#[test]
fn dependency_association_changes_identity() {
    let one = vec![("helper.py".to_string(), "one".to_string())];
    let two = vec![("helper.py".to_string(), "two".to_string())];
    let mut a_then_b = vec![encode_program_record("program-a", &one), encode_program_record("program-b", &two)];
    let mut b_then_a = vec![encode_program_record("program-a", &two), encode_program_record("program-b", &one)];
    a_then_b.sort();
    b_then_a.sort();
    let assets = AssetStore::new();
    let mut first = Vec::new();
    append_sources_with_dependencies(&mut first, &vec![], &assets, &a_then_b, COMPILER, None, b"sdk-id");
    let mut second = Vec::new();
    append_sources_with_dependencies(&mut second, &vec![], &assets, &b_then_a, COMPILER, None, b"sdk-id");
    assert_ne!(first, second);
}

#[test]
fn resource_identity_contains_compiler_fingerprint() {
    let assets = AssetStore::new();
    let mut bytes = Vec::new();
    append_sources(&mut bytes, &["source".to_owned()], &assets);
    assert!(bytes.windows(COMPILER.len()).any(|window| window == COMPILER));
}

#[test]
fn compiler_only_identity_change_rejects_resource_checkpoint_identity() {
    let assets = AssetStore::new();
    let mut current = Vec::new();
    append_sources(&mut current, &["source".to_owned()], &assets);
    let mut incompatible = Vec::new();
    append_identity_prefix(&mut incompatible, [0xA5; 32]);
    let marker_len = b"\0skirmish-pon-fighter-v2\0".len();
    incompatible.extend_from_slice(&current[marker_len + 9 + 32 + 1..]);
    assert_ne!(current, incompatible);
}

#[test]
fn fields_are_length_prefixed_little_endian() {
    let mut stream = Vec::new();
    append_field(&mut stream, b"ab", b"xyz");
    assert_eq!(stream, vec![2, 0, 0, 0, 0, 0, 0, 0, b'a', b'b', 3, 0, 0, 0, 0, 0, 0, 0, b'x', b'y', b'z']);
    let mut prefix = Vec::new();
    append_identity_prefix(&mut prefix, [1; 32]);
    assert!(prefix.starts_with(b"\0skirmish-pon-fighter-v2\0compiler:"));
    assert_eq!(prefix.len(), 25 + 9 + 32 + 1);
    assert_eq!(*prefix.last().unwrap(), 0);
}
