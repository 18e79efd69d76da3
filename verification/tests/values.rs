use hashedbuild::data::{emptym, ival, maybe_is, sval, Comparison, File, Function, Mapping, Value};
use hashedbuild::fs_entry::{content_hash, FsEntry};
use hashedbuild::runtime::{join, Runtime};
use hashedbuild::sha256_hash::Sha256Hash;
use sha2::Digest;

fn s(text: &str) -> Value {
    Value::String(text.to_owned())
}

fn as_int(v: Option<&Value>) -> Option<i64> {
    match v {
        Some(Value::Integer(i)) => Some(*i),
        _ => None,
    }
}

fn hex(bytes: &[u8]) -> String {
    bytes.iter().map(|b| format!("{:02x}", b)).collect()
}

fn sha256_digest(data: &[u8]) -> [u8; 32] {
    sha2::Sha256::digest(data).into()
}

fn regular(text: &str) -> FsEntry {
    FsEntry::RegularFile { len: text.len() as u64, contents: text.as_bytes().to_vec() }
}

#[test]
fn map_get_after_put() {
    let m = Mapping::new().put(s("a"), Value::Integer(1));
    assert_eq!(as_int(m.get(&s("a"))), Some(1));
    assert!(m.get(&s("b")).is_none());
}

#[test]
fn map_put_keeps_other_keys() {
    let m = Mapping::new().put(s("a"), Value::Integer(1)).put(s("b"), Value::Integer(2));
    assert_eq!(as_int(m.get(&s("a"))), Some(1));
    assert_eq!(as_int(m.get(&s("b"))), Some(2));
    assert_eq!(m.len(), 2);
}

#[test]
fn map_put_equal_key_replaces_value() {
    let m = Mapping::new().put(s("a"), Value::Integer(1)).put(s("a"), Value::Integer(7));
    assert_eq!(m.len(), 1);
    assert_eq!(as_int(m.get(&s("a"))), Some(7));
}

#[test]
fn map_put_all_prefers_the_other_mapping() {
    let left = Mapping::new().put(s("a"), Value::Integer(1)).put(s("b"), Value::Integer(2));
    let right = Mapping::new().put(s("b"), Value::Integer(20)).put(s("c"), Value::Integer(30));
    let m = left.put_all(&right);
    assert_eq!(m.len(), 3);
    assert_eq!(as_int(m.get(&s("a"))), Some(1));
    assert_eq!(as_int(m.get(&s("b"))), Some(20));
    assert_eq!(as_int(m.get(&s("c"))), Some(30));
}

#[test]
fn map_entries_are_sorted_by_kind_then_content() {
    let m = Mapping::new()
        .put(s("b"), Value::Integer(0))
        .put(Value::Integer(5), Value::Integer(1))
        .put(s("a"), Value::Integer(2))
        .put(Value::Boolean(true), Value::Integer(3))
        .put(Value::Integer(-3), Value::Integer(4));
    assert_eq!(m.len(), 5);
    let keys: Vec<String> = (0..m.len()).map(|i| format!("{:?}", m.entry(i).0)).collect();
    assert_eq!(keys, vec!["Boolean(true)", "Integer(-3)", "Integer(5)", "String(\"a\")", "String(\"b\")"]);
}

#[test]
fn compare_orders_kinds_and_contents() {
    assert!(matches!(Value::Boolean(false).compare(&Value::Boolean(true)), Comparison::Less));
    assert!(matches!(Value::Integer(3).compare(&Value::Integer(-3)), Comparison::Greater));
    assert!(matches!(s("ab").compare(&s("b")), Comparison::Less));
    assert!(matches!(s("abc").compare(&s("ab")), Comparison::Greater));
    assert!(matches!(Value::Integer(100).compare(&s("a")), Comparison::Less));
    assert!(matches!(
        Value::Function(Function::WriteFile).compare(&Value::Function(Function::LoadFile)),
        Comparison::Greater
    ));
    assert!(matches!(s("x").compare(&s("x")), Comparison::Equal));
}

#[test]
fn files_are_equal_by_content_alone() {
    let a = File::new("one/path".to_owned(), &regular("abc"));
    let b = File::new("another/path".to_owned(), &regular("abc"));
    let c = File::new("one/path".to_owned(), &regular("abd"));
    assert!(a == b);
    assert!(a != c);
    assert!(Value::File(a).equals(&Value::File(b)));
}

#[test]
fn regular_file_hash_covers_length_and_bytes() {
    let h = content_hash(&regular("abc"));
    assert_eq!(hex(&h), "7e47cb99d8e4af79b92f2b180f4c9324720a2d16aa3b2e4aaed908e654902595");
}

#[test]
fn directory_hash_does_not_depend_on_listing_order() {
    let d1 = FsEntry::Directory(Some(vec![
        ("b".to_owned(), regular("second")),
        ("a".to_owned(), regular("first")),
        ("c".to_owned(), FsEntry::Symlink(Some("a".to_owned()))),
    ]));
    let d2 = FsEntry::Directory(Some(vec![
        ("a".to_owned(), regular("first")),
        ("c".to_owned(), FsEntry::Symlink(Some("a".to_owned()))),
        ("b".to_owned(), regular("second")),
    ]));
    let d3 = FsEntry::Directory(Some(vec![
        ("a".to_owned(), regular("second")),
        ("b".to_owned(), regular("first")),
        ("c".to_owned(), FsEntry::Symlink(Some("a".to_owned()))),
    ]));
    assert_eq!(content_hash(&d1), content_hash(&d2));
    assert_ne!(content_hash(&d1), content_hash(&d3));
}

#[test]
fn unreadable_and_other_entries_hash_their_tag() {
    assert_eq!(content_hash(&FsEntry::Unreadable), sha256_digest(&[255]));
    assert_eq!(content_hash(&FsEntry::Other), sha256_digest(&[3]));
    assert_eq!(content_hash(&FsEntry::Symlink(None)), sha256_digest(&[2]));
    let mut empty_dir = vec![1u8];
    empty_dir.extend_from_slice(&0usize.to_le_bytes());
    assert_eq!(content_hash(&FsEntry::Directory(None)), sha256_digest(&empty_dir));
}

#[test]
fn equal_values_hash_alike() {
    let m1 = Mapping::new().put(s("x"), Value::Integer(1)).put(s("y"), Value::Boolean(false));
    let m2 = Mapping::new().put(s("y"), Value::Boolean(false)).put(s("x"), Value::Integer(1));
    assert_eq!(Value::Mapping(m1).hash(), Value::Mapping(m2).hash());
    assert_ne!(s("x").hash(), s("y").hash());
}

#[test]
fn string_hash_is_tagged_utf8() {
    let mut input = vec![3u8];
    input.extend_from_slice("Something else...".as_bytes());
    assert_eq!(s("Something else...").hash(), sha256_digest(&input));
    let mut integer = vec![1u8];
    integer.extend_from_slice(&(-2i64).to_le_bytes());
    assert_eq!(Value::Integer(-2).hash(), sha256_digest(&integer));
    assert_eq!(Value::Function(Function::WriteFile).hash(), sha256_digest(&[6, 1]));
    let mut map_input = vec![5u8];
    map_input.extend_from_slice(&0usize.to_le_bytes());
    assert_eq!(emptym().hash(), sha256_digest(&map_input));
}

#[test]
fn store_paths_of_the_readme() {
    let runtime = Runtime::new(".".to_owned(), "/home/u/cache".to_owned());
    assert_eq!(
        runtime.store_path(s("Hello, World!").hash()),
        "/home/u/cache/McWJzkCzc1dcSzHj63epHDC_F3_kRxmOqnhdLgAZlSI"
    );
    assert_eq!(
        runtime.store_path(s("Something else...").hash()),
        "/home/u/cache/ngFwBbixJ4usaRnajJl_Lgn2NjDEYv1xCFUfK3tiK6Q"
    );
    assert_eq!(
        runtime.store_path(s("Hello,\nWorld!\n").hash()),
        "/home/u/cache/FVHaoUERMcmCAw8_d0GYfbzN3z5hNyolaxToFKw-5B4"
    );
}

#[test]
fn join_adds_one_separator() {
    assert_eq!(join("/a/b", "c"), "/a/b/c");
    assert_eq!(join("/a/b/", "c"), "/a/b/c");
    assert_eq!(join("", "c"), "c");
}

#[test]
fn value_shorthands() {
    assert!(matches!(ival(4), Value::Integer(4)));
    assert!(matches!(sval("t".to_owned()), Value::String(ref t) if t == "t"));
    assert!(matches!(emptym(), Value::Mapping(ref m) if m.len() == 0));
    match maybe_is(Value::Integer(9)) {
        Value::Mapping(m) => {
            assert_eq!(m.len(), 1);
            assert_eq!(as_int(m.get(&s("is"))), Some(9));
        },
        other => panic!("not a mapping: {:?}", other),
    }
}

#[test]
fn clone_keeps_the_value() {
    let v = Value::Mapping(Mapping::new().put(s("k"), s("v")));
    let w = v.clone();
    assert!(v.equals(&w));
    assert_eq!(v.hash(), w.hash());
}

#[test]
fn put_order_does_not_matter() {
    let keys = [s("b"), Value::Integer(3), Value::Boolean(false), s("a")];
    let forward = keys.iter().fold(Mapping::new(), |m, k| m.put(k.clone(), Value::Integer(1)));
    let backward = keys.iter().rev().fold(Mapping::new(), |m, k| m.put(k.clone(), Value::Integer(1)));
    assert_eq!(format!("{:?}", forward), format!("{:?}", backward));
}

#[test]
fn texts_carry_no_length_in_the_hashed_bytes() {
    // A string's bytes are hashed without their length, so inside a mapping a
    // byte can move from key to value without changing the hash.
    let m1 = Mapping::new().put(s("a"), s("\u{3}b"));
    let m2 = Mapping::new().put(s("a\u{3}"), s("b"));
    assert!(!Value::Mapping(Mapping::new().put(s("a"), s("\u{3}b")))
        .equals(&Value::Mapping(Mapping::new().put(s("a\u{3}"), s("b")))));
    assert_eq!(Value::Mapping(m1).hash(), Value::Mapping(m2).hash());
    assert_ne!(s("ab").hash(), s("a").hash());
}

#[test]
fn putting_again_and_putting_all_of_nothing_change_nothing() {
    let m = Mapping::new().put(s("k"), s("v")).put(Value::Integer(1), Value::Boolean(true));
    let again = m.clone().put(s("k"), s("v"));
    assert_eq!(format!("{:?}", again), format!("{:?}", m));
    let with_nothing = m.clone().put_all(&Mapping::new());
    assert_eq!(format!("{:?}", with_nothing), format!("{:?}", m));
    let into_nothing = Mapping::new().put_all(&m);
    assert_eq!(format!("{:?}", into_nothing), format!("{:?}", m));
    let d: Mapping = Default::default();
    assert_eq!(d.len(), 0);
    assert!(d.get(&s("k")).is_none());
}

#[test]
fn directories_with_other_names_in_the_same_order_hash_alike() {
    let d1 = FsEntry::Directory(Some(vec![("b".to_owned(), regular("2")), ("a".to_owned(), regular("1"))]));
    let d2 = FsEntry::Directory(Some(vec![("x".to_owned(), regular("1")), ("y".to_owned(), regular("2"))]));
    assert_eq!(content_hash(&d1), content_hash(&d2));
}

#[test]
fn store_names_are_43_url_safe_characters() {
    let runtime = Runtime::new("/s".to_owned(), "/c".to_owned());
    let a = runtime.store_path(s("one").hash());
    let b = runtime.store_path(s("two").hash());
    assert_ne!(a, b);
    let name = a.strip_prefix("/c/").unwrap();
    assert_eq!(name.len(), 43);
    assert!(name.chars().all(|c| c.is_ascii_alphanumeric() || c == '-' || c == '_'));
}
