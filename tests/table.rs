use bottle_tracking::table::{copy_byte_lists, copy_bytes, ids_of, same_bytes, ByteTable};

#[test]
fn byte_comparison_and_copies() {
    assert!(same_bytes(b"abc", b"abc"));
    assert!(!same_bytes(b"abc", b"abd"));
    assert!(!same_bytes(b"ab", b"abc"));
    assert!(same_bytes(b"", b""));
    assert_eq!(copy_bytes(b"xyz"), b"xyz".to_vec());
    let lists = vec![b"a".to_vec(), b"bc".to_vec()];
    assert_eq!(copy_byte_lists(&lists), lists);
}

#[test]
fn table_keeps_one_value_per_key() {
    let mut t: ByteTable<Vec<u8>> = ByteTable::new();
    assert!(!t.contains_key(b"k"));
    t.insert(b"k", b"one".to_vec());
    t.insert(b"j", b"two".to_vec());
    t.insert(b"k", b"three".to_vec());
    assert!(t.contains_key(b"k"));
    assert_eq!(t.get(b"k"), Some(&b"three".to_vec()));
    assert_eq!(t.get(b"j"), Some(&b"two".to_vec()));
    assert_eq!(t.get(b"x"), None);
}

#[test]
fn log_lookup_by_account() {
    let log = vec![(1u64, b"a".to_vec()), (2u64, b"b".to_vec()), (1u64, b"c".to_vec())];
    assert_eq!(ids_of(&log, 1), vec![b"a".to_vec(), b"c".to_vec()]);
    assert_eq!(ids_of(&log, 2), vec![b"b".to_vec()]);
    assert!(ids_of(&log, 3).is_empty());
}
