use bwtree_rs::{BwTree, KeyType, LinkedList, MappingTable};

#[test]
fn test_insert_and_get() {
    let mut tree = BwTree::new();
    assert!(tree.insert(1, "A"));
    assert_eq!(tree.get(1), Some(&"A"));
    assert!(tree.insert(2, "B"));
    assert_eq!(tree.get(2), Some(&"B"));
    assert!(tree.insert(3, "C"));
    assert_eq!(tree.get(3), Some(&"C"));
    assert!(tree.insert(4, "D"));
    assert_eq!(tree.get(4), Some(&"D"));
}

#[test]
fn test_insert_retains_existing_entries() {
    // The Bw-Tree stores insertions into a delta chain. Let's make sure
    // that `insert()` doesn't lose existing entries.
    let mut tree = BwTree::new();
    assert!(tree.insert(1, "A"));
    assert_eq!(tree.get(1), Some(&"A"));
    assert!(tree.insert(2, "B"));
    assert_eq!(tree.get(1), Some(&"A"));
    assert!(tree.insert(2, "B"));
}

#[test]
fn four_keys_resolve_to_their_values() {
    let mut tree = BwTree::new();
    assert!(tree.insert(1u64, "A"));
    assert_eq!(tree.get(1), Some(&"A"));
    assert!(tree.insert(2, "B"));
    assert_eq!(tree.get(1), Some(&"A"));
    assert_eq!(tree.get(2), Some(&"B"));
    assert!(tree.insert(3, "C"));
    assert!(tree.insert(4, "D"));
    assert_eq!(tree.get(1), Some(&"A"));
    assert_eq!(tree.get(2), Some(&"B"));
    assert_eq!(tree.get(3), Some(&"C"));
    assert_eq!(tree.get(4), Some(&"D"));
}

#[test]
fn fresh_tree_holds_nothing() {
    let tree: BwTree<u64, u64> = BwTree::new();
    assert_eq!(tree.get(0), None);
    assert_eq!(tree.get(7), None);
    assert_eq!(tree.get(u64::MAX), None);
}

#[test]
fn distinct_keys_round_trip() {
    let mut tree = BwTree::new();
    for k in 0u64..500 {
        assert!(tree.insert(k * 3, k + 1000));
    }
    for k in 0u64..500 {
        assert_eq!(tree.get(k * 3), Some(&(k + 1000)));
    }
}

#[test]
fn later_insert_shadows_earlier_one() {
    let mut tree = BwTree::new();
    assert!(tree.insert(5u64, 1u64));
    assert!(tree.insert(6, 60));
    assert!(tree.insert(5, 2));
    assert_eq!(tree.get(5), Some(&2));
    assert!(tree.insert(5, 3));
    assert_eq!(tree.get(5), Some(&3));
    assert_eq!(tree.get(6), Some(&60));
}

#[test]
fn insert_leaves_other_keys_alone() {
    let mut tree = BwTree::new();
    assert!(tree.insert(10u64, "ten"));
    assert!(tree.insert(20, "twenty"));
    let before_10 = tree.get(10).copied();
    let before_30 = tree.get(30).copied();
    assert!(tree.insert(20, "TWENTY"));
    assert!(tree.insert(40, "forty"));
    assert_eq!(tree.get(10).copied(), before_10);
    assert_eq!(tree.get(30).copied(), before_30);
    assert_eq!(tree.get(20), Some(&"TWENTY"));
}

#[test]
fn never_inserted_key_is_absent() {
    let mut tree = BwTree::new();
    for k in 1u64..50 {
        assert!(tree.insert(2 * k, k));
    }
    assert_eq!(tree.get(0), None);
    assert_eq!(tree.get(3), None);
    assert_eq!(tree.get(99), None);
    assert_eq!(tree.get(u64::MAX), None);
}

#[test]
fn interleaved_disjoint_ranges_are_all_kept() {
    let mut tree = BwTree::new();
    let iterations = 1000u64;
    let t1_start = 12345u64;
    let t2_start = t1_start + iterations;
    for i in 0..iterations {
        let k1 = t1_start + i;
        assert!(tree.insert(k1, i * 7));
        assert_eq!(tree.get(k1), Some(&(i * 7)));
        let k2 = t2_start + i;
        assert!(tree.insert(k2, i * 11));
        assert_eq!(tree.get(k2), Some(&(i * 11)));
    }
    for i in 0..iterations {
        assert_eq!(tree.get(t1_start + i), Some(&(i * 7)));
        assert_eq!(tree.get(t2_start + i), Some(&(i * 11)));
    }
}

#[test]
fn minimum_key_sorts_first() {
    assert_eq!(<u64 as KeyType>::minimum(), 0);
    assert!(<u64 as KeyType>::minimum().key_le(&0));
    assert!(<u64 as KeyType>::minimum().key_le(&u64::MAX));
    assert!(5u64.key_eq(&5));
    assert!(!5u64.key_eq(&6));
    assert!(5u64.key_le(&6));
    assert!(!6u64.key_le(&5));
}

#[test]
fn mapping_table_builds() {
    let table: MappingTable<u64, u64> = MappingTable::new();
    drop(table);
}

#[test]
fn list_iterates_from_most_recent() {
    let mut list = LinkedList::new();
    let mut it = list.iter();
    assert_eq!(it.next(), None);
    list.push_front(1);
    list.push_front(2);
    list.push_front(3);
    let mut it = list.iter();
    assert_eq!(it.next(), Some(&3));
    assert_eq!(it.next(), Some(&2));
    assert_eq!(it.next(), Some(&1));
    assert_eq!(it.next(), None);
    assert_eq!(it.next(), None);
}

#[test]
fn new_iterator_sees_later_prepends() {
    let mut list = LinkedList::new();
    list.push_front("a");
    let mut first = list.iter();
    assert_eq!(first.next(), Some(&"a"));
    assert_eq!(first.next(), None);
    list.push_front("b");
    let mut second = list.iter();
    assert_eq!(second.next(), Some(&"b"));
    assert_eq!(second.next(), Some(&"a"));
    assert_eq!(second.next(), None);
}
