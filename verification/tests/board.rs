use merkle_tree_bulletin_board::{
    BackendMemory, BoardError, BranchHashHistory, BulletinBoardBackend, DatabaseTransaction,
    HashInfo, HashSource, HashValue, LeafHashHistory, MerkleHash, RootHashHistory,
};

fn h(n: u8) -> HashValue {
    HashValue([n; 32])
}

fn leaf(timestamp: u64, data: &str) -> HashSource {
    HashSource::Leaf(LeafHashHistory { timestamp, data: Some(data.as_bytes().to_vec()) })
}

fn branch(left: HashValue, right: HashValue) -> HashSource {
    HashSource::Branch(BranchHashHistory { left, right })
}

fn root(metadata: &[u8]) -> HashSource {
    HashSource::Root(RootHashHistory { metadata: metadata.to_vec() })
}

fn batch(pending: Vec<(HashValue, HashSource)>) -> DatabaseTransaction {
    DatabaseTransaction { pending }
}

fn digest(prefix: u8, parts: &[&[u8]]) -> HashValue {
    let mut hasher = MerkleHash::new();
    hasher.write(&[prefix]);
    for part in parts {
        hasher.write(part);
    }
    HashValue(hasher.hash())
}

fn orphans(store: &BackendMemory) -> Vec<[u8; 32]> {
    let list = store.get_all_leaves_and_branches_without_a_parent().unwrap();
    let mut bytes: Vec<[u8; 32]> = list.iter().map(|hash| hash.0).collect();
    bytes.sort();
    bytes
}

fn sorted(hashes: &[HashValue]) -> Vec<[u8; 32]> {
    let mut bytes: Vec<[u8; 32]> = hashes.iter().map(|hash| hash.0).collect();
    bytes.sort();
    bytes
}

fn record(store: &BackendMemory, hash: HashValue) -> HashInfo {
    store.get_hash_info(hash).unwrap().unwrap()
}

/// Everything that can be observed of a store that knows at most `known`.
fn snapshot(store: &BackendMemory, known: &[HashValue]) -> (Vec<HashValue>, Vec<[u8; 32]>, Vec<Option<HashInfo>>) {
    (
        store.get_all_published_roots().unwrap(),
        orphans(store),
        known.iter().map(|hash| store.get_hash_info(*hash).unwrap()).collect(),
    )
}

#[test]
fn empty_store_holds_nothing() {
    let store = BackendMemory::default();
    assert_eq!(store.get_all_published_roots(), Ok(vec![]));
    assert_eq!(store.get_most_recent_published_root(), Ok(None));
    assert_eq!(store.get_all_leaves_and_branches_without_a_parent(), Ok(vec![]));
    assert_eq!(store.get_hash_info(h(1)), Ok(None));
}

#[test]
fn empty_batch_changes_nothing() {
    let mut store = BackendMemory::default();
    store.publish(&batch(vec![(h(1), leaf(1, "a"))])).unwrap();
    let before = snapshot(&store, &[h(1)]);
    assert_eq!(store.publish(&batch(vec![])), Ok(()));
    assert_eq!(snapshot(&store, &[h(1)]), before);
}

#[test]
fn end_to_end() {
    let l1 = digest(0, &[b"a"]);
    let l2 = digest(0, &[b"b"]);
    let b = digest(1, &[&l1.0, &l2.0]);
    let r = digest(2, &[&b.0]);
    let mut store = BackendMemory::default();

    assert_eq!(store.publish(&batch(vec![(l1, leaf(10, "a")), (l2, leaf(11, "b"))])), Ok(()));
    assert_eq!(orphans(&store), sorted(&[l1, l2]));

    assert_eq!(store.publish(&batch(vec![(b, branch(l1, l2))])), Ok(()));
    assert_eq!(orphans(&store), sorted(&[b]));
    assert_eq!(record(&store, l1).parent, Some(b));
    assert_eq!(record(&store, l2).parent, Some(b));

    assert_eq!(store.censor_leaf(l1), Ok(()));
    assert_eq!(
        store.get_hash_info(l1),
        Ok(Some(HashInfo {
            source: HashSource::Leaf(LeafHashHistory { timestamp: 10, data: None }),
            parent: Some(b),
        }))
    );
    assert_eq!(record(&store, l2), HashInfo { source: leaf(11, "b"), parent: Some(b) });

    assert_eq!(store.publish(&batch(vec![(r, root(&b.0))])), Ok(()));
    assert_eq!(store.get_most_recent_published_root(), Ok(Some(r)));
    assert_eq!(store.get_all_published_roots(), Ok(vec![r]));
    // A root is a record of its own: it becomes the parent of nothing, so the
    // branch it was computed from still waits to be combined.
    assert_eq!(orphans(&store), sorted(&[b]));
    assert_eq!(record(&store, b), HashInfo { source: branch(l1, l2), parent: None });
    assert_eq!(record(&store, r), HashInfo { source: root(&b.0), parent: None });
}

#[test]
fn published_roots_only_grow() {
    let mut store = BackendMemory::default();
    let mut seen: Vec<Vec<HashValue>> = vec![store.get_all_published_roots().unwrap()];
    store.publish(&batch(vec![(h(1), leaf(1, "a")), (h(50), root(b"first"))])).unwrap();
    seen.push(store.get_all_published_roots().unwrap());
    store.censor_leaf(h(1)).unwrap();
    seen.push(store.get_all_published_roots().unwrap());
    assert!(store.publish(&batch(vec![(h(51), root(b"x")), (h(1), leaf(2, "again"))])).is_err());
    seen.push(store.get_all_published_roots().unwrap());
    store.publish(&batch(vec![(h(52), root(b"second")), (h(53), root(b"third"))])).unwrap();
    seen.push(store.get_all_published_roots().unwrap());
    assert!(store.censor_leaf(h(52)).is_err());
    seen.push(store.get_all_published_roots().unwrap());

    assert_eq!(seen[5], vec![h(50), h(52), h(53)]);
    for earlier in 0..seen.len() {
        for later in earlier..seen.len() {
            assert!(seen[later].starts_with(&seen[earlier]));
        }
    }
    assert_eq!(store.get_most_recent_published_root(), Ok(Some(h(53))));
}

#[test]
fn branch_becomes_parent_of_both_children() {
    let mut store = BackendMemory::default();
    store.publish(&batch(vec![(h(1), leaf(1, "a")), (h(2), leaf(2, "b"))])).unwrap();
    assert_eq!(record(&store, h(1)).parent, None);
    store.publish(&batch(vec![(h(3), branch(h(1), h(2)))])).unwrap();
    assert_eq!(record(&store, h(1)), HashInfo { source: leaf(1, "a"), parent: Some(h(3)) });
    assert_eq!(record(&store, h(2)), HashInfo { source: leaf(2, "b"), parent: Some(h(3)) });
    assert_eq!(record(&store, h(3)), HashInfo { source: branch(h(1), h(2)), parent: None });
}

#[test]
fn branch_may_combine_nodes_of_the_same_batch() {
    let mut store = BackendMemory::default();
    let done = store.publish(&batch(vec![
        (h(1), leaf(1, "a")),
        (h(2), leaf(2, "b")),
        (h(3), branch(h(1), h(2))),
        (h(4), leaf(3, "c")),
        (h(5), branch(h(3), h(4))),
        (h(6), root(b"all")),
    ]));
    assert_eq!(done, Ok(()));
    assert_eq!(record(&store, h(1)).parent, Some(h(3)));
    assert_eq!(record(&store, h(2)).parent, Some(h(3)));
    assert_eq!(record(&store, h(3)).parent, Some(h(5)));
    assert_eq!(record(&store, h(4)).parent, Some(h(5)));
    assert_eq!(record(&store, h(5)).parent, None);
    assert_eq!(orphans(&store), sorted(&[h(5)]));
    assert_eq!(store.get_all_published_roots(), Ok(vec![h(6)]));
}

#[test]
fn branch_may_combine_a_node_with_itself() {
    let mut store = BackendMemory::default();
    store.publish(&batch(vec![(h(1), leaf(1, "a")), (h(2), branch(h(1), h(1)))])).unwrap();
    assert_eq!(record(&store, h(1)).parent, Some(h(2)));
    assert_eq!(orphans(&store), sorted(&[h(2)]));
}

#[test]
fn first_branch_of_a_batch_stays_the_parent() {
    let mut store = BackendMemory::default();
    let done = store.publish(&batch(vec![
        (h(1), leaf(1, "a")),
        (h(2), leaf(2, "b")),
        (h(3), branch(h(1), h(2))),
        (h(4), branch(h(1), h(3))),
    ]));
    assert_eq!(done, Ok(()));
    assert_eq!(record(&store, h(1)), HashInfo { source: leaf(1, "a"), parent: Some(h(3)) });
    assert_eq!(record(&store, h(2)), HashInfo { source: leaf(2, "b"), parent: Some(h(3)) });
    assert_eq!(record(&store, h(3)), HashInfo { source: branch(h(1), h(2)), parent: Some(h(4)) });
    assert_eq!(record(&store, h(4)), HashInfo { source: branch(h(1), h(3)), parent: None });
    assert_eq!(orphans(&store), sorted(&[h(4)]));
}

#[test]
fn parent_once_set_is_never_replaced() {
    let mut store = BackendMemory::default();
    store.publish(&batch(vec![
        (h(1), leaf(1, "a")),
        (h(2), leaf(2, "b")),
        (h(3), leaf(3, "c")),
        (h(4), branch(h(1), h(2))),
    ])).unwrap();
    assert_eq!(record(&store, h(1)).parent, Some(h(4)));

    // a later batch combines a node that has a parent with one that has none
    assert_eq!(store.publish(&batch(vec![(h(5), branch(h(1), h(3)))])), Ok(()));
    assert_eq!(record(&store, h(1)), HashInfo { source: leaf(1, "a"), parent: Some(h(4)) });
    assert_eq!(record(&store, h(3)), HashInfo { source: leaf(3, "c"), parent: Some(h(5)) });
    assert_eq!(record(&store, h(5)), HashInfo { source: branch(h(1), h(3)), parent: None });

    store.censor_leaf(h(1)).unwrap();
    assert_eq!(record(&store, h(1)).parent, Some(h(4)));
    assert!(store.publish(&batch(vec![(h(6), branch(h(1), h(9)))])).is_err());
    assert_eq!(record(&store, h(1)).parent, Some(h(4)));
    store.publish(&batch(vec![(h(6), branch(h(2), h(2))), (h(7), root(b"r"))])).unwrap();
    assert_eq!(record(&store, h(1)).parent, Some(h(4)));
    assert_eq!(record(&store, h(2)).parent, Some(h(4)));
    assert_eq!(record(&store, h(3)).parent, Some(h(5)));
    assert_eq!(orphans(&store), sorted(&[h(4), h(5), h(6)]));
}

#[test]
fn orphans_are_leaves_and_branches_without_parent() {
    let mut store = BackendMemory::default();
    store.publish(&batch(vec![
        (h(1), leaf(1, "a")),
        (h(2), leaf(2, "b")),
        (h(3), leaf(3, "c")),
        (h(4), branch(h(1), h(2))),
        (h(5), root(b"r")),
    ])).unwrap();
    let list = store.get_all_leaves_and_branches_without_a_parent().unwrap();
    assert_eq!(list.len(), 2);
    assert_eq!(sorted(&list), sorted(&[h(3), h(4)]));
    for hash in list {
        let info = record(&store, hash);
        assert_eq!(info.parent, None);
        assert!(!matches!(info.source, HashSource::Root(_)));
    }
    assert!(!orphans(&store).contains(&h(5).0));
    assert_eq!(record(&store, h(5)).parent, None);
}

#[test]
fn censoring_keeps_everything_but_the_data() {
    let mut store = BackendMemory::default();
    store.publish(&batch(vec![
        (h(1), leaf(77, "secret")),
        (h(2), leaf(78, "public")),
        (h(3), branch(h(1), h(2))),
        (h(4), root(b"r")),
    ])).unwrap();
    let others_before = snapshot(&store, &[h(2), h(3), h(4)]);
    assert_eq!(store.censor_leaf(h(1)), Ok(()));
    assert_eq!(
        record(&store, h(1)),
        HashInfo {
            source: HashSource::Leaf(LeafHashHistory { timestamp: 77, data: None }),
            parent: Some(h(3)),
        }
    );
    assert_eq!(snapshot(&store, &[h(2), h(3), h(4)]), others_before);
    assert_eq!(record(&store, h(3)).source, branch(h(1), h(2)));
}

#[test]
fn censoring_an_orphan_leaves_it_an_orphan() {
    let mut store = BackendMemory::default();
    store.publish(&batch(vec![(h(1), leaf(5, "x"))])).unwrap();
    store.censor_leaf(h(1)).unwrap();
    assert_eq!(orphans(&store), sorted(&[h(1)]));
    store.publish(&batch(vec![(h(2), branch(h(1), h(1)))])).unwrap();
    assert_eq!(
        record(&store, h(1)),
        HashInfo {
            source: HashSource::Leaf(LeafHashHistory { timestamp: 5, data: None }),
            parent: Some(h(2)),
        }
    );
}

#[test]
fn censoring_twice_is_the_same_as_once() {
    let mut store = BackendMemory::default();
    store.publish(&batch(vec![(h(1), leaf(5, "x")), (h(2), leaf(6, "y"))])).unwrap();
    assert_eq!(store.censor_leaf(h(1)), Ok(()));
    let once = snapshot(&store, &[h(1), h(2)]);
    assert_eq!(store.censor_leaf(h(1)), Ok(()));
    assert_eq!(snapshot(&store, &[h(1), h(2)]), once);
}

#[test]
fn censoring_an_unknown_hash_is_not_found() {
    let mut store = BackendMemory::default();
    assert_eq!(store.censor_leaf(h(1)), Err(BoardError::NotFound));
    store.publish(&batch(vec![(h(1), leaf(5, "x"))])).unwrap();
    let before = snapshot(&store, &[h(1), h(2)]);
    assert_eq!(store.censor_leaf(h(2)), Err(BoardError::NotFound));
    assert_eq!(snapshot(&store, &[h(1), h(2)]), before);
}

#[test]
fn censoring_a_branch_or_root_is_invalid() {
    let mut store = BackendMemory::default();
    store.publish(&batch(vec![
        (h(1), leaf(1, "a")),
        (h(2), branch(h(1), h(1))),
        (h(3), root(b"r")),
    ])).unwrap();
    let before = snapshot(&store, &[h(1), h(2), h(3)]);
    assert_eq!(store.censor_leaf(h(2)), Err(BoardError::InvalidOperation));
    assert_eq!(store.censor_leaf(h(3)), Err(BoardError::InvalidOperation));
    assert_eq!(snapshot(&store, &[h(1), h(2), h(3)]), before);
}

#[test]
fn batch_with_a_known_hash_is_refused_whole() {
    let mut store = BackendMemory::default();
    store.publish(&batch(vec![(h(1), leaf(1, "a")), (h(9), root(b"r"))])).unwrap();
    let known = [h(1), h(2), h(3), h(4), h(9)];
    let before = snapshot(&store, &known);
    let done = store.publish(&batch(vec![
        (h(2), leaf(2, "b")),
        (h(3), branch(h(1), h(2))),
        (h(4), root(b"s")),
        (h(1), leaf(3, "again")),
    ]));
    assert_eq!(done, Err(BoardError::MalformedTransaction));
    assert_eq!(snapshot(&store, &known), before);
    assert_eq!(record(&store, h(1)), HashInfo { source: leaf(1, "a"), parent: None });
}

#[test]
fn batch_with_a_repeated_hash_is_refused_whole() {
    let mut store = BackendMemory::default();
    let before = snapshot(&store, &[h(1)]);
    let done = store.publish(&batch(vec![(h(1), leaf(1, "a")), (h(1), leaf(1, "a"))]));
    assert_eq!(done, Err(BoardError::MalformedTransaction));
    assert_eq!(snapshot(&store, &[h(1)]), before);
}

#[test]
fn batch_with_a_missing_child_is_refused_whole() {
    let mut store = BackendMemory::default();
    store.publish(&batch(vec![(h(1), leaf(1, "a"))])).unwrap();
    let known = [h(1), h(2), h(3), h(7)];
    let before = snapshot(&store, &known);
    let missing_right = store.publish(&batch(vec![(h(2), leaf(2, "b")), (h(3), branch(h(1), h(7)))]));
    assert_eq!(missing_right, Err(BoardError::MalformedTransaction));
    assert_eq!(snapshot(&store, &known), before);
    let missing_left = store.publish(&batch(vec![(h(2), leaf(2, "b")), (h(3), branch(h(7), h(1)))]));
    assert_eq!(missing_left, Err(BoardError::MalformedTransaction));
    assert_eq!(snapshot(&store, &known), before);
}

#[test]
fn batch_with_a_child_that_comes_later_is_refused_whole() {
    let mut store = BackendMemory::default();
    store.publish(&batch(vec![(h(1), leaf(1, "a"))])).unwrap();
    let known = [h(1), h(2), h(3)];
    let before = snapshot(&store, &known);
    let done = store.publish(&batch(vec![(h(3), branch(h(1), h(2))), (h(2), leaf(2, "b"))]));
    assert_eq!(done, Err(BoardError::MalformedTransaction));
    assert_eq!(snapshot(&store, &known), before);
}

#[test]
fn branch_that_names_itself_is_refused() {
    let mut store = BackendMemory::default();
    store.publish(&batch(vec![(h(1), leaf(1, "a"))])).unwrap();
    let done = store.publish(&batch(vec![(h(2), branch(h(1), h(2)))]));
    assert_eq!(done, Err(BoardError::MalformedTransaction));
    assert_eq!(store.get_hash_info(h(2)), Ok(None));
    assert_eq!(record(&store, h(1)).parent, None);
}

#[test]
fn store_works_after_a_refused_batch() {
    let mut store = BackendMemory::default();
    assert!(store.publish(&batch(vec![(h(2), branch(h(1), h(1)))])).is_err());
    assert_eq!(store.publish(&batch(vec![(h(1), leaf(1, "a")), (h(2), branch(h(1), h(1)))])), Ok(()));
    assert_eq!(record(&store, h(1)).parent, Some(h(2)));
}

#[test]
fn get_hash_info_returns_what_was_committed() {
    let mut store = BackendMemory::default();
    store.publish(&batch(vec![
        (h(1), HashSource::Leaf(LeafHashHistory { timestamp: u64::MAX, data: Some(vec![]) })),
        (h(2), HashSource::Leaf(LeafHashHistory { timestamp: 0, data: None })),
        (h(3), root(b"")),
    ])).unwrap();
    assert_eq!(
        record(&store, h(1)).source,
        HashSource::Leaf(LeafHashHistory { timestamp: u64::MAX, data: Some(vec![]) })
    );
    assert_eq!(record(&store, h(2)).source, HashSource::Leaf(LeafHashHistory { timestamp: 0, data: None }));
    assert_eq!(record(&store, h(3)), HashInfo { source: root(b""), parent: None });
    assert_eq!(store.get_hash_info(h(4)), Ok(None));
}

#[test]
fn add_parent_keeps_the_parent_that_is_there() {
    let mut store = BackendMemory::default();
    store.publish(&batch(vec![
        (h(1), leaf(1, "a")),
        (h(2), leaf(2, "b")),
        (h(3), branch(h(1), h(2))),
        (h(4), branch(h(1), h(3))),
    ])).unwrap();
    let known = [h(1), h(2), h(3), h(4)];
    let before = snapshot(&store, &known);
    store.add_parent(&h(1), h(4));
    assert_eq!(record(&store, h(1)), HashInfo { source: leaf(1, "a"), parent: Some(h(3)) });
    store.add_parent(&h(1), h(3));
    store.add_parent(&h(3), h(4));
    assert_eq!(snapshot(&store, &known), before);
}

#[test]
fn copies_of_records_are_equal_to_them() {
    let records = [
        HashInfo { source: leaf(3, "data"), parent: Some(h(9)) },
        HashInfo { source: HashSource::Leaf(LeafHashHistory { timestamp: 4, data: None }), parent: None },
        HashInfo { source: branch(h(1), h(2)), parent: None },
        HashInfo { source: root(b"meta"), parent: None },
    ];
    for info in records.iter() {
        assert_eq!(&info.clone(), info);
        assert_eq!(info.source.clone(), info.source);
    }
}

#[test]
fn orphan_is_a_leaf_or_branch_without_parent() {
    assert!(HashInfo { source: leaf(3, "data"), parent: None }.is_orphan());
    assert!(HashInfo { source: branch(h(1), h(2)), parent: None }.is_orphan());
    assert!(!HashInfo { source: root(b"meta"), parent: None }.is_orphan());
    assert!(!HashInfo { source: leaf(3, "data"), parent: Some(h(4)) }.is_orphan());
    assert!(!HashInfo { source: branch(h(1), h(2)), parent: Some(h(4)) }.is_orphan());
    assert!(!HashInfo { source: root(b"meta"), parent: Some(h(4)) }.is_orphan());
}
