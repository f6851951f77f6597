use darkfi::merkle::{CommitmentTree, IncrementalWitness, MerkleNode, walk_path};

fn leaf(tag: u8) -> MerkleNode {
    let mut b = vec![0u8; 32];
    b[0] = tag;
    MerkleNode::new(b).expect("32 bytes")
}

#[test]
fn merkle_node_rejects_bad_length() {
    assert!(MerkleNode::new(vec![1u8; 31]).is_none());
    assert!(MerkleNode::new(vec![1u8; 33]).is_none());
    assert!(MerkleNode::new(vec![1u8; 32]).is_some());
}

#[test]
fn root_determinism() {
    let mut a = CommitmentTree::empty();
    let mut b = CommitmentTree::empty();
    for t in [3u8, 1, 4, 1, 5] {
        a.append(&leaf(t)).unwrap();
    }
    for t in [3u8, 1, 4, 1, 5] {
        b.append(&leaf(t)).unwrap();
    }
    assert_eq!(a.root().to_bytes(), b.root().to_bytes());
    // A different order gives a different root.
    let mut c = CommitmentTree::empty();
    for t in [1u8, 3, 4, 1, 5] {
        c.append(&leaf(t)).unwrap();
    }
    assert_ne!(a.root().to_bytes(), c.root().to_bytes());
}

#[test]
fn empty_roots_differ_from_filled() {
    let empty = CommitmentTree::empty();
    let mut one = CommitmentTree::empty();
    one.append(&leaf(7)).unwrap();
    assert_ne!(empty.root().to_bytes(), one.root().to_bytes());
}

#[test]
fn witness_path_rederives_each_root() {
    let mut tree = CommitmentTree::empty();
    tree.append(&leaf(10)).unwrap();
    tree.append(&leaf(11)).unwrap();
    // Witness the coin at position 1, right after it was inserted.
    let mut w = IncrementalWitness::from_tree(&tree).expect("non-empty");
    let insertion_root = tree.root().to_bytes();

    // The path at the insertion point re-derives the insertion root.
    let p = w.path().expect("path");
    assert_eq!(walk_path(&p, &leaf(11).to_bytes()), insertion_root);
    assert_eq!(p.position, 1);

    // Feed later appends: the path then re-derives each later root,
    // while the insertion root stays recorded history.
    for t in [12u8, 13, 14] {
        tree.append(&leaf(t)).unwrap();
        w.append(&leaf(t)).unwrap();
        let p = w.path().expect("path");
        assert_eq!(walk_path(&p, &leaf(11).to_bytes()), tree.root().to_bytes());
    }
    assert_ne!(tree.root().to_bytes(), insertion_root);
}

#[test]
fn witness_of_empty_tree_is_none() {
    let tree = CommitmentTree::empty();
    assert!(IncrementalWitness::from_tree(&tree).is_none());
}

#[test]
fn snapshot_keeps_root() {
    let mut tree = CommitmentTree::empty();
    tree.append(&leaf(1)).unwrap();
    let snap = tree.snapshot();
    tree.append(&leaf(2)).unwrap();
    assert_ne!(snap.root().to_bytes(), tree.root().to_bytes());
    assert_eq!(snap.len(), 1);
    assert_eq!(tree.len(), 2);
}
