//! The storage core: staged writes, commits and the deterministic root
//! hash.

use many_core::storage::{Op, Storage};

#[test]
fn staged_writes_are_visible_before_commit() {
    let mut s = Storage::new();
    let batch = vec![
        (b"a".to_vec(), Op::Put(b"1".to_vec())),
        (b"b".to_vec(), Op::Put(b"2".to_vec())),
    ];
    s.apply(&batch);
    assert_eq!(s.get(&b"a".to_vec()), Some(b"1".to_vec()));
    assert_eq!(s.get(&b"b".to_vec()), Some(b"2".to_vec()));
    assert_eq!(s.get(&b"c".to_vec()), None);

    let batch = vec![(b"a".to_vec(), Op::Delete)];
    s.apply(&batch);
    assert_eq!(s.get(&b"a".to_vec()), None);
}

#[test]
fn later_batch_entries_win() {
    let mut s = Storage::new();
    let batch = vec![
        (b"k".to_vec(), Op::Put(b"1".to_vec())),
        (b"k".to_vec(), Op::Put(b"2".to_vec())),
    ];
    s.apply(&batch);
    assert_eq!(s.get(&b"k".to_vec()), Some(b"2".to_vec()));
}

#[test]
fn root_hash_depends_on_committed_set_alone() {
    // The same key-value set staged in different orders commits to the same
    // root hash bytes.
    let mut s1 = Storage::new();
    s1.apply(&vec![
        (b"a".to_vec(), Op::Put(b"1".to_vec())),
        (b"b".to_vec(), Op::Put(b"2".to_vec())),
    ]);
    let h1 = s1.commit();

    let mut s2 = Storage::new();
    s2.apply(&vec![
        (b"b".to_vec(), Op::Put(b"2".to_vec())),
        (b"x".to_vec(), Op::Put(b"9".to_vec())),
    ]);
    s2.apply(&vec![
        (b"x".to_vec(), Op::Delete),
        (b"a".to_vec(), Op::Put(b"1".to_vec())),
    ]);
    let h2 = s2.commit();
    assert_eq!(h1, h2);

    // A different set commits to a different hash.
    let mut s3 = Storage::new();
    s3.apply(&vec![(b"a".to_vec(), Op::Put(b"1".to_vec()))]);
    let h3 = s3.commit();
    assert_ne!(h1, h3);
}

#[test]
fn root_hash_is_stable_across_commits_of_same_state() {
    let mut s = Storage::new();
    s.apply(&vec![(b"a".to_vec(), Op::Put(b"1".to_vec()))]);
    let h1 = s.commit();
    let h2 = s.commit();
    assert_eq!(h1, h2);
    assert_eq!(h1, s.root_hash());
}
