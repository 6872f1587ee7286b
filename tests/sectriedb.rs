use sectrie::{hash_key, NodeStore, SecTrieDB, SecTrieDBMut, Trie, TrieDB, TrieError};

const KECCAK_EMPTY: [u8; 32] = [
    0xc5, 0xd2, 0x46, 0x01, 0x86, 0xf7, 0x23, 0x3c, 0x92, 0x7e, 0x7d, 0xb2, 0xdc, 0xc7, 0x03, 0xc0,
    0xe5, 0x00, 0xb6, 0x53, 0xca, 0x82, 0x27, 0x3b, 0x7b, 0xfa, 0xd8, 0x04, 0x5d, 0x85, 0xa4, 0x70,
];

#[test]
fn trie_to_sectrie() {
    let mut memdb = NodeStore::new();
    let mut t = TrieDB::new();
    t.insert(&hash_key(&[0x01u8, 0x23]), &[0x01u8, 0x23]);
    t.commit(&mut memdb);
    let root = t.root().clone();
    let t = SecTrieDB::create(&memdb, &root).unwrap();
    assert_eq!(t.get(&[0x01u8, 0x23]).unwrap(), vec![0x01u8, 0x23]);
}

#[test]
fn key_hash_is_keccak_and_deterministic() {
    assert_eq!(hash_key(&[]), KECCAK_EMPTY.to_vec());
    let a = hash_key(&[0x01, 0x23]);
    let b = hash_key(&[0x01, 0x23]);
    assert_eq!(a, b);
    assert_eq!(a.len(), 32);
    assert_ne!(a, vec![0x01, 0x23]);
    assert_ne!(a, hash_key(&[0x01, 0x24]));
}

#[test]
fn insert_then_get_round_trip() {
    let mut t = SecTrieDBMut::new();
    assert!(!t.contains(b"alpha"));
    assert_eq!(t.insert(b"alpha", b"one"), None);
    assert!(t.contains(b"alpha"));
    assert_eq!(t.get(b"alpha"), Some(b"one".to_vec()));
    assert_eq!(t.get(b"beta"), None);
}

#[test]
fn insert_twice_replaces_value() {
    let mut t = SecTrieDBMut::new();
    assert_eq!(t.insert(b"k", b"v1"), None);
    assert_eq!(t.insert(b"k", b"v2"), Some(b"v1".to_vec()));
    assert_eq!(t.get(b"k"), Some(b"v2".to_vec()));
    assert_eq!(t.iter().len(), 1);
}

#[test]
fn remove_makes_key_absent() {
    let mut t = SecTrieDBMut::new();
    t.insert(b"k", b"v");
    assert_eq!(t.remove(b"k"), Some(b"v".to_vec()));
    assert!(!t.contains(b"k"));
    assert_eq!(t.get(b"k"), None);
}

#[test]
fn remove_absent_key_is_no_error() {
    let mut t = SecTrieDBMut::new();
    t.insert(b"present", b"v");
    let root = t.root().clone();
    assert_eq!(t.remove(b"absent"), None);
    assert_eq!(t.root(), &root);
    assert_eq!(t.get(b"present"), Some(b"v".to_vec()));
}

#[test]
fn value_proof_is_never_given() {
    let mut memdb = NodeStore::new();
    let mut t = SecTrieDBMut::new();
    t.insert(b"k", b"v");
    t.commit(&mut memdb);
    let st = SecTrieDB::create(&memdb, t.root()).unwrap();
    assert_eq!(st.get_value_proof(b"k"), None);
    assert_eq!(st.get_value_proof(b"missing"), None);
    assert_eq!(st.get_value_proof(&[]), None);
}

#[test]
fn iteration_yields_hashed_keys() {
    let mut memdb = NodeStore::new();
    let mut t = SecTrieDBMut::new();
    t.insert(&[0x01, 0x23], &[0x01, 0x23]);
    let items = t.iter();
    assert_eq!(items.len(), 1);
    assert_eq!(items[0].0, hash_key(&[0x01, 0x23]));
    assert_ne!(items[0].0, vec![0x01, 0x23]);
    assert_eq!(items[0].1, vec![0x01, 0x23]);
    t.commit(&mut memdb);
    let st = SecTrieDB::create(&memdb, t.root()).unwrap();
    assert_eq!(st.iter(), items);
}

#[test]
fn concrete_scenario_get_with_identity() {
    let mut memdb = NodeStore::new();
    let mut t = SecTrieDBMut::new();
    t.insert(&[0x01, 0x23], &[0x01, 0x23]);
    t.commit(&mut memdb);
    let st = SecTrieDB::create(&memdb, t.root()).unwrap();
    assert_eq!(st.get_with(&[0x01, 0x23], |b: &[u8]| b.to_vec()), Some(vec![0x01, 0x23]));
    assert_eq!(st.get_with(&[0x01, 0x23], |b: &[u8]| b.len()), Some(2));
    assert_eq!(st.get_with(&[0x01], |b: &[u8]| b.len()), None);
}

#[test]
fn distinct_keys_keep_their_own_values() {
    let mut t = SecTrieDBMut::new();
    assert_ne!(hash_key(b"k1"), hash_key(b"k2"));
    t.insert(b"k1", b"v1");
    t.insert(b"k2", b"v2");
    assert_eq!(t.get(b"k1"), Some(b"v1".to_vec()));
    assert_eq!(t.get(b"k2"), Some(b"v2".to_vec()));
    assert_eq!(t.iter().len(), 2);
}

#[test]
fn create_fails_on_missing_root() {
    let memdb = NodeStore::new();
    let missing = vec![0xabu8; 32];
    match SecTrieDB::create(&memdb, &missing) {
        Err(TrieError::InvalidStateRoot(r)) => assert_eq!(r, missing),
        Ok(_) => panic!("a missing root must not open"),
    }
    assert!(SecTrieDBMut::create(&memdb, &missing).is_err());
}

#[test]
fn empty_store_holds_empty_root() {
    let memdb = NodeStore::new();
    let empty = SecTrieDBMut::new();
    assert_eq!(empty.root(), &KECCAK_EMPTY.to_vec());
    let st = SecTrieDB::create(&memdb, &KECCAK_EMPTY).unwrap();
    assert!(st.iter().is_empty());
    assert!(!st.contains(b"anything"));
}

#[test]
fn root_tracks_content() {
    let mut t = SecTrieDBMut::new();
    let empty_root = t.root().clone();
    t.insert(b"k", b"v");
    let one_root = t.root().clone();
    assert_ne!(one_root, empty_root);
    t.insert(b"k", b"w");
    assert_ne!(t.root(), &one_root);
    t.remove(b"k");
    assert_eq!(t.root(), &empty_root);
}

#[test]
fn raw_access_reaches_hashed_paths() {
    let mut memdb = NodeStore::new();
    let mut t = SecTrieDBMut::new();
    t.insert(b"k", b"v");
    assert_eq!(t.raw().get(&hash_key(b"k")), Some(b"v".to_vec()));
    assert_eq!(t.raw().get(b"k"), None);
    t.commit(&mut memdb);
    let mut st = SecTrieDB::create(&memdb, t.root()).unwrap();
    st.raw_mut().insert(&hash_key(b"x"), b"y");
    assert_eq!(st.get(b"x"), Some(b"y".to_vec()));
    assert!(st.raw().contains(&hash_key(b"k")));
}

#[test]
fn reopened_trie_is_mutable() {
    let mut memdb = NodeStore::new();
    let mut t = SecTrieDBMut::new();
    t.insert(b"a", b"1");
    t.commit(&mut memdb);
    let mut again = SecTrieDBMut::create(&memdb, t.root()).unwrap();
    assert_eq!(again.get(b"a"), Some(b"1".to_vec()));
    again.insert(b"b", b"2");
    again.commit(&mut memdb);
    let st = SecTrieDB::create(&memdb, again.root()).unwrap();
    assert_eq!(st.get(b"a"), Some(b"1".to_vec()));
    assert_eq!(st.get(b"b"), Some(b"2".to_vec()));
    let old = SecTrieDB::create(&memdb, t.root()).unwrap();
    assert_eq!(old.get(b"b"), None);
}
