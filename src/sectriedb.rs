use vstd::prelude::*;

use crate::entries::map_get;
use crate::hashing::{hash_key, keccak_of};
use crate::trie::Trie;
use crate::triedb::{entries_view, opt_bytes, NodeStore, TrieDB, TrieError};

verus! {

/// Whether `content`, a trie keyed by hashed paths, holds a value for `key`.
pub open spec fn secure_contains(content: Map<Seq<u8>, Seq<u8>>, key: Seq<u8>) -> bool {
    content.contains_key(keccak_of(key))
}

/// The value that `content` holds for `key`, if any.
pub open spec fn secure_get(content: Map<Seq<u8>, Seq<u8>>, key: Seq<u8>) -> Option<Seq<u8>> {
    map_get(content, keccak_of(key))
}

/// `content` after storing `value` for `key`.
pub open spec fn secure_insert(content: Map<Seq<u8>, Seq<u8>>, key: Seq<u8>, value: Seq<u8>) -> Map<
    Seq<u8>,
    Seq<u8>,
> {
    content.insert(keccak_of(key), value)
}

/// `content` after removing the value for `key`.
pub open spec fn secure_remove(content: Map<Seq<u8>, Seq<u8>>, key: Seq<u8>) -> Map<
    Seq<u8>,
    Seq<u8>,
> {
    content.remove(keccak_of(key))
}

/// Hashing depends on the key's bytes alone: equal keys always give equal paths.
pub proof fn lemma_hash_deterministic(k1: Seq<u8>, k2: Seq<u8>)
    requires
        k1 == k2,
    ensures
        keccak_of(k1) == keccak_of(k2),
{
}

/// After a value is stored for a key, the key is present and looks up to
/// that value.
pub proof fn lemma_insert_then_get(content: Map<Seq<u8>, Seq<u8>>, key: Seq<u8>, value: Seq<u8>)
    ensures
        secure_contains(secure_insert(content, key, value), key),
        secure_get(secure_insert(content, key, value), key) == Some(value),
{
}

/// Storing `v1` and then `v2` for one key: the second store reports `v1` as
/// the value it replaced, and the key then looks up to `v2`.
pub proof fn lemma_upsert(content: Map<Seq<u8>, Seq<u8>>, key: Seq<u8>, v1: Seq<u8>, v2: Seq<u8>)
    ensures
        secure_get(secure_insert(content, key, v1), key) == Some(v1),
        secure_get(secure_insert(secure_insert(content, key, v1), key, v2), key) == Some(v2),
{
}

/// After a key is removed it is absent and looks up to nothing; removing an
/// absent key reports nothing and changes nothing.
pub proof fn lemma_remove_key(content: Map<Seq<u8>, Seq<u8>>, key: Seq<u8>)
    ensures
        !secure_contains(secure_remove(content, key), key),
        secure_get(secure_remove(content, key), key) is None,
        !secure_contains(content, key) ==> secure_get(content, key) is None && secure_remove(
            content,
            key,
        ) == content,
{
    if !secure_contains(content, key) {
        assert(secure_remove(content, key) =~= content);
    }
}

/// Two keys whose hashes differ keep their own values: after both are stored,
/// each looks up to its own value.
pub proof fn lemma_distinct_keys(
    content: Map<Seq<u8>, Seq<u8>>,
    k1: Seq<u8>,
    k2: Seq<u8>,
    v1: Seq<u8>,
    v2: Seq<u8>,
)
    requires
        k1 != k2,
        keccak_of(k1) != keccak_of(k2),
    ensures
        secure_get(secure_insert(secure_insert(content, k1, v1), k2, v2), k1) == Some(v1),
        secure_get(secure_insert(secure_insert(content, k1, v1), k2, v2), k2) == Some(v2),
{
}

/// A read-only trie that hashes every key before using it as a path in the
/// underlying `TrieDB`. Use `raw()` to reach that trie.
pub struct SecTrieDB {
    raw: TrieDB,
}

impl View for SecTrieDB {
    type V = Map<Seq<u8>, Seq<u8>>;

    /// The underlying trie's content: hashed keys mapped to values.
    open spec fn view(&self) -> Map<Seq<u8>, Seq<u8>> {
        self.raw_view()@
    }
}

impl SecTrieDB {
    /// The underlying trie.
    pub closed spec fn raw_view(&self) -> TrieDB {
        self.raw
    }

    pub open spec fn wf(&self) -> bool {
        self.raw_view().wf()
    }

    /// Opens the trie whose root is `root` in `db`; fails when `db` holds no
    /// such root.
    pub fn create(db: &NodeStore, root: &[u8]) -> (r: Result<SecTrieDB, TrieError>)
        requires
            db.wf(),
        ensures
            match r {
                Ok(t) => db@.contains_key(root@) && t.wf() && t.raw_view().root_view() == root@
                    && t.raw_view().entries() == db@[root@],
                Err(TrieError::InvalidStateRoot(missing)) => !db@.contains_key(root@)
                    && missing@ == root@,
            },
    {
        match TrieDB::create(db, root) {
            Ok(raw) => Ok(SecTrieDB { raw }),
            Err(e) => Err(e),
        }
    }

    /// The underlying trie.
    pub fn raw(&self) -> (r: &TrieDB)
        ensures
            *r == self.raw_view(),
    {
        &self.raw
    }

    /// The underlying trie, for mutation.
    pub fn raw_mut(&mut self) -> (r: &mut TrieDB)
        ensures
            *r == old(self).raw_view(),
            final(self).raw_view() == *final(r),
    {
        &mut self.raw
    }

    /// A proof of the value stored for `key`. A proof is built over the hashed
    /// path, which cannot be checked against `key` itself, so none is given.
    pub fn get_value_proof(&self, key: &[u8]) -> (r: Option<Vec<Vec<u8>>>)
        ensures
            r is None,
    {
        None
    }
}

impl Trie for SecTrieDB {
    /// Hashed keys mapped to values.
    open spec fn content(&self) -> Map<Seq<u8>, Seq<u8>> {
        self@
    }

    /// A key is stored under its Keccak-256 digest.
    open spec fn path_of(key: Seq<u8>) -> Seq<u8> {
        keccak_of(key)
    }

    open spec fn commitment(&self) -> Seq<u8> {
        self.raw_view().root_view()
    }

    open spec fn valid(&self) -> bool {
        self.wf()
    }

    /// The root commitment of the underlying trie.
    fn root(&self) -> (r: &Vec<u8>) {
        self.raw.root()
    }

    /// Whether a value is stored for `key`.
    fn contains(&self, key: &[u8]) -> (r: bool) {
        self.raw.contains(hash_key(key).as_slice())
    }

    /// The value stored for `key`, if any.
    fn get(&self, key: &[u8]) -> (r: Option<Vec<u8>>) {
        self.raw.get(hash_key(key).as_slice())
    }

    /// Applies `query` to the value stored for `key`, if any.
    fn get_with<T, Q: Fn(&[u8]) -> T>(&self, key: &[u8], query: Q) -> (r: Option<T>) {
        self.raw.get_with(hash_key(key).as_slice(), query)
    }

    /// The entries of the underlying trie: hashed keys, not the keys given by
    /// callers, with their values.
    fn iter(&self) -> (r: Vec<(Vec<u8>, Vec<u8>)>)
        ensures
            entries_view(r@) == self.raw_view().entries(),
    {
        self.raw.iter()
    }
}

/// A mutable trie that hashes every key before using it as a path in the
/// underlying `TrieDB`.
pub struct SecTrieDBMut {
    raw: TrieDB,
}

impl View for SecTrieDBMut {
    type V = Map<Seq<u8>, Seq<u8>>;

    /// The underlying trie's content: hashed keys mapped to values.
    open spec fn view(&self) -> Map<Seq<u8>, Seq<u8>> {
        self.raw_view()@
    }
}

impl SecTrieDBMut {
    /// The underlying trie.
    pub closed spec fn raw_view(&self) -> TrieDB {
        self.raw
    }

    pub open spec fn wf(&self) -> bool {
        self.raw_view().wf()
    }

    /// An empty trie.
    pub fn new() -> (r: SecTrieDBMut)
        ensures
            r.wf(),
            r@ == Map::<Seq<u8>, Seq<u8>>::empty(),
    {
        SecTrieDBMut { raw: TrieDB::new() }
    }

    /// Opens the trie whose root is `root` in `db` for mutation; fails when
    /// `db` holds no such root.
    pub fn create(db: &NodeStore, root: &[u8]) -> (r: Result<SecTrieDBMut, TrieError>)
        requires
            db.wf(),
        ensures
            match r {
                Ok(t) => db@.contains_key(root@) && t.wf() && t.raw_view().root_view() == root@
                    && t.raw_view().entries() == db@[root@],
                Err(TrieError::InvalidStateRoot(missing)) => !db@.contains_key(root@)
                    && missing@ == root@,
            },
    {
        match TrieDB::create(db, root) {
            Ok(raw) => Ok(SecTrieDBMut { raw }),
            Err(e) => Err(e),
        }
    }

    /// The underlying trie.
    pub fn raw(&self) -> (r: &TrieDB)
        ensures
            *r == self.raw_view(),
    {
        &self.raw
    }

    /// Stores `value` for `key`, returning the value it replaced.
    pub fn insert(&mut self, key: &[u8], value: &[u8]) -> (r: Option<Vec<u8>>)
        requires
            old(self).wf(),
        ensures
            final(self).wf(),
            final(self)@ == secure_insert(old(self)@, key@, value@),
            opt_bytes(r) == secure_get(old(self)@, key@),
    {
        let path = hash_key(key);
        self.raw.insert(path.as_slice(), value)
    }

    /// Removes the value stored for `key`, returning it; an absent key is no
    /// error and leaves the trie unchanged.
    pub fn remove(&mut self, key: &[u8]) -> (r: Option<Vec<u8>>)
        requires
            old(self).wf(),
        ensures
            final(self).wf(),
            final(self)@ == secure_remove(old(self)@, key@),
            opt_bytes(r) == secure_get(old(self)@, key@),
    {
        let path = hash_key(key);
        self.raw.remove(path.as_slice())
    }

    /// Records the current content in `db` under its root.
    pub fn commit(&self, db: &mut NodeStore)
        requires
            self.wf(),
            old(db).wf(),
        ensures
            final(db).wf(),
            final(db)@ == old(db)@.insert(self.raw_view().root_view(), self.raw_view().entries()),
    {
        self.raw.commit(db)
    }
}

impl Trie for SecTrieDBMut {
    /// Hashed keys mapped to values.
    open spec fn content(&self) -> Map<Seq<u8>, Seq<u8>> {
        self@
    }

    /// A key is stored under its Keccak-256 digest.
    open spec fn path_of(key: Seq<u8>) -> Seq<u8> {
        keccak_of(key)
    }

    open spec fn commitment(&self) -> Seq<u8> {
        self.raw_view().root_view()
    }

    open spec fn valid(&self) -> bool {
        self.wf()
    }

    /// The root commitment of the underlying trie.
    fn root(&self) -> (r: &Vec<u8>) {
        self.raw.root()
    }

    /// Whether a value is stored for `key`.
    fn contains(&self, key: &[u8]) -> (r: bool) {
        self.raw.contains(hash_key(key).as_slice())
    }

    /// The value stored for `key`, if any.
    fn get(&self, key: &[u8]) -> (r: Option<Vec<u8>>) {
        self.raw.get(hash_key(key).as_slice())
    }

    /// Applies `query` to the value stored for `key`, if any.
    fn get_with<T, Q: Fn(&[u8]) -> T>(&self, key: &[u8], query: Q) -> (r: Option<T>) {
        self.raw.get_with(hash_key(key).as_slice(), query)
    }

    /// The entries of the underlying trie: hashed keys, not the keys given by
    /// callers, with their values.
    fn iter(&self) -> (r: Vec<(Vec<u8>, Vec<u8>)>)
        ensures
            entries_view(r@) == self.raw_view().entries(),
    {
        self.raw.iter()
    }
}

} // verus!
