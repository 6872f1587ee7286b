use vstd::prelude::*;
use vstd::slice::slice_to_vec;

use crate::entries::{
    entries_map, has_key, keys_unique, lemma_map_at, lemma_push, lemma_remove, lemma_update,
    map_get,
};
use crate::hashing::{keccak256, keccak_of};
use crate::trie::Trie;

verus! {

/// The byte-sequence view of a list of stored (path, value) pairs.
pub open spec fn entries_view(v: Seq<(Vec<u8>, Vec<u8>)>) -> Seq<(Seq<u8>, Seq<u8>)> {
    v.map_values(|e: (Vec<u8>, Vec<u8>)| (e.0@, e.1@))
}

/// The bytes of a trie node: for each entry in order, the digest of its path
/// followed by the digest of its value.
pub open spec fn node_bytes(s: Seq<(Seq<u8>, Seq<u8>)>) -> Seq<u8>
    decreases s.len(),
{
    if s.len() == 0 {
        Seq::empty()
    } else {
        node_bytes(s.drop_last()) + keccak_of(s.last().0) + keccak_of(s.last().1)
    }
}

/// The root commitment of a trie holding `s`.
pub open spec fn root_of(s: Seq<(Seq<u8>, Seq<u8>)>) -> Seq<u8> {
    keccak_of(node_bytes(s))
}

/// The value view of an optional byte vector.
pub open spec fn opt_bytes(o: Option<Vec<u8>>) -> Option<Seq<u8>> {
    match o {
        Some(v) => Some(v@),
        None => None,
    }
}

/// `t` is a result that `query` may give on bytes equal to `value`.
pub open spec fn projects_to<T, Q: Fn(&[u8]) -> T>(query: Q, value: Seq<u8>, t: T) -> bool {
    exists|b: &[u8]| b@ == value && #[trigger] query.ensures((b,), t)
}

/// Why a trie could not be opened.
#[derive(Debug)]
pub enum TrieError {
    /// The requested root is not a node of the store.
    InvalidStateRoot(Vec<u8>),
}

/// A trie engine: a set of (path, value) entries with unique paths, kept in
/// the order in which each path was first inserted, and the root commitment
/// of that content. The commitment is one digest over all entries (see
/// `node_bytes`); the engine keeps no per-path node structure.
pub struct TrieDB {
    entries: Vec<(Vec<u8>, Vec<u8>)>,
    root: Vec<u8>,
}

/// Byte-wise equality of two slices.
fn bytes_eq(a: &[u8], b: &[u8]) -> (r: bool)
    ensures
        r == (a@ == b@),
{
    if a.len() != b.len() {
        return false;
    }
    let mut i: usize = 0;
    while i < a.len()
        invariant
            a@.len() == b@.len(),
            i <= a@.len(),
            forall|j: int| 0 <= j < i ==> a@[j] == b@[j],
        decreases a@.len() - i,
    {
        if a[i] != b[i] {
            return false;
        }
        i += 1;
    }
    assert(a@ =~= b@);
    true
}

/// Computes the root commitment of a list of entries.
fn compute_root(entries: &Vec<(Vec<u8>, Vec<u8>)>) -> (r: Vec<u8>)
    ensures
        r@ == root_of(entries_view(entries@)),
{
    let ghost s = entries_view(entries@);
    let mut node: Vec<u8> = Vec::new();
    let mut i: usize = 0;
    while i < entries.len()
        invariant
            s == entries_view(entries@),
            i <= entries@.len(),
            node@ == node_bytes(s.take(i as int)),
        decreases entries@.len() - i,
    {
        let mut hp = keccak256(entries[i].0.as_slice());
        let mut hv = keccak256(entries[i].1.as_slice());
        node.append(&mut hp);
        node.append(&mut hv);
        proof {
            assert(s.take(i + 1).drop_last() =~= s.take(i as int));
            assert(s.take(i + 1).last() == s[i as int]);
        }
        i += 1;
    }
    assert(s.take(entries@.len() as int) =~= s);
    keccak256(node.as_slice())
}

impl TrieDB {
    /// The entries, in their stored order.
    pub closed spec fn entries(&self) -> Seq<(Seq<u8>, Seq<u8>)> {
        entries_view(self.entries@)
    }

    /// The root commitment.
    pub closed spec fn root_view(&self) -> Seq<u8> {
        self.root@
    }

    /// Paths are unique and the root commits to the entries.
    pub open spec fn wf(&self) -> bool {
        keys_unique(self.entries()) && self.root_view() == root_of(self.entries())
    }

    /// An empty trie.
    pub fn new() -> (r: TrieDB)
        ensures
            r.wf(),
            r.entries() == Seq::<(Seq<u8>, Seq<u8>)>::empty(),
            r@ == Map::<Seq<u8>, Seq<u8>>::empty(),
    {
        let entries: Vec<(Vec<u8>, Vec<u8>)> = Vec::new();
        let root = compute_root(&entries);
        let r = TrieDB { entries, root };
        assert(r.entries() =~= Seq::<(Seq<u8>, Seq<u8>)>::empty());
        assert(r@ =~= Map::<Seq<u8>, Seq<u8>>::empty());
        r
    }

    /// The position of `path` among the entries, if present.
    fn find(&self, path: &[u8]) -> (r: Option<usize>)
        ensures
            match r {
                Some(i) => i < self.entries().len() && self.entries()[i as int].0 == path@,
                None => !has_key(self.entries(), path@),
            },
    {
        let mut i: usize = 0;
        while i < self.entries.len()
            invariant
                i <= self.entries@.len(),
                forall|j: int| 0 <= j < i ==> (#[trigger] self.entries()[j]).0 != path@,
            decreases self.entries@.len() - i,
        {
            if bytes_eq(self.entries[i].0.as_slice(), path) {
                return Some(i);
            }
            i += 1;
        }
        None
    }

    /// A copy of the entries, in their stored order.
    fn copy_entries(&self) -> (r: Vec<(Vec<u8>, Vec<u8>)>)
        ensures
            entries_view(r@) == self.entries(),
    {
        let mut r: Vec<(Vec<u8>, Vec<u8>)> = Vec::new();
        let mut i: usize = 0;
        while i < self.entries.len()
            invariant
                i <= self.entries@.len(),
                entries_view(r@) == self.entries().take(i as int),
            decreases self.entries@.len() - i,
        {
            let p = slice_to_vec(self.entries[i].0.as_slice());
            let v = slice_to_vec(self.entries[i].1.as_slice());
            let ghost prev = r@;
            r.push((p, v));
            assert(r@ == prev.push((p, v)));
            assert(entries_view(r@) =~= entries_view(prev).push((p@, v@)));
            assert(self.entries()[i as int] == (p@, v@));
            assert(entries_view(r@) =~= self.entries().take(i + 1));
            i += 1;
        }
        assert(self.entries().take(self.entries@.len() as int) =~= self.entries());
        r
    }

    /// A copy of this trie.
    pub fn duplicate(&self) -> (r: TrieDB)
        ensures
            r.entries() == self.entries(),
            r.root_view() == self.root_view(),
    {
        TrieDB { entries: self.copy_entries(), root: slice_to_vec(self.root.as_slice()) }
    }

    /// Opens the trie whose root is `root` in `db`.
    pub fn create(db: &NodeStore, root: &[u8]) -> (r: Result<TrieDB, TrieError>)
        requires
            db.wf(),
        ensures
            match r {
                Ok(t) => db@.contains_key(root@) && t.wf() && t.root_view() == root@
                    && t.entries() == db@[root@],
                Err(TrieError::InvalidStateRoot(missing)) => !db@.contains_key(root@)
                    && missing@ == root@,
            },
    {
        match db.find(root) {
            Some(i) => {
                proof {
                    lemma_map_at(db.nodes_view(), i as int);
                }
                Ok(db.nodes[i].duplicate())
            },
            None => Err(TrieError::InvalidStateRoot(slice_to_vec(root))),
        }
    }

    /// Records the current content as the node of `db` under its root.
    pub fn commit(&self, db: &mut NodeStore)
        requires
            self.wf(),
            old(db).wf(),
        ensures
            final(db).wf(),
            final(db)@ == old(db)@.insert(self.root_view(), self.entries()),
    {
        let ghost s = db.nodes_view();
        match db.find(self.root.as_slice()) {
            Some(i) => {
                proof {
                    lemma_update(s, i as int, self.entries());
                }
                let mut node = self.duplicate();
                std::mem::swap(&mut db.nodes[i], &mut node);
                assert(db.nodes_view() =~= s.update(i as int, (s[i as int].0, self.entries())));
            },
            None => {
                proof {
                    lemma_push(s, self.root_view(), self.entries());
                }
                db.nodes.push(self.duplicate());
                assert(db.nodes_view() =~= s.push((self.root_view(), self.entries())));
            },
        }
    }

    /// Stores `value` under `path`, returning the value it replaced.
    pub fn insert(&mut self, path: &[u8], value: &[u8]) -> (r: Option<Vec<u8>>)
        requires
            old(self).wf(),
        ensures
            final(self).wf(),
            final(self)@ == old(self)@.insert(path@, value@),
            opt_bytes(r) == map_get(old(self)@, path@),
    {
        let ghost s = self.entries();
        let r = match self.find(path) {
            Some(i) => {
                proof {
                    lemma_map_at(s, i as int);
                    lemma_update(s, i as int, value@);
                }
                let mut old_value = slice_to_vec(value);
                std::mem::swap(&mut self.entries[i].1, &mut old_value);
                assert(self.entries() =~= s.update(i as int, (s[i as int].0, value@)));
                Some(old_value)
            },
            None => {
                proof {
                    lemma_push(s, path@, value@);
                }
                self.entries.push((slice_to_vec(path), slice_to_vec(value)));
                assert(self.entries() =~= s.push((path@, value@)));
                None
            },
        };
        self.root = compute_root(&self.entries);
        r
    }

    /// Removes the value under `path`, returning it; absent paths are left alone.
    pub fn remove(&mut self, path: &[u8]) -> (r: Option<Vec<u8>>)
        requires
            old(self).wf(),
        ensures
            final(self).wf(),
            final(self)@ == old(self)@.remove(path@),
            opt_bytes(r) == map_get(old(self)@, path@),
    {
        let ghost s = self.entries();
        match self.find(path) {
            Some(i) => {
                proof {
                    lemma_map_at(s, i as int);
                    lemma_remove(s, i as int);
                }
                let (_, old_value) = self.entries.remove(i);
                assert(self.entries() =~= s.remove(i as int));
                self.root = compute_root(&self.entries);
                Some(old_value)
            },
            None => {
                assert(self@ =~= self@.remove(path@));
                None
            },
        }
    }
}

/// A content-addressed store of trie nodes, each kept under its root
/// commitment.
pub struct NodeStore {
    nodes: Vec<TrieDB>,
}

impl NodeStore {
    /// The stored nodes as (root, entries) pairs.
    pub closed spec fn nodes_view(&self) -> Seq<(Seq<u8>, Seq<(Seq<u8>, Seq<u8>)>)> {
        self.nodes@.map_values(|t: TrieDB| (t.root_view(), t.entries()))
    }

    /// Roots are unique and every node is well formed.
    pub closed spec fn wf(&self) -> bool {
        &&& keys_unique(self.nodes_view())
        &&& forall|i: int| 0 <= i < self.nodes@.len() ==> (#[trigger] self.nodes@[i]).wf()
    }

    /// A store that holds the empty trie.
    pub fn new() -> (r: NodeStore)
        ensures
            r.wf(),
            r@ == Map::<Seq<u8>, Seq<(Seq<u8>, Seq<u8>)>>::empty().insert(
                root_of(Seq::empty()),
                Seq::empty(),
            ),
    {
        let mut nodes: Vec<TrieDB> = Vec::new();
        let empty = TrieDB::new();
        proof {
            assert(empty.root_view() == root_of(Seq::empty()));
        }
        nodes.push(empty);
        let r = NodeStore { nodes };
        let ghost s = Seq::<(Seq<u8>, Seq<(Seq<u8>, Seq<u8>)>)>::empty();
        proof {
            assert(r.nodes_view() =~= s.push((root_of(Seq::empty()), Seq::empty())));
            lemma_push(s, root_of(Seq::empty()), Seq::empty());
            assert(entries_map(s) =~= Map::empty());
        }
        r
    }

    /// The position of the node whose root is `root`, if present.
    fn find(&self, root: &[u8]) -> (r: Option<usize>)
        ensures
            match r {
                Some(i) => i < self.nodes_view().len() && self.nodes_view()[i as int].0 == root@,
                None => !has_key(self.nodes_view(), root@),
            },
    {
        let mut i: usize = 0;
        while i < self.nodes.len()
            invariant
                i <= self.nodes@.len(),
                forall|j: int| 0 <= j < i ==> (#[trigger] self.nodes_view()[j]).0 != root@,
            decreases self.nodes@.len() - i,
        {
            if bytes_eq(self.nodes[i].root.as_slice(), root) {
                return Some(i);
            }
            i += 1;
        }
        None
    }
}

impl View for NodeStore {
    type V = Map<Seq<u8>, Seq<(Seq<u8>, Seq<u8>)>>;

    /// Each stored root mapped to the entries of its node.
    open spec fn view(&self) -> Map<Seq<u8>, Seq<(Seq<u8>, Seq<u8>)>> {
        entries_map(self.nodes_view())
    }
}

impl Trie for TrieDB {
    /// Each stored path mapped to its value.
    open spec fn content(&self) -> Map<Seq<u8>, Seq<u8>> {
        self@
    }

    /// A key is used as the path itself.
    open spec fn path_of(key: Seq<u8>) -> Seq<u8> {
        key
    }

    open spec fn commitment(&self) -> Seq<u8> {
        self.root_view()
    }

    open spec fn valid(&self) -> bool {
        self.wf()
    }

    /// The root commitment of the current content.
    fn root(&self) -> (r: &Vec<u8>) {
        &self.root
    }

    /// Whether a value is stored under the path `key`.
    fn contains(&self, key: &[u8]) -> (r: bool) {
        match self.find(key) {
            Some(i) => {
                proof {
                    lemma_map_at(self.entries(), i as int);
                }
                true
            },
            None => false,
        }
    }

    /// The value stored under the path `key`, if any.
    fn get(&self, key: &[u8]) -> (r: Option<Vec<u8>>) {
        match self.find(key) {
            Some(i) => {
                proof {
                    lemma_map_at(self.entries(), i as int);
                }
                Some(slice_to_vec(self.entries[i].1.as_slice()))
            },
            None => None,
        }
    }

    /// Applies `query` to the value stored under the path `key`, if any.
    fn get_with<T, Q: Fn(&[u8]) -> T>(&self, key: &[u8], query: Q) -> (r: Option<T>) {
        match self.find(key) {
            Some(i) => {
                proof {
                    lemma_map_at(self.entries(), i as int);
                }
                let b = self.entries[i].1.as_slice();
                let t = query(b);
                assert(b@ == self@[key@] && query.ensures((b,), t));
                assert(projects_to(query, self@[key@], t));
                Some(t)
            },
            None => None,
        }
    }

    /// Every entry, in the order in which its path was first inserted.
    fn iter(&self) -> (r: Vec<(Vec<u8>, Vec<u8>)>)
        ensures
            entries_view(r@) == self.entries(),
    {
        self.copy_entries()
    }
}

impl View for TrieDB {
    type V = Map<Seq<u8>, Seq<u8>>;

    /// The content of the trie: each stored path mapped to its value.
    open spec fn view(&self) -> Map<Seq<u8>, Seq<u8>> {
        entries_map(self.entries())
    }
}

} // verus!
