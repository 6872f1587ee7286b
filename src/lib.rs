//! A secure trie: a key/value trie whose navigation paths are the Keccak-256
//! hashes of the caller's keys rather than the keys themselves.

mod entries;
mod hashing;
mod sectriedb;
mod trie;
mod triedb;

pub use entries::{entries_map, has_key, keys_unique, map_get};
pub use hashing::{hash_key, keccak_of};
pub use sectriedb::{
    lemma_distinct_keys, lemma_hash_deterministic, lemma_insert_then_get, lemma_remove_key,
    lemma_upsert, secure_contains, secure_get, secure_insert, secure_remove, SecTrieDB,
    SecTrieDBMut,
};
pub use trie::Trie;
pub use triedb::{
    entries_view, node_bytes, opt_bytes, projects_to, root_of, NodeStore, TrieDB, TrieError,
};
