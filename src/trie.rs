use vstd::prelude::*;

use crate::entries::{entries_map, keys_unique, map_get};
use crate::triedb::{entries_view, opt_bytes, projects_to};

verus! {

/// Read access to a trie: a set of (path, value) entries under a root
/// commitment, where each caller's key names one path.
pub trait Trie {
    /// The content: each stored path mapped to its value.
    spec fn content(&self) -> Map<Seq<u8>, Seq<u8>>;

    /// The path under which the value for `key` is stored.
    spec fn path_of(key: Seq<u8>) -> Seq<u8>;

    /// The root commitment.
    spec fn commitment(&self) -> Seq<u8>;

    /// The trie is well formed.
    spec fn valid(&self) -> bool;

    /// The root commitment.
    fn root(&self) -> (r: &Vec<u8>)
        ensures
            r@ == self.commitment(),
    ;

    /// Whether a value is stored for `key`.
    fn contains(&self, key: &[u8]) -> (r: bool)
        requires
            self.valid(),
        ensures
            r == self.content().contains_key(Self::path_of(key@)),
    ;

    /// The value stored for `key`, if any.
    fn get(&self, key: &[u8]) -> (r: Option<Vec<u8>>)
        requires
            self.valid(),
        ensures
            opt_bytes(r) == map_get(self.content(), Self::path_of(key@)),
    ;

    /// Applies `query` to the value stored for `key`, if any.
    fn get_with<T, Q: Fn(&[u8]) -> T>(&self, key: &[u8], query: Q) -> (r: Option<T>)
        requires
            self.valid(),
            forall|b: &[u8]| #[trigger] query.requires((b,)),
        ensures
            match r {
                Some(t) => self.content().contains_key(Self::path_of(key@)) && projects_to(
                    query,
                    self.content()[Self::path_of(key@)],
                    t,
                ),
                None => !self.content().contains_key(Self::path_of(key@)),
            },
    ;

    /// Every stored (path, value) pair, each once.
    fn iter(&self) -> (r: Vec<(Vec<u8>, Vec<u8>)>)
        requires
            self.valid(),
        ensures
            keys_unique(entries_view(r@)),
            entries_map(entries_view(r@)) == self.content(),
    ;
}

} // verus!
