//! The thumbnail cache: for each folder that was scanned, the path of the
//! image that stands for it (empty where the folder holds none).
//!
//! Entries leave the cache only when a directory change invalidates every key
//! that begins with the directory's path.

use crate::text::starts_with_text;
use vstd::hash_map::StringHashMap;
use vstd::prelude::*;
use vstd::string::*;

verus! {

/// A map from folder path to thumbnail path.
pub struct ThumbnailCache {
    entries: StringHashMap<String>,
    /// Every key of `entries`, for walking the cache.
    keys: Vec<String>,
}

impl View for ThumbnailCache {
    type V = Map<Seq<char>, Seq<char>>;

    closed spec fn view(&self) -> Map<Seq<char>, Seq<char>> {
        Map::new(|k: Seq<char>| self.entries@.contains_key(k), |k: Seq<char>| self.entries@[k]@)
    }
}

/// What is left of `cache` once every key that begins with `prefix` is gone.
pub open spec fn without_subtree(cache: Map<Seq<char>, Seq<char>>, prefix: Seq<char>) -> Map<
    Seq<char>,
    Seq<char>,
> {
    Map::new(
        |k: Seq<char>| cache.contains_key(k) && !prefix.is_prefix_of(k),
        |k: Seq<char>| cache[k],
    )
}

impl ThumbnailCache {
    /// The list of keys names exactly the keys of the map.
    pub closed spec fn wf(&self) -> bool {
        &&& forall|i: int|
            0 <= i < self.keys@.len() ==> self.entries@.contains_key(#[trigger] self.keys@[i]@)
        &&& forall|k: Seq<char>| #[trigger]
            self.entries@.contains_key(k) ==> exists|i: int|
                0 <= i < self.keys@.len() && #[trigger] self.keys@[i]@ == k
    }

    /// An empty cache.
    pub fn new() -> (cache: Self)
        ensures
            cache.wf(),
            cache@ == Map::<Seq<char>, Seq<char>>::empty(),
    {
        let cache = ThumbnailCache { entries: StringHashMap::new(), keys: Vec::new() };
        assert(cache@ =~= Map::<Seq<char>, Seq<char>>::empty());
        cache
    }

    /// The thumbnail path stored for `path`, if the folder was scanned.
    pub fn get(&self, path: &str) -> (thumb: Option<String>)
        ensures
            match thumb {
                Some(t) => self@.contains_key(path@) && t@ == self@[path@],
                None => !self@.contains_key(path@),
            },
    {
        match self.entries.get(path) {
            Some(t) => Some(t.clone()),
            None => None,
        }
    }

    /// Whether the cache holds an entry for `path`.
    pub fn contains(&self, path: &str) -> (found: bool)
        ensures
            found == self@.contains_key(path@),
    {
        self.entries.contains_key(path)
    }

    /// Stores `thumb` for `path`, replacing what was stored before.
    pub fn put(&mut self, path: String, thumb: String)
        requires
            old(self).wf(),
        ensures
            final(self).wf(),
            final(self)@ == old(self)@.insert(path@, thumb@),
    {
        let ghost key = path@;
        if !self.entries.contains_key(path.as_str()) {
            self.keys.push(path.clone());
        }
        let ghost keys_mid = self.keys@;
        assert(forall|i: int|
            0 <= i < old(self).keys@.len() ==> keys_mid[i] == #[trigger] old(self).keys@[i]);
        self.entries.insert(path, thumb);
        assert forall|k: Seq<char>| #[trigger] self.entries@.contains_key(k) implies exists|i: int|
            0 <= i < self.keys@.len() && #[trigger] self.keys@[i]@ == k by {
            if old(self).entries@.contains_key(k) {
                let i = choose|i: int|
                    0 <= i < old(self).keys@.len() && #[trigger] old(self).keys@[i]@ == k;
                assert(self.keys@[i]@ == k);
            } else {
                assert(k == key);
                assert(self.keys@[self.keys@.len() - 1]@ == key);
            }
        }
        assert forall|i: int| 0 <= i < self.keys@.len() implies self.entries@.contains_key(
            #[trigger] self.keys@[i]@,
        ) by {
            if i < old(self).keys@.len() {
                assert(self.keys@[i] == old(self).keys@[i]);
            }
        }
        assert(self@ =~= old(self)@.insert(key, thumb@));
    }

    /// Removes every entry whose key begins with `prefix`, as plain text: the
    /// prefix need not end where a path component ends.
    pub fn invalidate_subtree(&mut self, prefix: &str)
        requires
            old(self).wf(),
        ensures
            final(self).wf(),
            final(self)@ == without_subtree(old(self)@, prefix@),
            forall|k: Seq<char>|
                prefix@.is_prefix_of(k) ==> !(#[trigger] final(self)@.contains_key(k)),
            forall|k: Seq<char>|
                !prefix@.is_prefix_of(k) ==> (#[trigger] final(self)@.contains_key(k)
                    <==> old(self)@.contains_key(k)),
            forall|k: Seq<char>|
                !prefix@.is_prefix_of(k) && old(self)@.contains_key(k)
                    ==> #[trigger] final(self)@[k] == old(self)@[k],
    {
        let ghost before = self.entries@;
        let mut kept: Vec<String> = Vec::new();
        while self.keys.len() > 0
            invariant
                forall|i: int|
                    0 <= i < self.keys@.len() ==> before.contains_key(#[trigger] self.keys@[i]@),
                forall|k: Seq<char>| #[trigger]
                    self.entries@.contains_key(k) ==> before.contains_key(k) && self.entries@[k]
                        == before[k],
                forall|k: Seq<char>|
                    before.contains_key(k) && !prefix@.is_prefix_of(k)
                        ==> #[trigger] self.entries@.contains_key(k),
                forall|k: Seq<char>| #[trigger]
                    self.entries@.contains_key(k) ==> (exists|i: int|
                        0 <= i < self.keys@.len() && #[trigger] self.keys@[i]@ == k) || (exists|
                        j: int,
                    |
                        0 <= j < kept@.len() && #[trigger] kept@[j]@ == k),
                forall|j: int|
                    0 <= j < kept@.len() ==> self.entries@.contains_key(#[trigger] kept@[j]@)
                        && !prefix@.is_prefix_of(kept@[j]@),
                forall|k: Seq<char>| #[trigger]
                    self.entries@.contains_key(k) && prefix@.is_prefix_of(k) ==> exists|i: int|
                        0 <= i < self.keys@.len() && #[trigger] self.keys@[i]@ == k,
            decreases self.keys@.len(),
        {
            let ghost keys_before = self.keys@;
            let ghost kept_before = kept@;
            let ghost entries_before = self.entries@;
            let key = self.keys.pop().unwrap();
            let ghost last = keys_before.len() - 1;
            assert(key == keys_before[last]);
            if starts_with_text(key.as_str(), prefix) {
                self.entries.remove(key.as_str());
                assert forall|k: Seq<char>| #[trigger] self.entries@.contains_key(k) implies (
                exists|i: int| 0 <= i < self.keys@.len() && #[trigger] self.keys@[i]@ == k) || (
                exists|j: int| 0 <= j < kept@.len() && #[trigger] kept@[j]@ == k) by {
                    assert(entries_before.contains_key(k));
                    if exists|i: int|
                        0 <= i < keys_before.len() && #[trigger] keys_before[i]@ == k {
                        let i = choose|i: int|
                            0 <= i < keys_before.len() && #[trigger] keys_before[i]@ == k;
                        assert(i != last);
                        assert(self.keys@[i]@ == k);
                    }
                }
                assert forall|k: Seq<char>| #[trigger]
                    self.entries@.contains_key(k) && prefix@.is_prefix_of(k) implies exists|
                    i: int,
                | 0 <= i < self.keys@.len() && #[trigger] self.keys@[i]@ == k by {
                    assert(entries_before.contains_key(k));
                    let i = choose|i: int|
                        0 <= i < keys_before.len() && #[trigger] keys_before[i]@ == k;
                    assert(i != last);
                    assert(self.keys@[i]@ == k);
                }
            } else {
                kept.push(key);
                assert forall|k: Seq<char>| #[trigger] self.entries@.contains_key(k) implies (
                exists|i: int| 0 <= i < self.keys@.len() && #[trigger] self.keys@[i]@ == k) || (
                exists|j: int| 0 <= j < kept@.len() && #[trigger] kept@[j]@ == k) by {
                    if exists|i: int|
                        0 <= i < keys_before.len() && #[trigger] keys_before[i]@ == k {
                        let i = choose|i: int|
                            0 <= i < keys_before.len() && #[trigger] keys_before[i]@ == k;
                        if i == last {
                            assert(kept@[kept@.len() - 1]@ == k);
                        } else {
                            assert(self.keys@[i]@ == k);
                        }
                    } else {
                        let j = choose|j: int|
                            0 <= j < kept_before.len() && #[trigger] kept_before[j]@ == k;
                        assert(kept@[j]@ == k);
                    }
                }
                assert forall|j: int| 0 <= j < kept@.len() implies self.entries@.contains_key(
                    #[trigger] kept@[j]@,
                ) && !prefix@.is_prefix_of(kept@[j]@) by {
                    if j < kept_before.len() {
                        assert(kept@[j] == kept_before[j]);
                    } else {
                        assert(before.contains_key(key@));
                    }
                }
                assert forall|k: Seq<char>| #[trigger]
                    self.entries@.contains_key(k) && prefix@.is_prefix_of(k) implies exists|
                    i: int,
                | 0 <= i < self.keys@.len() && #[trigger] self.keys@[i]@ == k by {
                    let i = choose|i: int|
                        0 <= i < keys_before.len() && #[trigger] keys_before[i]@ == k;
                    assert(i != last);
                    assert(self.keys@[i]@ == k);
                }
            }
        }
        self.keys = kept;
        assert forall|k: Seq<char>| #[trigger] self.entries@.contains_key(k) implies exists|i: int|
            0 <= i < self.keys@.len() && #[trigger] self.keys@[i]@ == k by {
            if prefix@.is_prefix_of(k) {
            } else {
                let j = choose|j: int| 0 <= j < kept@.len() && #[trigger] kept@[j]@ == k;
                assert(self.keys@[j]@ == k);
            }
        }
        assert(self@ =~= without_subtree(old(self)@, prefix@));
    }
}

} // verus!
