//! The cache of file identities that the debouncer keeps up to date.

use vstd::prelude::*;

use crate::file_id::FileId;
use crate::path::{is_at_or_beneath, is_plain_path, path_starts_with};
use crate::path_map::{
    as_map, distinct_keys, has_key, index_of, lemma_with_entry, lemma_without_key, value_of,
    with_entry, PathMap,
};

verus! {

/// The identity that `entries` hold for `path`.
pub open spec fn lookup(entries: Map<Seq<char>, FileId>, path: Seq<char>) -> Option<FileId> {
    if entries.contains_key(path) {
        Some(entries[path])
    } else {
        None
    }
}

/// Whether `post` can be what adding `path` makes of `pre`: the cache says so, and no path
/// but `path` and what lies beneath it has changed.
pub open spec fn add_path_ok<T: FileIdCache>(pre: T, path: Seq<char>, post: T) -> bool {
    &&& T::added(pre, path, post)
    &&& forall|other: Seq<char>|
        !is_at_or_beneath(other, path) ==> #[trigger] lookup(post.entries(), other) == lookup(
            pre.entries(),
            other,
        )
}

/// Whether `post` can be what removing `path` makes of `pre`: the cache says so, and the
/// entry of `path` is gone and no other.
pub open spec fn remove_path_ok<T: FileIdCache>(pre: T, path: Seq<char>, post: T) -> bool {
    &&& T::removed(pre, path, post)
    &&& post.entries() == pre.entries().remove(path)
}

/// A cache that maps the paths seen so far to the identities of the files behind them.
///
/// The debouncer reads it to pair the two halves of a rename, and tells it of every path
/// that appears or disappears. Where an identity comes from is up to the implementation:
/// `entries` says what it holds, and the relations `added`, `removed` and `rescanned` what
/// it makes of each request. Paths are spelled in the one way that [`is_plain_path`]
/// allows.
pub trait FileIdCache: Sized {
    /// The paths in the cache, each with its identity.
    spec fn entries(&self) -> Map<Seq<char>, FileId>;

    /// Whether `post` can be what `add_path(path)` makes of `pre`.
    spec fn added(pre: Self, path: Seq<char>, post: Self) -> bool;

    /// Whether `post` can be what `remove_path(path)` makes of `pre`.
    spec fn removed(pre: Self, path: Seq<char>, post: Self) -> bool;

    /// Whether `post` can be what `rescan()` makes of `pre`.
    spec fn rescanned(pre: Self, post: Self) -> bool;

    /// The identity cached for `path`. Reads the cache only, never the file system.
    fn cached_file_id(&self, path: &str) -> (id: Option<&FileId>)
        requires
            is_plain_path(path@),
        ensures
            match id {
                Some(found) => lookup(self.entries(), path@) == Some(*found),
                None => lookup(self.entries(), path@) is None,
            },
    ;

    /// Caches the identity of every entry at or beneath `path` that can be resolved.
    fn add_path(&mut self, path: &str)
        requires
            is_plain_path(path@),
        ensures
            Self::added(*old(self), path@, *final(self)),
            forall|other: Seq<char>|
                !is_at_or_beneath(other, path@) ==> #[trigger] lookup(
                    final(self).entries(),
                    other,
                ) == lookup(old(self).entries(), other),
    ;

    /// Takes the entry of `path` out of the cache; what lies beneath it stays.
    fn remove_path(&mut self, path: &str)
        requires
            is_plain_path(path@),
        ensures
            Self::removed(*old(self), path@, *final(self)),
            final(self).entries() == old(self).entries().remove(path@),
    ;

    /// Brings the whole cache in line with the file system.
    fn rescan(&mut self)
        ensures
            Self::rescanned(*old(self), *final(self)),
    ;
}

/// The entries of `file_system` at or beneath `root`.
pub open spec fn resolved_beneath(file_system: Map<Seq<char>, FileId>, root: Seq<char>) -> Map<
    Seq<char>,
    FileId,
> {
    file_system.restrict(Set::new(|path: Seq<char>| is_at_or_beneath(path, root)))
}

/// `cache` with the entries of `file_system` at or beneath `root` written over it.
pub open spec fn with_resolved(
    cache: Map<Seq<char>, FileId>,
    file_system: Map<Seq<char>, FileId>,
    root: Seq<char>,
) -> Map<Seq<char>, FileId> {
    cache.union_prefer_right(resolved_beneath(file_system, root))
}

/// The map of `entries` with one entry put in is the map of `entries` with that key set.
proof fn lemma_as_map_with_entry(entries: Seq<(Seq<char>, FileId)>, key: Seq<char>, id: FileId)
    requires
        distinct_keys(entries),
    ensures
        as_map(with_entry(entries, key, id)) == as_map(entries).insert(key, id),
{
    lemma_with_entry(entries, key, id);
    let after = with_entry(entries, key, id);
    assert forall|k: Seq<char>| #[trigger]
        as_map(after).contains_key(k) == as_map(entries).insert(key, id).contains_key(k) by {
        if k != key {
            assert(value_of(after, k) == value_of(entries, k));
        } else {
            assert(value_of(after, k) is Some);
        }
    }
    assert forall|k: Seq<char>| #[trigger] as_map(after).contains_key(k) implies as_map(after)[k]
        == as_map(entries).insert(key, id)[k] by {
        if k != key {
            assert(value_of(after, k) == value_of(entries, k));
        } else {
            assert(value_of(after, k) == Some(id));
        }
    }
    assert(as_map(after) =~= as_map(entries).insert(key, id));
}

/// The map of the first `n + 1` entries is the map of the first `n` with the next one set.
proof fn lemma_as_map_take(entries: Seq<(Seq<char>, FileId)>, n: int)
    requires
        distinct_keys(entries),
        0 <= n < entries.len(),
    ensures
        as_map(entries.take(n + 1)) == as_map(entries.take(n)).insert(entries[n].0, entries[n].1),
        !as_map(entries.take(n)).contains_key(entries[n].0),
{
    let shorter = entries.take(n);
    assert(distinct_keys(shorter)) by {
        assert forall|i: int, j: int| 0 <= i < j < shorter.len() implies (#[trigger] shorter[i]).0
            != (#[trigger] shorter[j]).0 by {
            assert(entries[i].0 != entries[j].0);
        }
    }
    if has_key(shorter, entries[n].0) {
        let k = index_of(shorter, entries[n].0);
        assert(entries[k].0 == entries[n].0);
    }
    assert(with_entry(shorter, entries[n].0, entries[n].1) =~= entries.take(n + 1));
    lemma_as_map_with_entry(shorter, entries[n].0, entries[n].1);
}

/// The map of `entries` with one key taken out is the map of `entries` without that key.
proof fn lemma_as_map_without_key(entries: Seq<(Seq<char>, FileId)>, key: Seq<char>)
    requires
        distinct_keys(entries),
    ensures
        as_map(crate::path_map::without_key(entries, key)) == as_map(entries).remove(key),
{
    lemma_without_key(entries, key);
    let after = crate::path_map::without_key(entries, key);
    assert forall|k: Seq<char>| #[trigger]
        as_map(after).contains_key(k) == as_map(entries).remove(key).contains_key(k) by {
        if k != key {
            assert(value_of(after, k) == value_of(entries, k));
        } else {
            assert(value_of(after, k) is None);
        }
    }
    assert forall|k: Seq<char>| #[trigger] as_map(after).contains_key(k) implies as_map(after)[k]
        == as_map(entries).remove(key)[k] by {
        assert(value_of(after, k) == value_of(entries, k));
    }
    assert(as_map(after) =~= as_map(entries).remove(key));
}

/// Writes the entries of `source` at or beneath `root` over `paths`.
pub(crate) fn add_resolved(paths: &mut PathMap<FileId>, source: &PathMap<FileId>, root: &str)
    requires
        is_plain_path(root@) || root@.len() == 0,
    ensures
        as_map(final(paths).entries()) == with_resolved(
            as_map(old(paths).entries()),
            as_map(source.entries()),
            root@,
        ),
{
    let ghost before = as_map(paths.entries());
    let n = source.len();
    let _ = paths.len();
    let mut i: usize = 0;
    assert(source.entries().take(0) =~= Seq::empty());
    assert(as_map(paths.entries()) =~= with_resolved(
        before,
        as_map(source.entries().take(0)),
        root@,
    ));
    while i < n
        invariant
            i <= n,
            n == source.entries().len(),
            distinct_keys(source.entries()),
            distinct_keys(paths.entries()),
            is_plain_path(root@) || root@.len() == 0,
            as_map(paths.entries()) == with_resolved(
                before,
                as_map(source.entries().take(i as int)),
                root@,
            ),
        decreases n - i,
    {
        let ghost fs = source.entries();
        let ghost cached = paths.entries();
        proof {
            lemma_as_map_take(fs, i as int);
        }
        if path_starts_with(source.key_at(i).as_str(), root) {
            let key = source.key_at(i).clone();
            let id = *source.value_at(i);
            paths.insert(key, id);
            proof {
                lemma_as_map_with_entry(cached, fs[i as int].0, fs[i as int].1);
                assert(as_map(paths.entries()) =~= with_resolved(
                    before,
                    as_map(fs.take(i + 1)),
                    root@,
                ));
            }
        } else {
            assert(as_map(paths.entries()) =~= with_resolved(
                before,
                as_map(fs.take(i + 1)),
                root@,
            ));
        }
        i += 1;
    }
    assert(source.entries().take(n as int) =~= source.entries());
}

/// Takes the entry of `path` out of `paths`.
pub(crate) fn remove_resolved(paths: &mut PathMap<FileId>, path: &str)
    requires
        is_plain_path(path@),
    ensures
        as_map(final(paths).entries()) == as_map(old(paths).entries()).remove(path@),
{
    let ghost cached = paths.entries();
    paths.remove(path);
    proof {
        lemma_as_map_without_key(cached, path@);
    }
}

/// A cache that is told what the file system holds: `observe` hands it what was read from
/// the disk, and adding a path or rescanning caches from what was handed last.
#[derive(Debug, Clone)]
pub struct FileIdMap {
    /// What is cached.
    pub paths: PathMap<FileId>,
    /// What was read from the file system last.
    pub observed: PathMap<FileId>,
}

impl FileIdMap {
    /// A cache that holds nothing and has been told nothing.
    pub fn new() -> (cache: FileIdMap)
        ensures
            cache.paths.entries() == Seq::<(Seq<char>, FileId)>::empty(),
            cache.observed.entries() == Seq::<(Seq<char>, FileId)>::empty(),
    {
        FileIdMap { paths: PathMap::new(), observed: PathMap::new() }
    }

    /// Tells the cache what the file system holds now, in place of what it was told before.
    pub fn observe(&mut self, observed: PathMap<FileId>)
        ensures
            final(self).observed == observed,
            final(self).paths == old(self).paths,
    {
        self.observed = observed;
    }

    /// What was read from the file system last, as a map.
    pub open spec fn disk(&self) -> Map<Seq<char>, FileId> {
        as_map(self.observed.entries())
    }
}

impl FileIdCache for FileIdMap {
    open spec fn entries(&self) -> Map<Seq<char>, FileId> {
        as_map(self.paths.entries())
    }

    open spec fn added(pre: Self, path: Seq<char>, post: Self) -> bool {
        &&& post.observed == pre.observed
        &&& post.entries() == with_resolved(pre.entries(), pre.disk(), path)
    }

    open spec fn removed(pre: Self, path: Seq<char>, post: Self) -> bool {
        &&& post.observed == pre.observed
        &&& post.entries() == pre.entries().remove(path)
    }

    open spec fn rescanned(pre: Self, post: Self) -> bool {
        &&& post.observed == pre.observed
        &&& post.entries() == pre.disk()
    }

    fn cached_file_id(&self, path: &str) -> (id: Option<&FileId>) {
        self.paths.get(path)
    }

    fn add_path(&mut self, path: &str) {
        add_resolved(&mut self.paths, &self.observed, path);
    }

    fn remove_path(&mut self, path: &str) {
        remove_resolved(&mut self.paths, path);
    }

    fn rescan(&mut self) {
        self.paths = PathMap::new();
        assert(self.entries() =~= Map::empty());
        let ghost disk = self.disk();
        proof {
            reveal_strlit("");
        }
        add_resolved(&mut self.paths, &self.observed, "");
        proof {
            assert forall|path: Seq<char>| is_at_or_beneath(path, ""@) by {
                assert(path.subrange(0, 0) =~= ""@);
            }
            assert(resolved_beneath(disk, ""@) =~= disk);
            assert(self.entries() =~= disk);
        }
    }
}

} // verus!
