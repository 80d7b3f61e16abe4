//! A cache that reads identities from a map in memory in place of the file system.

use vstd::prelude::*;

use crate::cache::{add_resolved, remove_resolved, resolved_beneath, with_resolved, FileIdCache};
use crate::file_id::FileId;
use crate::path::{is_odd_at, is_plain_path};
use crate::path_map::{as_map, PathMap};

verus! {

/// The root of the file system.
pub open spec fn root_path() -> Seq<char> {
    seq!['/']
}

/// A cache for tests: `paths` is what is cached, `file_system` stands for the disk.
///
/// Adding a path caches what the disk holds at or beneath it, over what was cached. A
/// rescan forgets what was cached and caches what the disk holds beneath the root.
#[derive(Debug, Clone)]
pub struct TestCache {
    pub paths: PathMap<FileId>,
    pub file_system: PathMap<FileId>,
}

impl TestCache {
    /// A cache that holds `paths` and resolves identities from `file_system`.
    pub fn new(paths: PathMap<FileId>, file_system: PathMap<FileId>) -> (cache: TestCache)
        ensures
            cache.paths == paths,
            cache.file_system == file_system,
    {
        TestCache { paths, file_system }
    }

    /// The simulated file system as a map.
    pub open spec fn disk(&self) -> Map<Seq<char>, FileId> {
        as_map(self.file_system.entries())
    }
}

impl FileIdCache for TestCache {
    open spec fn entries(&self) -> Map<Seq<char>, FileId> {
        as_map(self.paths.entries())
    }

    open spec fn added(pre: Self, path: Seq<char>, post: Self) -> bool {
        &&& post.file_system == pre.file_system
        &&& post.entries() == with_resolved(pre.entries(), pre.disk(), path)
    }

    open spec fn removed(pre: Self, path: Seq<char>, post: Self) -> bool {
        &&& post.file_system == pre.file_system
        &&& post.entries() == pre.entries().remove(path)
    }

    open spec fn rescanned(pre: Self, post: Self) -> bool {
        &&& post.file_system == pre.file_system
        &&& post.entries() == resolved_beneath(pre.disk(), root_path())
    }

    fn cached_file_id(&self, path: &str) -> (id: Option<&FileId>) {
        self.paths.get(path)
    }

    fn add_path(&mut self, path: &str) {
        add_resolved(&mut self.paths, &self.file_system, path);
    }

    fn remove_path(&mut self, path: &str) {
        remove_resolved(&mut self.paths, path);
    }

    fn rescan(&mut self) {
        proof {
            reveal_strlit("/");
            assert("/"@ =~= root_path());
        }
        self.paths = PathMap::new();
        assert(self.entries() =~= Map::empty());
        let ghost disk = self.disk();
        assert(is_plain_path(root_path())) by {
            assert forall|place: int| 0 <= place < root_path().len() implies !#[trigger] is_odd_at(
                root_path(),
                place,
            ) by {}
        }
        add_resolved(&mut self.paths, &self.file_system, "/");
        assert(self.entries() =~= resolved_beneath(disk, root_path()));
    }
}

} // verus!
