use fs_debounce::cache::FileIdCache;
use fs_debounce::file_id::FileId;
use fs_debounce::cache::FileIdMap;
use fs_debounce::path::{
    is_plain, path_starts_with, str_contains, str_ends_with, str_eq, to_chars,
};
use fs_debounce::path_map::PathMap;
use fs_debounce::testing::TestCache;

fn ids(pairs: &[(&str, u64)]) -> PathMap<FileId> {
    let mut map = PathMap::new();
    for (path, id) in pairs {
        map.insert(path.to_string(), FileId::new_inode(*id, *id));
    }
    map
}

#[test]
fn chars_of_a_string() {
    assert_eq!(to_chars(""), Vec::<char>::new());
    assert_eq!(to_chars("añ/✓"), vec!['a', 'ñ', '/', '✓']);
}

#[test]
fn string_equality() {
    assert!(str_eq("", ""));
    assert!(str_eq("rename-both", "rename-both"));
    assert!(!str_eq("rename-both", "rename-bot"));
    assert!(!str_eq("é", "e"));
    assert!(!str_eq("ab", "ba"));
}

#[test]
fn at_or_beneath() {
    assert!(path_starts_with("/a/b", "/a"));
    assert!(path_starts_with("/a", "/a"));
    assert!(path_starts_with("/a/b", "/"));
    assert!(path_starts_with("/", "/"));
    assert!(path_starts_with("/a", ""));
    assert!(path_starts_with("a/b/c", "a/b"));
    assert!(path_starts_with("../a", ".."));
    assert!(!path_starts_with("/ab", "/a"));
    assert!(!path_starts_with("/a", "/a/b"));
    assert!(!path_starts_with("/b/a", "/a"));
    assert!(!path_starts_with("a", "/"));
    assert!(!path_starts_with("/a", "a"));
}

#[test]
fn suffixes_and_substrings() {
    assert!(str_ends_with("game.project.json", ".project.json"));
    assert!(str_ends_with(".project.json", ".project.json"));
    assert!(!str_ends_with("project.json", ".project.json"));
    assert!(str_ends_with("x", ""));
    assert!(str_contains("local f = loadstring(s)", "loadstring"));
    assert!(str_contains("getfenv", "getfenv"));
    assert!(!str_contains("getfen", "getfenv"));
    assert!(str_contains("abc", ""));
    assert!(str_contains("", ""));
    assert!(!str_contains("", "a"));
    assert!(str_contains("aab", "ab"));
}

#[test]
fn path_map_keeps_order_and_replaces_in_place() {
    let mut map: PathMap<u32> = PathMap::new();
    assert!(map.is_empty());
    assert_eq!(map.insert("/b".to_string(), 1), None);
    assert_eq!(map.insert("/a".to_string(), 2), None);
    assert_eq!(map.insert("/b".to_string(), 3), Some(1));
    assert_eq!(map.len(), 2);
    assert_eq!(map.position("/b"), Some(0));
    assert_eq!(map.position("/a"), Some(1));
    assert_eq!(map.position("/c"), None);
    assert_eq!(map.key_at(0), "/b");
    assert_eq!(*map.value_at(0), 3);
    assert_eq!(map.get("/a"), Some(&2));
    assert_eq!(map.get("/c"), None);
    assert_eq!(map.replace_at(1, 5), 2);
    assert_eq!(map.get("/a"), Some(&5));
    map.push_new("/c".to_string(), 7);
    assert_eq!(map.position("/c"), Some(2));
    assert_eq!(map.remove("/b"), Some(3));
    assert_eq!(map.remove("/b"), None);
    assert_eq!(map.position("/a"), Some(0));
    assert_eq!(map.remove_at(0), ("/a".to_string(), 5));
    assert_eq!(map.len(), 1);
    let copy = map.clone();
    assert_eq!(copy, map);
}

#[test]
fn test_cache_reads_the_cache_only() {
    let cache = TestCache::new(ids(&[("/a", 1)]), ids(&[("/b", 2)]));
    assert_eq!(cache.cached_file_id("/a"), Some(&FileId::new_inode(1, 1)));
    assert_eq!(cache.cached_file_id("/b"), None);
}

#[test]
fn test_cache_adds_what_lies_at_or_beneath() {
    let disk = ids(&[("/d", 1), ("/d/x", 2), ("/d/x/y", 3), ("/dx", 4), ("/e", 5)]);
    let mut cache = TestCache::new(ids(&[("/d/x", 9), ("/old", 8)]), disk);
    cache.add_path("/d");
    assert_eq!(cache.cached_file_id("/d"), Some(&FileId::new_inode(1, 1)));
    assert_eq!(cache.cached_file_id("/d/x"), Some(&FileId::new_inode(2, 2)));
    assert_eq!(cache.cached_file_id("/d/x/y"), Some(&FileId::new_inode(3, 3)));
    assert_eq!(cache.cached_file_id("/dx"), None);
    assert_eq!(cache.cached_file_id("/e"), None);
    assert_eq!(cache.cached_file_id("/old"), Some(&FileId::new_inode(8, 8)));
    cache.add_path("/missing");
    assert_eq!(cache.paths.len(), 4);
}

#[test]
fn test_cache_removes_one_entry_without_cascade() {
    let mut cache = TestCache::new(ids(&[("/d", 1), ("/d/x", 2)]), PathMap::new());
    cache.remove_path("/d");
    assert_eq!(cache.cached_file_id("/d"), None);
    assert_eq!(cache.cached_file_id("/d/x"), Some(&FileId::new_inode(2, 2)));
    cache.remove_path("/d");
    assert_eq!(cache.paths.len(), 1);
}

#[test]
fn test_cache_rescan_rebuilds_from_the_disk() {
    let mut cache = TestCache::new(ids(&[("/stale", 7), ("/a", 9)]), ids(&[("/a", 1), ("/b/c", 2)]));
    cache.rescan();
    assert_eq!(cache.cached_file_id("/a"), Some(&FileId::new_inode(1, 1)));
    assert_eq!(cache.cached_file_id("/b/c"), Some(&FileId::new_inode(2, 2)));
    assert_eq!(cache.cached_file_id("/stale"), None);
    assert_eq!(cache.paths.len(), 2);
}

#[test]
fn file_ids_are_equal_by_their_parts() {
    assert_eq!(FileId::new_inode(1, 2), FileId::Inode { device_id: 1, inode_number: 2 });
    assert_ne!(FileId::new_inode(1, 2), FileId::new_inode(2, 1));
    assert_eq!(
        FileId::new_low_res(3, 4),
        FileId::LowRes { volume_serial_number: 3, file_index: 4 }
    );
    assert_eq!(
        FileId::new_high_res(5, 6),
        FileId::HighRes { volume_serial_number: 5, file_id: 6 }
    );
    assert_ne!(FileId::new_low_res(1, 1), FileId::new_inode(1, 1));
}

#[test]
fn plain_spelling() {
    for path in ["/", "/a", "/a/b", "a", "a/b", "..", "../a", "/a/..", ".a", "a.", "/a/.b/c.", "..."] {
        assert!(is_plain(path), "{path}");
    }
    for path in ["", "/a/", "a/", "//", "/a//b", "//a", ".", "./a", "/a/.", "/a/./b", "a/./b"] {
        assert!(!is_plain(path), "{path}");
    }
}

#[test]
fn observed_cache_adds_from_what_it_was_told() {
    let mut cache = FileIdMap::new();
    cache.add_path("/a");
    assert_eq!(cache.cached_file_id("/a"), None);
    cache.observe(ids(&[("/a", 1), ("/a/b", 2), ("/c", 3)]));
    cache.add_path("/a");
    assert_eq!(cache.cached_file_id("/a"), Some(&FileId::new_inode(1, 1)));
    assert_eq!(cache.cached_file_id("/a/b"), Some(&FileId::new_inode(2, 2)));
    assert_eq!(cache.cached_file_id("/c"), None);
    cache.remove_path("/a");
    assert_eq!(cache.cached_file_id("/a"), None);
    assert_eq!(cache.cached_file_id("/a/b"), Some(&FileId::new_inode(2, 2)));
}

#[test]
fn observed_cache_rescan_takes_all_it_was_told() {
    let mut cache = FileIdMap::new();
    cache.observe(ids(&[("/a", 1)]));
    cache.add_path("/a");
    cache.observe(ids(&[("/b", 2), ("rel/c", 3)]));
    cache.rescan();
    assert_eq!(cache.cached_file_id("/a"), None);
    assert_eq!(cache.cached_file_id("/b"), Some(&FileId::new_inode(2, 2)));
    assert_eq!(cache.cached_file_id("rel/c"), Some(&FileId::new_inode(3, 3)));
    assert_eq!(cache.paths.len(), 2);
}

#[test]
fn clone_of_a_map_holds_the_same_values() {
    let map = ids(&[("/a", 1), ("/b", 2)]);
    let copy = map.clone();
    assert_eq!(copy.get("/a"), Some(&FileId::new_inode(1, 1)));
    assert_eq!(copy.get("/b"), Some(&FileId::new_inode(2, 2)));
    assert_eq!(copy.position("/b"), Some(1));
}
