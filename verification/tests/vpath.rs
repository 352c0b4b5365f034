use handle_tree::path_map::PathMap;
use handle_tree::vpath::VPath;
use std::collections::hash_map::DefaultHasher;
use std::hash::{Hash, Hasher};

fn hash_of(path: &VPath) -> u64 {
    let mut hasher = DefaultHasher::new();
    path.hash(&mut hasher);
    hasher.finish()
}

#[test]
fn paths_built_apart_are_equal() {
    let a = VPath::new("t").extend("f").extend("x");
    let root = VPath::new("t");
    let b = root.extend("f").extend("x");
    assert!(a == b);
    assert!(a.same_keys(&b));
    assert_eq!(hash_of(&a), hash_of(&b));
}

#[test]
fn paths_differ_by_any_key() {
    let a = VPath::new("t").extend("f").extend("x");
    assert!(a != VPath::new("t").extend("f").extend("y"));
    assert!(a != VPath::new("t").extend("g").extend("x"));
    assert!(a != VPath::new("u").extend("f").extend("x"));
}

#[test]
fn paths_differ_by_length() {
    let root = VPath::new("x");
    let child = root.extend("x");
    assert!(root != child);
    assert!(child != root);
    assert!(child != child.extend("x"));
}

#[test]
fn keys_are_not_joined() {
    let a = VPath::new("ab").extend("c");
    let b = VPath::new("a").extend("bc");
    assert!(a != b);
    assert!(VPath::new("") != VPath::new("").extend(""));
}

#[test]
fn clone_is_equal() {
    let a = VPath::new("t").extend("f");
    let b = a.clone();
    assert!(a == b);
    assert!(a.extend("x") == b.extend("x"));
}

#[test]
fn extend_leaves_the_parent_as_it_was() {
    let parent = VPath::new("p");
    let one = parent.extend("1");
    let two = parent.extend("2");
    assert!(one != two);
    assert!(parent == VPath::new("p"));
}

#[test]
fn path_map_finds_by_keys() {
    let mut map = PathMap::new();
    assert_eq!(map.get(&VPath::new("a")), None);
    assert_eq!(map.insert(VPath::new("a"), 1), None);
    assert_eq!(map.insert(VPath::new("a").extend("b"), 2), None);
    assert_eq!(map.get(&VPath::new("a")), Some(1));
    assert_eq!(map.get(&VPath::new("a").extend("b")), Some(2));
    assert_eq!(map.get(&VPath::new("b")), None);
}

#[test]
fn path_map_insert_replaces() {
    let mut map = PathMap::new();
    assert_eq!(map.insert(VPath::new("a"), 1), None);
    assert_eq!(map.insert(VPath::new("b"), 2), None);
    assert_eq!(map.insert(VPath::new("a"), 3), Some(1));
    assert_eq!(map.get(&VPath::new("a")), Some(3));
    assert_eq!(map.get(&VPath::new("b")), Some(2));
}

#[test]
fn path_map_clear_empties() {
    let mut map = PathMap::new();
    map.insert(VPath::new("a"), 1);
    map.clear();
    assert_eq!(map.get(&VPath::new("a")), None);
    assert_eq!(map.insert(VPath::new("a"), 2), None);
}

#[test]
fn path_map_holds_many_paths() {
    let mut map = PathMap::new();
    let root = VPath::new("root");
    let mut n: u32 = 0;
    while n < 500 {
        let path = root.extend(&format!("k{}", n));
        assert_eq!(map.insert(path, n), None);
        n += 1;
    }
    n = 0;
    while n < 500 {
        let path = VPath::new("root").extend(&format!("k{}", n));
        assert_eq!(map.get(&path), Some(n));
        assert_eq!(map.get(&VPath::new(&format!("k{}", n))), None);
        n += 1;
    }
    assert_eq!(map.insert(VPath::new("root").extend("k7"), 1007), Some(7));
    assert_eq!(map.get(&root.extend("k7")), Some(1007));
    assert_eq!(map.get(&root.extend("k8")), Some(8));
}
