use vrc_oscquery::node::{Access, OscNode};
use vrc_oscquery::path::{parent_path, path_name, split_path, trim_path};

fn child<'a>(n: &'a OscNode, key: &str) -> Option<&'a OscNode> {
    n.contents.iter().find(|(k, _)| k == key).map(|(_, c)| c)
}

fn at<'a>(root: &'a OscNode, segs: &[&str]) -> Option<&'a OscNode> {
    let mut cur = root;
    for s in segs {
        cur = child(cur, s)?;
    }
    Some(cur)
}

fn count(n: &OscNode) -> usize {
    1 + n.contents.iter().map(|(_, c)| count(c)).sum::<usize>()
}

fn assert_container(n: &OscNode, path: &str) {
    assert_eq!(n.full_path, path);
    assert!(matches!(n.access, Some(Access::NoAccess)));
    assert!(n.typetag.is_none());
    assert!(n.value.is_none());
}

#[test]
fn ensure_path_creates_each_prefix_once() {
    let mut root = OscNode::new_container("/");
    OscNode::ensure_path(&mut root, "/a/b/c");
    assert_eq!(count(&root), 4);
    assert_container(at(&root, &["a"]).unwrap(), "/a");
    assert_container(at(&root, &["a", "b"]).unwrap(), "/a/b");
    assert_container(at(&root, &["a", "b", "c"]).unwrap(), "/a/b/c");
}

#[test]
fn ensure_path_twice_is_once() {
    let mut once = OscNode::new_container("/");
    OscNode::ensure_path(&mut once, "/a/b/c");
    let mut twice = OscNode::new_container("/");
    OscNode::ensure_path(&mut twice, "/a/b/c");
    OscNode::ensure_path(&mut twice, "/a/b/c");
    assert_eq!(format!("{:?}", once), format!("{:?}", twice));
}

#[test]
fn ensure_path_keeps_siblings() {
    let mut root = OscNode::new_container("/");
    OscNode::ensure_path(&mut root, "/a/x");
    OscNode::ensure_path(&mut root, "/a/y");
    assert_eq!(count(&root), 4);
    assert_eq!(at(&root, &["a"]).unwrap().contents.len(), 2);
}

#[test]
fn ensure_path_root_is_unchanged() {
    let mut root = OscNode::new_container("/");
    OscNode::ensure_path(&mut root, "/");
    assert_eq!(count(&root), 1);
}

#[test]
fn ensure_path_ignores_outer_slashes() {
    let mut root = OscNode::new_container("/");
    OscNode::ensure_path(&mut root, "//a/b//");
    assert_container(at(&root, &["a", "b"]).unwrap(), "/a/b");
    assert_eq!(count(&root), 3);
}

#[test]
fn add_method_builds_ancestors() {
    let mut root = OscNode::new_container("/");
    OscNode::add_method(&mut root, "/avatar/parameters/Foo", Access::ReadWrite, "f");
    let m = at(&root, &["avatar", "parameters", "Foo"]).unwrap();
    assert_eq!(m.full_path, "/avatar/parameters/Foo");
    assert_eq!(m.typetag.as_deref(), Some("f"));
    assert!(matches!(m.access, Some(Access::ReadWrite)));
    assert_container(at(&root, &["avatar"]).unwrap(), "/avatar");
    assert_container(at(&root, &["avatar", "parameters"]).unwrap(), "/avatar/parameters");
}

#[test]
fn add_method_replaces_existing_entry() {
    let mut root = OscNode::new_container("/");
    OscNode::ensure_path(&mut root, "/a/b/c");
    OscNode::add_method(&mut root, "/a/b", Access::Read, "i");
    let m = at(&root, &["a", "b"]).unwrap();
    assert_eq!(m.typetag.as_deref(), Some("i"));
    assert!(m.contents.is_empty());
    assert_eq!(count(&root), 3);
}

#[test]
fn add_method_at_top_level() {
    let mut root = OscNode::new_container("/");
    OscNode::add_method(&mut root, "/volume", Access::Write, "f");
    assert_eq!(root.contents.len(), 1);
    assert_eq!(root.contents[0].0, "volume");
    assert!(matches!(root.contents[0].1.access, Some(Access::Write)));
}

#[test]
fn path_helpers() {
    assert_eq!(path_name("/"), None);
    assert_eq!(path_name("/a/b/c").as_deref(), Some("c"));
    assert_eq!(path_name("/a/b/").as_deref(), Some("b"));
    assert_eq!(parent_path("/a/b/c"), "/a/b");
    assert_eq!(parent_path("/a"), "/");
    assert_eq!(parent_path("a"), "/");
    assert_eq!(trim_path("//a/b//"), "a/b");
    assert_eq!(split_path("a//b"), vec!["a".to_string(), String::new(), "b".to_string()]);
    assert_eq!(split_path(""), vec![String::new()]);
}

#[test]
fn access_codes() {
    assert_eq!(Access::NoAccess.code(), 0);
    assert_eq!(Access::Read.code(), 1);
    assert_eq!(Access::Write.code(), 2);
    assert_eq!(Access::ReadWrite.code(), 3);
}

#[test]
fn ensure_path_returns_the_node() {
    let mut root = OscNode::new_container("/");
    let n = OscNode::ensure_path(&mut root, "/a/b");
    assert_eq!(n.full_path, "/a/b");
    n.value = Some("1".to_string());
    assert_eq!(at(&root, &["a", "b"]).unwrap().value.as_deref(), Some("1"));
    let r = OscNode::ensure_path(&mut root, "/");
    assert_eq!(r.full_path, "/");
    assert_eq!(r.contents.len(), 1);
}

#[test]
fn second_method_keeps_first() {
    let mut root = OscNode::new_container("/");
    OscNode::add_method(&mut root, "/avatar/parameters/Foo", Access::ReadWrite, "f");
    OscNode::add_method(&mut root, "/avatar/parameters/Bar", Access::Read, "i");
    let foo = at(&root, &["avatar", "parameters", "Foo"]).unwrap();
    assert_eq!(foo.typetag.as_deref(), Some("f"));
    assert_eq!(at(&root, &["avatar", "parameters", "Bar"]).unwrap().typetag.as_deref(), Some("i"));
    assert_eq!(count(&root), 5);
}
