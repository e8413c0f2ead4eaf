use densky_core::container::{WalkerContainer, WalkerTree};
use densky_core::leaf::HttpLeaf;
use densky_core::url_to_matcher::{UrlMatcher, UrlMatcherSegment};

fn raw_segments(m: &UrlMatcher) -> Vec<String> {
    m.segments
        .iter()
        .map(|s| match s {
            UrlMatcherSegment::Static(raw) => raw.clone(),
            UrlMatcherSegment::Var(name) => format!("${}", name),
        })
        .collect()
}

#[test]
fn separing_by_parts() {
    let by_parts = raw_segments(&UrlMatcher::new("a/b/c/d".to_string()));
    assert_eq!(by_parts.as_slice(), &["a", "b", "c", "d"]);

    let by_parts = raw_segments(&UrlMatcher::new("/a/b/c/d/".to_string()));
    assert_eq!(by_parts.as_slice(), &["", "a", "b", "c", "d", ""]);
}

#[test]
fn get_common_path() {
    let tree_1 = WalkerTree::new_leaf(&HttpLeaf {
        path: "".to_string(),
        rel_path: "a/b/c".to_string(),
        file_path: "".into(),
        output_path: "".into(),
        content: None,
    });
    let tree_2 = WalkerTree::new_leaf(&HttpLeaf {
        path: "".to_string(),
        rel_path: "a/b/d".to_string(),
        file_path: "".into(),
        output_path: "".into(),
        content: None,
    });

    assert_eq!(
        tree_1.get_common_path(tree_2.rel_path),
        Some("a/b".to_string())
    );
}

#[test]
fn resolve_import() {
    let leaf = HttpLeaf {
        path: "".to_string(),
        rel_path: "".to_string(),
        file_path: "/project/path/routes/file1.ts".into(),
        output_path: "/project/path/.densky/http/file1.ts".into(),
        content: None,
    };

    assert_eq!(
        leaf.resolve_import("../utils/foo.ts"),
        Some("../../utils/foo.ts".to_string())
    );
    assert_eq!(leaf.resolve_import("module"), Some("module".to_string()));
}

#[test]
fn get_import() {
    let leaf = HttpLeaf {
        path: "".to_string(),
        rel_path: "".to_string(),
        file_path: "/project/path/routes/file1.ts".into(),
        output_path: "/project/path/.densky/http/file1.ts".into(),
        content: Some(
            "
import toString from \"module-a\";
import { a, b } from \"../utils/foo.ts\";
import \"./side.ts\"

function get_add() {
    return toString(a + b);
}
"
            .to_string(),
        ),
    };

    assert_eq!(leaf.get_imports().ok(), Some(("import toString from \"module-a\";\nimport { a, b } from \"../../utils/foo.ts\";\nimport \"../../routes/side.ts\"".to_string(), "\n\nfunction get_add() {\n    return toString(a + b);\n}\n".to_string())));
}

fn leaf(path: &str) -> HttpLeaf {
    HttpLeaf::new(
        path.to_string(),
        format!("/src/routes{}.ts", path),
        format!("/out/http{}.ts", path),
    )
}

fn arena() -> (WalkerContainer, usize) {
    let mut c = WalkerContainer::new("/out/http");
    let root = c.create_root();
    (c, root)
}

fn insert(c: &mut WalkerContainer, root: usize, path: &str) -> usize {
    let id = c.add_leaf(leaf(path));
    c.add_child(root, id);
    id
}

fn child_rels(c: &WalkerContainer, id: usize) -> Vec<String> {
    c.get_tree(id)
        .unwrap()
        .children
        .iter()
        .map(|&k| c.get_tree(k).unwrap().rel_path.clone())
        .collect()
}

#[test]
fn merge_creates_container_at_common_prefix() {
    let (mut c, root) = arena();
    insert(&mut c, root, "/a/b/c");
    insert(&mut c, root, "/a/b/d");
    assert_eq!(child_rels(&c, root), vec!["a/b".to_string()]);
    let k = c.get_tree(root).unwrap().children[0];
    let container = c.get_tree(k).unwrap();
    assert!(container.is_container);
    assert_eq!(container.path, "/a/b");
    assert_eq!(child_rels(&c, k), vec!["c".to_string(), "d".to_string()]);
}

#[test]
fn merge_prefix_same_in_either_order() {
    let (mut c, root) = arena();
    insert(&mut c, root, "/a/b/d");
    insert(&mut c, root, "/a/b/c");
    assert_eq!(child_rels(&c, root), vec!["a/b".to_string()]);
    let k = c.get_tree(root).unwrap().children[0];
    assert_eq!(child_rels(&c, k), vec!["d".to_string(), "c".to_string()]);
}

#[test]
fn pull_into_existing_container() {
    let (mut c, root) = arena();
    insert(&mut c, root, "/a/b");
    insert(&mut c, root, "/a/c");
    insert(&mut c, root, "/a/d");
    let k = c.get_tree(root).unwrap().children[0];
    assert_eq!(child_rels(&c, root), vec!["a".to_string()]);
    assert_eq!(
        child_rels(&c, k),
        vec!["b".to_string(), "c".to_string(), "d".to_string()]
    );
}

#[test]
fn unrelated_routes_are_siblings() {
    let (mut c, root) = arena();
    insert(&mut c, root, "/users");
    insert(&mut c, root, "/posts");
    assert_eq!(
        child_rels(&c, root),
        vec!["users".to_string(), "posts".to_string()]
    );
    let n = c.get_tree(c.get_tree(root).unwrap().children[0]).unwrap();
    assert_eq!(n.leaf, Some(1));
    assert_eq!(c.get_leaf(1).unwrap().rel_path, "users");
}

#[test]
fn index_into_container_sets_its_leaf() {
    let (mut c, root) = arena();
    insert(&mut c, root, "/a/b");
    insert(&mut c, root, "/a/c");
    let before = c.tree_count();
    let idx = insert(&mut c, root, "/a/_index");
    let k = c.get_tree(root).unwrap().children[0];
    assert_eq!(c.tree_count(), before);
    assert_eq!(c.get_tree(k).unwrap().leaf, Some(idx));
    assert_eq!(child_rels(&c, k), vec!["b".to_string(), "c".to_string()]);
    assert_eq!(c.get_tree(k).unwrap().output_path, "/out/http/a/_index.ts");
}

#[test]
fn orphan_index_makes_one_container() {
    let (mut c, root) = arena();
    let idx = insert(&mut c, root, "/x/y/_index");
    assert_eq!(c.tree_count(), 2);
    assert_eq!(child_rels(&c, root), vec!["x/y".to_string()]);
    let k = c.get_tree(root).unwrap().children[0];
    assert_eq!(c.get_tree(k).unwrap().leaf, Some(idx));
    assert!(c.get_tree(k).unwrap().is_container);
}

#[test]
fn root_index_sets_root_leaf() {
    let (mut c, root) = arena();
    let idx = insert(&mut c, root, "/_index");
    assert_eq!(c.get_root().unwrap().leaf, Some(idx));
    assert_eq!(c.tree_count(), 1);
}

#[test]
fn fallback_and_middleware_conventions() {
    let (mut c, root) = arena();
    let f = insert(&mut c, root, "/_fallback");
    let m = insert(&mut c, root, "/_middleware");
    let r = c.get_root().unwrap();
    assert_eq!(r.fallback, Some(f));
    assert_eq!(r.middleware, Some(m));
    assert_eq!(c.get_leaf(f).unwrap().rel_path, "<FALLBACK>");
    assert_eq!(c.get_leaf(m).unwrap().rel_path, "<MIDDLEWARE>");
    assert!(r.children.is_empty());
}

#[test]
fn nested_fallback_reaches_its_directory() {
    let (mut c, root) = arena();
    insert(&mut c, root, "/a/b");
    insert(&mut c, root, "/a/c");
    let f = insert(&mut c, root, "/a/_fallback");
    let k = c.get_tree(root).unwrap().children[0];
    assert_eq!(c.get_tree(k).unwrap().fallback, Some(f));
}

#[test]
fn other_underscore_names_are_ignored() {
    let (mut c, root) = arena();
    insert(&mut c, root, "/_private");
    insert(&mut c, root, "/a/_helper");
    assert_eq!(c.tree_count(), 1);
    assert!(c.get_root().unwrap().children.is_empty());
}

#[test]
fn same_path_as_existing_node_takes_its_leaf() {
    let (mut c, root) = arena();
    insert(&mut c, root, "/a/b");
    let a = insert(&mut c, root, "/a");
    assert_eq!(child_rels(&c, root), vec!["a".to_string()]);
    let k = c.get_tree(root).unwrap().children[0];
    assert_eq!(c.get_tree(k).unwrap().leaf, Some(a));
    assert_eq!(child_rels(&c, k), vec!["b".to_string()]);
}

#[test]
fn arena_ids_count_from_one() {
    let (mut c, root) = arena();
    assert_eq!(root, 1);
    assert_eq!(c.get_root_id(), Some(1));
    assert_eq!(c.id_tree(), 2);
    assert_eq!(c.id_leaf(), 1);
    assert_eq!(c.get_root().unwrap().output_path, "/out/http/_index");
    assert!(c.get_tree(0).is_none());
    assert!(c.get_tree(2).is_none());
    let id = c.add_tree(WalkerTree::new());
    assert_eq!(id, 2);
    assert_eq!(c.get_tree(2).unwrap().id, 2);
    assert_eq!(c.get_output_dir(), "/out/http");
}

#[test]
fn container_takes_sibling_place() {
    let (mut c, root) = arena();
    insert(&mut c, root, "/u");
    insert(&mut c, root, "/c/x");
    insert(&mut c, root, "/c/y");
    assert_eq!(child_rels(&c, root), vec!["u".to_string(), "c".to_string()]);
    let k = c.get_tree(root).unwrap().children[1];
    let container = c.get_tree(k).unwrap();
    assert!(container.is_container);
    assert_eq!(container.path, "/c");
    assert_eq!(container.parent, Some(root));
    assert_eq!(child_rels(&c, k), vec!["x".to_string(), "y".to_string()]);
}

#[test]
fn index_pulled_into_existing_container() {
    let (mut c, root) = arena();
    insert(&mut c, root, "/c/x");
    insert(&mut c, root, "/c/y");
    let before = c.tree_count();
    let f = insert(&mut c, root, "/c/_middleware");
    let i = insert(&mut c, root, "/c/_index");
    let k = c.get_tree(root).unwrap().children[0];
    assert_eq!(c.tree_count(), before);
    assert_eq!(c.get_tree(k).unwrap().middleware, Some(f));
    assert_eq!(c.get_tree(k).unwrap().leaf, Some(i));
    assert_eq!(c.get_root().unwrap().output_path, "/out/http/_index");
}
