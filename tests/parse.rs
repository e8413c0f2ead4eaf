use densky_core::container::WalkerContainer;
use densky_core::discover::{http_discover, walker_tree_discover};
use densky_core::importer::{import, import_filename, new_import_hash};
use densky_core::leaf::HttpLeaf;
use densky_core::options::CompileContext;
use densky_core::parser::{http_parse, HTTPMethod, HttpHandler, HttpParseError};
use densky_core::paths::{join_paths, normalize_path, relative_path};
use densky_core::text::decimal_string;
use densky_core::tree::HttpTree;
use densky_core::url_to_matcher::{UrlMatcher, UrlMatcherSegment};
use densky_core::views::{with_extension, ViewLeaf};

#[test]
fn named_handler_round_trip() {
    let (hs, _) = http_parse("export function GET(req) { return 1; }".to_string(), "f.ts".to_string()).unwrap();
    assert_eq!(
        hs,
        vec![HttpHandler {
            method: HTTPMethod::GET,
            body: "return 1;".to_string(),
            req_param: Some("req".to_string()),
        }]
    );
}

#[test]
fn default_handler_round_trip() {
    let (hs, rest) = http_parse("export default (req) => { return 2; }".to_string(), "f.ts".to_string()).unwrap();
    assert_eq!(hs.len(), 1);
    assert_eq!(hs[0].method, HTTPMethod::ANY);
    assert_eq!(hs[0].body, "return 2;");
    assert_eq!(hs[0].req_param, Some("req".to_string()));
    assert_eq!(rest, "");
}

#[test]
fn nested_braces_close_at_outer_brace() {
    let src = "export function POST(req) { const o = { a: 1 }; return o; }\nconst after = 1;";
    let (hs, rest) = http_parse(src.to_string(), "f.ts".to_string()).unwrap();
    assert_eq!(hs.len(), 1);
    assert_eq!(hs[0].method, HTTPMethod::POST);
    assert_eq!(hs[0].body, "const o = { a: 1 }; return o;");
    assert_eq!(rest, "\nconst after = 1;");
}

#[test]
fn several_handlers_in_order() {
    let src = "const x = 1;\nexport const patch = async (r) => { return x; }\nexport async function DELETE() { return 3; }\n";
    let (hs, rest) = http_parse(src.to_string(), "f.ts".to_string()).unwrap();
    assert_eq!(hs.len(), 2);
    assert_eq!(hs[0].method, HTTPMethod::PATCH);
    assert_eq!(hs[0].req_param, Some("r".to_string()));
    assert_eq!(hs[1].method, HTTPMethod::DELETE);
    assert_eq!(hs[1].req_param, None);
    assert_eq!(rest, "const x = 1;\n\n\n");
}

#[test]
fn short_file_is_empty() {
    assert_eq!(
        http_parse("".to_string(), "f.ts".to_string()),
        Err(HttpParseError::Empty("f.ts".to_string()))
    );
    assert_eq!(
        http_parse("0123456789".to_string(), "f.ts".to_string()),
        Err(HttpParseError::Empty("f.ts".to_string()))
    );
}

#[test]
fn file_without_handlers_is_empty() {
    assert_eq!(
        http_parse("const value = 12345;".to_string(), "g.ts".to_string()),
        Err(HttpParseError::Empty("g.ts".to_string()))
    );
}

#[test]
fn unterminated_body_is_invalid() {
    let r = http_parse("export function GET(req) { if (x) { return 1; }".to_string(), "h.ts".to_string());
    assert!(matches!(r, Err(HttpParseError::InvalidSyntax(p, _)) if p == "h.ts"));
}

#[test]
fn unknown_method_is_invalid() {
    let r = http_parse("export function helper(req) { return 1; }".to_string(), "h.ts".to_string());
    assert!(matches!(r, Err(HttpParseError::InvalidSyntax(p, _)) if p == "h.ts"));
}

#[test]
fn method_names_in_any_case() {
    assert_eq!(HTTPMethod::from_string("get".to_string()), Some(HTTPMethod::GET));
    assert_eq!(HTTPMethod::from_string("Options".to_string()), Some(HTTPMethod::OPTIONS));
    assert_eq!(HTTPMethod::from_string("any".to_string()), Some(HTTPMethod::ANY));
    assert_eq!(HTTPMethod::from_string("PUT".to_string()), None);
}

#[test]
fn handler_code_binds_and_guards() {
    let leaf = HttpLeaf::new("/a".to_string(), "/r/a.ts".to_string(), "/o/a.ts".to_string());
    let (code, _) = leaf
        .get_handlers("export function GET(req) { return 1; }".to_string(), "a.ts".to_string())
        .unwrap();
    assert_eq!(
        code,
        "if (__req_param__.method == \"GET\") {\n        let req = __req_param__;\nreturn 1;\n      }"
    );
    let (code, _) = leaf
        .get_handlers("export default function (__req_param__) { return 2; }".to_string(), "a.ts".to_string())
        .unwrap();
    assert_eq!(code, "return 2;");
}

#[test]
fn import_resolution_against_output() {
    let leaf = HttpLeaf {
        path: "/a/b".to_string(),
        rel_path: "".to_string(),
        file_path: "/root/routes/a/b.ts".to_string(),
        output_path: "/root/out/a/b.ts".to_string(),
        content: None,
    };
    assert_eq!(leaf.resolve_import("../utils.ts"), Some("../../routes/utils.ts".to_string()));
    assert_eq!(leaf.resolve_import("/root/lib/x.ts"), Some("../../lib/x.ts".to_string()));
}

#[test]
fn malformed_imports() {
    let mut leaf = HttpLeaf::new("/a".to_string(), "/r/a.ts".to_string(), "/o/a.ts".to_string());
    leaf.rel_path = "a".to_string();
    leaf.content = Some("import thing and more \"x\"".to_string());
    assert!(matches!(leaf.get_imports(), Err(HttpParseError::InvalidSyntax(p, _)) if p == "a"));
    leaf.content = Some("import thing from \"x".to_string());
    assert!(matches!(leaf.get_imports(), Err(HttpParseError::InvalidSyntax(p, _)) if p == "a"));
    leaf.content = None;
    assert_eq!(leaf.get_imports(), Err(HttpParseError::Empty("a".to_string())));
}

#[test]
fn leaf_parts() {
    let mut leaf = HttpLeaf::new("/a".to_string(), "/r/a.ts".to_string(), "/o/a.ts".to_string());
    leaf.content = Some("import m from \"mod\";\nconst k = 1;\nexport function GET() { return k; }".to_string());
    let (imports, handlers, content) = leaf.get_parts("/r").unwrap();
    assert_eq!(imports, "import m from \"mod\"");
    assert_eq!(handlers, "if (__req_param__.method == \"GET\") {\n        return k;\n      }");
    assert_eq!(content, ";\nconst k = 1;\n");
    leaf.content = Some("import m from \"mod\";\n// nothing here".to_string());
    assert_eq!(leaf.get_parts("/r"), Err(HttpParseError::Empty("a.ts".to_string())));
}

#[test]
fn matcher_without_variables() {
    let m = UrlMatcher::new("users/posts".to_string());
    assert!(!m.has_variables);
    assert_eq!(m.serial_decl(), "");
    assert_eq!(m.start_decl("req"), "req.__accumulator__.path.startsWith('users/posts')");
    assert_eq!(m.exact_decl("req"), "req.__accumulator__.segments.length === 0");
    assert_eq!(
        m.update_decl("req"),
        "req.__accumulator__.segments = req.__accumulator__.segments.slice(2);\nreq.__accumulator__.path = req.__accumulator__.segments.join(\"/\");"
    );
}

#[test]
fn matcher_with_variables() {
    let m = UrlMatcher::new("users/$id/posts/$post".to_string());
    assert!(m.has_variables);
    assert!(m.segments[1].is_var());
    assert!(m.segments[0].is_static());
    let serial = m.serial_decl();
    assert!(serial.starts_with("const __matcher_serial = [{ raw: \"users\", isVar: false },{ raw: \"$id\", isVar: true, varname: \"id\" },"));
    assert_eq!(serial.matches("const __matcher_serial").count(), 1);
    assert_eq!(serial.matches("const __matcher_matcher_EXACT").count(), 1);
    assert_eq!(serial.matches("const __matcher_matcher_START").count(), 1);
    assert_eq!(
        m.start_decl("req"),
        "__matcher_matcher_START(req.__accumulator__.segments, __matcher_serial, req.params, new Map())"
    );
}

#[test]
fn matcher_root_consumes_one_less() {
    let m = UrlMatcher::new("/".to_string());
    assert!(m.update_decl("r").contains(".slice(1);"));
    assert_eq!(UrlMatcherSegment::Var("id".to_string()).to_json(), "{ raw: \"$id\", isVar: true, varname: \"id\" }");
    assert_eq!(UrlMatcherSegment::Static("a".to_string()).to_json(), "{ raw: \"a\", isVar: false }");
}

#[test]
fn path_joining() {
    assert_eq!(join_paths("../utils/foo.ts", "/project/path/routes"), "/project/path/utils/foo.ts");
    assert_eq!(join_paths("./a/./b", "/base"), "/base/a/b");
    assert_eq!(join_paths("/abs/x", "/base"), "/abs/x");
    assert_eq!(join_paths("_index", "/out/http"), "/out/http/_index");
    assert_eq!(join_paths("../../..", "/a"), "/");
    assert_eq!(join_paths("x", "../a"), "../a/x");
    assert_eq!(join_paths("x", "./a/../b"), "./a/../b/x");
    assert_eq!(normalize_path("a/../b/./c"), "/b/c");
    assert_eq!(normalize_path(""), "/");
}

#[test]
fn relative_paths_start_with_dot() {
    assert_eq!(relative_path("/a/b/c.ts", "/a"), Some("./b/c.ts".to_string()));
    assert_eq!(relative_path("/a/c.ts", "/a/b"), Some("../c.ts".to_string()));
    assert_eq!(relative_path("x", "/a"), None);
}

#[test]
fn import_cache_hash() {
    assert_eq!(import_filename("./a.ts", "7"), "./a.ts?cache_hash=7");
    assert_eq!(import_filename("mod", "7"), "mod");
    assert_eq!(import_filename("", "7"), "");
    assert_eq!(import("x", "../b.ts", "3"), "import x from \"../b.ts?cache_hash=3\";");
    let mut h = "0".to_string();
    new_import_hash(&mut h);
    assert!(!h.is_empty());
    assert!(h.chars().all(|c| c.is_ascii_digit()));
    assert_ne!(h, "0");
    assert_eq!(decimal_string(1205), "1205");
    assert_eq!(decimal_string(0), "0");
}

#[test]
fn extensions() {
    assert_eq!(with_extension("/o/views/a.html", "ts"), "/o/views/a.ts");
    assert_eq!(with_extension("a/b.ts", ""), "a/b");
    assert_eq!(with_extension("a/.hidden", "ts"), "a/.hidden.ts");
    assert_eq!(with_extension("a/noext", "ts"), "a/noext.ts");
    let v = ViewLeaf::from_leaf(HttpLeaf::new("p".to_string(), "/v/a.html".to_string(), "/o/a.html".to_string()));
    assert_eq!(v.output_path(), "/o/a.ts");
    assert_eq!(v.file_path(), "/v/a.html");
}

fn context() -> CompileContext {
    CompileContext {
        output_dir: "/p/.densky".to_string(),
        static_path: "/p/src/static".to_string(),
        static_prefix: "static/".to_string(),
        routes_path: "/p/src/routes".to_string(),
        views_path: "/p/src/views".to_string(),
        verbose: false,
    }
}

#[test]
fn discovery_builds_tree() {
    let ctx = context();
    let entries = vec![
        "/p/src/routes/users/list.ts".to_string(),
        "/p/src/routes/users/$id.ts".to_string(),
        "/p/src/routes/_index.ts".to_string(),
    ];
    let (c, root) = http_discover(&ctx, &entries);
    assert_eq!(root, 1);
    assert!(c.get_tree(1).unwrap().is_root);
    assert_eq!(c.get_leaf(1).unwrap().file_path, "/p/src/routes/users/list.ts");
    assert_eq!(c.get_leaf(3).unwrap().path, "/_index");
    assert_eq!(c.get_output_dir(), "/p/.densky/http");
    assert_eq!(c.leaf_count(), 3);
    let l = c.get_leaf(2).unwrap();
    assert_eq!(l.path, "/users/$id");
    assert_eq!(l.output_path, "/p/.densky/http/users/$id.ts");
    let r = c.get_tree(root).unwrap();
    assert_eq!(r.leaf, Some(3));
    assert_eq!(r.children.len(), 1);
    let users = c.get_tree(r.children[0]).unwrap();
    assert_eq!(users.rel_path, "users");
    assert_eq!(users.children.len(), 2);
    let (c2, _) = walker_tree_discover("views", "/p/src/views", &ctx, &vec![]);
    assert_eq!(c2.leaf_count(), 0);
}

#[test]
fn generated_dispatcher() {
    let mut c = WalkerContainer::new("/o/http");
    let root = c.create_root();
    let mut a = HttpLeaf::new("/a".to_string(), "/r/a.ts".to_string(), "/o/http/a.ts".to_string());
    a.content = Some("export function GET(req) { return 1; }".to_string());
    let a = c.add_leaf(a);
    c.add_child(root, a);
    let mw = HttpLeaf::new("/_middleware".to_string(), "/r/_middleware.ts".to_string(), "/o/http/_middleware.ts".to_string());
    let mw = c.add_leaf(mw);
    c.add_child(root, mw);
    assert_eq!(HttpTree::get_middlewares(&c, 2), vec![mw]);
    let root_file = HttpTree::generate_file(&c, root, "/r").unwrap();
    assert!(root_file.contains("$__child__$0"));
    assert!(root_file.contains("./a.ts"));
    assert!(root_file.contains("export default function"));
    let child_file = HttpTree::generate_file(&c, 2, "/r").unwrap();
    assert!(child_file.contains("startsWith('a')"));
    assert!(child_file.contains("$__middleware__$0"));
    assert!(child_file.contains("\"GET\""));
    let n = c.get_tree(2).unwrap();
    assert_eq!(HttpTree::resolve_import(n, "/o/http/b/c.ts"), Some("./b/c.ts".to_string()));
    assert_eq!(HttpTree::resolve_import(n, "pkg"), Some("pkg".to_string()));
}

#[test]
fn leaf_file_runs_handlers_unguarded() {
    let mut l = HttpLeaf::new("/_fallback".to_string(), "/r/_fallback.ts".to_string(), "/o/_fallback.ts".to_string());
    l.content = Some("export default function (req) { return 404; }".to_string());
    let out = l.generate_file("/r").unwrap();
    let raw = "\n\n;export default function(__req_param__) {\n  let req = __req_param__;\nreturn 404;\n}";
    assert_eq!(out, raw);
}

#[test]
fn leaf_without_source_fails_node() {
    let mut c = WalkerContainer::new("/o/http");
    let root = c.create_root();
    let a = c.add_leaf(HttpLeaf::new("/a".to_string(), "/r/a.ts".to_string(), "/o/http/a.ts".to_string()));
    c.add_child(root, a);
    let r = HttpTree::generate_file(&c, 2, "/r");
    assert!(matches!(r, Err(HttpParseError::Empty(_))));
}

#[test]
fn error_messages() {
    assert_eq!(
        HttpParseError::Empty("a.ts".to_string()).message(),
        "[a.ts]The file is empty or very short (less than 10 characters)"
    );
    assert_eq!(
        HttpParseError::InvalidSyntax("a.ts".to_string(), "bad".to_string()).message(),
        "[a.ts]bad"
    );
    assert_eq!(HttpParseError::CurrentDir("gone".to_string()).message(), "gone");
}

#[test]
fn unterminated_default_body_is_invalid() {
    let r = http_parse("export default (req) => { if (x) { return 2; }".to_string(), "d.ts".to_string());
    assert_eq!(
        r,
        Err(HttpParseError::InvalidSyntax("d.ts".to_string(), "Unbalanced braces in handler body".to_string()))
    );
}
