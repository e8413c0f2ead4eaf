use vstd::prelude::*;
use crate::container::{WalkerContainer, WalkerTree};
use crate::leaf::{error_agrees, parts_spec, HttpLeaf, PartsOutcome};
use crate::parser::{opt_view, HttpParseError};
use crate::paths::{parent_dir, parent_of, relative_path, relative_spec};
use crate::text::{chars_of, decimal, decimal_string, join_sep, join_strings};
use crate::container::{child_ok, refs_ok};
use crate::url_to_matcher::UrlMatcher;

verus! {

/// An absolute import path made relative to the directory of the file at
/// `out`; other paths stay.
pub open spec fn import_target(out: Seq<char>, path: Seq<char>) -> Option<Seq<char>> {
    if path.len() > 0 && path[0] == '/' {
        match parent_of(out) {
            Some(d) => relative_spec(path, d),
            None => None,
        }
    } else {
        Some(path)
    }
}

/// Where an import of `path` points from the file at `out`, the path itself
/// where no relative form can be had.
pub open spec fn import_path(out: Seq<char>, path: Seq<char>) -> Seq<char> {
    match import_target(out, path) {
        Some(p) => p,
        None => path,
    }
}

/// The ids of the middleware leaves that guard node `id`: those of its
/// ancestors, root first, then its own; `fuel` bounds the climb.
pub open spec fn chain(t: Seq<WalkerTree>, id: int, fuel: nat) -> Seq<usize>
    decreases fuel,
{
    if fuel == 0 || !(1 <= id <= t.len()) {
        Seq::empty()
    } else {
        let n = t[id - 1];
        let up = match n.parent {
            Some(p) => chain(t, p as int, (fuel - 1) as nat),
            None => Seq::empty(),
        };
        match n.middleware {
            Some(m) => up.push(m),
            None => up,
        }
    }
}

/// One import line of generated code.
pub open spec fn import_line(name: Seq<char>, i: nat, path: Seq<char>) -> Seq<char> {
    "import "@ + name + decimal(i) + " from \""@ + path + "\";"@
}

/// One call of generated code that returns what the callee answered.
pub open spec fn call_line(name: Seq<char>, i: nat) -> Seq<char> {
    "{ const _ = "@ + name + decimal(i) + "(__req_param__); if (_) return _; };"@
}

/// The imports of the node's children.
pub open spec fn child_imports(t: Seq<WalkerTree>, n: WalkerTree) -> Seq<char> {
    join_sep(
        Seq::new(
            n.children@.len(),
            |i: int| import_line("$__child__$"@, i as nat, import_path(n.output_path@, t[n.children@[i] - 1].output_path@)),
        ),
        "\n"@,
    )
}

/// The imports of the middleware leaves `ms`.
pub open spec fn middleware_imports(l: Seq<HttpLeaf>, n: WalkerTree, ms: Seq<usize>) -> Seq<char> {
    join_sep(
        Seq::new(
            ms.len(),
            |i: int| import_line("$__middleware__$"@, i as nat, import_path(n.output_path@, l[ms[i] - 1].output_path@)),
        ),
        "\n"@,
    )
}

/// `count` calls, numbered from zero.
pub open spec fn calls(name: Seq<char>, count: nat) -> Seq<char> {
    join_sep(Seq::new(count, |i: int| call_line(name, i as nat)), "\n"@)
}

/// The import of the node's fallback leaf.
pub open spec fn fallback_import(l: Seq<HttpLeaf>, n: WalkerTree) -> Seq<char> {
    match n.fallback {
        Some(f) => "import $__fallback__$ from \""@ + import_path(n.output_path@, l[f - 1].output_path@) + "\";"@,
        None => Seq::empty(),
    }
}

/// The dispatcher module of a node, before formatting: imports, the
/// matcher's helpers, the rest of the leaf's source, then the dispatch
/// function. Where the leaf has handlers they run, after the middleware,
/// when the request is fully matched; then each child is asked, then the
/// fallback. Below the root the whole is guarded by the node's prefix.
pub open spec fn dispatch_text(
    t: Seq<WalkerTree>,
    l: Seq<HttpLeaf>,
    n: WalkerTree,
    ms: Seq<usize>,
    m: UrlMatcher,
    parts: (Seq<char>, Seq<char>, Seq<char>),
) -> Seq<char> {
    let (leaf_imports, handlers, content) = parts;
    let imports = "import $_Densky_Runtime_$ from \"densky/runtime\";\n"@ + fallback_import(l, n) + "\n"@
        + child_imports(t, n) + "\n"@ + middleware_imports(l, n, ms) + leaf_imports;
    let top = imports + "\n"@ + m.serial_spec() + "\n"@ + content;
    let own = if handlers.len() == 0 {
        Seq::empty()
    } else {
        "if ("@ + m.exact_spec("__req_param__"@) + ") { "@ + calls("$__middleware__$"@, ms.len()) + " "@
            + handlers + " ;return new Response(401); } "@
    };
    let fallback_call = if n.fallback is Some {
        "return $__fallback__$(__req_param__);"@
    } else {
        Seq::empty()
    };
    let body = own + "\n"@ + calls("$__child__$"@, n.children@.len()) + "\n"@ + fallback_call;
    let inner = if n.is_root {
        body
    } else {
        "if ("@ + m.start_spec("__req_param__"@) + ") { "@ + m.update_spec("__req_param__"@) + " "@ + body
            + " }"@
    };
    top + "\n;export default function(__req_param__) {\n  "@ + inner + "\n}"@
}

/// Generates the dispatcher module of each node.
pub struct HttpTree;

fn import_line_exec(name: &str, i: usize, path: &str) -> (r: String)
    ensures
        r@ == import_line(name@, i as nat, path@),
{
    let mut r = String::from_str("import ");
    r.append(name);
    r.append(decimal_string(i as u64).as_str());
    r.append(" from \"");
    r.append(path);
    r.append("\";");
    r
}

fn call_line_exec(name: &str, i: usize) -> (r: String)
    ensures
        r@ == call_line(name@, i as nat),
{
    let mut r = String::from_str("{ const _ = ");
    r.append(name);
    r.append(decimal_string(i as u64).as_str());
    r.append("(__req_param__); if (_) return _; };");
    r
}

fn calls_exec(name: &str, count: usize) -> (r: String)
    ensures
        r@ == calls(name@, count as nat),
{
    let mut lines: Vec<String> = Vec::new();
    let mut i: usize = 0;
    while i < count
        invariant
            i <= count,
            lines@.len() == i,
            forall|k: int| 0 <= k < i ==> #[trigger] lines@[k]@ == call_line(name@, k as nat),
        decreases count - i,
    {
        lines.push(call_line_exec(name, i));
        i = i + 1;
    }
    let r = join_strings(&lines, "\n");
    proof {
        assert(Seq::new(lines@.len(), |k: int| lines@[k]@) =~= Seq::new(count as nat, |k: int| call_line(name@, k as nat)));
    }
    r
}

impl HttpTree {
    /// Makes an absolute import path relative to the node's output
    /// directory; other paths stay.
    pub fn resolve_import(this: &WalkerTree, path: &str) -> (r: Option<String>)
        ensures
            opt_view(r) == import_target(this.output_path@, path@),
    {
        let p = chars_of(path);
        if p.len() > 0 && p[0] == '/' {
            match parent_dir(this.output_path.as_str()) {
                Some(d) => relative_path(path, d.as_str()),
                None => None,
            }
        } else {
            Some(String::from_str(path))
        }
    }

    fn import_path_exec(this: &WalkerTree, path: &str) -> (r: String)
        ensures
            r@ == import_path(this.output_path@, path@),
    {
        match Self::resolve_import(this, path) {
            Some(p) => p,
            None => String::from_str(path),
        }
    }

    /// The middleware leaves that guard node `id`: its ancestors', root
    /// first, then its own.
    pub fn get_middlewares(container: &WalkerContainer, id: usize) -> (r: Vec<usize>)
        ensures
            r@ == chain(container.trees(), id as int, container.trees().len()),
    {
        Self::chain_exec(container, id, container.tree_count())
    }

    fn chain_exec(container: &WalkerContainer, id: usize, fuel: usize) -> (r: Vec<usize>)
        ensures
            r@ == chain(container.trees(), id as int, fuel as nat),
        decreases fuel,
    {
        if fuel == 0 {
            return Vec::new();
        }
        match container.get_tree(id) {
            None => Vec::new(),
            Some(n) => {
                let mut up = match n.parent {
                    Some(p) => Self::chain_exec(container, p, fuel - 1),
                    None => Vec::new(),
                };
                match n.middleware {
                    Some(m) => {
                        up.push(m);
                    },
                    None => {},
                }
                up
            },
        }
    }

    /// The dispatcher module of node `n`, before formatting (see
    /// `dispatch_text`), from its middleware `ms`, its matcher and its
    /// leaf's parts.
    pub fn compose(
        container: &WalkerContainer,
        n: &WalkerTree,
        ms: &Vec<usize>,
        m: &UrlMatcher,
        leaf_imports: &String,
        handlers: &String,
        content: &String,
    ) -> (r: String)
        requires
            forall|j: int| 0 <= j < n.children@.len() ==> 1 <= #[trigger] n.children@[j] <= container.trees().len(),
            forall|j: int| 0 <= j < ms@.len() ==> 1 <= #[trigger] ms@[j] <= container.leaves().len(),
            n.fallback matches Some(f) ==> 1 <= f <= container.leaves().len(),
        ensures
            r@ == dispatch_text(container.trees(), container.leaves(), *n, ms@, *m, (leaf_imports@, handlers@, content@)),
    {
        let t = Ghost(container.trees());
        let l = Ghost(container.leaves());
        let mut fallback = String::new();
        match n.fallback {
            Some(f) => {
                let leaf = container.get_leaf(f).unwrap();
                fallback.append("import $__fallback__$ from \"");
                fallback.append(Self::import_path_exec(n, leaf.output_path.as_str()).as_str());
                fallback.append("\";");
            },
            None => {},
        }
        let mut lines: Vec<String> = Vec::new();
        let mut i: usize = 0;
        while i < n.children.len()
            invariant
                i <= n.children@.len(),
                t@ == container.trees(),
                forall|j: int| 0 <= j < n.children@.len() ==> 1 <= #[trigger] n.children@[j] <= container.trees().len(),
                lines@.len() == i,
                forall|k: int| 0 <= k < i ==> #[trigger] lines@[k]@ == import_line("$__child__$"@, k as nat, import_path(n.output_path@, t@[n.children@[k] - 1].output_path@)),
            decreases n.children.len() - i,
        {
            let child = container.get_tree(n.children[i]).unwrap();
            let path = Self::import_path_exec(n, child.output_path.as_str());
            lines.push(import_line_exec("$__child__$", i, path.as_str()));
            i = i + 1;
        }
        let children = join_strings(&lines, "\n");
        proof {
            assert(Seq::new(lines@.len(), |k: int| lines@[k]@) =~= Seq::new(
                n.children@.len(),
                |k: int| import_line("$__child__$"@, k as nat, import_path(n.output_path@, t@[n.children@[k] - 1].output_path@)),
            ));
        }
        let mut mlines: Vec<String> = Vec::new();
        let mut i: usize = 0;
        while i < ms.len()
            invariant
                i <= ms@.len(),
                l@ == container.leaves(),
                forall|j: int| 0 <= j < ms@.len() ==> 1 <= #[trigger] ms@[j] <= container.leaves().len(),
                mlines@.len() == i,
                forall|k: int| 0 <= k < i ==> #[trigger] mlines@[k]@ == import_line("$__middleware__$"@, k as nat, import_path(n.output_path@, l@[ms@[k] - 1].output_path@)),
            decreases ms.len() - i,
        {
            let leaf = container.get_leaf(ms[i]).unwrap();
            let path = Self::import_path_exec(n, leaf.output_path.as_str());
            mlines.push(import_line_exec("$__middleware__$", i, path.as_str()));
            i = i + 1;
        }
        let middlewares = join_strings(&mlines, "\n");
        proof {
            assert(Seq::new(mlines@.len(), |k: int| mlines@[k]@) =~= Seq::new(
                ms@.len(),
                |k: int| import_line("$__middleware__$"@, k as nat, import_path(n.output_path@, l@[ms@[k] - 1].output_path@)),
            ));
        }
        let mut top = String::from_str("import $_Densky_Runtime_$ from \"densky/runtime\";\n");
        top.append(fallback.as_str());
        top.append("\n");
        top.append(children.as_str());
        top.append("\n");
        top.append(middlewares.as_str());
        top.append(leaf_imports.as_str());
        top.append("\n");
        top.append(m.serial_decl().as_str());
        top.append("\n");
        top.append(content.as_str());
        let own = if handlers.as_str().is_empty() {
            String::new()
        } else {
            let mut o = String::from_str("if (");
            o.append(m.exact_decl("__req_param__").as_str());
            o.append(") { ");
            o.append(calls_exec("$__middleware__$", ms.len()).as_str());
            o.append(" ");
            o.append(handlers.as_str());
            o.append(" ;return new Response(401); } ");
            o
        };
        let mut body = own;
        body.append("\n");
        body.append(calls_exec("$__child__$", n.children.len()).as_str());
        body.append("\n");
        if n.fallback.is_some() {
            body.append("return $__fallback__$(__req_param__);");
        }
        let inner = if n.is_root {
            body
        } else {
            let mut g = String::from_str("if (");
            g.append(m.start_decl("__req_param__").as_str());
            g.append(") { ");
            g.append(m.update_decl("__req_param__").as_str());
            g.append(" ");
            g.append(body.as_str());
            g.append(" }");
            g
        };
        let mut r = top;
        r.append("\n;export default function(__req_param__) {\n  ");
        r.append(inner.as_str());
        r.append("\n}");
        proof {
            assert(r@ =~= dispatch_text(container.trees(), container.leaves(), *n, ms@, *m, (leaf_imports@, handlers@, content@)));
        }
        r
    }

    /// The dispatcher module of node `id`, unformatted. A node without a
    /// leaf has no handlers; a leaf whose source gives no parts fails the
    /// node with that error.
    pub fn generate_file(container: &WalkerContainer, id: usize, cwd: &str) -> (r: Result<String, HttpParseError>)
        requires
            container.wf(),
            1 <= id <= container.trees().len(),
        ensures
            ({
                let t = container.trees();
                let l = container.leaves();
                let n = t[id - 1];
                let ms = chain(t, id as int, t.len());
                let parts = match n.leaf {
                    None => PartsOutcome::Parts(Seq::empty(), Seq::empty(), Seq::empty()),
                    Some(lid) => parts_spec(l[lid - 1], cwd@),
                };
                match parts {
                    PartsOutcome::Parts(a, b, c) => r matches Ok(x) && exists|m: UrlMatcher|
                        #![trigger m.wf()] m.wf() && m.url@ == n.rel_path@ && x@ == dispatch_text(t, l, n, ms, m, (a, b, c)),
                    _ => r matches Err(e) && error_agrees(e, parts),
                }
            }),
    {
        let n = container.get_tree(id).unwrap();
        let ms = Self::get_middlewares(container, id);
        proof {
            lemma_chain_refs(container, id as int, container.trees().len());
            assert forall|j: int| 0 <= j < n.children@.len() implies 1 <= #[trigger] n.children@[j] <= container.trees().len() by {
                assert(child_ok(container.trees(), id - 1, n.children@[j]));
            }
            assert(refs_ok(container.trees()[id - 1], container.trees().len(), container.leaves().len()));
        }
        let m = UrlMatcher::new(n.rel_path.clone());
        let (a, b, c) = match n.leaf {
            None => (String::new(), String::new(), String::new()),
            Some(lid) => match container.get_leaf(lid).unwrap().get_parts(cwd) {
                Err(e) => {
                    return Err(e);
                },
                Ok(p) => p,
            },
        };
        let raw = Self::compose(container, n, &ms, &m, &a, &b, &c);
        let out = raw;
        proof {
            let t = container.trees();
            let l = container.leaves();
            assert(*n == t[id - 1]);
            assert(m.wf() && m.url@ == n.rel_path@ && out@ == dispatch_text(t, l, t[id - 1], ms@, m, (a@, b@, c@)));
            let parts = match n.leaf {
                None => PartsOutcome::Parts(Seq::empty(), Seq::empty(), Seq::empty()),
                Some(lid) => parts_spec(l[lid - 1], cwd@),
            };
            if n.leaf is None {
                assert(a@ =~= Seq::<char>::empty());
                assert(b@ =~= Seq::<char>::empty());
                assert(c@ =~= Seq::<char>::empty());
            }
            assert(parts == PartsOutcome::Parts(a@, b@, c@));
            assert(ms@ == chain(t, id as int, t.len()));
            assert(exists|mm: UrlMatcher| #![trigger mm.wf()] mm.wf() && mm.url@ == t[id - 1].rel_path@ && out@ == dispatch_text(t, l, t[id - 1], chain(t, id as int, t.len()), mm, (a@, b@, c@)));
        }
        Ok(out)
    }
}

/// Every middleware that guards a node is a leaf of the arena.
pub proof fn lemma_chain_refs(c: &WalkerContainer, id: int, fuel: nat)
    requires
        c.wf(),
    ensures
        forall|j: int| 0 <= j < chain(c.trees(), id, fuel).len() ==> 1 <= #[trigger] chain(c.trees(), id, fuel)[j] <= c.leaves().len(),
    decreases fuel,
{
    let t = c.trees();
    if fuel > 0 && 1 <= id <= t.len() {
        let n = t[id - 1];
        assert(refs_ok(t[id - 1], t.len(), c.leaves().len()));
        match n.parent {
            Some(p) => lemma_chain_refs(c, p as int, (fuel - 1) as nat),
            None => {},
        }
        let up = match n.parent {
            Some(p) => chain(t, p as int, (fuel - 1) as nat),
            None => Seq::<usize>::empty(),
        };
        let r = chain(t, id, fuel);
        assert forall|j: int| 0 <= j < r.len() implies 1 <= #[trigger] r[j] <= c.leaves().len() by {
            if j < up.len() {
                assert(r[j] == up[j]);
            }
        }
    }
}

} // verus!
