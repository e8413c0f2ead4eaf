use vstd::prelude::*;
use crate::leaf::HttpLeaf;
use crate::paths::{join_paths, joined};
use crate::text::{
    chars_of, common_path, common_path_of, concat_chars, concat_slash, has_empty, is_text, join,
    join_first, lemma_common_path_bounds, lemma_common_path_symmetric, lemma_join_at, lemma_join_len,
    lemma_join_split, lemma_shared_len_bound, lemma_shared_len_stops, lemma_shared_len_take,
    lemma_split_join, lemma_split_no_slash, no_slash, shared_len, split, split_path, string_of,
    sub_chars, vec_eq, views,
};

verus! {

/// A node of the route tree: the root, a container that groups routes under
/// a shared prefix, or the node of a route.
#[derive(Debug)]
pub struct WalkerTree {
    /// The node's id in its container: its index plus one.
    pub id: usize,
    /// The absolute url path of the node.
    pub path: String,
    /// The url path relative to the parent node.
    pub rel_path: String,
    /// Where the node's generated file goes.
    pub output_path: String,
    /// The parent node's id.
    pub parent: Option<usize>,
    /// The ids of the child nodes.
    pub children: Vec<usize>,
    /// The id of the leaf that gates this subtree.
    pub middleware: Option<usize>,
    /// The id of the leaf called when nothing in the subtree answers.
    pub fallback: Option<usize>,
    /// The id of the node's own leaf.
    pub leaf: Option<usize>,
    pub is_root: bool,
    pub is_container: bool,
}

impl WalkerTree {
    /// An empty node, not yet placed.
    pub fn new() -> (r: WalkerTree)
        ensures
            r.id == 0,
            r.path@.len() == 0,
            r.rel_path@.len() == 0,
            r.output_path@.len() == 0,
            r.parent is None,
            r.children@.len() == 0,
            r.middleware is None,
            r.fallback is None,
            r.leaf is None,
            !r.is_root,
            !r.is_container,
    {
        WalkerTree {
            id: 0,
            path: String::new(),
            rel_path: String::new(),
            output_path: String::new(),
            parent: None,
            children: Vec::new(),
            middleware: None,
            fallback: None,
            leaf: None,
            is_root: false,
            is_container: false,
        }
    }

    /// The node of one route, not yet placed: it takes the route's paths.
    pub fn new_leaf(leaf: &HttpLeaf) -> (r: WalkerTree)
        ensures
            r.id == 0,
            r.path == leaf.path,
            r.rel_path == leaf.rel_path,
            r.output_path == leaf.output_path,
            r.parent is None,
            r.children@.len() == 0,
            r.middleware is None,
            r.fallback is None,
            r.leaf is None,
            !r.is_root,
            !r.is_container,
    {
        WalkerTree {
            id: 0,
            path: leaf.path.clone(),
            rel_path: leaf.rel_path.clone(),
            output_path: leaf.output_path.clone(),
            parent: None,
            children: Vec::new(),
            middleware: None,
            fallback: None,
            leaf: None,
            is_root: false,
            is_container: false,
        }
    }

    pub fn set_id(&mut self, id: usize)
        ensures
            final(self).id == id,
            final(self).path == old(self).path,
            final(self).rel_path == old(self).rel_path,
            final(self).output_path == old(self).output_path,
            final(self).parent == old(self).parent,
            final(self).children == old(self).children,
            final(self).middleware == old(self).middleware,
            final(self).fallback == old(self).fallback,
            final(self).leaf == old(self).leaf,
            final(self).is_root == old(self).is_root,
            final(self).is_container == old(self).is_container,
    {
        self.id = id;
    }

    /// The longest run of leading segments of `other` that this node's
    /// relative path also starts with (see `common_path`).
    pub fn get_common_path(&self, other: String) -> (r: Option<String>)
        ensures
            r matches Some(s) ==> common_path(self.rel_path@, other@) == Some(s@),
            r is None ==> common_path(self.rel_path@, other@) is None,
    {
        let a = chars_of(self.rel_path.as_str());
        let b = chars_of(other.as_str());
        match common_path_of(&a, &b) {
            Some(c) => Some(string_of(c.as_slice())),
            None => None,
        }
    }
}

/// `path` lies strictly below the node path `base`: it continues it after a
/// `/`.
pub open spec fn below(path: Seq<char>, base: Seq<char>) -> bool {
    path.len() > base.len() + 1 && path.take(base.len() + 1 as int) == base.push('/')
}

/// What follows `base` and its `/` in `path`.
pub open spec fn rel_of(path: Seq<char>, base: Seq<char>) -> Seq<char> {
    path.skip(base.len() + 1 as int)
}

/// One of the file names that change how a route is placed.
pub open spec fn is_convention(p: Seq<char>) -> bool {
    p == "_index"@ || p == "_fallback"@ || p == "_middleware"@
}

/// A route whose last segment starts with `_` and is no convention: it is
/// not placed.
pub open spec fn is_ignored(rel: Seq<char>) -> bool {
    let last = split(rel).last();
    !is_convention(rel) && last.len() > 0 && last[0] == '_' && !is_convention(last)
}

/// Below a node below `base` is below `base`.
pub proof fn lemma_below_trans(x: Seq<char>, mid: Seq<char>, base: Seq<char>, rel: Seq<char>)
    requires
        mid == base.push('/') + rel,
        below(x, mid),
    ensures
        below(x, base),
{
    assert(x.take(base.len() + 1 as int) =~= mid.take(base.len() + 1 as int));
    assert(mid.take(base.len() + 1 as int) =~= base.push('/'));
}

/// No child of node index `p` shares a leading segment with `rel`.
pub open spec fn none_shares(t: Seq<WalkerTree>, p: int, rel: Seq<char>) -> bool {
    forall|q: int| 0 <= q < t[p].children@.len() ==> common_path(
        #[trigger] t[t[p].children@[q] - 1].rel_path@,
        rel,
    ) is None
}

/// The `j`-th child of node index `p` is the first that shares a leading
/// segment with `rel`.
pub open spec fn first_sharing(t: Seq<WalkerTree>, p: int, rel: Seq<char>, j: int) -> bool {
    &&& 0 <= j < t[p].children@.len()
    &&& common_path(t[t[p].children@[j] - 1].rel_path@, rel) is Some
    &&& forall|q: int| 0 <= q < j ==> common_path(
        #[trigger] t[t[p].children@[q] - 1].rel_path@,
        rel,
    ) is None
}

/// An ordinary route: its last segment does not start with `_`.
pub open spec fn plain_route(rel: Seq<char>) -> bool {
    let last = split(rel).last();
    !(last.len() > 0 && last[0] == '_')
}

/// What every placement keeps: the arena stays well formed, only the leaf's
/// relative path changes among the leaves, nodes are only added, no node
/// changes its path, nodes outside the subtree of `parent` stay as they are,
/// and `parent` keeps its identity and place.
pub open spec fn placed(o: WalkerContainer, f: WalkerContainer, parent: usize, leaf: usize) -> bool {
    let (ol, fl) = (o.leaves()[leaf - 1], f.leaves()[leaf - 1]);
    let (op, fp) = (o.trees()[parent - 1], f.trees()[parent - 1]);
    &&& f.wf()
    &&& f.root_id() == o.root_id()
    &&& f.out_dir() == o.out_dir()
    &&& f.leaves().len() == o.leaves().len()
    &&& forall|i: int| 0 <= i < o.leaves().len() && i != leaf - 1 ==> #[trigger] f.leaves()[i] == o.leaves()[i]
    &&& fl.path == ol.path
    &&& fl.file_path == ol.file_path
    &&& fl.output_path == ol.output_path
    &&& fl.content == ol.content
    &&& o.trees().len() <= f.trees().len()
    &&& f.trees().len() <= o.trees().len() + ol.path@.len() - op.path@.len()
    &&& forall|i: int| 0 <= i < o.trees().len() ==> (#[trigger] f.trees()[i]).path == o.trees()[i].path
    &&& forall|i: int|
        0 <= i < o.trees().len() && i != parent - 1 && !below(o.trees()[i].path@, op.path@)
            ==> #[trigger] f.trees()[i] == o.trees()[i]
    &&& fp.id == op.id
    &&& fp.rel_path == op.rel_path
    &&& fp.parent == op.parent
    &&& fp.is_root == op.is_root
    &&& fp.is_container == op.is_container
}

/// Where the leaf's first sharing sibling does not cover the shared part,
/// an ordinary route ends in a new container at the shared part that holds
/// that sibling and the route's new node.
pub open spec fn merged(o: WalkerContainer, f: WalkerContainer, parent: usize, leaf: usize) -> bool {
    let ot = o.trees();
    let ft = f.trees();
    let rel = rel_of(o.leaves()[leaf - 1].path@, ot[parent - 1].path@);
    let n = ot.len() as int;
    forall|j: int|
        #![trigger ot[parent - 1].children@[j]]
        first_sharing(ot, parent - 1, rel, j) && plain_route(rel) && ({
            let s = ot[parent - 1].children@[j];
            let c = common_path(ot[s - 1].rel_path@, rel)->0;
            c != ot[s - 1].rel_path@ && c != rel
        }) ==> {
            let s = ot[parent - 1].children@[j];
            let c = common_path(ot[s - 1].rel_path@, rel)->0;
            &&& ft.len() == n + 2
            &&& ft[n].path@ == ot[parent - 1].path@.push('/') + c
            &&& ft[n].rel_path@ == c
            &&& ft[n].is_container
            &&& ft[parent - 1].children@ == ot[parent - 1].children@.update(j, (n + 1) as usize)
            &&& ft[n].children@ == seq![s, (n + 2) as usize]
            &&& ft[s - 1].parent == Some((n + 1) as usize)
            &&& ft[s - 1].leaf == ot[s - 1].leaf
            &&& ft[s - 1].rel_path@ == ot[s - 1].rel_path@.skip(c.len() + 1 as int)
            &&& ft[s - 1].is_container == ot[s - 1].is_container
            &&& ft[n + 1].leaf == Some(leaf)
            &&& ft[n + 1].parent == Some((n + 1) as usize)
            &&& ft[n + 1].path == o.leaves()[leaf - 1].path
            &&& ft[n + 1].rel_path@ == rel_of(o.leaves()[leaf - 1].path@, ft[n].path@)
            &&& !ft[n + 1].is_container
            &&& ft[n + 1].children@.len() == 0
            &&& same_but_children(ot[parent - 1], ft[parent - 1])
        }
}

/// Where the leaf's relative path is the part it shares with its first
/// sharing sibling, and the sibling's path is longer, a new container at the
/// leaf's path takes the sibling's place, holds the sibling, and takes the
/// leaf as its own.
pub open spec fn absorbed(o: WalkerContainer, f: WalkerContainer, parent: usize, leaf: usize) -> bool {
    let ot = o.trees();
    let ft = f.trees();
    let rel = rel_of(o.leaves()[leaf - 1].path@, ot[parent - 1].path@);
    let n = ot.len() as int;
    forall|j: int|
        #![trigger ot[parent - 1].children@[j]]
        !is_convention(rel) && !is_ignored(rel) && first_sharing(ot, parent - 1, rel, j) && ({
            let s = ot[parent - 1].children@[j];
            common_path(ot[s - 1].rel_path@, rel)->0 == rel && rel != ot[s - 1].rel_path@
        }) ==> {
            let s = ot[parent - 1].children@[j];
            &&& ft.len() == n + 1
            &&& ft[n].path@ == ot[parent - 1].path@.push('/') + rel
            &&& ft[n].rel_path@ == rel
            &&& ft[n].is_container
            &&& ft[n].leaf == Some(leaf)
            &&& ft[n].children@ == seq![s]
            &&& ft[parent - 1].children@ == ot[parent - 1].children@.update(j, (n + 1) as usize)
            &&& same_but_children(ot[parent - 1], ft[parent - 1])
            &&& ft[s - 1].parent == Some((n + 1) as usize)
            &&& ft[s - 1].leaf == ot[s - 1].leaf
            &&& ft[s - 1].rel_path@ == ot[s - 1].rel_path@.skip(rel.len() + 1 as int)
        }
}

/// Where the leaf's first sharing sibling covers the shared part, the leaf
/// goes into that sibling: as its own leaf where their paths are equal,
/// else placed under it as `add_child` places it (see `inserted`); `parent`
/// is unchanged.
pub open spec fn pulled(o: WalkerContainer, f: WalkerContainer, parent: usize, leaf: usize) -> bool {
    let ot = o.trees();
    let ft = f.trees();
    let rel = rel_of(o.leaves()[leaf - 1].path@, ot[parent - 1].path@);
    forall|j: int|
        #![trigger ot[parent - 1].children@[j]]
        !is_convention(rel) && !is_ignored(rel) && first_sharing(ot, parent - 1, rel, j) && ({
            let s = ot[parent - 1].children@[j];
            common_path(ot[s - 1].rel_path@, rel)->0 == ot[s - 1].rel_path@
        }) ==> {
            let s = ot[parent - 1].children@[j];
            &&& ot[s - 1].rel_path@ == rel ==> ft == ot.update(
                s - 1,
                WalkerTree { leaf: Some(leaf), output_path: o.leaves()[leaf - 1].output_path, ..ot[s - 1] },
            )
            &&& ot[s - 1].rel_path@ != rel ==> inserted(o, f, s, leaf) && ft[parent - 1] == ot[parent - 1]
        }
}

/// Only a convention name right under `parent` changes anything of
/// `parent` but its children.
pub open spec fn parent_kept(o: WalkerContainer, f: WalkerContainer, parent: usize, leaf: usize) -> bool {
    !is_convention(rel_of(o.leaves()[leaf - 1].path@, o.trees()[parent - 1].path@))
        ==> same_but_children(o.trees()[parent - 1], f.trees()[parent - 1])
}

/// Everything that placing `leaf` under `parent` promises (see
/// `WalkerContainer::add_child`), from the arena `o` before to `f` after.
pub open spec fn inserted(o: WalkerContainer, f: WalkerContainer, parent: usize, leaf: usize) -> bool {
    &&& placed(o, f, parent, leaf)
    &&& ({
                let pn = o.trees()[parent - 1];
                let rel = rel_of(o.leaves()[leaf - 1].path@, pn.path@);
                &&& rel == "_fallback"@ ==> f.trees() == o.trees().update(
                    parent - 1,
                    WalkerTree { fallback: Some(leaf), ..pn },
                ) && f.leaves()[leaf - 1].rel_path@ == "<FALLBACK>"@
                &&& rel == "_middleware"@ ==> f.trees() == o.trees().update(
                    parent - 1,
                    WalkerTree { middleware: Some(leaf), ..pn },
                ) && f.leaves()[leaf - 1].rel_path@ == "<MIDDLEWARE>"@
                &&& rel == "_index"@ ==> f.trees() == o.trees().update(
                    parent - 1,
                    WalkerTree { leaf: Some(leaf), output_path: o.leaves()[leaf - 1].output_path, ..pn },
                )
                &&& is_ignored(rel) ==> f == o
            })
    &&& ({
                let ot = o.trees();
                let ft = f.trees();
                let rel = rel_of(o.leaves()[leaf - 1].path@, ot[parent - 1].path@);
                let n = ot.len() as int;
                none_shares(ot, parent - 1, rel) && (plain_route(rel) || (split(rel).len() > 1
                    && split(rel).last() == "_index"@)) ==> {
                    &&& ft.len() == n + 1
                    &&& forall|i: int| 0 <= i < n && i != parent - 1 ==> #[trigger] ft[i] == ot[i]
                    &&& ft[parent - 1].children@ == ot[parent - 1].children@.push((n + 1) as usize)
                    &&& ft[n].leaf == Some(leaf)
                    &&& ft[n].parent == Some(parent)
                    &&& same_but_children(ot[parent - 1], ft[parent - 1])
                    &&& plain_route(rel) ==> ft[n].rel_path@ == rel && ft[n].path == o.leaves()[leaf - 1].path
                        && !ft[n].is_container && ft[n].children@.len() == 0
                    &&& !plain_route(rel) ==> ft[n].rel_path@ == join(split(rel).drop_last()) && ft[n].is_container
                }
            })
    &&& merged(o, f, parent, leaf)
    &&& absorbed(o, f, parent, leaf)
    &&& held(o, f, parent, leaf)
    &&& parent_kept(o, f, parent, leaf)
}

/// In a well-formed arena a node is listed as a child by one node at most,
/// and once in that node's list.
pub proof fn lemma_one_parent(c: WalkerContainer, i: int, j: int, a: int, b: int)
    requires
        c.wf(),
        c.trees().len() < usize::MAX,
        0 <= i < c.trees().len(),
        0 <= j < c.trees().len(),
        0 <= a < c.trees()[i].children@.len(),
        0 <= b < c.trees()[j].children@.len(),
        c.trees()[i].children@[a] == c.trees()[j].children@[b],
    ensures
        i == j,
        a == b,
{
    let t = c.trees();
    assert(child_ok(t, i, t[i].children@[a]));
    assert(child_ok(t, j, t[j].children@[b]));
    assert(t[i].children@.no_duplicates());
}

/// Two routes whose relative paths share leading segments are merged under
/// a container at their common prefix (see `merged`); that prefix is the same
/// whichever of the two routes was placed first.
pub proof fn lemma_merge_prefix_order_free(first: Seq<char>, second: Seq<char>)
    requires
        !has_empty(split(first)),
        !has_empty(split(second)),
    ensures
        common_path(first, second) == common_path(second, first),
{
    lemma_common_path_symmetric(first, second);
}

/// Where a container at `path` writes its generated file.
pub open spec fn container_output(out_dir: Seq<char>, path: Seq<char>) -> Seq<char> {
    joined("."@ + path + "/_index.ts"@, out_dir)
}

/// The arena that owns every node and every leaf; all other references are
/// ids, an id being the index plus one.
pub struct WalkerContainer {
    output_dir: String,
    root: Option<usize>,
    tree: Vec<WalkerTree>,
    leaf: Vec<HttpLeaf>,
}

/// Node `c` is a well-placed child of node index `i`.
pub open spec fn child_ok(t: Seq<WalkerTree>, i: int, c: usize) -> bool {
    &&& 1 <= c <= t.len()
    &&& t[c - 1].parent == Some((i + 1) as usize)
    &&& t[c - 1].path@ == t[i].path@.push('/') + t[c - 1].rel_path@
}

/// `b` is `a` but for the children.
pub open spec fn same_but_children(a: WalkerTree, b: WalkerTree) -> bool {
    &&& b.id == a.id
    &&& b.path == a.path
    &&& b.rel_path == a.rel_path
    &&& b.output_path == a.output_path
    &&& b.parent == a.parent
    &&& b.middleware == a.middleware
    &&& b.fallback == a.fallback
    &&& b.leaf == a.leaf
    &&& b.is_root == a.is_root
    &&& b.is_container == a.is_container
}

/// `b` is `a` moved under another parent, with another relative path.
pub open spec fn same_but_place(a: WalkerTree, b: WalkerTree) -> bool {
    &&& b.id == a.id
    &&& b.path == a.path
    &&& b.output_path == a.output_path
    &&& b.children == a.children
    &&& b.middleware == a.middleware
    &&& b.fallback == a.fallback
    &&& b.leaf == a.leaf
    &&& b.is_root == a.is_root
    &&& b.is_container == a.is_container
}

/// Node `n` holds leaf `leaf` as its own, its fallback or its middleware.
pub open spec fn holds(n: WalkerTree, leaf: usize) -> bool {
    n.leaf == Some(leaf) || n.fallback == Some(leaf) || n.middleware == Some(leaf)
}

/// A leaf that is not ignored ends up held by some node.
pub open spec fn held(o: WalkerContainer, f: WalkerContainer, parent: usize, leaf: usize) -> bool {
    !is_ignored(rel_of(o.leaves()[leaf - 1].path@, o.trees()[parent - 1].path@))
        ==> exists|n: int| 0 <= n < f.trees().len() && #[trigger] holds(f.trees()[n], leaf)
}

/// The ids that a node holds point into the arena.
pub open spec fn refs_ok(n: WalkerTree, nt: nat, nl: nat) -> bool {
    &&& (n.leaf matches Some(x) ==> 1 <= x <= nl)
    &&& (n.fallback matches Some(x) ==> 1 <= x <= nl)
    &&& (n.middleware matches Some(x) ==> 1 <= x <= nl)
    &&& (n.parent matches Some(x) ==> 1 <= x <= nt)
}

impl WalkerContainer {
    pub closed spec fn trees(&self) -> Seq<WalkerTree> {
        self.tree@
    }

    pub closed spec fn leaves(&self) -> Seq<HttpLeaf> {
        self.leaf@
    }

    pub closed spec fn root_id(&self) -> Option<usize> {
        self.root
    }

    pub closed spec fn out_dir(&self) -> Seq<char> {
        self.output_dir@
    }

    /// Ids match positions, children point back to their parent and extend
    /// its path by their relative path, and every id held is in range.
    pub open spec fn wf(&self) -> bool {
        let t = self.trees();
        &&& forall|i: int| 0 <= i < t.len() ==> #[trigger] t[i].id == i + 1
        &&& forall|i: int, j: int|
            0 <= i < t.len() && 0 <= j < t[i].children@.len() ==> child_ok(t, i, #[trigger] t[i].children@[j])
        &&& forall|i: int| 0 <= i < t.len() ==> refs_ok(#[trigger] t[i], t.len(), self.leaves().len())
        &&& forall|i: int| 0 <= i < t.len() ==> (#[trigger] t[i]).children@.no_duplicates()
        &&& (self.root_id() matches Some(r) ==> 1 <= r <= t.len())
    }

    /// An empty arena whose generated files go under `output_dir`.
    pub fn new(output_dir: &str) -> (r: WalkerContainer)
        ensures
            r.wf(),
            r.out_dir() == output_dir@,
            r.root_id() is None,
            r.trees().len() == 0,
            r.leaves().len() == 0,
    {
        WalkerContainer {
            output_dir: String::from_str(output_dir),
            root: None,
            tree: Vec::new(),
            leaf: Vec::new(),
        }
    }

    pub fn get_output_dir(&self) -> (r: String)
        ensures
            r@ == self.out_dir(),
    {
        self.output_dir.clone()
    }

    /// The id that the next node will get.
    pub fn id_tree(&self) -> (r: usize)
        requires
            self.trees().len() < usize::MAX,
        ensures
            r == self.trees().len() + 1,
    {
        self.tree.len() + 1
    }

    /// The id that the next leaf will get.
    pub fn id_leaf(&self) -> (r: usize)
        requires
            self.leaves().len() < usize::MAX,
        ensures
            r == self.leaves().len() + 1,
    {
        self.leaf.len() + 1
    }

    /// Adds the root node, whose file is `_index` in the output directory.
    pub fn create_root(&mut self) -> (r: usize)
        requires
            old(self).wf(),
            old(self).trees().len() < usize::MAX,
        ensures
            final(self).wf(),
            r == old(self).trees().len() + 1,
            final(self).root_id() == Some(r),
            final(self).trees().len() == r,
            final(self).trees().drop_last() == old(self).trees(),
            final(self).trees()[r - 1].is_root,
            final(self).trees()[r - 1].path@.len() == 0,
            final(self).trees()[r - 1].children@.len() == 0,
            final(self).trees()[r - 1].parent is None,
            final(self).trees()[r - 1].leaf is None,
            final(self).trees()[r - 1].fallback is None,
            final(self).trees()[r - 1].middleware is None,
            final(self).trees()[r - 1].output_path@ == joined("_index"@, old(self).out_dir()),
            final(self).leaves() == old(self).leaves(),
            final(self).out_dir() == old(self).out_dir(),
    {
        let mut root = WalkerTree::new();
        root.id = self.tree.len() + 1;
        root.output_path = join_paths("_index", self.output_dir.as_str());
        root.is_root = true;
        let id = root.id;
        self.tree.push(root);
        self.root = Some(id);
        proof {
            assert(self.trees().drop_last() =~= old(self).trees());
        }
        id
    }

    /// Stores a node under the next id and returns that id.
    pub fn add_tree(&mut self, new_node: WalkerTree) -> (r: usize)
        requires
            old(self).wf(),
            old(self).trees().len() < usize::MAX,
            new_node.children@.len() == 0,
            refs_ok(new_node, old(self).trees().len() + 1, old(self).leaves().len()),
        ensures
            final(self).wf(),
            r == old(self).trees().len() + 1,
            final(self).trees() == old(self).trees().push(
                WalkerTree { id: r, ..new_node },
            ),
            final(self).leaves() == old(self).leaves(),
            final(self).root_id() == old(self).root_id(),
            final(self).out_dir() == old(self).out_dir(),
    {
        let mut new_node = new_node;
        let new_id = self.tree.len() + 1;
        new_node.set_id(new_id);
        self.tree.push(new_node);
        new_id
    }

    /// Stores a leaf under the next id and returns that id.
    pub fn add_leaf(&mut self, new_node: HttpLeaf) -> (r: usize)
        requires
            old(self).wf(),
            old(self).leaves().len() < usize::MAX,
        ensures
            final(self).wf(),
            r == old(self).leaves().len() + 1,
            final(self).leaves() == old(self).leaves().push(new_node),
            final(self).trees() == old(self).trees(),
            final(self).root_id() == old(self).root_id(),
            final(self).out_dir() == old(self).out_dir(),
    {
        let new_id = self.leaf.len() + 1;
        self.leaf.push(new_node);
        proof {
            let t = self.trees();
            assert forall|i: int| 0 <= i < t.len() implies refs_ok(#[trigger] t[i], t.len(), self.leaves().len()) by {
                assert(refs_ok(old(self).trees()[i], t.len(), old(self).leaves().len()));
            }
        }
        new_id
    }

    /// How many nodes there are.
    pub fn tree_count(&self) -> (r: usize)
        ensures
            r == self.trees().len(),
    {
        self.tree.len()
    }

    /// How many leaves there are.
    pub fn leaf_count(&self) -> (r: usize)
        ensures
            r == self.leaves().len(),
    {
        self.leaf.len()
    }

    /// Keeps the source text of leaf `id`, once read.
    pub fn set_leaf_content(&mut self, id: usize, content: String)
        requires
            old(self).wf(),
        ensures
            final(self).wf(),
            final(self).trees() == old(self).trees(),
            final(self).root_id() == old(self).root_id(),
            final(self).out_dir() == old(self).out_dir(),
            1 <= id <= old(self).leaves().len() ==> final(self).leaves() == old(self).leaves().update(
                id - 1,
                HttpLeaf { content: Some(content), ..old(self).leaves()[id - 1] },
            ),
            !(1 <= id <= old(self).leaves().len()) ==> final(self).leaves() == old(self).leaves(),
    {
        if id >= 1 && id <= self.leaf.len() {
            let ghost o = *self;
            self.leaf[id - 1].content = Some(content);
            proof {
                assert(self.leaves() =~= o.leaves().update(id - 1, HttpLeaf { content: Some(content), ..o.leaves()[id - 1] }));
                let t = self.trees();
                assert forall|i: int| 0 <= i < t.len() implies refs_ok(#[trigger] t[i], t.len(), self.leaves().len()) by {
                    assert(refs_ok(o.trees()[i], t.len(), o.leaves().len()));
                }
            }
        }
    }

    /// The node with this id.
    pub fn get_tree(&self, id: usize) -> (r: Option<&WalkerTree>)
        ensures
            1 <= id <= self.trees().len() ==> r == Some(&self.trees()[id - 1]),
            !(1 <= id <= self.trees().len()) ==> r is None,
    {
        if id >= 1 && id <= self.tree.len() {
            Some(&self.tree[id - 1])
        } else {
            None
        }
    }

    /// The leaf with this id.
    pub fn get_leaf(&self, id: usize) -> (r: Option<&HttpLeaf>)
        ensures
            1 <= id <= self.leaves().len() ==> r == Some(&self.leaves()[id - 1]),
            !(1 <= id <= self.leaves().len()) ==> r is None,
    {
        if id >= 1 && id <= self.leaf.len() {
            Some(&self.leaf[id - 1])
        } else {
            None
        }
    }

    /// The root node, once created.
    pub fn get_root(&self) -> (r: Option<&WalkerTree>)
        ensures
            self.wf() && self.root_id() is Some ==> r == Some(
                &self.trees()[self.root_id()->0 - 1],
            ),
            self.root_id() is None ==> r is None,
    {
        match self.root {
            Some(id) => self.get_tree(id),
            None => None,
        }
    }

    pub fn get_root_id(&self) -> (r: Option<usize>)
        ensures
            r == self.root_id(),
    {
        self.root
    }

    proof fn lemma_wf_same_shape(&self, old: &WalkerContainer)
        requires
            old.wf(),
            self.trees().len() == old.trees().len(),
            self.leaves().len() == old.leaves().len(),
            self.root_id() == old.root_id(),
            forall|i: int| 0 <= i < self.trees().len() ==> {
                let (a, b) = (#[trigger] self.trees()[i], old.trees()[i]);
                &&& a.id == b.id
                &&& a.path == b.path
                &&& a.rel_path == b.rel_path
                &&& a.parent == b.parent
                &&& a.children == b.children
                &&& refs_ok(a, self.trees().len(), self.leaves().len())
            },
        ensures
            self.wf(),
    {
        let t = self.trees();
        assert forall|i: int, j: int|
            0 <= i < t.len() && 0 <= j < t[i].children@.len() implies child_ok(t, i, #[trigger] t[i].children@[j]) by {
            assert(t[i] == t[i]);
            assert(child_ok(old.trees(), i, old.trees()[i].children@[j]));
            let c = t[i].children@[j];
            assert(t[c - 1] == t[c - 1]);
        }
        assert forall|i: int| 0 <= i < t.len() implies #[trigger] t[i].id == i + 1 by {
            assert(old.trees()[i].id == i + 1);
        }
        assert forall|i: int| 0 <= i < t.len() implies (#[trigger] t[i]).children@.no_duplicates() by {
            assert(old.trees()[i].children@.no_duplicates());
        }
    }

    /// Node `x` takes the leaf as its fallback.
    fn set_fallback(&mut self, x: usize, leaf: usize)
        requires
            old(self).wf(),
            1 <= x <= old(self).trees().len(),
            1 <= leaf <= old(self).leaves().len(),
        ensures
            final(self).wf(),
            final(self).trees() == old(self).trees().update(
                x - 1,
                WalkerTree { fallback: Some(leaf), ..old(self).trees()[x - 1] },
            ),
            final(self).leaves() == old(self).leaves(),
            final(self).root_id() == old(self).root_id(),
            final(self).out_dir() == old(self).out_dir(),
    {
        let ghost o = *self;
        self.tree[x - 1].fallback = Some(leaf);
        proof {
            assert(self.trees() =~= o.trees().update(x - 1, WalkerTree { fallback: Some(leaf), ..o.trees()[x - 1] }));
            assert(refs_ok(o.trees()[x - 1], o.trees().len(), o.leaves().len()));
            self.lemma_wf_same_shape(&o);
        }
    }

    /// Node `x` takes the leaf as its middleware.
    fn set_middleware(&mut self, x: usize, leaf: usize)
        requires
            old(self).wf(),
            1 <= x <= old(self).trees().len(),
            1 <= leaf <= old(self).leaves().len(),
        ensures
            final(self).wf(),
            final(self).trees() == old(self).trees().update(
                x - 1,
                WalkerTree { middleware: Some(leaf), ..old(self).trees()[x - 1] },
            ),
            final(self).leaves() == old(self).leaves(),
            final(self).root_id() == old(self).root_id(),
            final(self).out_dir() == old(self).out_dir(),
    {
        let ghost o = *self;
        self.tree[x - 1].middleware = Some(leaf);
        proof {
            assert(self.trees() =~= o.trees().update(x - 1, WalkerTree { middleware: Some(leaf), ..o.trees()[x - 1] }));
            assert(refs_ok(o.trees()[x - 1], o.trees().len(), o.leaves().len()));
            self.lemma_wf_same_shape(&o);
        }
    }

    /// Node `x` takes the leaf as its own, and writes its file where the
    /// leaf's goes.
    fn set_own_leaf(&mut self, x: usize, leaf: usize)
        requires
            old(self).wf(),
            1 <= x <= old(self).trees().len(),
            1 <= leaf <= old(self).leaves().len(),
        ensures
            final(self).wf(),
            final(self).trees() == old(self).trees().update(
                x - 1,
                WalkerTree {
                    leaf: Some(leaf),
                    output_path: old(self).leaves()[leaf - 1].output_path,
                    ..old(self).trees()[x - 1]
                },
            ),
            final(self).leaves() == old(self).leaves(),
            final(self).root_id() == old(self).root_id(),
            final(self).out_dir() == old(self).out_dir(),
    {
        let ghost o = *self;
        let out = self.leaf[leaf - 1].output_path.clone();
        self.tree[x - 1].leaf = Some(leaf);
        self.tree[x - 1].output_path = out;
        proof {
            assert(self.trees() =~= o.trees().update(
                x - 1,
                WalkerTree { leaf: Some(leaf), output_path: o.leaves()[leaf - 1].output_path, ..o.trees()[x - 1] },
            ));
            assert(refs_ok(o.trees()[x - 1], o.trees().len(), o.leaves().len()));
            self.lemma_wf_same_shape(&o);
        }
    }

    /// Leaf `leaf` is now written relative to `rel`.
    fn set_leaf_rel(&mut self, leaf: usize, rel: String)
        requires
            old(self).wf(),
            1 <= leaf <= old(self).leaves().len(),
        ensures
            final(self).wf(),
            final(self).trees() == old(self).trees(),
            final(self).leaves() == old(self).leaves().update(
                leaf - 1,
                HttpLeaf { rel_path: rel, ..old(self).leaves()[leaf - 1] },
            ),
            final(self).root_id() == old(self).root_id(),
            final(self).out_dir() == old(self).out_dir(),
    {
        let ghost o = *self;
        self.leaf[leaf - 1].rel_path = rel;
        proof {
            assert(self.leaves() =~= o.leaves().update(leaf - 1, HttpLeaf { rel_path: rel, ..o.leaves()[leaf - 1] }));
            let t = self.trees();
            assert forall|i: int| 0 <= i < t.len() implies refs_ok(#[trigger] t[i], t.len(), self.leaves().len()) by {
                assert(refs_ok(o.trees()[i], t.len(), o.leaves().len()));
            }
        }
    }

    /// Adds a node under `p` as its last child and returns its id.
    fn push_node(
        &mut self,
        p: usize,
        path: String,
        rel: String,
        output: String,
        leaf: Option<usize>,
        is_container: bool,
    ) -> (r: usize)
        requires
            old(self).wf(),
            1 <= p <= old(self).trees().len(),
            old(self).trees().len() + 1 < usize::MAX,
            path@ == old(self).trees()[p - 1].path@.push('/') + rel@,
            leaf matches Some(x) ==> 1 <= x <= old(self).leaves().len(),
        ensures
            final(self).wf(),
            r == old(self).trees().len() + 1,
            final(self).trees().len() == r,
            forall|i: int| 0 <= i < old(self).trees().len() && i != p - 1 ==> #[trigger] final(self).trees()[i] == old(self).trees()[i],
            same_but_children(old(self).trees()[p - 1], final(self).trees()[p - 1]),
            final(self).trees()[p - 1].children@ == old(self).trees()[p - 1].children@.push(r),
            ({
                let n = final(self).trees()[r - 1];
                &&& n.id == r
                &&& n.path == path
                &&& n.rel_path == rel
                &&& n.output_path == output
                &&& n.parent == Some(p)
                &&& n.children@.len() == 0
                &&& n.middleware is None
                &&& n.fallback is None
                &&& n.leaf == leaf
                &&& !n.is_root
                &&& n.is_container == is_container
            }),
            final(self).leaves() == old(self).leaves(),
            final(self).root_id() == old(self).root_id(),
            final(self).out_dir() == old(self).out_dir(),
    {
        let r = self.tree.len() + 1;
        let node = WalkerTree {
            id: r,
            path,
            rel_path: rel,
            output_path: output,
            parent: Some(p),
            children: Vec::new(),
            middleware: None,
            fallback: None,
            leaf,
            is_root: false,
            is_container,
        };
        let ghost o = *self;
        self.tree.push(node);
        self.tree[p - 1].children.push(r);
        proof {
            let t = self.trees();
            let ot = o.trees();
            assert forall|i: int, j: int|
                0 <= i < t.len() && 0 <= j < t[i].children@.len() implies child_ok(t, i, #[trigger] t[i].children@[j]) by {
                if i == p - 1 {
                    if j < ot[i].children@.len() {
                        assert(child_ok(ot, i, ot[i].children@[j]));
                    }
                } else if i < ot.len() {
                    assert(child_ok(ot, i, ot[i].children@[j]));
                }
            }
            assert forall|i: int| 0 <= i < t.len() implies refs_ok(#[trigger] t[i], t.len(), self.leaves().len()) by {
                if i < ot.len() {
                    assert(refs_ok(ot[i], ot.len(), o.leaves().len()));
                }
            }
            assert forall|i: int| 0 <= i < t.len() implies #[trigger] t[i].id == i + 1 by {
                if i < ot.len() {
                    assert(ot[i].id == i + 1);
                }
            }
            assert forall|i: int| 0 <= i < t.len() implies (#[trigger] t[i]).children@.no_duplicates() by {
                if i < ot.len() {
                    assert(ot[i].children@.no_duplicates());
                }
                if i == p - 1 {
                    assert forall|j: int| 0 <= j < ot[i].children@.len() implies ot[i].children@[j] != r by {
                        assert(child_ok(ot, i, ot[i].children@[j]));
                    }
                }
            }
        }
        r
    }

    /// Puts a new container at `c` between `p` and its `j`-th child, whose
    /// relative path is `c`, a `/` and `rest`; returns the container's id.
    fn wrap_child(&mut self, p: usize, j: usize, c: &Vec<char>, rest: &Vec<char>) -> (r: usize)
        requires
            old(self).wf(),
            1 <= p <= old(self).trees().len(),
            old(self).trees().len() + 1 < usize::MAX,
            j < old(self).trees()[p - 1].children@.len(),
            ({
                let s = old(self).trees()[p - 1].children@[j as int];
                old(self).trees()[s - 1].rel_path@ == c@.push('/') + rest@
            }),
        ensures
            final(self).wf(),
            r == old(self).trees().len() + 1,
            final(self).trees().len() == r,
            final(self).leaves() == old(self).leaves(),
            final(self).root_id() == old(self).root_id(),
            final(self).out_dir() == old(self).out_dir(),
            ({
                let ot = old(self).trees();
                let ft = final(self).trees();
                let s = ot[p - 1].children@[j as int];
                &&& s != p
                &&& forall|i: int| 0 <= i < ot.len() && i != p - 1 && i != s - 1 ==> #[trigger] ft[i] == ot[i]
                &&& same_but_children(ot[p - 1], ft[p - 1])
                &&& ft[p - 1].children@ == ot[p - 1].children@.update(j as int, r)
                &&& same_but_place(ot[s - 1], ft[s - 1])
                &&& ft[s - 1].rel_path@ == rest@
                &&& ft[s - 1].parent == Some(r)
                &&& ft[r - 1].id == r
                &&& ft[r - 1].path@ == ot[p - 1].path@.push('/') + c@
                &&& ft[r - 1].rel_path@ == c@
                &&& ft[r - 1].output_path@ == container_output(old(self).out_dir(), ft[r - 1].path@)
                &&& ft[r - 1].parent == Some(p)
                &&& ft[r - 1].children@ == seq![s]
                &&& ft[r - 1].middleware is None
                &&& ft[r - 1].fallback is None
                &&& ft[r - 1].leaf is None
                &&& !ft[r - 1].is_root
                &&& ft[r - 1].is_container
            }),
    {
        let ghost o = *self;
        let r = self.tree.len() + 1;
        let s = self.tree[p - 1].children[j];
        proof {
            assert(child_ok(o.trees(), p - 1, s));
            assert(refs_ok(o.trees()[s - 1], o.trees().len(), o.leaves().len()));
        }
        let pp = chars_of(self.tree[p - 1].path.as_str());
        let path_chars = concat_slash(&pp, c);
        let path = string_of(path_chars.as_slice());
        let dot = chars_of(".");
        let tail = chars_of("/_index.ts");
        let target = concat_chars(&concat_chars(&dot, &path_chars), &tail);
        let target = string_of(target.as_slice());
        let output = join_paths(target.as_str(), self.output_dir.as_str());
        let mut children: Vec<usize> = Vec::new();
        children.push(s);
        let node = WalkerTree {
            id: r,
            path,
            rel_path: string_of(c.as_slice()),
            output_path: output,
            parent: Some(p),
            children,
            middleware: None,
            fallback: None,
            leaf: None,
            is_root: false,
            is_container: true,
        };
        self.tree.push(node);
        self.tree[s - 1].rel_path = string_of(rest.as_slice());
        self.tree[s - 1].parent = Some(r);
        self.tree[p - 1].children.set(j, r);
        proof {
            let t = self.trees();
            let ot = o.trees();
            assert(ot[s - 1].path@ == ot[p - 1].path@.push('/') + ot[s - 1].rel_path@);
            assert(s != p);
            assert(t[s - 1].path@ =~= t[r - 1].path@.push('/') + t[s - 1].rel_path@);
            assert forall|i: int, k: int|
                0 <= i < t.len() && 0 <= k < t[i].children@.len() implies child_ok(t, i, #[trigger] t[i].children@[k]) by {
                if i == r - 1 {
                } else if i == p - 1 {
                    if k != j {
                        assert(child_ok(ot, i, ot[i].children@[k]));
                        assert(ot[i].children@[k] != s);
                    }
                } else {
                    assert(child_ok(ot, i, ot[i].children@[k]));
                    let x = ot[i].children@[k];
                    assert(x != s);
                }
            }
            assert forall|i: int| 0 <= i < t.len() implies refs_ok(#[trigger] t[i], t.len(), self.leaves().len()) by {
                if i < ot.len() {
                    assert(refs_ok(ot[i], ot.len(), o.leaves().len()));
                }
            }
            assert forall|i: int| 0 <= i < t.len() implies #[trigger] t[i].id == i + 1 by {
                if i < ot.len() {
                    assert(ot[i].id == i + 1);
                }
            }
            assert forall|i: int| 0 <= i < t.len() implies (#[trigger] t[i]).children@.no_duplicates() by {
                if i < ot.len() {
                    assert(ot[i].children@.no_duplicates());
                }
                if i == p - 1 {
                    assert forall|k: int| 0 <= k < ot[i].children@.len() implies ot[i].children@[k] != r by {
                        assert(child_ok(ot, i, ot[i].children@[k]));
                    }
                }
            }
        }
        r
    }

    /// Places the leaf `leaf` under node `parent`, whose path it continues.
    ///
    /// A leaf named `_fallback` or `_middleware` right under the node becomes
    /// its fallback or middleware, and one named `_index` its own leaf. Any
    /// other last segment that starts with `_` is not placed. Otherwise the
    /// leaf goes under the first child that shares leading segments with it:
    /// into that child where the child's relative path is the shared part,
    /// else into a new container at the shared part that takes the child's
    /// place and holds the child. With no such child, a leaf with a
    /// convention name gets a container at its directory, and any other
    /// becomes a new child node.
    #[verifier::spinoff_prover]
    #[verifier::rlimit(100)]
    pub fn add_child(&mut self, parent: usize, leaf: usize)
        requires
            old(self).wf(),
            1 <= parent <= old(self).trees().len(),
            1 <= leaf <= old(self).leaves().len(),
            below(old(self).leaves()[leaf - 1].path@, old(self).trees()[parent - 1].path@),
            old(self).trees().len() + old(self).leaves()[leaf - 1].path@.len()
                - old(self).trees()[parent - 1].path@.len() < usize::MAX,
        ensures
            placed(*old(self), *final(self), parent, leaf),
            ({
                let o = old(self).trees()[parent - 1];
                let rel = rel_of(old(self).leaves()[leaf - 1].path@, o.path@);
                &&& rel == "_fallback"@ ==> final(self).trees() == old(self).trees().update(
                    parent - 1,
                    WalkerTree { fallback: Some(leaf), ..o },
                ) && final(self).leaves()[leaf - 1].rel_path@ == "<FALLBACK>"@
                &&& rel == "_middleware"@ ==> final(self).trees() == old(self).trees().update(
                    parent - 1,
                    WalkerTree { middleware: Some(leaf), ..o },
                ) && final(self).leaves()[leaf - 1].rel_path@ == "<MIDDLEWARE>"@
                &&& rel == "_index"@ ==> final(self).trees() == old(self).trees().update(
                    parent - 1,
                    WalkerTree { leaf: Some(leaf), output_path: old(self).leaves()[leaf - 1].output_path, ..o },
                )
                &&& is_ignored(rel) ==> *final(self) == *old(self)
            }),
            ({
                let ot = old(self).trees();
                let ft = final(self).trees();
                let rel = rel_of(old(self).leaves()[leaf - 1].path@, ot[parent - 1].path@);
                let n = ot.len() as int;
                none_shares(ot, parent - 1, rel) && (plain_route(rel) || (split(rel).len() > 1
                    && split(rel).last() == "_index"@)) ==> {
                    &&& ft.len() == n + 1
                    &&& forall|i: int| 0 <= i < n && i != parent - 1 ==> #[trigger] ft[i] == ot[i]
                    &&& ft[parent - 1].children@ == ot[parent - 1].children@.push((n + 1) as usize)
                    &&& ft[n].leaf == Some(leaf)
                    &&& ft[n].parent == Some(parent)
                    &&& same_but_children(ot[parent - 1], ft[parent - 1])
                    &&& plain_route(rel) ==> ft[n].rel_path@ == rel && ft[n].path == old(self).leaves()[leaf - 1].path
                        && !ft[n].is_container && ft[n].children@.len() == 0
                    &&& !plain_route(rel) ==> ft[n].rel_path@ == join(split(rel).drop_last()) && ft[n].is_container
                }
            }),
            merged(*old(self), *final(self), parent, leaf),
            held(*old(self), *final(self), parent, leaf),
            absorbed(*old(self), *final(self), parent, leaf),
            parent_kept(*old(self), *final(self), parent, leaf),
            inserted(*old(self), *final(self), parent, leaf),
            pulled(*old(self), *final(self), parent, leaf),
        decreases old(self).leaves()[leaf - 1].path@.len() - old(self).trees()[parent - 1].path@.len(), 1nat,
    {
        let ghost o = *self;
        proof {
            reveal_strlit("_fallback");
            reveal_strlit("_middleware");
            reveal_strlit("_index");
        }
        let np = chars_of(self.tree[parent - 1].path.as_str());
        let lp = chars_of(self.leaf[leaf - 1].path.as_str());
        proof {
            assert(np@.len() + 1 < lp@.len());
            assert(np.len() < lp.len());
        }
        let rel = sub_chars(&lp, np.len() + 1, lp.len());
        proof {
            assert(rel@ == rel_of(lp@, np@));
            assert(lp@ =~= np@.push('/') + rel@);
        }
        if is_text(&rel, "_fallback") {
            proof {
                crate::text::lemma_split_single(rel@);
            }
            self.set_fallback(parent, leaf);
            self.set_leaf_rel(leaf, String::from_str("<FALLBACK>"));
            proof {
                assert(holds(self.trees()[parent - 1], leaf));
            }
            return;
        }
        if is_text(&rel, "_middleware") {
            proof {
                crate::text::lemma_split_single(rel@);
            }
            self.set_middleware(parent, leaf);
            self.set_leaf_rel(leaf, String::from_str("<MIDDLEWARE>"));
            proof {
                assert(holds(self.trees()[parent - 1], leaf));
            }
            return;
        }
        if is_text(&rel, "_index") {
            proof {
                crate::text::lemma_split_single(rel@);
            }
            self.set_own_leaf(parent, leaf);
            let r = self.tree[parent - 1].rel_path.clone();
            self.set_leaf_rel(leaf, r);
            proof {
                assert(holds(self.trees()[parent - 1], leaf));
            }
            return;
        }
        let pieces = split_path(&rel);
        proof {
            crate::text::lemma_split_nonempty(rel@);
        }
        let last = &pieces[pieces.len() - 1];
        let last_conv = is_text(last, "_index") || is_text(last, "_fallback") || is_text(last, "_middleware");
        proof {
            assert(views(pieces@).last() == last@);
        }
        if last.len() > 0 && last[0] == '_' && !last_conv {
            return;
        }
        let found = self.find_sharing(parent, &rel);
        if let Some((j, c)) = found {
            let s = self.tree[parent - 1].children[j];
            proof {
                assert(child_ok(o.trees(), parent - 1, s));
            }
            let srel = chars_of(self.tree[s - 1].rel_path.as_str());
            let ghost sp = split(srel@);
            let ghost rp = split(rel@);
            let ghost k = shared_len(sp, rp) as int;
            proof {
                lemma_shared_len_bound(sp, rp);
                lemma_shared_len_take(sp, rp);
                lemma_join_split(rel@);
                lemma_join_split(srel@);
                assert(rp.take(k) == sp.take(k));
                if k == rp.len() {
                    assert(rp.take(k) == rp);
                }
                assert(k >= 1);
                assert(rp.take(k)[0] == rp[0]);
                assert(rp[0].len() > 0);
                lemma_join_len(rp.take(k));
                assert(c@.len() > 0);
                assert(o.trees()[s - 1].path@ == np@.push('/') + srel@);
                if srel@.len() > 0 {
                    assert(o.trees()[s - 1].path@.take(np@.len() + 1 as int) =~= np@.push('/'));
                }
                if k < rp.len() {
                    lemma_join_at(rp, k);
                    assert(rp.skip(k)[0] == rp[k]);
                    assert(rp[k].len() > 0);
                    lemma_join_len(rp.skip(k));
                }
            }
            if vec_eq(&c, &srel) {
                if vec_eq(&c, &rel) {
                    self.set_own_leaf(s, leaf);
                    self.set_leaf_rel(leaf, string_of(srel.as_slice()));
                    proof {
                        assert(holds(self.trees()[s - 1], leaf));
                        assert(below(o.trees()[s - 1].path@, np@));
                    }
                    return;
                }
                proof {
                    assert(k < rp.len());
                    assert(lp@ =~= o.trees()[s - 1].path@.push('/') + join(rp.skip(k)));
                    assert(lp@.take(o.trees()[s - 1].path@.len() + 1 as int) =~= o.trees()[s - 1].path@.push('/'));
                    assert(rel_of(lp@, o.trees()[s - 1].path@) =~= join(rp.skip(k)));
                    lemma_split_no_slash(rel@);
                    assert forall|i: int| 0 <= i < rp.skip(k).len() implies no_slash(#[trigger] rp.skip(k)[i]) by {
                        assert(rp.skip(k)[i] == rp[i + k]);
                    }
                    lemma_split_join(rp.skip(k));
                    assert(split(join(rp.skip(k))).last() == rp.last());
                }
                self.add_child(s, leaf);
                proof {
                    assert forall|i: int| 0 <= i < o.trees().len() && i != parent - 1
                        && !below(o.trees()[i].path@, np@) implies #[trigger] self.trees()[i] == o.trees()[i] by {
                        if i == s - 1 {
                            assert(below(o.trees()[s - 1].path@, np@));
                        } else if below(o.trees()[i].path@, o.trees()[s - 1].path@) {
                            lemma_below_trans(o.trees()[i].path@, o.trees()[s - 1].path@, np@, srel@);
                        }
                    }
                    assert(!below(np@, o.trees()[s - 1].path@));
                }
                return;
            }
            self.merge_at(parent, leaf, j, &c, &srel, &rel, &np, &lp);
            return;
        }
        if last_conv {
            let ghost rp = split(rel@);
            proof {
                lemma_join_split(rel@);
                if rp.len() == 1 {
                    assert(rel@ == rp[0]);
                }
                lemma_join_at(rp, rp.len() - 1);
                assert(rp.skip(rp.len() - 1) =~= seq![rp.last()]);
            }
            let dir = join_first(&pieces, pieces.len() - 1);
            let path_chars = concat_slash(&np, &dir);
            let dot = chars_of(".");
            let tail = chars_of("/_index.ts");
            let target = concat_chars(&concat_chars(&dot, &path_chars), &tail);
            let target = string_of(target.as_slice());
            let output = join_paths(target.as_str(), self.output_dir.as_str());
            let kid = self.push_node(
                parent,
                string_of(path_chars.as_slice()),
                string_of(dir.as_slice()),
                output,
                None,
                true,
            );
            let ghost mid = *self;
            proof {
                assert(rp.take(rp.len() - 1) =~= rp.drop_last());
                assert(lp@ =~= mid.trees()[kid - 1].path@.push('/') + rp.last());
                assert(rel_of(lp@, mid.trees()[kid - 1].path@) =~= rp.last());
                assert(lp@.take(mid.trees()[kid - 1].path@.len() + 1 as int) =~= mid.trees()[kid - 1].path@.push('/'));
            }
            self.add_child(kid, leaf);
            proof {
                assert(!below(np@, mid.trees()[kid - 1].path@));
                assert forall|i: int| 0 <= i < o.trees().len() && i != parent - 1
                    && !below(o.trees()[i].path@, np@) implies #[trigger] self.trees()[i] == o.trees()[i] by {
                    if below(o.trees()[i].path@, mid.trees()[kid - 1].path@) {
                        lemma_below_trans(o.trees()[i].path@, mid.trees()[kid - 1].path@, np@, dir@);
                    }
                }
            }
            return;
        }
        let path = self.leaf[leaf - 1].path.clone();
        let out = self.leaf[leaf - 1].output_path.clone();
        let nid = self.push_node(parent, path, string_of(rel.as_slice()), out, Some(leaf), false);
        self.set_leaf_rel(leaf, string_of(rel.as_slice()));
        proof {
            assert(holds(self.trees()[nid - 1], leaf));
        }
    }

    /// The first child of `parent` that shares leading segments with `rel`,
    /// with the shared part.
    fn find_sharing(&self, parent: usize, rel: &Vec<char>) -> (r: Option<(usize, Vec<char>)>)
        requires
            self.wf(),
            1 <= parent <= self.trees().len(),
        ensures
            r is None ==> none_shares(self.trees(), parent - 1, rel@),
            r matches Some((j, c)) ==> {
                let t = self.trees();
                &&& first_sharing(t, parent - 1, rel@, j as int)
                &&& common_path(t[t[parent - 1].children@[j as int] - 1].rel_path@, rel@) == Some(c@)
                &&& !none_shares(t, parent - 1, rel@)
                &&& forall|j2: int| #[trigger] first_sharing(t, parent - 1, rel@, j2) ==> j2 == j
            },
    {
        let n_children = self.tree[parent - 1].children.len();
        let mut j: usize = 0;
        while j < n_children
            invariant
                self.wf(),
                1 <= parent <= self.trees().len(),
                j <= n_children == self.trees()[parent - 1].children@.len(),
                forall|q: int| 0 <= q < j ==> common_path(
                    #[trigger] self.trees()[self.trees()[parent - 1].children@[q] - 1].rel_path@,
                    rel@,
                ) is None,
            decreases n_children - j,
        {
            let s = self.tree[parent - 1].children[j];
            proof {
                assert(child_ok(self.trees(), parent - 1, s));
            }
            let srel = chars_of(self.tree[s - 1].rel_path.as_str());
            if let Some(c) = common_path_of(&srel, rel) {
                proof {
                    let t = self.trees();
                    let rl = rel@;
                    assert(common_path(t[t[parent - 1].children@[j as int] - 1].rel_path@, rl) is Some);
                    assert forall|j2: int| #[trigger] first_sharing(t, parent - 1, rl, j2) implies j2 == j by {
                        if j2 < j {
                            assert(common_path(t[t[parent - 1].children@[j2] - 1].rel_path@, rl) is None);
                        } else if j2 > j {
                            assert(common_path(t[t[parent - 1].children@[j as int] - 1].rel_path@, rl) is None);
                        }
                    }
                }
                return Some((j, c));
            }
            j = j + 1;
        }
        None
    }

    /// The merge step of `add_child`: a new container at the shared part `c`
    /// takes the place of the `j`-th child of `parent`, and the leaf is
    /// placed under it.
    #[verifier::spinoff_prover]
    #[verifier::rlimit(60)]
    fn merge_at(
        &mut self,
        parent: usize,
        leaf: usize,
        j: usize,
        c: &Vec<char>,
        srel: &Vec<char>,
        rel: &Vec<char>,
        np: &Vec<char>,
        lp: &Vec<char>,
    )
        requires
            old(self).wf(),
            1 <= parent <= old(self).trees().len(),
            1 <= leaf <= old(self).leaves().len(),
            below(old(self).leaves()[leaf - 1].path@, old(self).trees()[parent - 1].path@),
            old(self).trees().len() + old(self).leaves()[leaf - 1].path@.len()
                - old(self).trees()[parent - 1].path@.len() < usize::MAX,
            np@ == old(self).trees()[parent - 1].path@,
            lp@ == old(self).leaves()[leaf - 1].path@,
            rel@ == rel_of(lp@, np@),
            lp@ == np@.push('/') + rel@,
            first_sharing(old(self).trees(), parent - 1, rel@, j as int),
            srel@ == old(self).trees()[old(self).trees()[parent - 1].children@[j as int] - 1].rel_path@,
            common_path(srel@, rel@) == Some(c@),
            c@ != srel@,
            !(split(rel@).last().len() > 0 && split(rel@).last()[0] == '_' && !is_convention(split(rel@).last())),
        ensures
            placed(*old(self), *final(self), parent, leaf),
            held(*old(self), *final(self), parent, leaf),
            same_but_children(old(self).trees()[parent - 1], final(self).trees()[parent - 1]),
            ({
                let ot = old(self).trees();
                let ft = final(self).trees();
                let n = ot.len() as int;
                let s = ot[parent - 1].children@[j as int];
                plain_route(rel@) && c@ != rel@ ==> {
                    &&& ft.len() == n + 2
                    &&& ft[n].path@ == ot[parent - 1].path@.push('/') + c@
                    &&& ft[n].rel_path@ == c@
                    &&& ft[n].is_container
                    &&& ft[parent - 1].children@ == ot[parent - 1].children@.update(j as int, (n + 1) as usize)
                    &&& ft[n].children@ == seq![s, (n + 2) as usize]
                    &&& ft[s - 1].parent == Some((n + 1) as usize)
                    &&& ft[s - 1].leaf == ot[s - 1].leaf
                    &&& ft[s - 1].rel_path@ == ot[s - 1].rel_path@.skip(c@.len() + 1 as int)
                    &&& ft[s - 1].is_container == ot[s - 1].is_container
                    &&& ft[n + 1].leaf == Some(leaf)
                    &&& ft[n + 1].parent == Some((n + 1) as usize)
                    &&& ft[n + 1].path == old(self).leaves()[leaf - 1].path
                    &&& ft[n + 1].rel_path@ == rel_of(old(self).leaves()[leaf - 1].path@, ft[n].path@)
                    &&& !ft[n + 1].is_container
                    &&& ft[n + 1].children@.len() == 0
                    &&& same_but_children(ot[parent - 1], ft[parent - 1])
                }
            }),
            ({
                let ot = old(self).trees();
                let ft = final(self).trees();
                let n = ot.len() as int;
                let s = ot[parent - 1].children@[j as int];
                c@ == rel@ ==> {
                    &&& ft.len() == n + 1
                    &&& ft[n].path@ == ot[parent - 1].path@.push('/') + rel@
                    &&& ft[n].rel_path@ == rel@
                    &&& ft[n].is_container
                    &&& ft[n].leaf == Some(leaf)
                    &&& ft[n].children@ == seq![s]
                    &&& ft[parent - 1].children@ == ot[parent - 1].children@.update(j as int, (n + 1) as usize)
                    &&& same_but_children(ot[parent - 1], ft[parent - 1])
                    &&& ft[s - 1].parent == Some((n + 1) as usize)
                    &&& ft[s - 1].leaf == ot[s - 1].leaf
                    &&& ft[s - 1].rel_path@ == ot[s - 1].rel_path@.skip(rel@.len() + 1 as int)
                }
            }),
        decreases old(self).leaves()[leaf - 1].path@.len() - old(self).trees()[parent - 1].path@.len(), 0nat,
    {
        let ghost o = *self;
        let s = self.tree[parent - 1].children[j];
        proof {
            assert(child_ok(o.trees(), parent - 1, s));
        }
        let ghost sp = split(srel@);
        let ghost rp = split(rel@);
        let ghost k = shared_len(sp, rp) as int;
        proof {
            lemma_shared_len_bound(sp, rp);
            lemma_shared_len_take(sp, rp);
            lemma_join_split(rel@);
            lemma_join_split(srel@);
            assert(rp.take(k) == sp.take(k));
            if k == rp.len() {
                assert(rp.take(k) == rp);
            }
            assert(k >= 1);
            assert(rp.take(k)[0] == rp[0]);
            assert(rp[0].len() > 0);
            lemma_join_len(rp.take(k));
            assert(o.trees()[s - 1].path@ == np@.push('/') + srel@);
            assert(srel@.len() > 0) by {
                lemma_join_len(sp);
                assert(sp.take(k)[0] == sp[0]);
                assert(sp[0] == rp[0]);
            }
            assert(o.trees()[s - 1].path@.take(np@.len() + 1 as int) =~= np@.push('/'));
            if k < rp.len() {
                lemma_join_at(rp, k);
                assert(rp.skip(k)[0] == rp[k]);
                assert(rp[k].len() > 0);
                lemma_join_len(rp.skip(k));
            }
        }
        proof {
            if k == sp.len() {
                assert(sp.take(k) == sp);
            }
            assert(k < sp.len());
            lemma_join_at(sp, k);
        }
        let rest = sub_chars(&srel, c.len() + 1, srel.len());
        proof {
            assert(srel@ =~= c@.push('/') + rest@);
        }
        let kid = self.wrap_child(parent, j, &c, &rest);
        if vec_eq(&c, &rel) {
            self.set_own_leaf(kid, leaf);
            self.set_leaf_rel(leaf, string_of(c.as_slice()));
            proof {
                assert(holds(self.trees()[kid - 1], leaf));
                assert(below(o.trees()[s - 1].path@, np@));
            }
            return;
        }
        let ghost mid = *self;
        proof {
            assert(k < rp.len());
            assert(lp@ =~= mid.trees()[kid - 1].path@.push('/') + join(rp.skip(k)));
            assert(rel_of(lp@, mid.trees()[kid - 1].path@) =~= join(rp.skip(k)));
            lemma_split_no_slash(rel@);
            lemma_split_no_slash(srel@);
            assert forall|i: int| 0 <= i < rp.skip(k).len() implies no_slash(#[trigger] rp.skip(k)[i]) by {
                assert(rp.skip(k)[i] == rp[i + k]);
            }
            assert forall|i: int| 0 <= i < sp.skip(k).len() implies no_slash(#[trigger] sp.skip(k)[i]) by {
                assert(sp.skip(k)[i] == sp[i + k]);
            }
            lemma_split_join(rp.skip(k));
            lemma_split_join(sp.skip(k));
            assert(join(sp.take(k)) == c@);
            assert(rest@ =~= srel@.skip(c@.len() + 1 as int));
            assert(join(sp.skip(k)) =~= srel@.skip(c@.len() + 1 as int));
            lemma_shared_len_stops(sp, rp);
            assert(split(rest@)[0] == sp[k]);
            assert(split(join(rp.skip(k)))[0] == rp[k]);
            lemma_common_path_bounds(rest@, join(rp.skip(k)));
            assert(split(join(rp.skip(k))).last() == rp.last());
            assert(mid.trees()[kid - 1].children@ == seq![s]);
            assert(none_shares(mid.trees(), kid - 1, join(rp.skip(k))));
            assert(lp@.take(mid.trees()[kid - 1].path@.len() + 1 as int) =~= mid.trees()[kid - 1].path@.push('/'));
        }
        self.add_child(kid, leaf);
        proof {
            assert forall|i: int| 0 <= i < o.trees().len() && i != parent - 1
                && !below(o.trees()[i].path@, np@) implies #[trigger] self.trees()[i] == o.trees()[i] by {
                if i == s - 1 {
                    assert(below(o.trees()[s - 1].path@, np@));
                } else if below(o.trees()[i].path@, mid.trees()[kid - 1].path@) {
                    lemma_below_trans(o.trees()[i].path@, mid.trees()[kid - 1].path@, np@, c@);
                }
            }
            assert(!below(np@, mid.trees()[kid - 1].path@));
        }
    }

}

} // verus!
