use vstd::prelude::*;
use crate::container::{inserted, is_convention, plain_route, pulled, same_but_children, WalkerContainer};
use crate::text::common_path;
use crate::leaf::HttpLeaf;
use crate::options::CompileContext;
use crate::paths::{diff_paths, join_paths, joined, path_diff};
use crate::text::{chars_of, concat_chars, string_of};
use crate::views::{with_extension, with_extension_spec};

verus! {

/// The url path of the route file at `relative` below the routes
/// directory: the relative path without its extension, from the root.
pub open spec fn route_path(relative: Seq<char>) -> Seq<char> {
    seq!['/'] + with_extension_spec(relative, Seq::empty())
}

/// The arena that discovery starts from: the root alone, with id 1, whose
/// file is `_index` in the output directory.
pub open spec fn fresh(c: WalkerContainer, out_dir: Seq<char>) -> bool {
    &&& c.wf()
    &&& c.out_dir() == out_dir
    &&& c.root_id() == Some(1usize)
    &&& c.trees().len() == 1
    &&& c.leaves().len() == 0
    &&& c.trees()[0].is_root
    &&& c.trees()[0].path@.len() == 0
    &&& c.trees()[0].output_path@ == joined("_index"@, out_dir)
    &&& c.trees()[0].children@.len() == 0
    &&& c.trees()[0].parent is None
    &&& c.trees()[0].leaf is None
    &&& c.trees()[0].fallback is None
    &&& c.trees()[0].middleware is None
}

/// `mid` is `a` with one more leaf, for the route file `e` at `rel` below the
/// routes directory; the leaf is not placed yet.
pub open spec fn added(a: WalkerContainer, mid: WalkerContainer, e: Seq<char>, rel: Seq<char>) -> bool {
    let l = mid.leaves().last();
    &&& mid.wf()
    &&& mid.trees() == a.trees()
    &&& mid.root_id() == a.root_id()
    &&& mid.out_dir() == a.out_dir()
    &&& mid.leaves().len() == a.leaves().len() + 1
    &&& mid.leaves().len() <= usize::MAX
    &&& mid.leaves().drop_last() == a.leaves()
    &&& l.path@ == route_path(rel)
    &&& l.file_path@ == e
    &&& l.output_path@ == joined(rel, a.out_dir())
    &&& l.rel_path@.len() == 0
    &&& l.content is None
}

/// A leaf at url path `p` is placed under the root: `p` names more than the
/// root, and the arena has room for the nodes that placing it may add.
pub open spec fn fits(c: WalkerContainer, p: Seq<char>) -> bool {
    p.len() > 1 && c.trees().len() + p.len() < usize::MAX
}

/// One step of discovery, for the route file `e`: a file below `input`
/// adds its leaf, giving `mid`, and `add_child` then places the leaf under
/// the root (see `inserted` and `pulled`); any other file changes nothing.
pub open spec fn step(a: WalkerContainer, mid: WalkerContainer, b: WalkerContainer, e: Seq<char>, input: Seq<char>) -> bool {
    match path_diff(e, input) {
        None => b == a,
        Some(rel) => added(a, mid, e, rel) && if fits(mid, route_path(rel)) {
            inserted(mid, b, 1, mid.leaves().len() as usize) && pulled(mid, b, 1, mid.leaves().len() as usize)
        } else {
            b == mid
        },
    }
}

/// `states` is a run of discovery over the route files `entries`, in order,
/// from the fresh arena to `r`; `mids` holds the arena of each step once
/// its leaf is added.
pub open spec fn discovered(
    states: Seq<WalkerContainer>,
    mids: Seq<WalkerContainer>,
    entries: Seq<String>,
    input: Seq<char>,
    out_dir: Seq<char>,
    r: WalkerContainer,
) -> bool {
    &&& states.len() == entries.len() + 1
    &&& mids.len() == entries.len()
    &&& fresh(states[0], out_dir)
    &&& forall|k: int| 0 <= k < entries.len() ==> step(#[trigger] states[k], mids[k], states[k + 1], entries[k]@, input)
    &&& states.last() == r
}

/// Builds the route tree of the route files `entries` found below
/// `input_path`, in their order: each file becomes a leaf whose url path is
/// its path relative to `input_path` without extension, whose output goes
/// to the same relative place below `folder_name` in the output directory,
/// and which `add_child` places under the root. Returns the arena and the
/// root's id, which is 1.
pub fn walker_tree_discover(
    folder_name: &str,
    input_path: &str,
    ctx: &CompileContext,
    entries: &Vec<String>,
) -> (r: (WalkerContainer, usize))
    ensures
        r.1 == 1,
        r.0.wf(),
        r.0.root_id() == Some(1usize),
        r.0.out_dir() == joined(folder_name@, ctx.output_dir@),
        r.0.trees()[0].is_root,
        exists|states: Seq<WalkerContainer>, mids: Seq<WalkerContainer>|
            discovered(states, mids, entries@, input_path@, joined(folder_name@, ctx.output_dir@), r.0),
{
    let output_dir = join_paths(folder_name, ctx.output_dir.as_str());
    let mut container = WalkerContainer::new(output_dir.as_str());
    let root = container.create_root();
    let ghost mut states = seq![container];
    let ghost mut mids: Seq<WalkerContainer> = Seq::empty();
    let mut k: usize = 0;
    while k < entries.len()
        invariant
            k <= entries@.len(),
            root == 1,
            container.wf(),
            container.out_dir() == output_dir@,
            container.root_id() == Some(1usize),
            container.trees().len() >= 1,
            container.leaves().len() <= k,
            container.trees()[0].is_root,
            container.trees()[0].path@.len() == 0,
            output_dir@ == joined(folder_name@, ctx.output_dir@),
            states.len() == k + 1,
            mids.len() == k,
            fresh(states[0], output_dir@),
            forall|j: int| 0 <= j < k ==> step(#[trigger] states[j], mids[j], states[j + 1], entries@[j]@, input_path@),
            states.last() == container,
        decreases entries.len() - k,
    {
        let ghost a = container;
        let ghost mut m = container;
        let entry = &entries[k];
        match diff_paths(entry.as_str(), input_path) {
            None => {
                proof {
                    assert(step(a, m, container, entries@[k as int]@, input_path@));
                }
            },
            Some(relative) => {
                let stem = chars_of(with_extension(relative.as_str(), "").as_str());
                let slash: Vec<char> = vec!['/'];
                let p = concat_chars(&slash, &stem);
                let path = string_of(p.as_slice());
                let output_path = join_paths(relative.as_str(), output_dir.as_str());
                proof {
                    reveal_strlit("");
                    assert(""@ =~= Seq::<char>::empty());
                    assert(slash@ =~= seq!['/']);
                    assert(p@ == route_path(relative@));
                }
                let leaf = HttpLeaf::new(path, entry.clone(), output_path);
                let id = container.add_leaf(leaf);
                let ghost mid = container;
                proof {
                    assert(id as int == mid.leaves().len());
                    assert(mid.leaves().drop_last() =~= a.leaves());
                    assert(added(a, mid, entry@, relative@));
                }
                if p.len() > 1 && container.tree_count() < usize::MAX - p.len() {
                    proof {
                        assert(p@[0] == '/');
                        assert(p@.take(1) =~= Seq::<char>::empty().push('/'));
                        assert(container.leaves()[id - 1].path@ == p@);
                        assert(container.trees()[root - 1].path@ =~= Seq::<char>::empty());
                    }
                    container.add_child(root, id);
                }
                proof {
                    assert(added(a, mid, entry@, relative@) && if fits(mid, route_path(relative@)) {
                        inserted(mid, container, 1, mid.leaves().len() as usize)
                    } else {
                        container == mid
                    });
                    assert(entries@[k as int]@ == entry@);
                    assert(path_diff(entries@[k as int]@, input_path@) == Some(relative@));
                    assert(added(a, mid, entries@[k as int]@, relative@));
                    m = mid;
                    assert(step(a, m, container, entries@[k as int]@, input_path@));
                }
            },
        }
        proof {
            let old_states = states;
            let old_mids = mids;
            states = states.push(container);
            mids = mids.push(m);
            assert forall|j: int| 0 <= j < k + 1 implies step(#[trigger] states[j], mids[j], states[j + 1], entries@[j]@, input_path@) by {
                if j < k {
                    assert(mids[j] == old_mids[j]);
                    assert(states[j] == old_states[j]);
                    assert(states[j + 1] == old_states[j + 1]);
                }
            }
        }
        k = k + 1;
    }
    proof {
        assert(discovered(states, mids, entries@, input_path@, output_dir@, container));
    }
    (container, root)
}

/// Builds the route tree of the http routes (see `walker_tree_discover`).
pub fn http_discover(compile_context: &CompileContext, entries: &Vec<String>) -> (r: (WalkerContainer, usize))
    ensures
        r.1 == 1,
        r.0.wf(),
        r.0.root_id() == Some(1usize),
        r.0.out_dir() == joined("http"@, compile_context.output_dir@),
        r.0.trees()[0].is_root,
        exists|states: Seq<WalkerContainer>, mids: Seq<WalkerContainer>|
            discovered(
                states,
                mids,
                entries@,
                compile_context.routes_path@,
                joined("http"@, compile_context.output_dir@),
                r.0,
            ),
{
    walker_tree_discover("http", compile_context.routes_path.as_str(), compile_context, entries)
}


/// Two ordinary route files whose url paths share leading segments `c`,
/// neither path being `c` itself, are discovered into a container at `/`
/// and `c` that holds both routes' nodes, the first route's node keeping
/// its leaf. The four nodes' paths, relative paths and kinds are fixed by
/// the two routes and `c`; since the common prefix of two paths does not
/// depend on their order (`lemma_merge_prefix_order_free`), discovering the
/// two files in either order gives the same nodes, up to ids and child
/// order.
pub proof fn lemma_discover_merges(
    states: Seq<WalkerContainer>,
    mids: Seq<WalkerContainer>,
    entries: Seq<String>,
    input: Seq<char>,
    out_dir: Seq<char>,
    r: WalkerContainer,
    rel1: Seq<char>,
    rel2: Seq<char>,
    c: Seq<char>,
)
    requires
        discovered(states, mids, entries, input, out_dir, r),
        entries.len() == 2,
        path_diff(entries[0]@, input) == Some(rel1),
        path_diff(entries[1]@, input) == Some(rel2),
        with_extension_spec(rel1, Seq::empty()).len() > 0,
        with_extension_spec(rel2, Seq::empty()).len() > 0,
        with_extension_spec(rel1, Seq::empty()).len() + 3 < usize::MAX,
        with_extension_spec(rel2, Seq::empty()).len() + 3 < usize::MAX,
        plain_route(with_extension_spec(rel1, Seq::empty())),
        plain_route(with_extension_spec(rel2, Seq::empty())),
        common_path(with_extension_spec(rel1, Seq::empty()), with_extension_spec(rel2, Seq::empty())) == Some(c),
        c != with_extension_spec(rel1, Seq::empty()),
        c != with_extension_spec(rel2, Seq::empty()),
    ensures
        r.trees().len() == 4,
        r.trees()[0].children@ == seq![3usize],
        r.trees()[2].is_container,
        r.trees()[2].path@ == seq!['/'] + c,
        r.trees()[2].rel_path@ == c,
        r.trees()[2].children@ == seq![2usize, 4usize],
        r.trees()[0].path@.len() == 0,
        r.trees()[1].leaf == Some(1usize),
        r.trees()[1].path@ == route_path(rel1),
        r.trees()[1].rel_path@ == with_extension_spec(rel1, Seq::empty()).skip(c.len() + 1 as int),
        !r.trees()[1].is_container,
        r.trees()[3].leaf == Some(2usize),
        r.trees()[3].path@ == route_path(rel2),
        r.trees()[3].rel_path@ == with_extension_spec(rel2, Seq::empty()).skip(c.len() + 1 as int),
        !r.trees()[3].is_container,
{
    let u1 = with_extension_spec(rel1, Seq::empty());
    let u2 = with_extension_spec(rel2, Seq::empty());
    assert(step(states[0], mids[0], states[1], entries[0]@, input));
    assert(step(states[1], mids[1], states[2], entries[1]@, input));
    let (s0, m0, s1, m1) = (states[0], mids[0], states[1], mids[1]);
    assert(m0.leaves().last().path@ == route_path(rel1));
    assert(m0.leaves()[0] == m0.leaves().last());
    assert(route_path(rel1).skip(1) =~= u1);
    assert(fits(m0, route_path(rel1)));
    assert(inserted(m0, s1, 1, 1));
    assert(s1.trees().len() == 2);
    assert(s1.trees()[0].children@ == seq![2usize]);
    assert(s1.trees()[1].rel_path@ == u1);
    assert(m1.leaves()[1] == m1.leaves().last());
    assert(route_path(rel2).skip(1) =~= u2);
    assert(fits(m1, route_path(rel2)));
    assert(inserted(m1, r, 1, 2));
    let ot = m1.trees();
    assert(ot[0].children@[0] == 2usize);
    assert(ot[0].path@ =~= Seq::<char>::empty());
    assert(ot[0].path@.push('/') + c =~= seq!['/'] + c);
    assert(ot[0].children@.update(0, 3usize) =~= seq![3usize]);
    assert(r.trees()[3].rel_path@ =~= with_extension_spec(rel2, Seq::empty()).skip(c.len() + 1 as int));
}


/// No route file in `entries` is the top `_index`.
pub open spec fn no_top_index(entries: Seq<String>, input: Seq<char>) -> bool {
    forall|k: int|
        0 <= k < entries.len() && #[trigger] path_diff(entries[k]@, input) is Some ==> with_extension_spec(
            path_diff(entries[k]@, input)->0,
            Seq::empty(),
        ) != "_index"@
}

proof fn lemma_root_output_upto(
    states: Seq<WalkerContainer>,
    mids: Seq<WalkerContainer>,
    entries: Seq<String>,
    input: Seq<char>,
    out_dir: Seq<char>,
    r: WalkerContainer,
    k: int,
)
    requires
        discovered(states, mids, entries, input, out_dir, r),
        no_top_index(entries, input),
        0 <= k <= entries.len(),
    ensures
        states[k].wf(),
        states[k].trees().len() >= 1,
        states[k].trees()[0].output_path@ == joined("_index"@, out_dir),
        states[k].trees()[0].path@.len() == 0,
        states[k].trees()[0].is_root,
    decreases k,
{
    if k > 0 {
        let j = k - 1;
        lemma_root_output_upto(states, mids, entries, input, out_dir, r, j);
        assert(step(states[j], mids[j], states[j + 1], entries[j]@, input));
        let (m, b) = (mids[j], states[j + 1]);
        match path_diff(entries[j]@, input) {
            None => {},
            Some(rel) => {
                let u = with_extension_spec(rel, Seq::empty());
                if fits(m, route_path(rel)) {
                    assert(inserted(m, b, 1, m.leaves().len() as usize));
                    assert(m.leaves()[m.leaves().len() - 1] == m.leaves().last());
                    assert(route_path(rel).skip(1) =~= u);
                    assert((m.leaves().len() as usize) as int == m.leaves().len());
                    assert(m.trees()[0].path@.len() == 0);
                    assert(m.leaves().last().path@ == route_path(rel));
                    if !is_convention(u) {
                        assert(same_but_children(m.trees()[0], b.trees()[0]));
                    }
                }
            },
        }
    }
}

/// Without a route file at the top named `_index`, the root keeps its file,
/// `_index` in the output directory.
pub proof fn lemma_root_output_kept(
    states: Seq<WalkerContainer>,
    mids: Seq<WalkerContainer>,
    entries: Seq<String>,
    input: Seq<char>,
    out_dir: Seq<char>,
    r: WalkerContainer,
)
    requires
        discovered(states, mids, entries, input, out_dir, r),
        no_top_index(entries, input),
    ensures
        r.trees()[0].output_path@ == joined("_index"@, out_dir),
        r.trees()[0].is_root,
{
    lemma_root_output_upto(states, mids, entries, input, out_dir, r, entries.len() as int);
}

} // verus!
