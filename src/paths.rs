use vstd::prelude::*;
use crate::text::{chars_of, join, join_first, split, split_path, string_of, views};

verus! {

/// Whether a piece is `.`.
pub open spec fn is_cur(p: Seq<char>) -> bool {
    p == seq!['.']
}

/// Whether a piece is `..`.
pub open spec fn is_up(p: Seq<char>) -> bool {
    p == seq!['.', '.']
}

/// One step of walking a path: `..` drops the last component, an empty piece
/// or `.` changes nothing, anything else is appended.
pub open spec fn step(c: Seq<Seq<char>>, p: Seq<char>) -> Seq<Seq<char>> {
    if is_up(p) {
        if c.len() > 0 {
            c.drop_last()
        } else {
            c
        }
    } else if p.len() == 0 || is_cur(p) {
        c
    } else {
        c.push(p)
    }
}

/// Walks the pieces `t` in order, starting from the components `c`.
pub open spec fn walk(c: Seq<Seq<char>>, t: Seq<Seq<char>>) -> Seq<Seq<char>>
    decreases t.len(),
{
    if t.len() == 0 {
        c
    } else {
        step(walk(c, t.drop_last()), t.last())
    }
}

/// Whether the path starts at the root.
pub open spec fn is_abs(s: Seq<char>) -> bool {
    s.len() > 0 && s[0] == '/'
}

/// Components written out, after a `/` for an absolute path.
pub open spec fn render(abs: bool, c: Seq<Seq<char>>) -> Seq<char> {
    if abs {
        seq!['/'] + join(c)
    } else {
        join(c)
    }
}

/// The pieces that name components: all but empty pieces and `.`.
pub open spec fn keep(p: Seq<Seq<char>>) -> Seq<Seq<char>>
    decreases p.len(),
{
    if p.len() == 0 {
        Seq::empty()
    } else {
        let k = keep(p.drop_last());
        if p.last().len() == 0 || is_cur(p.last()) {
            k
        } else {
            k.push(p.last())
        }
    }
}

/// The components of a path as written: `..` included, and a `.` that
/// starts the path.
pub open spec fn components(s: Seq<char>) -> Seq<Seq<char>> {
    let p = split(s);
    if is_cur(p[0]) {
        seq![p[0]] + keep(p.drop_first())
    } else {
        keep(p)
    }
}

/// `target` resolved against the directory `base`; an absolute target stands
/// as it is.
pub open spec fn joined(target: Seq<char>, base: Seq<char>) -> Seq<char> {
    if is_abs(target) {
        target
    } else {
        render(is_abs(base), walk(components(base), split(target)))
    }
}

/// `target` resolved from the root.
pub open spec fn normalized(target: Seq<char>) -> Seq<char> {
    render(true, walk(Seq::empty(), split(target)))
}

/// The directory that holds `s`; `None` for a path with no component.
pub open spec fn parent_of(s: Seq<char>) -> Option<Seq<char>> {
    let c = components(s);
    if c.len() == 0 {
        None
    } else {
        Some(render(is_abs(s), c.drop_last()))
    }
}

fn is_up_exec(p: &Vec<char>) -> (r: bool)
    ensures
        r == is_up(p@),
{
    let r = p.len() == 2 && p[0] == '.' && p[1] == '.';
    proof {
        if p@.len() == 2 && p@[0] == '.' && p@[1] == '.' {
            assert(p@ =~= seq!['.', '.']);
        }
    }
    r
}

fn is_cur_exec(p: &Vec<char>) -> (r: bool)
    ensures
        r == is_cur(p@),
{
    let r = p.len() == 1 && p[0] == '.';
    proof {
        if p@.len() == 1 && p@[0] == '.' {
            assert(p@ =~= seq!['.']);
        }
    }
    r
}

fn copy_chars(p: &Vec<char>) -> (r: Vec<char>)
    ensures
        r@ == p@,
{
    let mut r: Vec<char> = Vec::new();
    let mut i: usize = 0;
    while i < p.len()
        invariant
            i <= p.len(),
            r@ == p@.take(i as int),
        decreases p.len() - i,
    {
        r.push(p[i]);
        proof {
            assert(p@.take(i as int + 1) =~= p@.take(i as int).push(p@[i as int]));
        }
        i = i + 1;
    }
    assert(p@.take(p@.len() as int) =~= p@);
    r
}

/// Walks `pieces` from the components in `c`.
fn walk_exec(c: &mut Vec<Vec<char>>, pieces: &Vec<Vec<char>>)
    ensures
        views(final(c)@) == walk(views(old(c)@), views(pieces@)),
{
    let ghost start = views(c@);
    let mut i: usize = 0;
    proof {
        assert(views(pieces@).take(0) =~= Seq::<Seq<char>>::empty());
    }
    while i < pieces.len()
        invariant
            i <= pieces.len(),
            views(c@) == walk(start, views(pieces@).take(i as int)),
        decreases pieces.len() - i,
    {
        let p = &pieces[i];
        let ghost before = views(c@);
        proof {
            let t = views(pieces@).take(i as int + 1);
            assert(t.drop_last() =~= views(pieces@).take(i as int));
            assert(t.last() == p@);
        }
        if is_up_exec(p) {
            if c.len() > 0 {
                c.pop();
                proof {
                    assert(views(c@) =~= before.drop_last());
                }
            }
        } else if p.len() == 0 || is_cur_exec(p) {
        } else {
            c.push(copy_chars(p));
            proof {
                assert(views(c@) =~= before.push(p@));
            }
        }
        i = i + 1;
    }
    proof {
        assert(views(pieces@).take(pieces@.len() as int) =~= views(pieces@));
    }
}

fn render_exec(abs: bool, c: &Vec<Vec<char>>) -> (r: Vec<char>)
    ensures
        r@ == render(abs, views(c@)),
{
    let body = join_first(c, c.len());
    proof {
        assert(views(c@).take(c@.len() as int) =~= views(c@));
    }
    if abs {
        let mut r: Vec<char> = vec!['/'];
        let mut i: usize = 0;
        while i < body.len()
            invariant
                i <= body.len(),
                r@ == seq!['/'] + body@.take(i as int),
            decreases body.len() - i,
        {
            r.push(body[i]);
            proof {
                assert(body@.take(i as int + 1) =~= body@.take(i as int).push(body@[i as int]));
            }
            i = i + 1;
        }
        assert(body@.take(body@.len() as int) =~= body@);
        r
    } else {
        body
    }
}

fn components_exec(s: &Vec<char>) -> (r: Vec<Vec<char>>)
    ensures
        views(r@) == components(s@),
{
    let mut c: Vec<Vec<char>> = Vec::new();
    let pieces = split_path(s);
    proof {
        crate::text::lemma_split_nonempty(s@);
    }
    let lead = is_cur_exec(&pieces[0]);
    let st: usize = if lead { 1 } else { 0 };
    if lead {
        c.push(copy_chars(&pieces[0]));
    }
    let ghost pre = views(c@);
    let mut i: usize = st;
    proof {
        assert(views(pieces@).subrange(st as int, st as int) =~= Seq::<Seq<char>>::empty());
        assert(views(c@) =~= pre + keep(Seq::<Seq<char>>::empty()));
    }
    while i < pieces.len()
        invariant
            st <= i <= pieces.len(),
            views(pieces@) == split(s@),
            views(c@) == pre + keep(views(pieces@).subrange(st as int, i as int)),
        decreases pieces.len() - i,
    {
        let p = &pieces[i];
        let ghost before = views(c@);
        proof {
            let t = views(pieces@).subrange(st as int, i as int + 1);
            assert(t.drop_last() =~= views(pieces@).subrange(st as int, i as int));
            assert(t.last() == p@);
        }
        if !(p.len() == 0 || is_cur_exec(p)) {
            c.push(copy_chars(p));
            proof {
                assert(views(c@) =~= before.push(p@));
                let k = keep(views(pieces@).subrange(st as int, i as int));
                assert(pre + k.push(p@) =~= (pre + k).push(p@));
            }
        }
        i = i + 1;
    }
    proof {
        let v = views(pieces@);
        if lead {
            assert(v.subrange(1, v.len() as int) =~= v.drop_first());
            assert(pre =~= seq![v[0]]);
        } else {
            assert(v.subrange(0, v.len() as int) =~= v);
            assert(pre =~= Seq::<Seq<char>>::empty());
            assert(views(c@) =~= keep(v));
        }
    }
    c
}

/// Resolves `target` against the directory `base`, lexically: the base's
/// components stay as written, the target's `.` pieces are skipped and its
/// `..` pieces drop the last component. An absolute `target` is returned as
/// it is.
pub fn join_paths(target: &str, base: &str) -> (r: String)
    ensures
        r@ == joined(target@, base@),
{
    let t = chars_of(target);
    if t.len() > 0 && t[0] == '/' {
        return string_of(t.as_slice());
    }
    let b = chars_of(base);
    let mut c = components_exec(&b);
    let pieces = split_path(&t);
    walk_exec(&mut c, &pieces);
    let abs = b.len() > 0 && b[0] == '/';
    let r = render_exec(abs, &c);
    string_of(r.as_slice())
}

/// Resolves `target` from the root, lexically.
pub fn normalize_path(target: &str) -> (r: String)
    ensures
        r@ == normalized(target@),
{
    let t = chars_of(target);
    let mut c: Vec<Vec<char>> = Vec::new();
    let pieces = split_path(&t);
    proof {
        assert(views(c@) =~= Seq::<Seq<char>>::empty());
    }
    walk_exec(&mut c, &pieces);
    let r = render_exec(true, &c);
    string_of(r.as_slice())
}

/// The directory that holds `path`, or `None` where `path` names no
/// component.
pub fn parent_dir(path: &str) -> (r: Option<String>)
    ensures
        r matches Some(s) ==> parent_of(path@) == Some(s@),
        r is None ==> parent_of(path@) is None,
{
    let p = chars_of(path);
    let mut c = components_exec(&p);
    if c.len() == 0 {
        return None;
    }
    let ghost full = views(c@);
    c.pop();
    proof {
        assert(views(c@) =~= full.drop_last());
    }
    let abs = p.len() > 0 && p[0] == '/';
    let r = render_exec(abs, &c);
    Some(string_of(r.as_slice()))
}

/// What pathdiff's `diff_paths` returns for a path and a base directory.
pub uninterp spec fn path_diff(path: Seq<char>, base: Seq<char>) -> Option<Seq<char>>;

/// Relies on pathdiff::diff_paths, the relative path from `base` to `path`
/// (the result depends on the two paths alone); its result, built from pieces
/// of two `str`, converts back to a `String` unchanged.
#[verifier::external_body]
pub(crate) fn diff_paths(path: &str, base: &str) -> (r: Option<String>)
    ensures
        r matches Some(s) ==> path_diff(path@, base@) == Some(s@),
        r is None ==> path_diff(path@, base@) is None,
{
    pathdiff::diff_paths(path, base).and_then(|p| p.to_str().map(|s| s.to_string()))
}

/// A relative path as imports write it: one that does not start with `.`
/// gets a leading `./`.
pub open spec fn dotted(s: Seq<char>) -> Seq<char> {
    if s.len() > 0 && s[0] == '.' {
        s
    } else {
        seq!['.', '/'] + s
    }
}

/// The relative path from `base` to `target`, in import form.
pub open spec fn relative_spec(target: Seq<char>, base: Seq<char>) -> Option<Seq<char>> {
    match path_diff(target, base) {
        Some(d) => Some(dotted(d)),
        None => None,
    }
}

/// Puts a relative path that `diff_paths` gave into import form.
pub fn dot_relative(diff: Option<String>) -> (r: Option<String>)
    ensures
        r matches Some(s) ==> diff matches Some(d) && s@ == dotted(d@),
        r is None <==> diff is None,
{
    match diff {
        None => None,
        Some(d) => {
            let c = chars_of(d.as_str());
            if c.len() > 0 && c[0] == '.' {
                Some(d)
            } else {
                let mut r = String::from_str("./");
                proof {
                    reveal_strlit("./");
                }
                r.append(d.as_str());
                proof {
                    assert(r@ =~= dotted(d@));
                }
                Some(r)
            }
        }
    }
}

/// The relative path from the directory `base` to `target`, starting with
/// `.` (`./` is added where the difference does not start with `.`).
pub fn relative_path(target: &str, base: &str) -> (r: Option<String>)
    ensures
        r matches Some(s) ==> relative_spec(target@, base@) == Some(s@),
        r is None ==> relative_spec(target@, base@) is None,
{
    dot_relative(diff_paths(target, base))
}

/// How messages name a file: relative to the directory `cwd` where that can
/// be had, else as it is.
pub open spec fn display_name(file: Seq<char>, cwd: Seq<char>) -> Seq<char> {
    match path_diff(file, cwd) {
        Some(d) => d,
        None => file,
    }
}

/// The file's path relative to the directory `cwd`, else the path itself.
pub fn display_path(file: &str, cwd: &str) -> (r: String)
    ensures
        r@ == display_name(file@, cwd@),
{
    match diff_paths(file, cwd) {
        Some(d) => d,
        None => String::from_str(file),
    }
}

} // verus!
