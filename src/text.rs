use vstd::prelude::*;

verus! {

/// Relies on str::chars: the characters of the string, in order; each takes
/// at least one byte, and no string is longer than `isize::MAX` bytes.
#[verifier::external_body]
pub(crate) fn chars_of(s: &str) -> (r: Vec<char>)
    ensures
        r@ == s@,
        r@.len() <= isize::MAX,
{
    s.chars().collect()
}

/// Relies on String's FromIterator<&char>: the string made of these characters.
#[verifier::external_body]
pub(crate) fn string_of(v: &[char]) -> (r: String)
    ensures
        r@ == v@,
{
    v.iter().collect()
}

/// The `/`-separated pieces of `s`, empty pieces included.
pub open spec fn split(s: Seq<char>) -> Seq<Seq<char>>
    decreases s.len(),
{
    if s.len() == 0 {
        seq![Seq::<char>::empty()]
    } else {
        let p = split(s.drop_last());
        if s.last() == '/' {
            p.push(Seq::<char>::empty())
        } else {
            p.update(p.len() - 1, p.last().push(s.last()))
        }
    }
}

/// The pieces joined back with `/` between them.
pub open spec fn join(p: Seq<Seq<char>>) -> Seq<char>
    decreases p.len(),
{
    if p.len() == 0 {
        Seq::<char>::empty()
    } else if p.len() == 1 {
        p[0]
    } else {
        join(p.drop_last()).push('/') + p.last()
    }
}

pub proof fn lemma_split_nonempty(s: Seq<char>)
    ensures
        split(s).len() >= 1,
    decreases s.len(),
{
    if s.len() > 0 {
        lemma_split_nonempty(s.drop_last());
    }
}

/// Joining the pieces of a path gives the path back.
pub proof fn lemma_join_split(s: Seq<char>)
    ensures
        join(split(s)) == s,
    decreases s.len(),
{
    if s.len() > 0 {
        let t = s.drop_last();
        lemma_join_split(t);
        lemma_split_nonempty(t);
        let p = split(t);
        if s.last() == '/' {
            let q = p.push(Seq::<char>::empty());
            assert(q.drop_last() == p);
            assert(join(q) == join(p).push('/') + Seq::<char>::empty());
            assert(s == t.push('/'));
        } else {
            let q = p.update(p.len() - 1, p.last().push(s.last()));
            if p.len() == 1 {
                assert(s == t.push(s.last()));
            } else {
                assert(q.drop_last() == p.drop_last());
                assert(join(p) == join(p.drop_last()).push('/') + p.last());
                assert(join(q) == join(p.drop_last()).push('/') + p.last().push(s.last()));
                assert(s == t.push(s.last()));
            }
        }
    }
}

/// Position of the first `c` in `s` at or after `from`.
pub open spec fn find_from(s: Seq<char>, c: char, from: int) -> Option<int>
    decreases s.len() - from,
{
    if from < 0 || from >= s.len() {
        None
    } else if s[from] == c {
        Some(from)
    } else {
        find_from(s, c, from + 1)
    }
}

/// The characters held by each vector.
pub open spec fn views(v: Seq<Vec<char>>) -> Seq<Seq<char>> {
    Seq::new(v.len(), |i: int| v[i]@)
}

/// Splits `s` on `/`, keeping empty pieces.
pub fn split_path(s: &Vec<char>) -> (r: Vec<Vec<char>>)
    ensures
        views(r@) == split(s@),
{
    let mut done: Vec<Vec<char>> = Vec::new();
    let mut cur: Vec<char> = Vec::new();
    let mut i: usize = 0;
    while i < s.len()
        invariant
            i <= s.len(),
            views(done@).push(cur@) == split(s@.take(i as int)),
        decreases s.len() - i,
    {
        let c = s[i];
        proof {
            assert(s@.take(i as int + 1).drop_last() == s@.take(i as int));
        }
        if c == '/' {
            let ghost before = views(done@);
            done.push(cur);
            cur = Vec::new();
            proof {
                assert(views(done@) =~= before.push(done[done.len() - 1]@));
            }
        } else {
            cur.push(c);
        }
        i = i + 1;
    }
    proof {
        assert(s@.take(s@.len() as int) == s@);
    }
    let ghost before = views(done@);
    let ghost last = cur@;
    done.push(cur);
    proof {
        assert(views(done@) =~= before.push(last));
    }
    done
}

/// Number of leading pieces that `a` and `b` have in common.
pub open spec fn shared_len(a: Seq<Seq<char>>, b: Seq<Seq<char>>) -> nat
    decreases a.len(),
{
    if a.len() == 0 || b.len() == 0 || a[0] != b[0] {
        0
    } else {
        1 + shared_len(a.drop_first(), b.drop_first())
    }
}

/// Some piece of `p` is empty.
pub open spec fn has_empty(p: Seq<Seq<char>>) -> bool {
    exists|i: int| 0 <= i < p.len() && #[trigger] p[i].len() == 0
}

/// The longest run of leading segments of `other` that `this` also starts with,
/// joined back with `/`; `None` when there is none, or when `other` has an
/// empty segment.
pub open spec fn common_path(this: Seq<char>, other: Seq<char>) -> Option<Seq<char>> {
    let o = split(other);
    let k = shared_len(split(this), o);
    if has_empty(o) || k == 0 {
        None
    } else {
        Some(join(o.take(k as int)))
    }
}

pub proof fn lemma_shared_len_bound(a: Seq<Seq<char>>, b: Seq<Seq<char>>)
    ensures
        shared_len(a, b) <= a.len(),
        shared_len(a, b) <= b.len(),
    decreases a.len(),
{
    if !(a.len() == 0 || b.len() == 0 || a[0] != b[0]) {
        lemma_shared_len_bound(a.drop_first(), b.drop_first());
    }
}

proof fn lemma_shared_len_prefix(a: Seq<Seq<char>>, b: Seq<Seq<char>>)
    requires
        b.len() <= a.len(),
        a.take(b.len() as int) == b,
    ensures
        shared_len(a, b) == b.len(),
    decreases b.len(),
{
    if b.len() > 0 {
        assert(a[0] == a.take(b.len() as int)[0]);
        assert(a.drop_first().take(b.len() - 1) =~= b.drop_first());
        lemma_shared_len_prefix(a.drop_first(), b.drop_first());
    }
}

/// What `get_common_path` promises: `None` as soon as the first segments
/// differ, and the whole candidate when the existing path begins with all of
/// its segments.
pub proof fn lemma_common_path_bounds(this: Seq<char>, other: Seq<char>)
    ensures
        split(other)[0] != split(this)[0] ==> common_path(this, other) is None,
        ({
            let o = split(other);
            let s = split(this);
            !has_empty(o) && o.len() <= s.len() && s.take(o.len() as int) == o
        }) ==> common_path(this, other) == Some(other),
{
    lemma_split_nonempty(this);
    lemma_split_nonempty(other);
    let o = split(other);
    let s = split(this);
    if !has_empty(o) && o.len() <= s.len() && s.take(o.len() as int) == o {
        lemma_shared_len_prefix(s, o);
        assert(o.take(o.len() as int) == o);
        lemma_join_split(other);
    }
}

/// Which of the two paths is the existing one does not matter: the common
/// prefix of two paths without empty segments is the same both ways.
pub proof fn lemma_common_path_symmetric(a: Seq<char>, b: Seq<char>)
    requires
        !has_empty(split(a)),
        !has_empty(split(b)),
    ensures
        common_path(a, b) == common_path(b, a),
{
    lemma_shared_len_sym(split(a), split(b));
    lemma_shared_len_bound(split(a), split(b));
    lemma_shared_len_take(split(a), split(b));
}

proof fn lemma_shared_len_sym(a: Seq<Seq<char>>, b: Seq<Seq<char>>)
    ensures
        shared_len(a, b) == shared_len(b, a),
    decreases a.len(),
{
    if !(a.len() == 0 || b.len() == 0 || a[0] != b[0]) {
        lemma_shared_len_sym(a.drop_first(), b.drop_first());
    }
}

pub proof fn lemma_shared_len_take(a: Seq<Seq<char>>, b: Seq<Seq<char>>)
    ensures
        a.take(shared_len(a, b) as int) == b.take(shared_len(a, b) as int),
    decreases a.len(),
{
    lemma_shared_len_bound(a, b);
    if !(a.len() == 0 || b.len() == 0 || a[0] != b[0]) {
        let (a1, b1) = (a.drop_first(), b.drop_first());
        lemma_shared_len_take(a1, b1);
        let k = shared_len(a, b) as int;
        assert forall|i: int| 0 <= i < k implies a.take(k)[i] == b.take(k)[i] by {
            if i > 0 {
                assert(a.take(k)[i] == a1.take(k - 1)[i - 1]);
                assert(b.take(k)[i] == b1.take(k - 1)[i - 1]);
            }
        }
        assert(a.take(k) =~= b.take(k));
    } else {
        assert(a.take(0) =~= b.take(0));
    }
}

/// Leading pieces that `a` and `b` have in common.
fn shared_count(a: &Vec<Vec<char>>, b: &Vec<Vec<char>>) -> (k: usize)
    ensures
        k == shared_len(views(a@), views(b@)),
{
    let mut k: usize = 0;
    proof {
        assert(views(a@).skip(0) == views(a@));
        assert(views(b@).skip(0) == views(b@));
    }
    while k < a.len() && k < b.len() && vec_eq(&a[k], &b[k])
        invariant
            k <= a.len(),
            k <= b.len(),
            shared_len(views(a@), views(b@)) == k + shared_len(
                views(a@).skip(k as int),
                views(b@).skip(k as int),
            ),
        decreases a.len() - k,
    {
        proof {
            assert(views(a@).skip(k as int).drop_first() == views(a@).skip(k as int + 1));
            assert(views(b@).skip(k as int).drop_first() == views(b@).skip(k as int + 1));
        }
        k = k + 1;
    }
    k
}

/// Whether two character vectors hold the same characters.
pub fn vec_eq(a: &Vec<char>, b: &Vec<char>) -> (r: bool)
    ensures
        r == (a@ == b@),
{
    if a.len() != b.len() {
        return false;
    }
    let mut i: usize = 0;
    while i < a.len()
        invariant
            a.len() == b.len(),
            i <= a.len(),
            forall|j: int| 0 <= j < i ==> a@[j] == b@[j],
        decreases a.len() - i,
    {
        if a[i] != b[i] {
            return false;
        }
        i = i + 1;
    }
    assert(a@ =~= b@);
    true
}

/// Joins the first `n` pieces with `/`.
pub fn join_first(p: &Vec<Vec<char>>, n: usize) -> (r: Vec<char>)
    requires
        n <= p.len(),
    ensures
        r@ == join(views(p@).take(n as int)),
{
    let mut r: Vec<char> = Vec::new();
    let mut i: usize = 0;
    proof {
        assert(views(p@).take(0) =~= Seq::<Seq<char>>::empty());
    }
    while i < n
        invariant
            i <= n <= p.len(),
            r@ == join(views(p@).take(i as int)),
        decreases n - i,
    {
        let ghost before = r@;
        let ghost q = views(p@).take(i as int + 1);
        proof {
            assert(q.drop_last() =~= views(p@).take(i as int));
        }
        if i > 0 {
            r.push('/');
        }
        let piece = &p[i];
        let mut j: usize = 0;
        let ghost mid = r@;
        while j < piece.len()
            invariant
                j <= piece.len(),
                r@ == mid + piece@.take(j as int),
            decreases piece.len() - j,
        {
            r.push(piece[j]);
            proof {
                assert(piece@.take(j as int + 1) =~= piece@.take(j as int).push(piece@[j as int]));
            }
            j = j + 1;
        }
        proof {
            assert(piece@.take(piece@.len() as int) =~= piece@);
            if i == 0 {
                assert(r@ =~= q[0]);
            } else {
                assert(r@ =~= join(q.drop_last()).push('/') + q.last());
            }
        }
        i = i + 1;
    }
    r
}

/// Computes `common_path`.
pub fn common_path_of(this: &Vec<char>, other: &Vec<char>) -> (r: Option<Vec<char>>)
    ensures
        r matches Some(v) ==> common_path(this@, other@) == Some(v@),
        r is None ==> common_path(this@, other@) is None,
{
    let o = split_path(other);
    let s = split_path(this);
    let mut i: usize = 0;
    while i < o.len()
        invariant
            i <= o.len(),
            views(o@) == split(other@),
            forall|j: int| 0 <= j < i ==> views(o@)[j].len() > 0,
        decreases o.len() - i,
    {
        if o[i].len() == 0 {
            proof {
                assert(views(o@)[i as int].len() == 0);
            }
            return None;
        }
        i = i + 1;
    }
    let k = shared_count(&s, &o);
    if k == 0 {
        return None;
    }
    proof {
        lemma_shared_len_bound(views(s@), views(o@));
    }
    Some(join_first(&o, k))
}

/// The decimal digit for `d`.
pub open spec fn digit(d: nat) -> char {
    if d == 0 { '0' }
    else if d == 1 { '1' }
    else if d == 2 { '2' }
    else if d == 3 { '3' }
    else if d == 4 { '4' }
    else if d == 5 { '5' }
    else if d == 6 { '6' }
    else if d == 7 { '7' }
    else if d == 8 { '8' }
    else { '9' }
}

/// `n` written in decimal.
pub open spec fn decimal(n: nat) -> Seq<char>
    decreases n,
{
    if n < 10 {
        seq![digit(n)]
    } else {
        decimal(n / 10).push(digit(n % 10))
    }
}

fn digit_exec(d: u64) -> (c: char)
    requires
        d < 10,
    ensures
        c == digit(d as nat),
{
    if d == 0 { '0' }
    else if d == 1 { '1' }
    else if d == 2 { '2' }
    else if d == 3 { '3' }
    else if d == 4 { '4' }
    else if d == 5 { '5' }
    else if d == 6 { '6' }
    else if d == 7 { '7' }
    else if d == 8 { '8' }
    else { '9' }
}

/// Writes `n` in decimal.
pub fn decimal_string(n: u64) -> (r: String)
    ensures
        r@ == decimal(n as nat),
{
    let v = decimal_chars(n);
    string_of(v.as_slice())
}

fn decimal_chars(n: u64) -> (r: Vec<char>)
    ensures
        r@ == decimal(n as nat),
    decreases n,
{
    if n < 10 {
        vec![digit_exec(n)]
    } else {
        let mut v = decimal_chars(n / 10);
        v.push(digit_exec(n % 10));
        v
    }
}

/// A path splits at any segment boundary into the segments before and after
/// it, with one `/` between.
pub proof fn lemma_join_at(p: Seq<Seq<char>>, k: int)
    requires
        0 < k < p.len(),
    ensures
        join(p) == join(p.take(k)).push('/') + join(p.skip(k)),
    decreases p.len(),
{
    if k == p.len() - 1 {
        assert(p.take(k) == p.drop_last());
        assert(p.skip(k) =~= seq![p.last()]);
    } else {
        let q = p.drop_last();
        lemma_join_at(q, k);
        assert(q.take(k) == p.take(k));
        assert(p.skip(k).drop_last() =~= q.skip(k));
        assert(p.skip(k).last() == p.last());
        assert(p.skip(k).len() >= 2);
        assert(join(p.skip(k)) == join(q.skip(k)).push('/') + p.last());
        assert(join(p) == join(q).push('/') + p.last());
        assert(join(p) =~= join(p.take(k)).push('/') + join(p.skip(k)));
    }
}

/// A joined path is at least as long as its first segment.
pub proof fn lemma_join_len(p: Seq<Seq<char>>)
    requires
        p.len() > 0,
    ensures
        join(p).len() >= p[0].len(),
    decreases p.len(),
{
    if p.len() > 1 {
        lemma_join_len(p.drop_last());
    }
}

/// The characters of `v` from `from` up to `to`.
pub fn sub_chars(v: &Vec<char>, from: usize, to: usize) -> (r: Vec<char>)
    requires
        from <= to <= v.len(),
    ensures
        r@ == v@.subrange(from as int, to as int),
{
    let mut r: Vec<char> = Vec::new();
    let mut i: usize = from;
    while i < to
        invariant
            from <= i <= to <= v.len(),
            r@ == v@.subrange(from as int, i as int),
        decreases to - i,
    {
        r.push(v[i]);
        proof {
            assert(v@.subrange(from as int, i as int + 1) =~= v@.subrange(from as int, i as int).push(v@[i as int]));
        }
        i = i + 1;
    }
    r
}

/// `a`, then `b`.
pub fn concat_chars(a: &Vec<char>, b: &Vec<char>) -> (r: Vec<char>)
    ensures
        r@ == a@ + b@,
{
    let mut r = sub_chars(a, 0, a.len());
    let mut i: usize = 0;
    proof {
        assert(a@.subrange(0, a@.len() as int) =~= a@);
    }
    while i < b.len()
        invariant
            i <= b.len(),
            r@ == a@ + b@.take(i as int),
        decreases b.len() - i,
    {
        r.push(b[i]);
        proof {
            assert(b@.take(i as int + 1) =~= b@.take(i as int).push(b@[i as int]));
        }
        i = i + 1;
    }
    assert(b@.take(b@.len() as int) =~= b@);
    r
}

/// `a`, a `/`, then `b`.
pub fn concat_slash(a: &Vec<char>, b: &Vec<char>) -> (r: Vec<char>)
    ensures
        r@ == a@.push('/') + b@,
{
    let mut a2 = sub_chars(a, 0, a.len());
    a2.push('/');
    proof {
        assert(a@.subrange(0, a@.len() as int) =~= a@);
    }
    concat_chars(&a2, b)
}

/// Whether `v` holds exactly the characters of `name`.
pub fn is_text(v: &Vec<char>, name: &str) -> (r: bool)
    ensures
        r == (v@ == name@),
{
    let n = chars_of(name);
    vec_eq(v, &n)
}

/// `s` holds no `/`.
pub open spec fn no_slash(s: Seq<char>) -> bool {
    forall|i: int| 0 <= i < s.len() ==> s[i] != '/'
}

/// The pieces of a split hold no `/`.
pub proof fn lemma_split_no_slash(s: Seq<char>)
    ensures
        forall|i: int| 0 <= i < split(s).len() ==> no_slash(#[trigger] split(s)[i]),
    decreases s.len(),
{
    if s.len() > 0 {
        lemma_split_no_slash(s.drop_last());
        lemma_split_nonempty(s.drop_last());
        let p = split(s.drop_last());
        if s.last() != '/' {
            let q = p.last().push(s.last());
            assert(no_slash(p.last()));
            assert(no_slash(q));
        }
    }
}

/// A string without `/` is one piece.
pub proof fn lemma_split_single(s: Seq<char>)
    requires
        no_slash(s),
    ensures
        split(s) == seq![s],
    decreases s.len(),
{
    if s.len() > 0 {
        lemma_split_single(s.drop_last());
        assert(s.drop_last().push(s.last()) =~= s);
    } else {
        assert(s =~= Seq::<char>::empty());
    }
}

/// Splitting at a `/` splits the two sides apart.
pub proof fn lemma_split_concat(a: Seq<char>, b: Seq<char>)
    ensures
        split(a.push('/') + b) == split(a) + split(b),
    decreases b.len(),
{
    let x = a.push('/') + b;
    if b.len() == 0 {
        assert(x =~= a.push('/'));
        assert(x.drop_last() =~= a);
        assert(split(a).push(Seq::<char>::empty()) =~= split(a) + seq![Seq::<char>::empty()]);
    } else {
        lemma_split_concat(a, b.drop_last());
        lemma_split_nonempty(b.drop_last());
        assert(x.drop_last() =~= a.push('/') + b.drop_last());
        assert(x.last() == b.last());
        let pa = split(a);
        let pb = split(b.drop_last());
        if b.last() == '/' {
            assert((pa + pb).push(Seq::<char>::empty()) =~= pa + pb.push(Seq::<char>::empty()));
        } else {
            let q = pa + pb;
            assert(q.last() == pb.last());
            assert(q.update(q.len() - 1, q.last().push(b.last())) =~= pa + pb.update(pb.len() - 1, pb.last().push(b.last())));
        }
    }
}

/// Pieces without `/` split back out of their join.
pub proof fn lemma_split_join(q: Seq<Seq<char>>)
    requires
        q.len() >= 1,
        forall|i: int| 0 <= i < q.len() ==> no_slash(#[trigger] q[i]),
    ensures
        split(join(q)) == q,
    decreases q.len(),
{
    if q.len() == 1 {
        lemma_split_single(q[0]);
        assert(seq![q[0]] =~= q);
    } else {
        let d = q.drop_last();
        assert(forall|i: int| 0 <= i < d.len() ==> #[trigger] d[i] == q[i]);
        lemma_split_join(d);
        lemma_split_concat(join(d), q.last());
        lemma_split_single(q.last());
        assert(d + seq![q.last()] =~= q);
    }
}

/// The common run of segments stops at the first pair that differs.
pub proof fn lemma_shared_len_stops(a: Seq<Seq<char>>, b: Seq<Seq<char>>)
    requires
        shared_len(a, b) < a.len(),
        shared_len(a, b) < b.len(),
    ensures
        a[shared_len(a, b) as int] != b[shared_len(a, b) as int],
    decreases a.len(),
{
    if !(a.len() == 0 || b.len() == 0 || a[0] != b[0]) {
        lemma_shared_len_stops(a.drop_first(), b.drop_first());
    }
}

/// The first index at or after `i` where `p` occurs in `s`.
pub open spec fn find_text_from(s: Seq<char>, p: Seq<char>, i: int) -> Option<int>
    decreases s.len() + 1 - i,
{
    if i < 0 || i + p.len() > s.len() {
        None
    } else if s.subrange(i, i + p.len() as int) == p {
        Some(i)
    } else {
        find_text_from(s, p, i + 1)
    }
}

/// Finds `p` in `s` from index `i` on.
pub fn find_text(s: &Vec<char>, p: &Vec<char>, i: usize) -> (r: Option<usize>)
    ensures
        r is None ==> find_text_from(s@, p@, i as int) is None,
        r matches Some(k) ==> find_text_from(s@, p@, i as int) == Some(k as int) && k + p@.len() <= s@.len(),
{
    let mut k = i;
    while k <= s.len() && p.len() <= s.len() - k
        invariant
            i <= k,
            find_text_from(s@, p@, i as int) == find_text_from(s@, p@, k as int),
        decreases s.len() + 1 - k,
    {
        let mut j: usize = 0;
        let mut same = true;
        while j < p.len()
            invariant
                j <= p.len(),
                k + p.len() <= s.len(),
                same == (s@.subrange(k as int, k + j) =~= p@.take(j as int)),
            decreases p.len() - j,
        {
            let ghost was = same;
            same = same && s[k + j] == p[j];
            proof {
                let a = s@.subrange(k as int, k + j + 1);
                let b = p@.take(j + 1);
                assert(a.drop_last() =~= s@.subrange(k as int, k + j));
                assert(b.drop_last() =~= p@.take(j as int));
                assert(a.last() == s@[k + j]);
                assert(b.last() == p@[j as int]);
                if same {
                    assert(a =~= b);
                }
                if a =~= b {
                    assert(a.drop_last() =~= b.drop_last());
                }
            }
            j = j + 1;
        }
        proof {
            assert(p@.take(p@.len() as int) =~= p@);
        }
        if same {
            return Some(k);
        }
        proof {
            if p@.len() == 0 {
                assert(s@.subrange(k as int, k as int) =~= p@.take(0));
            }
        }
        k = k + 1;
    }
    None
}

/// Pieces joined with `sep` between them.
pub open spec fn join_sep(p: Seq<Seq<char>>, sep: Seq<char>) -> Seq<char>
    decreases p.len(),
{
    if p.len() == 0 {
        Seq::empty()
    } else if p.len() == 1 {
        p[0]
    } else {
        join_sep(p.drop_last(), sep) + sep + p.last()
    }
}

/// Joins the strings with `sep` between them.
pub fn join_strings(p: &Vec<String>, sep: &str) -> (r: String)
    ensures
        r@ == join_sep(Seq::new(p@.len(), |i: int| p@[i]@), sep@),
{
    let ghost pv = Seq::new(p@.len(), |i: int| p@[i]@);
    let mut r = String::new();
    let mut i: usize = 0;
    while i < p.len()
        invariant
            i <= p.len(),
            pv == Seq::new(p@.len(), |i: int| p@[i]@),
            r@ == join_sep(pv.take(i as int), sep@),
        decreases p.len() - i,
    {
        proof {
            assert(pv.take(i as int + 1).drop_last() =~= pv.take(i as int));
        }
        if i > 0 {
            r.append(sep);
        }
        r.append(p[i].as_str());
        proof {
            if i == 0 {
                assert(pv.take(0) =~= Seq::<Seq<char>>::empty());
                assert(r@ =~= pv.take(1)[0]);
            }
        }
        i = i + 1;
    }
    proof {
        assert(pv.take(p@.len() as int) =~= pv);
    }
    r
}

/// Finds the character `c` in `s` from index `from` on.
pub fn find_char(s: &Vec<char>, c: char, from: usize) -> (r: Option<usize>)
    ensures
        r is None ==> find_from(s@, c, from as int) is None,
        r matches Some(k) ==> find_from(s@, c, from as int) == Some(k as int) && k < s@.len(),
{
    let mut k = from;
    while k < s.len()
        invariant
            from <= k,
            find_from(s@, c, from as int) == find_from(s@, c, k as int),
        decreases s.len() - k,
    {
        if s[k] == c {
            return Some(k);
        }
        k = k + 1;
    }
    None
}

/// A found character lies at or after the start and holds that character.
pub proof fn lemma_find_from_range(s: Seq<char>, c: char, from: int)
    ensures
        find_from(s, c, from) matches Some(k) ==> from <= k < s.len() && s[k] == c,
    decreases s.len() - from,
{
    if 0 <= from < s.len() && s[from] != c {
        lemma_find_from_range(s, c, from + 1);
    }
}

} // verus!
