use vstd::prelude::*;
use crate::leaf::HttpLeaf;
use crate::text::{chars_of, concat_chars, string_of, sub_chars};

verus! {

/// The index just after the last `c` in `s`; zero where there is none.
pub open spec fn after_last(s: Seq<char>, c: char) -> int
    decreases s.len(),
{
    if s.len() == 0 {
        0
    } else if s.last() == c {
        s.len() as int
    } else {
        after_last(s.drop_last(), c)
    }
}

proof fn lemma_after_last_range(s: Seq<char>, c: char)
    ensures
        0 <= after_last(s, c) <= s.len(),
    decreases s.len(),
{
    if s.len() > 0 && s.last() != c {
        lemma_after_last_range(s.drop_last(), c);
    }
}

/// `s` with the extension of its file name replaced by `ext` (removed where
/// `ext` is empty). A name's extension follows its last `.`, unless that
/// `.` starts the name; a path with no file name, or ending in `..`, stays.
pub open spec fn with_extension_spec(s: Seq<char>, ext: Seq<char>) -> Seq<char> {
    let k = after_last(s, '/');
    let name = s.skip(k);
    if name.len() == 0 || name == seq!['.', '.'] {
        s
    } else {
        let d = after_last(name, '.');
        let stem = if d > 1 { name.take(d - 1) } else { name };
        let tail = if ext.len() > 0 { seq!['.'] + ext } else { Seq::empty() };
        s.take(k) + stem + tail
    }
}

fn after_last_exec(s: &Vec<char>, c: char) -> (r: usize)
    ensures
        r as int == after_last(s@, c),
        r <= s.len(),
{
    let mut i = s.len();
    proof {
        assert(s@.take(s@.len() as int) =~= s@);
    }
    while i > 0
        invariant
            i <= s.len(),
            after_last(s@, c) == after_last(s@.take(i as int), c),
        decreases i,
    {
        proof {
            assert(s@.take(i as int).drop_last() =~= s@.take(i - 1));
        }
        if s[i - 1] == c {
            return i;
        }
        i = i - 1;
    }
    0
}

/// Replaces the extension of the path's file name (see
/// `with_extension_spec`).
pub fn with_extension(path: &str, ext: &str) -> (r: String)
    ensures
        r@ == with_extension_spec(path@, ext@),
{
    let s = chars_of(path);
    let k = after_last_exec(&s, '/');
    let name = sub_chars(&s, k, s.len());
    proof {
        assert(name@ =~= s@.skip(k as int));
    }
    if name.len() == 0 || (name.len() == 2 && name[0] == '.' && name[1] == '.') {
        proof {
            if name@.len() == 2 && name@[0] == '.' && name@[1] == '.' {
                assert(name@ =~= seq!['.', '.']);
            }
        }
        return string_of(s.as_slice());
    }
    proof {
        if name@ == seq!['.', '.'] {
            assert(name@.len() == 2);
        }
    }
    let d = after_last_exec(&name, '.');
    let stem = if d > 1 { sub_chars(&name, 0, d - 1) } else { sub_chars(&name, 0, name.len()) };
    let mut tail: Vec<char> = Vec::new();
    let e = chars_of(ext);
    if e.len() > 0 {
        tail.push('.');
        tail = concat_chars(&tail, &e);
    }
    let head = sub_chars(&s, 0, k);
    let r = concat_chars(&concat_chars(&head, &stem), &tail);
    proof {
        assert(name@.subrange(0, name@.len() as int) =~= name@);
        assert(head@ =~= s@.take(k as int));
        if e@.len() > 0 {
            assert(tail@ =~= seq!['.'] + ext@);
        } else {
            assert(tail@ =~= Seq::<char>::empty());
        }
        if d > 1 {
            assert(stem@ =~= name@.take(d - 1));
        }
    }
    string_of(r.as_slice())
}

/// A view template and where its generated script goes.
#[derive(Debug)]
pub struct ViewLeaf {
    file_path: String,
    output_path: String,
}

impl ViewLeaf {
    pub closed spec fn spec_file_path(&self) -> Seq<char> {
        self.file_path@
    }

    pub closed spec fn spec_output_path(&self) -> Seq<char> {
        self.output_path@
    }

    /// The view of a discovered file: its output is a `.ts` script.
    pub fn from_leaf(value: HttpLeaf) -> (r: ViewLeaf)
        ensures
            r.spec_file_path() == value.file_path@,
            r.spec_output_path() == with_extension_spec(value.output_path@, "ts"@),
    {
        ViewLeaf {
            file_path: value.file_path,
            output_path: with_extension(value.output_path.as_str(), "ts"),
        }
    }

    pub fn output_path(&self) -> (r: String)
        ensures
            r@ == self.spec_output_path(),
    {
        self.output_path.clone()
    }

    pub fn file_path(&self) -> (r: String)
        ensures
            r@ == self.spec_file_path(),
    {
        self.file_path.clone()
    }
}

} // verus!
