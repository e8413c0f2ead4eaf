use vstd::prelude::*;
use crate::text::{chars_of, decimal, decimal_string, split, split_path, string_of, views};

verus! {

/// Name of the serialised segment list in generated code.
pub const SERIAL_PREFIX: &'static str = "__matcher_serial";

/// Prefix of the matcher helpers in generated code.
pub const MATCHER_PREFIX: &'static str = "__matcher_matcher_";

/// Kept for generated code that prepares a target before matching.
pub const PREPARE_PREFIX: &'static str = "__matcher_prepare";

/// One `/`-separated piece of a route: matched literally, or captured under a
/// name.
#[derive(Debug, Clone)]
pub enum UrlMatcherSegment {
    Static(String),
    Var(String),
}

/// A piece as the matcher reads it: a piece that starts with `$` captures
/// under the rest of its text.
pub open spec fn classify(p: Seq<char>) -> (bool, Seq<char>) {
    if p.len() > 0 && p[0] == '$' {
        (true, p.drop_first())
    } else {
        (false, p)
    }
}

impl UrlMatcherSegment {
    /// Whether it captures, and its raw text or captured name.
    pub open spec fn spec_kind(&self) -> (bool, Seq<char>) {
        match self {
            UrlMatcherSegment::Static(raw) => (false, raw@),
            UrlMatcherSegment::Var(name) => (true, name@),
        }
    }

    /// The object literal that describes the piece in generated code.
    pub open spec fn json_spec(&self) -> Seq<char> {
        match self {
            UrlMatcherSegment::Static(raw) => "{ raw: \""@ + raw@ + "\", isVar: false }"@,
            UrlMatcherSegment::Var(name) => "{ raw: \"$"@ + name@ + "\", isVar: true, varname: \""@
                + name@ + "\" }"@,
        }
    }

    pub fn is_static(&self) -> (r: bool)
        ensures
            r == !self.spec_kind().0,
    {
        match self {
            Self::Static(_) => true,
            _ => false,
        }
    }

    pub fn is_var(&self) -> (r: bool)
        ensures
            r == self.spec_kind().0,
    {
        match self {
            Self::Var(_) => true,
            _ => false,
        }
    }

    /// The piece as a JavaScript object literal: its raw text, whether it
    /// captures, and the captured name.
    pub fn to_json(&self) -> (r: String)
        ensures
            r@ == self.json_spec(),
    {
        match self {
            Self::Static(raw) => {
                let mut r = String::from_str("{ raw: \"");
                r.append(raw.as_str());
                r.append("\", isVar: false }");
                r
            },
            Self::Var(name) => {
                let mut r = String::from_str("{ raw: \"$");
                r.append(name.as_str());
                r.append("\", isVar: true, varname: \"");
                r.append(name.as_str());
                r.append("\" }");
                r
            },
        }
    }
}

/// The matcher of one route: its pieces and whether any captures.
#[derive(Debug, Clone)]
pub struct UrlMatcher {
    pub url: String,
    pub segments: Vec<UrlMatcherSegment>,
    pub has_variables: bool,
}

/// The segment list serialised as a JavaScript array.
pub open spec fn json_list(s: Seq<UrlMatcherSegment>) -> Seq<char>
    decreases s.len(),
{
    if s.len() == 0 {
        Seq::empty()
    } else if s.len() == 1 {
        s[0].json_spec()
    } else {
        json_list(s.drop_last()) + ","@ + s.last().json_spec()
    }
}

/// The helper that tests a full match, binding captures.
pub open spec fn exact_helper() -> Seq<char> {
    "const __matcher_matcher_EXACT = (target, serial, resultMap, paramMap) => {
  if (target.length !== serial.length) return false;

  for (let i = 0; i < target.length; i++) {
    const targetParam = target[i];
    const serialParam = serial[i];

    if (serialParam.isVar) {
      paramMap.set(serialParam.varname, targetParam);
    } else if (serialParam.raw !== targetParam) {
      return false;
    }
  }

  for (const [key, value] of paramMap) {
    resultMap.set(key, value);
  }

  return true;
};
"@
}

/// The helper that tests a prefix match, binding captures.
pub open spec fn start_helper() -> Seq<char> {
    "const __matcher_matcher_START = (target, serial, resultMap, paramMap) => {
  if (target.length < serial.length) return false;

  for (let i = 0; i < serial.length; i++) {
    if (!target[i]) return false;

    const serialParam = serial[i];
    const targetParam = target[i];

    if (serialParam.isVar) {
      paramMap.set(serialParam.varname, targetParam);
    } else if (serialParam.raw !== targetParam) {
      return false;
    }
  }

  for (const [key, value] of paramMap.entries()) {
    resultMap.set(key, value);
  }

  return true;
}"@
}

impl UrlMatcher {
    /// The matcher reads `url`: its pieces classified one by one.
    pub open spec fn wf(&self) -> bool {
        let p = split(self.url@);
        &&& self.segments@.len() == p.len()
        &&& forall|i: int| 0 <= i < p.len() ==> #[trigger] self.segments@[i].spec_kind() == classify(p[i])
        &&& self.has_variables == exists|i: int| 0 <= i < p.len() && #[trigger] classify(p[i]).0
    }

    /// The text of `exact_decl`.
    pub open spec fn exact_spec(&self, val: Seq<char>) -> Seq<char> {
        val + ".__accumulator__.segments.length === 0"@
    }

    /// The text of `start_decl`.
    pub open spec fn start_spec(&self, req: Seq<char>) -> Seq<char> {
        if self.has_variables {
            "__matcher_matcher_START("@ + req + ".__accumulator__.segments, __matcher_serial, "@ + req
                + ".params, new Map())"@
        } else {
            req + ".__accumulator__.path.startsWith('"@ + self.url@ + "')"@
        }
    }

    /// The text of `update_decl`.
    pub open spec fn update_spec(&self, val: Seq<char>) -> Seq<char> {
        let acc = val + ".__accumulator__"@;
        acc + ".segments = "@ + acc + ".segments.slice("@ + decimal(self.consumed()) + ");\n"@ + acc
            + ".path = "@ + acc + ".segments.join(\"/\");"@
    }

    /// The text of `serial_decl`.
    pub open spec fn serial_spec(&self) -> Seq<char> {
        if self.has_variables {
            "const __matcher_serial = ["@ + json_list(self.segments@) + "];\n"@ + exact_helper() + "\n"@
                + start_helper()
        } else {
            Seq::empty()
        }
    }

    /// How many leading pieces of the request the route consumes.
    pub open spec fn consumed(&self) -> nat {
        if self.url@ == "/"@ && self.segments@.len() > 0 {
            (self.segments@.len() - 1) as nat
        } else {
            self.segments@.len()
        }
    }

    /// Splits `url` on `/`; a piece that starts with `$` captures.
    pub fn new(url: String) -> (r: UrlMatcher)
        ensures
            r.url@ == url@,
            r.wf(),
    {
        let c = chars_of(url.as_str());
        let pieces = split_path(&c);
        let mut segments: Vec<UrlMatcherSegment> = Vec::new();
        let mut has_variables = false;
        let mut i: usize = 0;
        while i < pieces.len()
            invariant
                i <= pieces.len(),
                views(pieces@) == split(c@),
                segments@.len() == i,
                forall|j: int| 0 <= j < i ==> #[trigger] segments@[j].spec_kind() == classify(views(pieces@)[j]),
                has_variables == exists|j: int| 0 <= j < i && #[trigger] classify(views(pieces@)[j]).0,
            decreases pieces.len() - i,
        {
            let p = &pieces[i];
            if p.len() > 0 && p[0] == '$' {
                let name = string_of(p.as_slice().split_at(1).1);
                proof {
                    assert(name@ =~= p@.drop_first());
                }
                segments.push(UrlMatcherSegment::Var(name));
                has_variables = true;
            } else {
                segments.push(UrlMatcherSegment::Static(string_of(p.as_slice())));
            }
            proof {
                assert(views(pieces@)[i as int] == p@);
                assert(classify(views(pieces@)[i as int]).0 ==> exists|j: int| 0 <= j < i + 1 && #[trigger] classify(views(pieces@)[j]).0);
            }
            i = i + 1;
        }
        proof {
            assert(views(pieces@) == split(url@));
            assert(views(pieces@).len() == pieces@.len());
        }
        let r = UrlMatcher { url, segments, has_variables };
        proof {
            let p = split(r.url@);
            assert(r.segments@.len() == p.len());
            assert(forall|i: int| 0 <= i < p.len() ==> #[trigger] r.segments@[i].spec_kind() == classify(p[i]));
            assert(r.has_variables == exists|i: int| 0 <= i < p.len() && #[trigger] classify(p[i]).0);
        }
        r
    }

    /// True where the request has no piece left to match.
    pub fn exact_decl(&self, val: &str) -> (r: String)
        ensures
            r@ == self.exact_spec(val@),
    {
        let mut r = String::from_str(val);
        r.append(".__accumulator__.segments.length === 0");
        r
    }

    /// True where the request's remaining pieces start with this route: a
    /// textual prefix test, or the prefix helper where a piece captures.
    pub fn start_decl(&self, req: &str) -> (r: String)
        ensures
            r@ == self.start_spec(req@),
    {
        if self.has_variables {
            let mut r = String::from_str("__matcher_matcher_START(");
            r.append(req);
            r.append(".__accumulator__.segments, __matcher_serial, ");
            r.append(req);
            r.append(".params, new Map())");
            r
        } else {
            let mut r = String::from_str(req);
            r.append(".__accumulator__.path.startsWith('");
            r.append(self.url.as_str());
            r.append("')");
            r
        }
    }

    /// Drops the pieces that this route consumed from the request's
    /// remaining pieces, and rebuilds the remaining path.
    pub fn update_decl(&self, val: &str) -> (r: String)
        ensures
            r@ == self.update_spec(val@),
    {
        let mut acc = String::from_str(val);
        acc.append(".__accumulator__");
        let n = self.segments.len();
        let u = chars_of(self.url.as_str());
        let root = u.len() == 1 && u[0] == '/';
        proof {
            reveal_strlit("/");
            if root {
                assert(u@ =~= "/"@);
            }
            if self.url@ == "/"@ {
                assert(u@[0] == '/');
            }
        }
        let k: usize = if root && n > 0 { n - 1 } else { n };
        let count = decimal_string(k as u64);
        let mut r = String::from_str(acc.as_str());
        r.append(".segments = ");
        r.append(acc.as_str());
        r.append(".segments.slice(");
        r.append(count.as_str());
        r.append(");\n");
        r.append(acc.as_str());
        r.append(".path = ");
        r.append(acc.as_str());
        r.append(".segments.join(\"/\");");
        r
    }

    /// The serialised segment list and the two matcher helpers, emitted once
    /// per route and only where a piece captures.
    pub fn serial_decl(&self) -> (r: String)
        ensures
            !self.has_variables ==> r@.len() == 0,
            r@ == self.serial_spec(),
    {
        if !self.has_variables {
            let r = String::new();
            proof {
                assert(r@ =~= self.serial_spec());
            }
            return r;
        }
        let mut r = String::from_str("const __matcher_serial = [");
        let mut i: usize = 0;
        let ghost head = r@;
        while i < self.segments.len()
            invariant
                i <= self.segments@.len(),
                head == "const __matcher_serial = ["@,
                r@ == head + json_list(self.segments@.take(i as int)),
            decreases self.segments.len() - i,
        {
            let ghost t = self.segments@.take(i as int + 1);
            proof {
                assert(t.drop_last() =~= self.segments@.take(i as int));
            }
            if i > 0 {
                r.append(",");
            }
            let j = self.segments[i].to_json();
            r.append(j.as_str());
            proof {
                if i == 0 {
                    assert(json_list(self.segments@.take(0)) == Seq::<char>::empty());
                    assert(r@ =~= head + json_list(t));
                } else {
                    assert(r@ =~= head + json_list(t));
                }
            }
            i = i + 1;
        }
        proof {
            assert(self.segments@.take(self.segments@.len() as int) =~= self.segments@);
        }
        r.append("];\n");
        r.append("const __matcher_matcher_EXACT = (target, serial, resultMap, paramMap) => {
  if (target.length !== serial.length) return false;

  for (let i = 0; i < target.length; i++) {
    const targetParam = target[i];
    const serialParam = serial[i];

    if (serialParam.isVar) {
      paramMap.set(serialParam.varname, targetParam);
    } else if (serialParam.raw !== targetParam) {
      return false;
    }
  }

  for (const [key, value] of paramMap) {
    resultMap.set(key, value);
  }

  return true;
};
");
        r.append("\n");
        r.append("const __matcher_matcher_START = (target, serial, resultMap, paramMap) => {
  if (target.length < serial.length) return false;

  for (let i = 0; i < serial.length; i++) {
    if (!target[i]) return false;

    const serialParam = serial[i];
    const targetParam = target[i];

    if (serialParam.isVar) {
      paramMap.set(serialParam.varname, targetParam);
    } else if (serialParam.raw !== targetParam) {
      return false;
    }
  }

  for (const [key, value] of paramMap.entries()) {
    resultMap.set(key, value);
  }

  return true;
}");
        r
    }
}

} // verus!
