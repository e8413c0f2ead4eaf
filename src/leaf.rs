use vstd::prelude::*;
use crate::parser::{
    handler_view, HttpHandler, handlers_view, http_parse, method_name, opt_view, parse_spec, HTTPMethod, HttpParseError,
    ParseOutcome, REQ_PARAM,
};
use crate::paths::{
    display_name, display_path, join_paths, joined, parent_dir, parent_of, relative_path, relative_spec,
};
use crate::text::{chars_of, find_char, find_from, find_text, find_text_from, is_text, join_sep, join_strings, string_of, sub_chars};

verus! {

/// One route source file.
#[derive(Debug, Clone)]
pub struct HttpLeaf {
    /// The absolute url path of the route.
    pub path: String,
    /// The url path relative to the node that holds the route.
    pub rel_path: String,
    /// Where the source file is.
    pub file_path: String,
    /// Where the generated file goes.
    pub output_path: String,
    /// The source text, once read.
    pub content: Option<String>,
}

impl HttpLeaf {
    /// A route that is not placed yet, whose source has not been read.
    pub fn new(path: String, file_path: String, output_path: String) -> (r: HttpLeaf)
        ensures
            r.path == path,
            r.rel_path@.len() == 0,
            r.file_path == file_path,
            r.output_path == output_path,
            r.content is None,
    {
        HttpLeaf { path, rel_path: String::new(), file_path, output_path, content: None }
    }
}

/// Where an import of `path`, written in the file at `file`, points from the
/// file at `out`: a path that starts with `.` is resolved against the
/// source's directory, and a `.` or `/` path is then made relative to the
/// output's directory; any other path names a module and stays.
pub open spec fn resolve_spec(file: Seq<char>, out: Seq<char>, path: Seq<char>) -> Option<Seq<char>> {
    if path.len() > 0 && (path[0] == '.' || path[0] == '/') {
        let absolute = if path[0] == '.' {
            match parent_of(file) {
                Some(d) => Some(joined(path, d)),
                None => None,
            }
        } else {
            Some(path)
        };
        match (absolute, parent_of(out)) {
            (Some(a), Some(o)) => relative_spec(a, o),
            _ => None,
        }
    } else {
        Some(path)
    }
}

/// An import statement for the resolved path.
pub open spec fn import_statement(inner: Option<Seq<char>>, path: Seq<char>) -> Seq<char> {
    match inner {
        Some(x) => "import "@ + x + " from \""@ + path + "\""@,
        None => "import \""@ + path + "\""@,
    }
}

/// The import statements of `s`, rewritten for the output file, and the
/// text after the last one; or the message of a malformed import.
pub open spec fn import_scan(s: Seq<char>, file: Seq<char>, out: Seq<char>) -> Result<(Seq<Seq<char>>, Seq<char>), Seq<char>>
    decreases s.len(),
{
    match find_text_from(s, "import"@, 0) {
        None => Ok((Seq::empty(), s)),
        Some(i) => if i + 7 > s.len() {
            Ok((Seq::empty(), s))
        } else {
            let c = s.skip(i + 7);
            match find_from(c, '"', 0) {
                None => Ok((Seq::empty(), s)),
                Some(q) => {
                    let from = if q < 7 {
                        Some(None)
                    } else {
                        match find_text_from(c, "from"@, 0) {
                            None => None,
                            Some(f) => Some(Some(c.take(if f >= 1 { f - 1 } else { 0 }))),
                        }
                    };
                    match from {
                        None => Err("Malformed import. Missing 'from' keyword"@),
                        Some(inner) => match find_from(c, '"', q + 1) {
                            None => Err("Malformed import. Missing closing quote."@),
                            Some(e) => match resolve_spec(file, out, c.subrange(q + 1, e)) {
                                None => Err("Malformed import. Unresolvable path."@),
                                Some(rp) => {
                                    let rest = c.skip(e + 1);
                                    if rest.len() < s.len() {
                                        match import_scan(rest, file, out) {
                                            Ok((st, r)) => Ok((seq![import_statement(inner, rp)] + st, r)),
                                            Err(m) => Err(m),
                                        }
                                    } else {
                                        Ok((Seq::empty(), s))
                                    }
                                },
                            },
                        },
                    }
                },
            }
        },
    }
}

/// `r` after the statements `st` were taken off the front.
pub open spec fn prepend_imports(st: Seq<Seq<char>>, r: Result<(Seq<Seq<char>>, Seq<char>), Seq<char>>) -> Result<(Seq<Seq<char>>, Seq<char>), Seq<char>> {
    match r {
        Ok((s2, c)) => Ok((st + s2, c)),
        Err(m) => Err(m),
    }
}

/// The statement that names the request as the handler does, where its
/// name differs from the one generated code uses.
pub open spec fn binding(p: Option<Seq<char>>) -> Seq<char> {
    match p {
        Some(x) => if x == REQ_PARAM@ {
            Seq::empty()
        } else {
            "let "@ + x + " = __req_param__;\n"@
        },
        None => Seq::empty(),
    }
}

/// A handler as generated code runs it: guarded by its method, unless it
/// answers any method.
pub open spec fn handler_code(h: (HTTPMethod, Seq<char>, Option<Seq<char>>)) -> Seq<char> {
    let text = binding(h.2) + h.1;
    if h.0 == HTTPMethod::ANY {
        text
    } else {
        "if (__req_param__.method == \""@ + method_name(h.0) + "\") {\n        "@ + text + "\n      }"@
    }
}

/// The handlers' code, one per line.
pub open spec fn handlers_code(hv: Seq<(HTTPMethod, Seq<char>, Option<Seq<char>>)>) -> Seq<char> {
    join_sep(Seq::new(hv.len(), |i: int| handler_code(hv[i])), "\n"@)
}

/// What a leaf's source gives the generator.
pub enum PartsOutcome {
    /// Its rewritten imports, its handlers' code and the rest of its source.
    Parts(Seq<char>, Seq<char>, Seq<char>),
    /// Nothing to generate, naming the file.
    Empty(Seq<char>),
    /// Malformed, naming the file, with a message.
    Invalid(Seq<char>, Seq<char>),
}

/// The parts of leaf `l`: imports first, then handlers from the rest.
/// Import errors name the leaf by its relative url path, handler errors name
/// the file relative to `cwd`.
pub open spec fn parts_spec(l: HttpLeaf, cwd: Seq<char>) -> PartsOutcome {
    match l.content {
        None => PartsOutcome::Empty(l.rel_path@),
        Some(c) => match import_scan(c@, l.file_path@, l.output_path@) {
            Err(m) => PartsOutcome::Invalid(l.rel_path@, m),
            Ok((st, rest)) => {
                let src = display_name(l.file_path@, cwd);
                match parse_spec(rest) {
                    ParseOutcome::Handlers(hv, c2) => PartsOutcome::Parts(join_sep(st, ";\n"@), handlers_code(hv), c2),
                    ParseOutcome::Empty => PartsOutcome::Empty(src),
                    ParseOutcome::Invalid(m) => PartsOutcome::Invalid(src, m),
                }
            },
        },
    }
}

/// `e` is the error that `p` describes.
pub open spec fn error_agrees(e: HttpParseError, p: PartsOutcome) -> bool {
    match p {
        PartsOutcome::Parts(_, _, _) => false,
        PartsOutcome::Empty(s) => e matches HttpParseError::Empty(q) && q@ == s,
        PartsOutcome::Invalid(s, m) => e matches HttpParseError::InvalidSyntax(q, msg) && q@ == s && msg@ == m,
    }
}

/// `r` is what `p` describes.
pub open spec fn parts_agree(r: Result<(String, String, String), HttpParseError>, p: PartsOutcome) -> bool {
    match r {
        Ok((x, y, z)) => p matches PartsOutcome::Parts(a, b, c) && x@ == a && y@ == b && z@ == c,
        Err(e) => error_agrees(e, p),
    }
}

/// The module generated for a fallback or middleware leaf, before
/// formatting: its handlers run unguarded.
pub open spec fn leaf_text(imports: Seq<char>, handlers: Seq<char>, content: Seq<char>) -> Seq<char> {
    imports + "\n"@ + content + "\n;export default function(__req_param__) {\n  "@ + handlers + "\n}"@
}

impl HttpLeaf {
    /// Rewrites an import path for the output file (see `resolve_spec`).
    pub fn resolve_import(&self, path: &str) -> (r: Option<String>)
        ensures
            opt_view(r) == resolve_spec(self.file_path@, self.output_path@, path@),
    {
        let p = chars_of(path);
        if p.len() > 0 && (p[0] == '.' || p[0] == '/') {
            let absolute = if p[0] == '.' {
                match parent_dir(self.file_path.as_str()) {
                    Some(d) => join_paths(path, d.as_str()),
                    None => {
                        return None;
                    },
                }
            } else {
                String::from_str(path)
            };
            match parent_dir(self.output_path.as_str()) {
                Some(o) => relative_path(absolute.as_str(), o.as_str()),
                None => None,
            }
        } else {
            Some(String::from_str(path))
        }
    }

    /// Takes the import statements off the front of `content`, each
    /// rewritten for the output file; returns them joined by `;` and a line
    /// break, with the text after the last one.
    pub fn imports_in(&self, content: &String) -> (r: Result<(String, String), HttpParseError>)
        ensures
            match import_scan(content@, self.file_path@, self.output_path@) {
                Ok((st, rest)) => r matches Ok((i, c)) && i@ == join_sep(st, ";\n"@) && c@ == rest,
                Err(m) => r matches Err(HttpParseError::InvalidSyntax(p, msg)) && p@ == self.rel_path@ && msg@ == m,
            },
    {
        let ghost s0 = content@;
        let ghost (file, out) = (self.file_path@, self.output_path@);
        let mut stmts: Vec<String> = Vec::new();
        let mut remain = chars_of(content.as_str());
        let import_word = chars_of("import");
        let from_word = chars_of("from");
        proof {
            reveal_strlit("import");
            reveal_strlit("from");
            assert(Seq::new(stmts@.len(), |i: int| stmts@[i]@) =~= Seq::<Seq<char>>::empty());
            match import_scan(s0, file, out) {
                Ok((st, c)) => {
                    assert(Seq::<Seq<char>>::empty() + st =~= st);
                },
                Err(_) => {},
            }
        }
        loop
            invariant
                s0 == content@,
                file == self.file_path@,
                out == self.output_path@,
                import_word@ == "import"@,
                from_word@ == "from"@,
                import_scan(s0, file, out) == prepend_imports(Seq::new(stmts@.len(), |i: int| stmts@[i]@), import_scan(remain@, file, out)),
            ensures
                import_scan(remain@, file, out) == Ok::<_, Seq<char>>((Seq::<Seq<char>>::empty(), remain@)),
            decreases remain@.len(),
        {
            let i = match find_text(&remain, &import_word, 0) {
                None => break,
                Some(i) => i,
            };
            if remain.len() - i < 7 {
                break;
            }
            let c = sub_chars(&remain, i + 7, remain.len());
            proof {
                assert(c@ =~= remain@.skip(i + 7));
            }
            let q = match find_char(&c, '"', 0) {
                None => break,
                Some(q) => q,
            };
            let inner: Option<Vec<char>> = if q < 7 {
                None
            } else {
                match find_text(&c, &from_word, 0) {
                    None => {
                        proof {
                            assert(find_text_from(remain@, "import"@, 0) == Some(i as int));
                            assert(find_from(c@, '"', 0) == Some(q as int));
                            assert(find_text_from(c@, "from"@, 0) is None);
                            assert(import_scan(remain@, file, out) is Err);
                        }
                        return Err(HttpParseError::InvalidSyntax(
                            self.rel_path.clone(),
                            String::from_str("Malformed import. Missing 'from' keyword"),
                        ));
                    },
                    Some(f) => Some(sub_chars(&c, 0, if f >= 1 { f - 1 } else { 0 })),
                }
            };
            let e = match find_char(&c, '"', q + 1) {
                None => {
                    return Err(HttpParseError::InvalidSyntax(
                        self.rel_path.clone(),
                        String::from_str("Malformed import. Missing closing quote."),
                    ));
                },
                Some(e) => e,
            };
            proof {
                crate::text::lemma_find_from_range(c@, '"', q + 1);
            }
            let path = string_of(sub_chars(&c, q + 1, e).as_slice());
            let rp = match self.resolve_import(path.as_str()) {
                None => {
                    return Err(HttpParseError::InvalidSyntax(
                        self.rel_path.clone(),
                        String::from_str("Malformed import. Unresolvable path."),
                    ));
                },
                Some(rp) => rp,
            };
            let rest = sub_chars(&c, e + 1, c.len());
            if rest.len() >= remain.len() {
                break;
            }
            let stmt = match &inner {
                Some(x) => {
                    let mut t = String::from_str("import ");
                    t.append(string_of(x.as_slice()).as_str());
                    t.append(" from \"");
                    t.append(rp.as_str());
                    t.append("\"");
                    t
                },
                None => {
                    let mut t = String::from_str("import \"");
                    t.append(rp.as_str());
                    t.append("\"");
                    t
                },
            };
            let ghost st0 = Seq::new(stmts@.len(), |i: int| stmts@[i]@);
            proof {
                assert(c@ =~= remain@.skip(i + 7));
                assert(rest@ =~= c@.skip(e + 1));
                assert(path@ =~= c@.subrange(q + 1, e as int));
                match &inner {
                    Some(x) => {
                        assert(stmt@ =~= import_statement(Some(x@), rp@));
                    },
                    None => {
                        assert(stmt@ =~= import_statement(None, rp@));
                    },
                }
            }
            stmts.push(stmt);
            let ghost old_remain = remain@;
            remain = rest;
            proof {
                let st1 = Seq::new(stmts@.len(), |i: int| stmts@[i]@);
                assert(st1 =~= st0.push(stmt@));
                match import_scan(remain@, file, out) {
                    Ok((s2, r2)) => {
                        assert(st0.push(stmt@) + s2 =~= st0 + (seq![stmt@] + s2));
                    },
                    Err(_) => {},
                }
            }
        }
        let imports = join_strings(&stmts, ";\n");
        proof {
            let st = Seq::new(stmts@.len(), |i: int| stmts@[i]@);
            assert(st + Seq::<Seq<char>>::empty() =~= st);
        }
        Ok((imports, string_of(remain.as_slice())))
    }

    /// The import statements of the leaf's source, rewritten for its output
    /// file, and the text after them; `Empty` where the source has not been
    /// read.
    pub fn get_imports(&self) -> (r: Result<(String, String), HttpParseError>)
        ensures
            self.content is None ==> (r matches Err(HttpParseError::Empty(p)) && p@ == self.rel_path@),
            self.content matches Some(c) ==> match import_scan(c@, self.file_path@, self.output_path@) {
                Ok((st, rest)) => r matches Ok((i, t)) && i@ == join_sep(st, ";\n"@) && t@ == rest,
                Err(m) => r matches Err(HttpParseError::InvalidSyntax(p, msg)) && p@ == self.rel_path@ && msg@ == m,
            },
    {
        match &self.content {
            None => Err(HttpParseError::Empty(self.rel_path.clone())),
            Some(c) => self.imports_in(c),
        }
    }

    /// The code that runs one handler (see `handler_code`).
    pub fn handler_text(h: &HttpHandler) -> (r: String)
        ensures
            r@ == handler_code(handler_view(*h)),
    {
        let mut text = String::new();
        match &h.req_param {
            Some(p) => {
                let pc = chars_of(p.as_str());
                if !is_text(&pc, REQ_PARAM) {
                    text.append("let ");
                    text.append(p.as_str());
                    text.append(" = __req_param__;\n");
                }
            },
            None => {},
        }
        text.append(h.body.as_str());
        match h.method.guard_name() {
            None => text,
            Some(n) => {
                let mut r = String::from_str("if (__req_param__.method == \"");
                r.append(n);
                r.append("\") {\n        ");
                r.append(text.as_str());
                r.append("\n      }");
                r
            },
        }
    }

    /// Parses `content` for handlers and returns their code, one per line,
    /// with the text outside them; `source` names the file in errors.
    pub fn get_handlers(&self, content: String, source: String) -> (r: Result<(String, String), HttpParseError>)
        ensures
            match parse_spec(content@) {
                ParseOutcome::Handlers(hv, c) => r matches Ok((code, rest)) && code@ == handlers_code(hv) && rest@ == c,
                ParseOutcome::Empty => r matches Err(HttpParseError::Empty(p)) && p@ == source@,
                ParseOutcome::Invalid(m) => r matches Err(HttpParseError::InvalidSyntax(p, msg)) && p@ == source@
                    && msg@ == m,
            },
    {
        match http_parse(content, source) {
            Err(e) => Err(e),
            Ok((hs, rest)) => {
                let mut codes: Vec<String> = Vec::new();
                let mut i: usize = 0;
                while i < hs.len()
                    invariant
                        i <= hs.len(),
                        codes@.len() == i,
                        forall|k: int| 0 <= k < i ==> #[trigger] codes@[k]@ == handler_code(handlers_view(hs@)[k]),
                    decreases hs.len() - i,
                {
                    codes.push(Self::handler_text(&hs[i]));
                    i = i + 1;
                }
                let code = join_strings(&codes, "\n");
                proof {
                    let hv = handlers_view(hs@);
                    assert(Seq::new(codes@.len(), |k: int| codes@[k]@) =~= Seq::new(hv.len(), |k: int| handler_code(hv[k])));
                }
                Ok((code, rest))
            },
        }
    }

    /// The leaf's rewritten imports, its handlers' code and the rest of its
    /// source. Errors from the handlers name the file relative to `cwd`.
    pub fn get_parts(&self, cwd: &str) -> (r: Result<(String, String, String), HttpParseError>)
        ensures
            parts_agree(r, parts_spec(*self, cwd@)),
    {
        let (imports, rest) = match self.get_imports() {
            Err(e) => {
                return Err(e);
            },
            Ok(x) => x,
        };
        let source = display_path(self.file_path.as_str(), cwd);
        match self.get_handlers(rest, source) {
            Err(e) => Err(e),
            Ok((handlers, content)) => Ok((imports, handlers, content)),
        }
    }

    /// The module for a fallback or middleware leaf, unformatted.
    pub fn generate_file(&self, cwd: &str) -> (r: Result<String, HttpParseError>)
        ensures
            match parts_spec(*self, cwd@) {
                PartsOutcome::Parts(a, b, c) => r matches Ok(x) && x@ == leaf_text(a, b, c),
                _ => r matches Err(e) && error_agrees(e, parts_spec(*self, cwd@)),
            },
    {
        match self.get_parts(cwd) {
            Err(e) => Err(e),
            Ok((imports, handlers, content)) => {
                let mut s = imports;
                s.append("\n");
                s.append(content.as_str());
                s.append("\n;export default function(__req_param__) {\n  ");
                s.append(handlers.as_str());
                s.append("\n}");
                Ok(s)
            },
        }
    }
}

} // verus!
