use vstd::prelude::*;
use crate::text::{chars_of, concat_chars, is_text, string_of, sub_chars};

verus! {

/// Why a route file gives no handlers.
#[derive(Debug, Clone, PartialEq, Eq)]
pub enum HttpParseError {
    /// The file is empty, very short, or exports no handler; it holds the
    /// file's path.
    Empty(String),
    /// The file is malformed; it holds the file's path and a message.
    InvalidSyntax(String, String),
    /// The working directory could not be resolved; it holds the reason.
    CurrentDir(String),
}

impl HttpParseError {
    /// The error as reported to the user: the file in brackets, then what
    /// is wrong with it.
    pub fn message(&self) -> (r: String)
        ensures
            r@ == match self {
                HttpParseError::CurrentDir(reason) => reason@,
                HttpParseError::Empty(p) => "["@ + p@ + "]The file is empty or very short (less than 10 characters)"@,
                HttpParseError::InvalidSyntax(p, m) => "["@ + p@ + "]"@ + m@,
            },
    {
        match self {
            HttpParseError::CurrentDir(reason) => reason.clone(),
            HttpParseError::Empty(p) => {
                let mut r = String::from_str("[");
                r.append(p.as_str());
                r.append("]The file is empty or very short (less than 10 characters)");
                r
            },
            HttpParseError::InvalidSyntax(p, m) => {
                let mut r = String::from_str("[");
                r.append(p.as_str());
                r.append("]");
                r.append(m.as_str());
                r
            },
        }
    }
}

/// The method that a handler answers.
#[derive(Debug, Clone, Copy, PartialEq, Eq, Structural)]
pub enum HTTPMethod {
    GET,
    POST,
    DELETE,
    PATCH,
    OPTIONS,
    ANY,
}

/// One exported handler: its method, the text of its body, and the name
/// that it gives the request.
#[derive(Debug, Clone, PartialEq, Eq)]
pub struct HttpHandler {
    pub method: HTTPMethod,
    pub body: String,
    pub req_param: Option<String>,
}

/// The name that generated code gives the request.
pub const REQ_PARAM: &'static str = "__req_param__";

/// Named exports: `export [async] function NAME(param) {` and
/// `export const NAME = [async] (param) => {`.
pub const HANDLER_REGEX: &'static str = r"(?m)export\s+(?:async\s+)?function\s+(\w+)\s*\((?:(\w+)(?::\s+[^)]+)?)?\)(?::\s+.+)?\s*\{|export\s+const\s+(\w+)\s*=\s*(?:async)?\s*\((?:(\w+)(?::\s+[^)]+)?)?\)(?::\s+.+)?\s*=>\s*\{";

/// Default exports: `export default [async] function [name](param) {` and
/// `export default [async] (param) => {`.
pub const DEFAULT_REGEX: &'static str = r"(?m)export\s+default\s+(?:async\s+)?function\s+\w*\s*\((?:(\w+)(?::\s+[^)]+)?)?\)(?::\s+.+)?\s*\{|export\s+default\s+(?:async)?\s*\((?:(\w+)(?::\s+[^)]+)?)?\)(?::\s+.+)?\s*=>\s*\{";

/// What the first match of a pattern in a text gives: the text before the
/// match, the text after it, and each capture group after the whole match.
pub uninterp spec fn regex_captures(pattern: Seq<char>, text: Seq<char>) -> Option<
    (Seq<char>, Seq<char>, Seq<Option<Seq<char>>>),
>;

/// The characters of an optional string.
pub open spec fn opt_view(o: Option<String>) -> Option<Seq<char>> {
    match o {
        Some(s) => Some(s@),
        None => None,
    }
}

/// The characters of each optional string.
pub open spec fn groups_view(g: Seq<Option<String>>) -> Seq<Option<Seq<char>>> {
    Seq::new(g.len(), |i: int| opt_view(g[i]))
}

/// Relies on regex's `Regex::new` and `Regex::captures`: the first match of
/// `pattern` in `text` (none where the pattern does not compile), which
/// depends on the two strings alone; the text before and after the match
/// are slices of `text` at the match's bounds.
#[verifier::external_body]
fn captures(pattern: &str, text: &str) -> (r: Option<(String, String, Vec<Option<String>>)>)
    ensures
        r is None ==> regex_captures(pattern@, text@) is None,
        r matches Some((before, after, groups)) ==> {
            &&& regex_captures(pattern@, text@) == Some((before@, after@, groups_view(groups@)))
            &&& before@.len() + after@.len() <= text@.len()
            &&& before@ == text@.take(before@.len() as int)
            &&& after@ == text@.skip(text@.len() - after@.len())
        },
{
    let c = regex::Regex::new(pattern).ok()?.captures(text)?;
    let m = c.get(0)?;
    let groups = (1..c.len()).map(|i| c.get(i).map(|g| g.as_str().to_string())).collect();
    Some((text[..m.start()].to_string(), text[m.end()..].to_string(), groups))
}

/// A character with Unicode's `White_Space` property.
pub open spec fn is_white(c: char) -> bool {
    ||| c == '\t' || c == '\n' || c == '\u{B}' || c == '\u{C}' || c == '\r' || c == ' '
    ||| c == '\u{85}' || c == '\u{A0}' || c == '\u{1680}'
    ||| c == '\u{2000}' || c == '\u{2001}' || c == '\u{2002}' || c == '\u{2003}' || c == '\u{2004}'
    ||| c == '\u{2005}' || c == '\u{2006}' || c == '\u{2007}' || c == '\u{2008}' || c == '\u{2009}'
    ||| c == '\u{200A}' || c == '\u{2028}' || c == '\u{2029}' || c == '\u{202F}' || c == '\u{205F}'
    ||| c == '\u{3000}'
}

/// `s` without its leading white space.
pub open spec fn trim_start(s: Seq<char>) -> Seq<char>
    decreases s.len(),
{
    if s.len() > 0 && is_white(s[0]) {
        trim_start(s.drop_first())
    } else {
        s
    }
}

/// `s` without its trailing white space.
pub open spec fn trim_end(s: Seq<char>) -> Seq<char>
    decreases s.len(),
{
    if s.len() > 0 && is_white(s.last()) {
        trim_end(s.drop_last())
    } else {
        s
    }
}

/// `s` without leading and trailing white space.
pub open spec fn trimmed(s: Seq<char>) -> Seq<char> {
    trim_end(trim_start(s))
}

/// Relies on `str::trim`: the string without the leading and trailing
/// characters that have Unicode's `White_Space` property.
#[verifier::external_body]
fn trim(s: &str) -> (r: String)
    ensures
        r@ == trimmed(s@),
{
    s.trim().to_string()
}

/// What `str::to_uppercase` makes of a string.
pub uninterp spec fn upper_of(s: Seq<char>) -> Seq<char>;

/// Relies on `str::to_uppercase`: the upper-case form of the string, which
/// depends on the string alone.
#[verifier::external_body]
fn uppercase(s: &str) -> (r: String)
    ensures
        r@ == upper_of(s@),
{
    s.to_uppercase()
}

/// The method spelled exactly `s`.
pub open spec fn method_named(s: Seq<char>) -> Option<HTTPMethod> {
    if s == "GET"@ {
        Some(HTTPMethod::GET)
    } else if s == "POST"@ {
        Some(HTTPMethod::POST)
    } else if s == "DELETE"@ {
        Some(HTTPMethod::DELETE)
    } else if s == "PATCH"@ {
        Some(HTTPMethod::PATCH)
    } else if s == "OPTIONS"@ {
        Some(HTTPMethod::OPTIONS)
    } else if s == "ANY"@ {
        Some(HTTPMethod::ANY)
    } else {
        None
    }
}

/// The name of a method that guards its handler.
pub open spec fn method_name(m: HTTPMethod) -> Seq<char> {
    match m {
        HTTPMethod::GET => "GET"@,
        HTTPMethod::POST => "POST"@,
        HTTPMethod::DELETE => "DELETE"@,
        HTTPMethod::PATCH => "PATCH"@,
        HTTPMethod::OPTIONS => "OPTIONS"@,
        HTTPMethod::ANY => "ANY"@,
    }
}

impl HTTPMethod {
    /// The method spelled exactly `value`, upper case.
    pub fn from_upper(value: &str) -> (r: Option<HTTPMethod>)
        ensures
            r == method_named(value@),
    {
        let v = chars_of(value);
        if is_text(&v, "GET") {
            Some(HTTPMethod::GET)
        } else if is_text(&v, "POST") {
            Some(HTTPMethod::POST)
        } else if is_text(&v, "DELETE") {
            Some(HTTPMethod::DELETE)
        } else if is_text(&v, "PATCH") {
            Some(HTTPMethod::PATCH)
        } else if is_text(&v, "OPTIONS") {
            Some(HTTPMethod::OPTIONS)
        } else if is_text(&v, "ANY") {
            Some(HTTPMethod::ANY)
        } else {
            None
        }
    }

    /// The method named by `value`, in any case.
    pub fn from_string(value: String) -> (r: Option<HTTPMethod>)
        ensures
            r == method_named(upper_of(value@)),
    {
        let u = uppercase(value.as_str());
        Self::from_upper(u.as_str())
    }

    /// The method's name; `None` for `ANY`, which answers every method.
    pub fn guard_name(&self) -> (r: Option<&'static str>)
        ensures
            r is None <==> *self == HTTPMethod::ANY,
            r matches Some(n) ==> n@ == method_name(*self),
    {
        match self {
            HTTPMethod::ANY => None,
            HTTPMethod::GET => Some("GET"),
            HTTPMethod::POST => Some("POST"),
            HTTPMethod::PATCH => Some("PATCH"),
            HTTPMethod::DELETE => Some("DELETE"),
            HTTPMethod::OPTIONS => Some("OPTIONS"),
        }
    }
}

/// Scanning from index `i` at brace depth `d`: the index of the `}` that
/// brings the depth to zero.
pub open spec fn close_at(s: Seq<char>, i: int, d: int) -> Option<int>
    decreases s.len() - i,
{
    if i < 0 || i >= s.len() {
        None
    } else if s[i] == '}' {
        if d <= 1 {
            Some(i)
        } else {
            close_at(s, i + 1, d - 1)
        }
    } else if s[i] == '{' {
        close_at(s, i + 1, d + 1)
    } else {
        close_at(s, i + 1, d)
    }
}

/// The text right after an opening brace, split at the brace that closes
/// it: what stands inside, and what follows the closing brace.
pub open spec fn block_of(s: Seq<char>) -> Option<(Seq<char>, Seq<char>)> {
    match close_at(s, 0, 1) {
        Some(p) => Some((s.take(p), s.skip(p + 1))),
        None => None,
    }
}

proof fn lemma_close_at_range(s: Seq<char>, i: int, d: int)
    ensures
        close_at(s, i, d) matches Some(p) ==> i <= p < s.len() && s[p] == '}',
    decreases s.len() - i,
{
    if 0 <= i < s.len() {
        lemma_close_at_range(s, i + 1, d - 1);
        lemma_close_at_range(s, i + 1, d + 1);
        lemma_close_at_range(s, i + 1, d);
    }
}

/// Splits the text right after an opening brace at the brace that closes it,
/// counting nested braces.
pub fn split_block(s: &Vec<char>) -> (r: Option<(Vec<char>, Vec<char>)>)
    requires
        s@.len() <= isize::MAX,
    ensures
        r is None ==> block_of(s@) is None,
        r matches Some((inner, after)) ==> block_of(s@) == Some((inner@, after@)),
{
    let mut depth: usize = 1;
    let mut i: usize = 0;
    while i < s.len()
        invariant
            i <= s.len(),
            depth >= 1,
            depth <= i + 1,
            s@.len() <= isize::MAX,
            close_at(s@, 0, 1) == close_at(s@, i as int, depth as int),
        decreases s.len() - i,
    {
        if s[i] == '}' {
            if depth == 1 {
                proof {
                    lemma_close_at_range(s@, 0, 1);
                }
                let inner = sub_chars(s, 0, i);
                let after = sub_chars(s, i + 1, s.len());
                proof {
                    assert(inner@ =~= s@.take(i as int));
                    assert(after@ =~= s@.skip(i as int + 1));
                }
                return Some((inner, after));
            }
            depth = depth - 1;
        } else if s[i] == '{' {
            depth = depth + 1;
        }
        i = i + 1;
    }
    None
}

/// A handler as contracts see it: its method, body and parameter name.
pub open spec fn handler_view(h: HttpHandler) -> (HTTPMethod, Seq<char>, Option<Seq<char>>) {
    (h.method, h.body@, opt_view(h.req_param))
}

/// Each handler as contracts see it.
pub open spec fn handlers_view(v: Seq<HttpHandler>) -> Seq<(HTTPMethod, Seq<char>, Option<Seq<char>>)> {
    Seq::new(v.len(), |i: int| handler_view(v[i]))
}

/// Capture group `i`, where there is one.
pub open spec fn group(g: Seq<Option<Seq<char>>>, i: int) -> Option<Seq<char>> {
    if 0 <= i < g.len() {
        g[i]
    } else {
        None
    }
}

/// The first of two optional values that is there.
pub open spec fn either(a: Option<Seq<char>>, b: Option<Seq<char>>) -> Option<Seq<char>> {
    if a is Some {
        a
    } else {
        b
    }
}

/// Handlers, and the text outside them, or the message of a malformed
/// declaration.
pub type ScanResult = Result<(Seq<(HTTPMethod, Seq<char>, Option<Seq<char>>)>, Seq<char>), Seq<char>>;

/// The named handlers of `s`, in order, and the text around them. A
/// declaration whose name is no method, or whose body does not close, is
/// malformed.
pub open spec fn named_scan(s: Seq<char>) -> ScanResult
    decreases s.len(),
{
    if s.len() <= 1 {
        Ok((Seq::empty(), s))
    } else {
        match regex_captures(HANDLER_REGEX@, s) {
            None => Ok((Seq::empty(), s)),
            Some((before, after, g)) => {
                if after.len() >= s.len() {
                    Ok((Seq::empty(), s))
                } else {
                    match either(group(g, 0), group(g, 2)) {
                        None => Err("Malformed handler declaration"@),
                        Some(name) => match method_named(upper_of(name)) {
                            None => Err("Unknown HTTP method"@),
                            Some(m) => match block_of(after) {
                                None => Err("Unbalanced braces in handler body"@),
                                Some((inner, rest)) => {
                                    if rest.len() < s.len() {
                                        let h = (m, trimmed(inner), either(group(g, 1), group(g, 3)));
                                        match named_scan(rest) {
                                            Ok((hs, c)) => Ok((seq![h] + hs, before + c)),
                                            Err(e) => Err(e),
                                        }
                                    } else {
                                        Ok((Seq::empty(), s))
                                    }
                                },
                            },
                        },
                    }
                }
            },
        }
    }
}

/// The default-exported handler of `s`, which answers any method, and the
/// text around it; none where there is no such export or its body does not
/// close.
pub open spec fn default_split(s: Seq<char>) -> Option<((HTTPMethod, Seq<char>, Option<Seq<char>>), Seq<char>)> {
    match regex_captures(DEFAULT_REGEX@, s) {
        None => None,
        Some((before, after, g)) => match block_of(after) {
            None => None,
            Some((inner, rest)) => Some(
                ((HTTPMethod::ANY, trimmed(inner), either(group(g, 0), group(g, 1))), before + rest),
            ),
        },
    }
}

/// A default export whose body never closes.
pub open spec fn default_unclosed(s: Seq<char>) -> bool {
    regex_captures(DEFAULT_REGEX@, s) matches Some((_, after, _)) && block_of(after) is None
}

/// How a route file parses.
pub enum ParseOutcome {
    /// Its handlers, in order, and the text outside them.
    Handlers(Seq<(HTTPMethod, Seq<char>, Option<Seq<char>>)>, Seq<char>),
    /// Too short, or no handler.
    Empty,
    /// A malformed declaration, with its message.
    Invalid(Seq<char>),
}

/// The default handler first, then the named ones.
pub open spec fn parse_spec(content: Seq<char>) -> ParseOutcome {
    if content.len() <= 10 {
        ParseOutcome::Empty
    } else if default_unclosed(content) {
        ParseOutcome::Invalid("Unbalanced braces in handler body"@)
    } else {
        let (d, c1) = match default_split(content) {
            Some((h, c)) => (seq![h], c),
            None => (Seq::empty(), content),
        };
        match named_scan(c1) {
            Err(m) => ParseOutcome::Invalid(m),
            Ok((hs, c2)) => if d.len() + hs.len() == 0 {
                ParseOutcome::Empty
            } else {
                ParseOutcome::Handlers(d + hs, c2)
            },
        }
    }
}

/// `r` after handlers `hs` and text `b` were taken off the front.
pub open spec fn prepend(
    hs: Seq<(HTTPMethod, Seq<char>, Option<Seq<char>>)>,
    b: Seq<char>,
    r: ScanResult,
) -> ScanResult {
    match r {
        Ok((h2, c)) => Ok((hs + h2, b + c)),
        Err(e) => Err(e),
    }
}

fn group_at(g: &Vec<Option<String>>, i: usize) -> (r: Option<String>)
    ensures
        opt_view(r) == group(groups_view(g@), i as int),
{
    if i < g.len() {
        match &g[i] {
            Some(s) => Some(s.clone()),
            None => None,
        }
    } else {
        None
    }
}

fn first_of(a: Option<String>, b: Option<String>) -> (r: Option<String>)
    ensures
        opt_view(r) == either(opt_view(a), opt_view(b)),
{
    match a {
        Some(x) => Some(x),
        None => b,
    }
}

/// The default-exported handler and the text around it.
fn take_default(content: &String) -> (r: Result<Option<(HttpHandler, String)>, ()>)
    ensures
        r is Err <==> default_unclosed(content@),
        r matches Ok(None) ==> default_split(content@) is None,
        r matches Ok(Some((h, c))) ==> default_split(content@) == Some((handler_view(h), c@)),
{
    match captures(DEFAULT_REGEX, content.as_str()) {
        None => Ok(None),
        Some((before, after, groups)) => {
            let a = chars_of(after.as_str());
            match split_block(&a) {
                None => Err(()),
                Some((inner, rest)) => {
                    let param = first_of(group_at(&groups, 0), group_at(&groups, 1));
                    let body = trim(string_of(inner.as_slice()).as_str());
                    let b = chars_of(before.as_str());
                    let c = string_of(concat_chars(&b, &rest).as_slice());
                    Ok(Some((HttpHandler { method: HTTPMethod::ANY, body, req_param: param }, c)))
                },
            }
        },
    }
}

/// Extracts the handlers that a route file exports: the default export
/// first, answering any method, then each named function or arrow-function
/// export named after a method, each with the body that its braces enclose.
/// A declaration whose body never closes makes the file malformed.
/// Also returns the text outside the handlers. `rel_path` names the file in
/// errors.
pub fn http_parse(content: String, rel_path: String) -> (r: Result<(Vec<HttpHandler>, String), HttpParseError>)
    ensures
        content@.len() <= 10 ==> (r matches Err(HttpParseError::Empty(p)) && p@ == rel_path@),
        match parse_spec(content@) {
            ParseOutcome::Handlers(hv, c) => r matches Ok((hs, rest)) && handlers_view(hs@) == hv && rest@ == c,
            ParseOutcome::Empty => r matches Err(HttpParseError::Empty(p)) && p@ == rel_path@,
            ParseOutcome::Invalid(m) => r matches Err(HttpParseError::InvalidSyntax(p, msg)) && p@ == rel_path@
                && msg@ == m,
        },
{
    let cc = chars_of(content.as_str());
    if cc.len() <= 10 {
        return Err(HttpParseError::Empty(rel_path));
    }
    let mut handlers: Vec<HttpHandler> = Vec::new();
    let mut remain = match take_default(&content) {
        Err(()) => {
            return Err(HttpParseError::InvalidSyntax(rel_path, String::from_str("Unbalanced braces in handler body")));
        },
        Ok(Some((h, c))) => {
            handlers.push(h);
            c
        },
        Ok(None) => content.clone(),
    };
    let d = handlers.len();
    let ghost c1 = remain@;
    proof {
        assert(handlers_view(handlers@).skip(d as int) =~= Seq::<(HTTPMethod, Seq<char>, Option<Seq<char>>)>::empty());
        assert(named_scan(c1) == prepend(Seq::empty(), Seq::<char>::empty(), named_scan(remain@))) by {
            match named_scan(c1) {
                Ok((h2, c)) => {
                    assert(Seq::<(HTTPMethod, Seq<char>, Option<Seq<char>>)>::empty() + h2 =~= h2);
                    assert(Seq::<char>::empty() + c =~= c);
                },
                Err(_) => {},
            }
        }
    }
    let mut acc: Vec<char> = Vec::new();
    loop
        invariant
            d <= handlers@.len(),
            named_scan(c1) == prepend(handlers_view(handlers@).skip(d as int), acc@, named_scan(remain@)),
            d == 0 ==> c1 == content@,
            d == 1 ==> (default_split(content@) matches Some((h, c)) && c == c1 && handlers_view(handlers@)[0] == h),
            d == 0 ==> default_split(content@) is None,
            d <= 1,
            content@.len() > 10,
            !default_unclosed(content@),
        ensures
            named_scan(remain@) == Ok::<_, Seq<char>>((Seq::<(HTTPMethod, Seq<char>, Option<Seq<char>>)>::empty(), remain@)),
        decreases remain@.len(),
    {
        let rc = chars_of(remain.as_str());
        if rc.len() <= 1 {
            break;
        }
        let (before, after, groups) = match captures(HANDLER_REGEX, remain.as_str()) {
            None => break,
            Some(x) => x,
        };
        let ac = chars_of(after.as_str());
        if ac.len() >= rc.len() {
            break;
        }
        let name = match first_of(group_at(&groups, 0), group_at(&groups, 2)) {
            None => {
                return Err(HttpParseError::InvalidSyntax(rel_path, String::from_str("Malformed handler declaration")));
            },
            Some(n) => n,
        };
        let method = match HTTPMethod::from_string(name) {
            None => {
                return Err(HttpParseError::InvalidSyntax(rel_path, String::from_str("Unknown HTTP method")));
            },
            Some(m) => m,
        };
        let (inner, rest) = match split_block(&ac) {
            None => {
                return Err(HttpParseError::InvalidSyntax(rel_path, String::from_str("Unbalanced braces in handler body")));
            },
            Some(x) => x,
        };
        if rest.len() >= rc.len() {
            break;
        }
        let param = first_of(group_at(&groups, 1), group_at(&groups, 3));
        let body = trim(string_of(inner.as_slice()).as_str());
        let ghost hs0 = handlers_view(handlers@).skip(d as int);
        let ghost acc0 = acc@;
        let h = HttpHandler { method, body, req_param: param };
        handlers.push(h);
        let bc = chars_of(before.as_str());
        acc = concat_chars(&acc, &bc);
        let ghost old_remain = remain@;
        remain = string_of(rest.as_slice());
        proof {
            assert(handlers_view(handlers@).skip(d as int) =~= hs0.push(handler_view(h)));
            match named_scan(remain@) {
                Ok((h2, c)) => {
                    assert(hs0.push(handler_view(h)) + h2 =~= hs0 + (seq![handler_view(h)] + h2));
                    assert(acc0 + bc@ + c =~= acc0 + (bc@ + c));
                },
                Err(_) => {},
            }
        }
    }
    let rest_chars = chars_of(remain.as_str());
    let out = string_of(concat_chars(&acc, &rest_chars).as_slice());
    proof {
        assert(handlers_view(handlers@).skip(d as int) + Seq::empty() =~= handlers_view(handlers@).skip(d as int));
        assert(named_scan(c1) == Ok::<_, Seq<char>>((handlers_view(handlers@).skip(d as int), out@)));
    }
    if handlers.len() == 0 {
        return Err(HttpParseError::Empty(rel_path));
    }
    proof {
        assert(handlers_view(handlers@).skip(d as int) + Seq::empty() =~= handlers_view(handlers@).skip(d as int));
        if d == 1 {
            assert(handlers_view(handlers@) =~= seq![handlers_view(handlers@)[0]] + handlers_view(handlers@).skip(1));
        } else {
            assert(handlers_view(handlers@) =~= Seq::empty() + handlers_view(handlers@).skip(0));
        }
    }
    Ok((handlers, out))
}

} // verus!
