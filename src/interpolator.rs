use vstd::prelude::*;

use crate::store::VarMap;

verus! {

/// A value nested one level below a context variable.
pub enum Scalar {
    Text(String),
    Integer(i64),
    /// Anything that is neither a string nor an integer.
    Other,
}

/// A context variable: a scalar, or a mapping from field names to scalars.
pub enum ContextValue {
    Text(String),
    Integer(i64),
    Mapping(VarMap<Scalar>),
    /// Anything that is neither a string, an integer nor a mapping.
    Other,
}

/// What interpolation sees of a context variable.
pub enum ValueModel {
    /// A string or an integer, as the text that replaces a marker.
    Scalar(Seq<char>),
    /// A mapping, with the text of each scalar field (`None` for other fields).
    Mapping(Map<Seq<char>, Option<Seq<char>>>),
    Other,
}

/// The run-time variables: name to value.
pub type Context = VarMap<ContextValue>;

/// The captured responses: action name to the response's top-level fields,
/// each field given as its JSON text.
pub type ResponseStore = VarMap<VarMap<String>>;

#[derive(Clone, Copy, Debug, PartialEq, Eq, Structural)]
pub enum InterpolationError {
    /// The root of a path is neither a context variable nor a response.
    UnknownVariable,
    /// The value found is not a string or an integer, or the path is deeper
    /// than supported.
    UnsupportedValueType,
}

pub open spec fn digit_char(d: nat) -> char {
    seq!['0', '1', '2', '3', '4', '5', '6', '7', '8', '9'][d as int]
}

/// Decimal digits of a natural number, most significant first.
pub open spec fn digits(n: nat) -> Seq<char>
    decreases n,
{
    if n < 10 {
        seq![digit_char(n)]
    } else {
        digits(n / 10).push(digit_char(n % 10))
    }
}

/// Decimal text of an integer, with a leading minus sign when negative.
pub open spec fn decimal(n: int) -> Seq<char> {
    if n < 0 {
        seq!['-'] + digits((-n) as nat)
    } else {
        digits(n as nat)
    }
}

impl View for Scalar {
    type V = Option<Seq<char>>;

    open spec fn view(&self) -> Option<Seq<char>> {
        match self {
            Scalar::Text(s) => Some(s@),
            Scalar::Integer(n) => Some(decimal(*n as int)),
            Scalar::Other => None,
        }
    }
}

impl View for ContextValue {
    type V = ValueModel;

    open spec fn view(&self) -> ValueModel {
        match self {
            ContextValue::Text(s) => ValueModel::Scalar(s@),
            ContextValue::Integer(n) => ValueModel::Scalar(decimal(*n as int)),
            ContextValue::Mapping(m) => ValueModel::Mapping(m@),
            ContextValue::Other => ValueModel::Other,
        }
    }
}

/// Relies on i64's `Display` (through `to_string`): decimal digits, with a
/// leading '-' for negative numbers.
#[verifier::external_body]
fn int_text(n: i64) -> (r: String)
    ensures
        r@ == decimal(n as int),
{
    n.to_string()
}

pub open spec fn is_root_start(c: char) -> bool {
    ('a' <= c && c <= 'z') || ('A' <= c && c <= 'Z') || c == '_'
}

pub open spec fn is_path_char(c: char) -> bool {
    is_root_start(c) || ('0' <= c && c <= '9') || c == '.'
}

/// Number of consecutive spaces in `t` from index `j`.
pub open spec fn spaces_len(t: Seq<char>, j: int) -> nat
    decreases t.len() - j,
{
    if 0 <= j < t.len() && t[j] == ' ' {
        1 + spaces_len(t, j + 1)
    } else {
        0
    }
}

/// Number of consecutive path characters in `t` from index `j`.
pub open spec fn path_len(t: Seq<char>, j: int) -> nat
    decreases t.len() - j,
{
    if 0 <= j < t.len() && is_path_char(t[j]) {
        1 + path_len(t, j + 1)
    } else {
        0
    }
}

/// A marker `{{`, spaces, a path, spaces, `}}` that starts at index `i`:
/// the bounds of its path and the index just past its end.
pub open spec fn marker_at(t: Seq<char>, i: int) -> Option<(int, int, int)> {
    if 0 <= i && i + 1 < t.len() && t[i] == '{' && t[i + 1] == '{' {
        let a = i + 2 + spaces_len(t, i + 2);
        if a < t.len() && is_root_start(t[a]) {
            let b = a + 1 + path_len(t, a + 1);
            let c = b + spaces_len(t, b);
            if c + 1 < t.len() && t[c] == '}' && t[c + 1] == '}' {
                Some((a, b, c + 2))
            } else {
                None
            }
        } else {
            None
        }
    } else {
        None
    }
}

/// Index of the first '.' of `p` at or after `k`, or the length of `p`.
pub open spec fn dot_from(p: Seq<char>, k: int) -> int
    decreases p.len() - k,
{
    if 0 <= k < p.len() {
        if p[k] == '.' {
            k
        } else {
            dot_from(p, k + 1)
        }
    } else {
        p.len() as int
    }
}

/// The text that a path stands for: the root names a context variable (with
/// at most one field below it) or a response (with exactly one field).
pub open spec fn resolve_path(
    p: Seq<char>,
    ctx: Map<Seq<char>, ValueModel>,
    resp: Map<Seq<char>, Map<Seq<char>, Seq<char>>>,
) -> Result<Seq<char>, InterpolationError> {
    let d = dot_from(p, 0);
    let root = p.subrange(0, d);
    let field = p.subrange(d + 1, p.len() as int);
    if d < p.len() && dot_from(p, d + 1) < p.len() {
        Err(InterpolationError::UnsupportedValueType)
    } else if ctx.contains_key(root) {
        match ctx[root] {
            ValueModel::Scalar(s) => if d == p.len() {
                Ok(s)
            } else {
                Err(InterpolationError::UnsupportedValueType)
            },
            ValueModel::Mapping(m) => if d == p.len() {
                Err(InterpolationError::UnsupportedValueType)
            } else if !m.contains_key(field) {
                Err(InterpolationError::UnknownVariable)
            } else {
                match m[field] {
                    Some(s) => Ok(s),
                    None => Err(InterpolationError::UnsupportedValueType),
                }
            },
            ValueModel::Other => Err(InterpolationError::UnsupportedValueType),
        }
    } else if resp.contains_key(root) {
        if d == p.len() {
            Err(InterpolationError::UnsupportedValueType)
        } else if resp[root].contains_key(field) {
            Ok(resp[root][field])
        } else {
            Ok("null"@)
        }
    } else {
        Err(InterpolationError::UnknownVariable)
    }
}

/// `p` followed by the text of `r`, or the error of `r`.
pub open spec fn prepend(p: Seq<char>, r: Result<Seq<char>, InterpolationError>) -> Result<
    Seq<char>,
    InterpolationError,
> {
    match r {
        Ok(s) => Ok(p + s),
        Err(e) => Err(e),
    }
}

/// Interpolation of `t` from index `i`: markers are replaced left to right,
/// other characters are kept; the first marker that fails gives the error.
pub open spec fn render_from(
    t: Seq<char>,
    i: int,
    ctx: Map<Seq<char>, ValueModel>,
    resp: Map<Seq<char>, Map<Seq<char>, Seq<char>>>,
) -> Result<Seq<char>, InterpolationError>
    decreases t.len() - i,
{
    if i < 0 || i >= t.len() {
        Ok(Seq::empty())
    } else {
        match marker_at(t, i) {
            Some((a, b, e)) => match resolve_path(t.subrange(a, b), ctx, resp) {
                Ok(v) => prepend(v, render_from(t, e, ctx, resp)),
                Err(x) => Err(x),
            },
            None => prepend(seq![t[i]], render_from(t, i + 1, ctx, resp)),
        }
    }
}

pub open spec fn interpolate(
    t: Seq<char>,
    ctx: Map<Seq<char>, ValueModel>,
    resp: Map<Seq<char>, Map<Seq<char>, Seq<char>>>,
) -> Result<Seq<char>, InterpolationError> {
    render_from(t, 0, ctx, resp)
}

/// Whether `t` holds the closing delimiter `}}`.
pub open spec fn has_closing(t: Seq<char>) -> bool {
    exists|i: int| 0 <= i && i + 1 < t.len() && #[trigger] t[i] == '}' && t[i + 1] == '}'
}

proof fn lemma_prepend_assoc(p: Seq<char>, q: Seq<char>, r: Result<Seq<char>, InterpolationError>)
    ensures
        prepend(p, prepend(q, r)) == prepend(p + q, r),
{
    if let Ok(s) = r {
        assert(p + (q + s) =~= (p + q) + s);
    }
}

fn root_start(c: char) -> (r: bool)
    ensures
        r == is_root_start(c),
{
    ('a' <= c && c <= 'z') || ('A' <= c && c <= 'Z') || c == '_'
}

fn path_char(c: char) -> (r: bool)
    ensures
        r == is_path_char(c),
{
    root_start(c) || ('0' <= c && c <= '9') || c == '.'
}

/// Index just past the spaces of `t` that start at `j`.
fn skip_spaces(t: &str, n: usize, j: usize) -> (k: usize)
    requires
        n == t@.len(),
        j <= n,
    ensures
        k == j + spaces_len(t@, j as int),
        k <= n,
{
    let mut k: usize = j;
    while k < n && t.get_char(k) == ' '
        invariant
            n == t@.len(),
            j <= k <= n,
            spaces_len(t@, j as int) == (k - j) + spaces_len(t@, k as int),
        decreases n - k,
    {
        k = k + 1;
    }
    k
}

/// Index just past the path characters of `t` that start at `j`.
fn skip_path(t: &str, n: usize, j: usize) -> (k: usize)
    requires
        n == t@.len(),
        j <= n,
    ensures
        k == j + path_len(t@, j as int),
        k <= n,
{
    let mut k: usize = j;
    while k < n && path_char(t.get_char(k))
        invariant
            n == t@.len(),
            j <= k <= n,
            path_len(t@, j as int) == (k - j) + path_len(t@, k as int),
        decreases n - k,
    {
        k = k + 1;
    }
    k
}

fn find_marker(t: &str, n: usize, i: usize) -> (r: Option<(usize, usize, usize)>)
    requires
        n == t@.len(),
        i < n,
    ensures
        match r {
            Some((a, b, e)) => marker_at(t@, i as int) == Some((a as int, b as int, e as int)),
            None => marker_at(t@, i as int) is None,
        },
{
    if i + 1 < n && t.get_char(i) == '{' && t.get_char(i + 1) == '{' {
        let a = skip_spaces(t, n, i + 2);
        if a < n && root_start(t.get_char(a)) {
            let b = skip_path(t, n, a + 1);
            let c = skip_spaces(t, n, b);
            if c < n && c + 1 < n && t.get_char(c) == '}' && t.get_char(c + 1) == '}' {
                return Some((a, b, c + 2));
            }
        }
    }
    None
}

/// Index of the first '.' of `p` at or after `from`, or the length of `p`.
fn find_dot(p: &str, n: usize, from: usize) -> (k: usize)
    requires
        n == p@.len(),
        from <= n,
    ensures
        k == dot_from(p@, from as int),
        k <= n,
{
    let mut k: usize = from;
    while k < n && p.get_char(k) != '.'
        invariant
            n == p@.len(),
            from <= k <= n,
            dot_from(p@, from as int) == dot_from(p@, k as int),
        decreases n - k,
    {
        k = k + 1;
    }
    k
}

fn scalar_text(v: &Scalar) -> (r: Option<String>)
    ensures
        match r {
            Some(s) => v@ == Some(s@),
            None => v@ is None,
        },
{
    match v {
        Scalar::Text(s) => Some(s.clone()),
        Scalar::Integer(n) => Some(int_text(*n)),
        Scalar::Other => None,
    }
}

/// Resolves `{{ path }}` markers against a snapshot of the context and the
/// captured responses.
pub struct Interpolator<'a> {
    context: &'a Context,
    responses: &'a ResponseStore,
}

impl<'a> Interpolator<'a> {
    pub closed spec fn context_view(&self) -> Map<Seq<char>, ValueModel> {
        self.context@
    }

    pub closed spec fn responses_view(&self) -> Map<Seq<char>, Map<Seq<char>, Seq<char>>> {
        self.responses@
    }

    pub fn new(context: &'a Context, responses: &'a ResponseStore) -> (r: Interpolator<'a>)
        ensures
            r.context_view() == context@,
            r.responses_view() == responses@,
    {
        Interpolator { context, responses }
    }

    /// Whether `text` holds the closing delimiter, a cheap test for markers.
    pub fn has_interpolations(text: &String) -> (r: bool)
        ensures
            r == has_closing(text@),
    {
        let t = text.as_str();
        let n = t.unicode_len();
        let mut i: usize = 0;
        while i < n && i + 1 < n
            invariant
                n == t@.len(),
                t@ == text@,
                forall|j: int| 0 <= j < i && j + 1 < n ==> !(#[trigger] t@[j] == '}' && t@[j + 1] == '}'),
            decreases n - i,
        {
            if t.get_char(i) == '}' && t.get_char(i + 1) == '}' {
                return true;
            }
            i = i + 1;
        }
        false
    }

    fn resolve_path(&self, p: &str) -> (r: Result<String, InterpolationError>)
        ensures
            match r {
                Ok(s) => resolve_path(p@, self.context@, self.responses@) == Ok::<Seq<char>, InterpolationError>(s@),
                Err(e) => resolve_path(p@, self.context@, self.responses@) == Err::<Seq<char>, InterpolationError>(e),
            },
    {
        let n = p.unicode_len();
        let d = find_dot(p, n, 0);
        let root = String::from_str(p.substring_char(0, d));
        let field = if d < n {
            if find_dot(p, n, d + 1) < n {
                return Err(InterpolationError::UnsupportedValueType);
            }
            Some(String::from_str(p.substring_char(d + 1, n)))
        } else {
            None
        };
        match self.context.get(&root) {
            Some(value) => match (value, field) {
                (ContextValue::Text(s), None) => Ok(s.clone()),
                (ContextValue::Integer(i), None) => Ok(int_text(*i)),
                (ContextValue::Mapping(m), Some(f)) => match m.get(&f) {
                    Some(v) => match scalar_text(v) {
                        Some(s) => Ok(s),
                        None => Err(InterpolationError::UnsupportedValueType),
                    },
                    None => Err(InterpolationError::UnknownVariable),
                },
                _ => Err(InterpolationError::UnsupportedValueType),
            },
            None => match self.responses.get(&root) {
                Some(fields) => match field {
                    Some(f) => match fields.get(&f) {
                        Some(text) => Ok(text.clone()),
                        None => Ok(String::from_str("null")),
                    },
                    None => Err(InterpolationError::UnsupportedValueType),
                },
                None => Err(InterpolationError::UnknownVariable),
            },
        }
    }

    /// Replaces every marker of `url`, left to right; fails on the first
    /// marker that cannot be resolved.
    pub fn resolve(&self, url: &String) -> (r: Result<String, InterpolationError>)
        ensures
            match r {
                Ok(s) => interpolate(url@, self.context_view(), self.responses_view()) == Ok::<Seq<char>, InterpolationError>(s@),
                Err(e) => interpolate(url@, self.context_view(), self.responses_view()) == Err::<Seq<char>, InterpolationError>(e),
            },
    {
        let ghost ctx = self.context@;
        let ghost resp = self.responses@;
        let t = url.as_str();
        let n = t.unicode_len();
        let mut out = String::new();
        let mut i: usize = 0;
        while i < n
            invariant
                n == t@.len(),
                t@ == url@,
                i <= n,
                ctx == self.context@,
                resp == self.responses@,
                render_from(t@, 0, ctx, resp) == prepend(out@, render_from(t@, i as int, ctx, resp)),
            decreases n - i,
        {
            match find_marker(t, n, i) {
                Some((a, b, e)) => {
                    let path = t.substring_char(a, b);
                    match self.resolve_path(path) {
                        Ok(v) => {
                            proof {
                                lemma_prepend_assoc(out@, v@, render_from(t@, e as int, ctx, resp));
                            }
                            out.append(v.as_str());
                            i = e;
                        },
                        Err(x) => {
                            return Err(x);
                        },
                    }
                },
                None => {
                    let c = t.substring_char(i, i + 1);
                    proof {
                        assert(c@ =~= seq![t@[i as int]]);
                        lemma_prepend_assoc(out@, c@, render_from(t@, i + 1, ctx, resp));
                    }
                    out.append(c);
                    i = i + 1;
                },
            }
        }
        assert(out@ + Seq::<char>::empty() =~= out@);
        Ok(out)
    }
}

} // verus!
