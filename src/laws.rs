use vstd::prelude::*;

use crate::interpolator::{
    dot_from, has_closing, interpolate, is_path_char, is_root_start, marker_at, path_len,
    render_from, resolve_path, spaces_len, InterpolationError, ValueModel,
};

verus! {

pub open spec fn spaces(n: nat) -> Seq<char> {
    Seq::new(n, |_i: int| ' ')
}

/// A well-formed path: a root start followed by path characters.
pub open spec fn is_path(p: Seq<char>) -> bool {
    p.len() > 0 && is_root_start(p[0]) && forall|j: int| 0 <= j < p.len() ==> is_path_char(#[trigger] p[j])
}

/// A marker around `p`, with `lead` spaces after `{{` and `trail` spaces before `}}`.
pub open spec fn marker_text(lead: nat, p: Seq<char>, trail: nat) -> Seq<char> {
    seq!['{', '{'] + spaces(lead) + p + spaces(trail) + seq!['}', '}']
}

proof fn lemma_spaces_run(t: Seq<char>, j: int, m: nat)
    requires
        0 <= j,
        j + m <= t.len(),
        forall|k: int| j <= k < j + m ==> t[k] == ' ',
        j + m < t.len() ==> t[j + m] != ' ',
    ensures
        spaces_len(t, j) == m,
    decreases m,
{
    if m > 0 {
        lemma_spaces_run(t, j + 1, (m - 1) as nat);
    }
}

proof fn lemma_path_run(t: Seq<char>, j: int, m: nat)
    requires
        0 <= j,
        j + m <= t.len(),
        forall|k: int| j <= k < j + m ==> is_path_char(t[k]),
        j + m < t.len() ==> !is_path_char(t[j + m]),
    ensures
        path_len(t, j) == m,
    decreases m,
{
    if m > 0 {
        lemma_path_run(t, j + 1, (m - 1) as nat);
    }
}

proof fn lemma_unmarked_from(
    t: Seq<char>,
    i: int,
    ctx: Map<Seq<char>, ValueModel>,
    resp: Map<Seq<char>, Map<Seq<char>, Seq<char>>>,
)
    requires
        0 <= i <= t.len(),
        forall|k: int| 0 <= k < t.len() ==> #[trigger] marker_at(t, k) is None,
    ensures
        render_from(t, i, ctx, resp) == Ok::<Seq<char>, InterpolationError>(t.subrange(i, t.len() as int)),
    decreases t.len() - i,
{
    if i < t.len() {
        lemma_unmarked_from(t, i + 1, ctx, resp);
        assert(marker_at(t, i) is None);
        assert(seq![t[i]] + t.subrange(i + 1, t.len() as int) =~= t.subrange(i, t.len() as int));
    } else {
        assert(t.subrange(i, t.len() as int) =~= Seq::<char>::empty());
    }
}

/// A template without any marker resolves to itself, whatever the context
/// and the responses hold.
pub proof fn law_unmarked_template_unchanged(
    t: Seq<char>,
    ctx: Map<Seq<char>, ValueModel>,
    resp: Map<Seq<char>, Map<Seq<char>, Seq<char>>>,
)
    requires
        forall|k: int| 0 <= k < t.len() ==> #[trigger] marker_at(t, k) is None,
    ensures
        interpolate(t, ctx, resp) == Ok::<Seq<char>, InterpolationError>(t),
{
    lemma_unmarked_from(t, 0, ctx, resp);
    assert(t.subrange(0, t.len() as int) =~= t);
}

/// Skipping resolution when the closing delimiter is absent never changes
/// the result: such a text resolves to itself.
pub proof fn law_no_closing_delimiter_unchanged(
    t: Seq<char>,
    ctx: Map<Seq<char>, ValueModel>,
    resp: Map<Seq<char>, Map<Seq<char>, Seq<char>>>,
)
    requires
        !has_closing(t),
    ensures
        interpolate(t, ctx, resp) == Ok::<Seq<char>, InterpolationError>(t),
{
    assert forall|k: int| 0 <= k < t.len() implies #[trigger] marker_at(t, k) is None by {
        if let Some((a, b, e)) = marker_at(t, k) {
            assert(t[e - 2] == '}' && t[e - 1] == '}');
        }
    }
    law_unmarked_template_unchanged(t, ctx, resp);
}

/// A template that is one marker resolves to what its path resolves to.
pub proof fn law_marker_resolves_path(
    lead: nat,
    p: Seq<char>,
    trail: nat,
    ctx: Map<Seq<char>, ValueModel>,
    resp: Map<Seq<char>, Map<Seq<char>, Seq<char>>>,
)
    requires
        is_path(p),
    ensures
        interpolate(marker_text(lead, p, trail), ctx, resp) == resolve_path(p, ctx, resp),
{
    let t = marker_text(lead, p, trail);
    let a: int = 2 + lead as int;
    let b: int = a + p.len();
    let c: int = b + trail;
    assert(t.len() == c + 2);
    assert forall|k: int| 2 <= k < a implies t[k] == ' ' by {}
    assert forall|k: int| 0 <= k < p.len() implies t[a + k] == p[k] by {}
    assert forall|k: int| b <= k < c implies t[k] == ' ' by {}
    assert(t[c] == '}' && t[c + 1] == '}');
    assert(t[0] == '{' && t[1] == '{');
    assert(is_path_char(p[0]));
    lemma_spaces_run(t, 2, lead);
    assert forall|k: int| a + 1 <= k < b implies is_path_char(t[k]) by {
        assert(t[a + (k - a)] == p[k - a]);
        assert(is_path_char(p[k - a]));
    }
    lemma_path_run(t, a + 1, (p.len() - 1) as nat);
    lemma_spaces_run(t, b, trail);
    assert(marker_at(t, 0) == Some((a as int, b as int, t.len() as int)));
    assert(t.subrange(a as int, b as int) =~= p);
    assert(render_from(t, t.len() as int, ctx, resp) == Ok::<Seq<char>, InterpolationError>(
        Seq::empty(),
    ));
    if let Ok(v) = resolve_path(p, ctx, resp) {
        assert(v + Seq::<char>::empty() =~= v);
    }
    assert(interpolate(t, ctx, resp) == render_from(t, 0, ctx, resp));
}

/// Spaces inside the delimiters do not matter: `{{x}}` and `{{ x }}` resolve alike.
pub proof fn law_spaces_insignificant(
    lead1: nat,
    trail1: nat,
    lead2: nat,
    trail2: nat,
    p: Seq<char>,
    ctx: Map<Seq<char>, ValueModel>,
    resp: Map<Seq<char>, Map<Seq<char>, Seq<char>>>,
)
    requires
        is_path(p),
    ensures
        interpolate(marker_text(lead1, p, trail1), ctx, resp) == interpolate(
            marker_text(lead2, p, trail2),
            ctx,
            resp,
        ),
{
    law_marker_resolves_path(lead1, p, trail1, ctx, resp);
    law_marker_resolves_path(lead2, p, trail2, ctx, resp);
}

/// A name that starts with a digit is no marker: the text is kept as it is.
pub proof fn law_digit_root_left_unchanged(
    lead: nat,
    p: Seq<char>,
    trail: nat,
    ctx: Map<Seq<char>, ValueModel>,
    resp: Map<Seq<char>, Map<Seq<char>, Seq<char>>>,
)
    requires
        p.len() > 0,
        '0' <= p[0] <= '9',
        forall|j: int| 0 <= j < p.len() ==> is_path_char(#[trigger] p[j]),
    ensures
        interpolate(marker_text(lead, p, trail), ctx, resp) == Ok::<Seq<char>, InterpolationError>(
            marker_text(lead, p, trail),
        ),
{
    let t = marker_text(lead, p, trail);
    let a: int = 2 + lead as int;
    let b: int = a + p.len();
    assert forall|k: int| 2 <= k < t.len() implies t[k] != '{' by {
        if a <= k < b {
            assert(t[k] == p[k - a]);
            assert(is_path_char(p[k - a]));
        }
    }
    assert(t[a] == p[0]);
    lemma_spaces_run(t, 2, lead);
    assert forall|k: int| 0 <= k < t.len() implies #[trigger] marker_at(t, k) is None by {
        if k >= 1 && k + 1 < t.len() {
            assert(t[k + 1] != '{');
        }
    }
    law_unmarked_template_unchanged(t, ctx, resp);
}

proof fn lemma_dot_before(p: Seq<char>, k: int, i: int)
    requires
        0 <= k <= i < p.len(),
        p[i] == '.',
    ensures
        k <= dot_from(p, k) <= i,
    decreases i - k,
{
    if p[k] != '.' {
        lemma_dot_before(p, k + 1, i);
    }
}

/// A path with two fields below its root always fails, whatever the stores hold.
pub proof fn law_two_fields_fail(
    lead: nat,
    p: Seq<char>,
    trail: nat,
    i: int,
    j: int,
    ctx: Map<Seq<char>, ValueModel>,
    resp: Map<Seq<char>, Map<Seq<char>, Seq<char>>>,
)
    requires
        is_path(p),
        0 <= i < j < p.len(),
        p[i] == '.',
        p[j] == '.',
    ensures
        interpolate(marker_text(lead, p, trail), ctx, resp) == Err::<Seq<char>, InterpolationError>(
            InterpolationError::UnsupportedValueType,
        ),
{
    law_marker_resolves_path(lead, p, trail, ctx, resp);
    lemma_dot_before(p, 0, i);
    let d = dot_from(p, 0);
    lemma_dot_before(p, d + 1, j);
}

} // verus!
