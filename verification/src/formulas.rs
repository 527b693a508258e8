//! The building blocks of the models on rows of exact numbers.
//!
//! A row is the entries of one position, a matrix the entries of a weight. Both models are said to
//! compute these formulas, so that they agree wherever their weights do.

use crate::meaning::{self, dot, entry, normalised, total, Values};
use crate::tensor::packed::{self, Norm};
use crate::tensor::Expr;
use vstd::prelude::*;

verus! {

/// The product of a matrix with a row of `n` numbers.
pub open spec fn apply(m: spec_fn(int, int) -> real, n: int, x: spec_fn(int) -> real) -> spec_fn(
    int,
) -> real {
    |o: int| dot(n, x, |k: int| m(o, k))
}

/// A row of `n` numbers, normalised and weighted.
pub open spec fn normed(
    x: spec_fn(int) -> real,
    n: int,
    eps: real,
    weight: spec_fn(int) -> real,
    v: Values,
) -> spec_fn(int) -> real {
    |d: int| normalised(x, n, eps, v)(d) * weight(d)
}

/// A row whose entries are those of two rows multiplied, the first of them bent.
pub open spec fn gated(
    bend: spec_fn(real) -> real,
    gate: spec_fn(int) -> real,
    up: spec_fn(int) -> real,
) -> spec_fn(int) -> real {
    |j: int| bend(gate(j)) * up(j)
}

/// Two rows added up.
pub open spec fn plus(a: spec_fn(int) -> real, b: spec_fn(int) -> real) -> spec_fn(int) -> real {
    |d: int| a(d) + b(d)
}

/// A row with a bias added, where there is one.
pub open spec fn shifted(x: spec_fn(int) -> real, bias: Option<spec_fn(int) -> real>) -> spec_fn(
    int,
) -> real {
    match bias {
        Some(bias) => plus(x, bias),
        None => x,
    }
}

/// A gated feed-forward block of `inner` entries on a row of `n`.
pub open spec fn fed(
    bend: spec_fn(real) -> real,
    gate: spec_fn(int, int) -> real,
    up: spec_fn(int, int) -> real,
    down: spec_fn(int, int) -> real,
    n: int,
    inner: int,
    x: spec_fn(int) -> real,
) -> spec_fn(int) -> real {
    apply(down, inner, gated(bend, apply(gate, n, x), apply(up, n, x)))
}

/// A row of `n` numbers with an input of `inputs` numbers mixed in.
pub open spec fn mixed_in(
    bend: spec_fn(real) -> real,
    gate: spec_fn(int, int) -> real,
    projection: spec_fn(int, int) -> real,
    n: int,
    inputs: int,
    eps: real,
    weight: spec_fn(int) -> real,
    x: spec_fn(int) -> real,
    input: spec_fn(int) -> real,
    v: Values,
) -> spec_fn(int) -> real {
    plus(
        x,
        normed(
            apply(projection, inputs, gated(bend, apply(gate, n, x), input)),
            n,
            eps,
            weight,
            v,
        ),
    )
}

/// The input of one layer for one position: the projected hidden state, normalised over the layer's
/// own slice, and the token's slice of a table scaled with the root of the slice's width, added up and
/// divided by the root of two.
pub open spec fn layer_input(
    token: spec_fn(int) -> real,
    projected: spec_fn(int) -> real,
    width: int,
    eps: real,
    weight: spec_fn(int) -> real,
    v: Values,
) -> spec_fn(int) -> real {
    |d: int|
        (normed(projected, width, eps, weight, v)(d) + token(d) * (v.root)(width as real)) * (1 as real
            / (v.root)(2 as real))
}

/// Slice `i`, of `width` entries, of a row.
pub open spec fn slice(x: spec_fn(int) -> real, i: int, width: int) -> spec_fn(int) -> real {
    |d: int| x(i * width + d)
}

/// A row whose entries are those of another times a number.
pub open spec fn times(x: spec_fn(int) -> real, n: real) -> spec_fn(int) -> real {
    |d: int| x(d) * n
}

/// A number that is kept between `-cap` and `cap`, where there is such a cap.
pub open spec fn capped(x: real, cap: Option<real>, v: Values) -> real {
    match cap {
        Some(cap) => (v.tanh)(x / cap) * cap,
        None => x,
    }
}

/// A row turned pair by pair, the first half of it paired with the second: by the angles whose
/// cosines and sines are given.
pub open spec fn turned(
    x: spec_fn(int) -> real,
    half: int,
    cos: spec_fn(int) -> real,
    sin: spec_fn(int) -> real,
) -> spec_fn(int) -> real {
    |d: int|
        if d < half {
            x(d) * cos(d) - x(d + half) * sin(d)
        } else {
            x(d) * cos(d - half) + x(d - half) * sin(d - half)
        }
}

/// The probabilities of some choices with these scores.
pub open spec fn chances(scores: spec_fn(int) -> real, n: int, v: Values) -> spec_fn(int) -> real {
    |e: int| (v.exp)(scores(e)) / total(n, |i: int| (v.exp)(scores(i)))
}

/// How well each of some experts suits a row of `n` numbers: the row is normalised, scaled entry by
/// entry and with the root of its width, and multiplied with each expert's row.
pub open spec fn suits(
    proj: spec_fn(int, int) -> real,
    scale: spec_fn(int) -> real,
    n: int,
    width: int,
    eps: real,
    x: spec_fn(int) -> real,
    v: Values,
) -> spec_fn(int) -> real {
    apply(
        proj,
        n,
        |k: int|
            normalised(x, n, eps, v)(k) * scale(k) * (v.power)(
                width as real,
                (-1int) as real / 2 as real,
            ),
    )
}

/// An expert's block on a row of `n` numbers: both halves of a first product, of `inner` entries each,
/// gated, and a second product.
pub open spec fn expert_row(
    bend: spec_fn(real) -> real,
    both: spec_fn(int, int) -> real,
    down: spec_fn(int, int) -> real,
    n: int,
    inner: int,
    x: spec_fn(int) -> real,
) -> spec_fn(int) -> real {
    let y = apply(both, n, x);
    apply(down, inner, gated(bend, slice(y, 0, inner), slice(y, 1, inner)))
}

/// What a pick weighs among all picks of a token: its probability, divided by the sum of those of all
/// picks, times its own scale.
pub open spec fn weight_of(
    chance: spec_fn(int) -> real,
    scale: spec_fn(int) -> real,
    picks: Seq<usize>,
    j: int,
) -> real {
    chance(picks[j] as int) / total(picks.len() as int, |i: int| chance(picks[i] as int)) * scale(
        picks[j] as int,
    )
}

/// The entries of a packed matrix.
pub open spec fn packed_matrix(q: candle_core::quantized::QTensor, v: Values) -> spec_fn(
    int,
    int,
) -> real {
    |o: int, k: int| (v.packed)(packed::packed_view(q), seq![o, k])
}

/// The entries of a matrix.
pub open spec fn matrix(w: Expr, v: Values) -> spec_fn(int, int) -> real {
    |o: int, k: int| entry(w, seq![o, k], v)
}

/// The entries of one matrix of a stack.
pub open spec fn stacked(stack: Expr, e: int, v: Values) -> spec_fn(int, int) -> real {
    |o: int, k: int| entry(stack, seq![e, o, k], v)
}

/// The entries of a tensor of one dimension.
pub open spec fn row(w: Expr, v: Values) -> spec_fn(int) -> real {
    |d: int| entry(w, seq![d], v)
}

/// A product needs no more of a row than the entries that there are.
pub proof fn lemma_apply(
    m: spec_fn(int, int) -> real,
    n: int,
    x: spec_fn(int) -> real,
    y: spec_fn(int) -> real,
)
    requires
        forall|k: int| 0 <= k < n ==> #[trigger] x(k) == y(k),
    ensures
        apply(m, n, x) == apply(m, n, y),
{
    let (f, g) = (apply(m, n, x), apply(m, n, y));
    assert forall|o: int| #[trigger] f(o) == g(o) by {
        let w = |k: int| m(o, k);
        meaning::lemma_dot_alike(n, x, w, y, w);
    }
    assert(f =~= g);
}

/// A normalisation needs no more of a row than the entries that there are.
pub proof fn lemma_normed(
    x: spec_fn(int) -> real,
    y: spec_fn(int) -> real,
    n: int,
    eps: real,
    weight: spec_fn(int) -> real,
    v: Values,
    d: int,
)
    requires
        forall|k: int| 0 <= k < n ==> #[trigger] x(k) == y(k),
        0 <= d < n,
    ensures
        normed(x, n, eps, weight, v)(d) == normed(y, n, eps, weight, v)(d),
        normalised(x, n, eps, v)(d) == normalised(y, n, eps, v)(d),
{
    meaning::lemma_dot_alike(n, x, x, y, y);
    assert(x(d) == y(d));
}

/// The root of a number, multiplied with itself, is the number: what scales a row so is what its
/// width says, and the two halves of a layer's input weigh as much as one.
pub proof fn law_roots_scale_by_width(n: int, v: Values)
    requires
        n > 0,
        forall|x: real| x >= 0 as real ==> #[trigger] (v.root)(x) * (v.root)(x) == x,
    ensures
        (v.root)(n as real) * (v.root)(n as real) == n as real,
        (1 as real / (v.root)(n as real)) * (1 as real / (v.root)(n as real)) * n as real
            == 1 as real,
{
    let (x, r) = (n as real, (v.root)(n as real));
    assert(x >= 0 as real);
    assert(r * r == x);
    assert(r != 0 as real) by (nonlinear_arith)
        requires
            r * r == x,
            x > 0 as real,
    ;
    let i = 1 as real / r;
    assert(i * r == 1 as real) by (nonlinear_arith)
        requires
            i == 1 as real / r,
            r != 0 as real,
    ;
    assert(i * i * x == 1 as real) by (nonlinear_arith)
        requires
            i * r == 1 as real,
            r * r == x,
    ;
}

/// A capped number lies within its cap.
pub proof fn law_caps_bound(x: real, cap: real, v: Values)
    requires
        cap > 0 as real,
        forall|y: real|
            -(1 as real) < #[trigger] (v.tanh)(y) < 1 as real,
    ensures
        -cap < capped(x, Some(cap), v) < cap,
{
    let t = (v.tanh)(x / cap);
    assert(-(1 as real) < t < 1 as real);
    assert(-cap < t * cap < cap) by (nonlinear_arith)
        requires
            -(1 as real) < t < 1 as real,
            cap > 0 as real,
    ;
}

/// A packed normalisation on a row.
pub open spec fn packed_normed(norm: Norm, x: spec_fn(int) -> real, n: int, v: Values) -> spec_fn(
    int,
) -> real {
    normed(x, n, meaning::number(norm.eps(), v), row(norm.weight(), v), v)
}

/// Probabilities add up to one.
pub proof fn law_chances_add_up(scores: spec_fn(int) -> real, n: int, v: Values)
    requires
        n > 0,
        forall|x: real| (#[trigger] (v.exp)(x)) > 0 as real,
    ensures
        total(n, chances(scores, n, v)) == 1 as real,
{
    let f = |i: int| (v.exp)(scores(i));
    lemma_total_positive(n, f);
    let d = total(n, f);
    meaning::lemma_total_of_shares(n, f, chances(scores, n, v), d);
    assert(d / d == 1 as real) by (nonlinear_arith)
        requires
            d > 0 as real,
    ;
}

proof fn lemma_total_positive(n: int, f: spec_fn(int) -> real)
    requires
        n > 0,
        forall|i: int| (#[trigger] f(i)) > 0 as real,
    ensures
        total(n, f) > 0 as real,
    decreases n,
{
    assert(f(n - 1) > 0 as real);
    if n > 1 {
        lemma_total_positive(n - 1, f);
    } else {
        assert(total(0, f) == 0 as real);
    }
}

/// A turn needs no more of a row than its entries.
pub proof fn lemma_turned(
    x: spec_fn(int) -> real,
    y: spec_fn(int) -> real,
    n: int,
    cos: spec_fn(int) -> real,
    sin: spec_fn(int) -> real,
    d: int,
)
    requires
        forall|k: int| 0 <= k < n ==> #[trigger] x(k) == y(k),
        0 <= d < n,
    ensures
        turned(x, n / 2, cos, sin)(d) == turned(y, n / 2, cos, sin)(d),
{
    assert(x(d) == y(d));
    let half = n / 2;
    if d < half {
        assert(x(d + half) == y(d + half));
    } else {
        assert(x(d - half) == y(d - half));
    }
}

/// Experts need no more of a row than its entries.
pub proof fn lemma_suits(
    proj: spec_fn(int, int) -> real,
    scale: spec_fn(int) -> real,
    n: int,
    width: int,
    eps: real,
    x: spec_fn(int) -> real,
    y: spec_fn(int) -> real,
    v: Values,
)
    requires
        forall|k: int| 0 <= k < n ==> #[trigger] x(k) == y(k),
    ensures
        suits(proj, scale, n, width, eps, x, v) == suits(proj, scale, n, width, eps, y, v),
{
    let f = |k: int|
        normalised(x, n, eps, v)(k) * scale(k) * (v.power)(
            width as real,
            (-1int) as real / 2 as real,
        );
    let g = |k: int|
        normalised(y, n, eps, v)(k) * scale(k) * (v.power)(
            width as real,
            (-1int) as real / 2 as real,
        );
    assert forall|k: int| 0 <= k < n implies #[trigger] f(k) == g(k) by {
        lemma_normed(x, y, n, eps, scale, v, k);
    }
    lemma_apply(proj, n, f, g);
}

/// An expert needs no more of a row than its entries.
pub proof fn lemma_expert_row(
    bend: spec_fn(real) -> real,
    both: spec_fn(int, int) -> real,
    down: spec_fn(int, int) -> real,
    n: int,
    inner: int,
    x: spec_fn(int) -> real,
    y: spec_fn(int) -> real,
)
    requires
        forall|k: int| 0 <= k < n ==> #[trigger] x(k) == y(k),
    ensures
        expert_row(bend, both, down, n, inner, x) == expert_row(bend, both, down, n, inner, y),
{
    lemma_apply(both, n, x, y);
}

} // verus!
