//! Heads of attention, entry by entry: how they are cut out of a row, turned, and put together again.

use crate::attention::{self, KvView};
use crate::formulas::{plus, slice, turned};
use crate::meaning::{self, along, entry, is_index, line, number, shape_of, total, Values};
use crate::rotary::RotaryEmbedding;
use crate::tensor::{self, BinaryOp, Expr, NumberExpr, UnaryOp};
use vstd::prelude::*;

verus! {

/// One over the root of a count.
pub proof fn lemma_recip_root(n: int, v: Values)
    ensures
        number(tensor::recip_sqrt_of(n), v) == 1 as real / (v.root)(n as real),
        number(tensor::sqrt_of(n), v) == (v.root)(n as real),
{
    assert(number(NumberExpr::Int(n), v) == n as real);
    assert(number(tensor::sqrt_of(n), v) == (v.root)(number(NumberExpr::Int(n), v)));
    assert(number(tensor::recip_sqrt_of(n), v) == 1 as real / number(tensor::sqrt_of(n), v));
}

/// Rows seen as layers of slices: slice `i` is the run of entries from `i * width` on.
pub proof fn lemma_slice(
    e: Expr,
    b_sz: usize,
    seq_len: usize,
    layers: usize,
    width: usize,
    at: Seq<int>,
    v: Values,
)
    requires
        layers * width <= usize::MAX,
        shape_of(e) == seq![b_sz, seq_len, (layers * width) as usize],
        is_index(at, seq![b_sz, seq_len, layers, width]),
    ensures
        entry(tensor::reshaped(e, seq![b_sz, seq_len, layers, width]), at, v) == entry(
            e,
            seq![at[0], at[1], at[2] * width + at[3]],
            v,
        ),
        0 <= at[2] * width + at[3] < layers * width,
{
    let shape = seq![b_sz, seq_len, layers, width];
    let flat = seq![b_sz, seq_len, (layers * width) as usize];
    let (b, t, i, d) = (at[0], at[1], at[2], at[3]);
    assert(0 <= b < shape[0] && 0 <= t < shape[1] && 0 <= i < shape[2] && 0 <= d < shape[3]);
    let from = seq![b, t, i * width + d];
    assert(0 <= i * width + d < layers * width) by (nonlinear_arith)
        requires
            0 <= i < layers,
            0 <= d < width,
    ;
    meaning::lemma_flat_4(at, shape);
    meaning::lemma_flat_3(from, flat);
    let s = b * seq_len + t;
    assert((s * layers + i) * width + d == s * (layers * width) + (i * width + d))
        by (nonlinear_arith);
    assert(is_index(from, flat));
    meaning::lemma_reshaped(e, shape, at, from, v);
}

/// A projection seen as heads: head `h` is the run of entries from `h * head_dim` on.
pub proof fn law_heads_are_runs(
    x: Expr,
    b_sz: usize,
    seq_len: usize,
    heads: usize,
    head_dim: usize,
    at: Seq<int>,
    v: Values,
)
    requires
        heads * head_dim <= usize::MAX,
        shape_of(x) == seq![b_sz, seq_len, (heads * head_dim) as usize],
        is_index(at, seq![b_sz, heads, seq_len, head_dim]),
    ensures
        ({
            let split = tensor::reshaped(x, seq![b_sz, seq_len, heads, head_dim]);
            &&& shape_of(tensor::transposed(split, 1, 2)) == seq![b_sz, heads, seq_len, head_dim]
            &&& entry(tensor::transposed(split, 1, 2), at, v) == slice(
                line(x, seq![at[0], at[2], 0], v),
                at[1],
                head_dim as int,
            )(at[3])
        }),
{
    let dims = seq![b_sz, heads, seq_len, head_dim];
    let split = tensor::reshaped(x, seq![b_sz, seq_len, heads, head_dim]);
    let (b, h, t, d) = (at[0], at[1], at[2], at[3]);
    assert(0 <= b < dims[0] && 0 <= h < dims[1] && 0 <= t < dims[2] && 0 <= d < dims[3]);
    let there = seq![b, t, h, d];
    assert(at.update(1, at[2]).update(2, at[1]) =~= there);
    assert(entry(tensor::transposed(split, 1, 2), at, v) == entry(split, there, v));
    lemma_slice(x, b_sz, seq_len, heads, head_dim, there, v);
    let row = seq![b, t, 0];
    assert(along(row, h * head_dim + d) =~= seq![b, t, h * head_dim + d]);
    assert(shape_of(split) == seq![b_sz, seq_len, heads, head_dim]);
    assert(shape_of(tensor::transposed(split, 1, 2)) =~= dims);
}

/// The cosines of a position.
pub open spec fn cos_at(t: RotaryEmbedding, position: int, v: Values) -> spec_fn(int) -> real {
    |j: int| entry(t.cos(), seq![position, j], v)
}

/// The sines of a position.
pub open spec fn sin_at(t: RotaryEmbedding, position: int, v: Values) -> spec_fn(int) -> real {
    |j: int| entry(t.sin(), seq![position, j], v)
}

/// Turning the rows of a chunk turns each by the angles of its own absolute position.
pub proof fn law_turns_are_absolute(
    rotary: RotaryEmbedding,
    x: Expr,
    index_pos: nat,
    seq_len: nat,
    at: Seq<int>,
    v: Values,
)
    requires
        at.len() == 4,
    ensures
        ({
            let (cos, sin) = rotary.rows(index_pos, seq_len);
            entry(tensor::roped(x, cos, sin), at, v) == turned(
                line(x, at, v),
                shape_of(x).last() as int / 2,
                cos_at(rotary, index_pos + at[2], v),
                sin_at(rotary, index_pos + at[2], v),
            )(at[3])
        }),
{
    let (cos, sin) = rotary.rows(index_pos, seq_len);
    let half = shape_of(x).last() as int / 2;
    let d = at[3];
    let pair = if d < half {
        d
    } else {
        d - half
    };
    let turn = seq![at[2], pair];
    crate::rotary::law_rows_are_absolute(rotary, index_pos, seq_len, turn, v);
    assert(seq![index_pos + turn[0], turn[1]] =~= seq![index_pos + at[2], pair]);
    assert(along(at, d) =~= at);
    assert(line(x, at, v)(d) == entry(x, at, v));
}

/// Laying entries out in order changes none.
pub proof fn lemma_contiguous_line(x: Expr, at: Seq<int>, v: Values)
    ensures
        line(tensor::unary(UnaryOp::Contiguous, x), at, v) == line(x, at, v),
{
    let (f, g) = (line(tensor::unary(UnaryOp::Contiguous, x), at, v), line(x, at, v));
    assert forall|k: int| #[trigger] f(k) == g(k) by {}
    assert(f =~= g);
}

/// What a head of a query attends: the values of its key head, weighted with their shares.
pub open spec fn mix(
    q: Expr,
    kv: KvView,
    n_rep: usize,
    mask: Option<Expr>,
    at: Seq<int>,
    v: Values,
) -> real {
    total(
        kv.k_dims[2] as int,
        |c: int|
            attention::shares_of(
                attention::scores_of(q, kv.k, n_rep, mask, at, v),
                kv.k_dims[2] as int,
                v,
            )(c) * entry(kv.v, seq![at[0], at[1] / n_rep as int, c, at[3]], v),
    )
}

/// What a position's heads attend, head after head.
pub open spec fn heads_joined(
    q: Expr,
    kv: KvView,
    n_rep: usize,
    head_dim: int,
    mask: Option<Expr>,
    b: int,
    t: int,
    v: Values,
) -> spec_fn(int) -> real {
    |e: int| mix(q, kv, n_rep, mask, seq![b, e / head_dim, t, e % head_dim], v)
}

/// The head that an entry of all heads belongs to, and its place there.
pub proof fn lemma_head_of(e: int, heads: int, head_dim: int)
    requires
        head_dim > 0,
        0 <= e < heads * head_dim,
    ensures
        0 <= e / head_dim < heads,
        0 <= e % head_dim < head_dim,
        e == head_dim * (e / head_dim) + e % head_dim,
{
    let (n, h, d) = (head_dim, e / head_dim, e % head_dim);
    vstd::arithmetic::div_mod::lemma_fundamental_div_mod(e, n);
    vstd::arithmetic::div_mod::lemma_mod_bound(e, n);
    assert(0 <= h < heads) by (nonlinear_arith)
        requires
            e == n * h + d,
            0 <= e < heads * n,
            0 <= d < n,
    ;
}

/// Heads put behind each other: entry `e` of a position is entry `e % head_dim` of its head
/// `e / head_dim`.
pub proof fn law_heads_are_joined(
    x: Expr,
    b_sz: usize,
    seq_len: usize,
    heads: usize,
    head_dim: usize,
    at: Seq<int>,
    v: Values,
)
    requires
        heads * head_dim <= usize::MAX,
        head_dim > 0,
        shape_of(x) == seq![b_sz, heads, seq_len, head_dim],
        is_index(at, seq![b_sz, seq_len, (heads * head_dim) as usize]),
    ensures
        entry(
            tensor::reshaped(
                tensor::transposed(x, 1, 2),
                seq![b_sz, seq_len, (heads * head_dim) as usize],
            ),
            at,
            v,
        ) == entry(
            x,
            seq![at[0], at[2] / head_dim as int, at[1], at[2] % head_dim as int],
            v,
        ),
        0 <= at[2] / (head_dim as int) < heads,
        0 <= at[2] % (head_dim as int) < head_dim,
{
    let flat = seq![b_sz, seq_len, (heads * head_dim) as usize];
    let side = tensor::transposed(x, 1, 2);
    let shape = seq![b_sz, seq_len, heads, head_dim];
    assert(shape_of(side) =~= shape);
    let (b, t, e) = (at[0], at[1], at[2]);
    assert(0 <= b < flat[0] && 0 <= t < flat[1] && 0 <= e < flat[2]);
    let n = head_dim as int;
    let (h, d) = (e / n, e % n);
    lemma_head_of(e, heads as int, n);
    let from = seq![b, t, h, d];
    assert(is_index(from, shape));
    meaning::lemma_flat_3(at, flat);
    meaning::lemma_flat_4(from, shape);
    let s = b * seq_len + t;
    assert(s * (heads * n) + e == (s * heads + h) * n + d) by (nonlinear_arith)
        requires
            e == n * h + d,
    ;
    meaning::lemma_reshaped(side, flat, at, from, v);
    let there = seq![b, h, t, d];
    assert(from.update(1, from[2]).update(2, from[1]) =~= there);
}

/// A count to the power of minus one half.
pub proof fn lemma_inverse_root(n: int, v: Values)
    ensures
        number(tensor::inverse_root_of(n), v) == (v.power)(
            n as real,
            (-1int) as real / 2 as real,
        ),
{
    assert(number(NumberExpr::Int(n), v) == n as real);
    assert(number(NumberExpr::Int(-1), v) == (-1int) as real);
    assert(number(NumberExpr::Int(2), v) == 2 as real);
    assert(number(tensor::ratio_of(-1, 2), v) == (-1int) as real / 2 as real);
}

/// Sums of equal rows are equal.
pub proof fn lemma_sum_line(a: Expr, b: Expr, at: Seq<int>, v: Values)
    ensures
        line(tensor::binary(BinaryOp::Add, a, b), at, v) == plus(line(a, at, v), line(b, at, v)),
{
    let e = tensor::binary(BinaryOp::Add, a, b);
    let (f, g) = (line(e, at, v), plus(line(a, at, v), line(b, at, v)));
    assert forall|k: int| #[trigger] f(k) == g(k) by {
        assert(entry(e, along(at, k), v) == entry(a, along(at, k), v) + entry(
            b,
            along(at, k),
            v,
        ));
    }
    assert(f =~= g);
}

} // verus!
