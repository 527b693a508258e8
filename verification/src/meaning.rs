//! What a record says of the entries of its tensor.
//!
//! The records of `tensor` name operations. Here each operation has its meaning on single entries,
//! computed exactly, over whatever the tensors and parameters that were handed in hold. The laws of
//! the models speak of entries through it: they say which entries a result is made of, and how.

use crate::tensor::packed::PackedView;
use crate::tensor::{self, BinaryOp, Expr, NumberExpr, NumberOp, UnaryOp};
use vstd::prelude::*;

verus! {

/// What the entries of the tensors that were handed in are, and what the functions are that have no
/// exact description here.
pub ghost struct Values {
    /// The entries of tensors that no operation produced.
    pub leaf: spec_fn(Expr, Seq<int>) -> real,
    /// The number of an `F32` bit pattern.
    pub word: spec_fn(u32) -> real,
    /// The entries of packed tensors.
    pub packed: spec_fn(PackedView, Seq<int>) -> real,
    /// The numbers that were handed in.
    pub scalar: spec_fn(candle_core::scalar::Scalar) -> real,
    pub root: spec_fn(real) -> real,
    pub exp: spec_fn(real) -> real,
    pub power: spec_fn(real, real) -> real,
    pub gelu: spec_fn(real) -> real,
    pub tanh: spec_fn(real) -> real,
    pub cos: spec_fn(real) -> real,
    pub sin: spec_fn(real) -> real,
    pub activation: spec_fn(candle_nn::Activation, real) -> real,
    /// The row that an identifier names.
    pub row: spec_fn(real) -> int,
}

/// The sum of the first `n` values of a function.
pub open spec fn total(n: int, f: spec_fn(int) -> real) -> real
    decreases n,
{
    if n <= 0 {
        0 as real
    } else {
        total(n - 1, f) + f(n - 1)
    }
}

/// The sum of the first `n` values of a function.
pub open spec fn count(n: int, f: spec_fn(int) -> int) -> int
    decreases n,
{
    if n <= 0 {
        0
    } else {
        count(n - 1, f) + f(n - 1)
    }
}

/// What a number is.
pub open spec fn number(n: NumberExpr, v: Values) -> real
    decreases n,
{
    match n {
        NumberExpr::Given(s) => (v.scalar)(s),
        NumberExpr::Int(i) => i as real,
        NumberExpr::Sqrt(a) => (v.root)(number(*a, v)),
        NumberExpr::Recip(a) => 1 as real / number(*a, v),
        NumberExpr::Times(a, b) => number(*a, v) * number(*b, v),
        NumberExpr::Over(a, b) => number(*a, v) / number(*b, v),
        NumberExpr::Pow(a, b) => (v.power)(number(*a, v), number(*b, v)),
    }
}

/// The shape of a tensor of this record.
pub open spec fn shape_of(e: Expr) -> Seq<usize>
    decreases e,
{
    match e {
        Expr::Given(t) => tensor::tensor_dims(t),
        Expr::Words { dims, .. } => dims,
        Expr::Zeros { dims, .. } => dims,
        Expr::Counts { end, .. } => seq![end as usize],
        Expr::Param { dims, .. } => dims,
        Expr::Unpacked(q) => tensor::packed::packed_dims(q),
        Expr::Unary(op, of) => match op {
            UnaryOp::MeanLast => tensor::with_last(shape_of(*of), 1),
            UnaryOp::SumLast => tensor::with_last(shape_of(*of), 1),
            _ => shape_of(*of),
        },
        Expr::Binary(op, a, b) => match op {
            BinaryOp::Add => shape_of(*a),
            BinaryOp::Mul => shape_of(*a),
            BinaryOp::MatMul => tensor::with_last(shape_of(*a), shape_of(*b).last()),
            _ => tensor::broadcast_dims(shape_of(*a), shape_of(*b)),
        },
        Expr::WithNumber(_, of, _) => shape_of(*of),
        Expr::ToDType(of, _) => shape_of(*of),
        Expr::Transpose(of, i, j) => tensor::swapped_dims(shape_of(*of), i as int, j as int),
        Expr::Reshape(_, dims) => dims,
        Expr::Expand(_, dims) => dims,
        Expr::Narrow { of, dim, len, .. } => shape_of(*of).update(dim as int, len as usize),
        Expr::Select { of, dim, .. } => shape_of(*of).remove(dim as int),
        Expr::Cat(parts, dim) => {
            let n = count(
                parts.len() as int,
                |m: int|
                    if 0 <= m < parts.len() {
                        shape_of(parts[m])[dim as int] as int
                    } else {
                        0
                    },
            );
            if parts.len() > 0 {
                shape_of(parts[0]).update(dim as int, n as usize)
            } else {
                Seq::empty()
            }
        },
        Expr::Rope { of, .. } => shape_of(*of),
        Expr::PackedMatMul(w, of) => tensor::with_last(shape_of(*of), w.dims[0]),
        Expr::PackedRows(q, ids) => shape_of(*ids).push(tensor::packed::packed_dims(q).last()),
        Expr::RmsNorm { of, .. } => shape_of(*of),
        Expr::Linear { weight, of, .. } => tensor::with_last(shape_of(*of), shape_of(*weight)[0]),
        Expr::Rows(table, ids) => shape_of(*ids).push(shape_of(*table).last()),
        Expr::Activation(_, of) => shape_of(*of),
        Expr::Appended { dim, pieces, .. } => {
            let n = count(
                pieces.len() as int,
                |m: int|
                    if 0 <= m < pieces.len() {
                        shape_of(pieces[m])[dim as int] as int
                    } else {
                        0
                    },
            );
            if pieces.len() > 0 {
                shape_of(pieces[0]).update(dim as int, n as usize)
            } else {
                Seq::empty()
            }
        },
        Expr::Rotated { .. } => arbitrary(),
    }
}

/// The index into a dimension that is stretched where it has size one, the dimensions being aligned
/// at the last one.
pub open spec fn clipped(at: Seq<int>, dims: Seq<usize>) -> Seq<int> {
    Seq::new(
        dims.len(),
        |i: int|
            if dims[i] == 1 {
                0
            } else {
                at[i + at.len() - dims.len()]
            },
    )
}

/// The place of an entry when all are counted, the last dimension running fastest.
pub open spec fn flat(at: Seq<int>, dims: Seq<usize>) -> int
    decreases at.len(),
{
    if at.len() == 0 {
        0
    } else {
        flat(at.drop_last(), dims.drop_last()) * dims.last() + at.last()
    }
}

/// The index of the entry at a place, when all are counted.
pub open spec fn unflat(n: int, dims: Seq<usize>) -> Seq<int>
    decreases dims.len(),
{
    if dims.len() == 0 {
        Seq::empty()
    } else {
        unflat(n / dims.last() as int, dims.drop_last()).push(n % dims.last() as int)
    }
}

/// An index of an entry of this shape.
pub open spec fn is_index(at: Seq<int>, dims: Seq<usize>) -> bool {
    &&& at.len() == dims.len()
    &&& forall|i: int| 0 <= i < dims.len() ==> 0 <= #[trigger] at[i] < dims[i]
}

/// The part that place `i` of parts of these lengths, one behind the other, falls into, and the place
/// in it.
pub open spec fn part_at(lens: Seq<int>, i: int) -> (int, int)
    decreases lens.len(),
{
    if lens.len() == 0 || i < lens[0] {
        (0, i)
    } else {
        let (m, k) = part_at(lens.drop_first(), i - lens[0]);
        (m + 1, k)
    }
}

/// The sizes of one dimension of some tensors.
pub open spec fn extents(parts: Seq<Expr>, dim: int) -> Seq<int> {
    parts.map_values(|p: Expr| shape_of(p)[dim] as int)
}

/// An index with its last place replaced.
pub open spec fn along(at: Seq<int>, k: int) -> Seq<int> {
    at.update(at.len() - 1, k)
}

/// An index with its last but one place replaced.
pub open spec fn across(at: Seq<int>, k: int) -> Seq<int> {
    at.update(at.len() - 2, k)
}

/// A number scaled by the root of the mean of the squares that it stands among.
pub open spec fn scaled_by_rms(x: real, squares: real, n: int, eps: real, v: Values) -> real {
    x / (v.root)(squares / n as real + eps)
}

/// The entry of a tensor of this record at an index.
pub open spec fn entry(e: Expr, at: Seq<int>, v: Values) -> real
    decreases e,
{
    match e {
        Expr::Words { dims, words, .. } => (v.word)(words[flat(at, dims)]),
        Expr::Zeros { .. } => 0 as real,
        Expr::Counts { .. } => at[0] as real,
        Expr::Unpacked(q) => (v.packed)(tensor::packed::packed_view(q), at),
        Expr::Unary(op, of) => {
            let n = shape_of(*of).last() as int;
            match op {
                UnaryOp::Sqr => entry(*of, at, v) * entry(*of, at, v),
                UnaryOp::Sqrt => (v.root)(entry(*of, at, v)),
                UnaryOp::Gelu => (v.gelu)(entry(*of, at, v)),
                UnaryOp::Tanh => (v.tanh)(entry(*of, at, v)),
                UnaryOp::Cos => (v.cos)(entry(*of, at, v)),
                UnaryOp::Sin => (v.sin)(entry(*of, at, v)),
                UnaryOp::Recip => 1 as real / entry(*of, at, v),
                UnaryOp::Contiguous => entry(*of, at, v),
                UnaryOp::SoftmaxLast => (v.exp)(entry(*of, at, v)) / total(
                    n,
                    |k: int| (v.exp)(entry(*of, along(at, k), v)),
                ),
                UnaryOp::MeanLast => total(n, |k: int| entry(*of, along(at, k), v)) / n as real,
                UnaryOp::SumLast => total(n, |k: int| entry(*of, along(at, k), v)),
            }
        },
        Expr::Binary(op, a, b) => {
            let (near, far) = (clipped(at, shape_of(*a)), clipped(at, shape_of(*b)));
            match op {
                BinaryOp::Add => entry(*a, at, v) + entry(*b, at, v),
                BinaryOp::Mul => entry(*a, at, v) * entry(*b, at, v),
                BinaryOp::BroadcastAdd => entry(*a, near, v) + entry(*b, far, v),
                BinaryOp::BroadcastMul => entry(*a, near, v) * entry(*b, far, v),
                BinaryOp::BroadcastDiv => entry(*a, near, v) / entry(*b, far, v),
                BinaryOp::MatMul => total(
                    shape_of(*a).last() as int,
                    |k: int| entry(*a, along(at, k), v) * entry(*b, across(at, k), v),
                ),
            }
        },
        Expr::WithNumber(op, of, n) => {
            let (x, n) = (entry(*of, at, v), number(n, v));
            match op {
                NumberOp::Add => x + n,
                NumberOp::Mul => x * n,
                NumberOp::Div => x / n,
                NumberOp::Pow => (v.power)(x, n),
            }
        },
        Expr::ToDType(of, _) => entry(*of, at, v),
        Expr::Transpose(of, i, j) => entry(
            *of,
            at.update(i as int, at[j as int]).update(j as int, at[i as int]),
            v,
        ),
        Expr::Reshape(of, dims) => entry(*of, unflat(flat(at, dims), shape_of(*of)), v),
        Expr::Expand(of, _) => entry(*of, clipped(at, shape_of(*of)), v),
        Expr::Narrow { of, dim, start, .. } => entry(
            *of,
            at.update(dim as int, at[dim as int] + start),
            v,
        ),
        Expr::Select { of, dim, index } => entry(*of, at.insert(dim as int, index as int), v),
        Expr::Cat(parts, dim) => {
            let (m, k) = part_at(extents(parts, dim as int), at[dim as int]);
            if 0 <= m < parts.len() {
                entry(parts[m], at.update(dim as int, k), v)
            } else {
                arbitrary()
            }
        },
        Expr::Appended { dim, pieces, .. } => {
            let (m, k) = part_at(extents(pieces, dim as int), at[dim as int]);
            if 0 <= m < pieces.len() {
                entry(pieces[m], at.update(dim as int, k), v)
            } else {
                arbitrary()
            }
        },
        Expr::Rope { of, cos, sin } => {
            let half = shape_of(*of).last() as int / 2;
            let d = at.last();
            let pair = if d < half {
                d
            } else {
                d - half
            };
            let turn = seq![at[at.len() - 2], pair];
            if d < half {
                entry(*of, at, v) * entry(*cos, turn, v) - entry(*of, along(at, d + half), v)
                    * entry(*sin, turn, v)
            } else {
                entry(*of, at, v) * entry(*cos, turn, v) + entry(*of, along(at, d - half), v)
                    * entry(*sin, turn, v)
            }
        },
        Expr::PackedMatMul(w, of) => total(
            shape_of(*of).last() as int,
            |k: int| entry(*of, along(at, k), v) * (v.packed)(w, seq![at.last(), k]),
        ),
        Expr::PackedRows(q, ids) => (v.packed)(
            tensor::packed::packed_view(q),
            seq![(v.row)(entry(*ids, at.drop_last(), v)), at.last()],
        ),
        Expr::RmsNorm { weight, eps, of } => {
            let n = shape_of(*of).last() as int;
            scaled_by_rms(
                entry(*of, at, v),
                total(n, |k: int| entry(*of, along(at, k), v) * entry(*of, along(at, k), v)),
                n,
                number(eps, v),
                v,
            ) * entry(*weight, seq![at.last()], v)
        },
        Expr::Linear { weight, bias, of } => {
            let product = total(
                shape_of(*of).last() as int,
                |k: int| entry(*of, along(at, k), v) * entry(*weight, seq![at.last(), k], v),
            );
            match bias {
                Some(bias) => product + entry(*bias, seq![at.last()], v),
                None => product,
            }
        },
        Expr::Rows(table, ids) => entry(
            *table,
            seq![(v.row)(entry(*ids, at.drop_last(), v)), at.last()],
            v,
        ),
        Expr::Activation(a, of) => (v.activation)(a, entry(*of, at, v)),
        _ => (v.leaf)(e, at),
    }
}

/// Sums of equal terms are equal.
pub proof fn lemma_total_alike(n: int, f: spec_fn(int) -> real, g: spec_fn(int) -> real)
    requires
        forall|k: int| 0 <= k < n ==> #[trigger] f(k) == g(k),
    ensures
        total(n, f) == total(n, g),
    decreases n,
{
    if n > 0 {
        lemma_total_alike(n - 1, f, g);
        assert(f(n - 1) == g(n - 1));
    }
}

/// Sums of equal terms are equal, whichever they are.
proof fn lemma_totals()
    ensures
        forall|n: int, f: spec_fn(int) -> real, g: spec_fn(int) -> real|
            #![trigger total(n, f), total(n, g)]
            (forall|k: int| 0 <= k < n ==> #[trigger] f(k) == g(k)) ==> total(n, f) == total(n, g),
{
    assert forall|n: int, f: spec_fn(int) -> real, g: spec_fn(int) -> real|
        #![trigger total(n, f), total(n, g)]
        (forall|k: int| 0 <= k < n ==> #[trigger] f(k) == g(k)) implies total(n, f) == total(
        n,
        g,
    ) by {
        lemma_total_alike(n, f, g);
    }
}

proof fn lemma_count_alike(n: int, f: spec_fn(int) -> int, g: spec_fn(int) -> int)
    requires
        forall|k: int| 0 <= k < n ==> #[trigger] f(k) == g(k),
    ensures
        count(n, f) == count(n, g),
    decreases n,
{
    if n > 0 {
        lemma_count_alike(n - 1, f, g);
        assert(f(n - 1) == g(n - 1));
    }
}

/// Counts of equal terms are equal, whichever they are.
proof fn lemma_counts()
    ensures
        forall|n: int, f: spec_fn(int) -> int, g: spec_fn(int) -> int|
            #![trigger count(n, f), count(n, g)]
            (forall|k: int| 0 <= k < n ==> #[trigger] f(k) == g(k)) ==> count(n, f) == count(n, g),
{
    assert forall|n: int, f: spec_fn(int) -> int, g: spec_fn(int) -> int|
        #![trigger count(n, f), count(n, g)]
        (forall|k: int| 0 <= k < n ==> #[trigger] f(k) == g(k)) implies count(n, f) == count(
        n,
        g,
    ) by {
        lemma_count_alike(n, f, g);
    }
}

/// The entries along the last dimension at an index.
pub open spec fn line(e: Expr, at: Seq<int>, v: Values) -> spec_fn(int) -> real {
    |k: int| entry(e, along(at, k), v)
}

/// The squares of the entries along the last dimension at an index.
pub open spec fn squares(e: Expr, at: Seq<int>, v: Values) -> spec_fn(int) -> real {
    |k: int| entry(e, along(at, k), v) * entry(e, along(at, k), v)
}

/// The exponentials of the entries along the last dimension at an index.
pub open spec fn exponentials(e: Expr, at: Seq<int>, v: Values) -> spec_fn(int) -> real {
    |k: int| (v.exp)(entry(e, along(at, k), v))
}

/// The products of the entries along the last dimension at an index with those of a row of a packed
/// matrix.
pub open spec fn packed_terms(w: PackedView, e: Expr, at: Seq<int>, v: Values) -> spec_fn(
    int,
) -> real {
    |k: int| entry(e, along(at, k), v) * (v.packed)(w, seq![at.last(), k])
}

/// The products of the entries along the last dimension at an index with those of a row of a matrix.
pub open spec fn matrix_terms(w: Expr, e: Expr, at: Seq<int>, v: Values) -> spec_fn(int) -> real {
    |k: int| entry(e, along(at, k), v) * entry(w, seq![at.last(), k], v)
}

/// The products that make up an entry of a product of matrices.
pub open spec fn product_terms(a: Expr, b: Expr, at: Seq<int>, v: Values) -> spec_fn(int) -> real {
    |k: int| entry(a, along(at, k), v) * entry(b, across(at, k), v)
}

/// The operations that add up, in terms of what they add up.
pub proof fn lemma_sums(a: Expr, b: Expr, w: PackedView, at: Seq<int>, v: Values)
    ensures
        ({
            let n = shape_of(a).last() as int;
            &&& entry(tensor::unary(UnaryOp::SumLast, a), at, v) == total(n, line(a, at, v))
            &&& entry(tensor::unary(UnaryOp::MeanLast, a), at, v) == total(n, line(a, at, v))
                / n as real
            &&& entry(tensor::unary(UnaryOp::SoftmaxLast, a), at, v) == (v.exp)(entry(a, at, v))
                / total(n, exponentials(a, at, v))
            &&& entry(tensor::binary(BinaryOp::MatMul, a, b), at, v) == total(
                n,
                product_terms(a, b, at, v),
            )
            &&& entry(Expr::PackedMatMul(w, Box::new(a)), at, v) == total(
                n,
                packed_terms(w, a, at, v),
            )
        }),
{
    lemma_totals();
    let n = shape_of(a).last() as int;
    assert(entry(tensor::unary(UnaryOp::SumLast, a), at, v) == total(n, line(a, at, v)));
    assert(entry(tensor::unary(UnaryOp::MeanLast, a), at, v) == total(n, line(a, at, v))
        / n as real);
    assert(entry(tensor::unary(UnaryOp::SoftmaxLast, a), at, v) == (v.exp)(entry(a, at, v))
        / total(n, exponentials(a, at, v)));
    assert(entry(tensor::binary(BinaryOp::MatMul, a, b), at, v) == total(
        n,
        product_terms(a, b, at, v),
    ));
    assert(entry(Expr::PackedMatMul(w, Box::new(a)), at, v) == total(n, packed_terms(w, a, at, v)));
}

/// A normalisation, in terms of the squares that it adds up.
pub proof fn lemma_normed(weight: Expr, eps: NumberExpr, a: Expr, at: Seq<int>, v: Values)
    ensures
        ({
            let n = shape_of(a).last() as int;
            entry(tensor::packed::rms_normed(weight, eps, a), at, v) == scaled_by_rms(
                entry(a, at, v),
                total(n, squares(a, at, v)),
                n,
                number(eps, v),
                v,
            ) * entry(weight, seq![at.last()], v)
        }),
{
    lemma_totals();
    let n = shape_of(a).last() as int;
    let e = tensor::packed::rms_normed(weight, eps, a);
    assert(entry(e, at, v) == scaled_by_rms(
        entry(a, at, v),
        total(n, squares(a, at, v)),
        n,
        number(eps, v),
        v,
    ) * entry(weight, seq![at.last()], v));
}

/// A projection, in terms of the products that it adds up.
pub proof fn lemma_projected(weight: Expr, bias: Option<Expr>, a: Expr, at: Seq<int>, v: Values)
    ensures
        ({
            let n = shape_of(a).last() as int;
            entry(tensor::layers::projected(weight, bias, a), at, v) == match bias {
                Some(bias) => total(n, matrix_terms(weight, a, at, v)) + entry(
                    bias,
                    seq![at.last()],
                    v,
                ),
                None => total(n, matrix_terms(weight, a, at, v)),
            }
        }),
{
    lemma_totals();
    let n = shape_of(a).last() as int;
    let e = tensor::layers::projected(weight, bias, a);
    match bias {
        Some(bias) => {
            assert(entry(e, at, v) == total(n, matrix_terms(weight, a, at, v)) + entry(
                bias,
                seq![at.last()],
                v,
            ));
        },
        None => {
            assert(entry(e, at, v) == total(n, matrix_terms(weight, a, at, v)));
        },
    }
}

/// A sum of shares is a share of the sum.
pub proof fn lemma_total_of_shares(n: int, f: spec_fn(int) -> real, g: spec_fn(int) -> real, d: real)
    requires
        d != 0 as real,
        forall|k: int| 0 <= k < n ==> #[trigger] g(k) == f(k) / d,
    ensures
        total(n, g) == total(n, f) / d,
    decreases n,
{
    if n > 0 {
        lemma_total_of_shares(n - 1, f, g, d);
        assert(g(n - 1) == f(n - 1) / d);
        let (a, b) = (total(n - 1, f), f(n - 1));
        assert(a / d + b / d == (a + b) / d) by (nonlinear_arith)
            requires
                d != 0 as real,
        ;
    } else {
        assert(0 as real / d == 0 as real) by (nonlinear_arith)
            requires
                d != 0 as real,
        ;
    }
}

/// Counting the entries and finding one by its place undo each other.
pub proof fn lemma_unflat(at: Seq<int>, dims: Seq<usize>)
    requires
        is_index(at, dims),
    ensures
        unflat(flat(at, dims), dims) == at,
        0 <= flat(at, dims) < tensor::count_of(dims) || dims.len() == 0,
    decreases at.len(),
{
    if dims.len() > 0 {
        let (rest, last) = (at.drop_last(), dims.last() as int);
        assert(at[at.len() - 1] == at.last());
        assert forall|i: int| 0 <= i < dims.drop_last().len() implies 0 <= #[trigger] rest[i]
            < dims.drop_last()[i] by {
            assert(rest[i] == at[i]);
        }
        lemma_unflat(rest, dims.drop_last());
        let f = flat(rest, dims.drop_last());
        if dims.len() == 1 {
            assert(rest =~= Seq::<int>::empty());
            assert(f == 0);
        }
        vstd::arithmetic::div_mod::lemma_fundamental_div_mod_converse(
            f * last + at.last(),
            last,
            f,
            at.last(),
        );
        assert(rest.push(at.last()) =~= at);
        let c = tensor::count_of(dims.drop_last()) as int;
        assert(dims.len() == 1 ==> c == 1);
        assert(0 <= f * last + at.last() < c * last) by (nonlinear_arith)
            requires
                0 <= f < c,
                0 <= at.last() < last,
        ;
    } else {
        assert(at =~= Seq::<int>::empty());
    }
}

/// Reading entries in another shape keeps their order: where two indices count alike, so read the
/// entries.
pub proof fn lemma_reshaped(e: Expr, dims: Seq<usize>, at: Seq<int>, from: Seq<int>, v: Values)
    requires
        is_index(from, shape_of(e)),
        flat(at, dims) == flat(from, shape_of(e)),
    ensures
        entry(tensor::reshaped(e, dims), at, v) == entry(e, from, v),
{
    lemma_unflat(from, shape_of(e));
}

/// The place of an entry with four indices.
pub proof fn lemma_flat_4(at: Seq<int>, dims: Seq<usize>)
    requires
        at.len() == 4,
        dims.len() == 4,
    ensures
        flat(at, dims) == ((at[0] * dims[1] + at[1]) * dims[2] + at[2]) * dims[3] + at[3],
{
    reveal_with_fuel(flat, 5);
    assert(0 * dims[0] == 0);
}

/// The place of an entry with three indices.
pub proof fn lemma_flat_3(at: Seq<int>, dims: Seq<usize>)
    requires
        at.len() == 3,
        dims.len() == 3,
    ensures
        flat(at, dims) == (at[0] * dims[1] + at[1]) * dims[2] + at[2],
{
    reveal_with_fuel(flat, 4);
    assert(0 * dims[0] == 0);
}

/// The place of an entry with two indices.
pub proof fn lemma_flat_2(at: Seq<int>, dims: Seq<usize>)
    requires
        at.len() == 2,
        dims.len() == 2,
    ensures
        flat(at, dims) == at[0] * dims[1] + at[1],
{
    reveal_with_fuel(flat, 3);
    assert(0 * dims[0] == 0);
}

/// The entries of two tensors behind each other are those of the first, then those of the second.
pub proof fn lemma_joined(a: Expr, b: Expr, dim: nat, at: Seq<int>, v: Values)
    requires
        dim < at.len(),
        0 <= at[dim as int] < shape_of(a)[dim as int] + shape_of(b)[dim as int],
    ensures
        ({
            let n = shape_of(a)[dim as int] as int;
            entry(Expr::Cat(seq![a, b], dim), at, v) == if at[dim as int] < n {
                entry(a, at, v)
            } else {
                entry(b, at.update(dim as int, at[dim as int] - n), v)
            }
        }),
{
    let parts = seq![a, b];
    let lens = extents(parts, dim as int);
    let i = at[dim as int];
    assert(lens[0] == shape_of(a)[dim as int] && lens[1] == shape_of(b)[dim as int]);
    reveal_with_fuel(part_at, 3);
    assert(lens.drop_first()[0] == lens[1]);
    assert(at.update(dim as int, i) =~= at);
}

/// The shape of two tensors behind each other.
pub proof fn lemma_joined_shape(a: Expr, b: Expr, dim: nat)
    ensures
        shape_of(Expr::Cat(seq![a, b], dim)) == shape_of(a).update(
            dim as int,
            (shape_of(a)[dim as int] + shape_of(b)[dim as int]) as usize,
        ),
{
    let parts = seq![a, b];
    reveal_with_fuel(count, 3);
    assert(parts[0] == a && parts[1] == b);
}

/// The entries of equal tensors behind each other.
pub proof fn lemma_copies(x: Expr, n: nat, dim: nat, at: Seq<int>, r: int, k: int, v: Values)
    requires
        dim < at.len(),
        0 <= r < n,
        0 <= k < shape_of(x)[dim as int],
        at[dim as int] == r * shape_of(x)[dim as int] + k,
    ensures
        entry(Expr::Cat(Seq::new(n, |i: int| x), dim), at, v) == entry(
            x,
            at.update(dim as int, k),
            v,
        ),
{
    let parts = Seq::new(n, |i: int| x);
    let lens = extents(parts, dim as int);
    let size = shape_of(x)[dim as int] as int;
    assert(lens =~= Seq::new(n, |i: int| size));
    lemma_part_of_copies(lens, size, r, k);
    assert(parts[r] == x);
}

proof fn lemma_part_of_copies(lens: Seq<int>, size: int, r: int, k: int)
    requires
        forall|i: int| 0 <= i < lens.len() ==> #[trigger] lens[i] == size,
        0 <= r < lens.len(),
        0 <= k < size,
    ensures
        part_at(lens, r * size + k) == (r, k),
    decreases r,
{
    assert(lens[0] == size);
    if r > 0 {
        assert(r * size + k - size == (r - 1) * size + k) by (nonlinear_arith);
        assert(r * size >= size) by (nonlinear_arith)
            requires
                r >= 1,
                size > 0,
        ;
        lemma_part_of_copies(lens.drop_first(), size, r - 1, k);
    } else {
        assert(r * size == 0) by (nonlinear_arith)
            requires
                r == 0,
        ;
    }
}

proof fn lemma_count_of_copies(n: int, size: int, f: spec_fn(int) -> int)
    requires
        forall|i: int| 0 <= i < n ==> #[trigger] f(i) == size,
        n >= 0,
    ensures
        count(n, f) == n * size,
    decreases n,
{
    if n > 0 {
        lemma_count_of_copies(n - 1, size, f);
        assert((n - 1) * size + size == n * size) by (nonlinear_arith);
    } else {
        assert(n * size == 0) by (nonlinear_arith)
            requires
                n == 0,
        ;
    }
}

/// The shape of equal tensors behind each other.
pub proof fn lemma_copies_shape(x: Expr, n: nat, dim: nat)
    requires
        n > 0,
    ensures
        shape_of(Expr::Cat(Seq::new(n, |i: int| x), dim)) == shape_of(x).update(
            dim as int,
            (n * shape_of(x)[dim as int]) as usize,
        ),
{
    let parts = Seq::new(n, |i: int| x);
    let f = |m: int|
        if 0 <= m < parts.len() {
            shape_of(parts[m])[dim as int] as int
        } else {
            0
        };
    assert forall|i: int| 0 <= i < n implies #[trigger] f(i) == shape_of(x)[dim as int] by {
        assert(parts[i] == x);
    }
    lemma_count_of_copies(n as int, shape_of(x)[dim as int] as int, f);
    lemma_counts();
    assert(count(n as int, f) == n * shape_of(x)[dim as int]);
    assert(parts[0] == x);
}

/// The sum of the products of two rows of numbers.
pub open spec fn dot(n: int, x: spec_fn(int) -> real, y: spec_fn(int) -> real) -> real {
    total(n, |k: int| x(k) * y(k))
}

/// A row of numbers, each divided by the root of the mean of their squares, which `eps` keeps away
/// from zero.
pub open spec fn normalised(x: spec_fn(int) -> real, n: int, eps: real, v: Values) -> spec_fn(
    int,
) -> real {
    |d: int| x(d) / (v.root)(dot(n, x, x) / n as real + eps)
}

/// A row of a packed matrix.
pub open spec fn packed_row(w: PackedView, o: int, v: Values) -> spec_fn(int) -> real {
    |k: int| (v.packed)(w, seq![o, k])
}

/// A row of a matrix.
pub open spec fn matrix_row(w: Expr, o: int, v: Values) -> spec_fn(int) -> real {
    |k: int| entry(w, seq![o, k], v)
}

/// The entries along the last dimension are the same from each of them.
pub proof fn lemma_line(e: Expr, at: Seq<int>, j: int, v: Values)
    requires
        at.len() > 0,
    ensures
        line(e, along(at, j), v) == line(e, at, v),
        along(at, j).last() == j,
        along(at, j).len() == at.len(),
        along(along(at, j), at.last()) == at,
        line(e, at, v)(at.last()) == entry(e, at, v),
{
    let (f, g) = (line(e, along(at, j), v), line(e, at, v));
    assert forall|k: int| #[trigger] f(k) == g(k) by {
        assert(along(along(at, j), k) =~= along(at, k));
    }
    assert(f =~= g);
    assert(along(along(at, j), at.last()) =~= at);
    assert(along(at, at.last()) =~= at);
}

/// Sums of products of equal rows are equal.
pub proof fn lemma_dot_alike(
    n: int,
    x: spec_fn(int) -> real,
    y: spec_fn(int) -> real,
    a: spec_fn(int) -> real,
    b: spec_fn(int) -> real,
)
    requires
        forall|k: int| 0 <= k < n ==> #[trigger] x(k) == a(k),
        forall|k: int| 0 <= k < n ==> #[trigger] y(k) == b(k),
    ensures
        dot(n, x, y) == dot(n, a, b),
{
    let (f, g) = (|k: int| x(k) * y(k), |k: int| a(k) * b(k));
    assert forall|k: int| 0 <= k < n implies #[trigger] f(k) == g(k) by {
        assert(x(k) == a(k) && y(k) == b(k));
    }
    lemma_total_alike(n, f, g);
}

/// An entry of a product with a packed matrix is the sum of products of the row that it belongs to
/// with the row of the matrix that it stands for.
pub proof fn lemma_packed_product(
    w: candle_core::quantized::QTensor,
    x: Expr,
    at: Seq<int>,
    v: Values,
)
    ensures
        entry(tensor::packed::packed_product(w, x), at, v) == dot(
            shape_of(x).last() as int,
            line(x, at, v),
            packed_row(tensor::packed::packed_view(w), at.last(), v),
        ),
        shape_of(tensor::packed::packed_product(w, x)) == tensor::with_last(
            shape_of(x),
            tensor::packed::packed_dims(w)[0],
        ),
{
    let view = tensor::packed::packed_view(w);
    lemma_sums(x, x, view, at, v);
    let (p, q) = (line(x, at, v), packed_row(view, at.last(), v));
    lemma_total_alike(
        shape_of(x).last() as int,
        packed_terms(view, x, at, v),
        |k: int| p(k) * q(k),
    );
}

/// An entry of a product with a matrix is the sum of products of the row that it belongs to with the
/// row of the matrix that it stands for, and the bias where there is one.
pub proof fn lemma_projection(
    weight: Expr,
    bias: Option<Expr>,
    x: Expr,
    at: Seq<int>,
    v: Values,
)
    ensures
        entry(tensor::layers::projected(weight, bias, x), at, v) == dot(
            shape_of(x).last() as int,
            line(x, at, v),
            matrix_row(weight, at.last(), v),
        ) + match bias {
            Some(bias) => entry(bias, seq![at.last()], v),
            None => 0 as real,
        },
        shape_of(tensor::layers::projected(weight, bias, x)) == tensor::with_last(
            shape_of(x),
            shape_of(weight)[0],
        ),
{
    lemma_projected(weight, bias, x, at, v);
    let (p, q) = (line(x, at, v), matrix_row(weight, at.last(), v));
    lemma_total_alike(
        shape_of(x).last() as int,
        matrix_terms(weight, x, at, v),
        |k: int| p(k) * q(k),
    );
}

/// Squares, added up one way or the other.
proof fn lemma_squares(e: Expr, at: Seq<int>, v: Values, n: int)
    ensures
        total(n, squares(e, at, v)) == dot(n, line(e, at, v), line(e, at, v)),
{
    let p = line(e, at, v);
    lemma_total_alike(n, squares(e, at, v), |k: int| p(k) * p(k));
}

/// A weighted normalisation divides an entry by the root of the mean of the squares of the row that
/// it belongs to, and multiplies it with its weight.
pub proof fn lemma_rms_normed(weight: Expr, eps: NumberExpr, x: Expr, at: Seq<int>, v: Values)
    requires
        at.len() > 0,
    ensures
        entry(tensor::packed::rms_normed(weight, eps, x), at, v) == normalised(
            line(x, at, v),
            shape_of(x).last() as int,
            number(eps, v),
            v,
        )(at.last()) * entry(weight, seq![at.last()], v),
{
    lemma_normed(weight, eps, x, at, v);
    lemma_squares(x, at, v, shape_of(x).last() as int);
    lemma_line(x, at, at.last(), v);
}

/// An index of a shape is not changed by stretching to that shape.
pub proof fn lemma_clipped_whole(at: Seq<int>, dims: Seq<usize>)
    requires
        is_index(at, dims),
    ensures
        clipped(at, dims) == at,
{
    assert forall|i: int| 0 <= i < dims.len() implies clipped(at, dims)[i] == at[i] by {
        assert(0 <= at[i] < dims[i]);
    }
    assert(clipped(at, dims) =~= at);
}

/// An index of a shape, for a tensor with one entry along the last dimension.
pub proof fn lemma_clipped_last(at: Seq<int>, dims: Seq<usize>)
    requires
        is_index(at, dims),
        dims.len() > 0,
    ensures
        clipped(at, tensor::with_last(dims, 1)) == along(at, 0),
{
    let ones = tensor::with_last(dims, 1);
    assert forall|i: int| 0 <= i < dims.len() implies clipped(at, ones)[i] == along(at, 0)[i] by {
        assert(0 <= at[i] < dims[i]);
    }
    assert(clipped(at, ones) =~= along(at, 0));
}

/// An index, for a tensor with a single dimension.
pub proof fn lemma_clipped_row(at: Seq<int>, dims: Seq<usize>, n: usize)
    requires
        is_index(at, dims),
        dims.len() > 0,
        dims.last() == n,
    ensures
        clipped(at, seq![n]) == seq![at.last()],
        tensor::broadcast_dims(dims, seq![n]) == dims,
{
    assert(0 <= at[dims.len() - 1] < dims[dims.len() - 1]);
    assert(clipped(at, seq![n]) =~= seq![at.last()]);
    let b = tensor::broadcast_dims(dims, seq![n]);
    assert forall|i: int| 0 <= i < dims.len() implies b[i] == dims[i] by {
        assert(i + dims.len() - dims.len() == i);
    }
    assert(b =~= dims);
}

/// A normalisation without a weight that is spelled out: every entry is divided by the root of the
/// mean of the squares of its row.
pub proof fn lemma_spelled_norm(
    wide: Expr,
    mean: Expr,
    eps: NumberExpr,
    at: Seq<int>,
    v: Values,
)
    requires
        is_index(at, shape_of(wide)),
        at.len() > 0,
        shape_of(mean) == tensor::with_last(shape_of(wide), 1),
        entry(mean, along(at, 0), v) == dot(
            shape_of(wide).last() as int,
            line(wide, at, v),
            line(wide, at, v),
        ) / shape_of(wide).last() as real,
    ensures
        ({
            let rms = tensor::unary(
                UnaryOp::Sqrt,
                tensor::with_number(NumberOp::Add, mean, eps),
            );
            let out = tensor::binary(BinaryOp::BroadcastDiv, wide, rms);
            &&& shape_of(out) == shape_of(wide)
            &&& entry(out, at, v) == normalised(
                line(wide, at, v),
                shape_of(wide).last() as int,
                number(eps, v),
                v,
            )(at.last())
        }),
{
    let shifted = tensor::with_number(NumberOp::Add, mean, eps);
    let rms = tensor::unary(UnaryOp::Sqrt, shifted);
    let out = tensor::binary(BinaryOp::BroadcastDiv, wide, rms);
    assert(shape_of(shifted) == shape_of(mean));
    assert(shape_of(rms) == shape_of(shifted));
    crate::attention::lemma_broadcast_last(shape_of(wide));
    assert(shape_of(out) == tensor::broadcast_dims(shape_of(wide), shape_of(rms)));
    lemma_clipped_whole(at, shape_of(wide));
    lemma_clipped_last(at, shape_of(wide));
    let here = along(at, 0);
    assert(entry(shifted, here, v) == entry(mean, here, v) + number(eps, v));
    assert(entry(rms, here, v) == (v.root)(entry(shifted, here, v)));
    assert(entry(out, at, v) == entry(wide, at, v) / entry(rms, here, v));
    lemma_line(wide, at, at.last(), v);
}

/// The mean of squares, or their sum divided by their number, at any index of a row.
pub proof fn lemma_mean_of_squares(wide: Expr, at: Seq<int>, v: Values)
    requires
        at.len() > 0,
        shape_of(wide).len() > 0,
    ensures
        ({
            let n = shape_of(wide).last();
            let mean = tensor::unary(UnaryOp::MeanLast, tensor::unary(UnaryOp::Sqr, wide));
            let ratio = tensor::with_number(
                NumberOp::Div,
                tensor::unary(UnaryOp::SumLast, tensor::unary(UnaryOp::Sqr, wide)),
                NumberExpr::Int(n as int),
            );
            let squares = dot(n as int, line(wide, at, v), line(wide, at, v)) / n as real;
            &&& entry(mean, along(at, 0), v) == squares
            &&& entry(ratio, along(at, 0), v) == squares
            &&& shape_of(mean) == tensor::with_last(shape_of(wide), 1)
            &&& shape_of(ratio) == tensor::with_last(shape_of(wide), 1)
        }),
{
    let n = shape_of(wide).last();
    let sqr = tensor::unary(UnaryOp::Sqr, wide);
    let sum = tensor::unary(UnaryOp::SumLast, sqr);
    let ratio = tensor::with_number(NumberOp::Div, sum, NumberExpr::Int(n as int));
    assert(shape_of(sqr) == shape_of(wide));
    assert(shape_of(sum) == tensor::with_last(shape_of(wide), 1));
    assert(shape_of(ratio) == shape_of(sum));
    lemma_sums(sqr, sqr, arbitrary(), along(at, 0), v);
    lemma_line(wide, at, 0, v);
    lemma_line(sqr, at, 0, v);
    let p = line(wide, at, v);
    let q = line(sqr, at, v);
    let t = |k: int| p(k) * p(k);
    assert forall|k: int| 0 <= k < n implies #[trigger] q(k) == t(k) by {}
    lemma_total_alike(n as int, q, t);
    assert(entry(ratio, along(at, 0), v) == entry(sum, along(at, 0), v) / number(
        NumberExpr::Int(n as int),
        v,
    ));
    assert(number(NumberExpr::Int(n as int), v) == (n as int) as real);
}

/// Single entries behind each other, then a run of more: the place of each.
pub proof fn lemma_run_of_parts(lens: Seq<int>, singles: int, i: int)
    requires
        0 <= singles <= lens.len() <= singles + 1,
        forall|k: int| 0 <= k < singles ==> #[trigger] lens[k] == 1,
        0 <= i,
        i < singles || (lens.len() == singles + 1 && i - singles < lens[singles]),
    ensures
        part_at(lens, i) == (if i < singles {
            (i, 0int)
        } else {
            (singles, i - singles)
        }),
    decreases singles,
{
    if singles > 0 {
        assert(lens[0] == 1);
        let rest = lens.drop_first();
        assert forall|k: int| 0 <= k < singles - 1 implies #[trigger] rest[k] == 1 by {
            assert(rest[k] == lens[k + 1]);
        }
        if i >= 1 {
            if lens.len() == singles + 1 {
                assert(rest[singles - 1] == lens[singles]);
            }
            lemma_run_of_parts(rest, singles - 1, i - 1);
        }
    }
}

/// The number of entries along the dimension that parts follow each other in.
pub proof fn lemma_cat_shape(parts: Seq<Expr>, dim: int, lens: Seq<int>)
    requires
        parts.len() > 0,
        lens == extents(parts, dim),
        0 <= dim,
    ensures
        shape_of(Expr::Cat(parts, dim as nat)) == shape_of(parts[0]).update(
            dim,
            count(lens.len() as int, |m: int| lens[m]) as usize,
        ),
{
    let f = |m: int|
        if 0 <= m < parts.len() {
            shape_of(parts[m])[dim] as int
        } else {
            0
        };
    let g = |m: int| lens[m];
    lemma_counts();
    assert forall|m: int| 0 <= m < parts.len() implies #[trigger] f(m) == g(m) by {
        assert(lens[m] == shape_of(parts[m])[dim] as int);
    }
    assert(count(parts.len() as int, f) == count(parts.len() as int, g));
    assert(shape_of(Expr::Cat(parts, dim as nat)) == shape_of(parts[0]).update(
        dim,
        count(parts.len() as int, f) as usize,
    ));
}

/// Single entries, counted.
pub proof fn lemma_count_ones(n: int, f: spec_fn(int) -> int)
    requires
        n >= 0,
        forall|k: int| 0 <= k < n ==> #[trigger] f(k) == 1,
    ensures
        count(n, f) == n,
    decreases n,
{
    if n > 0 {
        lemma_count_ones(n - 1, f);
        assert(f(n - 1) == 1);
    }
}

/// What lies before part `m` of parts of these lengths.
pub open spec fn before(lens: Seq<int>, m: int) -> int
    decreases m,
{
    if m <= 0 {
        0
    } else {
        before(lens, m - 1) + lens[m - 1]
    }
}

/// What lies before a part, without the first one.
proof fn lemma_before(lens: Seq<int>, m: int)
    requires
        0 < m <= lens.len(),
    ensures
        before(lens, m) == lens[0] + before(lens.drop_first(), m - 1),
    decreases m,
{
    if m > 1 {
        lemma_before(lens, m - 1);
        assert(lens.drop_first()[m - 2] == lens[m - 1]);
    } else {
        assert(before(lens, 0) == 0);
    }
}

/// A place behind all earlier parts falls into its own part.
pub proof fn lemma_part_at(lens: Seq<int>, m: int, c: int)
    requires
        0 <= m < lens.len(),
        0 <= c < lens[m],
        forall|i: int| 0 <= i < lens.len() ==> #[trigger] lens[i] >= 0,
    ensures
        part_at(lens, before(lens, m) + c) == (m, c),
    decreases m,
{
    if m > 0 {
        lemma_before(lens, m);
        let rest = lens.drop_first();
        assert(rest[m - 1] == lens[m]);
        assert forall|i: int| 0 <= i < rest.len() implies #[trigger] rest[i] >= 0 by {
            assert(rest[i] == lens[i + 1]);
        }
        lemma_before_positive(rest, m - 1);
        lemma_part_at(rest, m - 1, c);
        assert(before(lens, m) + c - lens[0] == before(rest, m - 1) + c);
        assert(before(lens, m) + c >= lens[0]);
    } else {
        assert(before(lens, 0) == 0);
    }
}

proof fn lemma_before_positive(lens: Seq<int>, m: int)
    requires
        0 <= m <= lens.len(),
        forall|i: int| 0 <= i < lens.len() ==> #[trigger] lens[i] >= 0,
    ensures
        before(lens, m) >= 0,
    decreases m,
{
    if m > 0 {
        lemma_before_positive(lens, m - 1);
        assert(lens[m - 1] >= 0);
    }
}

/// The number of entries along the dimension that pieces were appended in.
pub proof fn lemma_appended_shape(pieces: Seq<Expr>, dim: int, limit: nat, lens: Seq<int>)
    requires
        pieces.len() > 0,
        lens == extents(pieces, dim),
        0 <= dim,
    ensures
        shape_of(Expr::Appended { dim: dim as nat, limit, pieces }) == shape_of(
            pieces[0],
        ).update(dim, before(lens, lens.len() as int) as usize),
{
    let f = |m: int|
        if 0 <= m < pieces.len() {
            shape_of(pieces[m])[dim] as int
        } else {
            0
        };
    let g = |m: int| lens[m];
    lemma_counts();
    assert forall|m: int| 0 <= m < pieces.len() implies #[trigger] f(m) == g(m) by {
        assert(lens[m] == shape_of(pieces[m])[dim] as int);
    }
    assert(count(pieces.len() as int, f) == count(pieces.len() as int, g));
    lemma_count_before(lens, lens.len() as int);
    assert(shape_of(Expr::Appended { dim: dim as nat, limit, pieces }) == shape_of(
        pieces[0],
    ).update(dim, count(pieces.len() as int, f) as usize));
}

proof fn lemma_count_before(lens: Seq<int>, n: int)
    requires
        0 <= n <= lens.len(),
    ensures
        count(n, |m: int| lens[m]) == before(lens, n),
    decreases n,
{
    if n > 0 {
        lemma_count_before(lens, n - 1);
    }
}

/// The entries of what pieces were appended to are those of the pieces, one behind the other.
pub proof fn lemma_appended(
    pieces: Seq<Expr>,
    dim: nat,
    limit: nat,
    m: int,
    at: Seq<int>,
    v: Values,
)
    requires
        dim < at.len(),
        0 <= m < pieces.len(),
        0 <= at[dim as int] < shape_of(pieces[m])[dim as int],
    ensures
        entry(
            Expr::Appended { dim, limit, pieces },
            at.update(
                dim as int,
                before(extents(pieces, dim as int), m) + at[dim as int],
            ),
            v,
        ) == entry(pieces[m], at, v),
{
    let lens = extents(pieces, dim as int);
    assert(lens[m] == shape_of(pieces[m])[dim as int]);
    lemma_part_at(lens, m, at[dim as int]);
    let there = at.update(dim as int, before(lens, m) + at[dim as int]);
    assert(there.update(dim as int, at[dim as int]) =~= at);
}

} // verus!
