//! Rotary position embeddings: tables of sines and cosines, one row per position.

use crate::error::ModelError;
use crate::meaning::{self, entry, is_index, number, shape_of, Values};
use crate::tensor::{self, BinaryOp, Expr, Number, NumberExpr, NumberOp, Traced, UnaryOp};
use vstd::prelude::*;

verus! {

/// The inverse frequency of the `i`-th pair of a head: one over the base to the power of
/// `2 * i / head_dim`. The power is taken in the given element type.
pub open spec fn rate_expr(
    base: NumberExpr,
    i: int,
    head_dim: int,
    dtype: candle_core::DType,
    device: candle_core::Device,
) -> Expr {
    let power = tensor::with_number(
        NumberOp::Pow,
        tensor::with_number(
            NumberOp::Add,
            Expr::Zeros { dims: seq![1], dtype, device },
            base,
        ),
        tensor::ratio_of(2 * i, head_dim),
    );
    tensor::unary(UnaryOp::Recip, tensor::cast(power, candle_core::DType::F32))
}

/// The inverse frequencies of a head in order: the rotating pairs first, then zeros, which leave
/// the rest of the head unrotated.
pub open spec fn rate_exprs(
    base: NumberExpr,
    angles: nat,
    padding: usize,
    head_dim: int,
    dtype: candle_core::DType,
    device: candle_core::Device,
) -> Seq<Expr> {
    let rotating = Seq::new(angles, |i: int| rate_expr(base, i, head_dim, dtype, device));
    if padding > 0 || angles == 0 {
        rotating.push(Expr::Zeros { dims: seq![padding], dtype: candle_core::DType::F32, device })
    } else {
        rotating
    }
}

/// A head is rotated in its first pairs alone: behind the rates of the `angles` rotating pairs stand
/// zeros, one for each pair that is left, so that these turn by nothing at any position.
pub proof fn law_rest_of_the_head_stands_still(
    base: NumberExpr,
    angles: nat,
    padding: usize,
    head_dim: int,
    dtype: candle_core::DType,
    device: candle_core::Device,
)
    requires
        padding > 0,
    ensures
        ({
            let rates = rate_exprs(base, angles, padding, head_dim, dtype, device);
            &&& rates.len() == angles + 1
            &&& forall|i: int|
                0 <= i < angles ==> #[trigger] rates[i] == rate_expr(
                    base,
                    i,
                    head_dim,
                    dtype,
                    device,
                )
            &&& rates.last() == (Expr::Zeros {
                dims: seq![padding],
                dtype: candle_core::DType::F32,
                device,
            })
        }),
{
}

/// The inverse frequencies of a head as a row.
pub open spec fn inv_freq_expr(
    base: NumberExpr,
    angles: nat,
    padding: usize,
    head_dim: int,
    dtype: candle_core::DType,
    device: candle_core::Device,
) -> Expr {
    tensor::reshaped(
        Expr::Cat(rate_exprs(base, angles, padding, head_dim, dtype, device), 0),
        seq![1, (angles + padding) as usize],
    )
}

/// The angles: position times inverse frequency, one row per position.
pub open spec fn angles_expr(
    inv_freq: Expr,
    positions: u32,
    dtype: candle_core::DType,
    device: candle_core::Device,
) -> Expr {
    tensor::binary(
        BinaryOp::MatMul,
        tensor::reshaped(
            tensor::cast(Expr::Counts { end: positions, device }, dtype),
            seq![positions as usize, 1],
        ),
        inv_freq,
    )
}

/// By how much pair `j` of a head turns from one position to the next: one over the base to the power
/// of `2 * j / head_dim` for the first `angles` pairs, and nothing for those behind them.
pub open spec fn rate(base: NumberExpr, angles: int, head_dim: int, j: int, v: Values) -> real {
    if j < angles {
        1 as real / (v.power)(number(base, v), (2 * j) as real / head_dim as real)
    } else {
        0 as real
    }
}

/// A row of inverse frequencies holds the rates of the pairs in order.
pub proof fn law_rates_are_in_order(
    base: NumberExpr,
    angles: nat,
    padding: usize,
    head_dim: int,
    dtype: candle_core::DType,
    device: candle_core::Device,
    j: int,
    v: Values,
)
    requires
        0 <= j < angles + padding <= usize::MAX,
    ensures
        entry(inv_freq_expr(base, angles, padding, head_dim, dtype, device), seq![0, j], v) == rate(
            base,
            angles as int,
            head_dim,
            j,
            v,
        ),
{
    let parts = rate_exprs(base, angles, padding, head_dim, dtype, device);
    let lens = meaning::extents(parts, 0);
    let n = angles as int;
    assert forall|k: int| 0 <= k < n implies #[trigger] lens[k] == 1 && shape_of(parts[k]) == seq![
        1usize,
    ] by {
        lemma_rate(base, k, head_dim, dtype, device, v);
        assert(parts[k] == rate_expr(base, k, head_dim, dtype, device));
    }
    let zeros = Expr::Zeros { dims: seq![padding], dtype: candle_core::DType::F32, device };
    assert(shape_of(zeros) == seq![padding]);
    let g = |m: int| lens[m];
    meaning::lemma_count_ones(n, g);
    if parts.len() == n + 1 {
        assert(parts[n] == zeros);
        assert(lens[n] == padding);
        assert(g(n) == padding);
        assert(meaning::count(n + 1, g) == meaning::count(n, g) + g(n));
    }
    assert(meaning::count(lens.len() as int, g) == angles + padding);
    meaning::lemma_cat_shape(parts, 0, lens);
    let all = Expr::Cat(parts, 0);
    let size = (angles + padding) as usize;
    assert(shape_of(parts[0]).len() == 1) by {
        if n > 0 {
            assert(lens[0] == 1);
        } else {
            assert(parts[0] == zeros);
        }
    }
    assert(shape_of(all) =~= seq![size]);
    let (at, from) = (seq![0, j], seq![j]);
    meaning::lemma_flat_2(at, seq![1, size]);
    reveal_with_fuel(meaning::flat, 2);
    assert(0 * size == 0);
    assert(meaning::flat(from, shape_of(all)) == j);
    meaning::lemma_reshaped(all, seq![1, size], at, from, v);
    meaning::lemma_run_of_parts(lens, n, j);
    if j < n {
        lemma_rate(base, j, head_dim, dtype, device, v);
        assert(parts[j] == rate_expr(base, j, head_dim, dtype, device));
        assert(from.update(0, 0) =~= seq![0int]);
    } else {
        assert(entry(zeros, from.update(0, j - n), v) == 0 as real);
    }
}

/// A single rate.
proof fn lemma_rate(
    base: NumberExpr,
    i: int,
    head_dim: int,
    dtype: candle_core::DType,
    device: candle_core::Device,
    v: Values,
)
    ensures
        shape_of(rate_expr(base, i, head_dim, dtype, device)) == seq![1usize],
        entry(rate_expr(base, i, head_dim, dtype, device), seq![0], v) == 1 as real / (v.power)(
            number(base, v),
            (2 * i) as real / head_dim as real,
        ),
{
    let at = seq![0int];
    let zero = Expr::Zeros { dims: seq![1], dtype, device };
    let start = tensor::with_number(NumberOp::Add, zero, base);
    let share = tensor::ratio_of(2 * i, head_dim);
    let power = tensor::with_number(NumberOp::Pow, start, share);
    let cast = tensor::cast(power, candle_core::DType::F32);
    assert(shape_of(zero) == seq![1usize]);
    assert(shape_of(start) == shape_of(zero));
    assert(shape_of(power) == shape_of(start));
    assert(shape_of(cast) == shape_of(power));
    assert(number(NumberExpr::Int(2 * i), v) == (2 * i) as real);
    assert(number(NumberExpr::Int(head_dim), v) == head_dim as real);
    assert(number(share, v) == (2 * i) as real / head_dim as real);
    assert(entry(zero, at, v) == 0 as real);
    assert(entry(start, at, v) == entry(zero, at, v) + number(base, v));
    assert(entry(power, at, v) == (v.power)(entry(start, at, v), number(share, v)));
    assert(entry(cast, at, v) == entry(power, at, v));
}

/// The angle of a pair at a position is the position times the pair's rate.
pub proof fn law_angles_grow_with_positions(
    inv_freq: Expr,
    positions: u32,
    dtype: candle_core::DType,
    device: candle_core::Device,
    at: Seq<int>,
    v: Values,
)
    requires
        at.len() == 2,
        0 <= at[0] < positions,
    ensures
        entry(angles_expr(inv_freq, positions, dtype, device), at, v) == at[0] as real * entry(
            inv_freq,
            seq![0, at[1]],
            v,
        ),
{
    let counts = Expr::Counts { end: positions, device };
    let cast = tensor::cast(counts, dtype);
    let column = tensor::reshaped(cast, seq![positions as usize, 1]);
    assert(shape_of(counts) == seq![positions as usize]);
    assert(shape_of(cast) == shape_of(counts));
    assert(shape_of(column) == seq![positions as usize, 1]);
    meaning::lemma_sums(column, inv_freq, arbitrary(), at, v);
    let terms = meaning::product_terms(column, inv_freq, at, v);
    assert(meaning::total(0, terms) == 0 as real);
    assert(meaning::total(1, terms) == meaning::total(0, terms) + terms(0));
    let (here, from) = (meaning::along(at, 0), seq![at[0]]);
    assert(here =~= seq![at[0], 0]);
    meaning::lemma_flat_2(here, seq![positions as usize, 1]);
    reveal_with_fuel(meaning::flat, 2);
    assert(0 * positions == 0);
    assert(at[0] * 1 == at[0]);
    meaning::lemma_reshaped(cast, seq![positions as usize, 1], here, from, v);
    assert(entry(cast, from, v) == entry(counts, from, v));
    assert(entry(counts, from, v) == at[0] as real);
    assert(meaning::across(at, 0) =~= seq![0, at[1]]);
}

/// A table's entry for a pair at a position is the cosine, or the sine, of the position times the
/// pair's rate.
pub open spec fn turns_by(
    t: RotaryEmbedding,
    base: NumberExpr,
    angles: int,
    head_dim: int,
    positions: usize,
    pairs: usize,
) -> bool {
    forall|at: Seq<int>, v: Values|
        #![trigger entry(t.cos(), at, v)]
        #![trigger entry(t.sin(), at, v)]
        is_index(at, seq![positions, pairs]) ==> {
            let angle = at[0] as real * rate(base, angles, head_dim, at[1], v);
            &&& entry(t.cos(), at, v) == (v.cos)(angle)
            &&& entry(t.sin(), at, v) == (v.sin)(angle)
        }
}

/// Tables of a head in which the first pairs rotate turn each pair by its rate.
pub proof fn law_tables_turn_by_rates(
    t: RotaryEmbedding,
    base: NumberExpr,
    angles: nat,
    padding: usize,
    head_dim: int,
    positions: u32,
    powers: candle_core::DType,
    dtype: candle_core::DType,
    out: candle_core::DType,
    device: candle_core::Device,
    cast_rates: bool,
    cast_tables: bool,
)
    requires
        angles + padding <= usize::MAX,
        ({
            let plain = inv_freq_expr(base, angles, padding, head_dim, powers, device);
            let rates = if cast_rates {
                tensor::cast(plain, dtype)
            } else {
                plain
            };
            let table = angles_expr(rates, positions, dtype, device);
            let (cos, sin) = (
                tensor::unary(UnaryOp::Cos, table),
                tensor::unary(UnaryOp::Sin, table),
            );
            &&& t.cos() == (if cast_tables {
                tensor::cast(cos, out)
            } else {
                cos
            })
            &&& t.sin() == (if cast_tables {
                tensor::cast(sin, out)
            } else {
                sin
            })
        }),
    ensures
        turns_by(
            t,
            base,
            angles as int,
            head_dim,
            positions as usize,
            (angles + padding) as usize,
        ),
{
    let plain = inv_freq_expr(base, angles, padding, head_dim, powers, device);
    let rates = if cast_rates {
        tensor::cast(plain, dtype)
    } else {
        plain
    };
    let table = angles_expr(rates, positions, dtype, device);
    let (cos, sin) = (tensor::unary(UnaryOp::Cos, table), tensor::unary(UnaryOp::Sin, table));
    let dims = seq![positions as usize, (angles + padding) as usize];
    assert forall|at: Seq<int>, v: Values|
        #![trigger entry(t.cos(), at, v)]
        #![trigger entry(t.sin(), at, v)]
        is_index(at, dims) implies ({
        let angle = at[0] as real * rate(base, angles as int, head_dim, at[1], v);
        &&& entry(t.cos(), at, v) == (v.cos)(angle)
        &&& entry(t.sin(), at, v) == (v.sin)(angle)
    }) by {
        assert(0 <= at[0] < dims[0] && 0 <= at[1] < dims[1]);
        law_angles_grow_with_positions(rates, positions, dtype, device, at, v);
        law_rates_are_in_order(base, angles, padding, head_dim, powers, device, at[1], v);
        assert(entry(rates, seq![0, at[1]], v) == entry(plain, seq![0, at[1]], v));
        assert(entry(cos, at, v) == (v.cos)(entry(table, at, v)));
        assert(entry(sin, at, v) == (v.sin)(entry(table, at, v)));
        assert(entry(tensor::cast(cos, out), at, v) == entry(cos, at, v));
        assert(entry(tensor::cast(sin, out), at, v) == entry(sin, at, v));
    }
}

/// The rows that a chunk uses are those of its own positions.
pub proof fn law_rows_are_absolute(
    t: RotaryEmbedding,
    index_pos: nat,
    seq_len: nat,
    at: Seq<int>,
    v: Values,
)
    requires
        at.len() == 2,
    ensures
        entry(t.rows(index_pos, seq_len).0, at, v) == entry(
            t.cos(),
            seq![index_pos + at[0], at[1]],
            v,
        ),
        entry(t.rows(index_pos, seq_len).1, at, v) == entry(
            t.sin(),
            seq![index_pos + at[0], at[1]],
            v,
        ),
{
    let there = seq![index_pos + at[0], at[1]];
    assert(at.update(0, at[0] + index_pos) =~= there);
}

/// The inverse frequencies of a head as a row.
fn inv_freq(
    base: &Number,
    angles: usize,
    padding: usize,
    head_dim: usize,
    dtype: candle_core::DType,
    device: &candle_core::Device,
) -> (r: Result<Traced, ModelError>)
    requires
        2 * angles <= usize::MAX,
        angles + padding <= usize::MAX,
        tensor::is_float(dtype),
    ensures
        r matches Ok(t) ==> t.expr() == inv_freq_expr(
            base.expr(),
            angles as nat,
            padding,
            head_dim as int,
            dtype,
            *device,
        ) && t.dims() == seq![1usize, (angles + padding) as usize] && t.dtype()
            == candle_core::DType::F32,
        r matches Err(e) ==> e is Candle,
        tensor::succeeds(
            r,
            tensor::is_main_memory(*device) && tensor::has_products(dtype) && angles + padding > 0,
        ),
{
    let mut one: Vec<usize> = Vec::new();
    one.push(1);
    assert(one@ =~= seq![1]);
    proof {
        tensor::lemma_countable_1(1);
        tensor::lemma_countable_1(padding);
        tensor::lemma_countable_2(1, (angles + padding) as usize);
    }
    let mut parts: Vec<Traced> = Vec::new();
    let mut i: usize = 0;
    while i < angles
        invariant
            i <= angles,
            2 * angles <= usize::MAX,
            tensor::is_float(dtype),
            tensor::countable(seq![1usize]),
            one@ == seq![1usize],
            parts@.len() == i,
            tensor::is_main_memory(*device) && tensor::has_products(dtype) ==> forall|k: int|
                0 <= k < i ==> (#[trigger] parts@[k]).is_ready(),
            forall|k: int|
                0 <= k < i ==> (#[trigger] parts@[k]).dims() == seq![1usize] && parts@[k].dtype()
                    == candle_core::DType::F32,
            tensor::exprs(parts@) == Seq::new(
                i as nat,
                |k: int| rate_expr(base.expr(), k, head_dim as int, dtype, *device),
            ),
        decreases angles - i,
    {
        let zero = Traced::zeros(&one, dtype, device)?;
        let start = zero.plus_number(base)?;
        let exponent = Number::ratio_of(2 * i, head_dim);
        let power = start.to_the_power(&exponent)?;
        let single = power.to_dtype(candle_core::DType::F32)?;
        let rate = single.recip()?;
        let ghost before = parts@;
        parts.push(rate);
        i = i + 1;
        assert(tensor::exprs(parts@) =~= tensor::exprs(before).push(rate.expr()));
        assert(tensor::exprs(parts@) =~= Seq::new(
            i as nat,
            |k: int| rate_expr(base.expr(), k, head_dim as int, dtype, *device),
        ));
    }
    proof {
        tensor::lemma_total_alike(parts@, 0, 1);
    }
    if padding > 0 || angles == 0 {
        let mut rest: Vec<usize> = Vec::new();
        rest.push(padding);
        assert(rest@ =~= seq![padding]);
        let zeros = Traced::zeros(&rest, candle_core::DType::F32, device)?;
        let ghost before = parts@;
        parts.push(zeros);
        assert(tensor::exprs(parts@) =~= tensor::exprs(before).push(zeros.expr()));
        assert(parts@.drop_last() =~= before);
    }
    assert(tensor::total_dim(parts@, 0) == angles + padding);
    proof {
        if tensor::is_main_memory(*device) && tensor::has_products(dtype) && angles + padding > 0 {
            assert forall|k: int| 0 <= k < parts@.len() implies (#[trigger] parts@[k]).dims().update(
                0,
                0,
            ) == parts@[0].dims().update(0, 0) by {
                assert(parts@[k].dims().update(0, 0) =~= seq![0usize]);
                assert(parts@[0].dims().update(0, 0) =~= seq![0usize]);
            }
            assert(tensor::can_cat(parts@, 0));
            tensor::lemma_countable_1((angles + padding) as usize);
            assert(parts@[0].dims().update(0, (angles + padding) as usize) =~= seq![
                (angles + padding) as usize,
            ]);
        }
    }
    let joined = Traced::cat(&parts, 0)?;
    let mut row: Vec<usize> = Vec::new();
    row.push(1);
    row.push(angles + padding);
    assert(row@ =~= seq![1, (angles + padding) as usize]);
    joined.reshape(&row)
}

/// The angles: position times inverse frequency, one row per position.
fn angle_table(
    inv_freq: &Traced,
    positions: u32,
    dtype: candle_core::DType,
    device: &candle_core::Device,
) -> (r: Result<Traced, ModelError>)
    requires
        inv_freq.dims().len() == 2,
    ensures
        r matches Ok(t) ==> t.expr() == angles_expr(inv_freq.expr(), positions, dtype, *device)
            && t.dims() == seq![positions as usize, inv_freq.dims()[1]] && t.dtype() == dtype,
        r matches Err(e) ==> e is Candle,
        tensor::succeeds(
            r,
            tensor::is_main_memory(*device) && tensor::has_products(dtype) && inv_freq.is_ready()
                && inv_freq.dtype() == dtype && inv_freq.dims()[0] == 1,
        ),
{
    let counts = Traced::counts(positions, device)?;
    let counts = counts.to_dtype(dtype)?;
    let mut column: Vec<usize> = Vec::new();
    column.push(positions as usize);
    column.push(1);
    assert(column@ =~= seq![positions as usize, 1]);
    proof {
        tensor::lemma_countable_2(positions as usize, 1);
        tensor::lemma_countable_1(positions as usize);
    }
    let counts = counts.reshape(&column)?;
    assert(tensor::with_last(counts.dims(), inv_freq.dims().last()) =~= seq![
        positions as usize,
        inv_freq.dims()[1],
    ]);
    counts.matmul(inv_freq)
}

/// One table of sines and one of cosines, one row per position. Where fewer pairs rotate than the
/// head holds, the rest have inverse frequency zero, so cosine one and sine zero: the identity.
pub struct RotaryEmbedding {
    sin: Traced,
    cos: Traced,
}

impl RotaryEmbedding {
    /// The record of the sines.
    pub closed spec fn sin(&self) -> Expr {
        self.sin.expr()
    }

    /// The record of the cosines.
    pub closed spec fn cos(&self) -> Expr {
        self.cos.expr()
    }

    /// The shapes of the tables of cosines and of sines.
    pub closed spec fn table_dims(&self) -> (Seq<usize>, Seq<usize>) {
        (self.cos.dims(), self.sin.dims())
    }

    /// Both tables have one row for each of so many positions, of one entry for each of so many
    /// pairs.
    pub open spec fn has_shape(&self, positions: usize, pairs: usize) -> bool {
        self.table_dims() == (seq![positions, pairs], seq![positions, pairs])
    }

    /// Both tables lie in main memory in order and have this element type.
    pub closed spec fn is_ready(&self, dtype: candle_core::DType) -> bool {
        &&& self.cos.is_ready()
        &&& self.sin.is_ready()
        &&& self.cos.dtype() == dtype
        &&& self.sin.dtype() == dtype
    }

    /// The record of the sines and cosines of some rows.
    pub open spec fn rows(&self, index_pos: nat, seq_len: nat) -> (Expr, Expr) {
        (
            tensor::narrowed(self.cos(), 0, index_pos, seq_len),
            tensor::narrowed(self.sin(), 0, index_pos, seq_len),
        )
    }

    /// A table in which the first `rope_angles` of the head's pairs rotate: all of them for the
    /// standard embedding, fewer for the proportional one. Frequencies and angles are `F32`; the
    /// tables are cast to `dtype`.
    pub(crate) fn proportional(
        head_dim: usize,
        rope_angles: usize,
        freq_base: &Number,
        positions: u32,
        dtype: candle_core::DType,
        device: &candle_core::Device,
    ) -> (r: Result<RotaryEmbedding, ModelError>)
        requires
            rope_angles <= head_dim / 2,
        ensures
            r matches Ok(t) ==> {
                let table = angles_expr(
                    inv_freq_expr(
                        freq_base.expr(),
                        rope_angles as nat,
                        (head_dim / 2 - rope_angles) as usize,
                        head_dim as int,
                        candle_core::DType::F32,
                        *device,
                    ),
                    positions,
                    candle_core::DType::F32,
                    *device,
                );
                &&& t.sin() == tensor::cast(tensor::unary(UnaryOp::Sin, table), dtype)
                &&& t.cos() == tensor::cast(tensor::unary(UnaryOp::Cos, table), dtype)
                &&& t.has_shape(positions as usize, head_dim / 2)
                &&& turns_by(
                    t,
                    freq_base.expr(),
                    rope_angles as int,
                    head_dim as int,
                    positions as usize,
                    head_dim / 2,
                )
            },
            r matches Err(e) ==> e is Candle,
            tensor::is_main_memory(*device) && tensor::has_products(dtype) && head_dim >= 2
                && positions > 0 ==> (r matches Ok(t) && t.is_ready(dtype)),
    {
        let padding: usize = head_dim / 2 - rope_angles;
        let rates = inv_freq(
            freq_base,
            rope_angles,
            padding,
            head_dim,
            candle_core::DType::F32,
            device,
        )?;
        let table = angle_table(&rates, positions, candle_core::DType::F32, device)?;
        let sin = table.sin()?;
        let sin = sin.to_dtype(dtype)?;
        let cos = table.cos()?;
        let cos = cos.to_dtype(dtype)?;
        let tables = RotaryEmbedding { sin, cos };
        proof {
            law_tables_turn_by_rates(
                tables,
                freq_base.expr(),
                rope_angles as nat,
                padding,
                head_dim as int,
                positions,
                candle_core::DType::F32,
                candle_core::DType::F32,
                dtype,
                *device,
                false,
                true,
            );
        }
        Ok(tables)
    }

    /// A table in which every pair rotates, an odd last entry counting as a pair. The powers of the
    /// base are taken in `F64`; frequencies, angles and tables are in `dtype`.
    pub(crate) fn standard(
        head_dim: usize,
        rope_theta: &Number,
        positions: u32,
        dtype: candle_core::DType,
        device: &candle_core::Device,
    ) -> (r: Result<RotaryEmbedding, ModelError>)
        requires
            head_dim < usize::MAX,
            tensor::is_float(dtype),
        ensures
            r matches Ok(t) ==> {
                let rates = inv_freq_expr(
                    rope_theta.expr(),
                    ((head_dim + 1) / 2) as nat,
                    0,
                    head_dim as int,
                    candle_core::DType::F64,
                    *device,
                );
                let table = angles_expr(tensor::cast(rates, dtype), positions, dtype, *device);
                &&& t.sin() == tensor::unary(UnaryOp::Sin, table)
                &&& t.cos() == tensor::unary(UnaryOp::Cos, table)
                &&& t.has_shape(positions as usize, ((head_dim + 1) / 2) as usize)
                &&& turns_by(
                    t,
                    rope_theta.expr(),
                    (head_dim + 1) / 2,
                    head_dim as int,
                    positions as usize,
                    ((head_dim + 1) / 2) as usize,
                )
            },
            r matches Err(e) ==> e is Candle,
            tensor::is_main_memory(*device) && tensor::has_products(dtype) && head_dim > 0
                && positions > 0 ==> (r matches Ok(t) && t.is_ready(dtype)),
    {
        let angles: usize = (head_dim + 1) / 2;
        let rates = inv_freq(rope_theta, angles, 0, head_dim, candle_core::DType::F64, device)?;
        let rates = rates.to_dtype(dtype)?;
        let table = angle_table(&rates, positions, dtype, device)?;
        let sin = table.sin()?;
        let cos = table.cos()?;
        let tables = RotaryEmbedding { sin, cos };
        proof {
            law_tables_turn_by_rates(
                tables,
                rope_theta.expr(),
                angles as nat,
                0,
                head_dim as int,
                positions,
                candle_core::DType::F64,
                dtype,
                dtype,
                *device,
                true,
                false,
            );
        }
        Ok(tables)
    }

    /// The same tables again; the entries are shared.
    pub(crate) fn duplicate(&self) -> (r: RotaryEmbedding)
        ensures
            r == *self,
    {
        RotaryEmbedding { sin: self.sin.duplicate(), cos: self.cos.duplicate() }
    }

    /// The cosines and sines of `seq_len` positions from `index_pos` on.
    pub(crate) fn cos_sin(&self, index_pos: usize, seq_len: usize) -> (r: Result<
        (Traced, Traced),
        ModelError,
    >)
        ensures
            r matches Ok(t) ==> (t.0.expr(), t.1.expr()) == self.rows(
                index_pos as nat,
                seq_len as nat,
            ),
            r matches Err(e) ==> e is Candle,
            forall|positions: usize, pairs: usize|
                self.has_shape(positions, pairs) && index_pos + seq_len <= positions ==> (r matches
                    Ok(t) && t.0.dims() == seq![seq_len, pairs] && t.1.dims() == seq![
                    seq_len,
                    pairs,
                ]),
            r matches Ok(t) ==> forall|dtype: candle_core::DType| #[trigger]
                self.is_ready(dtype) ==> t.0.is_ready() && t.1.is_ready() && t.0.dtype() == dtype
                    && t.1.dtype() == dtype,
    {
        proof {
            assert forall|positions: usize, pairs: usize|
                self.has_shape(positions, pairs) implies self.cos.dims().update(0, seq_len) == seq![
                seq_len,
                pairs,
            ] && self.sin.dims().update(0, seq_len) == seq![seq_len, pairs] by {
                assert(self.cos.dims().update(0, seq_len) =~= seq![seq_len, pairs]);
                assert(self.sin.dims().update(0, seq_len) =~= seq![seq_len, pairs]);
            }
        }
        let cos = self.cos.narrow(0, index_pos, seq_len)?;
        let sin = self.sin.narrow(0, index_pos, seq_len)?;
        Ok((cos, sin))
    }
}

} // verus!
