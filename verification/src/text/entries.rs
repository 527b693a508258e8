//! What a pass over float weights computes, entry by entry.

use super::attn::{Attention, LayerCache};
use super::block::{self, FloatMlp, FloatNorm};
use super::layer::{DecoderLayer, PerLayerInputMixer};
use super::moe::{FloatExperts, FloatMoeBlock, FloatRouter};
use super::TextWeights;
use crate::attention::{self, KvView, SharedView};
use crate::formulas::{
    self, apply, capped, chances, expert_row, gated, layer_input, matrix, normed, plus, row, shifted,
    slice, stacked, suits, times, turned, weight_of,
};
use crate::heads::{
    cos_at, heads_joined, law_heads_are_joined, law_heads_are_runs, law_turns_are_absolute,
    lemma_contiguous_line, lemma_head_of, lemma_inverse_root, lemma_recip_root, lemma_slice, sin_at,
};
use crate::meaning::{self, along, entry, is_index, line, number, shape_of, total, Values};
use crate::quantized_gemma4::Weights;
use crate::routing;
use crate::tensor::layers::{self, Projection};
use crate::tensor::{self, packed, BinaryOp, Expr, NumberExpr, NumberOp, Traced, UnaryOp};
use vstd::prelude::*;

verus! {

/// The bias of a projection, where it has one.
pub open spec fn bias_row(p: Projection, v: Values) -> Option<spec_fn(int) -> real> {
    match p.bias() {
        Some(bias) => Some(row(bias, v)),
        None => None,
    }
}

/// An activation.
pub open spec fn bend(a: candle_nn::Activation, v: Values) -> spec_fn(real) -> real {
    |y: real| (v.activation)(a, y)
}

/// A projection of a row.
pub open spec fn projected_row(p: Projection, n: int, x: spec_fn(int) -> real, v: Values) -> spec_fn(
    int,
) -> real {
    shifted(apply(matrix(p.weight(), v), n, x), bias_row(p, v))
}

/// A projection multiplies every row with its matrix and adds its bias.
pub proof fn law_float_products(p: Projection, x: Expr, at: Seq<int>, v: Values)
    requires
        at.len() > 0,
    ensures
        line(p.of(x), at, v) == projected_row(p, shape_of(x).last() as int, line(x, at, v), v),
        entry(p.of(x), at, v) == projected_row(p, shape_of(x).last() as int, line(x, at, v), v)(
            at.last(),
        ),
        shape_of(p.of(x)) == tensor::with_last(shape_of(x), shape_of(p.weight())[0]),
{
    let n = shape_of(x).last() as int;
    let m = matrix(p.weight(), v);
    let (f, g) = (line(p.of(x), at, v), projected_row(p, n, line(x, at, v), v));
    meaning::lemma_projection(p.weight(), p.bias(), x, at, v);
    assert forall|o: int| #[trigger] f(o) == g(o) by {
        let there = along(at, o);
        meaning::lemma_projection(p.weight(), p.bias(), x, there, v);
        meaning::lemma_line(x, at, o, v);
        let (a, b) = (meaning::matrix_row(p.weight(), o, v), |k: int| m(o, k));
        let l = line(x, at, v);
        meaning::lemma_dot_alike(n, l, a, l, b);
    }
    assert(f =~= g);
    meaning::lemma_line(p.of(x), at, at.last(), v);
}

/// A float normalisation on a row.
pub open spec fn float_normed(norm: FloatNorm, x: spec_fn(int) -> real, n: int, v: Values) -> spec_fn(
    int,
) -> real {
    normed(x, n, number(norm.eps.expr(), v), row(norm.weight.expr(), v), v)
}

/// A normalisation divides an entry by the root of the mean of the squares of its own row and
/// multiplies it with its weight.
pub proof fn law_float_norms(
    norm: FloatNorm,
    x: Expr,
    dims: Seq<usize>,
    dtype: candle_core::DType,
    at: Seq<int>,
    v: Values,
)
    requires
        shape_of(x) == dims,
        dims.len() > 0,
        is_index(at, dims),
        shape_of(norm.weight.expr()) == seq![dims.last()],
    ensures
        shape_of(norm.of(x, dims, dtype)) == dims,
        entry(norm.of(x, dims, dtype), at, v) == float_normed(
            norm,
            line(x, at, v),
            dims.last() as int,
            v,
        )(at.last()),
{
    let weight = norm.weight.expr();
    let eps = norm.eps.expr();
    let wide = tensor::cast(x, block::inner_dtype(dtype));
    let mean = tensor::with_number(
        NumberOp::Div,
        tensor::unary(UnaryOp::SumLast, tensor::unary(UnaryOp::Sqr, wide)),
        NumberExpr::Int(dims.last() as int),
    );
    assert(shape_of(wide) == shape_of(x));
    meaning::lemma_mean_of_squares(wide, at, v);
    meaning::lemma_spelled_norm(wide, mean, eps, at, v);
    attention::lemma_cast_line(x, block::inner_dtype(dtype), at, v);
    let rms = tensor::unary(UnaryOp::Sqrt, tensor::with_number(NumberOp::Add, mean, eps));
    let plain = tensor::binary(BinaryOp::BroadcastDiv, wide, rms);
    let cast = tensor::cast(plain, dtype);
    assert(shape_of(cast) == shape_of(plain));
    assert(entry(cast, at, v) == entry(plain, at, v));
    meaning::lemma_clipped_whole(at, dims);
    meaning::lemma_clipped_row(at, dims, dims.last());
    let out = tensor::binary(BinaryOp::BroadcastMul, cast, weight);
    assert(entry(out, at, v) == entry(cast, at, v) * entry(weight, seq![at.last()], v));
    assert(shape_of(out) == tensor::broadcast_dims(shape_of(cast), shape_of(weight)));
}

/// A normalisation, along a row.
proof fn lemma_norm_line(
    norm: FloatNorm,
    x: Expr,
    dims: Seq<usize>,
    dtype: candle_core::DType,
    at: Seq<int>,
    v: Values,
)
    requires
        shape_of(x) == dims,
        dims.len() > 0,
        is_index(at, dims),
        shape_of(norm.weight.expr()) == seq![dims.last()],
    ensures
        shape_of(norm.of(x, dims, dtype)) == dims,
        forall|k: int|
            0 <= k < dims.last() ==> #[trigger] line(norm.of(x, dims, dtype), at, v)(k)
                == float_normed(norm, line(x, at, v), dims.last() as int, v)(k),
{
    law_float_norms(norm, x, dims, dtype, at, v);
    assert forall|k: int| 0 <= k < dims.last() implies #[trigger] line(
        norm.of(x, dims, dtype),
        at,
        v,
    )(k) == float_normed(norm, line(x, at, v), dims.last() as int, v)(k) by {
        let there = along(at, k);
        lemma_still_index(at, dims, k);
        law_float_norms(norm, x, dims, dtype, there, v);
        meaning::lemma_line(x, at, k, v);
    }
}

/// Another place of the same row.
proof fn lemma_still_index(at: Seq<int>, dims: Seq<usize>, k: int)
    requires
        is_index(at, dims),
        dims.len() > 0,
        0 <= k < dims.last(),
    ensures
        is_index(along(at, k), dims),
{
    let there = along(at, k);
    assert forall|i: int| 0 <= i < dims.len() implies 0 <= #[trigger] there[i] < dims[i] by {
        assert(0 <= at[i] < dims[i]);
    }
}

/// The dense block multiplies two projections of a row with each other, entry by entry, the first of
/// them activated, and projects what comes of it.
pub proof fn law_float_blocks(mlp: FloatMlp, x: Expr, at: Seq<int>, v: Values)
    requires
        at.len() > 0,
        shape_of(x).len() > 0,
    ensures
        ({
            let n = shape_of(x).last() as int;
            let hidden = line(x, at, v);
            line(mlp.of(x), at, v) == projected_row(
                mlp.down_proj,
                shape_of(mlp.gate_proj.weight())[0] as int,
                gated(
                    bend(mlp.act_fn, v),
                    projected_row(mlp.gate_proj, n, hidden, v),
                    projected_row(mlp.up_proj, n, hidden, v),
                ),
                v,
            )
        }),
        shape_of(mlp.of(x)) == tensor::with_last(shape_of(x), shape_of(mlp.down_proj.weight())[0]),
{
    let g = mlp.gate_proj.of(x);
    let gate = layers::activated(mlp.act_fn, g);
    let up = mlp.up_proj.of(x);
    let both = tensor::binary(BinaryOp::Mul, gate, up);
    law_float_products(mlp.gate_proj, x, at, v);
    law_float_products(mlp.up_proj, x, at, v);
    law_float_products(mlp.down_proj, both, at, v);
    assert(shape_of(gate) == shape_of(g));
    assert(shape_of(both) == shape_of(gate));
    let (p, q) = (
        line(both, at, v),
        gated(bend(mlp.act_fn, v), line(g, at, v), line(up, at, v)),
    );
    assert forall|j: int| #[trigger] p(j) == q(j) by {
        let there = along(at, j);
        assert(entry(both, there, v) == entry(gate, there, v) * entry(up, there, v));
        assert(entry(gate, there, v) == (v.activation)(mlp.act_fn, entry(g, there, v)));
    }
    assert(p =~= q);
    assert(tensor::with_last(shape_of(both), shape_of(mlp.down_proj.weight())[0])
        =~= tensor::with_last(shape_of(x), shape_of(mlp.down_proj.weight())[0]));
}

/// Mixing in a per-layer input adds to the hidden state what becomes of the input.
pub proof fn law_float_mixers(
    mixer: PerLayerInputMixer,
    xs: Expr,
    input: Expr,
    input_dims: Seq<usize>,
    dtype: candle_core::DType,
    at: Seq<int>,
    v: Values,
)
    requires
        is_index(at, shape_of(xs)),
        shape_of(xs).len() > 0,
        shape_of(mixer.per_layer_projection.weight())[0] == shape_of(xs).last(),
        mixer.per_layer_projection.dims_of(input_dims) == shape_of(xs),
        shape_of(mixer.post_per_layer_input_norm.weight.expr()) == seq![shape_of(xs).last()],
    ensures
        ({
            let n = shape_of(xs).last() as int;
            let hidden = line(xs, at, v);
            entry(mixer.of(xs, input, input_dims, dtype), at, v) == plus(
                hidden,
                float_normed(
                    mixer.post_per_layer_input_norm,
                    projected_row(
                        mixer.per_layer_projection,
                        shape_of(mixer.per_layer_input_gate.weight())[0] as int,
                        gated(
                            bend(mixer.act_fn, v),
                            projected_row(mixer.per_layer_input_gate, n, hidden, v),
                            line(input, at, v),
                        ),
                        v,
                    ),
                    n,
                    v,
                ),
            )(at.last())
        }),
        shape_of(mixer.of(xs, input, input_dims, dtype)) == shape_of(xs),
{
    let g = mixer.per_layer_input_gate.of(xs);
    let gate = layers::activated(mixer.act_fn, g);
    let both = tensor::binary(BinaryOp::Mul, gate, input);
    let mixed = mixer.per_layer_projection.of(both);
    law_float_products(mixer.per_layer_input_gate, xs, at, v);
    law_float_products(mixer.per_layer_projection, both, at, v);
    assert(shape_of(gate) == shape_of(g));
    assert(shape_of(both) == shape_of(gate));
    assert(shape_of(mixed) =~= shape_of(xs));
    let (p, q) = (
        line(both, at, v),
        gated(bend(mixer.act_fn, v), line(g, at, v), line(input, at, v)),
    );
    assert forall|j: int| #[trigger] p(j) == q(j) by {
        let there = along(at, j);
        assert(entry(both, there, v) == entry(gate, there, v) * entry(input, there, v));
        assert(entry(gate, there, v) == (v.activation)(mixer.act_fn, entry(g, there, v)));
    }
    assert(p =~= q);
    law_float_norms(mixer.post_per_layer_input_norm, mixed, shape_of(xs), dtype, at, v);
    meaning::lemma_line(xs, at, at.last(), v);
    let out = mixer.post_per_layer_input_norm.of(mixed, shape_of(xs), dtype);
    assert(mixer.of(xs, input, input_dims, dtype) == tensor::binary(BinaryOp::Add, xs, out));
}

/// The embedding of an identifier is its row of the table, scaled with the root of the number of
/// entries per position.
pub proof fn law_float_embeddings(w: TextWeights, ids: Expr, at: Seq<int>, v: Values)
    requires
        at.len() > 0,
    ensures
        entry(w.embedded(ids), at, v) == matrix(w.embed_tokens.rows_expr(), v)(
            (v.row)(entry(ids, at.drop_last(), v)),
            at.last(),
        ) * (v.root)(w.hidden_size as real),
{
    let rows = w.embed_tokens.of(ids);
    lemma_recip_root(w.hidden_size as int, v);
    assert(entry(w.embedded(ids), at, v) == entry(rows, at, v) * number(
        tensor::sqrt_of(w.hidden_size as int),
        v,
    ));
}

/// The per-layer input of layer `i` at a position is made of the token's slice of the table, scaled
/// with the root of the slice's own width, and of the layer's slice of the projected hidden state.
/// The number of entries per position enters through that projection alone.
pub proof fn law_float_layer_inputs(
    w: TextWeights,
    ids: Traced,
    xs: Traced,
    at: Seq<int>,
    v: Values,
)
    requires
        w.ple is Some,
        shape_of(ids.expr()) == ids.dims(),
        shape_of(xs.expr()) == xs.dims(),
        ids.dims().len() == 2,
        xs.dims().len() == 3,
        xs.dims()[0] == ids.dims()[0],
        xs.dims()[1] == ids.dims()[1],
        w.layers@.len() <= usize::MAX,
        w.layers@.len() * w.ple->Some_0.hidden_size_per_layer_input <= usize::MAX,
        shape_of(w.ple->Some_0.embed_tokens_per_layer.rows_expr()).last() == w.layers@.len()
            * w.ple->Some_0.hidden_size_per_layer_input,
        shape_of(w.ple->Some_0.per_layer_model_projection.weight())[0] == w.layers@.len()
            * w.ple->Some_0.hidden_size_per_layer_input,
        shape_of(w.ple->Some_0.per_layer_projection_norm.weight.expr()) == seq![
            w.ple->Some_0.hidden_size_per_layer_input,
        ],
        is_index(
            at,
            seq![
                ids.dims()[0],
                ids.dims()[1],
                w.layers@.len() as usize,
                w.ple->Some_0.hidden_size_per_layer_input,
            ],
        ),
    ensures
        ({
            let ple = w.ple->Some_0;
            let width = ple.hidden_size_per_layer_input as int;
            let table = matrix(ple.embed_tokens_per_layer.rows_expr(), v);
            let token = |d: int| table((v.row)(entry(ids.expr(), seq![at[0], at[1]], v)), d);
            let hidden = line(xs.expr(), seq![at[0], at[1], 0], v);
            let projected = times(
                projected_row(ple.per_layer_model_projection, xs.dims()[2] as int, hidden, v),
                1 as real / (v.root)(w.hidden_size as real),
            );
            &&& w.per_layer_inputs(ids, xs) is Some
            &&& entry(w.per_layer_inputs(ids, xs)->Some_0.0, at, v) == layer_input(
                slice(token, at[2], width),
                slice(projected, at[2], width),
                width,
                number(ple.per_layer_projection_norm.eps.expr(), v),
                row(ple.per_layer_projection_norm.weight.expr(), v),
                v,
            )(at[3])
        }),
{
    let ple = w.ple->Some_0;
    let layers = w.layers@.len() as usize;
    let width = ple.hidden_size_per_layer_input;
    let (b_sz, seq_len) = (ids.dims()[0], ids.dims()[1]);
    let shape = seq![b_sz, seq_len, layers, width];
    assert(xs.dims().drop_last().push(layers).push(width) =~= shape);
    assert(ids.dims().push(layers).push(width) =~= shape);
    let flat = seq![b_sz, seq_len, (layers * width) as usize];
    let (b, t, i, d) = (at[0], at[1], at[2], at[3]);
    assert(0 <= b < shape[0] && 0 <= t < shape[1] && 0 <= i < shape[2] && 0 <= d < shape[3]);
    // The projected hidden state.
    let product = ple.per_layer_model_projection.of(xs.expr());
    let scale = tensor::recip_sqrt_of(w.hidden_size as int);
    let scaled = tensor::with_number(NumberOp::Mul, product, scale);
    let seen = tensor::reshaped(scaled, shape);
    let normed = ple.per_layer_projection_norm.of(seen, shape, xs.dtype());
    let here = seq![b, t, 0];
    let plain = projected_row(
        ple.per_layer_model_projection,
        xs.dims()[2] as int,
        line(xs.expr(), here, v),
        v,
    );
    let projected = times(plain, 1 as real / (v.root)(w.hidden_size as real));
    lemma_recip_root(w.hidden_size as int, v);
    law_float_products(ple.per_layer_model_projection, xs.expr(), here, v);
    assert(shape_of(scaled) == shape_of(product));
    assert(shape_of(scaled) =~= flat);
    assert(shape_of(seen) == shape);
    law_float_norms(ple.per_layer_projection_norm, seen, shape, xs.dtype(), at, v);
    let own = slice(projected, i, width as int);
    let l = line(seen, at, v);
    assert forall|k: int| 0 <= k < width implies #[trigger] l(k) == own(k) by {
        lemma_still_index(at, shape, k);
        lemma_slice(scaled, b_sz, seq_len, layers, width, along(at, k), v);
        let there = seq![b, t, i * width + k];
        assert(along(here, i * width + k) =~= there);
        assert(entry(scaled, there, v) == entry(product, there, v) * number(scale, v));
        assert(line(product, here, v)(i * width + k) == entry(product, there, v));
    }
    formulas::lemma_normed(
        l,
        own,
        width as int,
        number(ple.per_layer_projection_norm.eps.expr(), v),
        row(ple.per_layer_projection_norm.weight.expr(), v),
        v,
        d,
    );
    // The token's own slice.
    let rows = ple.embed_tokens_per_layer.of(ids.expr());
    let root = tensor::sqrt_of(width as int);
    let widened = tensor::with_number(NumberOp::Mul, rows, root);
    let embedded = tensor::reshaped(widened, shape);
    let table = matrix(ple.embed_tokens_per_layer.rows_expr(), v);
    let token = |d: int| table((v.row)(entry(ids.expr(), seq![b, t], v)), d);
    assert(shape_of(rows) =~= flat);
    assert(shape_of(widened) == shape_of(rows));
    lemma_recip_root(width as int, v);
    lemma_slice(widened, b_sz, seq_len, layers, width, at, v);
    let there = seq![b, t, i * width + d];
    assert(there.drop_last() =~= seq![b, t]);
    assert(entry(widened, there, v) == entry(rows, there, v) * number(root, v));
    assert(entry(rows, there, v) == slice(token, i, width as int)(d));
    // Both together.
    let sum = tensor::binary(BinaryOp::Add, normed, embedded);
    let half = tensor::recip_sqrt_of(2);
    lemma_recip_root(2, v);
    let out = tensor::with_number(NumberOp::Mul, sum, half);
    assert(entry(sum, at, v) == entry(normed, at, v) + entry(embedded, at, v));
    assert(entry(out, at, v) == entry(sum, at, v) * number(half, v));
    assert(w.per_layer_inputs(ids, xs)->Some_0.0 == out);
}

/// The packed and the float model make the same per-layer inputs of the same tokens and hidden states,
/// wherever their tables and projections hold the same numbers, whatever their sizes are.
pub proof fn law_layer_inputs_agree(
    p: Weights,
    w: TextWeights,
    ids: Traced,
    xs: Traced,
    at: Seq<int>,
    v: Values,
)
    requires
        p.ple is Some,
        w.ple is Some,
        p.layers@.len() == w.layers@.len() <= usize::MAX,
        p.embedding_length == w.hidden_size,
        p.ple->Some_0.input_dim == w.ple->Some_0.hidden_size_per_layer_input,
        shape_of(ids.expr()) == ids.dims(),
        shape_of(xs.expr()) == xs.dims(),
        ids.dims().len() == 2,
        xs.dims().len() == 3,
        xs.dims()[0] == ids.dims()[0],
        xs.dims()[1] == ids.dims()[1],
        p.layers@.len() * p.ple->Some_0.input_dim <= usize::MAX,
        packed::packed_dims(p.ple->Some_0.token_embeddings.source()).last() == p.layers@.len()
            * p.ple->Some_0.input_dim,
        packed::packed_dims(p.ple->Some_0.model_projection.weight())[0] == p.layers@.len()
            * p.ple->Some_0.input_dim,
        shape_of(w.ple->Some_0.embed_tokens_per_layer.rows_expr()).last() == p.layers@.len()
            * p.ple->Some_0.input_dim,
        shape_of(w.ple->Some_0.per_layer_model_projection.weight())[0] == p.layers@.len()
            * p.ple->Some_0.input_dim,
        shape_of(w.ple->Some_0.per_layer_projection_norm.weight.expr()) == seq![
            p.ple->Some_0.input_dim,
        ],
        w.ple->Some_0.per_layer_model_projection.bias() is None,
        formulas::packed_matrix(p.ple->Some_0.token_embeddings.source(), v) == matrix(
            w.ple->Some_0.embed_tokens_per_layer.rows_expr(),
            v,
        ),
        formulas::packed_matrix(p.ple->Some_0.model_projection.weight(), v) == matrix(
            w.ple->Some_0.per_layer_model_projection.weight(),
            v,
        ),
        number(p.ple->Some_0.projection_norm.eps(), v) == number(
            w.ple->Some_0.per_layer_projection_norm.eps.expr(),
            v,
        ),
        row(p.ple->Some_0.projection_norm.weight(), v) == row(
            w.ple->Some_0.per_layer_projection_norm.weight.expr(),
            v,
        ),
        is_index(
            at,
            seq![
                ids.dims()[0],
                ids.dims()[1],
                p.layers@.len() as usize,
                p.ple->Some_0.input_dim,
            ],
        ),
    ensures
        entry(
            p.per_layer_inputs(ids.expr(), xs.expr(), ids.dims()[0], ids.dims()[1])->Some_0,
            at,
            v,
        ) == entry(w.per_layer_inputs(ids, xs)->Some_0.0, at, v),
{
    let (b_sz, seq_len) = (ids.dims()[0], ids.dims()[1]);
    assert(shape_of(ids.expr()) =~= seq![b_sz, seq_len]);
    crate::quantized_gemma4::entries::law_packed_layer_inputs(
        p,
        ids.expr(),
        xs.expr(),
        b_sz,
        seq_len,
        at,
        v,
    );
    law_float_layer_inputs(w, ids, xs, at, v);
}

/// The logits are those of the last position: the scores of its normalised row against the rows of
/// the output matrix, capped where the model has a cap.
pub proof fn law_float_logits(
    w: TextWeights,
    xs: Expr,
    dims: Seq<usize>,
    dtype: candle_core::DType,
    seq_len: int,
    at: Seq<int>,
    v: Values,
)
    requires
        seq_len > 0,
        shape_of(xs) == dims,
        dims.len() == 3,
        dims[2] > 0,
        shape_of(w.norm.weight.expr()) == seq![dims[2]],
        at.len() == 3,
        0 <= at[0] < dims[0],
        at[1] == 0,
    ensures
        ({
            let last = line(xs, seq![at[0], seq_len - 1, 0], v);
            let n = dims[2] as int;
            entry(w.logits(xs, dims, dtype, seq_len), at, v) == capped(
                projected_row(w.lm_head, n, float_normed(w.norm, last, n, v), v)(at[2]),
                match w.final_logit_softcapping {
                    Some(cap) => Some(number(cap.expr(), v)),
                    None => None,
                },
                v,
            )
        }),
{
    let n = dims[2] as int;
    let cut = tensor::narrowed(xs, 1, (seq_len - 1) as nat, 1);
    let shape = dims.update(1, 1);
    let normed = w.norm.of(cut, shape, dtype);
    let scores = w.lm_head.of(normed);
    let last = seq![at[0], seq_len - 1, 0];
    let base = along(at, 0);
    assert(shape_of(cut) == shape);
    assert(is_index(base, shape));
    lemma_norm_line(w.norm, cut, shape, dtype, base, v);
    law_float_products(w.lm_head, normed, at, v);
    meaning::lemma_line(normed, at, 0, v);
    meaning::lemma_line(cut, at, 0, v);
    let (f, g) = (line(cut, at, v), line(xs, last, v));
    assert forall|k: int| #[trigger] f(k) == g(k) by {
        let there = along(at, k);
        assert(there.update(1, there[1] + (seq_len - 1) as nat) =~= along(last, k));
        assert(entry(cut, there, v) == entry(xs, along(last, k), v));
    }
    assert(f =~= g);
    let (p, q) = (line(normed, at, v), float_normed(w.norm, g, n, v));
    assert forall|k: int| 0 <= k < n implies #[trigger] p(k) == q(k) by {
        assert(line(normed, base, v)(k) == q(k));
    }
    formulas::lemma_apply(matrix(w.lm_head.weight(), v), n, p, q);
    if let Some(cap) = w.final_logit_softcapping {
        let over = tensor::with_number(NumberOp::Div, scores, cap.expr());
        let bent = tensor::unary(UnaryOp::Tanh, over);
        assert(entry(over, at, v) == entry(scores, at, v) / number(cap.expr(), v));
        assert(entry(bent, at, v) == (v.tanh)(entry(over, at, v)));
        assert(entry(tensor::with_number(NumberOp::Mul, bent, cap.expr()), at, v) == entry(
            bent,
            at,
            v,
        ) * number(cap.expr(), v));
    }
}

/// The feed-forward part adds to what comes in the normalised output of the dense block, which sees
/// the normalised form of it; in a layer with experts, of the dense block and the experts together.
pub proof fn law_float_feed_forward(
    layer: DecoderLayer,
    residual: Expr,
    dims: Seq<usize>,
    dtype: candle_core::DType,
    picks: Seq<Seq<usize>>,
    at: Seq<int>,
    v: Values,
)
    requires
        shape_of(residual) == dims,
        dims.len() == 3,
        is_index(at, dims),
        shape_of(layer.pre_feedforward_layernorm.weight.expr()) == seq![dims[2]],
        shape_of(layer.post_feedforward_layernorm.weight.expr()) == seq![dims[2]],
        layer.pre_feedforward_layernorm.dims_of(dims) == dims,
        layer.mlp.dims_of(dims) == dims,
        shape_of(layer.mlp.down_proj.weight())[0] == dims[2],
        layer.moe matches Some(moe) ==> moe.dims_of(dims) == dims && shape_of(
            moe.post_feedforward_layernorm_1.weight.expr(),
        ) == seq![dims[2]],
    ensures
        ({
            let n = dims[2] as int;
            let hidden = float_normed(
                layer.pre_feedforward_layernorm,
                line(residual, at, v),
                n,
                v,
            );
            let dense = projected_row(
                layer.mlp.down_proj,
                shape_of(layer.mlp.gate_proj.weight())[0] as int,
                gated(
                    bend(layer.mlp.act_fn, v),
                    projected_row(layer.mlp.gate_proj, n, hidden, v),
                    projected_row(layer.mlp.up_proj, n, hidden, v),
                ),
                v,
            );
            let record = layer.mlp.of(layer.pre_feedforward_layernorm.of(residual, dims, dtype));
            let combined = match layer.moe {
                None => dense,
                Some(moe) => line(
                    moe.of(record, dims, residual, dims, dtype, picks),
                    at,
                    v,
                ),
            };
            &&& line(record, at, v) == dense
            &&& shape_of(record) == dims
            &&& shape_of(layer.fed_forward(residual, dims, dtype, picks)) == dims
            &&& entry(layer.fed_forward(residual, dims, dtype, picks), at, v) == plus(
                line(residual, at, v),
                float_normed(layer.post_feedforward_layernorm, combined, n, v),
            )(at[2])
        }),
{
    let n = dims[2] as int;
    let seen = layer.pre_feedforward_layernorm.of(residual, dims, dtype);
    let record = layer.mlp.of(seen);
    lemma_norm_line(layer.pre_feedforward_layernorm, residual, dims, dtype, at, v);
    law_float_blocks(layer.mlp, seen, at, v);
    let (x, y) = (
        line(seen, at, v),
        float_normed(layer.pre_feedforward_layernorm, line(residual, at, v), n, v),
    );
    assert forall|k: int| 0 <= k < n implies #[trigger] x(k) == y(k) by {}
    formulas::lemma_apply(matrix(layer.mlp.gate_proj.weight(), v), n, x, y);
    formulas::lemma_apply(matrix(layer.mlp.up_proj.weight(), v), n, x, y);
    assert(shape_of(record) =~= dims);
    let whole = match layer.moe {
        None => record,
        Some(moe) => moe.of(record, dims, residual, dims, dtype, picks),
    };
    if let Some(moe) = layer.moe {
        law_float_norms(moe.post_feedforward_layernorm_1, record, dims, dtype, at, v);
        assert(shape_of(whole) == shape_of(
            moe.post_feedforward_layernorm_1.of(record, dims, dtype),
        ));
    }
    law_float_norms(layer.post_feedforward_layernorm, whole, dims, dtype, at, v);
    let normed = layer.post_feedforward_layernorm.of(whole, dims, dtype);
    assert(layer.fed_forward(residual, dims, dtype, picks) == tensor::binary(
        BinaryOp::Add,
        residual,
        normed,
    ));
    meaning::lemma_line(residual, at, at[2], v);
}

/// Attention adds its normalised output to the hidden state that came in, of which it sees the
/// normalised form.
pub proof fn law_float_attended(
    layer: DecoderLayer,
    xs: Expr,
    dims: Seq<usize>,
    dtype: candle_core::DType,
    mask: Option<Expr>,
    offset: nat,
    cache: LayerCache,
    shared: SharedView,
    at: Seq<int>,
    v: Values,
)
    requires
        ({
            let attn = layer.self_attn.attn(
                layer.input_layernorm.of(xs, dims, dtype),
                layer.input_layernorm.dims_of(dims),
                dtype,
                mask,
                offset,
                cache,
                shared,
            );
            &&& shape_of(attn.out) == attn.dims
            &&& attn.dims.len() > 0
            &&& is_index(at, attn.dims)
            &&& shape_of(layer.post_attention_layernorm.weight.expr()) == seq![attn.dims.last()]
        }),
    ensures
        ({
            let attn = layer.self_attn.attn(
                layer.input_layernorm.of(xs, dims, dtype),
                layer.input_layernorm.dims_of(dims),
                dtype,
                mask,
                offset,
                cache,
                shared,
            );
            entry(layer.attended(xs, dims, dtype, mask, offset, cache, shared), at, v)
                == float_normed(
                layer.post_attention_layernorm,
                line(attn.out, at, v),
                attn.dims.last() as int,
                v,
            )(at.last()) + entry(xs, at, v)
        }),
{
    let attn = layer.self_attn.attn(
        layer.input_layernorm.of(xs, dims, dtype),
        layer.input_layernorm.dims_of(dims),
        dtype,
        mask,
        offset,
        cache,
        shared,
    );
    law_float_norms(layer.post_attention_layernorm, attn.out, attn.dims, dtype, at, v);
    let normed = layer.post_attention_layernorm.of(attn.out, attn.dims, dtype);
    assert(layer.attended(xs, dims, dtype, mask, offset, cache, shared) == tensor::binary(
        BinaryOp::Add,
        normed,
        xs,
    ));
}

/// A layer ends with its own scale on every entry, of the feed-forward part's output with the layer's
/// input mixed in, where the model has them.
pub proof fn law_float_steps(
    layer: DecoderLayer,
    xs: Expr,
    dims: Seq<usize>,
    dtype: candle_core::DType,
    mask: Option<Expr>,
    offset: nat,
    cache: LayerCache,
    shared: SharedView,
    input: Option<(Expr, Seq<usize>)>,
    picks: Seq<Seq<usize>>,
    at: Seq<int>,
    v: Values,
)
    requires
        shape_of(layer.layer_scalar.expr()) == seq![1usize],
        ({
            let fed = layer.fed_forward(
                layer.attended(xs, dims, dtype, mask, offset, cache, shared),
                dims,
                dtype,
                picks,
            );
            &&& is_index(at, shape_of(fed))
            &&& shape_of(fed).len() > 0
            &&& layer.pli_mixer matches Some(mixer) ==> {
                &&& shape_of(mixer.per_layer_projection.weight())[0] == shape_of(fed).last()
                &&& mixer.per_layer_projection.dims_of(input->Some_0.1) == shape_of(fed)
                &&& shape_of(mixer.post_per_layer_input_norm.weight.expr()) == seq![
                    shape_of(fed).last(),
                ]
            }
        }),
    ensures
        ({
            let fed = layer.fed_forward(
                layer.attended(xs, dims, dtype, mask, offset, cache, shared),
                dims,
                dtype,
                picks,
            );
            let n = shape_of(fed).last() as int;
            let hidden = line(fed, at, v);
            let mixed = match layer.pli_mixer {
                Some(mixer) => plus(
                    hidden,
                    float_normed(
                        mixer.post_per_layer_input_norm,
                        projected_row(
                            mixer.per_layer_projection,
                            shape_of(mixer.per_layer_input_gate.weight())[0] as int,
                            gated(
                                bend(mixer.act_fn, v),
                                projected_row(mixer.per_layer_input_gate, n, hidden, v),
                                line(input->Some_0.0, at, v),
                            ),
                            v,
                        ),
                        n,
                        v,
                    ),
                ),
                None => hidden,
            };
            entry(
                layer.step(xs, dims, dtype, mask, offset, cache, shared, input, picks).xs,
                at,
                v,
            ) == mixed(at.last()) * entry(layer.layer_scalar.expr(), seq![0], v)
        }),
{
    let fed = layer.fed_forward(
        layer.attended(xs, dims, dtype, mask, offset, cache, shared),
        dims,
        dtype,
        picks,
    );
    let scalar = layer.layer_scalar.expr();
    let mixed = match layer.pli_mixer {
        Some(mixer) => mixer.of(fed, input->Some_0.0, input->Some_0.1, dtype),
        None => fed,
    };
    if let Some(mixer) = layer.pli_mixer {
        law_float_mixers(mixer, fed, input->Some_0.0, input->Some_0.1, dtype, at, v);
    }
    assert(shape_of(mixed) == shape_of(fed));
    let out = tensor::binary(BinaryOp::BroadcastMul, mixed, scalar);
    meaning::lemma_clipped_whole(at, shape_of(mixed));
    assert(meaning::clipped(at, shape_of(scalar)) =~= seq![0int]);
    assert(entry(out, at, v) == entry(mixed, at, v) * entry(scalar, seq![0], v));
    meaning::lemma_line(mixed, at, at.last(), v);
    meaning::lemma_line(fed, at, at.last(), v);
}

/// Every layer gets its own slice of the per-layer inputs.
pub proof fn law_layers_get_their_own_input(
    w: TextWeights,
    inputs: Expr,
    dims: Seq<usize>,
    i: nat,
    at: Seq<int>,
    v: Values,
)
    requires
        at.len() == 3,
    ensures
        w.input_of(Some((inputs, dims)), i) is Some,
        entry(w.input_of(Some((inputs, dims)), i)->Some_0.0, at, v) == entry(
            inputs,
            seq![at[0], at[1], i as int, at[2]],
            v,
        ),
        w.input_of(None, i) is None,
{
    assert(at.insert(2, i as int) =~= seq![at[0], at[1], i as int, at[2]]);
}

/// The probability of an expert for a token goes by how well it suits the token's row, among all
/// experts.
pub proof fn law_float_router(
    router: FloatRouter,
    x: Expr,
    dtype: candle_core::DType,
    at: Seq<int>,
    v: Values,
)
    requires
        shape_of(x).len() == 2,
        router.proj.bias() is None,
        shape_of(router.scale.expr()) == seq![shape_of(x)[1]],
        is_index(at, seq![shape_of(x)[0], shape_of(router.proj.weight())[0]]),
        shape_of(x)[1] > 0,
    ensures
        shape_of(router.probs_of(x, dtype)) == seq![
            shape_of(x)[0],
            shape_of(router.proj.weight())[0],
        ],
        entry(router.probs_of(x, dtype), at, v) == chances(
            suits(
                matrix(router.proj.weight(), v),
                row(router.scale.expr(), v),
                shape_of(x)[1] as int,
                router.hidden_size as int,
                number(router.eps.expr(), v),
                line(x, seq![at[0], 0], v),
                v,
            ),
            shape_of(router.proj.weight())[0] as int,
            v,
        )(at[1]),
{
    let dims = shape_of(x);
    let n = dims[1] as int;
    let scale = router.scale.expr();
    let cast_scale = tensor::cast(scale, dtype);
    let experts = shape_of(router.proj.weight())[0];
    let normed = attention::v_norm_expr(x, router.eps.expr(), dtype);
    let scaled = tensor::binary(BinaryOp::BroadcastMul, normed, cast_scale);
    let factor = tensor::inverse_root_of(router.hidden_size as int);
    let h = tensor::with_number(NumberOp::Mul, scaled, factor);
    let scores = router.proj.of(h);
    let cast = tensor::cast(scores, candle_core::DType::F32);
    let here = seq![at[0], 0];
    let own = line(x, here, v);
    let eps = number(router.eps.expr(), v);
    let width = router.hidden_size as int;
    lemma_inverse_root(width, v);
    assert(0 <= at[0] < dims[0]);
    assert(is_index(here, dims));
    attention::lemma_v_norm_shape(x, router.eps.expr(), dtype);
    meaning::lemma_clipped_row(here, dims, dims[1]);
    assert(shape_of(cast_scale) == shape_of(scale));
    assert(shape_of(scaled) == dims);
    assert(shape_of(h) == shape_of(scaled));
    law_float_products(router.proj, h, here, v);
    assert(shape_of(scores) =~= seq![dims[0], experts]);
    assert(shape_of(cast) == shape_of(scores));
    let x_row = |k: int|
        meaning::normalised(own, n, eps, v)(k) * row(scale, v)(k) * (v.power)(
            width as real,
            (-1int) as real / 2 as real,
        );
    let l = line(h, here, v);
    assert forall|k: int| 0 <= k < n implies #[trigger] l(k) == x_row(k) by {
        let spot = along(here, k);
        assert(is_index(spot, dims));
        attention::law_values_are_normalised(x, router.eps.expr(), dtype, spot, v);
        meaning::lemma_line(x, here, k, v);
        meaning::lemma_clipped_whole(spot, dims);
        meaning::lemma_clipped_row(spot, dims, dims[1]);
        assert(entry(cast_scale, seq![k], v) == entry(scale, seq![k], v));
        assert(entry(scaled, spot, v) == entry(normed, spot, v) * entry(cast_scale, seq![k], v));
        assert(entry(h, spot, v) == entry(scaled, spot, v) * number(factor, v));
    }
    let m = matrix(router.proj.weight(), v);
    formulas::lemma_apply(m, n, l, x_row);
    let target = suits(m, row(scale, v), n, width, eps, own, v);
    assert(target == apply(m, n, x_row));
    assert(line(scores, here, v) == target);
    meaning::lemma_sums(cast, cast, arbitrary(), at, v);
    let (f, g) = (meaning::exponentials(cast, at, v), |i: int| (v.exp)(target(i)));
    assert forall|e: int| 0 <= e < experts implies #[trigger] f(e) == g(e) by {
        assert(along(at, e) =~= along(here, e));
        assert(entry(cast, along(at, e), v) == entry(scores, along(here, e), v));
        assert(line(scores, here, v)(e) == target(e));
    }
    meaning::lemma_total_alike(experts as int, f, g);
    assert(0 <= at[1] < experts);
    assert(along(here, at[1]) =~= at);
    assert(line(scores, here, v)(at[1]) == entry(scores, at, v));
    assert(entry(cast, at, v) == entry(scores, at, v));
}

/// A product with one matrix of a stack.
proof fn lemma_stack_product(x: Expr, stack: Expr, e: usize, at: Seq<int>, v: Values)
    requires
        shape_of(x).len() == 2,
        shape_of(stack).len() == 3,
        shape_of(stack)[2] == shape_of(x)[1],
        at.len() == 2,
    ensures
        shape_of(super::moe::stack_product(x, stack, e)) == seq![
            shape_of(x)[0],
            shape_of(stack)[1],
        ],
        line(super::moe::stack_product(x, stack, e), at, v) == apply(
            stacked(stack, e as int, v),
            shape_of(x)[1] as int,
            line(x, at, v),
        ),
{
    let one = tensor::selected(stack, 0, e as nat);
    let side = tensor::transposed(one, 0, 1);
    let out = tensor::binary(BinaryOp::MatMul, x, side);
    let n = shape_of(x)[1] as int;
    assert(shape_of(one) =~= seq![shape_of(stack)[1], shape_of(stack)[2]]);
    assert(shape_of(side) =~= seq![shape_of(stack)[2], shape_of(stack)[1]]);
    assert(shape_of(out) =~= seq![shape_of(x)[0], shape_of(stack)[1]]);
    let m = stacked(stack, e as int, v);
    let l = line(x, at, v);
    let (f, g) = (line(out, at, v), apply(m, n, l));
    assert forall|o: int| #[trigger] f(o) == g(o) by {
        let there = along(at, o);
        meaning::lemma_sums(x, side, arbitrary(), there, v);
        meaning::lemma_line(x, at, o, v);
        let terms = meaning::product_terms(x, side, there, v);
        let plain = |k: int| l(k) * (|k: int| m(o, k))(k);
        assert forall|k: int| 0 <= k < n implies #[trigger] terms(k) == plain(k) by {
            assert(along(there, k) =~= along(at, k));
            let turn = meaning::across(there, k);
            assert(turn =~= seq![k, o]);
            let back = seq![o, k];
            assert(turn.update(0, turn[1]).update(1, turn[0]) =~= back);
            assert(entry(side, turn, v) == entry(one, back, v));
            assert(back.insert(0, e as int) =~= seq![e as int, o, k]);
        }
        meaning::lemma_total_alike(n, terms, plain);
        assert(g(o) == meaning::dot(n, l, |k: int| m(o, k)));
    }
    assert(f =~= g);
}

/// An expert's term for a token is the expert's block on the token's row, times the expert's weight.
pub proof fn law_float_terms(
    experts: FloatExperts,
    x: Expr,
    e: usize,
    weight: Expr,
    dtype: candle_core::DType,
    at: Seq<int>,
    v: Values,
)
    requires
        shape_of(x).len() == 2,
        shape_of(x)[0] == 1,
        shape_of(experts.gate_up.expr()) == experts.gate_up.dims(),
        shape_of(experts.gate_up.expr()).len() == 3,
        shape_of(experts.gate_up.expr())[2] == shape_of(x)[1],
        shape_of(experts.down.expr()).len() == 3,
        shape_of(experts.down.expr())[1] == shape_of(x)[1],
        shape_of(experts.down.expr())[2] == experts.gate_up.dims()[1] / 2,
        shape_of(weight) == routing::single(),
        is_index(at, seq![1, shape_of(x)[1]]),
    ensures
        shape_of(experts.term(x, e, weight, dtype)) == shape_of(x),
        entry(experts.term(x, e, weight, dtype), at, v) == expert_row(
            bend(experts.act, v),
            stacked(experts.gate_up.expr(), e as int, v),
            stacked(experts.down.expr(), e as int, v),
            shape_of(x)[1] as int,
            experts.gate_up.dims()[1] as int / 2,
            line(x, at, v),
        )(at[1]) * entry(weight, seq![0, 0], v),
{
    let y = super::moe::stack_product(x, experts.gate_up.expr(), e);
    let i = (experts.gate_up.dims()[1] / 2) as nat;
    let inner = i as int;
    let first = tensor::narrowed(y, 1, 0, i);
    let gate = layers::activated(experts.act, first);
    let up = tensor::narrowed(y, 1, i, i);
    let product = tensor::binary(BinaryOp::Mul, gate, up);
    let z = super::moe::stack_product(product, experts.down.expr(), e);
    let cast = tensor::cast(weight, dtype);
    let weighted = tensor::binary(BinaryOp::BroadcastMul, z, cast);
    let dims = seq![1, shape_of(x)[1]];
    let act = bend(experts.act, v);
    lemma_stack_product(x, experts.gate_up.expr(), e, at, v);
    assert(shape_of(first) =~= seq![1, i as usize]);
    assert(shape_of(gate) == shape_of(first));
    assert(shape_of(product) == shape_of(gate));
    lemma_stack_product(product, experts.down.expr(), e, at, v);
    assert(shape_of(z) =~= dims);
    assert(shape_of(x) =~= dims);
    let both = stacked(experts.gate_up.expr(), e as int, v);
    let out = apply(both, shape_of(x)[1] as int, line(x, at, v));
    let (f, g) = (line(product, at, v), gated(act, slice(out, 0, inner), slice(out, 1, inner)));
    assert forall|j: int| 0 <= j < inner implies #[trigger] f(j) == g(j) by {
        let there = along(at, j);
        assert(there.update(1, there[1] + 0nat) =~= along(at, j));
        assert(there.update(1, there[1] + i) =~= along(at, i + j));
        assert(entry(first, there, v) == entry(y, along(at, j), v));
        assert(entry(up, there, v) == entry(y, along(at, i + j), v));
        assert(entry(gate, there, v) == (v.activation)(experts.act, entry(first, there, v)));
        assert(entry(product, there, v) == entry(gate, there, v) * entry(up, there, v));
        assert(line(y, at, v)(j) == out(j));
        assert(line(y, at, v)(i + j) == out(i + j));
        assert(0 * inner + j == j);
        assert(1 * inner + j == i + j);
    }
    formulas::lemma_apply(stacked(experts.down.expr(), e as int, v), inner, f, g);
    assert(0 <= at[0] < dims[0] && 0 <= at[1] < dims[1]);
    meaning::lemma_clipped_whole(at, dims);
    assert(shape_of(cast) == shape_of(weight));
    assert(meaning::clipped(at, routing::single()) =~= seq![0int, 0]);
    assert(tensor::broadcast_dims(dims, routing::single()) =~= dims);
    assert(shape_of(weighted) == dims);
    assert(entry(cast, seq![0, 0], v) == entry(weight, seq![0, 0], v));
    assert(entry(weighted, at, v) == entry(z, at, v) * entry(cast, seq![0, 0], v));
    meaning::lemma_line(z, at, at[1], v);
    let term = tensor::with_number(NumberOp::Add, weighted, NumberExpr::Int(0));
    assert(number(NumberExpr::Int(0), v) == 0 as real);
    assert(entry(term, at, v) == entry(weighted, at, v) + 0 as real);
    assert(shape_of(term) == shape_of(weighted));
}

/// What the picks of a token make of its row: every expert's block, weighted and added up.
pub open spec fn picks_mixed(
    experts: FloatExperts,
    picks: Seq<usize>,
    n: int,
    weights: spec_fn(int) -> real,
    x: spec_fn(int) -> real,
    v: Values,
) -> spec_fn(int) -> real {
    |o: int|
        total(
            picks.len() as int,
            |j: int|
                expert_row(
                    bend(experts.act, v),
                    stacked(experts.gate_up.expr(), picks[j] as int, v),
                    stacked(experts.down.expr(), picks[j] as int, v),
                    n,
                    experts.gate_up.dims()[1] as int / 2,
                    x,
                )(o) * weights(j),
        )
}

/// The stacks of some experts fit rows of so many entries.
pub open spec fn is_shaped(experts: FloatExperts, n: usize) -> bool {
    &&& shape_of(experts.gate_up.expr()) == experts.gate_up.dims()
    &&& shape_of(experts.gate_up.expr()).len() == 3
    &&& shape_of(experts.gate_up.expr())[2] == n
    &&& shape_of(experts.down.expr()).len() == 3
    &&& shape_of(experts.down.expr())[1] == n
    &&& shape_of(experts.down.expr())[2] == experts.gate_up.dims()[1] / 2
}

/// A token's output is the sum of the weighted outputs of all its picks on the token's own row.
pub proof fn law_float_tokens(
    experts: FloatExperts,
    xs: Expr,
    n: int,
    picks: Seq<usize>,
    weights: Seq<Expr>,
    dtype: candle_core::DType,
    at: Seq<int>,
    v: Values,
)
    requires
        shape_of(xs).len() == 2,
        n >= 0,
        picks.len() > 0,
        weights.len() == picks.len(),
        is_shaped(experts, shape_of(xs)[1]),
        forall|j: int|
            0 <= j < picks.len() ==> shape_of(#[trigger] weights[j]) == routing::single(),
        is_index(at, seq![1, shape_of(xs)[1]]),
    ensures
        ({
            let all = Seq::new(picks.len(), |j: int| (picks[j], weights[j]));
            &&& shape_of(experts.token(xs, n, all, dtype)) == seq![1, shape_of(xs)[1]]
            &&& entry(experts.token(xs, n, all, dtype), at, v) == picks_mixed(
                experts,
                picks,
                shape_of(xs)[1] as int,
                |j: int| entry(weights[j], seq![0, 0], v),
                line(xs, seq![n, 0], v),
                v,
            )(at[1])
        }),
{
    let all = Seq::new(picks.len(), |j: int| (picks[j], weights[j]));
    let x = tensor::narrowed(xs, 0, n as nat, 1);
    let terms = all.map_values(|p: (usize, Expr)| experts.term(x, p.0, p.1, dtype));
    let width = shape_of(xs)[1];
    assert(shape_of(x) =~= seq![1, width]);
    let own = line(xs, seq![n, 0], v);
    let (f, g) = (line(x, at, v), own);
    assert(0 <= at[0] < seq![1, width][0]);
    assert forall|k: int| #[trigger] f(k) == g(k) by {
        let there = along(at, k);
        assert(there.update(0, there[0] + n as nat) =~= along(seq![n, 0], k));
    }
    assert(f =~= g);
    let w = |j: int| entry(weights[j], seq![0, 0], v);
    let plain = |j: int|
        expert_row(
            bend(experts.act, v),
            stacked(experts.gate_up.expr(), picks[j] as int, v),
            stacked(experts.down.expr(), picks[j] as int, v),
            width as int,
            experts.gate_up.dims()[1] as int / 2,
            own,
        )(at[1]) * w(j);
    let listed = |j: int| entry(terms[j], at, v);
    assert forall|j: int| 0 <= j < picks.len() implies #[trigger] listed(j) == plain(j)
        && shape_of(terms[j]) == seq![1, width] by {
        assert(shape_of(weights[j]) == routing::single());
        law_float_terms(experts, x, picks[j], weights[j], dtype, at, v);
        assert(terms[j] == experts.term(x, picks[j], weights[j], dtype));
    }
    routing::lemma_left_sum(terms, at, v);
    meaning::lemma_total_alike(picks.len() as int, listed, plain);
    assert(listed(0) == plain(0));
    assert(experts.token(xs, n, all, dtype) == routing::left_sum(terms));
}

/// A block of experts fits its input.
pub open spec fn moe_is_shaped(
    block: FloatMoeBlock,
    dims: Seq<usize>,
    picks: Seq<Seq<usize>>,
) -> bool {
    let experts = shape_of(block.router.proj.weight());
    &&& dims.len() == 3
    &&& dims[2] > 0
    &&& dims[0] * dims[1] <= usize::MAX
    &&& block.router.proj.bias() is None
    &&& shape_of(block.router.scale.expr()) == seq![dims[2]]
    &&& shape_of(block.router.per_expert_scale.expr()).len() == 1
    &&& shape_of(block.pre_feedforward_layernorm_2.weight.expr()) == seq![dims[2]]
    &&& shape_of(block.post_feedforward_layernorm_1.weight.expr()) == seq![dims[2]]
    &&& shape_of(block.post_feedforward_layernorm_2.weight.expr()) == seq![dims[2]]
    &&& is_shaped(block.experts, dims[2])
    &&& picks.len() == dims[0] * dims[1]
    &&& forall|n: int| 0 <= n < picks.len() ==> (#[trigger] picks[n]).len() > 0
    &&& forall|n: int, j: int|
        0 <= n < picks.len() && 0 <= j < picks[n].len() ==> (#[trigger] picks[n][j]) < experts[0]
}

/// The table of probabilities has a row for each token.
proof fn lemma_probs_shape(
    block: FloatMoeBlock,
    residual: Expr,
    dims: Seq<usize>,
    dtype: candle_core::DType,
    picks: Seq<Seq<usize>>,
    v: Values,
)
    requires
        moe_is_shaped(block, dims, picks),
        shape_of(residual) == dims,
        picks.len() > 0,
    ensures
        shape_of(block.probs_of(residual, dims, dtype)).len() == 2,
        shape_of(block.router.scales()).len() == 1,
{
    let tokens = (dims[0] * dims[1]) as usize;
    let flat = tensor::reshaped(residual, seq![tokens, dims[2]]);
    assert(shape_of(flat) == seq![tokens, dims[2]]);
    let experts = shape_of(block.router.proj.weight())[0];
    assert(picks[0].len() > 0);
    assert(picks[0][0] < experts);
    let spot = seq![0int, 0];
    assert(is_index(spot, seq![tokens, experts]));
    law_float_router(block.router, flat, dtype, spot, v);
    assert(shape_of(block.router.scales()) == shape_of(block.router.per_expert_scale.expr()));
}

/// One token's row of output.
proof fn lemma_token_row(
    block: FloatMoeBlock,
    residual: Expr,
    dims: Seq<usize>,
    dtype: candle_core::DType,
    picks: Seq<Seq<usize>>,
    m: int,
    d: int,
    v: Values,
)
    requires
        moe_is_shaped(block, dims, picks),
        shape_of(residual) == dims,
        0 <= m < picks.len(),
        0 <= d < dims[2],
    ensures
        ({
            let flat_dims = seq![(dims[0] * dims[1]) as usize, dims[2]];
            let flat = tensor::reshaped(residual, flat_dims);
            let normed = block.pre_feedforward_layernorm_2.of(flat, flat_dims, dtype);
            let probs = block.probs_of(residual, dims, dtype);
            let scales = block.router.scales();
            let routes = routing::weighted(picks, probs, scales);
            let out = block.experts.token(normed, m, routes[m], dtype);
            &&& shape_of(out) == seq![1, dims[2]]
            &&& entry(out, seq![0, d], v) == picks_mixed(
                block.experts,
                picks[m],
                dims[2] as int,
                |j: int|
                    entry(
                        routing::weight_expr(probs, scales, m, picks[m], picks[m][j]),
                        seq![0, 0],
                        v,
                    ),
                line(normed, seq![m, 0], v),
                v,
            )(d)
        }),
{
    let flat_dims = seq![(dims[0] * dims[1]) as usize, dims[2]];
    let flat = tensor::reshaped(residual, flat_dims);
    let normed = block.pre_feedforward_layernorm_2.of(flat, flat_dims, dtype);
    let probs = block.probs_of(residual, dims, dtype);
    let scales = block.router.scales();
    let routes = routing::weighted(picks, probs, scales);
    let at = seq![0, d];
    assert(shape_of(flat) == flat_dims);
    assert(is_index(seq![m, 0], flat_dims));
    lemma_norm_line(
        block.pre_feedforward_layernorm_2,
        flat,
        flat_dims,
        dtype,
        seq![m, 0],
        v,
    );
    let token = picks[m];
    assert(token.len() > 0);
    let weights = Seq::new(
        token.len(),
        |j: int| routing::weight_expr(probs, scales, m, token, token[j]),
    );
    lemma_probs_shape(block, residual, dims, dtype, picks, v);
    assert forall|j: int| 0 <= j < token.len() implies shape_of(#[trigger] weights[j])
        == routing::single() by {
        routing::law_weights_are_shares(probs, scales, m, token, j, v);
    }
    let all = Seq::new(token.len(), |j: int| (token[j], weights[j]));
    assert(routes[m] =~= all);
    law_float_tokens(block.experts, normed, m, token, weights, dtype, at, v);
    let (f, g) = (
        |j: int| entry(weights[j], seq![0, 0], v),
        |j: int| entry(routing::weight_expr(probs, scales, m, picks[m], picks[m][j]), seq![0, 0], v),
    );
    let x = line(normed, seq![m, 0], v);
    assert forall|j: int| 0 <= j < token.len() implies #[trigger] f(j) == g(j) by {}
    lemma_picks_alike(block.experts, token, dims[2] as int, f, g, x, x, d, v);
}

/// Picks need no more of weights and of a row than there are.
proof fn lemma_picks_alike(
    experts: FloatExperts,
    picks: Seq<usize>,
    n: int,
    w: spec_fn(int) -> real,
    u: spec_fn(int) -> real,
    x: spec_fn(int) -> real,
    y: spec_fn(int) -> real,
    d: int,
    v: Values,
)
    requires
        forall|j: int| 0 <= j < picks.len() ==> #[trigger] w(j) == u(j),
        forall|k: int| 0 <= k < n ==> #[trigger] x(k) == y(k),
    ensures
        picks_mixed(experts, picks, n, w, x, v)(d) == picks_mixed(experts, picks, n, u, y, v)(d),
{
    let inner = experts.gate_up.dims()[1] as int / 2;
    let f = |j: int|
        expert_row(
            bend(experts.act, v),
            stacked(experts.gate_up.expr(), picks[j] as int, v),
            stacked(experts.down.expr(), picks[j] as int, v),
            n,
            experts.gate_up.dims()[1] as int / 2,
            x,
        )(d) * w(j);
    let g = |j: int|
        expert_row(
            bend(experts.act, v),
            stacked(experts.gate_up.expr(), picks[j] as int, v),
            stacked(experts.down.expr(), picks[j] as int, v),
            n,
            experts.gate_up.dims()[1] as int / 2,
            y,
        )(d) * u(j);
    assert forall|j: int| 0 <= j < picks.len() implies #[trigger] f(j) == g(j) by {
        assert(w(j) == u(j));
        formulas::lemma_expert_row(
            bend(experts.act, v),
            stacked(experts.gate_up.expr(), picks[j] as int, v),
            stacked(experts.down.expr(), picks[j] as int, v),
            n,
            inner,
            x,
            y,
        );
    }
    meaning::lemma_total_alike(picks.len() as int, f, g);
}

/// The chances of the experts for a row.
pub open spec fn chances_for(block: FloatMoeBlock, n: int, x: spec_fn(int) -> real, v: Values) -> spec_fn(
    int,
) -> real {
    chances(
        suits(
            matrix(block.router.proj.weight(), v),
            row(block.router.scale.expr(), v),
            n,
            block.router.hidden_size as int,
            number(block.router.eps.expr(), v),
            x,
            v,
        ),
        shape_of(block.router.proj.weight())[0] as int,
        v,
    )
}

/// The experts' output for one token, given which experts were picked for it.
pub open spec fn experts_row(
    block: FloatMoeBlock,
    picks: Seq<usize>,
    n: int,
    x: spec_fn(int) -> real,
    v: Values,
) -> spec_fn(int) -> real {
    picks_mixed(
        block.experts,
        picks,
        n,
        |j: int|
            weight_of(
                chances_for(block, n, x, v),
                row(block.router.per_expert_scale.expr(), v),
                picks,
                j,
            ),
        float_normed(block.pre_feedforward_layernorm_2, x, n, v),
        v,
    )
}

/// The rows of all tokens, in terms of the row of each.
proof fn lemma_float_mixture(
    block: FloatMoeBlock,
    residual: Expr,
    dims: Seq<usize>,
    dtype: candle_core::DType,
    picks: Seq<Seq<usize>>,
    at: Seq<int>,
    v: Values,
)
    requires
        moe_is_shaped(block, dims, picks),
        shape_of(residual) == dims,
        is_index(at, dims),
    ensures
        ({
            let flat_dims = seq![(dims[0] * dims[1]) as usize, dims[2]];
            let flat = tensor::reshaped(residual, flat_dims);
            let probs = block.probs_of(residual, dims, dtype);
            let routes = routing::weighted(picks, probs, block.router.scales());
            let mixed = block.experts.of(
                block.pre_feedforward_layernorm_2.of(flat, flat_dims, dtype),
                routes,
                dtype,
            );
            &&& shape_of(mixed) == flat_dims
            &&& entry(tensor::reshaped(mixed, dims), at, v) == experts_row(
                block,
                picks[at[0] * dims[1] + at[1]],
                dims[2] as int,
                line(residual, at, v),
                v,
            )(at[2])
        }),
{
    let n = dims[2] as int;
    let tokens = (dims[0] * dims[1]) as usize;
    let flat_dims = seq![tokens, dims[2]];
    let flat = tensor::reshaped(residual, flat_dims);
    let norm = block.pre_feedforward_layernorm_2;
    let normed = norm.of(flat, flat_dims, dtype);
    let probs = block.probs_of(residual, dims, dtype);
    let scales = block.router.scales();
    let routes = routing::weighted(picks, probs, scales);
    let rows = Seq::new(routes.len(), |m: int| block.experts.token(normed, m, routes[m], dtype));
    let mixed = block.experts.of(normed, routes, dtype);
    let own = line(residual, at, v);
    let (b, t, d) = (at[0], at[1], at[2]);
    assert(0 <= b < dims[0] && 0 <= t < dims[1] && 0 <= d < dims[2]);
    let tok = b * dims[1] + t;
    assert(shape_of(flat) == flat_dims);
    routing::lemma_tokens(residual, dims, at, v);
    let base = seq![tok, 0];
    assert(is_index(base, flat_dims));
    let l = line(flat, base, v);
    assert forall|k: int| 0 <= k < n implies #[trigger] l(k) == own(k) by {
        let there = along(at, k);
        lemma_still_index(at, dims, k);
        routing::lemma_tokens(residual, dims, there, v);
        assert(along(base, k) =~= seq![tok, k]);
    }
    lemma_norm_line(norm, flat, flat_dims, dtype, base, v);
    let m = line(normed, base, v);
    let q = float_normed(norm, own, n, v);
    assert forall|k: int| 0 <= k < n implies #[trigger] m(k) == q(k) by {
        formulas::lemma_normed(
            l,
            own,
            n,
            number(norm.eps.expr(), v),
            row(norm.weight.expr(), v),
            v,
            k,
        );
    }
    assert forall|i: int| 0 <= i < rows.len() implies shape_of(#[trigger] rows[i]) == seq![
        1,
        dims[2],
    ] by {
        lemma_token_row(block, residual, dims, dtype, picks, i, d, v);
    }
    assert(is_index(seq![tok, d], flat_dims));
    routing::lemma_rows_below(rows, dims[2], seq![tok, d], v);
    assert(mixed == Expr::Cat(rows, 0));
    routing::lemma_tokens_back(mixed, dims, at, v);
    lemma_token_row(block, residual, dims, dtype, picks, tok, d, v);
    assert(entry(rows[tok], seq![0, d], v) == entry(tensor::reshaped(mixed, dims), at, v));
    let token = picks[tok];
    let router = block.router;
    let eps = number(router.eps.expr(), v);
    let width = router.hidden_size as int;
    let proj = matrix(router.proj.weight(), v);
    let fit = row(router.scale.expr(), v);
    let experts = shape_of(router.proj.weight())[0];
    formulas::lemma_suits(proj, fit, n, width, eps, l, own, v);
    let chance = chances_for(block, n, own, v);
    let scale = row(router.per_expert_scale.expr(), v);
    let w = |j: int| entry(routing::weight_expr(probs, scales, tok, token, token[j]), seq![0, 0], v);
    let u = |j: int|
        weight_of(
            chances_for(block, n, own, v),
            row(block.router.per_expert_scale.expr(), v),
            token,
            j,
        );
    let (listed, plain) = (
        routing::picked(probs, tok, token, v),
        |i: int| chance(token[i] as int),
    );
    assert forall|i: int| 0 <= i < token.len() implies #[trigger] listed(i) == plain(i) by {
        assert(picks[tok][i] < experts);
        let spot = seq![tok, token[i] as int];
        assert(is_index(spot, seq![tokens, experts]));
        law_float_router(router, flat, dtype, spot, v);
        assert(seq![spot[0], 0] =~= base);
    }
    meaning::lemma_total_alike(token.len() as int, listed, plain);
    assert(token.len() > 0);
    lemma_probs_shape(block, residual, dims, dtype, picks, v);
    assert forall|j: int| 0 <= j < token.len() implies #[trigger] w(j) == u(j) by {
        routing::law_weights_are_shares(probs, scales, tok, token, j, v);
        assert(listed(j) == plain(j));
        assert(entry(scales, seq![token[j] as int], v) == entry(
            router.per_expert_scale.expr(),
            seq![token[j] as int],
            v,
        ));
    }
    lemma_picks_alike(block.experts, token, n, w, u, m, q, d, v);
}

/// In a layer with experts the dense block's output and the experts' are normalised each on its own
/// and added. Each token's experts see the token's own row, normalised; each weighs its share of the
/// probabilities of the token's picks, times its own scale.
pub proof fn law_float_mixture(
    block: FloatMoeBlock,
    dense: Expr,
    residual: Expr,
    dims: Seq<usize>,
    dtype: candle_core::DType,
    picks: Seq<Seq<usize>>,
    at: Seq<int>,
    v: Values,
)
    requires
        moe_is_shaped(block, dims, picks),
        shape_of(residual) == dims,
        shape_of(dense) == dims,
        is_index(at, dims),
    ensures
        ({
            let n = dims[2] as int;
            let mixed = experts_row(
                block,
                picks[at[0] * dims[1] + at[1]],
                n,
                line(residual, at, v),
                v,
            );
            entry(block.of(dense, dims, residual, dims, dtype, picks), at, v) == float_normed(
                block.post_feedforward_layernorm_1,
                line(dense, at, v),
                n,
                v,
            )(at[2]) + float_normed(block.post_feedforward_layernorm_2, mixed, n, v)(at[2])
        }),
{
    let n = dims[2] as int;
    let flat_dims = seq![(dims[0] * dims[1]) as usize, dims[2]];
    let flat = tensor::reshaped(residual, flat_dims);
    let probs = block.probs_of(residual, dims, dtype);
    let routes = routing::weighted(picks, probs, block.router.scales());
    let all = block.experts.of(
        block.pre_feedforward_layernorm_2.of(flat, flat_dims, dtype),
        routes,
        dtype,
    );
    let seen = tensor::reshaped(all, dims);
    let mixed = experts_row(
        block,
        picks[at[0] * dims[1] + at[1]],
        n,
        line(residual, at, v),
        v,
    );
    let l = line(seen, at, v);
    assert forall|k: int| 0 <= k < n implies #[trigger] l(k) == mixed(k) by {
        lemma_still_index(at, dims, k);
        meaning::lemma_line(residual, at, k, v);
        lemma_float_mixture(block, residual, dims, dtype, picks, along(at, k), v);
    }
    assert(shape_of(seen) == dims);
    law_float_norms(block.post_feedforward_layernorm_1, dense, dims, dtype, at, v);
    law_float_norms(block.post_feedforward_layernorm_2, seen, dims, dtype, at, v);
    assert(0 <= at[2] < dims[2]);
    formulas::lemma_normed(
        l,
        mixed,
        n,
        number(block.post_feedforward_layernorm_2.eps.expr(), v),
        row(block.post_feedforward_layernorm_2.weight.expr(), v),
        v,
        at[2],
    );
}

/// The row of head `h` of a projection of a hidden row.
pub open spec fn head_row(
    p: Projection,
    x: spec_fn(int) -> real,
    n: int,
    h: int,
    head_dim: int,
    v: Values,
) -> spec_fn(int) -> real {
    slice(projected_row(p, n, x, v), h, head_dim)
}

/// The heads of a projection.
proof fn lemma_head_rows(
    attn: Attention,
    p: Projection,
    x: Expr,
    heads: usize,
    at: Seq<int>,
    v: Values,
)
    requires
        shape_of(x).len() == 3,
        heads * attn.head_dim <= usize::MAX,
        shape_of(p.weight())[0] == heads * attn.head_dim,
        is_index(at, seq![shape_of(x)[0], heads, shape_of(x)[1], attn.head_dim]),
    ensures
        ({
            let y = attn.heads(p.of(x), shape_of(x), heads);
            let own = head_row(
                p,
                line(x, seq![at[0], at[2], 0], v),
                shape_of(x)[2] as int,
                at[1],
                attn.head_dim as int,
                v,
            );
            &&& shape_of(y) == seq![shape_of(x)[0], heads, shape_of(x)[1], attn.head_dim]
            &&& forall|k: int|
                0 <= k < attn.head_dim ==> #[trigger] line(y, at, v)(k) == own(k)
        }),
{
    let dims = shape_of(x);
    let product = p.of(x);
    let y = attn.heads(product, dims, heads);
    let base = seq![at[0], at[2], 0];
    law_float_products(p, x, base, v);
    assert(shape_of(product) =~= seq![dims[0], dims[1], (heads * attn.head_dim) as usize]);
    let own = head_row(p, line(x, base, v), dims[2] as int, at[1], attn.head_dim as int, v);
    let shape = seq![dims[0], heads, dims[1], attn.head_dim];
    law_heads_are_runs(product, dims[0], dims[1], heads, attn.head_dim, at, v);
    assert forall|k: int| 0 <= k < attn.head_dim implies #[trigger] line(y, at, v)(k) == own(k) by {
        lemma_still_index(at, shape, k);
        law_heads_are_runs(product, dims[0], dims[1], heads, attn.head_dim, along(at, k), v);
    }
}

/// A head of a projection at a position, normalised over the head and turned by the angles of the
/// absolute position: so are queries and keys made.
pub proof fn law_float_heads_are_turned(
    attn: Attention,
    norm: FloatNorm,
    p: Projection,
    x: Expr,
    heads: usize,
    offset: nat,
    dtype: candle_core::DType,
    at: Seq<int>,
    v: Values,
)
    requires
        shape_of(x).len() == 3,
        heads * attn.head_dim <= usize::MAX,
        shape_of(p.weight())[0] == heads * attn.head_dim,
        shape_of(norm.weight.expr()) == seq![attn.head_dim],
        is_index(at, seq![shape_of(x)[0], heads, shape_of(x)[1], attn.head_dim]),
    ensures
        ({
            let n = attn.head_dim as int;
            let out = attn.rotated(&norm, p.of(x), shape_of(x), heads, offset, dtype);
            &&& shape_of(out) == seq![shape_of(x)[0], heads, shape_of(x)[1], attn.head_dim]
            &&& entry(out, at, v) == turned(
                float_normed(
                    norm,
                    head_row(
                        p,
                        line(x, seq![at[0], at[2], 0], v),
                        shape_of(x)[2] as int,
                        at[1],
                        n,
                        v,
                    ),
                    n,
                    v,
                ),
                n / 2,
                cos_at(attn.rotary, offset + at[2], v),
                sin_at(attn.rotary, offset + at[2], v),
            )(at[3])
        }),
{
    let dims = shape_of(x);
    let n = attn.head_dim as int;
    let shape = seq![dims[0], heads, dims[1], attn.head_dim];
    let y = attn.heads(p.of(x), dims, heads);
    let own = head_row(p, line(x, seq![at[0], at[2], 0], v), dims[2] as int, at[1], n, v);
    lemma_head_rows(attn, p, x, heads, at, v);
    let b = norm.of(y, shape, dtype);
    let c = tensor::unary(UnaryOp::Contiguous, b);
    lemma_norm_line(norm, y, shape, dtype, at, v);
    assert(shape_of(c) == shape_of(b));
    lemma_contiguous_line(b, at, v);
    let l = line(y, at, v);
    let (f, g) = (line(b, at, v), float_normed(norm, own, n, v));
    assert forall|k: int| 0 <= k < n implies #[trigger] f(k) == g(k) by {
        formulas::lemma_normed(
            l,
            own,
            n,
            number(norm.eps.expr(), v),
            row(norm.weight.expr(), v),
            v,
            k,
        );
    }
    let rows = attn.q_dims(dims)[2] as nat;
    law_turns_are_absolute(attn.rotary, c, offset, rows, at, v);
    assert(0 <= at[3] < shape[3]);
    formulas::lemma_turned(
        f,
        g,
        n,
        cos_at(attn.rotary, offset + at[2], v),
        sin_at(attn.rotary, offset + at[2], v),
        at[3],
    );
    let (cos, sin) = attn.rotary.rows(offset, rows);
    assert(shape_of(tensor::roped(c, cos, sin)) == shape_of(c));
}

/// A key is made as a query is, with the weights for keys; the value is the head's part of the
/// projected hidden row, normalised and not turned. A layer without a projection for values takes that
/// for keys.
pub proof fn law_float_keys_and_values(
    attn: Attention,
    x: Expr,
    offset: nat,
    dtype: candle_core::DType,
    at: Seq<int>,
    v: Values,
)
    requires
        attn.kv is Computed,
        shape_of(x).len() == 3,
        attn.kv->num_kv_heads * attn.head_dim <= usize::MAX,
        shape_of(attn.kv->k_proj.weight())[0] == attn.kv->num_kv_heads * attn.head_dim,
        attn.kv->v_proj matches Some(p) ==> shape_of(p.weight())[0] == attn.kv->num_kv_heads
            * attn.head_dim,
        shape_of(attn.kv->k_norm.weight.expr()) == seq![attn.head_dim],
        is_index(at, seq![shape_of(x)[0], attn.kv->num_kv_heads, shape_of(x)[1], attn.head_dim]),
    ensures
        ({
            let new = attn.new_kv(x, shape_of(x), offset, dtype);
            let n = attn.head_dim as int;
            let hidden = line(x, seq![at[0], at[2], 0], v);
            let v_proj = match attn.kv->v_proj {
                Some(p) => p,
                None => attn.kv->k_proj,
            };
            &&& entry(new.k, at, v) == turned(
                float_normed(
                    attn.kv->k_norm,
                    head_row(attn.kv->k_proj, hidden, shape_of(x)[2] as int, at[1], n, v),
                    n,
                    v,
                ),
                n / 2,
                cos_at(attn.rotary, offset + at[2], v),
                sin_at(attn.rotary, offset + at[2], v),
            )(at[3])
            &&& entry(new.v, at, v) == meaning::normalised(
                head_row(v_proj, hidden, shape_of(x)[2] as int, at[1], n, v),
                n,
                number(attn.kv->rms_norm_eps.expr(), v),
                v,
            )(at[3])
        }),
{
    let dims = shape_of(x);
    let n = attn.head_dim as int;
    let heads = attn.kv->num_kv_heads;
    let shape = seq![dims[0], heads, dims[1], attn.head_dim];
    assert(0 <= at[3] < shape[3]);
    law_float_heads_are_turned(
        attn,
        attn.kv->k_norm,
        attn.kv->k_proj,
        x,
        heads,
        offset,
        dtype,
        at,
        v,
    );
    let v_proj = match attn.kv->v_proj {
        Some(p) => p,
        None => attn.kv->k_proj,
    };
    lemma_head_rows(attn, v_proj, x, heads, at, v);
    let y = attn.heads(v_proj.of(x), dims, heads);
    let eps = attn.kv->rms_norm_eps.expr();
    attention::law_values_are_normalised(y, eps, dtype, at, v);
    let own = head_row(v_proj, line(x, seq![at[0], at[2], 0], v), dims[2] as int, at[1], n, v);
    formulas::lemma_normed(line(y, at, v), own, n, number(eps, v), own, v, at[3]);
    assert(attn.new_kv(x, dims, offset, dtype).v == attention::v_norm_expr(y, eps, dtype));
}

/// The output of attention for a position is the projection of what the position's heads attend, one
/// behind the other: of the keys and values that the layer's cache gives with the new ones, or of
/// those that were put aside.
pub proof fn law_float_attention(
    attn: Attention,
    x: Expr,
    dtype: candle_core::DType,
    mask: Option<Expr>,
    offset: nat,
    cache: LayerCache,
    shared: SharedView,
    q: Expr,
    kv: KvView,
    at: Seq<int>,
    v: Values,
)
    requires
        shape_of(x).len() == 3,
        attn.head_dim > 0,
        attn.num_heads * attn.head_dim <= usize::MAX,
        q == attn.rotated(
            &attn.q_norm,
            attn.q_proj.of(x),
            shape_of(x),
            attn.num_heads,
            offset,
            dtype,
        ),
        attn.kv is Computed ==> kv == cache.attended(attn.new_kv(x, shape_of(x), offset, dtype)),
        attn.kv is Shared ==> kv == shared.get(!attn.is_sliding)->Some_0,
        attention::attend_alike(q, kv, attn.num_kv_groups, mask),
        shape_of(q) == seq![shape_of(x)[0], attn.num_heads, shape_of(x)[1], attn.head_dim],
        at.len() == 3,
        0 <= at[0] < shape_of(x)[0],
        0 <= at[1] < shape_of(x)[1],
    ensures
        entry(attn.attn(x, shape_of(x), dtype, mask, offset, cache, shared).out, at, v)
            == projected_row(
            attn.o_proj,
            attn.num_heads * attn.head_dim,
            heads_joined(
                q,
                kv,
                attn.num_kv_groups,
                attn.head_dim as int,
                mask,
                at[0],
                at[1],
                v,
            ),
            v,
        )(at[2]),
{
    let dims = shape_of(x);
    let n_rep = attn.num_kv_groups;
    let width = (attn.num_heads * attn.head_dim) as usize;
    let seen = attention::attend_expr(q, kv, n_rep, mask, dtype);
    let flat = seq![dims[0], dims[1], width];
    let joined = tensor::reshaped(tensor::transposed(seen, 1, 2), flat);
    assert(attn.attn(x, dims, dtype, mask, offset, cache, shared).out == attn.o_proj.of(joined));
    law_float_products(attn.o_proj, joined, at, v);
    let (f, g) = (
        line(joined, at, v),
        heads_joined(q, kv, n_rep, attn.head_dim as int, mask, at[0], at[1], v),
    );
    assert(shape_of(joined) == flat);
    assert forall|e: int| 0 <= e < width implies #[trigger] f(e) == g(e) by {
        let there = along(at, e);
        assert(there =~= seq![at[0], at[1], e]);
        lemma_head_of(e, attn.num_heads as int, attn.head_dim as int);
        let spot = seq![at[0], e / attn.head_dim as int, at[1], e % attn.head_dim as int];
        assert(is_index(spot, shape_of(q)));
        attention::law_attention_is_a_weighted_sum(q, kv, n_rep, mask, dtype, spot, v);
        law_heads_are_joined(seen, dims[0], dims[1], attn.num_heads, attn.head_dim, there, v);
    }
    formulas::lemma_apply(matrix(attn.o_proj.weight(), v), width as int, f, g);
}

} // verus!
