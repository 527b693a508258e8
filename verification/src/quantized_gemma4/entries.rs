//! What a pass over packed weights computes, entry by entry.

use super::layer::{KvSource, LayerWeights, PerLayerInput};
use super::moe::{self, Experts, Mlp, MoeBlock, Router};
use super::Weights;
use crate::attention::{self, KvView, SharedView};
use crate::formulas::{
    self, apply, capped, chances, expert_row, fed, gated, layer_input, matrix, mixed_in,
    packed_matrix, packed_normed, plus, row, slice, suits, times, turned, weight_of,
};
use crate::heads::{
    cos_at, heads_joined, law_heads_are_joined, law_heads_are_runs, law_turns_are_absolute,
    lemma_contiguous_line, lemma_head_of, lemma_inverse_root, lemma_recip_root, lemma_slice,
    lemma_sum_line, sin_at,
};
use crate::meaning::{self, along, entry, is_index, line, number, shape_of, total, Values};
use crate::routing;
use crate::tensor::packed::{self, Norm};
use crate::tensor::{self, BinaryOp, Expr, NumberExpr, NumberOp, UnaryOp};
use vstd::prelude::*;

verus! {

/// A product with a packed matrix, row by row.
pub proof fn law_packed_products(
    w: candle_core::quantized::QTensor,
    x: Expr,
    at: Seq<int>,
    v: Values,
)
    requires
        at.len() > 0,
    ensures
        line(packed::packed_product(w, x), at, v) == apply(
            packed_matrix(w, v),
            shape_of(x).last() as int,
            line(x, at, v),
        ),
        entry(packed::packed_product(w, x), at, v) == apply(
            packed_matrix(w, v),
            shape_of(x).last() as int,
            line(x, at, v),
        )(at.last()),
        shape_of(packed::packed_product(w, x)) == tensor::with_last(
            shape_of(x),
            packed::packed_dims(w)[0],
        ),
{
    let n = shape_of(x).last() as int;
    let m = packed_matrix(w, v);
    let e = packed::packed_product(w, x);
    let (f, g) = (line(e, at, v), apply(m, n, line(x, at, v)));
    meaning::lemma_packed_product(w, x, at, v);
    assert forall|o: int| #[trigger] f(o) == g(o) by {
        let there = along(at, o);
        meaning::lemma_packed_product(w, x, there, v);
        meaning::lemma_line(x, at, o, v);
        let (p, q) = (
            meaning::packed_row(packed::packed_view(w), o, v),
            |k: int| m(o, k),
        );
        let l = line(x, at, v);
        meaning::lemma_dot_alike(n, l, p, l, q);
    }
    assert(f =~= g);
    meaning::lemma_line(e, at, at.last(), v);
}

/// A normalisation with a packed weight, row by row: nothing of another row enters it.
pub proof fn law_packed_norms(norm: Norm, x: Expr, at: Seq<int>, v: Values)
    requires
        at.len() > 0,
    ensures
        line(norm.of(x), at, v) == packed_normed(
            norm,
            line(x, at, v),
            shape_of(x).last() as int,
            v,
        ),
        entry(norm.of(x), at, v) == packed_normed(
            norm,
            line(x, at, v),
            shape_of(x).last() as int,
            v,
        )(at.last()),
        shape_of(norm.of(x)) == shape_of(x),
{
    let y = tensor::unary(UnaryOp::Contiguous, x);
    assert(shape_of(y) == shape_of(x));
    let n = shape_of(x).last() as int;
    assert(line(y, at, v) =~= line(x, at, v)) by {
        let (f, g) = (line(y, at, v), line(x, at, v));
        assert forall|k: int| #[trigger] f(k) == g(k) by {}
    }
    let (f, g) = (line(norm.of(x), at, v), packed_normed(norm, line(x, at, v), n, v));
    assert forall|o: int| #[trigger] f(o) == g(o) by {
        let there = along(at, o);
        meaning::lemma_rms_normed(norm.weight(), norm.eps(), y, there, v);
        meaning::lemma_line(y, at, o, v);
    }
    assert(f =~= g);
    meaning::lemma_line(norm.of(x), at, at.last(), v);
}

/// The dense block computes the gated formula on every row.
pub proof fn law_packed_blocks(mlp: Mlp, x: Expr, at: Seq<int>, v: Values)
    requires
        at.len() > 0,
        shape_of(x).len() > 0,
    ensures
        line(mlp.of(x), at, v) == fed(
            v.gelu,
            packed_matrix(mlp.gate.weight(), v),
            packed_matrix(mlp.up.weight(), v),
            packed_matrix(mlp.down.weight(), v),
            shape_of(x).last() as int,
            packed::packed_dims(mlp.gate.weight())[0] as int,
            line(x, at, v),
        ),
        shape_of(mlp.of(x)) == tensor::with_last(
            shape_of(x),
            packed::packed_dims(mlp.down.weight())[0],
        ),
{
    let g = packed::packed_product(mlp.gate.weight(), x);
    let gate = tensor::unary(UnaryOp::Gelu, g);
    let up = packed::packed_product(mlp.up.weight(), x);
    let both = tensor::binary(BinaryOp::Mul, gate, up);
    law_packed_products(mlp.gate.weight(), x, at, v);
    law_packed_products(mlp.up.weight(), x, at, v);
    law_packed_products(mlp.down.weight(), both, at, v);
    assert(shape_of(gate) == shape_of(g));
    assert(shape_of(both) == shape_of(gate));
    let (p, q) = (line(both, at, v), gated(v.gelu, line(g, at, v), line(up, at, v)));
    assert forall|j: int| #[trigger] p(j) == q(j) by {
        assert(entry(both, along(at, j), v) == entry(gate, along(at, j), v) * entry(
            up,
            along(at, j),
            v,
        ));
    }
    assert(p =~= q);
    assert(tensor::with_last(shape_of(both), packed::packed_dims(mlp.down.weight())[0])
        =~= tensor::with_last(shape_of(x), packed::packed_dims(mlp.down.weight())[0]));
}

/// Mixing in the per-layer inputs takes a layer's own slice of them, and adds to the hidden state what
/// becomes of it.
pub proof fn law_packed_mixers(
    mixer: PerLayerInput,
    xs: Expr,
    inputs: Expr,
    i: nat,
    at: Seq<int>,
    v: Values,
)
    requires
        at.len() == 3,
        shape_of(xs).len() == 3,
        packed::packed_dims(mixer.projection.weight())[0] == shape_of(xs).last(),
    ensures
        line(mixer.of(xs, inputs, i), at, v) == mixed_in(
            v.gelu,
            packed_matrix(mixer.input_gate.weight(), v),
            packed_matrix(mixer.projection.weight(), v),
            shape_of(xs).last() as int,
            packed::packed_dims(mixer.input_gate.weight())[0] as int,
            number(mixer.post_norm.eps(), v),
            row(mixer.post_norm.weight(), v),
            line(xs, at, v),
            line(inputs, seq![at[0], at[1], i as int, 0], v),
            v,
        ),
        shape_of(mixer.of(xs, inputs, i)) == shape_of(xs),
{
    let g = packed::packed_product(mixer.input_gate.weight(), xs);
    let gate = tensor::unary(UnaryOp::Gelu, g);
    let own = tensor::selected(inputs, 2, i);
    let both = tensor::binary(BinaryOp::Mul, gate, own);
    let out = packed::packed_product(mixer.projection.weight(), both);
    let whole = seq![at[0], at[1], i as int, 0];
    law_packed_products(mixer.input_gate.weight(), xs, at, v);
    law_packed_products(mixer.projection.weight(), both, at, v);
    law_packed_norms(mixer.post_norm, out, at, v);
    assert(shape_of(gate) == shape_of(g));
    assert(shape_of(both) == shape_of(gate));
    let (p, q) = (line(both, at, v), gated(v.gelu, line(g, at, v), line(inputs, whole, v)));
    assert forall|j: int| #[trigger] p(j) == q(j) by {
        let there = along(at, j);
        assert(there.insert(2, i as int) =~= along(whole, j));
        assert(entry(own, there, v) == entry(inputs, along(whole, j), v));
        assert(entry(both, there, v) == entry(gate, there, v) * entry(own, there, v));
    }
    assert(p =~= q);
    let (f, h) = (
        line(mixer.of(xs, inputs, i), at, v),
        mixed_in(
            v.gelu,
            packed_matrix(mixer.input_gate.weight(), v),
            packed_matrix(mixer.projection.weight(), v),
            shape_of(xs).last() as int,
            packed::packed_dims(mixer.input_gate.weight())[0] as int,
            number(mixer.post_norm.eps(), v),
            row(mixer.post_norm.weight(), v),
            line(xs, at, v),
            line(inputs, whole, v),
            v,
        ),
    );
    let normed = mixer.post_norm.of(out);
    assert forall|d: int| #[trigger] f(d) == h(d) by {
        let there = along(at, d);
        assert(entry(mixer.of(xs, inputs, i), there, v) == entry(xs, there, v) + entry(
            normed,
            there,
            v,
        ));
        assert(line(normed, at, v)(d) == entry(normed, there, v));
    }
    assert(f =~= h);
}

/// The embedding of an identifier is its row of the table, scaled with the root of the number of
/// entries per position.
pub proof fn law_packed_embeddings(w: Weights, ids: Expr, at: Seq<int>, v: Values)
    requires
        at.len() > 0,
    ensures
        entry(w.embedded(ids), at, v) == packed_matrix(w.tok_embeddings.source(), v)(
            (v.row)(entry(ids, at.drop_last(), v)),
            at.last(),
        ) * (v.root)(w.embedding_length as real),
        shape_of(w.embedded(ids)) == shape_of(ids).push(
            packed::packed_dims(w.tok_embeddings.source()).last(),
        ),
{
    let rows = Expr::PackedRows(w.tok_embeddings.source(), Box::new(ids));
    let root = NumberExpr::Sqrt(Box::new(NumberExpr::Int(w.embedding_length as int)));
    assert(number(NumberExpr::Int(w.embedding_length as int), v) == (w.embedding_length
        as int) as real);
    assert(number(root, v) == (v.root)((w.embedding_length as int) as real));
    assert(entry(w.embedded(ids), at, v) == entry(rows, at, v) * number(root, v));
    assert(shape_of(w.embedded(ids)) == shape_of(rows));
}

/// The per-layer input of layer `i` at a position is made of the token's slice of the table, scaled
/// with the root of the slice's own width, and of the layer's slice of the projected hidden state.
/// The number of entries per position enters through that projection alone.
pub proof fn law_packed_layer_inputs(
    w: Weights,
    ids: Expr,
    xs: Expr,
    b_sz: usize,
    seq_len: usize,
    at: Seq<int>,
    v: Values,
)
    requires
        w.ple is Some,
        shape_of(ids) == seq![b_sz, seq_len],
        shape_of(xs).len() == 3,
        shape_of(xs)[0] == b_sz,
        shape_of(xs)[1] == seq_len,
        w.layers@.len() <= usize::MAX,
        w.layers@.len() * w.ple->Some_0.input_dim <= usize::MAX,
        packed::packed_dims(w.ple->Some_0.token_embeddings.source()).last() == w.layers@.len()
            * w.ple->Some_0.input_dim,
        packed::packed_dims(w.ple->Some_0.model_projection.weight())[0] == w.layers@.len()
            * w.ple->Some_0.input_dim,
        is_index(at, seq![b_sz, seq_len, w.layers@.len() as usize, w.ple->Some_0.input_dim]),
    ensures
        ({
            let ple = w.ple->Some_0;
            let width = ple.input_dim as int;
            let table = packed_matrix(ple.token_embeddings.source(), v);
            let token = |d: int| table((v.row)(entry(ids, seq![at[0], at[1]], v)), d);
            let hidden = line(xs, seq![at[0], at[1], 0], v);
            let projected = times(
                apply(
                    packed_matrix(ple.model_projection.weight(), v),
                    shape_of(xs)[2] as int,
                    hidden,
                ),
                1 as real / (v.root)(w.embedding_length as real),
            );
            &&& w.per_layer_inputs(ids, xs, b_sz, seq_len) is Some
            &&& entry(w.per_layer_inputs(ids, xs, b_sz, seq_len)->Some_0, at, v) == layer_input(
                slice(token, at[2], width),
                slice(projected, at[2], width),
                width,
                number(ple.projection_norm.eps(), v),
                row(ple.projection_norm.weight(), v),
                v,
            )(at[3])
        }),
{
    let ple = w.ple->Some_0;
    let layers = w.layers@.len() as usize;
    let width = ple.input_dim;
    let shape = seq![b_sz, seq_len, layers, width];
    let all = (layers * width) as usize;
    let flat = seq![b_sz, seq_len, all];
    let (b, t, i, d) = (at[0], at[1], at[2], at[3]);
    assert(0 <= b < shape[0] && 0 <= t < shape[1] && 0 <= i < shape[2] && 0 <= d < shape[3]);
    // The projected hidden state.
    let product = packed::packed_product(ple.model_projection.weight(), xs);
    let scale = NumberExpr::Recip(
        Box::new(NumberExpr::Sqrt(Box::new(NumberExpr::Int(w.embedding_length as int)))),
    );
    let scaled = tensor::with_number(NumberOp::Mul, product, scale);
    let seen = tensor::reshaped(scaled, shape);
    let normed = ple.projection_norm.of(seen);
    let here = seq![b, t, 0];
    let hidden = line(xs, here, v);
    let plain = apply(
        packed_matrix(ple.model_projection.weight(), v),
        shape_of(xs)[2] as int,
        hidden,
    );
    let factor = 1 as real / (v.root)(w.embedding_length as real);
    let projected = times(plain, factor);
    lemma_recip_root(w.embedding_length as int, v);
    law_packed_products(ple.model_projection.weight(), xs, here, v);
    assert(shape_of(scaled) == shape_of(product));
    assert(shape_of(scaled) =~= flat);
    law_packed_norms(ple.projection_norm, seen, at, v);
    assert(shape_of(seen) == shape);
    let own = slice(projected, i, width as int);
    let l = line(seen, at, v);
    assert forall|k: int| 0 <= k < width implies #[trigger] l(k) == own(k) by {
        lemma_slice(scaled, b_sz, seq_len, layers, width, along(at, k), v);
        let there = seq![b, t, i * width + k];
        assert(along(here, i * width + k) =~= there);
        assert(entry(scaled, there, v) == entry(product, there, v) * number(scale, v));
        assert(line(product, here, v)(i * width + k) == entry(product, there, v));
    }
    formulas::lemma_normed(
        l,
        own,
        width as int,
        number(ple.projection_norm.eps(), v),
        row(ple.projection_norm.weight(), v),
        v,
        d,
    );
    // The token's own slice.
    let rows = Expr::PackedRows(ple.token_embeddings.source(), Box::new(ids));
    let root = NumberExpr::Sqrt(Box::new(NumberExpr::Int(width as int)));
    let widened = tensor::with_number(NumberOp::Mul, rows, root);
    let embedded = tensor::reshaped(widened, shape);
    let table = packed_matrix(ple.token_embeddings.source(), v);
    let token = |d: int| table((v.row)(entry(ids, seq![b, t], v)), d);
    assert(shape_of(rows) =~= flat);
    assert(shape_of(widened) == shape_of(rows));
    lemma_slice(widened, b_sz, seq_len, layers, width, at, v);
    let there = seq![b, t, i * width + d];
    assert(there.drop_last() =~= seq![b, t]);
    assert(number(NumberExpr::Int(width as int), v) == (width as int) as real);
    assert(number(root, v) == (v.root)((width as int) as real));
    assert(entry(widened, there, v) == entry(rows, there, v) * number(root, v));
    assert(entry(rows, there, v) == slice(token, i, width as int)(d));
    // Both together.
    let sum = tensor::binary(BinaryOp::Add, normed, embedded);
    let half = NumberExpr::Recip(Box::new(NumberExpr::Sqrt(Box::new(NumberExpr::Int(2)))));
    lemma_recip_root(2, v);
    let out = tensor::with_number(NumberOp::Mul, sum, half);
    assert(entry(sum, at, v) == entry(normed, at, v) + entry(embedded, at, v));
    assert(entry(out, at, v) == entry(sum, at, v) * number(half, v));
    assert(w.per_layer_inputs(ids, xs, b_sz, seq_len) == Some(out));
}

/// The logits are those of the last position: the scores of its normalised row against the rows of
/// the output matrix, capped where the model has a cap.
pub proof fn law_packed_logits(w: Weights, xs: Expr, seq_len: int, at: Seq<int>, v: Values)
    requires
        seq_len > 0,
        at.len() == 3,
        at[1] == 0,
        shape_of(xs).len() == 3,
    ensures
        ({
            let last = line(xs, seq![at[0], seq_len - 1, 0], v);
            let n = shape_of(xs)[2] as int;
            entry(w.logits(xs, seq_len), at, v) == capped(
                apply(packed_matrix(w.output.weight(), v), n, packed_normed(w.norm, last, n, v))(
                    at[2],
                ),
                match w.final_logit_softcapping {
                    Some(cap) => Some(number(cap.expr(), v)),
                    None => None,
                },
                v,
            )
        }),
{
    let cut = tensor::narrowed(xs, 1, (seq_len - 1) as nat, 1);
    let normed = w.norm.of(cut);
    let scores = packed::packed_product(w.output.weight(), normed);
    let last = seq![at[0], seq_len - 1, 0];
    law_packed_norms(w.norm, cut, at, v);
    law_packed_products(w.output.weight(), normed, at, v);
    assert(shape_of(cut).last() == shape_of(xs)[2]);
    let (f, g) = (line(cut, at, v), line(xs, last, v));
    assert forall|k: int| #[trigger] f(k) == g(k) by {
        let there = along(at, k);
        assert(there.update(1, there[1] + (seq_len - 1) as nat) =~= along(last, k));
        assert(entry(cut, there, v) == entry(xs, along(last, k), v));
    }
    assert(f =~= g);
    if let Some(cap) = w.final_logit_softcapping {
        let over = tensor::with_number(NumberOp::Div, scores, cap.expr());
        let bent = tensor::unary(UnaryOp::Tanh, over);
        assert(entry(over, at, v) == entry(scores, at, v) / number(cap.expr(), v));
        assert(entry(bent, at, v) == (v.tanh)(entry(over, at, v)));
        assert(entry(tensor::with_number(NumberOp::Mul, bent, cap.expr()), at, v) == entry(
            bent,
            at,
            v,
        ) * number(cap.expr(), v));
    }
}

impl LayerWeights {
    /// The row of head `h` of a projection of a hidden row.
    pub open spec fn head_row(
        &self,
        w: candle_core::quantized::QTensor,
        x: spec_fn(int) -> real,
        n: int,
        h: int,
        v: Values,
    ) -> spec_fn(int) -> real {
        slice(apply(packed_matrix(w, v), n, x), h, self.head_dim as int)
    }
}

/// The heads of a projection with a packed matrix.
proof fn lemma_head_rows(
    layer: LayerWeights,
    w: candle_core::quantized::QTensor,
    x: Expr,
    heads: usize,
    at: Seq<int>,
    v: Values,
)
    requires
        shape_of(x).len() == 3,
        heads * layer.head_dim <= usize::MAX,
        packed::packed_dims(w)[0] == heads * layer.head_dim,
        is_index(at, seq![shape_of(x)[0], heads, shape_of(x)[1], layer.head_dim]),
    ensures
        ({
            let y = layer.heads(packed::packed_product(w, x), shape_of(x), heads);
            let own = layer.head_row(
                w,
                line(x, seq![at[0], at[2], 0], v),
                shape_of(x)[2] as int,
                at[1],
                v,
            );
            &&& shape_of(y) == seq![shape_of(x)[0], heads, shape_of(x)[1], layer.head_dim]
            &&& forall|k: int|
                0 <= k < layer.head_dim ==> #[trigger] line(y, at, v)(k) == own(k)
        }),
{
    let dims = shape_of(x);
    let product = packed::packed_product(w, x);
    let y = layer.heads(product, dims, heads);
    let row = seq![at[0], at[2], 0];
    law_packed_products(w, x, row, v);
    assert(shape_of(product) =~= seq![dims[0], dims[1], (heads * layer.head_dim) as usize]);
    let own = layer.head_row(w, line(x, row, v), dims[2] as int, at[1], v);
    let shape = seq![dims[0], heads, dims[1], layer.head_dim];
    law_heads_are_runs(product, dims[0], dims[1], heads, layer.head_dim, at, v);
    assert forall|k: int| 0 <= k < layer.head_dim implies #[trigger] line(y, at, v)(k) == own(k) by {
        let there = along(at, k);
        assert(is_index(there, shape)) by {
            assert forall|i: int| 0 <= i < 4 implies 0 <= #[trigger] there[i] < shape[i] by {
                assert(0 <= at[i] < shape[i]);
            }
        }
        law_heads_are_runs(product, dims[0], dims[1], heads, layer.head_dim, there, v);
    }
}

/// A head of a projection, normalised and turned.
proof fn lemma_rotated(
    layer: LayerWeights,
    norm: Norm,
    w: candle_core::quantized::QTensor,
    x: Expr,
    heads: usize,
    index_pos: nat,
    at: Seq<int>,
    v: Values,
)
    requires
        shape_of(x).len() == 3,
        heads * layer.head_dim <= usize::MAX,
        packed::packed_dims(w)[0] == heads * layer.head_dim,
        is_index(at, seq![shape_of(x)[0], heads, shape_of(x)[1], layer.head_dim]),
    ensures
        ({
            let y = layer.heads(packed::packed_product(w, x), shape_of(x), heads);
            let out = layer.rotated(&norm, y, index_pos, shape_of(x)[1] as nat);
            let n = layer.head_dim as int;
            let own = layer.head_row(
                w,
                line(x, seq![at[0], at[2], 0], v),
                shape_of(x)[2] as int,
                at[1],
                v,
            );
            &&& shape_of(out) == seq![shape_of(x)[0], heads, shape_of(x)[1], layer.head_dim]
            &&& entry(out, at, v) == turned(
                packed_normed(norm, own, n, v),
                n / 2,
                cos_at(layer.rotary, index_pos + at[2], v),
                sin_at(layer.rotary, index_pos + at[2], v),
            )(at[3])
        }),
{
    let dims = shape_of(x);
    let shape = seq![dims[0], heads, dims[1], layer.head_dim];
    let y = layer.heads(packed::packed_product(w, x), dims, heads);
    let n = layer.head_dim as int;
    let own = layer.head_row(w, line(x, seq![at[0], at[2], 0], v), dims[2] as int, at[1], v);
    lemma_head_rows(layer, w, x, heads, at, v);
    let a = tensor::unary(UnaryOp::Contiguous, y);
    let b = norm.of(a);
    let c = tensor::unary(UnaryOp::Contiguous, b);
    assert(shape_of(a) == shape_of(y));
    law_packed_norms(norm, a, at, v);
    assert(shape_of(c) == shape_of(b));
    lemma_contiguous_line(y, at, v);
    lemma_contiguous_line(b, at, v);
    let l = line(y, at, v);
    let (p, q) = (packed_normed(norm, l, n, v), packed_normed(norm, own, n, v));
    assert forall|k: int| 0 <= k < n implies #[trigger] p(k) == q(k) by {
        formulas::lemma_normed(
            l,
            own,
            n,
            number(norm.eps(), v),
            row(norm.weight(), v),
            v,
            k,
        );
    }
    law_turns_are_absolute(layer.rotary, c, index_pos, dims[1] as nat, at, v);
    assert(0 <= at[3] < shape[3]);
    formulas::lemma_turned(
        p,
        q,
        n,
        cos_at(layer.rotary, index_pos + at[2], v),
        sin_at(layer.rotary, index_pos + at[2], v),
        at[3],
    );
    let (cos, sin) = layer.rotary.rows(index_pos, dims[1] as nat);
    assert(shape_of(tensor::roped(c, cos, sin)) == shape_of(c));
}

/// The query of a head at a position is the head's part of the projected hidden row of that position,
/// normalised over the head, and turned by the angles of the absolute position.
pub proof fn law_packed_queries(
    layer: LayerWeights,
    x: Expr,
    index_pos: nat,
    at: Seq<int>,
    v: Values,
)
    requires
        shape_of(x).len() == 3,
        layer.n_head * layer.head_dim <= usize::MAX,
        packed::packed_dims(layer.wq.weight())[0] == layer.n_head * layer.head_dim,
        is_index(at, seq![shape_of(x)[0], layer.n_head, shape_of(x)[1], layer.head_dim]),
    ensures
        shape_of(layer.queries(x, shape_of(x), index_pos)) == seq![
            shape_of(x)[0],
            layer.n_head,
            shape_of(x)[1],
            layer.head_dim,
        ],
        entry(layer.queries(x, shape_of(x), index_pos), at, v) == turned(
            packed_normed(
                layer.q_norm,
                layer.head_row(
                    layer.wq.weight(),
                    line(x, seq![at[0], at[2], 0], v),
                    shape_of(x)[2] as int,
                    at[1],
                    v,
                ),
                layer.head_dim as int,
                v,
            ),
            layer.head_dim as int / 2,
            cos_at(layer.rotary, index_pos + at[2], v),
            sin_at(layer.rotary, index_pos + at[2], v),
        )(at[3]),
{
    lemma_rotated(
        layer,
        layer.q_norm,
        layer.wq.weight(),
        x,
        layer.n_head,
        index_pos,
        at,
        v,
    );
}

/// The key of a head at a position is made as a query is, with the weights for keys; the value is the
/// head's part of the projected hidden row, normalised and not turned. A layer without a projection
/// for values takes that for keys.
pub proof fn law_packed_keys_and_values(
    layer: LayerWeights,
    x: Expr,
    index_pos: nat,
    at: Seq<int>,
    v: Values,
)
    requires
        layer.kv is Compute,
        shape_of(x).len() == 3,
        layer.n_kv_head * layer.head_dim <= usize::MAX,
        packed::packed_dims(layer.kv->wk.weight())[0] == layer.n_kv_head * layer.head_dim,
        layer.kv->wv matches Some(wv) ==> packed::packed_dims(wv.weight())[0] == layer.n_kv_head
            * layer.head_dim,
        is_index(at, seq![shape_of(x)[0], layer.n_kv_head, shape_of(x)[1], layer.head_dim]),
    ensures
        ({
            let new = layer.new_kv(x, shape_of(x), index_pos);
            let n = layer.head_dim as int;
            let hidden = line(x, seq![at[0], at[2], 0], v);
            let wv = match layer.kv->wv {
                Some(wv) => wv.weight(),
                None => layer.kv->wk.weight(),
            };
            &&& entry(new.k, at, v) == turned(
                packed_normed(
                    layer.kv->k_norm,
                    layer.head_row(
                        layer.kv->wk.weight(),
                        hidden,
                        shape_of(x)[2] as int,
                        at[1],
                        v,
                    ),
                    n,
                    v,
                ),
                n / 2,
                cos_at(layer.rotary, index_pos + at[2], v),
                sin_at(layer.rotary, index_pos + at[2], v),
            )(at[3])
            &&& entry(new.v, at, v) == meaning::normalised(
                layer.head_row(wv, hidden, shape_of(x)[2] as int, at[1], v),
                n,
                number(layer.rms_eps.expr(), v),
                v,
            )(at[3])
        }),
{
    let dims = shape_of(x);
    let n = layer.head_dim as int;
    let shape = seq![dims[0], layer.n_kv_head, dims[1], layer.head_dim];
    assert(0 <= at[3] < shape[3]);
    lemma_rotated(
        layer,
        layer.kv->k_norm,
        layer.kv->wk.weight(),
        x,
        layer.n_kv_head,
        index_pos,
        at,
        v,
    );
    let wv = match layer.kv->wv {
        Some(wv) => wv.weight(),
        None => layer.kv->wk.weight(),
    };
    lemma_head_rows(layer, wv, x, layer.n_kv_head, at, v);
    let y = layer.heads(packed::packed_product(wv, x), dims, layer.n_kv_head);
    attention::law_values_are_normalised(
        y,
        layer.rms_eps.expr(),
        candle_core::DType::F32,
        at,
        v,
    );
    let own = layer.head_row(wv, line(x, seq![at[0], at[2], 0], v), dims[2] as int, at[1], v);
    formulas::lemma_normed(
        line(y, at, v),
        own,
        n,
        number(layer.rms_eps.expr(), v),
        own,
        v,
        at[3],
    );
    assert(layer.new_kv(x, dims, index_pos).v == attention::v_norm_expr(
        y,
        layer.rms_eps.expr(),
        candle_core::DType::F32,
    ));
}

/// The keys and values that a layer attends: those that it computes behind those of its cache entry,
/// or those that were put aside.
pub open spec fn attended_kv(
    layer: LayerWeights,
    x: Expr,
    dims: Seq<usize>,
    index_pos: nat,
    slot: Option<KvView>,
    shared: SharedView,
) -> KvView {
    match layer.kv {
        KvSource::Compute { .. } => attention::kv_appended(
            slot,
            layer.new_kv(x, dims, index_pos),
        ),
        KvSource::Shared => shared.get(layer.is_global)->Some_0,
    }
}

/// The output of attention for a position is the product of the output matrix with what the
/// position's heads attend, one behind the other.
pub proof fn law_packed_attention(
    layer: LayerWeights,
    x: Expr,
    mask: Option<Expr>,
    index_pos: nat,
    slot: Option<KvView>,
    shared: SharedView,
    at: Seq<int>,
    v: Values,
)
    requires
        shape_of(x).len() == 3,
        layer.n_kv_head > 0,
        layer.head_dim > 0,
        layer.n_head * layer.head_dim <= usize::MAX,
        packed::packed_dims(layer.wq.weight())[0] == layer.n_head * layer.head_dim,
        attention::attend_alike(
            layer.queries(x, shape_of(x), index_pos),
            attended_kv(layer, x, shape_of(x), index_pos, slot, shared),
            (layer.n_head / layer.n_kv_head) as usize,
            mask,
        ),
        shape_of(layer.queries(x, shape_of(x), index_pos)) == seq![
            shape_of(x)[0],
            layer.n_head,
            shape_of(x)[1],
            layer.head_dim,
        ],
        at.len() == 3,
        0 <= at[0] < shape_of(x)[0],
        0 <= at[1] < shape_of(x)[1],
    ensures
        entry(layer.attn(x, shape_of(x), mask, index_pos, slot, shared).out, at, v) == apply(
            packed_matrix(layer.wo.weight(), v),
            layer.n_head * layer.head_dim,
            heads_joined(
                layer.queries(x, shape_of(x), index_pos),
                attended_kv(layer, x, shape_of(x), index_pos, slot, shared),
                (layer.n_head / layer.n_kv_head) as usize,
                layer.head_dim as int,
                mask,
                at[0],
                at[1],
                v,
            ),
        )(at[2]),
{
    let dims = shape_of(x);
    let q = layer.queries(x, dims, index_pos);
    let kv = attended_kv(layer, x, dims, index_pos, slot, shared);
    let n_rep = (layer.n_head as nat / layer.n_kv_head as nat) as usize;
    let width = (layer.n_head * layer.head_dim) as usize;
    let seen = attention::attend_expr(q, kv, n_rep, mask, candle_core::DType::F32);
    let flat = seq![dims[0], dims[1], width];
    let joined = tensor::reshaped(tensor::transposed(seen, 1, 2), flat);
    assert(layer.attn(x, dims, mask, index_pos, slot, shared).out == packed::packed_product(
        layer.wo.weight(),
        joined,
    ));
    law_packed_products(layer.wo.weight(), joined, at, v);
    let (f, g) = (
        line(joined, at, v),
        heads_joined(q, kv, n_rep, layer.head_dim as int, mask, at[0], at[1], v),
    );
    assert(shape_of(joined) == flat);
    assert forall|e: int| 0 <= e < width implies #[trigger] f(e) == g(e) by {
        let there = along(at, e);
        assert(there =~= seq![at[0], at[1], e]);
        lemma_head_of(e, layer.n_head as int, layer.head_dim as int);
        let spot = seq![at[0], e / layer.head_dim as int, at[1], e % layer.head_dim as int];
        assert(is_index(spot, shape_of(q)));
        attention::law_attention_is_a_weighted_sum(
            q,
            kv,
            n_rep,
            mask,
            candle_core::DType::F32,
            spot,
            v,
        );
        law_heads_are_joined(seen, dims[0], dims[1], layer.n_head, layer.head_dim, there, v);
    }
    formulas::lemma_apply(packed_matrix(layer.wo.weight(), v), width as int, f, g);
}

/// Attention adds its normalised output to the hidden state that came in, of which it sees the
/// normalised form.
pub proof fn law_packed_attended(
    layer: LayerWeights,
    xs: Expr,
    dims: Seq<usize>,
    mask: Option<Expr>,
    index_pos: nat,
    slot: Option<KvView>,
    shared: SharedView,
    at: Seq<int>,
    v: Values,
)
    requires
        at.len() > 0,
    ensures
        ({
            let seen = layer.input_layernorm.of(xs);
            let out = layer.attn(seen, dims, mask, index_pos, slot, shared).out;
            line(layer.attended(xs, dims, mask, index_pos, slot, shared), at, v) == plus(
                packed_normed(
                    layer.post_attention_layernorm,
                    line(out, at, v),
                    shape_of(out).last() as int,
                    v,
                ),
                line(xs, at, v),
            )
        }),
{
    let seen = layer.input_layernorm.of(xs);
    let out = layer.attn(seen, dims, mask, index_pos, slot, shared).out;
    let normed = layer.post_attention_layernorm.of(out);
    law_packed_norms(layer.post_attention_layernorm, out, at, v);
    lemma_sum_line(normed, xs, at, v);
}

/// The feed-forward part adds to what comes in the normalised output of the dense block, which sees
/// the normalised form of it; in a layer with experts, of the dense block and the experts together.
pub proof fn law_packed_feed_forward(
    layer: LayerWeights,
    residual: Expr,
    model_dims: Seq<usize>,
    picks: Seq<Seq<usize>>,
    at: Seq<int>,
    v: Values,
)
    requires
        at.len() > 0,
        shape_of(residual).len() > 0,
        packed::packed_dims(layer.mlp.down.weight())[0] == shape_of(residual).last(),
    ensures
        ({
            let n = shape_of(residual).last() as int;
            let dense = fed(
                v.gelu,
                packed_matrix(layer.mlp.gate.weight(), v),
                packed_matrix(layer.mlp.up.weight(), v),
                packed_matrix(layer.mlp.down.weight(), v),
                n,
                packed::packed_dims(layer.mlp.gate.weight())[0] as int,
                packed_normed(layer.pre_feedforward_layernorm, line(residual, at, v), n, v),
            );
            let record = layer.mlp.of(layer.pre_feedforward_layernorm.of(residual));
            let combined = match layer.moe {
                None => dense,
                Some(moe) => line(moe.of(record, residual, model_dims, picks), at, v),
            };
            &&& line(record, at, v) == dense
            &&& shape_of(record) == shape_of(residual)
            &&& shape_of(layer.fed_forward(residual, model_dims, picks)) == shape_of(residual)
            &&& line(layer.fed_forward(residual, model_dims, picks), at, v) == plus(
                line(residual, at, v),
                packed_normed(layer.post_feedforward_layernorm, combined, n, v),
            )
        }),
{
    let seen = layer.pre_feedforward_layernorm.of(residual);
    let record = layer.mlp.of(seen);
    law_packed_norms(layer.pre_feedforward_layernorm, residual, at, v);
    law_packed_blocks(layer.mlp, seen, at, v);
    assert(shape_of(record) =~= shape_of(residual));
    let whole = match layer.moe {
        None => record,
        Some(moe) => moe.of(record, residual, model_dims, picks),
    };
    if let Some(moe) = layer.moe {
        law_packed_norms(moe.post_ffw_norm_1, record, at, v);
        assert(shape_of(whole) == shape_of(moe.post_ffw_norm_1.of(record)));
    }
    let normed = layer.post_feedforward_layernorm.of(whole);
    law_packed_norms(layer.post_feedforward_layernorm, whole, at, v);
    lemma_sum_line(residual, normed, at, v);
    assert(layer.fed_forward(residual, model_dims, picks) == tensor::binary(
        BinaryOp::Add,
        residual,
        normed,
    ));
}

/// A layer ends with its per-layer input mixed in, where the model has them, and with its own scale on
/// every entry.
pub proof fn law_packed_steps(
    layer: LayerWeights,
    i: nat,
    xs: Expr,
    dims: Seq<usize>,
    mask: Option<Expr>,
    index_pos: nat,
    slot: Option<KvView>,
    shared: SharedView,
    inputs: Option<Expr>,
    model_dims: Seq<usize>,
    picks: Seq<Seq<usize>>,
    at: Seq<int>,
    v: Values,
)
    requires
        shape_of(layer.layer_scalar.expr()) == seq![1usize],
        shape_of(
            layer.fed_forward(
                layer.attended(xs, dims, mask, index_pos, slot, shared),
                model_dims,
                picks,
            ),
        ).len() == 3,
        is_index(
            at,
            shape_of(
                layer.fed_forward(
                    layer.attended(xs, dims, mask, index_pos, slot, shared),
                    model_dims,
                    picks,
                ),
            ),
        ),
        layer.per_layer matches Some(mixer) ==> packed::packed_dims(
            mixer.projection.weight(),
        )[0] == shape_of(
            layer.fed_forward(
                layer.attended(xs, dims, mask, index_pos, slot, shared),
                model_dims,
                picks,
            ),
        ).last(),
    ensures
        ({
            let fed = layer.fed_forward(
                layer.attended(xs, dims, mask, index_pos, slot, shared),
                model_dims,
                picks,
            );
            let step = layer.step(
                i,
                xs,
                dims,
                mask,
                index_pos,
                slot,
                shared,
                inputs,
                model_dims,
                picks,
            );
            let mixed = match layer.per_layer {
                Some(mixer) => mixed_in(
                    v.gelu,
                    packed_matrix(mixer.input_gate.weight(), v),
                    packed_matrix(mixer.projection.weight(), v),
                    shape_of(fed).last() as int,
                    packed::packed_dims(mixer.input_gate.weight())[0] as int,
                    number(mixer.post_norm.eps(), v),
                    row(mixer.post_norm.weight(), v),
                    line(fed, at, v),
                    line(inputs->Some_0, seq![at[0], at[1], i as int, 0], v),
                    v,
                ),
                None => line(fed, at, v),
            };
            entry(step.xs, at, v) == mixed(at[2]) * entry(layer.layer_scalar.expr(), seq![0], v)
        }),
{
    let fed = layer.fed_forward(
        layer.attended(xs, dims, mask, index_pos, slot, shared),
        model_dims,
        picks,
    );
    let scalar = layer.layer_scalar.expr();
    let mixed = match layer.per_layer {
        Some(mixer) => mixer.of(fed, inputs->Some_0, i),
        None => fed,
    };
    if let Some(mixer) = layer.per_layer {
        law_packed_mixers(mixer, fed, inputs->Some_0, i, at, v);
    }
    assert(shape_of(mixed) == shape_of(fed));
    let out = tensor::binary(BinaryOp::BroadcastMul, mixed, scalar);
    meaning::lemma_clipped_whole(at, shape_of(mixed));
    assert(meaning::clipped(at, shape_of(scalar)) =~= seq![0int]);
    assert(entry(out, at, v) == entry(mixed, at, v) * entry(scalar, seq![0], v));
    meaning::lemma_line(mixed, at, at[2], v);
}

/// The probability of an expert for a token goes by how well it suits the token's row, among all
/// experts.
pub proof fn law_packed_router(
    router: Router,
    x: Expr,
    dtype: candle_core::DType,
    at: Seq<int>,
    v: Values,
)
    requires
        shape_of(x).len() == 2,
        shape_of(router.proj.expr()).len() == 2,
        shape_of(router.proj.expr())[1] == shape_of(x)[1],
        shape_of(router.scale.expr()) == seq![shape_of(x)[1]],
        is_index(at, seq![shape_of(x)[0], shape_of(router.proj.expr())[0]]),
        shape_of(x)[1] > 0,
    ensures
        shape_of(router.probs_of(x, dtype)) == seq![
            shape_of(x)[0],
            shape_of(router.proj.expr())[0],
        ],
        entry(router.probs_of(x, dtype), at, v) == chances(
            suits(
                matrix(router.proj.expr(), v),
                row(router.scale.expr(), v),
                shape_of(x)[1] as int,
                router.hidden_size as int,
                number(router.eps.expr(), v),
                line(x, seq![at[0], 0], v),
                v,
            ),
            shape_of(router.proj.expr())[0] as int,
            v,
        )(at[1]),
{
    let dims = shape_of(x);
    let n = dims[1] as int;
    let (proj, scale) = (router.proj.expr(), router.scale.expr());
    let experts = shape_of(proj)[0];
    let normed = attention::v_norm_expr(x, router.eps.expr(), dtype);
    let scaled = tensor::binary(BinaryOp::BroadcastMul, normed, scale);
    let factor = tensor::inverse_root_of(router.hidden_size as int);
    let h = tensor::with_number(NumberOp::Mul, scaled, factor);
    let side = tensor::transposed(proj, 0, 1);
    let scores = tensor::binary(BinaryOp::MatMul, h, side);
    let cast = tensor::cast(scores, candle_core::DType::F32);
    let here = seq![at[0], 0];
    let own = line(x, here, v);
    let eps = number(router.eps.expr(), v);
    let width = router.hidden_size as int;
    lemma_inverse_root(width, v);
    assert(0 <= at[0] < dims[0]);
    attention::lemma_v_norm_shape(x, router.eps.expr(), dtype);
    meaning::lemma_clipped_row(here, dims, dims[1]);
    assert(shape_of(scaled) == dims);
    assert(shape_of(h) == shape_of(scaled));
    assert(shape_of(side) =~= seq![dims[1], experts]);
    assert(shape_of(scores) =~= seq![dims[0], experts]);
    assert(shape_of(cast) == shape_of(scores));
    let x_row = |k: int|
        meaning::normalised(own, n, eps, v)(k) * row(scale, v)(k) * (v.power)(
            width as real,
            (-1int) as real / 2 as real,
        );
    let target = suits(matrix(proj, v), row(scale, v), n, width, eps, own, v);
    assert(target == apply(matrix(proj, v), n, x_row));
    assert forall|e: int| 0 <= e < experts implies entry(scores, along(at, e), v) == #[trigger] target(
        e,
    ) by {
        let there = along(at, e);
        meaning::lemma_sums(h, side, arbitrary(), there, v);
        let terms = meaning::product_terms(h, side, there, v);
        let m = matrix(proj, v);
        let plain = |k: int| x_row(k) * (|k: int| m(e, k))(k);
        assert forall|k: int| 0 <= k < n implies #[trigger] terms(k) == plain(k) by {
            let spot = along(there, k);
            assert(spot =~= seq![at[0], k]);
            assert(is_index(spot, dims));
            attention::law_values_are_normalised(x, router.eps.expr(), dtype, spot, v);
            assert(spot =~= along(here, k));
            meaning::lemma_line(x, here, k, v);
            meaning::lemma_clipped_whole(spot, dims);
            meaning::lemma_clipped_row(spot, dims, dims[1]);
            assert(entry(scaled, spot, v) == entry(normed, spot, v) * entry(scale, seq![k], v));
            assert(entry(h, spot, v) == entry(scaled, spot, v) * number(factor, v));
            let turn = meaning::across(there, k);
            assert(turn =~= seq![k, e]);
            assert(turn.update(0, turn[1]).update(1, turn[0]) =~= seq![e, k]);
            assert(entry(side, turn, v) == entry(proj, seq![e, k], v));
        }
        meaning::lemma_total_alike(n, terms, plain);
        assert(target(e) == meaning::dot(n, x_row, |k: int| m(e, k)));
    }
    meaning::lemma_sums(cast, cast, arbitrary(), at, v);
    let (f, g) = (meaning::exponentials(cast, at, v), |i: int| (v.exp)(target(i)));
    assert forall|e: int| 0 <= e < experts implies #[trigger] f(e) == g(e) by {
        assert(entry(cast, along(at, e), v) == entry(scores, along(at, e), v));
        assert(entry(scores, along(at, e), v) == target(e));
    }
    meaning::lemma_total_alike(experts as int, f, g);
    assert(0 <= at[1] < experts);
    assert(along(at, at[1]) =~= at);
    assert(entry(scores, along(at, at[1]), v) == target(at[1]));
    assert(entry(cast, at, v) == entry(scores, at, v));
}

/// An expert's matrices have two dimensions that fit the rows they see.
pub open spec fn is_shaped(experts: Experts, e: usize, n: usize) -> bool {
    let (both, down) = (experts.gate_up@[e as int].weight(), experts.down@[e as int].weight());
    &&& packed::packed_dims(both).len() == 2
    &&& packed::packed_dims(down)[0] == n
}

/// An expert's term for a token is the expert's block on the token's row, times the expert's weight.
pub proof fn law_packed_terms(
    experts: Experts,
    x: Expr,
    e: usize,
    weight: Expr,
    at: Seq<int>,
    v: Values,
)
    requires
        shape_of(x).len() == 2,
        shape_of(x)[0] == 1,
        is_shaped(experts, e, shape_of(x)[1]),
        shape_of(weight) == routing::single(),
        is_index(at, seq![1, shape_of(x)[1]]),
    ensures
        ({
            let both = experts.gate_up@[e as int].weight();
            shape_of(experts.term(x, e, weight)) == shape_of(x) && entry(
                experts.term(x, e, weight),
                at,
                v,
            ) == expert_row(
                v.gelu,
                packed_matrix(both, v),
                packed_matrix(experts.down@[e as int].weight(), v),
                shape_of(x)[1] as int,
                packed::packed_dims(both)[0] as int / 2,
                line(x, at, v),
            )(at[1]) * entry(weight, seq![0, 0], v)
        }),
{
    let both = experts.gate_up@[e as int].weight();
    let down = experts.down@[e as int].weight();
    let y = packed::packed_product(both, x);
    let i = (packed::packed_rows(both) / 2) as nat;
    let inner = i as int;
    assert(packed::packed_rows(both) == packed::packed_dims(both)[0]);
    let first = tensor::narrowed(y, 1, 0, i);
    let gate = tensor::unary(UnaryOp::Gelu, first);
    let up = tensor::narrowed(y, 1, i, i);
    let product = tensor::binary(BinaryOp::Mul, gate, up);
    let z = packed::packed_product(down, product);
    let weighted = tensor::binary(BinaryOp::BroadcastMul, z, weight);
    let dims = seq![1, shape_of(x)[1]];
    law_packed_products(both, x, at, v);
    law_packed_products(down, product, at, v);
    assert(shape_of(first) == shape_of(y).update(1, i as usize));
    assert(shape_of(gate) == shape_of(first));
    assert(shape_of(product) == shape_of(gate));
    assert(shape_of(product).last() == i);
    assert(shape_of(z) =~= dims);
    assert(shape_of(x) =~= dims);
    let out = apply(packed_matrix(both, v), shape_of(x)[1] as int, line(x, at, v));
    let (f, g) = (
        line(product, at, v),
        gated(v.gelu, slice(out, 0, inner), slice(out, 1, inner)),
    );
    assert forall|j: int| 0 <= j < inner implies #[trigger] f(j) == g(j) by {
        let there = along(at, j);
        assert(there.update(1, there[1] + 0nat) =~= along(at, j));
        assert(there.update(1, there[1] + i) =~= along(at, i + j));
        assert(entry(first, there, v) == entry(y, along(at, j), v));
        assert(entry(up, there, v) == entry(y, along(at, i + j), v));
        assert(entry(product, there, v) == entry(gate, there, v) * entry(up, there, v));
        assert(line(y, at, v)(j) == out(j));
        assert(line(y, at, v)(i + j) == out(i + j));
        assert(0 * inner + j == j);
        assert(1 * inner + j == i + j);
    }
    formulas::lemma_apply(packed_matrix(down, v), inner, f, g);
    assert(0 <= at[0] < dims[0] && 0 <= at[1] < dims[1]);
    meaning::lemma_clipped_whole(at, dims);
    assert(meaning::clipped(at, routing::single()) =~= seq![0int, 0]);
    assert(tensor::broadcast_dims(dims, routing::single()) =~= dims);
    assert(shape_of(weighted) == dims);
    assert(entry(weighted, at, v) == entry(z, at, v) * entry(weight, seq![0, 0], v));
    let term = tensor::with_number(NumberOp::Add, weighted, NumberExpr::Int(0));
    assert(number(NumberExpr::Int(0), v) == 0 as real);
    assert(entry(term, at, v) == entry(weighted, at, v) + 0 as real);
    assert(shape_of(term) == shape_of(weighted));
}

/// What the picks of a token make of its row: every expert's block, weighted and added up.
pub open spec fn picks_mixed(
    experts: Experts,
    picks: Seq<usize>,
    n: int,
    weights: spec_fn(int) -> real,
    x: spec_fn(int) -> real,
    v: Values,
) -> spec_fn(int) -> real {
    |o: int|
        total(
            picks.len() as int,
            |j: int|
                expert_row(
                    v.gelu,
                    packed_matrix(experts.gate_up@[picks[j] as int].weight(), v),
                    packed_matrix(experts.down@[picks[j] as int].weight(), v),
                    n,
                    packed::packed_dims(experts.gate_up@[picks[j] as int].weight())[0] as int / 2,
                    x,
                )(o) * weights(j),
        )
}

/// A token's output is the sum of the weighted outputs of all its picks on the token's own row.
pub proof fn law_packed_tokens(
    experts: Experts,
    xs: Expr,
    n: int,
    picks: Seq<usize>,
    weights: Seq<Expr>,
    at: Seq<int>,
    v: Values,
)
    requires
        shape_of(xs).len() == 2,
        n >= 0,
        picks.len() > 0,
        weights.len() == picks.len(),
        forall|j: int|
            0 <= j < picks.len() ==> is_shaped(experts, #[trigger] picks[j], shape_of(xs)[1]),
        forall|j: int|
            0 <= j < picks.len() ==> shape_of(#[trigger] weights[j]) == routing::single(),
        is_index(at, seq![1, shape_of(xs)[1]]),
    ensures
        ({
            let all = Seq::new(picks.len(), |j: int| (picks[j], weights[j]));
            &&& shape_of(experts.token(xs, n, all)) == seq![1, shape_of(xs)[1]]
            &&& entry(experts.token(xs, n, all), at, v) == picks_mixed(
                experts,
                picks,
                shape_of(xs)[1] as int,
                |j: int| entry(weights[j], seq![0, 0], v),
                line(xs, seq![n, 0], v),
                v,
            )(at[1])
        }),
{
    let all = Seq::new(picks.len(), |j: int| (picks[j], weights[j]));
    let x = tensor::narrowed(xs, 0, n as nat, 1);
    let terms = all.map_values(|p: (usize, Expr)| experts.term(x, p.0, p.1));
    let width = shape_of(xs)[1];
    assert(shape_of(x) =~= seq![1, width]);
    let own = line(xs, seq![n, 0], v);
    let (f, g) = (line(x, at, v), own);
    assert(0 <= at[0] < seq![1, width][0]);
    assert forall|k: int| #[trigger] f(k) == g(k) by {
        let there = along(at, k);
        assert(there.update(0, there[0] + n as nat) =~= along(seq![n, 0], k));
    }
    assert(f =~= g);
    let w = |j: int| entry(weights[j], seq![0, 0], v);
    let plain = |j: int|
        expert_row(
            v.gelu,
            packed_matrix(experts.gate_up@[picks[j] as int].weight(), v),
            packed_matrix(experts.down@[picks[j] as int].weight(), v),
            width as int,
            packed::packed_dims(experts.gate_up@[picks[j] as int].weight())[0] as int / 2,
            own,
        )(at[1]) * w(j);
    let listed = |j: int| entry(terms[j], at, v);
    assert forall|j: int| 0 <= j < picks.len() implies #[trigger] listed(j) == plain(j)
        && shape_of(terms[j]) == seq![1, width] by {
        assert(is_shaped(experts, picks[j], width));
        assert(shape_of(weights[j]) == routing::single());
        law_packed_terms(experts, x, picks[j], weights[j], at, v);
        assert(terms[j] == experts.term(x, picks[j], weights[j]));
    }
    routing::lemma_left_sum(terms, at, v);
    meaning::lemma_total_alike(picks.len() as int, listed, plain);
    assert(listed(0) == plain(0));
    assert(experts.token(xs, n, all) == routing::left_sum(terms));
}

/// A block of experts fits its input.
pub open spec fn moe_is_shaped(block: MoeBlock, dims: Seq<usize>, picks: Seq<Seq<usize>>) -> bool {
    let experts = shape_of(block.router.proj.expr());
    &&& dims.len() == 3
    &&& dims[2] > 0
    &&& dims[0] * dims[1] <= usize::MAX
    &&& experts.len() == 2
    &&& experts[1] == dims[2]
    &&& shape_of(block.router.scale.expr()) == seq![dims[2]]
    &&& shape_of(block.router.per_expert_scale.expr()).len() == 1
    &&& picks.len() == dims[0] * dims[1]
    &&& forall|n: int| 0 <= n < picks.len() ==> (#[trigger] picks[n]).len() > 0
    &&& forall|n: int, j: int|
        0 <= n < picks.len() && 0 <= j < picks[n].len() ==> (#[trigger] picks[n][j]) < experts[0]
            && is_shaped(block.experts, picks[n][j], dims[2])
}

/// The rows of all tokens, in terms of the row of each.
proof fn lemma_packed_mixture(
    block: MoeBlock,
    residual: Expr,
    dims: Seq<usize>,
    picks: Seq<Seq<usize>>,
    at: Seq<int>,
    v: Values,
)
    requires
        moe_is_shaped(block, dims, picks),
        shape_of(residual) == dims,
        is_index(at, dims),
    ensures
        ({
            let flat = moe::flattened(residual, dims);
            let probs = block.probs_of(residual, dims);
            let routes = routing::weighted(picks, probs, block.router.per_expert_scale.expr());
            let mixed = block.experts.of(block.pre_ffw_norm_2.of(flat), routes);
            let n = dims[2] as int;
            let own = line(residual, at, v);
            let chance = chances(
                suits(
                    matrix(block.router.proj.expr(), v),
                    row(block.router.scale.expr(), v),
                    n,
                    block.router.hidden_size as int,
                    number(block.router.eps.expr(), v),
                    own,
                    v,
                ),
                shape_of(block.router.proj.expr())[0] as int,
                v,
            );
            let token = picks[at[0] * dims[1] + at[1]];
            let scale = row(block.router.per_expert_scale.expr(), v);
            &&& shape_of(mixed) == seq![(dims[0] * dims[1]) as usize, dims[2]]
            &&& entry(tensor::reshaped(mixed, dims), at, v) == picks_mixed(
                block.experts,
                token,
                n,
                |j: int| weight_of(chance, scale, token, j),
                packed_normed(block.pre_ffw_norm_2, own, n, v),
                v,
            )(at[2])
        }),
{
    let n = dims[2] as int;
    let tokens = (dims[0] * dims[1]) as usize;
    let flat_dims = seq![tokens, dims[2]];
    let flat = moe::flattened(residual, dims);
    let normed = block.pre_ffw_norm_2.of(flat);
    let probs = block.probs_of(residual, dims);
    let scales = block.router.per_expert_scale.expr();
    let routes = routing::weighted(picks, probs, scales);
    let rows = Seq::new(routes.len(), |m: int| block.experts.token(normed, m, routes[m]));
    let mixed = block.experts.of(normed, routes);
    let own = line(residual, at, v);
    let (b, t, d) = (at[0], at[1], at[2]);
    assert(0 <= b < dims[0] && 0 <= t < dims[1] && 0 <= d < dims[2]);
    let tok = b * dims[1] + t;
    assert(shape_of(flat) == flat_dims);
    routing::lemma_tokens(residual, dims, at, v);
    let base = seq![tok, 0];
    // The token's row, as the experts and the router see it.
    let l = line(flat, base, v);
    assert forall|k: int| 0 <= k < n implies #[trigger] l(k) == own(k) by {
        let there = along(at, k);
        assert(is_index(there, dims)) by {
            assert forall|i: int| 0 <= i < 3 implies 0 <= #[trigger] there[i] < dims[i] by {
                assert(0 <= at[i] < dims[i]);
            }
        }
        routing::lemma_tokens(residual, dims, there, v);
        assert(along(base, k) =~= seq![tok, k]);
    }
    law_packed_norms(block.pre_ffw_norm_2, flat, base, v);
    let (p, q) = (
        packed_normed(block.pre_ffw_norm_2, l, n, v),
        packed_normed(block.pre_ffw_norm_2, own, n, v),
    );
    assert forall|k: int| 0 <= k < n implies #[trigger] p(k) == q(k) by {
        formulas::lemma_normed(
            l,
            own,
            n,
            number(block.pre_ffw_norm_2.eps(), v),
            row(block.pre_ffw_norm_2.weight(), v),
            v,
            k,
        );
    }
    // Every token's row of output has the same shape.
    assert forall|m: int| 0 <= m < rows.len() implies shape_of(#[trigger] rows[m]) == seq![
        1,
        dims[2],
    ] && entry(rows[m], seq![0, d], v) == picks_mixed(
        block.experts,
        picks[m],
        n,
        |j: int| entry(routing::weight_expr(probs, scales, m, picks[m], picks[m][j]), seq![0, 0], v),
        line(normed, seq![m, 0], v),
        v,
    )(d) by {
        lemma_token_row(block, residual, dims, picks, m, d, v);
    }
    assert(is_index(seq![tok, d], flat_dims));
    routing::lemma_rows_below(rows, dims[2], seq![tok, d], v);
    assert(mixed == Expr::Cat(rows, 0));
    routing::lemma_tokens_back(mixed, dims, at, v);
    assert(entry(rows[tok], seq![0, d], v) == entry(tensor::reshaped(mixed, dims), at, v));
    // The weights of the token's picks.
    let token = picks[tok];
    let router = block.router;
    let eps = number(router.eps.expr(), v);
    let width = router.hidden_size as int;
    let proj = matrix(router.proj.expr(), v);
    let fit = row(router.scale.expr(), v);
    let experts = shape_of(router.proj.expr())[0];
    formulas::lemma_suits(proj, fit, n, width, eps, l, own, v);
    let chance = chances(suits(proj, fit, n, width, eps, own, v), experts as int, v);
    let scale = row(scales, v);
    let w = |j: int| entry(routing::weight_expr(probs, scales, tok, token, token[j]), seq![0, 0], v);
    let u = |j: int| weight_of(chance, scale, token, j);
    let (listed, plain) = (
        routing::picked(probs, tok, token, v),
        |i: int| chance(token[i] as int),
    );
    assert forall|i: int| 0 <= i < token.len() implies #[trigger] listed(i) == plain(i) by {
        assert(picks[tok][i] < experts);
        let spot = seq![tok, token[i] as int];
        assert(is_index(spot, seq![tokens, experts]));
        law_packed_router(router, flat, candle_core::DType::F32, spot, v);
        assert(seq![spot[0], 0] =~= base);
    }
    meaning::lemma_total_alike(token.len() as int, listed, plain);
    assert(token.len() > 0);
    assert forall|j: int| 0 <= j < token.len() implies #[trigger] w(j) == u(j) by {
        lemma_probs_shape(block, residual, dims, picks, v);
        routing::law_weights_are_shares(probs, scales, tok, token, j, v);
        assert(listed(j) == plain(j));
    }
    let m = line(normed, base, v);
    assert(m == p);
    lemma_picks_alike(block.experts, token, n, w, u, p, q, d, v);
}

/// The table of probabilities has a row for each token.
proof fn lemma_probs_shape(
    block: MoeBlock,
    residual: Expr,
    dims: Seq<usize>,
    picks: Seq<Seq<usize>>,
    v: Values,
)
    requires
        moe_is_shaped(block, dims, picks),
        shape_of(residual) == dims,
        picks.len() > 0,
    ensures
        shape_of(block.probs_of(residual, dims)).len() == 2,
{
    let flat = moe::flattened(residual, dims);
    let tokens = (dims[0] * dims[1]) as usize;
    assert(shape_of(flat) == seq![tokens, dims[2]]);
    let experts = shape_of(block.router.proj.expr())[0];
    assert(picks[0].len() > 0);
    assert(picks[0][0] < experts);
    let spot = seq![0int, 0];
    assert(is_index(spot, seq![tokens, experts]));
    law_packed_router(block.router, flat, candle_core::DType::F32, spot, v);
}

/// One token's row of output.
proof fn lemma_token_row(
    block: MoeBlock,
    residual: Expr,
    dims: Seq<usize>,
    picks: Seq<Seq<usize>>,
    m: int,
    d: int,
    v: Values,
)
    requires
        moe_is_shaped(block, dims, picks),
        shape_of(residual) == dims,
        0 <= m < picks.len(),
        0 <= d < dims[2],
    ensures
        ({
            let flat = moe::flattened(residual, dims);
            let normed = block.pre_ffw_norm_2.of(flat);
            let probs = block.probs_of(residual, dims);
            let scales = block.router.per_expert_scale.expr();
            let routes = routing::weighted(picks, probs, scales);
            let out = block.experts.token(normed, m, routes[m]);
            &&& shape_of(out) == seq![1, dims[2]]
            &&& entry(out, seq![0, d], v) == picks_mixed(
                block.experts,
                picks[m],
                dims[2] as int,
                |j: int|
                    entry(
                        routing::weight_expr(probs, scales, m, picks[m], picks[m][j]),
                        seq![0, 0],
                        v,
                    ),
                line(normed, seq![m, 0], v),
                v,
            )(d)
        }),
{
    let flat = moe::flattened(residual, dims);
    let normed = block.pre_ffw_norm_2.of(flat);
    let probs = block.probs_of(residual, dims);
    let scales = block.router.per_expert_scale.expr();
    let routes = routing::weighted(picks, probs, scales);
    let at = seq![0, d];
    law_packed_norms(block.pre_ffw_norm_2, flat, at, v);
    assert(shape_of(flat) == seq![(dims[0] * dims[1]) as usize, dims[2]]);
    let token = picks[m];
    assert(token.len() > 0);
    let weights = Seq::new(
        token.len(),
        |j: int| routing::weight_expr(probs, scales, m, token, token[j]),
    );
    lemma_probs_shape(block, residual, dims, picks, v);
    assert forall|j: int| 0 <= j < token.len() implies shape_of(#[trigger] weights[j])
        == routing::single() by {
        routing::law_weights_are_shares(probs, scales, m, token, j, v);
    }
    assert forall|j: int| 0 <= j < token.len() implies is_shaped(
        block.experts,
        #[trigger] token[j],
        dims[2],
    ) by {
        assert(picks[m][j] < shape_of(block.router.proj.expr())[0]);
    }
    let all = Seq::new(token.len(), |j: int| (token[j], weights[j]));
    assert(routes[m] =~= all);
    law_packed_tokens(block.experts, normed, m, token, weights, at, v);
    let (f, g) = (
        |j: int| entry(weights[j], seq![0, 0], v),
        |j: int| entry(routing::weight_expr(probs, scales, m, picks[m], picks[m][j]), seq![0, 0], v),
    );
    let x = line(normed, seq![m, 0], v);
    assert forall|j: int| 0 <= j < token.len() implies #[trigger] f(j) == g(j) by {}
    lemma_picks_alike(block.experts, token, dims[2] as int, f, g, x, x, d, v);
}

/// Picks need no more of weights and of a row than there are.
proof fn lemma_picks_alike(
    experts: Experts,
    picks: Seq<usize>,
    n: int,
    w: spec_fn(int) -> real,
    u: spec_fn(int) -> real,
    x: spec_fn(int) -> real,
    y: spec_fn(int) -> real,
    d: int,
    v: Values,
)
    requires
        forall|j: int| 0 <= j < picks.len() ==> #[trigger] w(j) == u(j),
        forall|k: int| 0 <= k < n ==> #[trigger] x(k) == y(k),
    ensures
        picks_mixed(experts, picks, n, w, x, v)(d) == picks_mixed(experts, picks, n, u, y, v)(d),
{
    let f = |j: int|
        expert_row(
            v.gelu,
            packed_matrix(experts.gate_up@[picks[j] as int].weight(), v),
            packed_matrix(experts.down@[picks[j] as int].weight(), v),
            n,
            packed::packed_dims(experts.gate_up@[picks[j] as int].weight())[0] as int / 2,
            x,
        )(d) * w(j);
    let g = |j: int|
        expert_row(
            v.gelu,
            packed_matrix(experts.gate_up@[picks[j] as int].weight(), v),
            packed_matrix(experts.down@[picks[j] as int].weight(), v),
            n,
            packed::packed_dims(experts.gate_up@[picks[j] as int].weight())[0] as int / 2,
            y,
        )(d) * u(j);
    assert forall|j: int| 0 <= j < picks.len() implies #[trigger] f(j) == g(j) by {
        assert(w(j) == u(j));
        formulas::lemma_expert_row(
            v.gelu,
            packed_matrix(experts.gate_up@[picks[j] as int].weight(), v),
            packed_matrix(experts.down@[picks[j] as int].weight(), v),
            n,
            packed::packed_dims(experts.gate_up@[picks[j] as int].weight())[0] as int / 2,
            x,
            y,
        );
    }
    meaning::lemma_total_alike(picks.len() as int, f, g);
}

/// In a layer with experts the dense block's output and the experts' are normalised each on its own
/// and added. Each token's experts see the token's own row, normalised; each weighs its share of the
/// probabilities of the token's picks, times its own scale.
pub proof fn law_packed_mixture(
    block: MoeBlock,
    dense: Expr,
    residual: Expr,
    dims: Seq<usize>,
    picks: Seq<Seq<usize>>,
    at: Seq<int>,
    v: Values,
)
    requires
        moe_is_shaped(block, dims, picks),
        shape_of(residual) == dims,
        shape_of(dense) == dims,
        is_index(at, dims),
    ensures
        ({
            let n = dims[2] as int;
            let own = line(residual, at, v);
            let chance = chances(
                suits(
                    matrix(block.router.proj.expr(), v),
                    row(block.router.scale.expr(), v),
                    n,
                    block.router.hidden_size as int,
                    number(block.router.eps.expr(), v),
                    own,
                    v,
                ),
                shape_of(block.router.proj.expr())[0] as int,
                v,
            );
            let token = picks[at[0] * dims[1] + at[1]];
            let scale = row(block.router.per_expert_scale.expr(), v);
            let mixed = picks_mixed(
                block.experts,
                token,
                n,
                |j: int| weight_of(chance, scale, token, j),
                packed_normed(block.pre_ffw_norm_2, own, n, v),
                v,
            );
            entry(block.of(dense, residual, dims, picks), at, v) == packed_normed(
                block.post_ffw_norm_1,
                line(dense, at, v),
                n,
                v,
            )(at[2]) + packed_normed(block.post_ffw_norm_2, mixed, n, v)(at[2])
        }),
{
    let n = dims[2] as int;
    let flat = moe::flattened(residual, dims);
    let probs = block.probs_of(residual, dims);
    let routes = routing::weighted(picks, probs, block.router.per_expert_scale.expr());
    let all = block.experts.of(block.pre_ffw_norm_2.of(flat), routes);
    let seen = tensor::reshaped(all, dims);
    let own = line(residual, at, v);
    let chance = chances(
        suits(
            matrix(block.router.proj.expr(), v),
            row(block.router.scale.expr(), v),
            n,
            block.router.hidden_size as int,
            number(block.router.eps.expr(), v),
            own,
            v,
        ),
        shape_of(block.router.proj.expr())[0] as int,
        v,
    );
    let token = picks[at[0] * dims[1] + at[1]];
    let scale = row(block.router.per_expert_scale.expr(), v);
    let mixed = picks_mixed(
        block.experts,
        token,
        n,
        |j: int| weight_of(chance, scale, token, j),
        packed_normed(block.pre_ffw_norm_2, own, n, v),
        v,
    );
    let l = line(seen, at, v);
    assert forall|k: int| 0 <= k < n implies #[trigger] l(k) == mixed(k) by {
        let there = along(at, k);
        assert(is_index(there, dims)) by {
            assert forall|i: int| 0 <= i < 3 implies 0 <= #[trigger] there[i] < dims[i] by {
                assert(0 <= at[i] < dims[i]);
            }
        }
        meaning::lemma_line(residual, at, k, v);
        lemma_packed_mixture(block, residual, dims, picks, there, v);
    }
    assert(shape_of(seen) == dims);
    law_packed_norms(block.post_ffw_norm_1, dense, at, v);
    law_packed_norms(block.post_ffw_norm_2, seen, at, v);
    assert(0 <= at[2] < dims[2]);
    formulas::lemma_normed(
        l,
        mixed,
        n,
        number(block.post_ffw_norm_2.eps(), v),
        row(block.post_ffw_norm_2.weight(), v),
        v,
        at[2],
    );
}

/// What a token's own row of the table adds to the per-layer inputs does not depend on the number of
/// entries per position: two models that differ in nothing else add the same.
pub proof fn law_token_part_ignores_the_hidden_size(
    p: Weights,
    q: Weights,
    ids: Expr,
    xs: Expr,
    b_sz: usize,
    seq_len: usize,
    at: Seq<int>,
    v: Values,
)
    requires
        p.ple is Some,
        q.ple == p.ple,
        q.layers@.len() == p.layers@.len(),
        shape_of(ids) == seq![b_sz, seq_len],
        shape_of(xs).len() == 3,
        shape_of(xs)[0] == b_sz,
        shape_of(xs)[1] == seq_len,
        p.layers@.len() <= usize::MAX,
        p.layers@.len() * p.ple->Some_0.input_dim <= usize::MAX,
        packed::packed_dims(p.ple->Some_0.token_embeddings.source()).last() == p.layers@.len()
            * p.ple->Some_0.input_dim,
        packed::packed_dims(p.ple->Some_0.model_projection.weight())[0] == p.layers@.len()
            * p.ple->Some_0.input_dim,
        is_index(at, seq![b_sz, seq_len, p.layers@.len() as usize, p.ple->Some_0.input_dim]),
    ensures
        ({
            let ple = p.ple->Some_0;
            let hidden = apply(
                packed_matrix(ple.model_projection.weight(), v),
                shape_of(xs)[2] as int,
                line(xs, seq![at[0], at[1], 0], v),
            );
            let part = |n: usize|
                packed_normed(
                    ple.projection_norm,
                    slice(
                        times(hidden, 1 as real / (v.root)(n as real)),
                        at[2],
                        ple.input_dim as int,
                    ),
                    ple.input_dim as int,
                    v,
                )(at[3]) * (1 as real / (v.root)(2 as real));
            entry(p.per_layer_inputs(ids, xs, b_sz, seq_len)->Some_0, at, v) - part(
                p.embedding_length,
            ) == entry(q.per_layer_inputs(ids, xs, b_sz, seq_len)->Some_0, at, v) - part(
                q.embedding_length,
            )
        }),
{
    law_packed_layer_inputs(p, ids, xs, b_sz, seq_len, at, v);
    law_packed_layer_inputs(q, ids, xs, b_sz, seq_len, at, v);
    let ple = p.ple->Some_0;
    let width = ple.input_dim as int;
    let hidden = apply(
        packed_matrix(ple.model_projection.weight(), v),
        shape_of(xs)[2] as int,
        line(xs, seq![at[0], at[1], 0], v),
    );
    let normed = |n: usize|
        packed_normed(
            ple.projection_norm,
            slice(times(hidden, 1 as real / (v.root)(n as real)), at[2], width),
            width,
            v,
        )(at[3]);
    let table = packed_matrix(ple.token_embeddings.source(), v);
    let token = |d: int| table((v.row)(entry(ids, seq![at[0], at[1]], v)), d);
    let t = slice(token, at[2], width)(at[3]) * (v.root)(width as real);
    let h = 1 as real / (v.root)(2 as real);
    let (a, b) = (normed(p.embedding_length), normed(q.embedding_length));
    assert((a + t) * h == a * h + t * h) by (nonlinear_arith);
    assert((b + t) * h == b * h + t * h) by (nonlinear_arith);
}

} // verus!
