//! The Gemma 4 text model over packed weights.
//!
//! Cached keys and values live outside the weights: `ModelWeights::forward` runs a lane of the
//! model's own, `ModelWeights::forward_with_cache` any lane that the caller owns, so one set of
//! weights can serve many sequences.

use crate::attention::{self, KvView, SharedKvStates, SharedView};
use crate::error::ModelError;
use crate::mask;
use crate::tensor::packed::{self, Norm, PackedMatMul, PackedTensor};
use crate::tensor::{self, BinaryOp, Expr, Number, NumberOp, Traced, UnaryOp};
use std::sync::Arc;
use vstd::prelude::*;

pub mod cache;
pub mod entries;
pub mod laws;
pub mod layer;
pub mod config;
pub mod loader;
pub mod loading;
pub mod metadata;
pub mod moe;
pub mod reading;
pub mod shapes;
pub mod wanted;

pub use cache::Gemma4KvCache;
use layer::LayerWeights;

verus! {

/// The model's part of the per-layer inputs: a table of embeddings per token and layer, and a
/// projection of the hidden state.
pub struct PerLayerEmbeddings {
    pub token_embeddings: PackedTensor,
    pub model_projection: PackedMatMul,
    pub projection_norm: Norm,
    pub input_dim: usize,
}

impl PerLayerEmbeddings {
    /// The weights lie in main memory and fit each other, so many layers and so many entries per
    /// position.
    pub open spec fn is_fit(&self, layers: nat, hidden: usize) -> bool {
        let width = layers * self.input_dim;
        let table = self.token_embeddings.source();
        &&& layers > 0
        &&& self.input_dim > 0
        &&& width <= usize::MAX
        &&& packed::is_local_matrix(table, packed::packed_rows(table), width as usize)
        &&& packed::is_local_matrix(self.model_projection.weight(), width as usize, hidden)
        &&& self.projection_norm.fits(self.input_dim)
    }
}

/// The weights of the model.
pub struct Weights {
    pub tok_embeddings: PackedTensor,
    pub ple: Option<PerLayerEmbeddings>,
    pub embedding_length: usize,
    pub sliding_window: usize,
    pub layers: Vec<LayerWeights>,
    pub norm: Norm,
    pub output: PackedMatMul,
    pub final_logit_softcapping: Option<Number>,
}

/// What stays the same over the layers of a pass.
pub ghost struct Pass {
    pub index_pos: nat,
    pub full_mask: Option<Expr>,
    pub sliding_mask: Option<Expr>,
    pub inputs: Option<Expr>,
    pub model_dims: Seq<usize>,
}

/// What the layers of a pass change.
#[verifier::ext_equal]
pub ghost struct PassState {
    pub xs: Expr,
    pub dims: Seq<usize>,
    pub slots: Seq<Option<KvView>>,
    pub shared: SharedView,
}

impl Weights {
    /// The record of the scaled embeddings of identifiers.
    pub open spec fn embedded(&self, ids: Expr) -> Expr {
        tensor::with_number(
            NumberOp::Mul,
            Expr::PackedRows(self.tok_embeddings.source(), Box::new(ids)),
            tensor::sqrt_of(self.embedding_length as int),
        )
    }

    /// The record of the per-layer inputs of a model that has them, of shape
    /// `[batch, positions, layers, input_dim]`.
    pub open spec fn per_layer_inputs(
        &self,
        ids: Expr,
        xs: Expr,
        b_sz: usize,
        seq_len: usize,
    ) -> Option<Expr> {
        match self.ple {
            None => None,
            Some(ple) => {
                let shape = seq![b_sz, seq_len, self.layers@.len() as usize, ple.input_dim];
                let projected = ple.projection_norm.of(
                    tensor::reshaped(
                        tensor::with_number(
                            NumberOp::Mul,
                            packed::packed_product(ple.model_projection.weight(), xs),
                            tensor::recip_sqrt_of(self.embedding_length as int),
                        ),
                        shape,
                    ),
                );
                let embedded = tensor::reshaped(
                    tensor::with_number(
                        NumberOp::Mul,
                        Expr::PackedRows(ple.token_embeddings.source(), Box::new(ids)),
                        tensor::sqrt_of(ple.input_dim as int),
                    ),
                    shape,
                );
                Some(
                    tensor::with_number(
                        NumberOp::Mul,
                        tensor::binary(BinaryOp::Add, projected, embedded),
                        tensor::recip_sqrt_of(2),
                    ),
                )
            },
        }
    }

    /// The mask of a kind of layer: none for a single position.
    pub open spec fn mask_of(
        &self,
        is_global: bool,
        b_sz: usize,
        seq_len: usize,
        index_pos: usize,
        device: candle_core::Device,
    ) -> Option<Expr> {
        let window = if is_global {
            None
        } else {
            Some(self.sliding_window)
        };
        if seq_len > 1 {
            let kv_len = mask::retained(index_pos as int, window) + seq_len;
            Some(
                mask::causal_mask_expr(b_sz, seq_len, index_pos, kv_len as usize, window, device),
            )
        } else {
            None
        }
    }

    /// What stays the same over the layers of a pass on `ids` at `index_pos`.
    pub open spec fn pass(&self, ids: Traced, index_pos: usize) -> Pass {
        let (b_sz, seq_len) = (ids.dims()[0], ids.dims()[1]);
        Pass {
            index_pos: index_pos as nat,
            full_mask: self.mask_of(true, b_sz, seq_len, index_pos, ids.device()),
            sliding_mask: self.mask_of(false, b_sz, seq_len, index_pos, ids.device()),
            inputs: self.per_layer_inputs(
                ids.expr(),
                self.embedded(ids.expr()),
                b_sz,
                seq_len,
            ),
            model_dims: moe::model_dims(b_sz, seq_len, self.embedding_length),
        }
    }

    /// The entries of a lane as a pass at `index_pos` finds them: a pass at position 0 forgets
    /// them.
    pub open spec fn lane_at(&self, index_pos: usize, lane: Seq<Option<KvView>>) -> Seq<
        Option<KvView>,
    > {
        if index_pos == 0 || lane.len() == 0 {
            Seq::new(self.layers@.len(), |i: int| None)
        } else {
            lane
        }
    }

    /// Where a pass begins.
    pub open spec fn start(
        &self,
        ids: Traced,
        index_pos: usize,
        lane: Seq<Option<KvView>>,
    ) -> PassState {
        PassState {
            xs: self.embedded(ids.expr()),
            dims: ids.dims().push(packed::packed_dims(self.tok_embeddings.source()).last()),
            slots: self.lane_at(index_pos, lane),
            shared: SharedView::empty(),
        }
    }

    /// Where a pass is after its first `n` layers, given the experts that each layer picked.
    pub open spec fn run(
        &self,
        n: nat,
        pass: Pass,
        start: PassState,
        picks: Seq<Seq<Seq<usize>>>,
    ) -> PassState
        decreases n,
    {
        if n == 0 {
            start
        } else {
            let i = (n - 1) as nat;
            let before = self.run(i, pass, start, picks);
            let layer = self.layers@[i as int];
            let step = layer.step(
                i,
                before.xs,
                before.dims,
                if layer.is_global {
                    pass.full_mask
                } else {
                    pass.sliding_mask
                },
                pass.index_pos,
                before.slots[i as int],
                before.shared,
                pass.inputs,
                pass.model_dims,
                picks[i as int],
            );
            PassState {
                xs: step.xs,
                dims: step.dims,
                slots: before.slots.update(i as int, step.slot),
                shared: step.shared,
            }
        }
    }

    /// The record of the logits of the last position.
    pub open spec fn logits(&self, xs: Expr, seq_len: int) -> Expr {
        let last = self.norm.of(tensor::narrowed(xs, 1, (seq_len - 1) as nat, 1));
        let logits = packed::packed_product(self.output.weight(), last);
        match self.final_logit_softcapping {
            None => logits,
            Some(cap) => tensor::with_number(
                NumberOp::Mul,
                tensor::unary(
                    UnaryOp::Tanh,
                    tensor::with_number(NumberOp::Div, logits, cap.expr()),
                ),
                cap.expr(),
            ),
        }
    }

    /// The picks of layer `i` are such as the layer makes where a pass reaches it.
    pub open spec fn layer_picks(
        &self,
        i: int,
        pass: Pass,
        start: PassState,
        picks: Seq<Seq<Seq<usize>>>,
    ) -> bool {
        let before = self.run(i as nat, pass, start, picks);
        let layer = self.layers@[i];
        layer.are_picks(
            layer.attended(
                before.xs,
                before.dims,
                if layer.is_global {
                    pass.full_mask
                } else {
                    pass.sliding_mask
                },
                pass.index_pos,
                before.slots[i],
                before.shared,
            ),
            pass.model_dims,
            picks[i],
        )
    }

    /// The picks are such as the layers make in a pass.
    pub open spec fn are_picks(
        &self,
        pass: Pass,
        start: PassState,
        picks: Seq<Seq<Seq<usize>>>,
    ) -> bool {
        &&& picks.len() == self.layers@.len()
        &&& forall|i: int|
            0 <= i < picks.len() ==> #[trigger] self.layer_picks(i, pass, start, picks)
    }

    /// Every layer's scalar is a single entry.
    pub open spec fn has_plain_scalars(&self) -> bool {
        forall|i: int|
            0 <= i < self.layers@.len() ==> (#[trigger] self.layers@[i]).layer_scalar.dims()
                == seq![1usize]
    }

    /// Layer `i` puts keys and values of a kind of layer aside.
    pub open spec fn is_donor(&self, i: int, is_global: bool) -> bool {
        let layer = self.layers@[i];
        layer.kv is Compute && layer.store_shared_kv && layer.is_global == is_global
    }

    /// Layer `i` shares keys and values that no earlier layer puts aside.
    pub open spec fn lacks_donor(&self, i: int) -> bool {
        &&& self.layers@[i].kv is Shared
        &&& forall|j: int|
            0 <= j < i ==> !#[trigger] self.is_donor(j, self.layers@[i].is_global)
    }

    /// Layer `i` cannot be run, whatever comes in: it has no heads for keys and values, no layer
    /// puts aside what it shares, or it and the model differ on per-layer inputs.
    pub open spec fn refuses_layer(&self, i: int) -> bool {
        ||| self.layers@[i].n_kv_head == 0
        ||| self.lacks_donor(i)
        ||| (self.layers@[i].per_layer is Some) != (self.ple is Some)
    }
}

/// Where a pass is does not depend on the picks of layers that are still to come.
proof fn lemma_run_prefix(
    w: Weights,
    n: nat,
    pass: Pass,
    start: PassState,
    picks: Seq<Seq<Seq<usize>>>,
    next: Seq<Seq<usize>>,
)
    requires
        n <= picks.len(),
    ensures
        w.run(n, pass, start, picks.push(next)) == w.run(n, pass, start, picks),
    decreases n,
{
    if n > 0 {
        lemma_run_prefix(w, (n - 1) as nat, pass, start, picks, next);
        assert(picks.push(next)[n - 1] == picks[n - 1]);
    }
}

/// Keys and values of a kind of layer are put aside by the time that a layer is reached exactly
/// where an earlier layer puts them aside.
pub proof fn law_put_aside_by_donors(
    w: Weights,
    n: nat,
    pass: Pass,
    start: PassState,
    picks: Seq<Seq<Seq<usize>>>,
    is_global: bool,
)
    requires
        start.shared.get(is_global) is None,
        n <= w.layers@.len(),
    ensures
        w.run(n, pass, start, picks).shared.get(is_global) is Some <==> exists|j: int|
            0 <= j < n && #[trigger] w.is_donor(j, is_global),
    decreases n,
{
    if n > 0 {
        law_put_aside_by_donors(w, (n - 1) as nat, pass, start, picks, is_global);
        if w.is_donor(n - 1, is_global) {
        } else if exists|j: int| 0 <= j < n && #[trigger] w.is_donor(j, is_global) {
            let j = choose|j: int| 0 <= j < n && #[trigger] w.is_donor(j, is_global);
            assert(j < n - 1);
        }
    }
}

/// Single entries do not change the shape of the hidden state.
proof fn lemma_plain_dims(
    w: Weights,
    n: nat,
    pass: Pass,
    start: PassState,
    picks: Seq<Seq<Seq<usize>>>,
)
    requires
        w.has_plain_scalars(),
        n <= w.layers@.len(),
        start.dims.len() > 0,
    ensures
        w.run(n, pass, start, picks).dims == start.dims,
    decreases n,
{
    if n > 0 {
        lemma_plain_dims(w, (n - 1) as nat, pass, start, picks);
        let scalar = w.layers@[n - 1].layer_scalar.dims();
        assert(scalar == seq![1usize]);
        assert(tensor::broadcast_dims(start.dims, scalar) =~= start.dims);
    }
}

impl Weights {
    /// `usize` cannot count the entries of the per-layer inputs of a model that has them.
    pub open spec fn inputs_too_large(&self, b_sz: usize, seq_len: usize) -> bool {
        self.ple matches Some(ple) && !tensor::countable(
            seq![b_sz, seq_len, self.layers@.len() as usize, ple.input_dim],
        )
    }

    /// `usize` cannot count the entries of a kind of layer's mask, or its bytes.
    pub open spec fn mask_too_large(
        &self,
        is_global: bool,
        b_sz: usize,
        seq_len: usize,
        index_pos: usize,
    ) -> bool {
        let window = if is_global {
            None
        } else {
            Some(self.sliding_window)
        };
        let kv_len = mask::retained(index_pos as int, window) + seq_len;
        seq_len > 1 && (4 * (seq_len * kv_len) > usize::MAX || !tensor::countable(
            seq![b_sz, 1, seq_len, kv_len as usize],
        ))
    }

    /// What a pass can fail with before its first layer.
    pub open spec fn prelude_may_fail_with(
        &self,
        ids: Traced,
        index_pos: usize,
        e: ModelError,
    ) -> bool {
        let (b_sz, seq_len) = (ids.dims()[0], ids.dims()[1]);
        match e {
            ModelError::Candle(_) => true,
            ModelError::ShapeTooLarge => {
                ||| self.inputs_too_large(b_sz, seq_len)
                ||| self.mask_too_large(true, b_sz, seq_len, index_pos)
                ||| self.mask_too_large(false, b_sz, seq_len, index_pos)
            },
            _ => false,
        }
    }

    /// A pass gets as far as layer `n`, and there fails with an error that the layer's weights, the
    /// hidden state's shape and what the layer finds cached and put aside allow.
    pub open spec fn stops_at(
        &self,
        n: int,
        pass: Pass,
        start: PassState,
        picks: Seq<Seq<Seq<usize>>>,
        e: ModelError,
    ) -> bool {
        let before = self.run(n as nat, pass, start, picks);
        &&& 0 <= n < self.layers@.len()
        &&& forall|i: int| 0 <= i < n ==> #[trigger] self.layer_picks(i, pass, start, picks)
        &&& self.layers@[n].may_fail_with(
            n,
            before.dims,
            before.slots[n],
            before.shared,
            self.ple is Some,
            pass.model_dims,
            e,
        )
    }

    /// What a pass that fails in layer `n` leaves of a lane: the entries of earlier layers are moved
    /// on, those of later ones are as they were, and that of layer `n` is one or the other.
    pub open spec fn is_left_at(
        &self,
        n: int,
        pass: Pass,
        start: PassState,
        picks: Seq<Seq<Seq<usize>>>,
        lane: Seq<Option<KvView>>,
    ) -> bool {
        let before = self.run(n as nat, pass, start, picks);
        let layer = self.layers@[n];
        lane == before.slots || lane == before.slots.update(
            n,
            layer.attn(
                layer.input_layernorm.of(before.xs),
                before.dims,
                if layer.is_global {
                    pass.full_mask
                } else {
                    pass.sliding_mask
                },
                pass.index_pos,
                before.slots[n],
                before.shared,
            ).slot,
        )
    }

    /// The shape of the logits of a hidden state of shape `dims`: those of the last position.
    pub open spec fn logits_dims(&self, dims: Seq<usize>) -> Seq<usize> {
        tensor::with_last(dims.update(1, 1), packed::packed_rows(self.output.weight()))
    }

    /// The window of a kind of layer.
    pub open spec fn window_of(&self, is_global: bool) -> Option<usize> {
        if is_global {
            None
        } else {
            Some(self.sliding_window)
        }
    }

    /// The size of the per-layer inputs of a model that has them.
    pub open spec fn input_dim(&self) -> Option<usize> {
        match self.ple {
            Some(ple) => Some(ple.input_dim),
            None => None,
        }
    }

    /// Layer `i` finds what it shares, and it is of the layer's own shape.
    pub open spec fn shares_alike(&self, i: int) -> bool {
        self.layers@[i].kv is Shared ==> !self.lacks_donor(i) && forall|j: int|
            0 <= j < i && #[trigger] self.is_donor(j, self.layers@[i].is_global) ==> {
                &&& self.layers@[j].n_kv_head == self.layers@[i].n_kv_head
                &&& self.layers@[j].head_dim == self.layers@[i].head_dim
            }
    }

    /// The model's weights lie in main memory and fit each other.
    pub open spec fn is_fit(&self) -> bool {
        let hidden = self.embedding_length;
        let table = self.tok_embeddings.source();
        &&& hidden > 0
        &&& packed::is_local_matrix(table, packed::packed_rows(table), hidden)
        &&& packed::packed_rows(self.output.weight()) > 0
        &&& packed::is_local_matrix(
            self.output.weight(),
            packed::packed_rows(self.output.weight()),
            hidden,
        )
        &&& self.norm.fits(hidden)
        &&& self.ple matches Some(ple) ==> ple.is_fit(self.layers@.len(), hidden)
        &&& forall|i: int|
            0 <= i < self.layers@.len() ==> {
                &&& (#[trigger] self.layers@[i]).is_fit(hidden, self.input_dim())
                &&& self.layers@[i].window == self.window_of(self.layers@[i].is_global)
                &&& self.shares_alike(i)
            }
    }

    /// Identifiers in main memory, of which the model's tables hold the rows.
    pub open spec fn has_rows(&self, ids: Traced) -> bool {
        &&& ids.is_local()
        &&& packed::has_rows(packed::packed_dims(self.tok_embeddings.source()), ids)
        &&& self.ple matches Some(ple) ==> packed::has_rows(
            packed::packed_dims(ple.token_embeddings.source()),
            ids,
        )
    }

    /// The entries of a lane that has consumed `pos` positions of a batch, in main memory.
    pub open spec fn slots_fit(
        &self,
        slots: Seq<Option<(Traced, Traced)>>,
        batch: usize,
        pos: int,
    ) -> bool {
        &&& slots.len() == self.layers@.len()
        &&& forall|i: int|
            0 <= i < slots.len() ==> self.layers@[i].slot_fits(#[trigger] slots[i], batch, pos)
    }

    /// The entries of a lane that holds nothing.
    pub open spec fn empty_slots(&self) -> Seq<Option<(Traced, Traced)>> {
        Seq::new(self.layers@.len(), |i: int| None)
    }

    /// The rotary tables cover the positions of a pass, and `usize` can count the entries of
    /// everything that it makes.
    pub open spec fn covers(&self, batch: usize, seq_len: usize, index_pos: usize) -> bool {
        let end = index_pos + seq_len;
        &&& end <= usize::MAX
        &&& !self.inputs_too_large(batch, seq_len)
        &&& !self.mask_too_large(true, batch, seq_len, index_pos)
        &&& !self.mask_too_large(false, batch, seq_len, index_pos)
        &&& batch * seq_len * self.embedding_length <= usize::MAX
        &&& forall|i: int|
            0 <= i < self.layers@.len() ==> {
                let layer = #[trigger] self.layers@[i];
                &&& end <= layer.positions()
                &&& batch * end * layer.n_head * layer.head_dim <= usize::MAX
            }
    }

    /// A pass over identifiers at `index_pos` against these entries of a lane succeeds: everything
    /// lies in main memory and fits.
    pub open spec fn can_pass(
        &self,
        ids: Traced,
        index_pos: usize,
        slots: Seq<Option<(Traced, Traced)>>,
    ) -> bool {
        let dims = ids.dims();
        &&& dims.len() == 2
        &&& tensor::has_entries(dims)
        &&& self.is_fit()
        &&& self.has_rows(ids)
        &&& self.covers(dims[0], dims[1], index_pos)
        &&& self.slots_fit(slots, dims[0], index_pos as int)
    }

    /// The per-layer inputs of a model that has them.
    fn make_per_layer_inputs(&self, x: &Traced, xs: &Traced, b_sz: usize, seq_len: usize) -> (r:
        Result<Option<Traced>, ModelError>)
        requires
            xs.dtype() == candle_core::DType::F32,
        ensures
            r matches Ok(t) ==> layer::inputs_view(t) == self.per_layer_inputs(
                x.expr(),
                xs.expr(),
                b_sz,
                seq_len,
            ),
            r matches Err(e) ==> e is Candle || (e is ShapeTooLarge && self.inputs_too_large(
                b_sz,
                seq_len,
            )),
            self.is_fit() && self.has_rows(*x) && x.dims() == seq![b_sz, seq_len] && moe::is_state(
                *xs,
            ) && xs.dims() == seq![b_sz, seq_len, self.embedding_length] && !self.inputs_too_large(
                b_sz,
                seq_len,
            ) ==> (r matches Ok(t) && match (t, self.ple) {
                (Some(t), Some(ple)) => t.is_ready() && t.dtype() == candle_core::DType::F32
                    && t.dims() == seq![
                    b_sz,
                    seq_len,
                    self.layers@.len() as usize,
                    ple.input_dim,
                ],
                (None, None) => true,
                _ => false,
            }),
    {
        let ghost fits = self.is_fit() && self.has_rows(*x) && x.dims() == seq![b_sz, seq_len]
            && moe::is_state(*xs) && xs.dims() == seq![b_sz, seq_len, self.embedding_length]
            && !self.inputs_too_large(b_sz, seq_len);
        match &self.ple {
            None => Ok(None),
            Some(ple) => {
                let mut shape: Vec<usize> = Vec::new();
                shape.push(b_sz);
                shape.push(seq_len);
                shape.push(self.layers.len());
                shape.push(ple.input_dim);
                assert(shape@ =~= seq![
                    b_sz,
                    seq_len,
                    self.layers@.len() as usize,
                    ple.input_dim,
                ]);
                proof {
                    if fits {
                        let layers = self.layers@.len() as usize;
                        let width = (layers * ple.input_dim) as usize;
                        tensor::lemma_count_3(b_sz, seq_len, width);
                        tensor::lemma_count_4(b_sz, seq_len, layers, ple.input_dim);
                        let (a, b, c, d) = (b_sz, seq_len, layers, ple.input_dim);
                        assert(a * b * (c * d) == a * b * c * d) by (nonlinear_arith);
                        assert(tensor::with_last(xs.dims(), width) =~= seq![b_sz, seq_len, width]);
                        assert(x.dims().push(width) =~= seq![b_sz, seq_len, width]);
                        assert(xs.dims()[0] > 0 && xs.dims()[1] > 0);
                        assert(width > 0) by (nonlinear_arith)
                            requires
                                width == c * d,
                                c > 0,
                                d > 0,
                        ;
                    }
                }
                let projected = ple.model_projection.forward(xs)?;
                let projected = projected.times_number(
                    &Number::recip_sqrt_of(self.embedding_length),
                )?;
                let projected = projected.reshape(&shape)?;
                let projected = ple.projection_norm.forward(&projected)?;
                let embedded = ple.token_embeddings.rows(x)?;
                let embedded = embedded.times_number(&Number::sqrt_of(ple.input_dim))?;
                let embedded = embedded.reshape(&shape)?;
                let both = projected.plus(&embedded)?;
                let inputs = both.times_number(&Number::recip_sqrt_of(2))?;
                Ok(Some(inputs))
            },
        }
    }

    /// A mask that lies in main memory and has the shape that a kind of layer needs, or none.
    pub open spec fn mask_fits(
        &self,
        mask: Option<Traced>,
        is_global: bool,
        b_sz: usize,
        seq_len: usize,
        index_pos: usize,
    ) -> bool {
        let keys = mask::retained(index_pos as int, self.window_of(is_global)) + seq_len;
        mask matches Some(mask) ==> {
            &&& mask.is_local()
            &&& mask.dtype() == candle_core::DType::F32
            &&& mask.dims() == seq![b_sz, 1, seq_len, keys as usize]
        }
    }

    /// The mask of a kind of layer. A single position needs none: no later one exists, and a
    /// sliding layer has kept only what its window admits.
    fn make_mask(
        &self,
        is_global: bool,
        b_sz: usize,
        seq_len: usize,
        index_pos: usize,
        device: &candle_core::Device,
    ) -> (r: Result<Option<Traced>, ModelError>)
        requires
            index_pos + seq_len <= usize::MAX,
        ensures
            r matches Ok(t) ==> layer::inputs_view(t) == self.mask_of(
                is_global,
                b_sz,
                seq_len,
                index_pos,
                *device,
            ),
            r matches Ok(t) ==> attention::made_has_columns(t),
            r matches Err(e) ==> e is Candle || (e is ShapeTooLarge && self.mask_too_large(
                is_global,
                b_sz,
                seq_len,
                index_pos,
            )),
            tensor::is_main_memory(*device) && !self.mask_too_large(
                is_global,
                b_sz,
                seq_len,
                index_pos,
            ) ==> (r matches Ok(t) && self.mask_fits(t, is_global, b_sz, seq_len, index_pos)),
    {
        if seq_len <= 1 {
            return Ok(None);
        }
        let window: Option<usize> = if is_global {
            None
        } else {
            Some(self.sliding_window)
        };
        let cached: usize = match window {
            Some(w) => if w < index_pos {
                w
            } else {
                index_pos
            },
            None => index_pos,
        };
        let kv_len: usize = cached + seq_len;
        let fits: bool = match seq_len.checked_mul(kv_len) {
            Some(entries) => entries <= usize::MAX / 4,
            None => false,
        };
        if !fits {
            return Err(ModelError::ShapeTooLarge);
        }
        Ok(Some(mask::causal_mask(b_sz, seq_len, index_pos, kv_len, window, device)?))
    }

    /// The masks of global and of sliding layers.
    fn masks(&self, b_sz: usize, seq_len: usize, index_pos: usize, device: &candle_core::Device) -> (r:
        Result<(Option<Traced>, Option<Traced>), ModelError>)
        requires
            index_pos + seq_len <= usize::MAX,
        ensures
            r matches Ok(t) ==> layer::inputs_view(t.0) == self.mask_of(
                true,
                b_sz,
                seq_len,
                index_pos,
                *device,
            ) && layer::inputs_view(t.1) == self.mask_of(
                false,
                b_sz,
                seq_len,
                index_pos,
                *device,
            ),
            r matches Ok(t) ==> attention::made_has_columns(t.0)
                && attention::made_has_columns(t.1),
            r matches Err(e) ==> e is Candle || (e is ShapeTooLarge && (self.mask_too_large(
                true,
                b_sz,
                seq_len,
                index_pos,
            ) || self.mask_too_large(false, b_sz, seq_len, index_pos))),
            tensor::is_main_memory(*device) && !self.mask_too_large(true, b_sz, seq_len, index_pos)
                && !self.mask_too_large(false, b_sz, seq_len, index_pos) ==> (r matches Ok(t)
                && self.mask_fits(t.0, true, b_sz, seq_len, index_pos) && self.mask_fits(
                t.1,
                false,
                b_sz,
                seq_len,
                index_pos,
            )),
    {
        let full = self.make_mask(true, b_sz, seq_len, index_pos, device)?;
        let sliding = self.make_mask(false, b_sz, seq_len, index_pos, device)?;
        Ok((full, sliding))
    }

    /// The logits of the last position.
    fn make_logits(&self, xs: &Traced, seq_len: usize) -> (r: Result<Traced, ModelError>)
        requires
            seq_len > 0,
            xs.dtype() == candle_core::DType::F32,
        ensures
            r matches Ok(t) ==> t.expr() == self.logits(xs.expr(), seq_len as int) && t.dims()
                == self.logits_dims(xs.dims()),
            r matches Err(e) ==> e is Candle,
            self.is_fit() && moe::is_state(*xs) && xs.dims().len() == 3 && xs.dims()[1] == seq_len
                && xs.dims()[2] == self.embedding_length ==> r is Ok,
    {
        let last = xs.narrow(1, seq_len - 1, 1)?;
        let last = self.norm.forward(&last)?;
        proof {
            if moe::is_state(*xs) {
                assert(tensor::has_entries(last.dims()));
            }
        }
        let logits = self.output.forward(&last)?;
        match &self.final_logit_softcapping {
            None => Ok(logits),
            Some(cap) => {
                let scaled = logits.over_number(cap)?;
                let bounded = scaled.tanh()?;
                bounded.times_number(cap)
            },
        }
    }

    /// What a pass at `index_pos` refuses before it looks at the lane.
    pub open spec fn refuses_input(&self, ids: Traced, index_pos: usize) -> bool {
        ids.dims().len() != 2 || ids.dims()[1] == 0 || index_pos + ids.dims()[1] > usize::MAX
    }

    /// A lane has been used with a model of another number of layers.
    pub open spec fn refuses_layers(&self, layers: nat) -> bool {
        layers != 0 && layers != self.layers@.len()
    }

    /// A lane is not where a pass at `index_pos` would go on.
    pub open spec fn refuses_position(&self, index_pos: usize, pos: usize) -> bool {
        index_pos != 0 && index_pos != pos
    }

    /// The per-layer inputs of a model that has them, in main memory.
    pub open spec fn inputs_fit(&self, inputs: Option<Traced>, b_sz: usize, seq_len: usize) -> bool {
        match (inputs, self.ple) {
            (Some(inputs), Some(ple)) => inputs.is_local() && inputs.dtype()
                == candle_core::DType::F32 && inputs.dims() == seq![
                b_sz,
                seq_len,
                self.layers@.len() as usize,
                ple.input_dim,
            ],
            (None, None) => true,
            _ => false,
        }
    }

    /// What the first `n` layers put aside for a kind of layer, in main memory: keys and values of
    /// the shape of one of them that puts them aside.
    pub open spec fn aside_fits(
        &self,
        shared: SharedKvStates,
        is_global: bool,
        n: int,
        b_sz: usize,
        seq_len: usize,
        index_pos: usize,
    ) -> bool {
        shared.at(is_global) matches Some(kv) ==> exists|j: int|
            0 <= j < n && #[trigger] self.is_donor(j, is_global) && attention::kv_is(
                kv,
                self.layers@[j].key_dims(
                    b_sz,
                    self.layers@[j].key_count(index_pos as int, seq_len as int),
                ),
                candle_core::DType::F32,
            )
    }

    /// A pass that fits the model and has run `n` of its layers: the hidden state, the masks, the
    /// inputs, the lane's entries and what was put aside lie in main memory and have their shapes.
    #[verifier::opaque]
    spec fn is_under_way(
        &self,
        n: int,
        xs: Traced,
        full_mask: Option<Traced>,
        sliding_mask: Option<Traced>,
        inputs: Option<Traced>,
        slots: Seq<Option<(Traced, Traced)>>,
        shared: SharedKvStates,
        b_sz: usize,
        seq_len: usize,
        index_pos: usize,
    ) -> bool {
        &&& self.is_fit()
        &&& self.covers(b_sz, seq_len, index_pos)
        &&& moe::is_state(xs)
        &&& xs.dims() == seq![b_sz, seq_len, self.embedding_length]
        &&& self.mask_fits(full_mask, true, b_sz, seq_len, index_pos)
        &&& self.mask_fits(sliding_mask, false, b_sz, seq_len, index_pos)
        &&& self.inputs_fit(inputs, b_sz, seq_len)
        &&& slots.len() == self.layers@.len()
        &&& forall|j: int|
            0 <= j < n ==> self.layers@[j].slot_fits(
                #[trigger] slots[j],
                b_sz,
                index_pos + seq_len,
            )
        &&& forall|j: int|
            n <= j < slots.len() ==> self.layers@[j].slot_fits(
                #[trigger] slots[j],
                b_sz,
                index_pos as int,
            )
        &&& self.aside_fits(shared, true, n, b_sz, seq_len, index_pos)
        &&& self.aside_fits(shared, false, n, b_sz, seq_len, index_pos)
    }

    /// Where a pass fits the model, what it gives to layer `i` fits the layer.
    proof fn lemma_layer_can_run(
        &self,
        i: int,
        xs: Traced,
        full_mask: Option<Traced>,
        sliding_mask: Option<Traced>,
        inputs: Option<Traced>,
        slots: Seq<Option<(Traced, Traced)>>,
        shared: SharedKvStates,
        b_sz: usize,
        seq_len: usize,
        index_pos: usize,
    )
        requires
            0 <= i < self.layers@.len() <= usize::MAX,
            self.is_under_way(
                i,
                xs,
                full_mask,
                sliding_mask,
                inputs,
                slots,
                shared,
                b_sz,
                seq_len,
                index_pos,
            ),
            self.layers@[i].kv is Shared ==> (self.lacks_donor(i) <==> shared@.get(
                self.layers@[i].is_global,
            ) is None),
        ensures
            xs.dims() == moe::model_dims(b_sz, seq_len, self.embedding_length),
            ({
                let mask = if self.layers@[i].is_global {
                    full_mask
                } else {
                    sliding_mask
                };
                self.layers@[i].can_run(
                    i,
                    xs,
                    (match mask {
                        Some(mask) => Some(&mask),
                        None => None,
                    }),
                    index_pos,
                    slots[i],
                    shared,
                    inputs,
                )
            }),
    {
        reveal(Weights::is_under_way);
        let layer = self.layers@[i];
        let (b, s, h) = (b_sz, seq_len, self.embedding_length);
        assert(xs.dims()[0] == b && xs.dims()[1] == s && xs.dims()[2] == h);
        assert(layer.is_fit(h, self.input_dim()));
        assert(self.shares_alike(i));
        assert(layer.slot_fits(slots[i], b, index_pos as int));
        assert(self.aside_fits(shared, layer.is_global, i, b, s, index_pos));
        if layer.kv is Shared {
            let kv = shared.at(layer.is_global)->Some_0;
            let j = choose|j: int|
                0 <= j < i && #[trigger] self.is_donor(j, layer.is_global) && attention::kv_is(
                    kv,
                    self.layers@[j].key_dims(
                        b,
                        self.layers@[j].key_count(index_pos as int, s as int),
                    ),
                    candle_core::DType::F32,
                );
            assert(self.layers@[j].window == layer.window);
        }
        layer.lemma_attn_counts(xs.dims(), index_pos, slots[i], shared);
        if layer.moe is Some {
            assert(b > 0 && s > 0 && h > 0);
            let tokens = b * s;
            assert(0 < tokens <= b * s * h && tokens * h == b * s * h) by (nonlinear_arith)
                requires
                    tokens == b * s,
                    b > 0,
                    s > 0,
                    h > 0,
            ;
            tensor::lemma_countable_2(tokens as usize, h);
            tensor::lemma_count_3(b, s, h);
            tensor::lemma_countable(xs.dims());
        }
    }

    /// A layer that leaves a hidden state of the same shape, its entry moved on, and what it puts
    /// aside, takes the pass one layer on.
    proof fn lemma_under_way_goes_on(
        &self,
        i: int,
        xs: Traced,
        next: Traced,
        full_mask: Option<Traced>,
        sliding_mask: Option<Traced>,
        inputs: Option<Traced>,
        slots: Seq<Option<(Traced, Traced)>>,
        slot: Option<(Traced, Traced)>,
        shared: SharedKvStates,
        aside: SharedKvStates,
        b_sz: usize,
        seq_len: usize,
        index_pos: usize,
    )
        requires
            0 <= i < self.layers@.len(),
            self.is_under_way(
                i,
                xs,
                full_mask,
                sliding_mask,
                inputs,
                slots,
                shared,
                b_sz,
                seq_len,
                index_pos,
            ),
            next.is_ready(),
            next.dtype() == candle_core::DType::F32,
            next.dims() == xs.dims(),
            self.layers@[i].slot_fits(slot, b_sz, index_pos + seq_len),
            ({
                let layer = self.layers@[i];
                &&& aside.at(!layer.is_global) == shared.at(!layer.is_global)
                &&& if layer.kv is Compute && layer.store_shared_kv {
                    aside.at(layer.is_global) matches Some(kv) && attention::kv_is(
                        kv,
                        layer.key_dims(b_sz, layer.key_count(index_pos as int, seq_len as int)),
                        candle_core::DType::F32,
                    )
                } else {
                    aside.at(layer.is_global) == shared.at(layer.is_global)
                }
            }),
        ensures
            self.is_under_way(
                i + 1,
                next,
                full_mask,
                sliding_mask,
                inputs,
                slots.update(i, slot),
                aside,
                b_sz,
                seq_len,
                index_pos,
            ),
    {
        reveal(Weights::is_under_way);
        let layer = self.layers@[i];
        let after = slots.update(i, slot);
        assert forall|j: int| 0 <= j < i + 1 implies self.layers@[j].slot_fits(
            #[trigger] after[j],
            b_sz,
            index_pos + seq_len,
        ) by {
            if j < i {
                assert(after[j] == slots[j]);
            }
        }
        assert forall|j: int| i + 1 <= j < after.len() implies self.layers@[j].slot_fits(
            #[trigger] after[j],
            b_sz,
            index_pos as int,
        ) by {
            assert(after[j] == slots[j]);
        }
        assert forall|g: bool| #[trigger] self.aside_fits(aside, g, i + 1, b_sz, seq_len, index_pos) by {
            assert(self.aside_fits(shared, g, i, b_sz, seq_len, index_pos)) by {
                if g {
                    assert(self.aside_fits(shared, true, i, b_sz, seq_len, index_pos));
                } else {
                    assert(self.aside_fits(shared, false, i, b_sz, seq_len, index_pos));
                }
            }
            if layer.kv is Compute && layer.store_shared_kv && g == layer.is_global {
                assert(self.is_donor(i, g));
            } else {
                assert(aside.at(g) == shared.at(g));
                if aside.at(g) is Some {
                    let kv = shared.at(g)->Some_0;
                    let j = choose|j: int|
                        0 <= j < i && #[trigger] self.is_donor(j, g) && attention::kv_is(
                            kv,
                            self.layers@[j].key_dims(
                                b_sz,
                                self.layers@[j].key_count(index_pos as int, seq_len as int),
                            ),
                            candle_core::DType::F32,
                        );
                    assert(self.is_donor(j, g));
                }
            }
        }
    }

    /// Runs the layers of a pass against a lane's entries.
    fn run_layers(
        &self,
        x: &Traced,
        index_pos: usize,
        slots: &mut Vec<Option<(Traced, Traced)>>,
        b_sz: usize,
        seq_len: usize,
        Ghost(lane): Ghost<Seq<Option<KvView>>>,
    ) -> (r: Result<Traced, ModelError>)
        requires
            !self.refuses_input(*x, index_pos),
            x.dims() == seq![b_sz, seq_len],
            old(slots)@.len() == self.layers@.len(),
            slots_view(old(slots)@) == self.lane_at(index_pos, lane),
        ensures
            final(slots)@.len() == self.layers@.len(),
            r is Ok ==> forall|i: int|
                0 <= i < self.layers@.len() ==> !#[trigger] self.refuses_layer(i),
            r matches Ok(t) ==> t.dtype() == candle_core::DType::F32 && exists|
                picks: Seq<Seq<Seq<usize>>>,
            | #[trigger]
                self.are_picks(
                    self.pass(*x, index_pos),
                    self.start(*x, index_pos, lane),
                    picks,
                ) && ({
                    let end = self.run(
                        self.layers@.len(),
                        self.pass(*x, index_pos),
                        self.start(*x, index_pos, lane),
                        picks,
                    );
                    &&& t.expr() == end.xs
                    &&& t.dims() == end.dims
                    &&& slots_view(final(slots)@) == end.slots
                }),
            r matches Err(e) ==> {
                let pass = self.pass(*x, index_pos);
                let start = self.start(*x, index_pos, lane);
                let left = slots_view(final(slots)@);
                ||| self.prelude_may_fail_with(*x, index_pos, e) && left == start.slots
                ||| exists|n: int, picks: Seq<Seq<Seq<usize>>>| #[trigger]
                    self.stops_at(n, pass, start, picks, e) && self.is_left_at(
                        n,
                        pass,
                        start,
                        picks,
                        left,
                    )
            },
            self.can_pass(*x, index_pos, old(slots)@) ==> {
                &&& r matches Ok(t) && moe::is_state(t) && t.dims() == seq![
                    b_sz,
                    seq_len,
                    self.embedding_length,
                ]
                &&& self.slots_fit(final(slots)@, b_sz, index_pos + seq_len)
            },
    {
        let ghost fits = self.can_pass(*x, index_pos, old(slots)@);
        proof {
            if fits {
                assert(x.dims()[0] == b_sz && x.dims()[1] == seq_len);
                assert(x.dims().push(self.embedding_length) =~= seq![
                    b_sz,
                    seq_len,
                    self.embedding_length,
                ]);
            }
        }
        let xs = self.tok_embeddings.rows(x)?;
        let mut xs = xs.times_number(&Number::sqrt_of(self.embedding_length))?;
        let inputs = self.make_per_layer_inputs(x, &xs, b_sz, seq_len)?;
        let (full_mask, sliding_mask) = self.masks(b_sz, seq_len, index_pos, x.on_device())?;
        let mut shared = SharedKvStates::new();
        let ghost pass = self.pass(*x, index_pos);
        let ghost start = self.start(*x, index_pos, lane);
        let ghost mut picks: Seq<Seq<Seq<usize>>> = Seq::empty();
        let mut i: usize = 0;
        proof {
            if fits {
                reveal(Weights::is_under_way);
                assert(forall|is_global: bool| (#[trigger] shared.at(is_global)) is None);
                assert(self.is_under_way(
                    0,
                    xs,
                    full_mask,
                    sliding_mask,
                    inputs,
                    slots@,
                    shared,
                    b_sz,
                    seq_len,
                    index_pos,
                ));
            }
        }
        while i < self.layers.len()
            invariant
                i <= self.layers@.len(),
                slots@.len() == self.layers@.len(),
                shared.has_dtype(candle_core::DType::F32),
                xs.dtype() == candle_core::DType::F32,
                attention::made_has_columns(full_mask),
                attention::made_has_columns(sliding_mask),
                pass == self.pass(*x, index_pos),
                start == self.start(*x, index_pos, lane),
                x.dims() == seq![b_sz, seq_len],
                layer::inputs_view(full_mask) == pass.full_mask,
                layer::inputs_view(sliding_mask) == pass.sliding_mask,
                layer::inputs_view(inputs) == pass.inputs,
                inputs is Some <==> self.ple is Some,
                fits == self.can_pass(*x, index_pos, old(slots)@),
                fits ==> self.is_under_way(
                    i as int,
                    xs,
                    full_mask,
                    sliding_mask,
                    inputs,
                    slots@,
                    shared,
                    b_sz,
                    seq_len,
                    index_pos,
                ),
                picks.len() == i,
                forall|j: int|
                    0 <= j < i ==> #[trigger] self.layer_picks(j, pass, start, picks),
                forall|j: int| 0 <= j < i ==> !#[trigger] self.refuses_layer(j),
                self.run(i as nat, pass, start, picks) == (PassState {
                    xs: xs.expr(),
                    dims: xs.dims(),
                    slots: slots_view(slots@),
                    shared: shared@,
                }),
            decreases self.layers@.len() - i,
        {
            let layer = &self.layers[i];
            let mask: Option<&Traced> = if layer.is_global {
                full_mask.as_ref()
            } else {
                sliding_mask.as_ref()
            };
            let mut slot: Option<(Traced, Traced)> = None;
            let ghost before = slots@;
            std::mem::swap(&mut slot, &mut slots[i]);
            let ghost slot_before = attention::slot_view(slot);
            let ghost (xs_before, dims_before, shared_before) = (xs.expr(), xs.dims(), shared@);
            proof {
                law_put_aside_by_donors(
                    *self,
                    i as nat,
                    pass,
                    start,
                    picks,
                    layer.is_global,
                );
                assert(layer.kv is Shared ==> (self.lacks_donor(i as int) <==> shared@.get(
                    layer.is_global,
                ) is None));
                if fits {
                    self.lemma_layer_can_run(
                        i as int,
                        xs,
                        full_mask,
                        sliding_mask,
                        inputs,
                        before,
                        shared,
                        b_sz,
                        seq_len,
                        index_pos,
                    );
                }
            }
            let ghost (state_before, aside_before) = (xs, shared);
            let result = layer.forward(
                i,
                &xs,
                mask,
                index_pos,
                &mut slot,
                &mut shared,
                &inputs,
                b_sz,
                seq_len,
                self.embedding_length,
            );
            slots.set(i, slot);
            xs = match result {
                Ok(xs) => xs,
                Err(e) => {
                    proof {
                        assert(slots_view(before)[i as int] == slot_before);
                        let left = slots_view(slots@);
                        assert(left =~= slots_view(before).update(i as int, left[i as int]));
                        assert(slots_view(before) =~= slots_view(before).update(
                            i as int,
                            slot_before,
                        ));
                        assert(self.stops_at(i as int, pass, start, picks, e));
                        assert(self.is_left_at(i as int, pass, start, picks, left));
                    }
                    return Err(e);
                },
            };
            proof {
                if fits {
                    self.lemma_under_way_goes_on(
                        i as int,
                        state_before,
                        xs,
                        full_mask,
                        sliding_mask,
                        inputs,
                        before,
                        slot,
                        aside_before,
                        shared,
                        b_sz,
                        seq_len,
                        index_pos,
                    );
                    assert(slots@ =~= before.update(i as int, slot));
                }
                let resid = layer.attended(
                    xs_before,
                    dims_before,
                    attention::mask_view(mask),
                    index_pos as nat,
                    slot_before,
                    shared_before,
                );
                let next = choose|next: Seq<Seq<usize>>| #[trigger]
                    layer.are_picks(
                        resid,
                        moe::model_dims(b_sz, seq_len, self.embedding_length),
                        next,
                    ) && ({
                        let step = layer.step(
                            i as nat,
                            xs_before,
                            dims_before,
                            attention::mask_view(mask),
                            index_pos as nat,
                            slot_before,
                            shared_before,
                            layer::inputs_view(inputs),
                            moe::model_dims(b_sz, seq_len, self.embedding_length),
                            next,
                        );
                        &&& xs.expr() == step.xs
                        &&& xs.dims() == step.dims
                        &&& attention::slot_view(slots@[i as int]) == step.slot
                        &&& shared@ == step.shared
                    });
                let old_picks = picks;
                lemma_run_prefix(*self, i as nat, pass, start, old_picks, next);
                picks = old_picks.push(next);
                assert(slots_view(slots@) =~= slots_view(before).update(
                    i as int,
                    attention::slot_view(slots@[i as int]),
                ));
                assert(slot_before == slots_view(before)[i as int]);
                assert forall|j: int| 0 <= j < i + 1 implies #[trigger] self.layer_picks(
                    j,
                    pass,
                    start,
                    picks,
                ) by {
                    lemma_run_prefix(*self, j as nat, pass, start, old_picks, next);
                    if j < i {
                        assert(self.layer_picks(j, pass, start, old_picks));
                        assert(picks[j] == old_picks[j]);
                    }
                }
            }
            i = i + 1;
        }
        proof {
            assert(self.are_picks(pass, start, picks));
            if fits {
                reveal(Weights::is_under_way);
            }
        }
        Ok(xs)
    }
}

/// What contracts see of cache entries.
pub open spec fn slots_view(slots: Seq<Option<(Traced, Traced)>>) -> Seq<Option<KvView>> {
    slots.map_values(|slot: Option<(Traced, Traced)>| attention::slot_view(slot))
}

/// What a pass that is not refused and fails does to a lane, and what it can fail with.
pub open spec fn failed_outcome(
    w: Weights,
    ids: Traced,
    index_pos: usize,
    before: Gemma4KvCache,
    after: Gemma4KvCache,
    e: ModelError,
) -> bool {
    let pass = w.pass(ids, index_pos);
    let start = w.start(ids, index_pos, before@);
    ||| {
        &&& after.position() == index_pos
        &&& after@ == start.slots
        &&& w.prelude_may_fail_with(ids, index_pos, e)
    }
    ||| {
        &&& after.position() == index_pos
        &&& exists|n: int, picks: Seq<Seq<Seq<usize>>>| #[trigger]
            w.stops_at(n, pass, start, picks, e) && w.is_left_at(n, pass, start, picks, after@)
    }
    ||| {
        &&& after.position() == index_pos + ids.dims()[1]
        &&& e is Candle
        &&& exists|picks: Seq<Seq<Seq<usize>>>| #[trigger]
            w.are_picks(pass, start, picks) && after@ == w.run(
                w.layers@.len(),
                pass,
                start,
                picks,
            ).slots
    }
}

/// A pass over `ids` at `index_pos` on a lane succeeds: the model, the identifiers and the lane lie
/// in main memory and fit. At position 0 any lane fits that is empty or of the model's number of
/// layers; elsewhere the lane has to be at the position.
pub open spec fn can_forward(
    w: Weights,
    ids: Traced,
    index_pos: usize,
    lane: Gemma4KvCache,
) -> bool {
    if index_pos == 0 {
        !w.refuses_layers(lane.slots().len()) && w.can_pass(ids, 0, w.empty_slots())
    } else {
        lane.position() == index_pos && w.can_pass(ids, index_pos, lane.slots())
            && w.layers@.len() > 0
    }
}

/// What a pass over `ids` at `index_pos` does to a lane, and what it gives.
///
/// - An input without two dimensions or without positions, or whose positions `usize` cannot count,
///   is refused, and the lane stays as it was.
/// - A lane of another number of layers is refused, and stays as it was.
/// - At a position other than 0 that is not the lane's, the pass is refused; the lane keeps its
///   position and its entries, an empty lane getting one empty entry per layer.
/// - Else the result is what the layers make of the input and the lane, and the lane ends behind
///   the last position. The logits are those of the last position: where every layer's scalar is a
///   single entry, their shape is batch, one, and the number of tokens.
/// - Where the pass fails before its first layer or in one, the lane keeps its position, or is back
///   at 0 where the pass was to start there; the entries of the layers before are moved on. Where
///   it fails behind the last layer, the lane is where a pass that succeeds leaves it.
pub open spec fn forward_outcome(
    w: Weights,
    ids: Traced,
    index_pos: usize,
    before: Gemma4KvCache,
    after: Gemma4KvCache,
    r: Result<Traced, ModelError>,
) -> bool {
    let layers = before.slots().len();
    if w.refuses_input(ids, index_pos) {
        &&& r == Err::<Traced, ModelError>(
            if ids.dims().len() != 2 {
                ModelError::Rank { expected: 2, got: ids.dims().len() as usize }
            } else if ids.dims()[1] == 0 {
                ModelError::EmptyInput
            } else {
                ModelError::ShapeTooLarge
            },
        )
        &&& after.slots() == before.slots()
        &&& after.position() == before.position()
    } else if w.refuses_layers(layers) {
        &&& r == Err::<Traced, ModelError>(
            ModelError::CacheLayers { cache: layers as usize, model: w.layers@.len() as usize },
        )
        &&& after.slots() == before.slots()
        &&& after.position() == before.position()
    } else if w.refuses_position(index_pos, before.position()) {
        &&& r == Err::<Traced, ModelError>(
            ModelError::PositionDrift { index_pos, pos: before.position() },
        )
        &&& after.slots() == (if layers == 0 {
            w.empty_slots()
        } else {
            before.slots()
        })
        &&& after.position() == before.position()
    } else {
        &&& after.slots().len() == w.layers@.len()
        &&& match r {
            Ok(t) => {
                &&& after.position() == index_pos + ids.dims()[1]
                &&& forall|i: int| 0 <= i < w.layers@.len() ==> !#[trigger] w.refuses_layer(i)
                &&& exists|picks: Seq<Seq<Seq<usize>>>| #[trigger]
                    w.are_picks(w.pass(ids, index_pos), w.start(ids, index_pos, before@), picks)
                        && ({
                        let end = w.run(
                            w.layers@.len(),
                            w.pass(ids, index_pos),
                            w.start(ids, index_pos, before@),
                            picks,
                        );
                        &&& t.expr() == w.logits(end.xs, ids.dims()[1] as int)
                        &&& t.dims() == w.logits_dims(end.dims)
                        &&& after@ == end.slots
                    })
                &&& w.has_plain_scalars() ==> t.dims() == seq![
                    ids.dims()[0],
                    1,
                    packed::packed_rows(w.output.weight()),
                ]
            },
            Err(e) => failed_outcome(w, ids, index_pos, before, after, e),
        }
    }
}

/// The model: its weights, which its clones share, and a lane of its own.
pub struct ModelWeights {
    weights: Arc<Weights>,
    cache: Gemma4KvCache,
}

impl ModelWeights {
    /// The weights.
    pub closed spec fn weights(&self) -> Weights {
        *self.weights
    }

    /// The model's own lane.
    pub closed spec fn lane(&self) -> Gemma4KvCache {
        self.cache
    }

    /// A model with these weights and an empty lane of its own.
    pub fn new(weights: Weights) -> (r: ModelWeights)
        ensures
            r.weights() == weights,
            r.lane().slots() == Seq::<Option<(Traced, Traced)>>::empty(),
            r.lane().position() == 0,
    {
        ModelWeights { weights: Arc::new(weights), cache: Gemma4KvCache::new() }
    }

    /// A forward pass on the model's own lane: what `forward_with_cache` does on any lane.
    pub fn forward(&mut self, x: &Traced, index_pos: usize) -> (r: Result<Traced, ModelError>)
        ensures
            final(self).weights() == old(self).weights(),
            forward_outcome(
                old(self).weights(),
                *x,
                index_pos,
                old(self).lane(),
                final(self).lane(),
                r,
            ),
            can_forward(old(self).weights(), *x, index_pos, old(self).lane()) ==> r is Ok && old(
                self,
            ).weights().slots_fit(
                final(self).lane().slots(),
                x.dims()[0],
                index_pos + x.dims()[1],
            ),
    {
        let mut cache = Gemma4KvCache::new();
        std::mem::swap(&mut cache, &mut self.cache);
        let res = self.forward_with_cache(x, index_pos, &mut cache);
        self.cache = cache;
        res
    }

    /// A forward pass against a lane that the caller owns. `index_pos == 0` starts the lane anew;
    /// any other `index_pos` must be the lane's position: to go on elsewhere is refused rather than
    /// attended wrongly.
    pub fn forward_with_cache(&self, x: &Traced, index_pos: usize, cache: &mut Gemma4KvCache) -> (r:
        Result<Traced, ModelError>)
        ensures
            forward_outcome(self.weights(), *x, index_pos, *old(cache), *final(cache), r),
            can_forward(self.weights(), *x, index_pos, *old(cache)) ==> r is Ok
                && self.weights().slots_fit(
                final(cache).slots(),
                x.dims()[0],
                index_pos + x.dims()[1],
            ),
    {
        broadcast use cache::lemma_slots, cache::lemma_position;

        let w: &Weights = &self.weights;
        let (b_sz, seq_len): (usize, usize) = x.dims2()?;
        if seq_len == 0 {
            return Err(ModelError::EmptyInput);
        }
        let end: usize = match index_pos.checked_add(seq_len) {
            Some(end) => end,
            None => {
                return Err(ModelError::ShapeTooLarge);
            },
        };
        let ghost lane = cache@;
        if cache.layers.len() == 0 {
            let mut layers: Vec<Option<(Traced, Traced)>> = Vec::new();
            let mut i: usize = 0;
            while i < w.layers.len()
                invariant
                    i <= w.layers@.len(),
                    layers@.len() == i,
                    forall|j: int| 0 <= j < i ==> #[trigger] layers@[j] is None,
                decreases w.layers@.len() - i,
            {
                layers.push(None);
                i = i + 1;
            }
            cache.layers = layers;
        } else if cache.layers.len() != w.layers.len() {
            return Err(
                ModelError::CacheLayers { cache: cache.layers.len(), model: w.layers.len() },
            );
        }
        if index_pos == 0 {
            cache.reset();
        } else if index_pos != cache.pos {
            assert(cache.slots() =~= if old(cache).slots().len() == 0 {
                w.empty_slots()
            } else {
                old(cache).slots()
            });
            return Err(ModelError::PositionDrift { index_pos, pos: cache.pos });
        }
        proof {
            assert(slots_view(cache.layers@) =~= w.lane_at(index_pos, lane));
            assert(x.dims() =~= seq![b_sz, seq_len]);
            if index_pos == 0 {
                assert(cache.layers@ =~= w.empty_slots());
            }
        }
        let xs = w.run_layers(x, index_pos, &mut cache.layers, b_sz, seq_len, Ghost(lane))?;
        cache.pos = end;
        proof {
            let pass = w.pass(*x, index_pos);
            let start = w.start(*x, index_pos, lane);
            if w.has_plain_scalars() {
                let picks = choose|picks: Seq<Seq<Seq<usize>>>| #[trigger]
                    w.are_picks(pass, start, picks) && w.run(
                        w.layers@.len(),
                        pass,
                        start,
                        picks,
                    ).dims == xs.dims();
                lemma_plain_dims(*w, w.layers@.len(), pass, start, picks);
                assert(w.logits_dims(xs.dims()) =~= seq![
                    b_sz,
                    1usize,
                    packed::packed_rows(w.output.weight()),
                ]);
            }
        }
        w.make_logits(&xs, seq_len)
    }

    /// Drops what the model's own lane holds and goes back to position 0.
    pub fn clear_kv_cache(&mut self)
        ensures
            final(self).weights() == old(self).weights(),
            final(self).lane().position() == 0,
            final(self).lane().slots() == Seq::new(
                old(self).lane().slots().len(),
                |i: int| None::<(Traced, Traced)>,
            ),
    {
        self.cache.reset();
    }

    /// Whether layer `idx` attends a sliding window rather than everything.
    pub fn is_sliding(&self, idx: usize) -> (r: bool)
        ensures
            r == (idx < self.weights().layers@.len() && !self.weights().layers@[idx as int].is_global),
    {
        idx < self.weights.layers.len() && !self.weights.layers[idx].is_global
    }

    /// The attention window of the sliding layers, in positions.
    pub fn sliding_window(&self) -> (r: usize)
        ensures
            r == self.weights().sliding_window,
    {
        self.weights.sliding_window
    }
}

impl Clone for ModelWeights {
    /// The same model again, with a lane that holds the same and goes its own way from then on.
    fn clone(&self) -> (r: Self)
        ensures
            r.weights() == self.weights(),
            r.lane().slots() == self.lane().slots(),
            r.lane().position() == self.lane().position(),
    {
        ModelWeights { weights: self.weights.clone(), cache: self.cache.clone() }
    }
}

} // verus!
