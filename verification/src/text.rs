//! The Gemma 4 text model over float parameters.

use crate::attention::{SharedKvStates, SharedView};
use crate::error::ModelError;
use crate::mask;
use crate::names;
use crate::rotary::{self, RotaryEmbedding};
use crate::tensor::layers::{self, CacheView, GrowingCache, Params, Place, Projection, Table};
use crate::tensor::{self, BinaryOp, Expr, Number, NumberExpr, NumberOp, Traced, UnaryOp};
use vstd::prelude::*;

pub mod attn;
pub mod block;
pub mod config;
pub mod entries;
pub mod laws;
pub mod layer;
pub mod moe;

use attn::{FloatKvSource, LayerCache};
use block::FloatNorm;
use config::Gemma4TextConfig;
use layer::DecoderLayer;

verus! {

/// The model's part of the per-layer inputs.
pub struct FloatPerLayerEmbeddings {
    pub hidden_size_per_layer_input: usize,
    pub embed_tokens_per_layer: Table,
    pub per_layer_model_projection: Projection,
    pub per_layer_projection_norm: FloatNorm,
}

impl FloatPerLayerEmbeddings {
    /// There are the parameters of the model's part of the per-layer inputs at a place, where the
    /// model has it.
    pub open spec fn has_params(cfg: Gemma4TextConfig, path: Place) -> bool {
        let width = cfg.hidden_size_per_layer_input;
        let all = (cfg.num_hidden_layers * width) as usize;
        width > 0 ==> {
            &&& layers::has_param(
                path.push("embed_tokens_per_layer"@),
                "weight"@,
                seq![cfg.vocab_size_per_layer_input, all],
            )
            &&& layers::has_projection(
                path.push("per_layer_model_projection"@),
                cfg.hidden_size,
                all,
                false,
            )
            &&& layers::has_param(path.push("per_layer_projection_norm"@), "weight"@, seq![width])
        }
    }

    /// The weights lie in main memory and fit each other, so many layers and so many entries per
    /// position.
    pub open spec fn is_fit(&self, layers: nat, hidden: usize, dtype: candle_core::DType) -> bool {
        let width = layers * self.hidden_size_per_layer_input;
        &&& layers > 0
        &&& self.hidden_size_per_layer_input > 0
        &&& width <= usize::MAX
        &&& self.embed_tokens_per_layer.width() == width
        &&& self.embed_tokens_per_layer.dtype() == dtype
        &&& self.per_layer_model_projection.fits(hidden, width as usize, dtype)
        &&& self.per_layer_projection_norm.fits(self.hidden_size_per_layer_input, dtype)
    }
}

/// The weights of a float model.
pub struct TextWeights {
    pub embed_tokens: Table,
    pub layers: Vec<DecoderLayer>,
    pub norm: FloatNorm,
    pub lm_head: Projection,
    pub final_logit_softcapping: Option<Number>,
    pub device: candle_core::Device,
    pub dtype: candle_core::DType,
    pub hidden_size: usize,
    pub sliding_window: usize,
    pub ple: Option<FloatPerLayerEmbeddings>,
}

/// What stays the same over the layers of a pass.
pub ghost struct TextPass {
    pub offset: nat,
    pub mask: Option<Expr>,
    pub sliding_mask: Option<Expr>,
    pub inputs: Option<(Expr, Seq<usize>)>,
    pub dtype: candle_core::DType,
}

/// What the layers of a pass change.
#[verifier::ext_equal]
pub ghost struct TextState {
    pub xs: Expr,
    pub dims: Seq<usize>,
    pub caches: Seq<CacheView>,
    pub shared: SharedView,
}

/// What contracts see of caches.
pub open spec fn cache_views(caches: Seq<LayerCache>) -> Seq<CacheView> {
    caches.map_values(|c: LayerCache| c@)
}

/// Caches of the same kinds and sizes, one by one.
pub open spec fn caches_alike(a: Seq<LayerCache>, b: Seq<LayerCache>) -> bool {
    &&& a.len() == b.len()
    &&& forall|i: int| 0 <= i < a.len() ==> (#[trigger] a[i]).is_like(b[i])
}

impl TextWeights {
    /// The record of the scaled embeddings of identifiers.
    pub open spec fn embedded(&self, ids: Expr) -> Expr {
        tensor::with_number(
            NumberOp::Mul,
            self.embed_tokens.of(ids),
            tensor::sqrt_of(self.hidden_size as int),
        )
    }

    /// The per-layer inputs of a model that has them, with their shape.
    pub open spec fn per_layer_inputs(&self, ids: Traced, xs: Traced) -> Option<(Expr, Seq<usize>)> {
        match self.ple {
            None => None,
            Some(ple) => {
                let width = ple.hidden_size_per_layer_input;
                let layers = self.layers@.len() as usize;
                let shape = xs.dims().drop_last().push(layers).push(width);
                let projected = tensor::reshaped(
                    tensor::with_number(
                        NumberOp::Mul,
                        ple.per_layer_model_projection.of(xs.expr()),
                        tensor::recip_sqrt_of(self.hidden_size as int),
                    ),
                    shape,
                );
                let normed = ple.per_layer_projection_norm.of(projected, shape, xs.dtype());
                let embedded = tensor::reshaped(
                    tensor::with_number(
                        NumberOp::Mul,
                        ple.embed_tokens_per_layer.of(ids.expr()),
                        tensor::sqrt_of(width as int),
                    ),
                    ids.dims().push(layers).push(width),
                );
                Some(
                    (
                        tensor::with_number(
                            NumberOp::Mul,
                            tensor::binary(BinaryOp::Add, normed, embedded),
                            tensor::recip_sqrt_of(2),
                        ),
                        ple.per_layer_projection_norm.dims_of(shape),
                    ),
                )
            },
        }
    }

    /// A mask of a pass: none for a single position.
    pub open spec fn mask_of(
        &self,
        window: Option<usize>,
        batch: usize,
        seq_len: usize,
        offset: usize,
    ) -> Option<Expr> {
        if seq_len <= 1 {
            None
        } else {
            Some(
                mask::decoder_mask_expr(batch, seq_len, offset, window, self.dtype, self.device),
            )
        }
    }

    /// What stays the same over the layers of a pass.
    pub open spec fn pass(
        &self,
        ids: Traced,
        xs: Traced,
        offset: usize,
        batch: usize,
        seq_len: usize,
    ) -> TextPass {
        TextPass {
            offset: offset as nat,
            mask: self.mask_of(None, batch, seq_len, offset),
            sliding_mask: self.mask_of(Some(self.sliding_window), batch, seq_len, offset),
            inputs: self.per_layer_inputs(ids, xs),
            dtype: xs.dtype(),
        }
    }

    /// The slice of the per-layer inputs of layer `i`.
    pub open spec fn input_of(
        &self,
        inputs: Option<(Expr, Seq<usize>)>,
        i: nat,
    ) -> Option<(Expr, Seq<usize>)> {
        match inputs {
            Some((expr, dims)) => Some((tensor::selected(expr, 2, i), dims.remove(2))),
            None => None,
        }
    }

    /// Where a pass is after its first `n` layers, given the caches that it found and the experts
    /// that each layer picked.
    pub open spec fn run(
        &self,
        n: nat,
        pass: TextPass,
        xs: Expr,
        dims: Seq<usize>,
        caches: Seq<LayerCache>,
        picks: Seq<Seq<Seq<usize>>>,
    ) -> TextState
        decreases n,
    {
        if n == 0 {
            TextState { xs, dims, caches: cache_views(caches), shared: SharedView::empty() }
        } else {
            let i = (n - 1) as nat;
            let before = self.run(i, pass, xs, dims, caches, picks);
            let layer = self.layers@[i as int];
            let step = layer.step(
                before.xs,
                before.dims,
                pass.dtype,
                if layer.self_attn.is_sliding {
                    pass.sliding_mask
                } else {
                    pass.mask
                },
                pass.offset,
                caches[i as int],
                before.shared,
                self.input_of(pass.inputs, i),
                picks[i as int],
            );
            TextState {
                xs: step.xs,
                dims: step.dims,
                caches: before.caches.update(i as int, step.cache),
                shared: step.shared,
            }
        }
    }

    /// The record of the logits of the last position of a hidden state of shape `dims`.
    pub open spec fn logits(
        &self,
        xs: Expr,
        dims: Seq<usize>,
        dtype: candle_core::DType,
        seq_len: int,
    ) -> Expr {
        let last = tensor::narrowed(xs, 1, (seq_len - 1) as nat, 1);
        let logits = self.lm_head.of(self.norm.of(last, dims.update(1, 1), dtype));
        match self.final_logit_softcapping {
            None => logits,
            Some(cap) => tensor::with_number(
                NumberOp::Mul,
                tensor::unary(
                    UnaryOp::Tanh,
                    tensor::with_number(NumberOp::Div, logits, cap.expr()),
                ),
                cap.expr(),
            ),
        }
    }

    /// The picks of layer `i` are such as the layer makes where a pass reaches it.
    pub open spec fn layer_picks(
        &self,
        i: int,
        pass: TextPass,
        xs: Expr,
        dims: Seq<usize>,
        caches: Seq<LayerCache>,
        picks: Seq<Seq<Seq<usize>>>,
    ) -> bool {
        let before = self.run(i as nat, pass, xs, dims, caches, picks);
        let layer = self.layers@[i];
        layer.are_picks(
            layer.attended(
                before.xs,
                before.dims,
                pass.dtype,
                if layer.self_attn.is_sliding {
                    pass.sliding_mask
                } else {
                    pass.mask
                },
                pass.offset,
                caches[i],
                before.shared,
            ),
            before.dims,
            pass.dtype,
            picks[i],
        )
    }

    /// The picks are such as the layers make in a pass.
    pub open spec fn are_picks(
        &self,
        pass: TextPass,
        xs: Expr,
        dims: Seq<usize>,
        caches: Seq<LayerCache>,
        picks: Seq<Seq<Seq<usize>>>,
    ) -> bool {
        &&& picks.len() == self.layers@.len()
        &&& forall|i: int|
            0 <= i < picks.len() ==> #[trigger] self.layer_picks(
                i,
                pass,
                xs,
                dims,
                caches,
                picks,
            )
    }

    /// The parameters that can change the shape of the hidden state have their own shapes, the hidden
    /// size being `hidden`: every layer's scalar is a single entry, the last normalisation has one
    /// entry per dimension, and the output has no bias.
    pub open spec fn has_plain_shapes(&self, hidden: usize) -> bool {
        &&& forall|i: int|
            0 <= i < self.layers@.len() ==> (#[trigger] self.layers@[i]).layer_scalar.dims()
                == seq![1usize]
        &&& self.norm.weight.dims() == seq![hidden]
        &&& self.lm_head.has_no_bias()
    }

    /// Layer `i` puts keys and values of a kind of layer aside.
    pub open spec fn is_donor(&self, i: int, is_sliding: bool) -> bool {
        let attn = self.layers@[i].self_attn;
        attn.is_sliding == is_sliding && (attn.kv matches FloatKvSource::Computed {
            store_full_length_kv,
            ..
        } && store_full_length_kv)
    }

    /// Layer `i` shares keys and values that no earlier layer puts aside.
    pub open spec fn lacks_donor(&self, i: int) -> bool {
        &&& self.layers@[i].self_attn.kv is Shared
        &&& forall|j: int|
            0 <= j < i ==> !#[trigger] self.is_donor(j, self.layers@[i].self_attn.is_sliding)
    }

    /// Layer `i` cannot be run, whatever comes in: it asks for fused attention, no layer puts aside
    /// what it shares, or it and the model differ on per-layer inputs.
    pub open spec fn refuses_layer(&self, i: int) -> bool {
        ||| self.layers@[i].self_attn.use_flash_attn
        ||| self.lacks_donor(i)
        ||| (self.layers@[i].pli_mixer is Some) != (self.ple is Some)
    }
}

/// Where a pass is does not depend on the picks of layers that are still to come.
proof fn lemma_run_prefix(
    w: TextWeights,
    n: nat,
    pass: TextPass,
    xs: Expr,
    dims: Seq<usize>,
    caches: Seq<LayerCache>,
    picks: Seq<Seq<Seq<usize>>>,
    next: Seq<Seq<usize>>,
)
    requires
        n <= picks.len(),
    ensures
        w.run(n, pass, xs, dims, caches, picks.push(next)) == w.run(
            n,
            pass,
            xs,
            dims,
            caches,
            picks,
        ),
    decreases n,
{
    if n > 0 {
        lemma_run_prefix(w, (n - 1) as nat, pass, xs, dims, caches, picks, next);
        assert(picks.push(next)[n - 1] == picks[n - 1]);
    }
}

/// Keys and values of a kind of layer are put aside by the time that a layer is reached exactly
/// where an earlier layer puts them aside.
pub proof fn law_put_aside_by_donors(
    w: TextWeights,
    n: nat,
    pass: TextPass,
    xs: Expr,
    dims: Seq<usize>,
    caches: Seq<LayerCache>,
    picks: Seq<Seq<Seq<usize>>>,
    is_sliding: bool,
)
    requires
        n <= w.layers@.len(),
    ensures
        w.run(n, pass, xs, dims, caches, picks).shared.get(!is_sliding) is Some <==> exists|j: int|
            0 <= j < n && #[trigger] w.is_donor(j, is_sliding),
    decreases n,
{
    if n > 0 {
        law_put_aside_by_donors(w, (n - 1) as nat, pass, xs, dims, caches, picks, is_sliding);
        if w.is_donor(n - 1, is_sliding) {
        } else if exists|j: int| 0 <= j < n && #[trigger] w.is_donor(j, is_sliding) {
            let j = choose|j: int| 0 <= j < n && #[trigger] w.is_donor(j, is_sliding);
            assert(j < n - 1);
        }
    }
}

/// Single entries do not change the shape of the hidden state.
proof fn lemma_plain_dims(
    w: TextWeights,
    n: nat,
    pass: TextPass,
    xs: Expr,
    dims: Seq<usize>,
    caches: Seq<LayerCache>,
    picks: Seq<Seq<Seq<usize>>>,
    hidden: usize,
)
    requires
        w.has_plain_shapes(hidden),
        n <= w.layers@.len(),
        dims.len() > 0,
    ensures
        w.run(n, pass, xs, dims, caches, picks).dims == dims,
    decreases n,
{
    if n > 0 {
        lemma_plain_dims(w, (n - 1) as nat, pass, xs, dims, caches, picks, hidden);
        let scalar = w.layers@[n - 1].layer_scalar.dims();
        assert(scalar == seq![1usize]);
        assert(tensor::broadcast_dims(dims, scalar) =~= dims);
    }
}

impl TextWeights {
    /// What the per-layer inputs of a model that has them can fail with besides tensor operations: a
    /// table that holds no floats, and shapes whose entries `usize` cannot count.
    pub open spec fn inputs_may_fail_with(&self, ids: Traced, xs: Traced, e: ModelError) -> bool {
        self.ple matches Some(ple) && {
            let layers = self.layers@.len() as usize;
            let width = ple.hidden_size_per_layer_input;
            match e {
                ModelError::NotFloat => !tensor::is_float(ple.embed_tokens_per_layer.dtype()),
                ModelError::ShapeTooLarge => !tensor::countable(
                    xs.dims().drop_last().push(layers).push(width),
                ) || !tensor::countable(ids.dims().push(layers).push(width)),
                _ => false,
            }
        }
    }

    /// `usize` cannot count the positions, or the entries or bytes of the masks.
    pub open spec fn masks_too_large(&self, batch: usize, seq_len: usize, offset: usize) -> bool {
        seq_len > 1 && (4 * (seq_len * seq_len) > usize::MAX || seq_len + offset > usize::MAX
            || mask::decoder_mask_too_large(batch, seq_len, offset))
    }

    /// What a pass can fail with before its first layer.
    pub open spec fn prelude_may_fail_with(
        &self,
        ids: Traced,
        xs: Traced,
        offset: usize,
        batch: usize,
        seq_len: usize,
        e: ModelError,
    ) -> bool {
        ||| e is Candle
        ||| e is ShapeTooLarge && self.masks_too_large(batch, seq_len, offset)
        ||| self.inputs_may_fail_with(ids, xs, e)
    }

    /// A pass gets as far as layer `n`, and there fails with an error that the layer's weights, the
    /// hidden state's shape and what the layer finds cached and put aside allow.
    pub open spec fn stops_at(
        &self,
        n: int,
        pass: TextPass,
        xs: Expr,
        dims: Seq<usize>,
        caches: Seq<LayerCache>,
        picks: Seq<Seq<Seq<usize>>>,
        e: ModelError,
    ) -> bool {
        let before = self.run(n as nat, pass, xs, dims, caches, picks);
        &&& 0 <= n < self.layers@.len()
        &&& forall|i: int|
            0 <= i < n ==> #[trigger] self.layer_picks(i, pass, xs, dims, caches, picks)
        &&& self.layers@[n].may_fail_with(
            n,
            before.xs,
            before.dims,
            pass.dtype,
            pass.offset,
            caches[n],
            before.shared,
            self.ple is Some,
            e,
        )
    }

    /// What a pass that fails in layer `n` leaves of the caches: those of earlier layers are moved
    /// on, those of later ones are as they were.
    pub open spec fn is_left_at(
        &self,
        n: int,
        pass: TextPass,
        xs: Expr,
        dims: Seq<usize>,
        caches: Seq<LayerCache>,
        picks: Seq<Seq<Seq<usize>>>,
        after: Seq<LayerCache>,
    ) -> bool {
        let before = self.run(n as nat, pass, xs, dims, caches, picks);
        &&& forall|i: int| 0 <= i < n ==> (#[trigger] after[i])@ == before.caches[i]
        &&& forall|i: int| n < i < after.len() ==> #[trigger] after[i] == caches[i]
    }

    /// The shape of the logits of a hidden state of shape `dims`: those of the last position.
    pub open spec fn logits_dims(&self, dims: Seq<usize>) -> Seq<usize> {
        self.lm_head.dims_of(self.norm.dims_of(dims.update(1, 1)))
    }

    /// The size of the per-layer inputs of a model that has them.
    pub open spec fn input_dim(&self) -> Option<usize> {
        match self.ple {
            Some(ple) => Some(ple.hidden_size_per_layer_input),
            None => None,
        }
    }

    /// Layer `i` finds what it shares, and its queries fit it.
    pub open spec fn shares_alike(&self, i: int) -> bool {
        let attn = self.layers@[i].self_attn;
        attn.kv is Shared ==> !self.lacks_donor(i) && forall|j: int|
            0 <= j < i && #[trigger] self.is_donor(j, attn.is_sliding) ==> {
                let donor = self.layers@[j].self_attn;
                &&& donor.head_dim == attn.head_dim
                &&& donor.kv->num_kv_heads * attn.num_kv_groups == attn.num_heads
            }
    }

    /// The model's weights lie in main memory and fit each other.
    pub open spec fn is_fit(&self) -> bool {
        let (hidden, dtype) = (self.hidden_size, self.dtype);
        &&& tensor::is_main_memory(self.device)
        &&& tensor::has_products(dtype)
        &&& hidden > 0
        &&& self.embed_tokens.width() == hidden
        &&& self.embed_tokens.dtype() == dtype
        &&& self.norm.fits(hidden, dtype)
        &&& self.lm_head.rows() > 0
        &&& self.lm_head.fits(hidden, self.lm_head.rows(), dtype)
        &&& self.ple matches Some(ple) ==> ple.is_fit(self.layers@.len(), hidden, dtype)
        &&& forall|i: int|
            0 <= i < self.layers@.len() ==> (#[trigger] self.layers@[i]).is_fit(
                hidden,
                self.input_dim(),
                dtype,
            ) && self.shares_alike(i)
    }

    /// Caches in main memory that have taken so many positions of a batch.
    pub open spec fn caches_fit(&self, caches: Seq<LayerCache>, batch: usize, pos: nat) -> bool {
        &&& caches.len() == self.layers@.len()
        &&& forall|i: int|
            0 <= i < caches.len() ==> self.layers@[i].self_attn.cache_fits(
                #[trigger] caches[i],
                batch,
                pos,
                self.dtype,
            )
    }

    /// The rotary tables cover the positions of a pass, `usize` can count the entries of everything
    /// that it makes, and, where there are masks, they have a column for each position that a layer
    /// attends: a sliding layer's cache still holds all positions, or there were none before.
    pub open spec fn covers(
        &self,
        caches: Seq<LayerCache>,
        batch: usize,
        seq_len: usize,
        offset: usize,
    ) -> bool {
        let end = offset + seq_len;
        &&& end <= usize::MAX
        &&& !self.masks_too_large(batch, seq_len, offset)
        &&& batch * seq_len * self.hidden_size <= usize::MAX
        &&& self.ple matches Some(ple) ==> tensor::countable(
            seq![
                batch,
                seq_len,
                self.layers@.len() as usize,
                ple.hidden_size_per_layer_input,
            ],
        )
        &&& forall|i: int|
            0 <= i < self.layers@.len() ==> {
                let attn = (#[trigger] self.layers@[i]).self_attn;
                &&& end <= attn.positions()
                &&& batch * (end + caches[i].size()) * attn.num_heads * attn.head_dim <= usize::MAX
                &&& seq_len > 1 && attn.kv is Computed ==> caches[i].keys_with(seq_len as nat)
                    == end
            }
    }

    /// A pass over embeddings, so many positions having gone before, succeeds: everything lies in main
    /// memory and fits.
    pub open spec fn can_pass(
        &self,
        ids: Traced,
        xs: Traced,
        offset: usize,
        batch: usize,
        seq_len: usize,
        caches: Seq<LayerCache>,
    ) -> bool {
        &&& self.is_fit()
        &&& block::is_state(xs)
        &&& xs.dtype() == self.dtype
        &&& xs.dims() == seq![batch, seq_len, self.hidden_size]
        &&& self.ple matches Some(ple) ==> ids.dims() == seq![batch, seq_len]
            && ple.embed_tokens_per_layer.has_rows(ids)
        &&& self.caches_fit(caches, batch, offset as nat)
        &&& self.covers(caches, batch, seq_len, offset)
    }

    /// The scaled embeddings of identifiers.
    fn embed(&self, ids: &Traced) -> (r: Result<Traced, ModelError>)
        ensures
            r matches Ok(t) ==> t.expr() == self.embedded(ids.expr()) && t.dims()
                == ids.dims().push(self.embed_tokens.width()) && t.dtype()
                == self.embed_tokens.dtype(),
            r is Ok ==> tensor::is_float(self.embed_tokens.dtype()),
            r matches Err(e) ==> e is Candle || (e is NotFloat && !tensor::is_float(
                self.embed_tokens.dtype(),
            )),
            tensor::succeeds(
                r,
                self.embed_tokens.has_rows(*ids) && tensor::has_products(self.embed_tokens.dtype())
                    && tensor::has_entries(ids.dims()) && self.embed_tokens.width() > 0,
            ),
    {
        let xs = self.embed_tokens.forward(ids)?;
        if !xs.holds_floats() {
            return Err(ModelError::NotFloat);
        }
        xs.times_number(&Number::sqrt_of(self.hidden_size))
    }

    /// Identifiers and embeddings in main memory fit the model's part of the per-layer inputs.
    pub open spec fn can_make_inputs(
        &self,
        ids: Traced,
        xs: Traced,
        batch: usize,
        seq_len: usize,
    ) -> bool {
        &&& self.is_fit()
        &&& block::is_state(xs)
        &&& xs.dtype() == self.dtype
        &&& xs.dims() == seq![batch, seq_len, self.hidden_size]
        &&& self.layers@.len() <= usize::MAX
        &&& self.ple matches Some(ple) ==> {
            &&& ids.dims() == seq![batch, seq_len]
            &&& ple.embed_tokens_per_layer.has_rows(ids)
            &&& tensor::countable(
                seq![
                    batch,
                    seq_len,
                    self.layers@.len() as usize,
                    ple.hidden_size_per_layer_input,
                ],
            )
        }
    }

    /// The per-layer inputs of a model that has them, in main memory.
    pub open spec fn inputs_fit(&self, inputs: Option<Traced>, batch: usize, seq_len: usize) -> bool {
        match (inputs, self.ple) {
            (Some(inputs), Some(ple)) => inputs.is_local() && inputs.dtype() == self.dtype
                && inputs.dims() == seq![
                batch,
                seq_len,
                self.layers@.len() as usize,
                ple.hidden_size_per_layer_input,
            ],
            (None, None) => true,
            _ => false,
        }
    }

    /// A mask that lies in main memory and has a column for each position, or none.
    pub open spec fn mask_fits(
        &self,
        mask: Option<Traced>,
        batch: usize,
        seq_len: usize,
        offset: usize,
    ) -> bool {
        mask matches Some(mask) ==> {
            &&& seq_len > 1
            &&& mask.is_local()
            &&& mask.dtype() == self.dtype
            &&& mask.dims() == seq![batch, 1, seq_len, (offset + seq_len) as usize]
        }
    }

    /// The per-layer inputs of a model that has them.
    fn make_per_layer_inputs(&self, ids: &Traced, xs: &Traced) -> (r: Result<
        Option<Traced>,
        ModelError,
    >)
        requires
            tensor::is_float(xs.dtype()),
        ensures
            r matches Ok(t) ==> layer::input_view(t) == self.per_layer_inputs(*ids, *xs),
            r matches Err(e) ==> e is Candle || self.inputs_may_fail_with(*ids, *xs, e),
            forall|batch: usize, seq_len: usize| #[trigger]
                self.can_make_inputs(*ids, *xs, batch, seq_len) ==> (r matches Ok(t)
                    && self.inputs_fit(t, batch, seq_len)),
    {
        match &self.ple {
            None => Ok(None),
            Some(ple) => {
                let width: usize = ple.hidden_size_per_layer_input;
                let ghost fits = exists|batch: usize, seq_len: usize| #[trigger]
                    self.can_make_inputs(*ids, *xs, batch, seq_len);
                proof {
                    assert forall|batch: usize, seq_len: usize| #[trigger]
                        self.can_make_inputs(*ids, *xs, batch, seq_len) implies batch
                        == xs.dims()[0] && seq_len == xs.dims()[1] by {}
                    if fits {
                        let (a, b) = (xs.dims()[0], xs.dims()[1]);
                        assert(self.can_make_inputs(*ids, *xs, a, b));
                        assert(xs.dims()[0] > 0 && xs.dims()[1] > 0);
                        let layers = self.layers@.len() as usize;
                        let all = (layers * width) as usize;
                        assert(all > 0) by (nonlinear_arith)
                            requires
                                all == layers * width,
                                layers > 0,
                                width > 0,
                        ;
                        ple.per_layer_model_projection.lemma_fit_dims(
                            self.hidden_size,
                            all,
                            self.dtype,
                            xs.dims(),
                        );
                        assert(tensor::with_last(xs.dims(), all) =~= seq![a, b, all]);
                        assert(ids.dims().push(all) =~= seq![a, b, all]);
                        let shape = seq![a, b, layers, width];
                        assert(xs.dims().drop_last().push(layers).push(width) =~= shape);
                        assert(ids.dims().push(layers).push(width) =~= shape);
                        tensor::lemma_count_3(a, b, all);
                        tensor::lemma_count_4(a, b, layers, width);
                        assert(a * b * (layers * width) == a * b * layers * width)
                            by (nonlinear_arith);
                        ple.per_layer_projection_norm.lemma_fit_dims(shape, self.dtype);
                        assert(tensor::has_entries(shape));
                    }
                }
                let projected = ple.per_layer_model_projection.forward(xs)?;
                let projected = projected.times_number(&Number::recip_sqrt_of(self.hidden_size))?;
                let mut shape = xs.shape();
                shape.truncate(shape.len() - 1);
                shape.push(self.layers.len());
                shape.push(width);
                assert(shape@ =~= xs.dims().drop_last().push(self.layers@.len() as usize).push(
                    width,
                ));
                let projected = projected.reshape(&shape)?;
                let normed = ple.per_layer_projection_norm.forward(&projected)?;
                let embedded = ple.embed_tokens_per_layer.forward(ids)?;
                if !embedded.holds_floats() {
                    return Err(ModelError::NotFloat);
                }
                let embedded = embedded.times_number(&Number::sqrt_of(width))?;
                let mut shape = ids.shape();
                shape.push(self.layers.len());
                shape.push(width);
                let embedded = embedded.reshape(&shape)?;
                let both = normed.plus(&embedded)?;
                let inputs = both.times_number(&Number::recip_sqrt_of(2))?;
                Ok(Some(inputs))
            },
        }
    }

    /// The masks of full and of sliding layers. A single position needs none.
    fn create_attention_masks(&self, batch_size: usize, seq_len: usize, seqlen_offset: usize) -> (r:
        Result<(Option<Traced>, Option<Traced>), ModelError>)
        ensures
            r matches Ok(t) ==> mask_expr(t.0) == self.mask_of(
                None,
                batch_size,
                seq_len,
                seqlen_offset,
            ) && mask_expr(t.1) == self.mask_of(
                Some(self.sliding_window),
                batch_size,
                seq_len,
                seqlen_offset,
            ),
            r matches Ok(t) ==> crate::attention::made_has_columns(t.0)
                && crate::attention::made_has_columns(t.1),
            r matches Err(e) ==> e is Candle || (e is ShapeTooLarge && self.masks_too_large(
                batch_size,
                seq_len,
                seqlen_offset,
            )),
            tensor::is_main_memory(self.device) && tensor::has_products(self.dtype)
                && !self.masks_too_large(batch_size, seq_len, seqlen_offset) ==> (r matches Ok(t)
                && self.mask_fits(t.0, batch_size, seq_len, seqlen_offset) && self.mask_fits(
                t.1,
                batch_size,
                seq_len,
                seqlen_offset,
            )),
    {
        if seq_len <= 1 {
            return Ok((None, None));
        }
        let fits: bool = match seq_len.checked_mul(seq_len) {
            Some(entries) => entries <= usize::MAX / 4,
            None => false,
        };
        if !fits || seqlen_offset > usize::MAX - seq_len {
            return Err(ModelError::ShapeTooLarge);
        }
        let mask = mask::prepare_decoder_attention_mask(
            batch_size,
            seq_len,
            seqlen_offset,
            None,
            self.dtype,
            &self.device,
        )?;
        let sliding_mask = mask::prepare_decoder_attention_mask(
            batch_size,
            seq_len,
            seqlen_offset,
            Some(self.sliding_window),
            self.dtype,
            &self.device,
        )?;
        Ok((Some(mask), Some(sliding_mask)))
    }

    /// The logits of the last position.
    fn make_logits(&self, xs: &Traced, seq_len: usize) -> (r: Result<Traced, ModelError>)
        requires
            seq_len > 0,
            tensor::is_float(xs.dtype()),
        ensures
            r matches Ok(t) ==> t.expr() == self.logits(
                xs.expr(),
                xs.dims(),
                xs.dtype(),
                seq_len as int,
            ) && t.dims() == self.logits_dims(xs.dims()),
            r matches Err(e) ==> e is Candle,
            self.is_fit() && block::is_state(*xs) && xs.dtype() == self.dtype && xs.dims().len() == 3
                && xs.dims()[1] == seq_len && xs.dims()[2] == self.hidden_size ==> r is Ok,
    {
        let last = xs.narrow(1, seq_len - 1, 1)?;
        let ghost cut = last.dims();
        let last = self.norm.forward(&last)?;
        proof {
            if self.is_fit() && block::is_state(*xs) && xs.dims().len() == 3 && xs.dims()[2]
                == self.hidden_size {
                assert(tensor::has_entries(cut));
                self.norm.lemma_fit_dims(cut, self.dtype);
                self.lm_head.lemma_fit_dims(
                    self.hidden_size,
                    self.lm_head.rows(),
                    self.dtype,
                    cut,
                );
            }
        }
        let logits = self.lm_head.forward(&last)?;
        match &self.final_logit_softcapping {
            None => Ok(logits),
            Some(cap) => {
                let scaled = logits.over_number(cap)?;
                let bounded = scaled.tanh()?;
                bounded.times_number(cap)
            },
        }
    }

    /// Caches that are where a pass is when it reaches layer `n` are such as a pass that fails there
    /// leaves.
    proof fn lemma_left_at(
        &self,
        n: int,
        pass: TextPass,
        xs: Expr,
        dims: Seq<usize>,
        caches: Seq<LayerCache>,
        picks: Seq<Seq<Seq<usize>>>,
        after: Seq<LayerCache>,
    )
        requires
            0 <= n < after.len(),
            cache_views(after) == self.run(n as nat, pass, xs, dims, caches, picks).caches,
            forall|i: int| n <= i < after.len() ==> #[trigger] after[i] == caches[i],
        ensures
            self.is_left_at(n, pass, xs, dims, caches, picks, after),
    {
        assert forall|i: int| 0 <= i < n implies (#[trigger] after[i])@ == self.run(
            n as nat,
            pass,
            xs,
            dims,
            caches,
            picks,
        ).caches[i] by {
            assert(cache_views(after)[i] == after[i]@);
        }
    }

    /// What the first `n` layers put aside for a kind of layer, in main memory: keys and values of one
    /// of them that puts them aside.
    pub open spec fn aside_fits(
        &self,
        shared: SharedKvStates,
        is_sliding: bool,
        n: int,
        found: Seq<LayerCache>,
        batch: usize,
        seq_len: usize,
    ) -> bool {
        shared.at(!is_sliding) matches Some(kv) ==> exists|j: int|
            0 <= j < n && #[trigger] self.is_donor(j, is_sliding) && crate::attention::kv_lies(
                kv,
                self.layers@[j].self_attn.key_dims(batch, found[j].keys_with(seq_len as nat)),
                self.dtype,
            )
    }

    /// The number of positions that layer `i` attends: what its cache gives, or what was put aside.
    spec fn keys_of(
        &self,
        i: int,
        found: Seq<LayerCache>,
        shared: SharedKvStates,
        seq_len: usize,
    ) -> nat {
        let attn = self.layers@[i].self_attn;
        match attn.kv {
            FloatKvSource::Computed { .. } => found[i].keys_with(seq_len as nat),
            FloatKvSource::Shared => shared.at(!attn.is_sliding)->Some_0.0.dims()[2] as nat,
        }
    }

    /// A pass that fits the model and has run `n` of its layers: the hidden state, the masks, the
    /// inputs, the caches and what was put aside lie in main memory and have their shapes.
    #[verifier::opaque]
    spec fn is_under_way(
        &self,
        n: int,
        xs: Traced,
        mask: Option<Traced>,
        sliding_mask: Option<Traced>,
        inputs: Option<Traced>,
        found: Seq<LayerCache>,
        caches: Seq<LayerCache>,
        shared: SharedKvStates,
        batch: usize,
        seq_len: usize,
        offset: usize,
    ) -> bool {
        &&& self.is_fit()
        &&& self.caches_fit(found, batch, offset as nat)
        &&& self.covers(found, batch, seq_len, offset)
        &&& block::is_state(xs)
        &&& xs.dtype() == self.dtype
        &&& xs.dims() == seq![batch, seq_len, self.hidden_size]
        &&& self.mask_fits(mask, batch, seq_len, offset)
        &&& self.mask_fits(sliding_mask, batch, seq_len, offset)
        &&& self.inputs_fit(inputs, batch, seq_len)
        &&& caches.len() == self.layers@.len()
        &&& forall|j: int|
            0 <= j < n ==> self.layers@[j].self_attn.cache_fits(
                #[trigger] caches[j],
                batch,
                (offset + seq_len) as nat,
                self.dtype,
            )
        &&& forall|j: int| n <= j < caches.len() ==> #[trigger] caches[j] == found[j]
        &&& self.aside_fits(shared, true, n, found, batch, seq_len)
        &&& self.aside_fits(shared, false, n, found, batch, seq_len)
    }

    /// The per-layer inputs of a pass that fits the model have a slice for each layer.
    proof fn lemma_inputs_cover(
        &self,
        i: int,
        xs: Traced,
        mask: Option<Traced>,
        sliding_mask: Option<Traced>,
        inputs: Option<Traced>,
        found: Seq<LayerCache>,
        caches: Seq<LayerCache>,
        shared: SharedKvStates,
        batch: usize,
        seq_len: usize,
        offset: usize,
    )
        requires
            0 <= i < self.layers@.len() <= usize::MAX,
            self.is_under_way(
                i,
                xs,
                mask,
                sliding_mask,
                inputs,
                found,
                caches,
                shared,
                batch,
                seq_len,
                offset,
            ),
        ensures
            inputs matches Some(inputs) ==> inputs.dims().len() == 4 && i < inputs.dims()[2],
    {
        reveal(TextWeights::is_under_way);
    }

    /// Where a pass fits the model, what it gives to layer `i` fits the layer.
    proof fn lemma_layer_can_run(
        &self,
        i: int,
        xs: Traced,
        mask: Option<Traced>,
        sliding_mask: Option<Traced>,
        inputs: Option<Traced>,
        input: Option<Traced>,
        found: Seq<LayerCache>,
        caches: Seq<LayerCache>,
        shared: SharedKvStates,
        batch: usize,
        seq_len: usize,
        offset: usize,
    )
        requires
            0 <= i < self.layers@.len() <= usize::MAX,
            self.is_under_way(
                i,
                xs,
                mask,
                sliding_mask,
                inputs,
                found,
                caches,
                shared,
                batch,
                seq_len,
                offset,
            ),
            self.layers@[i].self_attn.kv is Shared ==> (self.lacks_donor(i) <==> shared@.get(
                !self.layers@[i].self_attn.is_sliding,
            ) is None),
            match (inputs, input) {
                (Some(inputs), Some(input)) => input.device() == inputs.device() && input.dtype()
                    == inputs.dtype() && input.dims() == inputs.dims().remove(2),
                (None, None) => true,
                _ => false,
            },
        ensures
            xs.dims() == seq![batch, seq_len, self.hidden_size],
            xs.dtype() == self.dtype,
            ({
                let own = if self.layers@[i].self_attn.is_sliding {
                    sliding_mask
                } else {
                    mask
                };
                self.layers@[i].can_run(
                    xs,
                    (match own {
                        Some(own) => Some(&own),
                        None => None,
                    }),
                    offset,
                    self.keys_of(i, found, shared, seq_len),
                    caches[i],
                    shared,
                    input,
                )
            }),
    {
        reveal(TextWeights::is_under_way);
        let layer = self.layers@[i];
        let attn = layer.self_attn;
        let (b, s, h) = (batch, seq_len, self.hidden_size);
        let keys = self.keys_of(i, found, shared, seq_len);
        assert(xs.dims()[0] == b && xs.dims()[1] == s && xs.dims()[2] == h);
        assert(b > 0 && s > 0 && h > 0);
        assert(layer.is_fit(h, self.input_dim(), self.dtype));
        assert(self.shares_alike(i));
        assert(caches[i] == found[i]);
        assert(attn.cache_fits(found[i], b, offset as nat, self.dtype));
        assert(self.aside_fits(shared, attn.is_sliding, i, found, b, s));
        if attn.kv is Shared {
            let kv = shared.at(!attn.is_sliding)->Some_0;
            let j = choose|j: int|
                0 <= j < i && #[trigger] self.is_donor(j, attn.is_sliding)
                    && crate::attention::kv_lies(
                    kv,
                    self.layers@[j].self_attn.key_dims(b, found[j].keys_with(s as nat)),
                    self.dtype,
                );
            let donor = self.layers@[j].self_attn;
            assert(donor.cache_fits(found[j], b, offset as nat, self.dtype));
            assert(self.layers@[j].is_fit(h, self.input_dim(), self.dtype));
            let heads = donor.kv->num_kv_heads;
            assert(heads * attn.num_kv_groups == attn.num_heads);
            assert(found[j].keys_with(s as nat) <= offset + s);
            assert(kv.0.dims()[2] == found[j].keys_with(s as nat));
            assert(keys == found[j].keys_with(s as nat));
            assert(crate::attention::kv_lies(
                kv,
                seq![b, heads, keys as usize, attn.head_dim],
                self.dtype,
            ));
            assert(attn.aside_fits(kv, b, keys, self.dtype));
        }
        if let Some(input) = input {
            assert(input.dims() =~= tensor::with_last(xs.dims(), input.dims().last()));
        }
        if layer.moe is Some {
            let tokens = b * s;
            assert(0 < tokens <= b * s * h && tokens * h == b * s * h) by (nonlinear_arith)
                requires
                    tokens == b * s,
                    b > 0,
                    s > 0,
                    h > 0,
            ;
            tensor::lemma_countable_2(tokens as usize, h);
            tensor::lemma_count_3(b, s, h);
            tensor::lemma_countable(xs.dims());
        }
    }

    /// A layer that leaves a hidden state of the same shape, its cache moved on, and what it puts
    /// aside, takes the pass one layer on.
    proof fn lemma_under_way_goes_on(
        &self,
        i: int,
        xs: Traced,
        next: Traced,
        mask: Option<Traced>,
        sliding_mask: Option<Traced>,
        inputs: Option<Traced>,
        found: Seq<LayerCache>,
        caches: Seq<LayerCache>,
        cache: LayerCache,
        shared: SharedKvStates,
        aside: SharedKvStates,
        batch: usize,
        seq_len: usize,
        offset: usize,
    )
        requires
            0 <= i < self.layers@.len(),
            self.is_under_way(
                i,
                xs,
                mask,
                sliding_mask,
                inputs,
                found,
                caches,
                shared,
                batch,
                seq_len,
                offset,
            ),
            next.is_ready(),
            next.dtype() == xs.dtype(),
            next.dims() == xs.dims(),
            self.layers@[i].self_attn.leaves(
                shared,
                aside,
                cache,
                batch,
                (offset + seq_len) as nat,
                self.keys_of(i, found, shared, seq_len),
                self.dtype,
            ),
        ensures
            self.is_under_way(
                i + 1,
                next,
                mask,
                sliding_mask,
                inputs,
                found,
                caches.update(i, cache),
                aside,
                batch,
                seq_len,
                offset,
            ),
    {
        reveal(TextWeights::is_under_way);
        let attn = self.layers@[i].self_attn;
        let after = caches.update(i, cache);
        assert forall|j: int| 0 <= j < i + 1 implies self.layers@[j].self_attn.cache_fits(
            #[trigger] after[j],
            batch,
            (offset + seq_len) as nat,
            self.dtype,
        ) by {
            if j < i {
                assert(after[j] == caches[j]);
            }
        }
        assert forall|j: int| i + 1 <= j < after.len() implies #[trigger] after[j] == found[j] by {
            assert(after[j] == caches[j]);
        }
        assert forall|g: bool| #[trigger]
            self.aside_fits(aside, g, i + 1, found, batch, seq_len) by {
            assert(self.aside_fits(shared, g, i, found, batch, seq_len)) by {
                if g {
                    assert(self.aside_fits(shared, true, i, found, batch, seq_len));
                } else {
                    assert(self.aside_fits(shared, false, i, found, batch, seq_len));
                }
            }
            if self.is_donor(i, g) {
                assert(aside.at(!g) is Some);
            } else {
                assert(aside.at(!g) == shared.at(!g)) by {
                    if g == attn.is_sliding {
                    } else {
                        assert(!g == attn.is_sliding);
                    }
                }
                if aside.at(!g) is Some {
                    let kv = shared.at(!g)->Some_0;
                    let j = choose|j: int|
                        0 <= j < i && #[trigger] self.is_donor(j, g) && crate::attention::kv_lies(
                            kv,
                            self.layers@[j].self_attn.key_dims(
                                batch,
                                found[j].keys_with(seq_len as nat),
                            ),
                            self.dtype,
                        );
                    assert(self.is_donor(j, g));
                }
            }
        }
    }

    /// A pass that succeeds: `can_pass` under a name of its own.
    #[verifier::opaque]
    spec fn is_taken(
        &self,
        ids: Traced,
        xs: Traced,
        offset: usize,
        batch: usize,
        seq_len: usize,
        caches: Seq<LayerCache>,
    ) -> bool {
        self.can_pass(ids, xs, offset, batch, seq_len, caches)
    }

    /// Runs the layers of a pass against their caches.
    #[verifier::rlimit(50)]
    fn run_layers(
        &self,
        ids: &Traced,
        embedded: &Traced,
        offset: usize,
        batch: usize,
        seq_len: usize,
        caches: &mut Vec<LayerCache>,
    ) -> (r: Result<Traced, ModelError>)
        requires
            old(caches)@.len() == self.layers@.len(),
            tensor::is_float(embedded.dtype()),
        ensures
            caches_alike(final(caches)@, old(caches)@),
            r is Ok ==> forall|i: int|
                0 <= i < self.layers@.len() ==> !#[trigger] self.refuses_layer(i),
            r matches Ok(t) ==> t.dtype() == embedded.dtype() && exists|
                picks: Seq<Seq<Seq<usize>>>,
            | #[trigger]
                self.are_picks(
                    self.pass(*ids, *embedded, offset, batch, seq_len),
                    embedded.expr(),
                    embedded.dims(),
                    old(caches)@,
                    picks,
                ) && ({
                    let end = self.run(
                        self.layers@.len(),
                        self.pass(*ids, *embedded, offset, batch, seq_len),
                        embedded.expr(),
                        embedded.dims(),
                        old(caches)@,
                        picks,
                    );
                    &&& t.expr() == end.xs
                    &&& t.dims() == end.dims
                    &&& cache_views(final(caches)@) == end.caches
                }),
            r matches Err(e) ==> {
                let pass = self.pass(*ids, *embedded, offset, batch, seq_len);
                let (xs, dims) = (embedded.expr(), embedded.dims());
                let after = final(caches)@;
                ||| self.prelude_may_fail_with(*ids, *embedded, offset, batch, seq_len, e) && after
                    == old(caches)@
                ||| exists|n: int, picks: Seq<Seq<Seq<usize>>>| #[trigger]
                    self.stops_at(n, pass, xs, dims, old(caches)@, picks, e) && self.is_left_at(
                        n,
                        pass,
                        xs,
                        dims,
                        old(caches)@,
                        picks,
                        after,
                    )
            },
            self.is_taken(*ids, *embedded, offset, batch, seq_len, old(caches)@) ==> {
                &&& r matches Ok(t) && block::is_state(t) && t.dims() == embedded.dims()
                &&& self.caches_fit(final(caches)@, batch, (offset + seq_len) as nat)
            },
    {
        let ghost fits = self.is_taken(*ids, *embedded, offset, batch, seq_len, caches@);
        proof {
            if fits {
                reveal(TextWeights::is_taken);
                assert(self.layers.len() == self.layers@.len());
                assert(self.can_make_inputs(*ids, *embedded, batch, seq_len));
            }
        }
        let (mask, sliding_mask) = self.create_attention_masks(batch, seq_len, offset)?;
        let inputs = self.make_per_layer_inputs(ids, embedded)?;
        let mut shared = SharedKvStates::new();
        let mut xs = embedded.duplicate();
        let ghost pass = self.pass(*ids, *embedded, offset, batch, seq_len);
        let ghost found = caches@;
        let ghost mut picks: Seq<Seq<Seq<usize>>> = Seq::empty();
        let mut i: usize = 0;
        proof {
            if fits {
                reveal(TextWeights::is_under_way);
                assert(forall|is_global: bool| (#[trigger] shared.at(is_global)) is None);
                assert(self.is_under_way(
                    0,
                    xs,
                    mask,
                    sliding_mask,
                    inputs,
                    found,
                    caches@,
                    shared,
                    batch,
                    seq_len,
                    offset,
                ));
            }
        }
        while i < self.layers.len()
            invariant
                i <= self.layers@.len(),
                fits == self.is_taken(*ids, *embedded, offset, batch, seq_len, found),
                fits ==> self.is_under_way(
                    i as int,
                    xs,
                    mask,
                    sliding_mask,
                    inputs,
                    found,
                    caches@,
                    shared,
                    batch,
                    seq_len,
                    offset,
                ),
                caches@.len() == self.layers@.len(),
                found == old(caches)@,
                caches_alike(caches@, found),
                forall|j: int| i <= j < caches@.len() ==> #[trigger] caches@[j] == found[j],
                xs.dtype() == embedded.dtype(),
                tensor::is_float(embedded.dtype()),
                crate::attention::made_has_columns(mask),
                crate::attention::made_has_columns(sliding_mask),
                shared.has_dtype(embedded.dtype()),
                pass == self.pass(*ids, *embedded, offset, batch, seq_len),
                mask_expr(mask) == pass.mask,
                mask_expr(sliding_mask) == pass.sliding_mask,
                layer::input_view(inputs) == pass.inputs,
                inputs is Some <==> self.ple is Some,
                picks.len() == i,
                forall|j: int|
                    0 <= j < i ==> #[trigger] self.layer_picks(
                        j,
                        pass,
                        embedded.expr(),
                        embedded.dims(),
                        found,
                        picks,
                    ),
                forall|j: int| 0 <= j < i ==> !#[trigger] self.refuses_layer(j),
                self.run(i as nat, pass, embedded.expr(), embedded.dims(), found, picks) == (
                TextState {
                    xs: xs.expr(),
                    dims: xs.dims(),
                    caches: cache_views(caches@),
                    shared: shared@,
                }),
            decreases self.layers@.len() - i,
        {
            let layer = &self.layers[i];
            let layer_mask: Option<&Traced> = if layer.self_attn.is_sliding {
                sliding_mask.as_ref()
            } else {
                mask.as_ref()
            };
            let ghost before = caches@;
            proof {
                if fits {
                    self.lemma_inputs_cover(
                        i as int,
                        xs,
                        mask,
                        sliding_mask,
                        inputs,
                        found,
                        caches@,
                        shared,
                        batch,
                        seq_len,
                        offset,
                    );
                }
            }
            let input = match &inputs {
                Some(inputs) => match inputs.get_on_dim(2, i) {
                    Ok(input) => Some(input),
                    Err(e) => {
                        proof {
                            let (first, first_dims) = (embedded.expr(), embedded.dims());
                            assert(self.stops_at(
                                i as int,
                                pass,
                                first,
                                first_dims,
                                found,
                                picks,
                                e,
                            ));
                            self.lemma_left_at(i as int, pass, first, first_dims, found, picks, caches@);
                        }
                        return Err(e);
                    },
                },
                None => None,
            };
            let ghost (xs_before, dims_before, shared_before) = (xs.expr(), xs.dims(), shared@);
            proof {
                law_put_aside_by_donors(
                    *self,
                    i as nat,
                    pass,
                    embedded.expr(),
                    embedded.dims(),
                    found,
                    picks,
                    layer.self_attn.is_sliding,
                );
                assert(layer.self_attn.kv is Shared ==> (self.lacks_donor(i as int)
                    <==> shared@.get(!layer.self_attn.is_sliding) is None));
                if fits {
                    self.lemma_layer_can_run(
                        i as int,
                        xs,
                        mask,
                        sliding_mask,
                        inputs,
                        input,
                        found,
                        caches@,
                        shared,
                        batch,
                        seq_len,
                        offset,
                    );
                }
            }
            let ghost (state_before, aside_before) = (xs, shared);
            let result = layer.forward(
                i,
                &xs,
                layer_mask,
                offset,
                &input,
                &mut caches[i],
                &mut shared,
            );
            assert(caches_alike(caches@, found)) by {
                assert forall|j: int| 0 <= j < caches@.len() implies (#[trigger] caches@[j]).is_like(
                    found[j],
                ) by {
                    if j != i {
                        assert(caches@[j] == before[j]);
                    }
                }
            }
            xs = match result {
                Ok(xs) => xs,
                Err(e) => {
                    proof {
                        let (first, first_dims) = (embedded.expr(), embedded.dims());
                        assert(self.stops_at(i as int, pass, first, first_dims, found, picks, e));
                        self.lemma_left_at(i as int, pass, first, first_dims, found, picks, before);
                        assert(self.is_left_at(
                            i as int,
                            pass,
                            first,
                            first_dims,
                            found,
                            picks,
                            caches@,
                        ));
                    }
                    return Err(e);
                },
            };
            proof {
                if fits {
                    self.lemma_under_way_goes_on(
                        i as int,
                        state_before,
                        xs,
                        mask,
                        sliding_mask,
                        inputs,
                        found,
                        before,
                        caches@[i as int],
                        aside_before,
                        shared,
                        batch,
                        seq_len,
                        offset,
                    );
                    assert(caches@ =~= before.update(i as int, caches@[i as int]));
                }
                let resid = layer.attended(
                    xs_before,
                    dims_before,
                    pass.dtype,
                    crate::attention::mask_view(layer_mask),
                    offset as nat,
                    before[i as int],
                    shared_before,
                );
                let next = choose|next: Seq<Seq<usize>>| #[trigger]
                    layer.are_picks(resid, dims_before, pass.dtype, next) && ({
                        let step = layer.step(
                            xs_before,
                            dims_before,
                            pass.dtype,
                            crate::attention::mask_view(layer_mask),
                            offset as nat,
                            before[i as int],
                            shared_before,
                            layer::input_view(input),
                            next,
                        );
                        &&& xs.expr() == step.xs
                        &&& xs.dims() == step.dims
                        &&& caches@[i as int]@ == step.cache
                        &&& shared@ == step.shared
                    });
                let old_picks = picks;
                lemma_run_prefix(
                    *self,
                    i as nat,
                    pass,
                    embedded.expr(),
                    embedded.dims(),
                    found,
                    old_picks,
                    next,
                );
                picks = old_picks.push(next);
                assert(cache_views(caches@) =~= cache_views(before).update(
                    i as int,
                    caches@[i as int]@,
                ));
                assert(layer::input_view(input) == self.input_of(pass.inputs, i as nat));
                let (first, first_dims) = (embedded.expr(), embedded.dims());
                assert forall|j: int| 0 <= j < i + 1 implies #[trigger] self.layer_picks(
                    j,
                    pass,
                    first,
                    first_dims,
                    found,
                    picks,
                ) by {
                    lemma_run_prefix(
                        *self,
                        j as nat,
                        pass,
                        first,
                        first_dims,
                        found,
                        old_picks,
                        next,
                    );
                    if j < i {
                        assert(self.layer_picks(j, pass, first, first_dims, found, old_picks));
                        assert(picks[j] == old_picks[j]);
                    }
                }
            }
            i = i + 1;
        }
        proof {
            assert(self.are_picks(pass, embedded.expr(), embedded.dims(), found, picks));
            if fits {
                reveal(TextWeights::is_under_way);
            }
        }
        Ok(xs)
    }
}

/// The record of a mask that may be absent.
pub open spec fn mask_expr(mask: Option<Traced>) -> Option<Expr> {
    match mask {
        Some(mask) => Some(mask.expr()),
        None => None,
    }
}

/// A float model: its weights, and the cache of each layer.
pub struct TextModel {
    weights: TextWeights,
    caches: Vec<LayerCache>,
}

/// What a pass that is not refused and fails does to a model's caches, and what it can fail with.
pub open spec fn failed_pass_outcome(
    w: TextWeights,
    ids: Traced,
    xs: Traced,
    offset: usize,
    batch: usize,
    seq_len: usize,
    before: Seq<LayerCache>,
    after: Seq<LayerCache>,
    e: ModelError,
) -> bool {
    let pass = w.pass(ids, xs, offset, batch, seq_len);
    ||| w.prelude_may_fail_with(ids, xs, offset, batch, seq_len, e) && after == before
    ||| exists|n: int, picks: Seq<Seq<Seq<usize>>>| #[trigger]
        w.stops_at(n, pass, xs.expr(), xs.dims(), before, picks, e) && w.is_left_at(
            n,
            pass,
            xs.expr(),
            xs.dims(),
            before,
            picks,
            after,
        )
    ||| e is Candle && exists|picks: Seq<Seq<Seq<usize>>>| #[trigger]
        w.are_picks(pass, xs.expr(), xs.dims(), before, picks) && cache_views(after) == w.run(
            w.layers@.len(),
            pass,
            xs.expr(),
            xs.dims(),
            before,
            picks,
        ).caches
}

/// What a pass over the embeddings `xs` of `ids` does to a model's caches, and what it gives.
///
/// - A pass over no positions, or over embeddings that are no floats, is refused, and the caches
///   stay as they were.
/// - Else the result is what the layers make of the embeddings and the caches: the logits of the
///   last position. In a model whose parameters have their own shapes, theirs is batch, one, and
///   the number of tokens.
/// - Where the pass fails before its first layer the caches stay as they were; where it fails in a
///   layer, the caches of the layers before are moved on and those of the layers behind stay.
pub open spec fn pass_outcome(
    w: TextWeights,
    ids: Traced,
    xs: Traced,
    offset: usize,
    batch: usize,
    seq_len: usize,
    before: Seq<LayerCache>,
    after: Seq<LayerCache>,
    r: Result<Traced, ModelError>,
) -> bool {
    &&& caches_alike(after, before)
    &&& if seq_len == 0 {
        r == Err::<Traced, ModelError>(ModelError::EmptyInput) && after == before
    } else if !tensor::is_float(xs.dtype()) {
        r == Err::<Traced, ModelError>(ModelError::NotFloat) && after == before
    } else {
        match r {
            Ok(t) => {
                &&& forall|i: int| 0 <= i < w.layers@.len() ==> !#[trigger] w.refuses_layer(i)
                &&& exists|picks: Seq<Seq<Seq<usize>>>| #[trigger]
                    w.are_picks(
                        w.pass(ids, xs, offset, batch, seq_len),
                        xs.expr(),
                        xs.dims(),
                        before,
                        picks,
                    ) && ({
                        let end = w.run(
                            w.layers@.len(),
                            w.pass(ids, xs, offset, batch, seq_len),
                            xs.expr(),
                            xs.dims(),
                            before,
                            picks,
                        );
                        &&& t.expr() == w.logits(end.xs, end.dims, xs.dtype(), seq_len as int)
                        &&& t.dims() == w.logits_dims(end.dims)
                        &&& cache_views(after) == end.caches
                    })
                &&& xs.dims().len() == 3 && w.has_plain_shapes(xs.dims()[2]) ==> t.dims() == seq![
                    xs.dims()[0],
                    1,
                    w.lm_head.rows(),
                ]
            },
            Err(e) => failed_pass_outcome(
                w,
                ids,
                xs,
                offset,
                batch,
                seq_len,
                before,
                after,
                e,
            ),
        }
    }
}

/// A pass over identifiers, so many positions having gone before, succeeds: the model, the identifiers
/// and the caches lie in main memory and fit.
pub open spec fn can_forward(
    w: TextWeights,
    ids: Traced,
    offset: usize,
    caches: Seq<LayerCache>,
) -> bool {
    let dims = ids.dims();
    &&& dims.len() == 2
    &&& tensor::has_entries(dims)
    &&& w.is_fit()
    &&& w.embed_tokens.has_rows(ids)
    &&& w.ple matches Some(ple) ==> ple.embed_tokens_per_layer.has_rows(ids)
    &&& w.caches_fit(caches, dims[0], offset as nat)
    &&& w.covers(caches, dims[0], dims[1], offset)
}

/// Caches that hold no place for positions, to stand in while the model's own are worked on.
fn spare_caches(n: usize) -> (r: Vec<LayerCache>)
    ensures
        r@.len() == n,
{
    let mut caches: Vec<LayerCache> = Vec::new();
    let mut i: usize = 0;
    while i < n
        invariant
            i <= n,
            caches@.len() == i,
        decreases n - i,
    {
        caches.push(LayerCache::Normal(GrowingCache::new(0)));
        i = i + 1;
    }
    caches
}

impl TextModel {
    /// The weights.
    pub closed spec fn weights(&self) -> TextWeights {
        self.weights
    }

    /// The caches, one per layer.
    pub closed spec fn caches(&self) -> Seq<LayerCache> {
        self.caches@
    }

    /// There is a cache for every layer.
    #[verifier::type_invariant]
    spec fn is_complete(&self) -> bool {
        self.caches@.len() == self.weights.layers@.len()
    }

    /// The scaled embeddings of identifiers.
    pub fn embed_tokens(&self, input_ids: &Traced) -> (r: Result<Traced, ModelError>)
        ensures
            r matches Ok(t) ==> t.expr() == self.weights().embedded(input_ids.expr()) && t.dims()
                == input_ids.dims().push(self.weights().embed_tokens.width()) && t.dtype()
                == self.weights().embed_tokens.dtype(),
            r is Ok ==> tensor::is_float(self.weights().embed_tokens.dtype()),
            r matches Err(e) ==> e is Candle || (e is NotFloat && !tensor::is_float(
                self.weights().embed_tokens.dtype(),
            )),
            tensor::succeeds(
                r,
                self.weights().embed_tokens.has_rows(*input_ids) && tensor::has_products(
                    self.weights().embed_tokens.dtype(),
                ) && tensor::has_entries(input_ids.dims()) && self.weights().embed_tokens.width()
                    > 0,
            ),
    {
        self.weights.embed(input_ids)
    }

    /// A forward pass over identifiers, `seqlen_offset` positions having gone before.
    pub fn forward(&mut self, input_ids: &Traced, seqlen_offset: usize) -> (r: Result<
        Traced,
        ModelError,
    >)
        ensures
            final(self).weights() == old(self).weights(),
            input_ids.dims().len() != 2 ==> r == Err::<Traced, ModelError>(
                ModelError::Rank { expected: 2, got: input_ids.dims().len() as usize },
            ) && final(self).caches() == old(self).caches(),
            input_ids.dims().len() == 2 ==> {
                let w = old(self).weights();
                ||| {
                    &&& final(self).caches() == old(self).caches()
                    &&& r matches Err(e) && (e is Candle || (e is NotFloat && !tensor::is_float(
                        w.embed_tokens.dtype(),
                    )))
                }
                ||| exists|xs: Traced|
                    xs.expr() == w.embedded(input_ids.expr()) && xs.dims()
                        == input_ids.dims().push(w.embed_tokens.width()) && xs.dtype()
                        == w.embed_tokens.dtype() && #[trigger] pass_outcome(
                        w,
                        *input_ids,
                        xs,
                        seqlen_offset,
                        input_ids.dims()[0],
                        input_ids.dims()[1],
                        old(self).caches(),
                        final(self).caches(),
                        r,
                    )
            },
            caches_alike(final(self).caches(), old(self).caches()),
            can_forward(old(self).weights(), *input_ids, seqlen_offset, old(self).caches()) ==> r is Ok
                && old(self).weights().caches_fit(
                final(self).caches(),
                input_ids.dims()[0],
                (seqlen_offset + input_ids.dims()[1]) as nat,
            ),
    {
        proof {
            if can_forward(self.weights(), *input_ids, seqlen_offset, self.caches()) {
                let dims = input_ids.dims();
                assert(dims.push(self.weights().hidden_size) =~= seq![
                    dims[0],
                    dims[1],
                    self.weights().hidden_size,
                ]);
                assert(dims =~= seq![dims[0], dims[1]]);
            }
        }
        let (b_size, seq_len): (usize, usize) = input_ids.dims2()?;
        let xs = self.embed_tokens(input_ids)?;
        self.forward_embeds(input_ids, &xs, seqlen_offset, b_size, seq_len)
    }

    /// A forward pass over embeddings, `seqlen_offset` positions having gone before. The identifiers
    /// give the per-layer inputs of a model that has them.
    #[verifier::rlimit(50)]
    pub fn forward_embeds(
        &mut self,
        input_ids: &Traced,
        xs: &Traced,
        seqlen_offset: usize,
        batch_size: usize,
        seq_len: usize,
    ) -> (r: Result<Traced, ModelError>)
        ensures
            final(self).weights() == old(self).weights(),
            pass_outcome(
                old(self).weights(),
                *input_ids,
                *xs,
                seqlen_offset,
                batch_size,
                seq_len,
                old(self).caches(),
                final(self).caches(),
                r,
            ),
            old(self).weights().can_pass(
                *input_ids,
                *xs,
                seqlen_offset,
                batch_size,
                seq_len,
                old(self).caches(),
            ) ==> r is Ok && old(self).weights().caches_fit(
                final(self).caches(),
                batch_size,
                (seqlen_offset + seq_len) as nat,
            ),
    {
        proof {
            if self.weights().can_pass(
                *input_ids,
                *xs,
                seqlen_offset,
                batch_size,
                seq_len,
                self.caches(),
            ) {
                reveal(TextWeights::is_taken);
                assert(xs.dims()[1] > 0);
            }
        }
        if seq_len == 0 {
            return Err(ModelError::EmptyInput);
        }
        if !xs.holds_floats() {
            return Err(ModelError::NotFloat);
        }
        proof {
            use_type_invariant(&*self);
        }
        let mut caches = spare_caches(self.weights.layers.len());
        std::mem::swap(&mut caches, &mut self.caches);
        let result = self.weights.run_layers(
            input_ids,
            xs,
            seqlen_offset,
            batch_size,
            seq_len,
            &mut caches,
        );
        self.caches = caches;
        match result {
            Ok(hidden) => {
                proof {
                    let w = self.weights;
                    let pass = w.pass(*input_ids, *xs, seqlen_offset, batch_size, seq_len);
                    let found = old(self).caches();
                    if xs.dims().len() == 3 && w.has_plain_shapes(xs.dims()[2]) {
                        let picks = choose|picks: Seq<Seq<Seq<usize>>>| #[trigger]
                            w.are_picks(pass, xs.expr(), xs.dims(), found, picks) && w.run(
                                w.layers@.len(),
                                pass,
                                xs.expr(),
                                xs.dims(),
                                found,
                                picks,
                            ).dims == hidden.dims();
                        lemma_plain_dims(
                            w,
                            w.layers@.len(),
                            pass,
                            xs.expr(),
                            xs.dims(),
                            found,
                            picks,
                            xs.dims()[2],
                        );
                        let last = xs.dims().update(1, 1);
                        assert(tensor::broadcast_dims(last, w.norm.weight.dims()) =~= last);
                        w.lm_head.lemma_dims(last);
                        assert(w.logits_dims(hidden.dims()) =~= seq![
                            xs.dims()[0],
                            1usize,
                            w.lm_head.rows(),
                        ]);
                    }
                }
                self.weights.make_logits(&hidden, seq_len)
            },
            Err(e) => Err(e),
        }
    }

    /// Empties every cache.
    pub fn clear_kv_cache(&mut self)
        ensures
            final(self).weights() == old(self).weights(),
            caches_alike(final(self).caches(), old(self).caches()),
            forall|i: int|
                0 <= i < final(self).caches().len() ==> (#[trigger] final(self).caches()[i])@
                    == CacheView::empty() && final(self).caches()[i].filling() is None,
    {
        proof {
            use_type_invariant(&*self);
        }
        let mut caches = spare_caches(self.weights.layers.len());
        std::mem::swap(&mut caches, &mut self.caches);
        let ghost found = caches@;
        let mut i: usize = 0;
        while i < caches.len()
            invariant
                i <= caches@.len(),
                caches_alike(caches@, found),
                forall|j: int|
                    0 <= j < i ==> (#[trigger] caches@[j])@ == CacheView::empty()
                        && caches@[j].filling() is None,
                forall|j: int| i <= j < caches@.len() ==> #[trigger] caches@[j] == found[j],
            decreases caches@.len() - i,
        {
            let ghost before = caches@;
            caches[i].reset();
            assert(caches_alike(caches@, found)) by {
                assert forall|j: int| 0 <= j < caches@.len() implies (#[trigger] caches@[j]).is_like(
                    found[j],
                ) by {
                    if j != i {
                        assert(caches@[j] == before[j]);
                    }
                }
            }
            i = i + 1;
        }
        self.caches = caches;
    }
}

/// The rotary table of full layers.
pub open spec fn is_global_rotary(
    cfg: Gemma4TextConfig,
    angles: usize,
    dtype: candle_core::DType,
    device: candle_core::Device,
    t: RotaryEmbedding,
) -> bool {
    let head_dim = cfg.global_head_dim;
    let single = candle_core::DType::F32;
    let table = rotary::angles_expr(
        rotary::inv_freq_expr(
            cfg.rope_theta.expr(),
            angles as nat,
            (head_dim / 2 - angles) as usize,
            head_dim as int,
            single,
            device,
        ),
        cfg.max_position_embeddings as u32,
        single,
        device,
    );
    &&& t.sin() == tensor::cast(tensor::unary(UnaryOp::Sin, table), dtype)
    &&& t.cos() == tensor::cast(tensor::unary(UnaryOp::Cos, table), dtype)
    &&& t.has_shape(cfg.max_position_embeddings, head_dim / 2)
}

/// The rotary table of sliding layers.
pub open spec fn is_local_rotary(
    cfg: Gemma4TextConfig,
    dtype: candle_core::DType,
    device: candle_core::Device,
    t: RotaryEmbedding,
) -> bool {
    let rates = rotary::inv_freq_expr(
        cfg.rope_local_base_freq.expr(),
        ((cfg.head_dim + 1) / 2) as nat,
        0,
        cfg.head_dim as int,
        candle_core::DType::F64,
        device,
    );
    let table = rotary::angles_expr(
        tensor::cast(rates, dtype),
        cfg.max_position_embeddings as u32,
        dtype,
        device,
    );
    &&& t.sin() == tensor::unary(UnaryOp::Sin, table)
    &&& t.cos() == tensor::unary(UnaryOp::Cos, table)
    &&& t.has_shape(cfg.max_position_embeddings, ((cfg.head_dim + 1) / 2) as usize)
}

/// The share of a full layer's head that rotates, times half the head: how many of its pairs rotate.
pub open spec fn global_angles_number(cfg: Gemma4TextConfig) -> NumberExpr {
    NumberExpr::Over(
        Box::new(
            NumberExpr::Times(
                Box::new(cfg.partial_rotary_factor.expr()),
                Box::new(NumberExpr::Int(cfg.global_head_dim as int)),
            ),
        ),
        Box::new(NumberExpr::Int(2)),
    )
}

/// So many pairs of a full layer's head rotate: the number cut down to a whole one. Where the share
/// is no product or quotient of given numbers, the whole number next to it is left open.
pub open spec fn are_angles(cfg: Gemma4TextConfig, angles: usize) -> bool {
    cfg.partial_rotary_factor.expr().is_rational() ==> angles == tensor::truncated(
        global_angles_number(cfg),
    )
}

/// The model that a shape and parameters give.
pub open spec fn is_model(
    cfg: Gemma4TextConfig,
    angles: usize,
    path: Place,
    dtype: candle_core::DType,
    device: candle_core::Device,
    w: TextWeights,
    caches: Seq<LayerCache>,
) -> bool {
    let hidden = cfg.hidden_size;
    let eps = cfg.rms_norm_eps.expr();
    &&& w.embed_tokens.rows_expr() == layers::param(
        path.push("embed_tokens"@),
        "weight"@,
        seq![cfg.vocab_size, hidden],
    )
    &&& w.embed_tokens.width() == hidden
    &&& w.norm.is_at(path.push("norm"@), hidden, eps)
    &&& if cfg.tie_word_embeddings {
        w.lm_head.weight() == w.embed_tokens.rows_expr() && w.lm_head.bias() is None
    } else {
        w.lm_head.is_at(path.push("lm_head"@), hidden, cfg.vocab_size, false)
    }
    &&& cap_view(w.final_logit_softcapping) == cap_view(cfg.final_logit_softcapping)
    &&& w.device == device
    &&& w.dtype == dtype
    &&& w.hidden_size == hidden
    &&& w.sliding_window == cfg.sliding_window
    &&& w.layers@.len() == cfg.num_hidden_layers
    &&& caches.len() == cfg.num_hidden_layers
    &&& forall|i: int|
        0 <= i < w.layers@.len() ==> {
            let rotary = (#[trigger] w.layers@[i]).self_attn.rotary;
            &&& w.layers@[i].is_at(
                cfg,
                path.push("layers"@).push(names::decimal(i as nat)),
                i,
                rotary,
            )
            &&& if cfg.slides(i) {
                is_local_rotary(cfg, dtype, device, rotary)
            } else {
                is_global_rotary(cfg, angles, dtype, device, rotary)
            }
        }
    &&& forall|i: int|
        0 <= i < caches.len() ==> (#[trigger] caches[i]).is_for(cfg, i) && caches[i]@
            == CacheView::empty()
    &&& match w.ple {
        Some(ple) => {
            let width = cfg.hidden_size_per_layer_input;
            let all = (cfg.num_hidden_layers * width) as usize;
            &&& width > 0
            &&& ple.hidden_size_per_layer_input == width
            &&& ple.embed_tokens_per_layer.rows_expr() == layers::param(
                path.push("embed_tokens_per_layer"@),
                "weight"@,
                seq![cfg.vocab_size_per_layer_input, all],
            )
            &&& ple.per_layer_model_projection.is_at(
                path.push("per_layer_model_projection"@),
                hidden,
                all,
                false,
            )
            &&& ple.per_layer_projection_norm.is_at(
                path.push("per_layer_projection_norm"@),
                width,
                eps,
            )
        },
        None => cfg.hidden_size_per_layer_input == 0,
    }
}

/// The record of a cap that may be absent.
pub open spec fn cap_view(cap: Option<Number>) -> Option<NumberExpr> {
    match cap {
        Some(cap) => Some(cap.expr()),
        None => None,
    }
}

/// More pairs of a full layer's head are to rotate than it holds.
pub open spec fn refuses_angles(cfg: Gemma4TextConfig, e: ModelError) -> bool {
    e matches ModelError::RotaryAngles { angles, head_dim } && head_dim == cfg.global_head_dim
        && angles > head_dim / 2 && are_angles(cfg, angles)
}

/// More positions are asked for than are counted in the rotary tables, or a head as large as the
/// largest count.
pub open spec fn tables_too_large(cfg: Gemma4TextConfig) -> bool {
    cfg.max_position_embeddings > u32::MAX || cfg.head_dim == usize::MAX
}

/// The rotary tables of full and of sliding layers can be made: they hold entries that are counted,
/// and no more pairs rotate than there are.
pub open spec fn has_angles(cfg: Gemma4TextConfig) -> bool {
    &&& !tables_too_large(cfg)
    &&& cfg.max_position_embeddings > 0
    &&& cfg.head_dim > 0
    &&& cfg.global_head_dim >= 2
    &&& forall|angles: usize| #[trigger]
        are_angles(cfg, angles) ==> angles <= cfg.global_head_dim / 2
}

/// The rotary tables of full and of sliding layers, and how many pairs rotate in the former.
fn make_rotary(cfg: &Gemma4TextConfig, params: &Params) -> (r: Result<
    (RotaryEmbedding, RotaryEmbedding, usize),
    ModelError,
>)
    requires
        tensor::is_float(params.dtype()),
    ensures
        r matches Ok(t) ==> are_angles(*cfg, t.2) && is_global_rotary(
            *cfg,
            t.2,
            params.dtype(),
            params.device(),
            t.0,
        ) && is_local_rotary(*cfg, params.dtype(), params.device(), t.1),
        r matches Err(e) ==> e is Candle || refuses_angles(*cfg, e) || (e is ShapeTooLarge
            && tables_too_large(*cfg)),
        tables_too_large(*cfg) ==> r is Err && r->Err_0 is ShapeTooLarge,
        tensor::is_main_memory(params.device()) && tensor::has_products(params.dtype())
            && has_angles(*cfg) ==> (r matches Ok(t) && t.0.is_ready(params.dtype())
            && t.1.is_ready(params.dtype())),
{
    let dtype = params.element_type();
    let device = params.on_device();
    let size: usize = cfg.max_position_embeddings;
    if size > u32::MAX as usize || cfg.head_dim == usize::MAX {
        return Err(ModelError::ShapeTooLarge);
    }
    let positions: u32 = size as u32;
    let head = Number::count(cfg.global_head_dim);
    let share = cfg.partial_rotary_factor.times(&head).over(&Number::whole(2));
    proof {
        reveal_with_fuel(NumberExpr::is_rational, 4);
    }
    let angles: usize = share.truncate();
    assert(are_angles(*cfg, angles));
    if angles > cfg.global_head_dim / 2 {
        return Err(ModelError::RotaryAngles { angles, head_dim: cfg.global_head_dim });
    }
    let global = RotaryEmbedding::proportional(
        cfg.global_head_dim,
        angles,
        &cfg.rope_theta,
        positions,
        dtype,
        &device,
    )?;
    let local = RotaryEmbedding::standard(
        cfg.head_dim,
        &cfg.rope_local_base_freq,
        positions,
        dtype,
        &device,
    )?;
    Ok((global, local, angles))
}

/// `usize` cannot count the per-layer inputs of a token over all layers.
pub open spec fn inputs_too_wide(cfg: Gemma4TextConfig) -> bool {
    cfg.num_hidden_layers * cfg.hidden_size_per_layer_input > usize::MAX
}

/// The model's part of the per-layer inputs, where it has one.
fn make_ple(cfg: &Gemma4TextConfig, params: &Params) -> (r: Result<
    Option<FloatPerLayerEmbeddings>,
    ModelError,
>)
    ensures
        r matches Ok(ple) ==> match ple {
            Some(ple) => {
                let width = cfg.hidden_size_per_layer_input;
                let all = (cfg.num_hidden_layers * width) as usize;
                &&& width > 0
                &&& ple.hidden_size_per_layer_input == width
                &&& ple.embed_tokens_per_layer.rows_expr() == layers::param(
                    params.path().push("embed_tokens_per_layer"@),
                    "weight"@,
                    seq![cfg.vocab_size_per_layer_input, all],
                )
                &&& ple.per_layer_model_projection.is_at(
                    params.path().push("per_layer_model_projection"@),
                    cfg.hidden_size,
                    all,
                    false,
                )
                &&& ple.per_layer_projection_norm.is_at(
                    params.path().push("per_layer_projection_norm"@),
                    width,
                    cfg.rms_norm_eps.expr(),
                )
            },
            None => cfg.hidden_size_per_layer_input == 0,
        },
        r matches Err(e) ==> e is Candle || (e is ShapeTooLarge && inputs_too_wide(*cfg)),
        cfg.hidden_size_per_layer_input == 0 ==> r is Ok,
        FloatPerLayerEmbeddings::has_params(*cfg, params.path()) && !inputs_too_wide(*cfg) ==> (
        r matches Ok(ple) && (ple matches Some(ple) ==> cfg.num_hidden_layers > 0 ==> ple.is_fit(
            cfg.num_hidden_layers as nat,
            cfg.hidden_size,
            layers::store_dtype(params.path().store),
        ))),
{
    let width: usize = cfg.hidden_size_per_layer_input;
    if width == 0 {
        return Ok(None);
    }
    let all: usize = attn::product(cfg.num_hidden_layers, width)?;
    let embed_tokens_per_layer = Table::new(
        cfg.vocab_size_per_layer_input,
        all,
        &params.pp("embed_tokens_per_layer"),
    )?;
    proof {
        let dtype = layers::store_dtype(params.path().store);
        if embed_tokens_per_layer.fits(cfg.vocab_size_per_layer_input, all, dtype) {
            embed_tokens_per_layer.lemma_fits(cfg.vocab_size_per_layer_input, all, dtype);
        }
    }
    let per_layer_model_projection = Projection::new(
        cfg.hidden_size,
        all,
        false,
        &params.pp("per_layer_model_projection"),
    )?;
    let per_layer_projection_norm = FloatNorm::new(
        width,
        &cfg.rms_norm_eps,
        &params.pp("per_layer_projection_norm"),
    )?;
    Ok(
        Some(
            FloatPerLayerEmbeddings {
                hidden_size_per_layer_input: width,
                embed_tokens_per_layer,
                per_layer_model_projection,
                per_layer_projection_norm,
            },
        ),
    )
}

/// The place of the parameters of layer `i`.
pub open spec fn layer_place(path: Place, i: int) -> Place {
    path.push("layers"@).push(names::decimal(i as nat))
}

/// There are the parameters of a model at a place.
pub open spec fn has_params(cfg: Gemma4TextConfig, path: Place) -> bool {
    let hidden = cfg.hidden_size;
    &&& layers::has_param(path.push("embed_tokens"@), "weight"@, seq![cfg.vocab_size, hidden])
    &&& forall|i: int|
        0 <= i < cfg.num_hidden_layers ==> DecoderLayer::has_params(
            cfg,
            #[trigger] layer_place(path, i),
            i,
        )
    &&& layers::has_param(path.push("norm"@), "weight"@, seq![hidden])
    &&& !cfg.tie_word_embeddings ==> layers::has_projection(
        path.push("lm_head"@),
        hidden,
        cfg.vocab_size,
        false,
    )
    &&& FloatPerLayerEmbeddings::has_params(cfg, path)
}

/// The settings of a model are there, and `usize` can count what they ask for.
pub open spec fn can_be_built(cfg: Gemma4TextConfig) -> bool {
    &&& cfg.num_hidden_layers <= cfg.layer_types@.len()
    &&& has_angles(cfg)
    &&& !inputs_too_wide(cfg)
    &&& forall|i: int|
        0 <= i < cfg.num_hidden_layers ==> #[trigger] DecoderLayer::can_be_built(cfg, i)
}

/// The settings of a model make one that runs: each layer runs, and one that shares finds what it
/// shares.
pub open spec fn can_run_with(cfg: Gemma4TextConfig) -> bool {
    &&& cfg.hidden_size > 0
    &&& cfg.vocab_size > 0
    &&& cfg.num_hidden_layers > 0
    &&& cfg.effective_sliding_window > 0
    &&& forall|i: int|
        0 <= i < cfg.num_hidden_layers ==> #[trigger] DecoderLayer::can_run_with(cfg, i)
    &&& forall|i: int|
        cfg.first_shared() <= i < cfg.num_hidden_layers ==> exists|j: int|
            0 <= j < cfg.first_shared() && #[trigger] cfg.layer_types@[j]
                == #[trigger] cfg.layer_types@[i]
}

/// A model that was built of parameters at hand, of settings that make one that runs, fits together.
proof fn lemma_model_is_fit(
    cfg: Gemma4TextConfig,
    angles: usize,
    path: Place,
    dtype: candle_core::DType,
    device: candle_core::Device,
    w: TextWeights,
    caches: Seq<LayerCache>,
)
    requires
        is_model(cfg, angles, path, dtype, device, w, caches),
        cfg.num_hidden_layers <= cfg.layer_types@.len(),
        cfg.max_position_embeddings > 0,
        can_run_with(cfg),
        tensor::is_main_memory(device),
        tensor::has_products(dtype),
        w.embed_tokens.fits(cfg.vocab_size, cfg.hidden_size, dtype),
        w.norm.fits(cfg.hidden_size, dtype),
        w.lm_head.fits(cfg.hidden_size, cfg.vocab_size, dtype),
        w.ple matches Some(ple) ==> ple.is_fit(w.layers@.len(), cfg.hidden_size, dtype),
        forall|i: int|
            0 <= i < w.layers@.len() ==> (#[trigger] w.layers@[i]).is_fit(
                cfg.hidden_size,
                w.input_dim(),
                dtype,
            ),
        forall|i: int| 0 <= i < caches.len() ==> (#[trigger] caches[i]).filling() is None,
    ensures
        w.is_fit(),
        forall|batch: usize| #[trigger] w.caches_fit(caches, batch, 0),
{
    w.embed_tokens.lemma_fits(cfg.vocab_size, cfg.hidden_size, dtype);
    w.lm_head.lemma_fit_dims(cfg.hidden_size, cfg.vocab_size, dtype, seq![1usize]);
    assert forall|i: int| 0 <= i < w.layers@.len() implies w.shares_alike(i) by {
        let attn = w.layers@[i].self_attn;
        assert(DecoderLayer::can_run_with(cfg, i));
        if attn.kv is Shared {
            let j = choose|j: int|
                0 <= j < cfg.first_shared() && #[trigger] cfg.layer_types@[j]
                    == #[trigger] cfg.layer_types@[i];
            laws::law_shared_layers_find_their_donor(
                cfg,
                angles,
                path,
                dtype,
                device,
                w,
                caches,
                i,
                j,
            );
            let heads = cfg.kv_heads_of(i)->Some_0;
            attn::lemma_groups(cfg.num_attention_heads as int, heads as int);
            assert forall|j: int|
                0 <= j < i && #[trigger] w.is_donor(j, attn.is_sliding) implies {
                let donor = w.layers@[j].self_attn;
                &&& donor.head_dim == attn.head_dim
                &&& donor.kv->num_kv_heads * attn.num_kv_groups == attn.num_heads
            } by {
                let donor = w.layers@[j].self_attn;
                assert(cfg.slides(j) == cfg.slides(i));
                assert(donor.kv->num_kv_heads == heads);
            }
        }
    }
    assert forall|batch: usize| #[trigger] w.caches_fit(caches, batch, 0) by {
        assert forall|i: int| 0 <= i < caches.len() implies w.layers@[i].self_attn.cache_fits(
            #[trigger] caches[i],
            batch,
            0,
            dtype,
        ) by {
            assert(caches[i].is_for(cfg, i));
        }
    }
}

impl TextModel {
    /// The model that a shape and parameters give, with empty caches.
    pub fn new(cfg: &Gemma4TextConfig, params: &Params) -> (r: Result<TextModel, ModelError>)
        ensures
            r matches Ok(m) ==> exists|angles: usize| #[trigger]
                are_angles(*cfg, angles) && is_model(
                    *cfg,
                    angles,
                    params.path(),
                    params.dtype(),
                    params.device(),
                    m.weights(),
                    m.caches(),
                ),
            r matches Err(e) ==> {
                ||| e is Candle
                ||| e is NotFloat && !tensor::is_float(params.dtype())
                ||| e is ShapeTooLarge && (tables_too_large(*cfg) || inputs_too_wide(*cfg))
                ||| e == (ModelError::LayerTypes {
                    entries: cfg.layer_types@.len() as usize,
                    layers: cfg.num_hidden_layers,
                })
                ||| refuses_angles(*cfg, e)
                ||| exists|i: int|
                    0 <= i < cfg.num_hidden_layers && #[trigger] layer::is_setting_error(
                        *cfg,
                        i,
                        e,
                    )
            },
            cfg.layer_types@.len() < cfg.num_hidden_layers ==> r == Err::<TextModel, ModelError>(
                ModelError::LayerTypes {
                    entries: cfg.layer_types@.len() as usize,
                    layers: cfg.num_hidden_layers,
                },
            ),
            (r matches Err(e) && e is LayerTypes) ==> cfg.layer_types@.len()
                < cfg.num_hidden_layers,
            cfg.layer_types@.len() >= cfg.num_hidden_layers && !tensor::is_float(params.dtype())
                ==> r == Err::<TextModel, ModelError>(ModelError::NotFloat),
            has_params(*cfg, params.path()) && can_be_built(*cfg) && tensor::has_products(
                params.dtype(),
            ) ==> r is Ok,
            has_params(*cfg, params.path()) && can_be_built(*cfg) && tensor::has_products(
                params.dtype(),
            ) && can_run_with(*cfg) ==> (r matches Ok(m) && m.weights().is_fit()
                && forall|batch: usize| #[trigger] m.weights().caches_fit(m.caches(), batch, 0)),
    {
        let ghost fits = has_params(*cfg, params.path()) && can_be_built(*cfg)
            && tensor::has_products(params.dtype());
        let ghost runs = fits && can_run_with(*cfg);
        let ghost ple_width = if cfg.hidden_size_per_layer_input > 0 {
            Some(cfg.hidden_size_per_layer_input)
        } else {
            None
        };
        let count: usize = cfg.num_hidden_layers;
        if cfg.layer_types.len() < count {
            return Err(ModelError::LayerTypes { entries: cfg.layer_types.len(), layers: count });
        }
        if !tensor::is_float_type(params.element_type()) {
            return Err(ModelError::NotFloat);
        }
        let device = params.on_device();
        let dtype = params.element_type();
        let embed_tokens = Table::new(
            cfg.vocab_size,
            cfg.hidden_size,
            &params.pp("embed_tokens"),
        )?;
        let (global, local, angles): (RotaryEmbedding, RotaryEmbedding, usize) = make_rotary(
            cfg,
            params,
        )?;
        let stack = params.pp("layers");
        let mut layers: Vec<DecoderLayer> = Vec::new();
        let mut caches: Vec<LayerCache> = Vec::new();
        let mut i: usize = 0;
        while i < count
            invariant
                i <= count,
                count == cfg.num_hidden_layers,
                tensor::is_float(params.dtype()),
                count <= cfg.layer_types@.len(),
                stack.path() == params.path().push("layers"@),
                dtype == params.dtype(),
                dtype == layers::store_dtype(params.path().store),
                fits == (has_params(*cfg, params.path()) && can_be_built(*cfg)
                    && tensor::has_products(params.dtype())),
                runs == (fits && can_run_with(*cfg)),
                ple_width == (if cfg.hidden_size_per_layer_input > 0 {
                    Some(cfg.hidden_size_per_layer_input)
                } else {
                    None
                }),
                fits ==> global.is_ready(dtype) && local.is_ready(dtype),
                runs ==> forall|j: int|
                    0 <= j < i ==> (#[trigger] layers@[j]).is_fit(
                        cfg.hidden_size,
                        ple_width,
                        dtype,
                    ),
                forall|j: int| 0 <= j < i ==> (#[trigger] caches@[j]).filling() is None,
                is_global_rotary(*cfg, angles, params.dtype(), params.device(), global),
                is_local_rotary(*cfg, params.dtype(), params.device(), local),
                layers@.len() == i,
                caches@.len() == i,
                forall|j: int|
                    0 <= j < i ==> {
                        let rotary = (#[trigger] layers@[j]).self_attn.rotary;
                        &&& layers@[j].is_at(
                            *cfg,
                            params.path().push("layers"@).push(names::decimal(j as nat)),
                            j,
                            rotary,
                        )
                        &&& if cfg.slides(j) {
                            is_local_rotary(*cfg, params.dtype(), params.device(), rotary)
                        } else {
                            is_global_rotary(*cfg, angles, params.dtype(), params.device(), rotary)
                        }
                    },
                forall|j: int|
                    0 <= j < i ==> (#[trigger] caches@[j]).is_for(*cfg, j) && caches@[j]@
                        == CacheView::empty(),
            decreases count - i,
        {
            let rotary = if cfg.is_sliding(i) {
                local.duplicate()
            } else {
                global.duplicate()
            };
            proof {
                if fits {
                    assert(DecoderLayer::has_params(
                        *cfg,
                        layer_place(params.path(), i as int),
                        i as int,
                    ));
                    assert(DecoderLayer::can_be_built(*cfg, i as int));
                }
                if runs {
                    assert(DecoderLayer::can_run_with(*cfg, i as int));
                }
            }
            let layer = match DecoderLayer::new(rotary, cfg, i, &stack.pp_index(i)) {
                Ok(layer) => layer,
                Err(e) => {
                    assert(e is Candle || layer::is_setting_error(*cfg, i as int, e));
                    return Err(e);
                },
            };
            layers.push(layer);
            caches.push(LayerCache::new(cfg, i));
            i = i + 1;
        }
        let norm = FloatNorm::new(cfg.hidden_size, &cfg.rms_norm_eps, &params.pp("norm"))?;
        let lm_head = if cfg.tie_word_embeddings {
            Projection::tied(&embed_tokens)
        } else {
            Projection::new(cfg.hidden_size, cfg.vocab_size, false, &params.pp("lm_head"))?
        };
        let ple = make_ple(cfg, params)?;
        let final_logit_softcapping = match &cfg.final_logit_softcapping {
            Some(cap) => Some(cap.duplicate()),
            None => None,
        };
        assert(are_angles(*cfg, angles));
        let weights = TextWeights {
            embed_tokens,
            layers,
            norm,
            lm_head,
            final_logit_softcapping,
            device,
            dtype,
            hidden_size: cfg.hidden_size,
            sliding_window: cfg.sliding_window,
            ple,
        };
        proof {
            if runs {
                assert(weights.input_dim() == ple_width);
                lemma_model_is_fit(
                    *cfg,
                    angles,
                    params.path(),
                    dtype,
                    device,
                    weights,
                    caches@,
                );
            }
        }
        Ok(TextModel { weights, caches })
    }
}

} // verus!
