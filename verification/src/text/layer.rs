//! One decoder layer of a float model.

use super::attn::{self, Attention, FloatKvSource, LayerCache};
use super::block::{self, FloatMlp, FloatNorm};
use super::config::Gemma4TextConfig;
use super::moe::FloatMoeBlock;
use crate::attention::{self, SharedKvStates, SharedView};
use crate::error::{ModelError, Setting};
use crate::rotary::RotaryEmbedding;
use crate::routing;
use crate::tensor::layers::{self, CacheView, Params, Place, Projection};
use crate::tensor::{self, BinaryOp, Expr, Traced};
use vstd::prelude::*;

verus! {

/// What mixes the per-layer inputs into a layer's output.
pub struct PerLayerInputMixer {
    pub per_layer_input_gate: Projection,
    pub act_fn: candle_nn::Activation,
    pub per_layer_projection: Projection,
    pub post_per_layer_input_norm: FloatNorm,
}

impl PerLayerInputMixer {
    /// The record of mixing a per-layer input of shape `input_dims` into a hidden state.
    pub open spec fn of(
        &self,
        xs: Expr,
        input: Expr,
        input_dims: Seq<usize>,
        dtype: candle_core::DType,
    ) -> Expr {
        let gate = layers::activated(self.act_fn, self.per_layer_input_gate.of(xs));
        let mixed = self.per_layer_projection.of(tensor::binary(BinaryOp::Mul, gate, input));
        let normed = self.post_per_layer_input_norm.of(
            mixed,
            self.per_layer_projection.dims_of(input_dims),
            dtype,
        );
        tensor::binary(BinaryOp::Add, xs, normed)
    }

    /// The parameters are those below a path.
    pub open spec fn is_at(&self, cfg: Gemma4TextConfig, path: Place) -> bool {
        let hidden = cfg.hidden_size;
        let inputs = cfg.hidden_size_per_layer_input;
        &&& self.per_layer_input_gate.is_at(
            path.push("per_layer_input_gate"@),
            hidden,
            inputs,
            false,
        )
        &&& self.act_fn == cfg.hidden_activation
        &&& self.per_layer_projection.is_at(
            path.push("per_layer_projection"@),
            inputs,
            hidden,
            false,
        )
        &&& self.post_per_layer_input_norm.is_at(
            path.push("post_per_layer_input_norm"@),
            hidden,
            cfg.rms_norm_eps.expr(),
        )
    }

    /// There are the parameters of a mixer at a place.
    pub open spec fn has_params(cfg: Gemma4TextConfig, path: Place) -> bool {
        let hidden = cfg.hidden_size;
        let inputs = cfg.hidden_size_per_layer_input;
        &&& layers::has_projection(path.push("per_layer_input_gate"@), hidden, inputs, false)
        &&& layers::has_projection(path.push("per_layer_projection"@), inputs, hidden, false)
        &&& layers::has_param(path.push("post_per_layer_input_norm"@), "weight"@, seq![hidden])
    }

    /// The weights lie in main memory and fit so many entries per position and inputs of so many, and
    /// the activation keeps the shape.
    pub open spec fn fits(&self, hidden: usize, inputs: usize, dtype: candle_core::DType) -> bool {
        &&& inputs > 0
        &&& self.per_layer_input_gate.fits(hidden, inputs, dtype)
        &&& self.per_layer_projection.fits(inputs, hidden, dtype)
        &&& self.post_per_layer_input_norm.fits(hidden, dtype)
        &&& !layers::is_gated(self.act_fn)
    }

    /// A hidden state and an input lie in main memory and fit the weights and each other.
    pub open spec fn can_mix(&self, xs: Traced, input: Traced) -> bool {
        &&& block::is_state(xs)
        &&& input.is_local()
        &&& input.dtype() == xs.dtype()
        &&& input.dims().len() > 0
        &&& input.dims() == tensor::with_last(xs.dims(), input.dims().last())
        &&& self.fits(xs.dims().last(), input.dims().last(), xs.dtype())
    }

    /// A mixer with the parameters below a path.
    fn new(cfg: &Gemma4TextConfig, params: &Params) -> (r: Result<PerLayerInputMixer, ModelError>)
        ensures
            r matches Ok(m) ==> m.is_at(*cfg, params.path()),
            r matches Err(e) ==> e is Candle,
            PerLayerInputMixer::has_params(*cfg, params.path()) ==> (r matches Ok(m) && (
            cfg.hidden_size_per_layer_input > 0 && !layers::is_gated(cfg.hidden_activation)
                ==> m.fits(
                cfg.hidden_size,
                cfg.hidden_size_per_layer_input,
                layers::store_dtype(params.path().store),
            ))),
    {
        let hidden: usize = cfg.hidden_size;
        let inputs: usize = cfg.hidden_size_per_layer_input;
        let per_layer_input_gate = Projection::new(
            hidden,
            inputs,
            false,
            &params.pp("per_layer_input_gate"),
        )?;
        let per_layer_projection = Projection::new(
            inputs,
            hidden,
            false,
            &params.pp("per_layer_projection"),
        )?;
        let post_per_layer_input_norm = FloatNorm::new(
            hidden,
            &cfg.rms_norm_eps,
            &params.pp("post_per_layer_input_norm"),
        )?;
        Ok(
            PerLayerInputMixer {
                per_layer_input_gate,
                act_fn: layers::copy_activation(&cfg.hidden_activation),
                per_layer_projection,
                post_per_layer_input_norm,
            },
        )
    }

    /// What mixing can fail with on a hidden state of this shape.
    pub open spec fn may_fail_with(&self, dims: Seq<usize>, e: ModelError) -> bool {
        match e {
            ModelError::Candle(_) => true,
            ModelError::EmptyAxis => layers::lacks_halves(
                self.act_fn,
                self.per_layer_input_gate.dims_of(dims),
            ),
            _ => false,
        }
    }

    /// Mixes a per-layer input into a hidden state.
    fn forward(&self, xs: &Traced, input: &Traced) -> (r: Result<Traced, ModelError>)
        requires
            tensor::is_float(xs.dtype()),
        ensures
            r matches Ok(t) ==> t.expr() == self.of(
                xs.expr(),
                input.expr(),
                input.dims(),
                xs.dtype(),
            ) && t.dims() == xs.dims() && t.dtype() == xs.dtype(),
            r matches Err(e) ==> self.may_fail_with(xs.dims(), e),
            tensor::succeeds(r, self.can_mix(*xs, *input)),
    {
        proof {
            if self.can_mix(*xs, *input) {
                let (hidden, inputs) = (xs.dims().last(), input.dims().last());
                let dtype = xs.dtype();
                self.per_layer_input_gate.lemma_fit_dims(hidden, inputs, dtype, xs.dims());
                self.per_layer_projection.lemma_fit_dims(inputs, hidden, dtype, input.dims());
                assert(tensor::with_last(input.dims(), hidden) =~= xs.dims());
                assert(tensor::has_entries(input.dims()));
            }
        }
        let gate = self.per_layer_input_gate.forward(xs)?;
        let gate = layers::activate(&self.act_fn, &gate)?;
        let mixed = gate.times(input)?;
        let mixed = self.per_layer_projection.forward(&mixed)?;
        let normed = self.post_per_layer_input_norm.forward(&mixed)?;
        xs.plus(&normed)
    }
}

/// The weights of one decoder layer.
pub struct DecoderLayer {
    pub self_attn: Attention,
    pub mlp: FloatMlp,
    pub input_layernorm: FloatNorm,
    pub post_attention_layernorm: FloatNorm,
    pub pre_feedforward_layernorm: FloatNorm,
    pub post_feedforward_layernorm: FloatNorm,
    pub layer_scalar: Traced,
    pub pli_mixer: Option<PerLayerInputMixer>,
    pub moe: Option<FloatMoeBlock>,
}

/// What a layer leaves behind: the hidden state with its shape, what its cache holds, and the keys
/// and values that were put aside.
pub ghost struct FloatLayerStep {
    pub xs: Expr,
    pub dims: Seq<usize>,
    pub cache: CacheView,
    pub shared: SharedView,
}

impl DecoderLayer {
    /// The record of the feed-forward part, given which experts were picked for each token.
    pub open spec fn fed_forward(
        &self,
        residual: Expr,
        dims: Seq<usize>,
        dtype: candle_core::DType,
        picks: Seq<Seq<usize>>,
    ) -> Expr {
        let normed = self.pre_feedforward_layernorm.of(residual, dims, dtype);
        let dense = self.mlp.of(normed);
        let dense_dims = self.mlp.dims_of(self.pre_feedforward_layernorm.dims_of(dims));
        let (combined, combined_dims) = match self.moe {
            None => (dense, dense_dims),
            Some(moe) => (
                moe.of(dense, dense_dims, residual, dims, dtype, picks),
                moe.dims_of(dense_dims),
            ),
        };
        tensor::binary(
            BinaryOp::Add,
            residual,
            self.post_feedforward_layernorm.of(combined, combined_dims, dtype),
        )
    }

    /// The record of the hidden state that goes into the feed-forward part.
    pub open spec fn attended(
        &self,
        xs: Expr,
        dims: Seq<usize>,
        dtype: candle_core::DType,
        mask: Option<Expr>,
        offset: nat,
        cache: LayerCache,
        shared: SharedView,
    ) -> Expr {
        let attn = self.self_attn.attn(
            self.input_layernorm.of(xs, dims, dtype),
            self.input_layernorm.dims_of(dims),
            dtype,
            mask,
            offset,
            cache,
            shared,
        );
        tensor::binary(
            BinaryOp::Add,
            self.post_attention_layernorm.of(attn.out, attn.dims, dtype),
            xs,
        )
    }

    /// What the layer leaves behind. `xs` is the hidden state, of shape `dims` and element type
    /// `dtype`; `input` is the layer's own input, with its shape, of a model that has them.
    pub open spec fn step(
        &self,
        xs: Expr,
        dims: Seq<usize>,
        dtype: candle_core::DType,
        mask: Option<Expr>,
        offset: nat,
        cache: LayerCache,
        shared: SharedView,
        input: Option<(Expr, Seq<usize>)>,
        picks: Seq<Seq<usize>>,
    ) -> FloatLayerStep {
        let attn = self.self_attn.attn(
            self.input_layernorm.of(xs, dims, dtype),
            self.input_layernorm.dims_of(dims),
            dtype,
            mask,
            offset,
            cache,
            shared,
        );
        let attended = self.attended(xs, dims, dtype, mask, offset, cache, shared);
        let fed = self.fed_forward(attended, dims, dtype, picks);
        let mixed = match self.pli_mixer {
            Some(mixer) => mixer.of(fed, input->Some_0.0, input->Some_0.1, dtype),
            None => fed,
        };
        FloatLayerStep {
            xs: tensor::binary(BinaryOp::BroadcastMul, mixed, self.layer_scalar.expr()),
            dims: tensor::broadcast_dims(dims, self.layer_scalar.dims()),
            cache: attn.cache,
            shared: attn.shared,
        }
    }

    /// The picks are such as the layer makes of what goes into its feed-forward part, of shape
    /// `dims` and element type `dtype`: none without experts, else the most probable ones of each
    /// token.
    pub open spec fn are_picks(
        &self,
        attended: Expr,
        dims: Seq<usize>,
        dtype: candle_core::DType,
        picks: Seq<Seq<usize>>,
    ) -> bool {
        match self.moe {
            None => picks.len() == 0,
            Some(moe) => moe.are_picks(attended, dims, dtype, picks),
        }
    }

    /// What the feed-forward part can fail with on a hidden state of shape `dims`.
    pub open spec fn feed_may_fail_with(&self, dims: Seq<usize>, e: ModelError) -> bool {
        ||| self.mlp.may_fail_with(self.pre_feedforward_layernorm.dims_of(dims), e)
        ||| (self.moe matches Some(moe) && moe.may_fail_with(dims, e))
    }

    /// What layer `i` can fail with on a hidden state of shape `dims` and element type `dtype`, where
    /// it finds this cache and the keys and values `shared` put aside; `has_input` tells whether the
    /// model has per-layer inputs.
    pub open spec fn may_fail_with(
        &self,
        i: int,
        xs: Expr,
        dims: Seq<usize>,
        dtype: candle_core::DType,
        offset: nat,
        cache: LayerCache,
        shared: SharedView,
        has_input: bool,
        e: ModelError,
    ) -> bool {
        ||| self.self_attn.may_fail_with(
            self.input_layernorm.of(xs, dims, dtype),
            self.input_layernorm.dims_of(dims),
            dtype,
            offset,
            cache,
            shared,
            e,
        )
        ||| self.feed_may_fail_with(dims, e)
        ||| (self.pli_mixer matches Some(mixer) && mixer.may_fail_with(dims, e))
        ||| e == (ModelError::PerLayerMismatch { layer: i as usize }) && (self.pli_mixer is Some)
            != has_input
    }

    /// Layer `i`, with the parameters below a path.
    pub open spec fn is_at(
        &self,
        cfg: Gemma4TextConfig,
        path: Place,
        i: int,
        rotary: RotaryEmbedding,
    ) -> bool {
        let hidden = cfg.hidden_size;
        let eps = cfg.rms_norm_eps.expr();
        &&& self.self_attn.is_at(cfg, path.push("self_attn"@), i, rotary)
        &&& self.mlp.is_at(
            path.push("mlp"@),
            hidden,
            cfg.inner_size_of(i) as usize,
            cfg.hidden_activation,
            false,
        )
        &&& self.input_layernorm.is_at(path.push("input_layernorm"@), hidden, eps)
        &&& self.post_attention_layernorm.is_at(
            path.push("post_attention_layernorm"@),
            hidden,
            eps,
        )
        &&& self.pre_feedforward_layernorm.is_at(
            path.push("pre_feedforward_layernorm"@),
            hidden,
            eps,
        )
        &&& self.post_feedforward_layernorm.is_at(
            path.push("post_feedforward_layernorm"@),
            hidden,
            eps,
        )
        &&& self.layer_scalar.expr() == layers::param(path, "layer_scalar"@, seq![1])
        &&& match self.pli_mixer {
            Some(mixer) => cfg.hidden_size_per_layer_input > 0 && mixer.is_at(cfg, path),
            None => cfg.hidden_size_per_layer_input == 0,
        }
        &&& match self.moe {
            Some(moe) => cfg.enable_moe_block && moe.is_at(cfg, path),
            None => !cfg.enable_moe_block,
        }
    }

    /// There are the parameters of layer `i` at a place.
    pub open spec fn has_params(cfg: Gemma4TextConfig, path: Place, i: int) -> bool {
        let hidden = cfg.hidden_size;
        &&& Attention::has_params(cfg, path.push("self_attn"@), i)
        &&& FloatMlp::has_params(
            path.push("mlp"@),
            hidden,
            cfg.inner_size_of(i) as usize,
            false,
        )
        &&& layers::has_param(path.push("input_layernorm"@), "weight"@, seq![hidden])
        &&& layers::has_param(path.push("post_attention_layernorm"@), "weight"@, seq![hidden])
        &&& layers::has_param(path.push("pre_feedforward_layernorm"@), "weight"@, seq![hidden])
        &&& layers::has_param(path.push("post_feedforward_layernorm"@), "weight"@, seq![hidden])
        &&& layers::has_param(path, "layer_scalar"@, seq![1])
        &&& cfg.hidden_size_per_layer_input > 0 ==> PerLayerInputMixer::has_params(cfg, path)
        &&& cfg.enable_moe_block ==> FloatMoeBlock::has_params(cfg, path)
    }

    /// The settings of layer `i` are there, and `usize` can count what they ask for.
    pub open spec fn can_be_built(cfg: Gemma4TextConfig, i: int) -> bool {
        &&& cfg.kv_heads_of(i) matches Some(n) && n > 0
        &&& !attn::heads_too_large(cfg, i)
        &&& cfg.inner_size_of(i) <= usize::MAX
        &&& cfg.enable_moe_block ==> FloatMoeBlock::has_settings(cfg)
    }

    /// The settings of layer `i` make a layer that runs.
    pub open spec fn can_run_with(cfg: Gemma4TextConfig, i: int) -> bool {
        &&& Attention::has_settings(cfg, i)
        &&& !layers::is_gated(cfg.hidden_activation)
        &&& cfg.inner_size_of(i) > 0
        &&& cfg.enable_moe_block ==> 0 < cfg.top_k_experts->Some_0 <= cfg.num_experts->Some_0
            && cfg.moe_intermediate_size->Some_0 > 0
    }

    /// The layer's weights lie in main memory and fit each other, so many entries per position, and,
    /// in a model that has them, inputs of so many.
    pub open spec fn is_fit(
        &self,
        hidden: usize,
        inputs: Option<usize>,
        dtype: candle_core::DType,
    ) -> bool {
        &&& self.self_attn.is_fit(hidden, dtype)
        &&& self.mlp.up_proj.rows() > 0
        &&& self.mlp.fits(hidden, self.mlp.up_proj.rows(), dtype)
        &&& self.input_layernorm.fits(hidden, dtype)
        &&& self.post_attention_layernorm.fits(hidden, dtype)
        &&& self.pre_feedforward_layernorm.fits(hidden, dtype)
        &&& self.post_feedforward_layernorm.fits(hidden, dtype)
        &&& self.layer_scalar.is_local()
        &&& self.layer_scalar.dtype() == dtype
        &&& self.layer_scalar.dims() == seq![1usize]
        &&& match (self.pli_mixer, inputs) {
            (Some(mixer), Some(inputs)) => mixer.fits(hidden, inputs, dtype),
            (None, None) => true,
            _ => false,
        }
        &&& self.moe matches Some(moe) ==> moe.fits(hidden, moe.router.proj.rows(), dtype)
    }

    /// What the layer is given lies in main memory and fits its weights, over so many positions that
    /// are attended, and `usize` can count what comes of it.
    pub open spec fn can_run(
        &self,
        xs: Traced,
        mask: Option<&Traced>,
        offset: usize,
        keys: nat,
        cache: LayerCache,
        shared: SharedKvStates,
        input: Option<Traced>,
    ) -> bool {
        let dims = xs.dims();
        &&& block::is_state(xs)
        &&& dims.len() == 3
        &&& match input {
            Some(input) => {
                &&& input.is_local()
                &&& input.dtype() == xs.dtype()
                &&& input.dims().len() == 3
                &&& input.dims() == tensor::with_last(dims, input.dims().last())
                &&& self.is_fit(dims[2], Some(input.dims().last()), xs.dtype())
            },
            None => self.is_fit(dims[2], None, xs.dtype()),
        }
        &&& offset + dims[1] <= self.self_attn.positions()
        &&& self.self_attn.cache_fits(cache, dims[0], offset as nat, xs.dtype())
        &&& 0 < keys <= offset + dims[1] + cache.size()
        &&& match self.self_attn.kv {
            FloatKvSource::Computed { .. } => keys == cache.keys_with(dims[1] as nat),
            FloatKvSource::Shared => shared.at(!self.self_attn.is_sliding) matches Some(kv)
                && self.self_attn.aside_fits(kv, dims[0], keys, xs.dtype()),
        }
        &&& mask matches Some(mask) ==> mask.is_local() && mask.dtype() == xs.dtype() && mask.dims()
            == seq![dims[0], 1, dims[1], keys as usize]
        &&& dims[0] * (offset + dims[1] + cache.size()) * self.self_attn.num_heads
            * self.self_attn.head_dim <= usize::MAX
        &&& self.moe is Some ==> !routing::tokens_too_large(dims)
    }

    /// Layer `i`, with the parameters below a path.
    pub(crate) fn new(
        rotary: RotaryEmbedding,
        cfg: &Gemma4TextConfig,
        i: usize,
        params: &Params,
    ) -> (r: Result<DecoderLayer, ModelError>)
        requires
            i < cfg.num_hidden_layers <= cfg.layer_types@.len(),
        ensures
            r matches Ok(l) ==> l.is_at(*cfg, params.path(), i as int, rotary),
            r matches Err(e) ==> e is Candle || is_setting_error(*cfg, i as int, e),
            cfg.kv_heads_of(i as int) is None ==> r == Err::<DecoderLayer, ModelError>(
                ModelError::MissingSetting(Setting::NumGlobalKeyValueHeads),
            ),
            cfg.kv_heads_of(i as int) == Some(0usize) ==> r == Err::<DecoderLayer, ModelError>(
                ModelError::NoKvHeads,
            ),
            DecoderLayer::has_params(*cfg, params.path(), i as int) ==> (r is Ok
                <==> DecoderLayer::can_be_built(*cfg, i as int)),
            DecoderLayer::has_params(*cfg, params.path(), i as int) && DecoderLayer::can_be_built(
                *cfg,
                i as int,
            ) && DecoderLayer::can_run_with(*cfg, i as int) && rotary.is_ready(
                layers::store_dtype(params.path().store),
            ) && rotary.has_shape(
                rotary.table_dims().0[0],
                (cfg.head_dim_of(i as int) / 2) as usize,
            ) ==> (r matches Ok(l) && l.is_fit(
                cfg.hidden_size,
                (if cfg.hidden_size_per_layer_input > 0 {
                    Some(cfg.hidden_size_per_layer_input)
                } else {
                    None
                }),
                layers::store_dtype(params.path().store),
            )),
    {
        let hidden: usize = cfg.hidden_size;
        let eps = &cfg.rms_norm_eps;
        let self_attn = Attention::new(rotary, cfg, i, &params.pp("self_attn"))?;
        let first: usize = cfg.first_shared_layer();
        let inner: usize = if cfg.use_double_wide_mlp && first > 0 && i >= first {
            attn::product(cfg.intermediate_size, 2)?
        } else {
            cfg.intermediate_size
        };
        let mlp = FloatMlp::new(hidden, inner, &cfg.hidden_activation, false, &params.pp("mlp"))?;
        proof {
            let dtype = layers::store_dtype(params.path().store);
            if mlp.fits(hidden, inner, dtype) {
                mlp.up_proj.lemma_fit_dims(hidden, inner, dtype, seq![1usize]);
            }
        }
        let input_layernorm = FloatNorm::new(hidden, eps, &params.pp("input_layernorm"))?;
        let post_attention_layernorm = FloatNorm::new(
            hidden,
            eps,
            &params.pp("post_attention_layernorm"),
        )?;
        let pre_feedforward_layernorm = FloatNorm::new(
            hidden,
            eps,
            &params.pp("pre_feedforward_layernorm"),
        )?;
        let post_feedforward_layernorm = FloatNorm::new(
            hidden,
            eps,
            &params.pp("post_feedforward_layernorm"),
        )?;
        let pli_mixer = if cfg.hidden_size_per_layer_input > 0 {
            Some(PerLayerInputMixer::new(cfg, params)?)
        } else {
            None
        };
        let mut one: Vec<usize> = Vec::new();
        one.push(1);
        assert(one@ =~= seq![1]);
        let layer_scalar = params.get(&one, "layer_scalar")?;
        let moe = if cfg.enable_moe_block {
            Some(FloatMoeBlock::new(cfg, params)?)
        } else {
            None
        };
        proof {
            if moe is Some {
                let block = moe->Some_0;
                let (experts, dtype) = (
                    cfg.num_experts->Some_0,
                    layers::store_dtype(params.path().store),
                );
                if block.fits(hidden, experts, dtype) {
                    block.router.proj.lemma_fit_dims(hidden, experts, dtype, seq![1usize]);
                }
            }
        }
        Ok(
            DecoderLayer {
                self_attn,
                mlp,
                input_layernorm,
                post_attention_layernorm,
                pre_feedforward_layernorm,
                post_feedforward_layernorm,
                layer_scalar,
                pli_mixer,
                moe,
            },
        )
    }

    /// The feed-forward part: the dense block, the experts beside it where the layer has them.
    fn feed_forward(&self, residual: &Traced) -> (r: Result<Traced, ModelError>)
        requires
            tensor::is_float(residual.dtype()),
        ensures
            r matches Ok(t) ==> t.dims() == residual.dims() && t.dtype() == residual.dtype()
                && exists|picks: Seq<Seq<usize>>| #[trigger]
                self.are_picks(residual.expr(), residual.dims(), residual.dtype(), picks)
                    && t.expr() == self.fed_forward(
                    residual.expr(),
                    residual.dims(),
                    residual.dtype(),
                    picks,
                ),
            r matches Err(e) ==> self.feed_may_fail_with(residual.dims(), e),
            forall|inputs: Option<usize>|
                block::is_state(*residual) && residual.dims().len() == 3 && #[trigger] self.is_fit(
                    residual.dims()[2],
                    inputs,
                    residual.dtype(),
                ) && (self.moe is Some ==> !routing::tokens_too_large(residual.dims())) ==> (
                r matches Ok(t) && t.is_ready()),
    {
        let ghost mut picks: Seq<Seq<usize>> = Seq::empty();
        let x = self.pre_feedforward_layernorm.forward(residual)?;
        let x = self.mlp.forward(&x)?;
        let x = match &self.moe {
            None => x,
            Some(moe) => {
                let combined = moe.forward(&x, residual)?;
                proof {
                    picks = choose|picks: Seq<Seq<usize>>| #[trigger]
                        moe.are_picks(
                            residual.expr(),
                            residual.dims(),
                            residual.dtype(),
                            picks,
                        ) && combined.expr() == moe.of(
                            x.expr(),
                            x.dims(),
                            residual.expr(),
                            residual.dims(),
                            x.dtype(),
                            picks,
                        );
                }
                combined
            },
        };
        let x = self.post_feedforward_layernorm.forward(&x)?;
        let out = residual.plus(&x)?;
        proof {
            assert(self.are_picks(residual.expr(), residual.dims(), residual.dtype(), picks));
        }
        Ok(out)
    }

    /// Runs layer `i` on a hidden state, against its cache.
    pub(crate) fn forward(
        &self,
        i: usize,
        xs: &Traced,
        mask: Option<&Traced>,
        seqlen_offset: usize,
        input: &Option<Traced>,
        cache: &mut LayerCache,
        shared_kv_states: &mut SharedKvStates,
    ) -> (r: Result<Traced, ModelError>)
        requires
            tensor::is_float(xs.dtype()),
            old(shared_kv_states).has_dtype(xs.dtype()),
            attention::mask_has_columns(mask),
        ensures
            final(cache).is_like(*old(cache)),
            r is Ok ==> final(shared_kv_states).has_dtype(xs.dtype()),
            r matches Ok(t) ==> {
                &&& !self.self_attn.use_flash_attn
                &&& self.pli_mixer is Some <==> *input is Some
                &&& self.self_attn.kv is Shared ==> old(shared_kv_states)@.get(
                    !self.self_attn.is_sliding,
                ) is Some
                &&& t.dtype() == xs.dtype()
                &&& exists|picks: Seq<Seq<usize>>| #[trigger]
                    self.are_picks(
                        self.attended(
                            xs.expr(),
                            xs.dims(),
                            xs.dtype(),
                            attention::mask_view(mask),
                            seqlen_offset as nat,
                            *old(cache),
                            old(shared_kv_states)@,
                        ),
                        xs.dims(),
                        xs.dtype(),
                        picks,
                    ) && ({
                        let step = self.step(
                            xs.expr(),
                            xs.dims(),
                            xs.dtype(),
                            attention::mask_view(mask),
                            seqlen_offset as nat,
                            *old(cache),
                            old(shared_kv_states)@,
                            input_view(*input),
                            picks,
                        );
                        &&& t.expr() == step.xs
                        &&& t.dims() == step.dims
                        &&& final(cache)@ == step.cache
                        &&& final(shared_kv_states)@ == step.shared
                    })
            },
            r matches Err(e) ==> self.may_fail_with(
                i as int,
                xs.expr(),
                xs.dims(),
                xs.dtype(),
                seqlen_offset as nat,
                *old(cache),
                old(shared_kv_states)@,
                *input is Some,
                e,
            ),
            forall|keys: nat| #[trigger]
                self.can_run(
                    *xs,
                    mask,
                    seqlen_offset,
                    keys,
                    *old(cache),
                    *old(shared_kv_states),
                    *input,
                ) ==> {
                    &&& r matches Ok(t) && t.is_ready() && t.dims() == xs.dims()
                    &&& self.self_attn.leaves(
                        *old(shared_kv_states),
                        *final(shared_kv_states),
                        *final(cache),
                        xs.dims()[0],
                        (seqlen_offset + xs.dims()[1]) as nat,
                        keys,
                        xs.dtype(),
                    )
                },
    {
        let ghost fits = exists|keys: nat| #[trigger]
            self.can_run(
                *xs,
                mask,
                seqlen_offset,
                keys,
                *old(cache),
                *old(shared_kv_states),
                *input,
            );
        let ghost inputs = match input {
            Some(input) => Some(input.dims().last()),
            None => None,
        };
        proof {
            if fits {
                assert(self.is_fit(xs.dims()[2], inputs, xs.dtype()));
                self.input_layernorm.lemma_fit_dims(xs.dims(), xs.dtype());
                assert(tensor::can_broadcast(xs.dims(), self.layer_scalar.dims()));
                assert(tensor::broadcast_dims(xs.dims(), self.layer_scalar.dims()) =~= xs.dims());
            }
        }
        let x = self.input_layernorm.forward(xs)?;
        proof {
            assert forall|keys: nat| #[trigger]
                self.can_run(
                    *xs,
                    mask,
                    seqlen_offset,
                    keys,
                    *old(cache),
                    *old(shared_kv_states),
                    *input,
                ) implies self.self_attn.attn_fits(
                x,
                mask,
                seqlen_offset,
                keys,
                *old(cache),
                *old(shared_kv_states),
            ) by {
                let (b, h, d) = (
                    xs.dims()[0] as int,
                    self.self_attn.num_heads as int,
                    self.self_attn.head_dim as int,
                );
                let room = seqlen_offset + xs.dims()[1] + cache.size();
                assert(xs.dims()[0] > 0);
                assert(room <= b * room * h * d) by (nonlinear_arith)
                    requires
                        b > 0,
                        h > 0,
                        d > 0,
                        room >= 0,
                ;
                self.self_attn.lemma_attn_counts(
                    x.expr(),
                    x.dims(),
                    x.dtype(),
                    seqlen_offset,
                    keys,
                    *old(cache),
                    *old(shared_kv_states),
                );
            }
        }
        let x = self.self_attn.forward(&x, mask, seqlen_offset, cache, shared_kv_states)?;
        let x = self.post_attention_layernorm.forward(&x)?;
        let attended = x.plus(xs)?;
        let fed = self.feed_forward(&attended)?;
        let mixed = match (&self.pli_mixer, input) {
            (Some(mixer), Some(input)) => mixer.forward(&fed, input)?,
            (None, None) => fed,
            _ => {
                return Err(ModelError::PerLayerMismatch { layer: i });
            },
        };
        mixed.broadcast_mul(&self.layer_scalar)
    }
}

/// What contracts see of a layer's own input that may be absent.
pub open spec fn input_view(input: Option<Traced>) -> Option<(Expr, Seq<usize>)> {
    match input {
        Some(t) => Some((t.expr(), t.dims())),
        None => None,
    }
}

/// An error that comes of layer `i`'s settings, and when it does.
pub open spec fn is_setting_error(cfg: Gemma4TextConfig, i: int, e: ModelError) -> bool {
    match e {
        ModelError::NoKvHeads => cfg.kv_heads_of(i) == Some(0usize),
        ModelError::MissingSetting(Setting::NumGlobalKeyValueHeads) => cfg.kv_heads_of(i) is None,
        ModelError::MissingSetting(Setting::NumExperts) => cfg.enable_moe_block
            && cfg.num_experts is None,
        ModelError::MissingSetting(Setting::TopKExperts) => cfg.enable_moe_block
            && cfg.top_k_experts is None,
        ModelError::MissingSetting(Setting::MoeIntermediateSize) => cfg.enable_moe_block
            && cfg.moe_intermediate_size is None,
        ModelError::ShapeTooLarge => {
            ||| attn::heads_too_large(cfg, i)
            ||| cfg.inner_size_of(i) > usize::MAX
            ||| cfg.enable_moe_block && (cfg.moe_intermediate_size matches Some(inner) && 2 * inner
                > usize::MAX)
        },
        _ => false,
    }
}

} // verus!
