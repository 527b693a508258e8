//! The shapes of the tensors of a file whose model runs.

use super::config::{self, GgufConfig};
use super::layer::{KvSource, LayerWeights};
use super::loader;
use super::Weights;
use crate::names;
use crate::tensor::packed;
use std::sync::Arc;
use vstd::prelude::*;

verus! {

/// There is a tensor of that name and shape.
pub open spec fn has_shape(
    ts: Seq<(String, Arc<candle_core::quantized::QTensor>)>,
    name: Seq<char>,
    dims: Seq<usize>,
) -> bool {
    loader::tensor_named(ts, name) matches Some(q) && packed::packed_dims(q) == dims
}

/// There is a tensor of that shape whose name ends so behind layer `i`'s.
pub open spec fn block_has_shape(
    ts: Seq<(String, Arc<candle_core::quantized::QTensor>)>,
    i: int,
    suffix: Seq<char>,
    dims: Seq<usize>,
) -> bool {
    has_shape(ts, names::block_name(i as nat, suffix), dims)
}

/// There is a matrix of that name, of so many rows and columns.
pub open spec fn is_table(
    ts: Seq<(String, Arc<candle_core::quantized::QTensor>)>,
    name: Seq<char>,
    rows: usize,
    cols: usize,
) -> bool {
    has_shape(ts, name, seq![rows, cols])
}

/// The head size of layer `i`.
pub open spec fn head_dim_of(cfg: GgufConfig, i: int) -> usize {
    if cfg.is_sliding@[i] {
        cfg.key_length_swa
    } else {
        cfg.key_length
    }
}

/// Layer `i`'s heads can be grouped and rotated, the tensors of its attention are there in the shapes
/// that the heads ask for, and a layer that shares finds an earlier one of its kind that does not and
/// that has as many heads for keys and values.
pub open spec fn attn_has_shapes(
    ts: Seq<(String, Arc<candle_core::quantized::QTensor>)>,
    cfg: GgufConfig,
    i: int,
) -> bool {
    let hidden = cfg.embedding_length;
    let head_dim = head_dim_of(cfg, i);
    let heads = cfg.head_count_kv@[i];
    let width = cfg.head_count * head_dim;
    let kv_width = (heads * head_dim) as usize;
    &&& cfg.head_count > 0
    &&& heads > 0
    &&& cfg.head_count % heads == 0
    &&& head_dim > 0
    &&& head_dim % 2 == 0
    &&& width <= usize::MAX
    &&& block_has_shape(ts, i, ".attn_q.weight"@, seq![width as usize, hidden])
    &&& block_has_shape(ts, i, ".attn_output.weight"@, seq![hidden, width as usize])
    &&& block_has_shape(ts, i, ".attn_q_norm.weight"@, seq![head_dim])
    &&& if i < cfg.first_shared() {
        &&& block_has_shape(ts, i, ".attn_k.weight"@, seq![kv_width, hidden])
        &&& loader::tensor_named(ts, names::block_name(i as nat, ".attn_v.weight"@)) is Some
            ==> block_has_shape(ts, i, ".attn_v.weight"@, seq![kv_width, hidden])
        &&& block_has_shape(ts, i, ".attn_k_norm.weight"@, seq![head_dim])
    } else {
        &&& exists|j: int|
            0 <= j < cfg.first_shared() && #[trigger] cfg.is_sliding@[j] == cfg.is_sliding@[i]
        &&& forall|j: int|
            0 <= j < cfg.first_shared() && cfg.is_sliding@[j] == cfg.is_sliding@[i]
                && #[trigger] cfg.is_donor(j) ==> cfg.head_count_kv@[j] == heads
    }
}

/// The matrices of layer `i`'s dense block are of so many entries inside.
pub open spec fn mlp_has_shapes(
    ts: Seq<(String, Arc<candle_core::quantized::QTensor>)>,
    cfg: GgufConfig,
    i: int,
    inner: usize,
) -> bool {
    let hidden = cfg.embedding_length;
    &&& inner > 0
    &&& block_has_shape(ts, i, ".ffn_gate.weight"@, seq![inner, hidden])
    &&& block_has_shape(ts, i, ".ffn_up.weight"@, seq![inner, hidden])
    &&& block_has_shape(ts, i, ".ffn_down.weight"@, seq![hidden, inner])
}

/// The stacks of layer `i`'s experts are of so many entries inside, gates and inputs side by side.
pub open spec fn stacks_have_shapes(
    ts: Seq<(String, Arc<candle_core::quantized::QTensor>)>,
    cfg: GgufConfig,
    i: int,
    fused: usize,
) -> bool {
    let hidden = cfg.embedding_length;
    let experts = cfg.num_experts->Some_0;
    let inner = (fused / 2) as usize;
    &&& inner > 0
    &&& block_has_shape(ts, i, ".ffn_gate_up_exps.weight"@, seq![experts, fused, hidden])
    &&& block_has_shape(ts, i, ".ffn_down_exps.weight"@, seq![experts, hidden, inner])
}

/// The tensors of layer `i`'s experts fit each other, and there are enough experts to pick from.
pub open spec fn moe_has_shapes(
    ts: Seq<(String, Arc<candle_core::quantized::QTensor>)>,
    cfg: GgufConfig,
    i: int,
) -> bool {
    let hidden = cfg.embedding_length;
    let experts = cfg.num_experts->Some_0;
    &&& 0 < cfg.top_k_experts->Some_0 <= experts
    &&& block_has_shape(ts, i, ".ffn_gate_inp.weight"@, seq![experts, hidden])
    &&& block_has_shape(ts, i, ".ffn_gate_inp.scale"@, seq![hidden])
    &&& block_has_shape(ts, i, ".ffn_down_exps.scale"@, seq![experts])
    &&& block_has_shape(ts, i, ".post_ffw_norm_1.weight"@, seq![hidden])
    &&& block_has_shape(ts, i, ".post_ffw_norm_2.weight"@, seq![hidden])
    &&& block_has_shape(ts, i, ".pre_ffw_norm_2.weight"@, seq![hidden])
    &&& exists|fused: usize| #[trigger] stacks_have_shapes(ts, cfg, i, fused)
}

/// The tensors of layer `i` are there in the shapes that the model asks for.
pub open spec fn layer_has_shapes(
    ts: Seq<(String, Arc<candle_core::quantized::QTensor>)>,
    cfg: GgufConfig,
    i: int,
) -> bool {
    let hidden = cfg.embedding_length;
    let width = cfg.per_layer_input_dim;
    &&& attn_has_shapes(ts, cfg, i)
    &&& exists|inner: usize| #[trigger] mlp_has_shapes(ts, cfg, i, inner)
    &&& block_has_shape(ts, i, ".attn_norm.weight"@, seq![hidden])
    &&& block_has_shape(ts, i, ".post_attention_norm.weight"@, seq![hidden])
    &&& block_has_shape(ts, i, ".ffn_norm.weight"@, seq![hidden])
    &&& block_has_shape(ts, i, ".post_ffw_norm.weight"@, seq![hidden])
    &&& block_has_shape(ts, i, ".layer_output_scale.weight"@, seq![1])
    &&& width > 0 ==> {
        &&& block_has_shape(ts, i, ".inp_gate.weight"@, seq![width, hidden])
        &&& block_has_shape(ts, i, ".proj.weight"@, seq![hidden, width])
        &&& block_has_shape(ts, i, ".post_norm.weight"@, seq![hidden])
    }
    &&& loader::has_experts(cfg) ==> moe_has_shapes(ts, cfg, i)
}

/// The tensors of a file are there in the shapes that its metadata asks for.
pub open spec fn has_shapes(
    ts: Seq<(String, Arc<candle_core::quantized::QTensor>)>,
    cfg: GgufConfig,
) -> bool {
    let hidden = cfg.embedding_length;
    let width = cfg.per_layer_input_dim;
    let all = cfg.block_count * width;
    &&& hidden > 0
    &&& exists|tokens: usize|
        tokens > 0 && #[trigger] is_table(ts, "token_embd.weight"@, tokens, hidden)
    &&& has_shape(ts, "output_norm.weight"@, seq![hidden])
    &&& width > 0 ==> {
        &&& cfg.block_count > 0
        &&& all <= usize::MAX
        &&& exists|tokens: usize| #[trigger]
            is_table(ts, "per_layer_token_embd.weight"@, tokens, all as usize)
        &&& has_shape(ts, "per_layer_model_proj.weight"@, seq![all as usize, hidden])
        &&& has_shape(ts, "per_layer_proj_norm.weight"@, seq![width])
    }
    &&& forall|i: int| 0 <= i < cfg.block_count ==> #[trigger] layer_has_shapes(ts, cfg, i)
}

/// A tensor that layer `i` needs lies in main memory.
proof fn lemma_is_local(
    ts: Seq<(String, Arc<candle_core::quantized::QTensor>)>,
    cfg: GgufConfig,
    i: nat,
    suffix: Seq<char>,
)
    requires
        loader::is_complete(ts, cfg),
        i < cfg.block_count,
        loader::layer_needs(cfg, i, suffix),
    ensures
        loader::is_at_hand(ts, names::block_name(i, suffix)),
{
    assert(loader::is_needed(cfg, names::block_name(i, suffix)));
}

/// The attention of a loaded layer fits.
proof fn lemma_attn_is_fit(
    ts: Seq<(String, Arc<candle_core::quantized::QTensor>)>,
    cfg: GgufConfig,
    device: candle_core::Device,
    i: int,
    l: LayerWeights,
)
    requires
        loader::is_loadable(ts, cfg, device),
        attn_has_shapes(ts, cfg, i),
        0 <= i < cfg.block_count,
        loader::is_layer(ts, cfg, device, i, l),
    ensures
        l.attn_is_fit(cfg.embedding_length),
{
    let n = i as nat;
    lemma_is_local(ts, cfg, n, ".attn_q.weight"@);
    lemma_is_local(ts, cfg, n, ".attn_output.weight"@);
    lemma_is_local(ts, cfg, n, ".attn_q_norm.weight"@);
    assert(l.head_dim == head_dim_of(cfg, i));
    assert(l.q_norm.fits(l.head_dim));
    if i < cfg.first_shared() {
        lemma_is_local(ts, cfg, n, ".attn_k.weight"@);
        lemma_is_local(ts, cfg, n, ".attn_k_norm.weight"@);
        let name = names::block_name(n, ".attn_v.weight"@);
        assert(loader::is_read(cfg, name));
        match l.kv {
            KvSource::Compute { wk, wv, k_norm } => {
                assert(k_norm.fits(l.head_dim));
            },
            KvSource::Shared => {},
        }
    }
}

/// The experts of a loaded layer fit.
proof fn lemma_moe_fits(
    ts: Seq<(String, Arc<candle_core::quantized::QTensor>)>,
    cfg: GgufConfig,
    device: candle_core::Device,
    i: int,
    l: LayerWeights,
)
    requires
        loader::is_loadable(ts, cfg, device),
        layer_has_shapes(ts, cfg, i),
        0 <= i < cfg.block_count,
        loader::is_layer(ts, cfg, device, i, l),
    ensures
        l.moe matches Some(moe) ==> moe.fits(cfg.embedding_length),
{
    let hidden = cfg.embedding_length;
    let n = i as nat;
    if l.moe is Some {
        let moe = l.moe->Some_0;
        lemma_is_local(ts, cfg, n, ".ffn_gate_inp.weight"@);
        lemma_is_local(ts, cfg, n, ".ffn_gate_inp.scale"@);
        lemma_is_local(ts, cfg, n, ".ffn_down_exps.scale"@);
        lemma_is_local(ts, cfg, n, ".post_ffw_norm_1.weight"@);
        lemma_is_local(ts, cfg, n, ".post_ffw_norm_2.weight"@);
        lemma_is_local(ts, cfg, n, ".pre_ffw_norm_2.weight"@);
        assert(moe.post_ffw_norm_1.fits(hidden));
        assert(moe.post_ffw_norm_2.fits(hidden));
        assert(moe.pre_ffw_norm_2.fits(hidden));
        assert(moe.router.fits(hidden));
        let experts = cfg.num_experts->Some_0;
        let fused = choose|fused: usize| #[trigger] stacks_have_shapes(ts, cfg, i, fused);
        assert forall|e: int|
            #![trigger moe.experts.gate_up@[e]]
            #![trigger moe.experts.down@[e]]
            0 <= e < experts implies {
            let fused = packed::packed_rows(moe.experts.gate_up@[e].weight());
            &&& fused / 2 > 0
            &&& packed::is_local_matrix(moe.experts.gate_up@[e].weight(), fused, hidden)
            &&& packed::is_local_matrix(moe.experts.down@[e].weight(), hidden, fused / 2)
        } by {
            assert(packed::packed_device(moe.experts.gate_up@[e].weight()) == device);
            assert(packed::packed_device(moe.experts.down@[e].weight()) == device);
        }
        assert(moe.experts.fits(hidden, experts as int));
    }
}

/// A loaded layer fits.
proof fn lemma_layer_is_fit(
    ts: Seq<(String, Arc<candle_core::quantized::QTensor>)>,
    cfg: GgufConfig,
    device: candle_core::Device,
    i: int,
    l: LayerWeights,
)
    requires
        loader::is_loadable(ts, cfg, device),
        layer_has_shapes(ts, cfg, i),
        0 <= i < cfg.block_count,
        loader::is_layer(ts, cfg, device, i, l),
    ensures
        l.is_fit(
            cfg.embedding_length,
            (if cfg.per_layer_input_dim > 0 {
                Some(cfg.per_layer_input_dim)
            } else {
                None
            }),
        ),
{
    let hidden = cfg.embedding_length;
    let n = i as nat;
    lemma_attn_is_fit(ts, cfg, device, i, l);
    lemma_moe_fits(ts, cfg, device, i, l);
    lemma_is_local(ts, cfg, n, ".attn_norm.weight"@);
    lemma_is_local(ts, cfg, n, ".post_attention_norm.weight"@);
    lemma_is_local(ts, cfg, n, ".ffn_norm.weight"@);
    lemma_is_local(ts, cfg, n, ".post_ffw_norm.weight"@);
    lemma_is_local(ts, cfg, n, ".ffn_gate.weight"@);
    lemma_is_local(ts, cfg, n, ".ffn_up.weight"@);
    lemma_is_local(ts, cfg, n, ".ffn_down.weight"@);
    lemma_is_local(ts, cfg, n, ".layer_output_scale.weight"@);
    assert(l.input_layernorm.fits(hidden));
    assert(l.post_attention_layernorm.fits(hidden));
    assert(l.pre_feedforward_layernorm.fits(hidden));
    assert(l.post_feedforward_layernorm.fits(hidden));
    let inner = choose|inner: usize| #[trigger] mlp_has_shapes(ts, cfg, i, inner);
    assert(packed::packed_rows(l.mlp.gate.weight()) == inner);
    assert(l.mlp.fits(hidden));
    if cfg.per_layer_input_dim > 0 {
        lemma_is_local(ts, cfg, n, ".inp_gate.weight"@);
        lemma_is_local(ts, cfg, n, ".proj.weight"@);
        lemma_is_local(ts, cfg, n, ".post_norm.weight"@);
        assert(l.per_layer->Some_0.post_norm.fits(hidden));
        assert(l.per_layer->Some_0.fits(hidden, cfg.per_layer_input_dim));
    }
}

/// A model that was loaded from a file whose tensors lie in main memory, in the shapes that its
/// metadata asks for, fits together: it runs.
pub proof fn law_loaded_model_is_fit(
    ts: Seq<(String, Arc<candle_core::quantized::QTensor>)>,
    cfg: GgufConfig,
    device: candle_core::Device,
    w: Weights,
)
    requires
        loader::is_loadable(ts, cfg, device),
        has_shapes(ts, cfg),
        loader::is_model(ts, cfg, device, w),
    ensures
        w.is_fit(),
{
    let hidden = cfg.embedding_length;
    assert(loader::is_needed(cfg, "token_embd.weight"@));
    assert(loader::is_needed(cfg, "output_norm.weight"@));
    assert(w.norm.fits(hidden));
    let tokens = choose|tokens: usize|
        tokens > 0 && #[trigger] is_table(ts, "token_embd.weight"@, tokens, hidden);
    assert(packed::packed_rows(w.output.weight()) == tokens);
    if w.ple is Some {
        let ple = w.ple->Some_0;
        assert(loader::is_needed(cfg, "per_layer_token_embd.weight"@));
        assert(loader::is_needed(cfg, "per_layer_model_proj.weight"@));
        assert(loader::is_needed(cfg, "per_layer_proj_norm.weight"@));
        let all = (cfg.block_count * cfg.per_layer_input_dim) as usize;
        let tokens = choose|tokens: usize| #[trigger]
            is_table(ts, "per_layer_token_embd.weight"@, tokens, all);
        assert(packed::packed_rows(ple.token_embeddings.source()) == tokens);
        assert(ple.projection_norm.fits(ple.input_dim));
        assert(ple.is_fit(w.layers@.len(), hidden));
    }
    assert forall|i: int| 0 <= i < w.layers@.len() implies {
        &&& (#[trigger] w.layers@[i]).is_fit(hidden, w.input_dim())
        &&& w.layers@[i].window == w.window_of(w.layers@[i].is_global)
        &&& w.shares_alike(i)
    } by {
        assert(layer_has_shapes(ts, cfg, i));
        assert(loader::is_layer(ts, cfg, device, i, w.layers@[i]));
        lemma_layer_is_fit(ts, cfg, device, i, w.layers@[i]);
        lemma_shares_alike(ts, cfg, device, w, i);
    }
}

/// A loaded layer that shares finds what it shares.
proof fn lemma_shares_alike(
    ts: Seq<(String, Arc<candle_core::quantized::QTensor>)>,
    cfg: GgufConfig,
    device: candle_core::Device,
    w: Weights,
    i: int,
)
    requires
        loader::is_model(ts, cfg, device, w),
        0 <= i < w.layers@.len(),
        attn_has_shapes(ts, cfg, i),
    ensures
        w.shares_alike(i),
{
    assert(loader::is_layer(ts, cfg, device, i, w.layers@[i]));
    if w.layers@[i].kv is Shared {
        let sliding = cfg.is_sliding@[i];
        config::law_donor_is_last_of_its_kind(cfg.is_sliding@, cfg.first_shared(), sliding);
        let d = config::last_of_kind(cfg.is_sliding@, cfg.first_shared(), sliding)->Some_0;
        assert(loader::is_layer(ts, cfg, device, d, w.layers@[d]));
        assert(w.is_donor(d, !sliding));
        assert forall|j: int|
            0 <= j < i && #[trigger] w.is_donor(j, w.layers@[i].is_global) implies {
            &&& w.layers@[j].n_kv_head == w.layers@[i].n_kv_head
            &&& w.layers@[j].head_dim == w.layers@[i].head_dim
        } by {
            assert(loader::is_layer(ts, cfg, device, j, w.layers@[j]));
            assert(cfg.is_donor(j));
        }
    }
}

} // verus!
