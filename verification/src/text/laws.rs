//! What holds of every float model and of every pass over it.

use super::attn::{FloatKvSource, LayerCache};
use super::entries::{float_normed, projected_row};
use super::config::{self, Gemma4TextConfig};
use super::layer::DecoderLayer;
use super::{TextPass, TextWeights};
use crate::attention::{self, KvView};
use crate::mask;
use crate::meaning::{self, entry, is_index, shape_of, Values};
use crate::rotary;
use crate::tensor::layers::{self, CacheView, Place};
use crate::tensor::{self, Expr, NumberExpr, Traced};
use vstd::prelude::*;

verus! {

/// In a model that was built from a shape, a layer that shares keys and values always finds those of
/// an earlier layer of its type, as long as one of that type does not share.
pub proof fn law_shared_layers_find_their_donor(
    cfg: Gemma4TextConfig,
    angles: usize,
    path: Place,
    dtype: candle_core::DType,
    device: candle_core::Device,
    w: TextWeights,
    caches: Seq<LayerCache>,
    i: int,
    j: int,
)
    requires
        super::is_model(cfg, angles, path, dtype, device, w, caches),
        cfg.first_shared() <= i < w.layers@.len(),
        0 <= j < cfg.first_shared(),
        cfg.layer_types@[j] == cfg.layer_types@[i],
    ensures
        w.layers@[i].self_attn.kv is Shared,
        !w.lacks_donor(i),
{
    let of = cfg.layer_types@[i];
    config::law_donor_is_last_of_its_type(cfg.layer_types@, cfg.first_shared(), of);
    let d = config::last_of_type(cfg.layer_types@, cfg.first_shared(), of)->Some_0;
    assert(w.layers@[i].self_attn.is_sliding == cfg.slides(i));
    assert(w.layers@[d].self_attn.is_sliding == cfg.slides(d));
    assert(cfg.is_donor(d));
    assert(w.is_donor(d, cfg.slides(i)));
}

/// A model that was built from a shape without fused attention runs every layer that computes keys
/// and values or shares those of an earlier layer of its type: the model and its layers never differ
/// on per-layer inputs.
pub proof fn law_built_layers_run(
    cfg: Gemma4TextConfig,
    angles: usize,
    path: Place,
    dtype: candle_core::DType,
    device: candle_core::Device,
    w: TextWeights,
    caches: Seq<LayerCache>,
    i: int,
    j: int,
)
    requires
        super::is_model(cfg, angles, path, dtype, device, w, caches),
        !cfg.use_flash_attn,
        0 <= i < w.layers@.len(),
        i < cfg.first_shared() || (0 <= j < cfg.first_shared() && cfg.layer_types@[j]
            == cfg.layer_types@[i]),
    ensures
        !w.refuses_layer(i),
{
    assert(w.layers@[i].self_attn.use_flash_attn == cfg.use_flash_attn);
    if i >= cfg.first_shared() {
        law_shared_layers_find_their_donor(cfg, angles, path, dtype, device, w, caches, i, j);
    }
}

/// Caches of the same kinds and sizes that hold the same.
pub open spec fn caches_agree(a: Seq<LayerCache>, b: Seq<LayerCache>) -> bool {
    super::caches_alike(a, b) && super::cache_views(a) == super::cache_views(b)
}

/// A pass depends on its caches by kind, size and contents alone. So a model whose caches were
/// emptied gives what it gave when it was built.
pub proof fn law_passes_agree(
    w: TextWeights,
    n: nat,
    pass: TextPass,
    xs: Expr,
    dims: Seq<usize>,
    a: Seq<LayerCache>,
    b: Seq<LayerCache>,
    picks: Seq<Seq<Seq<usize>>>,
)
    requires
        caches_agree(a, b),
        n <= w.layers@.len() == a.len(),
    ensures
        w.run(n, pass, xs, dims, a, picks) == w.run(n, pass, xs, dims, b, picks),
    decreases n,
{
    if n > 0 {
        law_passes_agree(w, (n - 1) as nat, pass, xs, dims, a, b, picks);
        assert(a[n - 1].is_like(b[n - 1]));
        assert(super::cache_views(a)[n - 1] == super::cache_views(b)[n - 1]);
    }
}

/// Caches that were emptied agree with the empty caches of the same kinds and sizes.
pub proof fn law_emptied_caches_agree(a: Seq<LayerCache>, b: Seq<LayerCache>)
    requires
        super::caches_alike(a, b),
        forall|i: int| 0 <= i < a.len() ==> (#[trigger] a[i])@ == CacheView::empty(),
        forall|i: int| 0 <= i < b.len() ==> (#[trigger] b[i])@ == CacheView::empty(),
    ensures
        caches_agree(a, b),
{
    assert(super::cache_views(a) =~= super::cache_views(b));
}

impl DecoderLayer {
    /// No weight of the layer stretches the batch or the positions.
    pub open spec fn is_regular(&self) -> bool {
        &&& self.input_layernorm.weight.dims().len() <= 1
        &&& self.layer_scalar.dims().len() <= 1
        &&& self.self_attn.kv matches FloatKvSource::Computed { k_norm, .. }
            ==> k_norm.weight.dims().len() <= 1
    }
}

/// The layer's cache, where it computes keys and values, covers so many positions.
pub open spec fn cache_at(layer: DecoderLayer, cache: CacheView, pos: int) -> bool {
    layer.self_attn.kv is Computed ==> cache.k_len == pos && cache.v_len == pos
}

/// The keys and values that layer `n` computes in a pass.
pub open spec fn computed(
    w: TextWeights,
    n: nat,
    pass: TextPass,
    xs: Expr,
    dims: Seq<usize>,
    caches: Seq<LayerCache>,
    picks: Seq<Seq<Seq<usize>>>,
) -> KvView {
    let before = w.run(n, pass, xs, dims, caches, picks);
    let layer = w.layers@[n as int];
    layer.self_attn.new_kv(
        layer.input_layernorm.of(before.xs, before.dims, pass.dtype),
        layer.input_layernorm.dims_of(before.dims),
        pass.offset,
        pass.dtype,
    )
}

/// Stretching along the last dimension alone leaves the others.
proof fn lemma_positions_stay(dims: Seq<usize>, weight: Seq<usize>)
    requires
        dims.len() >= 2,
        weight.len() <= 1,
    ensures
        tensor::broadcast_dims(dims, weight).len() == dims.len(),
        forall|i: int|
            0 <= i < dims.len() - 1 ==> #[trigger] tensor::broadcast_dims(dims, weight)[i] == dims[i],
{
    assert forall|i: int| 0 <= i < dims.len() - 1 implies #[trigger] tensor::broadcast_dims(
        dims,
        weight,
    )[i] == dims[i] by {
        assert(i + dims.len() - dims.len() == i);
    }
}

/// The keys and values that a regular layer computes cover as many positions as its input.
proof fn lemma_computed_positions(
    layer: DecoderLayer,
    x: Expr,
    dims: Seq<usize>,
    offset: nat,
    dtype: candle_core::DType,
)
    requires
        layer.is_regular(),
        layer.self_attn.kv is Computed,
        dims.len() == 3,
    ensures
        layer.self_attn.new_kv(x, layer.input_layernorm.dims_of(dims), offset, dtype).k_dims[2]
            == dims[1],
        layer.self_attn.new_kv(x, layer.input_layernorm.dims_of(dims), offset, dtype).v_dims[2]
            == dims[1],
{
    lemma_positions_stay(dims, layer.input_layernorm.weight.dims());
    match layer.self_attn.kv {
        FloatKvSource::Computed { k_norm, num_kv_heads, .. } => {
            lemma_positions_stay(
                layer.self_attn.head_dims(layer.input_layernorm.dims_of(dims), num_kv_heads),
                k_norm.weight.dims(),
            );
        },
        FloatKvSource::Shared => {},
    }
}

/// A pass over regular layers keeps the positions of the hidden state, and leaves every cache of a
/// layer that computes keys and values with the new positions behind the old ones.
pub proof fn law_pass_moves_caches_on(
    w: TextWeights,
    n: nat,
    pass: TextPass,
    xs: Expr,
    dims: Seq<usize>,
    caches: Seq<LayerCache>,
    picks: Seq<Seq<Seq<usize>>>,
)
    requires
        n <= w.layers@.len() == caches.len(),
        dims.len() == 3,
        forall|i: int| 0 <= i < w.layers@.len() ==> (#[trigger] w.layers@[i]).is_regular(),
        forall|i: int|
            0 <= i < caches.len() ==> cache_at(
                w.layers@[i],
                (#[trigger] caches[i])@,
                pass.offset as int,
            ),
    ensures
        ({
            let end = w.run(n, pass, xs, dims, caches, picks);
            &&& end.dims.len() == 3
            &&& end.dims[1] == dims[1]
            &&& end.caches.len() == caches.len()
            &&& forall|i: int|
                0 <= i < n ==> cache_at(
                    w.layers@[i],
                    #[trigger] end.caches[i],
                    pass.offset + dims[1],
                )
            &&& forall|i: int|
                n <= i < caches.len() ==> #[trigger] end.caches[i] == caches[i]@
        }),
    decreases n,
{
    if n > 0 {
        law_pass_moves_caches_on(w, (n - 1) as nat, pass, xs, dims, caches, picks);
        let i = n - 1;
        let before = w.run(i as nat, pass, xs, dims, caches, picks);
        let layer = w.layers@[i];
        assert(layer.is_regular());
        assert(cache_at(layer, caches[i]@, pass.offset as int));
        lemma_positions_stay(before.dims, layer.layer_scalar.dims());
        if layer.self_attn.kv is Computed {
            lemma_computed_positions(
                layer,
                layer.input_layernorm.of(before.xs, before.dims, pass.dtype),
                before.dims,
                pass.offset,
                pass.dtype,
            );
        }
    }
}

/// Every layer that computes keys and values attends as many keys as its mask has columns: those
/// that went before and the new ones. A sliding layer does so from a fresh start and as long as its
/// cache holds all positions; later it attends as many as its cache holds.
pub proof fn law_masks_fit_keys(
    w: TextWeights,
    n: nat,
    pass: TextPass,
    xs: Expr,
    dims: Seq<usize>,
    caches: Seq<LayerCache>,
    picks: Seq<Seq<Seq<usize>>>,
)
    requires
        n < w.layers@.len() == caches.len(),
        dims.len() == 3,
        pass.offset + dims[1] <= usize::MAX,
        w.layers@[n as int].self_attn.kv is Computed,
        forall|i: int| 0 <= i < w.layers@.len() ==> (#[trigger] w.layers@[i]).is_regular(),
        forall|i: int|
            0 <= i < caches.len() ==> cache_at(
                w.layers@[i],
                (#[trigger] caches[i])@,
                pass.offset as int,
            ),
    ensures
        ({
            let new = computed(w, n, pass, xs, dims, caches, picks);
            let attended = caches[n as int].attended(new).k_dims[2];
            let all = pass.offset + dims[1];
            match caches[n as int] {
                LayerCache::Normal(_) => attended == all,
                LayerCache::Rotating(c) => {
                    &&& attended == layers::rolled_len(c.limit(), all as nat, dims[1] as nat)
                    &&& pass.offset == 0 || all <= c.limit() ==> attended == all
                },
            }
        }),
{
    law_pass_moves_caches_on(w, n, pass, xs, dims, caches, picks);
    let before = w.run(n, pass, xs, dims, caches, picks);
    let layer = w.layers@[n as int];
    assert(layer.is_regular());
    assert(cache_at(layer, caches[n as int]@, pass.offset as int));
    lemma_computed_positions(
        layer,
        layer.input_layernorm.of(before.xs, before.dims, pass.dtype),
        before.dims,
        pass.offset,
        pass.dtype,
    );
    let new = computed(w, n, pass, xs, dims, caches, picks);
    assert(new.k_dims.len() == 4) by {
        match layer.self_attn.kv {
            FloatKvSource::Computed { k_norm, num_kv_heads, .. } => {
                lemma_positions_stay(
                    layer.self_attn.head_dims(
                        layer.input_layernorm.dims_of(before.dims),
                        num_kv_heads,
                    ),
                    k_norm.weight.dims(),
                );
            },
            FloatKvSource::Shared => {},
        }
    }
}

/// Both passes have the same mask for a type of layer, and all else but the other mask.
pub open spec fn agree_for(a: TextPass, b: TextPass, is_sliding: bool) -> bool {
    if is_sliding {
        a == (TextPass { mask: a.mask, ..b })
    } else {
        a == (TextPass { sliding_mask: a.sliding_mask, ..b })
    }
}

/// The mask of the other type of layer has no influence: as long as all layers are of one type, a
/// pass is where it would be with any other mask for the other type.
pub proof fn law_only_the_own_mask_counts(
    w: TextWeights,
    n: nat,
    a: TextPass,
    b: TextPass,
    xs: Expr,
    dims: Seq<usize>,
    caches: Seq<LayerCache>,
    picks: Seq<Seq<Seq<usize>>>,
    is_sliding: bool,
)
    requires
        agree_for(a, b, is_sliding),
        n <= w.layers@.len(),
        forall|i: int|
            0 <= i < n ==> (#[trigger] w.layers@[i]).self_attn.is_sliding == is_sliding,
    ensures
        w.run(n, a, xs, dims, caches, picks) == w.run(n, b, xs, dims, caches, picks),
    decreases n,
{
    if n > 0 {
        assert(w.layers@[n - 1].self_attn.is_sliding == is_sliding);
        law_only_the_own_mask_counts(
            w,
            (n - 1) as nat,
            a,
            b,
            xs,
            dims,
            caches,
            picks,
            is_sliding,
        );
    }
}

/// A pass appends to the cache of every layer that computes keys and values exactly those that it
/// computes, behind everything that the cache was given before, and leaves the other caches alone.
pub proof fn law_caches_take_what_is_computed(
    w: TextWeights,
    n: nat,
    i: int,
    pass: TextPass,
    xs: Expr,
    dims: Seq<usize>,
    caches: Seq<LayerCache>,
    picks: Seq<Seq<Seq<usize>>>,
)
    requires
        n <= w.layers@.len() == caches.len(),
        0 <= i < w.layers@.len(),
    ensures
        ({
            let end = w.run(n, pass, xs, dims, caches, picks);
            let new = computed(w, i as nat, pass, xs, dims, caches, picks);
            &&& end.caches.len() == caches.len()
            &&& i >= n || w.layers@[i].self_attn.kv is Shared ==> end.caches[i] == caches[i]@
            &&& i < n && w.layers@[i].self_attn.kv is Computed ==> {
                &&& end.caches[i].ks == caches[i]@.ks.push(new.k)
                &&& end.caches[i].vs == caches[i]@.vs.push(new.v)
                &&& end.caches[i].k_len == caches[i]@.k_len + new.k_dims[2]
                &&& end.caches[i].v_len == caches[i]@.v_len + new.v_dims[2]
            }
        }),
    decreases n,
{
    if n > 0 {
        law_caches_take_what_is_computed(
            w,
            (n - 1) as nat,
            i,
            pass,
            xs,
            dims,
            caches,
            picks,
        );
    }
}

/// A pass over more than one position has a mask for each kind of layer: every cached column is
/// admitted, among the new ones a query's own position and those before it, and in sliding layers
/// none that lies further back than the window. A pass over a single position needs none.
pub proof fn law_masks_of_a_pass(
    w: TextWeights,
    ids: Traced,
    xs: Traced,
    offset: usize,
    batch: usize,
    seq_len: usize,
    at: Seq<int>,
    v: Values,
)
    requires
        seq_len + offset <= usize::MAX,
        is_index(at, seq![batch, 1, seq_len, (seq_len + offset) as usize]),
        (v.word)(mask::ADMITTED) == 0 as real,
    ensures
        ({
            let pass = w.pass(ids, xs, offset, batch, seq_len);
            let (query, key) = (at[2], at[3] - offset);
            &&& (pass.mask is Some) == (seq_len > 1)
            &&& (pass.sliding_mask is Some) == (seq_len > 1)
            &&& seq_len > 1 ==> entry(pass.mask->Some_0, at, v) == (v.word)(
                if key <= query {
                    mask::ADMITTED
                } else {
                    mask::MASKED
                },
            )
            &&& seq_len > 1 ==> entry(pass.sliding_mask->Some_0, at, v) == (v.word)(
                if key < 0 || (key <= query && query <= key + w.sliding_window) {
                    mask::ADMITTED
                } else {
                    mask::MASKED
                },
            )
            &&& pass.offset == offset
            &&& pass.inputs == w.per_layer_inputs(ids, xs)
        }),
{
    if seq_len > 1 {
        assert(0 <= at[2] < seq![batch, 1, seq_len, (seq_len + offset) as usize][2]);
        mask::law_decoder_mask_entries(
            batch,
            seq_len,
            offset,
            None,
            w.dtype,
            w.device,
            at,
            v,
        );
        mask::law_decoder_mask_entries(
            batch,
            seq_len,
            offset,
            Some(w.sliding_window),
            w.dtype,
            w.device,
            at,
            v,
        );
    }
}

/// The tables of full layers turn the first pairs of a head by the model's base, and leave the rest
/// of the head alone; those of sliding layers turn every pair, by their own base.
pub proof fn law_tables_of_layers(
    cfg: Gemma4TextConfig,
    angles: usize,
    dtype: candle_core::DType,
    device: candle_core::Device,
    t: rotary::RotaryEmbedding,
)
    requires
        cfg.max_position_embeddings <= u32::MAX,
        cfg.head_dim < usize::MAX,
    ensures
        angles <= cfg.global_head_dim / 2 && super::is_global_rotary(cfg, angles, dtype, device, t)
            ==> rotary::turns_by(
            t,
            cfg.rope_theta.expr(),
            angles as int,
            cfg.global_head_dim as int,
            cfg.max_position_embeddings,
            cfg.global_head_dim / 2,
        ),
        super::is_local_rotary(cfg, dtype, device, t) ==> rotary::turns_by(
            t,
            cfg.rope_local_base_freq.expr(),
            (cfg.head_dim + 1) / 2,
            cfg.head_dim as int,
            cfg.max_position_embeddings,
            ((cfg.head_dim + 1) / 2) as usize,
        ),
{
    let positions = cfg.max_position_embeddings as u32;
    if angles <= cfg.global_head_dim / 2 && super::is_global_rotary(
        cfg,
        angles,
        dtype,
        device,
        t,
    ) {
        rotary::law_tables_turn_by_rates(
            t,
            cfg.rope_theta.expr(),
            angles as nat,
            (cfg.global_head_dim / 2 - angles) as usize,
            cfg.global_head_dim as int,
            positions,
            candle_core::DType::F32,
            candle_core::DType::F32,
            dtype,
            device,
            false,
            true,
        );
    }
    if super::is_local_rotary(cfg, dtype, device, t) {
        rotary::law_tables_turn_by_rates(
            t,
            cfg.rope_local_base_freq.expr(),
            ((cfg.head_dim + 1) / 2) as nat,
            0,
            cfg.head_dim as int,
            positions,
            candle_core::DType::F64,
            dtype,
            dtype,
            device,
            true,
            false,
        );
    }
}

/// A place, spelled out.
pub open spec fn at_place(path: Place, a: Seq<char>, b: Seq<char>) -> Place {
    path.push(a).push(b)
}

/// Every layer of a model holds its own parameters, each where it belongs.
pub proof fn law_layers_hold_their_parameters(
    cfg: Gemma4TextConfig,
    angles: usize,
    path: Place,
    dtype: candle_core::DType,
    device: candle_core::Device,
    w: TextWeights,
    caches: Seq<LayerCache>,
    i: int,
)
    requires
        super::is_model(cfg, angles, path, dtype, device, w, caches),
        0 <= i < w.layers@.len(),
    ensures
        ({
            let own = at_place(path, "layers"@, crate::names::decimal(i as nat));
            let l = w.layers@[i];
            let hidden = cfg.hidden_size;
            let d = if cfg.layer_types@[i] == config::LayerType::SlidingAttention {
                cfg.head_dim
            } else {
                cfg.global_head_dim
            };
            let all = (cfg.num_attention_heads * d) as usize;
            let weight = |a: Seq<char>, b: Seq<char>, dims: Seq<usize>|
                layers::param(at_place(own, a, b), "weight"@, dims);
            &&& l.self_attn.q_proj.weight() == weight("self_attn"@, "q_proj"@, seq![all, hidden])
            &&& l.self_attn.o_proj.weight() == weight("self_attn"@, "o_proj"@, seq![hidden, all])
            &&& l.self_attn.q_norm.weight.expr() == weight("self_attn"@, "q_norm"@, seq![d])
            &&& l.self_attn.head_dim == d
            &&& l.self_attn.num_heads == cfg.num_attention_heads
            &&& (l.self_attn.kv is Shared) == (i >= cfg.first_shared())
            &&& l.self_attn.kv matches FloatKvSource::Computed {
                k_proj,
                v_proj,
                k_norm,
                num_kv_heads,
                rms_norm_eps,
                store_full_length_kv,
            } ==> {
                let kv = (num_kv_heads * d) as usize;
                &&& k_proj.weight() == weight("self_attn"@, "k_proj"@, seq![kv, hidden])
                &&& v_proj matches Some(p) ==> p.weight() == weight(
                    "self_attn"@,
                    "v_proj"@,
                    seq![kv, hidden],
                )
                &&& k_norm.weight.expr() == weight("self_attn"@, "k_norm"@, seq![d])
                &&& (v_proj is None) == (cfg.attention_k_eq_v && !cfg.slides(i))
                &&& rms_norm_eps.expr() == cfg.rms_norm_eps.expr()
                &&& l.self_attn.num_kv_groups == cfg.num_attention_heads as nat
                    / num_kv_heads as nat
            }
            &&& l.mlp.gate_proj.weight() == weight(
                "mlp"@,
                "gate_proj"@,
                seq![cfg.inner_size_of(i) as usize, hidden],
            )
            &&& l.mlp.up_proj.weight() == weight(
                "mlp"@,
                "up_proj"@,
                seq![cfg.inner_size_of(i) as usize, hidden],
            )
            &&& l.mlp.down_proj.weight() == weight(
                "mlp"@,
                "down_proj"@,
                seq![hidden, cfg.inner_size_of(i) as usize],
            )
            &&& l.mlp.act_fn == cfg.hidden_activation
            &&& l.mlp.gate_proj.bias() is None && l.mlp.up_proj.bias() is None
                && l.mlp.down_proj.bias() is None
            &&& l.input_layernorm.weight.expr() == layers::param(
                own.push("input_layernorm"@),
                "weight"@,
                seq![hidden],
            )
            &&& l.post_attention_layernorm.weight.expr() == layers::param(
                own.push("post_attention_layernorm"@),
                "weight"@,
                seq![hidden],
            )
            &&& l.pre_feedforward_layernorm.weight.expr() == layers::param(
                own.push("pre_feedforward_layernorm"@),
                "weight"@,
                seq![hidden],
            )
            &&& l.post_feedforward_layernorm.weight.expr() == layers::param(
                own.push("post_feedforward_layernorm"@),
                "weight"@,
                seq![hidden],
            )
            &&& l.layer_scalar.expr() == layers::param(own, "layer_scalar"@, seq![1])
            &&& l.input_layernorm.eps.expr() == cfg.rms_norm_eps.expr()
            &&& (l.pli_mixer is Some) == (cfg.hidden_size_per_layer_input > 0)
            &&& l.pli_mixer matches Some(m) ==> {
                let width = cfg.hidden_size_per_layer_input;
                &&& m.per_layer_input_gate.weight() == layers::param(
                    own.push("per_layer_input_gate"@),
                    "weight"@,
                    seq![width, hidden],
                )
                &&& m.per_layer_projection.weight() == layers::param(
                    own.push("per_layer_projection"@),
                    "weight"@,
                    seq![hidden, width],
                )
                &&& m.post_per_layer_input_norm.weight.expr() == layers::param(
                    own.push("post_per_layer_input_norm"@),
                    "weight"@,
                    seq![hidden],
                )
                &&& m.act_fn == cfg.hidden_activation
            }
            &&& (l.moe is Some) == cfg.enable_moe_block
            &&& l.moe matches Some(m) ==> {
                let experts = cfg.num_experts->Some_0;
                let inner = cfg.moe_intermediate_size->Some_0;
                &&& m.router.proj.weight() == weight("router"@, "proj"@, seq![experts, hidden])
                &&& m.router.scale.expr() == layers::param(
                    own.push("router"@),
                    "scale"@,
                    seq![hidden],
                )
                &&& m.router.per_expert_scale.expr() == layers::param(
                    own.push("router"@),
                    "per_expert_scale"@,
                    seq![experts],
                )
                &&& Some(m.router.top_k) == cfg.top_k_experts
                &&& m.router.hidden_size == hidden
                &&& m.experts.gate_up.expr() == layers::param(
                    own,
                    "experts.gate_up_proj"@,
                    seq![experts, (2 * inner) as usize, hidden],
                )
                &&& m.experts.down.expr() == layers::param(
                    own,
                    "experts.down_proj"@,
                    seq![experts, hidden, inner],
                )
                &&& m.experts.act == cfg.hidden_activation
                &&& m.post_feedforward_layernorm_1.weight.expr() == layers::param(
                    own.push("post_feedforward_layernorm_1"@),
                    "weight"@,
                    seq![hidden],
                )
                &&& m.post_feedforward_layernorm_2.weight.expr() == layers::param(
                    own.push("post_feedforward_layernorm_2"@),
                    "weight"@,
                    seq![hidden],
                )
                &&& m.pre_feedforward_layernorm_2.weight.expr() == layers::param(
                    own.push("pre_feedforward_layernorm_2"@),
                    "weight"@,
                    seq![hidden],
                )
            }
        }),
{
    let l = w.layers@[i];
    let own = path.push("layers"@).push(crate::names::decimal(i as nat));
    assert(l.is_at(cfg, own, i, l.self_attn.rotary));
}

/// A sliding layer's cache holds as many positions as the shape says for sliding layers, and a full
/// layer's all that the model is made for.
pub proof fn law_caches_have_their_size(
    cfg: Gemma4TextConfig,
    angles: usize,
    path: Place,
    dtype: candle_core::DType,
    device: candle_core::Device,
    w: TextWeights,
    caches: Seq<LayerCache>,
    i: int,
)
    requires
        super::is_model(cfg, angles, path, dtype, device, w, caches),
        0 <= i < caches.len(),
    ensures
        caches[i].size() == (if cfg.layer_types@[i] == config::LayerType::SlidingAttention {
            cfg.effective_sliding_window
        } else {
            cfg.max_position_embeddings
        }),
        (caches[i] is Rotating) == (cfg.layer_types@[i] == config::LayerType::SlidingAttention),
        caches[i]@ == CacheView::empty(),
{
    assert(caches[i].is_for(cfg, i));
}

/// A pass that succeeds gives the logits of the last of its positions: the projected, normalised last
/// row of the hidden state behind the last layer.
pub proof fn law_results_are_of_the_last_position(
    w: TextWeights,
    ids: Traced,
    xs: Traced,
    offset: usize,
    batch: usize,
    seq_len: usize,
    before: Seq<LayerCache>,
    after: Seq<LayerCache>,
    t: Traced,
    at: Seq<int>,
    v: Values,
)
    requires
        super::pass_outcome(w, ids, xs, offset, batch, seq_len, before, after, Ok(t)),
        at.len() == 3,
        at[1] == 0,
    ensures
        seq_len > 0,
        exists|picks: Seq<Seq<Seq<usize>>>|
            {
                let end = w.run(
                    w.layers@.len(),
                    w.pass(ids, xs, offset, batch, seq_len),
                    xs.expr(),
                    xs.dims(),
                    before,
                    picks,
                );
                let n = end.dims[2] as int;
                let last = meaning::line(end.xs, seq![at[0], seq_len - 1, 0], v);
                &&& #[trigger] w.are_picks(
                    w.pass(ids, xs, offset, batch, seq_len),
                    xs.expr(),
                    xs.dims(),
                    before,
                    picks,
                )
                &&& shape_of(end.xs) == end.dims && end.dims.len() == 3 && n > 0 && 0 <= at[0]
                    < end.dims[0] && shape_of(w.norm.weight.expr()) == seq![end.dims[2]] ==> entry(
                    t.expr(),
                    at,
                    v,
                ) == crate::formulas::capped(
                    projected_row(w.lm_head, n, float_normed(w.norm, last, n, v), v)(at[2]),
                    match w.final_logit_softcapping {
                        Some(cap) => Some(meaning::number(cap.expr(), v)),
                        None => None,
                    },
                    v,
                )
            },
{
    let pass = w.pass(ids, xs, offset, batch, seq_len);
    let picks = choose|picks: Seq<Seq<Seq<usize>>>| #[trigger]
        w.are_picks(pass, xs.expr(), xs.dims(), before, picks) && ({
            let end = w.run(w.layers@.len(), pass, xs.expr(), xs.dims(), before, picks);
            &&& t.expr() == w.logits(end.xs, end.dims, xs.dtype(), seq_len as int)
            &&& t.dims() == w.logits_dims(end.dims)
            &&& super::cache_views(after) == end.caches
        });
    let end = w.run(w.layers@.len(), pass, xs.expr(), xs.dims(), before, picks);
    if shape_of(end.xs) == end.dims && end.dims.len() == 3 && end.dims[2] > 0 && 0 <= at[0]
        < end.dims[0] && shape_of(w.norm.weight.expr()) == seq![end.dims[2]] {
        super::entries::law_float_logits(
            w,
            end.xs,
            end.dims,
            xs.dtype(),
            seq_len as int,
            at,
            v,
        );
    }
}

/// So many pairs of a full layer's head rotate as its share of the half of the head says.
pub proof fn law_angles_are_a_share(cfg: Gemma4TextConfig, v: Values)
    ensures
        meaning::number(super::global_angles_number(cfg), v) == meaning::number(
            cfg.partial_rotary_factor.expr(),
            v,
        ) * cfg.global_head_dim as real / 2 as real,
{
    let (factor, size) = (
        cfg.partial_rotary_factor.expr(),
        NumberExpr::Int(cfg.global_head_dim as int),
    );
    let product = NumberExpr::Times(Box::new(factor), Box::new(size));
    let two = NumberExpr::Int(2);
    assert(meaning::number(size, v) == (cfg.global_head_dim as int) as real);
    assert(meaning::number(product, v) == meaning::number(factor, v) * meaning::number(size, v));
    assert(meaning::number(two, v) == 2 as real);
}

/// A cache was given these keys and values, one after the other.
pub open spec fn was_given(cache: CacheView, news: Seq<KvView>) -> bool {
    &&& cache.ks == news.map_values(|kv: KvView| kv.k)
    &&& cache.vs == news.map_values(|kv: KvView| kv.v)
    &&& cache.k_len == attention::begins(news, news.len() as int)
    &&& cache.v_len == attention::begins(news, news.len() as int)
}

/// What a full layer attends are all positions that went before and the new ones, each in its place:
/// in place `c` stand the key and the value that were computed for position `c`.
pub proof fn law_growing_caches_keep_positions_in_place(
    cache: LayerCache,
    news: Seq<KvView>,
    new: KvView,
)
    requires
        cache is Normal,
        was_given(cache@, news),
        attention::is_recorded(new),
        attention::are_pieces(news, new.k_dims),
        attention::begins(news.push(new), news.len() as int + 1) <= usize::MAX,
    ensures
        was_given(cache.pushed(new), news.push(new)),
        attention::shows(cache.attended(new), news.push(new), 0),
{
    let all = news.push(new);
    let end = all.len() as int;
    attention::lemma_begins_more(news, new, news.len() as int);
    assert(attention::begins(all, end) == attention::begins(all, end - 1) + new.k_dims[2]);
    let seen = cache.pushed(new);
    assert(seen.ks =~= all.map_values(|kv: KvView| kv.k));
    assert(seen.vs =~= all.map_values(|kv: KvView| kv.v));
    let kv = cache.attended(new);
    let limit = cache->Normal_0.limit() as nat;
    let (ks, vs) = (seen.ks, seen.vs);
    let (kl, vl) = (meaning::extents(ks, 2), meaning::extents(vs, 2));
    assert forall|m: int| 0 <= m < all.len() implies attention::is_recorded(#[trigger] all[m])
        && all[m].k_dims.update(2, 0) == new.k_dims.update(2, 0) by {
        if m < news.len() {
            assert(all[m] == news[m]);
        }
    }
    assert forall|m: int| 0 <= m < all.len() implies #[trigger] kl[m] == all[m].k_dims[2] && vl[m]
        == all[m].k_dims[2] by {
        assert(attention::is_recorded(all[m]));
        assert(ks[m] == all[m].k && vs[m] == all[m].v);
    }
    lemma_begins_before(all, kl, end);
    assert(kl =~= vl);
    meaning::lemma_appended_shape(ks, 2, limit, kl);
    meaning::lemma_appended_shape(vs, 2, limit, vl);
    attention::lemma_begins(all, 0, end);
    assert(attention::is_recorded(all[0]));
    assert(ks[0] == all[0].k && vs[0] == all[0].v);
    assert(shape_of(kv.k) =~= kv.k_dims) by {
        assert(all[0].k_dims.update(2, 0) == new.k_dims.update(2, 0));
        assert forall|i: int| 0 <= i < 4 implies shape_of(kv.k)[i] == kv.k_dims[i] by {
            if i != 2 {
                assert(all[0].k_dims.update(2, 0)[i] == new.k_dims.update(2, 0)[i]);
            }
        }
    }
    assert(shape_of(kv.v) =~= kv.k_dims) by {
        assert forall|i: int| 0 <= i < 4 implies shape_of(kv.v)[i] == kv.k_dims[i] by {
            if i != 2 {
                assert(all[0].k_dims.update(2, 0)[i] == new.k_dims.update(2, 0)[i]);
            }
        }
    }
    assert(kv.v_dims =~= kv.k_dims);
    assert forall|m: int, at: Seq<int>, v: Values|
        #![trigger entry(all[m].k, at, v)]
        #![trigger entry(all[m].v, at, v)]
        0 <= m < all.len() && is_index(at, all[m].k_dims) && 0 <= attention::begins(all, m) + at[2]
            implies ({
            let c = attention::begins(all, m) + at[2] - 0;
            &&& entry(kv.k, at.update(2, c), v) == entry(all[m].k, at, v)
            &&& entry(kv.v, at.update(2, c), v) == entry(all[m].v, at, v)
        }) by {
        assert(attention::is_recorded(all[m]));
        assert(ks[m] == all[m].k && vs[m] == all[m].v);
        assert(0 <= at[2] < all[m].k_dims[2]);
        lemma_begins_before(all, kl, m);
        meaning::lemma_appended(ks, 2, limit, m, at, v);
        meaning::lemma_appended(vs, 2, limit, m, at, v);
    }
}

/// Where pieces begin, counted one way or the other.
proof fn lemma_begins_before(news: Seq<KvView>, lens: Seq<int>, m: int)
    requires
        0 <= m <= news.len(),
        lens.len() == news.len(),
        forall|i: int| 0 <= i < news.len() ==> #[trigger] lens[i] == news[i].k_dims[2],
    ensures
        attention::begins(news, m) == meaning::before(lens, m),
    decreases m,
{
    if m > 0 {
        lemma_begins_before(news, lens, m - 1);
        assert(lens[m - 1] == news[m - 1].k_dims[2]);
    }
}

/// A layer puts its keys and values aside exactly where it computes them and is the last of its type
/// that does.
pub proof fn law_donors_are_the_last_of_their_type(
    cfg: Gemma4TextConfig,
    angles: usize,
    path: Place,
    dtype: candle_core::DType,
    device: candle_core::Device,
    w: TextWeights,
    caches: Seq<LayerCache>,
    i: int,
)
    requires
        super::is_model(cfg, angles, path, dtype, device, w, caches),
        0 <= i < w.layers@.len(),
        w.layers@[i].self_attn.kv is Computed,
    ensures
        i < cfg.first_shared(),
        w.layers@[i].self_attn.kv->store_full_length_kv <==> forall|j: int|
            i < j < cfg.first_shared() ==> #[trigger] cfg.layer_types@[j] != cfg.layer_types@[i],
{
    let l = w.layers@[i];
    assert(l.is_at(
        cfg,
        path.push("layers"@).push(crate::names::decimal(i as nat)),
        i,
        l.self_attn.rotary,
    ));
    config::law_donor_is_last_of_its_type(
        cfg.layer_types@,
        cfg.first_shared(),
        cfg.layer_types@[i],
    );
}

/// A layer that shares attends the keys and values of the last layer of its type that puts some aside:
/// all that that layer attends in the same pass.
pub proof fn law_sharing_layers_attend_their_donors_keys(
    w: TextWeights,
    n: nat,
    d: int,
    pass: TextPass,
    xs: Expr,
    dims: Seq<usize>,
    caches: Seq<LayerCache>,
    picks: Seq<Seq<Seq<usize>>>,
    is_sliding: bool,
)
    requires
        n <= w.layers@.len() == caches.len(),
        0 <= d < n,
        w.is_donor(d, is_sliding),
        forall|j: int| d < j < n ==> !#[trigger] w.is_donor(j, is_sliding),
    ensures
        w.run(n, pass, xs, dims, caches, picks).shared.get(!is_sliding) == Some(
            caches[d].attended(computed(w, d as nat, pass, xs, dims, caches, picks)),
        ),
    decreases n,
{
    if n - 1 > d {
        assert(!w.is_donor(n - 1, is_sliding));
        law_sharing_layers_attend_their_donors_keys(
            w,
            (n - 1) as nat,
            d,
            pass,
            xs,
            dims,
            caches,
            picks,
            is_sliding,
        );
    }
}

/// Every token is given as many experts as the model says, no one twice, all of them among those that
/// there are probabilities for.
pub proof fn law_tokens_get_their_experts(
    block: super::moe::FloatMoeBlock,
    residual: Expr,
    dims: Seq<usize>,
    dtype: candle_core::DType,
    picks: Seq<Seq<usize>>,
    n: int,
)
    requires
        block.are_picks(residual, dims, dtype, picks),
        0 <= n < picks.len(),
    ensures
        block.router.top_k > 0,
        picks[n].len() == block.router.top_k,
        picks[n].no_duplicates(),
{
}

/// What a sliding layer attends comes of the keys and values that its cache was given and of the new
/// ones, keys of keys and values of values: a piece that fills the cache is attended itself, a shorter
/// one together with what the cache still holds.
pub proof fn law_rolling_caches_roll_what_they_were_given(cache: LayerCache, new: KvView)
    requires
        cache is Rotating,
        new.k_dims.len() == 4,
        new.v_dims.len() == 4,
    ensures
        ({
            let kv = cache.attended(new);
            let limit = cache->Rotating_0.limit();
            &&& new.k_dims[2] >= limit ==> kv.k == new.k && kv.k_dims == new.k_dims
            &&& new.v_dims[2] >= limit ==> kv.v == new.v && kv.v_dims == new.v_dims
            &&& new.k_dims[2] < limit ==> kv.k == (Expr::Rotated {
                dim: 2,
                limit: limit as nat,
                pieces: cache@.ks.push(new.k),
            })
            &&& new.v_dims[2] < limit ==> kv.v == (Expr::Rotated {
                dim: 2,
                limit: limit as nat,
                pieces: cache@.vs.push(new.v),
            })
            &&& kv.k_dims.update(2, 0) == new.k_dims.update(2, 0)
            &&& kv.v_dims.update(2, 0) == new.v_dims.update(2, 0)
        }),
{
    let kv = cache.attended(new);
    assert(kv.k_dims.update(2, 0) =~= new.k_dims.update(2, 0));
    assert(kv.v_dims.update(2, 0) =~= new.v_dims.update(2, 0));
    assert(cache@.ks.push(new.k).last() == new.k);
    assert(cache@.vs.push(new.v).last() == new.v);
    assert(new.k_dims.update(2, new.k_dims[2]) =~= new.k_dims);
    assert(new.v_dims.update(2, new.v_dims[2]) =~= new.v_dims);
}

} // verus!
