//! What the metadata and the tensors of a file may leave open without a change of the model.

use super::config::{self, GgufConfig};
use super::layer::{KvSource, LayerWeights};
use super::loader;
use super::metadata::{self, MetaKey, MetaValue};
use super::moe::{self, Experts};
use super::{Gemma4KvCache, Pass, PassState, Weights};
use crate::attention::{KvView, SharedView};
use crate::error::ModelError;
use crate::names;
use crate::routing;
use crate::tensor::packed::{self, PackedMatMul};
use crate::tensor::{self, Expr, Traced};
use std::sync::Arc;
use vstd::prelude::*;

verus! {

/// Both files hold the same tensor, or none, under every name that the model reads.
pub open spec fn agree_on_what_is_read(
    a: Seq<(String, Arc<candle_core::quantized::QTensor>)>,
    b: Seq<(String, Arc<candle_core::quantized::QTensor>)>,
    cfg: GgufConfig,
) -> bool {
    forall|name: Seq<char>| #[trigger]
        loader::is_read(cfg, name) ==> loader::tensor_named(a, name) == loader::tensor_named(
            b,
            name,
        )
}

/// What a layer needs is read.
proof fn lemma_needed(cfg: GgufConfig, i: nat, suffix: Seq<char>)
    requires
        i < cfg.block_count,
        loader::layer_needs(cfg, i, suffix),
    ensures
        loader::is_read(cfg, names::block_name(i, suffix)),
{
}

/// A layer is the same from either file.
proof fn lemma_layer(
    a: Seq<(String, Arc<candle_core::quantized::QTensor>)>,
    b: Seq<(String, Arc<candle_core::quantized::QTensor>)>,
    cfg: GgufConfig,
    device: candle_core::Device,
    i: int,
    l: LayerWeights,
)
    requires
        agree_on_what_is_read(a, b, cfg),
        0 <= i < cfg.block_count,
        loader::is_layer(a, cfg, device, i, l),
    ensures
        loader::is_layer(b, cfg, device, i, l),
{
    let n = i as nat;
    lemma_needed(cfg, n, ".attn_q.weight"@);
    lemma_needed(cfg, n, ".attn_output.weight"@);
    lemma_needed(cfg, n, ".attn_q_norm.weight"@);
    lemma_needed(cfg, n, ".attn_norm.weight"@);
    lemma_needed(cfg, n, ".post_attention_norm.weight"@);
    lemma_needed(cfg, n, ".ffn_norm.weight"@);
    lemma_needed(cfg, n, ".post_ffw_norm.weight"@);
    lemma_needed(cfg, n, ".ffn_gate.weight"@);
    lemma_needed(cfg, n, ".ffn_up.weight"@);
    lemma_needed(cfg, n, ".ffn_down.weight"@);
    lemma_needed(cfg, n, ".layer_output_scale.weight"@);
    if i < cfg.first_shared() {
        lemma_needed(cfg, n, ".attn_k.weight"@);
        lemma_needed(cfg, n, ".attn_k_norm.weight"@);
        assert(loader::is_read(cfg, names::block_name(n, ".attn_v.weight"@)));
    }
    if cfg.per_layer_input_dim > 0 {
        lemma_needed(cfg, n, ".inp_gate.weight"@);
        lemma_needed(cfg, n, ".proj.weight"@);
        lemma_needed(cfg, n, ".post_norm.weight"@);
    }
    if loader::has_experts(cfg) {
        lemma_needed(cfg, n, ".ffn_gate_up_exps.weight"@);
        lemma_needed(cfg, n, ".ffn_down_exps.weight"@);
        lemma_needed(cfg, n, ".ffn_gate_inp.weight"@);
        lemma_needed(cfg, n, ".ffn_gate_inp.scale"@);
        lemma_needed(cfg, n, ".ffn_down_exps.scale"@);
        lemma_needed(cfg, n, ".post_ffw_norm_1.weight"@);
        lemma_needed(cfg, n, ".post_ffw_norm_2.weight"@);
        lemma_needed(cfg, n, ".pre_ffw_norm_2.weight"@);
    }
}

/// A model from one file is the model from the other.
proof fn lemma_model(
    a: Seq<(String, Arc<candle_core::quantized::QTensor>)>,
    b: Seq<(String, Arc<candle_core::quantized::QTensor>)>,
    cfg: GgufConfig,
    device: candle_core::Device,
    w: Weights,
)
    requires
        agree_on_what_is_read(a, b, cfg),
        loader::is_model(a, cfg, device, w),
    ensures
        loader::is_model(b, cfg, device, w),
{
    assert(loader::is_read(cfg, "token_embd.weight"@));
    assert(loader::is_read(cfg, "output_norm.weight"@));
    if cfg.per_layer_input_dim > 0 {
        assert(loader::is_read(cfg, "per_layer_token_embd.weight"@));
        assert(loader::is_read(cfg, "per_layer_model_proj.weight"@));
        assert(loader::is_read(cfg, "per_layer_proj_norm.weight"@));
    }
    assert forall|i: int| 0 <= i < w.layers@.len() implies loader::is_layer(
        b,
        cfg,
        device,
        i,
        #[trigger] w.layers@[i],
    ) by {
        lemma_layer(a, b, cfg, device, i, w.layers@[i]);
    }
}

/// An error of one file is an error of the other.
proof fn lemma_error(
    a: Seq<(String, Arc<candle_core::quantized::QTensor>)>,
    b: Seq<(String, Arc<candle_core::quantized::QTensor>)>,
    cfg: GgufConfig,
    e: ModelError,
)
    requires
        agree_on_what_is_read(a, b, cfg),
        loader::is_model_error(a, cfg, e),
    ensures
        loader::is_model_error(b, cfg, e),
{
    if loader::is_load_error(a, cfg, e) {
        if let ModelError::MissingTensor(name) = e {
            assert(loader::is_read(cfg, name@));
        }
        assert(loader::is_load_error(b, cfg, e));
    } else {
        let i = choose|i: int|
            0 <= i < cfg.block_count && #[trigger] loader::is_experts_error(a, cfg, i, e);
        let n = i as nat;
        lemma_needed(cfg, n, ".ffn_gate_up_exps.weight"@);
        lemma_needed(cfg, n, ".ffn_down_exps.weight"@);
        lemma_needed(cfg, n, ".ffn_down_exps.scale"@);
        assert(loader::is_experts_error(b, cfg, i, e));
    }
}

/// Only the tensors that a model reads decide how it loads: two files that agree on those give the
/// same models, and end in the same errors.
pub proof fn law_only_what_is_read_decides(
    a: Seq<(String, Arc<candle_core::quantized::QTensor>)>,
    b: Seq<(String, Arc<candle_core::quantized::QTensor>)>,
    cfg: GgufConfig,
    device: candle_core::Device,
)
    requires
        agree_on_what_is_read(a, b, cfg),
    ensures
        forall|w: Weights| #[trigger]
            loader::is_model(a, cfg, device, w) == loader::is_model(b, cfg, device, w),
        forall|e: ModelError| #[trigger]
            loader::is_model_error(a, cfg, e) == loader::is_model_error(b, cfg, e),
        loader::is_loadable(a, cfg, device) == loader::is_loadable(b, cfg, device),
{
    assert(agree_on_what_is_read(b, a, cfg));
    if loader::is_loadable(a, cfg, device) {
        lemma_loadable(a, b, cfg, device);
    }
    if loader::is_loadable(b, cfg, device) {
        lemma_loadable(b, a, cfg, device);
    }
    assert forall|w: Weights| #[trigger]
        loader::is_model(a, cfg, device, w) == loader::is_model(b, cfg, device, w) by {
        if loader::is_model(a, cfg, device, w) {
            lemma_model(a, b, cfg, device, w);
        }
        if loader::is_model(b, cfg, device, w) {
            lemma_model(b, a, cfg, device, w);
        }
    }
    assert forall|e: ModelError| #[trigger]
        loader::is_model_error(a, cfg, e) == loader::is_model_error(b, cfg, e) by {
        if loader::is_model_error(a, cfg, e) {
            lemma_error(a, b, cfg, e);
        }
        if loader::is_model_error(b, cfg, e) {
            lemma_error(b, a, cfg, e);
        }
    }
}

/// A model that can be loaded from one file can be loaded from the other.
proof fn lemma_loadable(
    a: Seq<(String, Arc<candle_core::quantized::QTensor>)>,
    b: Seq<(String, Arc<candle_core::quantized::QTensor>)>,
    cfg: GgufConfig,
    device: candle_core::Device,
)
    requires
        agree_on_what_is_read(a, b, cfg),
        loader::is_loadable(a, cfg, device),
    ensures
        loader::is_loadable(b, cfg, device),
{
    assert forall|name: Seq<char>| #[trigger] loader::is_needed(cfg, name) implies loader::is_at_hand(
        b,
        name,
    ) by {
        assert(loader::is_read(cfg, name));
        assert(loader::is_at_hand(a, name));
    }
    assert forall|name: Seq<char>| #[trigger]
        loader::is_read(cfg, name) && loader::tensor_named(b, name) is Some implies loader::is_at_hand(
        b,
        name,
    ) by {
        assert(loader::is_at_hand(a, name));
    }
    if loader::has_experts(cfg) {
        assert forall|i: int| 0 <= i < cfg.block_count implies #[trigger] loader::has_stacks(
            b,
            cfg,
            i,
        ) by {
            assert(loader::has_stacks(a, cfg, i));
            lemma_needed(cfg, i as nat, ".ffn_gate_up_exps.weight"@);
            lemma_needed(cfg, i as nat, ".ffn_down_exps.weight"@);
            lemma_needed(cfg, i as nat, ".ffn_down_exps.scale"@);
        }
    }
}

/// The ends of the names of a layer's tensors for keys and values.
pub open spec fn is_key_suffix(suffix: Seq<char>) -> bool {
    ||| suffix == ".attn_k.weight"@
    ||| suffix == ".attn_v.weight"@
    ||| suffix == ".attn_k_norm.weight"@
}

/// The ends of the names of what a layer needs but for keys and values.
proof fn lemma_suffixes(cfg: GgufConfig, i: nat, suffix: Seq<char>)
    requires
        loader::layer_needs(cfg, i, suffix) || is_key_suffix(suffix),
    ensures
        suffix.len() > 0,
        suffix[0] == '.',
        is_key_suffix(suffix) && loader::layer_needs(cfg, i, suffix) ==> i < cfg.first_shared(),
{
    reveal_strlit(".attn_k.weight");
    reveal_strlit(".attn_v.weight");
    reveal_strlit(".attn_k_norm.weight");
    reveal_strlit(".attn_q.weight");
    reveal_strlit(".attn_output.weight");
    reveal_strlit(".attn_q_norm.weight");
    reveal_strlit(".attn_norm.weight");
    reveal_strlit(".post_attention_norm.weight");
    reveal_strlit(".ffn_norm.weight");
    reveal_strlit(".post_ffw_norm.weight");
    reveal_strlit(".ffn_gate.weight");
    reveal_strlit(".ffn_up.weight");
    reveal_strlit(".ffn_down.weight");
    reveal_strlit(".layer_output_scale.weight");
    reveal_strlit(".inp_gate.weight");
    reveal_strlit(".proj.weight");
    reveal_strlit(".post_norm.weight");
    reveal_strlit(".ffn_gate_up_exps.weight");
    reveal_strlit(".ffn_down_exps.weight");
    reveal_strlit(".ffn_gate_inp.weight");
    reveal_strlit(".ffn_gate_inp.scale");
    reveal_strlit(".ffn_down_exps.scale");
    reveal_strlit(".post_ffw_norm_1.weight");
    reveal_strlit(".post_ffw_norm_2.weight");
    reveal_strlit(".pre_ffw_norm_2.weight");
    assert(is_key_suffix(suffix) ==> suffix[1] == 'a' && (suffix[6] == 'k' || suffix[6] == 'v'));
    assert(loader::layer_needs_always(suffix) ==> suffix[1] != 'a' || suffix[6] != 'k' && suffix[6]
        != 'v');
    assert(loader::layer_needs_for_inputs(suffix) ==> suffix[1] != 'a');
    assert(loader::layer_needs_for_experts(suffix) ==> suffix[1] != 'a');
}

/// A layer that shares an earlier layer's keys and values reads none of the tensors for them.
pub proof fn law_sharing_layers_read_no_keys(cfg: GgufConfig, i: nat, suffix: Seq<char>)
    requires
        i >= cfg.first_shared(),
        is_key_suffix(suffix),
    ensures
        !loader::is_read(cfg, names::block_name(i, suffix)),
{
    let name = names::block_name(i, suffix);
    lemma_suffixes(cfg, i, suffix);
    reveal_strlit("blk.");
    reveal_strlit("token_embd.weight");
    reveal_strlit("output_norm.weight");
    reveal_strlit("per_layer_token_embd.weight");
    reveal_strlit("per_layer_model_proj.weight");
    reveal_strlit("per_layer_proj_norm.weight");
    assert(name[0] == 'b');
    assert forall|j: nat, t: Seq<char>|
        name == #[trigger] names::block_name(j, t) && loader::layer_needs(cfg, j, t) implies false by {
        lemma_suffixes(cfg, j, t);
        names::law_block_names_are_distinct(i, suffix, j, t);
    }
    assert forall|j: nat|
        name == #[trigger] names::block_name(j, ".attn_v.weight"@) && j < cfg.first_shared() implies
        false by {
        lemma_suffixes(cfg, j, ".attn_v.weight"@);
        names::law_block_names_are_distinct(i, suffix, j, ".attn_v.weight"@);
    }
}

/// The name is that of a tensor for keys and values of a layer that shares an earlier layer's.
pub open spec fn is_spare(cfg: GgufConfig, name: Seq<char>) -> bool {
    exists|i: nat, suffix: Seq<char>|
        name == #[trigger] names::block_name(i, suffix) && i >= cfg.first_shared() && is_key_suffix(
            suffix,
        )
}

/// Both files hold the same tensor, or none, under every name but those of the tensors for keys and
/// values of the layers that share an earlier layer's.
pub open spec fn agree_but_for_spares(
    a: Seq<(String, Arc<candle_core::quantized::QTensor>)>,
    b: Seq<(String, Arc<candle_core::quantized::QTensor>)>,
    cfg: GgufConfig,
) -> bool {
    forall|name: Seq<char>|
        !is_spare(cfg, name) ==> #[trigger] loader::tensor_named(a, name) == loader::tensor_named(
            b,
            name,
        )
}

/// A model loads alike with and without the tensors for keys and values of the layers that share an
/// earlier layer's: files that differ in those alone can be loaded alike, give the same models, and
/// end in the same errors.
pub proof fn law_sharing_layers_need_no_keys(
    a: Seq<(String, Arc<candle_core::quantized::QTensor>)>,
    b: Seq<(String, Arc<candle_core::quantized::QTensor>)>,
    cfg: GgufConfig,
    device: candle_core::Device,
)
    requires
        agree_but_for_spares(a, b, cfg),
    ensures
        forall|w: Weights| #[trigger]
            loader::is_model(a, cfg, device, w) == loader::is_model(b, cfg, device, w),
        forall|e: ModelError| #[trigger]
            loader::is_model_error(a, cfg, e) == loader::is_model_error(b, cfg, e),
        loader::is_loadable(a, cfg, device) == loader::is_loadable(b, cfg, device),
{
    assert forall|name: Seq<char>| #[trigger] loader::is_read(cfg, name) implies loader::tensor_named(
        a,
        name,
    ) == loader::tensor_named(b, name) by {
        if is_spare(cfg, name) {
            let (i, suffix) = choose|i: nat, suffix: Seq<char>|
                name == #[trigger] names::block_name(i, suffix) && i >= cfg.first_shared()
                    && is_key_suffix(suffix);
            law_sharing_layers_read_no_keys(cfg, i, suffix);
        }
    }
    law_only_what_is_read_decides(a, b, cfg, device);
}

/// A layer that computes its keys needs their projection and their normalisation: a file without one
/// of the two gives no model.
pub proof fn law_computing_layers_need_keys(
    ts: Seq<(String, Arc<candle_core::quantized::QTensor>)>,
    cfg: GgufConfig,
    device: candle_core::Device,
    i: nat,
    suffix: Seq<char>,
)
    requires
        i < cfg.first_shared(),
        suffix == ".attn_k.weight"@ || suffix == ".attn_k_norm.weight"@,
        loader::tensor_named(ts, names::block_name(i, suffix)) is None,
    ensures
        forall|w: Weights| !#[trigger] loader::is_model(ts, cfg, device, w),
{
    assert forall|w: Weights| !#[trigger] loader::is_model(ts, cfg, device, w) by {
        if loader::is_model(ts, cfg, device, w) {
            assert(i < cfg.block_count);
            let l = w.layers@[i as int];
            assert(loader::is_layer(ts, cfg, device, i as int, l));
            match l.kv {
                KvSource::Shared => {},
                KvSource::Compute { wk, wv, k_norm } => {},
            }
        }
    }
}

/// Both files say the same under every key but that of the counts of key and value heads.
pub open spec fn agree_but_for_head_counts(
    a: Seq<(String, MetaValue)>,
    b: Seq<(String, MetaValue)>,
) -> bool {
    forall|key: MetaKey|
        key != MetaKey::HeadCountKv ==> #[trigger] metadata::lookup(a, key.name())
            == metadata::lookup(b, key.name())
}

/// Two values are counts, whether signed or not, of the same number.
pub open spec fn is_same_count(x: MetaValue, y: MetaValue) -> bool {
    metadata::either_count(x) is Some && metadata::either_count(x) == metadata::either_count(y)
}

/// Two ways to write the counts of all layers: arrays of the same counts, or one count and an array
/// that repeats it.
pub open spec fn are_same_counts(x: MetaValue, y: MetaValue, layers: nat) -> bool {
    match (x, y) {
        (MetaValue::Array(us), MetaValue::Array(vs)) => us@.len() == vs@.len() && forall|i: int|
            0 <= i < us@.len() ==> is_same_count(#[trigger] us@[i], vs@[i]),
        (_, MetaValue::Array(vs)) => vs@.len() == layers && metadata::either_count(x) is Some
            && forall|i: int| 0 <= i < vs@.len() ==> is_same_count(x, #[trigger] vs@[i]),
        _ => is_same_count(x, y),
    }
}

/// The counts of key and value heads may be written as one count for all layers, as an array of
/// unsigned counts or as an array of signed ones: files that differ in that alone are accepted alike
/// and give the same shape.
pub proof fn law_forms_of_head_counts(a: Seq<(String, MetaValue)>, b: Seq<(String, MetaValue)>)
    requires
        agree_but_for_head_counts(a, b),
        metadata::lookup(a, MetaKey::HeadCountKv.name()) is Some,
        metadata::lookup(b, MetaKey::HeadCountKv.name()) is Some,
        are_same_counts(
            metadata::lookup(a, MetaKey::HeadCountKv.name())->Some_0,
            metadata::lookup(b, MetaKey::HeadCountKv.name())->Some_0,
            config::layers_in(a) as nat,
        ),
    ensures
        config::is_accepted(a) == config::is_accepted(b),
        forall|e: ModelError| #[trigger]
            config::is_first_refusal(a, e) == config::is_first_refusal(b, e),
        forall|cfg: GgufConfig| #[trigger] cfg.follows(a) == cfg.follows(b),
{
    let layers = config::layers_in(a) as nat;
    let key = MetaKey::HeadCountKv;
    assert(metadata::lookup(a, MetaKey::BlockCount.name()) == metadata::lookup(
        b,
        MetaKey::BlockCount.name(),
    ));
    assert(config::layers_in(b) == layers);
    let x = metadata::lookup(a, key.name())->Some_0;
    let y = metadata::lookup(b, key.name())->Some_0;
    match (x, y) {
        (MetaValue::Array(us), MetaValue::Array(vs)) => {
            assert forall|i: int| 0 <= i < vs@.len() implies metadata::either_count(
                #[trigger] vs@[i],
            ) is Some by {
                assert(is_same_count(us@[i], vs@[i]));
            }
        },
        _ => {},
    }
    assert(metadata::counts_at(a, key, layers)->Some_0 =~= metadata::counts_at(
        b,
        key,
        layers,
    )->Some_0);
    assert(metadata::counts_at(a, key, layers) == metadata::counts_at(b, key, layers));
    assert forall|i: int|
        #![trigger config::check(a, i)]
        #![trigger config::check(b, i)]
        0 <= i < config::CHECKS implies config::check(a, i) == config::check(b, i) by {}
    assert forall|cfg: GgufConfig| #[trigger] cfg.follows(a) == cfg.follows(b) by {}
    assert forall|e: ModelError| #[trigger]
        config::is_first_refusal(a, e) == config::is_first_refusal(b, e) by {
        if config::is_first_refusal(a, e) {
            let i = choose|i: int|
                0 <= i < config::CHECKS && #[trigger] config::check(a, i) == Some(e) && forall|
                    j: int,
                |
                    0 <= j < i ==> #[trigger] config::check(a, j) is None;
            assert(config::check(b, i) == Some(e));
        }
        if config::is_first_refusal(b, e) {
            let i = choose|i: int|
                0 <= i < config::CHECKS && #[trigger] config::check(b, i) == Some(e) && forall|
                    j: int,
                |
                    0 <= j < i ==> #[trigger] config::check(b, j) is None;
            assert(config::check(a, i) == Some(e));
        }
    }
}

/// Matrices that were cut from one stack give the same products.
proof fn lemma_split(
    stack: candle_core::quantized::QTensor,
    a: Seq<PackedMatMul>,
    b: Seq<PackedMatMul>,
)
    requires
        packed::is_split(stack, a),
        packed::is_split(stack, b),
    ensures
        a.len() == b.len(),
        forall|e: int|
            0 <= e < a.len() ==> packed::packed_view((#[trigger] a[e]).weight())
                == packed::packed_view(b[e].weight()),
{
    assert forall|e: int| 0 <= e < a.len() implies packed::packed_view((#[trigger] a[e]).weight())
        == packed::packed_view(b[e].weight()) by {
        assert(packed::packed_dims(b[e].weight()) == packed::packed_dims(a[e].weight()));
    }
}

/// Experts that were cut from the same stacks give the same outputs.
proof fn lemma_experts(
    gate_up: candle_core::quantized::QTensor,
    down: candle_core::quantized::QTensor,
    a: Experts,
    b: Experts,
    xs: Expr,
    picks: Seq<Seq<usize>>,
    probs: Expr,
    scales: Expr,
)
    requires
        packed::is_split(gate_up, a.gate_up@),
        packed::is_split(gate_up, b.gate_up@),
        packed::is_split(down, a.down@),
        packed::is_split(down, b.down@),
        a.have(picks),
    ensures
        a.of(xs, routing::weighted(picks, probs, scales)) == b.of(
            xs,
            routing::weighted(picks, probs, scales),
        ),
{
    lemma_split(gate_up, a.gate_up@, b.gate_up@);
    lemma_split(down, a.down@, b.down@);
    let routes = routing::weighted(picks, probs, scales);
    assert forall|n: int| 0 <= n < routes.len() implies #[trigger] a.token(xs, n, routes[n])
        == b.token(xs, n, routes[n]) by {
        let x = tensor::narrowed(xs, 0, n as nat, 1);
        let of_a = routes[n].map_values(|p: (usize, Expr)| a.term(x, p.0, p.1));
        let of_b = routes[n].map_values(|p: (usize, Expr)| b.term(x, p.0, p.1));
        assert forall|j: int| 0 <= j < of_a.len() implies #[trigger] of_a[j] == of_b[j] by {
            let e = picks[n][j];
            assert(routes[n][j].0 == e);
            assert(a.has(e));
            assert(packed::packed_view(a.gate_up@[e as int].weight()) == packed::packed_view(
                b.gate_up@[e as int].weight(),
            ));
            assert(packed::packed_view(a.down@[e as int].weight()) == packed::packed_view(
                b.down@[e as int].weight(),
            ));
        }
        assert(of_a =~= of_b);
    }
    assert(Seq::new(routes.len(), |n: int| a.token(xs, n, routes[n])) =~= Seq::new(
        routes.len(),
        |n: int| b.token(xs, n, routes[n]),
    ));
}

/// Two layers that were loaded as layer `i` from one file, of shapes that follow the same metadata.
spec fn are_one_layer(
    md: Seq<(String, MetaValue)>,
    ts: Seq<(String, Arc<candle_core::quantized::QTensor>)>,
    a: GgufConfig,
    b: GgufConfig,
    device: candle_core::Device,
    i: int,
    l: LayerWeights,
    m: LayerWeights,
) -> bool {
    &&& a.follows(md)
    &&& b.follows(md)
    &&& 0 <= i < a.block_count
    &&& loader::is_layer(ts, a, device, i, l)
    &&& loader::is_layer(ts, b, device, i, m)
}

/// Such layers attend alike, pick alike and fail alike.
proof fn lemma_attended(
    md: Seq<(String, MetaValue)>,
    ts: Seq<(String, Arc<candle_core::quantized::QTensor>)>,
    a: GgufConfig,
    b: GgufConfig,
    device: candle_core::Device,
    i: int,
    l: LayerWeights,
    m: LayerWeights,
    xs: Expr,
    dims: Seq<usize>,
    mask: Option<Expr>,
    index_pos: nat,
    slot: Option<KvView>,
    shared: SharedView,
)
    requires
        are_one_layer(md, ts, a, b, device, i, l, m),
    ensures
        l.is_global == m.is_global,
        l.n_kv_head == m.n_kv_head,
        l.kv is Compute == m.kv is Compute,
        l.store_shared_kv == m.store_shared_kv,
        l.per_layer is Some == m.per_layer is Some,
        l.input_layernorm.of(xs) == m.input_layernorm.of(xs),
        l.attn(l.input_layernorm.of(xs), dims, mask, index_pos, slot, shared) == m.attn(
            l.input_layernorm.of(xs),
            dims,
            mask,
            index_pos,
            slot,
            shared,
        ),
        l.attended(xs, dims, mask, index_pos, slot, shared) == m.attended(
            xs,
            dims,
            mask,
            index_pos,
            slot,
            shared,
        ),
{
    assert(a.is_sliding@ == b.is_sliding@);
    let x = l.input_layernorm.of(xs);
    assert(l.queries(x, dims, index_pos) == m.queries(x, dims, index_pos));
    assert(l.kv is Compute ==> l.new_kv(x, dims, index_pos) == m.new_kv(x, dims, index_pos));
}

/// Such layers have as many experts, and make the same picks.
proof fn lemma_picks(
    md: Seq<(String, MetaValue)>,
    ts: Seq<(String, Arc<candle_core::quantized::QTensor>)>,
    a: GgufConfig,
    b: GgufConfig,
    device: candle_core::Device,
    i: int,
    l: LayerWeights,
    m: LayerWeights,
    attended: Expr,
    model_dims: Seq<usize>,
    picks: Seq<Seq<usize>>,
)
    requires
        are_one_layer(md, ts, a, b, device, i, l, m),
    ensures
        l.moe is Some == m.moe is Some,
        l.moe matches Some(la) ==> {
            let mb = m.moe->Some_0;
            &&& la.experts.gate_up@.len() == mb.experts.gate_up@.len()
            &&& la.experts.down@.len() == mb.experts.down@.len()
            &&& la.probs_of(attended, model_dims) == mb.probs_of(attended, model_dims)
            &&& la.experts.have(picks) == mb.experts.have(picks)
        },
        l.are_picks(attended, model_dims, picks) ==> m.are_picks(attended, model_dims, picks),
{
    if let Some(la) = l.moe {
        let mb = m.moe->Some_0;
        let n = i as nat;
        lemma_split(
            loader::tensor_named(ts, names::block_name(n, ".ffn_gate_up_exps.weight"@))->Some_0,
            la.experts.gate_up@,
            mb.experts.gate_up@,
        );
        lemma_split(
            loader::tensor_named(ts, names::block_name(n, ".ffn_down_exps.weight"@))->Some_0,
            la.experts.down@,
            mb.experts.down@,
        );
        assert(forall|e: usize| la.experts.has(e) == mb.experts.has(e));
        assert(la.probs_of(attended, model_dims) == mb.probs_of(attended, model_dims));
    }
}

/// Such layers leave the same behind.
proof fn lemma_steps(
    md: Seq<(String, MetaValue)>,
    ts: Seq<(String, Arc<candle_core::quantized::QTensor>)>,
    a: GgufConfig,
    b: GgufConfig,
    device: candle_core::Device,
    i: int,
    l: LayerWeights,
    m: LayerWeights,
    xs: Expr,
    dims: Seq<usize>,
    mask: Option<Expr>,
    index_pos: nat,
    slot: Option<KvView>,
    shared: SharedView,
    inputs: Option<Expr>,
    model_dims: Seq<usize>,
    picks: Seq<Seq<usize>>,
)
    requires
        are_one_layer(md, ts, a, b, device, i, l, m),
        l.moe matches Some(moe) ==> moe.experts.have(picks),
    ensures
        l.step(i as nat, xs, dims, mask, index_pos, slot, shared, inputs, model_dims, picks)
            == m.step(
            i as nat,
            xs,
            dims,
            mask,
            index_pos,
            slot,
            shared,
            inputs,
            model_dims,
            picks,
        ),
{
    lemma_attended(md, ts, a, b, device, i, l, m, xs, dims, mask, index_pos, slot, shared);
    let attended = l.attended(xs, dims, mask, index_pos, slot, shared);
    lemma_picks(md, ts, a, b, device, i, l, m, attended, model_dims, picks);
    if let Some(la) = l.moe {
        let mb = m.moe->Some_0;
        let n = i as nat;
        let flat = moe::flattened(attended, model_dims);
        lemma_experts(
            loader::tensor_named(ts, names::block_name(n, ".ffn_gate_up_exps.weight"@))->Some_0,
            loader::tensor_named(ts, names::block_name(n, ".ffn_down_exps.weight"@))->Some_0,
            la.experts,
            mb.experts,
            la.pre_ffw_norm_2.of(flat),
            picks,
            la.probs_of(attended, model_dims),
            la.router.per_expert_scale.expr(),
        );
    }
    assert(l.fed_forward(attended, model_dims, picks) == m.fed_forward(
        attended,
        model_dims,
        picks,
    ));
}

/// Such layers fail with the same errors.
proof fn lemma_failures(
    md: Seq<(String, MetaValue)>,
    ts: Seq<(String, Arc<candle_core::quantized::QTensor>)>,
    a: GgufConfig,
    b: GgufConfig,
    device: candle_core::Device,
    i: int,
    l: LayerWeights,
    m: LayerWeights,
    dims: Seq<usize>,
    slot: Option<KvView>,
    shared: SharedView,
    has_inputs: bool,
    model_dims: Seq<usize>,
    e: ModelError,
)
    requires
        are_one_layer(md, ts, a, b, device, i, l, m),
    ensures
        l.may_fail_with(i, dims, slot, shared, has_inputs, model_dims, e) == m.may_fail_with(
            i,
            dims,
            slot,
            shared,
            has_inputs,
            model_dims,
            e,
        ),
{
    lemma_picks(md, ts, a, b, device, i, l, m, l.layer_scalar.expr(), model_dims, Seq::empty());
    assert(l.kv_dims(dims, slot, shared) == m.kv_dims(dims, slot, shared));
    assert(l.attn_may_fail_with(dims, slot, shared, e) == m.attn_may_fail_with(
        dims,
        slot,
        shared,
        e,
    ));
    assert(l.feed_may_fail_with(model_dims, e) == m.feed_may_fail_with(model_dims, e));
}

/// Two models that were loaded from one file, their shapes following its metadata.
pub open spec fn are_of_one_file(
    md: Seq<(String, MetaValue)>,
    ts: Seq<(String, Arc<candle_core::quantized::QTensor>)>,
    a: GgufConfig,
    b: GgufConfig,
    device: candle_core::Device,
    w: Weights,
    v: Weights,
) -> bool {
    &&& a.follows(md)
    &&& b.follows(md)
    &&& loader::is_model(ts, a, device, w)
    &&& loader::is_model(ts, b, device, v)
}

/// Such models begin every pass alike.
proof fn lemma_starts(
    md: Seq<(String, MetaValue)>,
    ts: Seq<(String, Arc<candle_core::quantized::QTensor>)>,
    a: GgufConfig,
    b: GgufConfig,
    device: candle_core::Device,
    w: Weights,
    v: Weights,
    ids: Traced,
    index_pos: usize,
    lane: Seq<Option<KvView>>,
)
    requires
        are_of_one_file(md, ts, a, b, device, w, v),
    ensures
        w.layers@.len() == v.layers@.len(),
        w.pass(ids, index_pos) == v.pass(ids, index_pos),
        w.start(ids, index_pos, lane) == v.start(ids, index_pos, lane),
        w.lane_at(index_pos, lane) == v.lane_at(index_pos, lane),
{
    assert(w.lane_at(index_pos, lane) =~= v.lane_at(index_pos, lane));
}

/// The mask of layer `i` in a pass.
spec fn mask_at(w: Weights, i: int, pass: Pass) -> Option<Expr> {
    if w.layers@[i].is_global {
        pass.full_mask
    } else {
        pass.sliding_mask
    }
}

/// As long as the picks are such as the first model makes, both are at the same place after every
/// layer, and make the same picks.
proof fn lemma_runs(
    md: Seq<(String, MetaValue)>,
    ts: Seq<(String, Arc<candle_core::quantized::QTensor>)>,
    a: GgufConfig,
    b: GgufConfig,
    device: candle_core::Device,
    w: Weights,
    v: Weights,
    n: nat,
    pass: Pass,
    start: PassState,
    picks: Seq<Seq<Seq<usize>>>,
)
    requires
        are_of_one_file(md, ts, a, b, device, w, v),
        n <= w.layers@.len(),
        forall|i: int| 0 <= i < n ==> #[trigger] w.layer_picks(i, pass, start, picks),
    ensures
        w.run(n, pass, start, picks) == v.run(n, pass, start, picks),
        forall|i: int| 0 <= i < n ==> #[trigger] v.layer_picks(i, pass, start, picks),
    decreases n,
{
    if n > 0 {
        let i = n - 1;
        lemma_runs(md, ts, a, b, device, w, v, i as nat, pass, start, picks);
        let before = w.run(i as nat, pass, start, picks);
        let l = w.layers@[i];
        let m = v.layers@[i];
        let mask = mask_at(w, i, pass);
        assert(w.layer_picks(i, pass, start, picks));
        lemma_attended(
            md,
            ts,
            a,
            b,
            device,
            i,
            l,
            m,
            before.xs,
            before.dims,
            mask,
            pass.index_pos,
            before.slots[i],
            before.shared,
        );
        lemma_picks(
            md,
            ts,
            a,
            b,
            device,
            i,
            l,
            m,
            l.attended(
                before.xs,
                before.dims,
                mask,
                pass.index_pos,
                before.slots[i],
                before.shared,
            ),
            pass.model_dims,
            picks[i],
        );
        lemma_steps(
            md,
            ts,
            a,
            b,
            device,
            i,
            l,
            m,
            before.xs,
            before.dims,
            mask,
            pass.index_pos,
            before.slots[i],
            before.shared,
            pass.inputs,
            pass.model_dims,
            picks[i],
        );
        assert(v.layer_picks(i, pass, start, picks));
    }
}

/// Where one model fails, the other fails in the same way.
proof fn lemma_failed(
    md: Seq<(String, MetaValue)>,
    ts: Seq<(String, Arc<candle_core::quantized::QTensor>)>,
    a: GgufConfig,
    b: GgufConfig,
    device: candle_core::Device,
    w: Weights,
    v: Weights,
    ids: Traced,
    index_pos: usize,
    before: Gemma4KvCache,
    after: Gemma4KvCache,
    e: ModelError,
)
    requires
        are_of_one_file(md, ts, a, b, device, w, v),
        super::failed_outcome(w, ids, index_pos, before, after, e),
    ensures
        super::failed_outcome(v, ids, index_pos, before, after, e),
{
    let pass = w.pass(ids, index_pos);
    let start = w.start(ids, index_pos, before@);
    lemma_starts(md, ts, a, b, device, w, v, ids, index_pos, before@);
    assert(w.prelude_may_fail_with(ids, index_pos, e) == v.prelude_may_fail_with(
        ids,
        index_pos,
        e,
    ));
    if exists|n: int, picks: Seq<Seq<Seq<usize>>>| #[trigger]
        w.stops_at(n, pass, start, picks, e) && w.is_left_at(n, pass, start, picks, after@) {
        let (n, picks) = choose|n: int, picks: Seq<Seq<Seq<usize>>>| #[trigger]
            w.stops_at(n, pass, start, picks, e) && w.is_left_at(n, pass, start, picks, after@);
        lemma_runs(md, ts, a, b, device, w, v, n as nat, pass, start, picks);
        let at = w.run(n as nat, pass, start, picks);
        let l = w.layers@[n];
        let m = v.layers@[n];
        lemma_failures(
            md,
            ts,
            a,
            b,
            device,
            n,
            l,
            m,
            at.dims,
            at.slots[n],
            at.shared,
            w.ple is Some,
            pass.model_dims,
            e,
        );
        lemma_attended(
            md,
            ts,
            a,
            b,
            device,
            n,
            l,
            m,
            at.xs,
            at.dims,
            mask_at(w, n, pass),
            pass.index_pos,
            at.slots[n],
            at.shared,
        );
        assert(v.stops_at(n, pass, start, picks, e));
        assert(v.is_left_at(n, pass, start, picks, after@));
    }
    if exists|picks: Seq<Seq<Seq<usize>>>| #[trigger]
        w.are_picks(pass, start, picks) && after@ == w.run(
            w.layers@.len(),
            pass,
            start,
            picks,
        ).slots {
        let picks = choose|picks: Seq<Seq<Seq<usize>>>| #[trigger]
            w.are_picks(pass, start, picks) && after@ == w.run(
                w.layers@.len(),
                pass,
                start,
                picks,
            ).slots;
        lemma_runs(md, ts, a, b, device, w, v, w.layers@.len(), pass, start, picks);
        assert(v.are_picks(pass, start, picks));
    }
}

/// What one model does, the other does.
proof fn lemma_forward(
    md: Seq<(String, MetaValue)>,
    ts: Seq<(String, Arc<candle_core::quantized::QTensor>)>,
    a: GgufConfig,
    b: GgufConfig,
    device: candle_core::Device,
    w: Weights,
    v: Weights,
    ids: Traced,
    index_pos: usize,
    before: Gemma4KvCache,
    after: Gemma4KvCache,
    r: Result<Traced, ModelError>,
)
    requires
        are_of_one_file(md, ts, a, b, device, w, v),
        super::forward_outcome(w, ids, index_pos, before, after, r),
    ensures
        super::forward_outcome(v, ids, index_pos, before, after, r),
{
    let pass = w.pass(ids, index_pos);
    let start = w.start(ids, index_pos, before@);
    let n = w.layers@.len();
    lemma_starts(md, ts, a, b, device, w, v, ids, index_pos, before@);
    assert forall|i: int| 0 <= i < n implies #[trigger] w.refuses_layer(i) == v.refuses_layer(i) by {
        assert forall|j: int, g: bool| 0 <= j <= i implies #[trigger] w.is_donor(j, g) == v.is_donor(
            j,
            g,
        ) by {
            assert(loader::is_layer(ts, a, device, j, w.layers@[j]));
            assert(loader::is_layer(ts, b, device, j, v.layers@[j]));
        }
        assert(loader::is_layer(ts, a, device, i, w.layers@[i]));
        assert(loader::is_layer(ts, b, device, i, v.layers@[i]));
        let g = w.layers@[i].is_global;
        assert(g == v.layers@[i].is_global);
        assert(w.lacks_donor(i) == v.lacks_donor(i)) by {
            if w.lacks_donor(i) {
                assert forall|j: int| 0 <= j < i implies !#[trigger] v.is_donor(j, g) by {
                    assert(!w.is_donor(j, g));
                }
            }
            if v.lacks_donor(i) {
                assert forall|j: int| 0 <= j < i implies !#[trigger] w.is_donor(j, g) by {
                    assert(!v.is_donor(j, g));
                }
            }
        }
    }
    assert forall|i: int| 0 <= i < n implies (#[trigger] v.layers@[i]).layer_scalar.dims()
        == w.layers@[i].layer_scalar.dims() by {
        assert(loader::is_layer(ts, a, device, i, w.layers@[i]));
        assert(loader::is_layer(ts, b, device, i, v.layers@[i]));
    }
    let is_refused = w.refuses_input(ids, index_pos) || w.refuses_layers(before.slots().len())
        || w.refuses_position(index_pos, before.position());
    match r {
        Ok(t) => {
            if !is_refused {
                assert forall|i: int| 0 <= i < n implies !#[trigger] v.refuses_layer(i) by {
                    assert(!w.refuses_layer(i));
                }
                if v.has_plain_scalars() {
                    assert forall|i: int| 0 <= i < n implies (
                    #[trigger] w.layers@[i]).layer_scalar.dims() == seq![1usize] by {
                        assert(v.layers@[i].layer_scalar.dims() == seq![1usize]);
                    }
                    assert(w.has_plain_scalars());
                }
                let picks = choose|picks: Seq<Seq<Seq<usize>>>| #[trigger]
                    w.are_picks(pass, start, picks) && ({
                        let end = w.run(n, pass, start, picks);
                        &&& t.expr() == w.logits(end.xs, ids.dims()[1] as int)
                        &&& t.dims() == w.logits_dims(end.dims)
                        &&& after@ == end.slots
                    });
                lemma_runs(md, ts, a, b, device, w, v, n, pass, start, picks);
                assert(v.are_picks(pass, start, picks));
            }
        },
        Err(e) => {
            if !is_refused {
                lemma_failed(md, ts, a, b, device, w, v, ids, index_pos, before, after, e);
            }
        },
    }
}

/// A file determines its model: whatever one model that was loaded from it does in a pass, any other
/// does too, with the same logits, the same lane and the same errors.
pub proof fn law_models_of_one_file_agree(
    md: Seq<(String, MetaValue)>,
    ts: Seq<(String, Arc<candle_core::quantized::QTensor>)>,
    a: GgufConfig,
    b: GgufConfig,
    device: candle_core::Device,
    w: Weights,
    v: Weights,
    ids: Traced,
    index_pos: usize,
    before: Gemma4KvCache,
    after: Gemma4KvCache,
    r: Result<Traced, ModelError>,
)
    requires
        are_of_one_file(md, ts, a, b, device, w, v),
    ensures
        super::forward_outcome(w, ids, index_pos, before, after, r) == super::forward_outcome(
            v,
            ids,
            index_pos,
            before,
            after,
            r,
        ),
{
    if super::forward_outcome(w, ids, index_pos, before, after, r) {
        lemma_forward(md, ts, a, b, device, w, v, ids, index_pos, before, after, r);
    }
    if super::forward_outcome(v, ids, index_pos, before, after, r) {
        lemma_forward(md, ts, b, a, device, v, w, ids, index_pos, before, after, r);
    }
}

/// Tensors for keys and values of the layers that share an earlier layer's have no influence: models
/// that were loaded from files that differ in those alone do the same in every pass, on every lane.
pub proof fn law_spare_tensors_leave_passes_alone(
    md: Seq<(String, MetaValue)>,
    a: Seq<(String, Arc<candle_core::quantized::QTensor>)>,
    b: Seq<(String, Arc<candle_core::quantized::QTensor>)>,
    cfg: GgufConfig,
    device: candle_core::Device,
    w: Weights,
    v: Weights,
    ids: Traced,
    index_pos: usize,
    before: Gemma4KvCache,
    after: Gemma4KvCache,
    r: Result<Traced, ModelError>,
)
    requires
        agree_but_for_spares(a, b, cfg),
        cfg.follows(md),
        loader::is_model(a, cfg, device, w),
        loader::is_model(b, cfg, device, v),
    ensures
        super::forward_outcome(w, ids, index_pos, before, after, r) == super::forward_outcome(
            v,
            ids,
            index_pos,
            before,
            after,
            r,
        ),
{
    law_sharing_layers_need_no_keys(a, b, cfg, device);
    law_models_of_one_file_agree(
        md,
        b,
        cfg,
        cfg,
        device,
        w,
        v,
        ids,
        index_pos,
        before,
        after,
        r,
    );
}

/// How the counts of key and value heads are written has no influence: models whose metadata differ
/// in that alone, of the same tensors, do the same in every pass, on every lane.
pub proof fn law_forms_of_head_counts_leave_passes_alone(
    a: Seq<(String, MetaValue)>,
    b: Seq<(String, MetaValue)>,
    ts: Seq<(String, Arc<candle_core::quantized::QTensor>)>,
    of_a: GgufConfig,
    of_b: GgufConfig,
    device: candle_core::Device,
    w: Weights,
    v: Weights,
    ids: Traced,
    index_pos: usize,
    before: Gemma4KvCache,
    after: Gemma4KvCache,
    r: Result<Traced, ModelError>,
)
    requires
        agree_but_for_head_counts(a, b),
        metadata::lookup(a, MetaKey::HeadCountKv.name()) is Some,
        metadata::lookup(b, MetaKey::HeadCountKv.name()) is Some,
        are_same_counts(
            metadata::lookup(a, MetaKey::HeadCountKv.name())->Some_0,
            metadata::lookup(b, MetaKey::HeadCountKv.name())->Some_0,
            config::layers_in(a) as nat,
        ),
        of_a.follows(a),
        of_b.follows(b),
        loader::is_model(ts, of_a, device, w),
        loader::is_model(ts, of_b, device, v),
    ensures
        super::forward_outcome(w, ids, index_pos, before, after, r) == super::forward_outcome(
            v,
            ids,
            index_pos,
            before,
            after,
            r,
        ),
{
    law_forms_of_head_counts(a, b);
    assert(of_b.follows(a));
    law_models_of_one_file_agree(
        a,
        ts,
        of_a,
        of_b,
        device,
        w,
        v,
        ids,
        index_pos,
        before,
        after,
        r,
    );
}

} // verus!
