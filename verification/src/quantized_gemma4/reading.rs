//! What a model has from its file: which setting and which tensor ends up where.

use super::config::{self, GgufConfig};
use super::layer::KvSource;
use super::loader::{self, tensor_named};
use super::metadata::{self, lookup, MetaKey, MetaValue};
use super::Weights;
use crate::error::ModelError;
use crate::names;
use crate::rotary;
use crate::tensor::packed::{Norm, PackedMatMul};
use crate::tensor::{Expr, NumberExpr};
use std::sync::Arc;
use vstd::prelude::*;

verus! {

/// The first value under a name counts: where one is found, it stands under that name and none before
/// it does; where none is found, none stands there.
pub proof fn law_first_value_counts(md: Seq<(String, MetaValue)>, name: Seq<char>)
    ensures
        match lookup(md, name) {
            Some(value) => exists|i: int|
                0 <= i < md.len() && (#[trigger] md[i]).0@ == name && md[i].1 == value && forall|j: int|
                    0 <= j < i ==> (#[trigger] md[j]).0@ != name,
            None => forall|i: int| 0 <= i < md.len() ==> (#[trigger] md[i]).0@ != name,
        },
    decreases md.len(),
{
    if md.len() > 0 && md[0].0@ != name {
        let rest = md.drop_first();
        law_first_value_counts(rest, name);
        match lookup(rest, name) {
            Some(value) => {
                let i = choose|i: int|
                    0 <= i < rest.len() && (#[trigger] rest[i]).0@ == name && rest[i].1 == value
                        && forall|j: int| 0 <= j < i ==> (#[trigger] rest[j]).0@ != name;
                assert(md[i + 1] == rest[i]);
                assert forall|j: int| 0 <= j < i + 1 implies (#[trigger] md[j]).0@ != name by {
                    if j > 0 {
                        assert(rest[j - 1] == md[j]);
                    }
                }
            },
            None => {
                assert forall|i: int| 0 <= i < md.len() implies (#[trigger] md[i]).0@ != name by {
                    if i > 0 {
                        assert(rest[i - 1] == md[i]);
                    }
                }
            },
        }
    } else if md.len() > 0 {
        assert(md[0].0@ == name);
    }
}

/// The first tensor under a name counts: where one is found, it stands under that name and none before
/// it does; where none is found, none stands there.
pub proof fn law_first_tensor_counts(
    ts: Seq<(String, Arc<candle_core::quantized::QTensor>)>,
    name: Seq<char>,
)
    ensures
        match tensor_named(ts, name) {
            Some(q) => exists|i: int|
                0 <= i < ts.len() && (#[trigger] ts[i]).0@ == name && *ts[i].1 == q && forall|j: int|
                    0 <= j < i ==> (#[trigger] ts[j]).0@ != name,
            None => forall|i: int| 0 <= i < ts.len() ==> (#[trigger] ts[i]).0@ != name,
        },
    decreases ts.len(),
{
    if ts.len() > 0 && ts[0].0@ != name {
        let rest = ts.drop_first();
        law_first_tensor_counts(rest, name);
        match tensor_named(rest, name) {
            Some(q) => {
                let i = choose|i: int|
                    0 <= i < rest.len() && (#[trigger] rest[i]).0@ == name && *rest[i].1 == q
                        && forall|j: int| 0 <= j < i ==> (#[trigger] rest[j]).0@ != name;
                assert(ts[i + 1] == rest[i]);
                assert forall|j: int| 0 <= j < i + 1 implies (#[trigger] ts[j]).0@ != name by {
                    if j > 0 {
                        assert(rest[j - 1] == ts[j]);
                    }
                }
            },
            None => {
                assert forall|i: int| 0 <= i < ts.len() implies (#[trigger] ts[i]).0@ != name by {
                    if i > 0 {
                        assert(rest[i - 1] == ts[i]);
                    }
                }
            },
        }
    } else if ts.len() > 0 {
        assert(ts[0].0@ == name);
    }
}

/// The counts of a shape are those that the file writes under their names.
pub proof fn law_counts_are_read(md: Seq<(String, MetaValue)>, cfg: GgufConfig)
    requires
        cfg.follows(md),
    ensures
        lookup(md, "gemma4.attention.head_count"@) == Some(MetaValue::U32(cfg.head_count as u32)),
        lookup(md, "gemma4.block_count"@) == Some(MetaValue::U32(cfg.block_count as u32)),
        lookup(md, "gemma4.embedding_length"@) == Some(
            MetaValue::U32(cfg.embedding_length as u32),
        ),
        lookup(md, "gemma4.attention.key_length"@) == Some(MetaValue::U32(cfg.key_length as u32)),
        lookup(md, "gemma4.attention.key_length_swa"@) == Some(
            MetaValue::U32(cfg.key_length_swa as u32),
        ),
        lookup(md, "gemma4.attention.shared_kv_layers"@) == Some(
            MetaValue::U32(cfg.shared_kv_layers as u32),
        ),
        lookup(md, "gemma4.attention.sliding_window"@) == Some(
            MetaValue::U32(cfg.sliding_window as u32),
        ),
        lookup(md, "gemma4.embedding_length_per_layer_input"@) matches Some(MetaValue::U32(n))
            ==> cfg.per_layer_input_dim == n,
        !(lookup(md, "gemma4.embedding_length_per_layer_input"@) matches Some(MetaValue::U32(n)))
            ==> cfg.per_layer_input_dim == 0,
        lookup(md, "gemma4.expert_count"@) matches Some(MetaValue::U32(n)) ==> cfg.num_experts
            == Some(n as usize),
        !(lookup(md, "gemma4.expert_count"@) matches Some(MetaValue::U32(n)))
            ==> cfg.num_experts is None,
        lookup(md, "gemma4.expert_used_count"@) matches Some(MetaValue::U32(n))
            ==> cfg.top_k_experts == Some(n as usize),
        !(lookup(md, "gemma4.expert_used_count"@) matches Some(MetaValue::U32(n)))
            ==> cfg.top_k_experts is None,
{
}

/// The numbers of a shape are those that the file writes under their names; the cap of the logits may
/// be missing.
pub proof fn law_numbers_are_read(md: Seq<(String, MetaValue)>, cfg: GgufConfig)
    requires
        cfg.follows(md),
    ensures
        lookup(md, "gemma4.attention.layer_norm_rms_epsilon"@) matches Some(MetaValue::F32(n))
            && n.expr() == cfg.rms_eps.expr(),
        lookup(md, "gemma4.rope.freq_base"@) matches Some(MetaValue::F32(n)) && n.expr()
            == cfg.rope_freq_base.expr(),
        lookup(md, "gemma4.rope.freq_base_swa"@) matches Some(MetaValue::F32(n)) && n.expr()
            == cfg.rope_freq_base_swa.expr(),
        lookup(md, "gemma4.final_logit_softcapping"@) matches Some(MetaValue::F32(n)) ==> (
        cfg.final_logit_softcapping matches Some(cap) && cap.expr() == n.expr()),
        !(lookup(md, "gemma4.final_logit_softcapping"@) matches Some(MetaValue::F32(n)))
            ==> cfg.final_logit_softcapping is None,
{
}

/// What a shape says of each layer is what the file says of it: whether it slides, and how many heads
/// it has for keys and values; a single count holds for all layers.
pub proof fn law_layers_are_read(md: Seq<(String, MetaValue)>, cfg: GgufConfig, i: int)
    requires
        cfg.follows(md),
        0 <= i < cfg.block_count,
    ensures
        lookup(md, "gemma4.attention.sliding_window_pattern"@) matches Some(MetaValue::Array(vs))
            && vs@.len() == cfg.block_count && vs@[i] == MetaValue::Bool(cfg.is_sliding@[i]),
        match lookup(md, "gemma4.attention.head_count_kv"@) {
            Some(MetaValue::Array(vs)) => vs@.len() == cfg.block_count && match vs@[i] {
                MetaValue::U32(n) => cfg.head_count_kv@[i] == n,
                MetaValue::I32(n) => n >= 0 ==> cfg.head_count_kv@[i] == n,
                _ => false,
            },
            Some(MetaValue::U32(n)) => cfg.head_count_kv@[i] == n,
            Some(MetaValue::I32(n)) => n >= 0 ==> cfg.head_count_kv@[i] == n,
            _ => false,
        },
{
    let flags = lookup(md, "gemma4.attention.sliding_window_pattern"@);
    assert(flags is Some);
    if let Some(MetaValue::Array(vs)) = flags {
        assert(vs@[i] is Bool);
    }
    if let Some(MetaValue::Array(vs)) = lookup(md, "gemma4.attention.head_count_kv"@) {
        assert(metadata::either_count(vs@[i]) is Some);
    }
}

/// Metadata is refused for exactly these reasons: a setting that is missing or of the wrong kind, or
/// a list that has not one entry for each layer.
pub proof fn law_refusals_name_their_setting(md: Seq<(String, MetaValue)>, e: ModelError)
    requires
        config::is_first_refusal(md, e),
    ensures
        match e {
            ModelError::MissingMetadata(key) => lookup(md, key.name()) is None,
            ModelError::MetadataType(key) => lookup(md, key.name()) is Some,
            ModelError::HeadCountKv { entries, layers } => entries != layers && lookup(
                md,
                "gemma4.block_count"@,
            ) == Some(MetaValue::U32(layers as u32)),
            ModelError::SlidingPattern { entries, layers } => entries != layers && lookup(
                md,
                "gemma4.block_count"@,
            ) == Some(MetaValue::U32(layers as u32)),
            _ => false,
        },
{
    let i = choose|i: int|
        0 <= i < config::CHECKS && #[trigger] config::check(md, i) == Some(e) && forall|j: int|
            0 <= j < i ==> #[trigger] config::check(md, j) is None;
    if i > 1 {
        assert(config::check(md, 1) is None);
    }
    if i > 2 {
        assert(config::check(md, 2) is None);
    }
    if i > 12 {
        assert(config::check(md, 12) is None);
    }
    if i != 3 && i < 13 {
        let key = if i == 0 {
            MetaKey::HeadCount
        } else if i == 1 {
            MetaKey::BlockCount
        } else if i == 2 {
            MetaKey::HeadCountKv
        } else if i == 4 {
            MetaKey::EmbeddingLength
        } else if i == 5 {
            MetaKey::KeyLength
        } else if i == 6 {
            MetaKey::KeyLengthSwa
        } else if i == 7 {
            MetaKey::SharedKvLayers
        } else if i == 8 {
            MetaKey::LayerNormRmsEpsilon
        } else if i == 9 {
            MetaKey::SlidingWindow
        } else if i == 10 {
            MetaKey::RopeFreqBase
        } else if i == 11 {
            MetaKey::RopeFreqBaseSwa
        } else {
            MetaKey::SlidingWindowPattern
        };
        assert(e == metadata::refusal(md, key));
    } else {
        assert(config::check(md, 1) is None);
        let list = if i == 3 {
            lookup(md, MetaKey::HeadCountKv.name())
        } else {
            lookup(md, MetaKey::SlidingWindowPattern.name())
        };
        if let Some(MetaValue::Array(vs)) = list {
            assert(vs.len() == vs@.len());
        }
    }
}

/// The last layers share, as many as the file says, or all where it says more.
pub proof fn law_the_last_layers_share(cfg: GgufConfig)
    ensures
        0 <= cfg.first_shared() <= cfg.block_count,
        cfg.shared_kv_layers <= cfg.block_count ==> cfg.first_shared() + cfg.shared_kv_layers
            == cfg.block_count,
        cfg.shared_kv_layers > cfg.block_count ==> cfg.first_shared() == 0,
{
}

/// The name of a layer's tensor, spelled out.
pub open spec fn spelled(i: nat, what: Seq<char>) -> Seq<char> {
    "blk."@ + names::decimal(i) + what
}

/// A matrix is the tensor that stands under a name.
pub open spec fn holds_matrix(
    ts: Seq<(String, Arc<candle_core::quantized::QTensor>)>,
    name: Seq<char>,
    m: PackedMatMul,
) -> bool {
    tensor_named(ts, name) == Some(m.weight())
}

/// A normalisation's weight is the tensor that stands under a name, and its number that of the file.
pub open spec fn holds_norm(
    ts: Seq<(String, Arc<candle_core::quantized::QTensor>)>,
    name: Seq<char>,
    eps: NumberExpr,
    n: Norm,
) -> bool {
    tensor_named(ts, name) matches Some(q) && n.weight() == Expr::Unpacked(q) && n.eps() == eps
}

/// Every layer of a loaded model holds its own tensors, each where it belongs.
pub proof fn law_layers_hold_their_tensors(
    ts: Seq<(String, Arc<candle_core::quantized::QTensor>)>,
    cfg: GgufConfig,
    device: candle_core::Device,
    w: Weights,
    i: int,
)
    requires
        loader::is_model(ts, cfg, device, w),
        0 <= i < w.layers@.len(),
    ensures
        ({
            let l = w.layers@[i];
            let n = i as nat;
            let eps = cfg.rms_eps.expr();
            &&& holds_matrix(ts, spelled(n, ".attn_q.weight"@), l.wq)
            &&& holds_matrix(ts, spelled(n, ".attn_output.weight"@), l.wo)
            &&& holds_norm(ts, spelled(n, ".attn_q_norm.weight"@), eps, l.q_norm)
            &&& holds_norm(ts, spelled(n, ".attn_norm.weight"@), eps, l.input_layernorm)
            &&& holds_norm(
                ts,
                spelled(n, ".post_attention_norm.weight"@),
                eps,
                l.post_attention_layernorm,
            )
            &&& holds_norm(ts, spelled(n, ".ffn_norm.weight"@), eps, l.pre_feedforward_layernorm)
            &&& holds_norm(
                ts,
                spelled(n, ".post_ffw_norm.weight"@),
                eps,
                l.post_feedforward_layernorm,
            )
            &&& holds_matrix(ts, spelled(n, ".ffn_gate.weight"@), l.mlp.gate)
            &&& holds_matrix(ts, spelled(n, ".ffn_up.weight"@), l.mlp.up)
            &&& holds_matrix(ts, spelled(n, ".ffn_down.weight"@), l.mlp.down)
            &&& tensor_named(ts, spelled(n, ".layer_output_scale.weight"@)) matches Some(q)
                && l.layer_scalar.expr() == Expr::Unpacked(q)
            &&& (l.kv is Shared) == (i >= cfg.first_shared())
            &&& l.kv matches KvSource::Compute { wk, wv, k_norm } ==> {
                &&& holds_matrix(ts, spelled(n, ".attn_k.weight"@), wk)
                &&& holds_norm(ts, spelled(n, ".attn_k_norm.weight"@), eps, k_norm)
                &&& match wv {
                    Some(wv) => holds_matrix(ts, spelled(n, ".attn_v.weight"@), wv),
                    None => tensor_named(ts, spelled(n, ".attn_v.weight"@)) is None,
                }
            }
            &&& (l.per_layer is Some) == (cfg.per_layer_input_dim > 0)
            &&& l.per_layer matches Some(p) ==> {
                &&& holds_matrix(ts, spelled(n, ".inp_gate.weight"@), p.input_gate)
                &&& holds_matrix(ts, spelled(n, ".proj.weight"@), p.projection)
                &&& holds_norm(ts, spelled(n, ".post_norm.weight"@), eps, p.post_norm)
            }
        }),
{
    assert(loader::is_layer(ts, cfg, device, i, w.layers@[i]));
}

/// Every layer of a loaded model with experts holds its own experts, their router and their scales.
pub proof fn law_layers_hold_their_experts(
    ts: Seq<(String, Arc<candle_core::quantized::QTensor>)>,
    cfg: GgufConfig,
    device: candle_core::Device,
    w: Weights,
    i: int,
)
    requires
        loader::is_model(ts, cfg, device, w),
        0 <= i < w.layers@.len(),
    ensures
        ({
            let l = w.layers@[i];
            let n = i as nat;
            let eps = cfg.rms_eps.expr();
            &&& (l.moe is Some) == (cfg.num_experts is Some && cfg.top_k_experts is Some)
            &&& l.moe matches Some(m) ==> {
                &&& tensor_named(ts, spelled(n, ".ffn_gate_inp.weight"@)) matches Some(q)
                    && m.router.proj.expr() == Expr::Unpacked(q)
                &&& tensor_named(ts, spelled(n, ".ffn_gate_inp.scale"@)) matches Some(q)
                    && m.router.scale.expr() == Expr::Unpacked(q)
                &&& tensor_named(ts, spelled(n, ".ffn_down_exps.scale"@)) matches Some(q)
                    && m.router.per_expert_scale.expr() == Expr::Unpacked(q)
                &&& m.router.eps.expr() == eps
                &&& m.router.hidden_size == cfg.embedding_length
                &&& Some(m.router.top_k) == cfg.top_k_experts
                &&& holds_norm(ts, spelled(n, ".post_ffw_norm_1.weight"@), eps, m.post_ffw_norm_1)
                &&& holds_norm(ts, spelled(n, ".post_ffw_norm_2.weight"@), eps, m.post_ffw_norm_2)
                &&& holds_norm(ts, spelled(n, ".pre_ffw_norm_2.weight"@), eps, m.pre_ffw_norm_2)
                &&& tensor_named(ts, spelled(n, ".ffn_gate_up_exps.weight"@)) matches Some(q)
                    && crate::tensor::packed::is_split(q, m.experts.gate_up@)
                &&& tensor_named(ts, spelled(n, ".ffn_down_exps.weight"@)) matches Some(q)
                    && crate::tensor::packed::is_split(q, m.experts.down@)
            }
        }),
{
    assert(loader::is_layer(ts, cfg, device, i, w.layers@[i]));
}

/// Every layer of a loaded model is of the kind that the file says, with that kind's head size, heads,
/// window and tables: a sliding layer turns every pair of a head, a global one a quarter of them.
pub proof fn law_layers_are_of_their_kind(
    ts: Seq<(String, Arc<candle_core::quantized::QTensor>)>,
    cfg: GgufConfig,
    device: candle_core::Device,
    w: Weights,
    i: int,
)
    requires
        loader::is_model(ts, cfg, device, w),
        0 <= i < w.layers@.len(),
    ensures
        ({
            let l = w.layers@[i];
            let positions = loader::MAX_SEQ_LEN as usize;
            &&& l.n_head == cfg.head_count
            &&& l.n_kv_head == cfg.head_count_kv@[i]
            &&& l.rms_eps.expr() == cfg.rms_eps.expr()
            &&& l.is_global == !cfg.is_sliding@[i]
            &&& cfg.is_sliding@[i] ==> l.head_dim == cfg.key_length_swa && l.window == Some(
                cfg.sliding_window,
            ) && rotary::turns_by(
                l.rotary,
                cfg.rope_freq_base_swa.expr(),
                cfg.key_length_swa as int / 2,
                cfg.key_length_swa as int,
                positions,
                cfg.key_length_swa / 2,
            )
            &&& !cfg.is_sliding@[i] ==> l.head_dim == cfg.key_length && l.window is None
                && rotary::turns_by(
                l.rotary,
                cfg.rope_freq_base.expr(),
                (cfg.key_length as int / 2) / 4,
                cfg.key_length as int,
                positions,
                cfg.key_length / 2,
            )
            &&& l.store_shared_kv ==> cfg.shared_kv_layers > 0 && i < cfg.first_shared() && forall|
                j: int,
            |
                i < j < cfg.first_shared() ==> #[trigger] cfg.is_sliding@[j] != cfg.is_sliding@[i]
            &&& !l.store_shared_kv && cfg.shared_kv_layers > 0 && i < cfg.first_shared() ==> exists|
                j: int,
            |
                i < j < cfg.first_shared() && #[trigger] cfg.is_sliding@[j] == cfg.is_sliding@[i]
        }),
{
    let l = w.layers@[i];
    assert(loader::is_layer(ts, cfg, device, i, l));
    let sliding = cfg.is_sliding@[i];
    let (head_dim, angles, base) = if sliding {
        (cfg.key_length_swa, cfg.key_length_swa / 2, cfg.rope_freq_base_swa)
    } else {
        (cfg.key_length, cfg.key_length / 8, cfg.rope_freq_base)
    };
    assert(loader::is_rotary(cfg, l.is_global, device, l.rotary));
    rotary::law_tables_turn_by_rates(
        l.rotary,
        base.expr(),
        angles as nat,
        (head_dim / 2 - angles) as usize,
        head_dim as int,
        loader::MAX_SEQ_LEN,
        candle_core::DType::F32,
        candle_core::DType::F32,
        candle_core::DType::F32,
        device,
        false,
        true,
    );
    assert((cfg.key_length as int / 2) / 4 == cfg.key_length as int / 8);
    config::law_donor_is_last_of_its_kind(cfg.is_sliding@, cfg.first_shared(), sliding);
}

/// What the model holds beside its layers is what the file holds: one table for embeddings and output,
/// the last normalisation, and the tables of the per-layer inputs where there are any.
pub proof fn law_models_hold_their_tensors(
    ts: Seq<(String, Arc<candle_core::quantized::QTensor>)>,
    cfg: GgufConfig,
    device: candle_core::Device,
    w: Weights,
)
    requires
        loader::is_model(ts, cfg, device, w),
    ensures
        tensor_named(ts, "token_embd.weight"@) == Some(w.tok_embeddings.source()),
        w.output.weight() == w.tok_embeddings.source(),
        holds_norm(ts, "output_norm.weight"@, cfg.rms_eps.expr(), w.norm),
        w.layers@.len() == cfg.block_count,
        w.embedding_length == cfg.embedding_length,
        w.sliding_window == cfg.sliding_window,
        (w.ple is Some) == (cfg.per_layer_input_dim > 0),
        w.ple matches Some(ple) ==> {
            &&& ple.input_dim == cfg.per_layer_input_dim
            &&& tensor_named(ts, "per_layer_token_embd.weight"@) == Some(
                ple.token_embeddings.source(),
            )
            &&& holds_matrix(ts, "per_layer_model_proj.weight"@, ple.model_projection)
            &&& holds_norm(
                ts,
                "per_layer_proj_norm.weight"@,
                cfg.rms_eps.expr(),
                ple.projection_norm,
            )
        },
        match (w.final_logit_softcapping, cfg.final_logit_softcapping) {
            (Some(a), Some(b)) => a.expr() == b.expr(),
            (None, None) => true,
            _ => false,
        },
{
}

} // verus!
