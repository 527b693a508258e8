//! Building a model from metadata and named packed tensors.

use super::config::{self, GgufConfig};
use super::layer::{KvSource, LayerWeights, PerLayerInput};
use super::metadata::MetaValue;
use super::moe::{Experts, Mlp, MoeBlock, Router};
use super::shapes;
use super::{ModelWeights, PerLayerEmbeddings, Weights};
use crate::error::ModelError;
use crate::names;
use crate::rotary::{self, RotaryEmbedding};
use crate::tensor::packed::{self, Norm, PackedMatMul, PackedTensor};
use crate::tensor::{self, Expr, Number, NumberExpr, Traced, UnaryOp};
use std::sync::Arc;
use vstd::prelude::*;

verus! {

/// The number of positions that the rotary tables cover.
pub const MAX_SEQ_LEN: u32 = 131072;

/// A global layer rotates a quarter of its head's pairs: a pair is two entries, so one in eight.
pub const GLOBAL_ROTATION: usize = 8;

/// The packed tensors of a file, under their names.
pub type Tensors = Vec<(String, Arc<candle_core::quantized::QTensor>)>;

/// The first tensor under a name.
pub open spec fn tensor_named(
    ts: Seq<(String, Arc<candle_core::quantized::QTensor>)>,
    name: Seq<char>,
) -> Option<candle_core::quantized::QTensor>
    decreases ts.len(),
{
    if ts.len() == 0 {
        None
    } else if ts[0].0@ == name {
        Some(*ts[0].1)
    } else {
        tensor_named(ts.drop_first(), name)
    }
}

/// The multiplier's matrix is the tensor of that name.
pub open spec fn is_matrix(
    ts: Seq<(String, Arc<candle_core::quantized::QTensor>)>,
    name: Seq<char>,
    m: PackedMatMul,
) -> bool {
    tensor_named(ts, name) == Some(m.weight())
}

/// The normalisation's weight is the tensor of that name; in main memory it fits as many entries as
/// the tensor holds.
pub open spec fn is_norm(
    ts: Seq<(String, Arc<candle_core::quantized::QTensor>)>,
    name: Seq<char>,
    eps: NumberExpr,
    n: Norm,
) -> bool {
    tensor_named(ts, name) matches Some(q) && {
        &&& n.weight() == Expr::Unpacked(q)
        &&& n.eps() == eps
        &&& tensor::is_main_memory(packed::packed_device(q)) ==> forall|k: usize|
            packed::packed_dims(q) == seq![k] ==> #[trigger] n.fits(k)
    }
}

/// The tensor holds the entries of the packed tensor of that name; from main memory to main memory,
/// in order.
pub open spec fn is_unpacked(
    ts: Seq<(String, Arc<candle_core::quantized::QTensor>)>,
    name: Seq<char>,
    device: candle_core::Device,
    t: Traced,
) -> bool {
    tensor_named(ts, name) matches Some(q) && {
        &&& t.expr() == Expr::Unpacked(q)
        &&& t.dims() == packed::packed_dims(q)
        &&& t.dtype() == candle_core::DType::F32
        &&& tensor::is_main_memory(packed::packed_device(q)) && tensor::is_main_memory(device)
            ==> t.is_ready()
    }
}

/// The tensor of that name is there, its bytes cover its shape, and it lies in main memory.
pub open spec fn is_at_hand(
    ts: Seq<(String, Arc<candle_core::quantized::QTensor>)>,
    name: Seq<char>,
) -> bool {
    tensor_named(ts, name) matches Some(q) && packed::well_packed(q) && tensor::is_main_memory(
        packed::packed_device(q),
    )
}

/// What layer `i` needs of a file: the tensors behind these ends of names, whatever the layer is.
pub open spec fn layer_needs_always(suffix: Seq<char>) -> bool {
    ||| suffix == ".attn_q.weight"@
    ||| suffix == ".attn_output.weight"@
    ||| suffix == ".attn_q_norm.weight"@
    ||| suffix == ".attn_norm.weight"@
    ||| suffix == ".post_attention_norm.weight"@
    ||| suffix == ".ffn_norm.weight"@
    ||| suffix == ".post_ffw_norm.weight"@
    ||| suffix == ".ffn_gate.weight"@
    ||| suffix == ".ffn_up.weight"@
    ||| suffix == ".ffn_down.weight"@
    ||| suffix == ".layer_output_scale.weight"@
}

/// What a layer needs besides that computes keys and values.
pub open spec fn layer_needs_for_keys(suffix: Seq<char>) -> bool {
    suffix == ".attn_k.weight"@ || suffix == ".attn_k_norm.weight"@
}

/// What a layer needs besides in a model with per-layer inputs.
pub open spec fn layer_needs_for_inputs(suffix: Seq<char>) -> bool {
    ||| suffix == ".inp_gate.weight"@
    ||| suffix == ".proj.weight"@
    ||| suffix == ".post_norm.weight"@
}

/// What a layer needs besides in a model with experts.
pub open spec fn layer_needs_for_experts(suffix: Seq<char>) -> bool {
    ||| suffix == ".ffn_gate_up_exps.weight"@
    ||| suffix == ".ffn_down_exps.weight"@
    ||| suffix == ".ffn_gate_inp.weight"@
    ||| suffix == ".ffn_gate_inp.scale"@
    ||| suffix == ".ffn_down_exps.scale"@
    ||| suffix == ".post_ffw_norm_1.weight"@
    ||| suffix == ".post_ffw_norm_2.weight"@
    ||| suffix == ".pre_ffw_norm_2.weight"@
}

/// The model has experts: both their number and how many are picked are given.
pub open spec fn has_experts(cfg: GgufConfig) -> bool {
    cfg.num_experts is Some && cfg.top_k_experts is Some
}

/// Layer `i` needs the tensor whose name ends so.
pub open spec fn layer_needs(cfg: GgufConfig, i: nat, suffix: Seq<char>) -> bool {
    ||| layer_needs_always(suffix)
    ||| i < cfg.first_shared() && layer_needs_for_keys(suffix)
    ||| cfg.per_layer_input_dim > 0 && layer_needs_for_inputs(suffix)
    ||| has_experts(cfg) && layer_needs_for_experts(suffix)
}

/// The model needs the tensor of this name, one per layer.
pub open spec fn is_needed_by_layer(cfg: GgufConfig, name: Seq<char>) -> bool {
    exists|i: nat, suffix: Seq<char>|
        name == #[trigger] names::block_name(i, suffix) && i < cfg.block_count && layer_needs(
            cfg,
            i,
            suffix,
        )
}

/// The model needs the tensor of this name: without it, it is refused.
pub open spec fn is_needed(cfg: GgufConfig, name: Seq<char>) -> bool {
    ||| name == "token_embd.weight"@
    ||| name == "output_norm.weight"@
    ||| cfg.per_layer_input_dim > 0 && (name == "per_layer_token_embd.weight"@ || name
        == "per_layer_model_proj.weight"@ || name == "per_layer_proj_norm.weight"@)
    ||| is_needed_by_layer(cfg, name)
}

/// The model reads the tensor of this name: it needs it, or uses it where it is there.
pub open spec fn is_read(cfg: GgufConfig, name: Seq<char>) -> bool {
    ||| is_needed(cfg, name)
    ||| exists|i: nat|
        name == #[trigger] names::block_name(i, ".attn_v.weight"@) && i < cfg.first_shared() && i
            < cfg.block_count
}

/// Every tensor that the model needs is at hand, and so is every other that it reads and the file
/// holds.
pub open spec fn is_complete(
    ts: Seq<(String, Arc<candle_core::quantized::QTensor>)>,
    cfg: GgufConfig,
) -> bool {
    &&& forall|name: Seq<char>| #[trigger] is_needed(cfg, name) ==> is_at_hand(ts, name)
    &&& forall|name: Seq<char>| #[trigger]
        is_read(cfg, name) && tensor_named(ts, name) is Some ==> is_at_hand(ts, name)
}

/// The errors that loading a model's tensors can end in: a tensor operation's, that of a tensor that
/// the model needs and the file lacks, and that of one that it reads and whose bytes do not cover
/// its shape.
pub open spec fn is_load_error(
    ts: Seq<(String, Arc<candle_core::quantized::QTensor>)>,
    cfg: GgufConfig,
    e: ModelError,
) -> bool {
    match e {
        ModelError::Candle(_) => true,
        ModelError::MissingTensor(name) => is_needed(cfg, name@) && tensor_named(ts, name@) is None,
        ModelError::MalformedTensor => exists|name: Seq<char>| #[trigger]
            is_read(cfg, name) && (tensor_named(ts, name) matches Some(q) && !packed::well_packed(
                q,
            )),
        _ => false,
    }
}

/// The first tensor under a name, which must be there.
fn load(ts: &Tensors, cfg: &GgufConfig, name: String) -> (r: Result<PackedTensor, ModelError>)
    requires
        is_read(*cfg, name@),
        is_needed(*cfg, name@) || tensor_named(ts@, name@) is Some,
    ensures
        match tensor_named(ts@, name@) {
            None => r == Err::<PackedTensor, ModelError>(ModelError::MissingTensor(name)),
            Some(q) => if packed::well_packed(q) {
                r matches Ok(t) && t.source() == q
            } else {
                r == Err::<PackedTensor, ModelError>(ModelError::MalformedTensor)
            },
        },
        r matches Err(e) ==> is_load_error(ts@, *cfg, e),
        is_complete(ts@, *cfg) ==> (r matches Ok(t) && tensor::is_main_memory(
            packed::packed_device(t.source()),
        )),
{
    let mut i: usize = 0;
    assert(ts@.skip(0) =~= ts@);
    while i < ts.len()
        invariant
            i <= ts@.len(),
            is_read(*cfg, name@),
            tensor_named(ts@, name@) == tensor_named(ts@.skip(i as int), name@),
        decreases ts@.len() - i,
    {
        assert(ts@.skip(i as int)[0] == ts@[i as int]);
        assert(ts@.skip(i as int).drop_first() =~= ts@.skip(i + 1));
        if ts[i].0 == name {
            return PackedTensor::new(ts[i].1.clone());
        }
        i = i + 1;
    }
    Err(ModelError::MissingTensor(name))
}

/// Whether there is a tensor of a name.
fn is_there(ts: &Tensors, name: &String) -> (r: bool)
    ensures
        r == (tensor_named(ts@, name@) is Some),
{
    let mut i: usize = 0;
    assert(ts@.skip(0) =~= ts@);
    while i < ts.len()
        invariant
            i <= ts@.len(),
            tensor_named(ts@, name@) == tensor_named(ts@.skip(i as int), name@),
        decreases ts@.len() - i,
    {
        assert(ts@.skip(i as int)[0] == ts@[i as int]);
        assert(ts@.skip(i as int).drop_first() =~= ts@.skip(i + 1));
        if ts[i].0 == *name {
            return true;
        }
        i = i + 1;
    }
    false
}

/// A multiplier with the tensor of a name.
fn load_matrix(ts: &Tensors, cfg: &GgufConfig, name: String) -> (r: Result<
    PackedMatMul,
    ModelError,
>)
    requires
        is_read(*cfg, name@),
        is_needed(*cfg, name@) || tensor_named(ts@, name@) is Some,
    ensures
        r matches Ok(m) ==> is_matrix(ts@, name@, m),
        r matches Err(e) ==> is_load_error(ts@, *cfg, e),
        is_complete(ts@, *cfg) ==> r is Ok,
{
    let t = load(ts, cfg, name)?;
    PackedMatMul::new(&t)
}

/// A normalisation with the tensor of a name.
fn load_norm(ts: &Tensors, cfg: &GgufConfig, name: String) -> (r: Result<Norm, ModelError>)
    requires
        is_needed(*cfg, name@),
    ensures
        r matches Ok(n) ==> is_norm(ts@, name@, cfg.rms_eps.expr(), n),
        r matches Err(e) ==> is_load_error(ts@, *cfg, e),
        is_complete(ts@, *cfg) ==> r is Ok,
{
    let t = load(ts, cfg, name)?;
    Norm::new(&t, &cfg.rms_eps)
}

/// The entries of the tensor of a name.
fn load_unpacked(
    ts: &Tensors,
    cfg: &GgufConfig,
    name: String,
    device: &candle_core::Device,
) -> (r: Result<Traced, ModelError>)
    requires
        is_needed(*cfg, name@),
    ensures
        r matches Ok(t) ==> is_unpacked(ts@, name@, *device, t),
        r matches Err(e) ==> is_load_error(ts@, *cfg, e),
        is_complete(ts@, *cfg) && tensor::is_main_memory(*device) ==> r is Ok,
{
    let t = load(ts, cfg, name)?;
    t.unpack(device)
}

/// The dense block of layer `i`.
pub open spec fn is_mlp(
    ts: Seq<(String, Arc<candle_core::quantized::QTensor>)>,
    i: nat,
    m: Mlp,
) -> bool {
    &&& is_matrix(ts, names::block_name(i, ".ffn_gate.weight"@), m.gate)
    &&& is_matrix(ts, names::block_name(i, ".ffn_up.weight"@), m.up)
    &&& is_matrix(ts, names::block_name(i, ".ffn_down.weight"@), m.down)
}

/// The per-layer input of layer `i`.
pub open spec fn is_per_layer(
    ts: Seq<(String, Arc<candle_core::quantized::QTensor>)>,
    i: nat,
    eps: NumberExpr,
    p: PerLayerInput,
) -> bool {
    &&& is_matrix(ts, names::block_name(i, ".inp_gate.weight"@), p.input_gate)
    &&& is_matrix(ts, names::block_name(i, ".proj.weight"@), p.projection)
    &&& is_norm(ts, names::block_name(i, ".post_norm.weight"@), eps, p.post_norm)
}

/// The keys' and values' part of layer `i`. The values have a projection of their own where the file
/// holds one.
pub open spec fn is_kv(
    ts: Seq<(String, Arc<candle_core::quantized::QTensor>)>,
    i: nat,
    eps: NumberExpr,
    shared: bool,
    kv: KvSource,
) -> bool {
    match kv {
        KvSource::Shared => shared,
        KvSource::Compute { wk, wv, k_norm } => {
            &&& !shared
            &&& is_matrix(ts, names::block_name(i, ".attn_k.weight"@), wk)
            &&& match wv {
                Some(wv) => is_matrix(ts, names::block_name(i, ".attn_v.weight"@), wv),
                None => tensor_named(ts, names::block_name(i, ".attn_v.weight"@)) is None,
            }
            &&& is_norm(ts, names::block_name(i, ".attn_k_norm.weight"@), eps, k_norm)
        },
    }
}

/// The experts of layer `i`.
pub open spec fn is_moe(
    ts: Seq<(String, Arc<candle_core::quantized::QTensor>)>,
    i: nat,
    cfg: GgufConfig,
    device: candle_core::Device,
    m: MoeBlock,
) -> bool {
    let eps = cfg.rms_eps.expr();
    &&& tensor_named(ts, names::block_name(i, ".ffn_gate_up_exps.weight"@)) matches Some(stack)
        && packed::is_split(stack, m.experts.gate_up@)
    &&& tensor_named(ts, names::block_name(i, ".ffn_down_exps.weight"@)) matches Some(stack)
        && packed::is_split(stack, m.experts.down@)
    &&& forall|e: int|
        0 <= e < m.experts.gate_up@.len() ==> packed::packed_device(
            (#[trigger] m.experts.gate_up@[e]).weight(),
        ) == device
    &&& forall|e: int|
        0 <= e < m.experts.down@.len() ==> packed::packed_device(
            (#[trigger] m.experts.down@[e]).weight(),
        ) == device
    &&& is_unpacked(ts, names::block_name(i, ".ffn_gate_inp.weight"@), device, m.router.proj)
    &&& is_unpacked(ts, names::block_name(i, ".ffn_gate_inp.scale"@), device, m.router.scale)
    &&& is_unpacked(ts, names::block_name(i, ".ffn_down_exps.scale"@), device, m.router.per_expert_scale)
    &&& m.router.per_expert_scale.dims() == seq![cfg.num_experts->Some_0]
    &&& m.router.eps.expr() == eps
    &&& m.router.hidden_size == cfg.embedding_length
    &&& Some(m.router.top_k) == cfg.top_k_experts
    &&& is_norm(ts, names::block_name(i, ".post_ffw_norm_1.weight"@), eps, m.post_ffw_norm_1)
    &&& is_norm(ts, names::block_name(i, ".post_ffw_norm_2.weight"@), eps, m.post_ffw_norm_2)
    &&& is_norm(ts, names::block_name(i, ".pre_ffw_norm_2.weight"@), eps, m.pre_ffw_norm_2)
}

/// The rotary tables of a kind of layer.
pub open spec fn is_rotary(
    cfg: GgufConfig,
    is_global: bool,
    device: candle_core::Device,
    t: RotaryEmbedding,
) -> bool {
    let (head_dim, angles, base) = if is_global {
        (cfg.key_length, cfg.key_length / GLOBAL_ROTATION, cfg.rope_freq_base)
    } else {
        (cfg.key_length_swa, cfg.key_length_swa / 2, cfg.rope_freq_base_swa)
    };
    let single = candle_core::DType::F32;
    let table = rotary::angles_expr(
        rotary::inv_freq_expr(
            base.expr(),
            angles as nat,
            (head_dim / 2 - angles) as usize,
            head_dim as int,
            single,
            device,
        ),
        MAX_SEQ_LEN,
        single,
        device,
    );
    &&& t.sin() == tensor::cast(tensor::unary(UnaryOp::Sin, table), single)
    &&& t.cos() == tensor::cast(tensor::unary(UnaryOp::Cos, table), single)
    &&& t.has_shape(MAX_SEQ_LEN as usize, head_dim / 2)
    &&& tensor::is_main_memory(device) && head_dim >= 2 ==> t.is_ready(single)
}

/// Layer `i` of the model that a shape and a file's tensors give.
pub open spec fn is_layer(
    ts: Seq<(String, Arc<candle_core::quantized::QTensor>)>,
    cfg: GgufConfig,
    device: candle_core::Device,
    i: int,
    l: LayerWeights,
) -> bool {
    let eps = cfg.rms_eps.expr();
    let n = i as nat;
    &&& is_matrix(ts, names::block_name(n, ".attn_q.weight"@), l.wq)
    &&& is_matrix(ts, names::block_name(n, ".attn_output.weight"@), l.wo)
    &&& is_norm(ts, names::block_name(n, ".attn_q_norm.weight"@), eps, l.q_norm)
    &&& is_kv(ts, n, eps, i >= cfg.first_shared(), l.kv)
    &&& is_norm(ts, names::block_name(n, ".attn_norm.weight"@), eps, l.input_layernorm)
    &&& is_norm(
        ts,
        names::block_name(n, ".post_attention_norm.weight"@),
        eps,
        l.post_attention_layernorm,
    )
    &&& is_norm(ts, names::block_name(n, ".ffn_norm.weight"@), eps, l.pre_feedforward_layernorm)
    &&& is_norm(
        ts,
        names::block_name(n, ".post_ffw_norm.weight"@),
        eps,
        l.post_feedforward_layernorm,
    )
    &&& is_mlp(ts, n, l.mlp)
    &&& match l.per_layer {
        Some(p) => cfg.per_layer_input_dim > 0 && is_per_layer(ts, n, eps, p),
        None => cfg.per_layer_input_dim == 0,
    }
    &&& is_unpacked(
        ts,
        names::block_name(n, ".layer_output_scale.weight"@),
        device,
        l.layer_scalar,
    )
    &&& match l.moe {
        Some(m) => cfg.num_experts is Some && cfg.top_k_experts is Some && is_moe(
            ts,
            n,
            cfg,
            device,
            m,
        ),
        None => cfg.num_experts is None || cfg.top_k_experts is None,
    }
    &&& l.n_head == cfg.head_count
    &&& l.n_kv_head == cfg.head_count_kv@[i]
    &&& l.is_global == !cfg.is_sliding@[i]
    &&& l.head_dim == (if l.is_global {
        cfg.key_length
    } else {
        cfg.key_length_swa
    })
    &&& l.rms_eps.expr() == eps
    &&& l.window == (if l.is_global {
        None
    } else {
        Some(cfg.sliding_window)
    })
    &&& l.store_shared_kv == cfg.is_donor(i)
    &&& is_rotary(cfg, l.is_global, device, l.rotary)
}

/// The model that a shape and a file's tensors give.
pub open spec fn is_model(
    ts: Seq<(String, Arc<candle_core::quantized::QTensor>)>,
    cfg: GgufConfig,
    device: candle_core::Device,
    w: Weights,
) -> bool {
    let eps = cfg.rms_eps.expr();
    &&& tensor_named(ts, "token_embd.weight"@) == Some(w.tok_embeddings.source())
    &&& w.output.weight() == w.tok_embeddings.source()
    &&& match w.ple {
        Some(ple) => {
            &&& cfg.per_layer_input_dim > 0
            &&& ple.input_dim == cfg.per_layer_input_dim
            &&& tensor_named(ts, "per_layer_token_embd.weight"@) == Some(
                ple.token_embeddings.source(),
            )
            &&& is_matrix(ts, "per_layer_model_proj.weight"@, ple.model_projection)
            &&& is_norm(ts, "per_layer_proj_norm.weight"@, eps, ple.projection_norm)
        },
        None => cfg.per_layer_input_dim == 0,
    }
    &&& is_norm(ts, "output_norm.weight"@, eps, w.norm)
    &&& w.embedding_length == cfg.embedding_length
    &&& w.sliding_window == cfg.sliding_window
    &&& config::number_view(w.final_logit_softcapping) == config::number_view(
        cfg.final_logit_softcapping,
    )
    &&& w.layers@.len() == cfg.block_count
    &&& forall|i: int|
        0 <= i < w.layers@.len() ==> is_layer(ts, cfg, device, i, #[trigger] w.layers@[i])
}

/// The keys' and values' part of layer `i`.
fn load_kv(ts: &Tensors, cfg: &GgufConfig, i: usize) -> (r: Result<KvSource, ModelError>)
    requires
        i < cfg.block_count,
    ensures
        r matches Ok(kv) ==> is_kv(
            ts@,
            i as nat,
            cfg.rms_eps.expr(),
            i >= cfg.first_shared(),
            kv,
        ),
        i >= cfg.first_shared() ==> r is Ok,
        r matches Err(e) ==> is_load_error(ts@, *cfg, e),
        is_complete(ts@, *cfg) ==> r is Ok,
{
    if i >= cfg.first_shared_layer() {
        return Ok(KvSource::Shared);
    }
    let v_name = names::block_string(i, ".attn_v.weight");
    let wv = if is_there(ts, &v_name) {
        Some(load_matrix(ts, cfg, v_name)?)
    } else {
        None
    };
    let wk = load_matrix(ts, cfg, names::block_string(i, ".attn_k.weight"))?;
    let k_norm = load_norm(ts, cfg, names::block_string(i, ".attn_k_norm.weight"))?;
    Ok(KvSource::Compute { wk, wv, k_norm })
}

/// The dense block of layer `i`.
fn load_mlp(ts: &Tensors, cfg: &GgufConfig, i: usize) -> (r: Result<Mlp, ModelError>)
    requires
        i < cfg.block_count,
    ensures
        r matches Ok(m) ==> is_mlp(ts@, i as nat, m),
        r matches Err(e) ==> is_load_error(ts@, *cfg, e),
        is_complete(ts@, *cfg) ==> r is Ok,
{
    let gate = load_matrix(ts, cfg, names::block_string(i, ".ffn_gate.weight"))?;
    let up = load_matrix(ts, cfg, names::block_string(i, ".ffn_up.weight"))?;
    let down = load_matrix(ts, cfg, names::block_string(i, ".ffn_down.weight"))?;
    Ok(Mlp { gate, up, down })
}

/// The per-layer input of layer `i`.
fn load_per_layer(ts: &Tensors, cfg: &GgufConfig, i: usize) -> (r: Result<
    PerLayerInput,
    ModelError,
>)
    requires
        i < cfg.block_count,
        cfg.per_layer_input_dim > 0,
    ensures
        r matches Ok(p) ==> is_per_layer(ts@, i as nat, cfg.rms_eps.expr(), p),
        r matches Err(e) ==> is_load_error(ts@, *cfg, e),
        is_complete(ts@, *cfg) ==> r is Ok,
{
    let input_gate = load_matrix(ts, cfg, names::block_string(i, ".inp_gate.weight"))?;
    let projection = load_matrix(ts, cfg, names::block_string(i, ".proj.weight"))?;
    let post_norm = load_norm(ts, cfg, names::block_string(i, ".post_norm.weight"))?;
    Ok(PerLayerInput { input_gate, projection, post_norm })
}

/// The errors that the experts of layer `i` can end in: a stack that is none of matrices, and scales that are no list of as many entries as there are experts.
pub open spec fn is_experts_error(
    ts: Seq<(String, Arc<candle_core::quantized::QTensor>)>,
    cfg: GgufConfig,
    i: int,
    e: ModelError,
) -> bool {
    let gate_up = tensor_named(ts, names::block_name(i as nat, ".ffn_gate_up_exps.weight"@));
    let down = tensor_named(ts, names::block_name(i as nat, ".ffn_down_exps.weight"@));
    let scales = tensor_named(ts, names::block_name(i as nat, ".ffn_down_exps.scale"@));
    has_experts(cfg) && match e {
        ModelError::Rank { .. } => {
            ||| gate_up matches Some(q) && packed::packed_dims(q).len() != 3
            ||| down matches Some(q) && packed::packed_dims(q).len() != 3
            ||| scales matches Some(q) && packed::packed_dims(q).len() != 1
        },
        ModelError::ExpertScales { entries, experts } => cfg.num_experts == Some(experts) && entries
            != experts && (scales matches Some(q) && packed::packed_dims(q) == seq![entries]),
        _ => false,
    }
}

/// The experts of layer `i` are in two stacks of matrices, and there is a scale for each.
pub open spec fn has_stacks(
    ts: Seq<(String, Arc<candle_core::quantized::QTensor>)>,
    cfg: GgufConfig,
    i: int,
) -> bool {
    let gate_up = tensor_named(ts, names::block_name(i as nat, ".ffn_gate_up_exps.weight"@));
    let down = tensor_named(ts, names::block_name(i as nat, ".ffn_down_exps.weight"@));
    let scales = tensor_named(ts, names::block_name(i as nat, ".ffn_down_exps.scale"@));
    &&& gate_up matches Some(q) && packed::packed_dims(q).len() == 3
    &&& down matches Some(q) && packed::packed_dims(q).len() == 3
    &&& scales matches Some(q) && packed::packed_dims(q) == seq![cfg.num_experts->Some_0]
}

/// A model of this shape can be loaded from these tensors: they are complete and lie in main memory,
/// as does the model, the heads hold a pair to rotate, and experts, where there are any, are in
/// stacks with a scale for each.
pub open spec fn is_loadable(
    ts: Seq<(String, Arc<candle_core::quantized::QTensor>)>,
    cfg: GgufConfig,
    device: candle_core::Device,
) -> bool {
    &&& tensor::is_main_memory(device)
    &&& is_complete(ts, cfg)
    &&& cfg.key_length >= 2
    &&& cfg.key_length_swa >= 2
    &&& has_experts(cfg) ==> forall|i: int|
        0 <= i < cfg.block_count ==> #[trigger] has_stacks(ts, cfg, i)
}

/// The experts of layer `i`.
fn load_moe(
    ts: &Tensors,
    cfg: &GgufConfig,
    i: usize,
    num_experts: usize,
    top_k: usize,
    device: &candle_core::Device,
) -> (r: Result<MoeBlock, ModelError>)
    requires
        cfg.num_experts == Some(num_experts),
        cfg.top_k_experts == Some(top_k),
        i < cfg.block_count,
    ensures
        r matches Ok(m) ==> is_moe(ts@, i as nat, *cfg, *device, m),
        r matches Err(e) ==> is_load_error(ts@, *cfg, e) || is_experts_error(
            ts@,
            *cfg,
            i as int,
            e,
        ),
        is_loadable(ts@, *cfg, *device) ==> r is Ok,
{
    proof {
        if is_loadable(ts@, *cfg, *device) {
            assert(has_stacks(ts@, *cfg, i as int));
        }
    }
    let eps = &cfg.rms_eps;
    let gate_up_3d = load(ts, cfg, names::block_string(i, ".ffn_gate_up_exps.weight"))?;
    let down_3d = load(ts, cfg, names::block_string(i, ".ffn_down_exps.weight"))?;
    let proj = load_unpacked(ts, cfg, names::block_string(i, ".ffn_gate_inp.weight"), device)?;
    let scale = load_unpacked(ts, cfg, names::block_string(i, ".ffn_gate_inp.scale"), device)?;
    let per_expert_scale = load_unpacked(
        ts,
        cfg,
        names::block_string(i, ".ffn_down_exps.scale"),
        device,
    )?;
    let scales = per_expert_scale.shape();
    if scales.len() != 1 {
        return Err(ModelError::Rank { expected: 1, got: scales.len() });
    }
    assert(per_expert_scale.dims() =~= seq![scales@[0]]);
    if scales[0] != num_experts {
        return Err(ModelError::ExpertScales { entries: scales[0], experts: num_experts });
    }
    assert(per_expert_scale.dims() =~= seq![num_experts]);
    let gate_up = packed::split_experts(&gate_up_3d, device)?;
    let down = packed::split_experts(&down_3d, device)?;
    let post_ffw_norm_1 = load_norm(ts, cfg, names::block_string(i, ".post_ffw_norm_1.weight"))?;
    let post_ffw_norm_2 = load_norm(ts, cfg, names::block_string(i, ".post_ffw_norm_2.weight"))?;
    let pre_ffw_norm_2 = load_norm(ts, cfg, names::block_string(i, ".pre_ffw_norm_2.weight"))?;
    Ok(
        MoeBlock {
            router: Router {
                proj,
                scale,
                per_expert_scale,
                eps: eps.duplicate(),
                hidden_size: cfg.embedding_length,
                top_k,
            },
            experts: Experts { gate_up, down },
            post_ffw_norm_1,
            post_ffw_norm_2,
            pre_ffw_norm_2,
        },
    )
}

/// The errors that loading a model can end in once its metadata is accepted.
pub open spec fn is_model_error(
    ts: Seq<(String, Arc<candle_core::quantized::QTensor>)>,
    cfg: GgufConfig,
    e: ModelError,
) -> bool {
    is_load_error(ts, cfg, e) || exists|i: int|
        0 <= i < cfg.block_count && #[trigger] is_experts_error(ts, cfg, i, e)
}

/// Layer `i`.
fn load_layer(
    ts: &Tensors,
    cfg: &GgufConfig,
    i: usize,
    is_donor: bool,
    rotary: RotaryEmbedding,
    device: &candle_core::Device,
) -> (r: Result<LayerWeights, ModelError>)
    requires
        i < cfg.block_count,
        cfg.is_sliding@.len() == cfg.block_count,
        cfg.head_count_kv@.len() == cfg.block_count,
        is_donor == cfg.is_donor(i as int),
        is_rotary(*cfg, !cfg.is_sliding@[i as int], *device, rotary),
    ensures
        r matches Ok(l) ==> is_layer(ts@, *cfg, *device, i as int, l),
        r matches Err(e) ==> is_model_error(ts@, *cfg, e),
        is_loadable(ts@, *cfg, *device) ==> r is Ok,
{
    let eps = &cfg.rms_eps;
    let is_global: bool = !cfg.is_sliding[i];
    let head_dim: usize = if is_global {
        cfg.key_length
    } else {
        cfg.key_length_swa
    };
    let wq = load_matrix(ts, cfg, names::block_string(i, ".attn_q.weight"))?;
    let wo = load_matrix(ts, cfg, names::block_string(i, ".attn_output.weight"))?;
    let q_norm = load_norm(ts, cfg, names::block_string(i, ".attn_q_norm.weight"))?;
    let kv = load_kv(ts, cfg, i)?;
    let input_layernorm = load_norm(ts, cfg, names::block_string(i, ".attn_norm.weight"))?;
    let post_attention_layernorm = load_norm(
        ts,
        cfg,
        names::block_string(i, ".post_attention_norm.weight"),
    )?;
    let pre_feedforward_layernorm = load_norm(
        ts,
        cfg,
        names::block_string(i, ".ffn_norm.weight"),
    )?;
    let post_feedforward_layernorm = load_norm(
        ts,
        cfg,
        names::block_string(i, ".post_ffw_norm.weight"),
    )?;
    let mlp = load_mlp(ts, cfg, i)?;
    let per_layer = if cfg.per_layer_input_dim > 0 {
        Some(load_per_layer(ts, cfg, i)?)
    } else {
        None
    };
    let layer_scalar = load_unpacked(
        ts,
        cfg,
        names::block_string(i, ".layer_output_scale.weight"),
        device,
    )?;
    let moe = match (cfg.num_experts, cfg.top_k_experts) {
        (Some(num_experts), Some(top_k)) => Some(
            load_moe(ts, cfg, i, num_experts, top_k, device)?,
        ),
        _ => None,
    };
    let window: Option<usize> = if is_global {
        None
    } else {
        Some(cfg.sliding_window)
    };
    Ok(
        LayerWeights {
            wq,
            wo,
            q_norm,
            kv,
            input_layernorm,
            post_attention_layernorm,
            pre_feedforward_layernorm,
            post_feedforward_layernorm,
            mlp,
            moe,
            per_layer,
            layer_scalar,
            n_head: cfg.head_count,
            n_kv_head: cfg.head_count_kv[i],
            head_dim,
            rms_eps: eps.duplicate(),
            is_global,
            window,
            store_shared_kv: is_donor,
            rotary,
        },
    )
}

/// The layers of the model.
fn load_layers(ts: &Tensors, cfg: &GgufConfig, device: &candle_core::Device) -> (r: Result<
    Vec<LayerWeights>,
    ModelError,
>)
    requires
        cfg.is_sliding@.len() == cfg.block_count,
        cfg.head_count_kv@.len() == cfg.block_count,
    ensures
        r matches Ok(layers) ==> layers@.len() == cfg.block_count && forall|i: int|
            0 <= i < layers@.len() ==> is_layer(ts@, *cfg, *device, i, #[trigger] layers@[i]),
        r matches Err(e) ==> is_model_error(ts@, *cfg, e),
        is_loadable(ts@, *cfg, *device) ==> r is Ok,
{
    let donor_sliding = cfg.donor(true);
    let donor_full = cfg.donor(false);
    let rotary_global = RotaryEmbedding::proportional(
        cfg.key_length,
        cfg.key_length / GLOBAL_ROTATION,
        &cfg.rope_freq_base,
        MAX_SEQ_LEN,
        candle_core::DType::F32,
        device,
    )?;
    let rotary_sliding = RotaryEmbedding::proportional(
        cfg.key_length_swa,
        cfg.key_length_swa / 2,
        &cfg.rope_freq_base_swa,
        MAX_SEQ_LEN,
        candle_core::DType::F32,
        device,
    )?;
    let mut layers: Vec<LayerWeights> = Vec::new();
    let mut i: usize = 0;
    while i < cfg.block_count
        invariant
            i <= cfg.block_count,
            cfg.is_sliding@.len() == cfg.block_count,
            cfg.head_count_kv@.len() == cfg.block_count,
            is_rotary(*cfg, true, *device, rotary_global),
            is_rotary(*cfg, false, *device, rotary_sliding),
            match donor_sliding {
                Some(d) => config::last_of_kind(cfg.is_sliding@, cfg.first_shared(), true) == Some(
                    d as int,
                ),
                None => config::last_of_kind(cfg.is_sliding@, cfg.first_shared(), true) is None,
            },
            match donor_full {
                Some(d) => config::last_of_kind(cfg.is_sliding@, cfg.first_shared(), false)
                    == Some(d as int),
                None => config::last_of_kind(cfg.is_sliding@, cfg.first_shared(), false) is None,
            },
            layers@.len() == i,
            forall|j: int|
                0 <= j < i ==> is_layer(ts@, *cfg, *device, j, #[trigger] layers@[j]),
        decreases cfg.block_count - i,
    {
        let rotary = if cfg.is_sliding[i] {
            rotary_sliding.duplicate()
        } else {
            rotary_global.duplicate()
        };
        let is_last: bool = match (donor_full, donor_sliding) {
            (Some(full), Some(sliding)) => i == full || i == sliding,
            (Some(full), None) => i == full,
            (None, Some(sliding)) => i == sliding,
            (None, None) => false,
        };
        proof {
            config::law_donor_is_last_of_its_kind(cfg.is_sliding@, cfg.first_shared(), true);
            config::law_donor_is_last_of_its_kind(cfg.is_sliding@, cfg.first_shared(), false);
        }
        let is_donor: bool = cfg.shared_kv_layers > 0 && is_last;
        layers.push(load_layer(ts, cfg, i, is_donor, rotary, device)?);
        i = i + 1;
    }
    Ok(layers)
}

/// The model's part of the per-layer inputs, where it has one.
fn load_ple(ts: &Tensors, cfg: &GgufConfig) -> (r: Result<Option<PerLayerEmbeddings>, ModelError>)
    ensures
        r matches Ok(ple) ==> match ple {
            Some(ple) => {
                &&& cfg.per_layer_input_dim > 0
                &&& ple.input_dim == cfg.per_layer_input_dim
                &&& tensor_named(ts@, "per_layer_token_embd.weight"@) == Some(
                    ple.token_embeddings.source(),
                )
                &&& is_matrix(ts@, "per_layer_model_proj.weight"@, ple.model_projection)
                &&& is_norm(
                    ts@,
                    "per_layer_proj_norm.weight"@,
                    cfg.rms_eps.expr(),
                    ple.projection_norm,
                )
            },
            None => cfg.per_layer_input_dim == 0,
        },
        cfg.per_layer_input_dim == 0 ==> r is Ok,
        r matches Err(e) ==> is_load_error(ts@, *cfg, e),
        is_complete(ts@, *cfg) ==> r is Ok,
{
    if cfg.per_layer_input_dim == 0 {
        return Ok(None);
    }
    let token_embeddings = load(ts, cfg, String::from_str("per_layer_token_embd.weight"))?;
    let model_projection = load_matrix(ts, cfg, String::from_str("per_layer_model_proj.weight"))?;
    let projection_norm = load_norm(ts, cfg, String::from_str("per_layer_proj_norm.weight"))?;
    Ok(
        Some(
            PerLayerEmbeddings {
                token_embeddings,
                model_projection,
                projection_norm,
                input_dim: cfg.per_layer_input_dim,
            },
        ),
    )
}

impl ModelWeights {
    /// Builds the model that a file's metadata and tensors describe. Metadata that fails a check is
    /// refused with the first such check's error; a tensor that is needed and not there, or whose
    /// bytes do not cover its shape, is refused too. In main memory a complete file can always be
    /// loaded. The output shares the table of token embeddings.
    pub fn from_gguf(
        metadata: &Vec<(String, MetaValue)>,
        tensors: &Tensors,
        device: &candle_core::Device,
    ) -> (r: Result<ModelWeights, ModelError>)
        ensures
            r matches Ok(m) ==> config::is_accepted(metadata@) && m.lane().slots().len() == 0
                && m.lane().position() == 0 && exists|cfg: GgufConfig| #[trigger]
                cfg.follows(metadata@) && is_model(tensors@, cfg, *device, m.weights()),
            r matches Err(e) ==> if config::is_accepted(metadata@) {
                exists|cfg: GgufConfig| #[trigger]
                    cfg.follows(metadata@) && is_model_error(tensors@, cfg, e)
            } else {
                config::is_first_refusal(metadata@, e)
            },
            !config::is_accepted(metadata@) ==> r is Err,
            config::is_accepted(metadata@) && (forall|cfg: GgufConfig| #[trigger]
                cfg.follows(metadata@) ==> is_loadable(tensors@, cfg, *device)) ==> r is Ok,
            config::is_accepted(metadata@) && (forall|cfg: GgufConfig| #[trigger]
                cfg.follows(metadata@) ==> is_loadable(tensors@, cfg, *device)
                    && shapes::has_shapes(tensors@, cfg)) ==> (r matches Ok(m)
                && m.weights().is_fit()),
    {
        let cfg = GgufConfig::from_metadata(metadata)?;
        assert(cfg.follows(metadata@));
        let ghost shape = cfg;
        let tok_embeddings = load(tensors, &cfg, String::from_str("token_embd.weight"))?;
        let ple = load_ple(tensors, &cfg)?;
        let norm = load_norm(tensors, &cfg, String::from_str("output_norm.weight"))?;
        let output = PackedMatMul::new(&tok_embeddings)?;
        let layers = load_layers(tensors, &cfg, device)?;
        let final_logit_softcapping = match &cfg.final_logit_softcapping {
            Some(cap) => Some(cap.duplicate()),
            None => None,
        };
        let weights = Weights {
            tok_embeddings,
            ple,
            embedding_length: cfg.embedding_length,
            sliding_window: cfg.sliding_window,
            layers,
            norm,
            output,
            final_logit_softcapping,
        };
        assert(is_model(tensors@, shape, *device, weights));
        proof {
            if is_loadable(tensors@, shape, *device) && shapes::has_shapes(tensors@, shape) {
                shapes::law_loaded_model_is_fit(tensors@, shape, *device, weights);
            }
        }
        Ok(ModelWeights::new(weights))
    }
}

} // verus!
