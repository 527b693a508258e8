use candle_core::scalar::Scalar;
use candle_core::{DType, Device, Module, Tensor, D};
use candle_nn::kv_cache::{KvCache, RotatingKvCache};
use candle_nn::{Activation, VarBuilder};
use gemma4::error::{ModelError, Setting};
use gemma4::tensor::layers::{ParamStore, Params};
use gemma4::tensor::{Number, Traced};
use gemma4::text::config::{Gemma4TextConfig, LayerType};
use gemma4::text::TextModel;
use std::collections::HashMap;

const EPS: f64 = 1e-6;

fn number(x: f64) -> Number {
    Number::given(Scalar::from(x))
}

fn noise(name: &str, n: usize) -> Vec<f32> {
    let mut x: u64 = 1469598103934665603;
    for b in name.bytes() {
        x = (x ^ b as u64).wrapping_mul(1099511628211);
    }
    x |= 1;
    let mut out = Vec::new();
    for _ in 0..n {
        x ^= x << 13;
        x ^= x >> 7;
        x ^= x << 17;
        out.push((x % 2001) as f32 / 1000.0 - 1.0);
    }
    out
}

fn config(types: &[LayerType]) -> Gemma4TextConfig {
    Gemma4TextConfig {
        vocab_size: 10,
        hidden_size: 8,
        intermediate_size: 12,
        num_hidden_layers: types.len(),
        num_attention_heads: 4,
        num_key_value_heads: 2,
        num_global_key_value_heads: None,
        head_dim: 4,
        global_head_dim: 8,
        attention_bias: false,
        attention_k_eq_v: false,
        num_kv_shared_layers: 0,
        use_double_wide_mlp: false,
        rms_norm_eps: number(EPS),
        hidden_activation: Activation::GeluPytorchTanh,
        layer_types: types.to_vec(),
        sliding_window: 3,
        effective_sliding_window: 3,
        max_position_embeddings: 32,
        rope_theta: number(1e6),
        rope_local_base_freq: number(1e4),
        partial_rotary_factor: number(0.25),
        hidden_size_per_layer_input: 0,
        vocab_size_per_layer_input: 10,
        tie_word_embeddings: true,
        final_logit_softcapping: None,
        enable_moe_block: false,
        num_experts: None,
        top_k_experts: None,
        moe_intermediate_size: None,
        use_flash_attn: false,
    }
}

const S: LayerType = LayerType::SlidingAttention;
const G: LayerType = LayerType::FullAttention;

fn slides(cfg: &Gemma4TextConfig, i: usize) -> bool {
    matches!(cfg.layer_types[i], LayerType::SlidingAttention)
}

fn params(cfg: &Gemma4TextConfig) -> HashMap<String, Tensor> {
    let mut all = HashMap::new();
    let mut add = |name: String, dims: &[usize]| {
        let n: usize = dims.iter().product();
        let t = Tensor::from_vec(noise(&name, n), dims, &Device::Cpu).unwrap();
        all.insert(name, t);
    };
    let h = cfg.hidden_size;
    let layers = cfg.num_hidden_layers;
    let ple = cfg.hidden_size_per_layer_input;
    add("embed_tokens.weight".into(), &[cfg.vocab_size, h]);
    add("norm.weight".into(), &[h]);
    if !cfg.tie_word_embeddings {
        add("lm_head.weight".into(), &[cfg.vocab_size, h]);
    }
    if ple > 0 {
        add("embed_tokens_per_layer.weight".into(), &[cfg.vocab_size_per_layer_input, layers * ple]);
        add("per_layer_model_projection.weight".into(), &[layers * ple, h]);
        add("per_layer_projection_norm.weight".into(), &[ple]);
    }
    let first = layers.saturating_sub(cfg.num_kv_shared_layers);
    for i in 0..layers {
        let p = format!("layers.{i}");
        let s = slides(cfg, i);
        let d = if s { cfg.head_dim } else { cfg.global_head_dim };
        let alt = cfg.attention_k_eq_v && !s;
        let kv = if alt { cfg.num_global_key_value_heads.unwrap_or(1) } else { cfg.num_key_value_heads };
        let q = cfg.num_attention_heads * d;
        let mut linear = |name: &str, out: usize, inn: usize, bias: bool| {
            add(format!("{p}.{name}.weight"), &[out, inn]);
            if bias {
                add(format!("{p}.{name}.bias"), &[out]);
            }
        };
        linear("self_attn.q_proj", q, h, cfg.attention_bias);
        linear("self_attn.o_proj", h, q, cfg.attention_bias);
        if i < first {
            linear("self_attn.k_proj", kv * d, h, cfg.attention_bias);
            if !alt {
                linear("self_attn.v_proj", kv * d, h, cfg.attention_bias);
            }
        }
        let inner = if cfg.use_double_wide_mlp && first > 0 && i >= first {
            2 * cfg.intermediate_size
        } else {
            cfg.intermediate_size
        };
        linear("mlp.gate_proj", inner, h, false);
        linear("mlp.up_proj", inner, h, false);
        linear("mlp.down_proj", h, inner, false);
        if ple > 0 {
            linear("per_layer_input_gate", ple, h, false);
            linear("per_layer_projection", h, ple, false);
        }
        let e = cfg.num_experts.unwrap_or(0);
        if cfg.enable_moe_block {
            linear("router.proj", e, h, false);
        }
        add(format!("{p}.self_attn.q_norm.weight"), &[d]);
        if i < first {
            add(format!("{p}.self_attn.k_norm.weight"), &[d]);
        }
        for n in [
            "input_layernorm",
            "post_attention_layernorm",
            "pre_feedforward_layernorm",
            "post_feedforward_layernorm",
        ] {
            add(format!("{p}.{n}.weight"), &[h]);
        }
        add(format!("{p}.layer_scalar"), &[1]);
        if ple > 0 {
            add(format!("{p}.post_per_layer_input_norm.weight"), &[h]);
        }
        if cfg.enable_moe_block {
            let m = cfg.moe_intermediate_size.unwrap_or(1);
            add(format!("{p}.router.scale"), &[h]);
            add(format!("{p}.router.per_expert_scale"), &[e]);
            add(format!("{p}.experts.gate_up_proj"), &[e, 2 * m, h]);
            add(format!("{p}.experts.down_proj"), &[e, h, m]);
            for n in [
                "post_feedforward_layernorm_1",
                "post_feedforward_layernorm_2",
                "pre_feedforward_layernorm_2",
            ] {
                add(format!("{p}.{n}.weight"), &[h]);
            }
        }
    }
    all
}

fn build_in(cfg: &Gemma4TextConfig, dtype: DType) -> Result<TextModel, ModelError> {
    let inner = VarBuilder::from_tensors(params(cfg), dtype, &Device::Cpu);
    TextModel::new(cfg, &Params::new(ParamStore { inner }))
}

fn build(cfg: &Gemma4TextConfig) -> TextModel {
    match build_in(cfg, DType::F32) {
        Ok(m) => m,
        Err(ModelError::Candle(e)) => panic!("candle: {e}"),
        Err(e) => panic!("not built: {:?}", e.text()),
    }
}

fn ids(rows: &[&[u32]]) -> Traced {
    let flat: Vec<u32> = rows.iter().flat_map(|r| r.iter().copied()).collect();
    Traced::given(Tensor::from_vec(flat, (rows.len(), rows[0].len()), &Device::Cpu).unwrap())
}

fn values(r: Result<Traced, ModelError>) -> Vec<f32> {
    match r {
        Ok(t) => t.tensor().to_dtype(DType::F32).unwrap().flatten_all().unwrap().to_vec1().unwrap(),
        Err(ModelError::Candle(e)) => panic!("candle: {e}"),
        Err(e) => panic!("failed: {:?}", e.text()),
    }
}

// ── a second computation of the same model, straight on tensors ─────────────

enum Cache {
    Normal(KvCache),
    Rotating(RotatingKvCache),
}

struct Plain<'a> {
    cfg: &'a Gemma4TextConfig,
    all: HashMap<String, Tensor>,
    caches: Vec<Cache>,
    cap: Option<f64>,
}

impl<'a> Plain<'a> {
    fn new(cfg: &'a Gemma4TextConfig, cap: Option<f64>) -> Plain<'a> {
        let caches = (0..cfg.num_hidden_layers)
            .map(|i| {
                if slides(cfg, i) {
                    Cache::Rotating(RotatingKvCache::new(2, cfg.effective_sliding_window))
                } else {
                    Cache::Normal(KvCache::new(2, cfg.max_position_embeddings))
                }
            })
            .collect();
        Plain { cfg, all: params(cfg), caches, cap }
    }

    fn w(&self, name: &str) -> Tensor {
        self.all[name].clone()
    }

    fn mul(&self, name: &str, x: &Tensor) -> Tensor {
        let bias = self.all.get(&format!("{name}.bias")).cloned();
        candle_nn::Linear::new(self.w(&format!("{name}.weight")), bias).forward(x).unwrap()
    }

    fn norm(&self, name: &str, x: &Tensor) -> Tensor {
        let n = x.dim(D::Minus1).unwrap();
        let ms = (x.sqr().unwrap().sum_keepdim(D::Minus1).unwrap() / n as f64).unwrap();
        let x = x.broadcast_div(&(ms + EPS).unwrap().sqrt().unwrap()).unwrap();
        x.broadcast_mul(&self.w(&format!("{name}.weight"))).unwrap()
    }

    fn v_norm(v: &Tensor) -> Tensor {
        let ms = v.sqr().unwrap().mean_keepdim(D::Minus1).unwrap();
        v.broadcast_div(&(ms + EPS).unwrap().sqrt().unwrap()).unwrap()
    }

    fn tables(&self, i: usize, pos: usize, len: usize) -> (Tensor, Tensor) {
        let rates: Vec<f32> = if slides(self.cfg, i) {
            let d = self.cfg.head_dim;
            (0..d).step_by(2).map(|i| 1f32 / 1e4f64.powf(i as f64 / d as f64) as f32).collect()
        } else {
            let d = self.cfg.global_head_dim;
            let angles = (0.25 * d as f64 / 2.0) as usize;
            (0..d / 2)
                .map(|i| if i < angles { 1f32 / 1e6f32.powf((2 * i) as f32 / d as f32) } else { 0.0 })
                .collect()
        };
        let n = rates.len();
        let rates = Tensor::from_vec(rates, (1, n), &Device::Cpu).unwrap();
        let t: Vec<f32> = (pos..pos + len).map(|p| p as f32).collect();
        let t = Tensor::from_vec(t, (len, 1), &Device::Cpu).unwrap();
        let a = t.matmul(&rates).unwrap();
        (a.cos().unwrap(), a.sin().unwrap())
    }

    fn mask(b: usize, len: usize, pos: usize, window: Option<usize>) -> Tensor {
        let mut m = Vec::new();
        for i in 0..len {
            for j in 0..pos + len {
                let out = if j < pos {
                    false
                } else {
                    let j = j - pos;
                    i < j || window.is_some_and(|w| j + w < i)
                };
                m.push(if out { f32::NEG_INFINITY } else { 0.0 });
            }
        }
        let m = Tensor::from_vec(m, (len, pos + len), &Device::Cpu).unwrap();
        m.expand((b, 1, len, pos + len)).unwrap()
    }

    fn experts(&self, p: &str, flat: &Tensor) -> Tensor {
        let h = self.cfg.hidden_size;
        let top_k = self.cfg.top_k_experts.unwrap();
        let x = Self::v_norm(flat).broadcast_mul(&self.w(&format!("{p}.router.scale"))).unwrap();
        let x = (x * (h as f64).powf(-0.5)).unwrap();
        let scores = self.mul(&format!("{p}.router.proj"), &x);
        let probs: Vec<Vec<f32>> = candle_nn::ops::softmax_last_dim(&scores).unwrap().to_vec2().unwrap();
        let scales: Vec<f32> = self.w(&format!("{p}.router.per_expert_scale")).to_vec1().unwrap();
        let up = self.w(&format!("{p}.experts.gate_up_proj"));
        let down = self.w(&format!("{p}.experts.down_proj"));
        let x = self.norm(&format!("{p}.pre_feedforward_layernorm_2"), flat);
        let mut rows = Vec::new();
        for (n, row) in probs.iter().enumerate() {
            let mut order: Vec<usize> = (0..row.len()).collect();
            order.sort_by(|&a, &b| row[b].total_cmp(&row[a]));
            let top = &order[..top_k];
            let sum: f32 = top.iter().map(|&e| row[e]).sum();
            let x = x.narrow(0, n, 1).unwrap();
            let mut acc: Option<Tensor> = None;
            for &e in top {
                let y = x.matmul(&up.get(e).unwrap().t().unwrap()).unwrap();
                let i = y.dim(1).unwrap() / 2;
                let gate = self.cfg.hidden_activation.forward(&y.narrow(1, 0, i).unwrap()).unwrap();
                let z = (gate * y.narrow(1, i, i).unwrap()).unwrap();
                let z = z.matmul(&down.get(e).unwrap().t().unwrap()).unwrap();
                let z = (z * (row[e] / sum * scales[e]) as f64).unwrap();
                acc = Some(match acc {
                    None => z,
                    Some(a) => (a + z).unwrap(),
                });
            }
            rows.push(acc.unwrap());
        }
        Tensor::cat(&rows, 0).unwrap()
    }

    fn forward(&mut self, x: &Tensor, pos: usize) -> Vec<f32> {
        let cfg = self.cfg;
        let (b, len) = x.dims2().unwrap();
        let h = cfg.hidden_size;
        let layers = cfg.num_hidden_layers;
        let ple = cfg.hidden_size_per_layer_input;
        let first = layers.saturating_sub(cfg.num_kv_shared_layers);
        let embed = |name: &str, width: usize| {
            let flat = x.flatten_all().unwrap();
            let rows = self.w(name).index_select(&flat, 0).unwrap();
            rows.reshape((b, len, width)).unwrap()
        };
        let mut xs = (embed("embed_tokens.weight", h) * (h as f64).sqrt()).unwrap();
        let inputs = (ple > 0).then(|| {
            let p = (self.mul("per_layer_model_projection", &xs) * (1.0 / (h as f64).sqrt())).unwrap();
            let p = self.norm("per_layer_projection_norm", &p.reshape((b, len, layers, ple)).unwrap());
            let e = (embed("embed_tokens_per_layer.weight", layers * ple) * (ple as f64).sqrt()).unwrap();
            let e = e.reshape((b, len, layers, ple)).unwrap();
            ((p + e).unwrap() * (1.0 / 2.0f64.sqrt())).unwrap()
        });
        let mut aside: [Option<(Tensor, Tensor)>; 2] = [None, None];
        for i in 0..layers {
            let p = format!("layers.{i}");
            let s = slides(cfg, i);
            let d = if s { cfg.head_dim } else { cfg.global_head_dim };
            let alt = cfg.attention_k_eq_v && !s;
            let kv = if alt { cfg.num_global_key_value_heads.unwrap() } else { cfg.num_key_value_heads };
            let x1 = self.norm(&format!("{p}.input_layernorm"), &xs);
            let heads = |t: Tensor, n: usize| t.reshape((b, len, n, d)).unwrap().transpose(1, 2).unwrap();
            let (cos, sin) = self.tables(i, pos, len);
            let q = heads(self.mul(&format!("{p}.self_attn.q_proj"), &x1), cfg.num_attention_heads);
            let q = self.norm(&format!("{p}.self_attn.q_norm"), &q).contiguous().unwrap();
            let q = candle_nn::rotary_emb::rope(&q, &cos, &sin).unwrap();
            let (k, v) = if i < first {
                let k = self.mul(&format!("{p}.self_attn.k_proj"), &x1);
                let v = if alt { k.clone() } else { self.mul(&format!("{p}.self_attn.v_proj"), &x1) };
                let k = self.norm(&format!("{p}.self_attn.k_norm"), &heads(k, kv)).contiguous().unwrap();
                let k = candle_nn::rotary_emb::rope(&k, &cos, &sin).unwrap();
                let v = Self::v_norm(&heads(v, kv));
                let all = match &mut self.caches[i] {
                    Cache::Normal(c) => c.append(&k, &v).unwrap(),
                    Cache::Rotating(c) => c.append(&k, &v).unwrap(),
                };
                aside[s as usize] = Some(all.clone());
                all
            } else {
                aside[s as usize].clone().unwrap()
            };
            let n = cfg.num_attention_heads / kv;
            let rep = |t: &Tensor| {
                let (b, h, s, d) = t.dims4().unwrap();
                let t = t.unsqueeze(2).unwrap().expand((b, h, n, s, d)).unwrap();
                t.reshape((b, h * n, s, d)).unwrap().contiguous().unwrap()
            };
            let (k, v) = (rep(&k), rep(&v));
            let mut scores = q.matmul(&k.transpose(2, 3).unwrap()).unwrap();
            if len > 1 {
                let window = s.then_some(cfg.sliding_window);
                scores = scores.broadcast_add(&Self::mask(b, len, pos, window)).unwrap();
            }
            let a = candle_nn::ops::softmax_last_dim(&scores).unwrap().matmul(&v).unwrap();
            let a = a.transpose(1, 2).unwrap().reshape((b, len, cfg.num_attention_heads * d)).unwrap();
            let a = self.mul(&format!("{p}.self_attn.o_proj"), &a);
            let a = (self.norm(&format!("{p}.post_attention_layernorm"), &a) + &xs).unwrap();
            let m = self.norm(&format!("{p}.pre_feedforward_layernorm"), &a);
            let gate = cfg.hidden_activation.forward(&self.mul(&format!("{p}.mlp.gate_proj"), &m)).unwrap();
            let up = self.mul(&format!("{p}.mlp.up_proj"), &m);
            let mut m = self.mul(&format!("{p}.mlp.down_proj"), &(gate * up).unwrap());
            if cfg.enable_moe_block {
                let h1 = self.norm(&format!("{p}.post_feedforward_layernorm_1"), &m);
                let flat = a.reshape((b * len, h)).unwrap();
                let h2 = self.experts(&p, &flat).reshape((b, len, h)).unwrap();
                m = (h1 + self.norm(&format!("{p}.post_feedforward_layernorm_2"), &h2)).unwrap();
            }
            let mut out = (a + self.norm(&format!("{p}.post_feedforward_layernorm"), &m)).unwrap();
            if let Some(inputs) = &inputs {
                let g = self.mul(&format!("{p}.per_layer_input_gate"), &out);
                let g = cfg.hidden_activation.forward(&g).unwrap();
                let g = (g * inputs.get_on_dim(2, i).unwrap()).unwrap();
                let g = self.mul(&format!("{p}.per_layer_projection"), &g);
                out = (&out + self.norm(&format!("{p}.post_per_layer_input_norm"), &g)).unwrap();
            }
            xs = out.broadcast_mul(&self.w(&format!("{p}.layer_scalar"))).unwrap();
        }
        let last = self.norm("norm", &xs.narrow(1, len - 1, 1).unwrap());
        let head = if cfg.tie_word_embeddings { "embed_tokens" } else { "lm_head" };
        let mut logits = self.mul(head, &last);
        if let Some(cap) = self.cap {
            logits = ((logits / cap).unwrap().tanh().unwrap() * cap).unwrap();
        }
        logits.flatten_all().unwrap().to_vec1().unwrap()
    }
}

fn close(a: &[f32], b: &[f32]) {
    assert_eq!(a.len(), b.len());
    for (x, y) in a.iter().zip(b) {
        assert!((x - y).abs() <= 1e-4 * (1.0 + y.abs()), "{a:?} is not {b:?}");
    }
}

fn compare(cfg: &Gemma4TextConfig, cap: Option<f64>, rows: &[&[u32]], steps: &[u32]) {
    let mut m = build(cfg);
    let mut plain = Plain::new(cfg, cap);
    let x = ids(rows);
    close(&values(m.forward(&x, 0)), &plain.forward(x.tensor(), 0));
    let mut pos = rows[0].len();
    for &t in steps {
        let row = [t];
        let next: Vec<&[u32]> = rows.iter().map(|_| &row[..]).collect();
        let x = ids(&next);
        close(&values(m.forward(&x, pos)), &plain.forward(x.tensor(), pos));
        pos += 1;
    }
}

#[test]
fn float_model_matches_plain_tensors() {
    compare(&config(&[S, G]), None, &[&[1, 2, 3, 4, 5]], &[6, 7, 8]);
    compare(&config(&[S, G]), None, &[&[1, 2]], &[6, 7, 8, 9]);
}

#[test]
fn named_tensors_make_a_model() {
    let cfg = config(&[S, G]);
    let mut all: Vec<(String, Tensor)> = params(&cfg).into_iter().collect();
    let wanted = values(build(&cfg).forward(&ids(&[&[1, 2, 3]]), 0));
    // Of two tensors of one name the last one counts.
    let spoilt = Tensor::zeros(cfg.hidden_size, DType::F32, &Device::Cpu).unwrap();
    all.insert(0, ("norm.weight".to_string(), spoilt.clone()));
    let store = ParamStore::from_tensors(all.clone(), DType::F32, &Device::Cpu);
    let mut m = match TextModel::new(&cfg, &Params::new(store)) {
        Ok(m) => m,
        Err(_) => panic!("not built"),
    };
    assert_eq!(values(m.forward(&ids(&[&[1, 2, 3]]), 0)), wanted);
    all.push(("norm.weight".to_string(), spoilt));
    let store = ParamStore::from_tensors(all, DType::F32, &Device::Cpu);
    let mut m = match TextModel::new(&cfg, &Params::new(store)) {
        Ok(m) => m,
        Err(_) => panic!("not built"),
    };
    assert_ne!(values(m.forward(&ids(&[&[1, 2, 3]]), 0)), wanted);
}

#[test]
fn float_batches_match_plain_tensors() {
    compare(&config(&[S, G]), None, &[&[1, 2, 3], &[7, 0, 2]], &[6, 7]);
}

#[test]
fn float_options_match_plain_tensors() {
    let mut cfg = config(&[S, G]);
    cfg.attention_bias = true;
    cfg.tie_word_embeddings = false;
    cfg.final_logit_softcapping = Some(number(2.0));
    cfg.hidden_activation = Activation::Silu;
    compare(&cfg, Some(2.0), &[&[1, 2, 3]], &[4]);
}

#[test]
fn float_values_share_the_keys_projection() {
    let mut cfg = config(&[S, G]);
    cfg.attention_k_eq_v = true;
    cfg.num_global_key_value_heads = Some(1);
    compare(&cfg, None, &[&[1, 2, 3]], &[4, 5]);
}

#[test]
fn float_layers_share_keys_and_values() {
    let mut cfg = config(&[S, G, S, G, S]);
    cfg.num_kv_shared_layers = 2;
    cfg.use_double_wide_mlp = true;
    compare(&cfg, None, &[&[1, 2, 3]], &[4, 5]);
    assert_eq!(cfg.first_shared_layer(), 3);
    assert!(!cfg.puts_aside(0));
    assert!(cfg.puts_aside(1));
    assert!(cfg.puts_aside(2));
    assert!(!cfg.puts_aside(3));
    assert!(cfg.is_sliding(4));
}

#[test]
fn float_per_layer_inputs_match_plain_tensors() {
    let mut cfg = config(&[S, G]);
    cfg.hidden_size_per_layer_input = 6;
    compare(&cfg, None, &[&[1, 2, 3]], &[4, 5]);
}

#[test]
fn float_experts_match_plain_tensors() {
    let mut cfg = config(&[S, G]);
    cfg.enable_moe_block = true;
    cfg.num_experts = Some(4);
    cfg.top_k_experts = Some(2);
    cfg.moe_intermediate_size = Some(5);
    compare(&cfg, None, &[&[1, 2, 3]], &[4, 5]);
}

#[test]
fn embeddings_are_scaled_rows() {
    let cfg = config(&[G]);
    let m = build(&cfg);
    let table = params(&cfg)["embed_tokens.weight"].clone();
    let row: Vec<f32> = (table.get(3).unwrap() * 8f64.sqrt()).unwrap().to_vec1().unwrap();
    assert_eq!(values(m.embed_tokens(&ids(&[&[3]]))), row);
}

#[test]
fn a_pass_over_embeddings_is_a_pass_over_their_identifiers() {
    let cfg = config(&[S, G]);
    let mut a = build(&cfg);
    let mut b = build(&cfg);
    let x = ids(&[&[1, 2, 3]]);
    let xs = match a.embed_tokens(&x) {
        Ok(xs) => xs,
        Err(_) => panic!("no embeddings"),
    };
    let from_embeds = values(a.forward_embeds(&x, &xs, 0, 1, 3));
    assert_eq!(from_embeds, values(b.forward(&x, 0)));
}

#[test]
fn a_cleared_model_gives_what_a_new_one_gives() {
    let cfg = config(&[S, G]);
    let mut m = build(&cfg);
    let first = values(m.forward(&ids(&[&[1, 2, 3]]), 0));
    values(m.forward(&ids(&[&[4]]), 3));
    m.clear_kv_cache();
    assert_eq!(values(m.forward(&ids(&[&[1, 2, 3]]), 0)), first);
}

#[test]
fn half_precision_is_kept() {
    let cfg = config(&[S, G]);
    let mut m = match build_in(&cfg, DType::BF16) {
        Ok(m) => m,
        Err(_) => panic!("not built"),
    };
    match m.forward(&ids(&[&[1, 2, 3]]), 0) {
        Ok(t) => assert_eq!(t.tensor().dtype(), DType::BF16),
        Err(ModelError::Candle(e)) => panic!("candle: {e}"),
        Err(_) => panic!("failed"),
    }
}

#[test]
fn fused_attention_is_refused() {
    let mut cfg = config(&[G]);
    cfg.use_flash_attn = true;
    let mut m = build(&cfg);
    assert!(matches!(m.forward(&ids(&[&[1]]), 0), Err(ModelError::NoFlashAttention)));
}

#[test]
fn a_float_layer_whose_donor_is_missing_is_refused() {
    let mut cfg = config(&[S, G]);
    cfg.num_kv_shared_layers = 1;
    let mut m = build(&cfg);
    assert!(matches!(m.forward(&ids(&[&[1]]), 0), Err(ModelError::DonorMissing)));
}

#[test]
fn float_inputs_without_positions_or_rows_are_refused() {
    let mut m = build(&config(&[G]));
    let none = Traced::given(Tensor::zeros((1, 0), DType::U32, &Device::Cpu).unwrap());
    assert!(matches!(m.forward(&none, 0), Err(ModelError::EmptyInput)));
    let flat = Traced::given(Tensor::zeros(3, DType::U32, &Device::Cpu).unwrap());
    assert!(matches!(m.forward(&flat, 0), Err(ModelError::Rank { expected: 2, got: 1 })));
    assert!(matches!(m.forward(&ids(&[&[1]]), 32), Err(ModelError::Candle(_))));
}

#[test]
fn whole_numbers_are_not_embeddings() {
    let cfg = config(&[G]);
    let mut m = build(&cfg);
    let x = ids(&[&[1, 2, 3]]);
    let whole = Tensor::zeros((1, 3, cfg.hidden_size), DType::U32, &Device::Cpu).unwrap();
    match m.forward_embeds(&x, &Traced::given(whole), 0, 1, 3) {
        Err(e) => assert_eq!(e.text().unwrap(), "a tensor that is computed with holds no floats"),
        Ok(_) => panic!("not refused"),
    }
}

#[test]
fn more_float_picks_than_experts_are_refused() {
    let mut cfg = config(&[G]);
    cfg.enable_moe_block = true;
    cfg.num_experts = Some(2);
    cfg.top_k_experts = Some(3);
    cfg.moe_intermediate_size = Some(5);
    let mut m = build(&cfg);
    assert!(matches!(
        m.forward(&ids(&[&[1]]), 0),
        Err(ModelError::TopK { top_k: 3, experts: 2 })
    ));
}

fn why_not(cfg: &Gemma4TextConfig) -> ModelError {
    match build_in(cfg, DType::F32) {
        Err(e) => e,
        Ok(_) => panic!("not refused"),
    }
}

#[test]
fn settings_that_others_need_are_asked_for() {
    let mut cfg = config(&[S, G]);
    cfg.attention_k_eq_v = true;
    assert!(matches!(why_not(&cfg), ModelError::MissingSetting(Setting::NumGlobalKeyValueHeads)));
    assert_eq!(
        why_not(&cfg).text().unwrap(),
        "missing `num_global_key_value_heads` (required by `attention_k_eq_v` for full layers)"
    );
    cfg.num_global_key_value_heads = Some(0);
    assert!(matches!(why_not(&cfg), ModelError::NoKvHeads));
    let mut cfg = config(&[G]);
    cfg.enable_moe_block = true;
    assert_eq!(why_not(&cfg).text().unwrap(), "enable_moe_block requires num_experts");
    cfg.num_experts = Some(2);
    assert_eq!(why_not(&cfg).text().unwrap(), "enable_moe_block requires moe_intermediate_size");
    cfg.moe_intermediate_size = Some(2);
    assert_eq!(why_not(&cfg).text().unwrap(), "enable_moe_block requires top_k_experts");
}

#[test]
fn shapes_that_do_not_fit_are_refused() {
    let mut cfg = config(&[S, G]);
    let all = params(&cfg);
    cfg.layer_types.truncate(1);
    let inner = VarBuilder::from_tensors(all, DType::F32, &Device::Cpu);
    assert!(matches!(
        TextModel::new(&cfg, &Params::new(ParamStore { inner })),
        Err(ModelError::LayerTypes { entries: 1, layers: 2 })
    ));
    let mut cfg = config(&[G]);
    cfg.partial_rotary_factor = number(1.5);
    assert!(matches!(why_not(&cfg), ModelError::RotaryAngles { angles: 6, head_dim: 8 }));
    let mut cfg = config(&[G]);
    cfg.vocab_size = 11;
    let mut all = params(&config(&[G]));
    all.remove("norm.weight");
    let inner = VarBuilder::from_tensors(all, DType::F32, &Device::Cpu);
    assert!(matches!(
        TextModel::new(&config(&[G]), &Params::new(ParamStore { inner })),
        Err(ModelError::Candle(_))
    ));
    let inner = VarBuilder::from_tensors(params(&config(&[G])), DType::F32, &Device::Cpu);
    assert!(matches!(
        TextModel::new(&cfg, &Params::new(ParamStore { inner })),
        Err(ModelError::Candle(_))
    ));
}
