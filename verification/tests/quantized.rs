use candle_core::quantized::{GgmlDType, QMatMul, QTensor};
use candle_core::scalar::Scalar;
use candle_core::{DType, Device, Module, Tensor, D};
use gemma4::error::ModelError;
use gemma4::quantized_gemma4::config::GgufConfig;
use gemma4::quantized_gemma4::loader::Tensors;
use gemma4::quantized_gemma4::metadata::{MetaKey, MetaValue};
use gemma4::quantized_gemma4::wanted::names_read;
use gemma4::quantized_gemma4::{Gemma4KvCache, ModelWeights};
use gemma4::tensor::packed::{split_experts, PackedTensor};
use gemma4::tensor::{Number, Traced};
use std::sync::Arc;

const HIDDEN: usize = 32;
const VOCAB: usize = 8;
const HEADS: usize = 2;
const GLOBAL_DIM: usize = 32;
const LOCAL_DIM: usize = 16;
const INNER: usize = 32;
const PLE: usize = 32;
const EXPERTS: usize = 3;
const TOP_K: usize = 2;
const EPS: f32 = 1e-6;
const CAP: f32 = 3.0;

/// Entries between -1 and 1 that follow from a seed.
fn noise(seed: u64, n: usize) -> Vec<f32> {
    let mut x = seed.wrapping_mul(0x9e37_79b9_7f4a_7c15) | 1;
    let mut out = Vec::new();
    for _ in 0..n {
        x ^= x << 13;
        x ^= x >> 7;
        x ^= x << 17;
        out.push((x % 2001) as f32 / 1000.0 - 1.0);
    }
    out
}

fn seed_of(name: &str) -> u64 {
    let mut h: u64 = 1469598103934665603;
    for b in name.bytes() {
        h = (h ^ b as u64).wrapping_mul(1099511628211);
    }
    h
}

#[derive(Clone)]
struct Shape {
    sliding: Vec<bool>,
    kv_heads: Vec<usize>,
    shared: usize,
    window: usize,
    ple: bool,
    moe: bool,
    cap: bool,
    without_v: Vec<usize>,
    format: GgmlDType,
}

impl Shape {
    fn dense() -> Shape {
        Shape {
            sliding: vec![true, false],
            kv_heads: vec![1, 1],
            shared: 0,
            window: 3,
            ple: false,
            moe: false,
            cap: false,
            without_v: vec![],
            format: GgmlDType::F32,
        }
    }

    fn first_shared(&self) -> usize {
        self.sliding.len().saturating_sub(self.shared)
    }

    fn head_dim(&self, i: usize) -> usize {
        if self.sliding[i] {
            LOCAL_DIM
        } else {
            GLOBAL_DIM
        }
    }
}

/// A tensor with storage of its own.
fn fresh(t: &Tensor) -> Tensor {
    let flat = t.flatten_all().unwrap().to_vec1::<f32>().unwrap();
    Tensor::from_vec(flat, t.dims(), &Device::Cpu).unwrap()
}

fn make(name: &str, dims: &[usize], format: GgmlDType) -> (String, Arc<QTensor>) {
    let n: usize = dims.iter().product();
    let t = Tensor::from_vec(noise(seed_of(name), n), dims, &Device::Cpu).unwrap();
    let q = QTensor::quantize(&t, format).unwrap();
    (name.to_string(), Arc::new(q))
}

fn tensors(s: &Shape) -> Tensors {
    let f = GgmlDType::F32;
    let mut ts = vec![
        make("token_embd.weight", &[VOCAB, HIDDEN], s.format),
        make("output_norm.weight", &[HIDDEN], f),
    ];
    let layers = s.sliding.len();
    if s.ple {
        ts.push(make("per_layer_token_embd.weight", &[VOCAB, layers * PLE], s.format));
        ts.push(make("per_layer_model_proj.weight", &[layers * PLE, HIDDEN], s.format));
        ts.push(make("per_layer_proj_norm.weight", &[PLE], f));
    }
    for i in 0..layers {
        let d = s.head_dim(i);
        let mut add = |suffix: &str, dims: &[usize], format: GgmlDType| {
            ts.push(make(&format!("blk.{i}.{suffix}"), dims, format));
        };
        add("attn_q.weight", &[HEADS * d, HIDDEN], s.format);
        add("attn_output.weight", &[HIDDEN, HEADS * d], s.format);
        add("attn_q_norm.weight", &[d], f);
        if i < s.first_shared() {
            add("attn_k.weight", &[s.kv_heads[i] * d, HIDDEN], s.format);
            if !s.without_v.contains(&i) {
                add("attn_v.weight", &[s.kv_heads[i] * d, HIDDEN], s.format);
            }
            add("attn_k_norm.weight", &[d], f);
        }
        add("attn_norm.weight", &[HIDDEN], f);
        add("post_attention_norm.weight", &[HIDDEN], f);
        add("ffn_norm.weight", &[HIDDEN], f);
        add("post_ffw_norm.weight", &[HIDDEN], f);
        add("ffn_gate.weight", &[INNER, HIDDEN], s.format);
        add("ffn_up.weight", &[INNER, HIDDEN], s.format);
        add("ffn_down.weight", &[HIDDEN, INNER], s.format);
        add("layer_output_scale.weight", &[1], f);
        if s.ple {
            add("inp_gate.weight", &[PLE, HIDDEN], s.format);
            add("proj.weight", &[HIDDEN, PLE], s.format);
            add("post_norm.weight", &[HIDDEN], f);
        }
        if s.moe {
            add("ffn_gate_up_exps.weight", &[EXPERTS, 2 * INNER, HIDDEN], s.format);
            add("ffn_down_exps.weight", &[EXPERTS, HIDDEN, INNER], s.format);
            add("ffn_gate_inp.weight", &[EXPERTS, HIDDEN], f);
            add("ffn_gate_inp.scale", &[HIDDEN], f);
            add("ffn_down_exps.scale", &[EXPERTS], f);
            add("post_ffw_norm_1.weight", &[HIDDEN], f);
            add("post_ffw_norm_2.weight", &[HIDDEN], f);
            add("pre_ffw_norm_2.weight", &[HIDDEN], f);
        }
    }
    ts
}

fn number(x: f32) -> MetaValue {
    MetaValue::F32(Number::given(Scalar::from(x)))
}

fn metadata(s: &Shape) -> Vec<(String, MetaValue)> {
    let layers = s.sliding.len();
    let kv = s.kv_heads.iter().map(|&n| MetaValue::I32(n as i32)).collect();
    let pattern = s.sliding.iter().map(|&b| MetaValue::Bool(b)).collect();
    let mut md = vec![
        (MetaKey::HeadCount, MetaValue::U32(HEADS as u32)),
        (MetaKey::BlockCount, MetaValue::U32(layers as u32)),
        (MetaKey::HeadCountKv, MetaValue::Array(kv)),
        (MetaKey::EmbeddingLength, MetaValue::U32(HIDDEN as u32)),
        (MetaKey::KeyLength, MetaValue::U32(GLOBAL_DIM as u32)),
        (MetaKey::KeyLengthSwa, MetaValue::U32(LOCAL_DIM as u32)),
        (MetaKey::SharedKvLayers, MetaValue::U32(s.shared as u32)),
        (MetaKey::LayerNormRmsEpsilon, number(EPS)),
        (MetaKey::SlidingWindow, MetaValue::U32(s.window as u32)),
        (MetaKey::RopeFreqBase, number(1e6)),
        (MetaKey::RopeFreqBaseSwa, number(1e4)),
        (MetaKey::SlidingWindowPattern, MetaValue::Array(pattern)),
    ];
    if s.ple {
        md.push((MetaKey::EmbeddingLengthPerLayerInput, MetaValue::U32(PLE as u32)));
    }
    if s.moe {
        md.push((MetaKey::ExpertCount, MetaValue::U32(EXPERTS as u32)));
        md.push((MetaKey::ExpertUsedCount, MetaValue::U32(TOP_K as u32)));
    }
    if s.cap {
        md.push((MetaKey::FinalLogitSoftcapping, number(CAP)));
    }
    md.into_iter().map(|(k, v)| (k.as_str().to_string(), v)).collect()
}

fn load(s: &Shape) -> ModelWeights {
    match ModelWeights::from_gguf(&metadata(s), &tensors(s), &Device::Cpu) {
        Ok(m) => m,
        Err(e) => panic!("not loaded: {:?}", e.text()),
    }
}

fn ids(rows: &[&[u32]]) -> Traced {
    let flat: Vec<u32> = rows.iter().flat_map(|r| r.iter().copied()).collect();
    Traced::given(Tensor::from_vec(flat, (rows.len(), rows[0].len()), &Device::Cpu).unwrap())
}

fn values(r: Result<Traced, ModelError>) -> Vec<f32> {
    match r {
        Ok(t) => t.tensor().flatten_all().unwrap().to_vec1::<f32>().unwrap(),
        Err(e) => match e {
            ModelError::Candle(e) => panic!("candle: {e}"),
            e => panic!("failed: {:?}", e.text()),
        },
    }
}

// ── a second computation of the same model, straight on tensors ─────────────

struct Plain {
    s: Shape,
    ts: Tensors,
    cache: Vec<Option<(Tensor, Tensor)>>,
}

impl Plain {
    fn new(s: &Shape) -> Plain {
        Plain { s: s.clone(), ts: tensors(s), cache: vec![None; s.sliding.len()] }
    }

    fn q(&self, name: &str) -> Arc<QTensor> {
        self.ts.iter().find(|(n, _)| n == name).unwrap().1.clone()
    }

    fn mul(&self, name: &str, x: &Tensor) -> Tensor {
        QMatMul::from_arc(self.q(name)).unwrap().forward(x).unwrap()
    }

    fn w(&self, name: &str) -> Tensor {
        self.q(name).dequantize(&Device::Cpu).unwrap()
    }

    fn norm(&self, name: &str, x: &Tensor) -> Tensor {
        candle_nn::ops::rms_norm(&x.contiguous().unwrap(), &self.w(name), EPS).unwrap()
    }

    fn v_norm(v: &Tensor) -> Tensor {
        let ms = v.sqr().unwrap().mean_keepdim(D::Minus1).unwrap();
        v.broadcast_div(&(ms + EPS as f64).unwrap().sqrt().unwrap()).unwrap()
    }

    fn tables(&self, i: usize, pos: usize, len: usize) -> (Tensor, Tensor) {
        let d = self.s.head_dim(i);
        let (base, angles) = if self.s.sliding[i] { (1e4f32, d / 2) } else { (1e6f32, d / 8) };
        let mut rates = vec![0f32; d / 2];
        for (j, r) in rates.iter_mut().enumerate().take(angles) {
            *r = 1f32 / base.powf((2 * j) as f32 / d as f32);
        }
        let rates = Tensor::from_vec(rates, (1, d / 2), &Device::Cpu).unwrap();
        let t: Vec<f32> = (pos..pos + len).map(|p| p as f32).collect();
        let t = Tensor::from_vec(t, (len, 1), &Device::Cpu).unwrap();
        let a = t.matmul(&rates).unwrap();
        (a.cos().unwrap(), a.sin().unwrap())
    }

    fn mask(pos: usize, len: usize, kv: usize, window: Option<usize>, b: usize) -> Tensor {
        let start = pos + len - kv;
        let mut m = Vec::new();
        for i in 0..len {
            for c in 0..kv {
                let (q, j) = (pos + i, start + c);
                let out = j > q || window.is_some_and(|w| j + w < q);
                m.push(if out { f32::NEG_INFINITY } else { 0f32 });
            }
        }
        Tensor::from_vec(m, (len, kv), &Device::Cpu).unwrap().expand((b, 1, len, kv)).unwrap()
    }

    fn repeat(x: &Tensor, n: usize) -> Tensor {
        let (b, h, s, d) = x.dims4().unwrap();
        x.unsqueeze(2)
            .unwrap()
            .expand((b, h, n, s, d))
            .unwrap()
            .reshape((b, h * n, s, d))
            .unwrap()
            .contiguous()
            .unwrap()
    }

    fn experts(&self, p: &str, flat: &Tensor) -> Tensor {
        let h = Self::v_norm(flat).broadcast_mul(&self.w(&format!("{p}ffn_gate_inp.scale"))).unwrap();
        let h = (h * (HIDDEN as f64).powf(-0.5)).unwrap();
        let scores = h.matmul(&self.w(&format!("{p}ffn_gate_inp.weight")).t().unwrap()).unwrap();
        let probs: Vec<Vec<f32>> = candle_nn::ops::softmax_last_dim(&scores).unwrap().to_vec2().unwrap();
        let scales: Vec<f32> = self.w(&format!("{p}ffn_down_exps.scale")).to_vec1().unwrap();
        let up = self.w(&format!("{p}ffn_gate_up_exps.weight"));
        let down = self.w(&format!("{p}ffn_down_exps.weight"));
        let x = self.norm(&format!("{p}pre_ffw_norm_2.weight"), flat);
        let mut rows = Vec::new();
        for (n, row) in probs.iter().enumerate() {
            let mut order: Vec<usize> = (0..row.len()).collect();
            order.sort_by(|&a, &b| row[b].total_cmp(&row[a]));
            let top = &order[..TOP_K];
            let sum: f32 = top.iter().map(|&e| row[e]).sum();
            let x = x.narrow(0, n, 1).unwrap();
            let mut acc: Option<Tensor> = None;
            for &e in top {
                let q = |t: &Tensor| {
                    let q = QTensor::quantize(&fresh(&t.get(e).unwrap()), self.s.format).unwrap();
                    QMatMul::from_arc(Arc::new(q)).unwrap()
                };
                let y = q(&up).forward(&x).unwrap();
                let gate = y.narrow(1, 0, INNER).unwrap().gelu().unwrap();
                let z = q(&down).forward(&(gate * y.narrow(1, INNER, INNER).unwrap()).unwrap()).unwrap();
                let z = (z * (row[e] / sum * scales[e]) as f64).unwrap();
                acc = Some(match acc {
                    None => z,
                    Some(a) => (a + z).unwrap(),
                });
            }
            rows.push(acc.unwrap());
        }
        Tensor::cat(&rows, 0).unwrap()
    }

    fn forward(&mut self, x: &Tensor, pos: usize) -> Vec<f32> {
        let (b, len) = x.dims2().unwrap();
        let layers = self.s.sliding.len();
        if pos == 0 {
            self.cache = vec![None; layers];
        }
        let mut xs = (self.q("token_embd.weight").embedding(x).unwrap() * (HIDDEN as f64).sqrt()).unwrap();
        let inputs = self.s.ple.then(|| {
            let p = (self.mul("per_layer_model_proj.weight", &xs) * (1.0 / (HIDDEN as f64).sqrt())).unwrap();
            let p = p.reshape((b, len, layers, PLE)).unwrap();
            let p = self.norm("per_layer_proj_norm.weight", &p);
            let e = (self.q("per_layer_token_embd.weight").embedding(x).unwrap() * (PLE as f64).sqrt()).unwrap();
            let e = e.reshape((b, len, layers, PLE)).unwrap();
            ((p + e).unwrap() * (1.0 / 2.0f64.sqrt())).unwrap()
        });
        let mut aside: [Option<(Tensor, Tensor)>; 2] = [None, None];
        for i in 0..layers {
            let p = format!("blk.{i}.");
            let sliding = self.s.sliding[i];
            let d = self.s.head_dim(i);
            let kind = sliding as usize;
            let window = sliding.then_some(self.s.window);
            let h = self.norm(&format!("{p}attn_norm.weight"), &xs);
            let heads = |t: Tensor, n: usize| {
                t.reshape((b, len, n, d)).unwrap().transpose(1, 2).unwrap().contiguous().unwrap()
            };
            let (cos, sin) = self.tables(i, pos, len);
            let q = heads(self.mul(&format!("{p}attn_q.weight"), &h), HEADS);
            let q = self.norm(&format!("{p}attn_q_norm.weight"), &q);
            let q = candle_nn::rotary_emb::rope(&q, &cos, &sin).unwrap();
            let (k, v) = if i < self.s.first_shared() {
                let n = self.s.kv_heads[i];
                let k = self.mul(&format!("{p}attn_k.weight"), &h);
                let v = if self.s.without_v.contains(&i) {
                    k.clone()
                } else {
                    self.mul(&format!("{p}attn_v.weight"), &h)
                };
                let k = self.norm(&format!("{p}attn_k_norm.weight"), &heads(k, n));
                let k = candle_nn::rotary_emb::rope(&k, &cos, &sin).unwrap();
                let v = Self::v_norm(&heads(v, n));
                let (k, v) = match &self.cache[i] {
                    Some((ck, cv)) => (Tensor::cat(&[ck, &k], 2).unwrap(), Tensor::cat(&[cv, &v], 2).unwrap()),
                    None => (k, v),
                };
                let n = k.dim(2).unwrap();
                self.cache[i] = Some(match window {
                    Some(w) if n > w => (
                        k.narrow(2, n - w, w).unwrap().contiguous().unwrap(),
                        v.narrow(2, n - w, w).unwrap().contiguous().unwrap(),
                    ),
                    _ => (k.clone(), v.clone()),
                });
                aside[kind] = Some((k.clone(), v.clone()));
                (k, v)
            } else {
                aside[kind].clone().unwrap()
            };
            let n_rep = HEADS / self.s.kv_heads[i];
            let (k, v) = (Self::repeat(&k, n_rep), Self::repeat(&v, n_rep));
            let mut scores = q.matmul(&k.transpose(2, 3).unwrap()).unwrap();
            if len > 1 {
                let kv = k.dim(2).unwrap();
                scores = scores.broadcast_add(&Self::mask(pos, len, kv, window, b)).unwrap();
            }
            let a = candle_nn::ops::softmax_last_dim(&scores).unwrap().matmul(&v).unwrap();
            let a = a.transpose(1, 2).unwrap().reshape((b, len, HEADS * d)).unwrap();
            let a = self.mul(&format!("{p}attn_output.weight"), &a);
            let a = (self.norm(&format!("{p}post_attention_norm.weight"), &a) + &xs).unwrap();
            let m = self.norm(&format!("{p}ffn_norm.weight"), &a);
            let gate = self.mul(&format!("{p}ffn_gate.weight"), &m).gelu().unwrap();
            let up = self.mul(&format!("{p}ffn_up.weight"), &m);
            let mut m = self.mul(&format!("{p}ffn_down.weight"), &(gate * up).unwrap());
            if self.s.moe {
                let h1 = self.norm(&format!("{p}post_ffw_norm_1.weight"), &m);
                let flat = a.reshape((b * len, HIDDEN)).unwrap();
                let h2 = self.experts(&p, &flat).reshape((b, len, HIDDEN)).unwrap();
                let h2 = self.norm(&format!("{p}post_ffw_norm_2.weight"), &h2);
                m = (h1 + h2).unwrap();
            }
            let m = self.norm(&format!("{p}post_ffw_norm.weight"), &m);
            let mut out = (a + m).unwrap();
            if let Some(inputs) = &inputs {
                let slice = inputs.get_on_dim(2, i).unwrap();
                let g = self.mul(&format!("{p}inp_gate.weight"), &out).gelu().unwrap();
                let g = self.mul(&format!("{p}proj.weight"), &(g * slice).unwrap());
                out = (&out + self.norm(&format!("{p}post_norm.weight"), &g)).unwrap();
            }
            xs = out.broadcast_mul(&self.w(&format!("{p}layer_output_scale.weight"))).unwrap();
        }
        let last = self.norm("output_norm.weight", &xs.narrow(1, len - 1, 1).unwrap());
        let mut logits = self.mul("token_embd.weight", &last);
        if self.s.cap {
            logits = ((logits / CAP as f64).unwrap().tanh().unwrap() * CAP as f64).unwrap();
        }
        logits.flatten_all().unwrap().to_vec1().unwrap()
    }
}

fn close(a: &[f32], b: &[f32]) {
    assert_eq!(a.len(), b.len());
    for (x, y) in a.iter().zip(b) {
        assert!((x - y).abs() <= 1e-4 * (1.0 + y.abs()), "{a:?} is not {b:?}");
    }
}

/// Runs a prompt and some single steps on both.
fn compare(s: &Shape, rows: &[&[u32]], steps: &[u32]) {
    let mut m = load(s);
    let mut plain = Plain::new(s);
    let x = ids(rows);
    close(&values(m.forward(&x, 0)), &plain.forward(x.tensor(), 0));
    let mut pos = rows[0].len();
    for &t in steps {
        let row = [t];
        let next: Vec<&[u32]> = rows.iter().map(|_| &row[..]).collect();
        let x = ids(&next);
        close(&values(m.forward(&x, pos)), &plain.forward(x.tensor(), pos));
        pos += 1;
    }
}

#[test]
fn dense_model_matches_plain_tensors() {
    compare(&Shape::dense(), &[&[1, 2, 3, 4, 5]], &[6, 7, 0, 1, 2]);
}

#[test]
fn packed_formats_match_plain_tensors() {
    let s = Shape { format: GgmlDType::Q8_0, ..Shape::dense() };
    compare(&s, &[&[1, 2, 3]], &[4, 5]);
}

#[test]
fn batches_match_plain_tensors() {
    compare(&Shape::dense(), &[&[1, 2, 3], &[4, 0, 7]], &[6, 2]);
}

#[test]
fn soft_cap_bounds_the_logits() {
    let s = Shape { cap: true, ..Shape::dense() };
    compare(&s, &[&[1, 2, 3]], &[4]);
    let mut m = load(&s);
    let logits = values(m.forward(&ids(&[&[1, 2, 3]]), 0));
    assert_eq!(logits.len(), VOCAB);
    assert!(logits.iter().all(|l| l.abs() <= CAP));
    let mut open = load(&Shape::dense());
    let free = values(open.forward(&ids(&[&[1, 2, 3]]), 0));
    assert!(free.iter().any(|l| l.abs() > CAP));
}

#[test]
fn values_share_the_keys_projection_without_one_of_their_own() {
    let s = Shape { without_v: vec![1], ..Shape::dense() };
    compare(&s, &[&[1, 2, 3]], &[4, 5]);
}

#[test]
fn layers_share_the_keys_of_the_last_of_their_kind() {
    let s = Shape {
        sliding: vec![true, false, true, false, true],
        kv_heads: vec![1, 1, 2, 2, 2],
        shared: 1,
        ..Shape::dense()
    };
    compare(&s, &[&[1, 2, 3, 4]], &[5, 6, 7]);
    let mut m = load(&s);
    let mut lane = Gemma4KvCache::new();
    values(m.forward_with_cache(&ids(&[&[1, 2, 3, 4]]), 0, &mut lane));
    assert!(lane.layers()[3].is_some());
    assert!(lane.layers()[4].is_none());
    values(m.forward(&ids(&[&[1]]), 0));
}

#[test]
fn per_layer_inputs_match_plain_tensors() {
    let s = Shape { ple: true, ..Shape::dense() };
    compare(&s, &[&[1, 2, 3]], &[4, 5]);
}

#[test]
fn experts_match_plain_tensors() {
    let s = Shape { moe: true, ..Shape::dense() };
    compare(&s, &[&[1, 2, 3]], &[4, 5]);
    let packed = Shape { moe: true, format: GgmlDType::Q8_0, ..Shape::dense() };
    compare(&packed, &[&[1, 2, 3]], &[4]);
}

#[test]
fn everything_together_matches_plain_tensors() {
    let s = Shape {
        sliding: vec![true, false, true, false],
        kv_heads: vec![2, 1, 2, 1],
        shared: 2,
        ple: true,
        moe: true,
        cap: true,
        ..Shape::dense()
    };
    compare(&s, &[&[1, 2, 3, 4, 5]], &[6, 7]);
}

#[test]
fn a_chunk_gives_what_single_steps_give() {
    let s = Shape::dense();
    let mut a = load(&s);
    let mut b = load(&s);
    values(a.forward(&ids(&[&[1, 2]]), 0));
    let chunk = values(a.forward(&ids(&[&[3, 4, 5, 6]]), 2));
    values(b.forward(&ids(&[&[1, 2]]), 0));
    let mut last = Vec::new();
    for (i, t) in [3u32, 4, 5, 6].iter().enumerate() {
        last = values(b.forward(&ids(&[&[*t]]), 2 + i));
    }
    close(&chunk, &last);
}

#[test]
fn every_cut_of_a_prompt_leaves_a_lane_of_the_same_shapes() {
    let m = load(&Shape::dense());
    let prompt = [1u32, 2, 3, 4, 5, 6, 7];
    let mut whole = Gemma4KvCache::new();
    let wanted = values(m.forward_with_cache(&ids(&[&prompt]), 0, &mut whole));
    for cuts in [vec![1, 7], vec![3, 5, 7], vec![6, 7], vec![1, 2, 3, 4, 5, 6, 7]] {
        let mut lane = Gemma4KvCache::new();
        let mut from = 0;
        let mut last = Vec::new();
        for to in cuts {
            last = values(m.forward_with_cache(&ids(&[&prompt[from..to]]), from, &mut lane));
            from = to;
        }
        assert_eq!(lane.pos(), whole.pos());
        for (a, b) in lane.layers().iter().zip(whole.layers()) {
            let ((ka, va), (kb, vb)) = (a.as_ref().unwrap(), b.as_ref().unwrap());
            assert_eq!(ka.shape(), kb.shape());
            assert_eq!(va.shape(), vb.shape());
        }
        close(&last, &wanted);
    }
}

#[test]
fn sliding_lanes_hold_the_window_and_global_ones_everything() {
    let m = load(&Shape::dense());
    let mut lane = Gemma4KvCache::default();
    assert_eq!(lane.pos(), 0);
    assert_eq!(lane.layers().len(), 0);
    values(m.forward_with_cache(&ids(&[&[1, 2, 3, 4, 5]]), 0, &mut lane));
    values(m.forward_with_cache(&ids(&[&[6]]), 5, &mut lane));
    assert_eq!(lane.pos(), 6);
    let k = |i: usize| lane.layers()[i].as_ref().unwrap().0.shape();
    assert_eq!(k(0), vec![1, 1, 3, LOCAL_DIM]);
    assert_eq!(k(1), vec![1, 1, 6, GLOBAL_DIM]);
    assert!(m.is_sliding(0));
    assert!(!m.is_sliding(1));
    assert!(!m.is_sliding(2));
    assert_eq!(m.sliding_window(), 3);
}

#[test]
fn lanes_do_not_disturb_each_other() {
    let m = load(&Shape::dense());
    let mut a = Gemma4KvCache::new();
    let mut b = Gemma4KvCache::new();
    let alone = {
        let mut lane = Gemma4KvCache::new();
        values(m.forward_with_cache(&ids(&[&[1, 2, 3]]), 0, &mut lane));
        values(m.forward_with_cache(&ids(&[&[4]]), 3, &mut lane))
    };
    values(m.forward_with_cache(&ids(&[&[1, 2, 3]]), 0, &mut a));
    values(m.forward_with_cache(&ids(&[&[7, 6]]), 0, &mut b));
    assert_eq!(values(m.forward_with_cache(&ids(&[&[4]]), 3, &mut a)), alone);
}

#[test]
fn a_clone_of_a_lane_gives_what_its_source_gives() {
    let m = load(&Shape::dense());
    let mut lane = Gemma4KvCache::new();
    values(m.forward_with_cache(&ids(&[&[1, 2, 3]]), 0, &mut lane));
    let mut fork = lane.clone();
    assert_eq!(fork.pos(), 3);
    let a = values(m.forward_with_cache(&ids(&[&[4]]), 3, &mut lane));
    let b = values(m.forward_with_cache(&ids(&[&[4]]), 3, &mut fork));
    assert_eq!(a, b);
    values(m.forward_with_cache(&ids(&[&[5]]), 4, &mut lane));
    assert_eq!(lane.pos(), 5);
    assert_eq!(fork.pos(), 4);
}

#[test]
fn a_fresh_pass_forgets_the_lane() {
    let mut m = load(&Shape::dense());
    let first = values(m.forward(&ids(&[&[1, 2, 3]]), 0));
    values(m.forward(&ids(&[&[4]]), 3));
    assert_eq!(values(m.forward(&ids(&[&[1, 2, 3]]), 0)), first);
    m.clear_kv_cache();
    assert_eq!(values(m.forward(&ids(&[&[1, 2, 3]]), 0)), first);
}

#[test]
fn a_drifted_position_is_refused() {
    let m = load(&Shape::dense());
    let mut lane = Gemma4KvCache::new();
    values(m.forward_with_cache(&ids(&[&[1, 2, 3]]), 0, &mut lane));
    match m.forward_with_cache(&ids(&[&[4]]), 2, &mut lane) {
        Err(e) => assert_eq!(
            e.text().unwrap(),
            "cache position drift: forward at index_pos 2 but the cache is at 3"
        ),
        Ok(_) => panic!("not refused"),
    }
    assert_eq!(lane.pos(), 3);
    let k = |i: usize| lane.layers()[i].as_ref().unwrap().0.shape();
    assert_eq!(k(0), vec![1, 1, 3, LOCAL_DIM]);
    assert_eq!(k(1), vec![1, 1, 3, GLOBAL_DIM]);
    let mut empty = Gemma4KvCache::new();
    assert!(m.forward_with_cache(&ids(&[&[4]]), 2, &mut empty).is_err());
    assert_eq!(empty.pos(), 0);
    assert_eq!(empty.layers().len(), 2);
    assert!(empty.layers().iter().all(|slot| slot.is_none()));
    lane.set_pos(2);
    assert_eq!(lane.pos(), 2);
    let trimmed = match &lane.layers()[1] {
        Some((k, v)) => (
            Traced::given(k.tensor().narrow(2, 0, 2).unwrap()),
            Traced::given(v.tensor().narrow(2, 0, 2).unwrap()),
        ),
        None => panic!("no entry"),
    };
    lane.layers_mut()[1] = Some(trimmed);
    assert_eq!(lane.layers()[1].as_ref().unwrap().0.shape()[2], 2);
    values(m.forward_with_cache(&ids(&[&[4]]), 2, &mut lane));
    assert_eq!(lane.pos(), 3);
    lane.reset();
    assert_eq!(lane.pos(), 0);
    assert!(lane.layers().iter().all(|slot| slot.is_none()));
}

#[test]
fn a_lane_of_another_model_is_refused() {
    let m = load(&Shape::dense());
    let other = load(&Shape { sliding: vec![false], kv_heads: vec![1], ..Shape::dense() });
    let mut lane = Gemma4KvCache::new();
    values(other.forward_with_cache(&ids(&[&[1]]), 0, &mut lane));
    match m.forward_with_cache(&ids(&[&[1]]), 0, &mut lane) {
        Err(e) => assert_eq!(e.text().unwrap(), "cache has 1 layers but the model has 2"),
        Ok(_) => panic!("not refused"),
    }
    assert_eq!(lane.pos(), 1);
}

#[test]
fn inputs_without_positions_or_rows_are_refused() {
    let m = load(&Shape::dense());
    let mut lane = Gemma4KvCache::new();
    let none = Traced::given(Tensor::zeros((1, 0), DType::U32, &Device::Cpu).unwrap());
    assert!(matches!(m.forward_with_cache(&none, 0, &mut lane), Err(ModelError::EmptyInput)));
    let flat = Traced::given(Tensor::zeros(3, DType::U32, &Device::Cpu).unwrap());
    assert!(matches!(
        m.forward_with_cache(&flat, 0, &mut lane),
        Err(ModelError::Rank { expected: 2, got: 1 })
    ));
    assert!(matches!(
        m.forward_with_cache(&ids(&[&[1]]), usize::MAX, &mut lane),
        Err(ModelError::ShapeTooLarge)
    ));
    assert_eq!(lane.layers().len(), 0);
    let wrong = Traced::given(Tensor::from_vec(vec![VOCAB as u32], (1, 1), &Device::Cpu).unwrap());
    assert!(matches!(m.forward_with_cache(&wrong, 0, &mut lane), Err(ModelError::Candle(_))));
}

#[test]
fn a_layer_without_key_heads_is_refused() {
    let s = Shape { kv_heads: vec![1, 0], without_v: vec![1], ..Shape::dense() };
    let mut ts = tensors(&Shape::dense());
    ts.retain(|(n, _)| n != "blk.1.attn_v.weight");
    let mut m = match ModelWeights::from_gguf(&metadata(&s), &ts, &Device::Cpu) {
        Ok(m) => m,
        Err(_) => panic!("not loaded"),
    };
    assert!(matches!(m.forward(&ids(&[&[1]]), 0), Err(ModelError::NoKvHeads)));
}

#[test]
fn a_layer_whose_donor_is_missing_is_refused() {
    let s = Shape {
        sliding: vec![true, false],
        kv_heads: vec![1, 1],
        shared: 1,
        ..Shape::dense()
    };
    let mut m = load(&s);
    match m.forward(&ids(&[&[1]]), 0) {
        Err(e) => assert_eq!(e.text().unwrap(), "shared-KV layer reached before its donor layer"),
        Ok(_) => panic!("not refused"),
    }
}

#[test]
fn more_picks_than_experts_are_refused() {
    let s = Shape { moe: true, ..Shape::dense() };
    let mut md = metadata(&s);
    for (k, v) in md.iter_mut() {
        if k == MetaKey::ExpertUsedCount.as_str() {
            *v = MetaValue::U32(4);
        }
    }
    let mut m = match ModelWeights::from_gguf(&md, &tensors(&s), &Device::Cpu) {
        Ok(m) => m,
        Err(_) => panic!("not loaded"),
    };
    assert!(matches!(
        m.forward(&ids(&[&[1]]), 0),
        Err(ModelError::TopK { top_k: 4, experts: EXPERTS })
    ));
}

#[test]
fn an_expert_that_is_not_there_is_refused() {
    let s = Shape { moe: true, ..Shape::dense() };
    let mut ts = tensors(&s);
    for (n, q) in ts.iter_mut() {
        if n.ends_with("ffn_gate_up_exps.weight") {
            let t = q.dequantize(&Device::Cpu).unwrap().narrow(0, 0, 1).unwrap();
            *q = Arc::new(QTensor::quantize(&fresh(&t), GgmlDType::F32).unwrap());
        }
    }
    let mut m = match ModelWeights::from_gguf(&metadata(&s), &ts, &Device::Cpu) {
        Ok(m) => m,
        Err(_) => panic!("not loaded"),
    };
    assert!(matches!(
        m.forward(&ids(&[&[1, 2, 3]]), 0),
        Err(ModelError::ExpertMissing { experts: 1, .. })
    ));
}

#[test]
fn a_norm_of_another_length_is_refused() {
    let mut ts = tensors(&Shape::dense());
    for (n, q) in ts.iter_mut() {
        if n == "blk.0.attn_norm.weight" {
            *q = make(n, &[HIDDEN / 2], GgmlDType::F32).1;
        }
    }
    let mut m = match ModelWeights::from_gguf(&metadata(&Shape::dense()), &ts, &Device::Cpu) {
        Ok(m) => m,
        Err(_) => panic!("not loaded"),
    };
    match m.forward(&ids(&[&[1]]), 0) {
        Err(ModelError::Candle(e)) => assert!(e.to_string().contains("shape mismatch in rms-norm")),
        _ => panic!("not refused"),
    }
}

fn refusal(md: &Vec<(String, MetaValue)>, ts: &Tensors) -> String {
    match ModelWeights::from_gguf(md, ts, &Device::Cpu) {
        Err(e) => e.text().unwrap(),
        Ok(_) => panic!("not refused"),
    }
}

#[test]
fn every_needed_key_is_asked_for() {
    let s = Shape::dense();
    let ts = tensors(&s);
    for key in [
        MetaKey::HeadCount,
        MetaKey::BlockCount,
        MetaKey::HeadCountKv,
        MetaKey::EmbeddingLength,
        MetaKey::KeyLength,
        MetaKey::KeyLengthSwa,
        MetaKey::SharedKvLayers,
        MetaKey::LayerNormRmsEpsilon,
        MetaKey::SlidingWindow,
        MetaKey::RopeFreqBase,
        MetaKey::RopeFreqBaseSwa,
        MetaKey::SlidingWindowPattern,
    ] {
        let mut md = metadata(&s);
        md.retain(|(k, _)| k != key.as_str());
        assert_eq!(refusal(&md, &ts), format!("cannot find {} in metadata", key.as_str()));
        md.push((key.as_str().to_string(), MetaValue::Other));
        assert!(matches!(
            ModelWeights::from_gguf(&md, &ts, &Device::Cpu),
            Err(ModelError::MetadataType(k)) if k == key
        ));
    }
}

#[test]
fn one_count_of_key_heads_serves_all_layers() {
    let s = Shape::dense();
    let mut md = metadata(&s);
    for (k, v) in md.iter_mut() {
        if k == MetaKey::HeadCountKv.as_str() {
            *v = MetaValue::U32(1);
        }
    }
    let mut a = match ModelWeights::from_gguf(&md, &tensors(&s), &Device::Cpu) {
        Ok(m) => m,
        Err(_) => panic!("not loaded"),
    };
    let mut b = load(&s);
    let x = ids(&[&[1, 2, 3]]);
    assert_eq!(values(a.forward(&x, 0)), values(b.forward(&x, 0)));
}

#[test]
fn lists_of_another_length_than_the_layers_are_refused() {
    let s = Shape::dense();
    let ts = tensors(&s);
    let md = metadata(&Shape { kv_heads: vec![1, 1, 1], ..s.clone() });
    assert_eq!(refusal(&md, &ts), "head_count_kv has 3 entries for 2 layers");
    let mut md = metadata(&s);
    for (k, v) in md.iter_mut() {
        if k == MetaKey::SlidingWindowPattern.as_str() {
            *v = MetaValue::Array(vec![MetaValue::Bool(true)]);
        }
    }
    assert_eq!(refusal(&md, &ts), "sliding_window_pattern has 1 entries for 2 layers");
    let moe = Shape { moe: true, ..s };
    let mut md = metadata(&moe);
    for (k, v) in md.iter_mut() {
        if k == MetaKey::ExpertCount.as_str() {
            *v = MetaValue::U32(5);
        }
    }
    assert_eq!(refusal(&md, &tensors(&moe)), "per-expert scale has 3 entries for 5 experts");
}

#[test]
fn every_needed_tensor_is_asked_for() {
    let s = Shape { ple: true, moe: true, ..Shape::dense() };
    let md = metadata(&s);
    let all = tensors(&s);
    let names: Vec<String> = all.iter().map(|(n, _)| n.clone()).collect();
    for name in names {
        let mut ts = tensors(&s);
        ts.retain(|(n, _)| *n != name);
        if name.ends_with("attn_v.weight") {
            assert!(ModelWeights::from_gguf(&md, &ts, &Device::Cpu).is_ok());
        } else {
            assert_eq!(refusal(&md, &ts), format!("cannot find tensor info for {name}"));
        }
    }
}

#[test]
fn stacks_are_split_into_their_matrices() {
    let dims = [3usize, 2, 64];
    let t = Tensor::from_vec(noise(7, 3 * 2 * 64), &dims[..], &Device::Cpu).unwrap();
    for format in [GgmlDType::F32, GgmlDType::F16, GgmlDType::Q8_0, GgmlDType::Q4_0] {
        let q = Arc::new(QTensor::quantize(&t, format).unwrap());
        let packed = match PackedTensor::new(q) {
            Ok(p) => p,
            Err(_) => panic!("refused"),
        };
        let parts = match split_experts(&packed, &Device::Cpu) {
            Ok(p) => p,
            Err(_) => panic!("not split"),
        };
        assert_eq!(parts.len(), 3);
    }
    let flat = Arc::new(QTensor::quantize(&fresh(&t.get(0).unwrap()), GgmlDType::F32).unwrap());
    match PackedTensor::new(flat) {
        Ok(p) => assert!(matches!(
            split_experts(&p, &Device::Cpu),
            Err(ModelError::Rank { expected: 3, got: 2 })
        )),
        Err(_) => panic!("refused"),
    }
}

fn load_from(md: &Vec<(String, MetaValue)>, ts: &Tensors) -> ModelWeights {
    match ModelWeights::from_gguf(md, ts, &Device::Cpu) {
        Ok(m) => m,
        Err(e) => panic!("not loaded: {:?}", e.text()),
    }
}

#[test]
fn sharing_layers_need_no_keys_of_their_own() {
    let s = Shape {
        sliding: vec![true, false, true, false],
        kv_heads: vec![1, 1, 1, 1],
        shared: 2,
        ..Shape::dense()
    };
    let md = metadata(&s);
    let without = tensors(&s);
    let mut with = tensors(&s);
    for i in 2..4 {
        let d = s.head_dim(i);
        with.push(make(&format!("blk.{i}.attn_k.weight"), &[d, HIDDEN], s.format));
        with.push(make(&format!("blk.{i}.attn_v.weight"), &[d, HIDDEN], s.format));
        with.push(make(&format!("blk.{i}.attn_k_norm.weight"), &[d], s.format));
    }
    let x = ids(&[&[1, 2, 3]]);
    let mut a = load_from(&md, &with);
    let mut b = load_from(&md, &without);
    assert_eq!(values(a.forward(&x, 0)), values(b.forward(&x, 0)));
    for name in ["blk.1.attn_k.weight", "blk.1.attn_k_norm.weight"] {
        let mut ts = tensors(&s);
        ts.retain(|(n, _)| n != name);
        assert_eq!(refusal(&md, &ts), format!("cannot find tensor info for {name}"));
    }
}

#[test]
fn tensors_that_no_layer_reads_do_not_matter() {
    let s = Shape::dense();
    let md = metadata(&s);
    let x = ids(&[&[1, 2, 3]]);
    let mut more = tensors(&s);
    more.push(make("blk.0.ffn_gate_up_exps.weight", &[HIDDEN], s.format));
    more.push(make("blk.0.inp_gate.weight", &[HIDDEN], s.format));
    more.push(make("blk.7.attn_q.weight", &[HIDDEN], s.format));
    more.push(make("per_layer_token_embd.weight", &[HIDDEN], s.format));
    let mut a = load_from(&md, &more);
    let mut b = load(&s);
    assert_eq!(values(a.forward(&x, 0)), values(b.forward(&x, 0)));
    let mut one_key = metadata(&s);
    one_key.push((MetaKey::ExpertCount.as_str().to_string(), MetaValue::U32(3)));
    let mut c = load_from(&one_key, &tensors(&s));
    assert_eq!(values(c.forward(&x, 0)), values(b.forward(&x, 0)));
}

#[test]
fn counts_of_key_heads_may_be_written_in_three_ways() {
    let s = Shape::dense();
    let ts = tensors(&s);
    let x = ids(&[&[1, 2, 3]]);
    let forms = [
        MetaValue::U32(1),
        MetaValue::Array(vec![MetaValue::U32(1), MetaValue::U32(1)]),
        MetaValue::Array(vec![MetaValue::I32(1), MetaValue::I32(1)]),
    ];
    let mut results = Vec::new();
    for form in forms {
        let mut md = metadata(&s);
        md.retain(|(k, _)| k != MetaKey::HeadCountKv.as_str());
        md.push((MetaKey::HeadCountKv.as_str().to_string(), form));
        let mut m = load_from(&md, &ts);
        results.push(values(m.forward(&x, 0)));
    }
    assert_eq!(results[0], results[1]);
    assert_eq!(results[1], results[2]);
}

#[test]
fn a_missing_value_projection_is_that_of_the_keys() {
    let s = Shape { without_v: vec![0, 1], ..Shape::dense() };
    let md = metadata(&s);
    let mut copied = tensors(&s);
    for i in 0..2 {
        let of = format!("blk.{i}.attn_k.weight");
        let k = copied.iter().find(|(n, _)| *n == of).unwrap().1.clone();
        copied.push((format!("blk.{i}.attn_v.weight"), k));
    }
    let x = ids(&[&[1, 2, 3]]);
    let mut a = load(&s);
    let mut b = load_from(&md, &copied);
    assert_eq!(values(a.forward(&x, 0)), values(b.forward(&x, 0)));
}

#[test]
fn lanes_have_batch_heads_positions_and_head_size() {
    let s = Shape { kv_heads: vec![2, 1], ..Shape::dense() };
    let m = load(&s);
    let mut lane = Gemma4KvCache::new();
    values(m.forward_with_cache(&ids(&[&[1, 2], &[3, 4]]), 0, &mut lane));
    values(m.forward_with_cache(&ids(&[&[5, 6], &[7, 0]]), 2, &mut lane));
    for (i, dims) in [vec![2, 2, 3, LOCAL_DIM], vec![2, 1, 4, GLOBAL_DIM]].iter().enumerate() {
        let (k, v) = lane.layers()[i].as_ref().unwrap();
        assert_eq!(k.shape(), *dims);
        assert_eq!(v.shape(), *dims);
    }
}

#[test]
fn logits_are_those_of_the_last_position() {
    let mut m = load(&Shape::dense());
    match m.forward(&ids(&[&[1, 2, 3], &[4, 5, 6]]), 0) {
        Ok(t) => assert_eq!(t.shape(), vec![2, 1, VOCAB]),
        Err(_) => panic!("refused"),
    }
}

#[test]
fn the_model_s_own_lane_is_a_lane_like_any_other() {
    let mut m = load(&Shape::dense());
    let other = load(&Shape::dense());
    let mut lane = Gemma4KvCache::new();
    for (i, row) in [&[1u32, 2][..], &[3], &[4, 5]].iter().enumerate() {
        let at = [0, 2, 3][i];
        let own = values(m.forward(&ids(&[row]), at));
        assert_eq!(own, values(other.forward_with_cache(&ids(&[row]), at, &mut lane)));
    }
}

#[test]
fn a_clone_of_a_model_goes_its_own_way() {
    let mut a = load(&Shape { moe: true, ..Shape::dense() });
    values(a.forward(&ids(&[&[1, 2, 3]]), 0));
    let mut b = a.clone();
    let next = ids(&[&[4]]);
    assert_eq!(values(a.forward(&next, 3)), values(b.forward(&next, 3)));
    values(a.forward(&ids(&[&[5]]), 4));
    assert!(matches!(
        b.forward(&next, 5),
        Err(ModelError::PositionDrift { index_pos: 5, pos: 4 })
    ));
    values(b.forward(&next, 4));
}

#[test]
fn the_names_that_are_read_are_those_of_the_file() {
    let full = Shape {
        sliding: vec![true, false, true, false],
        kv_heads: vec![1, 1, 1, 1],
        shared: 2,
        ple: true,
        moe: true,
        ..Shape::dense()
    };
    for s in [full, Shape::dense()] {
        let cfg = match GgufConfig::from_metadata(&metadata(&s)) {
            Ok(cfg) => cfg,
            Err(_) => panic!("refused"),
        };
        let mut read = names_read(&cfg);
        let mut held: Vec<String> = tensors(&s).into_iter().map(|(n, _)| n).collect();
        read.sort();
        held.sort();
        assert_eq!(read, held);
    }
}

#[test]
fn a_failed_pass_leaves_later_layers_as_they_were() {
    let s = Shape { sliding: vec![true, false], kv_heads: vec![1, 0], ..Shape::dense() };
    let md = metadata(&s);
    let mut ts = tensors(&s);
    ts.retain(|(n, _)| !n.starts_with("blk.1.attn_k") && !n.starts_with("blk.1.attn_v"));
    ts.push(make("blk.1.attn_k.weight", &[GLOBAL_DIM, HIDDEN], s.format));
    ts.push(make("blk.1.attn_k_norm.weight", &[GLOBAL_DIM], s.format));
    let m = load_from(&md, &ts);
    let mut lane = Gemma4KvCache::new();
    assert!(matches!(
        m.forward_with_cache(&ids(&[&[1, 2]]), 0, &mut lane),
        Err(ModelError::NoKvHeads)
    ));
    assert_eq!(lane.pos(), 0);
    assert!(lane.layers()[0].is_some());
    assert!(lane.layers()[1].is_none());
}
