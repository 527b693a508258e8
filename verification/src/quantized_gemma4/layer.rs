//! One decoder layer over packed weights.

use super::moe::{self, Mlp, MoeBlock};
use crate::attention::{self, KvView, SharedKvStates, SharedView};
use crate::error::ModelError;
use crate::mask;
use crate::routing;
use crate::rotary::RotaryEmbedding;
use crate::tensor::packed::{self, Norm, PackedMatMul};
use crate::tensor::{self, BinaryOp, Expr, Number, Traced, UnaryOp};
use vstd::prelude::*;

verus! {

/// Where a layer's keys and values come from. Layers at the end of the stack may share those of an
/// earlier one. Without `wv` the values share the keys' projection.
pub enum KvSource {
    Compute { wk: PackedMatMul, wv: Option<PackedMatMul>, k_norm: Norm },
    Shared,
}

/// What mixes the per-layer inputs into a layer's output.
pub struct PerLayerInput {
    pub input_gate: PackedMatMul,
    pub projection: PackedMatMul,
    pub post_norm: Norm,
}

impl PerLayerInput {
    /// The record of mixing layer `i`'s slice of the per-layer inputs into a hidden state.
    pub open spec fn of(&self, xs: Expr, inputs: Expr, i: nat) -> Expr {
        let gate = tensor::unary(
            UnaryOp::Gelu,
            packed::packed_product(self.input_gate.weight(), xs),
        );
        let mixed = tensor::binary(BinaryOp::Mul, gate, tensor::selected(inputs, 2, i));
        let m = self.post_norm.of(packed::packed_product(self.projection.weight(), mixed));
        tensor::binary(BinaryOp::Add, xs, m)
    }

    /// The weights lie in main memory and fit each other, so many entries per position, and inputs of
    /// so many.
    pub open spec fn fits(&self, hidden: usize, input_dim: usize) -> bool {
        &&& input_dim > 0
        &&& packed::is_local_matrix(self.input_gate.weight(), input_dim, hidden)
        &&& packed::is_local_matrix(self.projection.weight(), hidden, input_dim)
        &&& self.post_norm.fits(hidden)
    }

    /// The hidden state and the inputs lie in main memory and fit the weights and each other.
    pub open spec fn can_mix(&self, xs: Traced, inputs: Traced, i: int) -> bool {
        let (dims, from) = (xs.dims(), inputs.dims());
        &&& moe::is_state(xs)
        &&& dims.len() == 3
        &&& inputs.is_local()
        &&& inputs.dtype() == candle_core::DType::F32
        &&& from.len() == 4
        &&& from[0] == dims[0]
        &&& from[1] == dims[1]
        &&& i < from[2]
        &&& self.fits(dims[2], from[3])
    }

    /// Mixes layer `i`'s slice of the per-layer inputs into a hidden state.
    pub(crate) fn forward(&self, xs: &Traced, inputs: &Traced, i: usize) -> (r: Result<
        Traced,
        ModelError,
    >)
        requires
            xs.dtype() == candle_core::DType::F32,
        ensures
            r matches Ok(t) ==> t.expr() == self.of(xs.expr(), inputs.expr(), i as nat) && t.dims()
                == xs.dims() && t.dtype() == candle_core::DType::F32,
            r matches Err(e) ==> e is Candle,
            tensor::succeeds(r, self.can_mix(*xs, *inputs, i as int)),
    {
        let ghost fits = self.can_mix(*xs, *inputs, i as int);
        let slice = inputs.get_on_dim(2, i)?;
        let gate = self.input_gate.forward(xs)?;
        let gate = gate.gelu()?;
        assert(fits ==> slice.dims() =~= gate.dims());
        let m = gate.times(&slice)?;
        let m = self.projection.forward(&m)?;
        assert(fits ==> m.dims() =~= xs.dims());
        let m = self.post_norm.forward(&m)?;
        xs.plus(&m)
    }
}

/// The weights of one decoder layer.
pub struct LayerWeights {
    pub wq: PackedMatMul,
    pub wo: PackedMatMul,
    pub q_norm: Norm,
    pub kv: KvSource,
    pub input_layernorm: Norm,
    pub post_attention_layernorm: Norm,
    pub pre_feedforward_layernorm: Norm,
    pub post_feedforward_layernorm: Norm,
    pub mlp: Mlp,
    pub moe: Option<MoeBlock>,
    pub per_layer: Option<PerLayerInput>,
    pub layer_scalar: Traced,
    pub n_head: usize,
    pub n_kv_head: usize,
    pub head_dim: usize,
    pub rms_eps: Number,
    pub is_global: bool,
    /// The number of positions that a sliding layer's cache keeps: such a layer attends nothing
    /// older. `None` on global layers.
    pub window: Option<usize>,
    /// The layer is the last of its kind that computes keys and values: it puts them aside for the
    /// layers that share them.
    pub store_shared_kv: bool,
    pub rotary: RotaryEmbedding,
}

/// What attention leaves behind.
pub ghost struct AttnStep {
    pub out: Expr,
    pub slot: Option<KvView>,
    pub shared: SharedView,
}

/// What a layer leaves behind: the hidden state with its shape, the layer's cache entry, and the
/// keys and values that were put aside.
pub ghost struct LayerStep {
    pub xs: Expr,
    pub dims: Seq<usize>,
    pub slot: Option<KvView>,
    pub shared: SharedView,
}

impl LayerWeights {
    /// The record of a projection seen as heads: `[batch, heads, positions, head_dim]`.
    pub open spec fn heads(&self, x: Expr, dims: Seq<usize>, heads: usize) -> Expr {
        tensor::transposed(
            tensor::reshaped(x, seq![dims[0], dims[1], heads, self.head_dim]),
            1,
            2,
        )
    }

    /// The record of a normalised and rotated projection.
    pub open spec fn rotated(&self, norm: &Norm, x: Expr, index_pos: nat, seq_len: nat) -> Expr {
        let (cos, sin) = self.rotary.rows(index_pos, seq_len);
        tensor::roped(
            tensor::unary(
                UnaryOp::Contiguous,
                norm.of(tensor::unary(UnaryOp::Contiguous, x)),
            ),
            cos,
            sin,
        )
    }

    /// The record of the queries.
    pub open spec fn queries(&self, x: Expr, dims: Seq<usize>, index_pos: nat) -> Expr {
        let q = packed::packed_product(self.wq.weight(), x);
        self.rotated(
            &self.q_norm,
            self.heads(q, dims, self.n_head),
            index_pos,
            dims[1] as nat,
        )
    }

    /// The keys and values that the layer computes for the new positions.
    pub open spec fn new_kv(&self, x: Expr, dims: Seq<usize>, index_pos: nat) -> KvView {
        match self.kv {
            KvSource::Compute { wk, wv, k_norm } => {
                let k = packed::packed_product(wk.weight(), x);
                let v = match wv {
                    Some(wv) => packed::packed_product(wv.weight(), x),
                    None => k,
                };
                let shape = seq![dims[0], self.n_kv_head, dims[1], self.head_dim];
                KvView {
                    k: self.rotated(
                        &k_norm,
                        self.heads(k, dims, self.n_kv_head),
                        index_pos,
                        dims[1] as nat,
                    ),
                    v: attention::v_norm_expr(
                        self.heads(v, dims, self.n_kv_head),
                        self.rms_eps.expr(),
                        candle_core::DType::F32,
                    ),
                    k_dims: shape,
                    v_dims: shape,
                }
            },
            KvSource::Shared => arbitrary(),
        }
    }

    /// What attention leaves behind, `x` being of shape `dims`.
    pub open spec fn attn(
        &self,
        x: Expr,
        dims: Seq<usize>,
        mask: Option<Expr>,
        index_pos: nat,
        slot: Option<KvView>,
        shared: SharedView,
    ) -> AttnStep {
        let (kv, slot, shared) = match self.kv {
            KvSource::Compute { .. } => {
                let kv = attention::kv_appended(slot, self.new_kv(x, dims, index_pos));
                (
                    kv,
                    Some(attention::kv_retained(kv, self.window)),
                    if self.store_shared_kv {
                        shared.set(self.is_global, kv)
                    } else {
                        shared
                    },
                )
            },
            KvSource::Shared => (shared.get(self.is_global)->Some_0, slot, shared),
        };
        let attended = attention::attend_expr(
            self.queries(x, dims, index_pos),
            kv,
            (self.n_head as nat / self.n_kv_head as nat) as usize,
            mask,
            candle_core::DType::F32,
        );
        let joined = tensor::reshaped(
            tensor::transposed(attended, 1, 2),
            seq![dims[0], dims[1], (self.n_head * self.head_dim) as usize],
        );
        AttnStep { out: packed::packed_product(self.wo.weight(), joined), slot, shared }
    }

    /// A projection seen as heads.
    fn split_heads(&self, x: &Traced, b_sz: usize, seq_len: usize, heads: usize) -> (r: Result<
        Traced,
        ModelError,
    >)
        ensures
            r matches Ok(t) ==> t.expr() == self.heads(x.expr(), seq![b_sz, seq_len], heads)
                && t.dims() == seq![b_sz, heads, seq_len, self.head_dim] && t.dtype() == x.dtype(),
            r matches Err(e) ==> e is Candle || (e is ShapeTooLarge && !tensor::countable(
                seq![b_sz, seq_len, heads, self.head_dim],
            )),
            x.is_local() && x.dtype() == candle_core::DType::F32 && heads * self.head_dim
                <= usize::MAX && x.dims() == seq![b_sz, seq_len, (heads * self.head_dim) as usize]
                && tensor::countable(seq![b_sz, seq_len, heads, self.head_dim]) ==> (r matches Ok(t)
                && t.is_local()),
    {
        proof {
            if heads * self.head_dim <= usize::MAX {
                tensor::lemma_count_3(b_sz, seq_len, (heads * self.head_dim) as usize);
                tensor::lemma_count_4(b_sz, seq_len, heads, self.head_dim);
                let (a, b, c, d) = (b_sz, seq_len, heads, self.head_dim);
                assert(a * b * (c * d) == a * b * c * d) by (nonlinear_arith);
            }
        }
        let mut shape: Vec<usize> = Vec::new();
        shape.push(b_sz);
        shape.push(seq_len);
        shape.push(heads);
        shape.push(self.head_dim);
        assert(shape@ =~= seq![b_sz, seq_len, heads, self.head_dim]);
        let split = x.reshape(&shape)?;
        assert(tensor::swapped_dims(split.dims(), 1, 2) =~= seq![
            b_sz,
            heads,
            seq_len,
            self.head_dim,
        ]);
        split.transpose(1, 2)
    }

    /// A normalised and rotated projection.
    fn rotate(&self, norm: &Norm, x: &Traced, cos: &Traced, sin: &Traced) -> (r: Result<
        Traced,
        ModelError,
    >)
        requires
            x.dims().len() == 4,
            x.dims()[2] > 0,
            x.dims()[3] > 0,
        ensures
            r matches Ok(t) ==> t.expr() == tensor::roped(
                tensor::unary(
                    UnaryOp::Contiguous,
                    norm.of(tensor::unary(UnaryOp::Contiguous, x.expr())),
                ),
                cos.expr(),
                sin.expr(),
            ) && t.dims() == x.dims() && t.dtype() == x.dtype(),
            r matches Err(e) ==> e is Candle,
            tensor::succeeds(
                r,
                x.is_local() && x.dtype() == candle_core::DType::F32 && norm.fits(x.dims()[3])
                    && cos.is_ready() && sin.is_ready() && cos.dtype() == candle_core::DType::F32
                    && sin.dtype() == candle_core::DType::F32 && tensor::can_rope(
                    x.dims(),
                    cos.dims(),
                    sin.dims(),
                ),
            ),
    {
        let x = x.contiguous()?;
        let x = norm.forward(&x)?;
        let x = x.contiguous()?;
        x.rope(cos, sin)
    }
}

/// Fewer positions and heads hold no more entries.
proof fn lemma_fewer(b: int, s: int, h: int, d: int, end: int, heads: int)
    requires
        b > 0,
        0 < s <= end,
        0 < h <= heads,
        d > 0,
    ensures
        0 < b * s * h * d <= b * end * heads * d,
{
    assert(0 < b * s * h * d) by (nonlinear_arith)
        requires
            b > 0,
            s > 0,
            h > 0,
            d > 0,
    ;
    assert(s * h <= end * heads) by (nonlinear_arith)
        requires
            0 < s <= end,
            0 < h <= heads,
    ;
    assert(b * s * h * d <= b * end * heads * d) by (nonlinear_arith)
        requires
            s * h <= end * heads,
            b > 0,
            d > 0,
    ;
}

/// `usize` cannot count the positions of new keys or values behind cached ones.
pub open spec fn append_too_large(slot: Option<KvView>, k_dims: Seq<usize>, v_dims: Seq<usize>) -> bool {
    slot matches Some(old) && (old.k_dims.len() > 2 && old.k_dims[2] + k_dims[2] > usize::MAX
        || old.v_dims.len() > 2 && old.v_dims[2] + v_dims[2] > usize::MAX)
}

/// New keys and values and those of a cache entry, where there is one, lie in main memory and agree
/// on everything but the positions.
pub open spec fn kv_fits(slot: Option<(Traced, Traced)>, k: Traced, v: Traced) -> bool {
    &&& k.is_ready()
    &&& v.is_ready()
    &&& tensor::has_products(k.dtype())
    &&& v.dtype() == k.dtype()
    &&& slot matches Some(old) ==> {
        &&& old.0.is_ready()
        &&& old.1.is_ready()
        &&& old.0.dtype() == k.dtype()
        &&& old.1.dtype() == k.dtype()
        &&& old.0.dims().len() == 4
        &&& old.1.dims().len() == 4
        &&& old.0.dims().update(2, 0) == k.dims().update(2, 0)
        &&& old.1.dims().update(2, 0) == v.dims().update(2, 0)
    }
}

/// Keys and values behind the cached ones, along the positions.
fn append_kv(slot: &Option<(Traced, Traced)>, k: Traced, v: Traced) -> (r: Result<
    (Traced, Traced),
    ModelError,
>)
    requires
        k.dims().len() == 4,
        v.dims().len() == 4,
    ensures
        r matches Ok(kv) ==> attention::kv_view(kv) == attention::kv_appended(
            attention::slot_view(*slot),
            attention::kv_view((k, v)),
        ),
        r matches Ok(kv) ==> kv.1.dtype() == v.dtype() && (*slot matches Some(old) ==> {
            &&& old.0.dims().len() > 2
            &&& old.0.dims()[2] + k.dims()[2] <= usize::MAX
        }) && kv.0.dims().len() == 4 && kv.1.dims().len() == 4,
        r matches Err(e) ==> e is Candle || (e is ShapeTooLarge && append_too_large(
            attention::slot_view(*slot),
            k.dims(),
            v.dims(),
        )),
        kv_fits(*slot, k, v) && !append_too_large(attention::slot_view(*slot), k.dims(), v.dims())
            ==> (r matches Ok(kv) && kv.0.is_ready() && kv.1.is_ready() && kv.0.dtype() == k.dtype()),
{
    match slot {
        None => Ok((k, v)),
        Some((k_cache, v_cache)) => {
            let mut ks: Vec<Traced> = Vec::new();
            ks.push(k_cache.duplicate());
            ks.push(k);
            let mut vs: Vec<Traced> = Vec::new();
            vs.push(v_cache.duplicate());
            vs.push(v);
            proof {
                reveal_with_fuel(tensor::total_dim, 3);
                assert(ks@.drop_last() =~= seq![*k_cache]);
                assert(vs@.drop_last() =~= seq![*v_cache]);
                assert(tensor::exprs(ks@) =~= seq![k_cache.expr(), k.expr()]);
                assert(tensor::exprs(vs@) =~= seq![v_cache.expr(), v.expr()]);
            }
            assert(ks@[0] == *k_cache && ks@[1] == k);
            assert(vs@[0] == *v_cache && vs@[1] == v);
            assert(kv_fits(*slot, k, v) ==> tensor::can_cat(ks@, 2) && tensor::can_cat(vs@, 2));
            let k = Traced::cat(&ks, 2)?;
            let v = Traced::cat(&vs, 2)?;
            Ok((k, v))
        },
    }
}

/// The last `w` positions of keys and values, where there are more than `w`.
fn retain_kv(k: &Traced, v: &Traced, window: Option<usize>) -> (r: Result<
    (Traced, Traced),
    ModelError,
>)
    requires
        k.dims().len() == 4,
    ensures
        r matches Ok(kv) ==> attention::kv_view(kv) == attention::kv_retained(
            attention::kv_view((*k, *v)),
            window,
        ) && kv.1.dtype() == v.dtype(),
        r matches Err(e) ==> e is Candle,
        k.is_ready() && v.is_ready() && tensor::has_products(k.dtype()) && v.dtype() == k.dtype()
            && v.dims() == k.dims() ==> (r matches Ok(kv) && kv.0.is_ready() && kv.1.is_ready()
            && kv.0.dtype() == k.dtype()),
{
    let dims = k.shape();
    let len: usize = dims[2];
    match window {
        Some(w) => {
            if len > w {
                let kept_k = k.narrow(2, len - w, w)?;
                let kept_k = kept_k.contiguous()?;
                let kept_v = v.narrow(2, len - w, w)?;
                let kept_v = kept_v.contiguous()?;
                Ok((kept_k, kept_v))
            } else {
                Ok((k.duplicate(), v.duplicate()))
            }
        },
        None => Ok((k.duplicate(), v.duplicate())),
    }
}

impl LayerWeights {
    /// The layer's part of what every layer refuses.
    pub open spec fn attn_refuses(&self, shared: SharedView) -> bool {
        self.n_kv_head == 0 || (self.kv is Shared && shared.get(self.is_global) is None)
    }

    /// The layer has positions and entries to rotate.
    pub open spec fn can_rotate(&self, dims: Seq<usize>) -> bool {
        dims[1] > 0 && self.head_dim > 0
    }

    /// The shapes of the keys and values that are attended.
    pub open spec fn kv_dims(
        &self,
        dims: Seq<usize>,
        slot: Option<KvView>,
        shared: SharedView,
    ) -> (Seq<usize>, Seq<usize>) {
        let new = seq![dims[0], self.n_kv_head, dims[1], self.head_dim];
        match self.kv {
            KvSource::Compute { .. } => match slot {
                None => (new, new),
                Some(old) => (
                    old.k_dims.update(2, (old.k_dims[2] + dims[1]) as usize),
                    old.v_dims.update(2, (old.v_dims[2] + dims[1]) as usize),
                ),
            },
            KvSource::Shared => (
                shared.get(self.is_global)->Some_0.k_dims,
                shared.get(self.is_global)->Some_0.v_dims,
            ),
        }
    }

    /// `usize` cannot count the entries of the queries, keys or values, or their positions with the
    /// cached ones.
    pub open spec fn attn_too_large(
        &self,
        dims: Seq<usize>,
        slot: Option<KvView>,
        shared: SharedView,
    ) -> bool {
        let n_rep = (self.n_head as nat / self.n_kv_head as nat) as usize;
        let (k_dims, v_dims) = self.kv_dims(dims, slot, shared);
        let new = seq![dims[0], self.n_kv_head, dims[1], self.head_dim];
        ||| !tensor::countable(seq![dims[0], dims[1], self.n_head, self.head_dim])
        ||| self.kv is Compute && !tensor::countable(
            seq![dims[0], dims[1], self.n_kv_head, self.head_dim],
        )
        ||| self.kv is Compute && append_too_large(slot, new, new)
        ||| attention::repeat_too_large(k_dims, n_rep)
        ||| attention::repeat_too_large(v_dims, n_rep)
        ||| self.n_head * self.head_dim > usize::MAX
        ||| !tensor::countable(seq![dims[0], dims[1], (self.n_head * self.head_dim) as usize])
    }

    /// What attention can fail with on an input of shape `dims`.
    pub open spec fn attn_may_fail_with(
        &self,
        dims: Seq<usize>,
        slot: Option<KvView>,
        shared: SharedView,
        e: ModelError,
    ) -> bool {
        let (k_dims, v_dims) = self.kv_dims(dims, slot, shared);
        match e {
            ModelError::Candle(_) => true,
            ModelError::Rank { .. } => dims.len() != 3 || (self.kv is Shared && (k_dims.len() != 4
                || v_dims.len() != 4)),
            ModelError::NoKvHeads => dims.len() == 3 && self.n_kv_head == 0,
            ModelError::EmptyAxis => dims.len() == 3 && (!self.can_rotate(dims) || (self.kv is Shared
                && k_dims[2] == 0)),
            ModelError::DonorMissing => dims.len() == 3 && self.kv is Shared && shared.get(
                self.is_global,
            ) is None,
            ModelError::ShapeTooLarge => dims.len() == 3 && self.attn_too_large(dims, slot, shared),
            _ => false,
        }
    }

    /// The shape of the layer's keys and values over so many positions.
    pub open spec fn key_dims(&self, batch: usize, positions: int) -> Seq<usize> {
        seq![batch, self.n_kv_head, positions as usize, self.head_dim]
    }

    /// The number of positions that the layer attends in a pass at `index_pos`.
    pub open spec fn key_count(&self, index_pos: int, seq_len: int) -> int {
        mask::retained(index_pos, self.window) + seq_len
    }

    /// The cache entry of a layer whose lane has consumed `pos` positions, in main memory: nothing at
    /// the start, else keys and values of the retained positions. A layer that shares does not look
    /// at it.
    pub open spec fn slot_fits(&self, slot: Option<(Traced, Traced)>, batch: usize, pos: int) -> bool {
        self.kv is Shared || if pos == 0 {
            slot is None
        } else {
            slot matches Some(kv) && attention::kv_is(
                kv,
                self.key_dims(batch, mask::retained(pos, self.window)),
                candle_core::DType::F32,
            )
        }
    }

    /// The number of positions that the rotary tables cover.
    pub open spec fn positions(&self) -> usize {
        self.rotary.table_dims().0[0]
    }

    /// The weights of attention lie in main memory and fit each other and so many entries per
    /// position.
    pub open spec fn attn_is_fit(&self, hidden: usize) -> bool {
        let width = self.n_head * self.head_dim;
        let kv_width = self.n_kv_head * self.head_dim;
        &&& self.n_head > 0
        &&& self.n_kv_head > 0
        &&& self.n_head % self.n_kv_head == 0
        &&& self.head_dim > 0
        &&& self.head_dim % 2 == 0
        &&& width <= usize::MAX
        &&& packed::is_local_matrix(self.wq.weight(), width as usize, hidden)
        &&& packed::is_local_matrix(self.wo.weight(), hidden, width as usize)
        &&& self.q_norm.fits(self.head_dim)
        &&& match self.kv {
            KvSource::Compute { wk, wv, k_norm } => {
                &&& packed::is_local_matrix(wk.weight(), kv_width as usize, hidden)
                &&& wv matches Some(wv) ==> packed::is_local_matrix(
                    wv.weight(),
                    kv_width as usize,
                    hidden,
                )
                &&& k_norm.fits(self.head_dim)
            },
            KvSource::Shared => true,
        }
        &&& self.rotary.is_ready(candle_core::DType::F32)
        &&& self.rotary.has_shape(self.positions(), self.head_dim / 2)
    }

    /// A hidden state, a mask, a cache entry and what was put aside lie in main memory and fit the
    /// layer's attention in a pass at `index_pos`, and `usize` can count what comes of them.
    pub open spec fn attn_fits(
        &self,
        x: Traced,
        mask: Option<&Traced>,
        index_pos: usize,
        slot: Option<(Traced, Traced)>,
        shared: SharedKvStates,
    ) -> bool {
        let dims = x.dims();
        let keys = self.key_count(index_pos as int, dims[1] as int);
        &&& moe::is_state(x)
        &&& dims.len() == 3
        &&& self.attn_is_fit(dims[2])
        &&& index_pos + dims[1] <= self.positions()
        &&& self.slot_fits(slot, dims[0], index_pos as int)
        &&& self.kv is Shared ==> (shared.at(self.is_global) matches Some(kv) && attention::kv_is(
            kv,
            self.key_dims(dims[0], keys),
            candle_core::DType::F32,
        ))
        &&& mask matches Some(mask) ==> mask.is_local() && mask.dtype() == candle_core::DType::F32
            && mask.dims() == seq![dims[0], 1, dims[1], keys as usize]
        &&& !self.attn_too_large(dims, attention::slot_view(slot), shared@)
    }

    /// The keys and values that the layer computes for the new positions, given the rows of the
    /// rotary tables.
    fn compute_kv(
        &self,
        x: &Traced,
        wk: &PackedMatMul,
        wv: &Option<PackedMatMul>,
        k_norm: &Norm,
        b_sz: usize,
        seq_len: usize,
        cos: &Traced,
        sin: &Traced,
        Ghost(index_pos): Ghost<nat>,
    ) -> (r: Result<(Traced, Traced), ModelError>)
        requires
            x.dtype() == candle_core::DType::F32,
            self.kv == (KvSource::Compute { wk: *wk, wv: *wv, k_norm: *k_norm }),
            (cos.expr(), sin.expr()) == self.rotary.rows(index_pos, seq_len as nat),
            seq_len > 0,
            self.head_dim > 0,
        ensures
            r matches Ok(kv) ==> attention::kv_view(kv) == self.new_kv(
                x.expr(),
                seq![b_sz, seq_len],
                index_pos,
            ) && kv.1.dtype() == candle_core::DType::F32,
            r matches Err(e) ==> e is Candle || (e is ShapeTooLarge && !tensor::countable(
                seq![b_sz, seq_len, self.n_kv_head, self.head_dim],
            )),
            moe::is_state(*x) && x.dims().len() == 3 && x.dims()[0] == b_sz && x.dims()[1] == seq_len
                && self.attn_is_fit(x.dims()[2]) && cos.is_ready() && sin.is_ready() && cos.dtype()
                == candle_core::DType::F32 && sin.dtype() == candle_core::DType::F32 && cos.dims()
                == seq![seq_len, self.head_dim / 2] && sin.dims() == cos.dims() && tensor::countable(
                seq![b_sz, seq_len, self.n_kv_head, self.head_dim],
            ) ==> (r matches Ok(kv) && attention::kv_is(
                kv,
                self.key_dims(b_sz, seq_len as int),
                candle_core::DType::F32,
            )),
    {
        proof {
            if self.attn_is_fit(x.dims()[2]) {
                self.lemma_kv_width();
            }
        }
        let k = wk.forward(x)?;
        let v = match wv {
            Some(wv) => wv.forward(x)?,
            None => k.duplicate(),
        };
        proof {
            if self.attn_is_fit(x.dims()[2]) && x.dims().len() == 3 && x.dims()[0] == b_sz
                && x.dims()[1] == seq_len {
                assert(k.dims() =~= seq![
                    b_sz,
                    seq_len,
                    (self.n_kv_head * self.head_dim) as usize,
                ]);
                assert(v.dims() =~= k.dims());
            }
        }
        let k = self.split_heads(&k, b_sz, seq_len, self.n_kv_head)?;
        let v = self.split_heads(&v, b_sz, seq_len, self.n_kv_head)?;
        let k = self.rotate(k_norm, &k, cos, sin)?;
        let v = attention::v_norm(&v, &self.rms_eps)?;
        Ok((k, v))
    }

    /// The keys are no wider than the queries.
    proof fn lemma_kv_width(&self)
        requires
            self.n_head > 0,
            self.n_kv_head > 0,
            self.n_head % self.n_kv_head == 0,
            self.n_head * self.head_dim <= usize::MAX,
        ensures
            self.n_kv_head * self.head_dim <= usize::MAX,
            self.n_kv_head * (self.n_head / self.n_kv_head) == self.n_head,
    {
        let (h, k, d) = (self.n_head as int, self.n_kv_head as int, self.head_dim as int);
        vstd::arithmetic::div_mod::lemma_fundamental_div_mod(h, k);
        assert(k <= h) by (nonlinear_arith)
            requires
                h == k * (h / k) + h % k,
                h % k == 0,
                h > 0,
                k > 0,
        ;
        assert(k * d <= h * d) by (nonlinear_arith)
            requires
                k <= h,
                d >= 0,
        ;
    }

    /// Where `usize` can count the entries of all heads over all positions of a batch, it can count
    /// everything that attention makes.
    pub(crate) proof fn lemma_attn_counts(
        &self,
        dims: Seq<usize>,
        index_pos: usize,
        slot: Option<(Traced, Traced)>,
        shared: SharedKvStates,
    )
        requires
            dims.len() == 3,
            tensor::has_entries(dims),
            self.attn_is_fit(dims[2]),
            index_pos + dims[1] <= usize::MAX,
            dims[0] * (index_pos + dims[1]) * self.n_head * self.head_dim <= usize::MAX,
            self.slot_fits(slot, dims[0], index_pos as int),
            self.kv is Shared ==> (shared.at(self.is_global) matches Some(kv) && attention::kv_is(
                kv,
                self.key_dims(dims[0], self.key_count(index_pos as int, dims[1] as int)),
                candle_core::DType::F32,
            )),
        ensures
            !self.attn_too_large(dims, attention::slot_view(slot), shared@),
    {
        let (b, s) = (dims[0] as int, dims[1] as int);
        let (h, k, d) = (self.n_head as int, self.n_kv_head as int, self.head_dim as int);
        let end = index_pos + s;
        let keys = self.key_count(index_pos as int, s);
        assert(dims[0] > 0 && dims[1] > 0);
        self.lemma_kv_width();
        assert(k <= h) by (nonlinear_arith)
            requires
                k * (h / k) == h,
                h > 0,
                k > 0,
        ;
        lemma_fewer(b, s, h, d, end, h);
        lemma_fewer(b, s, k, d, end, h);
        lemma_fewer(b, keys, h, d, end, h);
        tensor::lemma_count_4(dims[0], dims[1], self.n_head, self.head_dim);
        tensor::lemma_countable(seq![dims[0], dims[1], self.n_head, self.head_dim]);
        tensor::lemma_count_4(dims[0], dims[1], self.n_kv_head, self.head_dim);
        tensor::lemma_countable(seq![dims[0], dims[1], self.n_kv_head, self.head_dim]);
        tensor::lemma_count_4(dims[0], self.n_head, keys as usize, self.head_dim);
        assert(b * h * keys * d == b * keys * h * d) by (nonlinear_arith);
        tensor::lemma_countable(seq![dims[0], self.n_head, keys as usize, self.head_dim]);
        tensor::lemma_count_3(dims[0], dims[1], (h * d) as usize);
        assert(b * s * (h * d) == b * s * h * d) by (nonlinear_arith);
        tensor::lemma_countable(seq![dims[0], dims[1], (h * d) as usize]);
        let n_rep = h / k;
        assert(keys * n_rep <= b * end * h * d) by (nonlinear_arith)
            requires
                0 <= keys <= end,
                0 <= n_rep <= h,
                b > 0,
                d > 0,
        ;
        let (k_dims, v_dims) = self.kv_dims(dims, attention::slot_view(slot), shared@);
        assert(k_dims =~= self.key_dims(dims[0], keys));
        assert(v_dims =~= self.key_dims(dims[0], keys));
    }

    /// Attention over the cached and the new positions. A layer that computes keys and values
    /// appends them to its cache entry, of which a sliding layer keeps the last positions only, and
    /// puts them aside where later layers share them; a layer that shares takes what was put aside.
    pub(crate) fn forward_attn(
        &self,
        x: &Traced,
        mask: Option<&Traced>,
        index_pos: usize,
        cache_slot: &mut Option<(Traced, Traced)>,
        shared_kv_states: &mut SharedKvStates,
    ) -> (r: Result<Traced, ModelError>)
        requires
            x.dtype() == candle_core::DType::F32,
            old(shared_kv_states).has_dtype(candle_core::DType::F32),
            attention::mask_has_columns(mask),
        ensures
            r is Ok ==> final(shared_kv_states).has_dtype(candle_core::DType::F32),
            r matches Ok(t) ==> {
                let step = self.attn(
                    x.expr(),
                    x.dims(),
                    attention::mask_view(mask),
                    index_pos as nat,
                    attention::slot_view(*old(cache_slot)),
                    old(shared_kv_states)@,
                );
                &&& !self.attn_refuses(old(shared_kv_states)@)
                &&& x.dims().len() == 3
                &&& t.expr() == step.out
                &&& t.dims() == seq![
                    x.dims()[0],
                    x.dims()[1],
                    packed::packed_rows(self.wo.weight()),
                ]
                &&& t.dtype() == candle_core::DType::F32
                &&& attention::slot_view(*final(cache_slot)) == step.slot
                &&& final(shared_kv_states)@ == step.shared
            },
            r matches Ok(t) ==> self.kv is Compute ==> (attention::slot_view(*old(cache_slot)) matches
                Some(old) ==> old.k_dims.len() > 2 && old.k_dims[2] + x.dims()[1] <= usize::MAX),
            x.dims().len() != 3 ==> r == Err::<Traced, ModelError>(
                ModelError::Rank { expected: 3, got: x.dims().len() as usize },
            ),
            x.dims().len() == 3 && self.n_kv_head == 0 ==> r == Err::<Traced, ModelError>(
                ModelError::NoKvHeads,
            ),
            x.dims().len() == 3 && self.n_kv_head != 0 && !self.can_rotate(x.dims()) ==> r == Err::<
                Traced,
                ModelError,
            >(ModelError::EmptyAxis),
            x.dims().len() == 3 && self.attn_refuses(old(shared_kv_states)@) ==> r is Err,
            r matches Err(e) ==> self.attn_may_fail_with(
                x.dims(),
                attention::slot_view(*old(cache_slot)),
                old(shared_kv_states)@,
                e,
            ),
            self.kv is Shared ==> *final(cache_slot) == *old(cache_slot) && *final(shared_kv_states)
                == *old(shared_kv_states),
            r is Err ==> {
                let step = self.attn(
                    x.expr(),
                    x.dims(),
                    attention::mask_view(mask),
                    index_pos as nat,
                    attention::slot_view(*old(cache_slot)),
                    old(shared_kv_states)@,
                );
                *final(cache_slot) == *old(cache_slot) || attention::slot_view(*final(cache_slot))
                    == step.slot
            },
            self.attn_fits(*x, mask, index_pos, *old(cache_slot), *old(shared_kv_states)) ==> {
                let (batch, seq_len) = (x.dims()[0], x.dims()[1]);
                let keys = self.key_count(index_pos as int, seq_len as int);
                &&& r matches Ok(t) && t.is_ready() && t.dims() == x.dims()
                &&& self.slot_fits(*final(cache_slot), batch, index_pos + seq_len)
                &&& final(shared_kv_states).at(!self.is_global) == old(shared_kv_states).at(
                    !self.is_global,
                )
                &&& if self.kv is Compute && self.store_shared_kv {
                    final(shared_kv_states).at(self.is_global) matches Some(kv) && attention::kv_is(
                        kv,
                        self.key_dims(batch, keys),
                        candle_core::DType::F32,
                    )
                } else {
                    final(shared_kv_states).at(self.is_global) == old(shared_kv_states).at(
                        self.is_global,
                    )
                }
            },
    {
        let ghost fits = self.attn_fits(
            *x,
            mask,
            index_pos,
            *old(cache_slot),
            *old(shared_kv_states),
        );
        let ghost keys = self.key_count(index_pos as int, x.dims()[1] as int);
        proof {
            if fits {
                self.lemma_kv_width();
                assert(x.dims()[0] > 0 && x.dims()[1] > 0 && x.dims()[2] > 0);
            }
        }
        let (b_sz, seq_len, _hidden): (usize, usize, usize) = x.dims3()?;
        if self.n_kv_head == 0 {
            return Err(ModelError::NoKvHeads);
        }
        if seq_len == 0 || self.head_dim == 0 {
            return Err(ModelError::EmptyAxis);
        }
        let ghost dims = x.dims();
        let ghost two = seq![b_sz, seq_len];
        let q = self.wq.forward(x)?;
        assert(fits ==> q.dims() =~= seq![
            b_sz,
            seq_len,
            (self.n_head * self.head_dim) as usize,
        ]);
        let q = self.split_heads(&q, b_sz, seq_len, self.n_head)?;
        let (cos, sin) = self.rotary.cos_sin(index_pos, seq_len)?;
        proof {
            if fits {
                assert(self.rotary.has_shape(self.positions(), self.head_dim / 2));
                assert(self.rotary.is_ready(candle_core::DType::F32));
                assert(cos.dims() == seq![seq_len, self.head_dim / 2]);
                assert(q.dims() =~= seq![b_sz, self.n_head, seq_len, self.head_dim]);
            }
        }
        let q = self.rotate(&self.q_norm, &q, &cos, &sin)?;
        assert(q.expr() == self.queries(x.expr(), dims, index_pos as nat)) by {
            assert(self.heads(
                packed::packed_product(self.wq.weight(), x.expr()),
                two,
                self.n_head,
            ) == self.heads(
                packed::packed_product(self.wq.weight(), x.expr()),
                dims,
                self.n_head,
            ));
        }
        let (k, v) = match &self.kv {
            KvSource::Compute { wk, wv, k_norm } => {
                let (k, v) = self.compute_kv(
                    x,
                    wk,
                    wv,
                    k_norm,
                    b_sz,
                    seq_len,
                    &cos,
                    &sin,
                    Ghost(index_pos as nat),
                )?;
                assert(self.new_kv(x.expr(), two, index_pos as nat) =~= self.new_kv(
                    x.expr(),
                    dims,
                    index_pos as nat,
                ));
                proof {
                    if fits {
                        if *cache_slot is Some {
                            let held = cache_slot->Some_0;
                            assert(held.0.dims().update(2, 0) =~= k.dims().update(2, 0));
                            assert(held.1.dims().update(2, 0) =~= v.dims().update(2, 0));
                        }
                        assert(kv_fits(*cache_slot, k, v));
                    }
                }
                let (k, v) = append_kv(&*cache_slot, k, v)?;
                proof {
                    if fits {
                        assert(k.dims() =~= self.key_dims(b_sz, keys));
                        assert(v.dims() =~= self.key_dims(b_sz, keys));
                    }
                }
                let kept = retain_kv(&k, &v, self.window)?;
                proof {
                    if fits {
                        let len = mask::retained(index_pos + seq_len, self.window);
                        assert(kept.0.dims() =~= self.key_dims(b_sz, len));
                        assert(kept.1.dims() =~= self.key_dims(b_sz, len));
                    }
                }
                *cache_slot = Some(kept);
                if self.store_shared_kv {
                    shared_kv_states.store(self.is_global, &k, &v);
                }
                (k, v)
            },
            KvSource::Shared => {
                match shared_kv_states.fetch(self.is_global) {
                    Some(kv) => kv,
                    None => {
                        return Err(ModelError::DonorMissing);
                    },
                }
            },
        };
        let groups: usize = self.n_head / self.n_kv_head;
        proof {
            if fits {
                let (k_dims, v_dims) = self.kv_dims(
                    x.dims(),
                    attention::slot_view(*old(cache_slot)),
                    old(shared_kv_states)@,
                );
                assert(k_dims =~= self.key_dims(b_sz, keys));
                assert(v_dims =~= self.key_dims(b_sz, keys));
                assert(k.dims() == self.key_dims(b_sz, keys));
                assert(attention::can_attend(q, k, v, groups, mask));
            }
        }
        let attended = attention::attend(&q, k, v, groups, mask)?;
        let attended = attended.transpose(1, 2)?;
        let width: usize = match self.n_head.checked_mul(self.head_dim) {
            Some(width) => width,
            None => {
                return Err(ModelError::ShapeTooLarge);
            },
        };
        let mut shape: Vec<usize> = Vec::new();
        shape.push(b_sz);
        shape.push(seq_len);
        shape.push(width);
        assert(shape@ =~= seq![b_sz, seq_len, width]);
        proof {
            tensor::lemma_count_3(b_sz, seq_len, width);
            tensor::lemma_count_4(b_sz, seq_len, self.n_head, self.head_dim);
            let (a, b, c, d) = (b_sz, seq_len, self.n_head, self.head_dim);
            assert(a * b * (c * d) == a * b * c * d) by (nonlinear_arith);
            if fits {
                assert(attended.dims() =~= seq![b_sz, seq_len, self.n_head, self.head_dim]);
                assert(width > 0) by (nonlinear_arith)
                    requires
                        width == c * d,
                        c > 0,
                        d > 0,
                ;
            }
        }
        let joined = attended.reshape(&shape)?;
        let out = self.wo.forward(&joined)?;
        assert(out.dims() =~= seq![b_sz, seq_len, packed::packed_rows(self.wo.weight())]);
        Ok(out)
    }
}

impl LayerWeights {
    /// The record of the feed-forward part, given which experts were picked for each token.
    pub open spec fn fed_forward(
        &self,
        residual: Expr,
        model_dims: Seq<usize>,
        picks: Seq<Seq<usize>>,
    ) -> Expr {
        let dense = self.mlp.of(self.pre_feedforward_layernorm.of(residual));
        let combined = match self.moe {
            None => dense,
            Some(moe) => moe.of(dense, residual, model_dims, picks),
        };
        tensor::binary(
            BinaryOp::Add,
            residual,
            self.post_feedforward_layernorm.of(combined),
        )
    }

    /// The record of the hidden state that goes into the feed-forward part.
    pub open spec fn attended(
        &self,
        xs: Expr,
        dims: Seq<usize>,
        mask: Option<Expr>,
        index_pos: nat,
        slot: Option<KvView>,
        shared: SharedView,
    ) -> Expr {
        let attn = self.attn(self.input_layernorm.of(xs), dims, mask, index_pos, slot, shared);
        tensor::binary(BinaryOp::Add, self.post_attention_layernorm.of(attn.out), xs)
    }

    /// What layer `i` leaves behind. `xs` is the hidden state, of shape `dims`; `model_dims` is
    /// batch, positions and hidden size of the whole pass; `inputs` are the per-layer inputs of a
    /// model that has them.
    pub open spec fn step(
        &self,
        i: nat,
        xs: Expr,
        dims: Seq<usize>,
        mask: Option<Expr>,
        index_pos: nat,
        slot: Option<KvView>,
        shared: SharedView,
        inputs: Option<Expr>,
        model_dims: Seq<usize>,
        picks: Seq<Seq<usize>>,
    ) -> LayerStep {
        let attn = self.attn(self.input_layernorm.of(xs), dims, mask, index_pos, slot, shared);
        let attended = self.attended(xs, dims, mask, index_pos, slot, shared);
        let fed = self.fed_forward(attended, model_dims, picks);
        let mixed = match self.per_layer {
            Some(per_layer) => per_layer.of(fed, inputs->Some_0, i),
            None => fed,
        };
        LayerStep {
            xs: tensor::binary(BinaryOp::BroadcastMul, mixed, self.layer_scalar.expr()),
            dims: tensor::broadcast_dims(dims, self.layer_scalar.dims()),
            slot: attn.slot,
            shared: attn.shared,
        }
    }

    /// The picks are such as the layer makes of what goes into its feed-forward part: none without
    /// experts, else the most probable ones of each token.
    pub open spec fn are_picks(
        &self,
        attended: Expr,
        model_dims: Seq<usize>,
        picks: Seq<Seq<usize>>,
    ) -> bool {
        match self.moe {
            None => picks.len() == 0,
            Some(moe) => moe.are_picks(attended, model_dims, picks),
        }
    }

    /// What the feed-forward part can fail with.
    pub open spec fn feed_may_fail_with(&self, model_dims: Seq<usize>, e: ModelError) -> bool {
        match self.moe {
            None => e is Candle,
            Some(moe) => moe.may_fail_with(model_dims, e),
        }
    }

    /// What layer `i` can fail with on a hidden state of shape `dims`, where it finds the entry
    /// `slot` of the cache and the keys and values `shared` put aside; `has_inputs` tells whether
    /// the model has per-layer inputs.
    pub open spec fn may_fail_with(
        &self,
        i: int,
        dims: Seq<usize>,
        slot: Option<KvView>,
        shared: SharedView,
        has_inputs: bool,
        model_dims: Seq<usize>,
        e: ModelError,
    ) -> bool {
        ||| self.attn_may_fail_with(dims, slot, shared, e)
        ||| self.feed_may_fail_with(model_dims, e)
        ||| e == (ModelError::PerLayerMismatch { layer: i as usize }) && (self.per_layer is Some)
            != has_inputs
    }

    /// The layer's weights lie in main memory and fit each other, so many entries per position and, in
    /// a model that has them, per-layer inputs of so many.
    pub open spec fn is_fit(&self, hidden: usize, input_dim: Option<usize>) -> bool {
        &&& self.attn_is_fit(hidden)
        &&& self.input_layernorm.fits(hidden)
        &&& self.post_attention_layernorm.fits(hidden)
        &&& self.pre_feedforward_layernorm.fits(hidden)
        &&& self.post_feedforward_layernorm.fits(hidden)
        &&& self.mlp.fits(hidden)
        &&& self.moe matches Some(moe) ==> moe.fits(hidden)
        &&& match (self.per_layer, input_dim) {
            (Some(per_layer), Some(input_dim)) => per_layer.fits(hidden, input_dim),
            (None, None) => true,
            _ => false,
        }
        &&& self.layer_scalar.is_local()
        &&& self.layer_scalar.dtype() == candle_core::DType::F32
        &&& self.layer_scalar.dims() == seq![1usize]
    }

    /// What layer `i` is given lies in main memory and fits its weights, and `usize` can count what
    /// comes of it.
    pub open spec fn can_run(
        &self,
        i: int,
        xs: Traced,
        mask: Option<&Traced>,
        index_pos: usize,
        slot: Option<(Traced, Traced)>,
        shared: SharedKvStates,
        inputs: Option<Traced>,
    ) -> bool {
        let dims = xs.dims();
        &&& self.attn_fits(xs, mask, index_pos, slot, shared)
        &&& match inputs {
            Some(inputs) => {
                let from = inputs.dims();
                &&& inputs.is_local()
                &&& inputs.dtype() == candle_core::DType::F32
                &&& from.len() == 4
                &&& from[0] == dims[0]
                &&& from[1] == dims[1]
                &&& i < from[2]
                &&& self.is_fit(dims[2], Some(from[3]))
            },
            None => self.is_fit(dims[2], None),
        }
        &&& self.moe is Some ==> !routing::tokens_too_large(dims)
    }

    /// The feed-forward part: the dense block, the experts beside it where the layer has them.
    fn feed_forward(&self, residual: &Traced, b_sz: usize, seq_len: usize, hidden: usize) -> (r:
        Result<Traced, ModelError>)
        requires
            residual.dtype() == candle_core::DType::F32,
        ensures
            r matches Ok(t) ==> t.dims() == residual.dims() && t.dtype() == candle_core::DType::F32
                && exists|picks: Seq<Seq<usize>>| #[trigger]
                self.are_picks(residual.expr(), moe::model_dims(b_sz, seq_len, hidden), picks) && t.expr()
                    == self.fed_forward(residual.expr(), moe::model_dims(b_sz, seq_len, hidden), picks),
            r matches Err(e) ==> self.feed_may_fail_with(
                moe::model_dims(b_sz, seq_len, hidden),
                e,
            ),
            tensor::succeeds(
                r,
                moe::is_state(*residual) && residual.dims() == moe::model_dims(
                    b_sz,
                    seq_len,
                    hidden,
                ) && self.pre_feedforward_layernorm.fits(hidden)
                    && self.post_feedforward_layernorm.fits(hidden) && self.mlp.fits(hidden) && (
                self.moe matches Some(moe) ==> moe.fits(hidden) && !routing::tokens_too_large(
                    residual.dims(),
                )),
            ),
    {
        let ghost mut picks: Seq<Seq<usize>> = Seq::empty();
        let ghost model_dims = super::moe::model_dims(b_sz, seq_len, hidden);
        let x = self.pre_feedforward_layernorm.forward(residual)?;
        let x = self.mlp.forward(&x)?;
        let x = match &self.moe {
            None => x,
            Some(moe) => {
                let combined = moe.forward(&x, residual, b_sz, seq_len, hidden)?;
                proof {
                    picks = choose|picks: Seq<Seq<usize>>| #[trigger]
                        moe.are_picks(residual.expr(), model_dims, picks) && combined.expr()
                            == moe.of(x.expr(), residual.expr(), model_dims, picks);
                }
                combined
            },
        };
        let x = self.post_feedforward_layernorm.forward(&x)?;
        let out = residual.plus(&x)?;
        proof {
            assert(self.are_picks(residual.expr(), model_dims, picks));
        }
        Ok(out)
    }

    /// Runs layer `i` on a hidden state, against its cache entry.
    pub(crate) fn forward(
        &self,
        i: usize,
        xs: &Traced,
        mask: Option<&Traced>,
        index_pos: usize,
        cache_slot: &mut Option<(Traced, Traced)>,
        shared_kv_states: &mut SharedKvStates,
        inputs: &Option<Traced>,
        b_sz: usize,
        seq_len: usize,
        hidden: usize,
    ) -> (r: Result<Traced, ModelError>)
        requires
            xs.dtype() == candle_core::DType::F32,
            old(shared_kv_states).has_dtype(candle_core::DType::F32),
            attention::mask_has_columns(mask),
        ensures
            r is Ok ==> final(shared_kv_states).has_dtype(candle_core::DType::F32),
            r matches Ok(t) ==> {
                &&& !self.attn_refuses(old(shared_kv_states)@)
                &&& self.per_layer is Some <==> *inputs is Some
                &&& xs.dims().len() == 3
                &&& t.dtype() == candle_core::DType::F32
                &&& self.kv is Compute ==> (attention::slot_view(*old(cache_slot)) matches Some(
                    old,
                ) ==> old.k_dims.len() > 2 && old.k_dims[2] + xs.dims()[1] <= usize::MAX)
                &&& exists|picks: Seq<Seq<usize>>| #[trigger]
                    self.are_picks(
                        self.attended(
                            xs.expr(),
                            xs.dims(),
                            attention::mask_view(mask),
                            index_pos as nat,
                            attention::slot_view(*old(cache_slot)),
                            old(shared_kv_states)@,
                        ),
                        moe::model_dims(b_sz, seq_len, hidden),
                        picks,
                    ) && ({
                        let step = self.step(
                            i as nat,
                            xs.expr(),
                            xs.dims(),
                            attention::mask_view(mask),
                            index_pos as nat,
                            attention::slot_view(*old(cache_slot)),
                            old(shared_kv_states)@,
                            inputs_view(*inputs),
                            moe::model_dims(b_sz, seq_len, hidden),
                            picks,
                        );
                        &&& t.expr() == step.xs
                        &&& t.dims() == step.dims
                        &&& attention::slot_view(*final(cache_slot)) == step.slot
                        &&& final(shared_kv_states)@ == step.shared
                    })
            },
            r matches Err(e) ==> self.may_fail_with(
                i as int,
                xs.dims(),
                attention::slot_view(*old(cache_slot)),
                old(shared_kv_states)@,
                *inputs is Some,
                moe::model_dims(b_sz, seq_len, hidden),
                e,
            ),
            self.kv is Shared ==> *final(cache_slot) == *old(cache_slot) && *final(shared_kv_states)
                == *old(shared_kv_states),
            r is Err ==> *final(cache_slot) == *old(cache_slot) || attention::slot_view(
                *final(cache_slot),
            ) == self.attn(
                self.input_layernorm.of(xs.expr()),
                xs.dims(),
                attention::mask_view(mask),
                index_pos as nat,
                attention::slot_view(*old(cache_slot)),
                old(shared_kv_states)@,
            ).slot,
            self.can_run(
                i as int,
                *xs,
                mask,
                index_pos,
                *old(cache_slot),
                *old(shared_kv_states),
                *inputs,
            ) && xs.dims() == moe::model_dims(b_sz, seq_len, hidden) ==> {
                let keys = self.key_count(index_pos as int, seq_len as int);
                &&& r matches Ok(t) && t.is_ready() && t.dims() == xs.dims()
                &&& self.slot_fits(*final(cache_slot), b_sz, index_pos + seq_len)
                &&& final(shared_kv_states).at(!self.is_global) == old(shared_kv_states).at(
                    !self.is_global,
                )
                &&& if self.kv is Compute && self.store_shared_kv {
                    final(shared_kv_states).at(self.is_global) matches Some(kv) && attention::kv_is(
                        kv,
                        self.key_dims(b_sz, keys),
                        candle_core::DType::F32,
                    )
                } else {
                    final(shared_kv_states).at(self.is_global) == old(shared_kv_states).at(
                        self.is_global,
                    )
                }
            },
    {
        let ghost fits = self.can_run(
            i as int,
            *xs,
            mask,
            index_pos,
            *old(cache_slot),
            *old(shared_kv_states),
            *inputs,
        ) && xs.dims() == moe::model_dims(b_sz, seq_len, hidden);
        proof {
            if fits {
                assert(xs.dims()[0] == b_sz && xs.dims()[1] == seq_len && xs.dims()[2] == hidden);
                assert(tensor::can_broadcast(xs.dims(), self.layer_scalar.dims()));
                assert(tensor::broadcast_dims(xs.dims(), self.layer_scalar.dims()) =~= xs.dims());
            }
        }
        let x1 = self.input_layernorm.forward(xs)?;
        let x1 = self.forward_attn(&x1, mask, index_pos, cache_slot, shared_kv_states)?;
        let x1 = self.post_attention_layernorm.forward(&x1)?;
        let xs_attn = x1.plus(xs)?;
        let xs_mlp = self.feed_forward(&xs_attn, b_sz, seq_len, hidden)?;
        let xs_mixed = match (&self.per_layer, inputs) {
            (Some(per_layer), Some(inputs)) => per_layer.forward(&xs_mlp, inputs, i)?,
            (None, None) => xs_mlp,
            _ => {
                return Err(ModelError::PerLayerMismatch { layer: i });
            },
        };
        xs_mixed.broadcast_mul(&self.layer_scalar)
    }
}

/// The record of per-layer inputs that may be absent.
pub open spec fn inputs_view(inputs: Option<Traced>) -> Option<Expr> {
    match inputs {
        Some(inputs) => Some(inputs.expr()),
        None => None,
    }
}

} // verus!
