//! Attention of a float model.

use super::block::{self, FloatNorm};
use super::config::Gemma4TextConfig;
use crate::attention::{self, KvView, SharedKvStates, SharedView};
use crate::error::{ModelError, Setting};
use crate::rotary::RotaryEmbedding;
use crate::tensor::layers::{
    self, CacheView, Filling, GrowingCache, Params, Place, Projection, RollingCache,
};
use crate::tensor::{self, Expr, Number, Traced, UnaryOp};
use vstd::prelude::*;

verus! {

/// The cache of a layer: full layers keep everything, sliding ones the last positions.
pub enum LayerCache {
    Normal(GrowingCache),
    Rotating(RollingCache),
}

impl LayerCache {
    /// What contracts see.
    pub open spec fn view(&self) -> CacheView {
        match self {
            LayerCache::Normal(c) => c@,
            LayerCache::Rotating(c) => c@,
        }
    }

    /// Two caches of one kind and size.
    pub open spec fn is_like(&self, other: LayerCache) -> bool {
        match (*self, other) {
            (LayerCache::Normal(a), LayerCache::Normal(b)) => a.limit() == b.limit(),
            (LayerCache::Rotating(a), LayerCache::Rotating(b)) => a.limit() == b.limit(),
            _ => false,
        }
    }

    /// What the cache holds after more was appended.
    pub open spec fn pushed(&self, new: KvView) -> CacheView {
        self@.push(new.k, new.v, new.k_dims[2] as nat, new.v_dims[2] as nat)
    }

    /// What is attended after more was appended.
    pub open spec fn attended(&self, new: KvView) -> KvView {
        let seen = self.pushed(new);
        match self {
            LayerCache::Normal(c) => KvView {
                k: layers::appended(c.limit(), seen.ks),
                v: layers::appended(c.limit(), seen.vs),
                k_dims: new.k_dims.update(2, seen.k_len as usize),
                v_dims: new.v_dims.update(2, seen.v_len as usize),
            },
            LayerCache::Rotating(c) => KvView {
                k: layers::rolled(c.limit(), seen.ks, new.k_dims[2] as nat),
                v: layers::rolled(c.limit(), seen.vs, new.v_dims[2] as nat),
                k_dims: new.k_dims.update(
                    2,
                    layers::rolled_len(c.limit(), seen.k_len, new.k_dims[2] as nat) as usize,
                ),
                v_dims: new.v_dims.update(
                    2,
                    layers::rolled_len(c.limit(), seen.v_len, new.v_dims[2] as nat) as usize,
                ),
            },
        }
    }

    /// What the cache was filled with in main memory since it was last emptied, if anything.
    pub open spec fn filling(&self) -> Option<Filling> {
        match self {
            LayerCache::Normal(c) => c.filling(),
            LayerCache::Rotating(c) => c.filling(),
        }
    }

    /// The cache has room for some positions.
    pub open spec fn has_size(&self) -> bool {
        match self {
            LayerCache::Normal(c) => c.limit() > 0,
            LayerCache::Rotating(c) => c.limit() > 0,
        }
    }

    /// The number of positions that the cache makes room for at a time, or holds.
    pub open spec fn size(&self) -> nat {
        match self {
            LayerCache::Normal(c) => c.limit() as nat,
            LayerCache::Rotating(c) => c.limit() as nat,
        }
    }

    /// The number of positions that are attended once so many more were appended.
    pub open spec fn keys_with(&self, more: nat) -> nat {
        match self {
            LayerCache::Normal(c) => self@.k_len + more,
            LayerCache::Rotating(c) => layers::rolled_len(c.limit(), self@.k_len + more, more),
        }
    }

    /// What appending keys and values of these shapes can fail with.
    pub open spec fn append_may_fail_with(
        &self,
        k_dims: Seq<usize>,
        v_dims: Seq<usize>,
        e: ModelError,
    ) -> bool {
        match self {
            LayerCache::Normal(c) => c.append_may_fail_with(k_dims, v_dims, e),
            LayerCache::Rotating(c) => c.append_may_fail_with(k_dims, v_dims, e),
        }
    }

    /// Appends keys and values, and gives what is to be attended.
    pub(crate) fn append(&mut self, k: &Traced, v: &Traced) -> (r: Result<
        (Traced, Traced),
        ModelError,
    >)
        ensures
            final(self).is_like(*old(self)),
            r matches Ok(kv) ==> {
                let new = attention::kv_view((*k, *v));
                &&& final(self)@ == old(self).pushed(new)
                &&& attention::kv_view(kv) == old(self).attended(new)
                &&& kv.1.dtype() == v.dtype()
            },
            r matches Err(e) ==> old(self).append_may_fail_with(k.dims(), v.dims(), e),
            layers::can_fill(old(self).filling(), *k, *v) && k.dims().len() == 4
                && old(self).has_size() && !old(self).append_may_fail_with(
                k.dims(),
                v.dims(),
                ModelError::ShapeTooLarge,
            ) ==> (r matches Ok(kv) && kv.0.is_local() && kv.1.is_local() && kv.0.dtype()
                == k.dtype() && final(self).filling() == Some(layers::filling_of(*k))),
    {
        match self {
            LayerCache::Normal(c) => c.append(k, v),
            LayerCache::Rotating(c) => c.append(k, v),
        }
    }

    /// Empties the cache.
    pub(crate) fn reset(&mut self)
        ensures
            final(self)@ == CacheView::empty(),
            final(self).filling() is None,
            final(self).is_like(*old(self)),
    {
        match self {
            LayerCache::Normal(c) => c.reset(),
            LayerCache::Rotating(c) => c.reset(),
        }
    }
}

/// Where a layer's keys and values come from.
pub enum FloatKvSource {
    Computed {
        k_proj: Projection,
        v_proj: Option<Projection>,
        k_norm: FloatNorm,
        num_kv_heads: usize,
        rms_norm_eps: Number,
        /// The layer puts its keys and values aside for those that share them.
        store_full_length_kv: bool,
    },
    Shared,
}

/// The attention part of a layer.
pub struct Attention {
    pub kv: FloatKvSource,
    pub q_proj: Projection,
    pub o_proj: Projection,
    pub q_norm: FloatNorm,
    pub num_heads: usize,
    pub num_kv_groups: usize,
    pub head_dim: usize,
    pub is_sliding: bool,
    pub rotary: RotaryEmbedding,
    pub use_flash_attn: bool,
}

/// What attention leaves behind.
pub ghost struct FloatAttnStep {
    pub out: Expr,
    pub dims: Seq<usize>,
    pub cache: CacheView,
    pub shared: SharedView,
}

impl Attention {
    /// The shape of a projection seen as heads.
    pub open spec fn head_dims(&self, dims: Seq<usize>, heads: usize) -> Seq<usize> {
        seq![dims[0], heads, dims[1], self.head_dim]
    }

    /// The record of a projection seen as heads.
    pub open spec fn heads(&self, x: Expr, dims: Seq<usize>, heads: usize) -> Expr {
        tensor::transposed(
            tensor::reshaped(x, seq![dims[0], dims[1], heads, self.head_dim]),
            1,
            2,
        )
    }

    /// The shape of the normalised queries.
    pub open spec fn q_dims(&self, dims: Seq<usize>) -> Seq<usize> {
        self.q_norm.dims_of(self.head_dims(dims, self.num_heads))
    }

    /// The record of a normalised and rotated projection.
    pub open spec fn rotated(
        &self,
        norm: &FloatNorm,
        x: Expr,
        dims: Seq<usize>,
        heads: usize,
        offset: nat,
        dtype: candle_core::DType,
    ) -> Expr {
        let (cos, sin) = self.rotary.rows(offset, self.q_dims(dims)[2] as nat);
        let normed = norm.of(self.heads(x, dims, heads), self.head_dims(dims, heads), dtype);
        tensor::roped(tensor::unary(UnaryOp::Contiguous, normed), cos, sin)
    }

    /// The keys and values that the layer computes for the new positions.
    pub open spec fn new_kv(
        &self,
        x: Expr,
        dims: Seq<usize>,
        offset: nat,
        dtype: candle_core::DType,
    ) -> KvView {
        match self.kv {
            FloatKvSource::Computed { k_proj, v_proj, k_norm, num_kv_heads, rms_norm_eps, .. } => {
                let k = k_proj.of(x);
                let v = match v_proj {
                    Some(v_proj) => v_proj.of(x),
                    None => k,
                };
                KvView {
                    k: self.rotated(&k_norm, k, dims, num_kv_heads, offset, dtype),
                    v: attention::v_norm_expr(
                        self.heads(v, dims, num_kv_heads),
                        rms_norm_eps.expr(),
                        dtype,
                    ),
                    k_dims: k_norm.dims_of(self.head_dims(dims, num_kv_heads)),
                    v_dims: self.head_dims(dims, num_kv_heads),
                }
            },
            FloatKvSource::Shared => arbitrary(),
        }
    }

    /// What attention leaves behind, `x` being of shape `dims` and element type `dtype`.
    pub open spec fn attn(
        &self,
        x: Expr,
        dims: Seq<usize>,
        dtype: candle_core::DType,
        mask: Option<Expr>,
        offset: nat,
        cache: LayerCache,
        shared: SharedView,
    ) -> FloatAttnStep {
        let new = self.new_kv(x, dims, offset, dtype);
        let (kv, cache, shared) = match self.kv {
            FloatKvSource::Computed { store_full_length_kv, .. } => {
                let kv = cache.attended(new);
                (
                    kv,
                    cache.pushed(new),
                    if store_full_length_kv {
                        shared.set(!self.is_sliding, kv)
                    } else {
                        shared
                    },
                )
            },
            FloatKvSource::Shared => (shared.get(!self.is_sliding)->Some_0, cache@, shared),
        };
        let q = self.rotated(
            &self.q_norm,
            self.q_proj.of(x),
            dims,
            self.num_heads,
            offset,
            dtype,
        );
        let attended = attention::attend_expr(q, kv, self.num_kv_groups, mask, dtype);
        let joined_dims = seq![dims[0], dims[1], (self.num_heads * self.head_dim) as usize];
        let joined = tensor::reshaped(tensor::transposed(attended, 1, 2), joined_dims);
        FloatAttnStep {
            out: self.o_proj.of(joined),
            dims: self.o_proj.dims_of(joined_dims),
            cache,
            shared,
        }
    }

    /// A projection seen as heads.
    fn split_heads(&self, x: &Traced, b_sz: usize, seq_len: usize, heads: usize) -> (r: Result<
        Traced,
        ModelError,
    >)
        ensures
            r matches Ok(t) ==> t.expr() == self.heads(x.expr(), seq![b_sz, seq_len], heads)
                && t.dims() == self.head_dims(seq![b_sz, seq_len], heads) && t.dtype()
                == x.dtype(),
            r matches Err(e) ==> e is Candle || (e is ShapeTooLarge && !tensor::countable(
                seq![b_sz, seq_len, heads, self.head_dim],
            )),
            x.is_local() && tensor::has_products(x.dtype()) && heads * self.head_dim <= usize::MAX
                && x.dims() == seq![b_sz, seq_len, (heads * self.head_dim) as usize]
                && tensor::countable(seq![b_sz, seq_len, heads, self.head_dim]) ==> (r matches Ok(t)
                && t.is_local()),
    {
        proof {
            if heads * self.head_dim <= usize::MAX {
                tensor::lemma_count_3(b_sz, seq_len, (heads * self.head_dim) as usize);
                tensor::lemma_count_4(b_sz, seq_len, heads, self.head_dim);
                let (a, b, c, d) = (b_sz, seq_len, heads, self.head_dim);
                assert(a * b * (c * d) == a * b * c * d) by (nonlinear_arith);
            }
        }
        let mut shape: Vec<usize> = Vec::new();
        shape.push(b_sz);
        shape.push(seq_len);
        shape.push(heads);
        shape.push(self.head_dim);
        assert(shape@ =~= seq![b_sz, seq_len, heads, self.head_dim]);
        let split = x.reshape(&shape)?;
        assert(tensor::swapped_dims(split.dims(), 1, 2) =~= self.head_dims(
            seq![b_sz, seq_len],
            heads,
        ));
        split.transpose(1, 2)
    }

    /// The keys and values that are attended.
    pub open spec fn attended_kv(
        &self,
        x: Expr,
        dims: Seq<usize>,
        dtype: candle_core::DType,
        offset: nat,
        cache: LayerCache,
        shared: SharedView,
    ) -> KvView {
        match self.kv {
            FloatKvSource::Computed { .. } => cache.attended(self.new_kv(x, dims, offset, dtype)),
            FloatKvSource::Shared => shared.get(!self.is_sliding)->Some_0,
        }
    }

    /// Queries or keys of this shape have no positions or entries to rotate.
    pub open spec fn cannot_rotate(&self, dims: Seq<usize>) -> bool {
        dims.len() == 4 && (dims[2] == 0 || dims[3] == 0)
    }

    /// `usize` cannot count the entries of the queries, keys or values, or what the cache is to
    /// hold.
    pub open spec fn attn_too_large(
        &self,
        x: Expr,
        dims: Seq<usize>,
        dtype: candle_core::DType,
        offset: nat,
        cache: LayerCache,
        shared: SharedView,
    ) -> bool {
        let new = self.new_kv(x, dims, offset, dtype);
        let kv = self.attended_kv(x, dims, dtype, offset, cache, shared);
        ||| !tensor::countable(seq![dims[0], dims[1], self.num_heads, self.head_dim])
        ||| (self.kv matches FloatKvSource::Computed { num_kv_heads, .. } && !tensor::countable(
            seq![dims[0], dims[1], num_kv_heads, self.head_dim],
        ))
        ||| self.kv is Computed && cache.append_may_fail_with(
            new.k_dims,
            new.v_dims,
            ModelError::ShapeTooLarge,
        )
        ||| attention::repeat_too_large(kv.k_dims, self.num_kv_groups)
        ||| attention::repeat_too_large(kv.v_dims, self.num_kv_groups)
        ||| self.num_heads * self.head_dim > usize::MAX
        ||| !tensor::countable(seq![dims[0], dims[1], (self.num_heads * self.head_dim) as usize])
    }

    /// What attention can fail with on an input of shape `dims` and element type `dtype`.
    pub open spec fn may_fail_with(
        &self,
        x: Expr,
        dims: Seq<usize>,
        dtype: candle_core::DType,
        offset: nat,
        cache: LayerCache,
        shared: SharedView,
        e: ModelError,
    ) -> bool {
        let new = self.new_kv(x, dims, offset, dtype);
        let kv = self.attended_kv(x, dims, dtype, offset, cache, shared);
        match e {
            ModelError::Candle(_) => true,
            ModelError::NoFlashAttention => dims.len() == 3 && self.use_flash_attn,
            ModelError::Rank { .. } => {
                ||| dims.len() != 3
                ||| self.q_dims(dims).len() != 4
                ||| self.kv is Computed && layers::lack_positions(new.k_dims, new.v_dims)
                ||| kv.k_dims.len() != 4
                ||| kv.v_dims.len() != 4
            },
            ModelError::EmptyAxis => {
                ||| self.cannot_rotate(self.q_dims(dims))
                ||| self.kv is Computed && self.cannot_rotate(new.k_dims)
                ||| self.kv is Computed && cache.append_may_fail_with(
                    new.k_dims,
                    new.v_dims,
                    ModelError::EmptyAxis,
                )
                ||| kv.k_dims[2] == 0
            },
            ModelError::DonorMissing => dims.len() == 3 && self.kv is Shared && shared.get(
                !self.is_sliding,
            ) is None,
            ModelError::ShapeTooLarge => dims.len() == 3 && self.attn_too_large(
                x,
                dims,
                dtype,
                offset,
                cache,
                shared,
            ),
            _ => false,
        }
    }

    /// The number of positions that the rotary tables cover.
    pub open spec fn positions(&self) -> usize {
        self.rotary.table_dims().0[0]
    }

    /// The weights lie in main memory and fit each other, so many entries per position and this
    /// element type.
    pub open spec fn is_fit(&self, hidden: usize, dtype: candle_core::DType) -> bool {
        let width = self.num_heads * self.head_dim;
        &&& !self.use_flash_attn
        &&& self.num_heads > 0
        &&& self.num_kv_groups > 0
        &&& self.head_dim > 0
        &&& self.head_dim % 2 == 0
        &&& width <= usize::MAX
        &&& self.q_proj.fits(hidden, width as usize, dtype)
        &&& self.o_proj.fits(width as usize, hidden, dtype)
        &&& self.q_norm.fits(self.head_dim, dtype)
        &&& match self.kv {
            FloatKvSource::Computed { k_proj, v_proj, k_norm, num_kv_heads, .. } => {
                let kv_width = num_kv_heads * self.head_dim;
                &&& num_kv_heads > 0
                &&& num_kv_heads * self.num_kv_groups == self.num_heads
                &&& kv_width <= usize::MAX
                &&& k_proj.fits(hidden, kv_width as usize, dtype)
                &&& v_proj matches Some(v_proj) ==> v_proj.fits(hidden, kv_width as usize, dtype)
                &&& k_norm.fits(self.head_dim, dtype)
            },
            FloatKvSource::Shared => true,
        }
        &&& self.rotary.is_ready(dtype)
        &&& self.rotary.has_shape(self.positions(), self.head_dim / 2)
    }

    /// The shape of the layer's keys and values over so many positions.
    pub open spec fn key_dims(&self, batch: usize, positions: nat) -> Seq<usize> {
        match self.kv {
            FloatKvSource::Computed { num_kv_heads, .. } => seq![
                batch,
                num_kv_heads,
                positions as usize,
                self.head_dim,
            ],
            FloatKvSource::Shared => arbitrary(),
        }
    }

    /// A cache in main memory that has taken so many positions of the layer's keys and values. A layer
    /// that shares does not look at it.
    pub open spec fn cache_fits(
        &self,
        cache: LayerCache,
        batch: usize,
        pos: nat,
        dtype: candle_core::DType,
    ) -> bool {
        self.kv is Computed ==> {
            &&& cache.has_size()
            &&& cache@.k_len == pos
            &&& cache@.v_len == pos
            &&& match cache.filling() {
                Some(filling) => filling == (Filling { dims: self.key_dims(batch, 0), dtype }),
                None => true,
            }
        }
    }

    /// What was put aside for the layer, in main memory: keys and values that its queries fit.
    pub open spec fn aside_fits(
        &self,
        kv: (Traced, Traced),
        batch: usize,
        keys: nat,
        dtype: candle_core::DType,
    ) -> bool {
        exists|heads: usize|
            #![trigger heads * self.num_kv_groups]
            heads * self.num_kv_groups == self.num_heads && attention::kv_lies(
                kv,
                seq![batch, heads, keys as usize, self.head_dim],
                dtype,
            )
    }

    /// A hidden state, a mask, a cache and what was put aside lie in main memory and fit the layer's
    /// attention over so many positions, and `usize` can count what comes of them.
    pub open spec fn attn_fits(
        &self,
        xs: Traced,
        mask: Option<&Traced>,
        offset: usize,
        keys: nat,
        cache: LayerCache,
        shared: SharedKvStates,
    ) -> bool {
        let dims = xs.dims();
        &&& block::is_state(xs)
        &&& dims.len() == 3
        &&& self.is_fit(dims[2], xs.dtype())
        &&& offset + dims[1] <= self.positions()
        &&& 0 < keys <= usize::MAX
        &&& self.cache_fits(cache, dims[0], offset as nat, xs.dtype())
        &&& match self.kv {
            FloatKvSource::Computed { .. } => keys == cache.keys_with(dims[1] as nat),
            FloatKvSource::Shared => shared.at(!self.is_sliding) matches Some(kv)
                && self.aside_fits(kv, dims[0], keys, xs.dtype()),
        }
        &&& mask matches Some(mask) ==> mask.is_local() && mask.dtype() == xs.dtype() && mask.dims()
            == seq![dims[0], 1, dims[1], keys as usize]
        &&& !self.attn_too_large(
            xs.expr(),
            dims,
            xs.dtype(),
            offset as nat,
            cache,
            shared@,
        )
    }

    /// What attention that fits leaves behind: its cache has taken the new positions, and what it puts
    /// aside lies in main memory.
    pub open spec fn leaves(
        &self,
        before: SharedKvStates,
        after: SharedKvStates,
        cache: LayerCache,
        batch: usize,
        pos: nat,
        keys: nat,
        dtype: candle_core::DType,
    ) -> bool {
        &&& self.cache_fits(cache, batch, pos, dtype)
        &&& after.at(self.is_sliding) == before.at(self.is_sliding)
        &&& match self.kv {
            FloatKvSource::Computed { store_full_length_kv, .. } => if store_full_length_kv {
                after.at(!self.is_sliding) matches Some(kv) && attention::kv_lies(
                    kv,
                    self.key_dims(batch, keys),
                    dtype,
                )
            } else {
                after.at(!self.is_sliding) == before.at(!self.is_sliding)
            },
            FloatKvSource::Shared => after.at(!self.is_sliding) == before.at(!self.is_sliding),
        }
    }

    /// The shapes of projections and norms that fit.
    proof fn lemma_attn_dims(&self, dims: Seq<usize>, dtype: candle_core::DType)
        requires
            dims.len() == 3,
            tensor::has_entries(dims),
            self.is_fit(dims[2], dtype),
        ensures
            self.q_proj.dims_of(dims) == seq![
                dims[0],
                dims[1],
                (self.num_heads * self.head_dim) as usize,
            ],
            self.q_proj.rows() == self.num_heads * self.head_dim,
            self.q_proj.rows() > 0,
            self.o_proj.rows() == dims[2],
            self.q_dims(dims) == self.head_dims(dims, self.num_heads),
            match self.kv {
                FloatKvSource::Computed { k_proj, v_proj, k_norm, num_kv_heads, .. } => {
                    let wide = seq![dims[0], dims[1], (num_kv_heads * self.head_dim) as usize];
                    &&& k_proj.dims_of(dims) == wide
                    &&& k_proj.rows() == num_kv_heads * self.head_dim
                    &&& k_proj.rows() > 0
                    &&& k_norm.dims_of(self.head_dims(dims, num_kv_heads)) == self.head_dims(
                        dims,
                        num_kv_heads,
                    )
                    &&& v_proj matches Some(v_proj) ==> v_proj.dims_of(dims) == wide && v_proj.rows()
                        == num_kv_heads * self.head_dim
                },
                FloatKvSource::Shared => true,
            },
    {
        let (h, d) = (self.num_heads as int, self.head_dim as int);
        let width = (h * d) as usize;
        assert(h * d > 0) by (nonlinear_arith)
            requires
                h > 0,
                d > 0,
        ;
        self.q_proj.lemma_fit_dims(dims[2], width, dtype, dims);
        assert(tensor::with_last(dims, width) =~= seq![dims[0], dims[1], width]);
        self.o_proj.lemma_fit_dims(width, dims[2], dtype, seq![dims[0], dims[1], width]);
        self.q_norm.lemma_fit_dims(self.head_dims(dims, self.num_heads), dtype);
        match self.kv {
            FloatKvSource::Computed { k_proj, v_proj, k_norm, num_kv_heads, .. } => {
                let k = num_kv_heads as int;
                assert(k * d > 0) by (nonlinear_arith)
                    requires
                        k > 0,
                        d > 0,
                ;
                let wide = (k * d) as usize;
                assert(tensor::with_last(dims, wide) =~= seq![dims[0], dims[1], wide]);
                k_proj.lemma_fit_dims(dims[2], wide, dtype, dims);
                k_norm.lemma_fit_dims(self.head_dims(dims, num_kv_heads), dtype);
                if let Some(v_proj) = v_proj {
                    v_proj.lemma_fit_dims(dims[2], wide, dtype, dims);
                }
            },
            FloatKvSource::Shared => {},
        }
    }

    /// Where `usize` can count the entries of all heads over all positions of a batch and the room of
    /// the cache, it can count everything that attention makes.
    pub(crate) proof fn lemma_attn_counts(
        &self,
        x: Expr,
        dims: Seq<usize>,
        dtype: candle_core::DType,
        offset: usize,
        keys: nat,
        cache: LayerCache,
        shared: SharedKvStates,
    )
        requires
            dims.len() == 3,
            tensor::has_entries(dims),
            self.is_fit(dims[2], dtype),
            dims[0] * (offset + dims[1] + cache.size()) * self.num_heads * self.head_dim
                <= usize::MAX,
            self.cache_fits(cache, dims[0], offset as nat, dtype),
            0 < keys <= offset + dims[1] + cache.size(),
            match self.kv {
                FloatKvSource::Computed { .. } => keys == cache.keys_with(dims[1] as nat),
                FloatKvSource::Shared => shared.at(!self.is_sliding) matches Some(kv)
                    && self.aside_fits(kv, dims[0], keys, dtype),
            },
        ensures
            !self.attn_too_large(x, dims, dtype, offset as nat, cache, shared@),
    {
        let (b, s) = (dims[0] as int, dims[1] as int);
        let (h, d, g) = (self.num_heads as int, self.head_dim as int, self.num_kv_groups as int);
        let room = offset + s + cache.size();
        assert(dims[0] > 0 && dims[1] > 0);
        self.lemma_attn_dims(dims, dtype);
        let k = match self.kv {
            FloatKvSource::Computed { num_kv_heads, .. } => num_kv_heads as int,
            FloatKvSource::Shared => {
                let kv = shared.at(!self.is_sliding)->Some_0;
                let heads = choose|heads: usize|
                    #![trigger heads * self.num_kv_groups]
                    heads * self.num_kv_groups == self.num_heads && attention::kv_lies(
                        kv,
                        seq![dims[0], heads, keys as usize, self.head_dim],
                        dtype,
                    );
                heads as int
            },
        };
        assert(0 < k <= h && 0 < g <= h) by (nonlinear_arith)
            requires
                k * g == h,
                h > 0,
                k >= 0,
                g >= 0,
        ;
        assert(room <= b * room * h * d && room * g <= b * room * h * d) by (nonlinear_arith)
            requires
                b > 0,
                h > 0,
                d > 0,
                0 < g <= h,
                room > 0,
        ;
        assert(keys * g <= room * g) by (nonlinear_arith)
            requires
                0 < keys <= room,
                g > 0,
        ;
        lemma_counted(dims[0], dims[1], self.num_heads, self.head_dim, room, h);
        lemma_counted(dims[0], dims[1], k as usize, self.head_dim, room, h);
        lemma_counted(dims[0], keys as usize, self.num_heads, self.head_dim, room, h);
        tensor::lemma_count_3(dims[0], dims[1], (h * d) as usize);
        assert(b * s * (h * d) == b * s * h * d) by (nonlinear_arith);
        tensor::lemma_countable(seq![dims[0], dims[1], (h * d) as usize]);
        if let FloatKvSource::Computed { num_kv_heads, .. } = self.kv {
            let new = self.new_kv(x, dims, offset as nat, dtype);
            let size = cache.size();
            let grown = layers::grown_room(size as usize, (offset + s) as nat);
            assert(new.k_dims =~= seq![dims[0], num_kv_heads, dims[1], self.head_dim]);
            assert(new.v_dims =~= new.k_dims);
            lemma_counted(dims[0], size as usize, num_kv_heads, self.head_dim, room, h);
            lemma_counted(dims[0], grown as usize, num_kv_heads, self.head_dim, room, h);
            assert(new.k_dims.update(2, size as usize) =~= seq![
                dims[0],
                num_kv_heads,
                size as usize,
                self.head_dim,
            ]);
            assert(new.k_dims.update(2, grown as usize) =~= seq![
                dims[0],
                num_kv_heads,
                grown as usize,
                self.head_dim,
            ]);
            assert(cache.attended(new).k_dims =~= self.key_dims(dims[0], keys));
            assert(cache.attended(new).v_dims =~= self.key_dims(dims[0], keys));
        }
    }

    /// Attention over the cached and the new positions.
    pub(crate) fn forward(
        &self,
        xs: &Traced,
        mask: Option<&Traced>,
        seqlen_offset: usize,
        cache: &mut LayerCache,
        shared_kv_states: &mut SharedKvStates,
    ) -> (r: Result<Traced, ModelError>)
        requires
            tensor::is_float(xs.dtype()),
            old(shared_kv_states).has_dtype(xs.dtype()),
            attention::mask_has_columns(mask),
        ensures
            final(cache).is_like(*old(cache)),
            r is Ok ==> final(shared_kv_states).has_dtype(xs.dtype()),
            r matches Ok(t) ==> {
                let step = self.attn(
                    xs.expr(),
                    xs.dims(),
                    xs.dtype(),
                    attention::mask_view(mask),
                    seqlen_offset as nat,
                    *old(cache),
                    old(shared_kv_states)@,
                );
                &&& !self.use_flash_attn
                &&& xs.dims().len() == 3
                &&& self.kv is Shared ==> old(shared_kv_states)@.get(!self.is_sliding) is Some
                &&& t.expr() == step.out
                &&& t.dims() == step.dims
                &&& t.dtype() == xs.dtype()
                &&& final(cache)@ == step.cache
                &&& final(shared_kv_states)@ == step.shared
            },
            xs.dims().len() != 3 ==> r == Err::<Traced, ModelError>(
                ModelError::Rank { expected: 3, got: xs.dims().len() as usize },
            ),
            self.use_flash_attn && xs.dims().len() == 3 ==> r == Err::<Traced, ModelError>(
                ModelError::NoFlashAttention,
            ),
            self.kv is Shared && old(shared_kv_states)@.get(!self.is_sliding) is None ==> r is Err,
            r matches Err(e) ==> self.may_fail_with(
                xs.expr(),
                xs.dims(),
                xs.dtype(),
                seqlen_offset as nat,
                *old(cache),
                old(shared_kv_states)@,
                e,
            ),
            self.kv is Shared ==> *final(cache) == *old(cache) && *final(shared_kv_states) == *old(
                shared_kv_states,
            ),
            forall|keys: nat| #[trigger]
                self.attn_fits(
                    *xs,
                    mask,
                    seqlen_offset,
                    keys,
                    *old(cache),
                    *old(shared_kv_states),
                ) ==> {
                    &&& r matches Ok(t) && t.is_ready() && t.dims() == xs.dims()
                    &&& self.leaves(
                        *old(shared_kv_states),
                        *final(shared_kv_states),
                        *final(cache),
                        xs.dims()[0],
                        (seqlen_offset + xs.dims()[1]) as nat,
                        keys,
                        xs.dtype(),
                    )
                },
    {
        let ghost fits = exists|keys: nat| #[trigger]
            self.attn_fits(
                *xs,
                mask,
                seqlen_offset,
                keys,
                *old(cache),
                *old(shared_kv_states),
            );
        let ghost keys = choose|keys: nat| #[trigger]
            self.attn_fits(
                *xs,
                mask,
                seqlen_offset,
                keys,
                *old(cache),
                *old(shared_kv_states),
            );
        proof {
            reveal_with_fuel(tensor::owns_storage, 3);
            if fits {
                self.lemma_attn_dims(xs.dims(), xs.dtype());
                assert(xs.dims()[0] > 0 && xs.dims()[1] > 0 && xs.dims()[2] > 0);
                assert forall|other: nat| #[trigger]
                    self.attn_fits(
                        *xs,
                        mask,
                        seqlen_offset,
                        other,
                        *old(cache),
                        *old(shared_kv_states),
                    ) implies other == keys by {
                    if self.kv is Shared {
                        let kv = old(shared_kv_states).at(!self.is_sliding)->Some_0;
                        assert(kv.0.dims()[2] == keys as usize);
                        assert(kv.0.dims()[2] == other as usize);
                    }
                }
            }
        }
        let (b_sz, q_len, _hidden): (usize, usize, usize) = xs.dims3()?;
        if self.use_flash_attn {
            return Err(ModelError::NoFlashAttention);
        }
        let ghost two = seq![b_sz, q_len];
        let ghost dims = xs.dims();
        let q = self.q_proj.forward(xs)?;
        let q = self.split_heads(&q, b_sz, q_len, self.num_heads)?;
        let q = self.q_norm.forward(&q)?;
        assert(fits ==> q.dims() =~= seq![b_sz, self.num_heads, q_len, self.head_dim]);
        let q_dims = q.shape();
        if q_dims.len() != 4 {
            return Err(ModelError::Rank { expected: 4, got: q_dims.len() });
        }
        if q_dims[2] == 0 || q_dims[3] == 0 {
            return Err(ModelError::EmptyAxis);
        }
        let (cos, sin) = self.rotary.cos_sin(seqlen_offset, q_dims[2])?;
        proof {
            if fits {
                assert(self.rotary.has_shape(self.positions(), self.head_dim / 2));
                assert(self.rotary.is_ready(xs.dtype()));
                assert(cos.dims() == seq![q_len, self.head_dim / 2]);
            }
        }
        let q = q.contiguous()?;
        let q = q.rope(&cos, &sin)?;
        let (k, v) = match &self.kv {
            FloatKvSource::Computed {
                k_proj,
                v_proj,
                k_norm,
                num_kv_heads,
                rms_norm_eps,
                store_full_length_kv,
            } => {
                let k = k_proj.forward(xs)?;
                let v = match v_proj {
                    Some(v_proj) => v_proj.forward(xs)?,
                    None => k.duplicate(),
                };
                let k = self.split_heads(&k, b_sz, q_len, *num_kv_heads)?;
                let v = self.split_heads(&v, b_sz, q_len, *num_kv_heads)?;
                let k = k_norm.forward(&k)?;
                let k = k.contiguous()?;
                let k_dims = k.shape();
                if k_dims.len() == 4 && (k_dims[2] == 0 || k_dims[3] == 0) {
                    return Err(ModelError::EmptyAxis);
                }
                let k = k.rope(&cos, &sin)?;
                let v = attention::v_norm(&v, rms_norm_eps)?;
                assert(attention::kv_view((k, v)) =~= self.new_kv(
                    xs.expr(),
                    xs.dims(),
                    seqlen_offset as nat,
                    xs.dtype(),
                ));
                proof {
                    if fits {
                        assert(k.dims() =~= self.key_dims(b_sz, q_len as nat));
                        assert(v.dims() =~= k.dims());
                        assert(k.dims().update(2, 0) =~= self.key_dims(b_sz, 0));
                        assert(tensor::has_entries(k.dims()));
                        assert(layers::can_fill(cache.filling(), k, v));
                    }
                }
                let (k, v) = cache.append(&k, &v)?;
                proof {
                    if fits {
                        assert(k.dims() =~= self.key_dims(b_sz, keys));
                        assert(v.dims() =~= self.key_dims(b_sz, keys));
                    }
                }
                if *store_full_length_kv {
                    shared_kv_states.store(!self.is_sliding, &k, &v);
                }
                (k, v)
            },
            FloatKvSource::Shared => {
                match shared_kv_states.fetch(!self.is_sliding) {
                    Some(kv) => kv,
                    None => {
                        return Err(ModelError::DonorMissing);
                    },
                }
            },
        };
        assert(attention::kv_view((k, v)) == self.attended_kv(
            xs.expr(),
            dims,
            xs.dtype(),
            seqlen_offset as nat,
            *old(cache),
            old(shared_kv_states)@,
        ));
        proof {
            if fits {
                if self.kv is Shared {
                    let heads = choose|heads: usize|
                        #![trigger heads * self.num_kv_groups]
                        heads * self.num_kv_groups == self.num_heads && attention::kv_lies(
                            (k, v),
                            seq![b_sz, heads, keys as usize, self.head_dim],
                            xs.dtype(),
                        );
                    assert(heads > 0) by (nonlinear_arith)
                        requires
                            heads * self.num_kv_groups == self.num_heads,
                            self.num_heads > 0,
                            heads >= 0,
                    ;
                    assert(k.dims()[1] == heads);
                }
                assert(attention::can_attend(q, k, v, self.num_kv_groups, mask));
            }
        }
        let attended = attention::attend(&q, k, v, self.num_kv_groups, mask)?;
        let attended = attended.transpose(1, 2)?;
        let width: usize = match self.num_heads.checked_mul(self.head_dim) {
            Some(width) => width,
            None => {
                return Err(ModelError::ShapeTooLarge);
            },
        };
        let mut shape: Vec<usize> = Vec::new();
        shape.push(b_sz);
        shape.push(q_len);
        shape.push(width);
        assert(shape@ =~= seq![b_sz, q_len, width]);
        proof {
            tensor::lemma_count_3(b_sz, q_len, width);
            tensor::lemma_count_4(b_sz, q_len, self.num_heads, self.head_dim);
            let (a, b, c, d) = (b_sz, q_len, self.num_heads, self.head_dim);
            assert(a * b * (c * d) == a * b * c * d) by (nonlinear_arith);
            if fits {
                assert(attended.dims() =~= seq![b_sz, q_len, self.num_heads, self.head_dim]);
                assert(width > 0) by (nonlinear_arith)
                    requires
                        width == c * d,
                        c > 0,
                        d > 0,
                ;
            }
        }
        let joined = attended.reshape(&shape)?;
        proof {
            if fits {
                let hidden = xs.dims()[2];
                self.o_proj.lemma_fit_dims(width, hidden, xs.dtype(), joined.dims());
                assert(tensor::with_last(joined.dims(), hidden) =~= xs.dims());
            }
        }
        self.o_proj.forward(&joined)
    }
}

/// Where all heads can be counted over some positions, fewer of them can be over fewer positions.
proof fn lemma_counted(b: usize, s: usize, h: usize, d: usize, room: int, heads: int)
    requires
        b > 0,
        0 < s <= room,
        0 < h <= heads,
        d > 0,
        b * room * heads * d <= usize::MAX,
    ensures
        0 < b * s * h * d <= usize::MAX,
        tensor::countable(seq![b, s, h, d]),
        tensor::countable(seq![b, h, s, d]),
{
    assert(s * h <= room * heads) by (nonlinear_arith)
        requires
            0 < s <= room,
            0 < h <= heads,
    ;
    assert(0 < b * s * h * d <= b * room * heads * d) by (nonlinear_arith)
        requires
            s * h <= room * heads,
            b > 0,
            s > 0,
            h > 0,
            d > 0,
    ;
    tensor::lemma_count_4(b, s, h, d);
    tensor::lemma_count_4(b, h, s, d);
    assert(b * h * s * d == b * s * h * d) by (nonlinear_arith);
    tensor::lemma_countable(seq![b, s, h, d]);
    tensor::lemma_countable(seq![b, h, s, d]);
}

/// Heads that can be grouped evenly make up their groups.
pub(crate) proof fn lemma_groups(heads: int, kv_heads: int)
    requires
        kv_heads > 0,
        heads >= 0,
        heads % kv_heads == 0,
    ensures
        kv_heads * (heads / kv_heads) == heads,
        heads > 0 ==> heads / kv_heads > 0,
{
    vstd::arithmetic::div_mod::lemma_fundamental_div_mod(heads, kv_heads);
    if heads > 0 {
        assert(heads / kv_heads > 0) by (nonlinear_arith)
            requires
                heads == kv_heads * (heads / kv_heads),
                heads > 0,
                kv_heads > 0,
        ;
    }
}

/// A product of two counts, where it fits.
pub(crate) fn product(a: usize, b: usize) -> (r: Result<usize, ModelError>)
    ensures
        match r {
            Ok(n) => n == a * b,
            Err(e) => e is ShapeTooLarge && a * b > usize::MAX,
        },
{
    match a.checked_mul(b) {
        Some(n) => Ok(n),
        None => Err(ModelError::ShapeTooLarge),
    }
}

/// `usize` cannot count the entries of all query heads, or of all key heads, of layer `i`.
pub open spec fn heads_too_large(cfg: Gemma4TextConfig, i: int) -> bool {
    ||| cfg.num_attention_heads * cfg.head_dim_of(i) > usize::MAX
    ||| (i < cfg.first_shared() && (cfg.kv_heads_of(i) matches Some(n) && n * cfg.head_dim_of(i)
        > usize::MAX))
}

impl Attention {
    /// The attention part of layer `i`, with the parameters below a path.
    pub open spec fn is_at(
        &self,
        cfg: Gemma4TextConfig,
        path: Place,
        i: int,
        rotary: RotaryEmbedding,
    ) -> bool {
        let hidden = cfg.hidden_size;
        let head_dim = cfg.head_dim_of(i);
        let kv_heads = cfg.kv_heads_of(i)->Some_0;
        let q_size = (cfg.num_attention_heads * head_dim) as usize;
        let kv_size = (kv_heads * head_dim) as usize;
        let eps = cfg.rms_norm_eps.expr();
        &&& cfg.kv_heads_of(i) is Some
        &&& kv_heads > 0
        &&& self.num_heads == cfg.num_attention_heads
        &&& self.num_kv_groups == cfg.num_attention_heads as nat / kv_heads as nat
        &&& self.head_dim == head_dim
        &&& self.is_sliding == cfg.slides(i)
        &&& self.use_flash_attn == cfg.use_flash_attn
        &&& self.rotary == rotary
        &&& self.q_proj.is_at(path.push("q_proj"@), hidden, q_size, cfg.attention_bias)
        &&& self.o_proj.is_at(path.push("o_proj"@), q_size, hidden, cfg.attention_bias)
        &&& self.q_norm.is_at(path.push("q_norm"@), head_dim, eps)
        &&& match self.kv {
            FloatKvSource::Shared => i >= cfg.first_shared(),
            FloatKvSource::Computed {
                k_proj,
                v_proj,
                k_norm,
                num_kv_heads,
                rms_norm_eps,
                store_full_length_kv,
            } => {
                &&& i < cfg.first_shared()
                &&& k_proj.is_at(path.push("k_proj"@), hidden, kv_size, cfg.attention_bias)
                &&& match v_proj {
                    Some(v_proj) => !cfg.k_is_v(i) && v_proj.is_at(
                        path.push("v_proj"@),
                        hidden,
                        kv_size,
                        cfg.attention_bias,
                    ),
                    None => cfg.k_is_v(i),
                }
                &&& k_norm.is_at(path.push("k_norm"@), head_dim, eps)
                &&& num_kv_heads == kv_heads
                &&& rms_norm_eps.expr() == eps
                &&& store_full_length_kv == cfg.is_donor(i)
            },
        }
    }

    /// There are the parameters of layer `i`'s attention at a place.
    pub open spec fn has_params(cfg: Gemma4TextConfig, path: Place, i: int) -> bool {
        let hidden = cfg.hidden_size;
        let head_dim = cfg.head_dim_of(i);
        let q_size = (cfg.num_attention_heads * head_dim) as usize;
        let kv_size = (cfg.kv_heads_of(i)->Some_0 * head_dim) as usize;
        let bias = cfg.attention_bias;
        &&& layers::has_projection(path.push("q_proj"@), hidden, q_size, bias)
        &&& layers::has_projection(path.push("o_proj"@), q_size, hidden, bias)
        &&& layers::has_param(path.push("q_norm"@), "weight"@, seq![head_dim])
        &&& i < cfg.first_shared() ==> {
            &&& layers::has_projection(path.push("k_proj"@), hidden, kv_size, bias)
            &&& !cfg.k_is_v(i) ==> layers::has_projection(
                path.push("v_proj"@),
                hidden,
                kv_size,
                bias,
            )
            &&& layers::has_param(path.push("k_norm"@), "weight"@, seq![head_dim])
        }
    }

    /// Layer `i`'s heads can be grouped, rotated and counted.
    pub open spec fn has_settings(cfg: Gemma4TextConfig, i: int) -> bool {
        &&& !cfg.use_flash_attn
        &&& cfg.num_attention_heads > 0
        &&& cfg.kv_heads_of(i) matches Some(n) && n > 0 && cfg.num_attention_heads % n == 0
        &&& cfg.head_dim_of(i) > 0
        &&& cfg.head_dim_of(i) % 2 == 0
    }

    /// The attention part of layer `i`, with the parameters below a path.
    pub(crate) fn new(
        rotary: RotaryEmbedding,
        cfg: &Gemma4TextConfig,
        i: usize,
        params: &Params,
    ) -> (r: Result<Attention, ModelError>)
        requires
            i < cfg.num_hidden_layers <= cfg.layer_types@.len(),
        ensures
            r matches Ok(a) ==> a.is_at(*cfg, params.path(), i as int, rotary),
            r is Ok ==> !heads_too_large(*cfg, i as int),
            r matches Err(e) ==> e is Candle || e is NoKvHeads || e == (
            ModelError::MissingSetting(Setting::NumGlobalKeyValueHeads)) || (e is ShapeTooLarge
                && heads_too_large(*cfg, i as int)),
            cfg.kv_heads_of(i as int) is None ==> r == Err::<Attention, ModelError>(
                ModelError::MissingSetting(Setting::NumGlobalKeyValueHeads),
            ),
            cfg.kv_heads_of(i as int) == Some(0usize) ==> r == Err::<Attention, ModelError>(
                ModelError::NoKvHeads,
            ),
            (r matches Err(e) && e is NoKvHeads) ==> cfg.kv_heads_of(i as int) == Some(0usize),
            (r matches Err(e) && e is MissingSetting) ==> cfg.kv_heads_of(i as int) is None,
            Attention::has_params(*cfg, params.path(), i as int) && !heads_too_large(*cfg, i as int)
                ==> (r is Ok <==> (cfg.kv_heads_of(i as int) matches Some(n) && n > 0)),
            Attention::has_params(*cfg, params.path(), i as int) && !heads_too_large(*cfg, i as int)
                && Attention::has_settings(*cfg, i as int) && rotary.is_ready(
                layers::store_dtype(params.path().store),
            ) && rotary.has_shape(
                rotary.table_dims().0[0],
                (cfg.head_dim_of(i as int) / 2) as usize,
            ) ==> (r matches Ok(a) && a.is_fit(
                cfg.hidden_size,
                layers::store_dtype(params.path().store),
            )),
    {
        proof {
            if let Some(n) = cfg.kv_heads_of(i as int) {
                if n > 0 && cfg.num_attention_heads % n == 0 {
                    lemma_groups(cfg.num_attention_heads as int, n as int);
                }
            }
        }
        let hidden: usize = cfg.hidden_size;
        let bias: bool = cfg.attention_bias;
        let is_sliding: bool = cfg.is_sliding(i);
        let head_dim: usize = if is_sliding {
            cfg.head_dim
        } else {
            cfg.global_head_dim
        };
        let k_is_v: bool = cfg.attention_k_eq_v && !is_sliding;
        let num_kv_heads: usize = if k_is_v {
            match cfg.num_global_key_value_heads {
                Some(n) => n,
                None => {
                    return Err(ModelError::MissingSetting(Setting::NumGlobalKeyValueHeads));
                },
            }
        } else {
            cfg.num_key_value_heads
        };
        if num_kv_heads == 0 {
            return Err(ModelError::NoKvHeads);
        }
        let q_size: usize = product(cfg.num_attention_heads, head_dim)?;
        let q_proj = Projection::new(hidden, q_size, bias, &params.pp("q_proj"))?;
        let o_proj = Projection::new(q_size, hidden, bias, &params.pp("o_proj"))?;
        let q_norm = FloatNorm::new(head_dim, &cfg.rms_norm_eps, &params.pp("q_norm"))?;
        let kv = if i >= cfg.first_shared_layer() {
            FloatKvSource::Shared
        } else {
            let kv_size: usize = product(num_kv_heads, head_dim)?;
            let k_proj = Projection::new(hidden, kv_size, bias, &params.pp("k_proj"))?;
            let v_proj = if k_is_v {
                None
            } else {
                Some(Projection::new(hidden, kv_size, bias, &params.pp("v_proj"))?)
            };
            let k_norm = FloatNorm::new(head_dim, &cfg.rms_norm_eps, &params.pp("k_norm"))?;
            FloatKvSource::Computed {
                k_proj,
                v_proj,
                k_norm,
                num_kv_heads,
                rms_norm_eps: cfg.rms_norm_eps.duplicate(),
                store_full_length_kv: cfg.puts_aside(i),
            }
        };
        Ok(
            Attention {
                kv,
                q_proj,
                o_proj,
                q_norm,
                num_heads: cfg.num_attention_heads,
                num_kv_groups: cfg.num_attention_heads / num_kv_heads,
                head_dim,
                is_sliding,
                rotary,
                use_flash_attn: cfg.use_flash_attn,
            },
        )
    }
}

impl LayerCache {
    /// The empty cache of layer `i`.
    pub open spec fn is_for(&self, cfg: Gemma4TextConfig, i: int) -> bool {
        match self {
            LayerCache::Normal(c) => !cfg.slides(i) && c.limit() == cfg.max_position_embeddings,
            LayerCache::Rotating(c) => cfg.slides(i) && c.limit() == cfg.effective_sliding_window,
        }
    }

    /// An empty cache for layer `i`.
    pub(crate) fn new(cfg: &Gemma4TextConfig, i: usize) -> (r: LayerCache)
        requires
            i < cfg.layer_types@.len(),
        ensures
            r.is_for(*cfg, i as int),
            r@ == CacheView::empty(),
            r.filling() is None,
    {
        if cfg.is_sliding(i) {
            LayerCache::Rotating(RollingCache::new(cfg.effective_sliding_window))
        } else {
            LayerCache::Normal(GrowingCache::new(cfg.max_position_embeddings))
        }
    }
}

} // verus!
