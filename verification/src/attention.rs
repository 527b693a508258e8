//! The attention computation that the packed and the float model share.

use crate::error::ModelError;
use crate::mask;
use crate::meaning::{self, entry, is_index, shape_of, Values};
use crate::tensor::{self, BinaryOp, Expr, Number, NumberExpr, NumberOp, Traced, UnaryOp};
use vstd::prelude::*;

verus! {

/// A pair of keys and values as contracts see it: how both came about, and their shapes
/// `[batch, heads, positions, head_dim]`.
#[verifier::ext_equal]
pub ghost struct KvView {
    pub k: Expr,
    pub v: Expr,
    pub k_dims: Seq<usize>,
    pub v_dims: Seq<usize>,
}

/// What contracts see of a pair of keys and values.
pub open spec fn kv_view(kv: (Traced, Traced)) -> KvView {
    KvView { k: kv.0.expr(), v: kv.1.expr(), k_dims: kv.0.dims(), v_dims: kv.1.dims() }
}

/// What contracts see of a place that may hold a pair of keys and values.
pub open spec fn slot_view(slot: Option<(Traced, Traced)>) -> Option<KvView> {
    match slot {
        Some(kv) => Some(kv_view(kv)),
        None => None,
    }
}

/// Keys and values in main memory: ordered, of this shape and element type.
pub open spec fn kv_is(kv: (Traced, Traced), dims: Seq<usize>, dtype: candle_core::DType) -> bool {
    &&& kv.0.is_ready()
    &&& kv.1.is_ready()
    &&& kv.0.dtype() == dtype
    &&& kv.1.dtype() == dtype
    &&& kv.0.dims() == dims
    &&& kv.1.dims() == dims
}

/// Keys and values in main memory of this shape and element type, in order or not.
pub open spec fn kv_lies(kv: (Traced, Traced), dims: Seq<usize>, dtype: candle_core::DType) -> bool {
    &&& kv.0.is_local()
    &&& kv.1.is_local()
    &&& kv.0.dtype() == dtype
    &&& kv.1.dtype() == dtype
    &&& kv.0.dims() == dims
    &&& kv.1.dims() == dims
}

/// Keys and values behind the cached ones, along the positions.
pub open spec fn kv_appended(cached: Option<KvView>, new: KvView) -> KvView {
    match cached {
        None => new,
        Some(old) => KvView {
            k: Expr::Cat(seq![old.k, new.k], 2),
            v: Expr::Cat(seq![old.v, new.v], 2),
            k_dims: old.k_dims.update(2, (old.k_dims[2] + new.k_dims[2]) as usize),
            v_dims: old.v_dims.update(2, (old.v_dims[2] + new.v_dims[2]) as usize),
        },
    }
}

/// The last `w` positions of keys and values, laid out in order, where there are more than `w`.
pub open spec fn kv_retained(kv: KvView, window: Option<usize>) -> KvView {
    match window {
        Some(w) if kv.k_dims[2] > w => {
            let start = (kv.k_dims[2] - w) as nat;
            KvView {
                k: tensor::unary(
                    UnaryOp::Contiguous,
                    tensor::narrowed(kv.k, 2, start, w as nat),
                ),
                v: tensor::unary(
                    UnaryOp::Contiguous,
                    tensor::narrowed(kv.v, 2, start, w as nat),
                ),
                k_dims: kv.k_dims.update(2, w),
                v_dims: kv.v_dims.update(2, w),
            }
        },
        _ => kv,
    }
}

/// The record of a root-mean-square normalisation without a weight, computed in `F32`.
pub open spec fn v_norm_expr(v: Expr, eps: NumberExpr, dtype: candle_core::DType) -> Expr {
    let wide = tensor::cast(v, candle_core::DType::F32);
    let mean = tensor::unary(UnaryOp::MeanLast, tensor::unary(UnaryOp::Sqr, wide));
    let rms = tensor::unary(UnaryOp::Sqrt, tensor::with_number(NumberOp::Add, mean, eps));
    tensor::cast(tensor::binary(BinaryOp::BroadcastDiv, wide, rms), dtype)
}

/// Stretching a last dimension of size one back to a shape gives that shape.
pub(crate) proof fn lemma_broadcast_last(dims: Seq<usize>)
    requires
        dims.len() > 0,
    ensures
        tensor::broadcast_dims(dims, tensor::with_last(dims, 1)) == dims,
{
    let ones = tensor::with_last(dims, 1);
    assert(ones.len() == dims.len());
    assert forall|i: int| 0 <= i < dims.len() implies #[trigger] tensor::broadcast_dims(
        dims,
        ones,
    )[i] == dims[i] by {
        assert(i + dims.len() - dims.len() == i);
    }
    assert(tensor::broadcast_dims(dims, ones) =~= dims);
}

/// Root-mean-square normalisation without a weight, computed in `F32`.
pub(crate) fn v_norm(v: &Traced, eps: &Number) -> (r: Result<Traced, ModelError>)
    ensures
        r matches Ok(t) ==> t.expr() == v_norm_expr(v.expr(), eps.expr(), v.dtype()) && t.dims()
            == v.dims() && t.dtype() == v.dtype(),
        r matches Err(e) ==> e is Candle,
        tensor::succeeds(
            r,
            v.is_local() && v.dims().len() > 0 && tensor::has_entries(v.dims())
                && tensor::has_products(v.dtype()),
        ),
{
    let dtype = v.element_type();
    let wide = v.to_dtype(candle_core::DType::F32)?;
    let squares = wide.sqr()?;
    let mean = squares.mean_last()?;
    let shifted = mean.plus_number(eps)?;
    let rms = shifted.sqrt()?;
    proof {
        lemma_broadcast_last(v.dims());
        if v.dims().len() > 0 && tensor::has_entries(v.dims()) {
            assert(tensor::has_entries(rms.dims()));
            assert(tensor::can_broadcast(wide.dims(), rms.dims()));
        }
    }
    let normed = wide.broadcast_div(&rms)?;
    normed.to_dtype(dtype)
}

/// The record of repeating every key or value head `n_rep` times, the copies next to each other.
pub open spec fn repeat_kv_expr(x: Expr, dims: Seq<usize>, n_rep: usize) -> Expr {
    if n_rep == 1 {
        x
    } else {
        tensor::reshaped(
            Expr::Cat(Seq::new(n_rep as nat, |i: int| x), 2),
            seq![dims[0], (dims[1] * n_rep) as usize, dims[2], dims[3]],
        )
    }
}

/// Heads of this shape cannot be repeated `n_rep` times: `usize` cannot count the heads, the
/// positions of all copies, or the entries.
pub open spec fn repeat_too_large(dims: Seq<usize>, n_rep: usize) -> bool {
    n_rep != 1 && (dims[1] * n_rep > usize::MAX || dims[2] * n_rep > usize::MAX
        || !tensor::countable(seq![dims[0], (dims[1] * n_rep) as usize, dims[2], dims[3]]))
}

/// Copies along the positions hold as many entries as copies along the heads.
proof fn lemma_repeated(dims: Seq<usize>, n_rep: usize)
    requires
        dims.len() == 4,
        dims[1] * n_rep <= usize::MAX,
        dims[2] * n_rep <= usize::MAX,
    ensures
        tensor::count_of(seq![dims[0], (dims[1] * n_rep) as usize, dims[2], dims[3]])
            == tensor::count_of(dims.update(2, (dims[2] * n_rep) as usize)),
{
    let (a, b, c, d) = (dims[0], dims[1], dims[2], dims[3]);
    tensor::lemma_count_4(a, (b * n_rep) as usize, c, d);
    tensor::lemma_count_4(a, b, (c * n_rep) as usize, d);
    assert(dims.update(2, (c * n_rep) as usize) =~= seq![a, b, (c * n_rep) as usize, d]);
    assert(a * (b * n_rep) * c * d == a * b * (c * n_rep) * d) by (nonlinear_arith);
}

/// Repeats every key or value head `n_rep` times, the copies next to each other.
pub(crate) fn repeat_kv(x: Traced, n_rep: usize) -> (r: Result<Traced, ModelError>)
    requires
        x.dims().len() == 4,
    ensures
        r matches Ok(t) ==> t.expr() == repeat_kv_expr(x.expr(), x.dims(), n_rep) && t.dtype()
            == x.dtype(),
        r matches Ok(t) ==> n_rep != 1 ==> x.dims()[1] * n_rep <= usize::MAX && t.dims() == seq![
            x.dims()[0],
            (x.dims()[1] * n_rep) as usize,
            x.dims()[2],
            x.dims()[3],
        ],
        r matches Ok(t) ==> n_rep == 1 ==> t == x,
        r matches Err(e) ==> e is Candle || (e is ShapeTooLarge && repeat_too_large(
            x.dims(),
            n_rep,
        )),
        tensor::succeeds(
            r,
            x.is_local() && (x.is_ordered() || n_rep != 1) && tensor::has_products(x.dtype())
                && n_rep > 0 && !repeat_too_large(x.dims(), n_rep),
        ),
        x.is_local() && tensor::has_products(x.dtype()) && n_rep > 0 && !repeat_too_large(
            x.dims(),
            n_rep,
        ) ==> (r matches Ok(t) && t.is_local()),
{
    if n_rep == 1 {
        return Ok(x);
    }
    let dims = x.shape();
    let heads: usize = match dims[1].checked_mul(n_rep) {
        Some(heads) => heads,
        None => {
            return Err(ModelError::ShapeTooLarge);
        },
    };
    let mut copies: Vec<Traced> = Vec::new();
    let mut i: usize = 0;
    while i < n_rep
        invariant
            i <= n_rep,
            copies@.len() == i,
            forall|j: int| 0 <= j < i ==> #[trigger] copies@[j] == x,
        decreases n_rep - i,
    {
        copies.push(x.duplicate());
        i = i + 1;
    }
    assert(tensor::exprs(copies@) =~= Seq::new(n_rep as nat, |i: int| x.expr()));
    proof {
        tensor::lemma_total_alike(copies@, 2, x.dims()[2] as nat);
        assert(n_rep * x.dims()[2] == x.dims()[2] * n_rep) by (nonlinear_arith);
        if x.is_local() && n_rep > 0 {
            assert(copies@[0] == x);
        }
        if !repeat_too_large(x.dims(), n_rep) {
            lemma_repeated(x.dims(), n_rep);
        }
    }
    let joined = Traced::cat(&copies, 2)?;
    let mut shape: Vec<usize> = Vec::new();
    shape.push(dims[0]);
    shape.push(heads);
    shape.push(dims[2]);
    shape.push(dims[3]);
    assert(shape@ =~= seq![
        x.dims()[0],
        (x.dims()[1] * n_rep) as usize,
        x.dims()[2],
        x.dims()[3],
    ]);
    joined.reshape(&shape)
}

/// The record of attending keys and values with queries: scores without scaling, the mask where
/// there is one, the softmax in `F32`, and the weighted values.
pub open spec fn attend_expr(
    q: Expr,
    kv: KvView,
    n_rep: usize,
    mask: Option<Expr>,
    dtype: candle_core::DType,
) -> Expr {
    let k = tensor::unary(UnaryOp::Contiguous, repeat_kv_expr(kv.k, kv.k_dims, n_rep));
    let v = tensor::unary(UnaryOp::Contiguous, repeat_kv_expr(kv.v, kv.v_dims, n_rep));
    let scores = tensor::binary(BinaryOp::MatMul, q, tensor::transposed(k, 2, 3));
    let masked = match mask {
        None => scores,
        Some(mask) => tensor::binary(BinaryOp::BroadcastAdd, scores, mask),
    };
    let weights = tensor::cast(
        tensor::unary(
            UnaryOp::SoftmaxLast,
            tensor::cast(masked, candle_core::DType::F32),
        ),
        dtype,
    );
    tensor::binary(BinaryOp::MatMul, weights, v)
}

/// The record of a mask that may be absent.
pub open spec fn mask_view(mask: Option<&Traced>) -> Option<Expr> {
    match mask {
        Some(mask) => Some(mask.expr()),
        None => None,
    }
}

/// What attending keys and values of these shapes can fail with.
pub open spec fn attend_may_fail_with(
    k_dims: Seq<usize>,
    v_dims: Seq<usize>,
    n_rep: usize,
    e: ModelError,
) -> bool {
    match e {
        ModelError::Candle(_) => true,
        ModelError::Rank { .. } => k_dims.len() != 4 || v_dims.len() != 4,
        ModelError::ShapeTooLarge => repeat_too_large(k_dims, n_rep) || repeat_too_large(
            v_dims,
            n_rep,
        ),
        ModelError::EmptyAxis => k_dims[2] == 0,
        _ => false,
    }
}

/// A mask that may be absent admits or masks at least one key.
pub open spec fn mask_has_columns(mask: Option<&Traced>) -> bool {
    mask matches Some(mask) ==> mask.dims().len() > 0 && mask.dims().last() > 0
}

/// A mask that is made where one is needed admits or masks at least one key.
pub open spec fn made_has_columns(mask: Option<Traced>) -> bool {
    mask matches Some(mask) ==> mask.dims().len() > 0 && mask.dims().last() > 0
}

/// Queries, keys and values in main memory that fit each other: of one element type, the queries in
/// order, the keys as many as the values, the query heads `n_rep` times the key heads, and the mask, where there
/// is one, with a row for each query and a column for each key.
pub open spec fn can_attend(
    q: Traced,
    k: Traced,
    v: Traced,
    n_rep: usize,
    mask: Option<&Traced>,
) -> bool {
    let (q_dims, k_dims) = (q.dims(), k.dims());
    &&& q.is_ready()
    &&& k.is_local()
    &&& v.is_local()
    &&& tensor::has_products(q.dtype())
    &&& k.dtype() == q.dtype()
    &&& v.dtype() == q.dtype()
    &&& q_dims.len() == 4
    &&& k_dims.len() == 4
    &&& v.dims() == k_dims
    &&& tensor::has_entries(q_dims)
    &&& tensor::has_entries(k_dims)
    &&& q_dims[0] == k_dims[0]
    &&& q_dims[1] == k_dims[1] * n_rep
    &&& q_dims[3] == k_dims[3]
    &&& !repeat_too_large(k_dims, n_rep)
    &&& mask matches Some(mask) ==> mask.is_local() && mask.dtype() == q.dtype() && mask.dims()
        == seq![k_dims[0], 1, q_dims[2], k_dims[2]]
}

/// Attends keys and values with queries. There is no scaling by the head's size: queries and keys
/// are normalised.
pub(crate) fn attend(q: &Traced, k: Traced, v: Traced, n_rep: usize, mask: Option<&Traced>) -> (r:
    Result<Traced, ModelError>)
    requires
        tensor::is_float(q.dtype()),
        mask_has_columns(mask),
    ensures
        r matches Ok(t) ==> t.expr() == attend_expr(
            q.expr(),
            kv_view((k, v)),
            n_rep,
            mask_view(mask),
            v.dtype(),
        ) && t.dtype() == v.dtype(),
        r matches Err(e) ==> attend_may_fail_with(k.dims(), v.dims(), n_rep, e),
        tensor::succeeds(r, can_attend(*q, k, v, n_rep, mask)),
        can_attend(*q, k, v, n_rep, mask) ==> (r matches Ok(t) && t.dims() == q.dims()),
{
    let ghost fits = can_attend(*q, k, v, n_rep, mask);
    let ghost (kd, qd) = (k.dims(), q.dims());
    let (k_dims, v_dims): (Vec<usize>, Vec<usize>) = (k.shape(), v.shape());
    if k_dims.len() != 4 {
        return Err(ModelError::Rank { expected: 4, got: k_dims.len() });
    }
    if v_dims.len() != 4 {
        return Err(ModelError::Rank { expected: 4, got: v_dims.len() });
    }
    if k_dims[2] == 0 {
        return Err(ModelError::EmptyAxis);
    }
    proof {
        if fits {
            assert(n_rep > 0) by (nonlinear_arith)
                requires
                    qd[1] == kd[1] * n_rep,
                    qd[1] > 0,
                    n_rep >= 0,
            ;
        }
    }
    let k = repeat_kv(k, n_rep)?;
    let k = k.contiguous()?;
    let v = repeat_kv(v, n_rep)?;
    let v = v.contiguous()?;
    let kt = k.transpose(2, 3)?;
    proof {
        if fits {
            assert(k.dims() =~= seq![kd[0], qd[1], kd[2], kd[3]]);
            assert(v.dims() =~= k.dims());
            assert(kt.dims() =~= seq![kd[0], qd[1], kd[3], kd[2]]);
        }
    }
    let scores = q.matmul(&kt)?;
    proof {
        if fits {
            assert(scores.dims() =~= seq![qd[0], qd[1], qd[2], kd[2]]);
            if let Some(mask) = mask {
                let (a, b) = (scores.dims(), mask.dims());
                assert(tensor::can_broadcast(a, b));
                assert(tensor::broadcast_dims(a, b) =~= a);
            }
        }
    }
    let masked = match mask {
        None => scores,
        Some(mask) => scores.broadcast_add(mask)?,
    };
    let wide = masked.to_dtype(candle_core::DType::F32)?;
    let weights = wide.softmax_last()?;
    let weights = weights.to_dtype(v.element_type())?;
    assert(fits ==> tensor::with_last(weights.dims(), v.dims().last()) =~= qd);
    weights.matmul(&v)
}

/// The keys and values that layers put aside during a forward pass for those that share them, one
/// place per kind of layer.
pub struct SharedKvStates {
    pub for_full: Option<(Traced, Traced)>,
    pub for_sliding: Option<(Traced, Traced)>,
}

/// What contracts see of the keys and values that were put aside.
#[verifier::ext_equal]
pub ghost struct SharedView {
    pub full: Option<KvView>,
    pub sliding: Option<KvView>,
}

impl SharedView {
    /// The place for a kind of layer.
    pub open spec fn get(self, is_global: bool) -> Option<KvView> {
        if is_global {
            self.full
        } else {
            self.sliding
        }
    }

    /// The places with that for one kind of layer replaced.
    pub open spec fn set(self, is_global: bool, kv: KvView) -> SharedView {
        if is_global {
            SharedView { full: Some(kv), ..self }
        } else {
            SharedView { sliding: Some(kv), ..self }
        }
    }

    /// Nothing was put aside yet.
    pub open spec fn empty() -> SharedView {
        SharedView { full: None, sliding: None }
    }
}

impl SharedKvStates {
    /// What contracts see.
    pub open spec fn view(&self) -> SharedView {
        SharedView {
            full: slot_view(self.for_full),
            sliding: slot_view(self.for_sliding),
        }
    }

    /// What was put aside for a kind of layer.
    pub open spec fn at(&self, is_global: bool) -> Option<(Traced, Traced)> {
        if is_global {
            self.for_full
        } else {
            self.for_sliding
        }
    }

    /// The values that were put aside have this element type.
    pub open spec fn has_dtype(&self, dtype: candle_core::DType) -> bool {
        &&& self.for_full matches Some(kv) ==> kv.1.dtype() == dtype
        &&& self.for_sliding matches Some(kv) ==> kv.1.dtype() == dtype
    }

    /// Nothing is put aside yet.
    pub(crate) fn new() -> (r: SharedKvStates)
        ensures
            forall|dtype: candle_core::DType| r.has_dtype(dtype),
            r@ == SharedView::empty(),
            forall|is_global: bool| (#[trigger] r.at(is_global)) is None,
    {
        SharedKvStates { for_full: None, for_sliding: None }
    }

    /// Puts keys and values aside for a kind of layer.
    pub(crate) fn store(&mut self, is_global: bool, k: &Traced, v: &Traced)
        ensures
            final(self)@ == old(self)@.set(is_global, kv_view((*k, *v))),
            final(self).at(is_global) == Some((*k, *v)),
            final(self).at(!is_global) == old(self).at(!is_global),
            forall|dtype: candle_core::DType|
                old(self).has_dtype(dtype) && v.dtype() == dtype ==> #[trigger] final(self).has_dtype(
                    dtype,
                ),
    {
        let kv = (k.duplicate(), v.duplicate());
        if is_global {
            self.for_full = Some(kv);
        } else {
            self.for_sliding = Some(kv);
        }
    }

    /// What was put aside for a kind of layer.
    pub(crate) fn fetch(&self, is_global: bool) -> (r: Option<(Traced, Traced)>)
        ensures
            r == self.at(is_global),
            slot_view(r) == self@.get(is_global),
            r matches Some(kv) ==> forall|dtype: candle_core::DType| #[trigger]
                self.has_dtype(dtype) ==> kv.1.dtype() == dtype,
    {
        let slot = if is_global {
            &self.for_full
        } else {
            &self.for_sliding
        };
        match slot {
            Some((k, v)) => Some((k.duplicate(), v.duplicate())),
            None => None,
        }
    }
}

/// Keys and values whose records have the shapes that go with them, the same for both.
pub open spec fn is_recorded(kv: KvView) -> bool {
    &&& kv.k_dims.len() == 4
    &&& kv.v_dims == kv.k_dims
    &&& shape_of(kv.k) == kv.k_dims
    &&& shape_of(kv.v) == kv.v_dims
}

/// The position at which the `m`-th of some keys and values that follow each other begins.
pub open spec fn begins(news: Seq<KvView>, m: int) -> int
    decreases m,
{
    if m <= 0 {
        0
    } else {
        begins(news, m - 1) + news[m - 1].k_dims[2]
    }
}

/// Keys and values hold the positions from `first` on of a stream that was computed piece by piece:
/// in their place `c`, for every head, stand the key and the value that were computed for position
/// `first + c`.
pub open spec fn shows(kv: KvView, news: Seq<KvView>, first: int) -> bool {
    &&& is_recorded(kv)
    &&& 0 <= first
    &&& kv.k_dims[2] == begins(news, news.len() as int) - first
    &&& forall|m: int, at: Seq<int>, v: Values|
        #![trigger entry(news[m].k, at, v)]
        #![trigger entry(news[m].v, at, v)]
        0 <= m < news.len() && is_index(at, news[m].k_dims) && first <= begins(news, m) + at[2]
            ==> {
            let c = begins(news, m) + at[2] - first;
            &&& entry(kv.k, at.update(2, c), v) == entry(news[m].k, at, v)
            &&& entry(kv.v, at.update(2, c), v) == entry(news[m].v, at, v)
        }
}

/// The pieces of a stream agree on everything but their length.
pub open spec fn are_pieces(news: Seq<KvView>, dims: Seq<usize>) -> bool {
    forall|m: int|
        0 <= m < news.len() ==> is_recorded(#[trigger] news[m]) && news[m].k_dims.update(2, 0)
            == dims.update(2, 0)
}

/// Pieces of a stream lie one behind the other.
pub proof fn lemma_begins(news: Seq<KvView>, m: int, n: int)
    requires
        0 <= m <= n,
    ensures
        0 <= begins(news, m) <= begins(news, n),
        m < n ==> begins(news, m) + news[m].k_dims[2] <= begins(news, n),
    decreases n,
{
    if m < n {
        lemma_begins(news, m, n - 1);
    } else if m > 0 {
        lemma_begins(news, m - 1, m - 1);
    }
}

/// A piece more does not move those before it.
pub proof fn lemma_begins_more(news: Seq<KvView>, new: KvView, m: int)
    requires
        0 <= m <= news.len(),
    ensures
        begins(news.push(new), m) == begins(news, m),
    decreases m,
{
    if m > 0 {
        lemma_begins_more(news, new, m - 1);
        assert(news.push(new)[m - 1] == news[m - 1]);
    }
}

/// Appending keeps every cached key and value where it is and puts the new ones behind them, each in
/// its place: what comes out holds the same positions, and the new ones.
pub proof fn law_appending_follows_on(
    cached: Option<KvView>,
    new: KvView,
    news: Seq<KvView>,
    first: int,
)
    requires
        is_recorded(new),
        cached is None ==> news.len() == 0 && first == 0,
        cached matches Some(old) ==> shows(old, news, first) && old.k_dims.update(2, 0)
            == new.k_dims.update(2, 0) && old.k_dims[2] + new.k_dims[2] <= usize::MAX,
        are_pieces(news, new.k_dims),
    ensures
        shows(kv_appended(cached, new), news.push(new), first),
        kv_appended(cached, new).k_dims.update(2, 0) == new.k_dims.update(2, 0),
        are_pieces(news.push(new), new.k_dims),
{
    let more = news.push(new);
    let kv = kv_appended(cached, new);
    assert forall|m: int| 0 <= m < more.len() implies is_recorded(#[trigger] more[m])
        && more[m].k_dims.update(2, 0) == new.k_dims.update(2, 0) by {
        if m < news.len() {
            assert(more[m] == news[m]);
        }
    }
    lemma_begins_more(news, new, news.len() as int);
    assert(begins(more, more.len() as int) == begins(news, news.len() as int) + new.k_dims[2]);
    if let Some(old) = cached {
        meaning::lemma_joined_shape(old.k, new.k, 2);
        meaning::lemma_joined_shape(old.v, new.v, 2);
        assert(kv.k_dims.update(2, 0) =~= old.k_dims.update(2, 0));
    }
    assert forall|m: int, at: Seq<int>, v: Values|
        #![trigger entry(more[m].k, at, v)]
        #![trigger entry(more[m].v, at, v)]
        0 <= m < more.len() && is_index(at, more[m].k_dims) && first <= begins(more, m) + at[2]
            implies ({
            let c = begins(more, m) + at[2] - first;
            &&& entry(kv.k, at.update(2, c), v) == entry(more[m].k, at, v)
            &&& entry(kv.v, at.update(2, c), v) == entry(more[m].v, at, v)
        }) by {
        lemma_begins_more(news, new, m);
        let c = begins(more, m) + at[2] - first;
        match cached {
            None => {
                assert(at.update(2, c) =~= at);
            },
            Some(old) => {
                let there = at.update(2, c);
                let n = old.k_dims[2] as int;
                assert(0 <= at[2] < more[m].k_dims[2]);
                lemma_begins(more, m, more.len() as int);
                meaning::lemma_joined(old.k, new.k, 2, there, v);
                meaning::lemma_joined(old.v, new.v, 2, there, v);
                if m < news.len() {
                    assert(more[m] == news[m]);
                    lemma_begins(news, m, news.len() as int);
                    assert(entry(news[m].k, at, v) == entry(old.k, there, v));
                    assert(entry(news[m].v, at, v) == entry(old.v, there, v));
                } else {
                    assert(there.update(2, c - n) =~= at);
                }
            },
        }
    }
}

/// What is retained are the last keys and values, in order: nothing that was held stands in another
/// place than its position says, and what is dropped are the oldest ones. With a window `w` the
/// last `w` are kept, or all where there are no more.
pub proof fn law_retained_are_the_last(
    kv: KvView,
    window: Option<usize>,
    news: Seq<KvView>,
    first: int,
)
    requires
        shows(kv, news, first),
        are_pieces(news, kv.k_dims),
    ensures
        ({
            let (all, end) = (kv.k_dims[2] as int, begins(news, news.len() as int));
            let kept = kv_retained(kv, window).k_dims[2] as int;
            &&& kept == match window {
                Some(w) => if all < w {
                    all
                } else {
                    w as int
                },
                None => all,
            }
            &&& shows(kv_retained(kv, window), news, end - kept)
            &&& kv_retained(kv, window).k_dims.update(2, 0) == kv.k_dims.update(2, 0)
        }),
{
    let r = kv_retained(kv, window);
    let (all, end) = (kv.k_dims[2] as int, begins(news, news.len() as int));
    let kept = r.k_dims[2] as int;
    assert(r.k_dims.update(2, 0) =~= kv.k_dims.update(2, 0));
    if let Some(w) = window {
        if kv.k_dims[2] > w {
            let start = (kv.k_dims[2] - w) as nat;
            let (k, v) = (
                tensor::narrowed(kv.k, 2, start, w as nat),
                tensor::narrowed(kv.v, 2, start, w as nat),
            );
            assert(shape_of(k) == kv.k_dims.update(2, w));
            assert(shape_of(v) == kv.k_dims.update(2, w));
            assert(shape_of(tensor::unary(UnaryOp::Contiguous, k)) == shape_of(k));
            assert(shape_of(tensor::unary(UnaryOp::Contiguous, v)) == shape_of(v));
        }
    }
    assert forall|m: int, at: Seq<int>, v: Values|
        #![trigger entry(news[m].k, at, v)]
        #![trigger entry(news[m].v, at, v)]
        0 <= m < news.len() && is_index(at, news[m].k_dims) && end - kept <= begins(news, m) + at[2]
            implies ({
            let c = begins(news, m) + at[2] - (end - kept);
            &&& entry(r.k, at.update(2, c), v) == entry(news[m].k, at, v)
            &&& entry(r.v, at.update(2, c), v) == entry(news[m].v, at, v)
        }) by {
        assert(is_recorded(news[m]));
        let c = begins(news, m) + at[2] - (end - kept);
        let there = at.update(2, begins(news, m) + at[2] - first);
        assert(entry(kv.k, there, v) == entry(news[m].k, at, v));
        assert(entry(kv.v, there, v) == entry(news[m].v, at, v));
        let here = at.update(2, c);
        if kept < all {
            let start = (all - kept) as nat;
            let (k, l) = (
                tensor::narrowed(kv.k, 2, start, kept as nat),
                tensor::narrowed(kv.v, 2, start, kept as nat),
            );
            assert(here.update(2, here[2] + start) =~= there);
            assert(entry(k, here, v) == entry(kv.k, there, v));
            assert(entry(l, here, v) == entry(kv.v, there, v));
            assert(entry(tensor::unary(UnaryOp::Contiguous, k), here, v) == entry(k, here, v));
            assert(entry(tensor::unary(UnaryOp::Contiguous, l), here, v) == entry(l, here, v));
        } else {
            assert(here =~= there);
        }
    }
}

/// Every copy of a head stands next to the others: query head `h` finds the entries of key or value
/// head `h / n_rep`, at its own position and place.
pub proof fn law_heads_are_repeated_in_place(
    x: Expr,
    dims: Seq<usize>,
    n_rep: usize,
    at: Seq<int>,
    v: Values,
)
    requires
        shape_of(x) == dims,
        dims.len() == 4,
        n_rep > 0,
        dims[1] * n_rep <= usize::MAX,
        dims[2] * n_rep <= usize::MAX,
        is_index(at, dims.update(1, (dims[1] * n_rep) as usize)),
    ensures
        shape_of(repeat_kv_expr(x, dims, n_rep)) == dims.update(1, (dims[1] * n_rep) as usize),
        entry(repeat_kv_expr(x, dims, n_rep), at, v) == entry(
            x,
            at.update(1, at[1] / n_rep as int),
            v,
        ),
{
    let (hs, ts, ds) = (dims[1] as int, dims[2] as int, dims[3] as int);
    let n = n_rep as int;
    let (b, h, t, d) = (at[0], at[1], at[2], at[3]);
    assert(0 <= h < hs * n);
    if n_rep == 1 {
        assert(hs * 1 == hs);
        assert(at.update(1, h / 1) =~= at);
        assert(dims.update(1, (dims[1] * n_rep) as usize) =~= dims);
    } else {
        let wide = seq![dims[0], (dims[1] * n_rep) as usize, dims[2], dims[3]];
        assert(wide =~= dims.update(1, (dims[1] * n_rep) as usize));
        let copies = Expr::Cat(Seq::new(n_rep as nat, |i: int| x), 2);
        meaning::lemma_copies_shape(x, n_rep as nat, 2);
        let long = dims.update(2, (n_rep * dims[2]) as usize);
        assert(n_rep * dims[2] == dims[2] * n_rep) by (nonlinear_arith);
        assert(shape_of(copies) == long);
        let (g, r) = (h / n, h % n);
        vstd::arithmetic::div_mod::lemma_fundamental_div_mod(h, n);
        vstd::arithmetic::div_mod::lemma_mod_bound(h, n);
        assert(0 <= g < hs) by (nonlinear_arith)
            requires
                h == n * g + r,
                0 <= h < hs * n,
                0 <= r < n,
        ;
        let from = seq![b, g, r * ts + t, d];
        assert(0 <= r * ts + t < n * ts) by (nonlinear_arith)
            requires
                0 <= r < n,
                0 <= t < ts,
        ;
        assert(at[0] == b && at[2] == t && at[3] == d);
        assert(is_index(from, long)) by {
            assert forall|i: int| 0 <= i < long.len() implies 0 <= #[trigger] from[i] < long[i] by {
                assert(0 <= at[i] < dims.update(1, (dims[1] * n_rep) as usize)[i]);
            }
        }
        meaning::lemma_flat_4(at, wide);
        meaning::lemma_flat_4(from, long);
        let line = b * hs + g;
        assert(b * (hs * n) + h == line * n + r) by (nonlinear_arith)
            requires
                h == n * g + r,
                line == b * hs + g,
        ;
        assert((line * n + r) * ts + t == line * (n * ts) + (r * ts + t)) by (nonlinear_arith);
        meaning::lemma_reshaped(copies, wide, at, from, v);
        meaning::lemma_copies(x, n_rep as nat, 2, from, r, t, v);
        assert(from.update(2, t) =~= at.update(1, g));
    }
}

/// Values that are normalised keep their shape.
pub proof fn lemma_v_norm_shape(x: Expr, eps: NumberExpr, dtype: candle_core::DType)
    requires
        shape_of(x).len() > 0,
    ensures
        shape_of(v_norm_expr(x, eps, dtype)) == shape_of(x),
{
    let wide = tensor::cast(x, candle_core::DType::F32);
    let squares = tensor::unary(UnaryOp::Sqr, wide);
    let mean = tensor::unary(UnaryOp::MeanLast, squares);
    let shifted = tensor::with_number(NumberOp::Add, mean, eps);
    let rms = tensor::unary(UnaryOp::Sqrt, shifted);
    let out = tensor::binary(BinaryOp::BroadcastDiv, wide, rms);
    lemma_broadcast_last(shape_of(x));
    assert(shape_of(wide) == shape_of(x));
    assert(shape_of(squares) == shape_of(wide));
    assert(shape_of(mean) == tensor::with_last(shape_of(x), 1));
    assert(shape_of(shifted) == shape_of(mean));
    assert(shape_of(rms) == shape_of(shifted));
    assert(shape_of(out) == shape_of(x));
    assert(shape_of(tensor::cast(out, dtype)) == shape_of(out));
}

/// A value is divided by the root of the mean of the squares of the row that it belongs to, and by
/// nothing else.
pub proof fn law_values_are_normalised(
    x: Expr,
    eps: NumberExpr,
    dtype: candle_core::DType,
    at: Seq<int>,
    v: Values,
)
    requires
        is_index(at, shape_of(x)),
        at.len() > 0,
    ensures
        shape_of(v_norm_expr(x, eps, dtype)) == shape_of(x),
        entry(v_norm_expr(x, eps, dtype), at, v) == meaning::normalised(
            meaning::line(x, at, v),
            shape_of(x).last() as int,
            meaning::number(eps, v),
            v,
        )(at.last()),
{
    lemma_v_norm_shape(x, eps, dtype);
    let wide = tensor::cast(x, candle_core::DType::F32);
    let mean = tensor::unary(UnaryOp::MeanLast, tensor::unary(UnaryOp::Sqr, wide));
    assert(shape_of(wide) == shape_of(x));
    meaning::lemma_mean_of_squares(wide, at, v);
    meaning::lemma_spelled_norm(wide, mean, eps, at, v);
    lemma_cast_line(x, candle_core::DType::F32, at, v);
    let rms = tensor::unary(UnaryOp::Sqrt, tensor::with_number(NumberOp::Add, mean, eps));
    let out = tensor::binary(BinaryOp::BroadcastDiv, wide, rms);
    assert(entry(tensor::cast(out, dtype), at, v) == entry(out, at, v));
}

/// A cast changes no entry.
pub(crate) proof fn lemma_cast_line(x: Expr, dtype: candle_core::DType, at: Seq<int>, v: Values)
    ensures
        meaning::line(tensor::cast(x, dtype), at, v) == meaning::line(x, at, v),
{
    let (f, g) = (meaning::line(tensor::cast(x, dtype), at, v), meaning::line(x, at, v));
    assert forall|k: int| #[trigger] f(k) == g(k) by {}
    assert(f =~= g);
}

/// How well the query at an index `[batch, head, row, _]` matches the key in each column, with what
/// the mask adds.
pub open spec fn scores_of(
    q: Expr,
    k: Expr,
    n_rep: usize,
    mask: Option<Expr>,
    at: Seq<int>,
    v: Values,
) -> spec_fn(int) -> real {
    |c: int|
        meaning::dot(
            shape_of(q).last() as int,
            meaning::line(q, at, v),
            meaning::line(k, seq![at[0], at[1] / n_rep as int, c, 0], v),
        ) + match mask {
            Some(mask) => entry(mask, seq![at[0], 0, at[2], c], v),
            None => 0 as real,
        }
}

/// The share of each column in what a query with these scores attends.
pub open spec fn shares_of(scores: spec_fn(int) -> real, columns: int, v: Values) -> spec_fn(
    int,
) -> real {
    |c: int| (v.exp)(scores(c)) / meaning::total(columns, |i: int| (v.exp)(scores(i)))
}

/// Queries, keys, values and a mask whose shapes fit each other.
pub open spec fn attend_alike(q: Expr, kv: KvView, n_rep: usize, mask: Option<Expr>) -> bool {
    let (a, b) = (shape_of(q), kv.k_dims);
    &&& is_recorded(kv)
    &&& a.len() == 4
    &&& a[0] == b[0]
    &&& n_rep > 0
    &&& a[1] == b[1] * n_rep
    &&& a[3] == b[3]
    &&& b[1] * n_rep <= usize::MAX
    &&& b[2] * n_rep <= usize::MAX
    &&& mask matches Some(mask) ==> shape_of(mask) == seq![a[0], 1, a[2], b[2]]
}

/// The keys that a query meets, one per column.
proof fn lemma_scores(
    q: Expr,
    kv: KvView,
    n_rep: usize,
    mask: Option<Expr>,
    at: Seq<int>,
    c: int,
    v: Values,
)
    requires
        attend_alike(q, kv, n_rep, mask),
        is_index(at, shape_of(q)),
        0 <= c < kv.k_dims[2],
    ensures
        ({
            let k = tensor::unary(UnaryOp::Contiguous, repeat_kv_expr(kv.k, kv.k_dims, n_rep));
            let scores = tensor::binary(BinaryOp::MatMul, q, tensor::transposed(k, 2, 3));
            let masked = match mask {
                None => scores,
                Some(mask) => tensor::binary(BinaryOp::BroadcastAdd, scores, mask),
            };
            &&& shape_of(masked) == shape_of(q).update(3, kv.k_dims[2])
            &&& entry(masked, meaning::along(at, c), v) == scores_of(q, kv.k, n_rep, mask, at, v)(c)
        }),
{
    let dims = kv.k_dims;
    let wide = dims.update(1, (dims[1] * n_rep) as usize);
    let repeated = repeat_kv_expr(kv.k, dims, n_rep);
    let k = tensor::unary(UnaryOp::Contiguous, repeated);
    let kt = tensor::transposed(k, 2, 3);
    let scores = tensor::binary(BinaryOp::MatMul, q, kt);
    let n = shape_of(q).last() as int;
    let here = meaning::along(at, c);
    let (b, h, r) = (at[0], at[1], at[2]);
    assert(0 <= b < shape_of(q)[0] && 0 <= h < shape_of(q)[1] && 0 <= r < shape_of(q)[2]);
    assert(0 <= at[3] < shape_of(q)[3]);
    law_heads_are_repeated_in_place(kv.k, dims, n_rep, seq![b, h, c, at[3]], v);
    assert(shape_of(k) == shape_of(repeated));
    assert(shape_of(kt) =~= seq![wide[0], wide[1], wide[3], wide[2]]);
    assert(shape_of(scores) == tensor::with_last(shape_of(q), shape_of(kt).last()));
    assert(shape_of(scores) =~= shape_of(q).update(3, dims[2]));
    meaning::lemma_sums(q, kt, arbitrary(), here, v);
    let key = seq![b, h / n_rep as int, c, 0];
    let (x, y) = (meaning::line(q, at, v), meaning::line(kv.k, key, v));
    let terms = meaning::product_terms(q, kt, here, v);
    let plain = |d: int| x(d) * y(d);
    assert forall|d: int| 0 <= d < n implies #[trigger] terms(d) == plain(d) by {
        assert(meaning::along(here, d) =~= meaning::along(at, d));
        let there = meaning::across(here, d);
        assert(there =~= seq![b, h, d, c]);
        let turned = seq![b, h, c, d];
        assert(there.update(2, there[3]).update(3, there[2]) =~= turned);
        law_heads_are_repeated_in_place(kv.k, dims, n_rep, turned, v);
        assert(entry(kt, there, v) == entry(k, turned, v));
        assert(entry(k, turned, v) == entry(repeated, turned, v));
        assert(turned.update(1, h / n_rep as int) =~= meaning::along(key, d));
    }
    meaning::lemma_total_alike(n, terms, plain);
    assert(entry(scores, here, v) == meaning::dot(n, x, y));
    if let Some(mask) = mask {
        let masked = tensor::binary(BinaryOp::BroadcastAdd, scores, mask);
        let (a, m) = (shape_of(scores), shape_of(mask));
        assert(is_index(here, a)) by {
            assert forall|i: int| 0 <= i < a.len() implies 0 <= #[trigger] here[i] < a[i] by {
                assert(0 <= at[i] < shape_of(q)[i]);
            }
        }
        meaning::lemma_clipped_whole(here, a);
        let spot = seq![b, 0, r, c];
        assert(meaning::clipped(here, m) =~= spot);
        let s = tensor::broadcast_dims(a, m);
        assert forall|i: int| 0 <= i < 4 implies s[i] == a[i] by {
            assert(i + 4 - 4 == i);
            assert(here[i] < a[i]);
        }
        assert(s =~= a);
        assert(entry(masked, here, v) == entry(scores, here, v) + entry(mask, spot, v));
    }
}

/// What a query attends is made of the values of all columns, each weighted with its column's share:
/// the exponential of how well query and key match, with what the mask adds and nothing else,
/// divided by the sum of those of all columns. Query head `h` meets the keys and the values of head
/// `h / n_rep`.
pub proof fn law_attention_is_a_weighted_sum(
    q: Expr,
    kv: KvView,
    n_rep: usize,
    mask: Option<Expr>,
    dtype: candle_core::DType,
    at: Seq<int>,
    v: Values,
)
    requires
        attend_alike(q, kv, n_rep, mask),
        is_index(at, shape_of(q)),
    ensures
        shape_of(attend_expr(q, kv, n_rep, mask, dtype)) == shape_of(q),
        entry(attend_expr(q, kv, n_rep, mask, dtype), at, v) == meaning::total(
            kv.k_dims[2] as int,
            |c: int|
                shares_of(scores_of(q, kv.k, n_rep, mask, at, v), kv.k_dims[2] as int, v)(c)
                    * entry(kv.v, seq![at[0], at[1] / n_rep as int, c, at[3]], v),
        ),
{
    let dims = kv.k_dims;
    let cols = dims[2] as int;
    let wide = dims.update(1, (dims[1] * n_rep) as usize);
    let k = tensor::unary(UnaryOp::Contiguous, repeat_kv_expr(kv.k, kv.k_dims, n_rep));
    let repeated = repeat_kv_expr(kv.v, kv.v_dims, n_rep);
    let values = tensor::unary(UnaryOp::Contiguous, repeated);
    let scores = tensor::binary(BinaryOp::MatMul, q, tensor::transposed(k, 2, 3));
    let masked = match mask {
        None => scores,
        Some(mask) => tensor::binary(BinaryOp::BroadcastAdd, scores, mask),
    };
    let cast = tensor::cast(masked, candle_core::DType::F32);
    let soft = tensor::unary(UnaryOp::SoftmaxLast, cast);
    let weights = tensor::cast(soft, dtype);
    let out = tensor::binary(BinaryOp::MatMul, weights, values);
    let (b, h, r, d) = (at[0], at[1], at[2], at[3]);
    assert(0 <= b < shape_of(q)[0] && 0 <= h < shape_of(q)[1] && 0 <= r < shape_of(q)[2] && 0 <= d
        < shape_of(q)[3]);
    let row = scores_of(q, kv.k, n_rep, mask, at, v);
    if cols == 0 {
        lemma_scores_shape(q, kv, n_rep, mask);
    } else {
        lemma_scores(q, kv, n_rep, mask, at, 0, v);
        law_heads_are_repeated_in_place(kv.v, dims, n_rep, seq![b, h, 0, d], v);
    }
    assert(shape_of(cast) == shape_of(masked));
    assert(shape_of(soft) == shape_of(cast));
    assert(shape_of(weights) == shape_of(soft));
    assert(shape_of(values) == shape_of(repeated));
    assert(shape_of(out) == tensor::with_last(shape_of(weights), shape_of(values).last()));
    assert(shape_of(out) =~= shape_of(q));
    meaning::lemma_sums(weights, values, arbitrary(), at, v);
    let terms = meaning::product_terms(weights, values, at, v);
    let shares = shares_of(row, cols, v);
    let plain = |c: int| shares(c) * entry(kv.v, seq![b, h / n_rep as int, c, d], v);
    assert forall|c: int| 0 <= c < cols implies #[trigger] terms(c) == plain(c) by {
        let here = meaning::along(at, c);
        lemma_scores(q, kv, n_rep, mask, at, c, v);
        assert(entry(weights, here, v) == entry(soft, here, v));
        meaning::lemma_sums(cast, cast, arbitrary(), here, v);
        assert(entry(cast, here, v) == entry(masked, here, v));
        let (f, g) = (meaning::exponentials(cast, here, v), |i: int| (v.exp)(row(i)));
        assert forall|i: int| 0 <= i < cols implies #[trigger] f(i) == g(i) by {
            assert(meaning::along(here, i) =~= meaning::along(at, i));
            lemma_scores(q, kv, n_rep, mask, at, i, v);
            assert(entry(cast, meaning::along(at, i), v) == entry(
                masked,
                meaning::along(at, i),
                v,
            ));
        }
        meaning::lemma_total_alike(cols, f, g);
        let there = meaning::across(at, c);
        assert(there =~= seq![b, h, c, d]);
        assert(0 <= h < wide[1]);
        law_heads_are_repeated_in_place(kv.v, dims, n_rep, there, v);
        assert(entry(values, there, v) == entry(repeated, there, v));
        assert(there.update(1, h / n_rep as int) =~= seq![b, h / n_rep as int, c, d]);
    }
    meaning::lemma_total_alike(cols, terms, plain);
    assert(meaning::total(
        cols,
        |c: int|
            shares_of(scores_of(q, kv.k, n_rep, mask, at, v), cols, v)(c) * entry(
                kv.v,
                seq![at[0], at[1] / n_rep as int, c, at[3]],
                v,
            ),
    ) == meaning::total(cols, plain));
}

/// The shapes on the way, where there is nothing to attend.
proof fn lemma_scores_shape(q: Expr, kv: KvView, n_rep: usize, mask: Option<Expr>)
    requires
        attend_alike(q, kv, n_rep, mask),
        kv.k_dims[2] == 0,
    ensures
        ({
            let k = tensor::unary(UnaryOp::Contiguous, repeat_kv_expr(kv.k, kv.k_dims, n_rep));
            let scores = tensor::binary(BinaryOp::MatMul, q, tensor::transposed(k, 2, 3));
            let masked = match mask {
                None => scores,
                Some(mask) => tensor::binary(BinaryOp::BroadcastAdd, scores, mask),
            };
            &&& shape_of(masked) == shape_of(q).update(3, 0)
        }),
        shape_of(repeat_kv_expr(kv.v, kv.v_dims, n_rep)).len() == 4,
        shape_of(repeat_kv_expr(kv.v, kv.v_dims, n_rep))[3] == kv.k_dims[3],
{
    let repeated = repeat_kv_expr(kv.k, kv.k_dims, n_rep);
    let k = tensor::unary(UnaryOp::Contiguous, repeated);
    let kt = tensor::transposed(k, 2, 3);
    let scores = tensor::binary(BinaryOp::MatMul, q, kt);
    assert(shape_of(k) == shape_of(repeated));
    assert(shape_of(kt) == tensor::swapped_dims(shape_of(k), 2, 3));
    assert(shape_of(scores) =~= shape_of(q).update(3, 0));
    if let Some(mask) = mask {
        let (a, m) = (shape_of(scores), shape_of(mask));
        let s = tensor::broadcast_dims(a, m);
        assert forall|i: int| 0 <= i < 4 implies s[i] == a[i] by {
            assert(i + 4 - 4 == i);
        }
        assert(s =~= a);
    }
}

/// What is put aside for a kind of layer is what that kind finds, and the other kind finds what it
/// found before.
pub proof fn law_put_aside_is_found(shared: SharedView, is_global: bool, kv: KvView)
    ensures
        shared.set(is_global, kv).get(is_global) == Some(kv),
        shared.set(is_global, kv).get(!is_global) == shared.get(!is_global),
        SharedView::empty().get(is_global) is None,
{
}

} // verus!
