//! Normalisation and the dense block of a float model.

use crate::attention;
use crate::error::ModelError;
use crate::tensor::layers::{self, Params, Place, Projection};
use crate::tensor::{self, BinaryOp, Expr, Number, NumberExpr, NumberOp, Traced, UnaryOp};
use vstd::prelude::*;

verus! {

/// The element type in which a normalisation is computed: half precision is widened.
pub open spec fn inner_dtype(dtype: candle_core::DType) -> candle_core::DType {
    match dtype {
        candle_core::DType::F16 => candle_core::DType::F32,
        candle_core::DType::BF16 => candle_core::DType::F32,
        _ => dtype,
    }
}

/// The record of a weighted root-mean-square normalisation along a last dimension of `width`
/// entries, of a tensor of element type `dtype`.
pub open spec fn norm_expr(
    weight: Expr,
    eps: NumberExpr,
    x: Expr,
    width: usize,
    dtype: candle_core::DType,
) -> Expr {
    let wide = tensor::cast(x, inner_dtype(dtype));
    let mean = tensor::with_number(
        NumberOp::Div,
        tensor::unary(UnaryOp::SumLast, tensor::unary(UnaryOp::Sqr, wide)),
        NumberExpr::Int(width as int),
    );
    let rms = tensor::unary(UnaryOp::Sqrt, tensor::with_number(NumberOp::Add, mean, eps));
    let normed = tensor::cast(tensor::binary(BinaryOp::BroadcastDiv, wide, rms), dtype);
    tensor::binary(BinaryOp::BroadcastMul, normed, weight)
}

/// A hidden state in main memory: ordered entries of an element type that can be multiplied, of two or
/// three dimensions that hold some.
pub open spec fn is_state(xs: Traced) -> bool {
    &&& xs.is_ready()
    &&& tensor::has_products(xs.dtype())
    &&& 2 <= xs.dims().len() <= 3
    &&& tensor::has_entries(xs.dims())
}

/// A weighted root-mean-square normalisation, without an offset.
pub struct FloatNorm {
    pub weight: Traced,
    pub eps: Number,
}

impl FloatNorm {
    /// The record of a tensor of shape `dims` and element type `dtype`, normalised.
    pub open spec fn of(&self, x: Expr, dims: Seq<usize>, dtype: candle_core::DType) -> Expr {
        norm_expr(self.weight.expr(), self.eps.expr(), x, dims.last(), dtype)
    }

    /// The shape of a normalised tensor.
    pub open spec fn dims_of(&self, dims: Seq<usize>) -> Seq<usize> {
        tensor::broadcast_dims(dims, self.weight.dims())
    }

    /// The weight lies in main memory and has so many entries of this element type.
    pub open spec fn fits(&self, n: usize, dtype: candle_core::DType) -> bool {
        self.weight.is_local() && self.weight.dims() == seq![n] && self.weight.dtype() == dtype
    }

    /// A normalisation that fits keeps the shape.
    pub(crate) proof fn lemma_fit_dims(&self, dims: Seq<usize>, dtype: candle_core::DType)
        requires
            dims.len() > 0,
            self.fits(dims.last(), dtype),
        ensures
            self.dims_of(dims) == dims,
            tensor::can_broadcast(dims, self.weight.dims()),
    {
        assert(tensor::broadcast_dims(dims, self.weight.dims()) =~= dims);
    }

    /// The weight is the parameter below a path.
    pub open spec fn is_at(&self, path: Place, dim: usize, eps: NumberExpr) -> bool {
        self.weight.expr() == layers::param(path, "weight"@, seq![dim]) && self.eps.expr() == eps
    }

    /// A normalisation whose weight is the parameter `weight`.
    pub(crate) fn new(dim: usize, eps: &Number, params: &Params) -> (r: Result<
        FloatNorm,
        ModelError,
    >)
        ensures
            r matches Ok(n) ==> n.is_at(params.path(), dim, eps.expr()),
            r matches Err(e) ==> e is Candle,
            layers::has_param(params.path(), "weight"@, seq![dim]) ==> (r matches Ok(n) && n.fits(
                dim,
                layers::store_dtype(params.path().store),
            )),
    {
        let mut dims: Vec<usize> = Vec::new();
        dims.push(dim);
        assert(dims@ =~= seq![dim]);
        let weight = params.get(&dims, "weight")?;
        Ok(FloatNorm { weight, eps: eps.duplicate() })
    }

    /// A tensor in main memory fits the weight.
    pub open spec fn can_norm(&self, x: Traced) -> bool {
        &&& x.is_local()
        &&& tensor::has_products(x.dtype())
        &&& x.dims().len() > 0
        &&& tensor::has_entries(x.dims())
        &&& self.fits(x.dims().last(), x.dtype())
    }

    /// The normalisation along the last dimension.
    pub(crate) fn forward(&self, x: &Traced) -> (r: Result<Traced, ModelError>)
        requires
            tensor::is_float(x.dtype()),
        ensures
            r matches Ok(t) ==> t.expr() == self.of(x.expr(), x.dims(), x.dtype()) && t.dims()
                == self.dims_of(x.dims()) && t.dtype() == x.dtype(),
            r matches Err(e) ==> e is Candle,
            self.can_norm(*x) ==> (r matches Ok(t) && t.is_ready() && t.dims() == x.dims()),
    {
        let dtype = x.element_type();
        let inner = match dtype {
            candle_core::DType::F16 | candle_core::DType::BF16 => candle_core::DType::F32,
            d => d,
        };
        let wide = x.to_dtype(inner)?;
        let squares = wide.sqr()?;
        let sum = squares.sum_last()?;
        let dims = x.shape();
        let width: usize = dims[dims.len() - 1];
        let mean = sum.over_number(&Number::count(width))?;
        let shifted = mean.plus_number(&self.eps)?;
        let rms = shifted.sqrt()?;
        proof {
            attention::lemma_broadcast_last(x.dims());
            if self.can_norm(*x) {
                self.lemma_fit_dims(x.dims(), x.dtype());
                assert(tensor::has_entries(rms.dims()));
                assert(tensor::can_broadcast(wide.dims(), rms.dims()));
            }
        }
        let normed = wide.broadcast_div(&rms)?;
        let normed = normed.to_dtype(dtype)?;
        normed.broadcast_mul(&self.weight)
    }
}

/// A gated feed-forward block.
pub struct FloatMlp {
    pub gate_proj: Projection,
    pub up_proj: Projection,
    pub down_proj: Projection,
    pub act_fn: candle_nn::Activation,
}

impl FloatMlp {
    /// The record of the block's output.
    pub open spec fn of(&self, x: Expr) -> Expr {
        self.down_proj.of(
            tensor::binary(
                BinaryOp::Mul,
                layers::activated(self.act_fn, self.gate_proj.of(x)),
                self.up_proj.of(x),
            ),
        )
    }

    /// The shape of the block's output.
    pub open spec fn dims_of(&self, dims: Seq<usize>) -> Seq<usize> {
        self.down_proj.dims_of(self.up_proj.dims_of(dims))
    }

    /// The matrices are the parameters below a path.
    pub open spec fn is_at(
        &self,
        path: Place,
        hidden: usize,
        inner: usize,
        act: candle_nn::Activation,
        bias: bool,
    ) -> bool {
        &&& self.gate_proj.is_at(path.push("gate_proj"@), hidden, inner, bias)
        &&& self.up_proj.is_at(path.push("up_proj"@), hidden, inner, bias)
        &&& self.down_proj.is_at(path.push("down_proj"@), inner, hidden, bias)
        &&& self.act_fn == act
    }

    /// There are the parameters of a block at a place.
    pub open spec fn has_params(path: Place, hidden: usize, inner: usize, bias: bool) -> bool {
        &&& layers::has_projection(path.push("gate_proj"@), hidden, inner, bias)
        &&& layers::has_projection(path.push("up_proj"@), hidden, inner, bias)
        &&& layers::has_projection(path.push("down_proj"@), inner, hidden, bias)
    }

    /// The matrices lie in main memory and fit so many entries per position and within the block, and
    /// the activation keeps the shape.
    pub open spec fn fits(&self, hidden: usize, inner: usize, dtype: candle_core::DType) -> bool {
        &&& self.gate_proj.fits(hidden, inner, dtype)
        &&& self.up_proj.fits(hidden, inner, dtype)
        &&& self.down_proj.fits(inner, hidden, dtype)
        &&& !layers::is_gated(self.act_fn)
    }

    /// A block whose matrices are the parameters `gate_proj`, `up_proj` and `down_proj`.
    pub(crate) fn new(
        hidden: usize,
        inner: usize,
        act: &candle_nn::Activation,
        bias: bool,
        params: &Params,
    ) -> (r: Result<FloatMlp, ModelError>)
        ensures
            r matches Ok(m) ==> m.is_at(params.path(), hidden, inner, *act, bias),
            r matches Err(e) ==> e is Candle,
            FloatMlp::has_params(params.path(), hidden, inner, bias) ==> (r matches Ok(m) && (
            !layers::is_gated(*act) ==> m.fits(
                hidden,
                inner,
                layers::store_dtype(params.path().store),
            ))),
    {
        let gate_proj = Projection::new(hidden, inner, bias, &params.pp("gate_proj"))?;
        let up_proj = Projection::new(hidden, inner, bias, &params.pp("up_proj"))?;
        let down_proj = Projection::new(inner, hidden, bias, &params.pp("down_proj"))?;
        Ok(FloatMlp { gate_proj, up_proj, down_proj, act_fn: layers::copy_activation(act) })
    }

    /// What the block can fail with on an input of this shape.
    pub open spec fn may_fail_with(&self, dims: Seq<usize>, e: ModelError) -> bool {
        match e {
            ModelError::Candle(_) => true,
            ModelError::EmptyAxis => layers::lacks_halves(
                self.act_fn,
                self.gate_proj.dims_of(dims),
            ),
            _ => false,
        }
    }

    /// The block's output.
    pub(crate) fn forward(&self, xs: &Traced) -> (r: Result<Traced, ModelError>)
        requires
            tensor::is_float(xs.dtype()),
        ensures
            r matches Ok(t) ==> t.expr() == self.of(xs.expr()) && t.dims() == self.dims_of(
                xs.dims(),
            ) && t.dtype() == xs.dtype(),
            r matches Err(e) ==> self.may_fail_with(xs.dims(), e),
            forall|inner: usize|
                is_state(*xs) && inner > 0 && #[trigger] self.fits(
                    xs.dims().last(),
                    inner,
                    xs.dtype(),
                ) ==> (r matches Ok(t) && t.is_ready() && t.dims() == xs.dims()),
    {
        proof {
            if is_state(*xs) {
                assert forall|inner: usize| #[trigger]
                    self.fits(xs.dims().last(), inner, xs.dtype()) implies {
                    &&& self.gate_proj.dims_of(xs.dims()) == tensor::with_last(xs.dims(), inner)
                    &&& self.up_proj.dims_of(xs.dims()) == tensor::with_last(xs.dims(), inner)
                    &&& self.dims_of(xs.dims()) == xs.dims()
                    &&& self.gate_proj.rows() == inner
                    &&& self.up_proj.rows() == inner
                    &&& self.down_proj.rows() == xs.dims().last()
                } by {
                    let (hidden, dtype) = (xs.dims().last(), xs.dtype());
                    self.gate_proj.lemma_fit_dims(hidden, inner, dtype, xs.dims());
                    self.up_proj.lemma_fit_dims(hidden, inner, dtype, xs.dims());
                    let wide = tensor::with_last(xs.dims(), inner);
                    self.down_proj.lemma_fit_dims(inner, hidden, dtype, wide);
                    assert(tensor::with_last(wide, hidden) =~= xs.dims());
                }
            }
        }
        let lhs = self.gate_proj.forward(xs)?;
        let lhs = layers::activate(&self.act_fn, &lhs)?;
        let rhs = self.up_proj.forward(xs)?;
        let both = lhs.times(&rhs)?;
        self.down_proj.forward(&both)
    }
}

} // verus!
