//! The mixture of experts of a float model.

use super::attn;
use super::block::{self, FloatNorm};
use super::config::Gemma4TextConfig;
use crate::attention;
use crate::error::{ModelError, Setting};
use crate::routing;
use crate::tensor::layers::{self, Params, Place, Projection};
use crate::tensor::{self, BinaryOp, Expr, Number, NumberExpr, NumberOp, Traced, UnaryOp};
use vstd::prelude::*;

verus! {

/// Expert router: normalisation without a weight, a scale per dimension, `hidden_size` to the power
/// of minus one half, scores, softmax in `F32`, the `top_k` largest, renormalised, times a scale
/// per expert.
pub struct FloatRouter {
    pub proj: Projection,
    /// `[hidden]`
    pub scale: Traced,
    /// `[experts]`
    pub per_expert_scale: Traced,
    pub eps: Number,
    pub hidden_size: usize,
    pub top_k: usize,
}

impl FloatRouter {
    /// The record of the experts' probabilities, one row per token, of an input of element type
    /// `dtype`.
    pub open spec fn probs_of(&self, x: Expr, dtype: candle_core::DType) -> Expr {
        let h = attention::v_norm_expr(x, self.eps.expr(), dtype);
        let h = tensor::binary(
            BinaryOp::BroadcastMul,
            h,
            tensor::cast(self.scale.expr(), dtype),
        );
        let h = tensor::with_number(
            NumberOp::Mul,
            h,
            tensor::inverse_root_of(self.hidden_size as int),
        );
        tensor::unary(
            UnaryOp::SoftmaxLast,
            tensor::cast(self.proj.of(h), candle_core::DType::F32),
        )
    }

    /// The record of the experts' own scales.
    pub open spec fn scales(&self) -> Expr {
        tensor::cast(self.per_expert_scale.expr(), candle_core::DType::F32)
    }

    /// The router's parameters are those below a path.
    pub open spec fn is_at(&self, cfg: Gemma4TextConfig, path: Place) -> bool {
        let experts = cfg.num_experts->Some_0;
        &&& cfg.num_experts is Some
        &&& Some(self.top_k) == cfg.top_k_experts
        &&& self.proj.is_at(path.push("proj"@), cfg.hidden_size, experts, false)
        &&& self.scale.expr() == layers::param(path, "scale"@, seq![cfg.hidden_size])
        &&& self.per_expert_scale.expr() == layers::param(
            path,
            "per_expert_scale"@,
            seq![experts],
        )
        &&& self.eps.expr() == cfg.rms_norm_eps.expr()
        &&& self.hidden_size == cfg.hidden_size
    }

    /// There are the parameters of a router at a place.
    pub open spec fn has_params(cfg: Gemma4TextConfig, path: Place) -> bool {
        let experts = cfg.num_experts->Some_0;
        &&& layers::has_projection(path.push("proj"@), cfg.hidden_size, experts, false)
        &&& layers::has_param(path, "scale"@, seq![cfg.hidden_size])
        &&& layers::has_param(path, "per_expert_scale"@, seq![experts])
    }

    /// The router's tensors lie in main memory and fit so many entries per token and experts, of which
    /// there are enough to pick from.
    pub open spec fn fits(&self, hidden: usize, experts: usize, dtype: candle_core::DType) -> bool {
        &&& self.proj.fits(hidden, experts, dtype)
        &&& self.scale.is_local()
        &&& self.scale.dtype() == dtype
        &&& self.scale.dims() == seq![hidden]
        &&& self.per_expert_scale.is_local()
        &&& self.per_expert_scale.dtype() == dtype
        &&& self.per_expert_scale.dims() == seq![experts]
        &&& 0 < self.top_k <= experts
    }

    /// A router with the parameters below a path.
    pub(crate) fn new(cfg: &Gemma4TextConfig, params: &Params) -> (r: Result<
        FloatRouter,
        ModelError,
    >)
        ensures
            r matches Ok(router) ==> router.is_at(*cfg, params.path()),
            r matches Err(e) ==> e is Candle || (e == (ModelError::MissingSetting(
                Setting::NumExperts,
            )) && cfg.num_experts is None) || (e == (ModelError::MissingSetting(
                Setting::TopKExperts,
            )) && cfg.top_k_experts is None),
            cfg.num_experts is None ==> r == Err::<FloatRouter, ModelError>(
                ModelError::MissingSetting(Setting::NumExperts),
            ),
            cfg.num_experts is Some && cfg.top_k_experts is None ==> r == Err::<
                FloatRouter,
                ModelError,
            >(ModelError::MissingSetting(Setting::TopKExperts)),
            cfg.num_experts is Some && cfg.top_k_experts is Some && FloatRouter::has_params(
                *cfg,
                params.path(),
            ) ==> (r matches Ok(router) && (0 < router.top_k <= cfg.num_experts->Some_0
                ==> router.fits(
                cfg.hidden_size,
                cfg.num_experts->Some_0,
                layers::store_dtype(params.path().store),
            ))),
    {
        let experts: usize = match cfg.num_experts {
            Some(n) => n,
            None => {
                return Err(ModelError::MissingSetting(Setting::NumExperts));
            },
        };
        let top_k: usize = match cfg.top_k_experts {
            Some(n) => n,
            None => {
                return Err(ModelError::MissingSetting(Setting::TopKExperts));
            },
        };
        let proj = Projection::new(cfg.hidden_size, experts, false, &params.pp("proj"))?;
        let mut hidden: Vec<usize> = Vec::new();
        hidden.push(cfg.hidden_size);
        assert(hidden@ =~= seq![cfg.hidden_size]);
        let scale = params.get(&hidden, "scale")?;
        let mut count: Vec<usize> = Vec::new();
        count.push(experts);
        assert(count@ =~= seq![experts]);
        let per_expert_scale = params.get(&count, "per_expert_scale")?;
        Ok(
            FloatRouter {
                proj,
                scale,
                per_expert_scale,
                eps: cfg.rms_norm_eps.duplicate(),
                hidden_size: cfg.hidden_size,
                top_k,
            },
        )
    }

    /// The shape of the experts' probabilities of an input of this shape.
    pub open spec fn probs_dims(&self, dims: Seq<usize>) -> Seq<usize> {
        self.proj.dims_of(tensor::broadcast_dims(dims, self.scale.dims()))
    }

    /// What the router can fail with on an input of this shape.
    pub open spec fn may_fail_with(&self, dims: Seq<usize>, e: ModelError) -> bool {
        let probs = self.probs_dims(dims);
        match e {
            ModelError::Candle(_) => true,
            ModelError::Rank { .. } => probs.len() != 2,
            ModelError::EmptyAxis => probs.len() == 2 && probs[1] == 0,
            ModelError::TopK { top_k, experts } => {
                &&& probs.len() == 2
                &&& top_k == self.top_k
                &&& experts == probs[1]
                &&& !(0 < top_k <= experts)
            },
            _ => false,
        }
    }

    /// The weighted picks of every token of a flat `[tokens, hidden]` input.
    pub(crate) fn forward(&self, xs: &Traced) -> (r: Result<Vec<Vec<(usize, Traced)>>, ModelError>)
        requires
            tensor::is_float(xs.dtype()),
        ensures
            r matches Ok(routes) ==> exists|probs: Traced|
                probs.expr() == self.probs_of(xs.expr(), xs.dtype()) && probs.dims()
                    == self.probs_dims(xs.dims()) && #[trigger] routing::routes_follow(
                    routes@,
                    probs,
                    self.scales(),
                    self.top_k,
                ),
            r matches Err(e) ==> self.may_fail_with(xs.dims(), e),
            forall|experts: usize|
                block::is_state(*xs) && xs.dims().len() == 2 && #[trigger] self.fits(
                    xs.dims()[1],
                    experts,
                    xs.dtype(),
                ) ==> (r matches Ok(routes) && self.probs_dims(xs.dims()) == seq![
                    xs.dims()[0],
                    experts,
                ] && forall|n: int|
                    0 <= n < routes@.len() ==> routing::are_local((#[trigger] routes@[n])@)),
    {
        proof {
            assert forall|experts: usize|
                block::is_state(*xs) && xs.dims().len() == 2 && #[trigger] self.fits(
                    xs.dims()[1],
                    experts,
                    xs.dtype(),
                ) implies {
                &&& tensor::can_broadcast(xs.dims(), self.scale.dims())
                &&& tensor::broadcast_dims(xs.dims(), self.scale.dims()) == xs.dims()
                &&& self.probs_dims(xs.dims()) == seq![xs.dims()[0], experts]
                &&& self.proj.rows() == experts
            } by {
                assert(tensor::broadcast_dims(xs.dims(), self.scale.dims()) =~= xs.dims());
                self.proj.lemma_fit_dims(xs.dims()[1], experts, xs.dtype(), xs.dims());
                assert(tensor::with_last(xs.dims(), experts) =~= seq![xs.dims()[0], experts]);
            }
        }
        let h = attention::v_norm(xs, &self.eps)?;
        let scale = self.scale.to_dtype(h.element_type())?;
        let h = h.broadcast_mul(&scale)?;
        let h = h.times_number(&Number::inverse_root_of(self.hidden_size))?;
        let scores = self.proj.forward(&h)?;
        let scores = scores.to_dtype(candle_core::DType::F32)?;
        let (_tokens, experts): (usize, usize) = scores.dims2()?;
        if experts == 0 {
            return Err(ModelError::EmptyAxis);
        }
        let probs = scores.softmax_last()?;
        let scales = self.per_expert_scale.to_dtype(candle_core::DType::F32)?;
        routing::route(&probs, &scales, self.top_k)
    }
}

/// The experts' own blocks, stacked: `gate_up` computes gate and up together, `down` maps back.
pub struct FloatExperts {
    /// `[experts, 2 * inner, hidden]`
    pub gate_up: Traced,
    /// `[experts, hidden, inner]`
    pub down: Traced,
    pub act: candle_nn::Activation,
}

/// The record of a product with the transpose of one matrix of a stack.
pub open spec fn stack_product(x: Expr, stack: Expr, e: usize) -> Expr {
    tensor::binary(
        BinaryOp::MatMul,
        x,
        tensor::transposed(tensor::selected(stack, 0, e as nat), 0, 1),
    )
}

impl FloatExperts {
    /// The record of one expert's weighted output for one token, of element type `dtype`.
    pub open spec fn term(
        &self,
        x: Expr,
        e: usize,
        weight: Expr,
        dtype: candle_core::DType,
    ) -> Expr {
        let y = stack_product(x, self.gate_up.expr(), e);
        let i = (self.gate_up.dims()[1] / 2) as nat;
        let gate = layers::activated(self.act, tensor::narrowed(y, 1, 0, i));
        let up = tensor::narrowed(y, 1, i, i);
        let z = stack_product(tensor::binary(BinaryOp::Mul, gate, up), self.down.expr(), e);
        let weighted = tensor::binary(BinaryOp::BroadcastMul, z, tensor::cast(weight, dtype));
        tensor::with_number(NumberOp::Add, weighted, NumberExpr::Int(0))
    }

    /// The record of one token's output: the weighted outputs of its experts, added up.
    pub open spec fn token(
        &self,
        xs: Expr,
        n: int,
        picks: Seq<(usize, Expr)>,
        dtype: candle_core::DType,
    ) -> Expr {
        routing::left_sum(
            picks.map_values(
                |p: (usize, Expr)|
                    self.term(tensor::narrowed(xs, 0, n as nat, 1), p.0, p.1, dtype),
            ),
        )
    }

    /// The record of all tokens' outputs.
    pub open spec fn of(
        &self,
        xs: Expr,
        routes: Seq<Seq<(usize, Expr)>>,
        dtype: candle_core::DType,
    ) -> Expr {
        Expr::Cat(Seq::new(routes.len(), |n: int| self.token(xs, n, routes[n], dtype)), 0)
    }

    /// One matrix of a stack, transposed.
    fn matrix(stack: &Traced, e: usize) -> (r: Result<Traced, ModelError>)
        ensures
            r matches Ok(t) ==> t.expr() == tensor::transposed(
                tensor::selected(stack.expr(), 0, e as nat),
                0,
                1,
            ) && stack.dims().len() == 3 && t.dims() == seq![stack.dims()[2], stack.dims()[1]],
            stack.dims().len() != 3 ==> r == Err::<Traced, ModelError>(
                ModelError::Rank { expected: 3, got: stack.dims().len() as usize },
            ),
            stack.dims().len() == 3 ==> (r matches Err(e) ==> e is Candle),
            stack.dims().len() == 3 && e < stack.dims()[0] ==> r is Ok,
            r matches Ok(t) ==> t.dtype() == stack.dtype() && t.device() == stack.device() && (
            stack.is_ordered() ==> t.is_even()),
    {
        let _dims = stack.dims3()?;
        let one = stack.get_on_dim(0, e)?;
        assert(one.dims() =~= seq![stack.dims()[1], stack.dims()[2]]);
        assert(tensor::swapped_dims(one.dims(), 0, 1) =~= seq![
            stack.dims()[2],
            stack.dims()[1],
        ]);
        one.transpose(0, 1)
    }

    /// The stacks lie in main memory and fit so many entries per token and experts, and the activation
    /// keeps the shape.
    pub open spec fn fits(&self, hidden: usize, experts: usize, dtype: candle_core::DType) -> bool {
        let inner = self.gate_up.dims()[1] / 2;
        &&& self.gate_up.is_ready()
        &&& self.gate_up.dtype() == dtype
        &&& self.gate_up.dims() == seq![experts, self.gate_up.dims()[1], hidden]
        &&& inner > 0
        &&& self.down.is_ready()
        &&& self.down.dtype() == dtype
        &&& self.down.dims() == seq![experts, hidden, inner]
        &&& !layers::is_gated(self.act)
    }

    /// What the experts can fail with.
    pub open spec fn may_fail_with(&self, e: ModelError) -> bool {
        match e {
            ModelError::Candle(_) => true,
            ModelError::Rank { .. } => self.gate_up.dims().len() != 3 || self.down.dims().len() != 3,
            ModelError::EmptyAxis => layers::lacks_halves(
                self.act,
                seq![1, (self.gate_up.dims()[1] / 2) as usize],
            ),
            _ => false,
        }
    }

    /// A token, an expert and its weight fit.
    spec fn one_fits(&self, x: Traced, e: usize, weight: Traced) -> bool {
        &&& block::is_state(x)
        &&& x.dims().len() == 2
        &&& e < self.gate_up.dims()[0]
        &&& self.fits(x.dims()[1], self.gate_up.dims()[0], x.dtype())
        &&& weight.is_local()
        &&& weight.dtype() == candle_core::DType::F32
    }

    /// One expert's weighted output for one token. A number times a tensor adds zero to every
    /// product, so that no entry is a negative zero.
    fn one(&self, x: &Traced, e: usize, weight: &Traced) -> (r: Result<Traced, ModelError>)
        requires
            x.dims().len() == 2,
            x.dims()[0] == 1,
            tensor::is_float(x.dtype()),
            weight.dims() == routing::single(),
        ensures
            r matches Ok(t) ==> t.expr() == self.term(x.expr(), e, weight.expr(), x.dtype())
                && t.dtype() == x.dtype() && t.dims() == seq![1usize, self.down.dims()[1]],
            r matches Err(e) ==> self.may_fail_with(e),
            self.one_fits(*x, e, *weight) ==> (r matches Ok(t) && t.is_ready() && t.dims()
                == x.dims()),
    {
        let ghost fits = self.one_fits(*x, e, *weight);
        let fused = FloatExperts::matrix(&self.gate_up, e)?;
        let y = x.matmul(&fused)?;
        let dims = y.shape();
        let i: usize = dims[1] / 2;
        let gate = y.narrow(1, 0, i)?;
        let up = y.narrow(1, i, i)?;
        assert(gate.dims() =~= seq![1usize, i]);
        let gate = layers::activate(&self.act, &gate)?;
        let h = gate.times(&up)?;
        let down = FloatExperts::matrix(&self.down, e)?;
        let z = h.matmul(&down)?;
        let weight = weight.to_dtype(z.element_type())?;
        proof {
            if fits {
                assert(z.dims() =~= x.dims());
                assert(tensor::can_broadcast(z.dims(), weight.dims()));
            }
        }
        let weighted = z.broadcast_mul(&weight)?;
        assert(weighted.dims() =~= seq![1usize, self.down.dims()[1]]);
        weighted.plus_number(&Number::whole(0))
    }

    /// Token `n` of a hidden state and its picks fit the experts.
    spec fn row_fits(&self, xs: Traced, n: usize, picks: Seq<(usize, Traced)>) -> bool {
        &&& block::is_state(xs)
        &&& xs.dims().len() == 2
        &&& n < xs.dims()[0]
        &&& self.fits(xs.dims()[1], self.gate_up.dims()[0], xs.dtype())
        &&& routing::are_local(picks)
        &&& routing::picks_below(picks, self.gate_up.dims()[0] as int)
    }

    /// One token's output.
    fn row(&self, xs: &Traced, n: usize, picks: &Vec<(usize, Traced)>) -> (r: Result<
        Traced,
        ModelError,
    >)
        requires
            xs.dims().len() == 2,
            tensor::is_float(xs.dtype()),
            picks@.len() > 0,
            forall|j: int|
                0 <= j < picks@.len() ==> (#[trigger] picks@[j]).1.dims() == routing::single(),
        ensures
            r matches Ok(t) ==> t.expr() == self.token(
                xs.expr(),
                n as int,
                routing::picks_view(picks@),
                xs.dtype(),
            ) && t.dtype() == xs.dtype() && t.dims() == seq![1usize, self.down.dims()[1]],
            r matches Err(e) ==> self.may_fail_with(e),
            self.row_fits(*xs, n, picks@) ==> (r matches Ok(t) && t.is_ready()),
    {
        let ghost fits = self.row_fits(*xs, n, picks@);
        let x = xs.narrow(0, n, 1)?;
        assert(fits ==> x.dims() =~= seq![1usize, xs.dims()[1]]);
        let ghost dtype = xs.dtype();
        let ghost view = routing::picks_view(picks@);
        let ghost terms = view.map_values(
            |p: (usize, Expr)|
                self.term(tensor::narrowed(xs.expr(), 0, n as nat, 1), p.0, p.1, dtype),
        );
        let mut sum = self.one(&x, picks[0].0, &picks[0].1)?;
        assert(terms.take(1)[0] == sum.expr());
        let mut j: usize = 1;
        while j < picks.len()
            invariant
                1 <= j <= picks@.len(),
                x.dims().len() == 2,
                x.dims()[0] == 1,
                dtype == xs.dtype(),
                tensor::is_float(dtype),
                x.dtype() == dtype,
                sum.dtype() == dtype,
                sum.dims() == seq![1usize, self.down.dims()[1]],
                fits == self.row_fits(*xs, n, picks@),
                fits ==> x.is_ready() && x.dims() == seq![1usize, xs.dims()[1]] && sum.is_ready(),
                forall|j: int|
                    0 <= j < picks@.len() ==> (#[trigger] picks@[j]).1.dims() == routing::single(),
                x.expr() == tensor::narrowed(xs.expr(), 0, n as nat, 1),
                view == routing::picks_view(picks@),
                terms == view.map_values(
                    |p: (usize, Expr)|
                        self.term(tensor::narrowed(xs.expr(), 0, n as nat, 1), p.0, p.1, dtype),
                ),
                sum.expr() == routing::left_sum(terms.take(j as int)),
            decreases picks@.len() - j,
        {
            let next = self.one(&x, picks[j].0, &picks[j].1)?;
            sum = sum.plus(&next)?;
            assert(terms.take(j + 1).drop_last() =~= terms.take(j as int));
            assert(terms.take(j + 1).last() == next.expr());
            j = j + 1;
        }
        assert(terms.take(j as int) =~= terms);
        Ok(sum)
    }

    /// The tokens of a hidden state and their picks fit the experts.
    pub open spec fn routes_fit(&self, xs: Traced, routes: Seq<Vec<(usize, Traced)>>) -> bool {
        &&& block::is_state(xs)
        &&& xs.dims().len() == 2
        &&& 0 < routes.len() <= xs.dims()[0]
        &&& self.fits(xs.dims()[1], self.gate_up.dims()[0], xs.dtype())
        &&& forall|n: int|
            0 <= n < routes.len() ==> routing::are_local((#[trigger] routes[n])@)
                && routing::picks_below(routes[n]@, self.gate_up.dims()[0] as int)
    }

    /// Every token's output, given the tokens' picks: as many rows as tokens, as wide as the experts'
    /// last matrices have rows.
    pub(crate) fn forward(&self, xs: &Traced, routes: &Vec<Vec<(usize, Traced)>>) -> (r: Result<
        Traced,
        ModelError,
    >)
        requires
            xs.dims().len() == 2,
            tensor::is_float(xs.dtype()),
            forall|n: int|
                0 <= n < routes@.len() ==> routing::picks_below(
                    (#[trigger] routes@[n])@,
                    usize::MAX as int,
                ),
        ensures
            r matches Ok(t) ==> t.expr() == self.of(
                xs.expr(),
                routing::routes_view(routes@),
                xs.dtype(),
            ) && t.dtype() == xs.dtype() && t.dims() == seq![
                routes@.len() as usize,
                self.down.dims()[1],
            ],
            r matches Err(e) ==> self.may_fail_with(e),
            self.routes_fit(*xs, routes@) ==> (r matches Ok(t) && t.is_ready()),
    {
        let ghost fits = self.routes_fit(*xs, routes@);
        let mut rows: Vec<Traced> = Vec::new();
        let mut n: usize = 0;
        while n < routes.len()
            invariant
                n <= routes@.len(),
                xs.dims().len() == 2,
                tensor::is_float(xs.dtype()),
                forall|i: int|
                    0 <= i < routes@.len() ==> routing::picks_below(
                        (#[trigger] routes@[i])@,
                        usize::MAX as int,
                    ),
                rows@.len() == n,
                fits == self.routes_fit(*xs, routes@),
                fits ==> forall|i: int| 0 <= i < n ==> (#[trigger] rows@[i]).is_ready(),
                forall|i: int|
                    0 <= i < n ==> (#[trigger] rows@[i]).expr() == self.token(
                        xs.expr(),
                        i,
                        routing::picks_view(routes@[i]@),
                        xs.dtype(),
                    ) && rows@[i].dtype() == xs.dtype() && rows@[i].dims() == seq![
                        1usize,
                        self.down.dims()[1],
                    ],
            decreases routes@.len() - n,
        {
            assert(fits ==> self.row_fits(*xs, n, routes@[n as int]@));
            rows.push(self.row(xs, n, &routes[n])?);
            n = n + 1;
        }
        let ghost view = routing::routes_view(routes@);
        assert(tensor::exprs(rows@) =~= Seq::new(
            view.len(),
            |i: int| self.token(xs.expr(), i, view[i], xs.dtype()),
        ));
        proof {
            tensor::lemma_total_alike(rows@, 0, 1);
            assert(fits ==> tensor::can_cat(rows@, 0));
        }
        let out = Traced::cat(&rows, 0)?;
        assert(out.dims() =~= seq![routes@.len() as usize, self.down.dims()[1]]);
        Ok(out)
    }
}

/// The mixture of experts beside a dense block, both fed from what went into the dense one.
pub struct FloatMoeBlock {
    pub router: FloatRouter,
    pub experts: FloatExperts,
    pub post_feedforward_layernorm_1: FloatNorm,
    pub post_feedforward_layernorm_2: FloatNorm,
    pub pre_feedforward_layernorm_2: FloatNorm,
}

impl FloatMoeBlock {
    /// The record of the experts' probabilities, one row per token.
    pub open spec fn probs_of(
        &self,
        residual: Expr,
        dims: Seq<usize>,
        dtype: candle_core::DType,
    ) -> Expr {
        let flat = tensor::reshaped(residual, seq![(dims[0] * dims[1]) as usize, dims[2]]);
        self.router.probs_of(flat, dtype)
    }

    /// The picks are the most probable experts of each token.
    pub open spec fn are_picks(
        &self,
        residual: Expr,
        dims: Seq<usize>,
        dtype: candle_core::DType,
        picks: Seq<Seq<usize>>,
    ) -> bool {
        exists|probs: Traced|
            probs.expr() == self.probs_of(residual, dims, dtype)
                && #[trigger] routing::picks_follow(picks, probs, self.router.top_k)
    }

    /// What the block can fail with on a hidden state of shape `dims`.
    pub open spec fn may_fail_with(&self, dims: Seq<usize>, e: ModelError) -> bool {
        let flat = seq![(dims[0] * dims[1]) as usize, dims[2]];
        ||| e is Candle
        ||| e is Rank && dims.len() != 3
        ||| dims.len() == 3 && e is ShapeTooLarge && routing::tokens_too_large(dims)
        ||| dims.len() == 3 && self.router.may_fail_with(flat, e)
        ||| dims.len() == 3 && self.experts.may_fail_with(e)
        ||| dims.len() == 3 && e is Rank && self.pre_feedforward_layernorm_2.dims_of(flat).len() != 2
    }

    /// The record of the block's output, given which experts were picked for each token. `dense` is
    /// of shape `dense_dims`, `residual` of shape `dims`, both of element type `dtype`.
    pub open spec fn of(
        &self,
        dense: Expr,
        dense_dims: Seq<usize>,
        residual: Expr,
        dims: Seq<usize>,
        dtype: candle_core::DType,
        picks: Seq<Seq<usize>>,
    ) -> Expr {
        let flat_dims = seq![(dims[0] * dims[1]) as usize, dims[2]];
        let flat = tensor::reshaped(residual, flat_dims);
        let probs = self.probs_of(residual, dims, dtype);
        let routes = routing::weighted(picks, probs, self.router.scales());
        let mixed = self.experts.of(
            self.pre_feedforward_layernorm_2.of(flat, flat_dims, dtype),
            routes,
            dtype,
        );
        tensor::binary(
            BinaryOp::Add,
            self.post_feedforward_layernorm_1.of(dense, dense_dims, dtype),
            self.post_feedforward_layernorm_2.of(tensor::reshaped(mixed, dims), dims, dtype),
        )
    }

    /// The shape of the block's output.
    pub open spec fn dims_of(&self, dense_dims: Seq<usize>) -> Seq<usize> {
        self.post_feedforward_layernorm_1.dims_of(dense_dims)
    }

    /// The parameters are those below a path.
    pub open spec fn is_at(&self, cfg: Gemma4TextConfig, path: Place) -> bool {
        let hidden = cfg.hidden_size;
        let eps = cfg.rms_norm_eps.expr();
        let experts = cfg.num_experts->Some_0;
        let inner = cfg.moe_intermediate_size->Some_0;
        &&& cfg.num_experts is Some
        &&& cfg.moe_intermediate_size is Some
        &&& self.router.is_at(cfg, path.push("router"@))
        &&& self.experts.gate_up.expr() == layers::param(
            path,
            "experts.gate_up_proj"@,
            seq![experts, (2 * inner) as usize, hidden],
        )
        &&& self.experts.down.expr() == layers::param(
            path,
            "experts.down_proj"@,
            seq![experts, hidden, inner],
        )
        &&& self.experts.act == cfg.hidden_activation
        &&& self.post_feedforward_layernorm_1.is_at(
            path.push("post_feedforward_layernorm_1"@),
            hidden,
            eps,
        )
        &&& self.post_feedforward_layernorm_2.is_at(
            path.push("post_feedforward_layernorm_2"@),
            hidden,
            eps,
        )
        &&& self.pre_feedforward_layernorm_2.is_at(
            path.push("pre_feedforward_layernorm_2"@),
            hidden,
            eps,
        )
    }

    /// There are the parameters of a block at a place.
    pub open spec fn has_params(cfg: Gemma4TextConfig, path: Place) -> bool {
        let hidden = cfg.hidden_size;
        let experts = cfg.num_experts->Some_0;
        let inner = cfg.moe_intermediate_size->Some_0;
        &&& FloatRouter::has_params(cfg, path.push("router"@))
        &&& layers::has_param(
            path,
            "experts.gate_up_proj"@,
            seq![experts, (2 * inner) as usize, hidden],
        )
        &&& layers::has_param(path, "experts.down_proj"@, seq![experts, hidden, inner])
        &&& layers::has_param(
            path.push("post_feedforward_layernorm_1"@),
            "weight"@,
            seq![hidden],
        )
        &&& layers::has_param(
            path.push("post_feedforward_layernorm_2"@),
            "weight"@,
            seq![hidden],
        )
        &&& layers::has_param(path.push("pre_feedforward_layernorm_2"@), "weight"@, seq![hidden])
    }

    /// The settings of the experts are there, and can be met.
    pub open spec fn has_settings(cfg: Gemma4TextConfig) -> bool {
        &&& cfg.num_experts is Some
        &&& cfg.top_k_experts is Some
        &&& cfg.moe_intermediate_size matches Some(inner) && 2 * inner <= usize::MAX
    }

    /// The block's weights lie in main memory and fit so many entries per token and experts.
    pub open spec fn fits(&self, hidden: usize, experts: usize, dtype: candle_core::DType) -> bool {
        &&& self.router.fits(hidden, experts, dtype)
        &&& self.experts.fits(hidden, experts, dtype)
        &&& self.post_feedforward_layernorm_1.fits(hidden, dtype)
        &&& self.post_feedforward_layernorm_2.fits(hidden, dtype)
        &&& self.pre_feedforward_layernorm_2.fits(hidden, dtype)
    }

    /// A block with the parameters below a path.
    pub(crate) fn new(cfg: &Gemma4TextConfig, params: &Params) -> (r: Result<
        FloatMoeBlock,
        ModelError,
    >)
        ensures
            r matches Ok(m) ==> m.is_at(*cfg, params.path()),
            r is Ok ==> FloatMoeBlock::has_settings(*cfg),
            r matches Err(e) ==> e is Candle || (e is ShapeTooLarge && (
            cfg.moe_intermediate_size matches Some(inner) && 2 * inner > usize::MAX)) || (e == (
            ModelError::MissingSetting(
                Setting::NumExperts,
            )) && cfg.num_experts is None) || (e == (ModelError::MissingSetting(
                Setting::TopKExperts,
            )) && cfg.top_k_experts is None) || (e == (ModelError::MissingSetting(
                Setting::MoeIntermediateSize,
            )) && cfg.moe_intermediate_size is None),
            cfg.num_experts is None ==> r == Err::<FloatMoeBlock, ModelError>(
                ModelError::MissingSetting(Setting::NumExperts),
            ),
            cfg.num_experts is Some && cfg.moe_intermediate_size is None ==> r == Err::<
                FloatMoeBlock,
                ModelError,
            >(ModelError::MissingSetting(Setting::MoeIntermediateSize)),
            cfg.num_experts is Some && cfg.moe_intermediate_size is Some && cfg.top_k_experts is None
                ==> r == Err::<FloatMoeBlock, ModelError>(
                ModelError::MissingSetting(Setting::TopKExperts),
            ),
            FloatMoeBlock::has_settings(*cfg) && FloatMoeBlock::has_params(*cfg, params.path()) ==> (
            r matches Ok(m) && (0 < m.router.top_k <= cfg.num_experts->Some_0
                && cfg.moe_intermediate_size->Some_0 > 0 && !layers::is_gated(
                cfg.hidden_activation,
            ) ==> m.fits(
                cfg.hidden_size,
                cfg.num_experts->Some_0,
                layers::store_dtype(params.path().store),
            ))),
    {
        let experts: usize = match cfg.num_experts {
            Some(n) => n,
            None => {
                return Err(ModelError::MissingSetting(Setting::NumExperts));
            },
        };
        let inner: usize = match cfg.moe_intermediate_size {
            Some(n) => n,
            None => {
                return Err(ModelError::MissingSetting(Setting::MoeIntermediateSize));
            },
        };
        let hidden: usize = cfg.hidden_size;
        let eps = &cfg.rms_norm_eps;
        let router = FloatRouter::new(cfg, &params.pp("router"))?;
        let fused: usize = attn::product(2, inner)?;
        let mut up: Vec<usize> = Vec::new();
        up.push(experts);
        up.push(fused);
        up.push(hidden);
        assert(up@ =~= seq![experts, (2 * inner) as usize, hidden]);
        let gate_up = params.get(&up, "experts.gate_up_proj")?;
        let mut back: Vec<usize> = Vec::new();
        back.push(experts);
        back.push(hidden);
        back.push(inner);
        assert(back@ =~= seq![experts, hidden, inner]);
        let down = params.get(&back, "experts.down_proj")?;
        let post_feedforward_layernorm_1 = FloatNorm::new(
            hidden,
            eps,
            &params.pp("post_feedforward_layernorm_1"),
        )?;
        let post_feedforward_layernorm_2 = FloatNorm::new(
            hidden,
            eps,
            &params.pp("post_feedforward_layernorm_2"),
        )?;
        let pre_feedforward_layernorm_2 = FloatNorm::new(
            hidden,
            eps,
            &params.pp("pre_feedforward_layernorm_2"),
        )?;
        Ok(
            FloatMoeBlock {
                router,
                experts: FloatExperts {
                    gate_up,
                    down,
                    act: layers::copy_activation(&cfg.hidden_activation),
                },
                post_feedforward_layernorm_1,
                post_feedforward_layernorm_2,
                pre_feedforward_layernorm_2,
            },
        )
    }

    /// The block's output: `dense` is the dense block's output, `residual` what went into it.
    pub(crate) fn forward(&self, dense: &Traced, residual: &Traced) -> (r: Result<
        Traced,
        ModelError,
    >)
        requires
            dense.dtype() == residual.dtype(),
            tensor::is_float(dense.dtype()),
        ensures
            r matches Ok(t) ==> t.dtype() == dense.dtype() && t.dims() == self.dims_of(dense.dims())
                && exists|picks: Seq<Seq<usize>>| #[trigger]
                self.are_picks(residual.expr(), residual.dims(), residual.dtype(), picks)
                    && t.expr() == self.of(
                    dense.expr(),
                    dense.dims(),
                    residual.expr(),
                    residual.dims(),
                    dense.dtype(),
                    picks,
                ),
            r matches Err(e) ==> self.may_fail_with(residual.dims(), e),
            forall|experts: usize|
                block::is_state(*dense) && block::is_state(*residual) && residual.dims().len() == 3
                    && dense.dims() == residual.dims() && !routing::tokens_too_large(
                    residual.dims(),
                ) && #[trigger] self.fits(residual.dims()[2], experts, residual.dtype()) ==> (
                r matches Ok(t) && t.is_ready() && t.dims() == residual.dims()),
    {
        let ghost fits = block::is_state(*dense) && block::is_state(*residual)
            && residual.dims().len() == 3 && dense.dims() == residual.dims()
            && !routing::tokens_too_large(residual.dims()) && exists|experts: usize| #[trigger]
            self.fits(residual.dims()[2], experts, residual.dtype());
        let ghost experts_here = choose|experts: usize| #[trigger]
            self.fits(residual.dims()[2], experts, residual.dtype());
        let h1 = self.post_feedforward_layernorm_1.forward(dense)?;
        let (b, s, hidden): (usize, usize, usize) = residual.dims3()?;
        let tokens: usize = attn::product(b, s)?;
        let mut shape: Vec<usize> = Vec::new();
        shape.push(tokens);
        shape.push(hidden);
        assert(shape@ =~= seq![(b * s) as usize, hidden]);
        proof {
            tensor::lemma_count_3(b, s, hidden);
            tensor::lemma_count_2(tokens, hidden);
            assert(residual.dims() =~= seq![b, s, hidden]);
            if fits {
                assert(residual.dims()[0] > 0 && residual.dims()[1] > 0 && residual.dims()[2] > 0);
                assert(tokens > 0) by (nonlinear_arith)
                    requires
                        tokens == b * s,
                        b > 0,
                        s > 0,
                ;
                assert(self.router.fits(hidden, experts_here, residual.dtype()));
                assert(self.experts.fits(hidden, experts_here, residual.dtype()));
                self.post_feedforward_layernorm_1.lemma_fit_dims(dense.dims(), dense.dtype());
            }
        }
        let flat = residual.reshape(&shape)?;
        let routes = self.router.forward(&flat)?;
        proof {
            let expected = self.probs_of(residual.expr(), residual.dims(), residual.dtype());
            let scales = self.router.scales();
            let probs = choose|probs: Traced|
                probs.expr() == expected && probs.dims() == self.router.probs_dims(flat.dims())
                    && #[trigger] routing::routes_follow(
                    routes@,
                    probs,
                    scales,
                    self.router.top_k,
                );
            assert(probs.dims()[1] <= usize::MAX);
            routing::lemma_routes_are_weighted(routes@, probs, scales, self.router.top_k);
            assert(self.are_picks(
                residual.expr(),
                residual.dims(),
                residual.dtype(),
                routing::experts_picked(routes@),
            ));
        }
        let h2 = self.pre_feedforward_layernorm_2.forward(&flat)?;
        proof {
            if fits {
                assert(self.experts.gate_up.dims()[0] == experts_here);
                assert(self.experts.routes_fit(h2, routes@));
            }
        }
        h2.dims2()?;
        let h2 = self.experts.forward(&h2, &routes)?;
        let dims = residual.shape();
        let h2 = h2.reshape(&dims)?;
        let h2 = self.post_feedforward_layernorm_2.forward(&h2)?;
        h1.plus(&h2)
    }
}

} // verus!
