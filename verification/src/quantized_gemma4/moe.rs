//! Feed-forward blocks over packed weights: the dense one, and the mixture of experts beside it.

use crate::attention;
use crate::error::ModelError;
use crate::routing;
use crate::tensor::packed::{self, Norm, PackedMatMul};
use crate::tensor::{self, BinaryOp, Expr, Number, NumberExpr, NumberOp, Traced, UnaryOp};
use vstd::prelude::*;

verus! {

/// A hidden state in main memory: ordered `F32` entries, of two or three dimensions that hold some.
pub open spec fn is_state(xs: Traced) -> bool {
    &&& xs.is_ready()
    &&& xs.dtype() == candle_core::DType::F32
    &&& 2 <= xs.dims().len() <= 3
    &&& tensor::has_entries(xs.dims())
}

/// A gated feed-forward block with the tanh approximation of GELU.
pub struct Mlp {
    pub gate: PackedMatMul,
    pub up: PackedMatMul,
    pub down: PackedMatMul,
}

impl Mlp {
    /// The record of the block's output.
    pub open spec fn of(&self, x: Expr) -> Expr {
        let gate = tensor::unary(UnaryOp::Gelu, packed::packed_product(self.gate.weight(), x));
        let up = packed::packed_product(self.up.weight(), x);
        packed::packed_product(self.down.weight(), tensor::binary(BinaryOp::Mul, gate, up))
    }

    /// The matrices lie in main memory and fit each other and so many entries per position.
    pub open spec fn fits(&self, hidden: usize) -> bool {
        let inner = packed::packed_rows(self.gate.weight());
        &&& inner > 0
        &&& packed::is_local_matrix(self.gate.weight(), inner, hidden)
        &&& packed::is_local_matrix(self.up.weight(), inner, hidden)
        &&& packed::is_local_matrix(self.down.weight(), hidden, inner)
    }

    /// The block's output.
    pub(crate) fn forward(&self, xs: &Traced) -> (r: Result<Traced, ModelError>)
        requires
            xs.dtype() == candle_core::DType::F32,
        ensures
            r matches Ok(t) ==> t.expr() == self.of(xs.expr()) && t.dtype()
                == candle_core::DType::F32,
            r matches Err(e) ==> e is Candle,
            tensor::succeeds(r, is_state(*xs) && self.fits(xs.dims().last())),
            is_state(*xs) && self.fits(xs.dims().last()) ==> (r matches Ok(t) && t.dims()
                == xs.dims()),
    {
        let ghost fits = is_state(*xs) && self.fits(xs.dims().last());
        let gate = self.gate.forward(xs)?;
        let gate = gate.gelu()?;
        let up = self.up.forward(xs)?;
        let both = gate.times(&up)?;
        assert(fits ==> tensor::with_last(both.dims(), xs.dims().last()) =~= xs.dims());
        self.down.forward(&both)
    }
}

/// Expert router: normalisation without a weight, a scale per dimension, `hidden_size` to the power
/// of minus one half, scores, softmax in `F32`, the `top_k` largest, renormalised, times a scale
/// per expert.
pub struct Router {
    /// `[experts, hidden]`
    pub proj: Traced,
    /// `[hidden]`
    pub scale: Traced,
    /// `[experts]`
    pub per_expert_scale: Traced,
    pub eps: Number,
    pub hidden_size: usize,
    pub top_k: usize,
}

impl Router {
    /// The record of the experts' probabilities, one row per token.
    pub open spec fn probs_of(&self, x: Expr, dtype: candle_core::DType) -> Expr {
        let h = attention::v_norm_expr(x, self.eps.expr(), dtype);
        let h = tensor::binary(BinaryOp::BroadcastMul, h, self.scale.expr());
        let h = tensor::with_number(
            NumberOp::Mul,
            h,
            tensor::inverse_root_of(self.hidden_size as int),
        );
        let scores = tensor::binary(
            BinaryOp::MatMul,
            h,
            tensor::transposed(self.proj.expr(), 0, 1),
        );
        tensor::unary(UnaryOp::SoftmaxLast, tensor::cast(scores, candle_core::DType::F32))
    }

    /// The number of experts that there are scores for.
    pub open spec fn experts(&self) -> usize {
        self.proj.dims()[0]
    }

    /// The router's tensors lie in main memory and fit each other and so many entries per token, and
    /// there are enough experts to pick from.
    pub open spec fn fits(&self, hidden: usize) -> bool {
        &&& self.proj.is_ready()
        &&& self.proj.dtype() == candle_core::DType::F32
        &&& self.proj.dims() == seq![self.experts(), hidden]
        &&& self.scale.is_local()
        &&& self.scale.dtype() == candle_core::DType::F32
        &&& self.scale.dims() == seq![hidden]
        &&& self.per_expert_scale.is_local()
        &&& self.per_expert_scale.dtype() == candle_core::DType::F32
        &&& self.per_expert_scale.dims() == seq![self.experts()]
        &&& 0 < self.top_k <= self.experts()
    }

    /// What the router can fail with.
    pub open spec fn may_fail_with(&self, e: ModelError) -> bool {
        match e {
            ModelError::Candle(_) => true,
            ModelError::Rank { .. } => self.proj.dims().len() != 2,
            ModelError::EmptyAxis => self.proj.dims().len() == 2 && self.experts() == 0,
            ModelError::TopK { top_k, experts } => {
                &&& self.proj.dims().len() == 2
                &&& top_k == self.top_k
                &&& experts == self.experts()
                &&& !(0 < top_k <= experts)
            },
            _ => false,
        }
    }

    /// The experts' probabilities, one row per token.
    fn probs(&self, xs: &Traced) -> (r: Result<Traced, ModelError>)
        requires
            xs.dims().len() == 2,
            xs.dtype() == candle_core::DType::F32,
            self.proj.dims().len() == 2,
        ensures
            r matches Ok(t) ==> t.expr() == self.probs_of(xs.expr(), xs.dtype()) && t.dtype()
                == candle_core::DType::F32 && t.dims().len() == 2 && t.dims()[1] == self.experts(),
            r matches Ok(t) ==> self.scale.dims().len() <= 1 ==> t.dims()[0] == xs.dims()[0],
            r matches Err(e) ==> self.may_fail_with(e),
            tensor::succeeds(r, is_state(*xs) && self.fits(xs.dims()[1])),
    {
        let ghost fits = is_state(*xs) && self.fits(xs.dims()[1]);
        proof {
            if fits {
                assert(tensor::can_broadcast(xs.dims(), self.scale.dims()));
                assert(tensor::broadcast_dims(xs.dims(), self.scale.dims()) =~= xs.dims());
            }
        }
        let h = attention::v_norm(xs, &self.eps)?;
        let h = h.broadcast_mul(&self.scale)?;
        let h = h.times_number(&Number::inverse_root_of(self.hidden_size))?;
        let proj = self.proj.transpose(0, 1)?;
        assert(fits ==> proj.dims() =~= seq![xs.dims()[1], self.experts()]);
        let scores = h.matmul(&proj)?;
        let scores = scores.to_dtype(candle_core::DType::F32)?;
        let dims = scores.shape();
        if dims[1] == 0 {
            return Err(ModelError::EmptyAxis);
        }
        scores.softmax_last()
    }

    /// The weighted picks of every token of a flat `[tokens, hidden]` input.
    pub(crate) fn forward(&self, xs: &Traced) -> (r: Result<Vec<Vec<(usize, Traced)>>, ModelError>)
        requires
            xs.dims().len() == 2,
            xs.dtype() == candle_core::DType::F32,
        ensures
            r matches Ok(routes) ==> self.proj.dims().len() == 2 && exists|probs: Traced|
                probs.expr() == self.probs_of(xs.expr(), xs.dtype()) && probs.dims()[1]
                    == self.experts() && #[trigger] routing::routes_follow(
                    routes@,
                    probs,
                    self.per_expert_scale.expr(),
                    self.top_k,
                ),
            r matches Ok(routes) ==> self.scale.dims().len() <= 1 ==> routes@.len()
                == xs.dims()[0],
            self.proj.dims().len() != 2 ==> r is Err,
            r matches Err(e) ==> self.may_fail_with(e),
            is_state(*xs) && self.fits(xs.dims()[1]) ==> (r matches Ok(routes) && forall|n: int|
                0 <= n < routes@.len() ==> routing::are_local((#[trigger] routes@[n])@)),
    {
        self.proj.dims2()?;
        let probs = self.probs(xs)?;
        routing::route(&probs, &self.per_expert_scale, self.top_k)
    }
}

/// The experts' own blocks: `gate_up[e]` computes gate and up together, `down[e]` maps back.
pub struct Experts {
    pub gate_up: Vec<PackedMatMul>,
    pub down: Vec<PackedMatMul>,
}

impl Experts {
    /// The record of one expert's weighted output for one token.
    pub open spec fn term(&self, x: Expr, e: usize, weight: Expr) -> Expr {
        let fused = self.gate_up@[e as int].weight();
        let y = packed::packed_product(fused, x);
        let i = (packed::packed_rows(fused) / 2) as nat;
        let gate = tensor::unary(UnaryOp::Gelu, tensor::narrowed(y, 1, 0, i));
        let up = tensor::narrowed(y, 1, i, i);
        let z = packed::packed_product(
            self.down@[e as int].weight(),
            tensor::binary(BinaryOp::Mul, gate, up),
        );
        let weighted = tensor::binary(BinaryOp::BroadcastMul, z, weight);
        tensor::with_number(NumberOp::Add, weighted, NumberExpr::Int(0))
    }

    /// The record of one token's output: the weighted outputs of its experts, added up.
    pub open spec fn token(&self, xs: Expr, n: int, picks: Seq<(usize, Expr)>) -> Expr {
        routing::left_sum(
            picks.map_values(
                |p: (usize, Expr)| self.term(tensor::narrowed(xs, 0, n as nat, 1), p.0, p.1),
            ),
        )
    }

    /// The record of all tokens' outputs.
    pub open spec fn of(&self, xs: Expr, routes: Seq<Seq<(usize, Expr)>>) -> Expr {
        Expr::Cat(Seq::new(routes.len(), |n: int| self.token(xs, n, routes[n])), 0)
    }

    /// Both matrices of an expert are there.
    pub open spec fn has(&self, e: usize) -> bool {
        e < self.gate_up@.len() && e < self.down@.len()
    }

    /// Every expert that is picked for a token is there.
    pub open spec fn have(&self, picks: Seq<Seq<usize>>) -> bool {
        forall|n: int, j: int|
            0 <= n < picks.len() && 0 <= j < picks[n].len() ==> self.has(#[trigger] picks[n][j])
    }

    /// The matrices of so many experts lie in main memory and fit each other and so many entries per
    /// token.
    pub open spec fn fits(&self, hidden: usize, experts: int) -> bool {
        &&& self.gate_up@.len() == experts
        &&& self.down@.len() == experts
        &&& forall|e: int|
            #![trigger self.gate_up@[e]]
            #![trigger self.down@[e]]
            0 <= e < experts ==> {
                let fused = packed::packed_rows(self.gate_up@[e].weight());
                &&& fused / 2 > 0
                &&& packed::is_local_matrix(self.gate_up@[e].weight(), fused, hidden)
                &&& packed::is_local_matrix(self.down@[e].weight(), hidden, fused / 2)
            }
    }

    /// The error that names an expert whose matrices are not there, the picks being below `bound`.
    pub open spec fn lacks_expert(&self, bound: int, e: ModelError) -> bool {
        e matches ModelError::ExpertMissing { expert, experts } && experts <= expert < bound && (
        experts == self.gate_up@.len() || experts == self.down@.len())
    }

    /// One expert's weighted output for one token. A number times a tensor adds zero to every
    /// product, so that no entry is a negative zero.
    fn one(&self, x: &Traced, e: usize, weight: &Traced) -> (r: Result<Traced, ModelError>)
        requires
            x.dims().len() == 2,
            x.dims()[0] == 1,
            x.dtype() == candle_core::DType::F32,
            weight.dims() == routing::single(),
        ensures
            r matches Ok(t) ==> self.has(e) && t.expr()
                == self.term(x.expr(), e, weight.expr()) && t.dims() == seq![
                1usize,
                packed::packed_rows(self.down@[e as int].weight()),
            ] && t.dtype() == candle_core::DType::F32,
            self.has(e) ==> (r matches Err(err) ==> err is Candle),
            r matches Err(err) ==> err is Candle || self.lacks_expert(e + 1, err),
            forall|experts: int|
                #![trigger self.fits(x.dims()[1], experts)]
                is_state(*x) && self.fits(x.dims()[1], experts) && e < experts && weight.is_local()
                    && weight.dtype() == candle_core::DType::F32 ==> (r matches Ok(t)
                    && t.is_ready() && t.dims() == x.dims()),
    {
        let ghost fits = exists|experts: int| #[trigger]
            self.fits(x.dims()[1], experts) && e < experts && is_state(*x) && weight.is_local()
                && weight.dtype() == candle_core::DType::F32;
        if e >= self.gate_up.len() {
            return Err(ModelError::ExpertMissing { expert: e, experts: self.gate_up.len() });
        }
        if e >= self.down.len() {
            return Err(ModelError::ExpertMissing { expert: e, experts: self.down.len() });
        }
        let y = self.gate_up[e].forward(x)?;
        let dims = y.shape();
        let i: usize = dims[1] / 2;
        let gate = y.narrow(1, 0, i)?;
        let gate = gate.gelu()?;
        let up = y.narrow(1, i, i)?;
        let both = gate.times(&up)?;
        let z = self.down[e].forward(&both)?;
        proof {
            if fits {
                assert(z.dims() =~= x.dims());
                assert(tensor::can_broadcast(z.dims(), weight.dims()));
            }
        }
        let weighted = z.broadcast_mul(weight)?;
        assert(weighted.dims() =~= seq![1usize, packed::packed_rows(self.down@[e as int].weight())]);
        weighted.plus_number(&Number::whole(0))
    }

    /// Token `n` of a hidden state and its picks fit the experts.
    spec fn row_fits(&self, xs: Traced, n: usize, picks: Seq<(usize, Traced)>, bound: int) -> bool {
        &&& is_state(xs)
        &&& n < xs.dims()[0]
        &&& self.fits(xs.dims()[1], bound)
        &&& routing::are_local(picks)
    }

    /// One token's output.
    fn row(&self, xs: &Traced, n: usize, picks: &Vec<(usize, Traced)>, Ghost(bound): Ghost<int>) -> (r:
        Result<Traced, ModelError>)
        requires
            xs.dims().len() == 2,
            xs.dtype() == candle_core::DType::F32,
            picks@.len() > 0,
            forall|j: int|
                0 <= j < picks@.len() ==> (#[trigger] picks@[j]).1.dims() == routing::single()
                    && picks@[j].0 < bound,
        ensures
            r matches Ok(t) ==> t.expr() == self.token(
                xs.expr(),
                n as int,
                routing::picks_view(picks@),
            ) && t.dims() == seq![
                1usize,
                packed::packed_rows(self.down@[picks@[0].0 as int].weight()),
            ],
            r is Ok ==> forall|j: int|
                0 <= j < picks@.len() ==> self.has((#[trigger] picks@[j]).0),
            r matches Err(e) ==> e is Candle || self.lacks_expert(bound, e),
            self.row_fits(*xs, n, picks@, bound) ==> (r matches Ok(t) && t.is_ready() && t.dims()
                == seq![1usize, xs.dims()[1]] && t.dtype() == candle_core::DType::F32),
    {
        let ghost fits = self.row_fits(*xs, n, picks@, bound);
        let x = xs.narrow(0, n, 1)?;
        assert(fits ==> x.dims() =~= seq![1usize, xs.dims()[1]]);
        let ghost view = routing::picks_view(picks@);
        let ghost terms = view.map_values(
            |p: (usize, Expr)| self.term(tensor::narrowed(xs.expr(), 0, n as nat, 1), p.0, p.1),
        );
        let ghost dims = seq![1usize, packed::packed_rows(self.down@[picks@[0].0 as int].weight())];
        let mut sum = self.one(&x, picks[0].0, &picks[0].1)?;
        assert(terms.take(1)[0] == sum.expr());
        let mut j: usize = 1;
        while j < picks.len()
            invariant
                1 <= j <= picks@.len(),
                x.dims().len() == 2,
                x.dims()[0] == 1,
                x.dtype() == candle_core::DType::F32,
                forall|j: int|
                    0 <= j < picks@.len() ==> (#[trigger] picks@[j]).1.dims() == routing::single()
                        && picks@[j].0 < bound,
                forall|i: int| 0 <= i < j ==> self.has((#[trigger] picks@[i]).0),
                x.expr() == tensor::narrowed(xs.expr(), 0, n as nat, 1),
                view == routing::picks_view(picks@),
                terms == view.map_values(
                    |p: (usize, Expr)|
                        self.term(tensor::narrowed(xs.expr(), 0, n as nat, 1), p.0, p.1),
                ),
                sum.expr() == routing::left_sum(terms.take(j as int)),
                sum.dims() == dims,
                sum.dtype() == candle_core::DType::F32,
                fits == self.row_fits(*xs, n, picks@, bound),
                fits ==> {
                    &&& x.is_ready()
                    &&& x.dims() == seq![1usize, xs.dims()[1]]
                    &&& sum.is_ready()
                    &&& sum.dims() == x.dims()
                    &&& routing::are_local(picks@)
                },
            decreases picks@.len() - j,
        {
            let next = self.one(&x, picks[j].0, &picks[j].1)?;
            sum = sum.plus(&next)?;
            assert(terms.take(j + 1).drop_last() =~= terms.take(j as int));
            assert(terms.take(j + 1).last() == next.expr());
            j = j + 1;
        }
        assert(terms.take(j as int) =~= terms);
        Ok(sum)
    }

    /// The tokens of a hidden state and their picks fit the experts.
    pub open spec fn routes_fit(
        &self,
        xs: Traced,
        routes: Seq<Vec<(usize, Traced)>>,
        bound: int,
    ) -> bool {
        &&& is_state(xs)
        &&& 0 < routes.len() <= xs.dims()[0]
        &&& self.fits(xs.dims()[1], bound)
        &&& forall|n: int| 0 <= n < routes.len() ==> routing::are_local((#[trigger] routes[n])@)
    }

    /// Every token's output, given the tokens' picks, each below `bound`: as many rows as tokens, as
    /// wide as the experts' last matrices have rows.
    pub(crate) fn forward(
        &self,
        xs: &Traced,
        routes: &Vec<Vec<(usize, Traced)>>,
        Ghost(bound): Ghost<int>,
    ) -> (r: Result<Traced, ModelError>)
        requires
            xs.dims().len() == 2,
            xs.dtype() == candle_core::DType::F32,
            forall|n: int|
                0 <= n < routes@.len() ==> routing::picks_below((#[trigger] routes@[n])@, bound),
        ensures
            r matches Ok(t) ==> t.expr() == self.of(xs.expr(), routing::routes_view(routes@))
                && routes@.len() > 0 && t.dims() == seq![
                routes@.len() as usize,
                packed::packed_rows(self.down@[routes@[0]@[0].0 as int].weight()),
            ],
            r is Ok ==> self.have(routing::experts_picked(routes@)),
            r matches Err(e) ==> e is Candle || self.lacks_expert(bound, e),
            self.routes_fit(*xs, routes@, bound) ==> (r matches Ok(t) && t.is_ready() && t.dims()
                == seq![routes@.len() as usize, xs.dims()[1]] && t.dtype()
                == candle_core::DType::F32),
    {
        let ghost fits = self.routes_fit(*xs, routes@, bound);
        let mut rows: Vec<Traced> = Vec::new();
        let mut n: usize = 0;
        while n < routes.len()
            invariant
                n <= routes@.len(),
                xs.dims().len() == 2,
                xs.dtype() == candle_core::DType::F32,
                forall|i: int|
                    0 <= i < routes@.len() ==> routing::picks_below(
                        (#[trigger] routes@[i])@,
                        bound,
                    ),
                rows@.len() == n,
                fits == self.routes_fit(*xs, routes@, bound),
                fits ==> forall|i: int|
                    0 <= i < n ==> (#[trigger] rows@[i]).is_ready() && rows@[i].dims() == seq![
                        1usize,
                        xs.dims()[1],
                    ] && rows@[i].dtype() == candle_core::DType::F32,
                forall|i: int, j: int|
                    0 <= i < n && 0 <= j < routes@[i]@.len() ==> self.has(
                        (#[trigger] routes@[i]@[j]).0,
                    ),
                forall|i: int|
                    0 <= i < n ==> (#[trigger] rows@[i]).expr() == self.token(
                        xs.expr(),
                        i,
                        routing::picks_view(routes@[i]@),
                    ) && rows@[i].dims() == seq![
                        1usize,
                        packed::packed_rows(self.down@[routes@[i]@[0].0 as int].weight()),
                    ],
            decreases routes@.len() - n,
        {
            assert(fits ==> self.row_fits(*xs, n, routes@[n as int]@, bound));
            rows.push(self.row(xs, n, &routes[n], Ghost(bound))?);
            n = n + 1;
        }
        let ghost view = routing::routes_view(routes@);
        assert(tensor::exprs(rows@) =~= Seq::new(
            view.len(),
            |i: int| self.token(xs.expr(), i, view[i]),
        ));
        proof {
            tensor::lemma_total_alike(rows@, 0, 1);
            assert(fits ==> tensor::can_cat(rows@, 0));
        }
        let out = Traced::cat(&rows, 0)?;
        assert(out.dims() =~= seq![
            routes@.len() as usize,
            packed::packed_rows(self.down@[routes@[0]@[0].0 as int].weight()),
        ]);
        Ok(out)
    }
}

/// The mixture of experts beside a dense block, both fed from what went into the dense one.
pub struct MoeBlock {
    pub router: Router,
    pub experts: Experts,
    pub post_ffw_norm_1: Norm,
    pub post_ffw_norm_2: Norm,
    pub pre_ffw_norm_2: Norm,
}

/// The shape of the hidden state.
pub open spec fn model_dims(b_sz: usize, seq_len: usize, hidden: usize) -> Seq<usize> {
    seq![b_sz, seq_len, hidden]
}

/// The record of a hidden state with one row per token.
pub open spec fn flattened(residual: Expr, dims: Seq<usize>) -> Expr {
    tensor::reshaped(residual, seq![(dims[0] * dims[1]) as usize, dims[2]])
}

impl MoeBlock {
    /// The record of the experts' probabilities, one row per token.
    pub open spec fn probs_of(&self, residual: Expr, dims: Seq<usize>) -> Expr {
        self.router.probs_of(flattened(residual, dims), candle_core::DType::F32)
    }

    /// The picks are the most probable experts of each token, and all of them are there.
    pub open spec fn are_picks(
        &self,
        residual: Expr,
        dims: Seq<usize>,
        picks: Seq<Seq<usize>>,
    ) -> bool {
        self.experts.have(picks) && exists|probs: Traced|
            probs.expr() == self.probs_of(residual, dims) && #[trigger] routing::picks_follow(
                picks,
                probs,
                self.router.top_k,
            )
    }

    /// The record of the block's output, given which experts were picked for each token.
    pub open spec fn of(
        &self,
        dense: Expr,
        residual: Expr,
        dims: Seq<usize>,
        picks: Seq<Seq<usize>>,
    ) -> Expr {
        let flat = flattened(residual, dims);
        let probs = self.probs_of(residual, dims);
        let routes = routing::weighted(picks, probs, self.router.per_expert_scale.expr());
        let mixed = self.experts.of(self.pre_ffw_norm_2.of(flat), routes);
        tensor::binary(
            BinaryOp::Add,
            self.post_ffw_norm_1.of(dense),
            self.post_ffw_norm_2.of(tensor::reshaped(mixed, dims)),
        )
    }

    /// The block's weights lie in main memory and fit each other and so many entries per token.
    pub open spec fn fits(&self, hidden: usize) -> bool {
        &&& self.router.fits(hidden)
        &&& self.experts.fits(hidden, self.router.experts() as int)
        &&& self.post_ffw_norm_1.fits(hidden)
        &&& self.post_ffw_norm_2.fits(hidden)
        &&& self.pre_ffw_norm_2.fits(hidden)
    }

    /// What the block can fail with on a hidden state that is seen as `[b_sz, seq_len, hidden]`:
    /// tensor operations, a shape whose entries cannot be counted, scores that allow no picks, and
    /// an expert that is picked and not there.
    pub open spec fn may_fail_with(&self, dims: Seq<usize>, e: ModelError) -> bool {
        ||| self.router.may_fail_with(e)
        ||| self.experts.lacks_expert(self.router.experts() as int, e)
        ||| e is ShapeTooLarge && routing::tokens_too_large(dims)
    }

    /// The block's output: `dense` is the dense block's output, `residual` what went into it, of
    /// shape `[batch, positions, hidden]`.
    pub(crate) fn forward(
        &self,
        dense: &Traced,
        residual: &Traced,
        b_sz: usize,
        seq_len: usize,
        hidden: usize,
    ) -> (r: Result<Traced, ModelError>)
        requires
            dense.dtype() == candle_core::DType::F32,
            residual.dtype() == candle_core::DType::F32,
        ensures
            r matches Ok(t) ==> t.dtype() == candle_core::DType::F32 && t.dims() == dense.dims()
                && exists|picks: Seq<Seq<usize>>| #[trigger]
                self.are_picks(residual.expr(), model_dims(b_sz, seq_len, hidden), picks) && (
                self.router.scale.dims().len() <= 1 ==> picks.len() == b_sz * seq_len) && t.expr()
                    == self.of(
                    dense.expr(),
                    residual.expr(),
                    model_dims(b_sz, seq_len, hidden),
                    picks,
                ),
            r matches Err(e) ==> self.may_fail_with(model_dims(b_sz, seq_len, hidden), e),
            tensor::succeeds(
                r,
                self.fits(hidden) && is_state(*dense) && is_state(*residual) && dense.dims()
                    == model_dims(b_sz, seq_len, hidden) && residual.dims() == model_dims(
                    b_sz,
                    seq_len,
                    hidden,
                ) && !routing::tokens_too_large(model_dims(b_sz, seq_len, hidden)),
            ),
    {
        let ghost fits = self.fits(hidden) && is_state(*dense) && is_state(*residual)
            && dense.dims() == model_dims(b_sz, seq_len, hidden) && residual.dims() == model_dims(
            b_sz,
            seq_len,
            hidden,
        ) && !routing::tokens_too_large(model_dims(b_sz, seq_len, hidden));
        proof {
            tensor::lemma_count_3(b_sz, seq_len, hidden);
            if fits {
                assert(dense.dims()[0] == b_sz && dense.dims()[1] == seq_len && dense.dims()[2]
                    == hidden);
                assert(b_sz > 0 && seq_len > 0 && hidden > 0);
            }
        }
        let h1 = self.post_ffw_norm_1.forward(dense)?;
        let tokens: usize = match b_sz.checked_mul(seq_len) {
            Some(tokens) => tokens,
            None => {
                return Err(ModelError::ShapeTooLarge);
            },
        };
        let mut shape: Vec<usize> = Vec::new();
        shape.push(tokens);
        shape.push(hidden);
        assert(shape@ =~= seq![tokens, hidden]);
        proof {
            if fits {
                assert(tokens > 0) by (nonlinear_arith)
                    requires
                        tokens == b_sz * seq_len,
                        b_sz > 0,
                        seq_len > 0,
                ;
                assert(tensor::count_of(shape@) == tokens * hidden) by {
                    tensor::lemma_count_2(tokens, hidden);
                }
            }
        }
        let flat = residual.reshape(&shape)?;
        let routes = self.router.forward(&flat)?;
        let ghost bound = self.router.experts() as int;
        proof {
            let expected = self.probs_of(residual.expr(), model_dims(b_sz, seq_len, hidden));
            let scales = self.router.per_expert_scale.expr();
            let probs = choose|probs: Traced|
                probs.expr() == expected && probs.dims()[1] == self.router.experts()
                    && #[trigger] routing::routes_follow(
                    routes@,
                    probs,
                    scales,
                    self.router.top_k,
                );
            routing::lemma_routes_are_weighted(routes@, probs, scales, self.router.top_k);
        }
        let h2 = self.pre_ffw_norm_2.forward(&flat)?;
        let h2 = self.experts.forward(&h2, &routes, Ghost(bound))?;
        assert(self.are_picks(
            residual.expr(),
            model_dims(b_sz, seq_len, hidden),
            routing::experts_picked(routes@),
        ));
        let mut dims: Vec<usize> = Vec::new();
        dims.push(b_sz);
        dims.push(seq_len);
        dims.push(hidden);
        assert(dims@ =~= model_dims(b_sz, seq_len, hidden));
        let h2 = h2.reshape(&dims)?;
        let h2 = self.post_ffw_norm_2.forward(&h2)?;
        h1.plus(&h2)
    }
}

} // verus!
