//! Float layers: projections, tables, activations, named parameters and caches.

use super::{traced, Expr, Traced};
use crate::error::ModelError;
use crate::names;
use vstd::prelude::*;

verus! {

/// Marks `candle_nn::Linear` as a type whose inside the library does not look at.
#[verifier::external_type_specification]
#[verifier::external_body]
pub struct ExLinear(candle_nn::Linear);

/// Marks `candle_nn::Embedding` as a type whose inside the library does not look at.
#[verifier::external_type_specification]
#[verifier::external_body]
pub struct ExEmbedding(candle_nn::Embedding);

/// Marks `candle_nn::kv_cache::KvCache` as a type whose inside the library does not look at.
#[verifier::external_type_specification]
#[verifier::external_body]
pub struct ExKvCache(candle_nn::kv_cache::KvCache);

/// Marks `candle_nn::kv_cache::RotatingKvCache` as a type whose inside the library does not look
/// at.
#[verifier::external_type_specification]
#[verifier::external_body]
pub struct ExRotatingKvCache(candle_nn::kv_cache::RotatingKvCache);

/// Named parameters of a float model, as `candle_nn::VarBuilder` holds them.
#[verifier::external_body]
pub struct ParamStore {
    pub inner: candle_nn::VarBuilder<'static>,
}

/// The element type that parameters are given in.
pub uninterp spec fn store_dtype(s: ParamStore) -> candle_core::DType;

/// The device that parameters are put on.
pub uninterp spec fn store_device(s: ParamStore) -> candle_core::Device;

/// The tensor of a name in a store that was made of tensors at hand; of any other store, none.
pub uninterp spec fn store_tensor(s: ParamStore, name: Seq<char>) -> Option<candle_core::Tensor>;

/// The matrix of a linear layer.
pub uninterp spec fn linear_weight(l: candle_nn::Linear) -> candle_core::Tensor;

/// The bias of a linear layer.
pub uninterp spec fn linear_bias(l: candle_nn::Linear) -> Option<candle_core::Tensor>;

/// The table of an embedding layer.
pub uninterp spec fn embedding_table(e: candle_nn::Embedding) -> candle_core::Tensor;

/// How many positions of keys and of values a growing cache counts.
pub uninterp spec fn grown_lengths(c: candle_nn::kv_cache::KvCache) -> (nat, nat);

/// How many positions of keys and of values a rotating cache counts.
pub uninterp spec fn turned_lengths(c: candle_nn::kv_cache::RotatingKvCache) -> (nat, nat);

/// Whether an activation multiplies one half of its input with the other.
pub uninterp spec fn is_gated(a: candle_nn::Activation) -> bool;

/// Where parameters lie: the store that they come from, and the steps of the path below its root.
pub ghost struct Place {
    pub store: ParamStore,
    pub steps: Seq<Seq<char>>,
}

impl Place {
    /// One step further down.
    pub open spec fn push(self, step: Seq<char>) -> Place {
        Place { store: self.store, steps: self.steps.push(step) }
    }
}

/// The last tensor under a name.
pub open spec fn last_named(
    tensors: Seq<(String, candle_core::Tensor)>,
    name: Seq<char>,
) -> Option<candle_core::Tensor>
    decreases tensors.len(),
{
    if tensors.len() == 0 {
        None
    } else if tensors.last().0@ == name {
        Some(tensors.last().1)
    } else {
        last_named(tensors.drop_last(), name)
    }
}

/// The name of a parameter below some steps: the steps and the name, with points between them.
pub open spec fn full_name(steps: Seq<Seq<char>>, name: Seq<char>) -> Seq<char>
    decreases steps.len(),
{
    if steps.len() == 0 {
        name
    } else {
        full_name(steps.drop_last(), steps.last() + "."@ + name)
    }
}

/// The name of a parameter further down is that of what lies there, below the first step: steps are
/// written from the root on, each before a point, the parameter's own name last.
pub proof fn law_names_are_written_from_the_root(
    first: Seq<char>,
    steps: Seq<Seq<char>>,
    name: Seq<char>,
)
    ensures
        full_name(seq![first] + steps, name) == first + "."@ + full_name(steps, name),
        full_name(Seq::empty(), name) == name,
    decreases steps.len(),
{
    if steps.len() == 0 {
        let one = seq![first] + steps;
        assert(one.drop_last() =~= Seq::<Seq<char>>::empty());
        assert(one.last() == first);
        assert(full_name(one.drop_last(), first + "."@ + name) == first + "."@ + name);
    } else {
        let all = seq![first] + steps;
        assert(all.drop_last() =~= seq![first] + steps.drop_last());
        assert(all.last() == steps.last());
        law_names_are_written_from_the_root(
            first,
            steps.drop_last(),
            steps.last() + "."@ + name,
        );
    }
}

/// The last tensor under a name counts: where one is found, it stands under that name and none behind
/// it does; where none is found, none stands there.
pub proof fn law_last_tensor_counts(
    tensors: Seq<(String, candle_core::Tensor)>,
    name: Seq<char>,
)
    ensures
        match last_named(tensors, name) {
            Some(t) => exists|i: int|
                0 <= i < tensors.len() && (#[trigger] tensors[i]).0@ == name && tensors[i].1 == t
                    && forall|j: int|
                    i < j < tensors.len() ==> (#[trigger] tensors[j]).0@ != name,
            None => forall|i: int| 0 <= i < tensors.len() ==> (#[trigger] tensors[i]).0@ != name,
        },
    decreases tensors.len(),
{
    if tensors.len() > 0 {
        let n = tensors.len() - 1;
        if tensors.last().0@ == name {
            assert(tensors[n].0@ == name);
        } else {
            let rest = tensors.drop_last();
            law_last_tensor_counts(rest, name);
            match last_named(rest, name) {
                Some(t) => {
                    let i = choose|i: int|
                        0 <= i < rest.len() && (#[trigger] rest[i]).0@ == name && rest[i].1 == t
                            && forall|j: int|
                            i < j < rest.len() ==> (#[trigger] rest[j]).0@ != name;
                    assert(tensors[i] == rest[i]);
                    assert forall|j: int| i < j < tensors.len() implies (#[trigger] tensors[j]).0@
                        != name by {
                        if j < n {
                            assert(rest[j] == tensors[j]);
                        }
                    }
                },
                None => {
                    assert forall|j: int| 0 <= j < tensors.len() implies (#[trigger] tensors[j]).0@
                        != name by {
                        if j < n {
                            assert(rest[j] == tensors[j]);
                        }
                    }
                },
            }
        }
    }
}

/// A tensor in main memory, in order, of this shape and element type.
pub open spec fn is_plain(
    t: candle_core::Tensor,
    dims: Seq<usize>,
    dtype: candle_core::DType,
) -> bool {
    &&& super::is_main_memory(super::tensor_device(t))
    &&& super::in_order(dims, super::tensor_strides(t))
    &&& super::tensor_dims(t) == dims
    &&& super::tensor_dtype(t) == dtype
}

/// There is a parameter of a name and shape at a place: the place's store was made of tensors at
/// hand, which lie in main memory, as the parameters do, in order and of an element type that can be
/// cast to the store's.
pub open spec fn has_param(path: Place, name: Seq<char>, dims: Seq<usize>) -> bool {
    &&& super::is_main_memory(store_device(path.store))
    &&& store_tensor(path.store, full_name(path.steps, name)) matches Some(t) && is_plain(
        t,
        dims,
        super::tensor_dtype(t),
    ) && super::can_cast(super::tensor_dtype(t), store_dtype(path.store))
}

/// There are the parameters of a matrix, and of a bias where there is one, at a place.
pub open spec fn has_projection(path: Place, in_dim: usize, out_dim: usize, bias: bool) -> bool {
    &&& has_param(path, "weight"@, seq![out_dim, in_dim])
    &&& bias ==> has_param(path, "bias"@, seq![out_dim])
}

impl ParamStore {
    /// `candle_nn::VarBuilder::from_tensors`: a store of these tensors, each under its name, that
    /// gives them as parameters of this element type on this device. Of tensors of one name the last
    /// one counts.
    #[verifier::external_body]
    fn raw_from_tensors(
        tensors: Vec<(String, candle_core::Tensor)>,
        dtype: candle_core::DType,
        device: &candle_core::Device,
    ) -> (r: ParamStore)
        ensures
            store_dtype(r) == dtype,
            store_device(r) == *device,
            forall|name: Seq<char>| #[trigger] store_tensor(r, name) == last_named(tensors@, name),
    {
        let tensors = tensors.into_iter().collect();
        ParamStore { inner: candle_nn::VarBuilder::from_tensors(tensors, dtype, device) }
    }

    /// A store of these tensors, each under its name.
    pub fn from_tensors(
        tensors: Vec<(String, candle_core::Tensor)>,
        dtype: candle_core::DType,
        device: &candle_core::Device,
    ) -> (r: ParamStore)
        ensures
            store_dtype(r) == dtype,
            store_device(r) == *device,
            forall|name: Seq<char>| #[trigger] store_tensor(r, name) == last_named(tensors@, name),
    {
        ParamStore::raw_from_tensors(tensors, dtype, device)
    }

    /// `candle_nn::VarBuilder::pp`: the same store, seen from one step further down, with the same
    /// element type and device.
    #[verifier::external_body]
    fn raw_pp(&self, step: &str) -> (r: ParamStore)
        ensures
            store_dtype(r) == store_dtype(*self),
            store_device(r) == store_device(*self),
    {
        ParamStore { inner: self.inner.pp(step) }
    }
}

/// Named parameters below a path.
pub struct Params {
    store: ParamStore,
    path: Ghost<Place>,
}

/// The record of a parameter.
pub open spec fn param(path: Place, name: Seq<char>, dims: Seq<usize>) -> Expr {
    Expr::Param { path, name, dims }
}

impl Params {
    #[verifier::type_invariant]
    spec fn is_seen_alike(&self) -> bool {
        &&& store_dtype(self.store) == store_dtype(self.path@.store)
        &&& store_device(self.store) == store_device(self.path@.store)
    }

    /// Where the parameters lie.
    pub closed spec fn path(&self) -> Place {
        self.path@
    }

    /// The element type that parameters are given in.
    pub closed spec fn dtype(&self) -> candle_core::DType {
        store_dtype(self.store)
    }

    /// The device that parameters are put on.
    pub closed spec fn device(&self) -> candle_core::Device {
        store_device(self.store)
    }

    /// All parameters of a store.
    pub fn new(store: ParamStore) -> (r: Params)
        ensures
            r.path() == (Place { store, steps: Seq::empty() }),
            r.dtype() == store_dtype(store),
            r.device() == store_device(store),
    {
        let ghost path = Place { store, steps: Seq::empty() };
        Params { store, path: Ghost(path) }
    }

    /// `candle_nn::VarBuilder::dtype`: the element type that parameters are given in.
    #[verifier::external_body]
    fn raw_dtype(store: &ParamStore) -> (r: candle_core::DType)
        ensures
            r == store_dtype(*store),
    {
        store.inner.dtype()
    }

    /// `candle_nn::VarBuilder::device`: the device that parameters are put on.
    #[verifier::external_body]
    fn raw_device(store: &ParamStore) -> (r: candle_core::Device)
        ensures
            r == store_device(*store),
    {
        store.inner.device().clone()
    }

    /// The element type that parameters are given in.
    pub(crate) fn element_type(&self) -> (r: candle_core::DType)
        ensures
            r == self.dtype(),
            r == store_dtype(self.path().store),
    {
        proof {
            use_type_invariant(self);
        }
        Params::raw_dtype(&self.store)
    }

    /// The device that parameters are put on.
    pub(crate) fn on_device(&self) -> (r: candle_core::Device)
        ensures
            r == self.device(),
            r == store_device(self.path().store),
    {
        proof {
            use_type_invariant(self);
        }
        Params::raw_device(&self.store)
    }

    /// The parameters one step further down the path, with the same element type and device.
    pub(crate) fn pp(&self, step: &str) -> (r: Params)
        ensures
            r.path() == self.path().push(step@),
            r.dtype() == self.dtype(),
            r.device() == self.device(),
    {
        proof {
            use_type_invariant(self);
        }
        Params { store: self.store.raw_pp(step), path: Ghost(self.path().push(step@)) }
    }

    /// The parameters of the `i`-th of several.
    pub(crate) fn pp_index(&self, i: usize) -> (r: Params)
        ensures
            r.path() == self.path().push(names::decimal(i as nat)),
            r.dtype() == self.dtype(),
            r.device() == self.device(),
    {
        let step = names::decimal_string(i);
        self.pp(step.as_str())
    }

    /// `candle_nn::VarBuilder::get`: the parameter of a name, asked for in a shape. A store that was
    /// made of tensors at hand gives those of this shape; where other parameters come from decides
    /// whether there is one, and whether another shape is refused.
    #[verifier::external_body]
    pub(crate) fn get(&self, dims: &Vec<usize>, name: &str) -> (r: Result<Traced, ModelError>)
        ensures
            match r {
                Ok(t) => t.expr() == param(self.path(), name@, dims@),
                Err(e) => e is Candle,
            },
            has_param(self.path(), name@, dims@) ==> r is Ok,
            r matches Ok(t) ==> has_param(self.path(), name@, dims@) ==> t.is_ready() && t.dims()
                == dims@ && t.dtype() == store_dtype(self.path().store),
    {
        traced(
            self.store.inner.get(dims.as_slice(), name),
            Ghost(param(self.path(), name@, dims@)),
        )
    }
}

/// The record of a product with the transpose of a matrix, with a bias where there is one.
pub open spec fn projected(weight: Expr, bias: Option<Expr>, of: Expr) -> Expr {
    Expr::Linear {
        weight: Box::new(weight),
        bias: match bias {
            Some(bias) => Some(Box::new(bias)),
            None => None,
        },
        of: Box::new(of),
    }
}

/// The record of a bias below a path, where there is one.
pub open spec fn bias_at(path: Place, out_dim: usize, bias: bool) -> Option<Expr> {
    if bias {
        Some(param(path, "bias"@, seq![out_dim]))
    } else {
        None
    }
}

/// A matrix, with a bias where there is one, that tensors are multiplied with.
pub struct Projection {
    inner: candle_nn::Linear,
    weight: Ghost<Expr>,
    bias: Ghost<Option<Expr>>,
}

impl Projection {
    /// The record of the matrix.
    pub closed spec fn weight(&self) -> Expr {
        self.weight@
    }

    /// The record of the bias.
    pub closed spec fn bias(&self) -> Option<Expr> {
        self.bias@
    }

    /// The record of a tensor multiplied with this matrix.
    pub open spec fn of(&self, x: Expr) -> Expr {
        projected(self.weight(), self.bias(), x)
    }

    /// The shape of a tensor multiplied with this matrix: as many outputs as the matrix has rows,
    /// stretched by the bias where there is one.
    pub closed spec fn dims_of(&self, dims: Seq<usize>) -> Seq<usize> {
        let matrix = super::tensor_dims(linear_weight(self.inner));
        let product = super::with_last(dims, matrix[matrix.len() - 2]);
        match linear_bias(self.inner) {
            None => product,
            Some(bias) => super::broadcast_dims(product, super::tensor_dims(bias)),
        }
    }

    /// The number of rows of the matrix.
    pub closed spec fn rows(&self) -> usize {
        let matrix = super::tensor_dims(linear_weight(self.inner));
        matrix[matrix.len() - 2]
    }

    /// The matrix has this shape, the bias, where there is one, as many entries as there are outputs,
    /// and both lie in main memory and have this element type.
    pub closed spec fn fits(&self, in_dim: usize, out_dim: usize, dtype: candle_core::DType) -> bool {
        &&& is_plain(linear_weight(self.inner), seq![out_dim, in_dim], dtype)
        &&& linear_bias(self.inner) matches Some(bias) ==> is_plain(bias, seq![out_dim], dtype)
    }

    /// A matrix that fits gives as many entries as it has outputs.
    pub(crate) proof fn lemma_fit_dims(
        &self,
        in_dim: usize,
        out_dim: usize,
        dtype: candle_core::DType,
        dims: Seq<usize>,
    )
        requires
            self.fits(in_dim, out_dim, dtype),
            dims.len() > 0,
        ensures
            self.dims_of(dims) == super::with_last(dims, out_dim),
            self.rows() == out_dim,
    {
        let product = super::with_last(dims, out_dim);
        if let Some(bias) = linear_bias(self.inner) {
            assert(super::broadcast_dims(product, super::tensor_dims(bias)) =~= product);
        }
    }

    /// There is no bias.
    pub closed spec fn has_no_bias(&self) -> bool {
        linear_bias(self.inner) is None
    }

    /// Without a bias the last dimension becomes as long as the matrix has rows.
    pub(crate) proof fn lemma_dims(&self, dims: Seq<usize>)
        requires
            self.has_no_bias(),
        ensures
            self.dims_of(dims) == super::with_last(dims, self.rows()),
    {
    }

    /// The matrix and bias are the parameters below a path.
    pub open spec fn is_at(
        &self,
        path: Place,
        in_dim: usize,
        out_dim: usize,
        bias: bool,
    ) -> bool {
        &&& self.weight() == param(path, "weight"@, seq![out_dim, in_dim])
        &&& self.bias() == bias_at(path, out_dim, bias)
    }

    /// `candle_nn::linear_b`: the matrix is the parameter `weight`, of as many rows as there are
    /// outputs; the bias, where one is asked for, the parameter `bias`. Parameters that are at hand
    /// are given as they are asked for.
    #[verifier::external_body]
    pub(crate) fn new(in_dim: usize, out_dim: usize, bias: bool, params: &Params) -> (r: Result<
        Projection,
        ModelError,
    >)
        ensures
            match r {
                Ok(p) => p.is_at(params.path(), in_dim, out_dim, bias) && p.has_no_bias() == !bias,
                Err(e) => e is Candle,
            },
            has_projection(params.path(), in_dim, out_dim, bias) ==> r is Ok,
            r matches Ok(p) ==> has_projection(params.path(), in_dim, out_dim, bias) ==> p.fits(
                in_dim,
                out_dim,
                store_dtype(params.path().store),
            ),
    {
        match candle_nn::linear_b(in_dim, out_dim, bias, params.store.inner.clone()) {
            Ok(inner) => Ok(
                Projection {
                    inner,
                    weight: Ghost(param(params.path(), "weight"@, seq![out_dim, in_dim])),
                    bias: Ghost(bias_at(params.path(), out_dim, bias)),
                },
            ),
            Err(e) => Err(ModelError::Candle(e)),
        }
    }

    /// `candle_nn::Linear::new` without a bias: the matrix is the table's.
    #[verifier::external_body]
    pub(crate) fn tied(table: &Table) -> (r: Projection)
        ensures
            r.weight() == table.rows_expr(),
            r.bias() is None,
            r.has_no_bias(),
            forall|rows: usize, width: usize, dtype: candle_core::DType| #[trigger]
                table.fits(rows, width, dtype) ==> r.fits(width, rows, dtype),
    {
        Projection {
            inner: candle_nn::Linear::new(table.inner.embeddings().clone(), None),
            weight: Ghost(table.rows_expr()),
            bias: Ghost(None),
        }
    }

    /// `forward` of `candle_nn::Linear`: the product with the transpose of the matrix along the last
    /// dimension, then the bias. The element type stays. In main memory it succeeds on a tensor of two
    /// or three dimensions that is as wide as the matrix.
    #[verifier::external_body]
    fn raw_forward(&self, xs: &Traced) -> (r: Result<Traced, ModelError>)
        ensures
            match r {
                Ok(t) => {
                    let matrix = super::tensor_dims(linear_weight(self.inner));
                    let product = super::with_last(xs.dims(), matrix[matrix.len() - 2]);
                    &&& t.expr() == self.of(xs.expr())
                    &&& t.dtype() == xs.dtype()
                    &&& xs.dims().len() >= 2
                    &&& t.dims() == (match linear_bias(self.inner) {
                        None => product,
                        Some(bias) => super::broadcast_dims(product, super::tensor_dims(bias)),
                    })
                },
                Err(e) => e is Candle,
            },
            super::succeeds(r, self.can_project(*xs)),
    {
        traced(
            candle_nn::Module::forward(&self.inner, &xs.inner),
            Ghost(self.of(xs.expr())),
        )
    }

    /// A tensor in main memory fits the matrix.
    pub open spec fn can_project(&self, xs: Traced) -> bool {
        &&& xs.is_local()
        &&& 2 <= xs.dims().len() <= 3
        &&& super::has_entries(xs.dims())
        &&& super::has_products(xs.dtype())
        &&& self.rows() > 0
        &&& self.fits(xs.dims().last(), self.rows(), xs.dtype())
    }

    /// The product with the transpose of the matrix along the last dimension, then the bias.
    pub(crate) fn forward(&self, xs: &Traced) -> (r: Result<Traced, ModelError>)
        ensures
            match r {
                Ok(t) => {
                    &&& t.expr() == self.of(xs.expr())
                    &&& t.dims() == self.dims_of(xs.dims())
                    &&& t.dtype() == xs.dtype()
                    &&& xs.dims().len() >= 2
                },
                Err(e) => e is Candle,
            },
            super::succeeds(r, self.can_project(*xs)),
    {
        self.raw_forward(xs)
    }
}

/// A table whose rows are looked up.
pub struct Table {
    inner: candle_nn::Embedding,
    width: usize,
    rows: Ghost<Expr>,
}

impl Table {
    /// The record of the table.
    pub closed spec fn rows_expr(&self) -> Expr {
        self.rows@
    }

    /// The number of entries of a row.
    pub closed spec fn width(&self) -> usize {
        self.width
    }

    /// The element type of the table.
    pub closed spec fn dtype(&self) -> candle_core::DType {
        super::tensor_dtype(embedding_table(self.inner))
    }

    /// The table has this shape and element type and lies in main memory in order.
    pub closed spec fn fits(&self, rows: usize, width: usize, dtype: candle_core::DType) -> bool {
        is_plain(embedding_table(self.inner), seq![rows, width], dtype) && self.width == width
    }

    /// The table lies in main memory and has a row for each of some identifiers.
    pub open spec fn has_rows(&self, ids: Traced) -> bool {
        exists|rows: usize, dtype: candle_core::DType| #[trigger]
            self.fits(rows, self.width(), dtype) && super::has_products(dtype) && ids.is_local()
                && super::packed::has_rows(seq![rows, self.width()], ids)
    }

    /// What a table that fits is.
    pub(crate) proof fn lemma_fits(&self, rows: usize, width: usize, dtype: candle_core::DType)
        requires
            self.fits(rows, width, dtype),
        ensures
            self.width() == width,
            self.dtype() == dtype,
    {
    }

    /// The record of rows of the table.
    pub open spec fn of(&self, ids: Expr) -> Expr {
        Expr::Rows(Box::new(self.rows_expr()), Box::new(ids))
    }

    /// `candle_nn::embedding`: the table is the parameter `weight`, which is given as it is asked for
    /// where it is at hand.
    #[verifier::external_body]
    pub(crate) fn new(rows: usize, width: usize, params: &Params) -> (r: Result<Table, ModelError>)
        ensures
            match r {
                Ok(t) => t.rows_expr() == param(params.path(), "weight"@, seq![rows, width])
                    && t.width() == width,
                Err(e) => e is Candle,
            },
            has_param(params.path(), "weight"@, seq![rows, width]) ==> r is Ok,
            r matches Ok(t) ==> has_param(params.path(), "weight"@, seq![rows, width]) ==> t.fits(
                rows,
                width,
                store_dtype(params.path().store),
            ),
    {
        let expr = Ghost(param(params.path(), "weight"@, seq![rows, width]));
        match candle_nn::embedding(rows, width, params.store.inner.clone()) {
            Ok(inner) => Ok(Table { inner, width, rows: expr }),
            Err(e) => Err(ModelError::Candle(e)),
        }
    }

    /// `forward` of `candle_nn::Embedding`: one row per identifier, in a new last dimension. In main
    /// memory it succeeds on a table that has a row for each identifier.
    #[verifier::external_body]
    fn raw_forward(&self, ids: &Traced) -> (r: Result<Traced, ModelError>)
        ensures
            super::produces(
                r,
                self.of(ids.expr()),
                ids.dims().push(self.width),
                super::tensor_dtype(embedding_table(self.inner)),
            ),
            super::succeeds(r, self.has_rows(*ids)),
    {
        traced(
            candle_nn::Module::forward(&self.inner, &ids.inner),
            Ghost(self.of(ids.expr())),
        )
    }

    /// One row per identifier, in a new last dimension.
    pub(crate) fn forward(&self, ids: &Traced) -> (r: Result<Traced, ModelError>)
        ensures
            super::produces(
                r,
                self.of(ids.expr()),
                ids.dims().push(self.width()),
                self.dtype(),
            ),
            super::succeeds(r, self.has_rows(*ids)),
    {
        self.raw_forward(ids)
    }
}

/// The record of an activation.
pub open spec fn activated(a: candle_nn::Activation, of: Expr) -> Expr {
    Expr::Activation(a, Box::new(of))
}

/// `==` of `candle_nn::Activation` with `Activation::Swiglu`: whether the activation multiplies one
/// half of its input with the other.
#[verifier::external_body]
fn raw_is_gated(a: &candle_nn::Activation) -> (r: bool)
    ensures
        r == is_gated(*a),
{
    *a == candle_nn::Activation::Swiglu
}

/// `forward` of `candle_nn::Activation`: the activation of every entry. The shape stays unless the
/// activation multiplies one half of its input with the other. In main memory the others always
/// succeed.
#[verifier::external_body]
fn raw_activate(a: &candle_nn::Activation, xs: &Traced) -> (r: Result<Traced, ModelError>)
    requires
        super::is_float(xs.dtype()),
        !lacks_halves(*a, xs.dims()),
    ensures
        match r {
            Ok(t) => t.expr() == activated(*a, xs.expr()) && t.dtype() == xs.dtype() && (!is_gated(
                *a,
            ) ==> t.dims() == xs.dims()),
            Err(e) => e is Candle,
        },
        super::succeeds(
            r,
            !is_gated(*a) && xs.is_local() && super::has_entries(xs.dims()) && super::has_products(
                xs.dtype(),
            ),
        ),
{
    traced(candle_nn::Module::forward(a, &xs.inner), Ghost(activated(*a, xs.expr())))
}

/// The activation multiplies one half of its input with the other, and there are no two halves.
pub open spec fn lacks_halves(a: candle_nn::Activation, dims: Seq<usize>) -> bool {
    is_gated(a) && dims.len() > 0 && dims.last() < 2
}

/// The activation of every entry.
pub(crate) fn activate(a: &candle_nn::Activation, xs: &Traced) -> (r: Result<Traced, ModelError>)
    requires
        super::is_float(xs.dtype()),
    ensures
        r matches Ok(t) ==> t.expr() == activated(*a, xs.expr()) && t.dtype() == xs.dtype() && (
        !is_gated(*a) ==> t.dims() == xs.dims()),
        lacks_halves(*a, xs.dims()) ==> r == Err::<Traced, ModelError>(ModelError::EmptyAxis),
        r matches Err(e) ==> e is Candle || lacks_halves(*a, xs.dims()),
        super::succeeds(
            r,
            !is_gated(*a) && xs.is_local() && super::has_entries(xs.dims()) && super::has_products(
                xs.dtype(),
            ),
        ),
{
    if raw_is_gated(a) {
        let dims = xs.shape();
        if dims.len() > 0 && dims[dims.len() - 1] < 2 {
            return Err(ModelError::EmptyAxis);
        }
    }
    raw_activate(a, xs)
}

/// `Clone` of `candle_nn::Activation`: the same activation.
#[verifier::external_body]
pub(crate) fn copy_activation(a: &candle_nn::Activation) -> (r: candle_nn::Activation)
    ensures
        r == *a,
{
    *a
}

/// The dimension of keys and values along which caches grow.
pub const POSITIONS: usize = 2;

/// What contracts see of a cache: the keys and values that were appended since it was last emptied,
/// and how many positions they cover.
#[verifier::ext_equal]
pub ghost struct CacheView {
    pub ks: Seq<Expr>,
    pub vs: Seq<Expr>,
    pub k_len: nat,
    pub v_len: nat,
}

/// The keys and values that were appended to a cache since it was last emptied.
pub ghost struct Pieces {
    pub ks: Seq<Expr>,
    pub vs: Seq<Expr>,
}

impl Pieces {
    /// Nothing was appended.
    pub open spec fn empty() -> Pieces {
        Pieces { ks: Seq::empty(), vs: Seq::empty() }
    }

    /// Keys and values were appended.
    pub open spec fn push(self, k: Expr, v: Expr) -> Pieces {
        Pieces { ks: self.ks.push(k), vs: self.vs.push(v) }
    }

    /// Together with the positions that they cover.
    pub open spec fn counted(self, lengths: (nat, nat)) -> CacheView {
        CacheView { ks: self.ks, vs: self.vs, k_len: lengths.0, v_len: lengths.1 }
    }
}

impl CacheView {
    /// Nothing was appended.
    pub open spec fn empty() -> CacheView {
        CacheView { ks: Seq::empty(), vs: Seq::empty(), k_len: 0, v_len: 0 }
    }

    /// Keys and values were appended.
    pub open spec fn push(self, k: Expr, v: Expr, k_len: nat, v_len: nat) -> CacheView {
        CacheView {
            ks: self.ks.push(k),
            vs: self.vs.push(v),
            k_len: self.k_len + k_len,
            v_len: self.v_len + v_len,
        }
    }
}

/// The record of all pieces that were appended to a growing cache.
pub open spec fn appended(limit: usize, pieces: Seq<Expr>) -> Expr {
    Expr::Appended { dim: POSITIONS as nat, limit: limit as nat, pieces }
}

/// The record of what a rolling cache gives for a piece: the piece itself where it is no shorter
/// than the cache, else what the cache holds.
pub open spec fn rolled(limit: usize, pieces: Seq<Expr>, piece_len: nat) -> Expr {
    if piece_len >= limit {
        pieces.last()
    } else {
        Expr::Rotated { dim: POSITIONS as nat, limit: limit as nat, pieces }
    }
}

/// How many positions a rolling cache gives for a piece.
pub open spec fn rolled_len(limit: usize, total: nat, piece_len: nat) -> nat {
    if piece_len >= limit {
        piece_len
    } else if total >= limit {
        limit as nat
    } else {
        total
    }
}

/// A rolling cache gives what it holds, as many positions as there are and it has room for; a piece
/// that is longer than the cache is given whole.
pub proof fn law_rolling_caches_give_what_they_hold(limit: usize, total: nat, piece_len: nat)
    requires
        piece_len <= total,
    ensures
        ({
            let held = if total < limit {
                total
            } else {
                limit as nat
            };
            rolled_len(limit, total, piece_len) == (if piece_len > held {
                piece_len
            } else {
                held
            })
        }),
{
}

/// What a cache in main memory was filled with: keys and values of this shape, the positions left
/// out, and this element type.
pub ghost struct Filling {
    pub dims: Seq<usize>,
    pub dtype: candle_core::DType,
}

/// What a cache is filled with that takes these keys.
pub open spec fn filling_of(k: Traced) -> Filling {
    Filling { dims: k.dims().update(2, 0), dtype: k.dtype() }
}

/// Keys and values in main memory that a cache with this filling, if any, can take: of one shape and
/// element type, in storage of their own, and alike what it was filled with.
pub open spec fn can_fill(filling: Option<Filling>, k: Traced, v: Traced) -> bool {
    &&& k.is_ready()
    &&& v.is_ready()
    &&& v.dims() == k.dims()
    &&& super::has_entries(k.dims())
    &&& super::has_products(k.dtype())
    &&& v.dtype() == k.dtype()
    &&& super::owns_storage(k.expr())
    &&& super::owns_storage(v.expr())
    &&& filling matches Some(filling) ==> filling == filling_of(k)
}

/// A cache of keys and values that grows with what is appended.
pub struct GrowingCache {
    inner: candle_nn::kv_cache::KvCache,
    limit: usize,
    seen: Ghost<Pieces>,
    filling: Ghost<Option<Filling>>,
}

impl GrowingCache {
    /// What contracts see.
    pub closed spec fn view(&self) -> CacheView {
        self.seen@.counted(grown_lengths(self.inner))
    }

    /// What the cache was filled with in main memory since it was last emptied, if anything.
    pub closed spec fn filling(&self) -> Option<Filling> {
        self.filling@
    }

    /// The number of positions that the cache makes room for at a time.
    pub closed spec fn limit(&self) -> usize {
        self.limit
    }

    /// `candle_nn::kv_cache::KvCache::new`: an empty cache.
    #[verifier::external_body]
    pub(crate) fn new(limit: usize) -> (r: GrowingCache)
        ensures
            r@ == CacheView::empty(),
            r.limit() == limit,
            r.filling() is None,
    {
        GrowingCache {
            inner: candle_nn::kv_cache::KvCache::new(POSITIONS, limit),
            limit,
            seen: Ghost(Pieces::empty()),
            filling: Ghost(None),
        }
    }

    /// Empties the cache. It starts over with the room of a new one, however much it had made.
    pub(crate) fn reset(&mut self)
        ensures
            final(self)@ == CacheView::empty(),
            final(self).limit() == old(self).limit(),
            final(self).filling() is None,
    {
        *self = GrowingCache::new(self.limit);
    }

    /// `candle_nn::kv_cache::KvCache::append`: on success all keys and values that were appended
    /// since the cache was last emptied, one after the other along the positions. In main memory keys
    /// and values that fit can always be appended. Nothing is stated of the cache after a failure.
    #[verifier::external_body]
    fn raw_append(&mut self, k: &Traced, v: &Traced) -> (r: Result<(Traced, Traced), ModelError>)
        requires
            old(self).limit() > 0,
            old(self)@.k_len + k.dims()[2] <= usize::MAX,
            old(self)@.v_len + v.dims()[2] <= usize::MAX,
            has_room(k.dims(), grown_room(old(self).limit(), old(self)@.k_len + k.dims()[2] as nat)),
            has_room(v.dims(), grown_room(old(self).limit(), old(self)@.v_len + v.dims()[2] as nat)),
        ensures
            final(self).limit() == old(self).limit(),
            r matches Ok(kv) ==> {
                let seen = old(self)@.push(
                    k.expr(),
                    v.expr(),
                    k.dims()[2] as nat,
                    v.dims()[2] as nat,
                );
                &&& final(self)@ == seen
                &&& kv.0.expr() == appended(old(self).limit(), seen.ks)
                &&& kv.1.expr() == appended(old(self).limit(), seen.vs)
                &&& kv.0.dims() == k.dims().update(2, seen.k_len as usize)
                &&& kv.1.dims() == v.dims().update(2, seen.v_len as usize)
                &&& kv.0.dtype() == k.dtype()
                &&& kv.1.dtype() == v.dtype()
            },
            r matches Err(e) ==> e is Candle,
            can_fill(old(self).filling(), *k, *v) ==> (r matches Ok(kv) && kv.0.is_local()
                && kv.1.is_local() && final(self).filling() == Some(filling_of(*k))),
    {
        let ghost seen = self.seen@.push(k.expr(), v.expr());
        self.filling = Ghost(Some(filling_of(*k)));
        match self.inner.append(&k.inner, &v.inner) {
            Ok((all_k, all_v)) => {
                self.seen = Ghost(seen);
                let k = Traced { inner: all_k, expr: Ghost(appended(self.limit, seen.ks)) };
                let v = Traced { inner: all_v, expr: Ghost(appended(self.limit, seen.vs)) };
                Ok((k, v))
            },
            Err(e) => Err(ModelError::Candle(e)),
        }
    }

    /// How many positions were appended so far: `candle_nn::kv_cache::Cache::current_seq_len` of
    /// keys and of values.
    #[verifier::external_body]
    fn raw_lengths(&self) -> (r: (usize, usize))
        ensures
            (r.0 as nat, r.1 as nat) == grown_lengths(self.inner),
    {
        (self.inner.k_cache().current_seq_len(), self.inner.v_cache().current_seq_len())
    }
}

/// The room that a growing cache makes for so many positions, at most.
pub open spec fn grown_room(limit: usize, total: nat) -> nat {
    if total <= limit {
        limit as nat
    } else {
        total + limit as nat
    }
}

/// `usize` can count the entries of a cache with room for so many positions.
pub open spec fn has_room(dims: Seq<usize>, room: nat) -> bool {
    &&& dims.len() > POSITIONS
    &&& room <= usize::MAX
    &&& super::countable(dims.update(2, room as usize))
}

/// How many positions there are with `more` new ones, where `usize` can count them.
fn total_with(more: &Traced, before: usize) -> (r: Result<usize, ModelError>)
    requires
        more.dims().len() > POSITIONS,
    ensures
        match r {
            Ok(n) => n == before + more.dims()[2],
            Err(e) => e is ShapeTooLarge && before + more.dims()[2] > usize::MAX,
        },
{
    let dims = more.shape();
    match before.checked_add(dims[2]) {
        Some(n) => Ok(n),
        None => Err(ModelError::ShapeTooLarge),
    }
}

/// Whether `usize` can count the entries of a cache with room for so many positions.
fn check_room(piece: &Traced, room: usize) -> (r: Result<(), ModelError>)
    requires
        piece.dims().len() > POSITIONS,
    ensures
        match r {
            Ok(_) => has_room(piece.dims(), room as nat),
            Err(e) => e is ShapeTooLarge && !has_room(piece.dims(), room as nat),
        },
{
    let mut dims = piece.shape();
    dims.set(POSITIONS, room);
    match super::checked_count(&dims) {
        Some(_) => Ok(()),
        None => Err(ModelError::ShapeTooLarge),
    }
}

/// Whether a growing cache can make room for so many positions of a tensor.
fn check_grown_room(piece: &Traced, limit: usize, total: usize) -> (r: Result<(), ModelError>)
    requires
        piece.dims().len() > POSITIONS,
    ensures
        match r {
            Ok(_) => has_room(piece.dims(), grown_room(limit, total as nat)),
            Err(e) => e is ShapeTooLarge && !has_room(
                piece.dims(),
                grown_room(limit, total as nat),
            ),
        },
{
    if total <= limit {
        check_room(piece, limit)
    } else {
        match total.checked_add(limit) {
            Some(room) => check_room(piece, room),
            None => Err(ModelError::ShapeTooLarge),
        }
    }
}

/// A growing cache cannot take keys or values of this shape: `usize` cannot count the positions, or
/// the entries that room is made for.
pub open spec fn outgrows(limit: usize, before: nat, dims: Seq<usize>) -> bool {
    before + dims[2] > usize::MAX || !has_room(dims, grown_room(limit, before + dims[2] as nat))
}

/// A rolling cache cannot take keys or values of this shape: `usize` cannot count the positions, or
/// the entries that there is room for.
pub open spec fn outrolls(limit: usize, before: nat, dims: Seq<usize>) -> bool {
    before + dims[2] > usize::MAX || !has_room(dims, limit as nat)
}

/// Keys or values that have no positions.
pub open spec fn lack_positions(k_dims: Seq<usize>, v_dims: Seq<usize>) -> bool {
    k_dims.len() <= POSITIONS || v_dims.len() <= POSITIONS
}

/// Whether keys and values have positions.
fn check_positions(k: &Traced, v: &Traced) -> (r: Result<(), ModelError>)
    ensures
        match r {
            Ok(_) => !lack_positions(k.dims(), v.dims()),
            Err(e) => e is Rank && lack_positions(k.dims(), v.dims()),
        },
{
    let k_dims = k.shape();
    let v_dims = v.shape();
    if k_dims.len() <= POSITIONS {
        return Err(ModelError::Rank { expected: 4, got: k_dims.len() });
    }
    if v_dims.len() <= POSITIONS {
        return Err(ModelError::Rank { expected: 4, got: v_dims.len() });
    }
    Ok(())
}

impl GrowingCache {
    /// What appending keys and values of these shapes can fail with.
    pub open spec fn append_may_fail_with(
        &self,
        k_dims: Seq<usize>,
        v_dims: Seq<usize>,
        e: ModelError,
    ) -> bool {
        match e {
            ModelError::Candle(_) => true,
            ModelError::EmptyAxis => self.limit() == 0,
            ModelError::Rank { .. } => lack_positions(k_dims, v_dims),
            ModelError::ShapeTooLarge => !lack_positions(k_dims, v_dims) && (outgrows(
                self.limit(),
                self@.k_len,
                k_dims,
            ) || outgrows(self.limit(), self@.v_len, v_dims)),
            _ => false,
        }
    }
}

impl RollingCache {
    /// What appending keys and values of these shapes can fail with.
    pub open spec fn append_may_fail_with(
        &self,
        k_dims: Seq<usize>,
        v_dims: Seq<usize>,
        e: ModelError,
    ) -> bool {
        match e {
            ModelError::Candle(_) => true,
            ModelError::Rank { .. } => lack_positions(k_dims, v_dims),
            ModelError::ShapeTooLarge => !lack_positions(k_dims, v_dims) && (outrolls(
                self.limit(),
                self@.k_len,
                k_dims,
            ) || outrolls(self.limit(), self@.v_len, v_dims)),
            _ => false,
        }
    }
}

impl GrowingCache {
    /// Appends keys and values, and gives all that were appended since the cache was last emptied.
    /// A cache that makes room for no positions takes none.
    pub(crate) fn append(&mut self, k: &Traced, v: &Traced) -> (r: Result<
        (Traced, Traced),
        ModelError,
    >)
        ensures
            final(self).limit() == old(self).limit(),
            r matches Ok(kv) ==> {
                let seen = old(self)@.push(
                    k.expr(),
                    v.expr(),
                    k.dims()[2] as nat,
                    v.dims()[2] as nat,
                );
                &&& seen.k_len <= usize::MAX
                &&& seen.v_len <= usize::MAX
                &&& k.dims().len() > POSITIONS
                &&& v.dims().len() > POSITIONS
                &&& final(self)@ == seen
                &&& kv.0.expr() == appended(old(self).limit(), seen.ks)
                &&& kv.1.expr() == appended(old(self).limit(), seen.vs)
                &&& kv.0.dims() == k.dims().update(2, seen.k_len as usize)
                &&& kv.1.dims() == v.dims().update(2, seen.v_len as usize)
                &&& kv.0.dtype() == k.dtype()
                &&& kv.1.dtype() == v.dtype()
            },
            r matches Err(e) ==> old(self).append_may_fail_with(k.dims(), v.dims(), e),
            can_fill(old(self).filling(), *k, *v) && k.dims().len() == 4 && old(self).limit() > 0
                && !outgrows(old(self).limit(), old(self)@.k_len, k.dims()) && !outgrows(
                old(self).limit(),
                old(self)@.v_len,
                v.dims(),
            ) ==> (r matches Ok(kv) && kv.0.is_local() && kv.1.is_local() && final(self).filling()
                == Some(filling_of(*k))),
    {
        if self.limit == 0 {
            return Err(ModelError::EmptyAxis);
        }
        let (k_len, v_len): (usize, usize) = self.raw_lengths();
        check_positions(k, v)?;
        let k_total: usize = total_with(k, k_len)?;
        let v_total: usize = total_with(v, v_len)?;
        check_grown_room(k, self.limit, k_total)?;
        check_grown_room(v, self.limit, v_total)?;
        self.raw_append(k, v)
    }
}

/// A cache of keys and values that holds the last positions only.
pub struct RollingCache {
    inner: candle_nn::kv_cache::RotatingKvCache,
    limit: usize,
    seen: Ghost<Pieces>,
    filling: Ghost<Option<Filling>>,
}

impl RollingCache {
    /// What contracts see.
    pub closed spec fn view(&self) -> CacheView {
        self.seen@.counted(turned_lengths(self.inner))
    }

    /// What the cache was filled with in main memory since it was last emptied, if anything.
    pub closed spec fn filling(&self) -> Option<Filling> {
        self.filling@
    }

    /// The number of positions that the cache holds.
    pub closed spec fn limit(&self) -> usize {
        self.limit
    }

    /// `candle_nn::kv_cache::RotatingKvCache::new`: an empty cache.
    #[verifier::external_body]
    pub(crate) fn new(limit: usize) -> (r: RollingCache)
        ensures
            r@ == CacheView::empty(),
            r.limit() == limit,
            r.filling() is None,
    {
        RollingCache {
            inner: candle_nn::kv_cache::RotatingKvCache::new(POSITIONS, limit),
            limit,
            seen: Ghost(Pieces::empty()),
            filling: Ghost(None),
        }
    }

    /// `candle_nn::kv_cache::RotatingKvCache::reset`: the cache is empty.
    #[verifier::external_body]
    pub(crate) fn reset(&mut self)
        ensures
            final(self)@ == CacheView::empty(),
            final(self).limit() == old(self).limit(),
            final(self).filling() is None,
    {
        self.inner.reset();
        self.seen = Ghost(Pieces::empty());
        self.filling = Ghost(None);
    }

    /// `candle_nn::kv_cache::RotatingKvCache::append`: on success the new keys and values themselves
    /// where they are no shorter than the cache, else what the cache holds, at most `limit`
    /// positions. Which position stands where in the cache is not stated. In main memory keys and
    /// values that fit can always be appended to a cache of some size. Nothing is stated of the cache
    /// after a failure.
    #[verifier::external_body]
    fn raw_append(&mut self, k: &Traced, v: &Traced) -> (r: Result<(Traced, Traced), ModelError>)
        requires
            old(self)@.k_len + k.dims()[2] <= usize::MAX,
            old(self)@.v_len + v.dims()[2] <= usize::MAX,
            has_room(k.dims(), old(self).limit() as nat),
            has_room(v.dims(), old(self).limit() as nat),
        ensures
            final(self).limit() == old(self).limit(),
            r matches Ok(kv) ==> {
                let limit = old(self).limit();
                let (k_len, v_len) = (k.dims()[2] as nat, v.dims()[2] as nat);
                let seen = old(self)@.push(k.expr(), v.expr(), k_len, v_len);
                &&& final(self)@ == seen
                &&& kv.0.expr() == rolled(limit, seen.ks, k_len)
                &&& kv.1.expr() == rolled(limit, seen.vs, v_len)
                &&& kv.0.dims() == k.dims().update(2, rolled_len(limit, seen.k_len, k_len) as usize)
                &&& kv.1.dims() == v.dims().update(2, rolled_len(limit, seen.v_len, v_len) as usize)
                &&& kv.0.dtype() == k.dtype()
                &&& kv.1.dtype() == v.dtype()
            },
            r matches Err(e) ==> e is Candle,
            can_fill(old(self).filling(), *k, *v) && old(self).limit() > 0 ==> (r matches Ok(kv)
                && kv.0.is_local() && kv.1.is_local() && final(self).filling() == Some(
                filling_of(*k),
            )),
    {
        self.filling = Ghost(Some(filling_of(*k)));
        let ghost lens = (k.dims()[2] as nat, v.dims()[2] as nat);
        let ghost seen = self.seen@.push(k.expr(), v.expr());
        match self.inner.append(&k.inner, &v.inner) {
            Ok((all_k, all_v)) => {
                self.seen = Ghost(seen);
                let k = Traced { inner: all_k, expr: Ghost(rolled(self.limit, seen.ks, lens.0)) };
                let v = Traced { inner: all_v, expr: Ghost(rolled(self.limit, seen.vs, lens.1)) };
                Ok((k, v))
            },
            Err(e) => Err(ModelError::Candle(e)),
        }
    }

    /// How many positions were appended so far:
    /// `candle_nn::kv_cache::RotatingCache::current_seq_len` of keys and of values.
    #[verifier::external_body]
    fn raw_lengths(&self) -> (r: (usize, usize))
        ensures
            (r.0 as nat, r.1 as nat) == turned_lengths(self.inner),
    {
        (self.inner.k_cache().current_seq_len(), self.inner.v_cache().current_seq_len())
    }

    /// Appends keys and values, and gives what is to be attended: the new ones alone where they are
    /// no fewer than the cache holds, else what the cache holds.
    pub(crate) fn append(&mut self, k: &Traced, v: &Traced) -> (r: Result<
        (Traced, Traced),
        ModelError,
    >)
        ensures
            final(self).limit() == old(self).limit(),
            r matches Ok(kv) ==> {
                let limit = old(self).limit();
                let (k_len, v_len) = (k.dims()[2] as nat, v.dims()[2] as nat);
                let seen = old(self)@.push(k.expr(), v.expr(), k_len, v_len);
                &&& seen.k_len <= usize::MAX
                &&& seen.v_len <= usize::MAX
                &&& k.dims().len() > POSITIONS
                &&& v.dims().len() > POSITIONS
                &&& final(self)@ == seen
                &&& kv.0.expr() == rolled(limit, seen.ks, k_len)
                &&& kv.1.expr() == rolled(limit, seen.vs, v_len)
                &&& kv.0.dims() == k.dims().update(2, rolled_len(limit, seen.k_len, k_len) as usize)
                &&& kv.1.dims() == v.dims().update(2, rolled_len(limit, seen.v_len, v_len) as usize)
                &&& kv.0.dtype() == k.dtype()
                &&& kv.1.dtype() == v.dtype()
            },
            r matches Err(e) ==> old(self).append_may_fail_with(k.dims(), v.dims(), e),
            can_fill(old(self).filling(), *k, *v) && k.dims().len() == 4 && old(self).limit() > 0
                && !outrolls(old(self).limit(), old(self)@.k_len, k.dims()) && !outrolls(
                old(self).limit(),
                old(self)@.v_len,
                v.dims(),
            ) ==> (r matches Ok(kv) && kv.0.is_local() && kv.1.is_local() && final(self).filling()
                == Some(filling_of(*k))),
    {
        let (k_len, v_len): (usize, usize) = self.raw_lengths();
        check_positions(k, v)?;
        total_with(k, k_len)?;
        total_with(v, v_len)?;
        check_room(k, self.limit)?;
        check_room(v, self.limit)?;
        self.raw_append(k, v)
    }
}

} // verus!
