//! Tensors with a ghost record of the operations that produced them.
//!
//! `Traced` pairs a `candle_core::Tensor` with an `Expr`. What the entries of a tensor are is left
//! to `candle`; that a result comes from these operands, by this operation, is what the contracts
//! state, together with the result's shape and element type, and that in main memory an operation on
//! operands that fit succeeds. That there is room for the result is taken for granted.

use crate::error::ModelError;
use vstd::prelude::*;

pub mod layers;
pub mod packed;

verus! {

/// Marks `candle_core::Tensor` as a type whose inside the library does not look at.
#[verifier::external_type_specification]
#[verifier::external_body]
pub struct ExTensor(candle_core::Tensor);

/// Marks `candle_core::Device` as a type whose inside the library does not look at.
#[verifier::external_type_specification]
#[verifier::external_body]
pub struct ExDevice(candle_core::Device);

/// The element types of `candle_core`, one variant each.
#[verifier::external_type_specification]
pub struct ExDType(candle_core::DType);

/// Marks `candle_core::scalar::Scalar` as a type whose inside the library does not look at.
#[verifier::external_type_specification]
#[verifier::external_body]
pub struct ExScalar(candle_core::scalar::Scalar);

/// Marks `candle_core::quantized::QTensor` as a type whose inside the library does not look at.
#[verifier::external_type_specification]
#[verifier::external_body]
pub struct ExQTensor(candle_core::quantized::QTensor);

/// Marks `candle_nn::Activation` as a type whose inside the library does not look at.
#[verifier::external_type_specification]
#[verifier::external_body]
pub struct ExActivation(candle_nn::Activation);

/// The sizes of a tensor's dimensions, outermost first.
pub uninterp spec fn tensor_dims(t: candle_core::Tensor) -> Seq<usize>;

/// The element type of a tensor.
pub uninterp spec fn tensor_dtype(t: candle_core::Tensor) -> candle_core::DType;

/// The device that a tensor lives on.
pub uninterp spec fn tensor_device(t: candle_core::Tensor) -> candle_core::Device;

/// How far apart neighbours along each dimension lie in a tensor's storage, outermost first.
pub uninterp spec fn tensor_strides(t: candle_core::Tensor) -> Seq<usize>;

/// A device's tensors lie in main memory, and the processor computes on them.
pub uninterp spec fn is_main_memory(d: candle_core::Device) -> bool;

/// The entries of a `U32` tensor, or the bit patterns of those of an `F32` tensor, the last dimension
/// running fastest.
pub uninterp spec fn tensor_words(t: candle_core::Tensor) -> Seq<u32>;

/// How a number that enters a tensor operation came about.
pub ghost enum NumberExpr {
    /// A number handed to the library.
    Given(candle_core::scalar::Scalar),
    /// A whole number.
    Int(int),
    /// The square root of a number.
    Sqrt(Box<NumberExpr>),
    /// The reciprocal of a number.
    Recip(Box<NumberExpr>),
    /// The product of two numbers.
    Times(Box<NumberExpr>, Box<NumberExpr>),
    /// The quotient of two numbers.
    Over(Box<NumberExpr>, Box<NumberExpr>),
    /// A number raised to another.
    Pow(Box<NumberExpr>, Box<NumberExpr>),
}

impl NumberExpr {
    /// Built by products and quotients alone, whose rounding is fixed.
    pub open spec fn is_rational(self) -> bool
        decreases self,
    {
        match self {
            NumberExpr::Given(_) => true,
            NumberExpr::Int(_) => true,
            NumberExpr::Times(a, b) => a.is_rational() && b.is_rational(),
            NumberExpr::Over(a, b) => a.is_rational() && b.is_rational(),
            _ => false,
        }
    }
}

/// A number cut down to a whole number, negative numbers to zero.
pub uninterp spec fn truncated(number: NumberExpr) -> usize;

/// Operations on one tensor that take nothing else.
pub ghost enum UnaryOp {
    Sqr,
    Sqrt,
    Gelu,
    Tanh,
    Cos,
    Sin,
    Recip,
    Contiguous,
    SoftmaxLast,
    MeanLast,
    SumLast,
}

/// Operations on two tensors.
pub ghost enum BinaryOp {
    Add,
    Mul,
    BroadcastAdd,
    BroadcastMul,
    BroadcastDiv,
    MatMul,
}

/// Operations on a tensor and a number.
pub ghost enum NumberOp {
    Add,
    Mul,
    Div,
    Pow,
}

/// How a tensor came about.
pub ghost enum Expr {
    /// A tensor handed to the library.
    Given(candle_core::Tensor),
    /// A tensor with these entries, given as `F32` bit patterns.
    Words { dims: Seq<usize>, words: Seq<u32>, device: candle_core::Device },
    /// A tensor of zeros.
    Zeros { dims: Seq<usize>, dtype: candle_core::DType, device: candle_core::Device },
    /// The counts from zero up to an excluded end.
    Counts { end: u32, device: candle_core::Device },
    /// A named parameter of a float model.
    Param { path: layers::Place, name: Seq<char>, dims: Seq<usize> },
    /// The entries of a packed tensor.
    Unpacked(candle_core::quantized::QTensor),
    Unary(UnaryOp, Box<Expr>),
    Binary(BinaryOp, Box<Expr>, Box<Expr>),
    WithNumber(NumberOp, Box<Expr>, NumberExpr),
    ToDType(Box<Expr>, candle_core::DType),
    Transpose(Box<Expr>, nat, nat),
    Reshape(Box<Expr>, Seq<usize>),
    Expand(Box<Expr>, Seq<usize>),
    Narrow { of: Box<Expr>, dim: nat, start: nat, len: nat },
    /// One index of a dimension, that dimension being dropped.
    Select { of: Box<Expr>, dim: nat, index: nat },
    Cat(Seq<Expr>, nat),
    Rope { of: Box<Expr>, cos: Box<Expr>, sin: Box<Expr> },
    /// Product with the transpose of a packed matrix.
    PackedMatMul(packed::PackedView, Box<Expr>),
    /// Rows of a packed table.
    PackedRows(candle_core::quantized::QTensor, Box<Expr>),
    /// Root-mean-square normalisation along the last dimension, with a weight.
    RmsNorm { weight: Box<Expr>, eps: NumberExpr, of: Box<Expr> },
    /// Product with the transpose of a matrix, then a bias where there is one.
    Linear { weight: Box<Expr>, bias: Option<Box<Expr>>, of: Box<Expr> },
    /// Rows of a table.
    Rows(Box<Expr>, Box<Expr>),
    Activation(candle_nn::Activation, Box<Expr>),
    /// What a growing cache holds after these pieces were appended to it.
    Appended { dim: nat, limit: nat, pieces: Seq<Expr> },
    /// What a rotating cache returns after these pieces were appended to it.
    Rotated { dim: nat, limit: nat, pieces: Seq<Expr> },
}

/// An operation's record, for operations on one tensor that take nothing else.
pub open spec fn unary(op: UnaryOp, of: Expr) -> Expr {
    Expr::Unary(op, Box::new(of))
}

/// An operation's record, for operations on two tensors.
pub open spec fn binary(op: BinaryOp, lhs: Expr, rhs: Expr) -> Expr {
    Expr::Binary(op, Box::new(lhs), Box::new(rhs))
}

/// An operation's record, for operations on a tensor and a number.
pub open spec fn with_number(op: NumberOp, of: Expr, number: NumberExpr) -> Expr {
    Expr::WithNumber(op, Box::new(of), number)
}

/// The record of a cast.
pub open spec fn cast(of: Expr, dtype: candle_core::DType) -> Expr {
    Expr::ToDType(Box::new(of), dtype)
}

/// The record of swapping two dimensions.
pub open spec fn transposed(of: Expr, dim1: nat, dim2: nat) -> Expr {
    Expr::Transpose(Box::new(of), dim1, dim2)
}

/// The record of reading the entries in another shape.
pub open spec fn reshaped(of: Expr, dims: Seq<usize>) -> Expr {
    Expr::Reshape(Box::new(of), dims)
}

/// The record of keeping `len` indices of a dimension, from `start` on.
pub open spec fn narrowed(of: Expr, dim: nat, start: nat, len: nat) -> Expr {
    Expr::Narrow { of: Box::new(of), dim, start, len }
}

/// The record of fixing an index of a dimension.
pub open spec fn selected(of: Expr, dim: nat, index: nat) -> Expr {
    Expr::Select { of: Box::new(of), dim, index }
}

/// The square root of a count.
pub open spec fn sqrt_of(n: int) -> NumberExpr {
    NumberExpr::Sqrt(Box::new(NumberExpr::Int(n)))
}

/// The reciprocal of the square root of a count.
pub open spec fn recip_sqrt_of(n: int) -> NumberExpr {
    NumberExpr::Recip(Box::new(sqrt_of(n)))
}

/// The quotient of two counts.
pub open spec fn ratio_of(a: int, b: int) -> NumberExpr {
    NumberExpr::Over(Box::new(NumberExpr::Int(a)), Box::new(NumberExpr::Int(b)))
}

/// A count to the power of minus one half.
pub open spec fn inverse_root_of(n: int) -> NumberExpr {
    NumberExpr::Pow(Box::new(NumberExpr::Int(n)), Box::new(ratio_of(-1, 2)))
}

/// A tensor of this record has storage of its own, which nothing writes to again: it is the result of
/// an operation that puts its entries into new storage, cast or not.
pub open spec fn owns_storage(e: Expr) -> bool
    decreases e,
{
    match e {
        Expr::Rope { .. } => true,
        Expr::Binary(op, ..) => true,
        Expr::ToDType(of, _) => owns_storage(*of),
        _ => false,
    }
}

/// The number of entries of a tensor of this shape.
pub open spec fn count_of(dims: Seq<usize>) -> nat
    decreases dims.len(),
{
    if dims.len() == 0 {
        1
    } else {
        count_of(dims.drop_last()) * dims.last() as nat
    }
}

/// `usize` can count the entries of a shape, dimension by dimension from the outermost on.
pub open spec fn countable(dims: Seq<usize>) -> bool {
    forall|k: int| 0 <= k <= dims.len() ==> #[trigger] count_of(dims.take(k)) <= usize::MAX
}

/// The shape of an element-wise operation that stretches dimensions of size one: the dimensions
/// are aligned at the last one.
pub open spec fn broadcast_dims(a: Seq<usize>, b: Seq<usize>) -> Seq<usize> {
    let n = if a.len() >= b.len() { a.len() } else { b.len() };
    Seq::new(
        n,
        |i: int|
            {
                let da = if i + a.len() >= n { a[i + a.len() - n] } else { 1 };
                let db = if i + b.len() >= n { b[i + b.len() - n] } else { 1 };
                if da == 1 { db } else { da }
            },
    )
}

/// The shape with two dimensions swapped.
pub open spec fn swapped_dims(dims: Seq<usize>, i: int, j: int) -> Seq<usize> {
    dims.update(i, dims[j]).update(j, dims[i])
}

/// The shape with the last dimension replaced.
pub open spec fn with_last(dims: Seq<usize>, n: usize) -> Seq<usize> {
    dims.update(dims.len() - 1, n)
}

/// The sizes of one dimension over a list of tensors, added up.
pub open spec fn total_dim(parts: Seq<Traced>, dim: int) -> nat
    decreases parts.len(),
{
    if parts.len() == 0 {
        0
    } else {
        total_dim(parts.drop_last(), dim) + parts.last().dims()[dim] as nat
    }
}

/// The records of a list of tensors.
pub open spec fn exprs(parts: Seq<Traced>) -> Seq<Expr> {
    parts.map_values(|t: Traced| t.expr())
}

/// The 32-bit words of a byte string, four bytes each, the least significant byte first.
pub open spec fn words_of(bytes: Seq<u8>) -> Seq<u32> {
    Seq::new(
        bytes.len() / 4,
        |i: int| vstd::bytes::spec_u32_from_le_bytes(bytes.subrange(4 * i, 4 * i + 4)),
    )
}

/// A number that enters tensor operations.
pub struct Number {
    inner: candle_core::scalar::Scalar,
    expr: Ghost<NumberExpr>,
}

impl Number {
    /// How the number came about.
    pub closed spec fn expr(&self) -> NumberExpr {
        self.expr@
    }

    /// A number handed to the library.
    pub fn given(inner: candle_core::scalar::Scalar) -> (r: Number)
        ensures
            r.expr() == NumberExpr::Given(inner),
    {
        Number { inner, expr: Ghost(NumberExpr::Given(inner)) }
    }

    /// The conversion of `i64` to `candle_core::scalar::Scalar`: the result stands for `n`.
    #[verifier::external_body]
    pub(crate) fn whole(n: i64) -> (r: Number)
        ensures
            r.expr() == NumberExpr::Int(n as int),
    {
        Number {
            inner: candle_core::scalar::Scalar::from(n),
            expr: Ghost(NumberExpr::Int(n as int)),
        }
    }

    /// The cast of `usize` to `f64`, as a `candle_core::scalar::Scalar`: the result stands for `n`.
    #[verifier::external_body]
    pub(crate) fn count(n: usize) -> (r: Number)
        ensures
            r.expr() == NumberExpr::Int(n as int),
    {
        Number {
            inner: candle_core::scalar::Scalar::F64(n as _),
            expr: Ghost(NumberExpr::Int(n as int)),
        }
    }

    /// The square root of a count.
    pub(crate) fn sqrt_of(n: usize) -> (r: Number)
        ensures
            r.expr() == sqrt_of(n as int),
    {
        Number::count(n).sqrt()
    }

    /// The reciprocal of the square root of a count.
    pub(crate) fn recip_sqrt_of(n: usize) -> (r: Number)
        ensures
            r.expr() == recip_sqrt_of(n as int),
    {
        Number::sqrt_of(n).recip()
    }

    /// The quotient of two counts.
    pub(crate) fn ratio_of(a: usize, b: usize) -> (r: Number)
        ensures
            r.expr() == ratio_of(a as int, b as int),
    {
        Number::count(a).over(&Number::count(b))
    }

    /// A count to the power of minus one half.
    pub(crate) fn inverse_root_of(n: usize) -> (r: Number)
        ensures
            r.expr() == inverse_root_of(n as int),
    {
        Number::count(n).pow(&Number::whole(-1).over(&Number::whole(2)))
    }

    /// `*` of two `f64`: the product.
    #[verifier::external_body]
    pub(crate) fn times(&self, rhs: &Number) -> (r: Number)
        ensures
            r.expr() == NumberExpr::Times(Box::new(self.expr()), Box::new(rhs.expr())),
    {
        Number {
            inner: candle_core::scalar::Scalar::from(self.inner.to_f64() * rhs.inner.to_f64()),
            expr: Ghost(NumberExpr::Times(Box::new(self.expr()), Box::new(rhs.expr()))),
        }
    }

    /// `/` of two `f64`: the quotient.
    #[verifier::external_body]
    pub(crate) fn over(&self, rhs: &Number) -> (r: Number)
        ensures
            r.expr() == NumberExpr::Over(Box::new(self.expr()), Box::new(rhs.expr())),
    {
        Number {
            inner: candle_core::scalar::Scalar::from(self.inner.to_f64() / rhs.inner.to_f64()),
            expr: Ghost(NumberExpr::Over(Box::new(self.expr()), Box::new(rhs.expr()))),
        }
    }

    /// `f64::powf`: `self` to the power of `rhs`.
    #[verifier::external_body]
    pub(crate) fn pow(&self, rhs: &Number) -> (r: Number)
        ensures
            r.expr() == NumberExpr::Pow(Box::new(self.expr()), Box::new(rhs.expr())),
    {
        Number {
            inner: candle_core::scalar::Scalar::from(self.inner.to_f64().powf(rhs.inner.to_f64())),
            expr: Ghost(NumberExpr::Pow(Box::new(self.expr()), Box::new(rhs.expr()))),
        }
    }

    /// The cast of an `f64` to `usize`: the number cut down to a whole number. Products and
    /// quotients round the same way everywhere, so there the result depends on the number's record
    /// alone; of other numbers nothing is stated.
    #[verifier::external_body]
    pub(crate) fn truncate(&self) -> (r: usize)
        ensures
            self.expr().is_rational() ==> r == truncated(self.expr()),
    {
        self.inner.to_f64() as usize
    }

    /// `f64::sqrt` of the number that `candle_core::scalar::Scalar::to_f64` gives: the result is
    /// the square root of `self`.
    #[verifier::external_body]
    pub(crate) fn sqrt(&self) -> (r: Number)
        ensures
            r.expr() == NumberExpr::Sqrt(Box::new(self.expr())),
    {
        Number {
            inner: candle_core::scalar::Scalar::from(self.inner.to_f64().sqrt()),
            expr: Ghost(NumberExpr::Sqrt(Box::new(self.expr()))),
        }
    }

    /// `f64::recip` of the number that `candle_core::scalar::Scalar::to_f64` gives: the result is
    /// one over `self`.
    #[verifier::external_body]
    pub(crate) fn recip(&self) -> (r: Number)
        ensures
            r.expr() == NumberExpr::Recip(Box::new(self.expr())),
    {
        Number {
            inner: candle_core::scalar::Scalar::from(self.inner.to_f64().recip()),
            expr: Ghost(NumberExpr::Recip(Box::new(self.expr()))),
        }
    }

    /// `Clone` of `candle_core::scalar::Scalar`: the result is the same number.
    #[verifier::external_body]
    pub(crate) fn duplicate(&self) -> (r: Number)
        ensures
            r == *self,
    {
        Number { inner: self.inner, expr: Ghost(self.expr()) }
    }
}

/// A tensor with the record of how it came about.
pub struct Traced {
    inner: candle_core::Tensor,
    expr: Ghost<Expr>,
}

/// What a tensor operation promises: on success a tensor with this record, shape and element type,
/// and on failure the error that `candle` gave.
pub open spec fn produces(
    r: Result<Traced, ModelError>,
    expr: Expr,
    dims: Seq<usize>,
    dtype: candle_core::DType,
) -> bool {
    match r {
        Ok(t) => t.expr() == expr && t.dims() == dims && t.dtype() == dtype,
        Err(e) => e is Candle,
    }
}

/// What an operation promises of tensors in main memory: where they fit, it succeeds, and the result
/// lies in main memory too, its entries in order.
pub open spec fn succeeds(r: Result<Traced, ModelError>, fits: bool) -> bool {
    fits ==> (r matches Ok(t) && t.is_ready())
}

/// Every dimension has a size above zero.
pub open spec fn has_entries(dims: Seq<usize>) -> bool {
    forall|i: int| 0 <= i < dims.len() ==> #[trigger] dims[i] > 0
}

/// The element types of which the processor multiplies matrices.
pub open spec fn has_products(dtype: candle_core::DType) -> bool {
    match dtype {
        candle_core::DType::F16 => true,
        candle_core::DType::F32 => true,
        candle_core::DType::F64 => true,
        _ => false,
    }
}

/// Entries of one element type can be cast to another.
pub open spec fn can_cast(from: candle_core::DType, to: candle_core::DType) -> bool {
    (has_products(from) || from == candle_core::DType::U32) && has_products(to)
}

/// Two shapes can be stretched to a common one: aligned at the last dimension, sizes agree or one of
/// them is one.
pub open spec fn can_broadcast(a: Seq<usize>, b: Seq<usize>) -> bool {
    forall|i: int|
        0 < i <= a.len() && i <= b.len() ==> {
            let (da, db) = (#[trigger] a[a.len() - i], b[b.len() - i]);
            da == db || da == 1 || db == 1
        }
}

/// Neighbours along each dimension are as far apart as the dimensions behind it have entries: the
/// entries lie in order, without gaps.
pub open spec fn in_order(dims: Seq<usize>, strides: Seq<usize>) -> bool {
    &&& strides.len() == dims.len()
    &&& forall|i: int|
        0 <= i < dims.len() && dims[i] > 1 ==> #[trigger] strides[i] == count_of(dims.skip(i + 1))
}

/// The matrices of a tensor of four dimensions lie at even distances.
pub open spec fn are_even(dims: Seq<usize>, strides: Seq<usize>) -> bool {
    &&& strides.len() == dims.len()
    &&& dims.len() == 4 ==> strides[0] == strides[1] * dims[1] || dims[0] <= 1 || dims[1] <= 1
}

/// The element types whose entries are floating-point numbers that can be computed with.
pub open spec fn is_float(dtype: candle_core::DType) -> bool {
    match dtype {
        candle_core::DType::BF16 => true,
        candle_core::DType::F16 => true,
        candle_core::DType::F32 => true,
        candle_core::DType::F64 => true,
        candle_core::DType::F8E4M3 => true,
        _ => false,
    }
}

/// Whether entries of an element type are floating-point numbers that can be computed with.
pub(crate) fn is_float_type(dtype: candle_core::DType) -> (r: bool)
    ensures
        r == is_float(dtype),
{
    match dtype {
        candle_core::DType::BF16
        | candle_core::DType::F16
        | candle_core::DType::F32
        | candle_core::DType::F64
        | candle_core::DType::F8E4M3 => true,
        _ => false,
    }
}

/// Attaches a record to a tensor that an operation gave.
fn traced(r: candle_core::Result<candle_core::Tensor>, expr: Ghost<Expr>) -> (t: Result<
    Traced,
    ModelError,
>)
    ensures
        match r {
            Ok(inner) => t == Ok::<Traced, ModelError>(Traced { inner, expr }),
            Err(e) => t == Err::<Traced, ModelError>(ModelError::Candle(e)),
        },
{
    match r {
        Ok(inner) => Ok(Traced { inner, expr }),
        Err(e) => Err(ModelError::Candle(e)),
    }
}

/// `candle_core::Tensor::dims`: the sizes of the dimensions.
#[verifier::external_body]
fn raw_dims(t: &candle_core::Tensor) -> (r: Vec<usize>)
    ensures
        r@ == tensor_dims(*t),
{
    t.dims().to_vec()
}

/// `candle_core::Tensor::dtype`: the element type.
#[verifier::external_body]
fn raw_dtype(t: &candle_core::Tensor) -> (r: candle_core::DType)
    ensures
        r == tensor_dtype(*t),
{
    t.dtype()
}

/// `candle_core::Tensor::device`: the device that the tensor lives on.
#[verifier::external_body]
fn raw_device(t: &candle_core::Tensor) -> (r: &candle_core::Device)
    ensures
        *r == tensor_device(*t),
{
    t.device()
}

/// `candle_core::Device::is_cpu`: whether the device's tensors lie in main memory.
#[verifier::external_body]
pub(crate) fn raw_is_main_memory(d: &candle_core::Device) -> (r: bool)
    ensures
        r == is_main_memory(*d),
{
    d.is_cpu()
}

/// `candle_core::Tensor::write_bytes` into a fresh `Vec`: for an `F32` tensor, on success four
/// bytes per entry, the least significant first, the last dimension running fastest. A tensor in main
/// memory can always be written.
#[verifier::external_body]
fn raw_bytes(t: &candle_core::Tensor) -> (r: candle_core::Result<Vec<u8>>)
    requires
        tensor_dtype(*t) == candle_core::DType::F32,
    ensures
        is_main_memory(tensor_device(*t)) ==> r is Ok,
        r matches Ok(bytes) ==> bytes@.len() == 4 * count_of(tensor_dims(*t)) && words_of(bytes@)
            == tensor_words(*t),
{
    let mut bytes: Vec<u8> = Vec::new();
    t.write_bytes(&mut bytes)?;
    Ok(bytes)
}

/// `candle_core::Tensor::from_raw_buffer` with `DType::F32`: on success a tensor of the given shape
/// on the given device whose entries have these bit patterns and lie in order. The buffer holds them
/// in the machine's own byte order. In main memory it always succeeds.
#[verifier::external_body]
fn raw_from_words(words: &Vec<u32>, dims: &Vec<usize>, device: &candle_core::Device) -> (r:
    candle_core::Result<candle_core::Tensor>)
    requires
        words@.len() == count_of(dims@),
        countable(dims@),
    ensures
        r matches Ok(t) ==> tensor_dims(t) == dims@ && tensor_dtype(t) == candle_core::DType::F32
            && tensor_device(t) == *device && tensor_words(t) == words@ && in_order(
            dims@,
            tensor_strides(t),
        ),
        is_main_memory(*device) ==> r is Ok,
{
    let bytes: Vec<u8> = words.iter().flat_map(|word| word.to_ne_bytes()).collect();
    candle_core::Tensor::from_raw_buffer(&bytes, candle_core::DType::F32, dims, device)
}

impl Traced {
    /// How the tensor came about.
    pub closed spec fn expr(&self) -> Expr {
        self.expr@
    }

    /// The sizes of the dimensions, outermost first.
    pub closed spec fn dims(&self) -> Seq<usize> {
        tensor_dims(self.inner)
    }

    /// The element type.
    pub closed spec fn dtype(&self) -> candle_core::DType {
        tensor_dtype(self.inner)
    }

    /// The device that the tensor lives on.
    pub closed spec fn device(&self) -> candle_core::Device {
        tensor_device(self.inner)
    }

    /// The tensor lies in main memory.
    pub open spec fn is_local(&self) -> bool {
        is_main_memory(self.device())
    }

    /// How far apart neighbours along each dimension lie, outermost first.
    pub closed spec fn strides(&self) -> Seq<usize> {
        tensor_strides(self.inner)
    }

    /// The entries lie in order, without gaps.
    pub closed spec fn is_ordered(&self) -> bool {
        in_order(self.dims(), self.strides())
    }

    /// The matrices of a tensor of four dimensions lie at even distances.
    pub closed spec fn is_even(&self) -> bool {
        are_even(self.dims(), self.strides())
    }

    /// The tensor lies in main memory, its entries in order.
    pub open spec fn is_ready(&self) -> bool {
        self.is_local() && self.is_ordered()
    }

    /// The entries of a `U32` tensor, or the bit patterns of those of an `F32` tensor, the last
    /// dimension running fastest.
    pub closed spec fn words(&self) -> Seq<u32> {
        tensor_words(self.inner)
    }

    /// The tensor itself.
    pub closed spec fn inner(&self) -> candle_core::Tensor {
        self.inner
    }

    /// A tensor handed to the library.
    pub fn given(inner: candle_core::Tensor) -> (r: Traced)
        ensures
            r.inner() == inner,
            r.expr() == Expr::Given(inner),
            r.dims() == tensor_dims(inner),
            r.dtype() == tensor_dtype(inner),
            r.device() == tensor_device(inner),
            r.words() == tensor_words(inner),
    {
        Traced { inner, expr: Ghost(Expr::Given(inner)) }
    }

    /// The tensor itself.
    pub fn tensor(&self) -> (r: &candle_core::Tensor)
        ensures
            *r == self.inner(),
    {
        &self.inner
    }

    /// `Clone` of `candle_core::Tensor`, which shares the storage: the result is the same tensor.
    #[verifier::external_body]
    pub(crate) fn duplicate(&self) -> (r: Traced)
        ensures
            r == *self,
    {
        Traced { inner: self.inner.clone(), expr: Ghost(self.expr()) }
    }

    /// The sizes of the dimensions, outermost first.
    pub fn shape(&self) -> (r: Vec<usize>)
        ensures
            r@ == self.dims(),
    {
        raw_dims(&self.inner)
    }

    /// The element type.
    pub(crate) fn element_type(&self) -> (r: candle_core::DType)
        ensures
            r == self.dtype(),
    {
        raw_dtype(&self.inner)
    }

    /// The device that the tensor lives on.
    pub(crate) fn on_device(&self) -> (r: &candle_core::Device)
        ensures
            *r == self.device(),
    {
        raw_device(&self.inner)
    }

    /// Whether the entries are floating-point numbers that can be computed with.
    pub(crate) fn holds_floats(&self) -> (r: bool)
        ensures
            r == is_float(self.dtype()),
    {
        is_float_type(self.element_type())
    }

    /// `candle_core::Tensor::sqr`: every entry squared.
    #[verifier::external_body]
    pub(crate) fn sqr(&self) -> (r: Result<Traced, ModelError>)
        requires
            is_float(self.dtype()),
        ensures
            produces(r, unary(UnaryOp::Sqr, self.expr()), self.dims(), self.dtype()),
            succeeds(
                r,
                self.is_local() && has_entries(self.dims()) && has_products(self.dtype()),
            ),
    {
        traced(self.inner.sqr(), Ghost(unary(UnaryOp::Sqr, self.expr())))
    }

    /// `candle_core::Tensor::sqrt`: the square root of every entry.
    #[verifier::external_body]
    pub(crate) fn sqrt(&self) -> (r: Result<Traced, ModelError>)
        requires
            is_float(self.dtype()),
        ensures
            produces(r, unary(UnaryOp::Sqrt, self.expr()), self.dims(), self.dtype()),
            succeeds(
                r,
                self.is_local() && has_entries(self.dims()) && has_products(self.dtype()),
            ),
    {
        traced(self.inner.sqrt(), Ghost(unary(UnaryOp::Sqrt, self.expr())))
    }

    /// `candle_core::Tensor::gelu`: the tanh approximation of GELU on every entry.
    #[verifier::external_body]
    pub(crate) fn gelu(&self) -> (r: Result<Traced, ModelError>)
        ensures
            produces(r, unary(UnaryOp::Gelu, self.expr()), self.dims(), self.dtype()),
            succeeds(
                r,
                self.is_local() && has_entries(self.dims()) && has_products(self.dtype()),
            ),
    {
        traced(self.inner.gelu(), Ghost(unary(UnaryOp::Gelu, self.expr())))
    }

    /// `candle_core::Tensor::tanh`: the hyperbolic tangent of every entry.
    #[verifier::external_body]
    pub(crate) fn tanh(&self) -> (r: Result<Traced, ModelError>)
        requires
            is_float(self.dtype()),
        ensures
            produces(r, unary(UnaryOp::Tanh, self.expr()), self.dims(), self.dtype()),
            succeeds(
                r,
                self.is_local() && has_entries(self.dims()) && has_products(self.dtype()),
            ),
    {
        traced(self.inner.tanh(), Ghost(unary(UnaryOp::Tanh, self.expr())))
    }

    /// `candle_core::Tensor::cos`: the cosine of every entry.
    #[verifier::external_body]
    pub(crate) fn cos(&self) -> (r: Result<Traced, ModelError>)
        requires
            is_float(self.dtype()),
        ensures
            produces(r, unary(UnaryOp::Cos, self.expr()), self.dims(), self.dtype()),
            succeeds(
                r,
                self.is_local() && has_entries(self.dims()) && has_products(self.dtype()),
            ),
    {
        traced(self.inner.cos(), Ghost(unary(UnaryOp::Cos, self.expr())))
    }

    /// `candle_core::Tensor::sin`: the sine of every entry.
    #[verifier::external_body]
    pub(crate) fn sin(&self) -> (r: Result<Traced, ModelError>)
        requires
            is_float(self.dtype()),
        ensures
            produces(r, unary(UnaryOp::Sin, self.expr()), self.dims(), self.dtype()),
            succeeds(
                r,
                self.is_local() && has_entries(self.dims()) && has_products(self.dtype()),
            ),
    {
        traced(self.inner.sin(), Ghost(unary(UnaryOp::Sin, self.expr())))
    }

    /// `candle_core::Tensor::recip`: one over every entry.
    #[verifier::external_body]
    pub(crate) fn recip(&self) -> (r: Result<Traced, ModelError>)
        requires
            is_float(self.dtype()),
        ensures
            produces(r, unary(UnaryOp::Recip, self.expr()), self.dims(), self.dtype()),
            succeeds(
                r,
                self.is_local() && has_entries(self.dims()) && has_products(self.dtype()),
            ),
    {
        traced(self.inner.recip(), Ghost(unary(UnaryOp::Recip, self.expr())))
    }

    /// `candle_core::Tensor::contiguous`: the same entries, laid out in order.
    #[verifier::external_body]
    pub(crate) fn contiguous(&self) -> (r: Result<Traced, ModelError>)
        ensures
            produces(r, unary(UnaryOp::Contiguous, self.expr()), self.dims(), self.dtype()),
            succeeds(r, self.is_local() && has_products(self.dtype())),
    {
        traced(self.inner.contiguous(), Ghost(unary(UnaryOp::Contiguous, self.expr())))
    }

    /// `candle_core::Tensor::mean_keepdim` on the last dimension: the mean along it, which is kept
    /// with size one.
    #[verifier::external_body]
    pub(crate) fn mean_last(&self) -> (r: Result<Traced, ModelError>)
        requires
            is_float(self.dtype()),
        ensures
            produces(
                r,
                unary(UnaryOp::MeanLast, self.expr()),
                with_last(self.dims(), 1),
                self.dtype(),
            ),
            succeeds(
                r,
                self.is_local() && self.dims().len() > 0 && has_entries(self.dims())
                    && has_products(self.dtype()),
            ),
            r is Ok ==> self.dims().len() > 0,
    {
        traced(
            self.inner.mean_keepdim(candle_core::D::Minus1),
            Ghost(unary(UnaryOp::MeanLast, self.expr())),
        )
    }

    /// `candle_core::Tensor::sum_keepdim` on the last dimension: the sum along it, which is kept
    /// with size one.
    #[verifier::external_body]
    pub(crate) fn sum_last(&self) -> (r: Result<Traced, ModelError>)
        requires
            is_float(self.dtype()),
        ensures
            produces(
                r,
                unary(UnaryOp::SumLast, self.expr()),
                with_last(self.dims(), 1),
                self.dtype(),
            ),
            succeeds(
                r,
                self.is_local() && self.dims().len() > 0 && has_entries(self.dims())
                    && has_products(self.dtype()),
            ),
            r is Ok ==> self.dims().len() > 0,
    {
        traced(
            self.inner.sum_keepdim(candle_core::D::Minus1),
            Ghost(unary(UnaryOp::SumLast, self.expr())),
        )
    }

    /// `candle_nn::ops::softmax_last_dim`: the softmax along the last dimension, which holds entries.
    #[verifier::external_body]
    pub(crate) fn softmax_last(&self) -> (r: Result<Traced, ModelError>)
        requires
            self.dims().len() > 0,
            self.dims().last() > 0,
        ensures
            produces(r, unary(UnaryOp::SoftmaxLast, self.expr()), self.dims(), self.dtype()),
            succeeds(r, self.is_ready() && has_products(self.dtype())),
    {
        traced(
            candle_nn::ops::softmax_last_dim(&self.inner),
            Ghost(unary(UnaryOp::SoftmaxLast, self.expr())),
        )
    }

    /// `+` of two `candle_core::Tensor`s: the sum, entry by entry; the shapes agree.
    #[verifier::external_body]
    pub(crate) fn plus(&self, rhs: &Traced) -> (r: Result<Traced, ModelError>)
        requires
            is_float(self.dtype()),
        ensures
            produces(
                r,
                binary(BinaryOp::Add, self.expr(), rhs.expr()),
                self.dims(),
                self.dtype(),
            ),
            r is Ok ==> self.dims() == rhs.dims(),
            succeeds(
                r,
                self.is_local() && rhs.is_local() && self.dims() == rhs.dims() && has_entries(
                    self.dims(),
                ) && has_products(self.dtype()) && rhs.dtype() == self.dtype(),
            ),
    {
        traced(&self.inner + &rhs.inner, Ghost(binary(BinaryOp::Add, self.expr(), rhs.expr())))
    }

    /// `*` of two `candle_core::Tensor`s: the product, entry by entry; the shapes agree.
    #[verifier::external_body]
    pub(crate) fn times(&self, rhs: &Traced) -> (r: Result<Traced, ModelError>)
        requires
            is_float(self.dtype()),
        ensures
            produces(
                r,
                binary(BinaryOp::Mul, self.expr(), rhs.expr()),
                self.dims(),
                self.dtype(),
            ),
            r is Ok ==> self.dims() == rhs.dims(),
            succeeds(
                r,
                self.is_local() && rhs.is_local() && self.dims() == rhs.dims() && has_entries(
                    self.dims(),
                ) && has_products(self.dtype()) && rhs.dtype() == self.dtype(),
            ),
    {
        traced(&self.inner * &rhs.inner, Ghost(binary(BinaryOp::Mul, self.expr(), rhs.expr())))
    }

    /// `candle_core::Tensor::broadcast_add`: the sum, entry by entry, after stretching.
    #[verifier::external_body]
    pub(crate) fn broadcast_add(&self, rhs: &Traced) -> (r: Result<Traced, ModelError>)
        requires
            is_float(self.dtype()),
        ensures
            produces(
                r,
                binary(BinaryOp::BroadcastAdd, self.expr(), rhs.expr()),
                broadcast_dims(self.dims(), rhs.dims()),
                self.dtype(),
            ),
            succeeds(
                r,
                self.is_local() && rhs.is_local() && can_broadcast(self.dims(), rhs.dims())
                    && has_entries(self.dims()) && has_entries(rhs.dims()) && has_products(
                    self.dtype(),
                ) && rhs.dtype() == self.dtype(),
            ),
    {
        traced(
            self.inner.broadcast_add(&rhs.inner),
            Ghost(binary(BinaryOp::BroadcastAdd, self.expr(), rhs.expr())),
        )
    }

    /// `candle_core::Tensor::broadcast_mul`: the product, entry by entry, after stretching.
    #[verifier::external_body]
    pub(crate) fn broadcast_mul(&self, rhs: &Traced) -> (r: Result<Traced, ModelError>)
        requires
            is_float(self.dtype()),
        ensures
            produces(
                r,
                binary(BinaryOp::BroadcastMul, self.expr(), rhs.expr()),
                broadcast_dims(self.dims(), rhs.dims()),
                self.dtype(),
            ),
            succeeds(
                r,
                self.is_local() && rhs.is_local() && can_broadcast(self.dims(), rhs.dims())
                    && has_entries(self.dims()) && has_entries(rhs.dims()) && has_products(
                    self.dtype(),
                ) && rhs.dtype() == self.dtype(),
            ),
    {
        traced(
            self.inner.broadcast_mul(&rhs.inner),
            Ghost(binary(BinaryOp::BroadcastMul, self.expr(), rhs.expr())),
        )
    }

    /// `candle_core::Tensor::broadcast_div`: the quotient, entry by entry, after stretching.
    #[verifier::external_body]
    pub(crate) fn broadcast_div(&self, rhs: &Traced) -> (r: Result<Traced, ModelError>)
        requires
            is_float(self.dtype()),
        ensures
            produces(
                r,
                binary(BinaryOp::BroadcastDiv, self.expr(), rhs.expr()),
                broadcast_dims(self.dims(), rhs.dims()),
                self.dtype(),
            ),
            succeeds(
                r,
                self.is_local() && rhs.is_local() && can_broadcast(self.dims(), rhs.dims())
                    && has_entries(self.dims()) && has_entries(rhs.dims()) && has_products(
                    self.dtype(),
                ) && rhs.dtype() == self.dtype(),
            ),
    {
        traced(
            self.inner.broadcast_div(&rhs.inner),
            Ghost(binary(BinaryOp::BroadcastDiv, self.expr(), rhs.expr())),
        )
    }

    /// `candle_core::Tensor::matmul`: the matrix products over the last two dimensions. In main memory
    /// it succeeds on tensors of one element type and two, three or four dimensions that agree on all
    /// but the last two, the inner sizes being equal; of four dimensions the matrices lie at even
    /// distances.
    #[verifier::external_body]
    fn raw_matmul(&self, rhs: &Traced) -> (r: Result<Traced, ModelError>)
        ensures
            produces(
                r,
                binary(BinaryOp::MatMul, self.expr(), rhs.expr()),
                with_last(self.dims(), rhs.dims().last()),
                self.dtype(),
            ),
            r is Ok ==> self.dims().len() >= 2 && self.dims().len() == rhs.dims().len(),
            succeeds(
                r,
                self.is_local() && rhs.is_local() && can_multiply(self.dims(), rhs.dims())
                    && self.is_even() && rhs.is_even() && has_products(self.dtype()) && rhs.dtype()
                    == self.dtype(),
            ),
    {
        traced(
            self.inner.matmul(&rhs.inner),
            Ghost(binary(BinaryOp::MatMul, self.expr(), rhs.expr())),
        )
    }

    /// The matrix products over the last two dimensions.
    pub(crate) fn matmul(&self, rhs: &Traced) -> (r: Result<Traced, ModelError>)
        ensures
            produces(
                r,
                binary(BinaryOp::MatMul, self.expr(), rhs.expr()),
                with_last(self.dims(), rhs.dims().last()),
                self.dtype(),
            ),
            r is Ok ==> self.dims().len() >= 2 && self.dims().len() == rhs.dims().len(),
            succeeds(
                r,
                self.is_local() && rhs.is_local() && can_multiply(self.dims(), rhs.dims()) && (
                self.is_ordered() || self.is_even()) && (rhs.is_ordered() || rhs.is_even())
                    && has_products(self.dtype()) && rhs.dtype() == self.dtype(),
            ),
    {
        proof {
            if self.is_ordered() {
                lemma_even(self.dims(), self.strides());
            }
            if rhs.is_ordered() {
                lemma_even(rhs.dims(), rhs.strides());
            }
        }
        self.raw_matmul(rhs)
    }

    /// `+` of a `candle_core::Tensor` and an `f64`: the number added to every entry.
    #[verifier::external_body]
    pub(crate) fn plus_number(&self, rhs: &Number) -> (r: Result<Traced, ModelError>)
        requires
            is_float(self.dtype()),
        ensures
            produces(
                r,
                with_number(NumberOp::Add, self.expr(), rhs.expr()),
                self.dims(),
                self.dtype(),
            ),
            succeeds(
                r,
                self.is_local() && has_entries(self.dims()) && has_products(self.dtype()),
            ),
    {
        traced(
            &self.inner + rhs.inner.to_f64(),
            Ghost(with_number(NumberOp::Add, self.expr(), rhs.expr())),
        )
    }

    /// `*` of a `candle_core::Tensor` and an `f64`: every entry times the number.
    #[verifier::external_body]
    pub(crate) fn times_number(&self, rhs: &Number) -> (r: Result<Traced, ModelError>)
        requires
            is_float(self.dtype()),
        ensures
            produces(
                r,
                with_number(NumberOp::Mul, self.expr(), rhs.expr()),
                self.dims(),
                self.dtype(),
            ),
            succeeds(
                r,
                self.is_local() && has_entries(self.dims()) && has_products(self.dtype()),
            ),
    {
        traced(
            &self.inner * rhs.inner.to_f64(),
            Ghost(with_number(NumberOp::Mul, self.expr(), rhs.expr())),
        )
    }

    /// `/` of a `candle_core::Tensor` and an `f64`: every entry divided by the number.
    #[verifier::external_body]
    pub(crate) fn over_number(&self, rhs: &Number) -> (r: Result<Traced, ModelError>)
        requires
            is_float(self.dtype()),
        ensures
            produces(
                r,
                with_number(NumberOp::Div, self.expr(), rhs.expr()),
                self.dims(),
                self.dtype(),
            ),
            succeeds(
                r,
                self.is_local() && has_entries(self.dims()) && has_products(self.dtype()),
            ),
    {
        traced(
            &self.inner / rhs.inner.to_f64(),
            Ghost(with_number(NumberOp::Div, self.expr(), rhs.expr())),
        )
    }

    /// `candle_core::Tensor::powf`: every entry to the power of the number.
    #[verifier::external_body]
    pub(crate) fn to_the_power(&self, rhs: &Number) -> (r: Result<Traced, ModelError>)
        ensures
            produces(
                r,
                with_number(NumberOp::Pow, self.expr(), rhs.expr()),
                self.dims(),
                self.dtype(),
            ),
            succeeds(
                r,
                self.is_local() && has_entries(self.dims()) && has_products(self.dtype()),
            ),
    {
        traced(
            self.inner.powf(rhs.inner.to_f64()),
            Ghost(with_number(NumberOp::Pow, self.expr(), rhs.expr())),
        )
    }

    /// `candle_core::Tensor::to_dtype`: the entries cast to another element type; to their own, they
    /// stay as they are.
    #[verifier::external_body]
    pub(crate) fn to_dtype(&self, dtype: candle_core::DType) -> (r: Result<Traced, ModelError>)
        ensures
            produces(r, cast(self.expr(), dtype), self.dims(), dtype),
            r matches Ok(t) ==> self.dtype() == dtype ==> t.words() == self.words(),
            r matches Ok(t) ==> t.device() == self.device(),
            r matches Ok(t) ==> self.is_ordered() || self.dtype() != dtype ==> t.is_ordered(),
            self.is_local() && can_cast(self.dtype(), dtype) ==> r is Ok,
    {
        traced(self.inner.to_dtype(dtype), Ghost(cast(self.expr(), dtype)))
    }

    /// `candle_core::Tensor::transpose`: two dimensions swapped, and the distances with them. It
    /// succeeds on every device as long as the tensor has the dimensions.
    #[verifier::external_body]
    fn raw_transpose(&self, dim1: usize, dim2: usize) -> (r: Result<Traced, ModelError>)
        ensures
            produces(
                r,
                transposed(self.expr(), dim1 as nat, dim2 as nat),
                swapped_dims(self.dims(), dim1 as int, dim2 as int),
                self.dtype(),
            ),
            r is Ok == (dim1 < self.dims().len() && dim2 < self.dims().len()),
            r matches Ok(t) ==> t.device() == self.device() && t.strides() == swapped_dims(
                self.strides(),
                dim1 as int,
                dim2 as int,
            ),
    {
        traced(
            self.inner.transpose(dim1, dim2),
            Ghost(transposed(self.expr(), dim1 as nat, dim2 as nat)),
        )
    }

    /// Two dimensions swapped. The matrices of an ordered tensor, transposed, lie where they lay.
    pub(crate) fn transpose(&self, dim1: usize, dim2: usize) -> (r: Result<Traced, ModelError>)
        ensures
            produces(
                r,
                transposed(self.expr(), dim1 as nat, dim2 as nat),
                swapped_dims(self.dims(), dim1 as int, dim2 as int),
                self.dtype(),
            ),
            r is Ok == (dim1 < self.dims().len() && dim2 < self.dims().len()),
            r matches Ok(t) ==> t.device() == self.device() && (self.is_ordered() && dim1 >= 2
                && dim2 >= 2 ==> t.is_even()) && (t.dims().len() < 4 && (self.is_ordered()
                || self.is_even()) ==> t.is_even()),
    {
        proof {
            if self.is_ordered() {
                lemma_even(self.dims(), self.strides());
            }
        }
        self.raw_transpose(dim1, dim2)
    }

    /// `candle_core::Tensor::narrow`: `len` indices of a dimension, from `start` on; the distances stay.
    /// It succeeds on every device as long as the tensor has the indices.
    #[verifier::external_body]
    fn raw_narrow(&self, dim: usize, start: usize, len: usize) -> (r: Result<Traced, ModelError>)
        ensures
            produces(
                r,
                narrowed(self.expr(), dim as nat, start as nat, len as nat),
                self.dims().update(dim as int, len),
                self.dtype(),
            ),
            r is Ok == (dim < self.dims().len() && start + len <= self.dims()[dim as int]),
            r matches Ok(t) ==> t.device() == self.device() && t.strides() == self.strides(),
    {
        traced(
            self.inner.narrow(dim, start, len),
            Ghost(narrowed(self.expr(), dim as nat, start as nat, len as nat)),
        )
    }

    /// `len` indices of a dimension, from `start` on. Of an ordered tensor's outermost dimension, they
    /// lie in order too.
    pub(crate) fn narrow(&self, dim: usize, start: usize, len: usize) -> (r: Result<
        Traced,
        ModelError,
    >)
        ensures
            produces(
                r,
                narrowed(self.expr(), dim as nat, start as nat, len as nat),
                self.dims().update(dim as int, len),
                self.dtype(),
            ),
            r is Ok == (dim < self.dims().len() && start + len <= self.dims()[dim as int]),
            r matches Ok(t) ==> t.device() == self.device() && (dim == 0 && self.is_ordered()
                ==> t.is_ordered()),
    {
        let r = self.raw_narrow(dim, start, len);
        proof {
            if dim == 0 && r is Ok && self.is_ordered() {
                let t = r->Ok_0;
                assert forall|i: int| 0 <= i < t.dims().len() && t.dims()[i] > 1 implies (
                #[trigger] t.strides()[i]) == count_of(t.dims().skip(i + 1)) by {
                    assert(t.dims().skip(i + 1) =~= self.dims().skip(i + 1));
                    assert(self.strides()[i] == count_of(self.dims().skip(i + 1)));
                }
                assert(t.is_ordered());
            }
        }
        r
    }

    /// `candle_core::Tensor::get_on_dim`: one index of a dimension, that dimension being dropped. It
    /// succeeds on every device as long as the tensor has the index.
    #[verifier::external_body]
    fn raw_get_on_dim(&self, dim: usize, index: usize) -> (r: Result<Traced, ModelError>)
        ensures
            produces(
                r,
                selected(self.expr(), dim as nat, index as nat),
                self.dims().remove(dim as int),
                self.dtype(),
            ),
            r is Ok == (dim < self.dims().len() && index < self.dims()[dim as int]),
            r matches Ok(t) ==> t.device() == self.device() && t.strides() == self.strides().remove(
                dim as int,
            ),
    {
        traced(
            self.inner.get_on_dim(dim, index),
            Ghost(selected(self.expr(), dim as nat, index as nat)),
        )
    }

    /// One index of a dimension, that dimension being dropped.
    pub(crate) fn get_on_dim(&self, dim: usize, index: usize) -> (r: Result<Traced, ModelError>)
        ensures
            produces(
                r,
                selected(self.expr(), dim as nat, index as nat),
                self.dims().remove(dim as int),
                self.dtype(),
            ),
            r is Ok == (dim < self.dims().len() && index < self.dims()[dim as int]),
            r matches Ok(t) ==> t.device() == self.device() && (self.is_ordered() && t.dims().len() < 4
                ==> t.is_even()),
    {
        self.raw_get_on_dim(dim, index)
    }

    /// `candle_core::Tensor::reshape`: the same entries, in order, in another shape; the counts agree.
    #[verifier::external_body]
    fn raw_reshape(&self, dims: &Vec<usize>) -> (r: Result<Traced, ModelError>)
        requires
            countable(dims@),
        ensures
            produces(r, reshaped(self.expr(), dims@), dims@, self.dtype()),
            succeeds(
                r,
                self.is_local() && count_of(dims@) == count_of(self.dims()) && (has_products(
                    self.dtype(),
                ) || self.is_ordered()),
            ),
    {
        traced(self.inner.reshape(dims.as_slice()), Ghost(reshaped(self.expr(), dims@)))
    }

    /// The same entries in another shape.
    pub(crate) fn reshape(&self, dims: &Vec<usize>) -> (r: Result<Traced, ModelError>)
        ensures
            r matches Ok(t) ==> t.expr() == reshaped(self.expr(), dims@) && t.dims() == dims@
                && t.dtype() == self.dtype(),
            r matches Err(e) ==> e is Candle || (e is ShapeTooLarge && !countable(dims@)),
            succeeds(
                r,
                self.is_local() && countable(dims@) && count_of(dims@) == count_of(self.dims()) && (
                has_products(self.dtype()) || self.is_ordered()),
            ),
    {
        match checked_count(dims) {
            Some(_) => self.raw_reshape(dims),
            None => Err(ModelError::ShapeTooLarge),
        }
    }

    /// `candle_core::Tensor::expand`: the entries stretched to a shape. Where the new shape only
    /// puts dimensions in front of the old one, the entries of an `F32` tensor come round again
    /// and again in order, and the call succeeds on every device.
    #[verifier::external_body]
    fn raw_expand(&self, dims: &Vec<usize>) -> (r: Result<Traced, ModelError>)
        requires
            countable(dims@),
        ensures
            produces(r, Expr::Expand(Box::new(self.expr()), dims@), dims@, self.dtype()),
            self.dims().is_suffix_of(dims@) ==> r is Ok,
            r matches Ok(t) ==> t.device() == self.device(),
            r matches Ok(t) ==> self.dtype() == candle_core::DType::F32 && self.dims().is_suffix_of(
                dims@,
            ) ==> t.words().len() == count_of(dims@) && forall|i: int|
                0 <= i < t.words().len() ==> #[trigger] t.words()[i] == self.words()[i
                    % count_of(self.dims()) as int],
    {
        traced(
            self.inner.expand(dims.as_slice()),
            Ghost(Expr::Expand(Box::new(self.expr()), dims@)),
        )
    }

    /// The entries stretched to a shape.
    pub(crate) fn expand(&self, dims: &Vec<usize>) -> (r: Result<Traced, ModelError>)
        ensures
            r matches Ok(t) ==> t.expr() == Expr::Expand(Box::new(self.expr()), dims@) && t.dims()
                == dims@ && t.dtype() == self.dtype() && t.device() == self.device(),
            self.dims().is_suffix_of(dims@) && countable(dims@) ==> r is Ok,
            r matches Ok(t) ==> self.dtype() == candle_core::DType::F32 && self.dims().is_suffix_of(
                dims@,
            ) ==> t.words().len() == count_of(dims@) && forall|i: int|
                0 <= i < t.words().len() ==> #[trigger] t.words()[i] == self.words()[i
                    % count_of(self.dims()) as int],
            r matches Err(e) ==> e is Candle || (e is ShapeTooLarge && !countable(dims@)),
    {
        match checked_count(dims) {
            Some(_) => self.raw_expand(dims),
            None => Err(ModelError::ShapeTooLarge),
        }
    }

    /// `candle_nn::rotary_emb::rope`: the rotary embedding with these cosines and sines. Of a tensor
    /// of four dimensions the last two hold entries.
    #[verifier::external_body]
    pub(crate) fn rope(&self, cos: &Traced, sin: &Traced) -> (r: Result<Traced, ModelError>)
        requires
            self.dims().len() == 4 ==> self.dims()[2] > 0 && self.dims()[3] > 0,
        ensures
            produces(r, roped(self.expr(), cos.expr(), sin.expr()), self.dims(), self.dtype()),
            succeeds(
                r,
                self.is_ready() && cos.is_ready() && sin.is_ready() && has_products(self.dtype())
                    && cos.dtype() == self.dtype() && sin.dtype() == self.dtype() && can_rope(
                    self.dims(),
                    cos.dims(),
                    sin.dims(),
                ),
            ),
    {
        traced(
            candle_nn::rotary_emb::rope(&self.inner, &cos.inner, &sin.inner),
            Ghost(roped(self.expr(), cos.expr(), sin.expr())),
        )
    }

    /// `candle_core::Tensor::cat`: the tensors one after the other along a dimension. They have one
    /// element type, and agree on every other dimension. Of two `F32` tables side by side, each row
    /// is a row of the first and then one of the second. Tensors in main memory that fit can always be
    /// joined, ordered ones to an ordered one.
    #[verifier::external_body]
    fn raw_cat(parts: &Vec<Traced>, dim: usize) -> (r: Result<Traced, ModelError>)
        requires
            parts@.len() == 1 ==> dim < parts@[0].dims().len(),
            all_have(parts@, dim as int) ==> total_dim(parts@, dim as int) <= usize::MAX,
        ensures
            produces(
                r,
                Expr::Cat(exprs(parts@), dim as nat),
                parts@[0].dims().update(dim as int, total_dim(parts@, dim as int) as usize),
                parts@[0].dtype(),
            ),
            r is Ok ==> parts@.len() > 0 && all_have(parts@, dim as int) && forall|i: int|
                0 <= i < parts@.len() ==> (#[trigger] parts@[i]).dtype() == parts@[0].dtype()
                    && parts@[i].dims().len() == parts@[0].dims().len()
                    && parts@[i].dims().update(dim as int, 0) == parts@[0].dims().update(
                    dim as int,
                    0,
                ),
            r matches Ok(t) ==> are_two_tables(parts@) && dim == 1 ==> t.words() == side_by_side(
                parts@[0].words(),
                parts@[1].words(),
                parts@[0].dims()[0] as int,
                parts@[0].dims()[1] as int,
                parts@[1].dims()[1] as int,
            ),
            can_cat(parts@, dim as int) ==> r is Ok,
            r matches Ok(t) ==> can_cat(parts@, dim as int) ==> t.is_local(),
            r matches Ok(t) ==> all_ordered(parts@) ==> t.is_ordered(),
    {
        let inners: Vec<&candle_core::Tensor> = parts.iter().map(|t| &t.inner).collect();
        traced(
            candle_core::Tensor::cat(&inners, dim),
            Ghost(Expr::Cat(exprs(parts@), dim as nat)),
        )
    }

    /// The tensors one after the other along a dimension.
    pub(crate) fn cat(parts: &Vec<Traced>, dim: usize) -> (r: Result<Traced, ModelError>)
        requires
            parts@.len() == 1 ==> dim < parts@[0].dims().len(),
        ensures
            r matches Ok(t) ==> t.expr() == Expr::Cat(exprs(parts@), dim as nat) && parts@.len() > 0
                && total_dim(parts@, dim as int) <= usize::MAX && t.dims()
                == parts@[0].dims().update(dim as int, total_dim(parts@, dim as int) as usize)
                && t.dtype() == parts@[0].dtype() && all_have(parts@, dim as int),
            r is Ok ==> forall|i: int|
                0 <= i < parts@.len() ==> (#[trigger] parts@[i]).dtype() == parts@[0].dtype()
                    && parts@[i].dims().len() == parts@[0].dims().len()
                    && parts@[i].dims().update(dim as int, 0) == parts@[0].dims().update(
                    dim as int,
                    0,
                ),
            r matches Ok(t) ==> are_two_tables(parts@) && dim == 1 ==> t.words() == side_by_side(
                parts@[0].words(),
                parts@[1].words(),
                parts@[0].dims()[0] as int,
                parts@[0].dims()[1] as int,
                parts@[1].dims()[1] as int,
            ),
            r matches Err(e) ==> e is Candle || (e is ShapeTooLarge && all_have(
                parts@,
                dim as int,
            ) && total_dim(parts@, dim as int) > usize::MAX),
            can_cat(parts@, dim as int) && total_dim(parts@, dim as int) <= usize::MAX ==> (r matches
                Ok(t) && t.is_local()),
            r matches Ok(t) ==> all_ordered(parts@) ==> t.is_ordered(),
    {
        if !check_all_have(parts, dim) {
            return Traced::raw_cat(parts, dim);
        }
        let mut total: usize = 0;
        let mut i: usize = 0;
        while i < parts.len()
            invariant
                i <= parts@.len(),
                all_have(parts@, dim as int),
                total == total_dim(parts@.take(i as int), dim as int),
            decreases parts@.len() - i,
        {
            let dims = parts[i].shape();
            assert(parts@.take(i + 1).drop_last() =~= parts@.take(i as int));
            match total.checked_add(dims[dim]) {
                Some(sum) => {
                    total = sum;
                },
                None => {
                    proof {
                        lemma_total_prefix(parts@, i + 1, dim as int);
                    }
                    return Err(ModelError::ShapeTooLarge);
                },
            }
            i = i + 1;
        }
        assert(parts@.take(i as int) =~= parts@);
        Traced::raw_cat(parts, dim)
    }

    /// `candle_core::Tensor::zeros`: a tensor of zeros.
    #[verifier::external_body]
    fn raw_zeros(dims: &Vec<usize>, dtype: candle_core::DType, device: &candle_core::Device) -> (r:
        Result<Traced, ModelError>)
        requires
            countable(dims@),
        ensures
            produces(r, Expr::Zeros { dims: dims@, dtype, device: *device }, dims@, dtype),
            succeeds(r, is_main_memory(*device) && has_products(dtype)),
            r matches Ok(t) ==> dtype == candle_core::DType::F32 ==> t.words() == Seq::new(
                count_of(dims@),
                |i: int| 0u32,
            ),
    {
        traced(
            candle_core::Tensor::zeros(dims.as_slice(), dtype, device),
            Ghost(Expr::Zeros { dims: dims@, dtype, device: *device }),
        )
    }

    /// A tensor of zeros.
    pub(crate) fn zeros(
        dims: &Vec<usize>,
        dtype: candle_core::DType,
        device: &candle_core::Device,
    ) -> (r: Result<Traced, ModelError>)
        ensures
            r matches Ok(t) ==> t.expr() == (Expr::Zeros { dims: dims@, dtype, device: *device })
                && t.dims() == dims@ && t.dtype() == dtype,
            r matches Ok(t) ==> dtype == candle_core::DType::F32 ==> t.words() == Seq::new(
                count_of(dims@),
                |i: int| 0u32,
            ),
            r matches Err(e) ==> e is Candle || (e is ShapeTooLarge && !countable(dims@)),
            succeeds(r, is_main_memory(*device) && has_products(dtype) && countable(dims@)),
    {
        match checked_count(dims) {
            Some(_) => Traced::raw_zeros(dims, dtype, device),
            None => Err(ModelError::ShapeTooLarge),
        }
    }

    /// `candle_core::Tensor::arange` from `0u32`: the counts below `end`, in order.
    #[verifier::external_body]
    pub(crate) fn counts(end: u32, device: &candle_core::Device) -> (r: Result<Traced, ModelError>)
        ensures
            produces(
                r,
                Expr::Counts { end, device: *device },
                seq![end as usize],
                candle_core::DType::U32,
            ),
            succeeds(r, is_main_memory(*device)),
    {
        traced(
            candle_core::Tensor::arange(0u32, end, device),
            Ghost(Expr::Counts { end, device: *device }),
        )
    }

    /// A tensor with these entries, given as `F32` bit patterns, the last dimension running fastest.
    pub(crate) fn from_words(
        words: &Vec<u32>,
        dims: &Vec<usize>,
        device: &candle_core::Device,
    ) -> (r: Result<Traced, ModelError>)
        requires
            words@.len() == count_of(dims@),
            countable(dims@),
        ensures
            r matches Ok(t) ==> t.expr() == (Expr::Words {
                dims: dims@,
                words: words@,
                device: *device,
            }) && t.dims() == dims@ && t.dtype() == candle_core::DType::F32 && t.device()
                == *device && t.words() == words@,
            r matches Err(e) ==> e is Candle,
            succeeds(r, is_main_memory(*device)),
    {
        match raw_from_words(words, dims, device) {
            Ok(inner) => Ok(
                Traced {
                    inner,
                    expr: Ghost(
                        Expr::Words { dims: dims@, words: words@, device: *device },
                    ),
                },
            ),
            Err(e) => Err(ModelError::Candle(e)),
        }
    }

    /// The bit patterns of the entries of an `F32` tensor, the last dimension running fastest.
    pub(crate) fn to_words(&self) -> (r: Result<Vec<u32>, ModelError>)
        requires
            self.dtype() == candle_core::DType::F32,
        ensures
            r matches Ok(words) ==> words@ == self.words() && words@.len() == count_of(self.dims()),
            r matches Err(e) ==> e is Candle,
            self.is_local() ==> r is Ok,
    {
        match raw_bytes(&self.inner) {
            Ok(bytes) => Ok(from_bytes(&bytes)),
            Err(e) => Err(ModelError::Candle(e)),
        }
    }

    /// The two sizes of a tensor with two dimensions.
    pub fn dims2(&self) -> (r: Result<(usize, usize), ModelError>)
        ensures
            self.dims().len() == 2 ==> r == Ok::<(usize, usize), ModelError>(
                (self.dims()[0], self.dims()[1]),
            ),
            self.dims().len() != 2 ==> r == Err::<(usize, usize), ModelError>(
                ModelError::Rank { expected: 2, got: self.dims().len() as usize },
            ),
    {
        let dims = self.shape();
        if dims.len() == 2 {
            Ok((dims[0], dims[1]))
        } else {
            Err(ModelError::Rank { expected: 2, got: dims.len() })
        }
    }

    /// The three sizes of a tensor with three dimensions.
    pub fn dims3(&self) -> (r: Result<(usize, usize, usize), ModelError>)
        ensures
            self.dims().len() == 3 ==> r == Ok::<(usize, usize, usize), ModelError>(
                (self.dims()[0], self.dims()[1], self.dims()[2]),
            ),
            self.dims().len() != 3 ==> r == Err::<(usize, usize, usize), ModelError>(
                ModelError::Rank { expected: 3, got: self.dims().len() as usize },
            ),
    {
        let dims = self.shape();
        if dims.len() == 3 {
            Ok((dims[0], dims[1], dims[2]))
        } else {
            Err(ModelError::Rank { expected: 3, got: dims.len() })
        }
    }
}

/// The entries of every one of a list of tensors lie in order.
pub open spec fn all_ordered(parts: Seq<Traced>) -> bool {
    forall|i: int| 0 <= i < parts.len() ==> (#[trigger] parts[i]).is_ordered()
}

/// Tensors can be joined along a dimension: there is one at least, they lie in main memory, have one
/// element type, and agree on every other dimension.
pub open spec fn can_cat(parts: Seq<Traced>, dim: int) -> bool {
    &&& parts.len() > 0
    &&& has_products(parts[0].dtype())
    &&& forall|i: int|
        0 <= i < parts.len() ==> {
            &&& (#[trigger] parts[i]).is_local()
            &&& parts[i].dtype() == parts[0].dtype()
            &&& parts[i].dims().len() == parts[0].dims().len()
            &&& dim < parts[i].dims().len()
            &&& parts[i].dims().update(dim, 0) == parts[0].dims().update(dim, 0)
        }
}

/// Matrices of these shapes can be multiplied: two, three or four dimensions, which agree but for the
/// last two, the columns of the first being as many as the rows of the second.
pub open spec fn can_multiply(a: Seq<usize>, b: Seq<usize>) -> bool {
    &&& 2 <= a.len() <= 4
    &&& b.len() == a.len()
    &&& forall|i: int| 0 <= i < a.len() - 2 ==> #[trigger] a[i] == b[i]
    &&& a[a.len() - 1] == b[b.len() - 2]
}

/// Heads of this shape can be rotated with tables of these shapes.
pub open spec fn can_rope(dims: Seq<usize>, cos: Seq<usize>, sin: Seq<usize>) -> bool {
    &&& dims.len() == 4
    &&& has_entries(dims)
    &&& cos.len() == 2
    &&& sin == cos
    &&& dims[2] <= cos[0]
    &&& 2 * cos[1] == dims[3]
}

/// The matrices of an ordered tensor lie at even distances.
proof fn lemma_even(dims: Seq<usize>, strides: Seq<usize>)
    requires
        in_order(dims, strides),
    ensures
        are_even(dims, strides),
{
    if dims.len() == 4 && dims[0] > 1 && dims[1] > 1 {
        reveal_with_fuel(count_of, 4);
        let (a, b) = (dims.skip(1), dims.skip(2));
        assert(strides[0] == count_of(dims.skip(1)));
        assert(strides[1] == count_of(dims.skip(2)));
        assert(b.drop_last() =~= seq![dims[2]]);
        assert(b.drop_last().drop_last() =~= Seq::<usize>::empty());
        assert(a.drop_last() =~= seq![dims[1], dims[2]]);
        assert(a.drop_last().drop_last() =~= seq![dims[1]]);
        assert(a.drop_last().drop_last().drop_last() =~= Seq::<usize>::empty());
        assert(count_of(b) == (1 * dims[2] as nat) * dims[3] as nat);
        assert(count_of(a) == ((1 * dims[1] as nat) * dims[2] as nat) * dims[3] as nat);
        let (x, y, z) = (dims[1] as nat, dims[2] as nat, dims[3] as nat);
        assert(((1 * x) * y) * z == ((1 * y) * z) * x) by (nonlinear_arith);
    }
}

/// Two `F32` tables.
pub open spec fn are_two_tables(parts: Seq<Traced>) -> bool {
    parts.len() == 2 && forall|i: int|
        0 <= i < 2 ==> (#[trigger] parts[i]).dims().len() == 2 && parts[i].dtype()
            == candle_core::DType::F32
}

/// The entries of two tables of `rows` rows side by side, of `a_cols` and `b_cols` columns.
pub open spec fn side_by_side(
    a: Seq<u32>,
    b: Seq<u32>,
    rows: int,
    a_cols: int,
    b_cols: int,
) -> Seq<u32> {
    Seq::new(
        (rows * (a_cols + b_cols)) as nat,
        |n: int|
            {
                let row = n / (a_cols + b_cols);
                let col = n % (a_cols + b_cols);
                if col < a_cols {
                    a[row * a_cols + col]
                } else {
                    b[row * b_cols + (col - a_cols)]
                }
            },
    )
}

/// Every one of a list of tensors has a dimension.
pub open spec fn all_have(parts: Seq<Traced>, dim: int) -> bool {
    forall|i: int| 0 <= i < parts.len() ==> dim < (#[trigger] parts[i]).dims().len()
}

/// Whether every one of a list of tensors has a dimension.
fn check_all_have(parts: &Vec<Traced>, dim: usize) -> (r: bool)
    ensures
        r == all_have(parts@, dim as int),
{
    let mut i: usize = 0;
    while i < parts.len()
        invariant
            i <= parts@.len(),
            forall|j: int| 0 <= j < i ==> dim < (#[trigger] parts@[j]).dims().len(),
        decreases parts@.len() - i,
    {
        if dim >= parts[i].shape().len() {
            return false;
        }
        i = i + 1;
    }
    true
}

/// More tensors have no less of a dimension.
proof fn lemma_total_prefix(parts: Seq<Traced>, k: int, dim: int)
    requires
        0 <= k <= parts.len(),
    ensures
        total_dim(parts.take(k), dim) <= total_dim(parts, dim),
    decreases parts.len() - k,
{
    if k == parts.len() {
        assert(parts.take(k) =~= parts);
    } else {
        lemma_total_prefix(parts, k + 1, dim);
        assert(parts.take(k + 1).drop_last() =~= parts.take(k));
    }
}

/// The sizes of a dimension that is alike over a list of tensors, added up.
pub proof fn lemma_total_alike(parts: Seq<Traced>, dim: int, size: nat)
    requires
        forall|i: int| 0 <= i < parts.len() ==> (#[trigger] parts[i]).dims()[dim] == size,
    ensures
        total_dim(parts, dim) == parts.len() * size,
    decreases parts.len(),
{
    if parts.len() > 0 {
        assert forall|i: int| 0 <= i < parts.drop_last().len() implies (
        #[trigger] parts.drop_last()[i]).dims()[dim] == size by {
            assert(parts.drop_last()[i] == parts[i]);
        }
        lemma_total_alike(parts.drop_last(), dim, size);
        assert(parts.last() == parts[parts.len() - 1]);
        assert(parts.len() * size == (parts.len() - 1) * size + size) by (nonlinear_arith)
            requires
                parts.len() > 0,
        ;
    }
}

/// The record of a rotary embedding.
pub open spec fn roped(of: Expr, cos: Expr, sin: Expr) -> Expr {
    Expr::Rope { of: Box::new(of), cos: Box::new(cos), sin: Box::new(sin) }
}

/// Where a shape holds entries, cutting off trailing dimensions leaves no more of them.
pub proof fn lemma_count_of_prefix(dims: Seq<usize>, k: int)
    requires
        0 <= k <= dims.len(),
        count_of(dims) > 0,
    ensures
        0 < count_of(dims.take(k)) <= count_of(dims),
    decreases dims.len(),
{
    if k == dims.len() {
        assert(dims.take(k) =~= dims);
    } else {
        let rest = count_of(dims.drop_last());
        let last = dims.last() as nat;
        assert(0 < rest <= rest * last) by (nonlinear_arith)
            requires
                rest * last > 0,
                rest >= 0,
                last >= 0,
        ;
        lemma_count_of_prefix(dims.drop_last(), k);
        assert(dims.drop_last().take(k) =~= dims.take(k));
    }
}

/// One dimension can always be counted.
pub proof fn lemma_countable_1(n: usize)
    ensures
        countable(seq![n]),
        count_of(seq![n]) == n,
{
    reveal_with_fuel(count_of, 2);
    let dims = seq![n];
    assert(dims.drop_last() =~= Seq::<usize>::empty());
    assert(dims.last() == n);
    assert(count_of(dims.drop_last()) == 1);
    assert(count_of(dims) == 1 * n as nat);
    assert(count_of(dims) == n);
    assert forall|k: int| 0 <= k <= 1 implies #[trigger] count_of(dims.take(k)) <= usize::MAX by {
        if k == 1 {
            assert(dims.take(1) =~= dims);
        } else {
            assert(dims.take(0) =~= Seq::<usize>::empty());
        }
    }
}

/// Two dimensions can be counted where their product can.
pub proof fn lemma_countable_2(a: usize, b: usize)
    requires
        a * b <= usize::MAX,
    ensures
        countable(seq![a, b]),
        count_of(seq![a, b]) == a * b,
{
    lemma_countable_1(a);
    let (one, dims) = (seq![a], seq![a, b]);
    assert(dims.drop_last() =~= one);
    assert(count_of(dims) == a * b);
    assert forall|k: int| 0 <= k <= 2 implies #[trigger] count_of(dims.take(k)) <= usize::MAX by {
        if k == 2 {
            assert(dims.take(2) =~= dims);
        } else {
            assert(dims.take(k) =~= one.take(k));
            assert(count_of(one.take(k)) <= usize::MAX);
        }
    }
}

/// The number of entries of two dimensions.
pub proof fn lemma_count_2(a: usize, b: usize)
    ensures
        count_of(seq![a, b]) == a * b,
{
    lemma_countable_1(a);
    assert(seq![a, b].drop_last() =~= seq![a]);
}

/// The number of entries of three dimensions.
pub proof fn lemma_count_3(a: usize, b: usize, c: usize)
    ensures
        count_of(seq![a, b, c]) == a * b * c,
{
    reveal_with_fuel(count_of, 4);
    let dims = seq![a, b, c];
    assert(dims.drop_last() =~= seq![a, b]);
    assert(dims.drop_last().drop_last() =~= seq![a]);
    assert(dims.drop_last().drop_last().drop_last() =~= Seq::<usize>::empty());
    assert(count_of(dims) == ((1 * a as nat) * b as nat) * c as nat);
    assert(((1 * a as nat) * b as nat) * c as nat == a * b * c) by (nonlinear_arith);
}

/// The number of entries of four dimensions.
pub proof fn lemma_count_4(a: usize, b: usize, c: usize, d: usize)
    ensures
        count_of(seq![a, b, c, d]) == a * b * c * d,
{
    lemma_count_3(a, b, c);
    let dims = seq![a, b, c, d];
    assert(dims.drop_last() =~= seq![a, b, c]);
    assert(count_of(dims) == count_of(seq![a, b, c]) * d as nat);
}

/// Dimensions that hold entries can be counted where their product can.
pub proof fn lemma_countable(dims: Seq<usize>)
    requires
        0 < count_of(dims) <= usize::MAX,
    ensures
        countable(dims),
{
    assert forall|k: int| 0 <= k <= dims.len() implies #[trigger] count_of(dims.take(k))
        <= usize::MAX by {
        lemma_count_of_prefix(dims, k);
    }
}

/// The number of entries of a tensor of this shape, where `usize` can count them.
pub(crate) fn checked_count(dims: &Vec<usize>) -> (r: Option<usize>)
    ensures
        match r {
            Some(n) => n == count_of(dims@) && countable(dims@),
            None => !countable(dims@),
        },
{
    let mut n: usize = 1;
    let mut i: usize = 0;
    while i < dims.len()
        invariant
            i <= dims@.len(),
            n == count_of(dims@.take(i as int)),
            forall|k: int| 0 <= k <= i ==> #[trigger] count_of(dims@.take(k)) <= usize::MAX,
        decreases dims@.len() - i,
    {
        assert(dims@.take(i + 1).drop_last() =~= dims@.take(i as int));
        match n.checked_mul(dims[i]) {
            Some(m) => {
                n = m;
            },
            None => {
                assert(count_of(dims@.take(i + 1)) > usize::MAX);
                return None;
            },
        }
        i = i + 1;
    }
    assert(dims@.take(i as int) =~= dims@);
    Some(n)
}

/// The words of bytes, the least significant byte of each first.
fn from_bytes(bytes: &Vec<u8>) -> (r: Vec<u32>)
    ensures
        r@ == words_of(bytes@),
{
    let len: usize = bytes.len();
    let n: usize = len / 4;
    let mut words: Vec<u32> = Vec::new();
    let mut i: usize = 0;
    while i < n
        invariant
            i <= n,
            len == bytes@.len(),
            n == len / 4,
            words@ == words_of(bytes@).take(i as int),
        decreases n - i,
    {
        let word = vstd::bytes::u32_from_le_bytes(
            vstd::slice::slice_subrange(bytes.as_slice(), 4 * i, 4 * i + 4),
        );
        words.push(word);
        i = i + 1;
        assert(words@ =~= words_of(bytes@).take(i as int));
    }
    assert(words_of(bytes@).take(i as int) =~= words_of(bytes@));
    words
}

/// The entries of a shape are those of its first dimensions times those of its last ones; a single
/// dimension has as many as its size.
pub proof fn law_counts_multiply(a: Seq<usize>, b: Seq<usize>, n: usize)
    ensures
        count_of(a + b) == count_of(a) * count_of(b),
        count_of(seq![n]) == n,
        count_of(Seq::<usize>::empty()) == 1,
    decreases b.len(),
{
    if b.len() == 0 {
        assert(a + b =~= a);
        assert(count_of(b) == 1);
        assert(count_of(a) * 1 == count_of(a)) by (nonlinear_arith);
    } else {
        law_counts_multiply(a, b.drop_last(), n);
        assert((a + b).drop_last() =~= a + b.drop_last());
        assert((a + b).last() == b.last());
        let (x, y, z) = (count_of(a), count_of(b.drop_last()), b.last() as nat);
        assert((x * y) * z == x * (y * z)) by (nonlinear_arith);
    }
    reveal_with_fuel(count_of, 2);
    assert(seq![n].drop_last() =~= Seq::<usize>::empty());
    assert(count_of(seq![n].drop_last()) == 1);
    assert(seq![n].last() == n);
    assert(1 * n as nat == n as nat);
}

} // verus!
