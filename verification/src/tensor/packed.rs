//! Packed (block-quantised) tensors and the layers that use them.

use super::{traced, Expr, Number, NumberExpr, Traced};
use crate::error::ModelError;
use std::borrow::Cow;
use std::sync::Arc;
use vstd::prelude::*;

verus! {

/// Marks `candle_core::quantized::GgmlDType` as a type whose inside the library does not look at.
#[verifier::external_type_specification]
#[verifier::external_body]
pub struct ExGgmlDType(candle_core::quantized::GgmlDType);

/// Marks `candle_core::quantized::QStorage` as a type whose inside the library does not look at.
#[verifier::external_type_specification]
#[verifier::external_body]
pub struct ExQStorage(candle_core::quantized::QStorage);

/// Marks `candle_core::quantized::QMatMul` as a type whose inside the library does not look at.
#[verifier::external_type_specification]
#[verifier::external_body]
pub struct ExQMatMul(candle_core::quantized::QMatMul);

/// The sizes of a packed tensor's dimensions, outermost first.
pub uninterp spec fn packed_dims(q: candle_core::quantized::QTensor) -> Seq<usize>;

/// The bytes of a packed tensor's blocks.
pub uninterp spec fn packed_bytes(q: candle_core::quantized::QTensor) -> Seq<u8>;

/// The block format of a packed tensor.
pub uninterp spec fn packed_format(
    q: candle_core::quantized::QTensor,
) -> candle_core::quantized::GgmlDType;

/// The device that a packed tensor lives on.
pub uninterp spec fn packed_device(q: candle_core::quantized::QTensor) -> candle_core::Device;

/// The bytes of packed storage.
pub uninterp spec fn storage_bytes(s: candle_core::quantized::QStorage) -> Seq<u8>;

/// The block format of packed storage.
pub uninterp spec fn storage_format(
    s: candle_core::quantized::QStorage,
) -> candle_core::quantized::GgmlDType;

/// The device that packed storage lies on.
pub uninterp spec fn storage_device(s: candle_core::quantized::QStorage) -> candle_core::Device;

/// The number of entries in a block.
pub uninterp spec fn block_entries(d: candle_core::quantized::GgmlDType) -> usize;

/// The number of bytes in a block.
pub uninterp spec fn block_bytes(d: candle_core::quantized::GgmlDType) -> usize;

/// The bytes of a packed tensor cover its shape, block by block, and the shape holds entries.
pub open spec fn well_packed(q: candle_core::quantized::QTensor) -> bool {
    let dims = packed_dims(q);
    let format = packed_format(q);
    &&& dims.len() > 0
    &&& 0 < super::count_of(dims) <= usize::MAX
    &&& dims.last() % block_entries(format) == 0
    &&& super::count_of(dims) * block_bytes(format) == packed_bytes(q).len() * block_entries(format)
}

/// `candle_core::quantized::QTensor::shape` and `Shape::dims`: the sizes of the dimensions.
#[verifier::external_body]
fn raw_packed_dims(q: &candle_core::quantized::QTensor) -> (r: Vec<usize>)
    ensures
        r@ == packed_dims(*q),
{
    q.shape().dims().to_vec()
}

/// `candle_core::quantized::QTensor::dtype`: the block format.
#[verifier::external_body]
fn raw_packed_format(q: &candle_core::quantized::QTensor) -> (r: candle_core::quantized::GgmlDType)
    ensures
        r == packed_format(*q),
{
    q.dtype()
}

/// `candle_core::quantized::QTensor::device`: the device that the tensor lives on.
#[verifier::external_body]
fn raw_packed_device(q: &candle_core::quantized::QTensor) -> (r: candle_core::Device)
    ensures
        r == packed_device(*q),
{
    q.device()
}

/// `candle_core::quantized::QTensor::storage_size_in_bytes`: the number of bytes of the blocks.
#[verifier::external_body]
fn raw_packed_size(q: &candle_core::quantized::QTensor) -> (r: usize)
    ensures
        r == packed_bytes(*q).len(),
{
    q.storage_size_in_bytes()
}

/// `candle_core::quantized::GgmlDType::block_size`: the number of entries in a block, never zero.
#[verifier::external_body]
fn raw_block_entries(d: &candle_core::quantized::GgmlDType) -> (r: usize)
    ensures
        r == block_entries(*d),
        r > 0,
{
    d.block_size()
}

/// `candle_core::quantized::GgmlDType::type_size`: the number of bytes in a block, never zero.
#[verifier::external_body]
fn raw_block_bytes(d: &candle_core::quantized::GgmlDType) -> (r: usize)
    ensures
        r == block_bytes(*d),
        r > 0,
{
    d.type_size()
}

/// `candle_core::quantized::QStorage::from_data` on a run of whole blocks of a tensor in main memory,
/// whose bytes `candle_core::quantized::QTensor::data` lends: on success storage of the tensor's
/// format, on the given device, that holds a copy of the run. The lent bytes start where the blocks
/// do, so a run of whole blocks is aligned as `from_data` wants it. A copy in main memory always
/// succeeds.
#[verifier::external_body]
fn raw_blocks(
    q: &candle_core::quantized::QTensor,
    start: usize,
    end: usize,
    device: &candle_core::Device,
) -> (r: candle_core::Result<candle_core::quantized::QStorage>)
    requires
        super::is_main_memory(packed_device(*q)),
        start <= end <= packed_bytes(*q).len(),
        start as nat % block_bytes(packed_format(*q)) as nat == 0,
        (end - start) as nat % block_bytes(packed_format(*q)) as nat == 0,
    ensures
        r matches Ok(s) ==> storage_bytes(s) == packed_bytes(*q).subrange(start as int, end as int)
            && storage_format(s) == packed_format(*q) && storage_device(s) == *device,
        super::is_main_memory(*device) ==> r is Ok,
{
    let data = q.data()?;
    candle_core::quantized::QStorage::from_data(Cow::Borrowed(&data[start..end]), device, q.dtype())
}

/// `candle_core::quantized::QStorage::from_data` on a run of whole blocks of a tensor on any device,
/// whose bytes `candle_core::quantized::QTensor::data` reads back: on success storage of the tensor's
/// format, on the given device, that holds a copy of the run. The bytes are put where a block may
/// start, which `pointer::align_offset` finds; where it finds no such place, the call fails.
#[verifier::external_body]
fn raw_blocks_read_back(
    q: &candle_core::quantized::QTensor,
    start: usize,
    end: usize,
    device: &candle_core::Device,
) -> (r: candle_core::Result<candle_core::quantized::QStorage>)
    requires
        start <= end <= packed_bytes(*q).len(),
        start as nat % block_bytes(packed_format(*q)) as nat == 0,
        (end - start) as nat % block_bytes(packed_format(*q)) as nat == 0,
    ensures
        r matches Ok(s) ==> storage_bytes(s) == packed_bytes(*q).subrange(start as int, end as int)
            && storage_format(s) == packed_format(*q) && storage_device(s) == *device,
{
    let data = q.data()?;
    let mut room: Vec<u8> = Vec::from(&data[start..end]);
    room.resize(end - start + 16, 0);
    let at = room.as_ptr().align_offset(16);
    room.copy_within(0..end - start, at.min(16));
    let run = room.get(at..at.saturating_add(end - start));
    let run = run.ok_or(candle_core::Error::Msg(String::from("no aligned place")))?;
    candle_core::quantized::QStorage::from_data(Cow::Borrowed(run), device, q.dtype())
}

/// `candle_core::quantized::QTensor::new`: on success a packed matrix over the storage. It succeeds
/// where whole blocks make up a row.
#[verifier::external_body]
fn raw_matrix(storage: candle_core::quantized::QStorage, rows: usize, cols: usize) -> (r:
    candle_core::Result<candle_core::quantized::QTensor>)
    ensures
        r matches Ok(q) ==> packed_dims(q) == seq![rows, cols] && packed_bytes(q) == storage_bytes(
            storage,
        ) && packed_format(q) == storage_format(storage) && packed_device(q) == storage_device(
            storage,
        ),
        cols % block_entries(storage_format(storage)) == 0 ==> r is Ok,
{
    candle_core::quantized::QTensor::new(storage, (rows, cols))
}

/// `candle_core::quantized::QTensor::dequantize`: on success the entries as an `F32` tensor of the
/// same shape. From main memory to main memory it always succeeds.
#[verifier::external_body]
fn raw_unpack(q: &candle_core::quantized::QTensor, device: &candle_core::Device) -> (r: Result<
    Traced,
    ModelError,
>)
    requires
        well_packed(*q),
    ensures
        super::produces(r, Expr::Unpacked(*q), packed_dims(*q), candle_core::DType::F32),
        super::succeeds(
            r,
            super::is_main_memory(packed_device(*q)) && super::is_main_memory(*device),
        ),
{
    traced(q.dequantize(device), Ghost(Expr::Unpacked(*q)))
}

/// `candle_core::quantized::QTensor::embedding`: on success one row of the table per identifier, as
/// `F32` entries in a new last dimension. In main memory it succeeds on a table that has a row for
/// each identifier.
#[verifier::external_body]
fn raw_rows(q: &candle_core::quantized::QTensor, ids: &Traced) -> (r: Result<Traced, ModelError>)
    requires
        well_packed(*q),
    ensures
        super::produces(
            r,
            Expr::PackedRows(*q, Box::new(ids.expr())),
            ids.dims().push(packed_dims(*q).last()),
            candle_core::DType::F32,
        ),
        super::succeeds(
            r,
            super::is_main_memory(packed_device(*q)) && ids.is_local() && has_rows(
                packed_dims(*q),
                *ids,
            ),
        ),
{
    traced(
        q.embedding(&ids.inner),
        Ghost(Expr::PackedRows(*q, Box::new(ids.expr()))),
    )
}

/// A table of this shape has a row for each of some identifiers.
pub open spec fn has_rows(dims: Seq<usize>, ids: Traced) -> bool {
    &&& dims.len() == 2
    &&& ids.dtype() == candle_core::DType::U32
    &&& ids.words().len() == super::count_of(ids.dims())
    &&& forall|i: int| 0 <= i < ids.words().len() ==> #[trigger] ids.words()[i] < dims[0]
}

/// A packed tensor whose bytes cover its shape.
pub struct PackedTensor {
    inner: Arc<candle_core::quantized::QTensor>,
}

impl PackedTensor {
    #[verifier::type_invariant]
    spec fn covered(&self) -> bool {
        well_packed(*self.inner)
    }

    /// The packed tensor itself.
    pub closed spec fn source(&self) -> candle_core::quantized::QTensor {
        *self.inner
    }

    /// Takes a packed tensor whose bytes cover its shape, and refuses any other.
    pub fn new(q: Arc<candle_core::quantized::QTensor>) -> (r: Result<PackedTensor, ModelError>)
        ensures
            well_packed(*q) ==> (r matches Ok(t) && t.source() == *q),
            !well_packed(*q) ==> r == Err::<PackedTensor, ModelError>(ModelError::MalformedTensor),
    {
        let dims = raw_packed_dims(&q);
        let format = raw_packed_format(&q);
        let entries: usize = raw_block_entries(&format);
        let bytes: usize = raw_block_bytes(&format);
        let size: usize = raw_packed_size(&q);
        match super::checked_count(&dims) {
            Some(count) => {
                if count > 0 && dims.len() > 0 && dims[dims.len() - 1] % entries == 0
                    && wide_product(count, bytes) == wide_product(size, entries) {
                    Ok(PackedTensor { inner: q })
                } else {
                    Err(ModelError::MalformedTensor)
                }
            },
            None => {
                proof {
                    if super::count_of(dims@) > 0 {
                        let k = choose|k: int|
                            0 <= k <= dims@.len() && #[trigger] super::count_of(dims@.take(k))
                                > usize::MAX;
                        super::lemma_count_of_prefix(dims@, k);
                    }
                }
                Err(ModelError::MalformedTensor)
            },
        }
    }

    /// The device that the tensor lives on.
    pub(crate) fn on_device(&self) -> (r: candle_core::Device)
        ensures
            r == packed_device(self.source()),
    {
        raw_packed_device(&self.inner)
    }

    /// The entries as an `F32` tensor.
    pub(crate) fn unpack(&self, device: &candle_core::Device) -> (r: Result<Traced, ModelError>)
        ensures
            super::produces(
                r,
                Expr::Unpacked(self.source()),
                packed_dims(self.source()),
                candle_core::DType::F32,
            ),
            super::succeeds(
                r,
                super::is_main_memory(packed_device(self.source())) && super::is_main_memory(
                    *device,
                ),
            ),
    {
        proof {
            use_type_invariant(self);
        }
        raw_unpack(&self.inner, device)
    }

    /// One row of the table per identifier.
    pub(crate) fn rows(&self, ids: &Traced) -> (r: Result<Traced, ModelError>)
        ensures
            super::produces(
                r,
                Expr::PackedRows(self.source(), Box::new(ids.expr())),
                ids.dims().push(packed_dims(self.source()).last()),
                candle_core::DType::F32,
            ),
            super::succeeds(
                r,
                super::is_main_memory(packed_device(self.source())) && ids.is_local() && has_rows(
                    packed_dims(self.source()),
                    *ids,
                ),
            ),
    {
        proof {
            use_type_invariant(self);
        }
        raw_rows(&self.inner, ids)
    }
}

/// What a packed tensor holds: its shape, its format and its blocks.
pub ghost struct PackedView {
    pub dims: Seq<usize>,
    pub format: candle_core::quantized::GgmlDType,
    pub bytes: Seq<u8>,
}

/// What a packed tensor holds.
pub open spec fn packed_view(q: candle_core::quantized::QTensor) -> PackedView {
    PackedView { dims: packed_dims(q), format: packed_format(q), bytes: packed_bytes(q) }
}

/// The record of a product with the transpose of a packed matrix.
pub open spec fn packed_product(weight: candle_core::quantized::QTensor, of: Expr) -> Expr {
    Expr::PackedMatMul(packed_view(weight), Box::new(of))
}

/// The number of rows of a packed matrix, or of each matrix in a stack of them.
pub open spec fn packed_rows(q: candle_core::quantized::QTensor) -> usize {
    packed_dims(q)[packed_dims(q).len() - 2]
}

/// The matrix of a multiplier.
pub uninterp spec fn multiplier_weight(
    m: candle_core::quantized::QMatMul,
) -> candle_core::quantized::QTensor;

/// `candle_core::quantized::QMatMul::from_arc`: on success a multiplier with this matrix. In main
/// memory it always succeeds.
#[verifier::external_body]
fn raw_multiplier(q: Arc<candle_core::quantized::QTensor>) -> (r: candle_core::Result<
    candle_core::quantized::QMatMul,
>)
    requires
        well_packed(*q),
    ensures
        r matches Ok(m) ==> multiplier_weight(m) == *q,
        super::is_main_memory(packed_device(*q)) ==> r is Ok,
{
    candle_core::quantized::QMatMul::from_arc(q)
}

/// `forward` of `candle_core::quantized::QMatMul`: on success the product with the transpose of the
/// matrix, along the last dimension. `F32` tensors give `F32` tensors. In main memory it succeeds on
/// an ordered `F32` tensor of two or three dimensions that is as wide as the matrix.
#[verifier::external_body]
fn raw_product(m: &candle_core::quantized::QMatMul, xs: &Traced) -> (r: Result<Traced, ModelError>)
    requires
        well_packed(multiplier_weight(*m)),
    ensures
        match r {
            Ok(t) => {
                &&& t.expr() == packed_product(multiplier_weight(*m), xs.expr())
                &&& xs.dims().len() >= 2
                &&& t.dims() == super::with_last(xs.dims(), packed_rows(multiplier_weight(*m)))
                &&& xs.dtype() == candle_core::DType::F32 ==> t.dtype() == candle_core::DType::F32
            },
            Err(e) => e is Candle,
        },
        super::succeeds(r, can_be_multiplied(multiplier_weight(*m), *xs)),
{
    traced(
        candle_nn::Module::forward(m, &xs.inner),
        Ghost(packed_product(multiplier_weight(*m), xs.expr())),
    )
}

/// A packed matrix of so many rows and columns in main memory.
pub open spec fn is_local_matrix(
    q: candle_core::quantized::QTensor,
    rows: usize,
    cols: usize,
) -> bool {
    packed_dims(q) == seq![rows, cols] && super::is_main_memory(packed_device(q))
}

/// A tensor can be multiplied with a packed matrix: both lie in main memory, and the tensor is an
/// ordered one of `F32` entries, of two or three dimensions and as wide as the matrix.
pub open spec fn can_be_multiplied(q: candle_core::quantized::QTensor, xs: Traced) -> bool {
    &&& xs.is_ready()
    &&& xs.dtype() == candle_core::DType::F32
    &&& 2 <= xs.dims().len() <= 3
    &&& super::has_entries(xs.dims())
    &&& is_local_matrix(q, packed_dims(q)[0], xs.dims().last())
}

/// A packed matrix that tensors are multiplied with.
pub struct PackedMatMul {
    inner: candle_core::quantized::QMatMul,
}

impl PackedMatMul {
    #[verifier::type_invariant]
    spec fn covered(&self) -> bool {
        well_packed(multiplier_weight(self.inner))
    }

    /// The packed matrix.
    pub closed spec fn weight(&self) -> candle_core::quantized::QTensor {
        multiplier_weight(self.inner)
    }

    /// A multiplier with this matrix.
    pub(crate) fn new(t: &PackedTensor) -> (r: Result<PackedMatMul, ModelError>)
        ensures
            r matches Ok(m) ==> m.weight() == t.source(),
            r matches Err(e) ==> e is Candle,
            super::is_main_memory(packed_device(t.source())) ==> r is Ok,
    {
        proof {
            use_type_invariant(t);
        }
        match raw_multiplier(t.inner.clone()) {
            Ok(inner) => Ok(PackedMatMul { inner }),
            Err(e) => Err(ModelError::Candle(e)),
        }
    }

    /// The product with the transpose of the matrix, along the last dimension.
    pub(crate) fn forward(&self, xs: &Traced) -> (r: Result<Traced, ModelError>)
        ensures
            match r {
                Ok(t) => {
                    &&& t.expr() == packed_product(self.weight(), xs.expr())
                    &&& xs.dims().len() >= 2
                    &&& t.dims() == super::with_last(xs.dims(), packed_rows(self.weight()))
                    &&& xs.dtype() == candle_core::DType::F32 ==> t.dtype()
                        == candle_core::DType::F32
                },
                Err(e) => e is Candle,
            },
            super::succeeds(r, can_be_multiplied(self.weight(), *xs)),
    {
        proof {
            use_type_invariant(self);
        }
        raw_product(&self.inner, xs)
    }
}

/// The record of a weighted root-mean-square normalisation.
pub open spec fn rms_normed(weight: Expr, eps: NumberExpr, of: Expr) -> Expr {
    Expr::RmsNorm { weight: Box::new(weight), eps, of: Box::new(of) }
}

/// `candle_nn::ops::rms_norm`: on success the normalisation along the last dimension, which is as
/// long as the weight. In main memory it succeeds on ordered `F32` tensors whose last dimension is.
#[verifier::external_body]
fn raw_rms_norm(xs: &Traced, weight: &Traced, eps: &Number) -> (r: Result<Traced, ModelError>)
    requires
        weight.dims().len() == 1 ==> weight.dims()[0] > 0,
    ensures
        super::produces(
            r,
            rms_normed(weight.expr(), eps.expr(), xs.expr()),
            xs.dims(),
            xs.dtype(),
        ),
        super::succeeds(
            r,
            xs.is_ready() && weight.is_ready() && xs.dtype() == candle_core::DType::F32
                && weight.dtype() == candle_core::DType::F32 && xs.dims().len() > 0 && weight.dims()
                == seq![xs.dims().last()],
        ),
{
    traced(
        candle_nn::ops::rms_norm(&xs.inner, &weight.inner, eps.inner.to_f64() as _),
        Ghost(rms_normed(weight.expr(), eps.expr(), xs.expr())),
    )
}

/// A weighted root-mean-square normalisation.
pub struct Norm {
    weight: Traced,
    eps: Number,
}

impl Norm {
    #[verifier::type_invariant]
    spec fn has_entries(&self) -> bool {
        self.weight.dims().len() == 1 ==> self.weight.dims()[0] > 0
    }

    /// The weight's record.
    pub closed spec fn weight(&self) -> Expr {
        self.weight.expr()
    }

    /// The number that keeps the root away from zero.
    pub closed spec fn eps(&self) -> NumberExpr {
        self.eps.expr()
    }

    /// The weight lies in main memory and has so many entries.
    pub closed spec fn fits(&self, n: usize) -> bool {
        self.weight.is_ready() && self.weight.dtype() == candle_core::DType::F32
            && self.weight.dims() == seq![n]
    }

    /// The record of a tensor normalised with this weight.
    pub open spec fn of(&self, x: Expr) -> Expr {
        rms_normed(self.weight(), self.eps(), super::unary(super::UnaryOp::Contiguous, x))
    }

    /// A normalisation with a packed weight.
    pub(crate) fn new(weight: &PackedTensor, eps: &Number) -> (r: Result<Norm, ModelError>)
        ensures
            r matches Ok(n) ==> n.weight() == Expr::Unpacked(weight.source()) && n.eps()
                == eps.expr(),
            r matches Err(e) ==> e is Candle,
            super::is_main_memory(packed_device(weight.source())) ==> (r matches Ok(norm)
                && forall|n: usize|
                packed_dims(weight.source()) == seq![n] ==> #[trigger] norm.fits(n)),
    {
        let unpacked = weight.unpack(&weight.on_device())?;
        proof {
            use_type_invariant(weight);
            if unpacked.dims().len() == 1 {
                super::lemma_countable_1(unpacked.dims()[0]);
                assert(unpacked.dims() =~= seq![unpacked.dims()[0]]);
            }
        }
        Ok(Norm { weight: unpacked, eps: eps.duplicate() })
    }

    /// The normalisation along the last dimension. A tensor whose last dimension is not as long as
    /// the weight is refused by `candle`.
    pub(crate) fn forward(&self, xs: &Traced) -> (r: Result<Traced, ModelError>)
        ensures
            super::produces(r, self.of(xs.expr()), xs.dims(), xs.dtype()),
            super::succeeds(
                r,
                xs.is_local() && xs.dtype() == candle_core::DType::F32 && xs.dims().len() > 0
                    && self.fits(xs.dims().last()),
            ),
    {
        proof {
            use_type_invariant(self);
        }
        let xs = xs.contiguous()?;
        raw_rms_norm(&xs, &self.weight, &self.eps)
    }
}

/// The bytes of one expert, where the experts' blocks lie one after the other.
pub open spec fn expert_bytes(stacked: Seq<u8>, experts: int, e: int) -> Seq<u8> {
    let each = stacked.len() / experts as nat;
    stacked.subrange(e * each, (e + 1) * each)
}

/// What splitting a stack of expert matrices gives: one multiplier per expert, each with its own
/// run of the stack's blocks.
pub open spec fn is_split(stack: candle_core::quantized::QTensor, parts: Seq<PackedMatMul>) -> bool {
    let dims = packed_dims(stack);
    &&& dims.len() == 3
    &&& parts.len() == dims[0]
    &&& packed_bytes(stack).len() % dims[0] as nat == 0
    &&& forall|e: int|
        #![trigger parts[e]]
        0 <= e < parts.len() ==> {
            &&& packed_dims(parts[e].weight()) == seq![dims[1], dims[2]]
            &&& packed_format(parts[e].weight()) == packed_format(stack)
            &&& packed_bytes(parts[e].weight()) == expert_bytes(
                packed_bytes(stack),
                dims[0] as int,
                e,
            )
        }
}

/// Splitting a stack loses and repeats nothing: the runs of the experts are equally long, and one
/// behind the other they are the stack's bytes.
pub proof fn law_split_covers_the_stack(
    stack: candle_core::quantized::QTensor,
    parts: Seq<PackedMatMul>,
    k: int,
)
    requires
        is_split(stack, parts),
        parts.len() > 0,
        0 <= k < packed_bytes(stack).len(),
    ensures
        ({
            let each = packed_bytes(stack).len() as int / parts.len() as int;
            let (e, place) = (k / each, k % each);
            &&& each > 0
            &&& 0 <= e < parts.len()
            &&& packed_bytes(parts[e].weight()).len() == each
            &&& packed_bytes(parts[e].weight())[place] == packed_bytes(stack)[k]
        }),
{
    let (n, len) = (parts.len() as int, packed_bytes(stack).len() as int);
    let each = len / n;
    vstd::arithmetic::div_mod::lemma_fundamental_div_mod(len, n);
    assert(len == n * each);
    assert(each > 0) by (nonlinear_arith)
        requires
            len == n * each,
            len > 0,
            n > 0,
    ;
    let (e, r) = (k / each, k % each);
    vstd::arithmetic::div_mod::lemma_fundamental_div_mod(k, each);
    vstd::arithmetic::div_mod::lemma_mod_bound(k, each);
    assert(0 <= e < n) by (nonlinear_arith)
        requires
            k == each * e + r,
            0 <= k < n * each,
            0 <= r < each,
            each > 0,
    ;
    assert(0 <= e * each <= (e + 1) * each <= len) by (nonlinear_arith)
        requires
            0 <= e < n,
            each > 0,
            len == n * each,
    ;
    assert((e + 1) * each - e * each == each) by (nonlinear_arith);
    assert(e * each + r == k) by (nonlinear_arith)
        requires
            k == each * e + r,
    ;
    let part = parts[e];
    assert(packed_bytes(part.weight()) == expert_bytes(packed_bytes(stack), n, e));
}

/// The arithmetic of a stack of `e` matrices of `r` rows and `c` columns in blocks of `n` entries
/// and `b` bytes: the `len` bytes fall into `e` equal runs of whole blocks, each covering a matrix.
proof fn lemma_stack(e: nat, r: nat, c: nat, n: nat, b: nat, len: nat)
    requires
        e > 0,
        r > 0,
        c > 0,
        n > 0,
        b > 0,
        c % n == 0,
        e * r * c * b == len * n,
    ensures
        len == e * (len / e),
        (len / e) % b == 0,
        r * c * b == (len / e) * n,
{
    let k = c / n;
    vstd::arithmetic::div_mod::lemma_fundamental_div_mod(c as int, n as int);
    assert(c == n * k);
    let each = r * k * b;
    assert(e * r * c * b == (e * each) * n) by (nonlinear_arith)
        requires
            c == n * k,
            each == r * k * b,
    ;
    assert(len == e * each) by (nonlinear_arith)
        requires
            (e * each) * n == len * n,
            n > 0,
    ;
    vstd::arithmetic::div_mod::lemma_div_multiples_vanish(each as int, e as int);
    assert(e * each == each * e) by (nonlinear_arith);
    assert(len / e == each);
    assert(each == (r * k) * b) by (nonlinear_arith)
        requires
            each == r * k * b,
    ;
    vstd::arithmetic::div_mod::lemma_mod_multiples_basic((r * k) as int, b as int);
    assert(r * c * b == each * n) by (nonlinear_arith)
        requires
            c == n * k,
            each == r * k * b,
    ;
}

/// Splits a stack `[experts, rows, columns]` of packed matrices into one multiplier per expert, on
/// the given device. The blocks of a row lie together, so each expert is a run of the stack's
/// bytes; the experts stay packed. In main memory a stack can always be split.
pub fn split_experts(stack: &PackedTensor, device: &candle_core::Device) -> (r: Result<
    Vec<PackedMatMul>,
    ModelError,
>)
    ensures
        r matches Ok(parts) ==> is_split(stack.source(), parts@),
        packed_dims(stack.source()).len() != 3 ==> r == Err::<Vec<PackedMatMul>, ModelError>(
            ModelError::Rank { expected: 3, got: packed_dims(stack.source()).len() as usize },
        ),
        packed_dims(stack.source()).len() == 3 ==> (r matches Err(e) ==> e is Candle),
        packed_dims(stack.source()).len() == 3 && super::is_main_memory(
            packed_device(stack.source()),
        ) && super::is_main_memory(*device) ==> r is Ok,
        r matches Ok(parts) ==> forall|e: int|
            0 <= e < parts@.len() ==> packed_device((#[trigger] parts@[e]).weight()) == *device,
{
    proof {
        use_type_invariant(stack);
    }
    let dims = raw_packed_dims(&stack.inner);
    if dims.len() != 3 {
        return Err(ModelError::Rank { expected: 3, got: dims.len() });
    }
    let is_local = super::raw_is_main_memory(&raw_packed_device(&stack.inner));
    let (experts, rows, cols): (usize, usize, usize) = (dims[0], dims[1], dims[2]);
    let ghost format = packed_format(stack.source());
    let format_here = raw_packed_format(&stack.inner);
    let entries: usize = raw_block_entries(&format_here);
    let block: usize = raw_block_bytes(&format_here);
    let total: usize = raw_packed_size(&stack.inner);
    proof {
        lemma_stack_of(stack.source(), entries as nat, block as nat);
        vstd::arithmetic::div_mod::lemma_mod_multiples_basic(
            (total as nat / experts as nat) as int,
            experts as int,
        );
        assert(experts * (total as nat / experts as nat) == (total as nat / experts as nat)
            * experts) by (nonlinear_arith);
    }
    let each: usize = total / experts;
    let mut parts: Vec<PackedMatMul> = Vec::new();
    let mut e: usize = 0;
    while e < experts
        invariant
            e <= experts,
            experts > 0,
            is_local == super::is_main_memory(packed_device(stack.source())),
            cols % block_entries(format) == 0,
            total == experts * each,
            each == total / experts,
            total == packed_bytes(stack.source()).len(),
            format == packed_format(stack.source()),
            block == block_bytes(format),
            block > 0,
            each % block == 0,
            packed_dims(stack.source()) == seq![experts, rows, cols],
            forall|q: candle_core::quantized::QTensor|
                packed_dims(q) == seq![rows, cols] && packed_format(q) == format && packed_bytes(
                    q,
                ).len() == each ==> well_packed(q),
            parts@.len() == e,
            forall|i: int|
                #![trigger parts@[i]]
                0 <= i < e ==> {
                    &&& packed_dims(parts@[i].weight()) == seq![rows, cols]
                    &&& packed_format(parts@[i].weight()) == format
                    &&& packed_bytes(parts@[i].weight()) == expert_bytes(
                        packed_bytes(stack.source()),
                        experts as int,
                        i,
                    )
                    &&& packed_device(parts@[i].weight()) == *device
                },
        decreases experts - e,
    {
        proof {
            assert(0 <= e * each <= (e + 1) * each <= experts * each) by (nonlinear_arith)
                requires
                    0 <= e < experts,
                    0 <= each,
            ;
            assert((e + 1) * each - e * each == each) by (nonlinear_arith);
            lemma_whole_blocks(e as nat, each as nat, block as nat);
        }
        let run = if is_local {
            raw_blocks(&stack.inner, e * each, (e + 1) * each, device)
        } else {
            raw_blocks_read_back(&stack.inner, e * each, (e + 1) * each, device)
        };
        let storage = match run {
            Ok(storage) => storage,
            Err(e) => {
                return Err(ModelError::Candle(e));
            },
        };
        let matrix = match raw_matrix(storage, rows, cols) {
            Ok(matrix) => matrix,
            Err(e) => {
                return Err(ModelError::Candle(e));
            },
        };
        assert(packed_bytes(matrix) =~= expert_bytes(
            packed_bytes(stack.source()),
            experts as int,
            e as int,
        ));
        parts.push(PackedMatMul::new(&PackedTensor { inner: Arc::new(matrix) })?);
        e = e + 1;
    }
    Ok(parts)
}

/// So many runs of whole blocks end at a block's end.
proof fn lemma_whole_blocks(e: nat, each: nat, block: nat)
    requires
        block > 0,
        each % block == 0,
    ensures
        (e * each) % block == 0,
{
    vstd::arithmetic::div_mod::lemma_fundamental_div_mod(each as int, block as int);
    let k = each / block;
    assert(e * each == (e * k) * block) by (nonlinear_arith)
        requires
            each == block * k,
    ;
    vstd::arithmetic::div_mod::lemma_mod_multiples_basic((e * k) as int, block as int);
}

/// The arithmetic of `lemma_stack` for a packed stack of matrices.
proof fn lemma_stack_of(stack: candle_core::quantized::QTensor, n: nat, b: nat)
    requires
        well_packed(stack),
        packed_dims(stack).len() == 3,
        n == block_entries(packed_format(stack)) > 0,
        b == block_bytes(packed_format(stack)) > 0,
    ensures
        ({
            let experts = packed_dims(stack)[0];
            let total = packed_bytes(stack).len();
            &&& experts > 0
            &&& total == experts * (total / experts as nat)
            &&& (total / experts as nat) % b == 0
            &&& forall|q: candle_core::quantized::QTensor|
                packed_dims(q) == seq![packed_dims(stack)[1], packed_dims(stack)[2]]
                    && packed_format(q) == packed_format(stack) && packed_bytes(q).len() == total
                    / experts as nat ==> well_packed(q)
        }),
{
    let dims = packed_dims(stack);
    let (e, r, c) = (dims[0] as nat, dims[1] as nat, dims[2] as nat);
    let total = packed_bytes(stack).len();
    assert(super::count_of(dims) == e * r * c) by {
        reveal_with_fuel(super::count_of, 4);
        assert(1 * e * r * c == e * r * c) by (nonlinear_arith);
    }
    assert(e > 0 && r > 0 && c > 0) by (nonlinear_arith)
        requires
            e * r * c > 0,
            e >= 0,
            r >= 0,
            c >= 0,
    ;
    lemma_stack(e, r, c, n, b, total);
    assert(0 < r * c <= e * r * c) by (nonlinear_arith)
        requires
            e > 0,
            r > 0,
            c > 0,
    ;
    assert forall|q: candle_core::quantized::QTensor|
        packed_dims(q) == seq![dims[1], dims[2]] && packed_format(q) == packed_format(stack)
            && packed_bytes(q).len() == total / e implies well_packed(q) by {
        assert(super::count_of(packed_dims(q)) == r * c) by {
            reveal_with_fuel(super::count_of, 3);
            assert(packed_dims(q).drop_last() =~= seq![dims[1]]);
            assert(1 * r * c == r * c) by (nonlinear_arith);
        }
    }
}

/// The product of two sizes, which `u128` can always hold.
fn wide_product(a: usize, b: usize) -> (r: u128)
    ensures
        r == a * b,
{
    proof {
        assert(0 <= a * b <= u128::MAX) by (nonlinear_arith)
            requires
                0 <= a <= u64::MAX,
                0 <= b <= u64::MAX,
        ;
    }
    a as u128 * b as u128
}

} // verus!
