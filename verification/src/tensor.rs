//! Operations on candle tensors.
//!
//! Every function here hands one call on to candle. Operations that only move elements about
//! are described exactly. Arithmetic on floats may come out differently from one machine or
//! device to the next, so what an arithmetic operation may give is named as a set of possible
//! outcomes, and a call promises a result out of that set. The sets are named for the smallest
//! parts that an operation works on by themselves: elements, lines along the last axis, or entries
//! along the first one, which are the requests of a batch.
//!
//! Whether a call succeeds on a graphics card depends on the card. On the processor it depends
//! on the tensors alone, and there a call promises success where the sizes fit.
use candle_core::scalar::Scalar;
use candle_core::{DType, Device, Error, Tensor, D};
use vstd::prelude::*;

use crate::device::is_processor;
use crate::grid::{
    broadcast_dims, compatible, entry, lane, line, lines_per_entry, narrowed, no_empty,
    products_fit, reshaped, stretches, transposed, unsqueezed, volume, Grid,
};
use crate::masks::{INFINITY, ZERO};

verus! {

/// A candle tensor. Every tensor of this library holds 32-bit floats.
#[verifier::external_type_specification]
#[verifier::external_body]
pub struct ExTensor(candle_core::Tensor);

/// What candle reports when an operation fails.
#[verifier::external_type_specification]
#[verifier::external_body]
pub struct ExError(candle_core::Error);

/// Where candle keeps the elements of a tensor: main memory or a graphics card.
#[verifier::external_type_specification]
#[verifier::external_body]
pub struct ExDevice(candle_core::Device);

/// A single number of one of candle's element types.
#[verifier::external_type_specification]
#[verifier::external_body]
pub struct ExScalar(candle_core::scalar::Scalar);

/// The size of each axis of a tensor, as `Tensor::dims` gives it.
pub uninterp spec fn tensor_dims(t: Tensor) -> Seq<usize>;

/// The bit pattern of each element of a tensor in row-major order.
pub uninterp spec fn tensor_cells(t: Tensor) -> Seq<u32>;

/// What a tensor holds.
pub open spec fn grid(t: Tensor) -> Grid {
    Grid { dims: tensor_dims(t), cells: tensor_cells(t) }
}

/// Where the elements of a tensor are kept, as `Tensor::device` gives it.
pub uninterp spec fn tensor_device(t: Tensor) -> Device;

/// Whether the elements of a tensor are 32-bit floats in main memory, which the processor works
/// on.
pub uninterp spec fn is_local(t: Tensor) -> bool;

/// Whether the elements of a tensor lie in row-major order, as `Tensor::is_contiguous` tells.
pub uninterp spec fn is_row_major(t: Tensor) -> bool;

/// Whether the elements of a tensor would lie in row-major order if its last two axes were
/// exchanged.
pub uninterp spec fn is_turned(t: Tensor) -> bool;

/// The processor can work on the tensor: it is local, and no axis is empty.
pub open spec fn is_workable(t: Tensor) -> bool {
    is_local(t) && no_empty(tensor_dims(t))
}

/// The processor can work on the tensor, which lies in row-major order.
pub open spec fn is_at_hand(t: Tensor) -> bool {
    is_workable(t) && is_row_major(t)
}

/// The tensor is local and lies in row-major order; its axes may be empty.
pub open spec fn is_ready(t: Tensor) -> bool {
    is_local(t) && is_row_major(t)
}

/// The first tensor is ready, the second one is local, and its axes can be stretched to those of
/// the first one; they may be empty.
pub open spec fn covers(a: Tensor, b: Tensor) -> bool {
    is_ready(a) && is_local(b) && stretches(tensor_dims(b), tensor_dims(a))
}

/// The call has succeeded on the processor, and its result lies in row-major order.
pub open spec fn is_computed(r: Result<Tensor, Error>) -> bool {
    r matches Ok(y) && is_local(y) && is_row_major(y)
}

/// The bit pattern of a number widened to a 64-bit float, as `Scalar::to_f64` gives it.
pub uninterp spec fn scalar_bits(s: Scalar) -> u64;

/// The bits of the 64-bit float infinity. Smaller ones are those of a float that is finite and
/// not negative.
pub const INFINITE: u64 = 0x7ff0_0000_0000_0000;

/// The 64-bit float with these bits, by way of `Tensor::from_raw_buffer` and
/// `Tensor::to_scalar` on the processor, which do not fail on eight bytes and no axes.
#[verifier::external_body]
pub(crate) fn number(bits: u64) -> (r: Result<Scalar, Error>)
    ensures
        match r {
            Ok(s) => scalar_bits(s) == bits,
            Err(_) => false,
        },
{
    let single = Tensor::from_raw_buffer(&bits.to_ne_bytes(), DType::F64, &[], &Device::Cpu)?;
    Ok(Scalar::F64(single.to_scalar()?))
}

/// The bits of the square root of a number, both as 64-bit floats.
pub uninterp spec fn root_bits(n: usize) -> u64;

/// The square root of a number, both as 64-bit floats: the `sqrt` of std, which rounds
/// correctly, so that the same number has the same root on every machine. It is finite and not
/// negative.
#[verifier::external_body]
pub(crate) fn root(n: usize) -> (s: Scalar)
    ensures
        scalar_bits(s) == root_bits(n),
        scalar_bits(s) < INFINITE,
{
    Scalar::F64(Scalar::F64(n as _).to_f64().sqrt())
}

/// The bits of one over the 64-bit float with these bits.
pub uninterp spec fn reciprocal_bits(bits: u64) -> u64;

/// One over a number that is finite and not negative: the `recip` of std, which rounds
/// correctly. Nothing is said of other numbers.
#[verifier::external_body]
pub(crate) fn reciprocal(s: &Scalar) -> (r: Scalar)
    ensures
        scalar_bits(*s) < INFINITE ==> scalar_bits(r) == reciprocal_bits(scalar_bits(*s)),
{
    Scalar::F64(s.to_f64().recip())
}

/// `Tensor::dim`: the size of one axis. It fails only for an axis that the tensor lacks.
#[verifier::external_body]
pub(crate) fn dim(t: &Tensor, axis: usize) -> (r: Result<usize, Error>)
    ensures
        match r {
            Ok(n) => axis < tensor_dims(*t).len() && n == tensor_dims(*t)[axis as int],
            Err(_) => axis >= tensor_dims(*t).len(),
        },
{
    t.dim(axis)
}

/// `Tensor::dims2`: the two sizes of a tensor of two axes. It fails on any other tensor.
#[verifier::external_body]
pub(crate) fn dims2(t: &Tensor) -> (r: Result<(usize, usize), Error>)
    ensures
        match r {
            Ok(n) => tensor_dims(*t) == seq![n.0, n.1],
            Err(_) => tensor_dims(*t).len() != 2,
        },
{
    t.dims2()
}

/// `Tensor::dims3`: the three sizes of a tensor of three axes. It fails on any other tensor.
#[verifier::external_body]
pub(crate) fn dims3(t: &Tensor) -> (r: Result<(usize, usize, usize), Error>)
    ensures
        match r {
            Ok(n) => tensor_dims(*t) == seq![n.0, n.1, n.2],
            Err(_) => tensor_dims(*t).len() != 3,
        },
{
    t.dims3()
}

/// `Tensor::device`: where the elements are kept, which is with the processor for a local
/// tensor.
#[verifier::external_body]
pub(crate) fn device(t: &Tensor) -> (d: &Device)
    ensures
        *d == tensor_device(*t),
        is_local(*t) ==> is_processor(*d),
{
    t.device()
}

/// `Tensor::from_raw_buffer`: a matrix of 32-bit floats out of their bit patterns, row by row,
/// kept on the device.
/// It may fail where the device cannot take the elements; the processor takes them.
#[verifier::external_body]
pub(crate) fn matrix(cells: Vec<u32>, rows: usize, cols: usize, device: &Device) -> (r: Result<
    Tensor,
    Error,
>)
    requires
        cells.len() == rows * cols,
    ensures
        r matches Ok(t) ==> {
            &&& tensor_dims(t) == seq![rows, cols]
            &&& tensor_cells(t) == cells@
            &&& tensor_device(t) == *device
        },
        is_processor(*device) ==> is_computed(r),
{
    let bytes: Vec<u8> = cells.into_iter().flat_map(|cell| cell.to_ne_bytes()).collect();
    Tensor::from_raw_buffer(&bytes, DType::F32, &[rows, cols], device)
}

/// `Tensor::write_bytes`: the bit patterns of the elements in row-major order. It may fail
/// where the device cannot hand the elements back; the processor does.
#[verifier::external_body]
pub(crate) fn cells(t: &Tensor) -> (r: Result<Vec<u32>, Error>)
    ensures
        r matches Ok(v) ==> v@ == tensor_cells(*t) && v@.len() == volume(tensor_dims(*t)),
        is_local(*t) ==> r is Ok,
{
    let mut bytes: Vec<u8> = Vec::new();
    t.write_bytes(&mut bytes)?;
    Ok(bytes.chunks_exact(4).map(|b| u32::from_le_bytes([b[0], b[1], b[2], b[3]])).collect())
}

/// `Tensor::unsqueeze`: a new axis of size one. It fails only where the place lies beyond the
/// last axis. The elements stay where they are.
#[verifier::external_body]
pub(crate) fn unsqueeze(t: &Tensor, axis: usize) -> (r: Result<Tensor, Error>)
    ensures
        match r {
            Ok(y) => {
                &&& axis <= tensor_dims(*t).len()
                &&& grid(y) == unsqueezed(grid(*t), axis as int)
                &&& tensor_device(y) == tensor_device(*t)
                &&& is_local(*t) ==> is_local(y)
                &&& is_row_major(*t) ==> is_row_major(y)
            },
            Err(_) => axis > tensor_dims(*t).len(),
        },
{
    t.unsqueeze(axis)
}

/// `Tensor::transpose`: two axes exchanged. It fails only for an axis that the tensor lacks. The
/// elements stay where they are.
#[verifier::external_body]
pub(crate) fn transpose(t: &Tensor, a: usize, b: usize) -> (r: Result<Tensor, Error>)
    ensures
        match r {
            Ok(y) => {
                &&& a < tensor_dims(*t).len()
                &&& b < tensor_dims(*t).len()
                &&& grid(y) == transposed(grid(*t), a as int, b as int)
                &&& tensor_device(y) == tensor_device(*t)
                &&& is_local(*t) ==> is_local(y)
            },
            Err(_) => a >= tensor_dims(*t).len() || b >= tensor_dims(*t).len(),
        },
{
    t.transpose(a, b)
}

/// `Tensor::t`: the last two axes exchanged. It fails only on a tensor of fewer than two axes.
/// The elements stay where they are.
#[verifier::external_body]
pub(crate) fn t(x: &Tensor) -> (r: Result<Tensor, Error>)
    ensures
        match r {
            Ok(y) => {
                &&& tensor_dims(*x).len() >= 2
                &&& grid(y) == transposed(
                    grid(*x),
                    tensor_dims(*x).len() - 2,
                    tensor_dims(*x).len() - 1,
                )
                &&& tensor_device(y) == tensor_device(*x)
                &&& is_local(*x) ==> is_local(y)
                &&& is_row_major(*x) ==> is_turned(y)
            },
            Err(_) => tensor_dims(*x).len() < 2,
        },
{
    x.t()
}

/// `Tensor::contiguous`: the same tensor laid out in row-major order. It may fail where the
/// device cannot make the copy; the processor makes it.
#[verifier::external_body]
pub(crate) fn contiguous(t: &Tensor) -> (r: Result<Tensor, Error>)
    ensures
        r matches Ok(y) ==> grid(y) == grid(*t) && tensor_device(y) == tensor_device(*t),
        is_local(*t) ==> match r {
            Ok(y) => is_local(y) && is_row_major(y),
            Err(_) => false,
        },
{
    t.contiguous()
}

/// `Tensor::reshape`: the same elements under other sizes. It fails unless the number of
/// elements stays the same, and may fail where the device cannot make a copy; the processor
/// makes it. The sizes are multiplied from either side, so these products must be countable.
#[verifier::external_body]
pub(crate) fn reshape(t: &Tensor, dims: Vec<usize>) -> (r: Result<Tensor, Error>)
    requires
        products_fit(dims@),
    ensures
        r matches Ok(y) ==> {
            &&& volume(dims@) == volume(tensor_dims(*t))
            &&& grid(y) == reshaped(grid(*t), dims@)
            &&& tensor_device(y) == tensor_device(*t)
        },
        volume(dims@) == volume(tensor_dims(*t)) ==> (is_local(*t) ==> is_computed(r)),
{
    t.reshape(dims)
}

/// `Tensor::narrow`: the part of a tensor that lies between two places of one axis. It fails
/// only where the axis or the places do not exist. The elements stay where they are.
#[verifier::external_body]
pub(crate) fn narrow(t: &Tensor, axis: usize, start: usize, len: usize) -> (r: Result<
    Tensor,
    Error,
>)
    requires
        start + len <= usize::MAX,
    ensures
        match r {
            Ok(y) => {
                &&& axis < tensor_dims(*t).len()
                &&& start + len <= tensor_dims(*t)[axis as int]
                &&& grid(y) == narrowed(grid(*t), axis as int, start as int, len)
                &&& tensor_device(y) == tensor_device(*t)
                &&& is_local(*t) ==> is_local(y)
            },
            Err(_) => axis >= tensor_dims(*t).len() || start + len > tensor_dims(*t)[axis as int],
        },
{
    t.narrow(axis, start, len)
}

/// What `Tensor::gelu` may give for an element: the Gaussian error linear unit of it.
pub uninterp spec fn gelu_outcomes(x: u32) -> Set<u32>;

/// `y` may be the result of `gelu` on `x`.
pub open spec fn is_gelu(x: Grid, y: Grid) -> bool {
    &&& y.dims == x.dims
    &&& forall|i: int, p: int|
        0 <= i < x.dims[0] && 0 <= p < volume(x.dims.drop_first()) ==> gelu_outcomes(
            entry(x, i).cells[p],
        ).contains(#[trigger] entry(y, i).cells[p])
}

/// `Tensor::gelu`: the Gaussian error linear unit, element by element. It does not fail on the
/// processor.
#[verifier::external_body]
pub(crate) fn gelu(x: &Tensor) -> (r: Result<Tensor, Error>)
    requires
        tensor_dims(*x).len() >= 1,
    ensures
        r matches Ok(y) ==> {
            &&& tensor_dims(y) == tensor_dims(*x)
            &&& forall|i: int, p: int|
                0 <= i < tensor_dims(y)[0] && 0 <= p < volume(tensor_dims(y).drop_first())
                    ==> gelu_outcomes(entry(grid(*x), i).cells[p]).contains(
                    #[trigger] entry(grid(y), i).cells[p],
                )
            &&& tensor_device(y) == tensor_device(*x)
        },
        is_workable(*x) ==> is_computed(r),
{
    x.gelu()
}

/// What `Tensor::tanh` may give for an element: the hyperbolic tangent of it.
pub uninterp spec fn tanh_outcomes(x: u32) -> Set<u32>;

/// `y` may be the result of `tanh` on `x`.
pub open spec fn is_tanh(x: Grid, y: Grid) -> bool {
    &&& y.dims == x.dims
    &&& forall|i: int, p: int|
        0 <= i < x.dims[0] && 0 <= p < volume(x.dims.drop_first()) ==> tanh_outcomes(
            entry(x, i).cells[p],
        ).contains(#[trigger] entry(y, i).cells[p])
}

/// `Tensor::tanh`: the hyperbolic tangent, element by element. It does not fail on the
/// processor.
#[verifier::external_body]
pub(crate) fn tanh(x: &Tensor) -> (r: Result<Tensor, Error>)
    requires
        tensor_dims(*x).len() >= 1,
    ensures
        r matches Ok(y) ==> {
            &&& tensor_dims(y) == tensor_dims(*x)
            &&& forall|i: int, p: int|
                0 <= i < tensor_dims(y)[0] && 0 <= p < volume(tensor_dims(y).drop_first())
                    ==> tanh_outcomes(entry(grid(*x), i).cells[p]).contains(
                    #[trigger] entry(grid(y), i).cells[p],
                )
            &&& tensor_device(y) == tensor_device(*x)
        },
        is_workable(*x) ==> is_computed(r),
{
    x.tanh()
}

/// What `Tensor::sqrt` may give for an element: the square root of it.
pub uninterp spec fn sqrt_outcomes(x: u32) -> Set<u32>;

/// `y` may be the result of `sqrt` on `x`.
pub open spec fn is_sqrt(x: Grid, y: Grid) -> bool {
    &&& y.dims == x.dims
    &&& forall|i: int, p: int|
        0 <= i < x.dims[0] && 0 <= p < volume(x.dims.drop_first()) ==> sqrt_outcomes(
            entry(x, i).cells[p],
        ).contains(#[trigger] entry(y, i).cells[p])
}

/// `Tensor::sqrt`: the square root, element by element. It does not fail on the processor. A
/// tensor without elements is handed through.
#[verifier::external_body]
pub(crate) fn sqrt(x: &Tensor) -> (r: Result<Tensor, Error>)
    requires
        tensor_dims(*x).len() >= 1,
    ensures
        r matches Ok(y) ==> {
            &&& tensor_dims(y) == tensor_dims(*x)
            &&& forall|i: int, p: int|
                0 <= i < tensor_dims(y)[0] && 0 <= p < volume(tensor_dims(y).drop_first())
                    ==> sqrt_outcomes(entry(grid(*x), i).cells[p]).contains(
                    #[trigger] entry(grid(y), i).cells[p],
                )
            &&& tensor_device(y) == tensor_device(*x)
        },
        is_workable(*x) ==> is_computed(r),
        is_ready(*x) ==> is_computed(r),
{
    x.sqrt()
}

/// What multiplying an element by a number may give; the number is named by its bits.
pub uninterp spec fn scale_outcomes(x: u32, factor: u64) -> Set<u32>;

/// `y` may be the result of `scale` on `x`.
pub open spec fn is_scaled(x: Grid, factor: u64, y: Grid) -> bool {
    &&& y.dims == x.dims
    &&& forall|i: int, p: int|
        0 <= i < x.dims[0] && 0 <= p < volume(x.dims.drop_first()) ==> scale_outcomes(
            entry(x, i).cells[p],
            factor,
        ).contains(#[trigger] entry(y, i).cells[p])
}

/// The operator `*` between a tensor and a number: each element multiplied by the number. It
/// does not fail on the processor.
#[verifier::external_body]
pub(crate) fn scale(x: &Tensor, factor: &Scalar) -> (r: Result<Tensor, Error>)
    requires
        tensor_dims(*x).len() >= 1,
    ensures
        r matches Ok(y) ==> {
            &&& tensor_dims(y) == tensor_dims(*x)
            &&& forall|i: int, p: int|
                0 <= i < tensor_dims(y)[0] && 0 <= p < volume(tensor_dims(y).drop_first())
                    ==> scale_outcomes(entry(grid(*x), i).cells[p], scalar_bits(*factor)).contains(
                    #[trigger] entry(grid(y), i).cells[p],
                )
            &&& tensor_device(y) == tensor_device(*x)
        },
        is_workable(*x) ==> is_computed(r),
{
    x * factor.to_f64()
}

/// What `Tensor::clamp` may give for an element: the element raised to the lower bound or lowered
/// to the upper one; the bounds are named by their bits.
pub uninterp spec fn clamp_outcomes(x: u32, low: u64, high: u64) -> Set<u32>;

/// `y` may be the result of `clamp` on `x`.
pub open spec fn is_clamped(x: Grid, low: u64, high: u64, y: Grid) -> bool {
    &&& y.dims == x.dims
    &&& forall|i: int, p: int|
        0 <= i < x.dims[0] && 0 <= p < volume(x.dims.drop_first()) ==> clamp_outcomes(
            entry(x, i).cells[p],
            low,
            high,
        ).contains(#[trigger] entry(y, i).cells[p])
}

/// `Tensor::clamp`: each element brought between two bounds. It does not fail on the processor.
#[verifier::external_body]
pub(crate) fn clamp(x: &Tensor, low: &Scalar, high: &Scalar) -> (r: Result<Tensor, Error>)
    requires
        tensor_dims(*x).len() >= 1,
    ensures
        r matches Ok(y) ==> {
            &&& tensor_dims(y) == tensor_dims(*x)
            &&& forall|i: int, p: int|
                0 <= i < tensor_dims(y)[0] && 0 <= p < volume(tensor_dims(y).drop_first())
                    ==> clamp_outcomes(
                    entry(grid(*x), i).cells[p],
                    scalar_bits(*low),
                    scalar_bits(*high),
                ).contains(#[trigger] entry(grid(y), i).cells[p])
            &&& tensor_device(y) == tensor_device(*x)
        },
        is_workable(*x) ==> is_computed(r),
{
    x.clamp(low.to_f64(), high.to_f64())
}

/// What `softmax` along the last axis may give for a line along it.
pub uninterp spec fn softmax_outcomes(x: Seq<u32>) -> Set<Seq<u32>>;

/// `y` may be the result of `softmax` on `x`.
pub open spec fn is_softmax(x: Grid, y: Grid) -> bool {
    &&& y.dims == x.dims
    &&& forall|i: int, q: int|
        0 <= i < x.dims[0] && 0 <= q < lines_per_entry(x.dims) ==> softmax_outcomes(
            line(entry(x, i), q),
        ).contains(#[trigger] line(entry(y, i), q))
}

/// `candle_nn::ops::softmax` along the last of two or more axes, line by line. No other axis may
/// be empty, since a graphics card divides by the number of lines. It fails where the last one is
/// empty, and does not fail on the processor where none is empty.
#[verifier::external_body]
pub(crate) fn softmax(x: &Tensor) -> (r: Result<Tensor, Error>)
    requires
        tensor_dims(*x).len() >= 2,
        no_empty(tensor_dims(*x).drop_last()),
    ensures
        r matches Ok(y) ==> {
            &&& tensor_dims(y) == tensor_dims(*x)
            &&& forall|i: int, q: int|
                0 <= i < tensor_dims(y)[0] && 0 <= q < lines_per_entry(tensor_dims(y))
                    ==> softmax_outcomes(line(entry(grid(*x), i), q)).contains(
                    #[trigger] line(entry(grid(y), i), q),
                )
            &&& tensor_device(y) == tensor_device(*x)
        },
        is_workable(*x) ==> is_computed(r),
{
    candle_nn::ops::softmax(x, D::Minus1)
}

/// What `Tensor::matmul` may give for a line of the first matrix and the second matrix, whose
/// lines have this width, the sign of a zero left open.
pub uninterp spec fn matmul_outcomes(a: Seq<u32>, b: Seq<u32>, width: usize) -> Set<Seq<u32>>;

/// All elements are finite floats.
pub open spec fn is_finite(cells: Seq<u32>) -> bool {
    forall|p: int| 0 <= p < cells.len() ==> (#[trigger] cells[p]) % 0x8000_0000 < INFINITY
}

/// The matrix that line `q` of the matrices in `a` is multiplied by. The lines of it that meet
/// zero have no part in the product where all elements are finite, and stand as zeros.
pub open spec fn met(a: Grid, b: Grid, q: int) -> Seq<u32> {
    let (rows, width) = (a.dims.last() as int, b.dims.last() as int);
    let first = q / a.dims[a.dims.len() - 2] as int * (rows * width);
    Seq::new(
        (rows * width) as nat,
        |p: int|
            if line(a, q)[p / width] == ZERO && is_finite(b.cells) {
                ZERO
            } else {
                b.cells[first + p]
            },
    )
}

/// The sizes under which `matmul` takes two tensors: matrices in the last two axes that can
/// be multiplied, and as many of them on either side.
pub open spec fn multiplies(a: Seq<usize>, b: Seq<usize>) -> bool {
    &&& a.len() >= 2
    &&& b.len() == a.len()
    &&& a.last() == b[b.len() - 2]
    &&& volume(a.take(a.len() - 2)) == volume(b.take(b.len() - 2))
}

/// The processor can multiply the matrices: they are at hand, the second ones possibly turned,
/// and stand in no more than two axes.
pub open spec fn can_multiply(a: Tensor, b: Tensor) -> bool {
    &&& is_at_hand(a)
    &&& is_workable(b)
    &&& is_row_major(b) || is_turned(b)
    &&& multiplies(tensor_dims(a), tensor_dims(b))
    &&& tensor_dims(a).len() <= 4
}

/// `y` may be the result of `matmul` on `a` and `b`.
pub open spec fn is_matmul(a: Grid, b: Grid, y: Grid) -> bool {
    &&& multiplies(a.dims, b.dims)
    &&& a.dims[0] == b.dims[0]
    &&& y.dims == a.dims.drop_last().push(b.dims.last())
    &&& forall|i: int, q: int|
        0 <= i < a.dims[0] && 0 <= q < lines_per_entry(a.dims) ==> matmul_outcomes(
            line(entry(a, i), q),
            met(entry(a, i), entry(b, i), q),
            b.dims.last(),
        ).contains(#[trigger] line(entry(y, i), q))
}

/// `Tensor::matmul`: the product of the matrices in the last two of three or more axes, line by
/// line. Zero times a finite float is zero, which changes nothing but the sign of a sum that is
/// zero. It fails unless the sizes fit, and does not fail on the processor where they do and the
/// elements lie as asked. Of the elements nothing is said where the first axes differ.
#[verifier::external_body]
pub(crate) fn matmul(a: &Tensor, b: &Tensor) -> (r: Result<Tensor, Error>)
    requires
        tensor_dims(*a).len() >= 3,
    ensures
        r matches Ok(y) ==> {
            &&& multiplies(tensor_dims(*a), tensor_dims(*b))
            &&& tensor_dims(y) == tensor_dims(*a).drop_last().push(tensor_dims(*b).last())
            &&& tensor_dims(*a)[0] == tensor_dims(*b)[0] ==> forall|i: int, q: int|
                0 <= i < tensor_dims(*a)[0] && 0 <= q < lines_per_entry(tensor_dims(*a))
                    ==> matmul_outcomes(
                    line(entry(grid(*a), i), q),
                    met(entry(grid(*a), i), entry(grid(*b), i), q),
                    tensor_dims(*b).last(),
                ).contains(#[trigger] line(entry(grid(y), i), q))
            &&& tensor_device(y) == tensor_device(*a)
        },
        can_multiply(*a, *b) ==> is_computed(r),
{
    a.matmul(b)
}

/// The processor can work on both tensors.
pub open spec fn are_workable(a: Tensor, b: Tensor) -> bool {
    is_workable(a) && is_workable(b)
}

/// What the operator `+` between two tensors may give for two elements.
pub uninterp spec fn add_outcomes(a: u32, b: u32) -> Set<u32>;

/// `y` may be the result of `plus` on `a` and `b`.
pub open spec fn is_sum_of(a: Grid, b: Grid, y: Grid) -> bool {
    &&& a.dims == b.dims
    &&& y.dims == a.dims
    &&& forall|i: int, p: int|
        0 <= i < a.dims[0] && 0 <= p < volume(a.dims.drop_first()) ==> add_outcomes(
            entry(a, i).cells[p],
            entry(b, i).cells[p],
        ).contains(#[trigger] entry(y, i).cells[p])
}

/// The operator `+` between two tensors: their sum, element by element. It fails unless the
/// sizes are the same, and does not fail on the processor where they are.
#[verifier::external_body]
pub(crate) fn plus(a: &Tensor, b: &Tensor) -> (r: Result<Tensor, Error>)
    requires
        tensor_dims(*a).len() >= 1,
    ensures
        r matches Ok(y) ==> {
            &&& tensor_dims(*a) == tensor_dims(*b)
            &&& tensor_dims(y) == tensor_dims(*a)
            &&& forall|i: int, p: int|
                0 <= i < tensor_dims(y)[0] && 0 <= p < volume(tensor_dims(y).drop_first())
                    ==> add_outcomes(
                    entry(grid(*a), i).cells[p],
                    entry(grid(*b), i).cells[p],
                ).contains(#[trigger] entry(grid(y), i).cells[p])
            &&& tensor_device(y) == tensor_device(*a)
        },
        tensor_dims(*a) == tensor_dims(*b) ==> (are_workable(*a, *b) ==> is_computed(r)),
{
    a + b
}

/// What `Tensor::broadcast_add` may give for the parts of two tensors that meet.
pub uninterp spec fn broadcast_add_outcomes(a: Grid, b: Grid) -> Set<Seq<u32>>;

/// `y` may be the result of `broadcast_add` on `a` and `b`.
pub open spec fn is_broadcast_sum(a: Grid, b: Grid, y: Grid) -> bool {
    &&& compatible(a.dims, b.dims)
    &&& y.dims == broadcast_dims(a.dims, b.dims)
    &&& forall|i: int|
        0 <= i < y.dims[0] ==> broadcast_add_outcomes(
            lane(a, y.dims.len() as int, i),
            lane(b, y.dims.len() as int, i),
        ).contains((#[trigger] entry(y, i)).cells)
}

/// `Tensor::broadcast_add`: the sum, axes of size one stretched. It fails unless the sizes are
/// compatible, and does not fail on the processor where they are.
#[verifier::external_body]
pub(crate) fn broadcast_add(a: &Tensor, b: &Tensor) -> (r: Result<Tensor, Error>)
    requires
        tensor_dims(*a).len() >= 1,
    ensures
        r matches Ok(y) ==> {
            &&& compatible(tensor_dims(*a), tensor_dims(*b))
            &&& tensor_dims(y) == broadcast_dims(tensor_dims(*a), tensor_dims(*b))
            &&& forall|i: int|
                0 <= i < tensor_dims(y)[0] ==> broadcast_add_outcomes(
                    lane(grid(*a), tensor_dims(y).len() as int, i),
                    lane(grid(*b), tensor_dims(y).len() as int, i),
                ).contains((#[trigger] entry(grid(y), i)).cells)
            &&& tensor_device(y) == tensor_device(*a)
        },
        compatible(tensor_dims(*a), tensor_dims(*b)) ==> (are_workable(*a, *b) ==> is_computed(r)),
{
    a.broadcast_add(b)
}

/// What `Tensor::broadcast_mul` may give for the parts of two tensors that meet.
pub uninterp spec fn broadcast_mul_outcomes(a: Grid, b: Grid) -> Set<Seq<u32>>;

/// `y` may be the result of `broadcast_mul` on `a` and `b`.
pub open spec fn is_broadcast_product(a: Grid, b: Grid, y: Grid) -> bool {
    &&& compatible(a.dims, b.dims)
    &&& y.dims == broadcast_dims(a.dims, b.dims)
    &&& forall|i: int|
        0 <= i < y.dims[0] ==> broadcast_mul_outcomes(
            lane(a, y.dims.len() as int, i),
            lane(b, y.dims.len() as int, i),
        ).contains((#[trigger] entry(y, i)).cells)
}

/// `Tensor::broadcast_mul`: the product, axes of size one stretched. It fails unless the sizes
/// are compatible, and does not fail on the processor where they are. A first tensor without
/// elements that need not be stretched is handed through.
#[verifier::external_body]
pub(crate) fn broadcast_mul(a: &Tensor, b: &Tensor) -> (r: Result<Tensor, Error>)
    requires
        tensor_dims(*a).len() >= 1,
    ensures
        r matches Ok(y) ==> {
            &&& compatible(tensor_dims(*a), tensor_dims(*b))
            &&& tensor_dims(y) == broadcast_dims(tensor_dims(*a), tensor_dims(*b))
            &&& forall|i: int|
                0 <= i < tensor_dims(y)[0] ==> broadcast_mul_outcomes(
                    lane(grid(*a), tensor_dims(y).len() as int, i),
                    lane(grid(*b), tensor_dims(y).len() as int, i),
                ).contains((#[trigger] entry(grid(y), i)).cells)
            &&& tensor_device(y) == tensor_device(*a)
        },
        compatible(tensor_dims(*a), tensor_dims(*b)) ==> (are_workable(*a, *b) ==> is_computed(r)),
        covers(*a, *b) ==> is_computed(r),
{
    a.broadcast_mul(b)
}

/// What `Tensor::broadcast_div` may give for the parts of two tensors that meet.
pub uninterp spec fn broadcast_div_outcomes(a: Grid, b: Grid) -> Set<Seq<u32>>;

/// `y` may be the result of `broadcast_div` on `a` and `b`.
pub open spec fn is_broadcast_quotient(a: Grid, b: Grid, y: Grid) -> bool {
    &&& compatible(a.dims, b.dims)
    &&& y.dims == broadcast_dims(a.dims, b.dims)
    &&& forall|i: int|
        0 <= i < y.dims[0] ==> broadcast_div_outcomes(
            lane(a, y.dims.len() as int, i),
            lane(b, y.dims.len() as int, i),
        ).contains((#[trigger] entry(y, i)).cells)
}

/// `Tensor::broadcast_div`: the quotient, axes of size one stretched. It fails unless the
/// sizes are compatible, and does not fail on the processor where they are. A first tensor
/// without elements that need not be stretched is handed through.
#[verifier::external_body]
pub(crate) fn broadcast_div(a: &Tensor, b: &Tensor) -> (r: Result<Tensor, Error>)
    requires
        tensor_dims(*a).len() >= 1,
    ensures
        r matches Ok(y) ==> {
            &&& compatible(tensor_dims(*a), tensor_dims(*b))
            &&& tensor_dims(y) == broadcast_dims(tensor_dims(*a), tensor_dims(*b))
            &&& forall|i: int|
                0 <= i < tensor_dims(y)[0] ==> broadcast_div_outcomes(
                    lane(grid(*a), tensor_dims(y).len() as int, i),
                    lane(grid(*b), tensor_dims(y).len() as int, i),
                ).contains((#[trigger] entry(grid(y), i)).cells)
            &&& tensor_device(y) == tensor_device(*a)
        },
        compatible(tensor_dims(*a), tensor_dims(*b)) ==> (are_workable(*a, *b) ==> is_computed(r)),
        covers(*a, *b) ==> is_computed(r),
{
    a.broadcast_div(b)
}

/// What `Tensor::sum` along one axis may give for an entry along the first axis; the axis is
/// counted within the entry.
pub uninterp spec fn sum_outcomes(x: Grid, axis: int) -> Set<Seq<u32>>;

/// `y` may be the result of `sum` on `x`.
pub open spec fn is_sum_along(x: Grid, axis: int, y: Grid) -> bool {
    &&& 1 <= axis < x.dims.len()
    &&& y.dims == x.dims.remove(axis)
    &&& forall|i: int|
        0 <= i < x.dims[0] ==> sum_outcomes(entry(x, i), axis - 1).contains(
            (#[trigger] entry(y, i)).cells,
        )
}

/// `Tensor::sum` along one axis behind the first one, which the result no longer has. No other
/// axis may be empty, since a graphics card divides by the number of sums. It fails for an axis
/// that the tensor lacks, and does not fail on the processor for others.
#[verifier::external_body]
pub(crate) fn sum(x: &Tensor, axis: usize) -> (r: Result<Tensor, Error>)
    requires
        axis >= 1,
        axis < tensor_dims(*x).len() ==> no_empty(tensor_dims(*x).remove(axis as int)),
    ensures
        r matches Ok(y) ==> {
            &&& axis < tensor_dims(*x).len()
            &&& tensor_dims(y) == tensor_dims(*x).remove(axis as int)
            &&& forall|i: int|
                0 <= i < tensor_dims(*x)[0] ==> sum_outcomes(
                    entry(grid(*x), i),
                    axis - 1,
                ).contains((#[trigger] entry(grid(y), i)).cells)
            &&& tensor_device(y) == tensor_device(*x)
        },
        axis < tensor_dims(*x).len() ==> (is_workable(*x) ==> is_computed(r)),
{
    x.sum(axis)
}

/// What `Tensor::sum_keepdim` along two axes may give.
pub uninterp spec fn sum_keepdim_outcomes(x: Grid, a: int, b: int) -> Set<Seq<u32>>;

/// `y` may be the result of `sum_keepdim` on `x`.
pub open spec fn is_sum_kept(x: Grid, a: int, b: int, y: Grid) -> bool {
    &&& 0 <= a < x.dims.len()
    &&& 0 <= b < x.dims.len()
    &&& y.dims == x.dims.update(a, 1).update(b, 1)
    &&& sum_keepdim_outcomes(x, a, b).contains(y.cells)
}

/// `Tensor::sum_keepdim` along two axes, which have size one in the result. No other axis may be
/// empty but on the processor, since a graphics card divides by the number of sums. It fails for
/// an axis that the tensor lacks, and does not fail on the processor for two others.
#[verifier::external_body]
pub(crate) fn sum_keepdim(x: &Tensor, a: usize, b: usize) -> (r: Result<Tensor, Error>)
    requires
        is_processor(tensor_device(*x)) || (a < tensor_dims(*x).len() && b < tensor_dims(*x).len()
            ==> no_empty(tensor_dims(*x).update(a as int, 1).update(b as int, 1))),
    ensures
        r matches Ok(y) ==> {
            &&& a < tensor_dims(*x).len()
            &&& b < tensor_dims(*x).len()
            &&& tensor_dims(y) == tensor_dims(*x).update(a as int, 1).update(b as int, 1)
            &&& sum_keepdim_outcomes(grid(*x), a as int, b as int).contains(tensor_cells(y))
            &&& tensor_device(y) == tensor_device(*x)
        },
        a < b < tensor_dims(*x).len() ==> (is_local(*x) ==> is_computed(r)),
{
    x.sum_keepdim((a, b))
}

} // verus!
