//! Trained weights and the layers that candle builds out of them.
use candle_core::scalar::Scalar;
use candle_core::{DType, Device, Error, Module, Tensor};
use candle_nn::{Conv1d, Conv1dConfig, Dropout, GroupNorm, LayerNorm, Linear};
use vstd::prelude::*;

use crate::device::is_processor;
use crate::grid::{conv_len, entry, line, lines_per_entry, no_empty, Grid};
use crate::tensor::{
    grid, is_at_hand, is_computed, is_local, is_row_major, is_workable, scalar_bits, tensor_device,
    tensor_dims, INFINITE,
};

verus! {

/// A candle `Linear` layer.
#[verifier::external_type_specification]
#[verifier::external_body]
pub struct ExLinear(candle_nn::Linear);

/// A candle `LayerNorm` layer.
#[verifier::external_type_specification]
#[verifier::external_body]
pub struct ExLayerNorm(candle_nn::LayerNorm);

/// A candle `GroupNorm` layer.
#[verifier::external_type_specification]
#[verifier::external_body]
pub struct ExGroupNorm(candle_nn::GroupNorm);

/// A candle `Conv1d` layer.
#[verifier::external_type_specification]
#[verifier::external_body]
pub struct ExConv1d(candle_nn::Conv1d);

/// A candle `Dropout` layer.
#[verifier::external_type_specification]
#[verifier::external_body]
pub struct ExDropout(candle_nn::Dropout);

/// Named tensors, seen from a place in the tree that the dots in their names span. It holds a
/// candle `VarBuilder`.
#[verifier::external_body]
pub struct Weights {
    vars: candle_nn::VarBuilder<'static>,
}

/// What the tensors of a file in the safetensors format may be by their full names, their
/// elements turned into 32-bit floats, as far as candle can turn them. Turning is arithmetic, so
/// there may be more than one outcome; there is none if the bytes are no such file.
pub uninterp spec fn safetensors_outcomes(data: Seq<u8>) -> Set<Map<Seq<char>, Grid>>;

/// Where the tensors that are handed out are kept.
pub uninterp spec fn weights_device(w: Weights) -> Device;

/// The tensors are handed out in main memory, for the processor to work on.
pub open spec fn weights_are_local(w: Weights) -> bool {
    is_processor(weights_device(w))
}

/// All tensors that are there by their full names, whatever the place.
pub uninterp spec fn weights_tensors(w: Weights) -> Map<Seq<char>, Grid>;

/// The parts of the name of the place.
pub uninterp spec fn weights_path(w: Weights) -> Seq<Seq<char>>;

/// The full name of what is called `name` at the place `path`: all parts, dots between them.
pub open spec fn full_name(path: Seq<Seq<char>>, name: Seq<char>) -> Seq<char>
    decreases path.len(),
{
    if path.len() == 0 {
        name
    } else {
        path[0] + seq!['.'] + full_name(path.drop_first(), name)
    }
}

/// Named tensors and a place in the tree that the dots in their names span.
#[verifier::ext_equal]
pub struct Place {
    pub tensors: Map<Seq<char>, Grid>,
    pub path: Seq<Seq<char>>,
}

impl Place {
    /// Whether there is a tensor called `name` at this place.
    pub open spec fn has(self, name: Seq<char>) -> bool {
        self.tensors.dom().contains(full_name(self.path, name))
    }

    /// The tensor called `name` at this place.
    pub open spec fn entry(self, name: Seq<char>) -> Grid {
        self.tensors[full_name(self.path, name)]
    }

    /// Whether there is a tensor called `name` at this place, and has the sizes `dims`.
    pub open spec fn holds(self, name: Seq<char>, dims: Seq<usize>) -> bool {
        self.has(name) && self.entry(name).dims == dims
    }

    /// The same tensors, seen from the place `part` below this one.
    pub open spec fn below(self, part: Seq<char>) -> Place {
        Place { tensors: self.tensors, path: self.path.push(part) }
    }

    /// The one of two names under which there is a tensor, the first one before the second
    /// one.
    pub open spec fn either(self, first: Seq<char>, second: Seq<char>) -> Seq<char> {
        if !self.has(first) && self.has(second) {
            second
        } else {
            first
        }
    }
}

impl View for Weights {
    type V = Place;

    open spec fn view(&self) -> Place {
        Place { tensors: weights_tensors(*self), path: weights_path(*self) }
    }
}

impl Weights {
    /// `VarBuilder::from_buffered_safetensors`: the tensors of a safetensors file, seen from
    /// the root and handed out on the device. It fails only where the bytes are no such file.
    #[verifier::external_body]
    pub(crate) fn from_safetensors(data: Vec<u8>, device: &Device) -> (r: Result<Weights, Error>)
        ensures
            match r {
                Ok(w) => {
                    &&& safetensors_outcomes(data@).contains(weights_tensors(w))
                    &&& weights_path(w) == Seq::<Seq<char>>::empty()
                    &&& weights_device(w) == *device
                },
                Err(_) => safetensors_outcomes(data@) == Set::<Map<Seq<char>, Grid>>::empty(),
            },
    {
        let vars = candle_nn::VarBuilder::from_buffered_safetensors(data, DType::F32, device)?;
        Ok(Weights { vars })
    }

    /// `VarBuilder::pp`: the same tensors, seen from a place further down.
    #[verifier::external_body]
    pub(crate) fn pp(&self, part: &str) -> (w: Weights)
        ensures
            weights_tensors(w) == weights_tensors(*self),
            weights_path(w) == weights_path(*self).push(part@),
            weights_device(w) == weights_device(*self),
    {
        Weights { vars: self.vars.pp(part) }
    }

    /// `VarBuilder::get`: the tensor with a name. It fails unless there is one with these
    /// sizes, and may fail where the device cannot take it; main memory takes it.
    #[verifier::external_body]
    pub(crate) fn get(&self, dims: Vec<usize>, name: &str) -> (r: Result<Tensor, Error>)
        ensures
            r matches Ok(t) ==> {
                &&& self@.holds(name@, dims@)
                &&& grid(t) == self@.entry(name@)
                &&& tensor_device(t) == weights_device(*self)
            },
            weights_are_local(*self) ==> (self@.holds(name@, dims@) ==> is_computed(r)),
    {
        self.vars.get(dims, name)
    }
}

/// The tensors of a linear layer: the matrix, then the bias if there is one.
pub uninterp spec fn linear_tensors(l: Linear) -> Seq<Grid>;

/// The matrix is one, and the bias has an entry for each of its rows.
pub open spec fn linear_fits(tensors: Seq<Grid>) -> bool {
    &&& tensors.len() == 2
    &&& tensors[0].dims.len() == 2
    &&& tensors[1].dims == seq![tensors[0].dims[0]]
}

/// Where the tensors of a linear layer are kept.
pub uninterp spec fn linear_device(l: Linear) -> Device;

/// Whether the tensors of a linear layer are in main memory, in row-major order.
pub uninterp spec fn linear_is_local(l: Linear) -> bool;

/// The tensors of a linear layer are there with the right sizes.
pub open spec fn linear_stored(in_dim: usize, out_dim: usize, place: Place) -> bool {
    &&& place.holds("weight"@, seq![out_dim, in_dim])
    &&& place.holds("bias"@, seq![out_dim])
}

/// `candle_nn::linear`: the layer whose matrix is called `weight` and whose bias is called
/// `bias`. It fails unless both are there with the right sizes, and only then where they are
/// handed out in main memory.
#[verifier::external_body]
pub(crate) fn linear(in_dim: usize, out_dim: usize, w: &Weights) -> (r: Result<Linear, Error>)
    ensures
        r matches Ok(l) ==> {
            &&& w@.holds("weight"@, seq![out_dim, in_dim])
            &&& w@.holds("bias"@, seq![out_dim])
            &&& linear_tensors(l) == seq![w@.entry("weight"@), w@.entry("bias"@)]
            &&& linear_device(l) == weights_device(*w)
        },
        weights_are_local(*w) ==> (linear_stored(in_dim, out_dim, w@) ==> match r {
            Ok(l) => linear_is_local(l),
            Err(_) => false,
        }),
{
    candle_nn::linear(in_dim, out_dim, w.vars.clone())
}

/// The layer is made of the tensors at a place.
pub open spec fn linear_from(l: Linear, in_dim: usize, out_dim: usize, place: Place) -> bool {
    &&& linear_stored(in_dim, out_dim, place)
    &&& linear_tensors(l) == seq![place.entry("weight"@), place.entry("bias"@)]
}

/// What the linear layer with these tensors may give for a line along the last axis.
pub uninterp spec fn linear_outcomes(tensors: Seq<Grid>, x: Seq<u32>) -> Set<Seq<u32>>;

/// `y` may be the result of the linear layer with these tensors on `x`.
pub open spec fn is_linear(tensors: Seq<Grid>, x: Grid, y: Grid) -> bool {
    &&& 2 <= x.dims.len() <= 4
    &&& x.dims.last() == tensors[0].dims[1]
    &&& y.dims == x.dims.update(x.dims.len() - 1, tensors[0].dims[0])
    &&& forall|i: int, q: int|
        0 <= i < x.dims[0] && 0 <= q < lines_per_entry(x.dims) ==> linear_outcomes(
            tensors,
            line(entry(x, i), q),
        ).contains(#[trigger] line(entry(y, i), q))
}

/// The processor can run the layer on the tensor: both are at hand, and the sizes fit.
pub open spec fn linear_runs(l: Linear, x: Tensor) -> bool {
    &&& linear_is_local(l)
    &&& linear_fits(linear_tensors(l))
    &&& linear_tensors(l)[0].dims[0] >= 1
    &&& is_at_hand(x)
    &&& 2 <= tensor_dims(x).len() <= 3
    &&& tensor_dims(x).last() == linear_tensors(l)[0].dims[1]
}

/// `Linear::forward`: each row of the last axis multiplied by the matrix, plus the bias. It
/// fails unless the sizes fit, and does not fail on the processor where they do.
#[verifier::external_body]
pub(crate) fn linear_forward(l: &Linear, x: &Tensor) -> (r: Result<Tensor, Error>)
    ensures
        linear_fits(linear_tensors(*l)) ==> (r matches Ok(y) ==> {
            &&& 2 <= tensor_dims(*x).len() <= 4
            &&& tensor_dims(*x).last() == linear_tensors(*l)[0].dims[1]
            &&& tensor_dims(y) == tensor_dims(*x).update(
                tensor_dims(*x).len() - 1,
                linear_tensors(*l)[0].dims[0],
            )
            &&& forall|i: int, q: int|
                0 <= i < tensor_dims(*x)[0] && 0 <= q < lines_per_entry(tensor_dims(*x))
                    ==> linear_outcomes(
                    linear_tensors(*l),
                    line(entry(grid(*x), i), q),
                ).contains(#[trigger] line(entry(grid(y), i), q))
        }),
        r matches Ok(y) ==> tensor_device(y) == tensor_device(*x),
        linear_runs(*l, *x) ==> is_computed(r),
{
    l.forward(x)
}

/// The tensors of a layer norm: the weight, then the bias if there is one.
pub uninterp spec fn layer_norm_tensors(l: LayerNorm) -> Seq<Grid>;

/// The bits of the number that a layer norm adds to the variance.
pub uninterp spec fn layer_norm_eps(l: LayerNorm) -> u64;

/// Where the tensors of a layer norm are kept.
pub uninterp spec fn layer_norm_device(l: LayerNorm) -> Device;

/// Whether the tensors of a layer norm are in main memory, in row-major order.
pub uninterp spec fn layer_norm_is_local(l: LayerNorm) -> bool;

/// The tensors of a norm are there with the right size.
pub open spec fn norm_stored(size: usize, place: Place) -> bool {
    place.holds("weight"@, seq![size]) && place.holds("bias"@, seq![size])
}

/// `candle_nn::layer_norm`: the norm whose weight is called `weight` or `gamma`, and whose
/// bias is called `bias` or `beta`. It fails unless both are there with the right size. It does
/// not fail where they are handed out in main memory and called `weight` and `bias`; of the
/// other names no success is claimed.
#[verifier::external_body]
pub(crate) fn layer_norm(size: usize, eps: &Scalar, w: &Weights) -> (r: Result<LayerNorm, Error>)
    ensures
        r matches Ok(l) ==> {
            &&& w@.holds(w@.either("weight"@, "gamma"@), seq![size])
            &&& w@.holds(w@.either("bias"@, "beta"@), seq![size])
            &&& layer_norm_tensors(l) == seq![
                w@.entry(w@.either("weight"@, "gamma"@)),
                w@.entry(w@.either("bias"@, "beta"@)),
            ]
            &&& layer_norm_eps(l) == scalar_bits(*eps)
            &&& layer_norm_device(l) == weights_device(*w)
        },
        weights_are_local(*w) ==> (r matches Ok(l) ==> layer_norm_is_local(l)),
        weights_are_local(*w) ==> (norm_stored(size, w@) ==> r is Ok),
{
    candle_nn::layer_norm(size, eps.to_f64(), w.vars.clone())
}

/// The norm is made of the tensors at a place.
pub open spec fn layer_norm_from(l: LayerNorm, size: usize, eps: Scalar, place: Place) -> bool {
    let weight = place.either("weight"@, "gamma"@);
    let bias = place.either("bias"@, "beta"@);
    &&& place.holds(weight, seq![size])
    &&& place.holds(bias, seq![size])
    &&& layer_norm_tensors(l) == seq![place.entry(weight), place.entry(bias)]
    &&& layer_norm_eps(l) == scalar_bits(eps)
}

/// What the layer norm with these tensors may give for a line along the last axis.
pub uninterp spec fn layer_norm_outcomes(tensors: Seq<Grid>, eps: u64, x: Seq<u32>) -> Set<
    Seq<u32>,
>;

/// The weight and the bias are vectors of one length.
pub open spec fn layer_norm_fits(tensors: Seq<Grid>) -> bool {
    &&& tensors.len() == 2
    &&& tensors[0].dims.len() == 1
    &&& tensors[1].dims == tensors[0].dims
}

/// The size of the last axis of a normalized tensor: an axis of size one is stretched.
pub open spec fn norm_width(tensors: Seq<Grid>, width: usize) -> usize {
    if width == 1 {
        tensors[0].dims[0]
    } else {
        width
    }
}

/// `y` may be the result of the layer norm with these tensors on `x`.
pub open spec fn is_layer_norm(tensors: Seq<Grid>, eps: u64, x: Grid, y: Grid) -> bool {
    &&& y.dims == x.dims.update(x.dims.len() - 1, norm_width(tensors, x.dims.last()))
    &&& forall|i: int, q: int|
        0 <= i < x.dims[0] && 0 <= q < lines_per_entry(x.dims) ==> layer_norm_outcomes(
            tensors,
            eps,
            line(entry(x, i), q),
        ).contains(#[trigger] line(entry(y, i), q))
}

/// The processor can run the norm on the tensor: both are there, and the sizes fit.
pub open spec fn layer_norm_runs(l: LayerNorm, x: Tensor) -> bool {
    &&& layer_norm_is_local(l)
    &&& layer_norm_fits(layer_norm_tensors(l))
    &&& is_workable(x)
    &&& tensor_dims(x).last() == layer_norm_tensors(l)[0].dims[0]
}

/// `LayerNorm::forward`: each row of the last axis brought to mean zero and variance one,
/// multiplied by the weight, plus the bias. No axis may be empty: the rows must have elements,
/// and a graphics card divides by the number of rows. It does not fail on the processor where the
/// sizes fit.
#[verifier::external_body]
pub(crate) fn layer_norm_forward(l: &LayerNorm, x: &Tensor) -> (r: Result<Tensor, Error>)
    requires
        tensor_dims(*x).len() >= 2,
        no_empty(tensor_dims(*x)),
    ensures
        layer_norm_fits(layer_norm_tensors(*l)) ==> (r matches Ok(y) ==> {
            &&& tensor_dims(y) == tensor_dims(*x).update(
                tensor_dims(*x).len() - 1,
                norm_width(layer_norm_tensors(*l), tensor_dims(*x).last()),
            )
            &&& forall|i: int, q: int|
                0 <= i < tensor_dims(*x)[0] && 0 <= q < lines_per_entry(tensor_dims(*x))
                    ==> layer_norm_outcomes(
                    layer_norm_tensors(*l),
                    layer_norm_eps(*l),
                    line(entry(grid(*x), i), q),
                ).contains(#[trigger] line(entry(grid(y), i), q))
        }),
        r matches Ok(y) ==> tensor_device(y) == tensor_device(*x),
        layer_norm_runs(*l, *x) ==> is_computed(r),
{
    l.forward(x)
}

/// The tensors of a group norm: the weight, then the bias.
pub uninterp spec fn group_norm_tensors(g: GroupNorm) -> Seq<Grid>;

/// The number of groups, the number of channels and the bits of the number that is added to
/// the variance.
pub uninterp spec fn group_norm_settings(g: GroupNorm) -> Seq<u64>;

/// Where the tensors of a group norm are kept.
pub uninterp spec fn group_norm_device(g: GroupNorm) -> Device;

/// Whether the tensors of a group norm are in main memory, in row-major order.
pub uninterp spec fn group_norm_is_local(g: GroupNorm) -> bool;

/// The groups divide the channels evenly, which no groups do with no channels.
pub open spec fn groups_divide(groups: int, channels: int) -> bool {
    if groups == 0 {
        channels == 0
    } else {
        channels % groups == 0
    }
}

/// `candle_nn::group_norm`: the norm whose weight is called `weight` and whose bias is called
/// `bias`. It fails unless both are there with the right size and the groups divide the
/// channels evenly, and only then where they are handed out in main memory.
#[verifier::external_body]
pub(crate) fn group_norm(groups: usize, channels: usize, eps: &Scalar, w: &Weights) -> (r: Result<
    GroupNorm,
    Error,
>)
    ensures
        r matches Ok(g) ==> {
            &&& w@.holds("weight"@, seq![channels])
            &&& w@.holds("bias"@, seq![channels])
            &&& group_norm_tensors(g) == seq![w@.entry("weight"@), w@.entry("bias"@)]
            &&& group_norm_settings(g) == seq![groups as u64, channels as u64, scalar_bits(*eps)]
            &&& group_norm_device(g) == weights_device(*w)
        },
        weights_are_local(*w) ==> (norm_stored(channels, w@) ==> (groups_divide(
            groups as int,
            channels as int,
        ) ==> match r {
            Ok(g) => group_norm_is_local(g),
            Err(_) => false,
        })),
{
    candle_nn::group_norm(groups, channels, eps.to_f64(), w.vars.clone())
}

/// The norm is made of the tensors at a place.
pub open spec fn group_norm_from(
    g: GroupNorm,
    groups: usize,
    channels: usize,
    eps: Scalar,
    place: Place,
) -> bool {
    &&& place.holds("weight"@, seq![channels])
    &&& place.holds("bias"@, seq![channels])
    &&& group_norm_tensors(g) == seq![place.entry("weight"@), place.entry("bias"@)]
    &&& group_norm_settings(g) == seq![groups as u64, channels as u64, scalar_bits(eps)]
}

/// What the group norm with these tensors may give for an entry along the first axis.
pub uninterp spec fn group_norm_outcomes(tensors: Seq<Grid>, settings: Seq<u64>, x: Grid) -> Set<
    Seq<u32>,
>;

/// There is a group, and the weight and the bias have an entry for each channel.
pub open spec fn group_norm_fits(tensors: Seq<Grid>, settings: Seq<u64>) -> bool {
    &&& settings.len() == 3
    &&& settings[0] >= 1
    &&& tensors.len() == 2
    &&& tensors[0].dims.len() == 1
    &&& tensors[0].dims[0] == settings[1]
    &&& tensors[1].dims == tensors[0].dims
}

/// `y` may be the result of the group norm with these tensors on `x`.
pub open spec fn is_group_norm(
    tensors: Seq<Grid>,
    settings: Seq<u64>,
    x: Grid,
    y: Grid,
) -> bool {
    &&& y.dims == x.dims
    &&& forall|i: int|
        0 <= i < x.dims[0] ==> group_norm_outcomes(tensors, settings, entry(x, i)).contains(
            (#[trigger] entry(y, i)).cells,
        )
}

/// The processor can run the norm on the tensor: both are there, and the sizes fit.
pub open spec fn group_norm_runs(g: GroupNorm, x: Tensor) -> bool {
    let settings = group_norm_settings(g);
    &&& group_norm_is_local(g)
    &&& settings[0] >= 1
    &&& groups_divide(settings[0] as int, settings[1] as int)
    &&& is_workable(x)
    &&& tensor_dims(x).len() == 3
    &&& tensor_dims(x)[1] == settings[1]
}

/// `GroupNorm::forward`: each group of channels brought to mean zero and variance one,
/// multiplied by the weight, plus the bias. No axis may be empty, since a graphics card divides
/// by the number of groups. It does not fail on the processor where the sizes fit.
#[verifier::external_body]
pub(crate) fn group_norm_forward(g: &GroupNorm, x: &Tensor) -> (r: Result<Tensor, Error>)
    requires
        group_norm_fits(group_norm_tensors(*g), group_norm_settings(*g)),
        tensor_dims(*x).len() >= 1,
        no_empty(tensor_dims(*x)),
    ensures
        r matches Ok(y) ==> {
            &&& tensor_dims(y) == tensor_dims(*x)
            &&& forall|i: int|
                0 <= i < tensor_dims(*x)[0] ==> group_norm_outcomes(
                    group_norm_tensors(*g),
                    group_norm_settings(*g),
                    entry(grid(*x), i),
                ).contains((#[trigger] entry(grid(y), i)).cells)
            &&& tensor_device(y) == tensor_device(*x)
        },
        group_norm_runs(*g, *x) ==> is_computed(r),
{
    g.forward(x)
}

/// How the kernel of a convolution is moved along.
pub struct ConvSettings {
    pub padding: usize,
    pub stride: usize,
    pub dilation: usize,
    pub groups: usize,
}

/// The tensors of a convolution: the kernels, then the bias if there is one.
pub uninterp spec fn conv_tensors(c: Conv1d) -> Seq<Grid>;

/// How the kernel of a convolution is moved along.
pub uninterp spec fn conv_settings(c: Conv1d) -> ConvSettings;

/// Where the tensors of a convolution are kept.
pub uninterp spec fn conv_device(c: Conv1d) -> Device;

/// Whether the tensors of a convolution are in main memory, in row-major order.
pub uninterp spec fn conv_is_local(c: Conv1d) -> bool;

/// The tensors of a convolution are there with the right sizes.
pub open spec fn conv_stored(kernels: Seq<usize>, bias: bool, place: Place) -> bool {
    &&& place.holds("weight"@, kernels)
    &&& bias ==> place.holds("bias"@, seq![kernels[0]])
}

/// The convolution is made of the tensors at a place.
pub open spec fn conv_from(
    c: Conv1d,
    kernels: Seq<usize>,
    bias: bool,
    settings: ConvSettings,
    place: Place,
) -> bool {
    &&& conv_stored(kernels, bias, place)
    &&& conv_tensors(c) == if bias {
        seq![place.entry("weight"@), place.entry("bias"@)]
    } else {
        seq![place.entry("weight"@)]
    }
    &&& conv_settings(c) == settings
}

/// `candle_nn::conv1d`: the convolution whose kernels are called `weight` and whose bias is
/// called `bias`. It fails unless both are there with the right sizes, and only then where they
/// are handed out in main memory.
#[verifier::external_body]
pub(crate) fn conv1d(
    in_channels: usize,
    out_channels: usize,
    kernel: usize,
    settings: ConvSettings,
    w: &Weights,
) -> (r: Result<Conv1d, Error>)
    requires
        settings.groups >= 1,
    ensures
        r matches Ok(c) ==> {
            &&& w@.holds("weight"@, seq![out_channels, in_channels / settings.groups, kernel])
            &&& w@.holds("bias"@, seq![out_channels])
            &&& conv_tensors(c) == seq![w@.entry("weight"@), w@.entry("bias"@)]
            &&& conv_settings(c) == settings
            &&& conv_device(c) == weights_device(*w)
        },
        weights_are_local(*w) ==> (conv_stored(
            seq![out_channels, in_channels / settings.groups, kernel],
            true,
            w@,
        ) ==> match r {
            Ok(c) => conv_is_local(c),
            Err(_) => false,
        }),
{
    let ConvSettings { padding, stride, dilation, groups } = settings;
    let config = Conv1dConfig { padding, stride, dilation, groups, ..Default::default() };
    candle_nn::conv1d(in_channels, out_channels, kernel, config, w.vars.clone())
}

/// `candle_nn::conv1d_no_bias`: the convolution without bias whose kernels are called
/// `weight`. It fails unless they are there with the right sizes, and only then where they are
/// handed out in main memory.
#[verifier::external_body]
pub(crate) fn conv1d_no_bias(
    in_channels: usize,
    out_channels: usize,
    kernel: usize,
    settings: ConvSettings,
    w: &Weights,
) -> (r: Result<Conv1d, Error>)
    requires
        settings.groups >= 1,
    ensures
        r matches Ok(c) ==> {
            &&& w@.holds("weight"@, seq![out_channels, in_channels / settings.groups, kernel])
            &&& conv_tensors(c) == seq![w@.entry("weight"@)]
            &&& conv_settings(c) == settings
            &&& conv_device(c) == weights_device(*w)
        },
        weights_are_local(*w) ==> (conv_stored(
            seq![out_channels, in_channels / settings.groups, kernel],
            false,
            w@,
        ) ==> match r {
            Ok(c) => conv_is_local(c),
            Err(_) => false,
        }),
{
    let ConvSettings { padding, stride, dilation, groups } = settings;
    let config = Conv1dConfig { padding, stride, dilation, groups, ..Default::default() };
    candle_nn::conv1d_no_bias(in_channels, out_channels, kernel, config, w.vars.clone())
}

/// Both tensors are in main memory, in row-major order.
pub open spec fn lie_ready(a: Tensor, b: Tensor) -> bool {
    is_local(a) && is_row_major(a) && is_local(b) && is_row_major(b)
}

/// `Conv1d::new`: the convolution with these kernels and this bias.
#[verifier::external_body]
pub(crate) fn conv1d_new(weight: Tensor, bias: Tensor, settings: ConvSettings) -> (c: Conv1d)
    ensures
        conv_tensors(c) == seq![grid(weight), grid(bias)],
        conv_settings(c) == settings,
        tensor_device(weight) == tensor_device(bias) ==> conv_device(c) == tensor_device(weight),
        lie_ready(weight, bias) ==> conv_is_local(c),
{
    let ConvSettings { padding, stride, dilation, groups } = settings;
    let config = Conv1dConfig { padding, stride, dilation, groups, ..Default::default() };
    Conv1d::new(weight, Some(bias), config)
}

/// `Conv1d::config`: how the kernel is moved along.
#[verifier::external_body]
pub(crate) fn conv1d_config(c: &Conv1d) -> (settings: ConvSettings)
    ensures
        settings == conv_settings(*c),
{
    let Conv1dConfig { padding, stride, dilation, groups, .. } = *c.config();
    ConvSettings { padding, stride, dilation, groups }
}

/// `Conv1d::weight`: the kernels.
#[verifier::external_body]
pub(crate) fn conv1d_weight(c: &Conv1d) -> (t: &Tensor)
    ensures
        grid(*t) == conv_tensors(*c)[0],
{
    c.weight()
}

/// What the convolution with these tensors may give for an entry along the first axis.
pub uninterp spec fn conv_outcomes(tensors: Seq<Grid>, settings: ConvSettings, x: Grid) -> Set<
    Seq<u32>,
>;

/// The kernels are there, and the bias has an entry for each of them.
pub open spec fn conv_fits(tensors: Seq<Grid>) -> bool {
    &&& 1 <= tensors.len() <= 2
    &&& tensors[0].dims.len() == 3
    &&& tensors.len() == 2 ==> tensors[1].dims == seq![tensors[0].dims[0]]
}

/// Kernels of sizes `kernels` find a place along the last axis of a tensor of sizes `dims`, the
/// number of places and that of the channels can be counted, and each group has as many kernels
/// as the next.
pub open spec fn conv_applies(
    kernels: Seq<usize>,
    settings: ConvSettings,
    dims: Seq<usize>,
) -> bool {
    &&& kernels[2] >= 1
    &&& settings.stride >= 1
    &&& settings.groups >= 1
    &&& kernels[1] * settings.groups <= usize::MAX
    &&& dims[2] + 2 * settings.padding <= usize::MAX
    &&& settings.dilation * (kernels[2] - 1) + 1 <= dims[2] + 2 * settings.padding
    &&& dims[1] == kernels[1] * settings.groups ==> kernels[0] as int % settings.groups as int == 0
}

/// `y` may be the result of the convolution with these tensors on `x`.
pub open spec fn is_conv(
    tensors: Seq<Grid>,
    settings: ConvSettings,
    x: Grid,
    y: Grid,
) -> bool {
    &&& x.dims.len() == 3
    &&& x.dims[1] == tensors[0].dims[1] * settings.groups
    &&& y.dims.len() == 3
    &&& y.dims[0] == x.dims[0]
    &&& y.dims[1] == tensors[0].dims[0]
    &&& y.dims[2] == conv_len(
        x.dims[2] as int,
        tensors[0].dims[2] as int,
        settings.padding as int,
        settings.stride as int,
        settings.dilation as int,
    )
    &&& forall|i: int|
        0 <= i < x.dims[0] ==> conv_outcomes(tensors, settings, entry(x, i)).contains(
            (#[trigger] entry(y, i)).cells,
        )
}

/// The processor can run the convolution on the tensor: both are there, and the channels fit.
pub open spec fn conv_runs(c: Conv1d, x: Tensor) -> bool {
    let kernels = conv_tensors(c)[0].dims;
    &&& conv_is_local(c)
    &&& is_workable(x)
    &&& tensor_dims(x).len() == 3
    &&& tensor_dims(x)[1] == kernels[1] * conv_settings(c).groups
    &&& kernels[0] >= 1
}

/// `Conv1d::forward`: the convolution along the last axis, plus the bias. It fails unless the
/// channels fit, and does not fail on the processor where they do.
#[verifier::external_body]
pub(crate) fn conv1d_forward(c: &Conv1d, x: &Tensor) -> (r: Result<Tensor, Error>)
    requires
        conv_fits(conv_tensors(*c)),
        tensor_dims(*x).len() == 3 ==> conv_applies(
            conv_tensors(*c)[0].dims,
            conv_settings(*c),
            tensor_dims(*x),
        ),
    ensures
        r matches Ok(y) ==> {
            &&& is_conv(conv_tensors(*c), conv_settings(*c), grid(*x), grid(y))
            &&& forall|i: int|
                0 <= i < tensor_dims(*x)[0] ==> conv_outcomes(
                    conv_tensors(*c),
                    conv_settings(*c),
                    entry(grid(*x), i),
                ).contains((#[trigger] entry(grid(y), i)).cells)
        },
        r matches Ok(y) ==> tensor_device(y) == tensor_device(*x),
        conv_runs(*c, *x) ==> is_computed(r),
{
    c.forward(x)
}

/// The chance with which a dropout layer drops an element in training, as the bits of a 32-bit
/// float.
pub uninterp spec fn dropout_rate(d: Dropout) -> u32;

/// The bits of a 64-bit float rounded to a 32-bit one.
pub uninterp spec fn rounded_bits(bits: u64) -> u32;

/// `Dropout::new`: a dropout layer with this rate, rounded to a 32-bit float. Nothing is said
/// of a rate that is negative, infinite or no number.
#[verifier::external_body]
pub(crate) fn dropout_new(rate: &Scalar) -> (d: Dropout)
    ensures
        scalar_bits(*rate) < INFINITE ==> dropout_rate(d) == rounded_bits(scalar_bits(*rate)),
{
    Dropout::new(rate.to_f64() as _)
}

/// The layer drops elements with this rate.
pub open spec fn dropout_from(d: Dropout, rate: Scalar) -> bool {
    scalar_bits(rate) < INFINITE ==> dropout_rate(d) == rounded_bits(scalar_bits(rate))
}

/// `Dropout::forward`: outside of training it hands the very tensor through. In training it
/// drops elements at random, and nothing is said of the result.
#[verifier::external_body]
pub(crate) fn dropout_forward(d: &Dropout, x: &Tensor, train: bool) -> (r: Result<Tensor, Error>)
    ensures
        match r {
            Ok(y) => !train ==> {
                &&& grid(y) == grid(*x)
                &&& tensor_device(y) == tensor_device(*x)
                &&& is_local(*x) ==> is_local(y)
                &&& is_row_major(*x) ==> is_row_major(y)
            },
            Err(_) => train,
        },
{
    d.forward(x, train)
}

} // verus!
