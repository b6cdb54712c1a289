//! From samples to features: the convolutions that turn samples into frames, and the
//! projection of the frames to the width of the encoder.
use candle_core::{Device, Error, Tensor};
use candle_nn::{Conv1d, Dropout, GroupNorm, LayerNorm, Linear};
use vstd::prelude::*;

use crate::config::Config;
use crate::grid::{conv_len, no_empty, transposed, unsqueezed, Grid};
use crate::layers::{
    conv1d, conv1d_config, conv1d_forward, conv1d_no_bias, conv1d_weight, conv_device, conv_fits,
    conv_from, conv_is_local, conv_settings, conv_stored, conv_tensors, dropout_forward,
    dropout_from, dropout_new, group_norm, group_norm_device, group_norm_fits, group_norm_forward,
    group_norm_from, group_norm_is_local, group_norm_settings, group_norm_tensors, groups_divide,
    is_conv, is_group_norm, is_layer_norm, is_linear, layer_norm, layer_norm_device, layer_norm_eps,
    layer_norm_fits, layer_norm_forward, layer_norm_from, layer_norm_is_local, layer_norm_tensors,
    linear, linear_device, linear_fits, linear_forward, linear_from, linear_is_local, linear_stored,
    linear_tensors, norm_stored, weights_are_local, weights_device, ConvSettings, Place, Weights,
};
use crate::meaning::last_axes_of_three_are_exchanged;
use crate::tensor::{
    dim, gelu, grid, is_computed, is_gelu, is_local, is_row_major, is_workable, tensor_device,
    tensor_dims, transpose, unsqueeze,
};
use crate::text::{around_number, decimal};

verus! {

/// How many frames are left of `len` samples after convolutions with these kernel sizes and
/// strides. Nothing is left once a kernel is longer than what it runs along.
pub open spec fn frames(steps: Seq<(usize, usize)>, len: int) -> int
    decreases steps.len(),
{
    if steps.len() == 0 {
        len
    } else if len < steps[0].0 {
        0
    } else {
        frames(
            steps.drop_first(),
            conv_len(len, steps[0].0 as int, 0, steps[0].1 as int, 1),
        )
    }
}

/// No kernel is empty, and every kernel moves on.
pub open spec fn proper_steps(steps: Seq<(usize, usize)>) -> bool {
    forall|i: int| 0 <= i < steps.len() ==> (#[trigger] steps[i]).0 >= 1 && steps[i].1 >= 1
}

/// A convolution without padding finds at least one place and at most one per entry, and no
/// fewer places along more entries.
pub proof fn conv_len_is_ordered(a: int, b: int, kernel: int, stride: int)
    requires
        1 <= kernel <= a <= b,
        stride >= 1,
    ensures
        1 <= conv_len(a, kernel, 0, stride, 1) <= conv_len(b, kernel, 0, stride, 1),
        conv_len(a, kernel, 0, stride, 1) <= a,
{
    vstd::arithmetic::div_mod::lemma_div_is_ordered(a - kernel, b - kernel, stride);
    vstd::arithmetic::div_mod::lemma_div_pos_is_pos(a - kernel, stride);
    vstd::arithmetic::div_mod::lemma_div_is_ordered_by_denominator(a - kernel, 1, stride);
}

/// More samples never give fewer frames.
pub proof fn frames_grow_with_samples(steps: Seq<(usize, usize)>, a: int, b: int)
    requires
        proper_steps(steps),
        0 <= a <= b,
    ensures
        frames(steps, a) <= frames(steps, b),
    decreases steps.len(),
{
    if steps.len() > 0 {
        let (kernel, stride) = (steps[0].0 as int, steps[0].1 as int);
        if b >= kernel {
            let next_b = conv_len(b, kernel, 0, stride, 1);
            conv_len_is_ordered(b, b, kernel, stride);
            if a >= kernel {
                conv_len_is_ordered(a, b, kernel, stride);
                frames_grow_with_samples(
                    steps.drop_first(),
                    conv_len(a, kernel, 0, stride, 1),
                    next_b,
                );
            } else {
                frames_are_no_more_than_samples(steps.drop_first(), next_b);
            }
        }
    }
}

/// There are never more frames than samples.
pub proof fn frames_are_no_more_than_samples(steps: Seq<(usize, usize)>, len: int)
    requires
        proper_steps(steps),
        0 <= len,
    ensures
        0 <= frames(steps, len) <= len,
    decreases steps.len(),
{
    if steps.len() > 0 && len >= steps[0].0 {
        let (kernel, stride) = (steps[0].0 as int, steps[0].1 as int);
        conv_len_is_ordered(len, len, kernel, stride);
        frames_are_no_more_than_samples(
            steps.drop_first(),
            conv_len(len, kernel, 0, stride, 1),
        );
    }
}

/// One layer of the feature extractor.
pub struct ConvLayer {
    pub conv: Conv1d,
    pub norm: Option<GroupNorm>,
}

impl ConvLayer {
    /// The size of the kernel and the stride.
    pub open spec fn step(self) -> (usize, usize) {
        (conv_tensors(self.conv)[0].dims[2], conv_settings(self.conv).stride)
    }

    /// The number of channels that come out.
    pub open spec fn channels(self) -> usize {
        conv_tensors(self.conv)[0].dims[0]
    }

    /// The parts fit together.
    pub open spec fn fits(self) -> bool {
        &&& conv_fits(conv_tensors(self.conv))
        &&& conv_settings(self.conv).padding == 0
        &&& conv_settings(self.conv).dilation == 1
        &&& conv_settings(self.conv).groups == 1
        &&& self.step().0 >= 1
        &&& self.step().1 >= 1
        &&& self.channels() >= 1
        &&& self.norm matches Some(g) ==> group_norm_fits(
            group_norm_tensors(g),
            group_norm_settings(g),
        )
    }

    /// The tensors of the parts are in main memory, for the processor to work on.
    pub open spec fn is_local(self) -> bool {
        &&& conv_is_local(self.conv)
        &&& self.norm matches Some(g) ==> group_norm_is_local(g)
    }

    /// The tensors of the parts are kept on this device.
    pub open spec fn is_kept_on(self, device: Device) -> bool {
        &&& conv_device(self.conv) == device
        &&& self.norm matches Some(g) ==> group_norm_device(g) == device
    }

    /// The layer takes so many channels, and its norm takes what its convolution gives.
    pub open spec fn takes(self, channels: usize) -> bool {
        &&& conv_tensors(self.conv)[0].dims[1] == channels
        &&& self.norm matches Some(g) ==> {
            let settings = group_norm_settings(g);
            &&& settings[1] == self.channels()
            &&& groups_divide(settings[0] as int, settings[1] as int)
        }
    }

    /// The tensors of layer `i` are at a place, with the right sizes.
    pub open spec fn stored(cfg: Config, place: Place, i: int) -> bool {
        let name = "feature_extractor.conv_layers."@ + decimal(i as nat);
        &&& conv_stored(
            seq![cfg.conv_dim@[i], cfg.channels_into(i), cfg.conv_kernel@[i]],
            cfg.conv_bias,
            place.below(name + ".conv"@),
        )
        &&& cfg.normed(i) ==> norm_stored(cfg.conv_dim@[i], place.below(name + ".layer_norm"@))
    }

    /// The layer is layer `i` of a feature extractor with the weights at a place.
    pub open spec fn loaded(self, cfg: Config, place: Place, i: int) -> bool {
        let name = "feature_extractor.conv_layers."@ + decimal(i as nat);
        &&& conv_from(
            self.conv,
            seq![cfg.conv_dim@[i], cfg.channels_into(i), cfg.conv_kernel@[i]],
            cfg.conv_bias,
            ConvSettings { padding: 0, stride: cfg.conv_stride@[i], dilation: 1, groups: 1 },
            place.below(name + ".conv"@),
        )
        &&& match self.norm {
            Some(g) => cfg.normed(i) && group_norm_from(
                g,
                cfg.conv_dim@[i],
                cfg.conv_dim@[i],
                cfg.layer_norm_eps,
                place.below(name + ".layer_norm"@),
            ),
            None => !cfg.normed(i),
        }
    }

    /// Layer `i` takes and gives as many channels as the settings ask for.
    pub proof fn takes_what_is_asked_for(self, cfg: Config, place: Place, i: int)
        requires
            self.loaded(cfg, place, i),
            0 <= i < cfg.conv_layers(),
            cfg.conv_dim@[i] >= 1,
        ensures
            self.takes(cfg.channels_into(i)),
            self.channels() == cfg.conv_dim@[i],
    {
        let channels = cfg.conv_dim@[i];
        let kernels = seq![channels, cfg.channels_into(i), cfg.conv_kernel@[i]];
        assert(conv_tensors(self.conv)[0].dims == kernels);
        assert(kernels[0] == channels && kernels[1] == cfg.channels_into(i));
        if let Some(g) = self.norm {
            let settings = group_norm_settings(g);
            assert(settings[0] == channels as u64 && settings[1] == channels as u64);
            assert(settings[1] as int % settings[0] as int == 0) by {
                vstd::arithmetic::div_mod::lemma_mod_self_0(channels as int);
            }
        }
    }

    /// `y` may be the result of the layer on `x`.
    pub open spec fn runs(self, x: Grid, y: Grid) -> bool {
        exists|c: Grid, n: Grid| #[trigger] self.runs_through(x, c, n, y)
    }

    /// `y` may be the result of the layer on `x`, with `c` after the convolution and `n` after
    /// the norm.
    pub open spec fn runs_through(self, x: Grid, c: Grid, n: Grid, y: Grid) -> bool {
        &&& is_conv(conv_tensors(self.conv), conv_settings(self.conv), x, c)
        &&& match self.norm {
            Some(g) => is_group_norm(group_norm_tensors(g), group_norm_settings(g), c, n),
            None => n == c,
        }
        &&& is_gelu(n, y)
    }
}

/// The convolutions that turn samples into frames.
pub struct FeatureExtractor {
    pub layers: Vec<ConvLayer>,
}

/// The kernel size and the stride of each layer.
pub open spec fn steps_of(layers: Seq<ConvLayer>) -> Seq<(usize, usize)> {
    layers.map_values(|layer: ConvLayer| layer.step())
}

/// `y` may be the result of the layers, one after the other, on `x`.
pub open spec fn run_in_turn(layers: Seq<ConvLayer>, x: Grid, y: Grid) -> bool
    decreases layers.len(),
{
    if layers.len() == 0 {
        y == x
    } else {
        exists|between: Grid|
            run_in_turn(layers.drop_last(), x, between) && #[trigger] layers.last().runs(
                between,
                y,
            )
    }
}

impl FeatureExtractor {
    /// The kernel size and the stride of each layer.
    pub open spec fn steps(self) -> Seq<(usize, usize)> {
        steps_of(self.layers@)
    }

    /// Every layer fits.
    pub open spec fn fits(self) -> bool {
        forall|i: int| 0 <= i < self.layers@.len() ==> (#[trigger] self.layers@[i]).fits()
    }

    /// The tensors of the layers are in main memory, for the processor to work on.
    pub open spec fn is_local(self) -> bool {
        forall|i: int| 0 <= i < self.layers@.len() ==> (#[trigger] self.layers@[i]).is_local()
    }

    /// The tensors of the layers are kept on this device.
    pub open spec fn is_kept_on(self, device: Device) -> bool {
        forall|i: int|
            0 <= i < self.layers@.len() ==> (#[trigger] self.layers@[i]).is_kept_on(device)
    }

    /// Each layer takes what the one before it gives, the first one a single channel.
    pub open spec fn follows_on(self) -> bool {
        forall|i: int|
            0 <= i < self.layers@.len() ==> (#[trigger] self.layers@[i]).takes(
                if i == 0 {
                    1
                } else {
                    self.layers@[i - 1].channels()
                },
            )
    }

    /// The tensors of all layers are at a place, with the right sizes.
    pub open spec fn stored(cfg: Config, place: Place) -> bool {
        forall|i: int|
            0 <= i < cfg.conv_layers() ==> #[trigger] ConvLayer::stored(cfg, place, i)
    }

    /// The layers are those of the settings, with the weights at a place.
    pub open spec fn loaded(self, cfg: Config, place: Place) -> bool {
        &&& self.layers@.len() == cfg.conv_layers()
        &&& forall|i: int|
            0 <= i < self.layers@.len() ==> (#[trigger] self.layers@[i]).loaded(cfg, place, i)
    }

    /// The layers as the settings ask for them, with their weights. Where the weights are
    /// handed out in main memory, it succeeds if they are there.
    pub(crate) fn load(cfg: &Config, w: &Weights) -> (r: Result<FeatureExtractor, Error>)
        ensures
            r matches Ok(f) ==> {
                &&& f.loaded(*cfg, w@)
                &&& f.is_kept_on(weights_device(*w))
                &&& cfg.convs_are_usable() ==> f.fits() && f.follows_on()
                &&& weights_are_local(*w) ==> f.is_local()
            },
            weights_are_local(*w) && Self::stored(*cfg, w@) ==> r is Ok,
    {
        let count = cfg.conv_layer_count();
        let mut layers: Vec<ConvLayer> = Vec::new();
        let mut in_channels: usize = 1;
        let mut idx: usize = 0;
        while idx < count
            invariant
                count == cfg.conv_layers(),
                idx <= count,
                layers@.len() == idx,
                in_channels == cfg.channels_into(idx as int),
                forall|i: int| 0 <= i < idx ==> (#[trigger] layers@[i]).loaded(*cfg, w@, i),
                forall|i: int|
                    0 <= i < idx ==> (#[trigger] layers@[i]).is_kept_on(weights_device(*w)),
                cfg.convs_are_usable() ==> forall|i: int|
                    0 <= i < idx ==> (#[trigger] layers@[i]).fits(),
                weights_are_local(*w) ==> forall|i: int|
                    0 <= i < idx ==> (#[trigger] layers@[i]).is_local(),
            decreases count - idx,
        {
            let out_channels = cfg.conv_dim[idx];
            let kernel_size = cfg.conv_kernel[idx];
            let settings = ConvSettings {
                padding: 0,
                stride: cfg.conv_stride[idx],
                dilation: 1,
                groups: 1,
            };
            let conv_weights = w.pp(
                around_number("feature_extractor.conv_layers.", idx, ".conv").as_str(),
            );
            proof {
                let name = "feature_extractor.conv_layers."@ + decimal(idx as nat);
                assert(conv_weights@ == w@.below(name + ".conv"@));
                assert(in_channels / 1 == in_channels);
                assert(Self::stored(*cfg, w@) ==> ConvLayer::stored(*cfg, w@, idx as int));
                if out_channels >= 1 {
                    vstd::arithmetic::div_mod::lemma_mod_self_0(out_channels as int);
                }
            }
            let conv = if cfg.conv_bias {
                conv1d(in_channels, out_channels, kernel_size, settings, &conv_weights)?
            } else {
                conv1d_no_bias(in_channels, out_channels, kernel_size, settings, &conv_weights)?
            };
            let norm = if idx == 0 && cfg.feat_extract_norm == "group".to_owned() {
                let norm_weights = w.pp(
                    around_number(
                        "feature_extractor.conv_layers.",
                        idx,
                        ".layer_norm",
                    ).as_str(),
                );
                proof {
                    let name = "feature_extractor.conv_layers."@ + decimal(idx as nat);
                    assert(norm_weights@ == w@.below(name + ".layer_norm"@));
                }
                Some(
                    group_norm(out_channels, out_channels, &cfg.layer_norm_eps, &norm_weights)?,
                )
            } else {
                None
            };
            layers.push(ConvLayer { conv, norm });
            assert(layers@[idx as int].loaded(*cfg, w@, idx as int));
            in_channels = out_channels;
            idx = idx + 1;
        }
        let extractor = FeatureExtractor { layers };
        proof {
            assert forall|i: int|
                0 <= i < layers@.len() && cfg.convs_are_usable() implies (
            #[trigger] layers@[i]).takes(
                if i == 0 {
                    1
                } else {
                    layers@[i - 1].channels()
                },
            ) by {
                layers@[i].takes_what_is_asked_for(*cfg, w@, i);
                if i > 0 {
                    layers@[i - 1].takes_what_is_asked_for(*cfg, w@, i - 1);
                }
            }
        }
        Ok(extractor)
    }

    /// The number of channels that come out.
    pub open spec fn channels(self) -> usize {
        if self.layers@.len() == 0 {
            1
        } else {
            self.layers@.last().channels()
        }
    }

    /// The layers, one after the other, on a row of samples per request. The rows must be long
    /// enough to give a frame. The processor does not fail where each layer follows on the one
    /// before it.
    pub(crate) fn forward(&self, xs: &Tensor) -> (r: Result<Tensor, Error>)
        requires
            self.fits(),
            tensor_dims(*xs).len() == 2,
            tensor_dims(*xs)[0] >= 1,
            frames(self.steps(), tensor_dims(*xs)[1] as int) >= 1,
        ensures
            r matches Ok(y) ==> {
                &&& run_in_turn(self.layers@, unsqueezed(grid(*xs), 1), grid(y))
                &&& tensor_dims(y).len() == 3
                &&& tensor_dims(y)[0] == tensor_dims(*xs)[0]
                &&& tensor_dims(y)[1] == self.channels()
                &&& tensor_dims(y)[2] == frames(self.steps(), tensor_dims(*xs)[1] as int)
                &&& tensor_device(y) == tensor_device(*xs)
            },
            self.is_local() && self.follows_on() && is_workable(*xs) ==> {
                &&& r is Ok
                &&& is_local(r->Ok_0)
                &&& self.layers@.len() >= 1 || is_row_major(*xs) ==> is_row_major(r->Ok_0)
            },
    {
        let ghost rows = tensor_dims(*xs)[0];
        let ghost count = frames(self.steps(), tensor_dims(*xs)[1] as int);
        let ghost start = unsqueezed(grid(*xs), 1);
        let ghost sure = self.is_local() && self.follows_on() && is_workable(*xs);
        let mut ys = unsqueeze(xs, 1)?;
        let mut i: usize = 0;
        assert(self.layers@.take(0) =~= Seq::<ConvLayer>::empty());
        assert(self.steps().skip(0) =~= self.steps());
        while i < self.layers.len()
            invariant
                self.fits(),
                i <= self.layers.len(),
                count >= 1,
                run_in_turn(self.layers@.take(i as int), start, grid(ys)),
                tensor_dims(ys).len() == 3,
                tensor_dims(ys)[0] == rows,
                tensor_dims(ys)[1] == if i == 0 {
                    1
                } else {
                    self.layers@[i - 1].channels()
                },
                frames(self.steps().skip(i as int), tensor_dims(ys)[2] as int) == count,
                sure == (self.is_local() && self.follows_on() && is_workable(*xs)),
                no_empty(tensor_dims(ys)),
                tensor_device(ys) == tensor_device(*xs),
                sure ==> is_local(ys),
                sure ==> (i >= 1 || is_row_major(*xs) ==> is_row_major(ys)),
            decreases self.layers.len() - i,
        {
            let layer = &self.layers[i];
            let ghost x = grid(ys);
            assert(self.steps().skip(i as int)[0] == layer.step());
            assert(self.steps().skip(i as int).drop_first() =~= self.steps().skip(i + 1));
            assert(sure ==> layer.is_local() && layer.takes(tensor_dims(ys)[1]));
            ys = conv1d_forward(&layer.conv, &ys)?;
            proof {
                let len = x.dims[2] as int;
                conv_len_is_ordered(len, len, layer.step().0 as int, layer.step().1 as int);
                assert(no_empty(tensor_dims(ys)));
            }
            let ghost c = grid(ys);
            if let Some(norm) = &layer.norm {
                ys = group_norm_forward(norm, &ys)?;
            }
            let ghost n = grid(ys);
            ys = gelu(&ys)?;
            proof {
                assert(layer.runs_through(x, c, n, grid(ys)));
                assert(layer.runs(x, grid(ys)));
                let done = self.layers@.take(i + 1);
                assert(done.drop_last() =~= self.layers@.take(i as int));
                assert(done.last() == *layer);
                assert(run_in_turn(done, start, grid(ys)));
            }
            i = i + 1;
        }
        assert(self.layers@.take(i as int) =~= self.layers@);
        assert(self.steps().skip(i as int) =~= Seq::<(usize, usize)>::empty());
        Ok(ys)
    }

    /// The number of frames that the layers make of a number of samples.
    pub(crate) fn output_len(&self, sample_len: usize) -> (n: usize)
        requires
            self.fits(),
        ensures
            n == frames(self.steps(), sample_len as int),
    {
        let mut len: usize = sample_len;
        let mut i: usize = 0;
        assert(self.steps().skip(0) =~= self.steps());
        while i < self.layers.len()
            invariant
                self.fits(),
                i <= self.layers.len(),
                frames(self.steps().skip(i as int), len as int) == frames(
                    self.steps(),
                    sample_len as int,
                ),
            decreases self.layers.len() - i,
        {
            let layer = &self.layers[i];
            assert(self.steps().skip(i as int)[0] == layer.step());
            assert(self.steps().skip(i as int).drop_first() =~= self.steps().skip(i + 1));
            let cfg = conv1d_config(&layer.conv);
            let kernel = match dim(conv1d_weight(&layer.conv), 2) {
                Ok(kernel) => kernel,
                Err(_) => 1,
            };
            if len < kernel {
                return 0;
            }
            proof {
                conv_len_is_ordered(len as int, len as int, kernel as int, cfg.stride as int);
                assert(cfg.dilation * (kernel - 1) == kernel - 1) by (nonlinear_arith)
                    requires
                        cfg.dilation == 1,
                ;
            }
            len = (len + 2 * cfg.padding - cfg.dilation * (kernel - 1) - 1) / cfg.stride + 1;
            i = i + 1;
        }
        assert(self.steps().skip(i as int) =~= Seq::<(usize, usize)>::empty());
        len
    }
}

/// The projection of the frames to the width of the encoder.
pub struct FeatureProjection {
    pub layer_norm: LayerNorm,
    pub projection: Linear,
    pub dropout: Dropout,
}

impl FeatureProjection {
    /// The tensors of each part fit together.
    pub open spec fn fits(self) -> bool {
        &&& layer_norm_fits(layer_norm_tensors(self.layer_norm))
        &&& linear_fits(linear_tensors(self.projection))
    }

    /// The width of the frames that come out.
    pub open spec fn width(self) -> usize {
        linear_tensors(self.projection)[0].dims[0]
    }

    /// The tensors of the parts are in main memory, for the processor to work on.
    pub open spec fn is_local(self) -> bool {
        layer_norm_is_local(self.layer_norm) && linear_is_local(self.projection)
    }

    /// The tensors of the parts are kept on this device.
    pub open spec fn is_kept_on(self, device: Device) -> bool {
        layer_norm_device(self.layer_norm) == device && linear_device(self.projection) == device
    }

    /// The projection takes so many channels and gives frames of some width.
    pub open spec fn takes(self, channels: usize) -> bool {
        &&& layer_norm_tensors(self.layer_norm)[0].dims[0] == channels
        &&& linear_tensors(self.projection)[0].dims[1] == channels
        &&& self.width() >= 1
    }

    /// The tensors of the parts are at a place, with the right sizes.
    pub open spec fn stored(cfg: Config, place: Place) -> bool {
        let channels = cfg.conv_dim@.last();
        &&& norm_stored(channels, place.below("feature_projection.layer_norm"@))
        &&& linear_stored(
            channels,
            cfg.hidden_size,
            place.below("feature_projection.projection"@),
        )
    }

    /// The projection is the one of the settings, with the weights at a place.
    pub open spec fn loaded(self, cfg: Config, place: Place) -> bool {
        let channels = cfg.conv_dim@.last();
        &&& layer_norm_from(
            self.layer_norm,
            channels,
            cfg.layer_norm_eps,
            place.below("feature_projection.layer_norm"@),
        )
        &&& linear_from(
            self.projection,
            channels,
            cfg.hidden_size,
            place.below("feature_projection.projection"@),
        )
        &&& dropout_from(self.dropout, cfg.feat_proj_dropout)
    }

    /// `y` may be the result of the projection on `x`.
    pub open spec fn runs(self, x: Grid, y: Grid) -> bool {
        exists|n: Grid| #[trigger] self.runs_through(x, n, y)
    }

    /// `y` may be the result of the projection on `x`, with `n` after the norm.
    pub open spec fn runs_through(self, x: Grid, n: Grid, y: Grid) -> bool {
        &&& is_layer_norm(
            layer_norm_tensors(self.layer_norm),
            layer_norm_eps(self.layer_norm),
            transposed(x, 1, 2),
            n,
        )
        &&& is_linear(linear_tensors(self.projection), n, y)
    }

    /// The projection as the settings ask for it, with its weights. Where the weights are
    /// handed out in main memory, it succeeds if they are there.
    pub(crate) fn load(cfg: &Config, w: &Weights) -> (r: Result<FeatureProjection, Error>)
        requires
            cfg.conv_dim@.len() >= 1,
        ensures
            r matches Ok(p) ==> {
                &&& p.loaded(*cfg, w@)
                &&& p.fits()
                &&& p.width() == cfg.hidden_size
                &&& p.is_kept_on(weights_device(*w))
                &&& weights_are_local(*w) ==> p.is_local()
            },
            weights_are_local(*w) && Self::stored(*cfg, w@) ==> r is Ok,
    {
        let channels = cfg.conv_dim[cfg.conv_dim.len() - 1];
        let layer_norm = layer_norm(
            channels,
            &cfg.layer_norm_eps,
            &w.pp("feature_projection.layer_norm"),
        )?;
        let projection = linear(
            channels,
            cfg.hidden_size,
            &w.pp("feature_projection.projection"),
        )?;
        let dropout = dropout_new(&cfg.feat_proj_dropout);
        Ok(FeatureProjection { layer_norm, projection, dropout })
    }

    /// The projection of the channels of each frame. The processor does not fail on as many
    /// channels as the projection takes.
    pub(crate) fn forward(&self, xs: &Tensor) -> (r: Result<Tensor, Error>)
        requires
            self.fits(),
            tensor_dims(*xs).len() == 3,
            no_empty(tensor_dims(*xs)),
        ensures
            r matches Ok(y) ==> {
                &&& self.runs(grid(*xs), grid(y))
                &&& tensor_device(y) == tensor_device(*xs)
                &&& tensor_dims(y) == seq![tensor_dims(*xs)[0], tensor_dims(*xs)[2], self.width()]
            },
            self.is_local() && self.takes(tensor_dims(*xs)[1]) && is_workable(*xs) ==> is_computed(
                r,
            ),
    {
        let ghost x = grid(*xs);
        let xs = transpose(xs, 1, 2)?;
        let xs = layer_norm_forward(&self.layer_norm, &xs)?;
        let ghost n = grid(xs);
        let xs = linear_forward(&self.projection, &xs)?;
        assert(self.runs_through(x, n, grid(xs)));
        assert(tensor_dims(xs) =~= seq![x.dims[0], x.dims[2], self.width()]);
        dropout_forward(&self.dropout, &xs, false)
    }
}

/// Without layers every sample is a frame.
pub proof fn frames_without_layers(f: FeatureExtractor, len: int)
    requires
        f.layers@.len() == 0,
    ensures
        frames(f.steps(), len) == len,
{
}

/// The last layer finds as many places as its kernel fits, one stride apart, along what the layers
/// before it give: the last place lies within, and one more would not. It finds none where the
/// kernel does not fit at all.
pub proof fn frames_are_the_places_of_the_last_layer(
    f: FeatureExtractor,
    shorter: FeatureExtractor,
    len: int,
)
    requires
        f.fits(),
        f.layers@.len() > 0,
        shorter.layers@ == f.layers@.drop_last(),
        len >= 0,
    ensures
        ({
            let last = f.layers@[f.layers@.len() - 1].conv;
            let (kernel, stride) = (conv_tensors(last)[0].dims[2], conv_settings(last).stride);
            let (before, after) = (frames(shorter.steps(), len), frames(f.steps(), len));
            &&& after >= 0
            &&& after == 0 <==> before < kernel
            &&& after > 0 ==> (after - 1) * stride + kernel <= before < after * stride + kernel
        }),
{
    let steps = f.steps();
    let layers = f.layers@;
    let last = layers[layers.len() - 1];
    assert(last.fits());
    assert(shorter.steps() =~= steps.drop_last());
    assert(steps.last() == last.step());
    assert forall|i: int| 0 <= i < steps.len() implies (#[trigger] steps[i]).0 >= 1 && steps[i].1
        >= 1 by {
        assert(layers[i].fits());
    }
    frames_by_last_step(steps, len);
    frames_are_no_more_than_samples(shorter.steps(), len);
    let (kernel, stride) = (steps.last().0 as int, steps.last().1 as int);
    let before = frames(shorter.steps(), len);
    if before >= kernel {
        let q = (before - kernel) / stride;
        vstd::arithmetic::div_mod::lemma_fundamental_div_mod(before - kernel, stride);
        vstd::arithmetic::div_mod::lemma_mod_bound(before - kernel, stride);
        vstd::arithmetic::div_mod::lemma_div_pos_is_pos(before - kernel, stride);
        assert(q * stride == stride * q && (q + 1) * stride == stride * q + stride)
            by (nonlinear_arith);
    }
}

/// The last step is taken along what the steps before it give.
proof fn frames_by_last_step(steps: Seq<(usize, usize)>, len: int)
    requires
        proper_steps(steps),
        steps.len() > 0,
        len >= 0,
    ensures
        ({
            let before = frames(steps.drop_last(), len);
            let (kernel, stride) = (steps.last().0 as int, steps.last().1 as int);
            frames(steps, len) == if before < kernel {
                0
            } else {
                (before - kernel) / stride + 1
            }
        }),
    decreases steps.len(),
{
    assert(steps.last() == steps[steps.len() - 1]);
    if steps.len() == 1 {
        reveal_with_fuel(frames, 2);
    } else {
        let rest = steps.drop_first();
        assert(rest.last() == steps.last());
        assert(rest.drop_last() =~= steps.drop_last().drop_first());
        assert(steps.drop_last()[0] == steps[0]);
        if len >= steps[0].0 {
            conv_len_is_ordered(len, len, steps[0].0 as int, steps[0].1 as int);
            frames_by_last_step(rest, conv_len(len, steps[0].0 as int, 0, steps[0].1 as int, 1));
        }
    }
}

/// Without layers the samples come through as they are.
pub proof fn no_layers_change_nothing(f: FeatureExtractor, x: Grid, y: Grid)
    requires
        f.layers@.len() == 0,
    ensures
        run_in_turn(f.layers@, x, y) <==> y == x,
{
}

/// What comes of some layers comes of the last one, run on what comes of the layers before it.
pub proof fn last_layer_runs_on_the_others(
    f: FeatureExtractor,
    shorter: FeatureExtractor,
    x: Grid,
    y: Grid,
)
    requires
        f.layers@.len() > 0,
        shorter.layers@ == f.layers@.drop_last(),
    ensures
        run_in_turn(f.layers@, x, y) <==> exists|between: Grid|
            run_in_turn(shorter.layers@, x, between) && #[trigger] f.layers@[f.layers@.len()
                - 1].runs(between, y),
{
    assert(f.layers@.last() == f.layers@[f.layers@.len() - 1]);
}

/// What comes of a layer comes of its convolution, its norm where it has one, and the activation.
pub proof fn conv_layers_norm_and_activate(layer: ConvLayer, x: Grid, y: Grid) -> (parts: (
    Grid,
    Grid,
))
    requires
        layer.runs(x, y),
    ensures
        is_conv(conv_tensors(layer.conv), conv_settings(layer.conv), x, parts.0),
        match layer.norm {
            Some(g) => is_group_norm(
                group_norm_tensors(g),
                group_norm_settings(g),
                parts.0,
                parts.1,
            ),
            None => parts.1 == parts.0,
        },
        is_gelu(parts.1, y),
{
    let (c, n) = choose|c: Grid, n: Grid| #[trigger] layer.runs_through(x, c, n, y);
    (c, n)
}

/// What is projected is every frame with all its channels, normed first.
pub proof fn frames_are_normed_and_projected(f: FeatureProjection, x: Grid, y: Grid) -> (parts: (
    Grid,
    Grid,
))
    requires
        f.runs(x, y),
        x.dims.len() == 3,
    ensures
        ({
            let (turned, normed) = parts;
            let (rows, channels, len) = (x.dims[0], x.dims[1], x.dims[2]);
            &&& turned.dims == seq![rows, len, channels]
            &&& forall|i: int, j: int, k: int|
                #![trigger turned.cells[(i * len + k) * channels + j]]
                0 <= i < rows && 0 <= j < channels && 0 <= k < len ==> turned.cells[(i * len + k)
                    * channels + j] == x.cells[(i * channels + j) * len + k]
            &&& is_layer_norm(
                layer_norm_tensors(f.layer_norm),
                layer_norm_eps(f.layer_norm),
                turned,
                normed,
            )
            &&& is_linear(linear_tensors(f.projection), normed, y)
        }),
{
    let n = choose|n: Grid| #[trigger] f.runs_through(x, n, y);
    let (rows, channels, len) = (x.dims[0], x.dims[1], x.dims[2]);
    let turned = transposed(x, 1, 2);
    assert(turned.dims =~= seq![rows, len, channels]);
    assert forall|i: int, j: int, k: int|
        #![trigger turned.cells[(i * len + k) * channels + j]]
        0 <= i < rows && 0 <= j < channels && 0 <= k < len implies turned.cells[(i * len + k)
        * channels + j] == x.cells[(i * channels + j) * len + k] by {
        last_axes_of_three_are_exchanged(x, i, j, k);
    }
    (turned, n)
}

} // verus!
