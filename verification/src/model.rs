//! The whole model: samples in, a score per class out.
use candle_core::{Device, Error, Tensor};
use candle_nn::{Dropout, Linear};
use vstd::prelude::*;

use crate::config::Config;
use crate::encoder::Encoder;
use crate::features::{
    frames, frames_are_no_more_than_samples, frames_are_the_places_of_the_last_layer,
    frames_grow_with_samples, proper_steps, run_in_turn, steps_of, FeatureExtractor,
    FeatureProjection,
};
use crate::grid::{broadcast_keeps, place_in_row, unsqueezed, Grid};
use crate::layers::{
    conv_device, conv_settings, conv_tensors, dropout_forward, dropout_from, dropout_new,
    group_norm_device, is_linear, layer_norm_device, linear, linear_fits, linear_forward,
    linear_device, linear_from, linear_is_local, linear_stored, linear_tensors, weights_are_local,
    weights_device, Place, Weights,
};
use crate::masks::{
    attention_mask, attention_mask_grid, frame_mask, frame_mask_grid, is_masked_mean,
    marks_are_the_frames, masked_mean, scores_are_masked_by_marks, ONE,
};
use crate::tensor::{
    device, dim, grid, is_computed, is_tanh, is_workable, tanh, tensor_cells, tensor_device,
    tensor_dims,
};

verus! {

/// A Wav2Vec2 model that tells classes apart.
pub struct Wav2Vec2Classifier {
    pub feature_extractor: FeatureExtractor,
    pub feature_projection: FeatureProjection,
    pub encoder: Encoder,
    pub projector: Linear,
    pub classifier: Linear,
    pub final_dropout: Dropout,
}

/// What the scores of the classes are computed through.
pub struct ModelTrace {
    pub features: Grid,
    pub projected: Grid,
    pub encoded: Grid,
    pub pooled: Grid,
    pub hidden: Grid,
    pub bounded: Grid,
}

impl Wav2Vec2Classifier {
    /// The parts fit together.
    pub open spec fn fits(self) -> bool {
        &&& self.feature_extractor.fits()
        &&& self.feature_projection.fits()
        &&& self.feature_projection.width() >= 1
        &&& self.encoder.fits(self.feature_projection.width())
        &&& linear_fits(linear_tensors(self.projector))
        &&& linear_fits(linear_tensors(self.classifier))
    }

    /// Every layer of the encoder has so many heads.
    pub open spec fn has_heads(self, heads: usize) -> bool {
        forall|i: int|
            0 <= i < self.encoder.layers@.len() ==> (
            #[trigger] self.encoder.layers@[i]).attention.num_heads == heads
    }

    /// The tensors of the parts are kept on this device.
    pub open spec fn is_kept_on(self, device: Device) -> bool {
        &&& self.feature_extractor.is_kept_on(device)
        &&& self.feature_projection.is_kept_on(device)
        &&& self.encoder.is_kept_on(device)
        &&& linear_device(self.projector) == device
        &&& linear_device(self.classifier) == device
    }

    /// The number of classes.
    pub open spec fn classes(self) -> usize {
        linear_tensors(self.classifier)[0].dims[0]
    }

    /// The number of frames that come of a number of samples.
    pub open spec fn frame_count(self, sample_len: usize) -> usize {
        frames(self.feature_extractor.steps(), sample_len as int) as usize
    }

    /// The tensors of the parts are in main memory, for the processor to work on.
    pub open spec fn is_local(self) -> bool {
        &&& self.feature_extractor.is_local()
        &&& self.feature_projection.is_local()
        &&& self.encoder.is_local()
        &&& linear_is_local(self.projector)
        &&& linear_is_local(self.classifier)
    }

    /// Each part takes what the one before it gives.
    pub open spec fn follows_on(self) -> bool {
        let width = self.feature_projection.width();
        let projector = linear_tensors(self.projector)[0].dims;
        &&& self.feature_extractor.follows_on()
        &&& self.feature_projection.takes(self.feature_extractor.channels())
        &&& self.encoder.shares(width)
        &&& projector[1] == width
        &&& projector[0] >= 1
        &&& linear_tensors(self.classifier)[0].dims[1] == projector[0]
        &&& self.classes() >= 1
    }

    /// The tensors of the parts are at a place, with the right sizes.
    pub open spec fn stored(cfg: Config, place: Place) -> bool {
        let base = place.below("wav2vec2"@);
        &&& FeatureExtractor::stored(cfg, base)
        &&& FeatureProjection::stored(cfg, base)
        &&& Encoder::stored(cfg, base.below("encoder"@))
        &&& linear_stored(cfg.hidden_size, cfg.classifier_proj_size, place.below("projector"@))
        &&& linear_stored(
            cfg.classifier_proj_size,
            cfg.id2label@.len() as usize,
            place.below("classifier"@),
        )
    }

    /// The model is the one of the settings, with the weights at a place.
    pub open spec fn loaded(self, cfg: Config, place: Place) -> bool {
        let base = place.below("wav2vec2"@);
        &&& self.feature_extractor.loaded(cfg, base)
        &&& self.feature_projection.loaded(cfg, base)
        &&& self.encoder.loaded(cfg, base.below("encoder"@))
        &&& linear_from(
            self.projector,
            cfg.hidden_size,
            cfg.classifier_proj_size,
            place.below("projector"@),
        )
        &&& linear_from(
            self.classifier,
            cfg.classifier_proj_size,
            cfg.id2label@.len() as usize,
            place.below("classifier"@),
        )
        &&& dropout_from(self.final_dropout, cfg.final_dropout)
    }

    /// The marks of the frames of rows with so many samples, in rows of so many frames.
    pub open spec fn marks(self, sample_lengths: Seq<usize>, max_frames: usize) -> Grid {
        frame_mask_grid(
            sample_lengths.map_values(|len: usize| self.frame_count(len)),
            max_frames,
        )
    }

    /// `y` may be the scores of the classes for the rows of `x`, of which so many samples are
    /// no padding.
    pub open spec fn gives(self, x: Grid, sample_lengths: Seq<usize>, y: Grid) -> bool {
        exists|trace: ModelTrace| #[trigger] self.gives_through(x, sample_lengths, trace, y)
    }

    /// `y` may be the scores of the classes for the rows of `x`, computed through `trace`.
    pub open spec fn gives_through(
        self,
        x: Grid,
        sample_lengths: Seq<usize>,
        trace: ModelTrace,
        y: Grid,
    ) -> bool {
        let marks = self.marks(sample_lengths, trace.projected.dims[1]);
        &&& run_in_turn(self.feature_extractor.layers@, unsqueezed(x, 1), trace.features)
        &&& self.feature_projection.runs(trace.features, trace.projected)
        &&& self.encoder.runs(trace.projected, Some(attention_mask_grid(marks)), trace.encoded)
        &&& is_masked_mean(trace.encoded, marks, trace.pooled)
        &&& is_linear(linear_tensors(self.projector), trace.pooled, trace.hidden)
        &&& is_tanh(trace.hidden, trace.bounded)
        &&& is_linear(linear_tensors(self.classifier), trace.bounded, y)
    }

    /// `y` may be the scores of the classes for the rows of `x`, computed where `x` is kept, with
    /// masks that are kept there too.
    pub open spec fn runs(self, x: Tensor, sample_lengths: Seq<usize>, y: Tensor) -> bool {
        &&& self.gives(grid(x), sample_lengths, grid(y))
        &&& tensor_device(y) == tensor_device(x)
        &&& exists|marks: Tensor, mask: Tensor| #[trigger]
            self.masks_lie_with(x, sample_lengths, marks, mask)
    }

    /// The marks of the frames and what is added to the scores are kept where `x` is.
    pub open spec fn masks_lie_with(
        self,
        x: Tensor,
        sample_lengths: Seq<usize>,
        marks: Tensor,
        mask: Tensor,
    ) -> bool {
        &&& grid(marks) == self.marks(sample_lengths, self.frame_count(tensor_dims(x)[1]))
        &&& tensor_device(marks) == tensor_device(x)
        &&& grid(mask) == attention_mask_grid(grid(marks))
        &&& tensor_device(mask) == tensor_device(x)
    }

    /// The model as the settings ask for it, with its weights. Where the weights are handed out
    /// in main memory, it succeeds if they are there. Settings under which the layers can follow
    /// one another give a model whose parts do.
    #[verifier::spinoff_prover]
    pub(crate) fn load(cfg: &Config, w: &Weights) -> (r: Result<Wav2Vec2Classifier, Error>)
        requires
            cfg.loadable(),
            weights_are_local(*w) || cfg.num_conv_pos_embeddings >= 1,
        ensures
            r matches Ok(m) ==> {
                &&& m.loaded(*cfg, w@)
                &&& m.is_kept_on(weights_device(*w))
                &&& m.classes() == cfg.id2label@.len()
                &&& m.feature_projection.width() == cfg.hidden_size
                &&& m.has_heads(cfg.num_attention_heads)
                &&& cfg.usable() ==> m.fits()
                &&& cfg.usable() && cfg.even() ==> m.follows_on()
                &&& weights_are_local(*w) ==> m.is_local()
            },
            weights_are_local(*w) && Self::stored(*cfg, w@) ==> r is Ok,
    {
        let wav2vec2 = w.pp("wav2vec2");
        let feature_extractor = FeatureExtractor::load(cfg, &wav2vec2)?;
        let feature_projection = FeatureProjection::load(cfg, &wav2vec2)?;
        let encoder = Encoder::load(cfg, &wav2vec2.pp("encoder"))?;
        let projector = linear(cfg.hidden_size, cfg.classifier_proj_size, &w.pp("projector"))?;
        let classes = cfg.id2label.len();
        let classifier = linear(cfg.classifier_proj_size, classes, &w.pp("classifier"))?;
        let final_dropout = dropout_new(&cfg.final_dropout);
        let model = Wav2Vec2Classifier {
            feature_extractor,
            feature_projection,
            encoder,
            projector,
            classifier,
            final_dropout,
        };
        assert(model.loaded(*cfg, w@));
        Ok(model)
    }

    /// The scores of the classes for each row of samples. The rows are padded to one length,
    /// and `sample_lengths` tells how many samples of each are no padding. The processor does not
    /// fail where each part takes what the one before it gives.
    pub(crate) fn forward(&self, xs: &Tensor, sample_lengths: &[usize]) -> (r: Result<
        Tensor,
        Error,
    >)
        requires
            self.fits(),
            tensor_dims(*xs).len() == 2,
            tensor_dims(*xs)[0] == sample_lengths@.len(),
            tensor_dims(*xs)[0] >= 1,
            tensor_dims(*xs)[1] <= usize::MAX / 2,
            tensor_dims(*xs)[0] * tensor_dims(*xs)[1] <= usize::MAX,
            self.frame_count(tensor_dims(*xs)[1]) >= 1,
            self.encoder.counts(
                tensor_dims(*xs)[0],
                self.frame_count(tensor_dims(*xs)[1]),
                self.feature_projection.width(),
            ),
        ensures
            r matches Ok(y) ==> {
                &&& self.runs(*xs, sample_lengths@, y)
                &&& tensor_dims(y) == seq![tensor_dims(*xs)[0], self.classes()]
            },
            self.is_local() && self.follows_on() && is_workable(*xs) ==> is_computed(r),
    {
        let ghost rows = tensor_dims(*xs)[0];
        let ghost len = tensor_dims(*xs)[1];
        proof {
            self.steps_are_proper();
            frames_are_no_more_than_samples(self.feature_extractor.steps(), len as int);
            assert(rows * self.frame_count(len) <= rows * len) by (nonlinear_arith)
                requires
                    self.frame_count(len) <= len,
            ;
        }
        let features = self.feature_extractor.forward(xs)?;
        let projected = self.feature_projection.forward(&features)?;
        let frame_lengths = self.feature_lengths(sample_lengths);
        let frame_mask = frame_mask(
            frame_lengths.as_slice(),
            dim(&projected, 1)?,
            device(&projected),
        )?;
        let attention_mask = attention_mask(&frame_mask)?;
        proof {
            assert(tensor_dims(frame_mask) =~= seq![rows, self.frame_count(len)]);
            assert(tensor_dims(attention_mask) =~= seq![rows, 1, 1, self.frame_count(len)]);
            assert forall|i: int| 0 <= i < self.encoder.layers@.len() implies (
            #[trigger] self.encoder.layers@[i]).attention.admits(
                tensor_dims(attention_mask),
                rows,
                self.frame_count(len),
            ) by {
                let heads = self.encoder.layers@[i].attention.num_heads;
                broadcast_keeps(
                    seq![rows, heads, self.frame_count(len), self.frame_count(len)],
                    tensor_dims(attention_mask),
                );
            }
        }
        let encoded = self.encoder.forward(&projected, Some(&attention_mask))?;
        let pooled = masked_mean(&encoded, &frame_mask)?;
        let hidden = linear_forward(&self.projector, &pooled)?;
        let bounded = tanh(&hidden)?;
        let kept = dropout_forward(&self.final_dropout, &bounded, false)?;
        let scores = linear_forward(&self.classifier, &kept)?;
        proof {
            let trace = ModelTrace {
                features: grid(features),
                projected: grid(projected),
                encoded: grid(encoded),
                pooled: grid(pooled),
                hidden: grid(hidden),
                bounded: grid(bounded),
            };
            assert(self.gives_through(grid(*xs), sample_lengths@, trace, grid(scores)));
            assert(self.masks_lie_with(*xs, sample_lengths@, frame_mask, attention_mask));
            assert(tensor_dims(scores) =~= seq![rows, self.classes()]);
        }
        Ok(scores)
    }

    /// No kernel of the feature extractor is empty, and every kernel moves on.
    pub proof fn steps_are_proper(self)
        requires
            self.fits(),
        ensures
            proper_steps(self.feature_extractor.steps()),
    {
        let layers = self.feature_extractor.layers@;
        assert forall|i: int| 0 <= i < layers.len() implies (#[trigger] steps_of(layers)[i]).0 >= 1
            && steps_of(layers)[i].1 >= 1 by {
            assert(layers[i].fits());
        }
    }

    /// A request of no more than `max_len` samples has no more frames than a row of `max_len`
    /// samples, so its row of marks has room for all of them: it marks its frames, no others
    /// and none too few.
    pub proof fn rows_have_room_for_every_frame(
        self,
        sample_lengths: Seq<usize>,
        max_len: usize,
        i: int,
        j: int,
    )
        requires
            self.fits(),
            0 <= i < sample_lengths.len(),
            sample_lengths[i] <= max_len,
        ensures
            self.frame_count(sample_lengths[i]) <= self.frame_count(max_len),
            0 <= j < self.frame_count(max_len) ==> ((frame_mask_grid(
                sample_lengths.map_values(|len: usize| self.frame_count(len)),
                self.frame_count(max_len),
            ).cells[i * self.frame_count(max_len) + j] == ONE) <==> j < self.frame_count(
                sample_lengths[i],
            )),
    {
        let len = sample_lengths[i];
        let steps = self.feature_extractor.steps();
        self.steps_are_proper();
        frames_grow_with_samples(steps, len as int, max_len as int);
        frames_are_no_more_than_samples(steps, len as int);
        frames_are_no_more_than_samples(steps, max_len as int);
        if 0 <= j < self.frame_count(max_len) {
            marks_are_the_frames(
                sample_lengths.map_values(|len: usize| self.frame_count(len)),
                self.frame_count(max_len),
                i,
                j,
            );
        }
    }

    /// The number of frames that come of a number of samples.
    pub fn feature_output_len(&self, sample_len: usize) -> (n: usize)
        requires
            self.fits(),
        ensures
            n == frames(self.feature_extractor.steps(), sample_len as int),
            n == self.frame_count(sample_len),
    {
        self.feature_extractor.output_len(sample_len)
    }

    /// The number of frames that come of each of these numbers of samples.
    pub fn feature_lengths(&self, sample_lengths: &[usize]) -> (lengths: Vec<usize>)
        requires
            self.fits(),
        ensures
            lengths@ == sample_lengths@.map_values(|len: usize| self.frame_count(len)),
    {
        let mut lengths: Vec<usize> = Vec::new();
        let mut i: usize = 0;
        while i < sample_lengths.len()
            invariant
                self.fits(),
                i <= sample_lengths@.len(),
                lengths@.len() == i,
                forall|j: int|
                    0 <= j < i ==> lengths@[j] == self.frame_count(#[trigger] sample_lengths@[j]),
            decreases sample_lengths@.len() - i,
        {
            lengths.push(self.feature_output_len(sample_lengths[i]));
            i = i + 1;
        }
        assert(lengths@ =~= sample_lengths@.map_values(|len: usize| self.frame_count(len)));
        lengths
    }
}

/// The marks that the model uses: place `j` of row `i` holds the float 1 if and only if request
/// `i` has more than `j` frames, and 0 otherwise, however many frames a row has room for.
pub proof fn marks_tell_frames_from_padding(
    m: Wav2Vec2Classifier,
    sample_lengths: Seq<usize>,
    max_frames: usize,
)
    requires
        sample_lengths.len() <= usize::MAX,
    ensures
        m.marks(sample_lengths, max_frames).dims == seq![
            sample_lengths.len() as usize,
            max_frames,
        ],
        m.marks(sample_lengths, max_frames).cells.len() == sample_lengths.len() * max_frames,
        forall|i: int, j: int|
            #![trigger m.marks(sample_lengths, max_frames).cells[i * max_frames + j]]
            0 <= i < sample_lengths.len() && 0 <= j < max_frames ==> m.marks(
                sample_lengths,
                max_frames,
            ).cells[i * max_frames + j] == (if j < m.frame_count(sample_lengths[i]) {
                0x3f80_0000u32
            } else {
                0u32
            }),
{
    let counts = sample_lengths.map_values(|len: usize| m.frame_count(len));
    assert forall|i: int, j: int|
        #![trigger m.marks(sample_lengths, max_frames).cells[i * max_frames + j]]
        0 <= i < sample_lengths.len() && 0 <= j < max_frames implies m.marks(
        sample_lengths,
        max_frames,
    ).cells[i * max_frames + j] == (if j < m.frame_count(sample_lengths[i]) {
        0x3f80_0000u32
    } else {
        0u32
    }) by {
        marks_are_the_frames(counts, max_frames, i, j);
    }
}

/// Scores come of the samples of all requests: the feature extractor takes them as one channel,
/// its features are projected, every frame attends to the frames of its own request alone, and
/// the mean is taken over the same frames. Which frames those are follows from the number of
/// samples of each request and from nothing else.
pub proof fn scores_come_of_the_frames(
    m: Wav2Vec2Classifier,
    x: Grid,
    sample_lengths: Seq<usize>,
    y: Grid,
) -> (parts: (Grid, Grid, Grid, ModelTrace))
    requires
        m.gives(x, sample_lengths, y),
        x.dims.len() == 2,
        sample_lengths.len() <= usize::MAX,
    ensures
        ({
            let (channel, marks, mask, trace) = parts;
            let len = trace.projected.dims[1];
            &&& channel.dims == seq![x.dims[0], 1, x.dims[1]]
            &&& channel.cells == x.cells
            &&& run_in_turn(m.feature_extractor.layers@, channel, trace.features)
            &&& m.feature_projection.runs(trace.features, trace.projected)
            &&& mask.dims == seq![sample_lengths.len() as usize, 1, 1, len]
            &&& mask.cells.len() == sample_lengths.len() * len
            &&& forall|i: int, j: int|
                #![trigger mask.cells[i * len + j]]
                0 <= i < sample_lengths.len() && 0 <= j < len ==> mask.cells[i * len + j] == (
                if j < m.frame_count(sample_lengths[i]) {
                    0u32
                } else {
                    0xce6e_6b28u32
                })
            &&& m.encoder.runs(trace.projected, Some(mask), trace.encoded)
            &&& marks.dims == seq![sample_lengths.len() as usize, len]
            &&& marks.cells.len() == sample_lengths.len() * len
            &&& forall|i: int, j: int|
                #![trigger marks.cells[i * len + j]]
                0 <= i < sample_lengths.len() && 0 <= j < len ==> marks.cells[i * len + j] == (
                if j < m.frame_count(sample_lengths[i]) {
                    0x3f80_0000u32
                } else {
                    0u32
                })
            &&& is_masked_mean(trace.encoded, marks, trace.pooled)
            &&& is_linear(linear_tensors(m.projector), trace.pooled, trace.hidden)
            &&& is_tanh(trace.hidden, trace.bounded)
            &&& is_linear(linear_tensors(m.classifier), trace.bounded, y)
        }),
{
    let trace = choose|trace: ModelTrace| #[trigger] m.gives_through(x, sample_lengths, trace, y);
    let len = trace.projected.dims[1];
    let marks = m.marks(sample_lengths, len);
    let mask = attention_mask_grid(marks);
    marks_tell_frames_from_padding(m, sample_lengths, len);
    scores_are_masked_by_marks(marks);
    assert forall|i: int, j: int|
        #![trigger mask.cells[i * len + j]]
        0 <= i < sample_lengths.len() && 0 <= j < len implies mask.cells[i * len + j] == (if j
        < m.frame_count(sample_lengths[i]) {
        0u32
    } else {
        0xce6e_6b28u32
    }) by {
        place_in_row(i, j, sample_lengths.len() as int, len as int);
        assert(marks.cells[i * len + j] == 0x3f80_0000u32 || marks.cells[i * len + j] == 0u32);
    }
    assert(unsqueezed(x, 1).dims =~= seq![x.dims[0], 1, x.dims[1]]);
    (unsqueezed(x, 1), marks, mask, trace)
}

/// What comes out of the model is computed where the samples are kept, and so are the marks of
/// the frames and what is added to the scores.
pub proof fn all_is_computed_where_the_samples_are(
    m: Wav2Vec2Classifier,
    x: Tensor,
    sample_lengths: Seq<usize>,
    y: Tensor,
) -> (masks: (Tensor, Tensor))
    requires
        m.runs(x, sample_lengths, y),
        sample_lengths.len() <= usize::MAX,
    ensures
        m.gives(grid(x), sample_lengths, grid(y)),
        tensor_device(y) == tensor_device(x),
        tensor_device(masks.0) == tensor_device(x),
        tensor_device(masks.1) == tensor_device(x),
        ({
            let len = m.frame_count(tensor_dims(x)[1]);
            &&& tensor_dims(masks.0) == seq![sample_lengths.len() as usize, len]
            &&& forall|i: int, j: int|
                #![trigger tensor_cells(masks.0)[i * len + j]]
                0 <= i < sample_lengths.len() && 0 <= j < len ==> tensor_cells(masks.0)[i * len + j]
                    == (if j < m.frame_count(sample_lengths[i]) {
                    0x3f80_0000u32
                } else {
                    0u32
                })
            &&& tensor_dims(masks.1) == seq![sample_lengths.len() as usize, 1, 1, len]
            &&& forall|i: int, j: int|
                #![trigger tensor_cells(masks.1)[i * len + j]]
                0 <= i < sample_lengths.len() && 0 <= j < len ==> tensor_cells(masks.1)[i * len + j]
                    == (if j < m.frame_count(sample_lengths[i]) {
                    0u32
                } else {
                    0xce6e_6b28u32
                })
        }),
{
    let (marks, mask) = choose|marks: Tensor, mask: Tensor| #[trigger]
        m.masks_lie_with(x, sample_lengths, marks, mask);
    let len = m.frame_count(tensor_dims(x)[1]);
    marks_tell_frames_from_padding(m, sample_lengths, len);
    scores_are_masked_by_marks(grid(marks));
    assert(grid(marks).cells == m.marks(sample_lengths, len).cells);
    assert(grid(mask).cells == attention_mask_grid(grid(marks)).cells);
    assert forall|i: int, j: int|
        #![trigger tensor_cells(mask)[i * len + j]]
        0 <= i < sample_lengths.len() && 0 <= j < len implies tensor_cells(mask)[i * len + j] == (
    if j < m.frame_count(sample_lengths[i]) {
        0u32
    } else {
        0xce6e_6b28u32
    }) by {
        place_in_row(i, j, sample_lengths.len() as int, len as int);
        assert(m.marks(sample_lengths, len).cells[i * len + j] == 0x3f80_0000u32 || m.marks(
            sample_lengths,
            len,
        ).cells[i * len + j] == 0u32);
    }
    (marks, mask)
}

/// A model whose feature extractor has no layers takes every sample for a frame.
pub proof fn every_sample_is_a_frame_without_layers(m: Wav2Vec2Classifier, sample_len: usize)
    requires
        m.feature_extractor.layers@.len() == 0,
    ensures
        m.frame_count(sample_len) == sample_len,
{
}

/// The number of frames is the number of places at which the last kernel of the feature extractor
/// fits, one stride apart, along the frames that the layers before it give: the last place lies
/// within, and one more would not. There is none where the kernel does not fit at all.
pub proof fn frames_are_counted_layer_by_layer(
    m: Wav2Vec2Classifier,
    shorter: Wav2Vec2Classifier,
    sample_len: usize,
)
    requires
        m.feature_extractor.fits(),
        m.feature_extractor.layers@.len() > 0,
        shorter.feature_extractor.layers@ == m.feature_extractor.layers@.drop_last(),
    ensures
        ({
            let layers = m.feature_extractor.layers@;
            let last = layers[layers.len() - 1].conv;
            let (kernel, stride) = (conv_tensors(last)[0].dims[2], conv_settings(last).stride);
            let (before, after) = (shorter.frame_count(sample_len), m.frame_count(sample_len));
            &&& after == 0 <==> before < kernel
            &&& after > 0 ==> (after - 1) * stride + kernel <= before < after * stride + kernel
        }),
{
    let layers = m.feature_extractor.layers@;
    let steps = m.feature_extractor.steps();
    assert forall|i: int| 0 <= i < layers.len() implies (#[trigger] steps_of(layers)[i]).0 >= 1
        && steps_of(layers)[i].1 >= 1 by {
        assert(layers[i].fits());
    }
    assert(shorter.feature_extractor.steps() =~= steps.drop_last());
    frames_are_no_more_than_samples(steps, sample_len as int);
    frames_are_no_more_than_samples(steps.drop_last(), sample_len as int);
    frames_are_the_places_of_the_last_layer(
        m.feature_extractor,
        shorter.feature_extractor,
        sample_len as int,
    );
}

/// A model that is kept on a device is kept there whole, part by part.
pub proof fn models_are_kept_whole(m: Wav2Vec2Classifier, device: Device)
    requires
        m.is_kept_on(device),
    ensures
        linear_device(m.projector) == device,
        linear_device(m.classifier) == device,
        layer_norm_device(m.feature_projection.layer_norm) == device,
        linear_device(m.feature_projection.projection) == device,
        conv_device(m.encoder.pos_conv_embed.conv) == device,
        layer_norm_device(m.encoder.layer_norm) == device,
        forall|i: int|
            0 <= i < m.feature_extractor.layers.len() ==> conv_device(
                (#[trigger] m.feature_extractor.layers@[i]).conv,
            ) == device && (m.feature_extractor.layers@[i].norm matches Some(g)
                ==> group_norm_device(g) == device),
        forall|i: int|
            0 <= i < m.encoder.layers.len() ==> {
                let layer = #[trigger] m.encoder.layers@[i];
                &&& linear_device(layer.attention.q_proj) == device
                &&& linear_device(layer.attention.k_proj) == device
                &&& linear_device(layer.attention.v_proj) == device
                &&& linear_device(layer.attention.out_proj) == device
                &&& layer_norm_device(layer.layer_norm) == device
                &&& linear_device(layer.feed_forward_intermediate) == device
                &&& linear_device(layer.feed_forward_output) == device
                &&& layer_norm_device(layer.final_layer_norm) == device
            },
{
    assert forall|i: int| 0 <= i < m.feature_extractor.layers.len() implies conv_device(
        (#[trigger] m.feature_extractor.layers@[i]).conv,
    ) == device && (m.feature_extractor.layers@[i].norm matches Some(g) ==> group_norm_device(g)
        == device) by {
        assert(m.feature_extractor.layers@[i].is_kept_on(device));
    }
    assert forall|i: int| 0 <= i < m.encoder.layers.len() implies {
        let layer = #[trigger] m.encoder.layers@[i];
        &&& linear_device(layer.attention.q_proj) == device
        &&& linear_device(layer.attention.k_proj) == device
        &&& linear_device(layer.attention.v_proj) == device
        &&& linear_device(layer.attention.out_proj) == device
        &&& layer_norm_device(layer.layer_norm) == device
        &&& linear_device(layer.feed_forward_intermediate) == device
        &&& linear_device(layer.feed_forward_output) == device
        &&& layer_norm_device(layer.final_layer_norm) == device
    } by {
        assert(m.encoder.layers@[i].is_kept_on(device));
    }
}

} // verus!
