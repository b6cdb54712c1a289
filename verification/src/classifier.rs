//! The classifier: a loaded model that answers batches of requests.
use candle_core::{Device, Error, Tensor};
use vstd::prelude::*;

use crate::config::Config;
use crate::device::is_processor;
use crate::features::frames_are_no_more_than_samples;
use crate::grid::{place_in_row, volume_of_two, Grid};
use crate::layers::{linear_tensors, safetensors_outcomes, weights_tensors, Place, Weights};
use crate::masks::ZERO;
use crate::model::Wav2Vec2Classifier;
use crate::scores::{is_answer, respond, GenderResponse, ResponseView};
use crate::tensor::{
    cells, grid, is_softmax, matrix, softmax, tensor_cells, tensor_device, tensor_dims,
};

verus! {

/// Why there is no classifier, or no answer.
pub enum ClassifierError {
    /// A request has too few samples to give a frame.
    TooShort,
    /// Candle could not build or run the model.
    Model(Error),
}

/// What may be said of an error. It may hold a backtrace, or what another library says, so there
/// may be more than one text.
pub uninterp spec fn error_texts(err: Error) -> Set<Seq<char>>;

/// `Error::to_string`: what candle says of an error.
#[verifier::external_body]
fn error_text(err: &Error) -> (text: String)
    ensures
        error_texts(*err).contains(text@),
{
    err.to_string()
}

impl ClassifierError {
    /// The text is one that a client may be told: that audio is too short, or what candle says.
    pub open spec fn is_text(self, text: Seq<char>) -> bool {
        match self {
            ClassifierError::TooShort => text
                == "audio is too short for Wav2Vec2 feature extraction"@,
            ClassifierError::Model(err) => error_texts(err).contains(text),
        }
    }

    /// What a client is told.
    pub fn message(&self) -> (text: String)
        ensures
            self.is_text(text@),
            match *self {
                ClassifierError::TooShort => text@
                    == "audio is too short for Wav2Vec2 feature extraction"@,
                ClassifierError::Model(err) => error_texts(err).contains(text@),
            },
    {
        match self {
            ClassifierError::TooShort => {
                "audio is too short for Wav2Vec2 feature extraction".to_owned()
            },
            ClassifierError::Model(err) => error_text(err),
        }
    }
}

/// The samples of each request.
pub open spec fn rows_of(samples: Seq<Vec<u32>>) -> Seq<Seq<u32>> {
    samples.map_values(|row: Vec<u32>| row@)
}

/// The number of samples of each request.
pub open spec fn lengths_of(samples: Seq<Seq<u32>>) -> Seq<usize> {
    samples.map_values(|row: Seq<u32>| row.len() as usize)
}

/// The greatest of these numbers, or zero if there is none.
pub open spec fn longest(lengths: Seq<usize>) -> usize
    decreases lengths.len(),
{
    if lengths.len() == 0 {
        0
    } else {
        let others = longest(lengths.drop_last());
        if others < lengths.last() {
            lengths.last()
        } else {
            others
        }
    }
}

/// The greatest of some numbers is one of them, and none is greater. That of no numbers is zero.
pub proof fn longest_is_one_of_them(lengths: Seq<usize>)
    ensures
        lengths.len() == 0 ==> longest(lengths) == 0,
        lengths.len() > 0 ==> lengths.contains(longest(lengths)),
        forall|i: int| 0 <= i < lengths.len() ==> (#[trigger] lengths[i]) <= longest(lengths),
    decreases lengths.len(),
{
    if lengths.len() > 0 {
        let others = lengths.drop_last();
        longest_is_one_of_them(others);
        if longest(lengths) == lengths.last() {
            assert(lengths[lengths.len() - 1] == longest(lengths));
        } else {
            let i = choose|i: int| 0 <= i < others.len() && others[i] == longest(others);
            assert(lengths[i] == longest(lengths));
        }
        assert forall|i: int| 0 <= i < lengths.len() implies (#[trigger] lengths[i]) <= longest(
            lengths,
        ) by {
            if i < others.len() {
                assert(others[i] == lengths[i]);
            }
        }
    }
}

/// Place `j` of a row of samples that is padded with silence.
pub open spec fn padded_cell(row: Seq<u32>, j: int) -> u32 {
    if j < row.len() {
        row[j]
    } else {
        ZERO
    }
}

/// The samples of each request, padded with silence to rows of one length.
pub open spec fn padded_grid(samples: Seq<Seq<u32>>, max_len: usize) -> Grid {
    Grid {
        dims: seq![samples.len() as usize, max_len],
        cells: Seq::new(
            samples.len() * max_len as nat,
            |p: int| padded_cell(samples[p / max_len as int], p % max_len as int),
        ),
    }
}

/// A padded row starts with the samples of the request, all of them and in order, and goes on
/// with silence.
pub proof fn padding_keeps_samples(samples: Seq<Seq<u32>>, max_len: usize, i: int, j: int)
    requires
        0 <= i < samples.len(),
        0 <= j < max_len,
    ensures
        padded_grid(samples, max_len).cells[i * max_len + j] == (if j < samples[i].len() {
            samples[i][j]
        } else {
            ZERO
        }),
{
    place_in_row(i, j, samples.len() as int, max_len as int);
}

/// The number of samples of each request.
pub fn sample_lengths(samples: &Vec<Vec<u32>>) -> (lengths: Vec<usize>)
    ensures
        lengths@ == lengths_of(rows_of(samples@)),
{
    let mut lengths: Vec<usize> = Vec::new();
    let mut i: usize = 0;
    while i < samples.len()
        invariant
            i <= samples.len(),
            lengths@.len() == i,
            forall|j: int| 0 <= j < i ==> lengths@[j] == (#[trigger] samples@[j])@.len(),
        decreases samples.len() - i,
    {
        lengths.push(samples[i].len());
        i = i + 1;
    }
    assert(lengths@ =~= lengths_of(rows_of(samples@)));
    lengths
}

/// The greatest of these numbers, or zero if there is none.
pub fn max_length(lengths: &Vec<usize>) -> (max: usize)
    ensures
        max == longest(lengths@),
{
    let mut max: usize = 0;
    let mut i: usize = 0;
    assert(lengths@.take(0) =~= Seq::<usize>::empty());
    while i < lengths.len()
        invariant
            i <= lengths.len(),
            max == longest(lengths@.take(i as int)),
        decreases lengths.len() - i,
    {
        assert(lengths@.take(i + 1).drop_last() =~= lengths@.take(i as int));
        if max < lengths[i] {
            max = lengths[i];
        }
        i = i + 1;
    }
    assert(lengths@.take(i as int) =~= lengths@);
    max
}

/// The samples of each request, padded with silence to rows of one length, row by row.
pub fn pad(samples: &Vec<Vec<u32>>, max_len: usize) -> (padded: Vec<u32>)
    requires
        samples@.len() * max_len <= usize::MAX,
        forall|i: int| 0 <= i < samples@.len() ==> (#[trigger] samples@[i])@.len() <= max_len,
    ensures
        padded@ == padded_grid(rows_of(samples@), max_len).cells,
{
    let ghost expected = padded_grid(rows_of(samples@), max_len).cells;
    let mut padded: Vec<u32> = Vec::new();
    let mut i: usize = 0;
    while i < samples.len()
        invariant
            i <= samples@.len(),
            expected == padded_grid(rows_of(samples@), max_len).cells,
            padded@.len() == i * max_len,
            forall|p: int| 0 <= p < padded@.len() ==> padded@[p] == #[trigger] expected[p],
        decreases samples@.len() - i,
    {
        let sample = &samples[i];
        let mut j: usize = 0;
        while j < max_len
            invariant
                i < samples@.len(),
                sample@ == samples@[i as int]@,
                expected == padded_grid(rows_of(samples@), max_len).cells,
                j <= max_len,
                padded@.len() == i * max_len + j,
                forall|p: int| 0 <= p < padded@.len() ==> padded@[p] == #[trigger] expected[p],
            decreases max_len - j,
        {
            proof {
                padding_keeps_samples(rows_of(samples@), max_len, i as int, j as int);
                place_in_row(i as int, j as int, samples@.len() as int, max_len as int);
            }
            padded.push(
                if j < sample.len() {
                    sample[j]
                } else {
                    ZERO
                },
            );
            j = j + 1;
        }
        assert((i + 1) * max_len == i * max_len + max_len) by (nonlinear_arith);
        i = i + 1;
    }
    assert(padded@ =~= expected);
    padded
}

/// Row `i` of a matrix with rows of `width` elements.
pub open spec fn row(cells: Seq<u32>, width: int, i: int) -> Seq<u32> {
    Seq::new(width as nat, |j: int| cells[i * width + j])
}

/// Row `i` of a matrix with rows of `width` elements.
pub fn row_cells(cells: &Vec<u32>, width: usize, i: usize) -> (values: Vec<u32>)
    requires
        (i + 1) * width <= cells@.len(),
    ensures
        values@ == row(cells@, width as int, i as int),
{
    let mut values: Vec<u32> = Vec::new();
    let mut j: usize = 0;
    assert((i + 1) * width == i * width + width) by (nonlinear_arith);
    assert(0 <= i * width) by (nonlinear_arith);
    assert(cells@.len() == cells.len());
    let start: usize = i * width;
    while j < width
        invariant
            j <= width,
            start == i * width,
            start + width <= cells.len(),
            values@.len() == j,
            forall|k: int| 0 <= k < j ==> values@[k] == row(cells@, width as int, i as int)[k],
        decreases width - j,
    {
        values.push(cells[start + j]);
        j = j + 1;
    }
    assert(values@ =~= row(cells@, width as int, i as int));
    values
}

/// These tensors, seen from the root of their names.
pub open spec fn root_place(tensors: Map<Seq<char>, Grid>) -> Place {
    Place { tensors, path: Seq::empty() }
}

/// A loaded model and the device that it runs on.
pub struct GenderClassifier {
    pub config: Config,
    pub model: Wav2Vec2Classifier,
    pub device: Device,
}

impl GenderClassifier {
    /// The settings can be used, and the model fits them and is kept on the device.
    pub open spec fn wf(&self) -> bool {
        &&& self.config.usable()
        &&& self.model.fits()
        &&& self.model.is_kept_on(self.device)
        &&& self.model.classes() == self.config.id2label@.len()
        &&& self.model.feature_projection.width() == self.config.hidden_size
        &&& self.model.has_heads(self.config.num_attention_heads)
    }

    /// The model is in main memory, its parts follow one on the other, and it runs on the
    /// processor: nothing but a request that is too short keeps it from answering.
    pub open spec fn is_ready(&self) -> bool {
        &&& is_processor(self.device)
        &&& self.model.is_local()
        &&& self.model.follows_on()
    }

    /// The number of samples of a request can be counted twice over, and all samples of a batch
    /// can be counted once they are padded. So can their frames, by elements and by heads.
    pub open spec fn countable(&self, samples: Seq<Seq<u32>>) -> bool {
        let max_len = longest(lengths_of(samples));
        let frames = self.model.frame_count(max_len);
        &&& max_len <= usize::MAX / 2
        &&& samples.len() * max_len <= usize::MAX
        &&& samples.len() * (frames * self.config.hidden_size) <= usize::MAX
        &&& samples.len() * (frames * self.config.num_attention_heads) <= usize::MAX
    }

    /// The bytes are a safetensors file that holds all tensors of a model with these settings.
    pub open spec fn stored(config: Config, weights: Seq<u8>) -> bool {
        &&& safetensors_outcomes(weights) != Set::<Map<Seq<char>, Grid>>::empty()
        &&& forall|tensors: Map<Seq<char>, Grid>| #[trigger]
            safetensors_outcomes(weights).contains(tensors) ==> Wav2Vec2Classifier::stored(
                config,
                root_place(tensors),
            )
    }

    /// A request has too few samples to give a frame.
    pub open spec fn has_short(&self, samples: Seq<Seq<u32>>) -> bool {
        exists|i: int|
            0 <= i < samples.len() && self.model.frame_count(
                (#[trigger] samples[i]).len() as usize,
            ) == 0
    }

    /// The answers are such as the model may give for these samples.
    pub open spec fn may_answer(&self, samples: Seq<Seq<u32>>, answers: Seq<ResponseView>) -> bool {
        exists|scores: Grid, shares: Grid| #[trigger]
            self.may_answer_through(samples, scores, shares, answers)
    }

    /// The answers are such as the model may give for these samples, with `scores` coming out of
    /// it and `shares` after softmax.
    pub open spec fn may_answer_through(
        &self,
        samples: Seq<Seq<u32>>,
        scores: Grid,
        shares: Grid,
        answers: Seq<ResponseView>,
    ) -> bool {
        let lengths = lengths_of(samples);
        &&& self.model.gives(padded_grid(samples, longest(lengths)), lengths, scores)
        &&& is_softmax(scores, shares)
        &&& shares.dims == seq![samples.len() as usize, self.model.classes()]
        &&& answers.len() == samples.len()
        &&& forall|i: int|
            0 <= i < answers.len() ==> is_answer(
                self.config.id2label@,
                row(shares.cells, self.model.classes() as int, i),
                #[trigger] answers[i],
            )
    }

    /// The answers that are given are such as may be given.
    pub proof fn answers_may_be_given(&self, samples: Seq<Seq<u32>>, answers: Seq<ResponseView>)
        requires
            self.answers(samples, answers),
        ensures
            self.may_answer(samples, answers),
    {
        let (input, scores, shares) = choose|input: Tensor, scores: Tensor, shares: Tensor|
            #[trigger] self.answers_through(samples, input, scores, shares, answers);
        let max_len = longest(lengths_of(samples));
        assert(grid(input) =~= padded_grid(samples, max_len));
        assert(self.may_answer_through(samples, grid(scores), grid(shares), answers));
    }

    /// The answers are those that the model gives for these samples on the device.
    pub open spec fn answers(&self, samples: Seq<Seq<u32>>, answers: Seq<ResponseView>) -> bool {
        exists|input: Tensor, scores: Tensor, shares: Tensor| #[trigger]
            self.answers_through(samples, input, scores, shares, answers)
    }

    /// The answers are those that the model gives for these samples, with `input` going into the
    /// model on the device, `scores` coming out of it and `shares` after softmax.
    pub open spec fn answers_through(
        &self,
        samples: Seq<Seq<u32>>,
        input: Tensor,
        scores: Tensor,
        shares: Tensor,
        answers: Seq<ResponseView>,
    ) -> bool {
        &&& self.shares_through(
            padded_grid(samples, longest(lengths_of(samples))).cells,
            longest(lengths_of(samples)),
            lengths_of(samples),
            input,
            scores,
            shares,
        )
        &&& answers.len() == samples.len()
        &&& forall|i: int|
            0 <= i < answers.len() ==> is_answer(
                self.config.id2label@,
                row(tensor_cells(shares), self.model.classes() as int, i),
                #[trigger] answers[i],
            )
    }

    /// The shares of the classes are those that the model gives for padded rows of samples on
    /// the device, with `input` going into the model, `scores` coming out of it and `shares`
    /// after softmax.
    pub open spec fn shares_through(
        &self,
        padded: Seq<u32>,
        max_len: usize,
        lengths: Seq<usize>,
        input: Tensor,
        scores: Tensor,
        shares: Tensor,
    ) -> bool {
        &&& grid(input) == Grid { dims: seq![lengths.len() as usize, max_len], cells: padded }
        &&& tensor_device(input) == self.device
        &&& self.model.runs(input, lengths, scores)
        &&& is_softmax(grid(scores), grid(shares))
        &&& tensor_device(shares) == self.device
        &&& tensor_dims(shares) == seq![lengths.len() as usize, self.model.classes()]
    }

    /// The classifier with these settings and the weights in a safetensors file, kept on the
    /// device. Settings that can be used give a classifier that can be asked. On the processor it
    /// succeeds if the bytes are such a file and hold all tensors, and the classifier is then
    /// ready if the settings let the layers follow one another.
    pub fn load(config: Config, weights: Vec<u8>, device: Device) -> (r: Result<
        GenderClassifier,
        ClassifierError,
    >)
        requires
            config.loadable(),
            is_processor(device) || config.num_conv_pos_embeddings >= 1,
        ensures
            match r {
                Ok(c) => {
                    &&& config.usable() ==> c.wf()
                    &&& c.config == config
                    &&& c.device == device
                    &&& c.model.is_kept_on(device)
                    &&& exists|tensors: Map<Seq<char>, Grid>| #[trigger]
                        safetensors_outcomes(weights@).contains(tensors) && c.model.loaded(
                            config,
                            root_place(tensors),
                        )
                },
                Err(err) => err is Model,
            },
            is_processor(device) && config.usable() && config.even() ==> (r matches Ok(c)
                ==> c.is_ready()),
            is_processor(device) && Self::stored(config, weights@) ==> r is Ok,
    {
        let w = match Weights::from_safetensors(weights, &device) {
            Ok(w) => w,
            Err(err) => {
                return Err(ClassifierError::Model(err));
            },
        };
        assert(w@ == root_place(weights_tensors(w)));
        match Wav2Vec2Classifier::load(&config, &w) {
            Ok(model) => Ok(GenderClassifier { config, model, device }),
            Err(err) => Err(ClassifierError::Model(err)),
        }
    }

    /// Whether a request has too few samples to give a frame.
    fn any_short(&self, lengths: &Vec<usize>) -> (short: bool)
        requires
            self.wf(),
        ensures
            short == exists|i: int|
                0 <= i < lengths@.len() && self.model.frame_count(#[trigger] lengths@[i]) == 0,
    {
        let mut i: usize = 0;
        while i < lengths.len()
            invariant
                self.wf(),
                i <= lengths.len(),
                forall|j: int|
                    0 <= j < i ==> self.model.frame_count(#[trigger] lengths@[j]) != 0,
            decreases lengths.len() - i,
        {
            if self.model.feature_output_len(lengths[i]) == 0 {
                return true;
            }
            i = i + 1;
        }
        false
    }

    /// The softmax of the scores of the classes, a row for each row of samples, computed on the
    /// device. A classifier that is ready does not fail.
    fn class_shares(&self, padded: Vec<u32>, lengths: &Vec<usize>, max_len: usize) -> (r: Result<
        Vec<u32>,
        Error,
    >)
        requires
            self.wf(),
            lengths@.len() >= 1,
            padded@.len() == lengths@.len() * max_len,
            max_len <= usize::MAX / 2,
            self.model.frame_count(max_len) >= 1,
            lengths@.len() * (self.model.frame_count(max_len) * self.config.hidden_size)
                <= usize::MAX,
            lengths@.len() * (self.model.frame_count(max_len) * self.config.num_attention_heads)
                <= usize::MAX,
        ensures
            r matches Ok(v) ==> {
                &&& v@.len() == lengths@.len() * self.model.classes()
                &&& exists|input: Tensor, scores: Tensor, shares: Tensor| #[trigger]
                    self.shares_through(padded@, max_len, lengths@, input, scores, shares)
                        && v@ == tensor_cells(shares)
            },
            self.is_ready() ==> r is Ok,
    {
        assert(padded@.len() == padded.len());
        proof {
            self.model.steps_are_proper();
            frames_are_no_more_than_samples(
                self.model.feature_extractor.steps(),
                max_len as int,
            );
        }
        let input = matrix(padded, lengths.len(), max_len, &self.device)?;
        let scores = self.model.forward(&input, lengths.as_slice())?;
        assert(tensor_dims(scores).drop_last() =~= seq![lengths.len()]);
        let shares = softmax(&scores)?;
        let values = cells(&shares)?;
        proof {
            volume_of_two(lengths.len(), self.model.classes());
            assert(self.shares_through(padded@, max_len, lengths@, input, scores, shares));
        }
        Ok(values)
    }

    /// The answers to a batch of requests, in their order. The samples of a request are the
    /// bits of 32-bit floats. A classifier that is ready answers unless a request is too short.
    pub fn predict_batch(&self, samples: Vec<Vec<u32>>) -> (r: Result<
        Vec<GenderResponse>,
        ClassifierError,
    >)
        requires
            self.wf(),
            self.countable(rows_of(samples@)),
        ensures
            match r {
                Ok(responses) => {
                    &&& !self.has_short(rows_of(samples@))
                    &&& if samples@.len() == 0 {
                        responses@.len() == 0
                    } else {
                        self.answers(
                            rows_of(samples@),
                            responses@.map_values(|response: GenderResponse| response@),
                        )
                    }
                },
                Err(ClassifierError::TooShort) => self.has_short(rows_of(samples@)),
                Err(ClassifierError::Model(_)) => samples@.len() > 0 && !self.has_short(
                    rows_of(samples@),
                ),
            },
            self.is_ready() && !self.has_short(rows_of(samples@)) ==> r is Ok,
    {
        if samples.len() == 0 {
            return Ok(Vec::new());
        }
        let ghost rows = rows_of(samples@);
        let lengths = sample_lengths(&samples);
        proof {
            assert forall|i: int| 0 <= i < rows.len() implies (#[trigger] rows[i]).len()
                == lengths@[i] by {
                assert(samples@[i]@.len() == samples@[i].len());
            }
        }
        if self.any_short(&lengths) {
            proof {
                let i = choose|i: int|
                    0 <= i < lengths@.len() && self.model.frame_count(#[trigger] lengths@[i]) == 0;
                assert(rows[i].len() == lengths@[i]);
            }
            return Err(ClassifierError::TooShort);
        }
        let max_len = max_length(&lengths);
        proof {
            longest_is_one_of_them(lengths@);
            let i = choose|i: int| 0 <= i < lengths@.len() && lengths@[i] == max_len;
            assert(self.model.frame_count(lengths@[i]) != 0);
            assert forall|i: int| 0 <= i < samples@.len() implies (#[trigger] samples@[i])@.len()
                <= max_len by {
                assert(lengths@[i] == rows[i].len());
            }
        }
        let padded = pad(&samples, max_len);
        let shares = match self.class_shares(padded, &lengths, max_len) {
            Ok(shares) => shares,
            Err(err) => {
                return Err(ClassifierError::Model(err));
            },
        };
        let ghost silent = padded_grid(rows, max_len).cells;
        let ghost (input, scores, shares_tensor) = choose|
            input: Tensor,
            scores: Tensor,
            shares_tensor: Tensor,
        | #[trigger]
            self.shares_through(silent, max_len, lengths@, input, scores, shares_tensor) && shares@
                == tensor_cells(shares_tensor);
        let width = self.config.id2label.len();
        let mut responses: Vec<GenderResponse> = Vec::new();
        let mut i: usize = 0;
        while i < samples.len()
            invariant
                i <= samples@.len(),
                width == self.model.classes(),
                shares@.len() == samples@.len() * width,
                responses@.len() == i,
                forall|j: int|
                    0 <= j < i ==> is_answer(
                        self.config.id2label@,
                        row(shares@, width as int, j),
                        (#[trigger] responses@[j])@,
                    ),
            decreases samples@.len() - i,
        {
            assert((i + 1) * width <= samples@.len() * width) by (nonlinear_arith)
                requires
                    i + 1 <= samples@.len(),
            ;
            responses.push(self.format_scores(row_cells(&shares, width, i)));
            i = i + 1;
        }
        proof {
            let answers = responses@.map_values(|response: GenderResponse| response@);
            assert forall|j: int| 0 <= j < answers.len() implies is_answer(
                self.config.id2label@,
                row(shares@, width as int, j),
                #[trigger] answers[j],
            ) by {
                assert(answers[j] == responses@[j]@);
            }
            assert(self.answers_through(rows, input, scores, shares_tensor, answers));
        }
        Ok(responses)
    }

    /// The answer for the scores of one request.
    pub fn format_scores(&self, scores: Vec<u32>) -> (response: GenderResponse)
        ensures
            is_answer(self.config.id2label@, scores@, response@),
    {
        respond(&self.config.id2label, &scores)
    }
}

/// What may be said of an error: that audio is too short, or what candle says.
pub proof fn errors_have_their_texts(err: Error, text: Seq<char>)
    ensures
        ClassifierError::TooShort.is_text(text) <==> text
            == "audio is too short for Wav2Vec2 feature extraction"@,
        ClassifierError::Model(err).is_text(text) <==> error_texts(err).contains(text),
{
}

/// The rows and lengths of requests are those of their samples.
pub proof fn rows_and_lengths_are_those_of_the_samples(samples: Seq<Vec<u32>>)
    ensures
        rows_of(samples).len() == samples.len(),
        lengths_of(rows_of(samples)).len() == samples.len(),
        forall|i: int| 0 <= i < samples.len() ==> (#[trigger] rows_of(samples)[i]) == samples[i]@,
        forall|i: int|
            0 <= i < samples.len() ==> (#[trigger] lengths_of(rows_of(samples))[i])
                == samples[i].len(),
{
}

/// Row `i` of a matrix holds the elements that stand in it.
pub proof fn rows_hold_their_elements(cells: Seq<u32>, width: int, i: int, j: int)
    requires
        0 <= j < width,
    ensures
        row(cells, width, i).len() == width,
        row(cells, width, i)[j] == cells[i * width + j],
{
}

/// Padded samples have a row for each request and a place for each sample of the longest.
pub proof fn padding_has_room_for_all(samples: Seq<Seq<u32>>, max_len: usize, i: int, j: int)
    requires
        samples.len() <= usize::MAX,
        0 <= i < samples.len(),
        0 <= j < max_len,
    ensures
        padded_grid(samples, max_len).dims == seq![samples.len() as usize, max_len],
        padded_grid(samples, max_len).cells.len() == samples.len() * max_len,
        padded_grid(samples, max_len).cells[i * max_len + j] == (if j < samples[i].len() {
            samples[i][j]
        } else {
            0u32
        }),
{
    padding_keeps_samples(samples, max_len, i, j);
}

/// A request is too short if and only if it gives no frame.
pub proof fn short_requests_give_no_frame(c: GenderClassifier, samples: Seq<Seq<u32>>)
    ensures
        c.has_short(samples) <==> exists|i: int|
            0 <= i < samples.len() && c.model.frame_count((#[trigger] samples[i]).len() as usize)
                == 0,
{
}

/// A batch can be counted if the padded samples can, the longest twice over, and so can the
/// elements and the heads of all frames.
pub proof fn batches_are_countable_where_their_sizes_are(
    c: GenderClassifier,
    samples: Seq<Seq<u32>>,
    max_len: usize,
)
    requires
        samples.len() > 0,
        forall|i: int| 0 <= i < samples.len() ==> (#[trigger] samples[i]).len() <= max_len,
        exists|i: int| 0 <= i < samples.len() && (#[trigger] samples[i]).len() == max_len,
    ensures
        c.countable(samples) <==> {
            let frames = c.model.frame_count(max_len);
            &&& max_len * 2 <= usize::MAX
            &&& samples.len() * max_len <= usize::MAX
            &&& samples.len() * (frames * c.config.hidden_size) <= usize::MAX
            &&& samples.len() * (frames * c.config.num_attention_heads) <= usize::MAX
        },
{
    let lengths = lengths_of(samples);
    longest_is_one_of_them(lengths);
    let i = choose|i: int| 0 <= i < samples.len() && (#[trigger] samples[i]).len() == max_len;
    assert(lengths[i] == max_len);
    let k = choose|k: int| 0 <= k < lengths.len() && lengths[k] == longest(lengths);
    assert(lengths[k] == samples[k].len());
}

/// The answers that are given come of the padded samples of all requests, which go into the model
/// as they are: what the model gives for them is brought to shares row by row, and each row is
/// told as an answer.
pub proof fn answers_come_of_padded_samples(
    c: GenderClassifier,
    samples: Seq<Seq<u32>>,
    answers: Seq<ResponseView>,
) -> (parts: (Tensor, Tensor, Tensor))
    requires
        c.answers(samples, answers),
        0 < samples.len() <= usize::MAX,
        forall|i: int| 0 <= i < samples.len() ==> (#[trigger] samples[i]).len() <= usize::MAX,
    ensures
        ({
            let (input, scores, shares) = parts;
            let max_len = tensor_dims(input)[1];
            let lengths = Seq::new(samples.len(), |i: int| samples[i].len() as usize);
            let classes = linear_tensors(c.model.classifier)[0].dims[0];
            &&& tensor_device(input) == c.device
            &&& tensor_dims(input) == seq![samples.len() as usize, max_len]
            &&& forall|i: int| 0 <= i < samples.len() ==> (#[trigger] samples[i]).len() <= max_len
            &&& exists|i: int| 0 <= i < samples.len() && (#[trigger] samples[i]).len() == max_len
            &&& forall|i: int, j: int|
                #![trigger tensor_cells(input)[i * max_len + j]]
                0 <= i < samples.len() && 0 <= j < max_len ==> tensor_cells(input)[i * max_len + j]
                    == if j < samples[i].len() {
                    samples[i][j]
                } else {
                    0u32
                }
            &&& c.model.gives(grid(input), lengths, grid(scores))
            &&& tensor_device(scores) == c.device
            &&& is_softmax(grid(scores), grid(shares))
            &&& tensor_device(shares) == c.device
            &&& tensor_dims(shares) == seq![samples.len() as usize, classes]
            &&& answers.len() == samples.len()
            &&& forall|i: int|
                0 <= i < answers.len() ==> is_answer(
                    c.config.id2label@,
                    Seq::new(classes as nat, |j: int| tensor_cells(shares)[i * classes + j]),
                    #[trigger] answers[i],
                )
        }),
{
    let (input, scores, shares) = choose|input: Tensor, scores: Tensor, shares: Tensor| #[trigger]
        c.answers_through(samples, input, scores, shares, answers);
    let lengths = lengths_of(samples);
    let max_len = longest(lengths);
    longest_is_one_of_them(lengths);
    let k = choose|k: int| 0 <= k < lengths.len() && lengths[k] == max_len;
    assert(samples[k].len() == max_len);
    assert forall|i: int| 0 <= i < samples.len() implies (#[trigger] samples[i]).len()
        <= max_len by {
        assert(lengths[i] == samples[i].len());
    }
    assert(Seq::new(samples.len(), |i: int| samples[i].len() as usize) =~= lengths);
    assert(grid(input) =~= padded_grid(samples, max_len));
    assert forall|i: int, j: int|
        #![trigger tensor_cells(input)[i * max_len + j]]
        0 <= i < samples.len() && 0 <= j < max_len implies tensor_cells(input)[i * max_len + j]
        == if j < samples[i].len() {
        samples[i][j]
    } else {
        0u32
    } by {
        padding_keeps_samples(samples, max_len, i, j);
    }
    let classes = c.model.classes();
    assert forall|i: int| 0 <= i < answers.len() implies is_answer(
        c.config.id2label@,
        Seq::new(classes as nat, |j: int| tensor_cells(shares)[i * classes + j]),
        #[trigger] answers[i],
    ) by {
        assert(row(tensor_cells(shares), classes as int, i) =~= Seq::new(
            classes as nat,
            |j: int| tensor_cells(shares)[i * classes + j],
        ));
    }
    (input, scores, shares)
}

/// A classifier can be asked if its settings can be used and its model is the one that they ask
/// for, kept on its device.
pub proof fn classifiers_can_be_asked(c: GenderClassifier)
    ensures
        c.wf() <==> {
            &&& c.config.usable()
            &&& c.model.fits()
            &&& c.model.is_kept_on(c.device)
            &&& linear_tensors(c.model.classifier)[0].dims[0] == c.config.id2label.len()
            &&& linear_tensors(c.model.feature_projection.projection)[0].dims[0]
                == c.config.hidden_size
            &&& forall|i: int|
                0 <= i < c.model.encoder.layers.len() ==> (
                #[trigger] c.model.encoder.layers@[i]).attention.num_heads
                    == c.config.num_attention_heads
        },
{
}

/// A file holds a model if it is a safetensors file, and the tensors of the model are all in it,
/// under names that start at the root.
pub proof fn files_hold_all_tensors(config: Config, weights: Seq<u8>)
    ensures
        GenderClassifier::stored(config, weights) <==> {
            &&& exists|tensors: Map<Seq<char>, Grid>| #[trigger]
                safetensors_outcomes(weights).contains(tensors)
            &&& forall|tensors: Map<Seq<char>, Grid>| #[trigger]
                safetensors_outcomes(weights).contains(tensors) ==> Wav2Vec2Classifier::stored(
                    config,
                    Place { tensors, path: Seq::empty() },
                )
        },
        forall|tensors: Map<Seq<char>, Grid>| (#[trigger] root_place(tensors)) == (Place {
            tensors,
            path: Seq::empty(),
        }),
{
    let none = Set::<Map<Seq<char>, Grid>>::empty();
    if safetensors_outcomes(weights) != none {
        if !(exists|tensors: Map<Seq<char>, Grid>| #[trigger]
            safetensors_outcomes(weights).contains(tensors)) {
            assert(safetensors_outcomes(weights) =~= none);
        }
    }
}

/// A batch without requests can be counted.
pub proof fn empty_batches_are_countable(c: GenderClassifier)
    ensures
        c.countable(Seq::<Seq<u32>>::empty()),
{
    assert(lengths_of(Seq::<Seq<u32>>::empty()) =~= Seq::<usize>::empty());
    assert(longest(Seq::<usize>::empty()) == 0);
}

} // verus!
