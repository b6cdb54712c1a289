//! Nothing is dropped outside training, so the scores do not rest on the dropout rates.
use vstd::prelude::*;

use crate::config::Config;
use crate::encoder::{
    attend_in_turn, Attention, AttentionTrace, Encoder, EncoderLayer, KernelTrace, LayerTrace,
};
use crate::features::{run_in_turn, ConvLayer};
use crate::grid::{unsqueezed, Grid};
use crate::layers::Place;
use crate::masks::attention_mask_grid;
use crate::model::{ModelTrace, Wav2Vec2Classifier};
use crate::text::decimal;

verus! {

/// The two settings differ in the dropout rates alone, if at all.
pub open spec fn differ_in_dropout(a: Config, b: Config) -> bool {
    b == (Config {
        activation_dropout: b.activation_dropout,
        attention_dropout: b.attention_dropout,
        feat_proj_dropout: b.feat_proj_dropout,
        final_dropout: b.final_dropout,
        hidden_dropout: b.hidden_dropout,
        ..a
    })
}

/// `y` may be the scores that a model with these settings and the weights at a place gives for
/// the rows of `x`, of which so many samples are no padding.
pub open spec fn may_score(
    config: Config,
    place: Place,
    x: Grid,
    sample_lengths: Seq<usize>,
    y: Grid,
) -> bool {
    exists|model: Wav2Vec2Classifier| #[trigger]
        model.loaded(config, place) && model.gives(x, sample_lengths, y)
}

/// What comes of the layers of one feature extractor may come of those of the other.
proof fn convs_run_alike(
    a: Seq<ConvLayer>,
    b: Seq<ConvLayer>,
    config_a: Config,
    config_b: Config,
    place: Place,
    x: Grid,
    y: Grid,
)
    requires
        differ_in_dropout(config_a, config_b),
        a.len() == b.len(),
        forall|i: int| 0 <= i < a.len() ==> (#[trigger] a[i]).loaded(config_a, place, i),
        forall|i: int| 0 <= i < b.len() ==> (#[trigger] b[i]).loaded(config_b, place, i),
        run_in_turn(a, x, y),
    ensures
        run_in_turn(b, x, y),
    decreases a.len(),
{
    if a.len() > 0 {
        let last = a.len() - 1;
        let between = choose|between: Grid|
            run_in_turn(a.drop_last(), x, between) && #[trigger] a.last().runs(between, y);
        convs_run_alike(a.drop_last(), b.drop_last(), config_a, config_b, place, x, between);
        let (c, n) = choose|c: Grid, n: Grid| #[trigger] a.last().runs_through(between, c, n, y);
        assert(a[last].loaded(config_a, place, last));
        assert(b[last].loaded(config_b, place, last));
        assert(b.last().runs_through(between, c, n, y));
        assert(b.last().runs(between, y));
    }
}

/// What comes of one attention layer may come of the other.
proof fn attentions_run_alike(
    a: Attention,
    b: Attention,
    config_a: Config,
    config_b: Config,
    place: Place,
    x: Grid,
    mask: Option<Grid>,
    y: Grid,
)
    requires
        differ_in_dropout(config_a, config_b),
        a.loaded(config_a, place),
        b.loaded(config_b, place),
        a.runs(x, mask, y),
    ensures
        b.runs(x, mask, y),
{
    let trace = choose|trace: AttentionTrace| #[trigger] a.runs_through(x, mask, trace, y);
    assert(b.runs_through(x, mask, trace, y));
}

/// What comes of one layer of an encoder may come of the other.
proof fn layers_run_alike(
    a: EncoderLayer,
    b: EncoderLayer,
    config_a: Config,
    config_b: Config,
    place: Place,
    x: Grid,
    mask: Option<Grid>,
    y: Grid,
)
    requires
        differ_in_dropout(config_a, config_b),
        a.loaded(config_a, place),
        b.loaded(config_b, place),
        a.runs(x, mask, y),
    ensures
        b.runs(x, mask, y),
{
    let trace = choose|trace: LayerTrace| #[trigger] a.runs_through(x, mask, trace, y);
    attentions_run_alike(
        a.attention,
        b.attention,
        config_a,
        config_b,
        place.below("attention"@),
        x,
        mask,
        trace.attended,
    );
    assert(b.runs_through(x, mask, trace, y));
}

/// What comes of the layers of one encoder may come of those of the other.
proof fn stacks_run_alike(
    a: Seq<EncoderLayer>,
    b: Seq<EncoderLayer>,
    config_a: Config,
    config_b: Config,
    place: Place,
    x: Grid,
    mask: Option<Grid>,
    y: Grid,
)
    requires
        differ_in_dropout(config_a, config_b),
        a.len() == b.len(),
        forall|i: int|
            0 <= i < a.len() ==> (#[trigger] a[i]).loaded(
                config_a,
                place.below("layers."@ + decimal(i as nat)),
            ),
        forall|i: int|
            0 <= i < b.len() ==> (#[trigger] b[i]).loaded(
                config_b,
                place.below("layers."@ + decimal(i as nat)),
            ),
        attend_in_turn(a, x, mask, y),
    ensures
        attend_in_turn(b, x, mask, y),
    decreases a.len(),
{
    if a.len() > 0 {
        let last = a.len() - 1;
        let between = choose|between: Grid|
            attend_in_turn(a.drop_last(), x, mask, between) && #[trigger] a.last().runs(
                between,
                mask,
                y,
            );
        stacks_run_alike(a.drop_last(), b.drop_last(), config_a, config_b, place, x, mask, between);
        layers_run_alike(
            a[last],
            b[last],
            config_a,
            config_b,
            place.below("layers."@ + decimal(last as nat)),
            between,
            mask,
            y,
        );
        assert(b.last().runs(between, mask, y));
    }
}

/// What comes of one encoder may come of the other.
proof fn encoders_run_alike(
    a: Encoder,
    b: Encoder,
    config_a: Config,
    config_b: Config,
    place: Place,
    x: Grid,
    mask: Option<Grid>,
    y: Grid,
)
    requires
        differ_in_dropout(config_a, config_b),
        a.loaded(config_a, place),
        b.loaded(config_b, place),
        a.pos_conv_embed == b.pos_conv_embed,
        a.runs(x, mask, y),
    ensures
        b.runs(x, mask, y),
{
    let (pos, placed, normed) = choose|pos: Grid, placed: Grid, normed: Grid| #[trigger]
        a.runs_through(x, mask, pos, placed, normed, y);
    let (c, g) = choose|c: Grid, g: Grid| #[trigger] a.pos_conv_embed.runs_through(x, c, g, pos);
    assert(b.pos_conv_embed.runs_through(x, c, g, pos));
    stacks_run_alike(a.layers@, b.layers@, config_a, config_b, place, normed, mask, y);
    assert(b.runs_through(x, mask, pos, placed, normed, y));
}

/// The scores that one model may give, another with the same position convolution may give too.
proof fn models_run_alike(
    a: Wav2Vec2Classifier,
    b: Wav2Vec2Classifier,
    config_a: Config,
    config_b: Config,
    place: Place,
    x: Grid,
    sample_lengths: Seq<usize>,
    y: Grid,
)
    requires
        differ_in_dropout(config_a, config_b),
        a.loaded(config_a, place),
        b.loaded(config_b, place),
        a.encoder.pos_conv_embed == b.encoder.pos_conv_embed,
        a.gives(x, sample_lengths, y),
    ensures
        b.gives(x, sample_lengths, y),
{
    let trace = choose|trace: ModelTrace| #[trigger] a.gives_through(x, sample_lengths, trace, y);
    let base = place.below("wav2vec2"@);
    let max_frames = trace.projected.dims[1];
    frames_do_not_rest_on_dropout(a, b, config_a, config_b, place);
    assert(sample_lengths.map_values(|len: usize| a.frame_count(len))
        =~= sample_lengths.map_values(|len: usize| b.frame_count(len)));
    convs_run_alike(
        a.feature_extractor.layers@,
        b.feature_extractor.layers@,
        config_a,
        config_b,
        base,
        unsqueezed(x, 1),
        trace.features,
    );
    let n = choose|n: Grid| #[trigger]
        a.feature_projection.runs_through(trace.features, n, trace.projected);
    assert(b.feature_projection.runs_through(trace.features, n, trace.projected));
    encoders_run_alike(
        a.encoder,
        b.encoder,
        config_a,
        config_b,
        base.below("encoder"@),
        trace.projected,
        Some(attention_mask_grid(a.marks(sample_lengths, max_frames))),
        trace.encoded,
    );
    assert(b.gives_through(x, sample_lengths, trace, y));
}

/// Models from one place, with settings that differ in the dropout rates alone, make the same
/// number of frames of a number of samples, and tell the same number of classes apart.
pub proof fn frames_do_not_rest_on_dropout(
    a: Wav2Vec2Classifier,
    b: Wav2Vec2Classifier,
    config_a: Config,
    config_b: Config,
    place: Place,
)
    requires
        differ_in_dropout(config_a, config_b),
        a.loaded(config_a, place),
        b.loaded(config_b, place),
    ensures
        forall|len: usize| a.frame_count(len) == #[trigger] b.frame_count(len),
        a.classes() == b.classes(),
{
    let (steps_a, steps_b) = (a.feature_extractor.steps(), b.feature_extractor.steps());
    assert forall|i: int| 0 <= i < steps_a.len() implies steps_a[i] == steps_b[i] by {
        let base = place.below("wav2vec2"@);
        assert(a.feature_extractor.layers@[i].loaded(config_a, base, i));
        assert(b.feature_extractor.layers@[i].loaded(config_b, base, i));
    }
    assert(steps_a =~= steps_b);
}

/// Models from one place, with settings that differ in the dropout rates alone, may give the
/// same scores: what may come of one may come of the other, whatever the kernels of the position
/// convolution, which are computed, came out to be.
pub proof fn scores_do_not_rest_on_dropout(
    a: Wav2Vec2Classifier,
    b: Wav2Vec2Classifier,
    config_a: Config,
    config_b: Config,
    place: Place,
    x: Grid,
    sample_lengths: Seq<usize>,
    y: Grid,
)
    requires
        differ_in_dropout(config_a, config_b),
        a.loaded(config_a, place),
        b.loaded(config_b, place),
    ensures
        may_score(config_a, place, x, sample_lengths, y) <==> may_score(
            config_b,
            place,
            x,
            sample_lengths,
            y,
        ),
        a.gives(x, sample_lengths, y) ==> may_score(config_b, place, x, sample_lengths, y),
{
    if may_score(config_a, place, x, sample_lengths, y) {
        other_rates_score_too(b, config_a, config_b, place, x, sample_lengths, y);
    }
    if may_score(config_b, place, x, sample_lengths, y) {
        other_rates_score_too(a, config_b, config_a, place, x, sample_lengths, y);
    }
    if a.gives(x, sample_lengths, y) {
        assert(may_score(config_a, place, x, sample_lengths, y));
    }
}

/// The scores that may come of one set of rates may come of another, under which there is a
/// model.
proof fn other_rates_score_too(
    b: Wav2Vec2Classifier,
    config_a: Config,
    config_b: Config,
    place: Place,
    x: Grid,
    sample_lengths: Seq<usize>,
    y: Grid,
)
    requires
        differ_in_dropout(config_a, config_b),
        b.loaded(config_b, place),
        may_score(config_a, place, x, sample_lengths, y),
    ensures
        may_score(config_b, place, x, sample_lengths, y),
{
    let a = choose|a: Wav2Vec2Classifier| #[trigger]
        a.loaded(config_a, place) && a.gives(x, sample_lengths, y);
    let encoder = Encoder { pos_conv_embed: a.encoder.pos_conv_embed, ..b.encoder };
    let c = Wav2Vec2Classifier { encoder, ..b };
    let inner = place.below("wav2vec2"@).below("encoder"@);
    let trace = choose|trace: KernelTrace| #[trigger]
        a.encoder.pos_conv_embed.loaded_through(config_a, inner, trace);
    assert(a.encoder.pos_conv_embed.loaded_through(config_b, inner, trace));
    assert(c.loaded(config_b, place));
    models_run_alike(a, c, config_a, config_b, place, x, sample_lengths, y);
}

} // verus!
