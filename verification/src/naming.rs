//! Under which names the tensors of a model are found.
use candle_core::scalar::Scalar;
use candle_nn::{Conv1d, Dropout, GroupNorm, LayerNorm, Linear};
use vstd::prelude::*;

use crate::config::Config;
use crate::encoder::{Attention, Encoder, EncoderLayer, KernelTrace, PosConvEmbed};
use crate::features::{ConvLayer, FeatureExtractor, FeatureProjection};
use crate::layers::{
    conv_from, conv_settings, conv_stored, conv_tensors, dropout_from, dropout_rate, full_name,
    group_norm_from, group_norm_settings, group_norm_tensors, layer_norm_eps, layer_norm_from,
    layer_norm_tensors, linear_from, linear_stored, linear_tensors, norm_stored, rounded_bits,
    ConvSettings, Place,
};
use crate::model::Wav2Vec2Classifier;
use crate::tensor::{
    is_broadcast_product, is_broadcast_quotient, is_sqrt, is_sum_kept, scalar_bits,
};
use crate::text::decimal;

verus! {

/// The parts of a name are joined by dots, from the root on.
pub proof fn names_are_joined_by_dots(path: Seq<Seq<char>>, part: Seq<char>, name: Seq<char>)
    ensures
        full_name(Seq::<Seq<char>>::empty(), name) == name,
        full_name(path.push(part), name) == full_name(path, part + seq!['.'] + name),
    decreases path.len(),
{
    let longer = path.push(part);
    if path.len() == 0 {
        assert(longer.drop_first() =~= Seq::<Seq<char>>::empty());
        assert(full_name(longer.drop_first(), name) == name);
        assert(longer[0] == part);
    } else {
        names_are_joined_by_dots(path.drop_first(), part, name);
        assert(longer.drop_first() =~= path.drop_first().push(part));
        assert(longer[0] == path[0]);
    }
}

/// A place holds the tensors whose names start with its own, and so does a place below it.
pub proof fn places_hold_what_is_named(
    place: Place,
    part: Seq<char>,
    name: Seq<char>,
    dims: Seq<usize>,
)
    ensures
        place.has(name) <==> place.tensors.dom().contains(full_name(place.path, name)),
        place.entry(name) == place.tensors[full_name(place.path, name)],
        place.holds(name, dims) <==> place.has(name) && place.entry(name).dims == dims,
        place.below(part).tensors == place.tensors,
        place.below(part).path == place.path.push(part),
{
}

/// A linear layer has a matrix of weights and a line of biases.
pub proof fn linear_layers_are_stored(l: Linear, from: usize, to: usize, place: Place)
    ensures
        linear_stored(from, to, place) <==> {
            &&& place.holds("weight"@, seq![to, from])
            &&& place.holds("bias"@, seq![to])
        },
        linear_from(l, from, to, place) ==> {
            &&& linear_stored(from, to, place)
            &&& linear_tensors(l) == seq![place.entry("weight"@), place.entry("bias"@)]
        },
{
}

/// A layer norm has a line of weights and one of biases. They may go by other names, which count
/// where there is nothing under the first ones.
pub proof fn layer_norms_are_stored(l: LayerNorm, size: usize, eps: Scalar, place: Place)
    ensures
        norm_stored(size, place) <==> {
            &&& place.holds("weight"@, seq![size])
            &&& place.holds("bias"@, seq![size])
        },
        layer_norm_from(l, size, eps, place) ==> {
            let weight = if !place.has("weight"@) && place.has("gamma"@) {
                "gamma"@
            } else {
                "weight"@
            };
            let bias = if !place.has("bias"@) && place.has("beta"@) {
                "beta"@
            } else {
                "bias"@
            };
            &&& place.holds(weight, seq![size])
            &&& place.holds(bias, seq![size])
            &&& layer_norm_tensors(l) == seq![place.entry(weight), place.entry(bias)]
            &&& layer_norm_eps(l) == scalar_bits(eps)
        },
{
}

/// A group norm has a line of weights and one of biases, with a place for each channel.
pub proof fn group_norms_are_stored(
    g: GroupNorm,
    groups: usize,
    channels: usize,
    eps: Scalar,
    place: Place,
)
    ensures
        group_norm_from(g, groups, channels, eps, place) ==> {
            &&& place.holds("weight"@, seq![channels])
            &&& place.holds("bias"@, seq![channels])
            &&& group_norm_tensors(g) == seq![place.entry("weight"@), place.entry("bias"@)]
            &&& group_norm_settings(g) == seq![groups as u64, channels as u64, scalar_bits(eps)]
        },
{
}

/// A convolution has kernels, and a line of biases where it is to have one.
pub proof fn convolutions_are_stored(
    c: Conv1d,
    kernels: Seq<usize>,
    bias: bool,
    settings: ConvSettings,
    place: Place,
)
    ensures
        conv_stored(kernels, bias, place) <==> {
            &&& place.holds("weight"@, kernels)
            &&& !bias || place.holds("bias"@, seq![kernels[0]])
        },
        conv_from(c, kernels, bias, settings, place) ==> {
            &&& conv_stored(kernels, bias, place)
            &&& conv_settings(c) == settings
            &&& conv_tensors(c)[0] == place.entry("weight"@)
            &&& conv_tensors(c).len() == (if bias {
                2int
            } else {
                1
            })
            &&& bias ==> conv_tensors(c)[1] == place.entry("bias"@)
        },
{
}

/// A finite rate of dropout is the one of the settings, as a 32-bit float.
pub proof fn dropouts_have_their_rates(d: Dropout, rate: Scalar)
    ensures
        dropout_from(d, rate) && scalar_bits(rate) < 0x7ff0_0000_0000_0000 ==> dropout_rate(d)
            == rounded_bits(scalar_bits(rate)),
{
}

/// The convolution for the positions is stored as directions and lengths of its kernels. The
/// kernels that it runs with are the directions, brought to length one along each tap, times the
/// lengths. It is padded by half its taps on either side.
pub proof fn position_kernels_are_stored(p: PosConvEmbed, cfg: Config, place: Place) -> (
    trace: KernelTrace)
    ensures
        PosConvEmbed::stored(cfg, place) <==> {
            let conv = place.below("pos_conv_embed.conv"@);
            let taps = cfg.num_conv_pos_embeddings;
            &&& conv.holds("parametrizations.weight.original0"@, seq![1, 1, taps])
            &&& conv.holds(
                "parametrizations.weight.original1"@,
                seq![
                    cfg.hidden_size,
                    cfg.hidden_size / cfg.num_conv_pos_embedding_groups,
                    taps,
                ],
            )
            &&& conv.holds("bias"@, seq![cfg.hidden_size])
        },
        p.loaded(cfg, place) ==> {
            let conv = place.below("pos_conv_embed.conv"@);
            let taps = cfg.num_conv_pos_embeddings;
            let lengths = conv.entry("parametrizations.weight.original0"@);
            let directions = conv.entry("parametrizations.weight.original1"@);
            &&& PosConvEmbed::stored(cfg, place)
            &&& is_broadcast_product(directions, directions, trace.squares)
            &&& is_sum_kept(trace.squares, 0, 1, trace.sums)
            &&& is_sqrt(trace.sums, trace.lengths)
            &&& is_broadcast_quotient(directions, trace.lengths, trace.units)
            &&& is_broadcast_product(trace.units, lengths, trace.kernels)
            &&& conv_tensors(p.conv) == seq![trace.kernels, conv.entry("bias"@)]
            &&& conv_settings(p.conv).padding == taps / 2
            &&& conv_settings(p.conv).stride == 1
            &&& conv_settings(p.conv).dilation == 1
            &&& conv_settings(p.conv).groups == cfg.num_conv_pos_embedding_groups
            &&& p.padding == taps / 2
        },
{
    choose|trace: KernelTrace| #[trigger] p.loaded_through(cfg, place, trace)
}

/// Attention has four square projections, and heads that share the width.
pub proof fn projections_are_stored(a: Attention, cfg: Config, place: Place)
    ensures
        Attention::stored(cfg, place) <==> {
            let width = cfg.hidden_size;
            &&& linear_stored(width, width, place.below("k_proj"@))
            &&& linear_stored(width, width, place.below("v_proj"@))
            &&& linear_stored(width, width, place.below("q_proj"@))
            &&& linear_stored(width, width, place.below("out_proj"@))
        },
        a.loaded(cfg, place) ==> {
            let width = cfg.hidden_size;
            &&& linear_from(a.k_proj, width, width, place.below("k_proj"@))
            &&& linear_from(a.v_proj, width, width, place.below("v_proj"@))
            &&& linear_from(a.q_proj, width, width, place.below("q_proj"@))
            &&& linear_from(a.out_proj, width, width, place.below("out_proj"@))
            &&& a.num_heads == cfg.num_attention_heads
            &&& a.head_dim == width / cfg.num_attention_heads
            &&& dropout_from(a.dropout, cfg.attention_dropout)
        },
{
}

/// A layer of the encoder has its attention, two linear layers and two norms.
pub proof fn encoder_layers_are_stored(l: EncoderLayer, cfg: Config, place: Place)
    ensures
        EncoderLayer::stored(cfg, place) <==> {
            let (width, inner) = (cfg.hidden_size, cfg.intermediate_size);
            &&& Attention::stored(cfg, place.below("attention"@))
            &&& norm_stored(width, place.below("layer_norm"@))
            &&& linear_stored(width, inner, place.below("feed_forward.intermediate_dense"@))
            &&& linear_stored(inner, width, place.below("feed_forward.output_dense"@))
            &&& norm_stored(width, place.below("final_layer_norm"@))
        },
        l.loaded(cfg, place) ==> {
            let (width, inner, eps) = (
                cfg.hidden_size,
                cfg.intermediate_size,
                cfg.layer_norm_eps,
            );
            &&& l.attention.loaded(cfg, place.below("attention"@))
            &&& layer_norm_from(l.layer_norm, width, eps, place.below("layer_norm"@))
            &&& linear_from(
                l.feed_forward_intermediate,
                width,
                inner,
                place.below("feed_forward.intermediate_dense"@),
            )
            &&& linear_from(
                l.feed_forward_output,
                inner,
                width,
                place.below("feed_forward.output_dense"@),
            )
            &&& layer_norm_from(l.final_layer_norm, width, eps, place.below("final_layer_norm"@))
            &&& dropout_from(l.dropout, cfg.hidden_dropout)
            &&& dropout_from(l.activation_dropout, cfg.activation_dropout)
            &&& dropout_from(l.hidden_dropout, cfg.hidden_dropout)
        },
{
}

/// The encoder has the convolution for the positions, a norm, and as many layers as the settings
/// say, numbered from zero on.
pub proof fn encoders_are_stored(e: Encoder, cfg: Config, place: Place)
    ensures
        Encoder::stored(cfg, place) <==> {
            &&& PosConvEmbed::stored(cfg, place)
            &&& norm_stored(cfg.hidden_size, place.below("layer_norm"@))
            &&& forall|i: nat|
                i < cfg.num_hidden_layers ==> EncoderLayer::stored(
                    cfg,
                    place.below("layers."@ + #[trigger] decimal(i)),
                )
        },
        e.loaded(cfg, place) ==> {
            &&& e.pos_conv_embed.loaded(cfg, place)
            &&& layer_norm_from(
                e.layer_norm,
                cfg.hidden_size,
                cfg.layer_norm_eps,
                place.below("layer_norm"@),
            )
            &&& dropout_from(e.dropout, cfg.hidden_dropout)
            &&& e.layers.len() == cfg.num_hidden_layers
            &&& forall|i: int|
                0 <= i < e.layers.len() ==> (#[trigger] e.layers@[i]).loaded(
                    cfg,
                    place.below("layers."@ + decimal(i as nat)),
                )
        },
{
    if Encoder::stored(cfg, place) {
        assert forall|i: nat| i < cfg.num_hidden_layers implies EncoderLayer::stored(
            cfg,
            place.below("layers."@ + #[trigger] decimal(i)),
        ) by {
            assert(Encoder::layer_place(place, i as int) == place.below("layers."@ + decimal(i)));
        }
    }
    if forall|i: nat|
        i < cfg.num_hidden_layers ==> EncoderLayer::stored(
            cfg,
            place.below("layers."@ + #[trigger] decimal(i)),
        ) {
        assert forall|i: int| 0 <= i < cfg.num_hidden_layers implies EncoderLayer::stored(
            cfg,
            #[trigger] Encoder::layer_place(place, i),
        ) by {
            assert(decimal(i as nat) == decimal(i as nat));
        }
    }
}

/// Layer `i` of the feature extractor has kernels, and a norm for each channel where the settings
/// ask for one. Its kernels are moved on by its stride, without padding.
pub proof fn conv_layers_are_stored(l: ConvLayer, cfg: Config, place: Place, i: int)
    requires
        i >= 0,
    ensures
        ({
            let name = "feature_extractor.conv_layers."@ + decimal(i as nat);
            let kernels = seq![
                cfg.conv_dim@[i],
                if i == 0 {
                    1
                } else {
                    cfg.conv_dim@[i - 1]
                },
                cfg.conv_kernel@[i],
            ];
            let normed = i == 0 && cfg.feat_extract_norm@ == "group"@;
            &&& ConvLayer::stored(cfg, place, i) <==> {
                &&& conv_stored(kernels, cfg.conv_bias, place.below(name + ".conv"@))
                &&& !normed || norm_stored(cfg.conv_dim@[i], place.below(name + ".layer_norm"@))
            }
            &&& l.loaded(cfg, place, i) ==> {
                &&& conv_from(
                    l.conv,
                    kernels,
                    cfg.conv_bias,
                    ConvSettings {
                        padding: 0,
                        stride: cfg.conv_stride@[i],
                        dilation: 1,
                        groups: 1,
                    },
                    place.below(name + ".conv"@),
                )
                &&& l.norm is Some <==> normed
                &&& l.norm matches Some(g) ==> group_norm_from(
                    g,
                    cfg.conv_dim@[i],
                    cfg.conv_dim@[i],
                    cfg.layer_norm_eps,
                    place.below(name + ".layer_norm"@),
                )
            }
        }),
{
}

/// The feature extractor has as many layers as all three lists go, and the projection takes the
/// channels that come last.
pub proof fn features_are_stored(
    f: FeatureExtractor,
    p: FeatureProjection,
    cfg: Config,
    place: Place,
)
    ensures
        FeatureExtractor::stored(cfg, place) <==> forall|i: int|
            0 <= i < cfg.conv_dim.len() && i < cfg.conv_kernel.len() && i < cfg.conv_stride.len()
                ==> #[trigger] ConvLayer::stored(cfg, place, i),
        f.loaded(cfg, place) ==> {
            &&& f.layers.len() == cfg.conv_layers()
            &&& forall|i: int|
                0 <= i < f.layers.len() ==> (#[trigger] f.layers@[i]).loaded(cfg, place, i)
        },
        FeatureProjection::stored(cfg, place) <==> {
            let channels = cfg.conv_dim@[cfg.conv_dim.len() - 1];
            &&& norm_stored(channels, place.below("feature_projection.layer_norm"@))
            &&& linear_stored(
                channels,
                cfg.hidden_size,
                place.below("feature_projection.projection"@),
            )
        },
        p.loaded(cfg, place) ==> {
            let channels = cfg.conv_dim@[cfg.conv_dim.len() - 1];
            &&& layer_norm_from(
                p.layer_norm,
                channels,
                cfg.layer_norm_eps,
                place.below("feature_projection.layer_norm"@),
            )
            &&& linear_from(
                p.projection,
                channels,
                cfg.hidden_size,
                place.below("feature_projection.projection"@),
            )
            &&& dropout_from(p.dropout, cfg.feat_proj_dropout)
        },
{
}

/// The model has its feature extractor, projection and encoder under one name, and the two linear
/// layers that tell the classes apart beside it.
pub proof fn models_are_stored(m: Wav2Vec2Classifier, cfg: Config, place: Place)
    ensures
        Wav2Vec2Classifier::stored(cfg, place) <==> {
            let base = place.below("wav2vec2"@);
            &&& FeatureExtractor::stored(cfg, base)
            &&& FeatureProjection::stored(cfg, base)
            &&& Encoder::stored(cfg, base.below("encoder"@))
            &&& linear_stored(cfg.hidden_size, cfg.classifier_proj_size, place.below("projector"@))
            &&& linear_stored(
                cfg.classifier_proj_size,
                cfg.id2label.len(),
                place.below("classifier"@),
            )
        },
        m.loaded(cfg, place) ==> {
            let base = place.below("wav2vec2"@);
            &&& m.feature_extractor.loaded(cfg, base)
            &&& m.feature_projection.loaded(cfg, base)
            &&& m.encoder.loaded(cfg, base.below("encoder"@))
            &&& linear_from(
                m.projector,
                cfg.hidden_size,
                cfg.classifier_proj_size,
                place.below("projector"@),
            )
            &&& linear_from(
                m.classifier,
                cfg.classifier_proj_size,
                cfg.id2label.len(),
                place.below("classifier"@),
            )
            &&& dropout_from(m.final_dropout, cfg.final_dropout)
        },
{
}

} // verus!
