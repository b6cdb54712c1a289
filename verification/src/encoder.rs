//! The encoder: a convolution that tells frames apart by where they stand, and layers in which
//! every frame attends to the others.
use candle_core::{Device, Error, Tensor};
use candle_nn::{Conv1d, Dropout, LayerNorm, Linear};
use vstd::prelude::*;

use crate::config::Config;
use crate::grid::{
    aligned, broadcast_dims, broadcast_keeps, narrowed, no_empty, products_of_four_fit,
    products_of_three_fit, reshaped, stretches, stretching_is_broadcasting, transposed,
    transposing_twice_gives_back, volume, volume_of_four, volume_of_three, volume_of_two, Grid,
};
use crate::layers::{
    conv1d_forward, conv1d_new, conv_device, conv_fits, conv_is_local, conv_settings, conv_tensors,
    dropout_forward, dropout_from, dropout_new, is_conv, is_layer_norm, is_linear, layer_norm,
    layer_norm_device, layer_norm_eps, layer_norm_fits, layer_norm_forward, layer_norm_from,
    layer_norm_is_local, layer_norm_tensors, linear, linear_device, linear_fits, linear_forward,
    linear_from, linear_is_local, linear_stored, linear_tensors, norm_stored, weights_are_local,
    weights_device, ConvSettings, Place, Weights,
};
use crate::meaning::{
    axes_of_four_are_exchanged, last_axes_of_three_are_exchanged, narrowing_leaves_the_first,
};
use crate::tensor::{
    broadcast_add, broadcast_div, broadcast_mul, contiguous, dim, dims3, gelu, grid, is_at_hand,
    is_broadcast_product, is_broadcast_quotient, is_broadcast_sum, is_computed, is_gelu, is_local,
    is_matmul, is_scaled, is_softmax, is_sqrt, is_sum_kept, is_sum_of, is_workable, matmul,
    multiplies, narrow, plus, reciprocal, reciprocal_bits, reshape, root, root_bits, scale, softmax,
    sqrt, sum_keepdim, t, tensor_device, tensor_dims, transpose,
};
use crate::text::{around_number, decimal};

verus! {

/// The convolution that tells frames apart by where they stand.
pub struct PosConvEmbed {
    pub conv: Conv1d,
    pub padding: usize,
}

/// What the kernels of the position convolution are computed through.
pub struct KernelTrace {
    pub squares: Grid,
    pub sums: Grid,
    pub lengths: Grid,
    pub units: Grid,
    pub kernels: Grid,
}

impl PosConvEmbed {
    /// The parts fit together, for frames of this width.
    pub open spec fn fits(self, width: usize) -> bool {
        let settings = conv_settings(self.conv);
        let kernels = conv_tensors(self.conv)[0].dims;
        &&& conv_fits(conv_tensors(self.conv))
        &&& settings.stride == 1
        &&& settings.dilation == 1
        &&& settings.groups >= 1
        &&& settings.padding == self.padding
        &&& kernels[0] == width
        &&& kernels[1] == width / settings.groups
        &&& 1 <= kernels[2] <= usize::MAX / 2
        &&& self.padding == kernels[2] / 2
    }

    /// The tensors of the convolution are in main memory, for the processor to work on.
    pub open spec fn is_local(self) -> bool {
        conv_is_local(self.conv)
    }

    /// The tensors of the convolution are kept on this device.
    pub open spec fn is_kept_on(self, device: Device) -> bool {
        conv_device(self.conv) == device
    }

    /// The groups share the width evenly.
    pub open spec fn shares(self, width: usize) -> bool {
        width as int % conv_settings(self.conv).groups as int == 0
    }

    /// The tensors of the convolution are at a place, with the right sizes.
    pub open spec fn stored(cfg: Config, place: Place) -> bool {
        let place = place.below("pos_conv_embed.conv"@);
        let taps = cfg.num_conv_pos_embeddings;
        let groups = cfg.num_conv_pos_embedding_groups;
        &&& place.holds("parametrizations.weight.original0"@, seq![1, 1, taps])
        &&& place.holds(
            "parametrizations.weight.original1"@,
            seq![cfg.hidden_size, cfg.hidden_size / groups, taps],
        )
        &&& place.holds("bias"@, seq![cfg.hidden_size])
    }

    /// The convolution is the one of the settings, with the weights at a place. Its kernels
    /// are stored as directions, `original1`, and as lengths, `original0`.
    pub open spec fn loaded(self, cfg: Config, place: Place) -> bool {
        exists|trace: KernelTrace| #[trigger] self.loaded_through(cfg, place, trace)
    }

    /// The convolution is the one of the settings, its kernels computed through `trace`.
    pub open spec fn loaded_through(self, cfg: Config, outer: Place, trace: KernelTrace) -> bool {
        let place = outer.below("pos_conv_embed.conv"@);
        let taps = cfg.num_conv_pos_embeddings;
        let groups = cfg.num_conv_pos_embedding_groups;
        let wanted = place.entry("parametrizations.weight.original0"@);
        let given = place.entry("parametrizations.weight.original1"@);
        &&& Self::stored(cfg, outer)
        &&& is_broadcast_product(given, given, trace.squares)
        &&& is_sum_kept(trace.squares, 0, 1, trace.sums)
        &&& is_sqrt(trace.sums, trace.lengths)
        &&& is_broadcast_quotient(given, trace.lengths, trace.units)
        &&& is_broadcast_product(trace.units, wanted, trace.kernels)
        &&& conv_tensors(self.conv) == seq![trace.kernels, place.entry("bias"@)]
        &&& conv_settings(self.conv) == (ConvSettings {
            padding: taps / 2,
            stride: 1,
            dilation: 1,
            groups,
        })
        &&& self.padding == taps / 2
    }

    /// The convolution as the settings ask for it, with its weights. Where the weights are
    /// handed out in main memory, it succeeds if they are there.
    pub(crate) fn load(cfg: &Config, w: &Weights) -> (r: Result<PosConvEmbed, Error>)
        requires
            cfg.num_conv_pos_embedding_groups >= 1,
            weights_are_local(*w) || cfg.num_conv_pos_embeddings >= 1,
        ensures
            r matches Ok(p) ==> {
                &&& p.loaded(*cfg, w@)
                &&& p.is_kept_on(weights_device(*w))
                &&& cfg.taps_are_usable() ==> p.fits(cfg.hidden_size)
                &&& conv_settings(p.conv).groups == cfg.num_conv_pos_embedding_groups
                &&& weights_are_local(*w) ==> p.is_local()
            },
            weights_are_local(*w) && Self::stored(*cfg, w@) ==> r is Ok,
    {
        let padding = cfg.num_conv_pos_embeddings / 2;
        let settings = ConvSettings {
            padding,
            stride: 1,
            dilation: 1,
            groups: cfg.num_conv_pos_embedding_groups,
        };
        let conv_weights = w.pp("pos_conv_embed.conv");
        let dims_g: Vec<usize> = vec![1, 1, cfg.num_conv_pos_embeddings];
        let dims_v: Vec<usize> = vec![
            cfg.hidden_size,
            cfg.hidden_size / cfg.num_conv_pos_embedding_groups,
            cfg.num_conv_pos_embeddings,
        ];
        let dims_bias: Vec<usize> = vec![cfg.hidden_size];
        proof {
            assert(dims_g@ =~= seq![1, 1, cfg.num_conv_pos_embeddings]);
            assert(dims_v@ =~= seq![
                cfg.hidden_size,
                cfg.hidden_size / cfg.num_conv_pos_embedding_groups,
                cfg.num_conv_pos_embeddings,
            ]);
            assert(dims_bias@ =~= seq![cfg.hidden_size]);
        }
        let weight_g = conv_weights.get(dims_g, "parametrizations.weight.original0")?;
        let weight_v = conv_weights.get(dims_v, "parametrizations.weight.original1")?;
        let ghost given = tensor_dims(weight_v);
        proof {
            broadcast_keeps(given, given);
        }
        let squares = broadcast_mul(&weight_v, &weight_v)?;
        assert(tensor_dims(squares).update(0, 1).update(1, 1) =~= seq![
            1,
            1,
            cfg.num_conv_pos_embeddings,
        ]);
        let sums = sum_keepdim(&squares, 0, 1)?;
        let weight_norm = sqrt(&sums)?;
        proof {
            broadcast_keeps(given, tensor_dims(weight_norm));
            broadcast_keeps(given, tensor_dims(weight_g));
        }
        let units = broadcast_div(&weight_v, &weight_norm)?;
        let weight = broadcast_mul(&units, &weight_g)?;
        let bias = conv_weights.get(dims_bias, "bias")?;
        let ghost trace = KernelTrace {
            squares: grid(squares),
            sums: grid(sums),
            lengths: grid(weight_norm),
            units: grid(units),
            kernels: grid(weight),
        };
        let embed = PosConvEmbed { conv: conv1d_new(weight, bias, settings), padding };
        assert(embed.loaded_through(*cfg, w@, trace));
        Ok(embed)
    }

    /// `y` may be the result of the convolution on `x`.
    pub open spec fn runs(self, x: Grid, y: Grid) -> bool {
        exists|c: Grid, g: Grid| #[trigger] self.runs_through(x, c, g, y)
    }

    /// `y` may be the result of the convolution on `x`, with `c` after the convolution proper
    /// and `g` after the activation.
    pub open spec fn runs_through(self, x: Grid, c: Grid, g: Grid, y: Grid) -> bool {
        let kept = if self.padding > 0 {
            narrowed(c, 2, 0, x.dims[1])
        } else {
            c
        };
        &&& is_conv(conv_tensors(self.conv), conv_settings(self.conv), transposed(x, 1, 2), c)
        &&& self.padding > 0 ==> x.dims[1] <= c.dims[2]
        &&& is_gelu(kept, g)
        &&& y == transposed(g, 1, 2)
    }

    /// The convolution along the frames. The result has the sizes of the argument. The processor
    /// does not fail where the groups share the width evenly.
    pub(crate) fn forward(&self, xs: &Tensor) -> (r: Result<Tensor, Error>)
        requires
            tensor_dims(*xs).len() == 3,
            1 <= tensor_dims(*xs)[1] <= usize::MAX / 2,
            self.fits(tensor_dims(*xs)[2]),
        ensures
            r matches Ok(y) ==> {
                &&& self.runs(grid(*xs), grid(y))
                &&& tensor_dims(y) == tensor_dims(*xs)
                &&& tensor_device(y) == tensor_device(*xs)
            },
            self.is_local() && self.shares(tensor_dims(*xs)[2]) && is_workable(*xs) ==> r is Ok
                && is_local(r->Ok_0),
    {
        let turned = transpose(xs, 1, 2)?;
        proof {
            let settings = conv_settings(self.conv);
            let width = tensor_dims(*xs)[2] as int;
            vstd::arithmetic::div_mod::lemma_fundamental_div_mod(width, settings.groups as int);
            assert((width / settings.groups as int) * settings.groups == settings.groups * (width
                / settings.groups as int)) by (nonlinear_arith);
            let kernels = conv_tensors(self.conv)[0].dims;
            assert(settings.dilation * (kernels[2] - 1) == kernels[2] - 1) by (nonlinear_arith)
                requires
                    settings.dilation == 1,
            ;
        }
        let mut ys = conv1d_forward(&self.conv, &turned)?;
        let ghost c = grid(ys);
        assert(c.dims[2] == tensor_dims(*xs)[1] + 2 * self.padding - conv_tensors(
            self.conv,
        )[0].dims[2] + 1);
        if self.padding > 0 {
            let seq_len = dim(xs, 1)?;
            ys = narrow(&ys, 2, 0, seq_len)?;
        }
        let activated = gelu(&ys)?;
        let turned_back = transpose(&activated, 1, 2)?;
        assert(self.runs_through(grid(*xs), c, grid(activated), grid(turned_back)));
        assert(tensor_dims(turned_back) =~= tensor_dims(*xs));
        Ok(turned_back)
    }
}

/// A layer in which every frame attends to the others.
pub struct Attention {
    pub k_proj: Linear,
    pub v_proj: Linear,
    pub q_proj: Linear,
    pub out_proj: Linear,
    pub num_heads: usize,
    pub head_dim: usize,
    pub dropout: Dropout,
}

/// What attention is computed through.
pub struct AttentionTrace {
    pub queries: Grid,
    pub keys: Grid,
    pub values: Grid,
    pub products: Grid,
    pub scores: Grid,
    pub masked: Grid,
    pub shares: Grid,
    pub mixed: Grid,
}

/// Where there is a width to share, there are heads, and none is empty.
pub proof fn heads_are_not_empty(heads: int, size: int, width: int)
    requires
        heads >= 0,
        size >= 0,
        width >= 1,
        heads * size == width,
    ensures
        heads >= 1,
        size >= 1,
{
    assert(heads >= 1 && size >= 1) by (nonlinear_arith)
        requires
            heads >= 0,
            size >= 0,
            width >= 1,
            heads * size == width,
    ;
}

/// Shares that can be multiplied by the values of all heads belong to the same requests.
proof fn heads_stay_together(scores: Seq<usize>, mask: Seq<usize>, values: Seq<usize>)
    requires
        scores.len() == 4,
        values.len() == 4,
        values[0] == scores[0],
        values[1] == scores[1],
        no_empty(scores),
        no_empty(mask),
        multiplies(broadcast_dims(scores, mask), values),
    ensures
        broadcast_dims(scores, mask)[0] == scores[0],
{
    let dims = broadcast_dims(scores, mask);
    stretching_is_broadcasting(scores, mask);
    assert(dims.take(2) =~= seq![dims[0], dims[1]]);
    assert(values.take(2) =~= seq![values[0], values[1]]);
    volume_of_two(dims[0], dims[1]);
    volume_of_two(values[0], values[1]);
    assert(aligned(scores, 4, 0) == scores[0] && aligned(scores, 4, 1) == scores[1]);
    let (first, second) = (dims[0] as int, dims[1] as int);
    assert(scores[0] == 1 && (second == scores[1] || scores[1] == 1) ==> first == 1)
        by (nonlinear_arith)
        requires
            first * second == scores[0] * scores[1],
            first >= 1,
            second >= 1,
            scores[1] >= 1,
    ;
}

/// A linear layer between frames of one width.
pub open spec fn square(l: Linear, width: usize) -> bool {
    linear_fits(linear_tensors(l)) && linear_tensors(l)[0].dims == seq![width, width]
}

impl Attention {
    /// The parts fit together, for frames of this width.
    pub open spec fn fits(self, width: usize) -> bool {
        &&& square(self.k_proj, width)
        &&& square(self.v_proj, width)
        &&& square(self.q_proj, width)
        &&& square(self.out_proj, width)
        &&& self.num_heads >= 1
        &&& self.num_heads * self.head_dim <= width
    }

    /// The width of the frames that the parts fit.
    pub open spec fn width(self) -> usize {
        linear_tensors(self.k_proj)[0].dims[0]
    }

    /// The frames of a batch can be counted by their elements and by their heads.
    pub open spec fn counts(self, rows: usize, len: usize, width: usize) -> bool {
        &&& rows * (len * width) <= usize::MAX
        &&& rows * (len * self.num_heads) <= usize::MAX
    }

    /// A mask of these sizes can be added to the scores of a batch.
    pub open spec fn admits(self, mask: Seq<usize>, rows: usize, len: usize) -> bool {
        stretches(mask, seq![rows, self.num_heads, len, len])
    }

    /// The tensors of the parts are kept on this device.
    pub open spec fn is_kept_on(self, device: Device) -> bool {
        &&& linear_device(self.k_proj) == device
        &&& linear_device(self.v_proj) == device
        &&& linear_device(self.q_proj) == device
        &&& linear_device(self.out_proj) == device
    }

    /// The tensors of the parts are in main memory, for the processor to work on.
    pub open spec fn is_local(self) -> bool {
        &&& linear_is_local(self.k_proj)
        &&& linear_is_local(self.v_proj)
        &&& linear_is_local(self.q_proj)
        &&& linear_is_local(self.out_proj)
    }

    /// The heads share the width evenly.
    pub open spec fn shares(self, width: usize) -> bool {
        self.num_heads * self.head_dim == width
    }

    /// The tensors of the parts are at a place, with the right sizes.
    pub open spec fn stored(cfg: Config, place: Place) -> bool {
        let width = cfg.hidden_size;
        &&& linear_stored(width, width, place.below("k_proj"@))
        &&& linear_stored(width, width, place.below("v_proj"@))
        &&& linear_stored(width, width, place.below("q_proj"@))
        &&& linear_stored(width, width, place.below("out_proj"@))
    }

    /// The layer is the one of the settings, with the weights at a place.
    pub open spec fn loaded(self, cfg: Config, place: Place) -> bool {
        let width = cfg.hidden_size;
        &&& linear_from(self.k_proj, width, width, place.below("k_proj"@))
        &&& linear_from(self.v_proj, width, width, place.below("v_proj"@))
        &&& linear_from(self.q_proj, width, width, place.below("q_proj"@))
        &&& linear_from(self.out_proj, width, width, place.below("out_proj"@))
        &&& self.num_heads == cfg.num_attention_heads
        &&& self.head_dim == width / cfg.num_attention_heads
        &&& dropout_from(self.dropout, cfg.attention_dropout)
    }

    /// The layer as the settings ask for it, with its weights. Where the weights are handed out
    /// in main memory, it succeeds if they are there.
    pub(crate) fn load(cfg: &Config, w: &Weights) -> (r: Result<Attention, Error>)
        requires
            cfg.num_attention_heads >= 1,
        ensures
            r matches Ok(a) ==> {
                &&& a.loaded(*cfg, w@)
                &&& a.is_kept_on(weights_device(*w))
                &&& a.fits(cfg.hidden_size)
                &&& cfg.even() ==> a.shares(cfg.hidden_size)
                &&& weights_are_local(*w) ==> a.is_local()
            },
            weights_are_local(*w) && Self::stored(*cfg, w@) ==> r is Ok,
    {
        let head_dim = cfg.head_dim();
        let width = cfg.hidden_size;
        let attention = Attention {
            k_proj: linear(width, width, &w.pp("k_proj"))?,
            v_proj: linear(width, width, &w.pp("v_proj"))?,
            q_proj: linear(width, width, &w.pp("q_proj"))?,
            out_proj: linear(width, width, &w.pp("out_proj"))?,
            num_heads: cfg.num_attention_heads,
            head_dim,
            dropout: dropout_new(&cfg.attention_dropout),
        };
        proof {
            vstd::arithmetic::div_mod::lemma_fundamental_div_mod(
                width as int,
                cfg.num_attention_heads as int,
            );
        }
        Ok(attention)
    }

    /// The rows of `x`, which has `rows` rows of `len` frames, split up among the heads.
    pub open spec fn split(self, rows: usize, len: usize, x: Grid) -> Grid {
        transposed(reshaped(x, seq![rows, len, self.num_heads, self.head_dim]), 1, 2)
    }

    /// What is split up among the heads is joined again as it was.
    pub proof fn joining_undoes_splitting(self, rows: usize, len: usize, x: Grid)
        requires
            x.cells.len() == volume(seq![rows, len, self.num_heads, self.head_dim]),
        ensures
            reshaped(transposed(self.split(rows, len, x), 1, 2), x.dims) == x,
    {
        transposing_twice_gives_back(
            reshaped(x, seq![rows, len, self.num_heads, self.head_dim]),
            1,
            2,
        );
    }

    /// `y` may be the result of the layer on `x`, where `mask` is added to the scores.
    pub open spec fn runs(self, x: Grid, mask: Option<Grid>, y: Grid) -> bool {
        exists|trace: AttentionTrace| #[trigger] self.runs_through(x, mask, trace, y)
    }

    /// `y` may be the result of the layer on `x`, computed through `trace`.
    pub open spec fn runs_through(
        self,
        x: Grid,
        mask: Option<Grid>,
        trace: AttentionTrace,
        y: Grid,
    ) -> bool {
        let (rows, len) = (x.dims[0], x.dims[1]);
        let queries = self.split(rows, len, trace.queries);
        let keys = self.split(rows, len, trace.keys);
        let values = self.split(rows, len, trace.values);
        &&& self.shares(x.dims[2])
        &&& is_linear(linear_tensors(self.q_proj), x, trace.queries)
        &&& is_linear(linear_tensors(self.k_proj), x, trace.keys)
        &&& is_linear(linear_tensors(self.v_proj), x, trace.values)
        &&& is_matmul(queries, transposed(keys, 2, 3), trace.products)
        &&& is_scaled(
            trace.products,
            reciprocal_bits(root_bits(self.head_dim)),
            trace.scores,
        )
        &&& match mask {
            Some(mask) => is_broadcast_sum(trace.scores, mask, trace.masked),
            None => trace.masked == trace.scores,
        }
        &&& is_softmax(trace.masked, trace.shares)
        &&& is_matmul(trace.shares, values, trace.mixed)
        &&& is_linear(
            linear_tensors(self.out_proj),
            reshaped(transposed(trace.mixed, 1, 2), x.dims),
            y,
        )
    }

    /// One of the three projections of the frames, split up among the heads. The processor does
    /// not fail where the heads share the width evenly.
    fn project(&self, proj: &Linear, xs: &Tensor, batch: usize, seq_len: usize) -> (r: Result<
        Tensor,
        Error,
    >)
        requires
            tensor_dims(*xs).len() == 3,
            tensor_dims(*xs)[0] == batch,
            tensor_dims(*xs)[1] == seq_len,
            batch >= 1,
            seq_len >= 1,
            self.fits(self.width()),
            self.counts(batch, seq_len, self.width()),
            square(*proj, self.width()),
        ensures
            r matches Ok(y) ==> {
                &&& tensor_dims(*xs)[2] == self.width()
                &&& exists|p: Grid|
                    #[trigger] is_linear(linear_tensors(*proj), grid(*xs), p) && grid(y)
                        == self.split(batch, seq_len, p)
                &&& self.shares(tensor_dims(*xs)[2])
                &&& tensor_device(y) == tensor_device(*xs)
            },
            linear_is_local(*proj) && self.shares(self.width()) && is_at_hand(*xs) && tensor_dims(
                *xs,
            )[2] == self.width() ==> is_computed(r),
    {
        let projected = linear_forward(proj, xs)?;
        let ghost p = grid(projected);
        let shape: Vec<usize> = vec![batch, seq_len, self.num_heads, self.head_dim];
        proof {
            let width = tensor_dims(*xs)[2];
            let share = self.num_heads * self.head_dim;
            assert(shape@ =~= seq![batch, seq_len, self.num_heads, self.head_dim]);
            assert(tensor_dims(projected) =~= seq![batch, seq_len, width]);
            volume_of_four(batch, seq_len, self.num_heads, self.head_dim);
            volume_of_three(batch, seq_len, width);
            assert(batch * (seq_len * share) <= batch * (seq_len * width)) by (nonlinear_arith)
                requires
                    0 <= share <= width,
                    batch >= 0,
                    seq_len >= 0,
            ;
            products_of_four_fit(batch, seq_len, self.num_heads, self.head_dim);
            assert(batch * (seq_len * share) == batch * (seq_len * width) ==> share == width)
                by (nonlinear_arith)
                requires
                    batch >= 1,
                    seq_len >= 1,
            ;
        }
        let split = transpose(&reshape(&projected, shape)?, 1, 2)?;
        assert(is_linear(linear_tensors(*proj), grid(*xs), p) && grid(split) == self.split(
            batch,
            seq_len,
            p,
        ));
        contiguous(&split)
    }

    /// The layer on a batch of rows of frames. The result has the sizes of the argument. It fails
    /// on frames of another width. The processor does not fail where the heads share the width
    /// evenly and the mask can be added to the scores.
    pub(crate) fn forward(&self, xs: &Tensor, attention_mask: Option<&Tensor>) -> (r: Result<
        Tensor,
        Error,
    >)
        requires
            tensor_dims(*xs).len() == 3,
            tensor_dims(*xs)[0] >= 1,
            tensor_dims(*xs)[1] >= 1,
            self.fits(self.width()),
            self.counts(tensor_dims(*xs)[0], tensor_dims(*xs)[1], self.width()),
            attention_mask matches Some(mask) ==> no_empty(tensor_dims(*mask)),
        ensures
            r matches Ok(y) ==> {
                &&& self.runs(
                    grid(*xs),
                    match attention_mask {
                        Some(mask) => Some(grid(*mask)),
                        None => None,
                    },
                    grid(y),
                )
                &&& tensor_dims(y) == tensor_dims(*xs)
                &&& tensor_dims(*xs)[2] == self.width()
                &&& tensor_device(y) == tensor_device(*xs)
            },
            self.is_local() && self.shares(tensor_dims(*xs)[2]) && is_at_hand(*xs) && (
            attention_mask matches Some(mask) ==> is_local(*mask) && self.admits(
                tensor_dims(*mask),
                tensor_dims(*xs)[0],
                tensor_dims(*xs)[1],
            )) && tensor_dims(*xs)[2] == self.width() ==> is_computed(r),
    {
        let (batch, seq_len, hidden) = dims3(xs)?;
        let q = self.project(&self.q_proj, xs, batch, seq_len)?;
        let k = self.project(&self.k_proj, xs, batch, seq_len)?;
        let v = self.project(&self.v_proj, xs, batch, seq_len)?;
        let ghost queries = choose|p: Grid| #[trigger]
            is_linear(linear_tensors(self.q_proj), grid(*xs), p) && grid(q) == self.split(
                batch,
                seq_len,
                p,
            );
        let ghost keys = choose|p: Grid| #[trigger]
            is_linear(linear_tensors(self.k_proj), grid(*xs), p) && grid(k) == self.split(
                batch,
                seq_len,
                p,
            );
        let ghost values = choose|p: Grid| #[trigger]
            is_linear(linear_tensors(self.v_proj), grid(*xs), p) && grid(v) == self.split(
                batch,
                seq_len,
                p,
            );
        let turned = t(&k)?;
        proof {
            if self.shares(hidden) && is_at_hand(*xs) {
                heads_are_not_empty(self.num_heads as int, self.head_dim as int, hidden as int);
            }
            assert(tensor_dims(q) =~= seq![batch, self.num_heads, seq_len, self.head_dim]);
            assert(tensor_dims(turned) =~= seq![batch, self.num_heads, self.head_dim, seq_len]);
            assert(tensor_dims(q).take(2) =~= tensor_dims(turned).take(2));
        }
        let products = matmul(&q, &turned)?;
        let scores = scale(&products, &reciprocal(&root(self.head_dim)))?;
        assert(tensor_dims(scores) =~= seq![batch, self.num_heads, seq_len, seq_len]);
        let ghost scores_grid = grid(scores);
        let mut masked = scores;
        if let Some(mask) = attention_mask {
            proof {
                stretching_is_broadcasting(tensor_dims(masked), tensor_dims(*mask));
            }
            masked = broadcast_add(&masked, mask)?;
        }
        let ghost masked_grid = grid(masked);
        let attn = softmax(&masked)?;
        let ghost shares = grid(attn);
        let attn = dropout_forward(&self.dropout, &attn, false)?;
        proof {
            assert(tensor_dims(v) =~= seq![batch, self.num_heads, seq_len, self.head_dim]);
            if attention_mask matches Some(mask) ==> self.admits(
                tensor_dims(*mask),
                batch,
                seq_len,
            ) {
                assert(tensor_dims(attn) =~= seq![batch, self.num_heads, seq_len, seq_len]);
                assert(tensor_dims(attn).take(2) =~= tensor_dims(v).take(2));
            }
        }
        let mixed = matmul(&attn, &v)?;
        proof {
            if let Some(mask) = attention_mask {
                heads_stay_together(
                    scores_grid.dims,
                    tensor_dims(*mask),
                    tensor_dims(v),
                );
            }
        }
        let gathered = contiguous(&transpose(&mixed, 1, 2)?)?;
        let shape: Vec<usize> = vec![batch, seq_len, hidden];
        proof {
            assert(shape@ =~= tensor_dims(*xs));
            if attention_mask matches Some(mask) ==> self.admits(
                tensor_dims(*mask),
                batch,
                seq_len,
            ) {
                assert(tensor_dims(gathered) =~= seq![
                    batch,
                    seq_len,
                    self.num_heads,
                    self.head_dim,
                ]);
            }
            volume_of_four(batch, seq_len, self.num_heads, self.head_dim);
            volume_of_three(batch, seq_len, hidden);
            assert(batch * seq_len <= batch * (seq_len * self.num_heads)) by (nonlinear_arith)
                requires
                    batch >= 1,
                    seq_len >= 1,
                    self.num_heads >= 1,
            ;
            products_of_three_fit(batch, seq_len, hidden);
        }
        let ys = reshape(&gathered, shape)?;
        let out = linear_forward(&self.out_proj, &ys)?;
        proof {
            let trace = AttentionTrace {
                queries,
                keys,
                values,
                products: grid(products),
                scores: scores_grid,
                masked: masked_grid,
                shares,
                mixed: grid(mixed),
            };
            let mask = match attention_mask {
                Some(mask) => Some(grid(*mask)),
                None => None,
            };
            assert(self.runs_through(grid(*xs), mask, trace, grid(out)));
            assert(tensor_dims(out) =~= tensor_dims(*xs));
        }
        Ok(out)
    }
}

/// One layer of the encoder: attention, then two linear layers for each frame by itself.
pub struct EncoderLayer {
    pub attention: Attention,
    pub dropout: Dropout,
    pub layer_norm: LayerNorm,
    pub feed_forward_intermediate: Linear,
    pub feed_forward_output: Linear,
    pub final_layer_norm: LayerNorm,
    pub activation_dropout: Dropout,
    pub hidden_dropout: Dropout,
}

/// What a layer of the encoder is computed through.
pub struct LayerTrace {
    pub attended: Grid,
    pub joined: Grid,
    pub normed: Grid,
    pub widened: Grid,
    pub activated: Grid,
    pub narrowed: Grid,
    pub rejoined: Grid,
}

/// A layer norm over frames of this width.
pub open spec fn norms(l: LayerNorm, width: usize) -> bool {
    layer_norm_fits(layer_norm_tensors(l)) && layer_norm_tensors(l)[0].dims == seq![width]
}

impl EncoderLayer {
    /// The parts fit together, for frames of this width.
    pub open spec fn fits(self, width: usize) -> bool {
        let inner = linear_tensors(self.feed_forward_intermediate);
        let outer = linear_tensors(self.feed_forward_output);
        &&& self.attention.fits(width)
        &&& norms(self.layer_norm, width)
        &&& norms(self.final_layer_norm, width)
        &&& linear_fits(inner)
        &&& inner[0].dims[1] == width
        &&& linear_fits(outer)
        &&& outer[0].dims == seq![width, inner[0].dims[0]]
    }

    /// The tensors of the parts are in main memory, for the processor to work on.
    pub open spec fn is_local(self) -> bool {
        &&& self.attention.is_local()
        &&& layer_norm_is_local(self.layer_norm)
        &&& linear_is_local(self.feed_forward_intermediate)
        &&& linear_is_local(self.feed_forward_output)
        &&& layer_norm_is_local(self.final_layer_norm)
    }

    /// The tensors of the parts are kept on this device.
    pub open spec fn is_kept_on(self, device: Device) -> bool {
        &&& self.attention.is_kept_on(device)
        &&& layer_norm_device(self.layer_norm) == device
        &&& linear_device(self.feed_forward_intermediate) == device
        &&& linear_device(self.feed_forward_output) == device
        &&& layer_norm_device(self.final_layer_norm) == device
    }

    /// The heads share the width evenly, and there is something between the two linear layers.
    pub open spec fn shares(self, width: usize) -> bool {
        &&& self.attention.shares(width)
        &&& linear_tensors(self.feed_forward_intermediate)[0].dims[0] >= 1
    }

    /// The tensors of the parts are at a place, with the right sizes.
    pub open spec fn stored(cfg: Config, place: Place) -> bool {
        let width = cfg.hidden_size;
        let inner = cfg.intermediate_size;
        &&& Attention::stored(cfg, place.below("attention"@))
        &&& norm_stored(width, place.below("layer_norm"@))
        &&& linear_stored(width, inner, place.below("feed_forward.intermediate_dense"@))
        &&& linear_stored(inner, width, place.below("feed_forward.output_dense"@))
        &&& norm_stored(width, place.below("final_layer_norm"@))
    }

    /// The layer is the one of the settings, with the weights at a place.
    pub open spec fn loaded(self, cfg: Config, place: Place) -> bool {
        let width = cfg.hidden_size;
        let inner = cfg.intermediate_size;
        let eps = cfg.layer_norm_eps;
        &&& self.attention.loaded(cfg, place.below("attention"@))
        &&& dropout_from(self.dropout, cfg.hidden_dropout)
        &&& layer_norm_from(self.layer_norm, width, eps, place.below("layer_norm"@))
        &&& linear_from(
            self.feed_forward_intermediate,
            width,
            inner,
            place.below("feed_forward.intermediate_dense"@),
        )
        &&& linear_from(
            self.feed_forward_output,
            inner,
            width,
            place.below("feed_forward.output_dense"@),
        )
        &&& layer_norm_from(self.final_layer_norm, width, eps, place.below("final_layer_norm"@))
        &&& dropout_from(self.activation_dropout, cfg.activation_dropout)
        &&& dropout_from(self.hidden_dropout, cfg.hidden_dropout)
    }

    /// `y` may be the result of the layer on `x`, where `mask` is added to the scores.
    pub open spec fn runs(self, x: Grid, mask: Option<Grid>, y: Grid) -> bool {
        exists|trace: LayerTrace| #[trigger] self.runs_through(x, mask, trace, y)
    }

    /// `y` may be the result of the layer on `x`, computed through `trace`.
    pub open spec fn runs_through(
        self,
        x: Grid,
        mask: Option<Grid>,
        trace: LayerTrace,
        y: Grid,
    ) -> bool {
        &&& self.attention.runs(x, mask, trace.attended)
        &&& is_sum_of(trace.attended, x, trace.joined)
        &&& is_layer_norm(
            layer_norm_tensors(self.layer_norm),
            layer_norm_eps(self.layer_norm),
            trace.joined,
            trace.normed,
        )
        &&& is_linear(
            linear_tensors(self.feed_forward_intermediate),
            trace.normed,
            trace.widened,
        )
        &&& is_gelu(trace.widened, trace.activated)
        &&& is_linear(
            linear_tensors(self.feed_forward_output),
            trace.activated,
            trace.narrowed,
        )
        &&& is_sum_of(trace.narrowed, trace.normed, trace.rejoined)
        &&& is_layer_norm(
            layer_norm_tensors(self.final_layer_norm),
            layer_norm_eps(self.final_layer_norm),
            trace.rejoined,
            y,
        )
    }

    /// The layer as the settings ask for it, with its weights. Where the weights are handed out
    /// in main memory, it succeeds if they are there.
    pub(crate) fn load(cfg: &Config, w: &Weights) -> (r: Result<EncoderLayer, Error>)
        requires
            cfg.num_attention_heads >= 1,
        ensures
            r matches Ok(l) ==> {
                &&& l.loaded(*cfg, w@)
                &&& l.is_kept_on(weights_device(*w))
                &&& l.fits(cfg.hidden_size)
                &&& cfg.even() ==> l.shares(cfg.hidden_size)
                &&& weights_are_local(*w) ==> l.is_local()
            },
            weights_are_local(*w) && Self::stored(*cfg, w@) ==> r is Ok,
    {
        Ok(
            EncoderLayer {
                attention: Attention::load(cfg, &w.pp("attention"))?,
                dropout: dropout_new(&cfg.hidden_dropout),
                layer_norm: layer_norm(
                    cfg.hidden_size,
                    &cfg.layer_norm_eps,
                    &w.pp("layer_norm"),
                )?,
                feed_forward_intermediate: linear(
                    cfg.hidden_size,
                    cfg.intermediate_size,
                    &w.pp("feed_forward.intermediate_dense"),
                )?,
                feed_forward_output: linear(
                    cfg.intermediate_size,
                    cfg.hidden_size,
                    &w.pp("feed_forward.output_dense"),
                )?,
                final_layer_norm: layer_norm(
                    cfg.hidden_size,
                    &cfg.layer_norm_eps,
                    &w.pp("final_layer_norm"),
                )?,
                activation_dropout: dropout_new(&cfg.activation_dropout),
                hidden_dropout: dropout_new(&cfg.hidden_dropout),
            },
        )
    }

    /// The layer on a batch of rows of frames. The result has the sizes of the argument. The
    /// processor does not fail where the parts share the width evenly.
    pub(crate) fn forward(&self, xs: &Tensor, attention_mask: Option<&Tensor>) -> (r: Result<
        Tensor,
        Error,
    >)
        requires
            tensor_dims(*xs).len() == 3,
            no_empty(tensor_dims(*xs)),
            self.fits(self.attention.width()),
            self.attention.counts(
                tensor_dims(*xs)[0],
                tensor_dims(*xs)[1],
                self.attention.width(),
            ),
            attention_mask matches Some(mask) ==> no_empty(tensor_dims(*mask)),
        ensures
            r matches Ok(y) ==> {
                &&& self.runs(
                    grid(*xs),
                    match attention_mask {
                        Some(mask) => Some(grid(*mask)),
                        None => None,
                    },
                    grid(y),
                )
                &&& tensor_dims(y) == tensor_dims(*xs)
                &&& tensor_dims(*xs)[2] == self.attention.width()
                &&& tensor_device(y) == tensor_device(*xs)
            },
            self.is_local() && self.shares(tensor_dims(*xs)[2]) && is_at_hand(*xs) && (
            attention_mask matches Some(mask) ==> is_local(*mask) && self.attention.admits(
                tensor_dims(*mask),
                tensor_dims(*xs)[0],
                tensor_dims(*xs)[1],
            )) && tensor_dims(*xs)[2] == self.attention.width() ==> is_computed(r),
    {
        let residual = xs;
        let attended = self.attention.forward(xs, attention_mask)?;
        let kept = dropout_forward(&self.dropout, &attended, false)?;
        let joined = plus(&kept, residual)?;
        let normed = layer_norm_forward(&self.layer_norm, &joined)?;
        assert(tensor_dims(normed) =~= tensor_dims(*xs));

        let widened = linear_forward(&self.feed_forward_intermediate, &normed)?;
        let activated = gelu(&widened)?;
        let kept = dropout_forward(&self.activation_dropout, &activated, false)?;
        let narrowed = linear_forward(&self.feed_forward_output, &kept)?;
        let kept = dropout_forward(&self.hidden_dropout, &narrowed, false)?;
        assert(tensor_dims(kept) =~= tensor_dims(*xs));
        let rejoined = plus(&kept, &normed)?;
        let out = layer_norm_forward(&self.final_layer_norm, &rejoined)?;
        proof {
            let trace = LayerTrace {
                attended: grid(attended),
                joined: grid(joined),
                normed: grid(normed),
                widened: grid(widened),
                activated: grid(activated),
                narrowed: grid(narrowed),
                rejoined: grid(rejoined),
            };
            let mask = match attention_mask {
                Some(mask) => Some(grid(*mask)),
                None => None,
            };
            assert(self.runs_through(grid(*xs), mask, trace, grid(out)));
            assert(tensor_dims(out) =~= tensor_dims(*xs));
        }
        Ok(out)
    }
}

/// The encoder.
pub struct Encoder {
    pub pos_conv_embed: PosConvEmbed,
    pub layer_norm: LayerNorm,
    pub dropout: Dropout,
    pub layers: Vec<EncoderLayer>,
}

/// `y` may be the result of the layers, one after the other, on `x`.
pub open spec fn attend_in_turn(
    layers: Seq<EncoderLayer>,
    x: Grid,
    mask: Option<Grid>,
    y: Grid,
) -> bool
    decreases layers.len(),
{
    if layers.len() == 0 {
        y == x
    } else {
        exists|between: Grid|
            attend_in_turn(layers.drop_last(), x, mask, between)
                && #[trigger] layers.last().runs(between, mask, y)
    }
}

impl Encoder {
    /// The parts fit together, for frames of this width.
    pub open spec fn fits(self, width: usize) -> bool {
        &&& self.pos_conv_embed.fits(width)
        &&& norms(self.layer_norm, width)
        &&& forall|i: int|
            0 <= i < self.layers@.len() ==> (#[trigger] self.layers@[i]).fits(width)
    }

    /// The tensors of the parts are in main memory, for the processor to work on.
    pub open spec fn is_local(self) -> bool {
        &&& self.pos_conv_embed.is_local()
        &&& layer_norm_is_local(self.layer_norm)
        &&& forall|i: int| 0 <= i < self.layers@.len() ==> (#[trigger] self.layers@[i]).is_local()
    }

    /// The tensors of the parts are kept on this device.
    pub open spec fn is_kept_on(self, device: Device) -> bool {
        &&& self.pos_conv_embed.is_kept_on(device)
        &&& layer_norm_device(self.layer_norm) == device
        &&& forall|i: int|
            0 <= i < self.layers@.len() ==> (#[trigger] self.layers@[i]).is_kept_on(device)
    }

    /// The frames of a batch can be counted in every layer.
    pub open spec fn counts(self, rows: usize, len: usize, width: usize) -> bool {
        forall|i: int|
            0 <= i < self.layers@.len() ==> (#[trigger] self.layers@[i]).attention.counts(
                rows,
                len,
                width,
            )
    }

    /// A mask of these sizes can be added to the scores of a batch in every layer.
    pub open spec fn admits(self, mask: Seq<usize>, rows: usize, len: usize) -> bool {
        forall|i: int|
            0 <= i < self.layers@.len() ==> (#[trigger] self.layers@[i]).attention.admits(
                mask,
                rows,
                len,
            )
    }

    /// All parts share the width evenly.
    pub open spec fn shares(self, width: usize) -> bool {
        &&& self.pos_conv_embed.shares(width)
        &&& forall|i: int|
            0 <= i < self.layers@.len() ==> (#[trigger] self.layers@[i]).shares(width)
    }

    /// The place of layer `i`.
    pub open spec fn layer_place(place: Place, i: int) -> Place {
        place.below("layers."@ + decimal(i as nat))
    }

    /// The tensors of the parts are at a place, with the right sizes.
    pub open spec fn stored(cfg: Config, place: Place) -> bool {
        &&& PosConvEmbed::stored(cfg, place)
        &&& norm_stored(cfg.hidden_size, place.below("layer_norm"@))
        &&& forall|i: int|
            0 <= i < cfg.num_hidden_layers ==> EncoderLayer::stored(
                cfg,
                #[trigger] Self::layer_place(place, i),
            )
    }

    /// The encoder is the one of the settings, with the weights at a place.
    pub open spec fn loaded(self, cfg: Config, place: Place) -> bool {
        &&& self.pos_conv_embed.loaded(cfg, place)
        &&& layer_norm_from(
            self.layer_norm,
            cfg.hidden_size,
            cfg.layer_norm_eps,
            place.below("layer_norm"@),
        )
        &&& dropout_from(self.dropout, cfg.hidden_dropout)
        &&& self.layers@.len() == cfg.num_hidden_layers
        &&& forall|i: int|
            0 <= i < self.layers@.len() ==> (#[trigger] self.layers@[i]).loaded(
                cfg,
                place.below("layers."@ + decimal(i as nat)),
            )
    }

    /// `y` may be the result of the encoder on `x`, where `mask` is added to the scores.
    pub open spec fn runs(self, x: Grid, mask: Option<Grid>, y: Grid) -> bool {
        exists|pos: Grid, placed: Grid, normed: Grid| #[trigger]
            self.runs_through(x, mask, pos, placed, normed, y)
    }

    /// `y` may be the result of the encoder on `x`, with `placed` after the position
    /// convolution has been added and `normed` after the norm.
    pub open spec fn runs_through(
        self,
        x: Grid,
        mask: Option<Grid>,
        pos: Grid,
        placed: Grid,
        normed: Grid,
        y: Grid,
    ) -> bool {
        &&& self.pos_conv_embed.runs(x, pos)
        &&& is_sum_of(x, pos, placed)
        &&& is_layer_norm(
            layer_norm_tensors(self.layer_norm),
            layer_norm_eps(self.layer_norm),
            placed,
            normed,
        )
        &&& attend_in_turn(self.layers@, normed, mask, y)
    }

    /// The encoder as the settings ask for it, with its weights. Where the weights are handed
    /// out in main memory, it succeeds if they are there.
    pub(crate) fn load(cfg: &Config, w: &Weights) -> (r: Result<Encoder, Error>)
        requires
            cfg.num_hidden_layers >= 1 ==> cfg.num_attention_heads >= 1,
            cfg.num_conv_pos_embedding_groups >= 1,
            weights_are_local(*w) || cfg.num_conv_pos_embeddings >= 1,
        ensures
            r matches Ok(e) ==> {
                &&& e.loaded(*cfg, w@)
                &&& e.is_kept_on(weights_device(*w))
                &&& cfg.taps_are_usable() ==> e.fits(cfg.hidden_size)
                &&& cfg.even() ==> e.shares(cfg.hidden_size)
                &&& weights_are_local(*w) ==> e.is_local()
            },
            weights_are_local(*w) && Self::stored(*cfg, w@) ==> r is Ok,
    {
        let mut layers: Vec<EncoderLayer> = Vec::new();
        let mut idx: usize = 0;
        while idx < cfg.num_hidden_layers
            invariant
                cfg.num_hidden_layers >= 1 ==> cfg.num_attention_heads >= 1,
                idx <= cfg.num_hidden_layers,
                layers@.len() == idx,
                forall|i: int|
                    0 <= i < idx ==> (#[trigger] layers@[i]).loaded(
                        *cfg,
                        w@.below("layers."@ + decimal(i as nat)),
                    ),
                forall|i: int| 0 <= i < idx ==> (#[trigger] layers@[i]).fits(cfg.hidden_size),
                forall|i: int|
                    0 <= i < idx ==> (#[trigger] layers@[i]).is_kept_on(weights_device(*w)),
                cfg.even() ==> forall|i: int|
                    0 <= i < idx ==> (#[trigger] layers@[i]).shares(cfg.hidden_size),
                weights_are_local(*w) ==> forall|i: int|
                    0 <= i < idx ==> (#[trigger] layers@[i]).is_local(),
            decreases cfg.num_hidden_layers - idx,
        {
            let layer_weights = w.pp(around_number("layers.", idx, "").as_str());
            proof {
                reveal_strlit("");
                assert("layers."@ + decimal(idx as nat) + ""@ =~= "layers."@ + decimal(
                    idx as nat,
                ));
                assert(layer_weights@ == Self::layer_place(w@, idx as int));
            }
            let layer = EncoderLayer::load(cfg, &layer_weights)?;
            assert(layer_weights@ == w@.below("layers."@ + decimal(idx as nat)));
            layers.push(layer);
            idx = idx + 1;
        }
        Ok(
            Encoder {
                pos_conv_embed: PosConvEmbed::load(cfg, w)?,
                layer_norm: layer_norm(
                    cfg.hidden_size,
                    &cfg.layer_norm_eps,
                    &w.pp("layer_norm"),
                )?,
                dropout: dropout_new(&cfg.hidden_dropout),
                layers,
            },
        )
    }

    /// The encoder on a batch of rows of frames. The result has the sizes of the argument. The
    /// processor does not fail where all parts share the width evenly.
    pub(crate) fn forward(&self, xs: &Tensor, attention_mask: Option<&Tensor>) -> (r: Result<
        Tensor,
        Error,
    >)
        requires
            tensor_dims(*xs).len() == 3,
            no_empty(tensor_dims(*xs)),
            tensor_dims(*xs)[1] <= usize::MAX / 2,
            self.fits(tensor_dims(*xs)[2]),
            self.counts(tensor_dims(*xs)[0], tensor_dims(*xs)[1], tensor_dims(*xs)[2]),
            attention_mask matches Some(mask) ==> no_empty(tensor_dims(*mask)),
        ensures
            r matches Ok(y) ==> {
                &&& self.runs(
                    grid(*xs),
                    match attention_mask {
                        Some(mask) => Some(grid(*mask)),
                        None => None,
                    },
                    grid(y),
                )
                &&& tensor_dims(y) == tensor_dims(*xs)
                &&& tensor_device(y) == tensor_device(*xs)
            },
            self.is_local() && self.shares(tensor_dims(*xs)[2]) && is_at_hand(*xs) && (
            attention_mask matches Some(mask) ==> is_local(*mask) && self.admits(
                tensor_dims(*mask),
                tensor_dims(*xs)[0],
                tensor_dims(*xs)[1],
            )) ==> is_computed(r),
    {
        let ghost sure = self.is_local() && self.shares(tensor_dims(*xs)[2]) && is_at_hand(*xs) && (
        attention_mask matches Some(mask) ==> is_local(*mask) && self.admits(
            tensor_dims(*mask),
            tensor_dims(*xs)[0],
            tensor_dims(*xs)[1],
        ));
        let ghost mask = match attention_mask {
            Some(mask) => Some(grid(*mask)),
            None => None,
        };
        let pos = self.pos_conv_embed.forward(xs)?;
        let placed = plus(xs, &pos)?;
        let normed = layer_norm_forward(&self.layer_norm, &placed)?;
        let ghost start = grid(normed);
        let mut ys = dropout_forward(&self.dropout, &normed, false)?;
        assert(tensor_dims(ys) =~= tensor_dims(*xs));
        assert(self.layers@.take(0) =~= Seq::<EncoderLayer>::empty());
        let mut i: usize = 0;
        while i < self.layers.len()
            invariant
                tensor_dims(*xs).len() == 3,
                no_empty(tensor_dims(*xs)),
                self.fits(tensor_dims(*xs)[2]),
                self.counts(tensor_dims(*xs)[0], tensor_dims(*xs)[1], tensor_dims(*xs)[2]),
                attention_mask matches Some(mask) ==> no_empty(tensor_dims(*mask)),
                tensor_device(ys) == tensor_device(*xs),
                mask == (match attention_mask {
                    Some(mask) => Some(grid(*mask)),
                    None => None,
                }),
                i <= self.layers.len(),
                tensor_dims(ys) == tensor_dims(*xs),
                sure == (self.is_local() && self.shares(tensor_dims(*xs)[2]) && is_at_hand(*xs) && (
                attention_mask matches Some(mask) ==> is_local(*mask) && self.admits(
                    tensor_dims(*mask),
                    tensor_dims(*xs)[0],
                    tensor_dims(*xs)[1],
                ))),
                sure ==> is_at_hand(ys),
                attend_in_turn(self.layers@.take(i as int), start, mask, grid(ys)),
            decreases self.layers.len() - i,
        {
            let ghost before = grid(ys);
            assert(self.layers@[i as int].fits(tensor_dims(*xs)[2]));
            ys = self.layers[i].forward(&ys, attention_mask)?;
            proof {
                let done = self.layers@.take(i + 1);
                assert(done.drop_last() =~= self.layers@.take(i as int));
                assert(done.last() == self.layers@[i as int]);
                assert(done.last().runs(before, mask, grid(ys)));
                assert(attend_in_turn(done, start, mask, grid(ys)));
            }
            i = i + 1;
        }
        assert(self.layers@.take(i as int) =~= self.layers@);
        assert(self.runs_through(grid(*xs), mask, grid(pos), grid(placed), start, grid(ys)));
        Ok(ys)
    }
}

/// An encoder without layers gives the normed sum of the frames and their positions.
pub proof fn encoder_without_layers_norms_placed_frames(
    e: Encoder,
    x: Grid,
    mask: Option<Grid>,
    y: Grid,
)
    requires
        e.layers@.len() == 0,
    ensures
        e.runs(x, mask, y) <==> exists|pos: Grid, placed: Grid|
            e.pos_conv_embed.runs(x, pos) && #[trigger] is_sum_of(x, pos, placed) && is_layer_norm(
                layer_norm_tensors(e.layer_norm),
                layer_norm_eps(e.layer_norm),
                placed,
                y,
            ),
{
    if e.runs(x, mask, y) {
        let (pos, placed, normed) = choose|pos: Grid, placed: Grid, normed: Grid| #[trigger]
            e.runs_through(x, mask, pos, placed, normed, y);
        assert(is_sum_of(x, pos, placed));
    }
    if exists|pos: Grid, placed: Grid|
        e.pos_conv_embed.runs(x, pos) && #[trigger] is_sum_of(x, pos, placed) && is_layer_norm(
            layer_norm_tensors(e.layer_norm),
            layer_norm_eps(e.layer_norm),
            placed,
            y,
        ) {
        let (pos, placed) = choose|pos: Grid, placed: Grid|
            e.pos_conv_embed.runs(x, pos) && #[trigger] is_sum_of(x, pos, placed) && is_layer_norm(
                layer_norm_tensors(e.layer_norm),
                layer_norm_eps(e.layer_norm),
                placed,
                y,
            );
        assert(e.runs_through(x, mask, pos, placed, y, y));
    }
}

/// What an encoder gives comes of its last layer, run on what an encoder with the same other parts
/// and the layers before it gives.
pub proof fn last_layer_runs_on_the_encoder_before_it(
    e: Encoder,
    shorter: Encoder,
    x: Grid,
    mask: Option<Grid>,
    y: Grid,
)
    requires
        e.layers@.len() > 0,
        shorter.layers@ == e.layers@.drop_last(),
        shorter.pos_conv_embed == e.pos_conv_embed,
        shorter.layer_norm == e.layer_norm,
    ensures
        e.runs(x, mask, y) <==> exists|between: Grid|
            shorter.runs(x, mask, between) && #[trigger] e.layers@[e.layers@.len() - 1].runs(
                between,
                mask,
                y,
            ),
{
    let last = e.layers@[e.layers@.len() - 1];
    assert(e.layers@.last() == last);
    if e.runs(x, mask, y) {
        let (pos, placed, normed) = choose|pos: Grid, placed: Grid, normed: Grid| #[trigger]
            e.runs_through(x, mask, pos, placed, normed, y);
        let between = choose|between: Grid|
            attend_in_turn(e.layers@.drop_last(), normed, mask, between)
                && #[trigger] e.layers@.last().runs(between, mask, y);
        assert(shorter.runs_through(x, mask, pos, placed, normed, between));
        assert(last.runs(between, mask, y));
    }
    if exists|between: Grid|
        shorter.runs(x, mask, between) && #[trigger] last.runs(between, mask, y) {
        let between = choose|between: Grid|
            shorter.runs(x, mask, between) && #[trigger] last.runs(between, mask, y);
        let (pos, placed, normed) = choose|pos: Grid, placed: Grid, normed: Grid| #[trigger]
            shorter.runs_through(x, mask, pos, placed, normed, between);
        assert(e.layers@.last().runs(between, mask, y));
        assert(e.runs_through(x, mask, pos, placed, normed, y));
    }
}

/// The positions of frames come of a convolution along them, channel by channel, of which as many
/// places are kept as there are frames, and of the activation.
pub proof fn positions_come_of_neighbours(p: PosConvEmbed, x: Grid, y: Grid) -> (parts: (
    Grid,
    Grid,
    Grid,
    Grid,
))
    requires
        p.runs(x, y),
        p.padding > 0,
        x.dims.len() == 3,
        conv_settings(p.conv).stride >= 1,
    ensures
        ({
            let (turned, c, kept, g) = parts;
            let (rows, len, width) = (x.dims[0], x.dims[1], x.dims[2]);
            &&& turned.dims == seq![rows, width, len]
            &&& forall|i: int, j: int, k: int|
                #![trigger turned.cells[(i * width + k) * len + j]]
                0 <= i < rows && 0 <= j < len && 0 <= k < width ==> turned.cells[(i * width + k)
                    * len + j] == x.cells[(i * len + j) * width + k]
            &&& is_conv(conv_tensors(p.conv), conv_settings(p.conv), turned, c)
            &&& len <= c.dims[2]
            &&& kept.dims == seq![c.dims[0], c.dims[1], len]
            &&& forall|i: int, j: int, k: int|
                #![trigger kept.cells[(i * c.dims[1] + j) * len + k]]
                0 <= i < c.dims[0] && 0 <= j < c.dims[1] && 0 <= k < len ==> kept.cells[(i
                    * c.dims[1] + j) * len + k] == c.cells[(i * c.dims[1] + j) * c.dims[2] + k]
            &&& is_gelu(kept, g)
            &&& y.dims == seq![c.dims[0], len, c.dims[1]]
            &&& forall|i: int, j: int, k: int|
                #![trigger y.cells[(i * len + k) * c.dims[1] + j]]
                0 <= i < c.dims[0] && 0 <= j < c.dims[1] && 0 <= k < len ==> y.cells[(i * len + k)
                    * c.dims[1] + j] == g.cells[(i * c.dims[1] + j) * len + k]
        }),
{
    let (c, g) = choose|c: Grid, g: Grid| #[trigger] p.runs_through(x, c, g, y);
    let (rows, len, width) = (x.dims[0], x.dims[1], x.dims[2]);
    let turned = transposed(x, 1, 2);
    assert(turned.dims =~= seq![rows, width, len]);
    assert forall|i: int, j: int, k: int|
        #![trigger turned.cells[(i * width + k) * len + j]]
        0 <= i < rows && 0 <= j < len && 0 <= k < width implies turned.cells[(i * width + k) * len
        + j] == x.cells[(i * len + j) * width + k] by {
        last_axes_of_three_are_exchanged(x, i, j, k);
    }
    let kept = narrowed(c, 2, 0, len);
    assert(kept.dims =~= seq![c.dims[0], c.dims[1], len]);
    assert forall|i: int, j: int, k: int|
        #![trigger kept.cells[(i * c.dims[1] + j) * len + k]]
        0 <= i < c.dims[0] && 0 <= j < c.dims[1] && 0 <= k < len implies kept.cells[(i * c.dims[1]
        + j) * len + k] == c.cells[(i * c.dims[1] + j) * c.dims[2] + k] by {
        narrowing_leaves_the_first(c, len, i, j, k);
    }
    assert(y.dims =~= seq![c.dims[0], len, c.dims[1]]);
    assert forall|i: int, j: int, k: int|
        #![trigger y.cells[(i * len + k) * c.dims[1] + j]]
        0 <= i < c.dims[0] && 0 <= j < c.dims[1] && 0 <= k < len implies y.cells[(i * len + k)
        * c.dims[1] + j] == g.cells[(i * c.dims[1] + j) * len + k] by {
        last_axes_of_three_are_exchanged(g, i, j, k);
    }
    (turned, c, kept, g)
}

/// Without padding there is nothing to cut off: the places of the convolution are all kept.
pub proof fn positions_without_padding_are_all_kept(p: PosConvEmbed, x: Grid, y: Grid) -> (parts: (
    Grid,
    Grid,
))
    requires
        p.runs(x, y),
        p.padding == 0,
    ensures
        is_conv(conv_tensors(p.conv), conv_settings(p.conv), transposed(x, 1, 2), parts.0),
        is_gelu(parts.0, parts.1),
        y == transposed(parts.1, 1, 2),
{
    let (c, g) = choose|c: Grid, g: Grid| #[trigger] p.runs_through(x, c, g, y);
    (c, g)
}

/// Element `k` of head `h` is the one that stands at place `h * head_dim + k` of its frame.
proof fn heads_split_frames(a: Attention, x: Grid, i: int, t: int, h: int, k: int)
    requires
        x.dims.len() == 3,
        a.num_heads * a.head_dim == x.dims[2],
        0 <= i < x.dims[0],
        0 <= t < x.dims[1],
        0 <= h < a.num_heads,
        0 <= k < a.head_dim,
    ensures
        ({
            let split = a.split(x.dims[0], x.dims[1], x);
            let keys = transposed(split, 2, 3);
            let (len, size) = (x.dims[1], a.head_dim);
            let from = x.cells[(i * len + t) * x.dims[2] + (h * size + k)];
            &&& split.dims == seq![x.dims[0], a.num_heads, len, size]
            &&& split.cells[((i * a.num_heads + h) * len + t) * size + k] == from
            &&& keys.dims == seq![x.dims[0], a.num_heads, size, len]
            &&& keys.cells[((i * a.num_heads + h) * size + k) * len + t] == from
        }),
{
    let (rows, len, heads, size, width) = (
        x.dims[0],
        x.dims[1],
        a.num_heads,
        a.head_dim,
        x.dims[2],
    );
    let whole = reshaped(x, seq![rows, len, heads, size]);
    axes_of_four_are_exchanged(whole, i, t, h, k);
    axes_of_four_are_exchanged(a.split(rows, len, x), i, h, t, k);
    assert(((i * len + t) * heads + h) * size + k == (i * len + t) * width + (h * size + k))
        by (nonlinear_arith)
        requires
            heads * size == width,
    ;
}

/// Attention, head by head. Each head has its own part of every query, key and value: `head_dim`
/// places of a frame, one head behind the other. The products of queries and keys are divided by
/// the root of `head_dim`, the mask is added, they are brought to shares, and the shares mix the
/// values. What the heads have mixed is joined again, one head behind the other.
pub proof fn heads_attend_on_their_own(
    a: Attention,
    x: Grid,
    mask: Option<Grid>,
    y: Grid,
) -> (parts: (AttentionTrace, Grid, Grid, Grid, Grid))
    requires
        a.runs(x, mask, y),
        x.dims.len() == 3,
        a.fits(x.dims[2]),
    ensures
        ({
            let (trace, queries, keys, values, joined) = parts;
            let (rows, len, width) = (x.dims[0], x.dims[1], x.dims[2]);
            let (heads, size) = (a.num_heads, a.head_dim);
            &&& heads * size == width
            &&& is_linear(linear_tensors(a.q_proj), x, trace.queries)
            &&& is_linear(linear_tensors(a.k_proj), x, trace.keys)
            &&& is_linear(linear_tensors(a.v_proj), x, trace.values)
            &&& queries.dims == seq![rows, heads, len, size]
            &&& keys.dims == seq![rows, heads, size, len]
            &&& values.dims == seq![rows, heads, len, size]
            &&& forall|i: int, h: int, t: int, k: int|
                #![trigger queries.cells[((i * heads + h) * len + t) * size + k]]
                0 <= i < rows && 0 <= h < heads && 0 <= t < len && 0 <= k < size
                    ==> queries.cells[((i * heads + h) * len + t) * size + k]
                    == trace.queries.cells[(i * len + t) * width + (h * size + k)]
            &&& forall|i: int, h: int, t: int, k: int|
                #![trigger keys.cells[((i * heads + h) * size + k) * len + t]]
                0 <= i < rows && 0 <= h < heads && 0 <= t < len && 0 <= k < size
                    ==> keys.cells[((i * heads + h) * size + k) * len + t]
                    == trace.keys.cells[(i * len + t) * width + (h * size + k)]
            &&& forall|i: int, h: int, t: int, k: int|
                #![trigger values.cells[((i * heads + h) * len + t) * size + k]]
                0 <= i < rows && 0 <= h < heads && 0 <= t < len && 0 <= k < size
                    ==> values.cells[((i * heads + h) * len + t) * size + k]
                    == trace.values.cells[(i * len + t) * width + (h * size + k)]
            &&& is_matmul(queries, keys, trace.products)
            &&& is_scaled(
                trace.products,
                reciprocal_bits(root_bits(size)),
                trace.scores,
            )
            &&& mask is None ==> trace.masked == trace.scores
            &&& mask matches Some(added) ==> is_broadcast_sum(trace.scores, added, trace.masked)
            &&& is_softmax(trace.masked, trace.shares)
            &&& is_matmul(trace.shares, values, trace.mixed)
            &&& joined.dims == x.dims
            &&& trace.mixed.dims == seq![rows, heads, len, size] ==> forall|
                i: int,
                h: int,
                t: int,
                k: int,
            |
                #![trigger joined.cells[(i * len + t) * width + (h * size + k)]]
                0 <= i < rows && 0 <= h < heads && 0 <= t < len && 0 <= k < size
                    ==> joined.cells[(i * len + t) * width + (h * size + k)]
                    == trace.mixed.cells[((i * heads + h) * len + t) * size + k]
            &&& is_linear(linear_tensors(a.out_proj), joined, y)
        }),
{
    let trace = choose|trace: AttentionTrace| #[trigger] a.runs_through(x, mask, trace, y);
    let (rows, len, width) = (x.dims[0], x.dims[1], x.dims[2]);
    let (heads, size) = (a.num_heads, a.head_dim);
    let queries = a.split(rows, len, trace.queries);
    let keys = transposed(a.split(rows, len, trace.keys), 2, 3);
    let values = a.split(rows, len, trace.values);
    let joined = reshaped(transposed(trace.mixed, 1, 2), x.dims);
    assert(trace.queries.dims =~= x.dims);
    assert(trace.keys.dims =~= x.dims);
    assert(trace.values.dims =~= x.dims);
    assert(queries.dims =~= seq![rows, heads, len, size]);
    assert(keys.dims =~= seq![rows, heads, size, len]);
    assert(values.dims =~= seq![rows, heads, len, size]);
    assert forall|i: int, h: int, t: int, k: int|
        #![trigger queries.cells[((i * heads + h) * len + t) * size + k]]
        0 <= i < rows && 0 <= h < heads && 0 <= t < len && 0 <= k < size
        implies queries.cells[((i * heads + h) * len + t) * size + k] == trace.queries.cells[(i
        * len + t) * width + (h * size + k)] by {
        heads_split_frames(a, trace.queries, i, t, h, k);
    }
    assert forall|i: int, h: int, t: int, k: int|
        #![trigger keys.cells[((i * heads + h) * size + k) * len + t]]
        0 <= i < rows && 0 <= h < heads && 0 <= t < len && 0 <= k < size
        implies keys.cells[((i * heads + h) * size + k) * len + t] == trace.keys.cells[(i * len + t)
        * width + (h * size + k)] by {
        heads_split_frames(a, trace.keys, i, t, h, k);
    }
    assert forall|i: int, h: int, t: int, k: int|
        #![trigger values.cells[((i * heads + h) * len + t) * size + k]]
        0 <= i < rows && 0 <= h < heads && 0 <= t < len && 0 <= k < size
        implies values.cells[((i * heads + h) * len + t) * size + k] == trace.values.cells[(i * len
        + t) * width + (h * size + k)] by {
        heads_split_frames(a, trace.values, i, t, h, k);
    }
    if trace.mixed.dims == seq![rows, heads, len, size] {
        assert forall|i: int, h: int, t: int, k: int|
            #![trigger joined.cells[(i * len + t) * width + (h * size + k)]]
            0 <= i < rows && 0 <= h < heads && 0 <= t < len && 0 <= k < size
            implies joined.cells[(i * len + t) * width + (h * size + k)] == trace.mixed.cells[((i
            * heads + h) * len + t) * size + k] by {
            axes_of_four_are_exchanged(trace.mixed, i, h, t, k);
            assert(((i * len + t) * heads + h) * size + k == (i * len + t) * width + (h * size + k))
                by (nonlinear_arith)
                requires
                    heads * size == width,
            ;
        }
    }
    (trace, queries, keys, values, joined)
}

/// A layer adds what attention gives to the frames and norms the sum, and then does the same with
/// what the two linear layers give, with the activation between them.
pub proof fn layers_attend_and_feed_forward(
    l: EncoderLayer,
    x: Grid,
    mask: Option<Grid>,
    y: Grid,
) -> (trace: LayerTrace)
    requires
        l.runs(x, mask, y),
    ensures
        l.attention.runs(x, mask, trace.attended),
        is_sum_of(trace.attended, x, trace.joined),
        is_layer_norm(
            layer_norm_tensors(l.layer_norm),
            layer_norm_eps(l.layer_norm),
            trace.joined,
            trace.normed,
        ),
        is_linear(linear_tensors(l.feed_forward_intermediate), trace.normed, trace.widened),
        is_gelu(trace.widened, trace.activated),
        is_linear(linear_tensors(l.feed_forward_output), trace.activated, trace.narrowed),
        is_sum_of(trace.narrowed, trace.normed, trace.rejoined),
        is_layer_norm(
            layer_norm_tensors(l.final_layer_norm),
            layer_norm_eps(l.final_layer_norm),
            trace.rejoined,
            y,
        ),
{
    choose|trace: LayerTrace| #[trigger] l.runs_through(x, mask, trace, y)
}

} // verus!
