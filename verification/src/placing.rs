//! A request gets the same answer wherever it stands in its batch, and whatever else is in it as
//! long as the padding stays the same: every operation works on the requests one by one.
use vstd::prelude::*;

use crate::classifier::{
    lengths_of, longest, longest_is_one_of_them, padded_cell, padded_grid, row, GenderClassifier,
};
use crate::encoder::{
    attend_in_turn, Attention, AttentionTrace, Encoder, EncoderLayer, LayerTrace, PosConvEmbed,
};
use crate::features::{run_in_turn, ConvLayer, FeatureProjection};
use crate::grid::{
    broadcast_dims_pick, broadcast_keeps, entry, lane, lane_picks, narrowed, narrowed_picks, picked,
    picking_picks, picks, place_in_row, reshaped, reshaped_picks, stretching_keeps, transposed,
    transposed_picks, unsqueezed, unsqueezed_picks, volume, volume_of_one, volume_of_three,
    volume_of_two, Grid,
};
use crate::layers::{
    conv_settings, conv_tensors, group_norm_settings, group_norm_tensors, is_conv, is_group_norm,
    is_layer_norm, is_linear, layer_norm_eps, layer_norm_tensors, linear_tensors, norm_width,
    ConvSettings,
};
use crate::masks::{
    attention_cell, attention_mask_grid, frame_cell, frame_mask_grid, is_masked_mean, mean_through,
    MeanTrace, COUNT_CEILING, COUNT_FLOOR,
};
use crate::model::{ModelTrace, Wav2Vec2Classifier};
use crate::scores::{is_answer, ResponseView};
use crate::tensor::{
    broadcast_add_outcomes, broadcast_div_outcomes, broadcast_mul_outcomes, is_broadcast_product,
    is_broadcast_quotient, is_broadcast_sum, is_clamped, is_gelu, is_matmul, is_scaled, is_softmax,
    is_sum_along, is_sum_of, is_tanh, reciprocal_bits, root_bits,
};

verus! {

/// `gelu` goes with picking requests.
proof fn gelu_picks(x: Grid, y: Grid, px: Grid, py: Grid, from: Seq<int>)
    requires
        is_gelu(x, y),
        picks(px, x, from),
        picks(py, y, from),
    ensures
        is_gelu(px, py),
{
    assert(px.dims.drop_first() =~= x.dims.drop_first());
    assert(py.dims.drop_first() =~= y.dims.drop_first());
    assert(py.dims =~= px.dims);
}

/// `tanh` goes with picking requests.
proof fn tanh_picks(x: Grid, y: Grid, px: Grid, py: Grid, from: Seq<int>)
    requires
        is_tanh(x, y),
        picks(px, x, from),
        picks(py, y, from),
    ensures
        is_tanh(px, py),
{
    assert(px.dims.drop_first() =~= x.dims.drop_first());
    assert(py.dims.drop_first() =~= y.dims.drop_first());
    assert(py.dims =~= px.dims);
}

/// Multiplying by a number goes with picking requests.
proof fn scaled_picks(factor: u64, x: Grid, y: Grid, px: Grid, py: Grid, from: Seq<int>)
    requires
        is_scaled(x, factor, y),
        picks(px, x, from),
        picks(py, y, from),
    ensures
        is_scaled(px, factor, py),
{
    assert(px.dims.drop_first() =~= x.dims.drop_first());
    assert(py.dims.drop_first() =~= y.dims.drop_first());
    assert(py.dims =~= px.dims);
}

/// `clamp` goes with picking requests.
proof fn clamped_picks(low: u64, high: u64, x: Grid, y: Grid, px: Grid, py: Grid, from: Seq<int>)
    requires
        is_clamped(x, low, high, y),
        picks(px, x, from),
        picks(py, y, from),
    ensures
        is_clamped(px, low, high, py),
{
    assert(px.dims.drop_first() =~= x.dims.drop_first());
    assert(py.dims.drop_first() =~= y.dims.drop_first());
    assert(py.dims =~= px.dims);
}

/// `softmax` goes with picking requests.
proof fn softmax_picks(x: Grid, y: Grid, px: Grid, py: Grid, from: Seq<int>)
    requires
        is_softmax(x, y),
        picks(px, x, from),
        picks(py, y, from),
        x.dims.len() >= 2,
    ensures
        is_softmax(px, py),
{
    assert(px.dims.drop_first() =~= x.dims.drop_first());
    assert(py.dims.drop_first() =~= y.dims.drop_first());
    assert(py.dims =~= px.dims);
}

/// A group norm goes with picking requests.
proof fn group_norm_picks(
    tensors: Seq<Grid>,
    settings: Seq<u64>,
    x: Grid,
    y: Grid,
    px: Grid,
    py: Grid,
    from: Seq<int>,
)
    requires
        is_group_norm(tensors, settings, x, y),
        picks(px, x, from),
        picks(py, y, from),
    ensures
        is_group_norm(tensors, settings, px, py),
{
    assert(px.dims.drop_first() =~= x.dims.drop_first());
    assert(py.dims.drop_first() =~= y.dims.drop_first());
    assert(py.dims =~= px.dims);
}

/// A layer norm goes with picking requests.
proof fn layer_norm_picks(
    tensors: Seq<Grid>,
    eps: u64,
    x: Grid,
    y: Grid,
    px: Grid,
    py: Grid,
    from: Seq<int>,
)
    requires
        is_layer_norm(tensors, eps, x, y),
        picks(px, x, from),
        picks(py, y, from),
        x.dims.len() >= 2,
    ensures
        is_layer_norm(tensors, eps, px, py),
{
    assert(px.dims.drop_first() =~= x.dims.drop_first());
    assert(py.dims.drop_first() =~= y.dims.drop_first());
    assert(px.dims.last() == x.dims.last());
    assert(py.dims =~= px.dims.update(
        px.dims.len() - 1,
        norm_width(tensors, px.dims.last()),
    ));
}

/// A linear layer goes with picking requests.
proof fn linear_picks(tensors: Seq<Grid>, x: Grid, y: Grid, px: Grid, py: Grid, from: Seq<int>)
    requires
        is_linear(tensors, x, y),
        picks(px, x, from),
        picks(py, y, from),
    ensures
        is_linear(tensors, px, py),
{
    assert(px.dims.drop_first() =~= x.dims.drop_first());
    assert(py.dims.drop_first() =~= y.dims.drop_first());
    assert(px.dims.last() == x.dims.last());
    assert(py.dims =~= px.dims.update(px.dims.len() - 1, tensors[0].dims[0]));
}

/// A convolution goes with picking requests.
proof fn conv_picks(
    tensors: Seq<Grid>,
    settings: ConvSettings,
    x: Grid,
    y: Grid,
    px: Grid,
    py: Grid,
    from: Seq<int>,
)
    requires
        is_conv(tensors, settings, x, y),
        picks(px, x, from),
        picks(py, y, from),
    ensures
        is_conv(tensors, settings, px, py),
{
    assert(px.dims.drop_first() =~= x.dims.drop_first());
    assert(py.dims.drop_first() =~= y.dims.drop_first());
}

/// A sum along an axis goes with picking requests.
proof fn sum_picks(axis: int, x: Grid, y: Grid, px: Grid, py: Grid, from: Seq<int>)
    requires
        is_sum_along(x, axis, y),
        picks(px, x, from),
        picks(py, y, from),
    ensures
        is_sum_along(px, axis, py),
{
    assert(px.dims.drop_first() =~= x.dims.drop_first());
    assert(py.dims.drop_first() =~= y.dims.drop_first());
    assert(py.dims =~= px.dims.remove(axis));
}

/// A sum of two grids goes with picking requests of both.
proof fn sum_of_picks(a: Grid, b: Grid, y: Grid, pa: Grid, pb: Grid, py: Grid, from: Seq<int>)
    requires
        is_sum_of(a, b, y),
        picks(pa, a, from),
        picks(pb, b, from),
        picks(py, y, from),
    ensures
        is_sum_of(pa, pb, py),
{
    assert(pa.dims.drop_first() =~= a.dims.drop_first());
    assert(pb.dims.drop_first() =~= b.dims.drop_first());
    assert(py.dims.drop_first() =~= y.dims.drop_first());
}

/// A product of matrices goes with picking requests of both sides.
proof fn matmul_picks(a: Grid, b: Grid, y: Grid, pa: Grid, pb: Grid, py: Grid, from: Seq<int>)
    requires
        is_matmul(a, b, y),
        a.dims.len() >= 3,
        a.dims.take(a.dims.len() - 2) == b.dims.take(b.dims.len() - 2),
        picks(pa, a, from),
        picks(pb, b, from),
        picks(py, y, from),
    ensures
        is_matmul(pa, pb, py),
{
    let kept = a.dims.len() - 2;
    assert(pa.dims.drop_first() =~= a.dims.drop_first());
    assert(pb.dims.drop_first() =~= b.dims.drop_first());
    assert(py.dims.drop_first() =~= y.dims.drop_first());
    assert(pa.dims.take(kept) =~= a.dims.take(kept).update(0, from.len() as usize));
    assert(pb.dims.take(kept) =~= b.dims.take(kept).update(0, from.len() as usize));
    assert(py.dims =~= pa.dims.drop_last().push(pb.dims.last()));
}

/// A sum with stretched axes goes with picking requests of both sides.
proof fn broadcast_sum_picks(
    a: Grid,
    b: Grid,
    y: Grid,
    pa: Grid,
    pb: Grid,
    py: Grid,
    from: Seq<int>,
)
    requires
        is_broadcast_sum(a, b, y),
        a.dims.len() == b.dims.len(),
        a.dims[0] == b.dims[0],
        picks(pa, a, from),
        picks(pb, b, from),
        picks(py, y, from),
    ensures
        is_broadcast_sum(pa, pb, py),
{
    broadcast_dims_pick(a.dims, b.dims, from.len() as usize);
    let rank = a.dims.len() as int;
    assert forall|i: int| 0 <= i < py.dims[0] implies broadcast_add_outcomes(
        lane(pa, rank, i),
        lane(pb, rank, i),
    ).contains((#[trigger] entry(py, i)).cells) by {
        lane_picks(pa, a, from, i);
        lane_picks(pb, b, from, i);
        assert(entry(py, i) == entry(y, from[i]));
    }
}

/// A product with stretched axes goes with picking requests of both sides.
proof fn broadcast_product_picks(
    a: Grid,
    b: Grid,
    y: Grid,
    pa: Grid,
    pb: Grid,
    py: Grid,
    from: Seq<int>,
)
    requires
        is_broadcast_product(a, b, y),
        a.dims.len() == b.dims.len(),
        a.dims[0] == b.dims[0],
        picks(pa, a, from),
        picks(pb, b, from),
        picks(py, y, from),
    ensures
        is_broadcast_product(pa, pb, py),
{
    broadcast_dims_pick(a.dims, b.dims, from.len() as usize);
    let rank = a.dims.len() as int;
    assert forall|i: int| 0 <= i < py.dims[0] implies broadcast_mul_outcomes(
        lane(pa, rank, i),
        lane(pb, rank, i),
    ).contains((#[trigger] entry(py, i)).cells) by {
        lane_picks(pa, a, from, i);
        lane_picks(pb, b, from, i);
        assert(entry(py, i) == entry(y, from[i]));
    }
}

/// A quotient with stretched axes goes with picking requests of both sides.
proof fn broadcast_quotient_picks(
    a: Grid,
    b: Grid,
    y: Grid,
    pa: Grid,
    pb: Grid,
    py: Grid,
    from: Seq<int>,
)
    requires
        is_broadcast_quotient(a, b, y),
        a.dims.len() == b.dims.len(),
        a.dims[0] == b.dims[0],
        picks(pa, a, from),
        picks(pb, b, from),
        picks(py, y, from),
    ensures
        is_broadcast_quotient(pa, pb, py),
{
    broadcast_dims_pick(a.dims, b.dims, from.len() as usize);
    let rank = a.dims.len() as int;
    assert forall|i: int| 0 <= i < py.dims[0] implies broadcast_div_outcomes(
        lane(pa, rank, i),
        lane(pb, rank, i),
    ).contains((#[trigger] entry(py, i)).cells) by {
        lane_picks(pa, a, from, i);
        lane_picks(pb, b, from, i);
        assert(entry(py, i) == entry(y, from[i]));
    }
}

/// The numbers are those of requests out of so many.
pub open spec fn in_range(from: Seq<int>, n: usize) -> bool {
    &&& from.len() <= usize::MAX
    &&& forall|i: int| 0 <= i < from.len() ==> 0 <= #[trigger] from[i] < n
}

/// The requests with these numbers.
proof fn pick(g: Grid, from: Seq<int>, n: usize) -> (h: Grid)
    requires
        g.dims.len() >= 1,
        g.dims[0] == n,
        in_range(from, n),
    ensures
        h == picked(g, from),
        picks(h, g, from),
{
    picking_picks(g, from);
    picked(g, from)
}

/// A layer of the feature extractor goes with picking requests.
proof fn conv_layer_picks(
    layer: ConvLayer,
    x: Grid,
    y: Grid,
    px: Grid,
    from: Seq<int>,
) -> (py: Grid)
    requires
        layer.runs(x, y),
        picks(px, x, from),
    ensures
        layer.runs(px, py),
        picks(py, y, from),
        y.dims.len() == 3,
        y.dims[0] == x.dims[0],
{
    let n = x.dims[0];
    let (c, normed) = choose|c: Grid, normed: Grid| #[trigger]
        layer.runs_through(x, c, normed, y);
    let pc = pick(c, from, n);
    conv_picks(conv_tensors(layer.conv), conv_settings(layer.conv), x, c, px, pc, from);
    let pnormed = pick(normed, from, n);
    if let Some(g) = layer.norm {
        group_norm_picks(
            group_norm_tensors(g),
            group_norm_settings(g),
            c,
            normed,
            pc,
            pnormed,
            from,
        );
    }
    let py = pick(y, from, n);
    gelu_picks(normed, y, pnormed, py, from);
    assert(layer.runs_through(px, pc, pnormed, py));
    py
}

/// The layers of the feature extractor go with picking requests.
proof fn convs_pick(layers: Seq<ConvLayer>, x: Grid, y: Grid, px: Grid, from: Seq<int>) -> (
    py: Grid)
    requires
        run_in_turn(layers, x, y),
        picks(px, x, from),
        x.dims.len() == 3,
    ensures
        run_in_turn(layers, px, py),
        picks(py, y, from),
        y.dims.len() == 3,
        y.dims[0] == x.dims[0],
    decreases layers.len(),
{
    if layers.len() == 0 {
        px
    } else {
        let between = choose|between: Grid|
            run_in_turn(layers.drop_last(), x, between) && #[trigger] layers.last().runs(
                between,
                y,
            );
        let pbetween = convs_pick(layers.drop_last(), x, between, px, from);
        let py = conv_layer_picks(layers.last(), between, y, pbetween, from);
        assert(layers.last().runs(pbetween, py));
        py
    }
}

/// The projection of the frames goes with picking requests.
proof fn projection_picks(
    projection: FeatureProjection,
    x: Grid,
    y: Grid,
    px: Grid,
    from: Seq<int>,
) -> (py: Grid)
    requires
        projection.runs(x, y),
        picks(px, x, from),
        x.dims.len() == 3,
    ensures
        projection.runs(px, py),
        picks(py, y, from),
        y.dims.len() == 3,
        y.dims[0] == x.dims[0],
        y.dims[2] == projection.width(),
{
    let rows = x.dims[0];
    let n = choose|n: Grid| #[trigger] projection.runs_through(x, n, y);
    let norm = projection.layer_norm;
    transposed_picks(px, x, from, 1, 2);
    let pn = pick(n, from, rows);
    layer_norm_picks(
        layer_norm_tensors(norm),
        layer_norm_eps(norm),
        transposed(x, 1, 2),
        n,
        transposed(px, 1, 2),
        pn,
        from,
    );
    let py = pick(y, from, rows);
    linear_picks(linear_tensors(projection.projection), n, y, pn, py, from);
    assert(projection.runs_through(px, pn, py));
    py
}

/// The position convolution goes with picking requests.
proof fn pos_conv_picks(pos: PosConvEmbed, x: Grid, y: Grid, px: Grid, from: Seq<int>) -> (py: Grid)
    requires
        pos.runs(x, y),
        picks(px, x, from),
        x.dims.len() == 3,
    ensures
        pos.runs(px, py),
        picks(py, y, from),
{
    let rows = x.dims[0];
    let (c, g) = choose|c: Grid, g: Grid| #[trigger] pos.runs_through(x, c, g, y);
    transposed_picks(px, x, from, 1, 2);
    let pc = pick(c, from, rows);
    conv_picks(
        conv_tensors(pos.conv),
        conv_settings(pos.conv),
        transposed(x, 1, 2),
        c,
        transposed(px, 1, 2),
        pc,
        from,
    );
    let len = x.dims[1];
    if pos.padding > 0 {
        narrowed_picks(pc, c, from, 2, len);
    }
    let kept = if pos.padding > 0 {
        narrowed(c, 2, 0, len)
    } else {
        c
    };
    let pkept = if pos.padding > 0 {
        narrowed(pc, 2, 0, len)
    } else {
        pc
    };
    let pg = pick(g, from, rows);
    gelu_picks(kept, g, pkept, pg, from);
    let py = transposed(pg, 1, 2);
    transposed_picks(pg, g, from, 1, 2);
    assert(pos.runs_through(px, pc, pg, py));
    py
}

/// Splitting frames up among the heads goes with picking requests.
proof fn split_picks(a: Attention, len: usize, width: usize, g: Grid, pg: Grid, from: Seq<int>)
    requires
        a.shares(width),
        g.dims.len() == 3,
        g.dims[1] == len,
        g.dims[2] == width,
        picks(pg, g, from),
    ensures
        picks(a.split(from.len() as usize, len, pg), a.split(g.dims[0], len, g), from),
        a.split(g.dims[0], len, g).dims == seq![g.dims[0], a.num_heads, len, a.head_dim],
{
    let shape = seq![g.dims[0], len, a.num_heads, a.head_dim];
    assert(shape.drop_first() =~= seq![len, a.num_heads, a.head_dim]);
    assert(g.dims.drop_first() =~= seq![len, width]);
    volume_of_three(len, a.num_heads, a.head_dim);
    volume_of_two(len, width);
    assert(shape.update(0, from.len() as usize) =~= seq![
        from.len() as usize,
        len,
        a.num_heads,
        a.head_dim,
    ]);
    reshaped_picks(pg, g, from, shape);
    transposed_picks(
        reshaped(pg, shape.update(0, from.len() as usize)),
        reshaped(g, shape),
        from,
        1,
        2,
    );
    assert(a.split(g.dims[0], len, g).dims =~= seq![g.dims[0], a.num_heads, len, a.head_dim]);
}

/// Attention goes with picking requests.
#[verifier::spinoff_prover]
proof fn attention_picks(
    a: Attention,
    x: Grid,
    mask: Grid,
    y: Grid,
    px: Grid,
    pmask: Grid,
    from: Seq<int>,
) -> (py: Grid)
    requires
        x.dims.len() == 3,
        a.fits(x.dims[2]),
        a.runs(x, Some(mask), y),
        mask.dims.len() == 4,
        mask.dims[0] == x.dims[0],
        a.admits(mask.dims, x.dims[0], x.dims[1]),
        picks(px, x, from),
        picks(pmask, mask, from),
    ensures
        a.runs(px, Some(pmask), py),
        picks(py, y, from),
        y.dims == x.dims,
{
    let trace = choose|trace: AttentionTrace| #[trigger] a.runs_through(x, Some(mask), trace, y);
    let (rows, len, width) = (x.dims[0], x.dims[1], x.dims[2]);
    let n = from.len() as usize;
    assert(x.dims =~= seq![rows, len, width]);
    assert(px.dims =~= seq![n, len, width]);
    let pqueries = pick(trace.queries, from, rows);
    let pkeys = pick(trace.keys, from, rows);
    let pvalues = pick(trace.values, from, rows);
    linear_picks(linear_tensors(a.q_proj), x, trace.queries, px, pqueries, from);
    linear_picks(linear_tensors(a.k_proj), x, trace.keys, px, pkeys, from);
    linear_picks(linear_tensors(a.v_proj), x, trace.values, px, pvalues, from);
    split_picks(a, len, width, trace.queries, pqueries, from);
    split_picks(a, len, width, trace.keys, pkeys, from);
    split_picks(a, len, width, trace.values, pvalues, from);
    let queries = a.split(rows, len, trace.queries);
    let keys = a.split(rows, len, trace.keys);
    let values = a.split(rows, len, trace.values);
    let heads = a.num_heads;
    let turned = transposed(keys, 2, 3);
    transposed_picks(a.split(n, len, pkeys), keys, from, 2, 3);
    assert(turned.dims =~= seq![rows, heads, a.head_dim, len]);
    assert(queries.dims.take(2) =~= turned.dims.take(2));
    let pproducts = pick(trace.products, from, rows);
    matmul_picks(
        queries,
        turned,
        trace.products,
        a.split(n, len, pqueries),
        transposed(a.split(n, len, pkeys), 2, 3),
        pproducts,
        from,
    );
    assert(trace.products.dims =~= seq![rows, heads, len, len]);
    let pscores = pick(trace.scores, from, rows);
    let factor = reciprocal_bits(root_bits(a.head_dim));
    scaled_picks(factor, trace.products, trace.scores, pproducts, pscores, from);
    stretching_keeps(trace.scores.dims, mask.dims);
    broadcast_dims_pick(trace.scores.dims, mask.dims, n);
    let pmasked = pick(trace.masked, from, rows);
    broadcast_sum_picks(trace.scores, mask, trace.masked, pscores, pmask, pmasked, from);
    let pshares = pick(trace.shares, from, rows);
    softmax_picks(trace.masked, trace.shares, pmasked, pshares, from);
    assert(trace.shares.dims.take(2) =~= values.dims.take(2));
    let pmixed = pick(trace.mixed, from, rows);
    matmul_picks(
        trace.shares,
        values,
        trace.mixed,
        pshares,
        a.split(n, len, pvalues),
        pmixed,
        from,
    );
    assert(trace.mixed.dims =~= seq![rows, heads, len, a.head_dim]);
    let gathered = transposed(trace.mixed, 1, 2);
    transposed_picks(pmixed, trace.mixed, from, 1, 2);
    assert(gathered.dims.drop_first() =~= seq![len, heads, a.head_dim]);
    assert(x.dims.drop_first() =~= seq![len, width]);
    volume_of_three(len, heads, a.head_dim);
    volume_of_two(len, width);
    reshaped_picks(transposed(pmixed, 1, 2), gathered, from, x.dims);
    let py = pick(y, from, rows);
    linear_picks(
        linear_tensors(a.out_proj),
        reshaped(gathered, x.dims),
        y,
        reshaped(transposed(pmixed, 1, 2), px.dims),
        py,
        from,
    );
    let ptrace = AttentionTrace {
        queries: pqueries,
        keys: pkeys,
        values: pvalues,
        products: pproducts,
        scores: pscores,
        masked: pmasked,
        shares: pshares,
        mixed: pmixed,
    };
    assert(a.runs_through(px, Some(pmask), ptrace, py));
    assert(y.dims =~= x.dims);
    py
}

/// A layer of the encoder goes with picking requests.
#[verifier::spinoff_prover]
proof fn layer_picks(
    l: EncoderLayer,
    x: Grid,
    mask: Grid,
    y: Grid,
    px: Grid,
    pmask: Grid,
    from: Seq<int>,
) -> (py: Grid)
    requires
        x.dims.len() == 3,
        l.fits(x.dims[2]),
        l.runs(x, Some(mask), y),
        mask.dims.len() == 4,
        mask.dims[0] == x.dims[0],
        l.attention.admits(mask.dims, x.dims[0], x.dims[1]),
        picks(px, x, from),
        picks(pmask, mask, from),
    ensures
        l.runs(px, Some(pmask), py),
        picks(py, y, from),
        y.dims == x.dims,
{
    let trace = choose|trace: LayerTrace| #[trigger] l.runs_through(x, Some(mask), trace, y);
    let rows = x.dims[0];
    let width = x.dims[2];
    let pattended = attention_picks(l.attention, x, mask, trace.attended, px, pmask, from);
    let pjoined = pick(trace.joined, from, rows);
    sum_of_picks(trace.attended, x, trace.joined, pattended, px, pjoined, from);
    let (first, last) = (l.layer_norm, l.final_layer_norm);
    let pnormed = pick(trace.normed, from, rows);
    layer_norm_picks(
        layer_norm_tensors(first),
        layer_norm_eps(first),
        trace.joined,
        trace.normed,
        pjoined,
        pnormed,
        from,
    );
    assert(trace.normed.dims =~= x.dims);
    let pwidened = pick(trace.widened, from, rows);
    linear_picks(
        linear_tensors(l.feed_forward_intermediate),
        trace.normed,
        trace.widened,
        pnormed,
        pwidened,
        from,
    );
    let pactivated = pick(trace.activated, from, rows);
    gelu_picks(trace.widened, trace.activated, pwidened, pactivated, from);
    let pnarrowed = pick(trace.narrowed, from, rows);
    linear_picks(
        linear_tensors(l.feed_forward_output),
        trace.activated,
        trace.narrowed,
        pactivated,
        pnarrowed,
        from,
    );
    let prejoined = pick(trace.rejoined, from, rows);
    sum_of_picks(
        trace.narrowed,
        trace.normed,
        trace.rejoined,
        pnarrowed,
        pnormed,
        prejoined,
        from,
    );
    let py = pick(y, from, rows);
    layer_norm_picks(
        layer_norm_tensors(last),
        layer_norm_eps(last),
        trace.rejoined,
        y,
        prejoined,
        py,
        from,
    );
    assert(y.dims =~= x.dims);
    let ptrace = LayerTrace {
        attended: pattended,
        joined: pjoined,
        normed: pnormed,
        widened: pwidened,
        activated: pactivated,
        narrowed: pnarrowed,
        rejoined: prejoined,
    };
    assert(l.runs_through(px, Some(pmask), ptrace, py));
    py
}

/// The layers of the encoder go with picking requests.
proof fn stack_picks(
    layers: Seq<EncoderLayer>,
    x: Grid,
    mask: Grid,
    y: Grid,
    px: Grid,
    pmask: Grid,
    from: Seq<int>,
) -> (py: Grid)
    requires
        x.dims.len() == 3,
        forall|i: int| 0 <= i < layers.len() ==> (#[trigger] layers[i]).fits(x.dims[2]),
        forall|i: int|
            0 <= i < layers.len() ==> (#[trigger] layers[i]).attention.admits(
                mask.dims,
                x.dims[0],
                x.dims[1],
            ),
        attend_in_turn(layers, x, Some(mask), y),
        mask.dims.len() == 4,
        mask.dims[0] == x.dims[0],
        picks(px, x, from),
        picks(pmask, mask, from),
    ensures
        attend_in_turn(layers, px, Some(pmask), py),
        picks(py, y, from),
        y.dims == x.dims,
    decreases layers.len(),
{
    if layers.len() == 0 {
        px
    } else {
        let between = choose|between: Grid|
            attend_in_turn(layers.drop_last(), x, Some(mask), between)
                && #[trigger] layers.last().runs(between, Some(mask), y);
        let pbetween = stack_picks(layers.drop_last(), x, mask, between, px, pmask, from);
        let last = layers[layers.len() - 1];
        let py = layer_picks(last, between, mask, y, pbetween, pmask, from);
        assert(layers.last().runs(pbetween, Some(pmask), py));
        py
    }
}

/// The encoder goes with picking requests.
proof fn encoder_picks(
    e: Encoder,
    x: Grid,
    mask: Grid,
    y: Grid,
    px: Grid,
    pmask: Grid,
    from: Seq<int>,
) -> (py: Grid)
    requires
        x.dims.len() == 3,
        e.fits(x.dims[2]),
        e.admits(mask.dims, x.dims[0], x.dims[1]),
        e.runs(x, Some(mask), y),
        mask.dims.len() == 4,
        mask.dims[0] == x.dims[0],
        picks(px, x, from),
        picks(pmask, mask, from),
    ensures
        e.runs(px, Some(pmask), py),
        picks(py, y, from),
        y.dims == x.dims,
{
    let (pos, placed, normed) = choose|pos: Grid, placed: Grid, normed: Grid| #[trigger]
        e.runs_through(x, Some(mask), pos, placed, normed, y);
    let rows = x.dims[0];
    let ppos = pos_conv_picks(e.pos_conv_embed, x, pos, px, from);
    let pplaced = pick(placed, from, rows);
    sum_of_picks(x, pos, placed, px, ppos, pplaced, from);
    let pnormed = pick(normed, from, rows);
    layer_norm_picks(
        layer_norm_tensors(e.layer_norm),
        layer_norm_eps(e.layer_norm),
        placed,
        normed,
        pplaced,
        pnormed,
        from,
    );
    assert(normed.dims =~= x.dims);
    let py = stack_picks(e.layers@, normed, mask, y, pnormed, pmask, from);
    assert(e.runs_through(px, Some(pmask), ppos, pplaced, pnormed, py));
    py
}

/// The mean over marked frames goes with picking requests.
proof fn mean_picks(x: Grid, marks: Grid, y: Grid, px: Grid, pmarks: Grid, from: Seq<int>) -> (
    py: Grid)
    requires
        is_masked_mean(x, marks, y),
        x.dims.len() == 3,
        marks.dims == seq![x.dims[0], x.dims[1]],
        picks(px, x, from),
        picks(pmarks, marks, from),
    ensures
        is_masked_mean(px, pmarks, py),
        picks(py, y, from),
        y.dims == seq![x.dims[0], x.dims[2]],
{
    let trace = choose|trace: MeanTrace| #[trigger] mean_through(x, marks, trace, y);
    let rows = x.dims[0];
    let (column, pcolumn) = (unsqueezed(marks, 2), unsqueezed(pmarks, 2));
    unsqueezed_picks(pmarks, marks, from, 2);
    assert(column.dims =~= seq![rows, x.dims[1], 1]);
    broadcast_keeps(x.dims, column.dims);
    let pkept = pick(trace.kept, from, rows);
    broadcast_product_picks(x, column, trace.kept, px, pcolumn, pkept, from);
    assert(trace.summed.dims =~= seq![rows, x.dims[2]]);
    assert(trace.counted.dims =~= seq![rows, 1]);
    let psummed = pick(trace.summed, from, rows);
    sum_picks(1, trace.kept, trace.summed, pkept, psummed, from);
    let pcounted = pick(trace.counted, from, rows);
    sum_picks(1, column, trace.counted, pcolumn, pcounted, from);
    let pcounts = pick(trace.counts, from, rows);
    clamped_picks(
        COUNT_FLOOR,
        COUNT_CEILING,
        trace.counted,
        trace.counts,
        pcounted,
        pcounts,
        from,
    );
    broadcast_keeps(trace.summed.dims, trace.counts.dims);
    let py = pick(y, from, rows);
    broadcast_quotient_picks(trace.summed, trace.counts, y, psummed, pcounts, py, from);
    let ptrace = MeanTrace {
        kept: pkept,
        summed: psummed,
        counted: pcounted,
        counts: pcounts,
    };
    assert(mean_through(px, pmarks, ptrace, py));
    py
}

/// Entry `i` of a matrix whose elements are given by their rows and places.
proof fn matrix_entry(g: Grid, rows: int, width: usize, i: int, cells: Seq<u32>)
    requires
        g.dims.len() == 2,
        g.dims[1] == width,
        0 <= i < rows,
        cells.len() == width,
        forall|j: int| 0 <= j < width ==> g.cells[i * width + j] == #[trigger] cells[j],
    ensures
        entry(g, i) == (Grid { dims: seq![width], cells }),
{
    assert(g.dims.drop_first() =~= seq![width]);
    volume_of_one(width);
    assert(entry(g, i).cells =~= cells);
}

/// The marks of the frames go with picking requests.
proof fn marks_pick(lengths: Seq<usize>, max_len: usize, from: Seq<int>)
    requires
        lengths.len() <= usize::MAX,
        in_range(from, lengths.len() as usize),
    ensures
        picks(
            frame_mask_grid(chosen(lengths, from), max_len),
            frame_mask_grid(lengths, max_len),
            from,
        ),
{
    let g = frame_mask_grid(lengths, max_len);
    let h = frame_mask_grid(chosen(lengths, from), max_len);
    assert(h.dims =~= g.dims.update(0, from.len() as usize));
    assert forall|i: int| 0 <= i < from.len() implies (#[trigger] entry(h, i)) == entry(
        g,
        from[i],
    ) by {
        let cells = Seq::new(max_len as nat, |j: int| frame_cell(lengths[from[i]], j));
        assert forall|j: int| 0 <= j < max_len implies h.cells[i * max_len + j]
            == #[trigger] cells[j] && g.cells[from[i] * max_len + j] == cells[j] by {
            place_in_row(i, j, from.len() as int, max_len as int);
            place_in_row(from[i], j, lengths.len() as int, max_len as int);
        }
        matrix_entry(h, from.len() as int, max_len, i, cells);
        matrix_entry(g, lengths.len() as int, max_len, from[i], cells);
    }
}

/// What is added to the scores goes with picking requests.
proof fn attention_mask_picks(pmarks: Grid, marks: Grid, from: Seq<int>)
    requires
        picks(pmarks, marks, from),
        marks.dims.len() == 2,
        marks.cells.len() == volume(marks.dims),
        pmarks.cells.len() == volume(pmarks.dims),
    ensures
        picks(attention_mask_grid(pmarks), attention_mask_grid(marks), from),
        attention_mask_grid(marks).dims == seq![marks.dims[0], 1, 1, marks.dims[1]],
{
    let f = |mark: u32| attention_cell(mark);
    let flat = Grid { dims: marks.dims, cells: marks.cells.map_values(f) };
    let pflat = Grid { dims: pmarks.dims, cells: pmarks.cells.map_values(f) };
    let inner = volume(marks.dims.drop_first()) as int;
    assert(pmarks.dims.drop_first() =~= marks.dims.drop_first());
    assert forall|i: int| 0 <= i < from.len() implies (#[trigger] entry(pflat, i)) == entry(
        flat,
        from[i],
    ) by {
        assert(entry(pmarks, i) == entry(marks, from[i]));
        assert forall|p: int| 0 <= p < inner implies entry(pflat, i).cells[p] == entry(
            flat,
            from[i],
        ).cells[p] by {
            place_in_row(i, p, from.len() as int, inner);
            place_in_row(from[i], p, marks.dims[0] as int, inner);
            assert(entry(pmarks, i).cells[p] == entry(marks, from[i]).cells[p]);
        }
        assert(entry(pflat, i).cells =~= entry(flat, from[i]).cells);
    }
    assert(picks(pflat, flat, from));
    unsqueezed_picks(pflat, flat, from, 1);
    unsqueezed_picks(unsqueezed(pflat, 1), unsqueezed(flat, 1), from, 1);
    assert(attention_mask_grid(marks).dims =~= seq![marks.dims[0], 1, 1, marks.dims[1]]);
}

/// The entries with these numbers, in this order.
pub open spec fn chosen<A>(s: Seq<A>, from: Seq<int>) -> Seq<A> {
    Seq::new(from.len(), |i: int| s[from[i]])
}

/// The scores of a request do not rest on its place among the rows, nor on the other rows: the
/// scores that a model may give for some rows, it may give for these rows in another order, or
/// for some of them, or for some of them more than once.
pub proof fn scores_do_not_rest_on_the_place(
    m: Wav2Vec2Classifier,
    x: Grid,
    sample_lengths: Seq<usize>,
    y: Grid,
    from: Seq<int>,
    picked_x: Grid,
    picked_y: Grid,
)
    requires
        m.fits(),
        x.dims.len() == 2,
        x.dims[0] == sample_lengths.len(),
        m.gives(x, sample_lengths, y),
        picks(picked_x, x, from),
        picks(picked_y, y, from),
    ensures
        m.gives(picked_x, chosen(sample_lengths, from), picked_y),
{
    let trace = choose|trace: ModelTrace| #[trigger] m.gives_through(x, sample_lengths, trace, y);
    let rows = x.dims[0];
    unsqueezed_picks(picked_x, x, from, 1);
    let pfeatures = convs_pick(
        m.feature_extractor.layers@,
        unsqueezed(x, 1),
        trace.features,
        unsqueezed(picked_x, 1),
        from,
    );
    let pprojected = projection_picks(
        m.feature_projection,
        trace.features,
        trace.projected,
        pfeatures,
        from,
    );
    let max_frames = trace.projected.dims[1];
    let frames = sample_lengths.map_values(|len: usize| m.frame_count(len));
    let lengths = chosen(sample_lengths, from);
    assert(lengths.map_values(|len: usize| m.frame_count(len)) =~= chosen(frames, from));
    let (marks, pmarks) = (m.marks(sample_lengths, max_frames), m.marks(lengths, max_frames));
    marks_pick(frames, max_frames, from);
    volume_of_two(rows, max_frames);
    volume_of_two(from.len() as usize, max_frames);
    attention_mask_picks(pmarks, marks, from);
    let mask = attention_mask_grid(marks);
    assert forall|i: int| 0 <= i < m.encoder.layers@.len() implies (
    #[trigger] m.encoder.layers@[i]).attention.admits(mask.dims, rows, max_frames) by {
        let heads = m.encoder.layers@[i].attention.num_heads;
        broadcast_keeps(seq![rows, heads, max_frames, max_frames], mask.dims);
    }
    let pencoded = encoder_picks(
        m.encoder,
        trace.projected,
        mask,
        trace.encoded,
        pprojected,
        attention_mask_grid(pmarks),
        from,
    );
    let ppooled = mean_picks(trace.encoded, marks, trace.pooled, pencoded, pmarks, from);
    let phidden = pick(trace.hidden, from, rows);
    linear_picks(linear_tensors(m.projector), trace.pooled, trace.hidden, ppooled, phidden, from);
    let pbounded = pick(trace.bounded, from, rows);
    tanh_picks(trace.hidden, trace.bounded, phidden, pbounded, from);
    linear_picks(linear_tensors(m.classifier), trace.bounded, y, pbounded, picked_y, from);
    let ptrace = ModelTrace {
        features: pfeatures,
        projected: pprojected,
        encoded: pencoded,
        pooled: ppooled,
        hidden: phidden,
        bounded: pbounded,
    };
    assert(m.gives_through(picked_x, lengths, ptrace, picked_y));
}

/// Padded samples go with picking requests.
proof fn padding_picks(samples: Seq<Seq<u32>>, max_len: usize, from: Seq<int>)
    requires
        samples.len() <= usize::MAX,
        in_range(from, samples.len() as usize),
    ensures
        picks(padded_grid(chosen(samples, from), max_len), padded_grid(samples, max_len), from),
{
    let (g, h) = (padded_grid(samples, max_len), padded_grid(chosen(samples, from), max_len));
    assert(h.dims =~= g.dims.update(0, from.len() as usize));
    assert forall|i: int| 0 <= i < from.len() implies (#[trigger] entry(h, i)) == entry(
        g,
        from[i],
    ) by {
        let cells = Seq::new(max_len as nat, |j: int| padded_cell(samples[from[i]], j));
        assert forall|j: int| 0 <= j < max_len implies h.cells[i * max_len + j]
            == #[trigger] cells[j] && g.cells[from[i] * max_len + j] == cells[j] by {
            place_in_row(i, j, from.len() as int, max_len as int);
            place_in_row(from[i], j, samples.len() as int, max_len as int);
        }
        matrix_entry(h, from.len() as int, max_len, i, cells);
        matrix_entry(g, samples.len() as int, max_len, from[i], cells);
    }
}

/// The rows of a matrix go with picking requests.
proof fn rows_pick(h: Grid, g: Grid, from: Seq<int>, width: usize, i: int)
    requires
        picks(h, g, from),
        g.dims.len() == 2,
        g.dims[1] == width,
        0 <= i < from.len(),
    ensures
        row(h.cells, width as int, i) == row(g.cells, width as int, from[i]),
{
    assert(g.dims.drop_first() =~= seq![width]);
    assert(h.dims.drop_first() =~= seq![width]);
    volume_of_one(width);
    assert(entry(h, i) == entry(g, from[i]));
    assert(row(h.cells, width as int, i) =~= entry(h, i).cells);
    assert(row(g.cells, width as int, from[i]) =~= entry(g, from[i]).cells);
}

/// The shares of the classes and the answers out of them go with picking requests.
proof fn shares_pick(
    c: GenderClassifier,
    scores: Grid,
    shares: Grid,
    answers: Seq<ResponseView>,
    pscores: Grid,
    from: Seq<int>,
) -> (pshares: Grid)
    requires
        is_softmax(scores, shares),
        shares.dims.len() == 2,
        shares.dims[0] == answers.len(),
        shares.dims[1] == c.model.classes(),
        picks(pscores, scores, from),
        forall|i: int|
            0 <= i < answers.len() ==> is_answer(
                c.config.id2label@,
                row(shares.cells, c.model.classes() as int, i),
                #[trigger] answers[i],
            ),
    ensures
        is_softmax(pscores, pshares),
        pshares.dims == seq![from.len() as usize, c.model.classes()],
        forall|i: int|
            0 <= i < from.len() ==> is_answer(
                c.config.id2label@,
                row(pshares.cells, c.model.classes() as int, i),
                #[trigger] chosen(answers, from)[i],
            ),
{
    let width = c.model.classes();
    let pshares = pick(shares, from, shares.dims[0]);
    softmax_picks(scores, shares, pscores, pshares, from);
    assert(pshares.dims =~= seq![from.len() as usize, width]);
    assert forall|i: int| 0 <= i < from.len() implies is_answer(
        c.config.id2label@,
        row(pshares.cells, width as int, i),
        #[trigger] chosen(answers, from)[i],
    ) by {
        rows_pick(pshares, shares, from, width, i);
        assert(chosen(answers, from)[i] == answers[from[i]]);
    }
    pshares
}

/// The answer to a request does not rest on the other requests of its batch as long as the
/// padding stays the same: the answers that may be given to a batch may be given to any choice of
/// its requests that is padded to the same length.
pub proof fn answers_do_not_rest_on_other_requests(
    c: GenderClassifier,
    samples: Seq<Seq<u32>>,
    answers: Seq<ResponseView>,
    from: Seq<int>,
)
    requires
        c.wf(),
        samples.len() <= usize::MAX,
        in_range(from, samples.len() as usize),
        longest(lengths_of(chosen(samples, from))) == longest(lengths_of(samples)),
        c.may_answer(samples, answers),
    ensures
        c.may_answer(chosen(samples, from), chosen(answers, from)),
{
    let (scores, shares) = choose|scores: Grid, shares: Grid| #[trigger]
        c.may_answer_through(samples, scores, shares, answers);
    let (lengths, others) = (lengths_of(samples), lengths_of(chosen(samples, from)));
    let max_len = longest(lengths);
    let rows = samples.len() as usize;
    assert(others =~= chosen(lengths, from));
    padding_picks(samples, max_len, from);
    let pscores = pick(scores, from, rows);
    scores_do_not_rest_on_the_place(
        c.model,
        padded_grid(samples, max_len),
        lengths,
        scores,
        from,
        padded_grid(chosen(samples, from), max_len),
        pscores,
    );
    let pshares = shares_pick(c, scores, shares, answers, pscores, from);
    let told = chosen(answers, from);
    assert(c.may_answer_through(chosen(samples, from), pscores, pshares, told));
}

/// The answer to a request does not rest on its place in the batch: the answers that may be given
/// to a batch may be given to its requests in any other order.
pub proof fn answers_do_not_rest_on_the_place(
    c: GenderClassifier,
    samples: Seq<Seq<u32>>,
    answers: Seq<ResponseView>,
    order: Seq<int>,
)
    requires
        c.wf(),
        samples.len() <= usize::MAX,
        order.len() == samples.len(),
        in_range(order, samples.len() as usize),
        forall|j: int| 0 <= j < samples.len() ==> #[trigger] order.contains(j),
        c.may_answer(samples, answers),
    ensures
        c.may_answer(chosen(samples, order), chosen(answers, order)),
{
    let (lengths, others) = (lengths_of(samples), lengths_of(chosen(samples, order)));
    longest_is_one_of_them(lengths);
    longest_is_one_of_them(others);
    if samples.len() > 0 {
        let j = choose|j: int| 0 <= j < lengths.len() && lengths[j] == longest(lengths);
        assert(order.contains(j));
        let i = choose|i: int| 0 <= i < order.len() && order[i] == j;
        assert(others[i] == lengths[j]);
        let k = choose|k: int| 0 <= k < others.len() && others[k] == longest(others);
        assert(others[k] == lengths[order[k]]);
    }
    answers_do_not_rest_on_other_requests(c, samples, answers, order);
}

} // verus!
