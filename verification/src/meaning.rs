//! What the operations on tensors mean, element by element.
use vstd::prelude::*;

use crate::grid::{
    aligned, broadcast_dims, broadcast_rank, compatible, conv_len, entry, exchanged, lane, line,
    lines_per_entry, narrowed, place_in_row, position, position_leads_back, transposed, volume,
    volume_of_three, volume_of_two, within, Grid,
};
use crate::layers::{
    conv_outcomes, group_norm_outcomes, is_conv, is_group_norm, is_layer_norm, is_linear,
    layer_norm_outcomes, linear_outcomes, ConvSettings,
};
use crate::padding::position_of_three;
use crate::tensor::{
    add_outcomes, broadcast_add_outcomes, broadcast_div_outcomes, broadcast_mul_outcomes,
    clamp_outcomes, gelu_outcomes, is_broadcast_product, is_broadcast_quotient, is_broadcast_sum,
    is_clamped, is_finite, is_gelu, is_matmul, is_scaled, is_softmax, is_sqrt, is_sum_along,
    is_sum_kept, is_sum_of, is_tanh, matmul_outcomes, met, scale_outcomes, softmax_outcomes,
    sqrt_outcomes, sum_keepdim_outcomes, sum_outcomes, tanh_outcomes,
};

verus! {

/// A grid has as many elements as its first axis has entries, times the elements of an entry.
pub proof fn volumes_are_products(n: usize, rest: Seq<usize>)
    ensures
        volume(Seq::<usize>::empty()) == 1,
        volume(seq![n] + rest) == n * volume(rest),
{
    assert((seq![n] + rest).drop_first() =~= rest);
}

/// The entries of a grid lie one behind the other.
pub proof fn entries_lie_in_a_row(g: Grid, i: int, p: int)
    requires
        g.dims.len() >= 1,
        0 <= p < volume(g.dims.subrange(1, g.dims.len() as int)),
    ensures
        entry(g, i).dims == g.dims.subrange(1, g.dims.len() as int),
        entry(g, i).cells.len() == volume(g.dims.subrange(1, g.dims.len() as int)),
        entry(g, i).cells[p] == g.cells[i * volume(g.dims.subrange(1, g.dims.len() as int)) + p],
{
}

/// The lines of a grid along its last axis lie one behind the other.
pub proof fn lines_lie_in_a_row(g: Grid, q: int, p: int)
    requires
        g.dims.len() >= 1,
        0 <= p < g.dims[g.dims.len() - 1],
    ensures
        line(g, q).len() == g.dims[g.dims.len() - 1],
        line(g, q)[p] == g.cells[q * g.dims[g.dims.len() - 1] + p],
{
}

/// Lines fill the entries that they are part of.
pub proof fn lines_fill_entries(dims: Seq<usize>)
    requires
        dims.len() >= 2,
    ensures
        lines_per_entry(dims) * dims[dims.len() - 1] == volume(
            dims.subrange(1, dims.len() as int),
        ),
{
    volume_by_last(dims.drop_first());
}

/// A grid has as many elements as lines along its last axis, times the elements of a line.
proof fn volume_by_last(dims: Seq<usize>)
    requires
        dims.len() >= 1,
    ensures
        volume(dims) == volume(dims.drop_last()) * dims.last(),
    decreases dims.len(),
{
    let rest = dims.drop_first();
    if dims.len() == 1 {
        reveal_with_fuel(volume, 2);
    } else {
        volume_by_last(rest);
        assert(rest.drop_last() =~= dims.drop_last().drop_first());
        let (a, b, c) = (dims[0] as int, volume(rest.drop_last()) as int, dims.last() as int);
        assert(a * (b * c) == (a * b) * c) by (nonlinear_arith);
    }
}

/// What meets an entry: the entry with the same number where there are as many, the only entry
/// where there is one, and the whole where there is no such axis.
pub proof fn lanes_are_stretched(g: Grid, rank: int, i: int, p: int)
    requires
        g.dims.len() >= 1,
    ensures
        g.dims.len() < rank ==> lane(g, rank, i) == g,
        g.dims.len() >= rank ==> lane(g, rank, i).dims == g.dims.subrange(1, g.dims.len() as int),
        g.dims.len() >= rank && 0 <= p < volume(g.dims.subrange(1, g.dims.len() as int)) ==> lane(
            g,
            rank,
            i,
        ).cells[p] == g.cells[if g.dims[0] == 1 {
            p
        } else {
            i * volume(g.dims.subrange(1, g.dims.len() as int)) + p
        }],
{
}

/// Sizes agree where they are the same or one of them is one, and the larger one stays.
pub proof fn sizes_are_stretched(a: Seq<usize>, b: Seq<usize>)
    requires
        a.len() >= b.len(),
    ensures
        compatible(a, b) <==> forall|i: int|
            0 <= i < b.len() ==> #[trigger] b[i] == a[i + a.len() - b.len()] || b[i] == 1 || a[i
                + a.len() - b.len()] == 1,
        broadcast_dims(a, b).len() == a.len(),
        forall|i: int|
            0 <= i < a.len() - b.len() ==> #[trigger] broadcast_dims(a, b)[i] == a[i],
        forall|i: int|
            a.len() - b.len() <= i < a.len() ==> #[trigger] broadcast_dims(a, b)[i] == (if a[i]
                == 1 {
                b[i - (a.len() - b.len())]
            } else {
                a[i]
            }),
{
    let d = a.len() - b.len();
    let rank = broadcast_rank(a, b);
    if compatible(a, b) {
        assert forall|i: int| 0 <= i < b.len() implies #[trigger] b[i] == a[i + d] || b[i] == 1
            || a[i + d] == 1 by {
            assert(aligned(a, rank, i + d) == a[i + d]);
            assert(aligned(b, rank, i + d) == b[i]);
        }
    }
    if forall|i: int|
        0 <= i < b.len() ==> #[trigger] b[i] == a[i + a.len() - b.len()] || b[i] == 1 || a[i
            + a.len() - b.len()] == 1 {
        assert forall|i: int| 0 <= i < rank implies #[trigger] aligned(a, rank, i)
            == aligned(b, rank, i) || aligned(a, rank, i) == 1
            || aligned(b, rank, i) == 1 by {
            if i >= d {
                let k = i - d;
                assert(b[k] == a[k + a.len() - b.len()] || b[k] == 1 || a[k + a.len() - b.len()]
                    == 1);
            }
        }
    }
}

/// A kernel finds as many places as it fits, one stride apart, with its taps `dilation` apart
/// and padding on either side: the last place lies within, and one more would not.
pub proof fn kernels_find_every_place(
    len: int,
    kernel: int,
    padding: int,
    stride: int,
    dilation: int,
)
    requires
        stride >= 1,
    ensures
        ({
            let places = conv_len(len, kernel, padding, stride, dilation);
            let reach = dilation * (kernel - 1) + 1;
            (places - 1) * stride + reach <= len + 2 * padding < places * stride + reach
        }),
{
    let room = len + 2 * padding - dilation * (kernel - 1) - 1;
    vstd::arithmetic::div_mod::lemma_fundamental_div_mod(room, stride);
    vstd::arithmetic::div_mod::lemma_mod_bound(room, stride);
    let q = room / stride;
    assert(q * stride == stride * q && (q + 1) * stride == stride * q + stride)
        by (nonlinear_arith);
}

/// Where an element of a grid of four axes stands.
proof fn place_among_four(dims: Seq<usize>, at: Seq<int>)
    requires
        dims.len() == 4,
        at.len() == 4,
    ensures
        position(dims, at) == ((at[0] * dims[1] + at[1]) * dims[2] + at[2]) * dims[3] + at[3],
{
    let (y, z, w) = (dims[1], dims[2], dims[3]);
    let rest = seq![y, z, w];
    assert(dims.drop_first() =~= rest);
    assert(at.drop_first() =~= seq![at[1], at[2], at[3]]);
    position_of_three(y, z, w, at[1], at[2], at[3]);
    volume_of_three(y, z, w);
    let (i, j, k) = (at[0], at[1], at[2]);
    assert(i * (y * (z * w)) + (j * z + k) * w == ((i * y + j) * z + k) * w) by (nonlinear_arith);
}

/// Exchanging the last two of three axes moves every element to where it then belongs.
pub proof fn last_axes_of_three_are_exchanged(g: Grid, i: int, j: int, k: int)
    requires
        g.dims.len() == 3,
        0 <= i < g.dims[0],
        0 <= j < g.dims[1],
        0 <= k < g.dims[2],
    ensures
        transposed(g, 1, 2).dims == seq![g.dims[0], g.dims[2], g.dims[1]],
        transposed(g, 1, 2).cells.len() == g.dims[0] * (g.dims[2] * g.dims[1]),
        transposed(g, 1, 2).cells[(i * g.dims[2] + k) * g.dims[1] + j] == g.cells[(i * g.dims[1]
            + j) * g.dims[2] + k],
{
    let (x, y, z) = (g.dims[0], g.dims[1], g.dims[2]);
    let dims = seq![x, z, y];
    assert(exchanged(g.dims, 1, 2) =~= dims);
    assert(g.dims =~= seq![x, y, z]);
    let at = seq![i, k, j];
    assert(within(dims, at));
    position_leads_back(dims, at);
    position_of_three(x, z, y, i, k, j);
    position_of_three(x, y, z, i, j, k);
    volume_of_three(x, z, y);
    assert(exchanged(at, 1, 2) =~= seq![i, j, k]);
}

/// Exchanging the middle two or the last two of four axes moves every element to where it then
/// belongs.
pub proof fn axes_of_four_are_exchanged(g: Grid, i: int, j: int, k: int, l: int)
    requires
        g.dims.len() == 4,
        0 <= i < g.dims[0],
        0 <= j < g.dims[1],
        0 <= k < g.dims[2],
        0 <= l < g.dims[3],
    ensures
        transposed(g, 1, 2).dims == seq![g.dims[0], g.dims[2], g.dims[1], g.dims[3]],
        transposed(g, 1, 2).cells[((i * g.dims[2] + k) * g.dims[1] + j) * g.dims[3] + l]
            == g.cells[((i * g.dims[1] + j) * g.dims[2] + k) * g.dims[3] + l],
        transposed(g, 2, 3).dims == seq![g.dims[0], g.dims[1], g.dims[3], g.dims[2]],
        transposed(g, 2, 3).cells[((i * g.dims[1] + j) * g.dims[3] + l) * g.dims[2] + k]
            == g.cells[((i * g.dims[1] + j) * g.dims[2] + k) * g.dims[3] + l],
{
    let (x, y, z, w) = (g.dims[0], g.dims[1], g.dims[2], g.dims[3]);
    let from = seq![i, j, k, l];
    place_among_four(g.dims, from);
    let dims = seq![x, z, y, w];
    assert(exchanged(g.dims, 1, 2) =~= dims);
    let at = seq![i, k, j, l];
    assert(within(dims, at));
    position_leads_back(dims, at);
    place_among_four(dims, at);
    assert(exchanged(at, 1, 2) =~= from);
    let dims_last = seq![x, y, w, z];
    assert(exchanged(g.dims, 2, 3) =~= dims_last);
    let at_last = seq![i, j, l, k];
    assert(within(dims_last, at_last));
    position_leads_back(dims_last, at_last);
    place_among_four(dims_last, at_last);
    assert(exchanged(at_last, 2, 3) =~= from);
}

/// Cutting down the last of three axes leaves the elements that come first along it.
pub proof fn narrowing_leaves_the_first(g: Grid, len: usize, i: int, j: int, k: int)
    requires
        g.dims.len() == 3,
        0 <= i < g.dims[0],
        0 <= j < g.dims[1],
        0 <= k < len <= g.dims[2],
    ensures
        narrowed(g, 2, 0, len).dims == seq![g.dims[0], g.dims[1], len],
        narrowed(g, 2, 0, len).cells[(i * g.dims[1] + j) * len + k] == g.cells[(i * g.dims[1] + j)
            * g.dims[2] + k],
{
    let (x, y, z) = (g.dims[0], g.dims[1], g.dims[2]);
    let dims = seq![x, y, len];
    assert(g.dims.update(2, len) =~= dims);
    assert(g.dims =~= seq![x, y, z]);
    let at = seq![i, j, k];
    assert(within(dims, at));
    position_leads_back(dims, at);
    position_of_three(x, y, len, i, j, k);
    position_of_three(x, y, z, i, j, k);
    assert(at.update(2, at[2] + 0) =~= at);
}

/// Every place lies in an entry.
proof fn places_lie_in_entries(dims: Seq<usize>, p: int)
    requires
        dims.len() >= 1,
        0 <= p < volume(dims),
    ensures
        ({
            let inner = volume(dims.drop_first()) as int;
            &&& 0 <= p / inner < dims[0]
            &&& 0 <= p % inner < inner
            &&& p == (p / inner) * inner + p % inner
        }),
{
    let inner = volume(dims.drop_first()) as int;
    let outer = dims[0] as int;
    assert(inner > 0) by (nonlinear_arith)
        requires
            0 <= p < outer * inner,
            outer >= 0,
            inner >= 0,
    ;
    vstd::arithmetic::div_mod::lemma_fundamental_div_mod(p, inner);
    vstd::arithmetic::div_mod::lemma_mod_bound(p, inner);
    vstd::arithmetic::div_mod::lemma_div_pos_is_pos(p, inner);
    let (quotient, remainder) = (p / inner, p % inner);
    assert(quotient < outer) by (nonlinear_arith)
        requires
            p == inner * quotient + remainder,
            0 <= remainder,
            p < outer * inner,
            inner > 0,
    ;
    assert(quotient * inner == inner * quotient) by (nonlinear_arith);
}

/// Every line of a grid is a line of one of its entries.
proof fn lines_lie_in_entries(g: Grid, q: int)
    requires
        g.dims.len() >= 2,
        0 <= q < volume(g.dims.drop_last()),
    ensures
        ({
            let lines = lines_per_entry(g.dims) as int;
            &&& 0 <= q / lines < g.dims[0]
            &&& 0 <= q % lines < lines
            &&& line(entry(g, q / lines), q % lines) == Seq::new(
                g.dims.last() as nat,
                |j: int| g.cells[q * g.dims.last() + j],
            )
        }),
{
    let outer = g.dims.drop_last();
    assert(outer.drop_first() =~= g.dims.drop_first().drop_last());
    places_lie_in_entries(outer, q);
    lines_fill_entries(g.dims);
    let (lines, width) = (lines_per_entry(g.dims) as int, g.dims.last() as int);
    let (i, r) = (q / lines, q % lines);
    assert(entry(g, i).dims.last() == g.dims.last());
    assert forall|j: int| 0 <= j < width implies line(entry(g, i), r)[j] == g.cells[q * width
        + j] by {
        place_in_row(r, j, lines, width);
        assert(i * (lines * width) + (r * width + j) == (i * lines + r) * width + j)
            by (nonlinear_arith);
    }
    assert(line(entry(g, i), r) =~= Seq::new(
        g.dims.last() as nat,
        |j: int| g.cells[q * g.dims.last() + j],
    ));
}

/// The activation is taken of every element on its own.
pub proof fn gelu_goes_by_element(x: Grid, y: Grid, p: int)
    requires
        is_gelu(x, y),
        x.dims.len() >= 1,
        0 <= p < volume(x.dims),
    ensures
        y.dims == x.dims,
        gelu_outcomes(x.cells[p]).contains(y.cells[p]),
{
    places_lie_in_entries(x.dims, p);
    let inner = volume(x.dims.drop_first()) as int;
    let (i, k) = (p / inner, p % inner);
    assert(entry(y, i).cells[k] == y.cells[p]);
    assert(entry(x, i).cells[k] == x.cells[p]);
}

/// The hyperbolic tangent is taken of every element on its own.
pub proof fn tanh_goes_by_element(x: Grid, y: Grid, p: int)
    requires
        is_tanh(x, y),
        x.dims.len() >= 1,
        0 <= p < volume(x.dims),
    ensures
        y.dims == x.dims,
        tanh_outcomes(x.cells[p]).contains(y.cells[p]),
{
    places_lie_in_entries(x.dims, p);
    let inner = volume(x.dims.drop_first()) as int;
    let (i, k) = (p / inner, p % inner);
    assert(entry(y, i).cells[k] == y.cells[p]);
    assert(entry(x, i).cells[k] == x.cells[p]);
}

/// The square root is taken of every element on its own.
pub proof fn roots_go_by_element(x: Grid, y: Grid, p: int)
    requires
        is_sqrt(x, y),
        x.dims.len() >= 1,
        0 <= p < volume(x.dims),
    ensures
        y.dims == x.dims,
        sqrt_outcomes(x.cells[p]).contains(y.cells[p]),
{
    places_lie_in_entries(x.dims, p);
    let inner = volume(x.dims.drop_first()) as int;
    let (i, k) = (p / inner, p % inner);
    assert(entry(y, i).cells[k] == y.cells[p]);
    assert(entry(x, i).cells[k] == x.cells[p]);
}

/// Every element is multiplied by the factor on its own.
pub proof fn scaling_goes_by_element(x: Grid, factor: u64, y: Grid, p: int)
    requires
        is_scaled(x, factor, y),
        x.dims.len() >= 1,
        0 <= p < volume(x.dims),
    ensures
        y.dims == x.dims,
        scale_outcomes(x.cells[p], factor).contains(y.cells[p]),
{
    places_lie_in_entries(x.dims, p);
    let inner = volume(x.dims.drop_first()) as int;
    let (i, k) = (p / inner, p % inner);
    assert(entry(y, i).cells[k] == y.cells[p]);
    assert(entry(x, i).cells[k] == x.cells[p]);
}

/// Every element is held between the bounds on its own.
pub proof fn clamping_goes_by_element(x: Grid, low: u64, high: u64, y: Grid, p: int)
    requires
        is_clamped(x, low, high, y),
        x.dims.len() >= 1,
        0 <= p < volume(x.dims),
    ensures
        y.dims == x.dims,
        clamp_outcomes(x.cells[p], low, high).contains(y.cells[p]),
{
    places_lie_in_entries(x.dims, p);
    let inner = volume(x.dims.drop_first()) as int;
    let (i, k) = (p / inner, p % inner);
    assert(entry(y, i).cells[k] == y.cells[p]);
    assert(entry(x, i).cells[k] == x.cells[p]);
}

/// Sums are taken of the elements that stand at the same place.
pub proof fn sums_go_by_element(a: Grid, b: Grid, y: Grid, p: int)
    requires
        is_sum_of(a, b, y),
        a.dims.len() >= 1,
        0 <= p < volume(a.dims),
    ensures
        a.dims == b.dims,
        y.dims == a.dims,
        add_outcomes(a.cells[p], b.cells[p]).contains(y.cells[p]),
{
    places_lie_in_entries(a.dims, p);
    let inner = volume(a.dims.drop_first()) as int;
    let (i, k) = (p / inner, p % inner);
    assert(entry(y, i).cells[k] == y.cells[p]);
    assert(entry(a, i).cells[k] == a.cells[p]);
    assert(entry(b, i).cells[k] == b.cells[p]);
}

/// Scores are brought to shares line by line.
pub proof fn softmax_goes_by_line(x: Grid, y: Grid, q: int)
    requires
        is_softmax(x, y),
        x.dims.len() >= 2,
        0 <= q < volume(x.dims.drop_last()),
    ensures
        y.dims == x.dims,
        ({
            let width = x.dims[x.dims.len() - 1];
            softmax_outcomes(
                Seq::new(width as nat, |j: int| x.cells[q * width + j]),
            ).contains(Seq::new(width as nat, |j: int| y.cells[q * width + j]))
        }),
{
    lines_lie_in_entries(x, q);
    lines_lie_in_entries(y, q);
}

/// A linear layer takes every line along the last axis on its own, with its own weights.
pub proof fn linear_layers_go_by_line(tensors: Seq<Grid>, x: Grid, y: Grid, q: int)
    requires
        is_linear(tensors, x, y),
        0 <= q < volume(x.dims.drop_last()),
    ensures
        2 <= x.dims.len() <= 4,
        x.dims[x.dims.len() - 1] == tensors[0].dims[1],
        y.dims == x.dims.drop_last().push(tensors[0].dims[0]),
        ({
            let (from, to) = (tensors[0].dims[1], tensors[0].dims[0]);
            linear_outcomes(
                tensors,
                Seq::new(from as nat, |j: int| x.cells[q * from + j]),
            ).contains(Seq::new(to as nat, |j: int| y.cells[q * to + j]))
        }),
{
    assert(y.dims =~= x.dims.drop_last().push(tensors[0].dims[0]));
    assert(y.dims.drop_last() =~= x.dims.drop_last());
    assert(y.dims.drop_first().drop_last() =~= x.dims.drop_first().drop_last());
    lines_lie_in_entries(x, q);
    lines_lie_in_entries(y, q);
}

/// A layer norm takes every line along the last axis on its own, with its own weights. Lines of
/// one element are stretched to the size of the weights.
pub proof fn layer_norms_go_by_line(tensors: Seq<Grid>, eps: u64, x: Grid, y: Grid, q: int)
    requires
        is_layer_norm(tensors, eps, x, y),
        x.dims.len() >= 2,
        0 <= q < volume(x.dims.drop_last()),
    ensures
        ({
            let from = x.dims[x.dims.len() - 1];
            let to = if from == 1 {
                tensors[0].dims[0]
            } else {
                from
            };
            &&& y.dims == x.dims.drop_last().push(to)
            &&& layer_norm_outcomes(
                tensors,
                eps,
                Seq::new(from as nat, |j: int| x.cells[q * from + j]),
            ).contains(Seq::new(to as nat, |j: int| y.cells[q * to + j]))
        }),
{
    let from = x.dims[x.dims.len() - 1];
    let to = if from == 1 {
        tensors[0].dims[0]
    } else {
        from
    };
    assert(y.dims =~= x.dims.drop_last().push(to));
    assert(y.dims.drop_last() =~= x.dims.drop_last());
    assert(y.dims.drop_first().drop_last() =~= x.dims.drop_first().drop_last());
    lines_lie_in_entries(x, q);
    lines_lie_in_entries(y, q);
}

/// The matrices in the last two of four axes are multiplied pair by pair: line `r` of a product
/// comes of line `r` of the first matrix and of the whole second one. The lines of that one have
/// no part in it only where they meet zero and all elements are finite.
pub proof fn matrices_are_multiplied_in_pairs(
    a: Grid,
    b: Grid,
    y: Grid,
    i: int,
    h: int,
    r: int,
) -> (matrix: Seq<u32>)
    requires
        is_matmul(a, b, y),
        a.dims.len() == 4,
        a.dims[1] == b.dims[1],
        0 <= i < a.dims[0],
        0 <= h < a.dims[1],
        0 <= r < a.dims[2],
    ensures
        b.dims == seq![a.dims[0], a.dims[1], a.dims[3], b.dims[3]],
        y.dims == seq![a.dims[0], a.dims[1], a.dims[2], b.dims[3]],
        ({
            let (inner, width) = (a.dims[3], b.dims[3]);
            let pair = i * a.dims[1] + h;
            let q = pair * a.dims[2] + r;
            &&& matmul_outcomes(
                Seq::new(inner as nat, |j: int| a.cells[q * inner + j]),
                matrix,
                width,
            ).contains(Seq::new(width as nat, |j: int| y.cells[q * width + j]))
            &&& matrix.len() == inner * width
            &&& forall|p: int|
                0 <= p < matrix.len() ==> (#[trigger] matrix[p]) == b.cells[pair * (inner * width)
                    + p] || (matrix[p] == 0 && a.cells[q * inner + p / width as int] == 0)
            &&& forall|p: int, s: int|
                #![trigger matrix[p], b.cells[i * (a.dims[1] * (inner * width)) + s]]
                0 <= p < matrix.len() && 0 <= s < a.dims[1] * (inner * width) && b.cells[i * (
                a.dims[1] * (inner * width)) + s] % 0x8000_0000 >= 0x7f80_0000 ==> matrix[p]
                    == b.cells[pair * (inner * width) + p]
        }),
{
    let (x, m, n, inner, width) = (a.dims[0], a.dims[1], a.dims[2], a.dims[3], b.dims[3]);
    assert(a.dims =~= seq![x, m, n, inner]);
    assert(b.dims =~= seq![x, m, inner, width]);
    assert(y.dims =~= seq![x, m, n, width]);
    assert(a.dims.drop_last() =~= seq![x, m, n]);
    assert(y.dims.drop_last() =~= seq![x, m, n]);
    assert(a.dims.drop_first().drop_last() =~= seq![m, n]);
    assert(y.dims.drop_first().drop_last() =~= seq![m, n]);
    volume_of_three(x, m, n);
    volume_of_two(m, n);
    let pair = i * m + h;
    let q = pair * n + r;
    place_in_row(h, r, m as int, n as int);
    place_in_row(i, h * n + r, x as int, (m * n) as int);
    assert(q == i * (m * n) + (h * n + r)) by (nonlinear_arith)
        requires
            q == (i * m + h) * n + r,
    ;
    lines_lie_in_entries(a, q);
    lines_lie_in_entries(y, q);
    let matrix = met(entry(a, i), entry(b, i), h * n + r);
    assert(line(entry(y, i), h * n + r) == Seq::new(
        width as nat,
        |j: int| y.cells[q * width + j],
    ));
    assert(b.dims.drop_first() =~= seq![m, inner, width]);
    volume_of_three(m, inner, width);
    assert forall|p: int| 0 <= p < matrix.len() implies (#[trigger] matrix[p]) == b.cells[pair * (
    inner * width) + p] || (matrix[p] == 0 && a.cells[q * inner + p / width as int] == 0) by {
        let size = inner * width;
        place_in_row(h, p, m as int, size);
        assert(i * (m * size) + (h * size + p) == (i * m + h) * size + p) by (nonlinear_arith);
        assert(entry(b, i).cells[h * size + p] == b.cells[pair * size + p]);
        if matrix[p] != b.cells[pair * size + p] {
            assert(width > 0) by (nonlinear_arith)
                requires
                    0 <= p < inner * width,
                    inner >= 0,
                    width >= 0,
            ;
            vstd::arithmetic::div_mod::lemma_fundamental_div_mod(p, width as int);
            vstd::arithmetic::div_mod::lemma_mod_bound(p, width as int);
            vstd::arithmetic::div_mod::lemma_div_pos_is_pos(p, width as int);
            let k = p / width as int;
            let rest = p % width as int;
            assert(k < inner) by (nonlinear_arith)
                requires
                    p == width * k + rest,
                    0 <= rest,
                    p < inner * width,
                    width > 0,
            ;
            assert(line(entry(a, i), h * n + r)[k] == a.cells[q * inner + k]);
        }
    }
    assert forall|p: int, s: int|
        #![trigger matrix[p], b.cells[i * (a.dims[1] * (inner * width)) + s]]
        0 <= p < matrix.len() && 0 <= s < a.dims[1] * (inner * width) && b.cells[i * (a.dims[1] * (
        inner * width)) + s] % 0x8000_0000 >= 0x7f80_0000 implies matrix[p] == b.cells[pair * (inner
        * width) + p] by {
        let size = inner * width;
        assert(entry(b, i).cells[s] % 0x8000_0000 >= 0x7f80_0000);
        assert(!is_finite(entry(b, i).cells));
        place_in_row(h, p, m as int, size);
        assert(i * (m * size) + (h * size + p) == (i * m + h) * size + p) by (nonlinear_arith);
        assert(entry(b, i).cells[h * size + p] == b.cells[pair * size + p]);
    }
    matrix
}

/// A sum that stretches axes goes entry by entry, over what meets each entry on either side.
pub proof fn stretched_sums_go_by_entry(a: Grid, b: Grid, y: Grid, i: int)
    requires
        is_broadcast_sum(a, b, y),
        a.dims.len() >= b.dims.len(),
        0 <= i < y.dims[0],
    ensures
        compatible(a.dims, b.dims),
        y.dims == broadcast_dims(a.dims, b.dims),
        broadcast_add_outcomes(
            lane(a, a.dims.len() as int, i),
            lane(b, a.dims.len() as int, i),
        ).contains(entry(y, i).cells),
{
}

/// A product that stretches axes goes entry by entry, over what meets each entry on either side.
pub proof fn stretched_products_go_by_entry(a: Grid, b: Grid, y: Grid, i: int)
    requires
        is_broadcast_product(a, b, y),
        a.dims.len() >= b.dims.len(),
        0 <= i < y.dims[0],
    ensures
        compatible(a.dims, b.dims),
        y.dims == broadcast_dims(a.dims, b.dims),
        broadcast_mul_outcomes(
            lane(a, a.dims.len() as int, i),
            lane(b, a.dims.len() as int, i),
        ).contains(entry(y, i).cells),
{
}

/// A quotient that stretches axes goes entry by entry, over what meets each entry on either side.
pub proof fn stretched_quotients_go_by_entry(a: Grid, b: Grid, y: Grid, i: int)
    requires
        is_broadcast_quotient(a, b, y),
        a.dims.len() >= b.dims.len(),
        0 <= i < y.dims[0],
    ensures
        compatible(a.dims, b.dims),
        y.dims == broadcast_dims(a.dims, b.dims),
        broadcast_div_outcomes(
            lane(a, a.dims.len() as int, i),
            lane(b, a.dims.len() as int, i),
        ).contains(entry(y, i).cells),
{
}

/// A sum along an axis takes every entry on its own.
pub proof fn sums_along_go_by_entry(x: Grid, axis: int, y: Grid, i: int)
    requires
        is_sum_along(x, axis, y),
        0 <= i < x.dims[0],
    ensures
        1 <= axis < x.dims.len(),
        y.dims == x.dims.remove(axis),
        sum_outcomes(entry(x, i), axis - 1).contains(entry(y, i).cells),
{
}

/// A sum along two axes leaves one entry along each.
pub proof fn sums_leave_one_entry(x: Grid, a: int, b: int, y: Grid)
    requires
        is_sum_kept(x, a, b, y),
    ensures
        0 <= a < x.dims.len(),
        0 <= b < x.dims.len(),
        y.dims == x.dims.update(a, 1).update(b, 1),
        sum_keepdim_outcomes(x, a, b).contains(y.cells),
{
}

/// A group norm takes every entry on its own, with its own weights.
pub proof fn group_norms_go_by_entry(
    tensors: Seq<Grid>,
    settings: Seq<u64>,
    x: Grid,
    y: Grid,
    i: int,
)
    requires
        is_group_norm(tensors, settings, x, y),
        0 <= i < x.dims[0],
    ensures
        y.dims == x.dims,
        group_norm_outcomes(tensors, settings, entry(x, i)).contains(entry(y, i).cells),
{
}

/// A convolution takes every entry on its own, with its own kernels, and gives a line of places
/// for each of them.
pub proof fn convolutions_go_by_entry(
    tensors: Seq<Grid>,
    settings: ConvSettings,
    x: Grid,
    y: Grid,
    i: int,
)
    requires
        is_conv(tensors, settings, x, y),
        settings.stride >= 1,
        0 <= i < x.dims[0],
    ensures
        x.dims.len() == 3,
        y.dims.len() == 3,
        x.dims[1] == tensors[0].dims[1] * settings.groups,
        y.dims[0] == x.dims[0],
        y.dims[1] == tensors[0].dims[0],
        ({
            let reach = settings.dilation * (tensors[0].dims[2] - 1) + 1;
            let room = x.dims[2] + 2 * settings.padding;
            (y.dims[2] - 1) * settings.stride + reach <= room < y.dims[2] * settings.stride + reach
        }),
        conv_outcomes(tensors, settings, entry(x, i)).contains(entry(y, i).cells),
{
    kernels_find_every_place(
        x.dims[2] as int,
        tensors[0].dims[2] as int,
        settings.padding as int,
        settings.stride as int,
        settings.dilation as int,
    );
}

} // verus!
