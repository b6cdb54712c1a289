//! What stands in padding has no part in what comes of the frames, wherever it gets no share of
//! attention.
use vstd::prelude::*;

use crate::encoder::{Attention, AttentionTrace};
use crate::grid::{
    entry, exchanged, line, place_in_row, position, position_leads_back, reshaped, stretching_keeps,
    transposed, transposing_goes_by_entry, volume, volume_of_one, volume_of_three, volume_of_two,
    within, Grid,
};
use crate::layers::{linear_outcomes, linear_tensors};
use crate::masks::{INFINITY, ZERO};
use crate::tensor::{is_finite, matmul_outcomes, met};

verus! {

/// Lines of one size, one behind the other.
pub open spec fn joined(lines: Seq<Seq<u32>>, size: usize) -> Seq<u32> {
    Seq::new(lines.len() * size as nat, |p: int| lines[p / size as int][p % size as int])
}

/// `out` may come of a frame of request `i` that mixes values by these shares.
pub open spec fn may_come_of(
    a: Attention,
    shares: Grid,
    values: Grid,
    i: int,
    frame: int,
    out: Seq<u32>,
) -> bool {
    exists|mixed: Seq<Seq<u32>>| #[trigger]
        may_come_through(a, shares, values, i, frame, mixed, out)
}

/// `out` may come of a frame of request `i` that mixes values by these shares, with what each head
/// has mixed for it.
pub open spec fn may_come_through(
    a: Attention,
    shares: Grid,
    values: Grid,
    i: int,
    frame: int,
    mixed: Seq<Seq<u32>>,
    out: Seq<u32>,
) -> bool {
    let len = values.dims[1];
    let split = entry(a.split(values.dims[0], len, values), i);
    &&& mixed.len() == a.num_heads
    &&& forall|head: int|
        0 <= head < a.num_heads ==> matmul_outcomes(
            line(entry(shares, i), head * len + frame),
            met(entry(shares, i), split, head * len + frame),
            a.head_dim,
        ).contains(#[trigger] mixed[head])
    &&& linear_outcomes(linear_tensors(a.out_proj), joined(mixed, a.head_dim)).contains(out)
}

/// Where an element of a grid of three axes stands, once the first two are exchanged.
proof fn place_when_turned(g: Grid, x: usize, y: usize, z: usize, i: int, j: int, k: int)
    requires
        g.dims == seq![x, y, z],
        0 <= i < x,
        0 <= j < y,
        0 <= k < z,
    ensures
        transposed(g, 0, 1).cells[(j * x + i) * z + k] == g.cells[(i * y + j) * z + k],
{
    let dims = seq![y, x, z];
    assert(exchanged(g.dims, 0, 1) =~= dims);
    let at = seq![j, i, k];
    assert(within(dims, at));
    position_leads_back(dims, at);
    position_of_three(y, x, z, j, i, k);
    position_of_three(x, y, z, i, j, k);
    assert(exchanged(at, 0, 1) =~= seq![i, j, k]);
}

/// Where an element of a grid of three axes stands.
pub proof fn position_of_three(x: usize, y: usize, z: usize, i: int, j: int, k: int)
    ensures
        position(seq![x, y, z], seq![i, j, k]) == (i * y + j) * z + k,
{
    reveal_with_fuel(position, 4);
    assert(seq![x, y, z].drop_first() =~= seq![y, z]);
    assert(seq![y, z].drop_first() =~= seq![z]);
    assert(seq![z].drop_first() =~= Seq::<usize>::empty());
    assert(seq![i, j, k].drop_first() =~= seq![j, k]);
    assert(seq![j, k].drop_first() =~= seq![k]);
    volume_of_two(y, z);
    volume_of_one(z);
    assert(volume(Seq::<usize>::empty()) == 1);
    assert(position(seq![x, y, z], seq![i, j, k]) == i * (y * z) + (j * z + (k * 1 + 0)));
    assert(i * (y * z) + j * z + k == (i * y + j) * z + k) by (nonlinear_arith);
}

/// The element at place `k` of a head is the one that stands there in its frame.
proof fn heads_hold_frames(
    a: Attention,
    g: Grid,
    width: usize,
    i: int,
    head: int,
    frame: int,
    k: int,
)
    requires
        a.shares(width),
        g.dims.len() == 3,
        g.dims[2] == width,
        0 <= i < g.dims[0],
        0 <= head < a.num_heads,
        0 <= frame < g.dims[1],
        0 <= k < a.head_dim,
    ensures
        0 <= head * a.head_dim + k < width,
        entry(a.split(g.dims[0], g.dims[1], g), i).cells[(head * g.dims[1] + frame) * a.head_dim
            + k] == line(entry(g, i), frame)[head * a.head_dim + k],
        entry(a.split(g.dims[0], g.dims[1], g), i).dims == seq![
            a.num_heads,
            g.dims[1],
            a.head_dim,
        ],
{
    let (rows, len, heads, size) = (g.dims[0], g.dims[1], a.num_heads, a.head_dim);
    let whole = reshaped(g, seq![rows, len, heads, size]);
    transposing_goes_by_entry(whole, 1, 2, i);
    let inner = entry(whole, i);
    assert(inner.dims =~= seq![len, heads, size]);
    assert(g.dims.drop_first() =~= seq![len, width]);
    volume_of_three(len, heads, size);
    volume_of_two(len, width);
    place_when_turned(inner, len, heads, size, frame, head, k);
    place_in_row(head, k, heads as int, size as int);
    place_in_row(frame, head * size + k, len as int, width as int);
    assert((frame * heads + head) * size + k == frame * width + (head * size + k))
        by (nonlinear_arith)
        requires
            heads * size == width,
    ;
    assert(inner.cells[frame * width + (head * size + k)] == entry(g, i).cells[frame * width + (
    head * size + k)]);
    assert(exchanged(inner.dims, 0, 1) =~= seq![heads, len, size]);
}

/// What a frame gives comes of the shares that it hands out and of the values of the frames.
pub proof fn frames_come_of_shares_and_values(
    a: Attention,
    x: Grid,
    mask: Option<Grid>,
    trace: AttentionTrace,
    y: Grid,
    i: int,
    frame: int,
)
    requires
        x.dims.len() == 3,
        a.fits(x.dims[2]),
        a.runs_through(x, mask, trace, y),
        mask matches Some(mask) ==> a.admits(mask.dims, x.dims[0], x.dims[1]),
        0 <= i < x.dims[0],
        0 <= frame < x.dims[1],
    ensures
        may_come_of(a, trace.shares, trace.values, i, frame, line(entry(y, i), frame)),
        trace.shares.dims == seq![x.dims[0], a.num_heads, x.dims[1], x.dims[1]],
        trace.values.dims == x.dims,
{
    let (rows, len, width) = (x.dims[0], x.dims[1], x.dims[2]);
    let (heads, size) = (a.num_heads, a.head_dim);
    assert(trace.values.dims =~= x.dims);
    assert(trace.queries.dims =~= x.dims);
    assert(trace.keys.dims =~= x.dims);
    let queries = a.split(rows, len, trace.queries);
    let keys = transposed(a.split(rows, len, trace.keys), 2, 3);
    let values = a.split(rows, len, trace.values);
    assert(queries.dims =~= seq![rows, heads, len, size]);
    assert(keys.dims =~= seq![rows, heads, size, len]);
    assert(values.dims =~= seq![rows, heads, len, size]);
    assert(trace.products.dims =~= seq![rows, heads, len, len]);
    if let Some(mask) = mask {
        stretching_keeps(trace.scores.dims, mask.dims);
    }
    assert(trace.shares.dims =~= seq![rows, heads, len, len]);
    assert(trace.mixed.dims =~= seq![rows, heads, len, size]);
    let mixed = Seq::new(heads as nat, |head: int| line(entry(trace.mixed, i), head * len + frame));
    assert(trace.shares.dims.drop_first().drop_last() =~= seq![heads, len]);
    volume_of_two(heads, len);
    assert forall|head: int| 0 <= head < heads implies matmul_outcomes(
        line(entry(trace.shares, i), head * len + frame),
        met(entry(trace.shares, i), entry(values, i), head * len + frame),
        size,
    ).contains(#[trigger] mixed[head]) by {
        place_in_row(head, frame, heads as int, len as int);
        assert(mixed[head] == line(entry(trace.mixed, i), head * len + frame));
    }
    let gathered = reshaped(transposed(trace.mixed, 1, 2), x.dims);
    gathering_joins(a, trace.mixed, x.dims, i, frame);
    assert(x.dims.drop_first().drop_last() =~= seq![len]);
    volume_of_one(len);
    assert(line(entry(gathered, i), frame) =~= joined(mixed, size));
    assert(linear_outcomes(linear_tensors(a.out_proj), line(entry(gathered, i), frame)).contains(
        line(entry(y, i), frame),
    ));
    assert(may_come_through(
        a,
        trace.shares,
        trace.values,
        i,
        frame,
        mixed,
        line(entry(y, i), frame),
    ));
}

/// What the heads have mixed for a frame is joined, one head behind the other.
proof fn gathering_joins(a: Attention, mixed: Grid, dims: Seq<usize>, i: int, frame: int)
    requires
        dims.len() == 3,
        a.shares(dims[2]),
        mixed.dims == seq![dims[0], a.num_heads, dims[1], a.head_dim],
        0 <= i < dims[0],
        0 <= frame < dims[1],
    ensures
        line(entry(reshaped(transposed(mixed, 1, 2), dims), i), frame) == joined(
            Seq::new(
                a.num_heads as nat,
                |head: int| line(entry(mixed, i), head * dims[1] + frame),
            ),
            a.head_dim,
        ),
{
    let (len, width) = (dims[1], dims[2]);
    let (heads, size) = (a.num_heads, a.head_dim);
    let lines = Seq::new(heads as nat, |head: int| line(entry(mixed, i), head * len + frame));
    let turned = transposed(mixed, 1, 2);
    let gathered = entry(reshaped(turned, dims), i);
    let inner = entry(mixed, i);
    transposing_goes_by_entry(mixed, 1, 2, i);
    assert(inner.dims =~= seq![heads, len, size]);
    assert(entry(turned, i).dims =~= seq![len, heads, size]);
    assert(dims.drop_first() =~= seq![len, width]);
    volume_of_three(len, heads, size);
    volume_of_two(len, width);
    assert forall|w: int| 0 <= w < width implies line(gathered, frame)[w] == joined(
        lines,
        size,
    )[w] by {
        place_in_head(w, heads as int, size as int);
        let (head, k) = (w / size as int, w % size as int);
        place_when_turned(inner, heads, len, size, head, frame, k);
        place_in_row(frame, w, len as int, width as int);
        assert((frame * heads + head) * size + k == frame * width + w) by (nonlinear_arith)
            requires
                heads * size == width,
                w == head * size + k,
        ;
        assert(gathered.cells[frame * width + w] == entry(turned, i).cells[frame * width + w]);
        assert(lines[head][k] == inner.cells[(head * len + frame) * size + k]);
    }
    assert(line(gathered, frame) =~= joined(lines, size));
}

/// Every place of a frame lies in a head.
proof fn place_in_head(w: int, heads: int, size: int)
    requires
        heads >= 0,
        size >= 0,
        0 <= w < heads * size,
    ensures
        0 <= w / size < heads,
        0 <= w % size < size,
        w == (w / size) * size + w % size,
{
    assert(size > 0) by (nonlinear_arith)
        requires
            0 <= w < heads * size,
            heads >= 0,
            size >= 0,
    ;
    vstd::arithmetic::div_mod::lemma_fundamental_div_mod(w, size);
    vstd::arithmetic::div_mod::lemma_mod_bound(w, size);
    vstd::arithmetic::div_mod::lemma_div_pos_is_pos(w, size);
    let q = w / size;
    assert(q < heads) by (nonlinear_arith)
        requires
            w == size * q + w % size,
            0 <= w % size,
            w < heads * size,
            size > 0,
    ;
    assert(size * q == q * size) by (nonlinear_arith);
}

/// The values of a request are finite in every frame.
pub open spec fn are_finite(values: Grid, i: int) -> bool {
    forall|frame: int|
        0 <= frame < values.dims[1] ==> is_finite(#[trigger] line(entry(values, i), frame))
}

/// What stands in padding has no part in what comes of a frame that hands out no share to it: of
/// two sets of finite values that are the same in the frames of a request, whatever they are
/// behind these, the same may come.
pub proof fn padding_has_no_part_in_frames(
    a: Attention,
    shares: Grid,
    values: Grid,
    others: Grid,
    i: int,
    frames: int,
    frame: int,
    out: Seq<u32>,
)
    requires
        values.dims.len() == 3,
        a.shares(values.dims[2]),
        others.dims == values.dims,
        shares.dims == seq![values.dims[0], a.num_heads, values.dims[1], values.dims[1]],
        0 <= i < values.dims[0],
        0 <= frame < frames <= values.dims[1],
        forall|head: int, k: int|
            0 <= head < a.num_heads && frames <= k < values.dims[1] ==> #[trigger] line(
                entry(shares, i),
                head * values.dims[1] + frame,
            )[k] == ZERO,
        forall|k: int|
            0 <= k < frames ==> #[trigger] line(entry(values, i), k) == line(entry(others, i), k),
        are_finite(values, i),
        are_finite(others, i),
    ensures
        may_come_of(a, shares, values, i, frame, out) <==> may_come_of(
            a,
            shares,
            others,
            i,
            frame,
            out,
        ),
{
    let (rows, len) = (values.dims[0], values.dims[1]);
    let split = entry(a.split(rows, len, values), i);
    let other_split = entry(a.split(rows, len, others), i);
    heads_are_finite(a, values, i);
    heads_are_finite(a, others, i);
    assert forall|head: int| 0 <= head < a.num_heads implies #[trigger] met(
        entry(shares, i),
        split,
        head * len + frame,
    ) == met(entry(shares, i), other_split, head * len + frame) by {
        heads_meet_the_same(a, shares, values, others, i, frames, frame, head);
    }
    if may_come_of(a, shares, values, i, frame, out) {
        let mixed = choose|mixed: Seq<Seq<u32>>| #[trigger]
            may_come_through(a, shares, values, i, frame, mixed, out);
        assert(may_come_through(a, shares, others, i, frame, mixed, out));
    }
    if may_come_of(a, shares, others, i, frame, out) {
        let mixed = choose|mixed: Seq<Seq<u32>>| #[trigger]
            may_come_through(a, shares, others, i, frame, mixed, out);
        assert(may_come_through(a, shares, values, i, frame, mixed, out));
    }
}

/// The heads of finite frames are finite.
proof fn heads_are_finite(a: Attention, values: Grid, i: int)
    requires
        values.dims.len() == 3,
        a.shares(values.dims[2]),
        0 <= i < values.dims[0],
        are_finite(values, i),
    ensures
        is_finite(entry(a.split(values.dims[0], values.dims[1], values), i).cells),
        entry(a.split(values.dims[0], values.dims[1], values), i).dims == seq![
            a.num_heads,
            values.dims[1],
            a.head_dim,
        ],
{
    let (rows, len) = (values.dims[0], values.dims[1]);
    let (heads, size) = (a.num_heads, a.head_dim);
    let split = entry(a.split(rows, len, values), i);
    assert(split.dims =~= seq![heads, len, size]);
    volume_of_three(heads, len, size);
    assert forall|p: int| 0 <= p < split.cells.len() implies (#[trigger] split.cells[p])
        % 0x8000_0000 < INFINITY by {
        assert(heads * (len * size) == (heads * len) * size) by (nonlinear_arith);
        place_in_head(p, heads * len, size as int);
        let (q, k) = (p / size as int, p % size as int);
        place_in_head(q, heads as int, len as int);
        let (head, frame) = (q / len as int, q % len as int);
        heads_hold_frames(a, values, values.dims[2], i, head, frame, k);
        assert(is_finite(line(entry(values, i), frame)));
        assert(line(entry(values, i), frame)[head * size + k] % 0x8000_0000
            < INFINITY);
    }
}

/// What a head meets for a frame is the same, whatever stands in the padding.
proof fn heads_meet_the_same(
    a: Attention,
    shares: Grid,
    values: Grid,
    others: Grid,
    i: int,
    frames: int,
    frame: int,
    head: int,
)
    requires
        values.dims.len() == 3,
        a.shares(values.dims[2]),
        others.dims == values.dims,
        shares.dims == seq![values.dims[0], a.num_heads, values.dims[1], values.dims[1]],
        0 <= i < values.dims[0],
        0 <= frame < frames <= values.dims[1],
        0 <= head < a.num_heads,
        forall|k: int|
            frames <= k < values.dims[1] ==> #[trigger] line(
                entry(shares, i),
                head * values.dims[1] + frame,
            )[k] == ZERO,
        forall|k: int|
            0 <= k < frames ==> #[trigger] line(entry(values, i), k) == line(entry(others, i), k),
        is_finite(entry(a.split(values.dims[0], values.dims[1], values), i).cells),
        is_finite(entry(a.split(values.dims[0], values.dims[1], others), i).cells),
    ensures
        met(
            entry(shares, i),
            entry(a.split(values.dims[0], values.dims[1], values), i),
            head * values.dims[1] + frame,
        ) == met(
            entry(shares, i),
            entry(a.split(values.dims[0], values.dims[1], others), i),
            head * values.dims[1] + frame,
        ),
{
    let (rows, len) = (values.dims[0], values.dims[1]);
    let (heads, size) = (a.num_heads, a.head_dim);
    let split = entry(a.split(rows, len, values), i);
    let other_split = entry(a.split(rows, len, others), i);
    let q = head * len + frame;
    place_in_row(head, frame, heads as int, len as int);
    assert(split.dims =~= seq![heads, len, size]);
    assert(other_split.dims =~= seq![heads, len, size]);
    assert(entry(shares, i).dims =~= seq![heads, len, len]);
    let (left, right) = (met(entry(shares, i), split, q), met(entry(shares, i), other_split, q));
    assert forall|p: int| 0 <= p < len * size implies left[p] == right[p] by {
        place_in_head(p, len as int, size as int);
        let (k, j) = (p / size as int, p % size as int);
        if k < frames {
            heads_hold_frames(a, values, values.dims[2], i, head, k, j);
            heads_hold_frames(a, others, values.dims[2], i, head, k, j);
            assert(head * (len * size) + p == (head * len + k) * size + j) by (nonlinear_arith)
                requires
                    p == k * size + j,
            ;
            assert(line(entry(values, i), k) == line(entry(others, i), k));
        } else {
            assert(line(entry(shares, i), q)[k] == ZERO);
        }
    }
    assert(left =~= right);
}

} // verus!
