//! Masks that keep padding out of attention and of means.
use candle_core::{Device, Error, Tensor};
use vstd::prelude::*;

use crate::device::is_processor;
use crate::grid::{broadcast_keeps, place_in_row, unsqueezed, volume_of_two, Grid};
use crate::tensor::{
    broadcast_div, broadcast_mul, cells, clamp, device, dims2, grid, is_broadcast_product,
    is_broadcast_quotient, is_clamped, is_computed, is_local, is_sum_along, is_workable, matrix,
    number, sum, tensor_device, tensor_dims, unsqueeze,
};

verus! {

/// The bits of the 32-bit float 0.
pub const ZERO: u32 = 0;

/// The bits of the 32-bit float 1, which marks a frame.
pub const ONE: u32 = 0x3f80_0000;

/// The bits of the 32-bit float 0.5.
pub const HALF: u32 = 0x3f00_0000;

/// The bits of the 32-bit float infinity.
pub const INFINITY: u32 = 0x7f80_0000;

/// The bits of the 32-bit float -1000000000, which leaves a frame no share of attention.
pub const MASKED: u32 = 0xce6e_6b28;

/// The bits of the 64-bit float 0.000001, the least number of frames that a mean is taken over.
pub const COUNT_FLOOR: u64 = 0x3eb0_c6f7_a0b5_ed8d;

/// The bits of the greatest finite 32-bit float as a 64-bit one, the greatest number of frames
/// that a mean is taken over.
pub const COUNT_CEILING: u64 = 0x47ef_ffff_e000_0000;

/// The mark of place `j` in a row of `len` frames.
pub open spec fn frame_cell(len: usize, j: int) -> u32 {
    if j < len {
        ONE
    } else {
        ZERO
    }
}

/// A row of marks for each request: a mark for each of its frames, then none for the padding.
pub open spec fn frame_mask_grid(frame_lengths: Seq<usize>, max_len: usize) -> Grid {
    Grid {
        dims: seq![frame_lengths.len() as usize, max_len],
        cells: Seq::new(
            frame_lengths.len() * max_len as nat,
            |p: int| frame_cell(frame_lengths[p / max_len as int], p % max_len as int),
        ),
    }
}

/// The marks of the frames of each request, row by row.
pub fn frame_mask_cells(frame_lengths: &[usize], max_len: usize) -> (mask: Vec<u32>)
    requires
        frame_lengths@.len() * max_len <= usize::MAX,
    ensures
        mask@ == frame_mask_grid(frame_lengths@, max_len).cells,
{
    let mut mask: Vec<u32> = Vec::new();
    let mut i: usize = 0;
    while i < frame_lengths.len()
        invariant
            i <= frame_lengths@.len(),
            frame_lengths@.len() * max_len <= usize::MAX,
            mask@.len() == i * max_len,
            forall|p: int|
                0 <= p < mask@.len() ==> mask@[p] == frame_mask_grid(
                    frame_lengths@,
                    max_len,
                ).cells[p],
        decreases frame_lengths@.len() - i,
    {
        let len = frame_lengths[i];
        let mut idx: usize = 0;
        while idx < max_len
            invariant
                i < frame_lengths@.len(),
                len == frame_lengths@[i as int],
                idx <= max_len,
                mask@.len() == i * max_len + idx,
                forall|p: int|
                    0 <= p < mask@.len() ==> mask@[p] == frame_mask_grid(
                        frame_lengths@,
                        max_len,
                    ).cells[p],
            decreases max_len - idx,
        {
            proof {
                let p = i * max_len + idx;
                place_in_row(i as int, idx as int, frame_lengths@.len() as int, max_len as int);
                assert(frame_mask_grid(frame_lengths@, max_len).cells[p] == frame_cell(
                    len,
                    idx as int,
                ));
            }
            mask.push(
                if idx < len {
                    ONE
                } else {
                    ZERO
                },
            );
            idx = idx + 1;
        }
        assert((i + 1) * max_len == i * max_len + max_len) by (nonlinear_arith);
        i = i + 1;
    }
    assert(mask@ =~= frame_mask_grid(frame_lengths@, max_len).cells);
    mask
}

/// A row of marks for each request, as a tensor: a mark for each of its frames, then none for
/// the padding. The processor always makes it.
pub fn frame_mask(frame_lengths: &[usize], max_len: usize, device: &Device) -> (r: Result<
    Tensor,
    Error,
>)
    requires
        frame_lengths@.len() * max_len <= usize::MAX,
    ensures
        r matches Ok(t) ==> grid(t) == frame_mask_grid(frame_lengths@, max_len) && tensor_device(t)
            == *device,
        is_processor(*device) ==> is_computed(r),
{
    let mask = frame_mask_cells(frame_lengths, max_len);
    matrix(mask, frame_lengths.len(), max_len, device)
}

/// Whether the 32-bit float with these bits is greater than 0.5.
pub open spec fn exceeds_half(bits: u32) -> bool {
    HALF < bits <= INFINITY
}

/// What is added to the scores of a frame: nothing where it is marked, and so much otherwise
/// that it gets no share.
pub open spec fn attention_cell(mark: u32) -> u32 {
    if exceeds_half(mark) {
        ZERO
    } else {
        MASKED
    }
}

/// What is added to the scores: the same for every head and every frame that attends.
pub open spec fn attention_mask_grid(marks: Grid) -> Grid {
    let flat = Grid {
        dims: marks.dims,
        cells: marks.cells.map_values(|mark: u32| attention_cell(mark)),
    };
    unsqueezed(unsqueezed(flat, 1), 1)
}

/// What is added to the scores of each frame.
pub fn attention_mask_cells(marks: &Vec<u32>) -> (values: Vec<u32>)
    ensures
        values@ == marks@.map_values(|mark: u32| attention_cell(mark)),
{
    let mut values: Vec<u32> = Vec::new();
    let mut i: usize = 0;
    while i < marks.len()
        invariant
            i <= marks.len(),
            values@.len() == i,
            forall|j: int| 0 <= j < i ==> values@[j] == attention_cell(marks@[j]),
        decreases marks.len() - i,
    {
        let mark = marks[i];
        values.push(
            if HALF < mark && mark <= INFINITY {
                ZERO
            } else {
                MASKED
            },
        );
        i = i + 1;
    }
    assert(values@ =~= marks@.map_values(|mark: u32| attention_cell(mark)));
    values
}

/// What is added to the scores, as a tensor, out of the marks of the frames. The processor makes
/// it of every matrix.
pub(crate) fn attention_mask(frame_mask: &Tensor) -> (r: Result<Tensor, Error>)
    ensures
        r matches Ok(t) ==> {
            &&& tensor_dims(*frame_mask).len() == 2
            &&& grid(t) == attention_mask_grid(grid(*frame_mask))
            &&& tensor_device(t) == tensor_device(*frame_mask)
        },
        is_local(*frame_mask) && tensor_dims(*frame_mask).len() == 2 ==> is_computed(r),
{
    let (batch, seq_len) = dims2(frame_mask)?;
    let marks = cells(frame_mask)?;
    let values = attention_mask_cells(&marks);
    proof {
        volume_of_two(batch, seq_len);
    }
    let flat = matrix(values, batch, seq_len, device(frame_mask))?;
    unsqueeze(&unsqueeze(&flat, 1)?, 1)
}

/// What a mean over marked frames is computed through.
pub struct MeanTrace {
    pub kept: Grid,
    pub summed: Grid,
    pub counted: Grid,
    pub counts: Grid,
}

/// `y` may be the mean of the marked frames of each row of `x`.
pub open spec fn is_masked_mean(x: Grid, marks: Grid, y: Grid) -> bool {
    exists|trace: MeanTrace| #[trigger] mean_through(x, marks, trace, y)
}

/// `y` may be the mean of the marked frames of each row of `x`, computed through `trace`.
pub open spec fn mean_through(x: Grid, marks: Grid, trace: MeanTrace, y: Grid) -> bool {
    let column = unsqueezed(marks, 2);
    &&& is_broadcast_product(x, column, trace.kept)
    &&& is_sum_along(trace.kept, 1, trace.summed)
    &&& is_sum_along(column, 1, trace.counted)
    &&& is_clamped(trace.counted, COUNT_FLOOR, COUNT_CEILING, trace.counts)
    &&& is_broadcast_quotient(trace.summed, trace.counts, y)
}

/// The mean of the marked frames of each row. The processor takes it wherever no axis is empty.
pub(crate) fn masked_mean(xs: &Tensor, mask: &Tensor) -> (r: Result<Tensor, Error>)
    requires
        tensor_dims(*xs).len() == 3,
        tensor_dims(*xs)[0] >= 1,
        tensor_dims(*xs)[2] >= 1,
        tensor_dims(*mask) == seq![tensor_dims(*xs)[0], tensor_dims(*xs)[1]],
    ensures
        r matches Ok(y) ==> {
            &&& is_masked_mean(grid(*xs), grid(*mask), grid(y))
            &&& tensor_dims(y) == seq![tensor_dims(*xs)[0], tensor_dims(*xs)[2]]
            &&& tensor_device(y) == tensor_device(*xs)
        },
        is_workable(*xs) && is_local(*mask) ==> is_computed(r),
{
    let column = unsqueeze(mask, 2)?;
    proof {
        assert(tensor_dims(column) =~= seq![tensor_dims(*xs)[0], tensor_dims(*xs)[1], 1]);
        broadcast_keeps(tensor_dims(*xs), tensor_dims(column));
    }
    let kept = broadcast_mul(xs, &column)?;
    proof {
        assert(tensor_dims(kept).remove(1) =~= seq![tensor_dims(*xs)[0], tensor_dims(*xs)[2]]);
        assert(tensor_dims(column).remove(1) =~= seq![tensor_dims(*xs)[0], 1]);
    }
    let summed = sum(&kept, 1)?;
    let counted = sum(&column, 1)?;
    let counts = clamp(&counted, &number(COUNT_FLOOR)?, &number(COUNT_CEILING)?)?;
    proof {
        assert(tensor_dims(summed) =~= seq![tensor_dims(*xs)[0], tensor_dims(*xs)[2]]);
        assert(tensor_dims(counts) =~= seq![tensor_dims(*xs)[0], 1]);
        broadcast_keeps(tensor_dims(summed), tensor_dims(counts));
    }
    let mean = broadcast_div(&summed, &counts)?;
    proof {
        let trace = MeanTrace {
            kept: grid(kept),
            summed: grid(summed),
            counted: grid(counted),
            counts: grid(counts),
        };
        assert(mean_through(grid(*xs), grid(*mask), trace, grid(mean)));
    }
    Ok(mean)
}

/// Each request has a mark for exactly its own frames: place `j` of row `i` is marked if and
/// only if request `i` has more than `j` frames.
pub proof fn marks_are_the_frames(frame_lengths: Seq<usize>, max_len: usize, i: int, j: int)
    requires
        0 <= i < frame_lengths.len(),
        0 <= j < max_len,
    ensures
        frame_mask_grid(frame_lengths, max_len).cells[i * max_len + j] == ONE <==> j
            < frame_lengths[i],
        frame_mask_grid(frame_lengths, max_len).cells[i * max_len + j] == ZERO <==> j
            >= frame_lengths[i],
{
    place_in_row(i, j, frame_lengths.len() as int, max_len as int);
}

/// Padding gets no share of attention and frames are left alone: what is added to the scores
/// at place `j` of row `i` is nothing if and only if request `i` has more than `j` frames.
pub proof fn only_padding_is_masked(frame_lengths: Seq<usize>, max_len: usize, i: int, j: int)
    requires
        0 <= i < frame_lengths.len(),
        0 <= j < max_len,
    ensures
        attention_mask_grid(frame_mask_grid(frame_lengths, max_len)).cells[i * max_len + j] == (
        if j < frame_lengths[i] {
            ZERO
        } else {
            MASKED
        }),
{
    place_in_row(i, j, frame_lengths.len() as int, max_len as int);
}

/// What is added to the scores follows from the marks, place by place: nothing where the mark is
/// greater than one half, and -1000000000 elsewhere. It has an axis for the heads and one for the
/// frames that attend, each of one entry.
pub proof fn scores_are_masked_by_marks(marks: Grid)
    requires
        marks.dims.len() == 2,
    ensures
        attention_mask_grid(marks).dims == seq![marks.dims[0], 1, 1, marks.dims[1]],
        attention_mask_grid(marks).cells.len() == marks.cells.len(),
        forall|p: int|
            0 <= p < marks.cells.len() ==> (#[trigger] attention_mask_grid(marks).cells[p]) == (
            if 0x3f00_0000 < marks.cells[p] <= 0x7f80_0000 {
                0u32
            } else {
                0xce6e_6b28u32
            }),
{
}

/// The mean of the marked frames is the sum of all frames times their marks, over the number of
/// marks, which is taken to be no less than 0.000001.
pub proof fn means_are_taken_over_marks(x: Grid, marks: Grid, y: Grid) -> (parts: (
    Grid,
    MeanTrace,
))
    requires
        is_masked_mean(x, marks, y),
        marks.dims.len() == 2,
    ensures
        ({
            let (column, trace) = parts;
            &&& column.dims == seq![marks.dims[0], marks.dims[1], 1]
            &&& column.cells == marks.cells
            &&& is_broadcast_product(x, column, trace.kept)
            &&& is_sum_along(trace.kept, 1, trace.summed)
            &&& is_sum_along(column, 1, trace.counted)
            &&& is_clamped(
                trace.counted,
                0x3eb0_c6f7_a0b5_ed8d,
                0x47ef_ffff_e000_0000,
                trace.counts,
            )
            &&& is_broadcast_quotient(trace.summed, trace.counts, y)
        }),
{
    let trace = choose|trace: MeanTrace| #[trigger] mean_through(x, marks, trace, y);
    assert(unsqueezed(marks, 2).dims =~= seq![marks.dims[0], marks.dims[1], 1]);
    (unsqueezed(marks, 2), trace)
}

} // verus!
