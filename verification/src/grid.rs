//! A mathematical model of tensors: sizes per axis, and the elements in row-major order.
use vstd::prelude::*;

verus! {

/// What a tensor of 32-bit floats holds. `dims` gives the size of each axis. `cells` gives the
/// bit pattern of each element, the last axis running fastest.
#[verifier::ext_equal]
pub struct Grid {
    pub dims: Seq<usize>,
    pub cells: Seq<u32>,
}

/// The number of elements of a grid with these sizes.
pub open spec fn volume(dims: Seq<usize>) -> nat
    decreases dims.len(),
{
    if dims.len() == 0 {
        1
    } else {
        dims[0] as nat * volume(dims.drop_first())
    }
}

/// Where the element with coordinates `at` stands in row-major order.
pub open spec fn position(dims: Seq<usize>, at: Seq<int>) -> int
    decreases dims.len(),
{
    if dims.len() == 0 {
        0
    } else {
        at[0] * volume(dims.drop_first()) + position(dims.drop_first(), at.drop_first())
    }
}

/// The coordinates of the element that stands at `place` in row-major order.
pub open spec fn coordinates(dims: Seq<usize>, place: int) -> Seq<int>
    decreases dims.len(),
{
    if dims.len() == 0 {
        Seq::empty()
    } else {
        let inner = volume(dims.drop_first()) as int;
        seq![place / inner] + coordinates(dims.drop_first(), place % inner)
    }
}

/// `s` with the entries at `a` and `b` exchanged.
pub open spec fn exchanged<A>(s: Seq<A>, a: int, b: int) -> Seq<A> {
    s.update(a, s[b]).update(b, s[a])
}

/// The same elements in the same order under other sizes.
pub open spec fn reshaped(g: Grid, dims: Seq<usize>) -> Grid {
    Grid { dims, cells: g.cells }
}

/// The grid with an axis of size one put in at `axis`.
pub open spec fn unsqueezed(g: Grid, axis: int) -> Grid {
    reshaped(g, g.dims.insert(axis, 1))
}

/// The grid with the axes `a` and `b` exchanged.
pub open spec fn transposed(g: Grid, a: int, b: int) -> Grid {
    let dims = exchanged(g.dims, a, b);
    Grid {
        dims,
        cells: Seq::new(
            volume(dims),
            |place: int| g.cells[position(g.dims, exchanged(coordinates(dims, place), a, b))],
        ),
    }
}

/// The grid cut down along `axis` to the `len` entries from `start` on.
pub open spec fn narrowed(g: Grid, axis: int, start: int, len: usize) -> Grid {
    let dims = g.dims.update(axis, len);
    Grid {
        dims,
        cells: Seq::new(
            volume(dims),
            |place: int|
                {
                    let at = coordinates(dims, place);
                    g.cells[position(g.dims, at.update(axis, at[axis] + start))]
                },
        ),
    }
}

/// Entry `i` along the first axis.
pub open spec fn entry(g: Grid, i: int) -> Grid {
    let rest = g.dims.drop_first();
    Grid { dims: rest, cells: Seq::new(volume(rest), |p: int| g.cells[i * volume(rest) + p]) }
}

/// Line `q` along the last axis.
pub open spec fn line(g: Grid, q: int) -> Seq<u32> {
    Seq::new(g.dims.last() as nat, |p: int| g.cells[q * g.dims.last() + p])
}

/// The number of lines along the last axis of each entry along the first one.
pub open spec fn lines_per_entry(dims: Seq<usize>) -> nat {
    volume(dims.drop_first().drop_last())
}

/// The part of a grid that meets entry `i` of a grid of `rank` axes: the entry with this number,
/// or the whole where it is stretched.
pub open spec fn lane(g: Grid, rank: int, i: int) -> Grid {
    if g.dims.len() < rank {
        g
    } else if g.dims[0] == 1 {
        entry(g, 0)
    } else {
        entry(g, i)
    }
}

/// The entries of `h` are entries of `g`: the first one is that with the number `from[0]`, and so
/// on.
pub open spec fn picks(h: Grid, g: Grid, from: Seq<int>) -> bool {
    &&& g.dims.len() >= 1
    &&& from.len() <= usize::MAX
    &&& h.dims == g.dims.update(0, from.len() as usize)
    &&& forall|i: int| 0 <= i < from.len() ==> 0 <= #[trigger] from[i] < g.dims[0]
    &&& forall|i: int| 0 <= i < from.len() ==> (#[trigger] entry(h, i)) == entry(g, from[i])
}

/// The entries of a grid with these numbers, in this order.
pub open spec fn picked(g: Grid, from: Seq<int>) -> Grid {
    let inner = volume(g.dims.drop_first()) as int;
    Grid {
        dims: g.dims.update(0, from.len() as usize),
        cells: Seq::new(
            (from.len() * inner) as nat,
            |p: int| g.cells[from[p / inner] * inner + p % inner],
        ),
    }
}

/// The size of axis `i` of `rank` axes, when the sizes in `dims` belong to the last of them.
pub open spec fn aligned(dims: Seq<usize>, rank: int, i: int) -> usize {
    if i < rank - dims.len() {
        1
    } else {
        dims[i - (rank - dims.len())]
    }
}

/// The rank of the result of an operation that stretches axes of size one.
pub open spec fn broadcast_rank(a: Seq<usize>, b: Seq<usize>) -> int {
    if a.len() < b.len() {
        b.len() as int
    } else {
        a.len() as int
    }
}

/// Whether the sizes agree, axis by axis from the last one on, up to axes of size one.
pub open spec fn compatible(a: Seq<usize>, b: Seq<usize>) -> bool {
    let rank = broadcast_rank(a, b);
    forall|i: int|
        0 <= i < rank ==> #[trigger] aligned(a, rank, i) == aligned(b, rank, i) || aligned(
            a,
            rank,
            i,
        ) == 1 || aligned(b, rank, i) == 1
}

/// The sizes of the result of an operation that stretches axes of size one.
pub open spec fn broadcast_dims(a: Seq<usize>, b: Seq<usize>) -> Seq<usize> {
    let rank = broadcast_rank(a, b);
    Seq::new(
        rank as nat,
        |i: int|
            if aligned(a, rank, i) == 1 {
                aligned(b, rank, i)
            } else {
                aligned(a, rank, i)
            },
    )
}

/// How many places a kernel of `kernel` taps finds along `len` entries that are padded on both
/// sides, taking every `stride`-th place and every `dilation`-th tap.
pub open spec fn conv_len(
    len: int,
    kernel: int,
    padding: int,
    stride: int,
    dilation: int,
) -> int {
    (len + 2 * padding - dilation * (kernel - 1) - 1) / stride + 1
}

/// No axis is empty.
pub open spec fn no_empty(dims: Seq<usize>) -> bool {
    forall|i: int| 0 <= i < dims.len() ==> (#[trigger] dims[i]) >= 1
}

/// The sizes `b` can be stretched to the sizes `a`: there are no more of them, and from the last
/// one on each is the same or one.
pub open spec fn stretches(b: Seq<usize>, a: Seq<usize>) -> bool {
    &&& b.len() <= a.len()
    &&& forall|i: int|
        0 <= i < a.len() ==> (#[trigger] aligned(b, a.len() as int, i)) == a[i] || aligned(
            b,
            a.len() as int,
            i,
        ) == 1
}

/// Stretching the sizes `b` to the sizes `a` is possible and keeps the sizes `a`. Where none of
/// these is empty, none of `b` is.
pub proof fn stretching_keeps(a: Seq<usize>, b: Seq<usize>)
    requires
        stretches(b, a),
    ensures
        compatible(a, b),
        broadcast_dims(a, b) == a,
        no_empty(a) ==> no_empty(b),
{
    let rank = a.len() as int;
    assert forall|i: int| 0 <= i < rank implies broadcast_dims(a, b)[i] == a[i] && (
    #[trigger] aligned(a, rank, i) == aligned(b, rank, i) || aligned(b, rank, i) == 1) by {
        assert(aligned(a, rank, i) == a[i]);
        assert(aligned(b, rank, i) == a[i] || aligned(b, rank, i) == 1);
    }
    assert(broadcast_dims(a, b) =~= a);
    if no_empty(a) {
        assert forall|j: int| 0 <= j < b.len() implies (#[trigger] b[j]) >= 1 by {
            let i = j + (rank - b.len());
            assert(aligned(b, rank, i) == b[j]);
            assert(a[i] >= 1);
        }
    }
}

/// Stretching leaves no axis empty where none was, and keeps the sizes `a` where the sizes `b` can
/// be stretched to them.
pub proof fn stretching_is_broadcasting(a: Seq<usize>, b: Seq<usize>)
    ensures
        stretches(b, a) ==> compatible(a, b) && broadcast_dims(a, b) == a,
        no_empty(a) && no_empty(b) ==> no_empty(broadcast_dims(a, b)),
        broadcast_dims(a, b).len() >= a.len(),
{
    if stretches(b, a) {
        stretching_keeps(a, b);
    }
    if no_empty(a) && no_empty(b) {
        let rank = broadcast_rank(a, b);
        assert forall|i: int| 0 <= i < rank implies (#[trigger] broadcast_dims(a, b)[i]) >= 1 by {
            if i >= rank - a.len() {
                assert(a[i - (rank - a.len())] >= 1);
            }
            if i >= rank - b.len() {
                assert(b[i - (rank - b.len())] >= 1);
            }
        }
    }
}

/// Stretching the axes of size one of `b` to the sizes of `a` is possible and keeps the sizes
/// of `a`.
pub proof fn broadcast_keeps(a: Seq<usize>, b: Seq<usize>)
    requires
        a.len() == b.len(),
        forall|i: int| 0 <= i < a.len() ==> (#[trigger] b[i]) == a[i] || b[i] == 1,
    ensures
        stretches(b, a),
        compatible(a, b),
        broadcast_dims(a, b) == a,
{
    assert forall|i: int| 0 <= i < a.len() implies (#[trigger] aligned(b, a.len() as int, i))
        == a[i] || aligned(b, a.len() as int, i) == 1 by {
        assert(aligned(b, a.len() as int, i) == b[i]);
    }
    stretching_keeps(a, b);
}

/// The product of the sizes can be counted, and so can the product of any number of them from
/// the first one on or down to the last one.
pub open spec fn products_fit(dims: Seq<usize>) -> bool {
    forall|i: int|
        0 <= i <= dims.len() ==> volume(#[trigger] dims.take(i)) <= usize::MAX && volume(
            dims.skip(i),
        ) <= usize::MAX
}

/// Where the product of three sizes can be counted and none is empty, so can all products on
/// the way.
pub proof fn products_of_three_fit(a: usize, b: usize, c: usize)
    requires
        a >= 1,
        b >= 1,
        a * (b * c) <= usize::MAX,
        a * b <= usize::MAX,
    ensures
        products_fit(seq![a, b, c]),
{
    let dims = seq![a, b, c];
    volume_of_three(a, b, c);
    volume_of_two(a, b);
    volume_of_two(b, c);
    volume_of_one(a);
    volume_of_one(c);
    assert(b * c <= a * (b * c)) by (nonlinear_arith)
        requires
            a >= 1,
            b >= 0,
            c >= 0,
    ;
    assert forall|i: int| 0 <= i <= dims.len() implies volume(#[trigger] dims.take(i))
        <= usize::MAX && volume(dims.skip(i)) <= usize::MAX by {
        if i == 0 {
            assert(dims.take(i) =~= Seq::<usize>::empty());
            assert(dims.skip(i) =~= dims);
        } else if i == 1 {
            assert(dims.take(i) =~= seq![a]);
            assert(dims.skip(i) =~= seq![b, c]);
        } else if i == 2 {
            assert(dims.take(i) =~= seq![a, b]);
            assert(dims.skip(i) =~= seq![c]);
        } else {
            assert(dims.take(i) =~= dims);
            assert(dims.skip(i) =~= Seq::<usize>::empty());
        }
    }
}

/// Where the product of four sizes and that of the first three can be counted, and none of the
/// first three is empty, so can all products on the way.
pub proof fn products_of_four_fit(a: usize, b: usize, c: usize, d: usize)
    requires
        a >= 1,
        b >= 1,
        c >= 1,
        a * (b * c) <= usize::MAX,
        a * (b * (c * d)) <= usize::MAX,
    ensures
        products_fit(seq![a, b, c, d]),
{
    let dims = seq![a, b, c, d];
    volume_of_four(a, b, c, d);
    volume_of_three(a, b, c);
    volume_of_three(b, c, d);
    volume_of_two(a, b);
    volume_of_two(c, d);
    volume_of_one(a);
    volume_of_one(d);
    assert(a * b <= a * (b * c)) by (nonlinear_arith)
        requires
            a >= 1,
            b >= 1,
            c >= 1,
    ;
    assert(b * (c * d) <= a * (b * (c * d)) && c * d <= b * (c * d)) by (nonlinear_arith)
        requires
            a >= 1,
            b >= 1,
            c * d >= 0,
    ;
    assert forall|i: int| 0 <= i <= dims.len() implies volume(#[trigger] dims.take(i))
        <= usize::MAX && volume(dims.skip(i)) <= usize::MAX by {
        if i == 0 {
            assert(dims.take(i) =~= Seq::<usize>::empty());
            assert(dims.skip(i) =~= dims);
        } else if i == 1 {
            assert(dims.take(i) =~= seq![a]);
            assert(dims.skip(i) =~= seq![b, c, d]);
        } else if i == 2 {
            assert(dims.take(i) =~= seq![a, b]);
            assert(dims.skip(i) =~= seq![c, d]);
        } else if i == 3 {
            assert(dims.take(i) =~= seq![a, b, c]);
            assert(dims.skip(i) =~= seq![d]);
        } else {
            assert(dims.take(i) =~= dims);
            assert(dims.skip(i) =~= Seq::<usize>::empty());
        }
    }
}
/// The number of elements of a vector.
pub proof fn volume_of_one(a: usize)
    ensures
        volume(seq![a]) == a,
{
    reveal_with_fuel(volume, 2);
    assert(seq![a].drop_first() =~= Seq::<usize>::empty());
    assert(volume(seq![a]) == a * 1);
}

/// The number of elements of a matrix.
pub proof fn volume_of_two(a: usize, b: usize)
    ensures
        volume(seq![a, b]) == a * b,
{
    reveal_with_fuel(volume, 3);
    assert(seq![a, b].drop_first() =~= seq![b]);
    assert(seq![b].drop_first() =~= Seq::<usize>::empty());
    assert(volume(seq![b]) == b * 1);
}

/// The number of elements of a grid of three axes.
pub proof fn volume_of_three(a: usize, b: usize, c: usize)
    ensures
        volume(seq![a, b, c]) == a * (b * c),
{
    reveal_with_fuel(volume, 2);
    assert(seq![a, b, c].drop_first() =~= seq![b, c]);
    volume_of_two(b, c);
}

/// The number of elements of a grid of four axes.
pub proof fn volume_of_four(a: usize, b: usize, c: usize, d: usize)
    ensures
        volume(seq![a, b, c, d]) == a * (b * (c * d)),
{
    reveal_with_fuel(volume, 2);
    assert(seq![a, b, c, d].drop_first() =~= seq![b, c, d]);
    volume_of_three(b, c, d);
}

/// Coordinates that lie within the sizes.
pub open spec fn within(dims: Seq<usize>, at: Seq<int>) -> bool {
    &&& at.len() == dims.len()
    &&& forall|i: int| 0 <= i < dims.len() ==> 0 <= #[trigger] at[i] < dims[i]
}

/// Every place has coordinates, and they lead back to the place.
pub proof fn coordinates_lead_back(dims: Seq<usize>, place: int)
    requires
        0 <= place < volume(dims),
    ensures
        within(dims, coordinates(dims, place)),
        position(dims, coordinates(dims, place)) == place,
    decreases dims.len(),
{
    if dims.len() > 0 {
        let rest = dims.drop_first();
        let inner = volume(rest) as int;
        let outer = dims[0] as int;
        assert(inner > 0) by (nonlinear_arith)
            requires
                0 <= place < outer * inner,
                outer >= 0,
                inner >= 0,
        ;
        vstd::arithmetic::div_mod::lemma_fundamental_div_mod(place, inner);
        vstd::arithmetic::div_mod::lemma_mod_bound(place, inner);
        vstd::arithmetic::div_mod::lemma_div_pos_is_pos(place, inner);
        let (quotient, remainder) = (place / inner, place % inner);
        assert(quotient < outer) by (nonlinear_arith)
            requires
                place == inner * quotient + remainder,
                0 <= remainder,
                place < outer * inner,
                inner > 0,
        ;
        coordinates_lead_back(rest, remainder);
        let at = coordinates(dims, place);
        assert(at.drop_first() =~= coordinates(rest, remainder));
        assert forall|i: int| 0 <= i < dims.len() implies 0 <= #[trigger] at[i] < dims[i] by {
            if i > 0 {
                assert(at[i] == coordinates(rest, remainder)[i - 1]);
                assert(rest[i - 1] == dims[i]);
            }
        }
        assert(quotient * inner == inner * quotient) by (nonlinear_arith);
    }
}

/// Every coordinates have a place, and it leads back to the coordinates.
pub proof fn position_leads_back(dims: Seq<usize>, at: Seq<int>)
    requires
        within(dims, at),
    ensures
        0 <= position(dims, at) < volume(dims),
        coordinates(dims, position(dims, at)) == at,
    decreases dims.len(),
{
    if dims.len() > 0 {
        let rest = dims.drop_first();
        let inner = volume(rest) as int;
        let outer = dims[0] as int;
        let tail = at.drop_first();
        assert forall|i: int| 0 <= i < rest.len() implies 0 <= #[trigger] tail[i] < rest[i] by {
            assert(tail[i] == at[i + 1]);
            assert(rest[i] == dims[i + 1]);
        }
        position_leads_back(rest, tail);
        let (first, inside) = (at[0], position(rest, tail));
        let place = first * inner + inside;
        assert(0 <= place < outer * inner) by (nonlinear_arith)
            requires
                place == first * inner + inside,
                0 <= first < outer,
                0 <= inside < inner,
        ;
        vstd::arithmetic::div_mod::lemma_fundamental_div_mod_converse(place, inner, first, inside);
        assert(coordinates(dims, place) =~= at);
    } else {
        assert(coordinates(dims, 0) =~= at);
    }
}

/// Exchanging the same two axes twice gives the grid back.
pub proof fn transposing_twice_gives_back(g: Grid, a: int, b: int)
    requires
        0 <= a < g.dims.len(),
        0 <= b < g.dims.len(),
        g.cells.len() == volume(g.dims),
    ensures
        transposed(transposed(g, a, b), a, b) == g,
{
    let dims = exchanged(g.dims, a, b);
    let once = transposed(g, a, b);
    let twice = transposed(once, a, b);
    assert(exchanged(dims, a, b) =~= g.dims);
    assert forall|place: int| 0 <= place < g.cells.len() implies twice.cells[place]
        == g.cells[place] by {
        let at = coordinates(g.dims, place);
        coordinates_lead_back(g.dims, place);
        let turned = exchanged(at, a, b);
        assert(within(dims, turned));
        position_leads_back(dims, turned);
        assert(exchanged(turned, a, b) =~= at);
        assert(twice.cells[place] == once.cells[position(dims, turned)]);
    }
    assert(twice.cells =~= g.cells);
    assert(twice =~= g);
}

/// Place `j` of row `i` among rows of `width` places.
pub proof fn place_in_row(i: int, j: int, rows: int, width: int)
    requires
        0 <= i < rows,
        0 <= j < width,
    ensures
        0 <= i * width + j < rows * width,
        (i * width + j) / width == i,
        (i * width + j) % width == j,
{
    assert(0 <= i * width + j < rows * width) by (nonlinear_arith)
        requires
            0 <= i < rows,
            0 <= j < width,
    ;
    vstd::arithmetic::div_mod::lemma_fundamental_div_mod_converse(i * width + j, width, i, j);
}

/// What is picked is made of the entries with these numbers.
pub proof fn picking_picks(g: Grid, from: Seq<int>)
    requires
        g.dims.len() >= 1,
        from.len() <= usize::MAX,
        forall|i: int| 0 <= i < from.len() ==> 0 <= #[trigger] from[i] < g.dims[0],
    ensures
        picks(picked(g, from), g, from),
{
    let h = picked(g, from);
    let rest = g.dims.drop_first();
    let inner = volume(rest) as int;
    assert(h.dims.drop_first() =~= rest);
    assert forall|i: int| 0 <= i < from.len() implies (#[trigger] entry(h, i)) == entry(
        g,
        from[i],
    ) by {
        assert forall|p: int| 0 <= p < inner implies entry(h, i).cells[p] == entry(
            g,
            from[i],
        ).cells[p] by {
            place_in_row(i, p, from.len() as int, inner);
        }
        assert(entry(h, i).cells =~= entry(g, from[i]).cells);
    }
}

/// Where the elements of a grid with coordinates `at` behind the first axis stand.
proof fn position_behind_first(dims: Seq<usize>, first: int, at: Seq<int>)
    requires
        dims.len() >= 1,
    ensures
        position(dims, seq![first] + at) == first * volume(dims.drop_first()) + position(
            dims.drop_first(),
            at,
        ),
{
    assert((seq![first] + at).drop_first() =~= at);
}

/// The coordinates of an element that stands at place `p` of entry `first`.
proof fn coordinates_behind_first(dims: Seq<usize>, first: int, p: int)
    requires
        dims.len() >= 1,
        0 <= first < dims[0],
        0 <= p < volume(dims.drop_first()),
    ensures
        0 <= first * volume(dims.drop_first()) + p < volume(dims),
        coordinates(dims, first * volume(dims.drop_first()) + p) == seq![first] + coordinates(
            dims.drop_first(),
            p,
        ),
{
    place_in_row(first, p, dims[0] as int, volume(dims.drop_first()) as int);
}

/// Axes behind the first one are exchanged in each entry by itself.
pub proof fn transposing_goes_by_entry(g: Grid, a: int, b: int, i: int)
    requires
        1 <= a < g.dims.len(),
        1 <= b < g.dims.len(),
        0 <= i < g.dims[0],
    ensures
        entry(transposed(g, a, b), i) == transposed(entry(g, i), a - 1, b - 1),
{
    let dims = exchanged(g.dims, a, b);
    let (old_rest, rest) = (g.dims.drop_first(), dims.drop_first());
    assert(rest =~= exchanged(old_rest, a - 1, b - 1));
    let (left, right) = (entry(transposed(g, a, b), i), transposed(entry(g, i), a - 1, b - 1));
    assert forall|p: int| 0 <= p < volume(rest) implies left.cells[p] == right.cells[p] by {
        coordinates_behind_first(dims, i, p);
        coordinates_lead_back(rest, p);
        let at = coordinates(rest, p);
        let back = exchanged(at, a - 1, b - 1);
        assert(exchanged(seq![i] + at, a, b) =~= seq![i] + back);
        position_behind_first(g.dims, i, back);
        assert(within(old_rest, back)) by {
            assert forall|k: int| 0 <= k < old_rest.len() implies 0 <= #[trigger] back[k]
                < old_rest[k] by {
                assert(0 <= at[k] < rest[k]);
                assert(0 <= at[a - 1] < rest[a - 1] && 0 <= at[b - 1] < rest[b - 1]);
            }
        }
        position_leads_back(old_rest, back);
    }
    assert(left.cells =~= right.cells);
}

/// An axis behind the first one is cut down in each entry by itself.
pub proof fn narrowing_goes_by_entry(g: Grid, axis: int, start: int, len: usize, i: int)
    requires
        1 <= axis < g.dims.len(),
        0 <= start,
        start + len <= g.dims[axis],
        0 <= i < g.dims[0],
    ensures
        entry(narrowed(g, axis, start, len), i) == narrowed(entry(g, i), axis - 1, start, len),
{
    let dims = g.dims.update(axis, len);
    let (old_rest, rest) = (g.dims.drop_first(), dims.drop_first());
    assert(rest =~= old_rest.update(axis - 1, len));
    let left = entry(narrowed(g, axis, start, len), i);
    let right = narrowed(entry(g, i), axis - 1, start, len);
    assert forall|p: int| 0 <= p < volume(rest) implies left.cells[p] == right.cells[p] by {
        coordinates_behind_first(dims, i, p);
        coordinates_lead_back(rest, p);
        let at = coordinates(rest, p);
        let back = at.update(axis - 1, at[axis - 1] + start);
        let whole = seq![i] + at;
        assert(whole.update(axis, whole[axis] + start) =~= seq![i] + back);
        position_behind_first(g.dims, i, back);
        assert(within(old_rest, back)) by {
            assert forall|k: int| 0 <= k < old_rest.len() implies 0 <= #[trigger] back[k]
                < old_rest[k] by {
                assert(0 <= at[k] < rest[k]);
            }
        }
        position_leads_back(old_rest, back);
    }
    assert(left.cells =~= right.cells);
}

/// Exchanging axes behind the first one goes with picking entries.
pub proof fn transposed_picks(h: Grid, g: Grid, from: Seq<int>, a: int, b: int)
    requires
        picks(h, g, from),
        1 <= a < g.dims.len(),
        1 <= b < g.dims.len(),
    ensures
        picks(transposed(h, a, b), transposed(g, a, b), from),
{
    assert(transposed(h, a, b).dims =~= transposed(g, a, b).dims.update(0, from.len() as usize));
    assert forall|i: int| 0 <= i < from.len() implies (#[trigger] entry(transposed(h, a, b), i))
        == entry(transposed(g, a, b), from[i]) by {
        assert(entry(h, i) == entry(g, from[i]));
        transposing_goes_by_entry(h, a, b, i);
        transposing_goes_by_entry(g, a, b, from[i]);
    }
}

/// Cutting down an axis behind the first one goes with picking entries.
pub proof fn narrowed_picks(h: Grid, g: Grid, from: Seq<int>, axis: int, len: usize)
    requires
        picks(h, g, from),
        1 <= axis < g.dims.len(),
        len <= g.dims[axis],
    ensures
        picks(narrowed(h, axis, 0, len), narrowed(g, axis, 0, len), from),
{
    let (cut_h, cut_g) = (narrowed(h, axis, 0, len), narrowed(g, axis, 0, len));
    assert(cut_h.dims =~= cut_g.dims.update(0, from.len() as usize));
    assert forall|i: int| 0 <= i < from.len() implies (#[trigger] entry(cut_h, i)) == entry(
        cut_g,
        from[i],
    ) by {
        assert(entry(h, i) == entry(g, from[i]));
        narrowing_goes_by_entry(h, axis, 0, len, i);
        narrowing_goes_by_entry(g, axis, 0, len, from[i]);
    }
}

/// Other sizes behind the first axis go with picking entries.
pub proof fn reshaped_picks(h: Grid, g: Grid, from: Seq<int>, dims: Seq<usize>)
    requires
        picks(h, g, from),
        dims.len() >= 1,
        dims[0] == g.dims[0],
        volume(dims.drop_first()) == volume(g.dims.drop_first()),
    ensures
        picks(reshaped(h, dims.update(0, from.len() as usize)), reshaped(g, dims), from),
{
    let other = dims.update(0, from.len() as usize);
    assert(other.drop_first() =~= dims.drop_first());
    assert(h.dims.drop_first() =~= g.dims.drop_first());
    assert forall|i: int| 0 <= i < from.len() implies (#[trigger] entry(reshaped(h, other), i))
        == entry(reshaped(g, dims), from[i]) by {
        assert(entry(h, i) == entry(g, from[i]));
        assert(entry(reshaped(h, other), i).cells =~= entry(h, i).cells);
        assert(entry(reshaped(g, dims), from[i]).cells =~= entry(g, from[i]).cells);
    }
}

/// An axis of size one adds no elements.
proof fn volume_with_a_one(dims: Seq<usize>, axis: int)
    requires
        0 <= axis <= dims.len(),
    ensures
        volume(dims.insert(axis, 1)) == volume(dims),
    decreases axis,
{
    let more = dims.insert(axis, 1);
    if axis == 0 {
        assert(more.drop_first() =~= dims);
        assert(more[0] == 1);
    } else {
        assert(more[0] == dims[0]);
        assert(more.drop_first() =~= dims.drop_first().insert(axis - 1, 1));
        volume_with_a_one(dims.drop_first(), axis - 1);
    }
}

/// A new axis of size one behind the first one goes with picking entries.
pub proof fn unsqueezed_picks(h: Grid, g: Grid, from: Seq<int>, axis: int)
    requires
        picks(h, g, from),
        1 <= axis <= g.dims.len(),
    ensures
        picks(unsqueezed(h, axis), unsqueezed(g, axis), from),
{
    let dims = g.dims.insert(axis, 1);
    assert(dims.drop_first() =~= g.dims.drop_first().insert(axis - 1, 1));
    volume_with_a_one(g.dims.drop_first(), axis - 1);
    assert(h.dims.insert(axis, 1) =~= dims.update(0, from.len() as usize));
    reshaped_picks(h, g, from, dims);
}

/// The parts that meet go with picking entries.
pub proof fn lane_picks(h: Grid, g: Grid, from: Seq<int>, i: int)
    requires
        picks(h, g, from),
        0 <= i < from.len(),
    ensures
        lane(h, g.dims.len() as int, i) == lane(g, g.dims.len() as int, from[i]),
{
    assert(entry(h, i) == entry(g, from[i]));
}

/// The sizes of an operation that stretches axes go with picking entries of both sides.
pub proof fn broadcast_dims_pick(a: Seq<usize>, b: Seq<usize>, n: usize)
    requires
        a.len() == b.len(),
        a.len() >= 1,
        a[0] == b[0],
        compatible(a, b),
    ensures
        compatible(a.update(0, n), b.update(0, n)),
        broadcast_dims(a.update(0, n), b.update(0, n)) == broadcast_dims(a, b).update(0, n),
        broadcast_dims(a, b)[0] == a[0],
{
    let rank = a.len() as int;
    let (more_a, more_b) = (a.update(0, n), b.update(0, n));
    assert(broadcast_rank(a, b) == rank);
    assert forall|i: int| 0 <= i < rank implies #[trigger] aligned(more_a, rank, i) == aligned(
        more_b,
        rank,
        i,
    ) || aligned(more_a, rank, i) == 1 || aligned(more_b, rank, i) == 1 by {
        assert(aligned(a, rank, i) == aligned(b, rank, i) || aligned(a, rank, i) == 1 || aligned(
            b,
            rank,
            i,
        ) == 1);
    }
    assert(broadcast_dims(more_a, more_b) =~= broadcast_dims(a, b).update(0, n));
}

} // verus!
