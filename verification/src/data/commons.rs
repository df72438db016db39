use vstd::prelude::*;

verus! {

broadcast use vstd::seq_lib::group_seq_properties;

/// The coordinates of an outline laid out flat: `x0, y0, x1, y1, ...`.
pub open spec fn coords<T>(outline: Seq<(T, T)>) -> Seq<T>
    decreases outline.len(),
{
    if outline.len() == 0 {
        Seq::empty()
    } else {
        coords(outline.drop_last()) + seq![outline.last().0, outline.last().1]
    }
}

/// Outlines flattened one after another into a single row-major buffer.
pub open spec fn spec_flatten_outlines<T>(outlines: Seq<Vec<(T, T)>>) -> Seq<T> {
    outlines.map_values(|outline: Vec<(T, T)>| coords(outline@)).flatten()
}

/// Every outline holds `n` points.
pub open spec fn all_have_points<T>(outlines: Seq<Vec<(T, T)>>, n: nat) -> bool {
    forall|r: int| 0 <= r < outlines.len() ==> (#[trigger] outlines[r])@.len() == n
}

/// The flat layout holds both coordinates of every point, `x` at even and `y`
/// at odd positions.
pub proof fn lemma_coords_layout<T>(outline: Seq<(T, T)>)
    ensures
        coords(outline).len() == 2 * outline.len(),
        forall|k: int|
            0 <= k < outline.len() ==> coords(outline)[2 * k] == (#[trigger] outline[k]).0
                && coords(outline)[2 * k + 1] == outline[k].1,
    decreases outline.len(),
{
    if outline.len() > 0 {
        let d = outline.drop_last();
        lemma_coords_layout(d);
        assert forall|k: int| 0 <= k < outline.len() implies coords(outline)[2 * k] == (
        #[trigger] outline[k]).0 && coords(outline)[2 * k + 1] == outline[k].1 by {
            if k < d.len() {
                assert(d[k] == outline[k]);
            }
        }
    }
}

proof fn lemma_flatten_outlines_step<T>(outlines: Seq<Vec<(T, T)>>, r: int)
    requires
        0 <= r < outlines.len(),
    ensures
        spec_flatten_outlines(outlines.take(r + 1)) == spec_flatten_outlines(outlines.take(r))
            + coords(outlines[r]@),
{
    broadcast use Seq::lemma_flatten_push;

    let f = |outline: Vec<(T, T)>| coords(outline@);
    assert(outlines.take(r + 1).map_values(f) =~= outlines.take(r).map_values(f).push(
        f(outlines[r]),
    ));
}

/// Flattens a batch of outlines into one buffer: row `r` of the batch holds the
/// coordinates `x0, y0, x1, y1, ...` of outline `r`.
pub fn flatten_outlines<T: Copy>(outlines: &Vec<Vec<(T, T)>>) -> (flat: Vec<T>)
    ensures
        flat@ == spec_flatten_outlines(outlines@),
{
    let mut flat: Vec<T> = Vec::new();
    let mut r: usize = 0;
    while r < outlines.len()
        invariant
            r <= outlines.len(),
            flat@ == spec_flatten_outlines(outlines@.take(r as int)),
        decreases outlines.len() - r,
    {
        let outline = &outlines[r];
        let ghost before = flat@;
        let mut k: usize = 0;
        while k < outline.len()
            invariant
                k <= outline.len(),
                flat@ == before + coords(outline@.take(k as int)),
            decreases outline.len() - k,
        {
            let (x, y) = outline[k];
            flat.push(x);
            flat.push(y);
            proof {
                assert(outline@.take(k + 1).drop_last() =~= outline@.take(k as int));
                assert(flat@ =~= before + coords(outline@.take(k + 1)));
            }
            k = k + 1;
        }
        proof {
            assert(outline@.take(k as int) =~= outline@);
            lemma_flatten_outlines_step(outlines@, r as int);
        }
        r = r + 1;
    }
    assert(outlines@.take(r as int) =~= outlines@);
    flat
}

/// Rows of equal length `m` flatten into `rows.len() * m` values, and value
/// `d` of row `i` lands at position `i * m + d`.
pub proof fn lemma_flatten_uniform_rows<T>(rows: Seq<Seq<T>>, m: nat)
    requires
        forall|i: int| 0 <= i < rows.len() ==> (#[trigger] rows[i]).len() == m,
    ensures
        rows.flatten().len() == rows.len() * m,
        forall|i: int, d: int|
            0 <= i < rows.len() && 0 <= d < m ==> rows.flatten()[i * m + d] == #[trigger] rows[i][d],
    decreases rows.len(),
{
    broadcast use Seq::lemma_flatten_push;

    if rows.len() == 0 {
        assert(rows.len() * m == 0) by (nonlinear_arith)
            requires
                rows.len() == 0,
        ;
    } else {
        let init = rows.drop_last();
        lemma_flatten_uniform_rows(init, m);
        assert(rows =~= init.push(rows.last()));
        assert(rows.len() * m == init.len() * m + m) by (nonlinear_arith)
            requires
                rows.len() == init.len() + 1,
        ;
        assert forall|i: int, d: int| 0 <= i < rows.len() && 0 <= d < m implies rows.flatten()[i
            * m + d] == #[trigger] rows[i][d] by {
            if i < init.len() {
                assert(i * m + d < init.len() * m) by (nonlinear_arith)
                    requires
                        i < init.len(),
                        d < m,
                ;
                assert(init[i] == rows[i]);
            } else {
                assert(i * m == init.len() * m) by (nonlinear_arith)
                    requires
                        i == init.len(),
                ;
            }
        }
    }
}

/// A batch of `rows` outlines of `n` points each flattens into `rows * 2n`
/// values, and the `2n` values of row `r` are exactly the coordinates of
/// outline `r`.
pub proof fn lemma_flatten_outlines_rows<T>(outlines: Seq<Vec<(T, T)>>, n: nat)
    requires
        all_have_points(outlines, n),
    ensures
        spec_flatten_outlines(outlines).len() == outlines.len() * (2 * n),
        forall|r: int|
            0 <= r < outlines.len() ==> spec_flatten_outlines(outlines).subrange(
                r * (2 * n),
                r * (2 * n) + 2 * n,
            ) == coords((#[trigger] outlines[r])@),
{
    let m = 2 * n;
    let rows = outlines.map_values(|outline: Vec<(T, T)>| coords(outline@));
    assert forall|i: int| 0 <= i < rows.len() implies (#[trigger] rows[i]).len() == m by {
        lemma_coords_layout(outlines[i]@);
    }
    lemma_flatten_uniform_rows(rows, m);
    let all = spec_flatten_outlines(outlines);
    assert forall|r: int| 0 <= r < outlines.len() implies all.subrange(r * m, r * m + m) == coords(
        (#[trigger] outlines[r])@,
    ) by {
        assert(r * m + m <= outlines.len() * m) by (nonlinear_arith)
            requires
                r < outlines.len(),
        ;
        assert forall|d: int| 0 <= d < m implies all.subrange(r * m, r * m + m)[d] == rows[r][d] by {
            assert(all[r * m + d] == rows[r][d]);
        }
        assert(all.subrange(r * m, r * m + m) =~= rows[r]);
    }
}

/// Splits a flat buffer into consecutive rows of `cols` values; values left
/// over after the last full row are dropped.
pub fn chunk_rows<T: Copy>(flat: &Vec<T>, cols: usize) -> (rows: Vec<Vec<T>>)
    requires
        cols > 0,
    ensures
        rows.len() == (flat.len() as int) / (cols as int),
        forall|r: int|
            0 <= r < rows.len() ==> (#[trigger] rows[r])@ == flat@.subrange(
                r * cols,
                r * cols + cols,
            ),
{
    let mut rows: Vec<Vec<T>> = Vec::new();
    let mut start: usize = 0;
    assert(rows.len() * cols == 0) by (nonlinear_arith)
        requires
            rows.len() == 0,
    ;
    while flat.len() - start >= cols
        invariant
            cols > 0,
            start <= flat.len(),
            start == rows.len() * cols,
            forall|r: int|
                0 <= r < rows.len() ==> (#[trigger] rows[r])@ == flat@.subrange(
                    r * cols,
                    r * cols + cols,
                ),
        decreases flat.len() - start,
    {
        let mut row: Vec<T> = Vec::new();
        let mut c: usize = 0;
        while c < cols
            invariant
                c <= cols,
                start + cols <= flat.len(),
                row@ == flat@.subrange(start as int, start + c),
            decreases cols - c,
        {
            row.push(flat[start + c]);
            c = c + 1;
            assert(row@ =~= flat@.subrange(start as int, start + c));
        }
        let ghost n = rows.len();
        rows.push(row);
        assert((n + 1) * cols == n * cols + cols) by (nonlinear_arith);
        start = start + cols;
    }
    let ghost n = rows.len();
    assert((flat.len() as int) / (cols as int) == n) by (nonlinear_arith)
        requires
            n * cols <= flat.len(),
            flat.len() < n * cols + cols,
            cols > 0,
    ;
    rows
}

/// Cutting a batch of flattened outlines into rows of `2n` values gives back,
/// row by row, the coordinates of each outline.
pub proof fn lemma_chunk_inverts_flatten<T>(outlines: Seq<Vec<(T, T)>>, n: nat, r: int)
    requires
        all_have_points(outlines, n),
        n > 0,
        0 <= r < outlines.len(),
    ensures
        (spec_flatten_outlines(outlines).len() as int) / (2 * n as int) == outlines.len(),
        spec_flatten_outlines(outlines).subrange(r * (2 * n), r * (2 * n) + 2 * n) == coords(
            outlines[r]@,
        ),
{
    lemma_flatten_outlines_rows(outlines, n);
    let len = outlines.len();
    assert((len * (2 * n)) as int / (2 * n as int) == len) by (nonlinear_arith)
        requires
            n > 0,
    ;
}

// --- Grid of subplots ---
/// Rows of the subplot grid.
pub const GRID_ROWS: usize = 2;

/// Columns of the subplot grid.
pub const GRID_COLS: usize = 3;

/// Side length, in pixels, of one subplot.
pub const SUBPLOT_PX: usize = 400;

/// Width and height in pixels of the whole grid figure.
pub fn grid_figure_size() -> (size: (usize, usize))
    ensures
        size.0 == SUBPLOT_PX * GRID_COLS,
        size.1 == SUBPLOT_PX * GRID_ROWS,
{
    (SUBPLOT_PX * GRID_COLS, SUBPLOT_PX * GRID_ROWS)
}

/// Number in the names of the axes of subplot `i`: the first subplot's axes
/// are plain `x`/`y` (no number), the others are `x2`/`y2` .. `x6`/`y6`.
pub fn subplot_axis_number(i: usize) -> (number: Option<usize>)
    requires
        i < GRID_ROWS * GRID_COLS,
    ensures
        i == 0 ==> number is None,
        i > 0 ==> number == Some((i + 1) as usize),
{
    if i == 0 {
        None
    } else {
        Some(i + 1)
    }
}

} // verus!
