use vstd::prelude::*;

verus! {

/// The first coordinates of the points, in order.
pub open spec fn xs<T>(points: Seq<(T, T)>) -> Seq<T> {
    points.map_values(|p: (T, T)| p.0)
}

/// The second coordinates of the points, in order.
pub open spec fn ys<T>(points: Seq<(T, T)>) -> Seq<T> {
    points.map_values(|p: (T, T)| p.1)
}

/// Splits points into the column of their `x` and the column of their `y` coordinates.
pub fn to_xy<T: Copy>(points: &Vec<(T, T)>) -> (columns: (Vec<T>, Vec<T>))
    ensures
        columns.0@ == xs(points@),
        columns.1@ == ys(points@),
{
    let mut x: Vec<T> = Vec::new();
    let mut y: Vec<T> = Vec::new();
    let mut i: usize = 0;
    while i < points.len()
        invariant
            i <= points.len(),
            x@ == xs(points@.take(i as int)),
            y@ == ys(points@.take(i as int)),
        decreases points.len() - i,
    {
        let (px, py) = points[i];
        x.push(px);
        y.push(py);
        i = i + 1;
        assert(x@ =~= xs(points@.take(i as int)));
        assert(y@ =~= ys(points@.take(i as int)));
    }
    assert(points@.take(i as int) =~= points@);
    (x, y)
}

} // verus!
