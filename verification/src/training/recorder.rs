use vstd::prelude::*;

verus! {

/// Most points drawn per distribution, to keep a plot legible.
pub const MAX_PLOT_POINTS: usize = 250;

/// Drops every point past the first [`MAX_PLOT_POINTS`].
pub fn clip_plot_points<T>(points: &mut Vec<T>)
    ensures
        final(points)@ == (if old(points)@.len() <= MAX_PLOT_POINTS {
            old(points)@
        } else {
            old(points)@.take(MAX_PLOT_POINTS as int)
        }),
{
    points.truncate(MAX_PLOT_POINTS);
}

/// A plot with a slider over `n` recorded epochs holds `n + 1` traces: trace 0
/// (the fixed reference) and one trace per epoch. Trace `1 + i` belongs to
/// epoch `i`; before the slider is touched only the last epoch's trace shows.
pub fn epoch_trace_visible(i: usize, n: usize) -> (visible: bool)
    ensures
        visible == (i + 1 == n),
{
    n > 0 && i == n - 1
}

/// Which traces slider step `step` shows: the reference trace and the trace of
/// epoch `step`, nothing else.
pub fn step_visibility(step: usize, n: usize) -> (visible: Vec<bool>)
    requires
        n < usize::MAX,
    ensures
        visible.len() == n + 1,
        visible@[0],
        forall|j: int| 0 <= j < n ==> #[trigger] visible@[j + 1] == (j == step),
{
    let mut visible: Vec<bool> = Vec::new();
    visible.push(true);
    let mut j: usize = 0;
    while j < n
        invariant
            j <= n,
            visible.len() == j + 1,
            visible@[0],
            forall|k: int| 0 <= k < j ==> #[trigger] visible@[k + 1] == (k == step),
        decreases n - j,
    {
        visible.push(j == step);
        j = j + 1;
    }
    visible
}

/// The visibility of every slider step, one per recorded epoch.
pub fn slider_visibility(n: usize) -> (steps: Vec<Vec<bool>>)
    requires
        n < usize::MAX,
    ensures
        steps.len() == n,
        forall|i: int|
            0 <= i < n ==> {
                let v = #[trigger] steps@[i]@;
                &&& v.len() == n + 1
                &&& v[0]
                &&& forall|j: int| 0 <= j < n ==> #[trigger] v[j + 1] == (j == i)
            },
{
    let mut steps: Vec<Vec<bool>> = Vec::new();
    let mut i: usize = 0;
    while i < n
        invariant
            i <= n,
            n < usize::MAX,
            steps.len() == i,
            forall|k: int|
                0 <= k < i ==> {
                    let v = #[trigger] steps@[k]@;
                    &&& v.len() == n + 1
                    &&& v[0]
                    &&& forall|j: int| 0 <= j < n ==> #[trigger] v[j + 1] == (j == k)
                },
        decreases n - i,
    {
        steps.push(step_visibility(i, n));
        i = i + 1;
    }
    steps
}

/// The step the slider starts on: the last one, or step 0 when nothing was recorded.
pub open spec fn spec_slider_active(n: usize) -> i32 {
    ((if n == 0 { 1 } else { n }) as i32 - 1) as i32
}

/// Index of the step the slider starts on, as the plotting side takes it (an
/// `i32`: the count is narrowed, wrapping, to 32 bits first).
pub fn slider_active(n: usize) -> (active: i32)
    requires
        (if n == 0 { 1 } else { n }) as i32 > i32::MIN,
    ensures
        active == spec_slider_active(n),
{
    let at_least_one: usize = if n == 0 { 1 } else { n };
    let narrowed: i32 = at_least_one as i32;
    narrowed - 1
}

/// What the plot shows before the slider is touched agrees with the step the
/// slider starts on: for any number of epochs that fits the slider index, the
/// starting step shows exactly the traces that start visible.
pub proof fn lemma_initial_view_matches_active_step(n: usize, j: int)
    requires
        0 < n <= i32::MAX,
        0 <= j < n,
    ensures
        0 <= spec_slider_active(n) < n,
        (j == spec_slider_active(n)) == (j + 1 == n),
{
}

/// How many entries of `s` are `true`.
pub open spec fn count_visible(s: Seq<bool>) -> nat
    decreases s.len(),
{
    if s.len() == 0 {
        0
    } else {
        count_visible(s.drop_last()) + if s.last() {
            1nat
        } else {
            0
        }
    }
}

proof fn lemma_count_visible_prefix(visible: Seq<bool>, step: int, n: int, k: int)
    requires
        0 <= step < n,
        0 <= k <= n,
        visible.len() == n + 1,
        visible[0],
        forall|j: int| 0 <= j < n ==> #[trigger] visible[j + 1] == (j == step),
    ensures
        count_visible(visible.take(k + 1)) == 1 + (if step < k {
            1nat
        } else {
            0
        }),
    decreases k,
{
    if k == 0 {
        assert(visible.take(1).drop_last() =~= Seq::<bool>::empty());
        assert(visible.take(1).last() == visible[0]);
        assert(count_visible(Seq::<bool>::empty()) == 0);
    } else {
        lemma_count_visible_prefix(visible, step, n, k - 1);
        assert(visible.take(k + 1).drop_last() =~= visible.take(k));
        assert(visible.take(k + 1).last() == visible[(k - 1) + 1]);
    }
}

/// Every slider step shows exactly two traces: the reference and one epoch.
pub proof fn lemma_step_shows_two_traces(visible: Seq<bool>, step: int, n: int)
    requires
        0 <= step < n,
        visible.len() == n + 1,
        visible[0],
        forall|j: int| 0 <= j < n ==> #[trigger] visible[j + 1] == (j == step),
    ensures
        count_visible(visible) == 2,
{
    lemma_count_visible_prefix(visible, step, n, n);
    assert(visible.take(n + 1) =~= visible);
}

} // verus!
