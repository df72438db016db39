use vstd::prelude::*;

use crate::data::commons::{coords, lemma_coords_layout};
use crate::gan::data::{xs, ys};

verus! {

/// Training epochs between two looks at what the generator draws.
pub const SNAPSHOT_EVERY: usize = 10;

/// The network whose weights a training iteration updates.
#[derive(Clone, Copy, Debug, PartialEq, Eq)]
pub enum Network {
    Generator,
    Discriminator,
}

/// Generator and discriminator take turns: even iterations (counted from 0)
/// update the generator, odd ones the discriminator.
pub fn network_to_update(iteration: usize) -> (network: Network)
    ensures
        network == (if iteration % 2 == 0 {
            Network::Generator
        } else {
            Network::Discriminator
        }),
{
    if iteration % 2 == 0 {
        Network::Generator
    } else {
        Network::Discriminator
    }
}

/// Reads the rows of a flat `[rows, 2]` buffer as points: the values at even
/// positions are the `x`, those at odd positions the `y` coordinates.
pub fn split_xy<T: Copy>(values: &Vec<T>) -> (columns: (Vec<T>, Vec<T>))
    ensures
        columns.0.len() == (values.len() + 1) / 2,
        columns.1.len() == values.len() / 2,
        forall|i: int| 0 <= i < columns.0.len() ==> #[trigger] columns.0@[i] == values@[2 * i],
        forall|i: int| 0 <= i < columns.1.len() ==> #[trigger] columns.1@[i] == values@[2 * i + 1],
{
    let mut x: Vec<T> = Vec::new();
    let mut y: Vec<T> = Vec::new();
    let mut i: usize = 0;
    while i < values.len()
        invariant
            i <= values.len(),
            x.len() == (i + 1) / 2,
            y.len() == i / 2,
            forall|k: int| 0 <= k < x.len() ==> #[trigger] x@[k] == values@[2 * k],
            forall|k: int| 0 <= k < y.len() ==> #[trigger] y@[k] == values@[2 * k + 1],
        decreases values.len() - i,
    {
        if i % 2 == 0 {
            x.push(values[i]);
        } else {
            y.push(values[i]);
        }
        i = i + 1;
    }
    (x, y)
}

/// Reading the flat output of the generator back into columns gives the `x`
/// and `y` coordinates of the points it was laid out from.
pub proof fn lemma_split_inverts_coords<T>(points: Seq<(T, T)>)
    ensures
        (coords(points).len() + 1) / 2 == points.len(),
        coords(points).len() / 2 == points.len(),
        forall|i: int| 0 <= i < points.len() ==> coords(points)[2 * i] == #[trigger] xs(points)[i],
        forall|i: int|
            0 <= i < points.len() ==> coords(points)[2 * i + 1] == #[trigger] ys(points)[i],
{
    lemma_coords_layout(points);
}

} // verus!
