use vstd::prelude::*;

verus! {

/// Shape of a fully connected layer: it maps `d_input` features to `d_output` features.
#[derive(Clone, Copy, Debug, PartialEq, Eq)]
pub struct LinearShape {
    pub d_input: usize,
    pub d_output: usize,
}

impl LinearShape {
    pub fn new(d_input: usize, d_output: usize) -> (shape: LinearShape)
        ensures
            shape.d_input == d_input,
            shape.d_output == d_output,
    {
        LinearShape { d_input, d_output }
    }
}

/// A stack of layers that can be applied one after another to rows of
/// `input` features and yields rows of `output` features.
pub open spec fn chains(layers: Seq<LinearShape>, input: usize, output: usize) -> bool {
    &&& layers.len() > 0
    &&& layers[0].d_input == input
    &&& layers.last().d_output == output
    &&& forall|k: int| 0 <= k < layers.len() - 1 ==> #[trigger] layers[k].d_output == layers[k + 1].d_input
}

} // verus!
