use vstd::prelude::*;

use crate::models::generator::GeneratorConfig;
use crate::models::shapes::{chains, LinearShape};

verus! {

/// Dimensions of the discriminator network: input width and the widths of its
/// two hidden layers. Its last layer always yields a single score per row.
#[derive(Clone, Copy, Debug, PartialEq, Eq)]
pub struct DiscriminatorConfig {
    pub input_dim: usize,
    pub h1_dim: usize,
    pub h2_dim: usize,
}

impl DiscriminatorConfig {
    pub fn new(input_dim: usize, h1_dim: usize, h2_dim: usize) -> (config: DiscriminatorConfig)
        ensures
            config.input_dim == input_dim,
            config.h1_dim == h1_dim,
            config.h2_dim == h2_dim,
    {
        DiscriminatorConfig { input_dim, h1_dim, h2_dim }
    }

    /// The linear layers, in order: input -> h1 -> h2 -> one score (ReLU after the
    /// first two, a sigmoid after the last).
    pub open spec fn spec_layers(self) -> Seq<LinearShape> {
        seq![
            LinearShape { d_input: self.input_dim, d_output: self.h1_dim },
            LinearShape { d_input: self.h1_dim, d_output: self.h2_dim },
            LinearShape { d_input: self.h2_dim, d_output: 1 },
        ]
    }

    pub fn layers(&self) -> (layers: Vec<LinearShape>)
        ensures
            layers@ == self.spec_layers(),
            layers@.len() == 3,
            layers@[0].d_input == self.input_dim && layers@[0].d_output == self.h1_dim,
            layers@[1].d_input == self.h1_dim && layers@[1].d_output == self.h2_dim,
            layers@[2].d_input == self.h2_dim && layers@[2].d_output == 1,
    {
        let mut layers = Vec::new();
        layers.push(LinearShape::new(self.input_dim, self.h1_dim));
        layers.push(LinearShape::new(self.h1_dim, self.h2_dim));
        layers.push(LinearShape::new(self.h2_dim, 1));
        layers
    }

    /// Shape `[rows, columns]` of the scores for `batch` input rows.
    pub fn output_shape(&self, batch: usize) -> (shape: (usize, usize))
        ensures
            shape == (batch, 1usize),
    {
        (batch, 1)
    }
}

/// The discriminator has exactly three layers, input -> h1 -> h2 -> one score:
/// widths `input_dim` to `h1_dim`, `h1_dim` to `h2_dim`, `h2_dim` to 1.
pub proof fn lemma_discriminator_layer_widths(config: DiscriminatorConfig)
    ensures
        config.spec_layers().len() == 3,
        config.spec_layers()[0].d_input == config.input_dim,
        config.spec_layers()[0].d_output == config.h1_dim,
        config.spec_layers()[1].d_input == config.h1_dim,
        config.spec_layers()[1].d_output == config.h2_dim,
        config.spec_layers()[2].d_input == config.h2_dim,
        config.spec_layers()[2].d_output == 1,
{
}

/// The discriminator's layers chain from its input width to a single score.
pub proof fn lemma_discriminator_layers_chain(config: DiscriminatorConfig)
    ensures
        chains(config.spec_layers(), config.input_dim, 1),
{
}

/// A generator whose output width is the discriminator's input width feeds it
/// directly: the two stacks chain, end to end, from the latent dimension to one
/// score.
pub proof fn lemma_generator_feeds_discriminator(g: GeneratorConfig, d: DiscriminatorConfig)
    requires
        g.output_dim == d.input_dim,
    ensures
        chains(g.spec_layers() + d.spec_layers(), g.z_dim, 1),
{
    let s = g.spec_layers() + d.spec_layers();
    assert(s[1] == g.spec_layers()[1]);
    assert(s[2] == d.spec_layers()[0]);
    assert(s[3] == d.spec_layers()[1]);
    assert(s[4] == d.spec_layers()[2]);
}

} // verus!
