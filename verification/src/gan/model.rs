use vstd::prelude::*;

use crate::models::shapes::{chains, LinearShape};

verus! {

/// Width of a point of the two-dimensional toy distribution.
pub const POINT_DIM: usize = 2;

/// Dimensions of the generator for planar points: latent input and hidden width.
#[derive(Clone, Copy, Debug, PartialEq, Eq)]
pub struct GeneratorConfig {
    pub z_dim: usize,
    pub nb_hidden: usize,
}

impl GeneratorConfig {
    pub fn new(z_dim: usize, nb_hidden: usize) -> (config: GeneratorConfig)
        ensures
            config.z_dim == z_dim,
            config.nb_hidden == nb_hidden,
    {
        GeneratorConfig { z_dim, nb_hidden }
    }

    /// latent -> hidden (ReLU) -> a planar point.
    pub open spec fn spec_layers(self) -> Seq<LinearShape> {
        seq![
            LinearShape { d_input: self.z_dim, d_output: self.nb_hidden },
            LinearShape { d_input: self.nb_hidden, d_output: POINT_DIM },
        ]
    }

    pub fn layers(&self) -> (layers: Vec<LinearShape>)
        ensures
            layers@ == self.spec_layers(),
            layers@.len() == 2,
            layers@[0].d_input == self.z_dim && layers@[0].d_output == self.nb_hidden,
            layers@[1].d_input == self.nb_hidden && layers@[1].d_output == POINT_DIM,
    {
        let mut layers = Vec::new();
        layers.push(LinearShape::new(self.z_dim, self.nb_hidden));
        layers.push(LinearShape::new(self.nb_hidden, POINT_DIM));
        layers
    }

    pub fn output_shape(&self, batch: usize) -> (shape: (usize, usize))
        ensures
            shape == (batch, POINT_DIM),
    {
        (batch, POINT_DIM)
    }
}

/// Dimensions of the discriminator for planar points: its hidden width.
#[derive(Clone, Copy, Debug, PartialEq, Eq)]
pub struct DiscriminatorConfig {
    pub nb_hidden: usize,
}

impl DiscriminatorConfig {
    pub fn new(nb_hidden: usize) -> (config: DiscriminatorConfig)
        ensures
            config.nb_hidden == nb_hidden,
    {
        DiscriminatorConfig { nb_hidden }
    }

    /// planar point -> hidden (ReLU) -> one score (sigmoid).
    pub open spec fn spec_layers(self) -> Seq<LinearShape> {
        seq![
            LinearShape { d_input: POINT_DIM, d_output: self.nb_hidden },
            LinearShape { d_input: self.nb_hidden, d_output: 1 },
        ]
    }

    pub fn layers(&self) -> (layers: Vec<LinearShape>)
        ensures
            layers@ == self.spec_layers(),
            layers@.len() == 2,
            layers@[0].d_input == POINT_DIM && layers@[0].d_output == self.nb_hidden,
            layers@[1].d_input == self.nb_hidden && layers@[1].d_output == 1,
    {
        let mut layers = Vec::new();
        layers.push(LinearShape::new(POINT_DIM, self.nb_hidden));
        layers.push(LinearShape::new(self.nb_hidden, 1));
        layers
    }

    pub fn output_shape(&self, batch: usize) -> (shape: (usize, usize))
        ensures
            shape == (batch, 1usize),
    {
        (batch, 1)
    }
}

/// The point generator has exactly two layers, latent -> hidden -> point:
/// `z_dim` to `nb_hidden`, then `nb_hidden` to 2; the point discriminator maps
/// 2 to `nb_hidden`, then `nb_hidden` to one score.
pub proof fn lemma_point_layer_widths(g: GeneratorConfig, d: DiscriminatorConfig)
    ensures
        g.spec_layers().len() == 2,
        g.spec_layers()[0].d_input == g.z_dim,
        g.spec_layers()[0].d_output == g.nb_hidden,
        g.spec_layers()[1].d_input == g.nb_hidden,
        g.spec_layers()[1].d_output == 2,
        d.spec_layers().len() == 2,
        d.spec_layers()[0].d_input == 2,
        d.spec_layers()[0].d_output == d.nb_hidden,
        d.spec_layers()[1].d_input == d.nb_hidden,
        d.spec_layers()[1].d_output == 1,
{
}

/// What the generator yields is what the discriminator takes: the two networks
/// chain, end to end, from the latent dimension to one score.
pub proof fn lemma_gan_networks_compose(g: GeneratorConfig, d: DiscriminatorConfig)
    ensures
        chains(g.spec_layers(), g.z_dim, POINT_DIM),
        chains(d.spec_layers(), POINT_DIM, 1),
        chains(g.spec_layers() + d.spec_layers(), g.z_dim, 1),
{
    let s = g.spec_layers() + d.spec_layers();
    assert(s[1] == g.spec_layers()[1]);
    assert(s[2] == d.spec_layers()[0]);
    assert(s[3] == d.spec_layers()[1]);
}

} // verus!
