use vstd::prelude::*;

use crate::data::commons::lemma_flatten_uniform_rows;
use crate::models::shapes::{chains, LinearShape};

verus! {

/// Dimensions of the generator network: latent input, hidden width, output width.
#[derive(Clone, Copy, Debug, PartialEq, Eq)]
pub struct GeneratorConfig {
    pub z_dim: usize,
    pub nb_hidden: usize,
    pub output_dim: usize,
}

impl GeneratorConfig {
    pub fn new(z_dim: usize, nb_hidden: usize, output_dim: usize) -> (config: GeneratorConfig)
        ensures
            config.z_dim == z_dim,
            config.nb_hidden == nb_hidden,
            config.output_dim == output_dim,
    {
        GeneratorConfig { z_dim, nb_hidden, output_dim }
    }

    /// The linear layers, in order: latent -> hidden (followed by a ReLU) -> output.
    pub open spec fn spec_layers(self) -> Seq<LinearShape> {
        seq![
            LinearShape { d_input: self.z_dim, d_output: self.nb_hidden },
            LinearShape { d_input: self.nb_hidden, d_output: self.output_dim },
        ]
    }

    pub fn layers(&self) -> (layers: Vec<LinearShape>)
        ensures
            layers@ == self.spec_layers(),
            layers@.len() == 2,
            layers@[0].d_input == self.z_dim && layers@[0].d_output == self.nb_hidden,
            layers@[1].d_input == self.nb_hidden && layers@[1].d_output == self.output_dim,
    {
        let mut layers = Vec::new();
        layers.push(LinearShape::new(self.z_dim, self.nb_hidden));
        layers.push(LinearShape::new(self.nb_hidden, self.output_dim));
        layers
    }

    /// Shape `[rows, columns]` of what the generator returns for `batch` latent rows.
    pub fn output_shape(&self, batch: usize) -> (shape: (usize, usize))
        ensures
            shape == (batch, self.output_dim),
    {
        (batch, self.output_dim)
    }
}

/// The generator has exactly two layers, latent -> hidden -> output: the first
/// maps `z_dim` to `nb_hidden` features, the second `nb_hidden` to `output_dim`.
pub proof fn lemma_generator_layer_widths(config: GeneratorConfig)
    ensures
        config.spec_layers().len() == 2,
        config.spec_layers()[0].d_input == config.z_dim,
        config.spec_layers()[0].d_output == config.nb_hidden,
        config.spec_layers()[1].d_input == config.nb_hidden,
        config.spec_layers()[1].d_output == config.output_dim,
{
}

/// The generator's layers chain from the latent dimension to the output dimension.
pub proof fn lemma_generator_layers_chain(config: GeneratorConfig)
    ensures
        chains(config.spec_layers(), config.z_dim, config.output_dim),
{
}

/// The latent rows of a sweep: every row is the shared base vector, except
/// that dimension `fixed_dim` of row `i` holds the swept value `sweep[i]`;
/// the rows are laid out one after another.
pub open spec fn spec_sweep_rows<T>(base: Seq<T>, fixed_dim: int, sweep: Seq<T>) -> Seq<T> {
    Seq::new(sweep.len(), |i: int| base.update(fixed_dim, sweep[i])).flatten()
}

/// Lays out the latent input of a sweep over dimension `fixed_dim`: one row
/// per swept value, each a copy of `base` with `fixed_dim` replaced.
pub fn sweep_rows<T: Copy>(base: &Vec<T>, fixed_dim: usize, sweep: &Vec<T>) -> (flat: Vec<T>)
    requires
        fixed_dim < base.len(),
    ensures
        flat@ == spec_sweep_rows(base@, fixed_dim as int, sweep@),
{
    broadcast use Seq::lemma_flatten_push;

    let ghost row_of = |i: int| base@.update(fixed_dim as int, sweep@[i]);
    let mut flat: Vec<T> = Vec::new();
    let mut i: usize = 0;
    while i < sweep.len()
        invariant
            i <= sweep.len(),
            fixed_dim < base.len(),
            row_of == (|i: int| base@.update(fixed_dim as int, sweep@[i])),
            flat@ == Seq::new(i as nat, row_of).flatten(),
        decreases sweep.len() - i,
    {
        let ghost before = flat@;
        let mut d: usize = 0;
        while d < base.len()
            invariant
                d <= base.len(),
                i < sweep.len(),
                fixed_dim < base.len(),
                row_of == (|i: int| base@.update(fixed_dim as int, sweep@[i])),
                flat@ == before + row_of(i as int).take(d as int),
            decreases base.len() - d,
        {
            if d == fixed_dim {
                flat.push(sweep[i]);
            } else {
                flat.push(base[d]);
            }
            proof {
                assert(row_of(i as int).take(d + 1) =~= row_of(i as int).take(d as int).push(
                    row_of(i as int)[d as int],
                ));
            }
            d = d + 1;
        }
        proof {
            assert(row_of(i as int).take(d as int) =~= row_of(i as int));
            assert(Seq::new((i + 1) as nat, row_of) =~= Seq::new(i as nat, row_of).push(
                row_of(i as int),
            ));
            Seq::new(i as nat, row_of).lemma_flatten_push(row_of(i as int));
        }
        i = i + 1;
    }
    assert(Seq::new(sweep.len() as nat, row_of) =~= Seq::new(
        sweep@.len(),
        |i: int| base@.update(fixed_dim as int, sweep@[i]),
    ));
    flat
}

/// A sweep of `steps` values over a base of `z` dimensions holds `steps * z`
/// values; in row `i` the swept dimension holds `sweep[i]` and every other
/// dimension holds the base value, the same in every row.
pub proof fn lemma_sweep_layout<T>(base: Seq<T>, fixed_dim: int, sweep: Seq<T>)
    requires
        0 <= fixed_dim < base.len(),
    ensures
        spec_sweep_rows(base, fixed_dim, sweep).len() == sweep.len() * base.len(),
        forall|i: int, d: int|
            0 <= i < sweep.len() && 0 <= d < base.len() ==> #[trigger] spec_sweep_rows(
                base,
                fixed_dim,
                sweep,
            )[i * base.len() + d] == if d == fixed_dim {
                sweep[i]
            } else {
                base[d]
            },
{
    let rows = Seq::new(sweep.len(), |i: int| base.update(fixed_dim, sweep[i]));
    lemma_flatten_uniform_rows(rows, base.len());
    assert forall|i: int, d: int| 0 <= i < sweep.len() && 0 <= d < base.len() implies #[trigger] spec_sweep_rows(
        base,
        fixed_dim,
        sweep,
    )[i * base.len() + d] == if d == fixed_dim {
        sweep[i]
    } else {
        base[d]
    } by {
        assert(rows[i][d] == base.update(fixed_dim, sweep[i])[d]);
    }
}

} // verus!
