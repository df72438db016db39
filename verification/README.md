# ganshot

A small toolkit for training generative adversarial networks on planar toy
data (Gaussian clusters, stars, human poses).

`src/` is the verified library. It holds the parts of the toolkit that are
about shapes, layouts and decisions rather than floating-point numbers:

- `models`, `gan::model`: the layer dimensions of the generator and
  discriminator networks, and how they chain.
- `data::commons`: flattening a batch of outlines into a row-major buffer and
  cutting a buffer back into rows; the subplot grid.
- `data::human_pose`: which annotated people yield a pose, the stable sort of
  joints by id, and the shuffled pose list.
- `models::generator::sweep_rows`: the layout of a latent sweep.
- `training`, `gan::training`: the order of snapshots and training epochs, which
  network an iteration updates, and which plot traces a slider step shows.

`app/` is the program around it: the `burn` networks and training loops, the
`plotly` figures, sampling from the distributions, and reading annotation files.
