use ganshot::gan::model::{
    DiscriminatorConfig as PointDiscriminatorConfig, GeneratorConfig as PointGeneratorConfig,
    POINT_DIM,
};
use ganshot::models::discriminator::DiscriminatorConfig;
use ganshot::models::generator::{sweep_rows, GeneratorConfig};
use ganshot::models::shapes::LinearShape;

#[test]
fn generator_layers_chain_latent_to_output() {
    let config = GeneratorConfig::new(8, 100, 20);
    assert_eq!(
        config.layers(),
        vec![LinearShape::new(8, 100), LinearShape::new(100, 20)]
    );
    assert_eq!(config.output_shape(64), (64, 20));
}

#[test]
fn generator_output_shape_for_planar_points() {
    // z_dim 8, 100 hidden units, a batch of 64 latent rows, 2 output values.
    let config = GeneratorConfig::new(8, 100, 2);
    assert_eq!(config.output_shape(64), (64, 2));
}

#[test]
fn discriminator_layers_end_in_one_score() {
    let config = DiscriminatorConfig::new(2, 100, 10);
    assert_eq!(
        config.layers(),
        vec![
            LinearShape::new(2, 100),
            LinearShape::new(100, 10),
            LinearShape::new(10, 1)
        ]
    );
    assert_eq!(config.output_shape(64), (64, 1));
}

#[test]
fn point_networks_compose() {
    let g = PointGeneratorConfig::new(8, 100);
    let d = PointDiscriminatorConfig::new(100);
    assert_eq!(g.layers(), vec![LinearShape::new(8, 100), LinearShape::new(100, 2)]);
    assert_eq!(d.layers(), vec![LinearShape::new(2, 100), LinearShape::new(100, 1)]);
    assert_eq!(g.output_shape(64), (64, POINT_DIM));
    assert_eq!(d.output_shape(64), (64, 1));
    assert_eq!(g.layers()[1].d_output, d.layers()[0].d_input);
}

#[test]
fn sweep_rows_replaces_only_the_fixed_dimension() {
    let base: Vec<f32> = vec![0.5, -0.25, 1.5, 2.0, -3.0, 0.0, 0.75, 1.0];
    let (fixed_dim, fixed_steps) = (3, 5);
    let step = 2.0 / (fixed_steps - 1) as f32;
    let sweep: Vec<f32> = (0..fixed_steps).map(|i| -1.0 + i as f32 * step).collect();
    let flat = sweep_rows(&base, fixed_dim, &sweep);
    assert_eq!(flat.len(), fixed_steps * base.len());
    for i in 0..fixed_steps {
        let row = &flat[i * base.len()..(i + 1) * base.len()];
        let expected = -1.0 + i as f32 * (2.0 / (fixed_steps - 1) as f32);
        assert!((row[fixed_dim] - expected).abs() < 1e-6);
        for d in 0..base.len() {
            if d != fixed_dim {
                assert_eq!(row[d], base[d]);
            }
        }
    }
}

#[test]
fn sweep_rows_single_step() {
    let base: Vec<f32> = vec![4.0; 8];
    let flat = sweep_rows(&base, 0, &vec![-1.0]);
    assert_eq!(flat.len(), 8);
    assert_eq!(flat[0], -1.0);
    assert!(flat[1..].iter().all(|v| *v == 4.0));
}

#[test]
fn sweep_rows_without_steps_is_empty() {
    let base: Vec<u8> = vec![1, 2, 3];
    assert!(sweep_rows(&base, 2, &vec![]).is_empty());
}
