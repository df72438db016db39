pub mod discriminator;
pub mod generator;
pub mod shapes;
