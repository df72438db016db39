//! Verified shape, layout and scheduling logic of a small GAN toolkit: how
//! generator and discriminator layers chain, how outlines and latent sweeps
//! are laid out in flat buffers, which annotated poses are kept, and which
//! plot traces a slider step shows.
pub mod data;
pub mod gan;
pub mod models;
pub mod training;
