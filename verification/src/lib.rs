//! Escape-iteration membership testing for the Mandelbrot set over a sampled
//! region of the complex plane, carried out in exact rational arithmetic.
//!
//! The plane is sampled as a regular grid of complex numbers with rational
//! coordinates; each sample is classified by running a fixed number of
//! `z * z + c` iterations and testing whether the final magnitude stays at or
//! below 2. Arbitrary-precision integers from `num_bigint` carry the exact
//! numerators and denominators; every rule about what is computed is stated
//! and proved over their mathematical values.

pub mod bigint;
pub mod classifier;
pub mod complex;
pub mod dynamics;
pub mod orbit;
pub mod rational;
pub mod sampler;
