//! Keyframe curves: a sparse, ordered set of (position, value) samples that
//! answers "what is the value at this position?" by finding the bracketing
//! samples and blending them with a chosen interpolation strategy.
pub mod curve;
pub mod interpolator;
pub mod laws;
pub mod value;
