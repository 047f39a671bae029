use vstd::prelude::*;

/// Big-endian integers and the byte runs they make.
pub mod bytes;
/// The paired image and label files of a digit dataset, read record by record.
pub mod dataset;
/// An image file alone, read image by image.
pub mod images;
/// The forward and backward passes of fully-connected layers, and gradient accumulation.
pub mod layer;
/// Dense matrices whose element arithmetic the caller supplies.
pub mod matrix;
/// The saved form of a trained network.
pub mod model;
/// Gradient descent over a stack of layers: one batch, and full-batch epochs.
pub mod network;
/// Batches, the epoch schedule, arg-max and the count of hits.
pub mod training;

verus! {

} // verus!
