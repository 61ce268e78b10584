//! A small neural-network engine over any copyable element type: tensors
//! with their shapes, indexing and blocked matrix product; dense and ReLU
//! layers; softmax cross-entropy; a two-layer classifier with its training
//! passes and optimiser state; the MNIST IDX reader, the model file format,
//! batching and a deterministic generator. The element arithmetic is handed
//! in by the caller, and every contract states results in terms of it.
pub mod rng;
pub mod func;
pub mod shape;
pub mod tensor;
pub mod relu;
pub mod loss;
pub mod model;
pub mod dense;
pub mod optimizer;
pub mod mnist;
pub mod model_format;
pub mod training;
pub mod initialization;
