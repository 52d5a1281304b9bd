//! Tensor, autodiff, fusion, codegen and training building blocks with
//! machine-checked contracts.
pub mod gpu;
pub mod tensor;
pub mod autodiff;
pub mod fusion;
pub mod compute;
pub mod dataset;
pub mod record;
pub mod param;
pub mod wgpu;
pub mod ndarray_shape;
pub mod learner;
pub mod onnx;
pub mod candle;
