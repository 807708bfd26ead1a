//! The decisions behind CUDA graphs over tensors: what is copied where, what a cache holds, and
//! what the driver is asked for from the capture of a graph to its end.
//!
//! A [`Tensor`](tensor::Tensor) is described by plain values: an address, a layout and a device.
//! Whatever has to be done on the device comes out as plain values too:
//! a [`Copy2d`](copy2d::Copy2d) to launch, a [`Memcpy`](memory::Memcpy) to make, an action to
//! carry out. What these do to the memory of the device is stated in [`memory`], and what follows
//! for those who use them in the modules of laws.

pub mod cache;
pub mod cache_laws;
pub mod cache_runs;
pub mod cache_steps;
pub mod copy2d;
pub mod dtype;
pub mod dump;
pub mod dump_laws;
pub mod error;
pub mod extension;
pub mod graph;
pub mod graph_laws;
pub mod inplace;
pub mod input;
pub mod input_laws;
pub mod launch_laws;
pub mod memory;
pub mod node;
pub mod replay_laws;
pub mod shape;
pub mod slice_laws;
pub mod tensor;
pub mod tensor_laws;
pub mod view_laws;

pub use cache::{Cache, KvCache};
pub use copy2d::COPY2D_FINGERPRINT;
pub use dump::{GraphDumpFormat, GraphDumpVerbosity};
pub use extension::CudaTensorExtension;
pub use graph::Graph;
pub use inplace::copy_inplace;
pub use input::GraphInput;
pub use node::{KernelLaunchParams, Node, NodeData};
