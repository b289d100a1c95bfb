//! Reverse-mode automatic differentiation over dense n-dimensional tensors:
//! forward nodes that cache their value, backward nodes that accumulate
//! gradients, and learning-rate schedulers.
//!
//! A graph is wired by its owner. A forward node is handed the values of its
//! operands when it is asked to compute, and a backward node is handed the
//! accumulators of its operands when it is asked to distribute its gradient;
//! the owner calls the forward nodes from the leaves up and the backward
//! nodes in the reverse order.
//!
//! The elements of a tensor are of any type that offers the arithmetic of
//! [`Scalar`]. The tensors themselves are laid out and traversed by ndarray.

pub mod division;
pub mod error;
pub mod gradient;
pub mod lr_scheduler;
pub mod multi_concatenate;
pub mod scalar;
pub mod shape;
pub mod tensor;
pub mod unsqueeze;

pub use division::{Division, DivisionBackward, DivisionBackwardLeft, DivisionBackwardRight};
pub use error::{Error, Operation};
pub use gradient::{push_gradient, reduce, Accumulator};
pub use lr_scheduler::LRScheduler;
pub use multi_concatenate::{MultiConcatenate, MultiConcatenateBackward};
pub use scalar::Scalar;
pub use tensor::Tensor;
pub use unsqueeze::{Unsqueeze, UnsqueezeBackward};
