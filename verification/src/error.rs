//! The conditions under which the graph refuses to go on.

use vstd::prelude::*;

verus! {

/// The operation that refused its operands.
#[derive(Debug, Clone, Copy, PartialEq, Eq)]
pub enum Operation {
    /// An elementwise division of two tensors.
    Division,
    /// A concatenation of several tensors along one axis.
    MultiConcatenate,
    /// The insertion of an axis of length 1.
    Unsqueeze,
    /// The reduction of a stretched gradient to the shape of an operand.
    Reduction,
    /// The push of a gradient into an accumulator.
    Accumulation,
}

/// Why an operation was not carried out.
#[derive(Debug, PartialEq, Eq)]
pub enum Error {
    /// The shapes `left` and `right` do not fit each other under the rule of
    /// `operation`.
    ShapeMismatch { operation: Operation, left: Vec<usize>, right: Vec<usize> },
    /// The result of `operation` would have more elements than a tensor can
    /// hold.
    ShapeOverflow { operation: Operation },
    /// `operation` was asked to work on an axis that a tensor of `rank` axes
    /// does not offer.
    AxisOutOfBounds { operation: Operation, axis: usize, rank: usize },
    /// `operation` was set up for `expected` operands and was handed `found`.
    OperandCount { operation: Operation, expected: usize, found: usize },
    /// The gradient of a node was asked for while the node tracks none.
    MissingGradientBuffer,
}

impl Error {
    /// The error is a shape mismatch raised by `operation` on these two
    /// shapes.
    pub open spec fn is_mismatch(self, operation: Operation, left: Seq<usize>, right: Seq<usize>) -> bool {
        self matches Error::ShapeMismatch { operation: o, left: l, right: r } && o == operation
            && l@ == left && r@ == right
    }

    /// The error is an axis out of bounds raised by `operation`.
    pub open spec fn is_axis(self, operation: Operation, axis: usize, rank: usize) -> bool {
        self matches Error::AxisOutOfBounds { operation: o, axis: a, rank: r } && o == operation
            && a == axis && r == rank
    }

    /// The error is a wrong number of operands handed to `operation`.
    pub open spec fn is_count(self, operation: Operation, expected: usize, found: usize) -> bool {
        self matches Error::OperandCount { operation: o, expected: x, found: f } && o == operation
            && x == expected && f == found
    }

    /// The error is a shape overflow raised by `operation`.
    pub open spec fn is_overflow(self, operation: Operation) -> bool {
        self matches Error::ShapeOverflow { operation: o } && o == operation
    }
}

/// The mismatch of two shapes under the rule of `operation`.
pub fn mismatch(operation: Operation, left: &Vec<usize>, right: &Vec<usize>) -> (e: Error)
    ensures
        e.is_mismatch(operation, left@, right@),
{
    Error::ShapeMismatch {
        operation,
        left: crate::shape::copy_shape(left),
        right: crate::shape::copy_shape(right),
    }
}

/// Passes when a tensor has the shape that `operation` was set up for.
pub fn check_shape(operation: Operation, expected: &Vec<usize>, found: &Vec<usize>) -> (out: Result<
    (),
    Error,
>)
    ensures
        out.is_ok() <==> expected@ == found@,
        out matches Err(e) ==> e.is_mismatch(operation, expected@, found@),
{
    if crate::shape::same_shape(expected, found) {
        Ok(())
    } else {
        Err(mismatch(operation, expected, found))
    }
}

} // verus!
