//! The insertion of an axis of length 1 into a tensor, and the backward
//! node that takes the axis out of the gradient again.

use crate::error::{check_shape, Error, Operation};
use crate::gradient::{
    exactly, lemma_took_among, push_gradient, stretched, took, Accumulator,
};
use crate::scalar::Scalar;
use crate::shape::{
    copy_shape, in_bounds, lemma_broadcast_identity, lemma_broadcasts_to_itself,
    lemma_insert_axis_size, same_shape,
};
use crate::tensor::{assign_first, first_along, insert_axis, Tensor};
use vstd::prelude::*;

verus! {

/// The values of `operand` under the shape that has one more axis, of length
/// 1, at position `axis`.
pub open spec fn unsqueezed<T>(operand: Tensor<T>, axis: int) -> spec_fn(Seq<int>) -> T {
    |idx: Seq<int>| operand.at(idx.remove(axis))
}

/// The values of `whole` at position 0 of `axis`, under the shape without
/// that axis.
pub open spec fn squeezed<T>(whole: Tensor<T>, axis: int) -> spec_fn(Seq<int>) -> T {
    |idx: Seq<int>| whole.at(idx.insert(axis, 0))
}

/// The forward node of an inserted axis: it caches the operand under the
/// shape that has one more axis, of length 1.
pub struct Unsqueeze<T> {
    operand_shape: Vec<usize>,
    data: Tensor<T>,
    axis: usize,
    computed: bool,
}

impl<T: Scalar> Unsqueeze<T> {
    /// What the node was built for: the shape of the operand and the
    /// position of the new axis.
    pub closed spec fn wiring(&self) -> (Seq<usize>, int) {
        (self.operand_shape@, self.axis as int)
    }

    /// The cached value.
    pub closed spec fn data_view(&self) -> Tensor<T> {
        self.data
    }

    /// Whether the cached value is the result of the current forward pass.
    pub closed spec fn computed_view(&self) -> bool {
        self.computed
    }

    /// The cached value has the shape of the operand with the new axis.
    pub open spec fn wf(&self) -> bool {
        &&& 0 <= self.wiring().1 <= self.wiring().0.len()
        &&& self.data_view().wf()
        &&& self.data_view().spec_shape() == self.wiring().0.insert(self.wiring().1, 1usize)
    }

    /// The operand has the shape that the node was built for.
    pub open spec fn accepts(&self, operand: Tensor<T>) -> bool {
        operand.spec_shape() == self.wiring().0
    }

    /// `after` is the node that a forward pass over `operand` makes of this
    /// node: the same node when the value was computed already or the
    /// operand is refused, and else the node that caches the operand under
    /// the wider shape.
    pub open spec fn forwarded(self, after: Self, operand: Tensor<T>) -> bool {
        if self.computed_view() || !self.accepts(operand) {
            after == self
        } else {
            &&& after.computed_view()
            &&& after.wiring() == self.wiring()
            &&& after.data_view().wf()
            &&& after.data_view().spec_shape() == self.data_view().spec_shape()
            &&& forall|idx: Seq<int>|
                in_bounds(self.data_view().spec_shape(), idx) ==> #[trigger] after.data_view().at(
                    idx,
                ) == unsqueezed(operand, self.wiring().1)(idx)
        }
    }

    /// The forward pass is memoized: once a pass has computed the value, a
    /// second pass changes nothing, whatever the operand holds by then.
    pub proof fn lemma_forward_memoized(
        self,
        first: Self,
        second: Self,
        operand: Tensor<T>,
        later: Tensor<T>,
    )
        requires
            self.computed_view() || self.accepts(operand),
            self.forwarded(first, operand),
            first.forwarded(second, later),
        ensures
            first.computed_view(),
            second == first,
    {
    }

    /// The node of `operand` with an axis of length 1 inserted at position
    /// `axis`. Its value is a tensor of zeros of the wider shape until the
    /// first forward pass.
    ///
    /// Fails when `axis` is larger than the number of axes of the operand.
    pub fn new(operand: &Tensor<T>, axis: usize) -> (out: Result<Self, Error>)
        requires
            operand.wf(),
        ensures
            out.is_ok() <==> axis <= operand.spec_shape().len(),
            out matches Ok(node) ==> {
                &&& node.wf()
                &&& node.wiring() == (operand.spec_shape(), axis as int)
                &&& !node.computed_view()
                &&& node.data_view().is_zero()
            },
            out matches Err(e) ==> e.is_axis(
                Operation::Unsqueeze,
                axis,
                operand.spec_shape().len() as usize,
            ),
    {
        if axis > operand.ndim() {
            return Err(
                Error::AxisOutOfBounds {
                    operation: Operation::Unsqueeze,
                    axis,
                    rank: operand.ndim(),
                },
            );
        }
        let shape = insert_axis(operand.shape(), axis);
        proof {
            lemma_insert_axis_size(operand.spec_shape(), axis as int);
        }
        match Tensor::zeros(shape) {
            Some(data) => Ok(
                Unsqueeze {
                    operand_shape: copy_shape(operand.shape()),
                    data,
                    axis,
                    computed: false,
                },
            ),
            None => Err(Error::ShapeOverflow { operation: Operation::Unsqueeze }),
        }
    }

    /// Whether the cached value has the shape of the operand with the new
    /// axis.
    pub fn is_well_formed(&self) -> (sound: bool)
        ensures
            sound == self.wf(),
    {
        if self.axis > self.operand_shape.len() {
            return false;
        }
        let shape = insert_axis(&self.operand_shape, self.axis);
        self.data.is_well_formed() && same_shape(self.data.shape(), &shape)
    }

    /// Whether the cached value is the result of the current forward pass.
    pub fn was_computed(&self) -> (b: bool)
        ensures
            b == self.computed_view(),
    {
        self.computed
    }

    /// Marks the cached value as stale, so that the next forward pass
    /// computes it again.
    pub fn reset_computation(&mut self)
        ensures
            !final(self).computed_view(),
            final(self).data_view() == old(self).data_view(),
            final(self).wiring() == old(self).wiring(),
    {
        self.computed = false;
    }

    /// Copies the operand into the cached value, unless the value was
    /// computed already.
    ///
    /// Fails, and changes nothing, when the value is stale and the operand
    /// does not have the shape that the node was built for.
    pub fn forward(&mut self, operand: &Tensor<T>) -> (out: Result<(), Error>)
        requires
            old(self).wf(),
            operand.wf(),
        ensures
            final(self).wf(),
            old(self).forwarded(*final(self), *operand),
            out.is_ok() <==> (old(self).computed_view() || old(self).accepts(*operand)),
            out matches Err(e) ==> e.is_mismatch(
                Operation::Unsqueeze,
                old(self).wiring().0,
                operand.spec_shape(),
            ),
    {
        if self.computed {
            return Ok(());
        }
        check_shape(Operation::Unsqueeze, &self.operand_shape, operand.shape())?;
        let ghost wide = self.data.spec_shape();
        let ghost axis = self.axis as int;
        assert(wide.remove(axis) =~= operand.spec_shape());
        assign_first(&mut self.data, self.axis, operand);
        self.computed = true;
        proof {
            assert forall|idx: Seq<int>| in_bounds(wide, idx) implies #[trigger] self.data.at(idx)
                == unsqueezed(*operand, axis)(idx) by {
                assert(0 <= idx[axis] < wide[axis]);
            }
        }
        Ok(())
    }

    /// The cached value.
    pub fn data(&self) -> (d: &Tensor<T>)
        ensures
            *d == self.data_view(),
    {
        &self.data
    }

    /// Exclusive access to the cached value. Whoever writes through it keeps
    /// the shape.
    pub fn data_mut(&mut self) -> (d: &mut Tensor<T>)
        ensures
            *d == old(self).data_view(),
            final(self).data_view() == *final(d),
            final(self).wiring() == old(self).wiring(),
            final(self).computed_view() == old(self).computed_view(),
    {
        &mut self.data
    }
}

/// The backward node of an inserted axis: it hands the operand the gradient
/// without that axis.
pub struct UnsqueezeBackward<T> {
    accumulator: Accumulator<T>,
    operand_shape: Vec<usize>,
    axis: usize,
}

impl<T: Scalar> UnsqueezeBackward<T> {
    /// What the node was built for: the shape of the gradient of the operand
    /// and the position of the new axis.
    pub closed spec fn wiring(&self) -> (Seq<usize>, int) {
        (self.operand_shape@, self.axis as int)
    }

    /// The gradient has the shape of the operand's gradient with the new
    /// axis.
    pub open spec fn wf(&self) -> bool {
        &&& 0 <= self.wiring().1 <= self.wiring().0.len()
        &&& self.accumulator_view().wf()
        &&& self.shape_view() == self.wiring().0.insert(self.wiring().1, 1usize)
    }

    /// The operand is the one that the node was built for, and every
    /// gradient that the backward pass touches is tracked.
    pub open spec fn ready(&self, operand: Accumulator<T>) -> bool {
        &&& self.gradient_view().is_some()
        &&& operand.gradient_view().is_some()
        &&& operand.shape_view() == self.wiring().0
    }

    /// The backward node of an operand with an axis of length 1 inserted at
    /// position `axis`. Its gradient is a tensor of zeros of the wider
    /// shape, which the first push will replace.
    ///
    /// Fails when the operand tracks no gradient, or when `axis` is larger
    /// than the number of axes of the operand.
    pub fn new(operand: &Accumulator<T>, axis: usize) -> (out: Result<Self, Error>)
        requires
            operand.wf(),
        ensures
            out.is_ok() <==> (operand.gradient_view().is_some() && axis
                <= operand.shape_view().len()),
            out matches Ok(node) ==> {
                &&& node.wf()
                &&& node.wiring() == (operand.shape_view(), axis as int)
                &&& node.overwrite_view()
                &&& node.gradient_view() matches Some(g) && g.is_zero()
            },
            out matches Err(e) ==> if operand.gradient_view().is_none() {
                e == Error::MissingGradientBuffer
            } else {
                e.is_axis(Operation::Unsqueeze, axis, operand.shape_view().len() as usize)
            },
    {
        if !operand.has_gradient() {
            return Err(Error::MissingGradientBuffer);
        }
        if axis > operand.shape().len() {
            return Err(
                Error::AxisOutOfBounds {
                    operation: Operation::Unsqueeze,
                    axis,
                    rank: operand.shape().len(),
                },
            );
        }
        let shape = insert_axis(operand.shape(), axis);
        proof {
            lemma_insert_axis_size(operand.shape_view(), axis as int);
        }
        match Accumulator::new(shape) {
            Ok(accumulator) => Ok(
                UnsqueezeBackward {
                    accumulator,
                    operand_shape: copy_shape(operand.shape()),
                    axis,
                },
            ),
            Err(_) => Err(Error::ShapeOverflow { operation: Operation::Unsqueeze }),
        }
    }

    /// Whether the gradient has the shape of the operand's gradient with the
    /// new axis.
    pub fn is_well_formed(&self) -> (sound: bool)
        ensures
            sound == self.wf(),
    {
        if self.axis > self.operand_shape.len() {
            return false;
        }
        let shape = insert_axis(&self.operand_shape, self.axis);
        self.accumulator.is_well_formed() && same_shape(self.accumulator.shape(), &shape)
    }

    /// The accumulator that holds the gradient of this node.
    pub closed spec fn accumulator_view(&self) -> Accumulator<T> {
        self.accumulator
    }

    /// The gradient of this node, when it tracks one.
    pub open spec fn gradient_view(&self) -> Option<Tensor<T>> {
        self.accumulator_view().gradient_view()
    }

    /// The shape of the gradient of this node.
    pub open spec fn shape_view(&self) -> Seq<usize> {
        self.accumulator_view().shape_view()
    }

    /// Whether the next push into this node replaces its gradient.
    pub open spec fn overwrite_view(&self) -> bool {
        self.accumulator_view().overwrite_view()
    }

    /// The accumulator that holds the gradient of this node: what the
    /// consumers of this node push into.
    pub fn accumulator(&self) -> (acc: &Accumulator<T>)
        ensures
            *acc == self.accumulator_view(),
    {
        &self.accumulator
    }

    /// Exclusive access to the accumulator of this node.
    pub fn accumulator_mut(&mut self) -> (acc: &mut Accumulator<T>)
        ensures
            *acc == old(self).accumulator_view(),
            final(self).accumulator_view() == *final(acc),
            final(self).wiring() == old(self).wiring(),
    {
        &mut self.accumulator
    }

    /// The gradient, or `MissingGradientBuffer` when none is tracked.
    pub fn gradient(&self) -> (out: Result<&Tensor<T>, Error>)
        ensures
            out.is_ok() <==> self.gradient_view().is_some(),
            out matches Ok(g) ==> self.gradient_view() == Some(*g),
            out matches Err(e) ==> e == Error::MissingGradientBuffer,
    {
        self.accumulator.gradient()
    }

    /// Exclusive access to the gradient, or `MissingGradientBuffer` when none
    /// is tracked. Whoever writes through it keeps the shape.
    pub fn gradient_mut(&mut self) -> (out: Result<&mut Tensor<T>, Error>)
        ensures
            out.is_ok() <==> old(self).gradient_view().is_some(),
            out matches Ok(g) ==> {
                &&& old(self).gradient_view() == Some(*g)
                &&& final(self).gradient_view() == Some(*final(g))
            },
            out matches Err(e) ==> e == Error::MissingGradientBuffer && final(self).gradient_view()
                == old(self).gradient_view(),
            final(self).shape_view() == old(self).shape_view(),
            final(self).overwrite_view() == old(self).overwrite_view(),
            final(self).wiring() == old(self).wiring(),
    {
        self.accumulator.gradient_mut()
    }

    /// Whether the next push into this node replaces its gradient.
    pub fn can_overwrite(&self) -> (b: bool)
        ensures
            b == self.overwrite_view(),
    {
        self.accumulator.can_overwrite()
    }

    /// Sets whether the next push into this node replaces its gradient.
    pub fn set_overwrite(&mut self, state: bool)
        ensures
            final(self).overwrite_view() == state,
            final(self).gradient_view() == old(self).gradient_view(),
            final(self).shape_view() == old(self).shape_view(),
            final(self).wiring() == old(self).wiring(),
    {
        self.accumulator.set_overwrite(state);
    }

    /// Stops tracking the gradient: the buffer is dropped.
    pub fn no_grad(&mut self)
        ensures
            final(self).accumulator_view() == old(self).accumulator_view().dropped(),
            final(self).wiring() == old(self).wiring(),
    {
        self.accumulator.no_grad();
    }

    /// Tracks the gradient again: whatever was there before, the buffer is
    /// now a tensor of zeros of the node's shape.
    pub fn with_grad(&mut self)
        requires
            old(self).wf(),
        ensures
            final(self).wf(),
            final(self).shape_view() == old(self).shape_view(),
            final(self).overwrite_view() == old(self).overwrite_view(),
            final(self).gradient_view() matches Some(g) && g.is_zero(),
            final(self).wiring() == old(self).wiring(),
    {
        self.accumulator.with_grad();
    }

    /// Hands the gradient of this node on to the operand: the gradient
    /// without the inserted axis, pushed into the operand's accumulator. The
    /// gradient of this node is read, not written.
    ///
    /// Fails, and changes nothing, when a gradient that the pass touches is
    /// not tracked or the operand does not have the shape that the node was
    /// built for.
    pub fn backward(&self, operand: &mut Accumulator<T>) -> (out: Result<(), Error>)
        requires
            self.wf(),
            old(operand).wf(),
        ensures
            final(operand).wf(),
            out.is_ok() <==> self.ready(*old(operand)),
            out matches Err(e) ==> {
                &&& *final(operand) == *old(operand)
                &&& if self.gradient_view().is_none() || old(operand).gradient_view().is_none() {
                    e == Error::MissingGradientBuffer
                } else {
                    e.is_mismatch(Operation::Unsqueeze, self.wiring().0, old(operand).shape_view())
                }
            },
            out.is_ok() ==> took(
                *old(operand),
                *final(operand),
                exactly(squeezed(self.gradient_view().unwrap(), self.wiring().1)),
            ),
    {
        let gradient = self.accumulator.gradient()?;
        if !operand.has_gradient() {
            return Err(Error::MissingGradientBuffer);
        }
        check_shape(Operation::Unsqueeze, &self.operand_shape, operand.shape())?;
        let ghost narrow = operand.shape_view();
        let ghost before = *operand;
        let part = first_along(gradient, self.axis);
        proof {
            assert(part.spec_shape() =~= narrow);
            lemma_broadcasts_to_itself(narrow);
        }
        let out = push_gradient(operand, &part);
        proof {
            let whole = exactly(squeezed(*gradient, self.axis as int));
            assert forall|idx: Seq<int>, v: T|
                in_bounds(narrow, idx) && #[trigger] stretched(part)(idx, v) implies whole(
                idx,
                v,
            ) by {
                lemma_broadcast_identity(narrow, idx);
            }
            lemma_took_among(before, *operand, stretched(part), whole);
        }
        out
    }
}

} // verus!
