//! The concatenation of several tensors along one axis, and the backward
//! node that hands each operand its part of the gradient.

use crate::error::{check_shape, mismatch, Error, Operation};
use crate::gradient::{
    exactly, lemma_took_among, push_gradient, stretched, took, Accumulator,
};
use crate::scalar::Scalar;
use crate::shape::{
    checked_size, copy_shape, in_bounds, lemma_broadcast_identity, lemma_broadcasts_to_itself,
    representable, same_shape,
};
use crate::tensor::{assign_slice, slice_along, Tensor};
use vstd::prelude::*;

verus! {

/// Two shapes have the same axes but for the length of `axis`.
pub open spec fn agrees_except(a: Seq<usize>, b: Seq<usize>, axis: int) -> bool {
    &&& a.len() == b.len()
    &&& forall|p: int| 0 <= p < a.len() && p != axis ==> a[p] == b[p]
}

/// The sum of the first `k` lengths: where, along the axis of concatenation,
/// the part of operand `k` begins.
pub open spec fn prefix_sum(lengths: Seq<usize>, k: nat) -> nat
    decreases k,
{
    if k == 0 {
        0
    } else {
        prefix_sum(lengths, (k - 1) as nat) + (lengths[k - 1] as nat)
    }
}

/// The length of `axis` in each of the shapes.
pub open spec fn lengths_along(shapes: Seq<Seq<usize>>, axis: int) -> Seq<usize> {
    Seq::new(shapes.len(), |k: int| shapes[k][axis])
}

/// The shapes of a list of shapes held in vectors.
pub open spec fn shape_views(shapes: Seq<Vec<usize>>) -> Seq<Seq<usize>> {
    Seq::new(shapes.len(), |k: int| shapes[k]@)
}

/// Tensors of these shapes can be concatenated along `axis`: there is at
/// least one, `axis` is one of their axes, they agree on every other axis,
/// and the result is representable.
pub open spec fn joinable(shapes: Seq<Seq<usize>>, axis: int) -> bool {
    &&& shapes.len() > 0
    &&& 0 <= axis < shapes[0].len()
    &&& forall|k: int| 0 <= k < shapes.len() ==> agrees_except(#[trigger] shapes[k], shapes[0], axis)
    &&& prefix_sum(lengths_along(shapes, axis), shapes.len()) <= usize::MAX
    &&& representable(joined_shape(shapes, axis))
}

/// The shape of the concatenation: that of the operands, but along `axis`
/// the sum of their lengths.
pub open spec fn joined_shape(shapes: Seq<Seq<usize>>, axis: int) -> Seq<usize> {
    shapes[0].update(axis, prefix_sum(lengths_along(shapes, axis), shapes.len()) as usize)
}

/// Shape `k` is the first that does not agree with the first shape.
pub open spec fn first_misfit(shapes: Seq<Seq<usize>>, axis: int, k: int) -> bool {
    &&& 0 <= k < shapes.len()
    &&& !agrees_except(shapes[k], shapes[0], axis)
    &&& forall|j: int| 0 <= j < k ==> agrees_except(#[trigger] shapes[j], shapes[0], axis)
}

/// The prefix sums grow with the number of lengths summed.
pub proof fn lemma_prefix_sum_grows(lengths: Seq<usize>, j: nat, k: nat)
    requires
        j <= k,
    ensures
        prefix_sum(lengths, j) <= prefix_sum(lengths, k),
    decreases k,
{
    if j < k {
        lemma_prefix_sum_grows(lengths, j, (k - 1) as nat);
    }
}

/// Whether two shapes have the same axes but for the length of `axis`.
pub fn agree_except(a: &Vec<usize>, b: &Vec<usize>, axis: usize) -> (same: bool)
    ensures
        same == agrees_except(a@, b@, axis as int),
{
    if a.len() != b.len() {
        return false;
    }
    let mut p: usize = 0;
    while p < a.len()
        invariant
            a.len() == b.len(),
            p <= a.len(),
            forall|q: int| 0 <= q < p && q != axis ==> a[q] == b[q],
        decreases a.len() - p,
    {
        if p != axis && a[p] != b[p] {
            return false;
        }
        p += 1;
    }
    true
}

/// `e` is the error that a concatenation of tensors of these shapes along
/// `axis` is refused with: `AxisOutOfBounds` when there is no shape or the
/// first shape has no such axis, `ShapeMismatch` on the first shape that
/// differs from the first one elsewhere than along `axis`, and
/// `ShapeOverflow` when the result is not representable.
pub open spec fn refused(e: Error, shapes: Seq<Seq<usize>>, axis: usize) -> bool {
    if shapes.len() == 0 {
        e.is_axis(Operation::MultiConcatenate, axis, 0)
    } else if axis >= shapes[0].len() {
        e.is_axis(Operation::MultiConcatenate, axis, shapes[0].len() as usize)
    } else if exists|k: int| first_misfit(shapes, axis as int, k) {
        exists|k: int| #[trigger]
            first_misfit(shapes, axis as int, k) && e.is_mismatch(
                Operation::MultiConcatenate,
                shapes[0],
                shapes[k],
            )
    } else {
        e.is_overflow(Operation::MultiConcatenate)
    }
}

/// The shape of the concatenation of operands that have the shape `base`
/// but for the given lengths along `axis`; `None` when there is no operand,
/// when `base` has no such axis, or when the lengths add up to more than a
/// `usize` holds.
fn joined_from(base: &Vec<usize>, lengths: &Vec<usize>, axis: usize) -> (out: Option<Vec<usize>>)
    ensures
        out.is_some() <==> (lengths.len() > 0 && axis < base.len() && prefix_sum(
            lengths@,
            lengths.len() as nat,
        ) <= usize::MAX),
        out matches Some(s) ==> s@ == base@.update(
            axis as int,
            prefix_sum(lengths@, lengths.len() as nat) as usize,
        ),
{
    if lengths.len() == 0 || axis >= base.len() {
        return None;
    }
    let mut total: usize = 0;
    let mut k: usize = 0;
    while k < lengths.len()
        invariant
            k <= lengths.len(),
            total == prefix_sum(lengths@, k as nat),
        decreases lengths.len() - k,
    {
        if lengths[k] > usize::MAX - total {
            proof {
                lemma_prefix_sum_grows(lengths@, (k + 1) as nat, lengths.len() as nat);
            }
            return None;
        }
        total = total + lengths[k];
        k += 1;
    }
    let mut joined = copy_shape(base);
    joined.set(axis, total);
    Some(joined)
}

/// The shapes and the axis lengths of a list of operands, after the check
/// that they can be concatenated along `axis`: the shape of the first
/// operand, the length of `axis` in each operand, and the shape of the
/// concatenation.
fn layout(shapes: &Vec<Vec<usize>>, axis: usize) -> (out: Result<
    (Vec<usize>, Vec<usize>, Vec<usize>),
    Error,
>)
    ensures
        out.is_ok() <==> joinable(shape_views(shapes@), axis as int),
        out matches Ok(l) ==> {
            &&& l.0@ == shape_views(shapes@)[0]
            &&& l.1@ == lengths_along(shape_views(shapes@), axis as int)
            &&& l.2@ == joined_shape(shape_views(shapes@), axis as int)
        },
        out matches Err(e) ==> refused(e, shape_views(shapes@), axis),
{
    let ghost views = shape_views(shapes@);
    if shapes.len() == 0 {
        return Err(
            Error::AxisOutOfBounds { operation: Operation::MultiConcatenate, axis, rank: 0 },
        );
    }
    if axis >= shapes[0].len() {
        return Err(
            Error::AxisOutOfBounds {
                operation: Operation::MultiConcatenate,
                axis,
                rank: shapes[0].len(),
            },
        );
    }
    let mut lengths: Vec<usize> = Vec::new();
    let mut k: usize = 0;
    while k < shapes.len()
        invariant
            views == shape_views(shapes@),
            shapes.len() > 0,
            axis < views[0].len(),
            k <= shapes.len(),
            lengths.len() == k,
            forall|j: int| 0 <= j < k ==> agrees_except(#[trigger] views[j], views[0], axis as int),
            forall|j: int| 0 <= j < k ==> lengths[j] == views[j][axis as int],
        decreases shapes.len() - k,
    {
        if !agree_except(&shapes[k], &shapes[0], axis) {
            let e = mismatch(Operation::MultiConcatenate, &shapes[0], &shapes[k]);
            assert(first_misfit(views, axis as int, k as int) && e.is_mismatch(
                Operation::MultiConcatenate,
                views[0],
                views[k as int],
            ));
            return Err(e);
        }
        lengths.push(shapes[k][axis]);
        k += 1;
    }
    assert(!exists|k: int| first_misfit(views, axis as int, k));
    assert(lengths@ =~= lengths_along(views, axis as int));
    let joined = match joined_from(&shapes[0], &lengths, axis) {
        Some(joined) => joined,
        None => {
            return Err(Error::ShapeOverflow { operation: Operation::MultiConcatenate });
        },
    };
    match checked_size(&joined) {
        Some(_) => Ok((copy_shape(&shapes[0]), lengths, joined)),
        None => Err(Error::ShapeOverflow { operation: Operation::MultiConcatenate }),
    }
}

/// The shape of the concatenation of tensors of the given shapes along
/// `axis`.
///
/// Fails with `AxisOutOfBounds` when there is no shape or the first shape
/// has no such axis, with `ShapeMismatch` on the first shape that differs
/// from the first one elsewhere than along `axis`, and with `ShapeOverflow`
/// when the result is not representable.
pub fn concatenated_shape(shapes: &Vec<Vec<usize>>, axis: usize) -> (out: Result<Vec<usize>, Error>)
    ensures
        out.is_ok() <==> joinable(shape_views(shapes@), axis as int),
        out matches Ok(s) ==> s@ == joined_shape(shape_views(shapes@), axis as int),
        out matches Err(e) ==> refused(e, shape_views(shapes@), axis),
{
    let (_, _, joined) = layout(shapes, axis)?;
    Ok(joined)
}

/// The shapes of a list of tensors.
pub open spec fn shapes_of<T>(operands: Seq<Tensor<T>>) -> Seq<Seq<usize>> {
    Seq::new(operands.len(), |k: int| operands[k].spec_shape())
}

/// The shapes of a list of accumulators.
pub open spec fn shapes_of_gradients<T: Scalar>(operands: Seq<Accumulator<T>>) -> Seq<Seq<usize>> {
    Seq::new(operands.len(), |k: int| operands[k].shape_view())
}

/// The part of `whole` that belongs to operand `k` of a concatenation along
/// `axis` of operands with the given lengths: the values of `whole`, read
/// `prefix_sum(lengths, k)` places further along `axis`.
pub open spec fn segment<T>(whole: Tensor<T>, lengths: Seq<usize>, axis: int, k: nat) -> spec_fn(
    Seq<int>,
) -> T {
    |idx: Seq<int>| whole.at(idx.update(axis, idx[axis] + prefix_sum(lengths, k)))
}

/// `whole` is the concatenation of `parts` along `axis`: every part is found
/// again, element for element, in its segment of `whole`.
pub open spec fn is_concatenation<T>(whole: Tensor<T>, parts: Seq<Tensor<T>>, axis: int) -> bool {
    forall|k: int, idx: Seq<int>|
        0 <= k < parts.len() && in_bounds(parts[k].spec_shape(), idx) ==> #[trigger] segment(
            whole,
            lengths_along(shapes_of(parts), axis),
            axis,
            k as nat,
        )(idx) == #[trigger] parts[k].at(idx)
}

/// Splitting a concatenation gives the parts back: a tensor that holds the
/// segment of operand `k`, as the backward pass hands it to that operand,
/// holds the very elements that operand `k` put into the concatenation.
pub proof fn lemma_concatenation_round_trip<T>(
    whole: Tensor<T>,
    parts: Seq<Tensor<T>>,
    axis: int,
    k: int,
    back: Tensor<T>,
)
    requires
        is_concatenation(whole, parts, axis),
        0 <= k < parts.len(),
        parts[k].wf(),
        back.wf(),
        back.spec_shape() == parts[k].spec_shape(),
        forall|idx: Seq<int>|
            in_bounds(back.spec_shape(), idx) ==> #[trigger] back.at(idx) == segment(
                whole,
                lengths_along(shapes_of(parts), axis),
                axis,
                k as nat,
            )(idx),
    ensures
        back.elements() == parts[k].elements(),
{
    assert forall|idx: Seq<int>| in_bounds(back.spec_shape(), idx) implies #[trigger] back.at(idx)
        == parts[k].at(idx) by {
        assert(segment(whole, lengths_along(shapes_of(parts), axis), axis, k as nat)(idx)
            == parts[k].at(idx));
    }
    back.lemma_same_values(parts[k]);
}

/// The forward node of a concatenation: it caches the operands laid one
/// after the other along one axis, in the order in which they were given.
pub struct MultiConcatenate<T> {
    base: Vec<usize>,
    lengths: Vec<usize>,
    axis: usize,
    data: Tensor<T>,
    computed: bool,
}

impl<T: Scalar> MultiConcatenate<T> {
    /// What the node was built for: the shape of the first operand, the
    /// length of each operand along the axis of concatenation, and that
    /// axis.
    pub closed spec fn wiring(&self) -> (Seq<usize>, Seq<usize>, int) {
        (self.base@, self.lengths@, self.axis as int)
    }

    /// The cached value.
    pub closed spec fn data_view(&self) -> Tensor<T> {
        self.data
    }

    /// Whether the cached value is the result of the current forward pass.
    pub closed spec fn computed_view(&self) -> bool {
        self.computed
    }

    /// The shape of operand `k`.
    pub open spec fn operand_shape(&self, k: int) -> Seq<usize> {
        self.wiring().0.update(self.wiring().2, self.wiring().1[k])
    }

    /// The shape of the cached value.
    pub open spec fn joined(&self) -> Seq<usize> {
        self.wiring().0.update(
            self.wiring().2,
            prefix_sum(self.wiring().1, self.wiring().1.len()) as usize,
        )
    }

    /// The cached value has the shape of the concatenation.
    pub open spec fn wf(&self) -> bool {
        &&& self.wiring().1.len() > 0
        &&& 0 <= self.wiring().2 < self.wiring().0.len()
        &&& prefix_sum(self.wiring().1, self.wiring().1.len()) <= usize::MAX
        &&& self.data_view().wf()
        &&& self.data_view().spec_shape() == self.joined()
    }

    /// The operands are as many as the node was built for, and have the
    /// shapes that it was built for.
    pub open spec fn accepts(&self, operands: Seq<Tensor<T>>) -> bool {
        &&& operands.len() == self.wiring().1.len()
        &&& forall|k: int|
            0 <= k < operands.len() ==> (#[trigger] operands[k]).spec_shape() == self.operand_shape(
                k,
            )
    }

    /// Operand `k` is the first that does not have the shape that the node
    /// was built for.
    pub open spec fn first_refused(&self, operands: Seq<Tensor<T>>, k: int) -> bool {
        &&& 0 <= k < operands.len()
        &&& operands[k].spec_shape() != self.operand_shape(k)
        &&& forall|j: int|
            0 <= j < k ==> (#[trigger] operands[j]).spec_shape() == self.operand_shape(j)
    }

    /// `after` is the node that a forward pass over `operands` makes of this
    /// node: the same node when the value was computed already or the
    /// operands are refused, and else the node that caches the concatenation.
    pub open spec fn forwarded(self, after: Self, operands: Seq<Tensor<T>>) -> bool {
        if self.computed_view() || !self.accepts(operands) {
            after == self
        } else {
            &&& after.computed_view()
            &&& after.wiring() == self.wiring()
            &&& after.data_view().wf()
            &&& after.data_view().spec_shape() == self.data_view().spec_shape()
            &&& forall|k: int, idx: Seq<int>|
                0 <= k < operands.len() && in_bounds(self.operand_shape(k), idx)
                    ==> #[trigger] segment(
                    after.data_view(),
                    self.wiring().1,
                    self.wiring().2,
                    k as nat,
                )(idx) == #[trigger] operands[k].at(idx)
        }
    }

    /// The forward pass is memoized: once a pass has computed the value, a
    /// second pass changes nothing, whatever the operands hold by then.
    pub proof fn lemma_forward_memoized(
        self,
        first: Self,
        second: Self,
        operands: Seq<Tensor<T>>,
        later: Seq<Tensor<T>>,
    )
        requires
            self.computed_view() || self.accepts(operands),
            self.forwarded(first, operands),
            first.forwarded(second, later),
        ensures
            first.computed_view(),
            second == first,
    {
    }

    /// What a forward pass computes is the concatenation of the operands.
    pub proof fn lemma_forward_concatenates(self, after: Self, operands: Seq<Tensor<T>>)
        requires
            self.wf(),
            !self.computed_view(),
            self.accepts(operands),
            self.forwarded(after, operands),
        ensures
            is_concatenation(after.data_view(), operands, self.wiring().2),
    {
        let lengths = lengths_along(shapes_of(operands), self.wiring().2);
        assert(lengths =~= self.wiring().1) by {
            assert forall|k: int| 0 <= k < lengths.len() implies lengths[k] == self.wiring().1[k] by {
                assert(operands[k].spec_shape() == self.operand_shape(k));
            }
        }
        assert forall|k: int, idx: Seq<int>|
            0 <= k < operands.len() && in_bounds(operands[k].spec_shape(), idx) implies #[trigger] segment(
            after.data_view(),
            lengths,
            self.wiring().2,
            k as nat,
        )(idx) == #[trigger] operands[k].at(idx) by {
            assert(operands[k].spec_shape() == self.operand_shape(k));
        }
    }

    /// The node of the concatenation, along `axis`, of operands of the given
    /// shapes. Its value is a tensor of zeros of the shape of the
    /// concatenation until the first forward pass.
    ///
    /// Fails with `AxisOutOfBounds` when there is no shape or the first shape
    /// has no such axis, with `ShapeMismatch` on the first shape that differs
    /// from the first one elsewhere than along `axis`, and with
    /// `ShapeOverflow` when the concatenation is not representable.
    pub fn with_shapes(shapes: &Vec<Vec<usize>>, axis: usize) -> (out: Result<Self, Error>)
        ensures
            out.is_ok() <==> joinable(shape_views(shapes@), axis as int),
            out matches Ok(node) ==> {
                &&& node.wf()
                &&& node.wiring() == (
                    shape_views(shapes@)[0],
                    lengths_along(shape_views(shapes@), axis as int),
                    axis as int,
                )
                &&& !node.computed_view()
                &&& node.data_view().is_zero()
            },
            out matches Err(e) ==> refused(e, shape_views(shapes@), axis),
    {
        let (base, lengths, joined) = layout(shapes, axis)?;
        match Tensor::zeros(joined) {
            Some(data) => Ok(MultiConcatenate { base, lengths, axis, data, computed: false }),
            None => Err(Error::ShapeOverflow { operation: Operation::MultiConcatenate }),
        }
    }

    /// The node of the concatenation of `operands` along `axis`: the node
    /// for the shapes of the operands.
    pub fn new(operands: &Vec<Tensor<T>>, axis: usize) -> (out: Result<Self, Error>)
        requires
            forall|k: int| 0 <= k < operands.len() ==> (#[trigger] operands[k]).wf(),
        ensures
            out.is_ok() <==> joinable(shapes_of(operands@), axis as int),
            out matches Ok(node) ==> {
                &&& node.wf()
                &&& node.accepts(operands@)
                &&& node.wiring().2 == axis
                &&& !node.computed_view()
                &&& node.data_view().is_zero()
            },
            out matches Err(e) ==> refused(e, shapes_of(operands@), axis),
    {
        let mut shapes: Vec<Vec<usize>> = Vec::new();
        let mut k: usize = 0;
        while k < operands.len()
            invariant
                k <= operands.len(),
                shapes.len() == k,
                forall|j: int| 0 <= j < k ==> (#[trigger] shapes[j])@ == operands[j].spec_shape(),
            decreases operands.len() - k,
        {
            shapes.push(copy_shape(operands[k].shape()));
            k += 1;
        }
        assert(shape_views(shapes@) =~= shapes_of(operands@));
        let node = MultiConcatenate::with_shapes(&shapes, axis)?;
        proof {
            let views = shapes_of(operands@);
            assert forall|k: int| 0 <= k < operands.len() implies (
            #[trigger] operands[k]).spec_shape() == node.operand_shape(k) by {
                assert(agrees_except(views[k], views[0], axis as int));
                assert(operands[k].spec_shape() =~= node.operand_shape(k));
            }
        }
        Ok(node)
    }

    /// Whether the cached value has the shape of the concatenation.
    pub fn is_well_formed(&self) -> (sound: bool)
        ensures
            sound == self.wf(),
    {
        match joined_from(&self.base, &self.lengths, self.axis) {
            Some(shape) => self.data.is_well_formed() && same_shape(self.data.shape(), &shape),
            None => false,
        }
    }

    /// The cached value.
    pub fn data(&self) -> (d: &Tensor<T>)
        ensures
            *d == self.data_view(),
    {
        &self.data
    }

    /// Exclusive access to the cached value. Whoever writes through it keeps
    /// the shape.
    pub fn data_mut(&mut self) -> (d: &mut Tensor<T>)
        ensures
            *d == old(self).data_view(),
            final(self).data_view() == *final(d),
            final(self).wiring() == old(self).wiring(),
            final(self).computed_view() == old(self).computed_view(),
    {
        &mut self.data
    }

    /// Whether the cached value is the result of the current forward pass.
    pub fn was_computed(&self) -> (b: bool)
        ensures
            b == self.computed_view(),
    {
        self.computed
    }

    /// Marks the cached value as stale, so that the next forward pass
    /// computes it again.
    pub fn reset_computation(&mut self)
        ensures
            !final(self).computed_view(),
            final(self).data_view() == old(self).data_view(),
            final(self).wiring() == old(self).wiring(),
    {
        self.computed = false;
    }

    /// Copies every operand into its segment of the cached value, in the
    /// order of the operands, unless the value was computed already.
    ///
    /// Fails, and changes nothing, when the value is stale and the operands
    /// are not as many as the node was built for, or one of them does not
    /// have the shape that the node was built for.
    pub fn forward(&mut self, operands: &Vec<Tensor<T>>) -> (out: Result<(), Error>)
        requires
            old(self).wf(),
            forall|k: int| 0 <= k < operands.len() ==> (#[trigger] operands[k]).wf(),
        ensures
            final(self).wf(),
            old(self).forwarded(*final(self), operands@),
            out.is_ok() <==> (old(self).computed_view() || old(self).accepts(operands@)),
            out matches Err(e) ==> if operands.len() != old(self).wiring().1.len() {
                e.is_count(
                    Operation::MultiConcatenate,
                    old(self).wiring().1.len() as usize,
                    operands.len(),
                )
            } else {
                exists|k: int| #[trigger]
                    old(self).first_refused(operands@, k) && e.is_mismatch(
                        Operation::MultiConcatenate,
                        old(self).operand_shape(k),
                        operands[k].spec_shape(),
                    )
            },
    {
        if self.computed {
            return Ok(());
        }
        if operands.len() != self.lengths.len() {
            return Err(
                Error::OperandCount {
                    operation: Operation::MultiConcatenate,
                    expected: self.lengths.len(),
                    found: operands.len(),
                },
            );
        }
        let ghost before = *self;
        let mut k: usize = 0;
        while k < operands.len()
            invariant
                *self == before,
                before == *old(self),
                !self.computed,
                operands.len() == self.lengths.len(),
                self.wf(),
                k <= operands.len(),
                forall|j: int|
                    0 <= j < k ==> (#[trigger] operands[j]).spec_shape() == self.operand_shape(j),
            decreases operands.len() - k,
        {
            let mut expected = copy_shape(&self.base);
            expected.set(self.axis, self.lengths[k]);
            assert(expected@ =~= self.operand_shape(k as int));
            match check_shape(Operation::MultiConcatenate, &expected, operands[k].shape()) {
                Ok(()) => {},
                Err(e) => {
                    assert(self.first_refused(operands@, k as int) && e.is_mismatch(
                        Operation::MultiConcatenate,
                        self.operand_shape(k as int),
                        operands[k as int].spec_shape(),
                    ));
                    assert(!self.accepts(operands@)) by {
                        assert(operands@[k as int].spec_shape() != self.operand_shape(k as int));
                    }
                    return Err(e);
                },
            }
            k += 1;
        }
        assert(before.accepts(operands@));
        let ghost lengths = self.lengths@;
        let ghost axis = self.axis as int;
        let ghost whole = self.data.spec_shape();
        let mut start: usize = 0;
        let mut k: usize = 0;
        while k < operands.len()
            invariant
                before.wf(),
                before.accepts(operands@),
                !before.computed_view(),
                self.wiring() == before.wiring(),
                lengths == before.wiring().1,
                lengths == self.lengths@,
                axis == before.wiring().2,
                axis == self.axis,
                whole == before.joined(),
                self.data.wf(),
                self.data.spec_shape() == whole,
                self.computed == before.computed,
                forall|j: int| 0 <= j < operands.len() ==> (#[trigger] operands[j]).wf(),
                k <= operands.len(),
                start == prefix_sum(lengths, k as nat),
                forall|j: int, idx: Seq<int>|
                    0 <= j < k && in_bounds(before.operand_shape(j), idx) ==> #[trigger] segment(
                        self.data,
                        lengths,
                        axis,
                        j as nat,
                    )(idx) == #[trigger] operands[j].at(idx),
            decreases operands.len() - k,
        {
            let ghost held = self.data;
            let len: usize = self.lengths[k];
            proof {
                lemma_prefix_sum_grows(lengths, (k + 1) as nat, lengths.len());
                assert(operands[k as int].spec_shape() == before.operand_shape(k as int));
                assert(operands[k as int].spec_shape() =~= whole.update(axis, len));
            }
            let end: usize = start + len;
            assign_slice(&mut self.data, self.axis, start, end, &operands[k]);
            proof {
                assert forall|j: int, idx: Seq<int>|
                    0 <= j < k + 1 && in_bounds(before.operand_shape(j), idx) implies #[trigger] segment(
                    self.data,
                    lengths,
                    axis,
                    j as nat,
                )(idx) == #[trigger] operands[j].at(idx) by {
                    let moved = idx.update(axis, idx[axis] + prefix_sum(lengths, j as nat));
                    lemma_prefix_sum_grows(lengths, (j + 1) as nat, lengths.len());
                    if j < k {
                        lemma_prefix_sum_grows(lengths, (j + 1) as nat, k as nat);
                    }
                    assert(0 <= idx[axis] < before.operand_shape(j)[axis]);
                    assert(in_bounds(whole, moved)) by {
                        assert forall|p: int| 0 <= p < whole.len() implies 0 <= #[trigger] moved[p]
                            < whole[p] by {
                            if p != axis {
                                assert(0 <= idx[p] < before.operand_shape(j)[p]);
                            }
                        }
                    }
                    if j < k {
                        assert(segment(held, lengths, axis, j as nat)(idx) == operands[j].at(idx));
                        assert(self.data.at(moved) == held.at(moved));
                    } else {
                        assert(moved.update(axis, moved[axis] - start) =~= idx);
                        assert(self.data.at(moved) == operands[j].at(idx));
                    }
                }
            }
            start = end;
            k += 1;
        }
        self.computed = true;
        Ok(())
    }
}

/// The backward node of a concatenation: it hands each operand the segment
/// of its gradient that the operand filled in the forward pass.
pub struct MultiConcatenateBackward<T> {
    accumulator: Accumulator<T>,
    base: Vec<usize>,
    lengths: Vec<usize>,
    axis: usize,
}

impl<T: Scalar> MultiConcatenateBackward<T> {
    /// What the node was built for: the shape of the first operand, the
    /// length of each operand along the axis of concatenation, and that
    /// axis.
    pub closed spec fn wiring(&self) -> (Seq<usize>, Seq<usize>, int) {
        (self.base@, self.lengths@, self.axis as int)
    }

    /// The shape of the gradient of operand `k`.
    pub open spec fn operand_shape(&self, k: int) -> Seq<usize> {
        self.wiring().0.update(self.wiring().2, self.wiring().1[k])
    }

    /// The shape of the gradient of this node.
    pub open spec fn joined(&self) -> Seq<usize> {
        self.wiring().0.update(
            self.wiring().2,
            prefix_sum(self.wiring().1, self.wiring().1.len()) as usize,
        )
    }

    /// The gradient has the shape of the concatenation.
    pub open spec fn wf(&self) -> bool {
        &&& self.wiring().1.len() > 0
        &&& 0 <= self.wiring().2 < self.wiring().0.len()
        &&& prefix_sum(self.wiring().1, self.wiring().1.len()) <= usize::MAX
        &&& self.accumulator_view().wf()
        &&& self.shape_view() == self.joined()
    }

    /// `operand` can take the part of operand `k`: it tracks a gradient, of
    /// the shape that the node was built for.
    pub open spec fn suits(&self, operand: Accumulator<T>, k: int) -> bool {
        &&& operand.gradient_view().is_some()
        &&& operand.shape_view() == self.operand_shape(k)
    }

    /// Operand `k` tracks a gradient, of the shape that the node was built
    /// for.
    pub open spec fn fits(&self, operands: Seq<Accumulator<T>>, k: int) -> bool {
        self.suits(operands[k], k)
    }

    /// The operands are those that the node was built for, and every
    /// gradient that the backward pass touches is tracked.
    pub open spec fn ready(&self, operands: Seq<Accumulator<T>>) -> bool {
        &&& self.gradient_view().is_some()
        &&& operands.len() == self.wiring().1.len()
        &&& forall|k: int| 0 <= k < operands.len() ==> #[trigger] self.fits(operands, k)
    }

    /// Operand `k` is the first that does not fit.
    pub open spec fn first_unfit(&self, operands: Seq<Accumulator<T>>, k: int) -> bool {
        &&& 0 <= k < operands.len()
        &&& !self.fits(operands, k)
        &&& forall|j: int| 0 <= j < k ==> #[trigger] self.fits(operands, j)
    }

    /// The backward node of the concatenation, along `axis`, of operands
    /// whose gradients have the given shapes. Its gradient is a tensor of
    /// zeros of the shape of the concatenation, which the first push will
    /// replace.
    ///
    /// Fails as the forward node does.
    pub fn with_shapes(shapes: &Vec<Vec<usize>>, axis: usize) -> (out: Result<Self, Error>)
        ensures
            out.is_ok() <==> joinable(shape_views(shapes@), axis as int),
            out matches Ok(node) ==> {
                &&& node.wf()
                &&& node.wiring() == (
                    shape_views(shapes@)[0],
                    lengths_along(shape_views(shapes@), axis as int),
                    axis as int,
                )
                &&& node.overwrite_view()
                &&& node.gradient_view() matches Some(g) && g.is_zero()
            },
            out matches Err(e) ==> refused(e, shape_views(shapes@), axis),
    {
        let (base, lengths, joined) = layout(shapes, axis)?;
        match Accumulator::new(joined) {
            Ok(accumulator) => Ok(MultiConcatenateBackward { accumulator, base, lengths, axis }),
            Err(_) => Err(Error::ShapeOverflow { operation: Operation::MultiConcatenate }),
        }
    }

    /// The backward node of the concatenation of `operands` along `axis`:
    /// the node for the shapes of the gradients of the operands.
    pub fn new(operands: &Vec<Accumulator<T>>, axis: usize) -> (out: Result<Self, Error>)
        requires
            forall|k: int| 0 <= k < operands.len() ==> (#[trigger] operands[k]).wf(),
        ensures
            out.is_ok() <==> joinable(shapes_of_gradients(operands@), axis as int),
            out matches Ok(node) ==> {
                &&& node.wf()
                &&& node.wiring().1.len() == operands.len()
                &&& forall|k: int|
                    0 <= k < operands.len() ==> (#[trigger] operands[k]).shape_view()
                        == node.operand_shape(k)
                &&& node.wiring().2 == axis
                &&& node.overwrite_view()
                &&& node.gradient_view() matches Some(g) && g.is_zero()
            },
            out matches Err(e) ==> refused(e, shapes_of_gradients(operands@), axis),
    {
        let mut shapes: Vec<Vec<usize>> = Vec::new();
        let mut k: usize = 0;
        while k < operands.len()
            invariant
                k <= operands.len(),
                shapes.len() == k,
                forall|j: int| 0 <= j < k ==> (#[trigger] shapes[j])@ == operands[j].shape_view(),
            decreases operands.len() - k,
        {
            shapes.push(copy_shape(operands[k].shape()));
            k += 1;
        }
        assert(shape_views(shapes@) =~= shapes_of_gradients(operands@));
        let node = MultiConcatenateBackward::with_shapes(&shapes, axis)?;
        proof {
            let views = shapes_of_gradients(operands@);
            assert forall|k: int| 0 <= k < operands.len() implies (
            #[trigger] operands[k]).shape_view() == node.operand_shape(k) by {
                assert(agrees_except(views[k], views[0], axis as int));
                assert(operands[k].shape_view() =~= node.operand_shape(k));
            }
        }
        Ok(node)
    }

    /// Whether the gradient has the shape of the concatenation.
    pub fn is_well_formed(&self) -> (sound: bool)
        ensures
            sound == self.wf(),
    {
        match joined_from(&self.base, &self.lengths, self.axis) {
            Some(shape) => self.accumulator.is_well_formed() && same_shape(
                self.accumulator.shape(),
                &shape,
            ),
            None => false,
        }
    }

    /// The accumulator that holds the gradient of this node.
    pub closed spec fn accumulator_view(&self) -> Accumulator<T> {
        self.accumulator
    }

    /// The gradient of this node, when it tracks one.
    pub open spec fn gradient_view(&self) -> Option<Tensor<T>> {
        self.accumulator_view().gradient_view()
    }

    /// The shape of the gradient of this node.
    pub open spec fn shape_view(&self) -> Seq<usize> {
        self.accumulator_view().shape_view()
    }

    /// Whether the next push into this node replaces its gradient.
    pub open spec fn overwrite_view(&self) -> bool {
        self.accumulator_view().overwrite_view()
    }

    /// The accumulator that holds the gradient of this node: what the
    /// consumers of this node push into.
    pub fn accumulator(&self) -> (acc: &Accumulator<T>)
        ensures
            *acc == self.accumulator_view(),
    {
        &self.accumulator
    }

    /// Exclusive access to the accumulator of this node.
    pub fn accumulator_mut(&mut self) -> (acc: &mut Accumulator<T>)
        ensures
            *acc == old(self).accumulator_view(),
            final(self).accumulator_view() == *final(acc),
            final(self).wiring() == old(self).wiring(),
    {
        &mut self.accumulator
    }

    /// The gradient, or `MissingGradientBuffer` when none is tracked.
    pub fn gradient(&self) -> (out: Result<&Tensor<T>, Error>)
        ensures
            out.is_ok() <==> self.gradient_view().is_some(),
            out matches Ok(g) ==> self.gradient_view() == Some(*g),
            out matches Err(e) ==> e == Error::MissingGradientBuffer,
    {
        self.accumulator.gradient()
    }

    /// Exclusive access to the gradient, or `MissingGradientBuffer` when none
    /// is tracked. Whoever writes through it keeps the shape.
    pub fn gradient_mut(&mut self) -> (out: Result<&mut Tensor<T>, Error>)
        ensures
            out.is_ok() <==> old(self).gradient_view().is_some(),
            out matches Ok(g) ==> {
                &&& old(self).gradient_view() == Some(*g)
                &&& final(self).gradient_view() == Some(*final(g))
            },
            out matches Err(e) ==> e == Error::MissingGradientBuffer && final(self).gradient_view()
                == old(self).gradient_view(),
            final(self).shape_view() == old(self).shape_view(),
            final(self).overwrite_view() == old(self).overwrite_view(),
            final(self).wiring() == old(self).wiring(),
    {
        self.accumulator.gradient_mut()
    }

    /// Whether the next push into this node replaces its gradient.
    pub fn can_overwrite(&self) -> (b: bool)
        ensures
            b == self.overwrite_view(),
    {
        self.accumulator.can_overwrite()
    }

    /// Sets whether the next push into this node replaces its gradient.
    pub fn set_overwrite(&mut self, state: bool)
        ensures
            final(self).overwrite_view() == state,
            final(self).gradient_view() == old(self).gradient_view(),
            final(self).shape_view() == old(self).shape_view(),
            final(self).wiring() == old(self).wiring(),
    {
        self.accumulator.set_overwrite(state);
    }

    /// Stops tracking the gradient: the buffer is dropped.
    pub fn no_grad(&mut self)
        ensures
            final(self).accumulator_view() == old(self).accumulator_view().dropped(),
            final(self).wiring() == old(self).wiring(),
    {
        self.accumulator.no_grad();
    }

    /// Tracks the gradient again: whatever was there before, the buffer is
    /// now a tensor of zeros of the node's shape.
    pub fn with_grad(&mut self)
        requires
            old(self).wf(),
        ensures
            final(self).wf(),
            final(self).shape_view() == old(self).shape_view(),
            final(self).overwrite_view() == old(self).overwrite_view(),
            final(self).gradient_view() matches Some(g) && g.is_zero(),
            final(self).wiring() == old(self).wiring(),
    {
        self.accumulator.with_grad();
    }

    /// Where, along the axis of concatenation, the part of operand `k`
    /// begins.
    fn segment_start(&self, k: usize) -> (start: usize)
        requires
            self.wf(),
            k <= self.wiring().1.len(),
        ensures
            start == prefix_sum(self.wiring().1, k as nat),
    {
        let mut start: usize = 0;
        let mut j: usize = 0;
        while j < k
            invariant
                self.wf(),
                k <= self.lengths.len(),
                j <= k,
                start == prefix_sum(self.lengths@, j as nat),
            decreases k - j,
        {
            proof {
                lemma_prefix_sum_grows(self.lengths@, (j + 1) as nat, self.lengths@.len());
            }
            start = start + self.lengths[j];
            j += 1;
        }
        start
    }

    /// Hands operand `k` its part of the gradient of this node: the segment
    /// that begins where the lengths of the operands before it end, pushed
    /// into the accumulator of the operand.
    ///
    /// Fails, and changes nothing, when this node or the operand tracks no
    /// gradient, when the node was built for no more than `k` operands, or
    /// when the operand does not have the shape that the node was built for.
    pub fn push_segment(&self, k: usize, operand: &mut Accumulator<T>) -> (out: Result<(), Error>)
        requires
            self.wf(),
            old(operand).wf(),
        ensures
            final(operand).wf(),
            out.is_ok() <==> (self.gradient_view().is_some() && k < self.wiring().1.len()
                && self.suits(*old(operand), k as int)),
            out matches Err(e) ==> {
                &&& *final(operand) == *old(operand)
                &&& if self.gradient_view().is_none() {
                    e == Error::MissingGradientBuffer
                } else if k >= self.wiring().1.len() {
                    e.is_count(Operation::MultiConcatenate, self.wiring().1.len() as usize, k)
                } else if old(operand).gradient_view().is_none() {
                    e == Error::MissingGradientBuffer
                } else {
                    e.is_mismatch(
                        Operation::MultiConcatenate,
                        self.operand_shape(k as int),
                        old(operand).shape_view(),
                    )
                }
            },
            out.is_ok() ==> took(
                *old(operand),
                *final(operand),
                exactly(
                    segment(
                        self.gradient_view().unwrap(),
                        self.wiring().1,
                        self.wiring().2,
                        k as nat,
                    ),
                ),
            ),
    {
        let gradient = self.accumulator.gradient()?;
        if k >= self.lengths.len() {
            return Err(
                Error::OperandCount {
                    operation: Operation::MultiConcatenate,
                    expected: self.lengths.len(),
                    found: k,
                },
            );
        }
        if !operand.has_gradient() {
            return Err(Error::MissingGradientBuffer);
        }
        let mut expected = copy_shape(&self.base);
        expected.set(self.axis, self.lengths[k]);
        assert(expected@ =~= self.operand_shape(k as int));
        check_shape(Operation::MultiConcatenate, &expected, operand.shape())?;
        let start = self.segment_start(k);
        proof {
            lemma_prefix_sum_grows(self.lengths@, (k + 1) as nat, self.lengths@.len());
        }
        let end: usize = start + self.lengths[k];
        let part = slice_along(gradient, self.axis, start, end);
        let ghost shape = operand.shape_view();
        let ghost before = *operand;
        proof {
            assert(part.spec_shape() =~= shape);
            lemma_broadcasts_to_itself(shape);
        }
        let out = push_gradient(operand, &part);
        proof {
            let whole = exactly(segment(*gradient, self.lengths@, self.axis as int, k as nat));
            assert forall|idx: Seq<int>, v: T|
                in_bounds(shape, idx) && #[trigger] stretched(part)(idx, v) implies whole(idx, v) by {
                lemma_broadcast_identity(shape, idx);
            }
            lemma_took_among(before, *operand, stretched(part), whole);
        }
        out
    }

    /// Hands the gradient of this node on to the operands: operand `k`
    /// receives, by a push into its accumulator, the segment of the gradient
    /// that begins where the lengths of the operands before it end. The
    /// gradient of this node is read, not written.
    ///
    /// Fails, and changes nothing, when a gradient that the pass touches is
    /// not tracked, when the operands are not as many as the node was built
    /// for, or when one of them does not have the shape that the node was
    /// built for.
    pub fn backward(&self, operands: &mut Vec<Accumulator<T>>) -> (out: Result<(), Error>)
        requires
            self.wf(),
            forall|k: int| 0 <= k < old(operands).len() ==> (#[trigger] old(operands)[k]).wf(),
        ensures
            final(operands).len() == old(operands).len(),
            forall|k: int| 0 <= k < final(operands).len() ==> (#[trigger] final(operands)[k]).wf(),
            out.is_ok() <==> self.ready(old(operands)@),
            out matches Err(e) ==> {
                &&& final(operands)@ == old(operands)@
                &&& if self.gradient_view().is_none() {
                    e == Error::MissingGradientBuffer
                } else if old(operands).len() != self.wiring().1.len() {
                    e.is_count(
                        Operation::MultiConcatenate,
                        self.wiring().1.len() as usize,
                        old(operands).len(),
                    )
                } else {
                    exists|k: int| #[trigger]
                        self.first_unfit(old(operands)@, k) && (if old(
                            operands,
                        )[k].gradient_view().is_none() {
                            e == Error::MissingGradientBuffer
                        } else {
                            e.is_mismatch(
                                Operation::MultiConcatenate,
                                self.operand_shape(k),
                                old(operands)[k].shape_view(),
                            )
                        })
                }
            },
            out.is_ok() ==> forall|k: int|
                0 <= k < old(operands).len() ==> took(
                    old(operands)[k],
                    #[trigger] final(operands)[k],
                    exactly(
                        segment(
                            self.gradient_view().unwrap(),
                            self.wiring().1,
                            self.wiring().2,
                            k as nat,
                        ),
                    ),
                ),
    {
        if !self.accumulator.has_gradient() {
            return Err(Error::MissingGradientBuffer);
        }
        if operands.len() != self.lengths.len() {
            return Err(
                Error::OperandCount {
                    operation: Operation::MultiConcatenate,
                    expected: self.lengths.len(),
                    found: operands.len(),
                },
            );
        }
        let mut k: usize = 0;
        while k < operands.len()
            invariant
                operands@ == old(operands)@,
                operands.len() == self.lengths.len(),
                self.wf(),
                self.gradient_view().is_some(),
                k <= operands.len(),
                forall|j: int| 0 <= j < operands.len() ==> (#[trigger] operands[j]).wf(),
                forall|j: int| 0 <= j < k ==> #[trigger] self.fits(operands@, j),
            decreases operands.len() - k,
        {
            if !operands[k].has_gradient() {
                assert(self.first_unfit(operands@, k as int));
                return Err(Error::MissingGradientBuffer);
            }
            let mut expected = copy_shape(&self.base);
            expected.set(self.axis, self.lengths[k]);
            assert(expected@ =~= self.operand_shape(k as int));
            match check_shape(Operation::MultiConcatenate, &expected, operands[k].shape()) {
                Ok(()) => {},
                Err(e) => {
                    assert(self.first_unfit(operands@, k as int));
                    return Err(e);
                },
            }
            k += 1;
        }
        let mut k: usize = 0;
        while k < operands.len()
            invariant
                self.wf(),
                self.gradient_view().is_some(),
                self.ready(old(operands)@),
                operands.len() == old(operands).len(),
                k <= operands.len(),
                forall|j: int| 0 <= j < operands.len() ==> (#[trigger] operands[j]).wf(),
                forall|j: int| k <= j < operands.len() ==> operands[j] == old(operands)[j],
                forall|j: int|
                    0 <= j < k ==> took(
                        old(operands)[j],
                        #[trigger] operands[j],
                        exactly(
                            segment(
                                self.gradient_view().unwrap(),
                                self.wiring().1,
                                self.wiring().2,
                                j as nat,
                            ),
                        ),
                    ),
            decreases operands.len() - k,
        {
            assert(self.fits(old(operands)@, k as int));
            self.push_segment(k, &mut operands[k])?;
            k += 1;
        }
        Ok(())
    }
}

} // verus!
