//! The elementwise quotient of two tensors that are stretched to a common
//! shape, and the backward nodes that hand its gradient to the operands.

use crate::error::{check_shape, mismatch, Error, Operation};
use crate::gradient::{
    lemma_reduced_reads_fiber, lemma_took_among, push_reduced, reduced, took, values, Accumulator,
};
use crate::scalar::{is_opposite, is_power, is_product, is_quotient, Scalar};
use crate::shape::{
    broadcast_shape, broadcasts_to, can_broadcast, checked_size, cobroadcast, compatible,
    copy_shape, in_bounds, lemma_broadcast_shape_covers, lemma_offset_in_range, representable,
    same_shape, source_index,
};
use crate::tensor::{stretch, Tensor};
use vstd::prelude::*;

verus! {

/// The quotients of `left` by `right` at every multi-index of their common
/// shape.
pub open spec fn quotient<T: Scalar>(left: Tensor<T>, right: Tensor<T>) -> spec_fn(
    Seq<int>,
    T,
) -> bool {
    |idx: Seq<int>, r: T|
        is_quotient(
            left.at(source_index(left.spec_shape(), idx)),
            right.at(source_index(right.spec_shape(), idx)),
            r,
        )
}

/// The derivative of the quotient by its left operand, times the upstream
/// gradient: the values of `gradient / right`.
pub open spec fn left_term<T: Scalar>(gradient: Tensor<T>, right: Tensor<T>) -> spec_fn(
    Seq<int>,
    T,
) -> bool {
    |idx: Seq<int>, r: T|
        is_quotient(gradient.at(idx), right.at(source_index(right.spec_shape(), idx)), r)
}

/// `out` is a value of `-g * l / r^2`: a quotient of a product of an opposite
/// of `g` and `l` by a second power of `r`.
pub open spec fn is_right_term<T: Scalar>(g: T, l: T, r: T, out: T) -> bool {
    exists|n: T, p: T, q: T|
        #![trigger is_opposite(g, n), is_quotient(p, q, out)]
        is_opposite(g, n) && is_product(n, l, p) && is_power(r, 2, q) && is_quotient(p, q, out)
}

/// The derivative of the quotient by its right operand, times the upstream
/// gradient: the values of `-gradient * left / right^2`.
pub open spec fn right_term<T: Scalar>(
    gradient: Tensor<T>,
    left: Tensor<T>,
    right: Tensor<T>,
) -> spec_fn(Seq<int>, T) -> bool {
    |idx: Seq<int>, r: T|
        is_right_term(
            gradient.at(idx),
            left.at(source_index(left.spec_shape(), idx)),
            right.at(source_index(right.spec_shape(), idx)),
            r,
        )
}

/// The quotient of the two tensors, each stretched to `shape`.
///
/// Fails when `shape` is not representable or an operand does not stretch to
/// it.
pub fn divide<T: Scalar>(left: &Tensor<T>, right: &Tensor<T>, shape: &Vec<usize>) -> (out: Result<
    Tensor<T>,
    Error,
>)
    requires
        left.wf(),
        right.wf(),
    ensures
        out.is_ok() <==> (representable(shape@) && broadcasts_to(left.spec_shape(), shape@)
            && broadcasts_to(right.spec_shape(), shape@)),
        out matches Ok(t) ==> {
            &&& t.wf()
            &&& t.spec_shape() == shape@
            &&& forall|idx: Seq<int>|
                in_bounds(shape@, idx) ==> quotient(*left, *right)(idx, #[trigger] t.at(idx))
        },
        out matches Err(e) ==> if !representable(shape@) {
            e.is_overflow(Operation::Division)
        } else if !broadcasts_to(left.spec_shape(), shape@) {
            e.is_mismatch(Operation::Division, shape@, left.spec_shape())
        } else {
            e.is_mismatch(Operation::Division, shape@, right.spec_shape())
        },
{
    if checked_size(shape).is_none() {
        return Err(Error::ShapeOverflow { operation: Operation::Division });
    }
    if !can_broadcast(left.shape(), shape) {
        return Err(mismatch(Operation::Division, shape, left.shape()));
    }
    if !can_broadcast(right.shape(), shape) {
        return Err(mismatch(Operation::Division, shape, right.shape()));
    }
    let l = stretch(left, shape);
    let r = stretch(right, shape);
    let mut data: Vec<T> = Vec::new();
    let mut i: usize = 0;
    while i < l.len()
        invariant
            l.wf(),
            r.wf(),
            l.spec_shape() == r.spec_shape(),
            i <= l.elements().len(),
            data.len() == i,
            forall|j: int|
                0 <= j < i ==> is_quotient(l.elements()[j], r.elements()[j], #[trigger] data[j]),
        decreases l.elements().len() - i,
    {
        data.push(l.data()[i].over(r.data()[i]));
        i += 1;
    }
    let out = l.with_elements(data);
    proof {
        assert forall|idx: Seq<int>| in_bounds(shape@, idx) implies quotient(*left, *right)(
            idx,
            #[trigger] out.at(idx),
        ) by {
            lemma_offset_in_range(shape@, idx);
            assert(l.at(idx) == left.at(source_index(left.spec_shape(), idx)));
            assert(r.at(idx) == right.at(source_index(right.spec_shape(), idx)));
        }
    }
    Ok(out)
}

/// The contribution of an upstream gradient to the left operand of a
/// quotient, before it is reduced: `gradient / right` at every multi-index of
/// the gradient.
///
/// Fails when `right` does not stretch to the shape of the gradient.
pub fn left_contribution<T: Scalar>(gradient: &Tensor<T>, right: &Tensor<T>) -> (out: Result<
    Tensor<T>,
    Error,
>)
    requires
        gradient.wf(),
        right.wf(),
    ensures
        out.is_ok() <==> broadcasts_to(right.spec_shape(), gradient.spec_shape()),
        out matches Ok(t) ==> {
            &&& t.wf()
            &&& t.spec_shape() == gradient.spec_shape()
            &&& forall|idx: Seq<int>|
                in_bounds(gradient.spec_shape(), idx) ==> left_term(*gradient, *right)(
                    idx,
                    #[trigger] t.at(idx),
                )
        },
        out matches Err(e) ==> e.is_mismatch(
            Operation::Division,
            gradient.spec_shape(),
            right.spec_shape(),
        ),
{
    if !can_broadcast(right.shape(), gradient.shape()) {
        return Err(mismatch(Operation::Division, gradient.shape(), right.shape()));
    }
    let r = stretch(right, gradient.shape());
    let mut data: Vec<T> = Vec::new();
    let mut i: usize = 0;
    while i < gradient.len()
        invariant
            gradient.wf(),
            r.wf(),
            gradient.spec_shape() == r.spec_shape(),
            i <= gradient.elements().len(),
            data.len() == i,
            forall|j: int|
                0 <= j < i ==> is_quotient(
                    gradient.elements()[j],
                    r.elements()[j],
                    #[trigger] data[j],
                ),
        decreases gradient.elements().len() - i,
    {
        data.push(gradient.data()[i].over(r.data()[i]));
        i += 1;
    }
    let out = gradient.with_elements(data);
    proof {
        assert forall|idx: Seq<int>| in_bounds(gradient.spec_shape(), idx) implies left_term(
            *gradient,
            *right,
        )(idx, #[trigger] out.at(idx)) by {
            lemma_offset_in_range(gradient.spec_shape(), idx);
            assert(r.at(idx) == right.at(source_index(right.spec_shape(), idx)));
        }
    }
    Ok(out)
}

/// The contribution of an upstream gradient to the right operand of a
/// quotient, before it is reduced: `-gradient * left / right^2` at every
/// multi-index of the gradient.
///
/// Fails when an operand does not stretch to the shape of the gradient.
pub fn right_contribution<T: Scalar>(
    gradient: &Tensor<T>,
    left: &Tensor<T>,
    right: &Tensor<T>,
) -> (out: Result<Tensor<T>, Error>)
    requires
        gradient.wf(),
        left.wf(),
        right.wf(),
    ensures
        out.is_ok() <==> (broadcasts_to(left.spec_shape(), gradient.spec_shape())
            && broadcasts_to(right.spec_shape(), gradient.spec_shape())),
        out matches Ok(t) ==> {
            &&& t.wf()
            &&& t.spec_shape() == gradient.spec_shape()
            &&& forall|idx: Seq<int>|
                in_bounds(gradient.spec_shape(), idx) ==> right_term(*gradient, *left, *right)(
                    idx,
                    #[trigger] t.at(idx),
                )
        },
        out matches Err(e) ==> if !broadcasts_to(left.spec_shape(), gradient.spec_shape()) {
            e.is_mismatch(Operation::Division, gradient.spec_shape(), left.spec_shape())
        } else {
            e.is_mismatch(Operation::Division, gradient.spec_shape(), right.spec_shape())
        },
{
    if !can_broadcast(left.shape(), gradient.shape()) {
        return Err(mismatch(Operation::Division, gradient.shape(), left.shape()));
    }
    if !can_broadcast(right.shape(), gradient.shape()) {
        return Err(mismatch(Operation::Division, gradient.shape(), right.shape()));
    }
    let l = stretch(left, gradient.shape());
    let r = stretch(right, gradient.shape());
    let mut data: Vec<T> = Vec::new();
    let mut i: usize = 0;
    while i < gradient.len()
        invariant
            gradient.wf(),
            l.wf(),
            r.wf(),
            gradient.spec_shape() == l.spec_shape(),
            gradient.spec_shape() == r.spec_shape(),
            i <= gradient.elements().len(),
            data.len() == i,
            forall|j: int|
                0 <= j < i ==> is_right_term(
                    gradient.elements()[j],
                    l.elements()[j],
                    r.elements()[j],
                    #[trigger] data[j],
                ),
        decreases gradient.elements().len() - i,
    {
        let g = gradient.data()[i];
        let opposite = g.negated();
        let product = opposite.times(l.data()[i]);
        let square = r.data()[i].powi(2);
        let value = product.over(square);
        assert(is_opposite(g, opposite) && is_quotient(product, square, value));
        data.push(value);
        i += 1;
    }
    let out = gradient.with_elements(data);
    proof {
        assert forall|idx: Seq<int>| in_bounds(gradient.spec_shape(), idx) implies right_term(
            *gradient,
            *left,
            *right,
        )(idx, #[trigger] out.at(idx)) by {
            lemma_offset_in_range(gradient.spec_shape(), idx);
            assert(l.at(idx) == left.at(source_index(left.spec_shape(), idx)));
            assert(r.at(idx) == right.at(source_index(right.spec_shape(), idx)));
        }
    }
    Ok(out)
}

/// Reduces `contribution`, which holds values `term`, to the shape of `node`
/// and pushes it there.
fn hand_over<T: Scalar>(
    node: &mut Accumulator<T>,
    contribution: &Tensor<T>,
    Ghost(term): Ghost<spec_fn(Seq<int>, T) -> bool>,
) -> (out: Result<(), Error>)
    requires
        old(node).wf(),
        old(node).gradient_view().is_some(),
        contribution.wf(),
        broadcasts_to(old(node).shape_view(), contribution.spec_shape()),
        forall|idx: Seq<int>|
            in_bounds(contribution.spec_shape(), idx) ==> term(
                idx,
                #[trigger] contribution.at(idx),
            ),
    ensures
        out.is_ok(),
        took(
            *old(node),
            *final(node),
            reduced(term, contribution.spec_shape(), old(node).shape_view()),
        ),
{
    let ghost shape = contribution.spec_shape();
    let ghost dest = node.shape_view();
    let ghost before = *node;
    let pushed = push_reduced(node, contribution);
    proof {
        assert forall|idx: Seq<int>, r: T|
            in_bounds(dest, idx) && #[trigger] reduced(values(*contribution), shape, dest)(
                idx,
                r,
            ) implies reduced(term, shape, dest)(idx, r) by {
            assert forall|x: Seq<int>, v: T|
                in_bounds(shape, x) && #[trigger] values(*contribution)(x, v) implies term(x, v) by {
                assert(term(x, contribution.at(x)));
            }
            lemma_reduced_reads_fiber(values(*contribution), term, shape, dest, idx, r);
        }
        lemma_took_among(
            before,
            *node,
            reduced(values(*contribution), shape, dest),
            reduced(term, shape, dest),
        );
    }
    pushed
}

/// The forward node of a quotient: it caches `left / right`, computed
/// elementwise over the common shape of the operands.
pub struct Division<T> {
    left_shape: Vec<usize>,
    right_shape: Vec<usize>,
    data: Tensor<T>,
    computed: bool,
}

impl<T: Scalar> Division<T> {
    /// The shape of the left operand.
    pub closed spec fn left_shape_view(&self) -> Seq<usize> {
        self.left_shape@
    }

    /// The shape of the right operand.
    pub closed spec fn right_shape_view(&self) -> Seq<usize> {
        self.right_shape@
    }

    /// The cached value.
    pub closed spec fn data_view(&self) -> Tensor<T> {
        self.data
    }

    /// Whether the cached value is the result of the current forward pass.
    pub closed spec fn computed_view(&self) -> bool {
        self.computed
    }

    /// The cached value has the common shape of the operands.
    pub open spec fn wf(&self) -> bool {
        &&& compatible(self.left_shape_view(), self.right_shape_view())
        &&& self.data_view().wf()
        &&& self.data_view().spec_shape() == broadcast_shape(
            self.left_shape_view(),
            self.right_shape_view(),
        )
    }

    /// The operands have the shapes that the node was built for.
    pub open spec fn accepts(&self, left: Tensor<T>, right: Tensor<T>) -> bool {
        &&& left.spec_shape() == self.left_shape_view()
        &&& right.spec_shape() == self.right_shape_view()
    }

    /// `after` is the node that a forward pass over `left` and `right` makes
    /// of this node: the same node when the value was computed already or the
    /// operands are refused, and else the node that caches the quotient.
    pub open spec fn forwarded(self, after: Self, left: Tensor<T>, right: Tensor<T>) -> bool {
        if self.computed_view() || !self.accepts(left, right) {
            after == self
        } else {
            &&& after.computed_view()
            &&& after.left_shape_view() == self.left_shape_view()
            &&& after.right_shape_view() == self.right_shape_view()
            &&& after.data_view().wf()
            &&& after.data_view().spec_shape() == self.data_view().spec_shape()
            &&& forall|idx: Seq<int>|
                in_bounds(self.data_view().spec_shape(), idx) ==> quotient(left, right)(
                    idx,
                    #[trigger] after.data_view().at(idx),
                )
        }
    }

    /// The forward pass is memoized: once a pass has computed the value, a
    /// second pass changes nothing, whatever the operands hold by then.
    pub proof fn lemma_forward_memoized(
        self,
        first: Self,
        second: Self,
        left: Tensor<T>,
        right: Tensor<T>,
        later_left: Tensor<T>,
        later_right: Tensor<T>,
    )
        requires
            self.computed_view() || self.accepts(left, right),
            self.forwarded(first, left, right),
            first.forwarded(second, later_left, later_right),
        ensures
            first.computed_view(),
            second == first,
    {
    }

    /// The node of `left / right`. Its value is a tensor of zeros of the
    /// common shape of the operands until the first forward pass.
    ///
    /// Fails when the shapes of the operands are not compatible, or when
    /// their common shape is not representable.
    pub fn new(left: &Tensor<T>, right: &Tensor<T>) -> (out: Result<Self, Error>)
        requires
            left.wf(),
            right.wf(),
        ensures
            out.is_ok() <==> (compatible(left.spec_shape(), right.spec_shape()) && representable(
                broadcast_shape(left.spec_shape(), right.spec_shape()),
            )),
            out matches Ok(node) ==> {
                &&& node.wf()
                &&& node.accepts(*left, *right)
                &&& !node.computed_view()
                &&& node.data_view().is_zero()
            },
            out matches Err(e) ==> if compatible(left.spec_shape(), right.spec_shape()) {
                e.is_overflow(Operation::Division)
            } else {
                e.is_mismatch(Operation::Division, left.spec_shape(), right.spec_shape())
            },
    {
        let shape = match cobroadcast(left.shape(), right.shape()) {
            Some(s) => s,
            None => {
                return Err(mismatch(Operation::Division, left.shape(), right.shape()));
            },
        };
        match Tensor::zeros(shape) {
            Some(data) => Ok(
                Division {
                    left_shape: copy_shape(left.shape()),
                    right_shape: copy_shape(right.shape()),
                    data,
                    computed: false,
                },
            ),
            None => Err(Error::ShapeOverflow { operation: Operation::Division }),
        }
    }

    /// Whether the cached value has the common shape of the operands.
    pub fn is_well_formed(&self) -> (sound: bool)
        ensures
            sound == self.wf(),
    {
        match cobroadcast(&self.left_shape, &self.right_shape) {
            Some(shape) => self.data.is_well_formed() && same_shape(self.data.shape(), &shape),
            None => false,
        }
    }

    /// The cached value.
    pub fn data(&self) -> (d: &Tensor<T>)
        ensures
            *d == self.data_view(),
    {
        &self.data
    }

    /// Exclusive access to the cached value. Whoever writes through it keeps
    /// the shape.
    pub fn data_mut(&mut self) -> (d: &mut Tensor<T>)
        ensures
            *d == old(self).data_view(),
            final(self).data_view() == *final(d),
            final(self).left_shape_view() == old(self).left_shape_view(),
            final(self).right_shape_view() == old(self).right_shape_view(),
            final(self).computed_view() == old(self).computed_view(),
    {
        &mut self.data
    }

    /// Whether the cached value is the result of the current forward pass.
    pub fn was_computed(&self) -> (b: bool)
        ensures
            b == self.computed_view(),
    {
        self.computed
    }

    /// Marks the cached value as stale, so that the next forward pass
    /// computes it again.
    pub fn reset_computation(&mut self)
        ensures
            !final(self).computed_view(),
            final(self).data_view() == old(self).data_view(),
            final(self).left_shape_view() == old(self).left_shape_view(),
            final(self).right_shape_view() == old(self).right_shape_view(),
    {
        self.computed = false;
    }

    /// Computes the quotient of the operands, unless it was computed already.
    ///
    /// Fails, and changes nothing, when the value is stale and an operand
    /// does not have the shape that the node was built for.
    pub fn forward(&mut self, left: &Tensor<T>, right: &Tensor<T>) -> (out: Result<(), Error>)
        requires
            old(self).wf(),
            left.wf(),
            right.wf(),
        ensures
            final(self).wf(),
            old(self).forwarded(*final(self), *left, *right),
            out.is_ok() <==> (old(self).computed_view() || old(self).accepts(*left, *right)),
            out matches Err(e) ==> if left.spec_shape() != old(self).left_shape_view() {
                e.is_mismatch(Operation::Division, old(self).left_shape_view(), left.spec_shape())
            } else {
                e.is_mismatch(
                    Operation::Division,
                    old(self).right_shape_view(),
                    right.spec_shape(),
                )
            },
    {
        if self.computed {
            return Ok(());
        }
        check_shape(Operation::Division, &self.left_shape, left.shape())?;
        check_shape(Operation::Division, &self.right_shape, right.shape())?;
        proof {
            lemma_broadcast_shape_covers(self.left_shape@, self.right_shape@);
        }
        self.data = divide(left, right, self.data.shape())?;
        self.computed = true;
        Ok(())
    }
}

/// The backward node of a quotient whose two operands both want a gradient.
pub struct DivisionBackward<T> {
    accumulator: Accumulator<T>,
    left_data_shape: Vec<usize>,
    left_shape: Vec<usize>,
    right_data_shape: Vec<usize>,
    right_shape: Vec<usize>,
}

impl<T: Scalar> DivisionBackward<T> {
    /// The shapes of the operands that the node was built for: the value and
    /// the gradient of the left operand, then those of the right operand.
    pub closed spec fn wiring(&self) -> (Seq<usize>, Seq<usize>, Seq<usize>, Seq<usize>) {
        (self.left_data_shape@, self.left_shape@, self.right_data_shape@, self.right_shape@)
    }

    /// The gradient has the common shape of the operand gradients, and the
    /// operand values stretch to it.
    pub open spec fn wf(&self) -> bool {
        &&& self.accumulator_view().wf()
        &&& compatible(self.wiring().1, self.wiring().3)
        &&& self.shape_view() == broadcast_shape(self.wiring().1, self.wiring().3)
        &&& broadcasts_to(self.wiring().0, self.shape_view())
        &&& broadcasts_to(self.wiring().2, self.shape_view())
    }

    /// A node can be built for these operands.
    pub open spec fn buildable(
        left_data: Tensor<T>,
        left_grad: Accumulator<T>,
        right_data: Tensor<T>,
        right_grad: Accumulator<T>,
    ) -> bool {
        let shape = broadcast_shape(left_grad.shape_view(), right_grad.shape_view());
        &&& left_grad.gradient_view().is_some()
        &&& right_grad.gradient_view().is_some()
        &&& compatible(left_grad.shape_view(), right_grad.shape_view())
        &&& representable(shape)
        &&& broadcasts_to(left_data.spec_shape(), shape)
        &&& broadcasts_to(right_data.spec_shape(), shape)
    }

    /// The operands are those that the node was built for, and every
    /// gradient that the backward pass touches is tracked.
    pub open spec fn ready(
        &self,
        left_data: Tensor<T>,
        right_data: Tensor<T>,
        left_grad: Accumulator<T>,
        right_grad: Accumulator<T>,
    ) -> bool {
        &&& self.gradient_view().is_some()
        &&& left_grad.gradient_view().is_some()
        &&& right_grad.gradient_view().is_some()
        &&& self.wiring() == (
            left_data.spec_shape(),
            left_grad.shape_view(),
            right_data.spec_shape(),
            right_grad.shape_view(),
        )
    }

    /// The first operand shape that differs from the one the node was built
    /// for: the expected shape, then the one found.
    pub open spec fn misfit(
        &self,
        left_data: Tensor<T>,
        right_data: Tensor<T>,
        left_grad: Accumulator<T>,
        right_grad: Accumulator<T>,
    ) -> (Seq<usize>, Seq<usize>) {
        if self.wiring().0 != left_data.spec_shape() {
            (self.wiring().0, left_data.spec_shape())
        } else if self.wiring().1 != left_grad.shape_view() {
            (self.wiring().1, left_grad.shape_view())
        } else if self.wiring().2 != right_data.spec_shape() {
            (self.wiring().2, right_data.spec_shape())
        } else {
            (self.wiring().3, right_grad.shape_view())
        }
    }

    /// The backward node of `left / right`. Its gradient is a tensor of zeros
    /// of the common shape of the operand gradients, which the first push
    /// will replace.
    ///
    /// Fails when an operand tracks no gradient, when the shapes of the
    /// operand gradients are not compatible or their common shape is not
    /// representable, or when an operand value does not stretch to that
    /// shape.
    pub fn new(
        left_data: &Tensor<T>,
        left_grad: &Accumulator<T>,
        right_data: &Tensor<T>,
        right_grad: &Accumulator<T>,
    ) -> (out: Result<Self, Error>)
        requires
            left_data.wf(),
            left_grad.wf(),
            right_data.wf(),
            right_grad.wf(),
        ensures
            out.is_ok() <==> Self::buildable(*left_data, *left_grad, *right_data, *right_grad),
            out matches Ok(node) ==> {
                &&& node.wf()
                &&& node.wiring() == (
                    left_data.spec_shape(),
                    left_grad.shape_view(),
                    right_data.spec_shape(),
                    right_grad.shape_view(),
                )
                &&& node.overwrite_view()
                &&& node.gradient_view() matches Some(g) && g.is_zero()
            },
            out matches Err(e) ==> {
                let shape = broadcast_shape(left_grad.shape_view(), right_grad.shape_view());
                if left_grad.gradient_view().is_none() || right_grad.gradient_view().is_none() {
                    e == Error::MissingGradientBuffer
                } else if !compatible(left_grad.shape_view(), right_grad.shape_view()) {
                    e.is_mismatch(
                        Operation::Division,
                        left_grad.shape_view(),
                        right_grad.shape_view(),
                    )
                } else if !representable(shape) {
                    e.is_overflow(Operation::Division)
                } else if !broadcasts_to(left_data.spec_shape(), shape) {
                    e.is_mismatch(Operation::Division, shape, left_data.spec_shape())
                } else {
                    e.is_mismatch(Operation::Division, shape, right_data.spec_shape())
                }
            },
    {
        if !left_grad.has_gradient() || !right_grad.has_gradient() {
            return Err(Error::MissingGradientBuffer);
        }
        let shape = match cobroadcast(left_grad.shape(), right_grad.shape()) {
            Some(s) => s,
            None => {
                return Err(mismatch(Operation::Division, left_grad.shape(), right_grad.shape()));
            },
        };
        let kept = copy_shape(&shape);
        let accumulator = match Accumulator::new(shape) {
            Ok(acc) => acc,
            Err(_) => {
                return Err(Error::ShapeOverflow { operation: Operation::Division });
            },
        };
        if !can_broadcast(left_data.shape(), &kept) {
            return Err(mismatch(Operation::Division, &kept, left_data.shape()));
        }
        if !can_broadcast(right_data.shape(), &kept) {
            return Err(mismatch(Operation::Division, &kept, right_data.shape()));
        }
        Ok(
            DivisionBackward {
                accumulator,
                left_data_shape: copy_shape(left_data.shape()),
                left_shape: copy_shape(left_grad.shape()),
                right_data_shape: copy_shape(right_data.shape()),
                right_shape: copy_shape(right_grad.shape()),
            },
        )
    }

    /// Whether the gradient has the common shape of the operand gradients,
    /// and the operand values stretch to it.
    pub fn is_well_formed(&self) -> (sound: bool)
        ensures
            sound == self.wf(),
    {
        match cobroadcast(&self.left_shape, &self.right_shape) {
            Some(shape) => self.accumulator.is_well_formed() && same_shape(
                self.accumulator.shape(),
                &shape,
            ) && can_broadcast(&self.left_data_shape, &shape) && can_broadcast(
                &self.right_data_shape,
                &shape,
            ),
            None => false,
        }
    }

    /// The accumulator that holds the gradient of this node.
    pub closed spec fn accumulator_view(&self) -> Accumulator<T> {
        self.accumulator
    }

    /// The gradient of this node, when it tracks one.
    pub open spec fn gradient_view(&self) -> Option<Tensor<T>> {
        self.accumulator_view().gradient_view()
    }

    /// The shape of the gradient of this node.
    pub open spec fn shape_view(&self) -> Seq<usize> {
        self.accumulator_view().shape_view()
    }

    /// Whether the next push into this node replaces its gradient.
    pub open spec fn overwrite_view(&self) -> bool {
        self.accumulator_view().overwrite_view()
    }

    /// The accumulator that holds the gradient of this node: what the
    /// consumers of this node push into.
    pub fn accumulator(&self) -> (acc: &Accumulator<T>)
        ensures
            *acc == self.accumulator_view(),
    {
        &self.accumulator
    }

    /// Exclusive access to the accumulator of this node.
    pub fn accumulator_mut(&mut self) -> (acc: &mut Accumulator<T>)
        ensures
            *acc == old(self).accumulator_view(),
            final(self).accumulator_view() == *final(acc),
            final(self).wiring() == old(self).wiring(),
    {
        &mut self.accumulator
    }

    /// The gradient, or `MissingGradientBuffer` when none is tracked.
    pub fn gradient(&self) -> (out: Result<&Tensor<T>, Error>)
        ensures
            out.is_ok() <==> self.gradient_view().is_some(),
            out matches Ok(g) ==> self.gradient_view() == Some(*g),
            out matches Err(e) ==> e == Error::MissingGradientBuffer,
    {
        self.accumulator.gradient()
    }

    /// Exclusive access to the gradient, or `MissingGradientBuffer` when none
    /// is tracked. Whoever writes through it keeps the shape.
    pub fn gradient_mut(&mut self) -> (out: Result<&mut Tensor<T>, Error>)
        ensures
            out.is_ok() <==> old(self).gradient_view().is_some(),
            out matches Ok(g) ==> {
                &&& old(self).gradient_view() == Some(*g)
                &&& final(self).gradient_view() == Some(*final(g))
            },
            out matches Err(e) ==> e == Error::MissingGradientBuffer && final(self).gradient_view()
                == old(self).gradient_view(),
            final(self).shape_view() == old(self).shape_view(),
            final(self).overwrite_view() == old(self).overwrite_view(),
            final(self).wiring() == old(self).wiring(),
    {
        self.accumulator.gradient_mut()
    }

    /// Whether the next push into this node replaces its gradient.
    pub fn can_overwrite(&self) -> (b: bool)
        ensures
            b == self.overwrite_view(),
    {
        self.accumulator.can_overwrite()
    }

    /// Sets whether the next push into this node replaces its gradient.
    pub fn set_overwrite(&mut self, state: bool)
        ensures
            final(self).overwrite_view() == state,
            final(self).gradient_view() == old(self).gradient_view(),
            final(self).shape_view() == old(self).shape_view(),
            final(self).wiring() == old(self).wiring(),
    {
        self.accumulator.set_overwrite(state);
    }

    /// Stops tracking the gradient: the buffer is dropped.
    pub fn no_grad(&mut self)
        ensures
            final(self).accumulator_view() == old(self).accumulator_view().dropped(),
            final(self).wiring() == old(self).wiring(),
    {
        self.accumulator.no_grad();
    }

    /// Tracks the gradient again: whatever was there before, the buffer is
    /// now a tensor of zeros of the node's shape.
    pub fn with_grad(&mut self)
        requires
            old(self).wf(),
        ensures
            final(self).wf(),
            final(self).shape_view() == old(self).shape_view(),
            final(self).overwrite_view() == old(self).overwrite_view(),
            final(self).gradient_view() matches Some(g) && g.is_zero(),
            final(self).wiring() == old(self).wiring(),
    {
        self.accumulator.with_grad();
    }

    /// Hands the gradient of this node on to both operands: `gradient /
    /// right` to the left one and `-gradient * left / right^2` to the right
    /// one, each reduced to the shape of its operand and pushed into the
    /// operand's accumulator. The gradient of this node is read, not
    /// written.
    ///
    /// Fails, and changes nothing, when a gradient that the pass touches is
    /// not tracked or an operand does not have the shape that the node was
    /// built for.
    pub fn backward(
        &self,
        left_data: &Tensor<T>,
        right_data: &Tensor<T>,
        left_grad: &mut Accumulator<T>,
        right_grad: &mut Accumulator<T>,
    ) -> (out: Result<(), Error>)
        requires
            self.wf(),
            left_data.wf(),
            right_data.wf(),
            old(left_grad).wf(),
            old(right_grad).wf(),
        ensures
            final(left_grad).wf(),
            final(right_grad).wf(),
            out.is_ok() <==> self.ready(*left_data, *right_data, *old(left_grad), *old(right_grad)),
            out matches Err(e) ==> {
                &&& *final(left_grad) == *old(left_grad)
                &&& *final(right_grad) == *old(right_grad)
                &&& if self.gradient_view().is_none() || old(left_grad).gradient_view().is_none()
                    || old(right_grad).gradient_view().is_none() {
                    e == Error::MissingGradientBuffer
                } else {
                    e.is_mismatch(
                        Operation::Division,
                        self.misfit(*left_data, *right_data, *old(left_grad), *old(right_grad)).0,
                        self.misfit(*left_data, *right_data, *old(left_grad), *old(right_grad)).1,
                    )
                }
            },
            out.is_ok() ==> {
                &&& took(
                    *old(left_grad),
                    *final(left_grad),
                    reduced(
                        left_term(self.gradient_view().unwrap(), *right_data),
                        self.shape_view(),
                        old(left_grad).shape_view(),
                    ),
                )
                &&& took(
                    *old(right_grad),
                    *final(right_grad),
                    reduced(
                        right_term(self.gradient_view().unwrap(), *left_data, *right_data),
                        self.shape_view(),
                        old(right_grad).shape_view(),
                    ),
                )
            },
    {
        let gradient = self.accumulator.gradient()?;
        if !left_grad.has_gradient() || !right_grad.has_gradient() {
            return Err(Error::MissingGradientBuffer);
        }
        check_shape(Operation::Division, &self.left_data_shape, left_data.shape())?;
        check_shape(Operation::Division, &self.left_shape, left_grad.shape())?;
        check_shape(Operation::Division, &self.right_data_shape, right_data.shape())?;
        check_shape(Operation::Division, &self.right_shape, right_grad.shape())?;
        proof {
            lemma_broadcast_shape_covers(self.left_shape@, self.right_shape@);
        }
        let to_left = left_contribution(gradient, right_data)?;
        let to_right = right_contribution(gradient, left_data, right_data)?;
        hand_over(left_grad, &to_left, Ghost(left_term(*gradient, *right_data)))?;
        hand_over(right_grad, &to_right, Ghost(right_term(*gradient, *left_data, *right_data)))
    }
}


/// The backward node of a quotient of which only the left operand wants a
/// gradient.
pub struct DivisionBackwardLeft<T> {
    accumulator: Accumulator<T>,
    left_shape: Vec<usize>,
    right_data_shape: Vec<usize>,
}

impl<T: Scalar> DivisionBackwardLeft<T> {
    /// The shapes of the operands that the node was built for: the gradient
    /// of the left operand, then the value of the right operand.
    pub closed spec fn wiring(&self) -> (Seq<usize>, Seq<usize>) {
        (self.left_shape@, self.right_data_shape@)
    }

    /// The gradient has the common shape of the left gradient and the right
    /// value.
    pub open spec fn wf(&self) -> bool {
        &&& self.accumulator_view().wf()
        &&& compatible(self.wiring().0, self.wiring().1)
        &&& self.shape_view() == broadcast_shape(self.wiring().0, self.wiring().1)
    }

    /// A node can be built for these operands.
    pub open spec fn buildable(left_grad: Accumulator<T>, right_data: Tensor<T>) -> bool {
        &&& left_grad.gradient_view().is_some()
        &&& compatible(left_grad.shape_view(), right_data.spec_shape())
        &&& representable(broadcast_shape(left_grad.shape_view(), right_data.spec_shape()))
    }

    /// The operands are those that the node was built for, and every
    /// gradient that the backward pass touches is tracked.
    pub open spec fn ready(&self, right_data: Tensor<T>, left_grad: Accumulator<T>) -> bool {
        &&& self.gradient_view().is_some()
        &&& left_grad.gradient_view().is_some()
        &&& self.wiring() == (left_grad.shape_view(), right_data.spec_shape())
    }

    /// The first operand shape that differs from the one the node was built
    /// for: the expected shape, then the one found.
    pub open spec fn misfit(&self, right_data: Tensor<T>, left_grad: Accumulator<T>) -> (
        Seq<usize>,
        Seq<usize>,
    ) {
        if self.wiring().0 != left_grad.shape_view() {
            (self.wiring().0, left_grad.shape_view())
        } else {
            (self.wiring().1, right_data.spec_shape())
        }
    }

    /// The backward node of `left / right` for a left operand that wants a
    /// gradient and a right operand that wants none. Its gradient is a tensor
    /// of zeros of the common shape of the left gradient and the right value.
    ///
    /// Fails when the left operand tracks no gradient, when the two shapes
    /// are not compatible, or when their common shape is not representable.
    pub fn new(left_grad: &Accumulator<T>, right_data: &Tensor<T>) -> (out: Result<Self, Error>)
        requires
            left_grad.wf(),
            right_data.wf(),
        ensures
            out.is_ok() <==> Self::buildable(*left_grad, *right_data),
            out matches Ok(node) ==> {
                &&& node.wf()
                &&& node.wiring() == (left_grad.shape_view(), right_data.spec_shape())
                &&& node.overwrite_view()
                &&& node.gradient_view() matches Some(g) && g.is_zero()
            },
            out matches Err(e) ==> if left_grad.gradient_view().is_none() {
                e == Error::MissingGradientBuffer
            } else if !compatible(left_grad.shape_view(), right_data.spec_shape()) {
                e.is_mismatch(Operation::Division, left_grad.shape_view(), right_data.spec_shape())
            } else {
                e.is_overflow(Operation::Division)
            },
    {
        if !left_grad.has_gradient() {
            return Err(Error::MissingGradientBuffer);
        }
        let shape = match cobroadcast(left_grad.shape(), right_data.shape()) {
            Some(s) => s,
            None => {
                return Err(mismatch(Operation::Division, left_grad.shape(), right_data.shape()));
            },
        };
        match Accumulator::new(shape) {
            Ok(accumulator) => Ok(
                DivisionBackwardLeft {
                    accumulator,
                    left_shape: copy_shape(left_grad.shape()),
                    right_data_shape: copy_shape(right_data.shape()),
                },
            ),
            Err(_) => Err(Error::ShapeOverflow { operation: Operation::Division }),
        }
    }

    /// Whether the gradient has the common shape of the left gradient and
    /// the right value.
    pub fn is_well_formed(&self) -> (sound: bool)
        ensures
            sound == self.wf(),
    {
        match cobroadcast(&self.left_shape, &self.right_data_shape) {
            Some(shape) => self.accumulator.is_well_formed() && same_shape(
                self.accumulator.shape(),
                &shape,
            ),
            None => false,
        }
    }

    /// The accumulator that holds the gradient of this node.
    pub closed spec fn accumulator_view(&self) -> Accumulator<T> {
        self.accumulator
    }

    /// The gradient of this node, when it tracks one.
    pub open spec fn gradient_view(&self) -> Option<Tensor<T>> {
        self.accumulator_view().gradient_view()
    }

    /// The shape of the gradient of this node.
    pub open spec fn shape_view(&self) -> Seq<usize> {
        self.accumulator_view().shape_view()
    }

    /// Whether the next push into this node replaces its gradient.
    pub open spec fn overwrite_view(&self) -> bool {
        self.accumulator_view().overwrite_view()
    }

    /// The accumulator that holds the gradient of this node: what the
    /// consumers of this node push into.
    pub fn accumulator(&self) -> (acc: &Accumulator<T>)
        ensures
            *acc == self.accumulator_view(),
    {
        &self.accumulator
    }

    /// Exclusive access to the accumulator of this node.
    pub fn accumulator_mut(&mut self) -> (acc: &mut Accumulator<T>)
        ensures
            *acc == old(self).accumulator_view(),
            final(self).accumulator_view() == *final(acc),
            final(self).wiring() == old(self).wiring(),
    {
        &mut self.accumulator
    }

    /// The gradient, or `MissingGradientBuffer` when none is tracked.
    pub fn gradient(&self) -> (out: Result<&Tensor<T>, Error>)
        ensures
            out.is_ok() <==> self.gradient_view().is_some(),
            out matches Ok(g) ==> self.gradient_view() == Some(*g),
            out matches Err(e) ==> e == Error::MissingGradientBuffer,
    {
        self.accumulator.gradient()
    }

    /// Exclusive access to the gradient, or `MissingGradientBuffer` when none
    /// is tracked. Whoever writes through it keeps the shape.
    pub fn gradient_mut(&mut self) -> (out: Result<&mut Tensor<T>, Error>)
        ensures
            out.is_ok() <==> old(self).gradient_view().is_some(),
            out matches Ok(g) ==> {
                &&& old(self).gradient_view() == Some(*g)
                &&& final(self).gradient_view() == Some(*final(g))
            },
            out matches Err(e) ==> e == Error::MissingGradientBuffer && final(self).gradient_view()
                == old(self).gradient_view(),
            final(self).shape_view() == old(self).shape_view(),
            final(self).overwrite_view() == old(self).overwrite_view(),
            final(self).wiring() == old(self).wiring(),
    {
        self.accumulator.gradient_mut()
    }

    /// Whether the next push into this node replaces its gradient.
    pub fn can_overwrite(&self) -> (b: bool)
        ensures
            b == self.overwrite_view(),
    {
        self.accumulator.can_overwrite()
    }

    /// Sets whether the next push into this node replaces its gradient.
    pub fn set_overwrite(&mut self, state: bool)
        ensures
            final(self).overwrite_view() == state,
            final(self).gradient_view() == old(self).gradient_view(),
            final(self).shape_view() == old(self).shape_view(),
            final(self).wiring() == old(self).wiring(),
    {
        self.accumulator.set_overwrite(state);
    }

    /// Stops tracking the gradient: the buffer is dropped.
    pub fn no_grad(&mut self)
        ensures
            final(self).accumulator_view() == old(self).accumulator_view().dropped(),
            final(self).wiring() == old(self).wiring(),
    {
        self.accumulator.no_grad();
    }

    /// Tracks the gradient again: whatever was there before, the buffer is
    /// now a tensor of zeros of the node's shape.
    pub fn with_grad(&mut self)
        requires
            old(self).wf(),
        ensures
            final(self).wf(),
            final(self).shape_view() == old(self).shape_view(),
            final(self).overwrite_view() == old(self).overwrite_view(),
            final(self).gradient_view() matches Some(g) && g.is_zero(),
            final(self).wiring() == old(self).wiring(),
    {
        self.accumulator.with_grad();
    }

    /// Hands the gradient of this node on to the left operand: `gradient /
    /// right`, reduced to the shape of the operand and pushed into its
    /// accumulator. The gradient of this node is read, not written.
    ///
    /// Fails, and changes nothing, when a gradient that the pass touches is
    /// not tracked or an operand does not have the shape that the node was
    /// built for.
    pub fn backward(&self, right_data: &Tensor<T>, left_grad: &mut Accumulator<T>) -> (out: Result<
        (),
        Error,
    >)
        requires
            self.wf(),
            right_data.wf(),
            old(left_grad).wf(),
        ensures
            final(left_grad).wf(),
            out.is_ok() <==> self.ready(*right_data, *old(left_grad)),
            out matches Err(e) ==> {
                &&& *final(left_grad) == *old(left_grad)
                &&& if self.gradient_view().is_none() || old(left_grad).gradient_view().is_none() {
                    e == Error::MissingGradientBuffer
                } else {
                    e.is_mismatch(
                        Operation::Division,
                        self.misfit(*right_data, *old(left_grad)).0,
                        self.misfit(*right_data, *old(left_grad)).1,
                    )
                }
            },
            out.is_ok() ==> took(
                *old(left_grad),
                *final(left_grad),
                reduced(
                    left_term(self.gradient_view().unwrap(), *right_data),
                    self.shape_view(),
                    old(left_grad).shape_view(),
                ),
            ),
    {
        let gradient = self.accumulator.gradient()?;
        if !left_grad.has_gradient() {
            return Err(Error::MissingGradientBuffer);
        }
        check_shape(Operation::Division, &self.left_shape, left_grad.shape())?;
        check_shape(Operation::Division, &self.right_data_shape, right_data.shape())?;
        proof {
            lemma_broadcast_shape_covers(self.left_shape@, self.right_data_shape@);
        }
        let to_left = left_contribution(gradient, right_data)?;
        hand_over(left_grad, &to_left, Ghost(left_term(*gradient, *right_data)))
    }
}


/// The backward node of a quotient of which only the right operand wants a
/// gradient.
pub struct DivisionBackwardRight<T> {
    accumulator: Accumulator<T>,
    left_data_shape: Vec<usize>,
    right_data_shape: Vec<usize>,
    right_shape: Vec<usize>,
}

impl<T: Scalar> DivisionBackwardRight<T> {
    /// The shapes of the operands that the node was built for: the value of
    /// the left operand, then the value and the gradient of the right
    /// operand.
    pub closed spec fn wiring(&self) -> (Seq<usize>, Seq<usize>, Seq<usize>) {
        (self.left_data_shape@, self.right_data_shape@, self.right_shape@)
    }

    /// The gradient has the common shape of the left value and the right
    /// gradient, and the right value stretches to it.
    pub open spec fn wf(&self) -> bool {
        &&& self.accumulator_view().wf()
        &&& compatible(self.wiring().0, self.wiring().2)
        &&& self.shape_view() == broadcast_shape(self.wiring().0, self.wiring().2)
        &&& broadcasts_to(self.wiring().1, self.shape_view())
    }

    /// A node can be built for these operands.
    pub open spec fn buildable(
        left_data: Tensor<T>,
        right_data: Tensor<T>,
        right_grad: Accumulator<T>,
    ) -> bool {
        let shape = broadcast_shape(left_data.spec_shape(), right_grad.shape_view());
        &&& right_grad.gradient_view().is_some()
        &&& compatible(left_data.spec_shape(), right_grad.shape_view())
        &&& representable(shape)
        &&& broadcasts_to(right_data.spec_shape(), shape)
    }

    /// The operands are those that the node was built for, and every
    /// gradient that the backward pass touches is tracked.
    pub open spec fn ready(
        &self,
        left_data: Tensor<T>,
        right_data: Tensor<T>,
        right_grad: Accumulator<T>,
    ) -> bool {
        &&& self.gradient_view().is_some()
        &&& right_grad.gradient_view().is_some()
        &&& self.wiring() == (
            left_data.spec_shape(),
            right_data.spec_shape(),
            right_grad.shape_view(),
        )
    }

    /// The first operand shape that differs from the one the node was built
    /// for: the expected shape, then the one found.
    pub open spec fn misfit(
        &self,
        left_data: Tensor<T>,
        right_data: Tensor<T>,
        right_grad: Accumulator<T>,
    ) -> (Seq<usize>, Seq<usize>) {
        if self.wiring().0 != left_data.spec_shape() {
            (self.wiring().0, left_data.spec_shape())
        } else if self.wiring().1 != right_data.spec_shape() {
            (self.wiring().1, right_data.spec_shape())
        } else {
            (self.wiring().2, right_grad.shape_view())
        }
    }

    /// The backward node of `left / right` for a right operand that wants a
    /// gradient and a left operand that wants none. Its gradient is a tensor
    /// of zeros of the common shape of the left value and the right
    /// gradient.
    ///
    /// Fails when the right operand tracks no gradient, when the two shapes
    /// are not compatible or their common shape is not representable, or
    /// when the right value does not stretch to that shape.
    pub fn new(left_data: &Tensor<T>, right_data: &Tensor<T>, right_grad: &Accumulator<T>) -> (out:
        Result<Self, Error>)
        requires
            left_data.wf(),
            right_data.wf(),
            right_grad.wf(),
        ensures
            out.is_ok() <==> Self::buildable(*left_data, *right_data, *right_grad),
            out matches Ok(node) ==> {
                &&& node.wf()
                &&& node.wiring() == (
                    left_data.spec_shape(),
                    right_data.spec_shape(),
                    right_grad.shape_view(),
                )
                &&& node.overwrite_view()
                &&& node.gradient_view() matches Some(g) && g.is_zero()
            },
            out matches Err(e) ==> {
                let shape = broadcast_shape(left_data.spec_shape(), right_grad.shape_view());
                if right_grad.gradient_view().is_none() {
                    e == Error::MissingGradientBuffer
                } else if !compatible(left_data.spec_shape(), right_grad.shape_view()) {
                    e.is_mismatch(
                        Operation::Division,
                        left_data.spec_shape(),
                        right_grad.shape_view(),
                    )
                } else if !representable(shape) {
                    e.is_overflow(Operation::Division)
                } else {
                    e.is_mismatch(Operation::Division, shape, right_data.spec_shape())
                }
            },
    {
        if !right_grad.has_gradient() {
            return Err(Error::MissingGradientBuffer);
        }
        let shape = match cobroadcast(left_data.shape(), right_grad.shape()) {
            Some(s) => s,
            None => {
                return Err(mismatch(Operation::Division, left_data.shape(), right_grad.shape()));
            },
        };
        let kept = copy_shape(&shape);
        let accumulator = match Accumulator::new(shape) {
            Ok(acc) => acc,
            Err(_) => {
                return Err(Error::ShapeOverflow { operation: Operation::Division });
            },
        };
        if !can_broadcast(right_data.shape(), &kept) {
            return Err(mismatch(Operation::Division, &kept, right_data.shape()));
        }
        Ok(
            DivisionBackwardRight {
                accumulator,
                left_data_shape: copy_shape(left_data.shape()),
                right_data_shape: copy_shape(right_data.shape()),
                right_shape: copy_shape(right_grad.shape()),
            },
        )
    }

    /// Whether the gradient has the common shape of the left value and the
    /// right gradient, and the right value stretches to it.
    pub fn is_well_formed(&self) -> (sound: bool)
        ensures
            sound == self.wf(),
    {
        match cobroadcast(&self.left_data_shape, &self.right_shape) {
            Some(shape) => self.accumulator.is_well_formed() && same_shape(
                self.accumulator.shape(),
                &shape,
            ) && can_broadcast(&self.right_data_shape, &shape),
            None => false,
        }
    }

    /// The accumulator that holds the gradient of this node.
    pub closed spec fn accumulator_view(&self) -> Accumulator<T> {
        self.accumulator
    }

    /// The gradient of this node, when it tracks one.
    pub open spec fn gradient_view(&self) -> Option<Tensor<T>> {
        self.accumulator_view().gradient_view()
    }

    /// The shape of the gradient of this node.
    pub open spec fn shape_view(&self) -> Seq<usize> {
        self.accumulator_view().shape_view()
    }

    /// Whether the next push into this node replaces its gradient.
    pub open spec fn overwrite_view(&self) -> bool {
        self.accumulator_view().overwrite_view()
    }

    /// The accumulator that holds the gradient of this node: what the
    /// consumers of this node push into.
    pub fn accumulator(&self) -> (acc: &Accumulator<T>)
        ensures
            *acc == self.accumulator_view(),
    {
        &self.accumulator
    }

    /// Exclusive access to the accumulator of this node.
    pub fn accumulator_mut(&mut self) -> (acc: &mut Accumulator<T>)
        ensures
            *acc == old(self).accumulator_view(),
            final(self).accumulator_view() == *final(acc),
            final(self).wiring() == old(self).wiring(),
    {
        &mut self.accumulator
    }

    /// The gradient, or `MissingGradientBuffer` when none is tracked.
    pub fn gradient(&self) -> (out: Result<&Tensor<T>, Error>)
        ensures
            out.is_ok() <==> self.gradient_view().is_some(),
            out matches Ok(g) ==> self.gradient_view() == Some(*g),
            out matches Err(e) ==> e == Error::MissingGradientBuffer,
    {
        self.accumulator.gradient()
    }

    /// Exclusive access to the gradient, or `MissingGradientBuffer` when none
    /// is tracked. Whoever writes through it keeps the shape.
    pub fn gradient_mut(&mut self) -> (out: Result<&mut Tensor<T>, Error>)
        ensures
            out.is_ok() <==> old(self).gradient_view().is_some(),
            out matches Ok(g) ==> {
                &&& old(self).gradient_view() == Some(*g)
                &&& final(self).gradient_view() == Some(*final(g))
            },
            out matches Err(e) ==> e == Error::MissingGradientBuffer && final(self).gradient_view()
                == old(self).gradient_view(),
            final(self).shape_view() == old(self).shape_view(),
            final(self).overwrite_view() == old(self).overwrite_view(),
            final(self).wiring() == old(self).wiring(),
    {
        self.accumulator.gradient_mut()
    }

    /// Whether the next push into this node replaces its gradient.
    pub fn can_overwrite(&self) -> (b: bool)
        ensures
            b == self.overwrite_view(),
    {
        self.accumulator.can_overwrite()
    }

    /// Sets whether the next push into this node replaces its gradient.
    pub fn set_overwrite(&mut self, state: bool)
        ensures
            final(self).overwrite_view() == state,
            final(self).gradient_view() == old(self).gradient_view(),
            final(self).shape_view() == old(self).shape_view(),
            final(self).wiring() == old(self).wiring(),
    {
        self.accumulator.set_overwrite(state);
    }

    /// Stops tracking the gradient: the buffer is dropped.
    pub fn no_grad(&mut self)
        ensures
            final(self).accumulator_view() == old(self).accumulator_view().dropped(),
            final(self).wiring() == old(self).wiring(),
    {
        self.accumulator.no_grad();
    }

    /// Tracks the gradient again: whatever was there before, the buffer is
    /// now a tensor of zeros of the node's shape.
    pub fn with_grad(&mut self)
        requires
            old(self).wf(),
        ensures
            final(self).wf(),
            final(self).shape_view() == old(self).shape_view(),
            final(self).overwrite_view() == old(self).overwrite_view(),
            final(self).gradient_view() matches Some(g) && g.is_zero(),
            final(self).wiring() == old(self).wiring(),
    {
        self.accumulator.with_grad();
    }

    /// Hands the gradient of this node on to the right operand: `-gradient *
    /// left / right^2`, reduced to the shape of the operand and pushed into
    /// its accumulator. The gradient of this node is read, not written.
    ///
    /// Fails, and changes nothing, when a gradient that the pass touches is
    /// not tracked or an operand does not have the shape that the node was
    /// built for.
    pub fn backward(
        &self,
        left_data: &Tensor<T>,
        right_data: &Tensor<T>,
        right_grad: &mut Accumulator<T>,
    ) -> (out: Result<(), Error>)
        requires
            self.wf(),
            left_data.wf(),
            right_data.wf(),
            old(right_grad).wf(),
        ensures
            final(right_grad).wf(),
            out.is_ok() <==> self.ready(*left_data, *right_data, *old(right_grad)),
            out matches Err(e) ==> {
                &&& *final(right_grad) == *old(right_grad)
                &&& if self.gradient_view().is_none() || old(right_grad).gradient_view().is_none() {
                    e == Error::MissingGradientBuffer
                } else {
                    e.is_mismatch(
                        Operation::Division,
                        self.misfit(*left_data, *right_data, *old(right_grad)).0,
                        self.misfit(*left_data, *right_data, *old(right_grad)).1,
                    )
                }
            },
            out.is_ok() ==> took(
                *old(right_grad),
                *final(right_grad),
                reduced(
                    right_term(self.gradient_view().unwrap(), *left_data, *right_data),
                    self.shape_view(),
                    old(right_grad).shape_view(),
                ),
            ),
    {
        let gradient = self.accumulator.gradient()?;
        if !right_grad.has_gradient() {
            return Err(Error::MissingGradientBuffer);
        }
        check_shape(Operation::Division, &self.left_data_shape, left_data.shape())?;
        check_shape(Operation::Division, &self.right_data_shape, right_data.shape())?;
        check_shape(Operation::Division, &self.right_shape, right_grad.shape())?;
        proof {
            lemma_broadcast_shape_covers(self.left_data_shape@, self.right_shape@);
        }
        let to_right = right_contribution(gradient, left_data, right_data)?;
        hand_over(right_grad, &to_right, Ghost(right_term(*gradient, *left_data, *right_data)))
    }
}

} // verus!
