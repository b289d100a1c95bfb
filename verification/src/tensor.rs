//! Dense row-major tensors, and the array operations that the graph nodes
//! are built from.

use crate::scalar::{is_sum, is_zero, Scalar};
use crate::shape::{
    broadcasts_to, checked_size, copy_shape, in_bounds, lemma_insert_axis_offset,
    lemma_insert_axis_size, lemma_offset_in_range, lemma_size_le_span, lemma_span_prefix,
    lemma_unravel_offset, offset, representable, size, source_index, unravel,
};
use ndarray::{ArrayViewD, ArrayViewMutD, Axis, Dimension, IxDyn, Slice};
use vstd::prelude::*;

verus! {

/// An n-dimensional array: a shape and its elements in row-major order.
pub struct Tensor<T> {
    shape: Vec<usize>,
    data: Vec<T>,
}

impl<T> Tensor<T> {
    /// The axis lengths.
    pub closed spec fn spec_shape(&self) -> Seq<usize> {
        self.shape@
    }

    /// The elements in row-major order.
    pub closed spec fn elements(&self) -> Seq<T> {
        self.data@
    }

    /// The tensor holds exactly the elements that its shape asks for.
    pub open spec fn wf(&self) -> bool {
        &&& representable(self.spec_shape())
        &&& self.elements().len() == size(self.spec_shape())
    }

    /// The element at the multi-index `idx`.
    pub open spec fn at(&self, idx: Seq<int>) -> T {
        self.elements()[offset(self.spec_shape(), idx)]
    }

    /// A tensor is its shape and its values: two tensors of one shape that
    /// show the same element at every multi-index hold the same elements.
    pub proof fn lemma_same_values(self, other: Self)
        requires
            self.wf(),
            other.wf(),
            self.spec_shape() == other.spec_shape(),
            forall|idx: Seq<int>|
                in_bounds(self.spec_shape(), idx) ==> #[trigger] self.at(idx) == other.at(idx),
        ensures
            self.elements() == other.elements(),
    {
        let shape = self.spec_shape();
        assert forall|i: int| 0 <= i < self.elements().len() implies self.elements()[i]
            == other.elements()[i] by {
            lemma_unravel_offset(shape, i);
            assert(self.at(unravel(shape, i)) == other.at(unravel(shape, i)));
        }
        assert(self.elements() =~= other.elements());
    }

    /// A tensor of the given shape over the given elements, or `None` when
    /// the shape is not representable or asks for another number of
    /// elements.
    pub fn from_vec(shape: Vec<usize>, data: Vec<T>) -> (out: Option<Self>)
        ensures
            out.is_some() <==> (representable(shape@) && data.len() == size(shape@)),
            out matches Some(t) ==> t.wf() && t.spec_shape() == shape@ && t.elements() == data@,
    {
        match checked_size(&shape) {
            Some(n) => {
                if data.len() == n {
                    Some(Tensor { shape, data })
                } else {
                    None
                }
            },
            None => None,
        }
    }

    /// Whether the tensor holds exactly the elements that its shape asks
    /// for.
    pub fn is_well_formed(&self) -> (sound: bool)
        ensures
            sound == self.wf(),
    {
        match checked_size(&self.shape) {
            Some(n) => self.data.len() == n,
            None => false,
        }
    }

    /// The axis lengths.
    pub fn shape(&self) -> (s: &Vec<usize>)
        ensures
            s@ == self.spec_shape(),
    {
        &self.shape
    }

    /// The elements in row-major order.
    pub fn data(&self) -> (d: &Vec<T>)
        ensures
            d@ == self.elements(),
    {
        &self.data
    }

    /// The number of axes.
    pub fn ndim(&self) -> (n: usize)
        ensures
            n == self.spec_shape().len(),
    {
        self.shape.len()
    }

    /// The number of elements.
    pub fn len(&self) -> (n: usize)
        ensures
            n == self.elements().len(),
    {
        self.data.len()
    }
}

/// The multi-index that a vector of axis positions stands for.
pub open spec fn index_of(index: Seq<usize>) -> Seq<int> {
    Seq::new(index.len(), |k: int| index[k] as int)
}

impl<T: Copy> Tensor<T> {
    /// A tensor of the given shape whose elements all equal `value`, or
    /// `None` when the shape is not representable.
    pub fn filled(shape: Vec<usize>, value: T) -> (out: Option<Self>)
        ensures
            out.is_some() <==> representable(shape@),
            out matches Some(t) ==> {
                &&& t.wf()
                &&& t.spec_shape() == shape@
                &&& forall|i: int| 0 <= i < t.elements().len() ==> t.elements()[i] == value
            },
    {
        match checked_size(&shape) {
            Some(n) => {
                let mut data: Vec<T> = Vec::new();
                let mut i: usize = 0;
                while i < n
                    invariant
                        i <= n,
                        data.len() == i,
                        forall|j: int| 0 <= j < i ==> data[j] == value,
                    decreases n - i,
                {
                    data.push(value);
                    i += 1;
                }
                Some(Tensor { shape, data })
            },
            None => None,
        }
    }

    /// The position of the element `index` in the element sequence, or `None`
    /// when the tensor has no such element.
    pub fn position(&self, index: &Vec<usize>) -> (out: Option<usize>)
        requires
            self.wf(),
        ensures
            out.is_some() <==> in_bounds(self.spec_shape(), index_of(index@)),
            out matches Some(p) ==> p == offset(self.spec_shape(), index_of(index@)) && p
                < self.elements().len(),
    {
        let ghost idx = index_of(index@);
        let ghost shape = self.spec_shape();
        if index.len() != self.shape.len() {
            return None;
        }
        let mut k: usize = 0;
        while k < index.len()
            invariant
                index.len() == self.shape.len(),
                k <= index.len(),
                idx == index_of(index@),
                shape == self.shape@,
                forall|j: int| 0 <= j < k ==> 0 <= #[trigger] idx[j] < shape[j],
            decreases index.len() - k,
        {
            if index[k] >= self.shape[k] {
                assert(!(idx[k as int] < shape[k as int]));
                return None;
            }
            k += 1;
        }
        assert(in_bounds(shape, idx));
        let mut acc: usize = 0;
        let mut k: usize = 0;
        while k < index.len()
            invariant
                index.len() == self.shape.len(),
                k <= index.len(),
                idx == index_of(index@),
                shape == self.shape@,
                in_bounds(shape, idx),
                representable(shape),
                acc == offset(shape.take(k as int), idx.take(k as int)),
            decreases index.len() - k,
        {
            proof {
                let s1 = shape.take(k as int + 1);
                let i1 = idx.take(k as int + 1);
                assert(s1.drop_last() =~= shape.take(k as int));
                assert(i1.drop_last() =~= idx.take(k as int));
                assert(in_bounds(s1, i1)) by {
                    assert forall|j: int| 0 <= j < s1.len() implies 0 <= #[trigger] i1[j]
                        < s1[j] by {
                        assert(0 <= idx[j] < shape[j]);
                    }
                }
                lemma_offset_in_range(s1, i1);
                lemma_size_le_span(s1);
                lemma_span_prefix(shape, k as int + 1);
                assert(offset(s1, i1) == acc * shape[k as int] + idx[k as int]);
                assert(acc * shape[k as int] >= 0) by (nonlinear_arith)
                    requires
                        acc >= 0,
                        shape[k as int] >= 0,
                ;
            }
            acc = acc * self.shape[k] + index[k];
            k += 1;
        }
        proof {
            assert(shape.take(k as int) =~= shape);
            assert(idx.take(k as int) =~= idx);
            lemma_offset_in_range(shape, idx);
        }
        Some(acc)
    }

    /// The element at `index`, or `None` when the tensor has no such element.
    pub fn get(&self, index: &Vec<usize>) -> (out: Option<T>)
        requires
            self.wf(),
        ensures
            out.is_some() <==> in_bounds(self.spec_shape(), index_of(index@)),
            out matches Some(v) ==> v == self.at(index_of(index@)),
    {
        match self.position(index) {
            Some(p) => Some(self.data[p]),
            None => None,
        }
    }

    /// A copy of the tensor.
    pub fn duplicate(&self) -> (out: Self)
        ensures
            out.spec_shape() == self.spec_shape(),
            out.elements() == self.elements(),
    {
        let mut data: Vec<T> = Vec::new();
        let mut i: usize = 0;
        while i < self.data.len()
            invariant
                i <= self.data.len(),
                data.len() == i,
                forall|j: int| 0 <= j < i ==> data[j] == self.data[j],
            decreases self.data.len() - i,
        {
            data.push(self.data[i]);
            i += 1;
        }
        assert(data@ =~= self.data@);
        Tensor { shape: copy_shape(&self.shape), data }
    }

    /// A tensor of the same shape over other elements.
    pub(crate) fn with_elements(&self, data: Vec<T>) -> (out: Self)
        requires
            data.len() == self.elements().len(),
        ensures
            out.spec_shape() == self.spec_shape(),
            out.elements() == data@,
    {
        Tensor { shape: copy_shape(&self.shape), data }
    }

    /// The same elements under the shape that has one more axis, of length 1,
    /// at position `axis`.
    pub(crate) fn with_axis(self, axis: usize) -> (out: Self)
        requires
            self.wf(),
            axis <= self.spec_shape().len(),
        ensures
            out.wf(),
            out.spec_shape() == self.spec_shape().insert(axis as int, 1usize),
            out.elements() == self.elements(),
            forall|idx: Seq<int>|
                in_bounds(out.spec_shape(), idx) ==> #[trigger] out.at(idx) == self.at(
                    idx.remove(axis as int),
                ),
    {
        let shape = insert_axis(&self.shape, axis);
        let out = Tensor { shape, data: self.data };
        proof {
            lemma_insert_axis_size(self.spec_shape(), axis as int);
            assert forall|idx: Seq<int>| in_bounds(out.spec_shape(), idx) implies #[trigger] out.at(
                idx,
            ) == self.at(idx.remove(axis as int)) by {
                lemma_insert_axis_offset(self.spec_shape(), axis as int, idx);
            }
        }
        out
    }

    /// Writes `value` at `index` and returns `true`, or returns `false` and
    /// changes nothing when the tensor has no such element.
    pub fn set(&mut self, index: &Vec<usize>, value: T) -> (done: bool)
        requires
            old(self).wf(),
        ensures
            final(self).wf(),
            final(self).spec_shape() == old(self).spec_shape(),
            done == in_bounds(old(self).spec_shape(), index_of(index@)),
            done ==> final(self).elements() == old(self).elements().update(
                offset(old(self).spec_shape(), index_of(index@)),
                value,
            ),
            !done ==> final(self).elements() == old(self).elements(),
    {
        match self.position(index) {
            Some(p) => {
                self.data.set(p, value);
                true
            },
            None => false,
        }
    }
}

impl<T: Scalar> Tensor<T> {
    /// Every element is a zero.
    pub open spec fn is_zero(&self) -> bool {
        forall|i: int| 0 <= i < self.elements().len() ==> is_zero(#[trigger] self.elements()[i])
    }

    /// A tensor of zeros of the given shape, or `None` when the shape is not
    /// representable.
    pub fn zeros(shape: Vec<usize>) -> (out: Option<Self>)
        ensures
            out.is_some() <==> representable(shape@),
            out matches Some(t) ==> t.wf() && t.spec_shape() == shape@ && t.is_zero(),
    {
        Tensor::filled(shape, T::zero())
    }

    /// `r` is a sum, starting from `init`, of the first `n` elements that lie
    /// along `axis` at the place `idx` of the remaining axes, added one after
    /// the other in the order of their position on the axis.
    pub open spec fn sums_along(&self, axis: int, idx: Seq<int>, n: nat, init: T, r: T) -> bool
        decreases n,
    {
        if n == 0 {
            r == init
        } else {
            exists|acc: T|
                self.sums_along(axis, idx, (n - 1) as nat, init, acc) && #[trigger] is_sum(
                    acc,
                    self.at(idx.insert(axis, n - 1)),
                    r,
                )
        }
    }
}

/// The tensor stretched to `shape`: axes of length 1 are repeated, and
/// leading axes are added, until the tensor has that shape.
///
/// Calls `ArrayBase::broadcast` of ndarray. Taken on trust: the call succeeds
/// when the target shape passes ndarray's size check and every axis of the
/// tensor, aligned to the right, has the target's length or length 1; the
/// element at `idx` of the result is then the element of the tensor that
/// `source_index` names.
#[verifier::external_body]
pub(crate) fn stretch<T: Copy>(t: &Tensor<T>, shape: &Vec<usize>) -> (out: Tensor<T>)
    requires
        t.wf(),
        representable(shape@),
        broadcasts_to(t.spec_shape(), shape@),
    ensures
        out.wf(),
        out.spec_shape() == shape@,
        forall|idx: Seq<int>|
            in_bounds(shape@, idx) ==> #[trigger] out.at(idx) == t.at(
                source_index(t.spec_shape(), idx),
            ),
{
    let view = ArrayViewD::from_shape(IxDyn(&t.shape), &t.data).unwrap();
    let wide = view.broadcast(IxDyn(shape)).unwrap();
    Tensor { shape: shape.clone(), data: wide.iter().copied().collect() }
}

/// The tensor with `axis` folded away by addition: each element of the result
/// is a sum of `init` and the elements along `axis`, in their order on the
/// axis.
///
/// Calls `ArrayBase::fold_axis` of ndarray with `Scalar::plus` as the fold.
/// Taken on trust: the result has the tensor's shape without `axis`, and
/// ndarray folds the subviews along the axis from the first to the last.
#[verifier::external_body]
pub(crate) fn fold_along<T: Scalar>(t: &Tensor<T>, axis: usize, init: T) -> (out: Tensor<T>)
    requires
        t.wf(),
        axis < t.spec_shape().len(),
    ensures
        out.wf(),
        out.spec_shape() == t.spec_shape().remove(axis as int),
        forall|idx: Seq<int>|
            in_bounds(out.spec_shape(), idx) ==> t.sums_along(
                axis as int,
                idx,
                t.spec_shape()[axis as int] as nat,
                init,
                #[trigger] out.at(idx),
            ),
{
    let view = ArrayViewD::from_shape(IxDyn(&t.shape), &t.data).unwrap();
    let sums = view.fold_axis(Axis(axis), init, |acc: &T, x: &T| acc.plus(*x));
    Tensor { shape: sums.shape().to_vec(), data: sums.iter().copied().collect() }
}

/// The part of the tensor between the positions `start` and `end` of `axis`.
///
/// Calls `ArrayBase::slice_axis` of ndarray. Taken on trust: the result keeps
/// every axis but `axis`, which shrinks to `end - start`, and its element at
/// `idx` is the tensor's element `start` places further along `axis`.
#[verifier::external_body]
pub(crate) fn slice_along<T: Copy>(t: &Tensor<T>, axis: usize, start: usize, end: usize) -> (out:
    Tensor<T>)
    requires
        t.wf(),
        axis < t.spec_shape().len(),
        start <= end <= t.spec_shape()[axis as int],
    ensures
        out.wf(),
        out.spec_shape() == t.spec_shape().update(axis as int, (end - start) as usize),
        forall|idx: Seq<int>|
            in_bounds(out.spec_shape(), idx) ==> #[trigger] out.at(idx) == t.at(
                idx.update(axis as int, idx[axis as int] + start),
            ),
{
    let view = ArrayViewD::from_shape(IxDyn(&t.shape), &t.data).unwrap();
    let part = view.slice_axis(Axis(axis), Slice::from(start..end));
    Tensor { shape: part.shape().to_vec(), data: part.iter().copied().collect() }
}

/// Overwrites the part of `dest` between the positions `start` and `end` of
/// `axis` with `src`.
///
/// Calls `ArrayBase::slice_axis_mut` of ndarray and assigns `src` to the
/// view. Taken on trust: the elements of `dest` inside the slice become the
/// elements of `src`, moved `start` places along `axis`; the others and the
/// shape stay.
#[verifier::external_body]
pub(crate) fn assign_slice<T: Copy>(
    dest: &mut Tensor<T>,
    axis: usize,
    start: usize,
    end: usize,
    src: &Tensor<T>,
)
    requires
        old(dest).wf(),
        src.wf(),
        axis < old(dest).spec_shape().len(),
        start <= end <= old(dest).spec_shape()[axis as int],
        src.spec_shape() == old(dest).spec_shape().update(axis as int, (end - start) as usize),
    ensures
        final(dest).wf(),
        final(dest).spec_shape() == old(dest).spec_shape(),
        forall|idx: Seq<int>|
            in_bounds(old(dest).spec_shape(), idx) ==> #[trigger] final(dest).at(idx) == (
            if start <= idx[axis as int] < end {
                src.at(idx.update(axis as int, idx[axis as int] - start))
            } else {
                old(dest).at(idx)
            }),
{
    let from = ArrayViewD::from_shape(IxDyn(&src.shape), &src.data).unwrap();
    let mut whole = ArrayViewMutD::from_shape(IxDyn(&dest.shape), &mut dest.data).unwrap();
    whole.slice_axis_mut(Axis(axis), Slice::from(start..end)).assign(&from);
}

/// The first subview along `axis`: the elements at position 0 of that axis,
/// with the axis removed.
///
/// Calls `ArrayBase::axis_iter` of ndarray and takes the first item. Taken on
/// trust: the iterator yields one subview for each position on the axis, the
/// first for position 0, each with the tensor's shape without `axis`.
#[verifier::external_body]
pub(crate) fn first_along<T: Copy>(t: &Tensor<T>, axis: usize) -> (out: Tensor<T>)
    requires
        t.wf(),
        axis < t.spec_shape().len(),
        t.spec_shape()[axis as int] > 0,
    ensures
        out.wf(),
        out.spec_shape() == t.spec_shape().remove(axis as int),
        forall|idx: Seq<int>|
            in_bounds(out.spec_shape(), idx) ==> #[trigger] out.at(idx) == t.at(
                idx.insert(axis as int, 0),
            ),
{
    let view = ArrayViewD::from_shape(IxDyn(&t.shape), &t.data).unwrap();
    let first = view.axis_iter(Axis(axis)).next().unwrap();
    Tensor { shape: first.shape().to_vec(), data: first.iter().copied().collect() }
}

/// Overwrites the first subview of `dest` along `axis` with `src`.
///
/// Calls `ArrayBase::axis_iter_mut` of ndarray and assigns `src` to the first
/// item. Taken on trust: the elements of `dest` at position 0 of `axis`
/// become the elements of `src`; the others and the shape stay.
#[verifier::external_body]
pub(crate) fn assign_first<T: Copy>(dest: &mut Tensor<T>, axis: usize, src: &Tensor<T>)
    requires
        old(dest).wf(),
        src.wf(),
        axis < old(dest).spec_shape().len(),
        old(dest).spec_shape()[axis as int] > 0,
        src.spec_shape() == old(dest).spec_shape().remove(axis as int),
    ensures
        final(dest).wf(),
        final(dest).spec_shape() == old(dest).spec_shape(),
        forall|idx: Seq<int>|
            in_bounds(old(dest).spec_shape(), idx) ==> #[trigger] final(dest).at(idx) == (
            if idx[axis as int] == 0 {
                src.at(idx.remove(axis as int))
            } else {
                old(dest).at(idx)
            }),
{
    let from = ArrayViewD::from_shape(IxDyn(&src.shape), &src.data).unwrap();
    let mut whole = ArrayViewMutD::from_shape(IxDyn(&dest.shape), &mut dest.data).unwrap();
    whole.axis_iter_mut(Axis(axis)).next().unwrap().assign(&from);
}

/// The shape with an axis of length 1 inserted at position `axis`.
///
/// Calls `Dimension::insert_axis` of ndarray on a dynamic dimension. Taken on
/// trust: the axes before `axis` keep their place, the others move one place
/// to the right.
#[verifier::external_body]
pub(crate) fn insert_axis(shape: &Vec<usize>, axis: usize) -> (out: Vec<usize>)
    requires
        axis <= shape.len(),
    ensures
        out@ == shape@.insert(axis as int, 1usize),
{
    IxDyn(shape).insert_axis(Axis(axis)).slice().to_vec()
}

} // verus!
