//! Gradient accumulators, and the routine that brings a stretched gradient
//! back to the shape of the operand it belongs to.
//!
//! The values of tensors are spoken of as relations between a multi-index
//! and a value: `f(idx, r)` says that `r` is a value that may stand at
//! `idx`. The values of a given tensor are the relation that holds of its
//! element and of nothing else.

use crate::error::{mismatch, Error, Operation};
use crate::scalar::{is_sum, is_zero, Scalar};
use crate::shape::{
    aligned, broadcasts_to, can_broadcast, checked_size, copy_shape, in_bounds,
    lemma_broadcast_identity, lemma_broadcasts_to_itself, lemma_offset_in_range, representable,
    same_shape, source_index,
};
use crate::tensor::{fold_along, stretch, Tensor};
use vstd::prelude::*;

verus! {

/// `k` zeros: the positions, on axes that were summed away, at which a
/// multi-index of the target is read in the source.
pub open spec fn lead(k: nat) -> Seq<int> {
    Seq::new(k, |i: int| 0int)
}

/// The values of a tensor.
pub open spec fn values<T>(t: Tensor<T>) -> spec_fn(Seq<int>, T) -> bool {
    |idx: Seq<int>, r: T| r == t.at(idx)
}

/// The values that a function of the multi-index gives.
pub open spec fn exactly<T>(f: spec_fn(Seq<int>) -> T) -> spec_fn(Seq<int>, T) -> bool {
    |idx: Seq<int>, r: T| r == f(idx)
}

/// The values of `src` once it is stretched to a shape that it stretches
/// to.
pub open spec fn stretched<T>(src: Tensor<T>) -> spec_fn(Seq<int>, T) -> bool {
    |idx: Seq<int>, r: T| r == src.at(source_index(src.spec_shape(), idx))
}

/// Axis `p` of `shape` is summed by the reduction to `dest`: it is a leading
/// axis that `dest` lacks, or an axis on which a tensor of shape `dest` was
/// stretched, from length 1 to another length.
pub open spec fn summed(shape: Seq<usize>, dest: Seq<usize>, p: int) -> bool {
    p < shape.len() - dest.len() || (aligned(dest, shape.len() as int, p) == 1 && shape[p] != 1)
}

/// `r` is a value at `idx` of what remains of the values `f`, laid out in
/// the shape `shape`, once those of the first `a` axes that the reduction to
/// `dest` sums have been summed, one axis after the other. `idx` has one
/// position for every axis of `shape`; its positions on summed axes are not
/// read.
pub open spec fn reduced_upto<T: Scalar>(
    f: spec_fn(Seq<int>, T) -> bool,
    shape: Seq<usize>,
    dest: Seq<usize>,
    a: nat,
    idx: Seq<int>,
    r: T,
) -> bool
    decreases a, 0nat,
{
    if a == 0 {
        f(idx, r)
    } else if summed(shape, dest, a - 1) {
        reduced_fold(f, shape, dest, a, idx, shape[a - 1] as nat, r)
    } else {
        reduced_upto(f, shape, dest, (a - 1) as nat, idx, r)
    }
}

/// `r` is a sum, starting from a zero and in the order of the positions, of
/// the first `n` values along axis `a - 1` of what remains once the summed
/// axes before that axis have been summed.
pub open spec fn reduced_fold<T: Scalar>(
    f: spec_fn(Seq<int>, T) -> bool,
    shape: Seq<usize>,
    dest: Seq<usize>,
    a: nat,
    idx: Seq<int>,
    n: nat,
    r: T,
) -> bool
    decreases a - 1, 1 + n,
{
    if a == 0 {
        false
    } else if n == 0 {
        is_zero(r)
    } else {
        exists|acc: T, v: T|
            #[trigger] is_sum(acc, v, r) && reduced_fold(
                f,
                shape,
                dest,
                a,
                idx,
                (n - 1) as nat,
                acc,
            ) && reduced_upto(f, shape, dest, (a - 1) as nat, idx.update(a - 1, n - 1), v)
    }
}

/// `r` is a value at `idx` of the values `f` of shape `shape` reduced to the
/// shape `dest`: a sum of the values that a tensor of shape `dest`,
/// stretched to `shape`, shows at `idx`. The sum runs over every stretched
/// axis: the leading axes that `dest` lacks, and the axes on which `dest`
/// has length 1 and `shape` has not.
pub open spec fn reduced_at<T: Scalar>(
    f: spec_fn(Seq<int>, T) -> bool,
    shape: Seq<usize>,
    dest: Seq<usize>,
    idx: Seq<int>,
    r: T,
) -> bool {
    reduced_upto(f, shape, dest, shape.len(), lead((shape.len() - dest.len()) as nat) + idx, r)
}

/// The values `f`, given on `shape`, reduced to the shape `dest`.
pub open spec fn reduced<T: Scalar>(
    f: spec_fn(Seq<int>, T) -> bool,
    shape: Seq<usize>,
    dest: Seq<usize>,
) -> spec_fn(Seq<int>, T) -> bool {
    |idx: Seq<int>, r: T| reduced_at(f, shape, dest, idx, r)
}

/// `idx` is inside `shape` on every axis that the reduction to `dest` does
/// not sum among the first `a`, and on every later axis.
pub open spec fn settled(shape: Seq<usize>, dest: Seq<usize>, a: nat, idx: Seq<int>) -> bool {
    &&& idx.len() == shape.len()
    &&& a <= shape.len()
    &&& forall|p: int|
        0 <= p < shape.len() && (p >= a || !summed(shape, dest, p)) ==> 0
            <= #[trigger] idx[p] < shape[p]
}

/// `x` stands where `base` stands on every axis that the reduction to `dest`
/// does not sum.
pub open spec fn tied(shape: Seq<usize>, dest: Seq<usize>, base: Seq<int>, x: Seq<int>) -> bool {
    &&& x.len() == shape.len()
    &&& forall|p: int|
        0 <= p < shape.len() && !summed(shape, dest, p) ==> #[trigger] x[p]
            == base[p]
}

/// What remains of the values once some axes are summed is made of the
/// values at the places that are tied to the place that is read.
proof fn lemma_upto_reads_tied<T: Scalar>(
    f: spec_fn(Seq<int>, T) -> bool,
    g: spec_fn(Seq<int>, T) -> bool,
    shape: Seq<usize>,
    dest: Seq<usize>,
    base: Seq<int>,
    a: nat,
    idx: Seq<int>,
    r: T,
)
    requires
        forall|x: Seq<int>, v: T|
            in_bounds(shape, x) && tied(shape, dest, base, x) && #[trigger] f(x, v) ==> g(x, v),
        settled(shape, dest, a, idx),
        tied(shape, dest, base, idx),
        reduced_upto(f, shape, dest, a, idx, r),
    ensures
        reduced_upto(g, shape, dest, a, idx, r),
    decreases a, 0nat,
{
    if a == 0 {
        assert(in_bounds(shape, idx));
    } else if summed(shape, dest, a - 1) {
        lemma_fold_reads_tied(f, g, shape, dest, base, a, idx, shape[a - 1] as nat, r);
    } else {
        assert(settled(shape, dest, (a - 1) as nat, idx));
        lemma_upto_reads_tied(f, g, shape, dest, base, (a - 1) as nat, idx, r);
    }
}

/// The sums along an axis of the reduction are made of the values at the
/// places that are tied to the place that is read.
proof fn lemma_fold_reads_tied<T: Scalar>(
    f: spec_fn(Seq<int>, T) -> bool,
    g: spec_fn(Seq<int>, T) -> bool,
    shape: Seq<usize>,
    dest: Seq<usize>,
    base: Seq<int>,
    a: nat,
    idx: Seq<int>,
    n: nat,
    r: T,
)
    requires
        forall|x: Seq<int>, v: T|
            in_bounds(shape, x) && tied(shape, dest, base, x) && #[trigger] f(x, v) ==> g(x, v),
        settled(shape, dest, a, idx),
        tied(shape, dest, base, idx),
        a >= 1,
        summed(shape, dest, a - 1),
        n <= shape[a - 1],
        reduced_fold(f, shape, dest, a, idx, n, r),
    ensures
        reduced_fold(g, shape, dest, a, idx, n, r),
    decreases a - 1, 1 + n,
{
    if n > 0 {
        let moved = idx.update(a - 1, n - 1);
        let (acc, v): (T, T) = choose|acc: T, v: T|
            #[trigger] is_sum(acc, v, r) && reduced_fold(
                f,
                shape,
                dest,
                a,
                idx,
                (n - 1) as nat,
                acc,
            ) && reduced_upto(f, shape, dest, (a - 1) as nat, moved, v);
        lemma_fold_reads_tied(f, g, shape, dest, base, a, idx, (n - 1) as nat, acc);
        assert(settled(shape, dest, (a - 1) as nat, moved)) by {
            assert forall|p: int|
                0 <= p < shape.len() && (p >= a - 1 || !summed(shape, dest, p)) implies 0 <= #[trigger] moved[p] < shape[p] by {
                if p != a - 1 {
                    assert(0 <= idx[p] < shape[p]);
                }
            }
        }
        assert(tied(shape, dest, base, moved)) by {
            assert forall|p: int|
                0 <= p < shape.len() && !summed(shape, dest, p) implies #[trigger] moved[p] == base[p] by {
                assert(idx[p] == base[p]);
            }
        }
        lemma_upto_reads_tied(f, g, shape, dest, base, (a - 1) as nat, moved, v);
        assert(is_sum(acc, v, r));
    }
}

/// The reduction sums over the stretched axes and over nothing else: a
/// value at `idx` of the reduction to `dest` is made of the values at the
/// places at which a tensor of shape `dest`, stretched to `shape`, shows its
/// element `idx`. Where every value that may stand at one of those places
/// under `f` may stand there under `g`, every value of the reduction of `f`
/// at `idx` is a value of the reduction of `g`.
pub proof fn lemma_reduced_reads_fiber<T: Scalar>(
    f: spec_fn(Seq<int>, T) -> bool,
    g: spec_fn(Seq<int>, T) -> bool,
    shape: Seq<usize>,
    dest: Seq<usize>,
    idx: Seq<int>,
    r: T,
)
    requires
        broadcasts_to(dest, shape),
        in_bounds(dest, idx),
        forall|x: Seq<int>, v: T|
            in_bounds(shape, x) && source_index(dest, x) == idx && #[trigger] f(x, v) ==> g(x, v),
        reduced_at(f, shape, dest, idx, r),
    ensures
        reduced_at(g, shape, dest, idx, r),
{
    let k = shape.len() - dest.len();
    let base = lead(k as nat) + idx;
    assert(settled(shape, dest, shape.len(), base)) by {
        assert forall|p: int|
            0 <= p < shape.len() && !summed(shape, dest, p) implies 0
                <= #[trigger] base[p] < shape[p] by {
            assert(aligned(dest, shape.len() as int, p) == dest[p - k]);
            assert(dest[p - k] == shape[(p - k) + shape.len() - dest.len()] || dest[p - k] == 1);
            assert(0 <= idx[p - k] < dest[p - k]);
        }
    }
    assert forall|x: Seq<int>, v: T|
        in_bounds(shape, x) && tied(shape, dest, base, x) && #[trigger] f(x, v) implies g(
        x,
        v,
    ) by {
        assert forall|j: int| 0 <= j < dest.len() implies source_index(dest, x)[j] == idx[j] by {
            assert(0 <= idx[j] < dest[j]);
            if dest[j] != 1 {
                assert(aligned(dest, shape.len() as int, j + k) == dest[j]);
                assert(!summed(shape, dest, j + k));
                assert(x[j + k] == base[j + k]);
            }
        }
        assert(source_index(dest, x) =~= idx);
    }
    lemma_upto_reads_tied(f, g, shape, dest, base, shape.len(), base, r);
}

/// A sum along one axis of a tensor is a sum that the reduction takes, when
/// the tensor holds what remains of the source.
proof fn lemma_fold_matches<T: Scalar>(
    c: Tensor<T>,
    axis: int,
    z: Seq<int>,
    m: nat,
    init: T,
    r: T,
    f: spec_fn(Seq<int>, T) -> bool,
    shape: Seq<usize>,
    dest: Seq<usize>,
    a: nat,
    full: Seq<int>,
)
    requires
        a >= 1,
        is_zero(init),
        c.sums_along(axis, z, m, init, r),
        forall|i: int|
            0 <= i < m ==> reduced_upto(
                f,
                shape,
                dest,
                (a - 1) as nat,
                full.update(a - 1, i),
                c.at(#[trigger] z.insert(axis, i)),
            ),
    ensures
        reduced_fold(f, shape, dest, a, full, m, r),
    decreases m,
{
    if m > 0 {
        let acc = choose|acc: T|
            c.sums_along(axis, z, (m - 1) as nat, init, acc) && #[trigger] is_sum(
                acc,
                c.at(z.insert(axis, m - 1)),
                r,
            );
        lemma_fold_matches(c, axis, z, (m - 1) as nat, init, acc, f, shape, dest, a, full);
        let v = c.at(z.insert(axis, m - 1));
        assert(reduced_upto(f, shape, dest, (a - 1) as nat, full.update(a - 1, m - 1), v));
        assert(is_sum(acc, v, r));
    }
}

/// Reduces a gradient of a stretched shape to the shape `dest` of the operand
/// it belongs to, by summing over every axis along which the operand was
/// stretched: the leading axes that the operand lacks, and the axes on which
/// the operand has length 1 and the gradient has not. Fails when a tensor of
/// shape `dest` does not stretch to the shape of `src`.
pub fn reduce<T: Scalar>(dest: &Vec<usize>, src: &Tensor<T>) -> (out: Result<Tensor<T>, Error>)
    requires
        src.wf(),
    ensures
        out.is_ok() <==> broadcasts_to(dest@, src.spec_shape()),
        out matches Ok(t) ==> {
            &&& t.wf()
            &&& t.spec_shape() == dest@
            &&& forall|idx: Seq<int>|
                in_bounds(dest@, idx) ==> reduced_at(
                    values(*src),
                    src.spec_shape(),
                    dest@,
                    idx,
                    #[trigger] t.at(idx),
                )
        },
        out matches Err(e) ==> e.is_mismatch(Operation::Reduction, dest@, src.spec_shape()),
{
    if !can_broadcast(dest, src.shape()) {
        return Err(mismatch(Operation::Reduction, dest, src.shape()));
    }
    let ghost s = src.spec_shape();
    let ghost d = dest@;
    let ghost f = values(*src);
    let n: usize = src.ndim();
    let k: usize = n - dest.len();
    let mut cur = src.duplicate();
    let mut j: usize = 0;
    assert(s.skip(0) =~= s);
    assert forall|x: Seq<int>| in_bounds(s, x) implies reduced_upto(
        f,
        s,
        d,
        0,
        lead(0) + x,
        #[trigger] cur.at(x),
    ) by {
        assert(lead(0) + x =~= x);
    }
    while j < k
        invariant
            src.wf(),
            s == src.spec_shape(),
            d == dest@,
            f == values(*src),
            broadcasts_to(d, s),
            n == s.len(),
            k == n - d.len(),
            j <= k,
            cur.wf(),
            cur.spec_shape() == s.skip(j as int),
            forall|x: Seq<int>|
                in_bounds(s.skip(j as int), x) ==> reduced_upto(
                    f,
                    s,
                    d,
                    j as nat,
                    lead(j as nat) + x,
                    #[trigger] cur.at(x),
                ),
        decreases k - j,
    {
        let zero = T::zero();
        let next = fold_along(&cur, 0, zero);
        proof {
            assert(next.spec_shape() =~= s.skip(j as int + 1));
            assert forall|x: Seq<int>| in_bounds(s.skip(j as int + 1), x) implies reduced_upto(
                f,
                s,
                d,
                (j + 1) as nat,
                lead((j + 1) as nat) + x,
                #[trigger] next.at(x),
            ) by {
                let full = lead((j + 1) as nat) + x;
                let m = s[j as int] as nat;
                assert(cur.spec_shape()[0] == s[j as int]);
                assert forall|i: int| 0 <= i < m implies reduced_upto(
                    f,
                    s,
                    d,
                    j as nat,
                    full.update(j as int, i),
                    cur.at(#[trigger] x.insert(0, i)),
                ) by {
                    let y = x.insert(0, i);
                    assert(in_bounds(s.skip(j as int), y)) by {
                        assert forall|q: int| 0 <= q < s.skip(j as int).len() implies 0
                            <= #[trigger] y[q] < s.skip(j as int)[q] by {
                            if q > 0 {
                                assert(0 <= x[q - 1] < s.skip(j as int + 1)[q - 1]);
                            }
                        }
                    }
                    assert(lead(j as nat) + y =~= full.update(j as int, i));
                }
                lemma_fold_matches(cur, 0, x, m, zero, next.at(x), f, s, d, (j + 1) as nat, full);
                assert(summed(s, d, j as int));
            }
        }
        cur = next;
        j += 1;
    }
    let mut a: usize = 0;
    assert(d.take(0) + s.skip(k as int) =~= s.skip(k as int));
    while a < dest.len()
        invariant
            src.wf(),
            s == src.spec_shape(),
            d == dest@,
            f == values(*src),
            broadcasts_to(d, s),
            n == s.len(),
            k == n - d.len(),
            a <= d.len(),
            cur.wf(),
            cur.spec_shape() == d.take(a as int) + s.skip(k + a),
            forall|y: Seq<int>|
                in_bounds(d.take(a as int) + s.skip(k + a), y) ==> reduced_upto(
                    f,
                    s,
                    d,
                    (k + a) as nat,
                    lead(k as nat) + y,
                    #[trigger] cur.at(y),
                ),
        decreases dest.len() - a,
    {
        let ghost before = d.take(a as int) + s.skip(k + a);
        let ghost after = d.take(a as int + 1) + s.skip(k + a + 1);
        assert(d[a as int] == s[a + s.len() - d.len()] || d[a as int] == 1);
        assert(aligned(d, n as int, k + a) == d[a as int]);
        assert(before[a as int] == s[k + a]);
        if dest[a] == 1 && src.shape()[k + a] != 1 {
            assert(summed(s, d, k + a));
            let zero = T::zero();
            let folded = fold_along(&cur, a, zero);
            let wide = folded.with_axis(a);
            proof {
                assert(wide.spec_shape() =~= after);
                assert forall|y: Seq<int>| in_bounds(after, y) implies reduced_upto(
                    f,
                    s,
                    d,
                    (k + a + 1) as nat,
                    lead(k as nat) + y,
                    #[trigger] wide.at(y),
                ) by {
                    let full = lead(k as nat) + y;
                    let z = y.remove(a as int);
                    let m = s[k + a] as nat;
                    assert(in_bounds(folded.spec_shape(), z)) by {
                        assert forall|q: int| 0 <= q < folded.spec_shape().len() implies 0
                            <= #[trigger] z[q] < folded.spec_shape()[q] by {
                            if q < a {
                                assert(0 <= y[q] < after[q]);
                            } else {
                                assert(0 <= y[q + 1] < after[q + 1]);
                            }
                        }
                    }
                    assert forall|i: int| 0 <= i < m implies reduced_upto(
                        f,
                        s,
                        d,
                        (k + a) as nat,
                        full.update(k + a, i),
                        cur.at(#[trigger] z.insert(a as int, i)),
                    ) by {
                        let w = z.insert(a as int, i);
                        assert(in_bounds(before, w)) by {
                            assert forall|q: int| 0 <= q < before.len() implies 0 <= #[trigger] w[q]
                                < before[q] by {
                                if q != a {
                                    assert(0 <= y[q] < after[q]);
                                }
                            }
                        }
                        assert(lead(k as nat) + w =~= full.update(k + a, i));
                    }
                    assert(wide.at(y) == folded.at(z));
                    lemma_fold_matches(
                        cur,
                        a as int,
                        z,
                        m,
                        zero,
                        folded.at(z),
                        f,
                        s,
                        d,
                        (k + a + 1) as nat,
                        full,
                    );
                }
            }
            cur = wide;
        } else {
            assert(!summed(s, d, k + a));
            assert(before =~= after);
        }
        a += 1;
    }
    assert(d.take(d.len() as int) + s.skip(n as int) =~= d);
    Ok(cur)
}

/// The gradient of one node: an optional buffer of a fixed shape, and the
/// flag that tells the first write of a backward pass from the later ones.
/// A leaf of the graph that wants a gradient is one of these and nothing
/// more; every backward node holds one for its own gradient.
pub struct Accumulator<T> {
    gradient: Option<Tensor<T>>,
    shape: Vec<usize>,
    overwrite: bool,
}

impl<T: Scalar> Accumulator<T> {
    /// The buffer, when the node tracks a gradient.
    pub closed spec fn gradient_view(&self) -> Option<Tensor<T>> {
        self.gradient
    }

    /// The shape that the buffer has whenever it is present.
    pub closed spec fn shape_view(&self) -> Seq<usize> {
        self.shape@
    }

    /// Whether the next push replaces the buffer instead of adding to it.
    pub closed spec fn overwrite_view(&self) -> bool {
        self.overwrite
    }

    /// The buffer, when present, has the shape of the node.
    pub open spec fn wf(&self) -> bool {
        &&& representable(self.shape_view())
        &&& self.gradient_view() matches Some(g) ==> g.wf() && g.spec_shape() == self.shape_view()
    }

    /// The accumulator without its buffer.
    pub closed spec fn dropped(self) -> Self {
        Accumulator { gradient: None, shape: self.shape, overwrite: self.overwrite }
    }

    /// Dropping the buffer leaves shape and flag as they are, and dropping
    /// it once more changes nothing.
    pub proof fn lemma_dropped(self)
        ensures
            self.dropped().gradient_view().is_none(),
            self.dropped().shape_view() == self.shape_view(),
            self.dropped().overwrite_view() == self.overwrite_view(),
            self.dropped().dropped() == self.dropped(),
    {
    }

    /// A fresh accumulator: a buffer of zeros of the given shape, which the
    /// first push will replace. Fails when the shape is not representable.
    pub fn new(shape: Vec<usize>) -> (out: Result<Self, Error>)
        ensures
            out.is_ok() <==> representable(shape@),
            out matches Ok(acc) ==> {
                &&& acc.wf()
                &&& acc.shape_view() == shape@
                &&& acc.overwrite_view()
                &&& acc.gradient_view() matches Some(g) && g.is_zero()
            },
            out matches Err(e) ==> e.is_overflow(Operation::Accumulation),
    {
        let kept = copy_shape(&shape);
        match Tensor::zeros(shape) {
            Some(g) => Ok(Accumulator { gradient: Some(g), shape: kept, overwrite: true }),
            None => Err(Error::ShapeOverflow { operation: Operation::Accumulation }),
        }
    }

    /// Whether the buffer, when present, has the shape of the node.
    pub fn is_well_formed(&self) -> (sound: bool)
        ensures
            sound == self.wf(),
    {
        if checked_size(&self.shape).is_none() {
            return false;
        }
        match &self.gradient {
            Some(g) => g.is_well_formed() && same_shape(g.shape(), &self.shape),
            None => true,
        }
    }

    /// The gradient, or `MissingGradientBuffer` when none is tracked.
    pub fn gradient(&self) -> (out: Result<&Tensor<T>, Error>)
        ensures
            out.is_ok() <==> self.gradient_view().is_some(),
            out matches Ok(g) ==> self.gradient_view() == Some(*g),
            out matches Err(e) ==> e == Error::MissingGradientBuffer,
    {
        match &self.gradient {
            Some(g) => Ok(g),
            None => Err(Error::MissingGradientBuffer),
        }
    }

    /// Exclusive access to the gradient, or `MissingGradientBuffer` when none
    /// is tracked. Whoever writes through it keeps the shape.
    pub fn gradient_mut(&mut self) -> (out: Result<&mut Tensor<T>, Error>)
        ensures
            out.is_ok() <==> old(self).gradient_view().is_some(),
            out matches Ok(g) ==> {
                &&& old(self).gradient_view() == Some(*g)
                &&& final(self).gradient_view() == Some(*final(g))
            },
            out matches Err(e) ==> e == Error::MissingGradientBuffer && *final(self) == *old(self),
            final(self).shape_view() == old(self).shape_view(),
            final(self).overwrite_view() == old(self).overwrite_view(),
    {
        match &mut self.gradient {
            Some(g) => Ok(g),
            None => Err(Error::MissingGradientBuffer),
        }
    }

    /// The shape of the gradient.
    pub fn shape(&self) -> (s: &Vec<usize>)
        ensures
            s@ == self.shape_view(),
    {
        &self.shape
    }

    /// Whether a gradient is tracked.
    pub fn has_gradient(&self) -> (b: bool)
        ensures
            b == self.gradient_view().is_some(),
    {
        self.gradient.is_some()
    }

    /// Whether the next push replaces the buffer.
    pub fn can_overwrite(&self) -> (b: bool)
        ensures
            b == self.overwrite_view(),
    {
        self.overwrite
    }

    /// Sets whether the next push replaces the buffer.
    pub fn set_overwrite(&mut self, state: bool)
        ensures
            final(self).overwrite_view() == state,
            final(self).gradient_view() == old(self).gradient_view(),
            final(self).shape_view() == old(self).shape_view(),
    {
        self.overwrite = state;
    }

    /// Stops tracking the gradient: the buffer is dropped.
    pub fn no_grad(&mut self)
        ensures
            *final(self) == old(self).dropped(),
    {
        self.gradient = None;
    }

    /// Tracks the gradient again: whatever was there before, the buffer is
    /// now a tensor of zeros of the node's shape.
    pub fn with_grad(&mut self)
        requires
            old(self).wf(),
        ensures
            final(self).wf(),
            final(self).shape_view() == old(self).shape_view(),
            final(self).overwrite_view() == old(self).overwrite_view(),
            final(self).gradient_view() matches Some(g) && g.is_zero(),
    {
        self.gradient = Tensor::zeros(copy_shape(&self.shape));
    }
}

/// `r` is what a push leaves where `held` stood: a pushed value when the
/// push overwrites, a sum of `held` and a pushed value when it accumulates.
pub open spec fn merged<T: Scalar>(
    overwrite: bool,
    held: T,
    pushed: spec_fn(Seq<int>, T) -> bool,
    idx: Seq<int>,
    r: T,
) -> bool {
    if overwrite {
        pushed(idx, r)
    } else {
        exists|v: T| pushed(idx, v) && #[trigger] is_sum(held, v, r)
    }
}

/// `after` is what a push of the values `pushed` makes of the accumulator
/// `before`: the flag is lowered, and the buffer holds the pushed values, or
/// their sums with what it held, according to the flag that was found.
pub open spec fn took<T: Scalar>(
    before: Accumulator<T>,
    after: Accumulator<T>,
    pushed: spec_fn(Seq<int>, T) -> bool,
) -> bool {
    &&& after.wf()
    &&& after.shape_view() == before.shape_view()
    &&& !after.overwrite_view()
    &&& after.gradient_view() matches Some(g) && forall|idx: Seq<int>|
        in_bounds(before.shape_view(), idx) ==> merged(
            before.overwrite_view(),
            before.gradient_view().unwrap().at(idx),
            pushed,
            idx,
            #[trigger] g.at(idx),
        )
}

/// A push of values that are all among other values is a push of those
/// other values.
pub proof fn lemma_took_among<T: Scalar>(
    before: Accumulator<T>,
    after: Accumulator<T>,
    pushed: spec_fn(Seq<int>, T) -> bool,
    among: spec_fn(Seq<int>, T) -> bool,
)
    requires
        took(before, after, pushed),
        forall|idx: Seq<int>, v: T|
            in_bounds(before.shape_view(), idx) && #[trigger] pushed(idx, v) ==> among(idx, v),
    ensures
        took(before, after, among),
{
    let g = after.gradient_view().unwrap();
    assert forall|idx: Seq<int>| in_bounds(before.shape_view(), idx) implies merged(
        before.overwrite_view(),
        before.gradient_view().unwrap().at(idx),
        among,
        idx,
        #[trigger] g.at(idx),
    ) by {
        let held = before.gradient_view().unwrap().at(idx);
        assert(merged(before.overwrite_view(), held, pushed, idx, g.at(idx)));
        if !before.overwrite_view() {
            let v = choose|v: T| pushed(idx, v) && #[trigger] is_sum(held, v, g.at(idx));
            assert(among(idx, v) && is_sum(held, v, g.at(idx)));
        }
    }
}

/// The first push after the flag was raised replaces what the accumulator
/// held, and the push after it adds to what the first one left: after the
/// two, the accumulator holds a sum of the two contributions, whatever it
/// held before.
pub proof fn lemma_overwrite_then_accumulate<T: Scalar>(
    fresh: Accumulator<T>,
    once: Accumulator<T>,
    twice: Accumulator<T>,
    first: spec_fn(Seq<int>, T) -> bool,
    second: spec_fn(Seq<int>, T) -> bool,
    idx: Seq<int>,
)
    requires
        fresh.overwrite_view(),
        took(fresh, once, first),
        took(once, twice, second),
        in_bounds(fresh.shape_view(), idx),
    ensures
        !once.overwrite_view(),
        !twice.overwrite_view(),
        first(idx, once.gradient_view().unwrap().at(idx)),
        exists|v: T|
            second(idx, v) && #[trigger] is_sum(
                once.gradient_view().unwrap().at(idx),
                v,
                twice.gradient_view().unwrap().at(idx),
            ),
{
    let a = once.gradient_view().unwrap().at(idx);
    let b = twice.gradient_view().unwrap().at(idx);
    assert(merged(true, fresh.gradient_view().unwrap().at(idx), first, idx, a));
    assert(merged(false, a, second, idx, b));
}

/// Pushes the gradient contribution `src` into `node`. The first push after
/// the flag was raised replaces the buffer and lowers the flag; every later
/// push adds to the buffer. `src` is stretched to the shape of the node where
/// it is smaller.
///
/// Fails, and changes nothing, when the node tracks no gradient or when
/// `src` does not stretch to the shape of the node.
pub fn push_gradient<T: Scalar>(node: &mut Accumulator<T>, src: &Tensor<T>) -> (out: Result<
    (),
    Error,
>)
    requires
        old(node).wf(),
        src.wf(),
    ensures
        final(node).wf(),
        final(node).shape_view() == old(node).shape_view(),
        out.is_ok() <==> (old(node).gradient_view().is_some() && broadcasts_to(
            src.spec_shape(),
            old(node).shape_view(),
        )),
        out matches Err(e) ==> {
            &&& *final(node) == *old(node)
            &&& if old(node).gradient_view().is_none() {
                e == Error::MissingGradientBuffer
            } else {
                e.is_mismatch(Operation::Accumulation, old(node).shape_view(), src.spec_shape())
            }
        },
        out.is_ok() ==> took(*old(node), *final(node), stretched(*src)),
{
    if node.gradient.is_none() {
        return Err(Error::MissingGradientBuffer);
    }
    if !can_broadcast(src.shape(), &node.shape) {
        return Err(mismatch(Operation::Accumulation, &node.shape, src.shape()));
    }
    let contribution = stretch(src, &node.shape);
    if node.overwrite {
        node.gradient = Some(contribution);
        node.overwrite = false;
    } else {
        let ghost shape = node.shape@;
        let sum = match &node.gradient {
            Some(held) => {
                let mut data: Vec<T> = Vec::new();
                let mut i: usize = 0;
                while i < held.len()
                    invariant
                        held.wf(),
                        contribution.wf(),
                        held.spec_shape() == contribution.spec_shape(),
                        i <= held.elements().len(),
                        data.len() == i,
                        forall|j: int|
                            0 <= j < i ==> is_sum(
                                held.elements()[j],
                                contribution.elements()[j],
                                #[trigger] data[j],
                            ),
                    decreases held.elements().len() - i,
                {
                    data.push(held.data()[i].plus(contribution.data()[i]));
                    i += 1;
                }
                let sum = held.with_elements(data);
                proof {
                    assert forall|idx: Seq<int>| in_bounds(shape, idx) implies merged(
                        false,
                        held.at(idx),
                        stretched(*src),
                        idx,
                        #[trigger] sum.at(idx),
                    ) by {
                        lemma_offset_in_range(shape, idx);
                        let v = contribution.at(idx);
                        assert(stretched(*src)(idx, v) && is_sum(held.at(idx), v, sum.at(idx)));
                    }
                }
                Some(sum)
            },
            None => None,
        };
        node.gradient = sum;
    }
    Ok(())
}

/// Reduces the stretched contribution `src` to the shape of `node` and pushes
/// the result into `node`.
///
/// Fails, and changes nothing, when the node tracks no gradient or when a
/// tensor of the node's shape does not stretch to the shape of `src`.
pub fn push_reduced<T: Scalar>(node: &mut Accumulator<T>, src: &Tensor<T>) -> (out: Result<
    (),
    Error,
>)
    requires
        old(node).wf(),
        src.wf(),
    ensures
        final(node).wf(),
        final(node).shape_view() == old(node).shape_view(),
        out.is_ok() <==> (old(node).gradient_view().is_some() && broadcasts_to(
            old(node).shape_view(),
            src.spec_shape(),
        )),
        out matches Err(e) ==> {
            &&& *final(node) == *old(node)
            &&& if old(node).gradient_view().is_none() {
                e == Error::MissingGradientBuffer
            } else {
                e.is_mismatch(Operation::Reduction, old(node).shape_view(), src.spec_shape())
            }
        },
        out.is_ok() ==> took(
            *old(node),
            *final(node),
            reduced(values(*src), src.spec_shape(), old(node).shape_view()),
        ),
{
    if node.gradient.is_none() {
        return Err(Error::MissingGradientBuffer);
    }
    let lowered = reduce(&node.shape, src)?;
    let ghost before = *node;
    proof {
        lemma_broadcasts_to_itself(node.shape@);
    }
    let out = push_gradient(node, &lowered);
    proof {
        assert forall|idx: Seq<int>, v: T|
            in_bounds(before.shape_view(), idx) && #[trigger] stretched(lowered)(
                idx,
                v,
            ) implies reduced(values(*src), src.spec_shape(), before.shape_view())(idx, v) by {
            lemma_broadcast_identity(before.shape_view(), idx);
            assert(v == lowered.at(idx));
        }
        lemma_took_among(
            before,
            *node,
            stretched(lowered),
            reduced(values(*src), src.spec_shape(), before.shape_view()),
        );
    }
    out
}

} // verus!
