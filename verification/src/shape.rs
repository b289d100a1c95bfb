//! Shapes of dense row-major tensors: element counts, multi-indices and their
//! flat offsets, and the broadcasting rule.

use vstd::prelude::*;

verus! {

/// Number of elements of a tensor of the given shape: the product of its
/// axis lengths (1 for the empty shape).
pub open spec fn size(shape: Seq<usize>) -> nat
    decreases shape.len(),
{
    if shape.len() == 0 {
        1
    } else {
        size(shape.drop_last()) * (shape.last() as nat)
    }
}

/// Product of the axis lengths that are not zero.
pub open spec fn span(shape: Seq<usize>) -> nat
    decreases shape.len(),
{
    if shape.len() == 0 {
        1
    } else if shape.last() == 0 {
        span(shape.drop_last())
    } else {
        span(shape.drop_last()) * (shape.last() as nat)
    }
}

/// A shape that a tensor can have: the product of its non-zero axis lengths
/// fits in an `isize`.
pub open spec fn representable(shape: Seq<usize>) -> bool {
    span(shape) <= isize::MAX
}

/// `idx` names one element of a tensor of shape `shape`.
pub open spec fn in_bounds(shape: Seq<usize>, idx: Seq<int>) -> bool {
    &&& idx.len() == shape.len()
    &&& forall|k: int| 0 <= k < shape.len() ==> 0 <= #[trigger] idx[k] < shape[k]
}

/// Position of the element `idx` in the row-major element sequence.
pub open spec fn offset(shape: Seq<usize>, idx: Seq<int>) -> int
    decreases shape.len(),
{
    if shape.len() == 0 {
        0
    } else {
        offset(shape.drop_last(), idx.drop_last()) * (shape.last() as int) + idx.last()
    }
}

/// The multi-index of the element at row-major position `pos`.
pub open spec fn unravel(shape: Seq<usize>, pos: int) -> Seq<int>
    decreases shape.len(),
{
    if shape.len() == 0 {
        Seq::empty()
    } else if shape.last() == 0 {
        unravel(shape.drop_last(), 0).push(0)
    } else {
        unravel(shape.drop_last(), pos / (shape.last() as int)).push(pos % (shape.last() as int))
    }
}

/// The size is at most the span, and the span is at least 1.
pub proof fn lemma_size_le_span(shape: Seq<usize>)
    ensures
        size(shape) <= span(shape),
        span(shape) >= 1,
    decreases shape.len(),
{
    if shape.len() > 0 {
        let head = shape.drop_last();
        let last = shape.last() as nat;
        lemma_size_le_span(head);
        if last != 0 {
            assert(size(head) * last <= span(head) * last) by (nonlinear_arith)
                requires
                    size(head) <= span(head),
            ;
            assert(span(head) * last >= 1) by (nonlinear_arith)
                requires
                    span(head) >= 1,
                    last >= 1,
            ;
        } else {
            assert(size(head) * last == 0) by (nonlinear_arith)
                requires
                    last == 0,
            ;
        }
    }
}

/// Every element of a tensor has a position inside its element sequence.
pub proof fn lemma_offset_in_range(shape: Seq<usize>, idx: Seq<int>)
    requires
        in_bounds(shape, idx),
    ensures
        0 <= offset(shape, idx) < size(shape),
    decreases shape.len(),
{
    if shape.len() > 0 {
        let head = shape.drop_last();
        let last = shape.last() as int;
        let rest = idx.drop_last();
        assert(in_bounds(head, rest)) by {
            assert forall|k: int| 0 <= k < head.len() implies 0 <= #[trigger] rest[k] < head[k] by {
                assert(rest[k] == idx[k]);
                assert(head[k] == shape[k]);
            }
        }
        lemma_offset_in_range(head, rest);
        let o = offset(head, rest);
        let n = size(head) as int;
        assert(0 <= idx[shape.len() - 1] < shape[shape.len() - 1]);
        assert(0 <= o * last + idx.last() < n * last) by (nonlinear_arith)
            requires
                0 <= o < n,
                0 <= idx.last() < last,
        ;
    }
}

/// Positions and multi-indices correspond one to one: every position below
/// the size is the offset of its own multi-index.
pub proof fn lemma_unravel_offset(shape: Seq<usize>, pos: int)
    requires
        0 <= pos < size(shape),
    ensures
        in_bounds(shape, unravel(shape, pos)),
        offset(shape, unravel(shape, pos)) == pos,
    decreases shape.len(),
{
    if shape.len() > 0 {
        let head = shape.drop_last();
        let last = shape.last() as int;
        let n = size(head) as int;
        assert(last > 0) by (nonlinear_arith)
            requires
                0 <= pos < n * last,
                n >= 0,
                last >= 0,
        ;
        let q = pos / last;
        let r = pos % last;
        assert(0 <= q < n && 0 <= r < last && q * last + r == pos) by (nonlinear_arith)
            requires
                0 <= pos < n * last,
                last > 0,
                q == pos / last,
                r == pos % last,
        ;
        lemma_unravel_offset(head, q);
        let idx = unravel(shape, pos);
        assert(idx.drop_last() =~= unravel(head, q));
        assert(idx.last() == r);
        assert forall|k: int| 0 <= k < shape.len() implies 0 <= #[trigger] idx[k] < shape[k] by {
            if k < head.len() {
                assert(idx[k] == unravel(head, q)[k]);
                assert(head[k] == shape[k]);
            }
        }
    } else {
        assert(size(shape) == 1);
    }
}

/// Length of axis `p` of `shape` once the shape is aligned to the right of
/// `n` axes; the leading axes that it lacks count as axes of length 1.
pub open spec fn aligned(shape: Seq<usize>, n: int, p: int) -> usize {
    if p < n - shape.len() {
        1
    } else {
        shape[p - (n - shape.len())]
    }
}

/// The larger of two axis counts.
pub open spec fn rank_max(a: Seq<usize>, b: Seq<usize>) -> int {
    if a.len() >= b.len() {
        a.len() as int
    } else {
        b.len() as int
    }
}

/// Two shapes can be combined by an elementwise operation: aligned to the
/// right, their axis lengths are equal or one of the two is 1.
pub open spec fn compatible(a: Seq<usize>, b: Seq<usize>) -> bool {
    forall|p: int|
        0 <= p < rank_max(a, b) ==> {
            let x = #[trigger] aligned(a, rank_max(a, b), p);
            let y = aligned(b, rank_max(a, b), p);
            x == y || x == 1 || y == 1
        }
}

/// The shape of the result of an elementwise operation on tensors of shapes
/// `a` and `b`: on each aligned axis the length that is not a stretched 1.
pub open spec fn broadcast_shape(a: Seq<usize>, b: Seq<usize>) -> Seq<usize> {
    Seq::new(
        rank_max(a, b) as nat,
        |p: int|
            if aligned(a, rank_max(a, b), p) == 1 {
                aligned(b, rank_max(a, b), p)
            } else {
                aligned(a, rank_max(a, b), p)
            },
    )
}

/// A tensor of shape `from` can be stretched to shape `to`: `to` has at least
/// as many axes and, aligned to the right, each axis of `from` has the length
/// of the axis of `to` or length 1.
pub open spec fn broadcasts_to(from: Seq<usize>, to: Seq<usize>) -> bool {
    &&& from.len() <= to.len()
    &&& forall|j: int|
        0 <= j < from.len() ==> (#[trigger] from[j] == to[j + to.len() - from.len()] || from[j]
            == 1)
}

/// The element of a tensor of shape `from` that stands at `idx` once the
/// tensor is stretched to a shape of `idx.len()` axes: leading axes are
/// dropped and stretched axes read their only element.
pub open spec fn source_index(from: Seq<usize>, idx: Seq<int>) -> Seq<int> {
    Seq::new(
        from.len(),
        |j: int|
            if from[j] == 1 {
                0
            } else {
                idx[j + idx.len() - from.len()]
            },
    )
}

/// Both operands of a compatible pair stretch to their broadcast shape.
pub proof fn lemma_broadcast_shape_covers(a: Seq<usize>, b: Seq<usize>)
    requires
        compatible(a, b),
    ensures
        broadcasts_to(a, broadcast_shape(a, b)),
        broadcasts_to(b, broadcast_shape(a, b)),
        broadcast_shape(a, b).len() == rank_max(a, b),
{
    let n = rank_max(a, b);
    let s = broadcast_shape(a, b);
    assert forall|j: int| 0 <= j < a.len() implies (#[trigger] a[j] == s[j + s.len() - a.len()]
        || a[j] == 1) by {
        let p = j + n - a.len();
        assert(aligned(a, n, p) == a[j]);
    }
    assert forall|j: int| 0 <= j < b.len() implies (#[trigger] b[j] == s[j + s.len() - b.len()]
        || b[j] == 1) by {
        let p = j + n - b.len();
        assert(aligned(b, n, p) == b[j]);
        let x = aligned(a, n, p);
        assert(x == b[j] || x == 1 || b[j] == 1);
    }
}

/// Every shape stretches to itself.
pub proof fn lemma_broadcasts_to_itself(shape: Seq<usize>)
    ensures
        broadcasts_to(shape, shape),
{
    assert forall|j: int| 0 <= j < shape.len() implies (#[trigger] shape[j] == shape[j
        + shape.len() - shape.len()] || shape[j] == 1) by {}
}

/// A tensor stretched to its own shape shows every element at its own place.
pub proof fn lemma_broadcast_identity(shape: Seq<usize>, idx: Seq<int>)
    requires
        in_bounds(shape, idx),
    ensures
        source_index(shape, idx) == idx,
{
    assert forall|j: int| 0 <= j < shape.len() implies source_index(shape, idx)[j] == idx[j] by {
        assert(0 <= idx[j] < shape[j]);
    }
    assert(source_index(shape, idx) =~= idx);
}

/// The shape of the result of an elementwise operation on tensors of the two
/// shapes, or `None` when the shapes are not compatible.
pub fn cobroadcast(left: &Vec<usize>, right: &Vec<usize>) -> (out: Option<Vec<usize>>)
    ensures
        out.is_some() <==> compatible(left@, right@),
        out matches Some(s) ==> s@ == broadcast_shape(left@, right@),
{
    let n: usize = if left.len() >= right.len() {
        left.len()
    } else {
        right.len()
    };
    let lead_left: usize = n - left.len();
    let lead_right: usize = n - right.len();
    let mut out: Vec<usize> = Vec::new();
    let mut p: usize = 0;
    while p < n
        invariant
            n == rank_max(left@, right@),
            lead_left == n - left.len(),
            lead_right == n - right.len(),
            p <= n,
            out.len() == p,
            forall|q: int|
                0 <= q < p ==> {
                    let x = #[trigger] aligned(left@, n as int, q);
                    let y = aligned(right@, n as int, q);
                    x == y || x == 1 || y == 1
                },
            forall|q: int| 0 <= q < p ==> #[trigger] out[q] == broadcast_shape(left@, right@)[q],
        decreases n - p,
    {
        let x: usize = if p < lead_left {
            1
        } else {
            left[p - lead_left]
        };
        let y: usize = if p < lead_right {
            1
        } else {
            right[p - lead_right]
        };
        assert(x == aligned(left@, n as int, p as int));
        assert(y == aligned(right@, n as int, p as int));
        if x != y && x != 1 && y != 1 {
            return None;
        }
        out.push(if x == 1 {
            y
        } else {
            x
        });
        p += 1;
    }
    assert(out@ =~= broadcast_shape(left@, right@));
    Some(out)
}

/// Whether a tensor of shape `from` can be stretched to shape `to`.
pub fn can_broadcast(from: &Vec<usize>, to: &Vec<usize>) -> (ok: bool)
    ensures
        ok == broadcasts_to(from@, to@),
{
    if from.len() > to.len() {
        return false;
    }
    let lead: usize = to.len() - from.len();
    let mut j: usize = 0;
    while j < from.len()
        invariant
            from.len() <= to.len(),
            lead == to.len() - from.len(),
            j <= from.len(),
            forall|k: int|
                0 <= k < j ==> (#[trigger] from[k] == to[k + to.len() - from.len()] || from[k]
                    == 1),
        decreases from.len() - j,
    {
        if from[j] != to[j + lead] && from[j] != 1 {
            return false;
        }
        j += 1;
    }
    true
}

/// A copy of a shape.
pub fn copy_shape(shape: &Vec<usize>) -> (out: Vec<usize>)
    ensures
        out@ == shape@,
{
    let mut out: Vec<usize> = Vec::new();
    let mut k: usize = 0;
    while k < shape.len()
        invariant
            k <= shape.len(),
            out.len() == k,
            forall|j: int| 0 <= j < k ==> out[j] == shape[j],
        decreases shape.len() - k,
    {
        out.push(shape[k]);
        k += 1;
    }
    assert(out@ =~= shape@);
    out
}

/// Whether two shapes are the same.
pub fn same_shape(a: &Vec<usize>, b: &Vec<usize>) -> (same: bool)
    ensures
        same == (a@ == b@),
{
    if a.len() != b.len() {
        return false;
    }
    let mut k: usize = 0;
    while k < a.len()
        invariant
            a.len() == b.len(),
            k <= a.len(),
            forall|j: int| 0 <= j < k ==> a[j] == b[j],
        decreases a.len() - k,
    {
        if a[k] != b[k] {
            return false;
        }
        k += 1;
    }
    assert(a@ =~= b@);
    true
}

/// The number of elements of a tensor of this shape, or `None` when no tensor
/// can have the shape because the product of its non-zero axis lengths
/// exceeds `isize::MAX`.
pub fn checked_size(shape: &Vec<usize>) -> (out: Option<usize>)
    ensures
        out.is_some() <==> representable(shape@),
        out matches Some(n) ==> n == size(shape@),
{
    let limit: usize = isize::MAX as usize;
    let mut extent: usize = 1;
    let mut count: usize = 1;
    let mut k: usize = 0;
    while k < shape.len()
        invariant
            limit == isize::MAX,
            k <= shape.len(),
            extent == span(shape@.take(k as int)),
            count == size(shape@.take(k as int)),
            1 <= extent <= limit,
            count <= extent,
        decreases shape.len() - k,
    {
        let d: usize = shape[k];
        proof {
            let next = shape@.take(k as int + 1);
            assert(next.drop_last() =~= shape@.take(k as int));
            assert(next.last() == d);
            lemma_size_le_span(next);
        }
        if d == 0 {
            count = 0;
            assert(size(shape@.take(k as int)) * 0 == 0);
        } else {
            if extent > limit / d {
                proof {
                    lemma_span_prefix(shape@, k as int + 1);
                    assert(extent * d > limit) by (nonlinear_arith)
                        requires
                            extent > limit / d,
                            d > 0,
                    ;
                }
                return None;
            }
            assert(extent * d <= limit) by (nonlinear_arith)
                requires
                    extent <= limit / d,
                    d > 0,
            ;
            assert(count * d <= extent * d) by (nonlinear_arith)
                requires
                    count <= extent,
            ;
            extent = extent * d;
            count = count * d;
        }
        k += 1;
    }
    assert(shape@.take(shape.len() as int) =~= shape@);
    Some(count)
}

/// The span of a shape is at least the span of each of its prefixes.
pub proof fn lemma_span_prefix(shape: Seq<usize>, k: int)
    requires
        0 <= k <= shape.len(),
    ensures
        span(shape.take(k)) <= span(shape),
    decreases shape.len() - k,
{
    if k < shape.len() {
        let next = shape.take(k + 1);
        assert(next.drop_last() =~= shape.take(k));
        lemma_span_prefix(shape, k + 1);
        lemma_size_le_span(shape.take(k));
        if next.last() != 0 {
            assert(span(shape.take(k)) <= span(shape.take(k)) * (next.last() as nat))
                by (nonlinear_arith)
                requires
                    next.last() >= 1,
            ;
        }
    } else {
        assert(shape.take(k) =~= shape);
    }
}

/// Inserting an axis of length 1 changes neither the size nor the span.
pub proof fn lemma_insert_axis_size(shape: Seq<usize>, axis: int)
    requires
        0 <= axis <= shape.len(),
    ensures
        size(shape.insert(axis, 1usize)) == size(shape),
        span(shape.insert(axis, 1usize)) == span(shape),
    decreases shape.len(),
{
    let wide = shape.insert(axis, 1usize);
    if axis == shape.len() {
        assert(wide.drop_last() =~= shape);
        assert(wide.last() == 1);
    } else {
        assert(wide.drop_last() =~= shape.drop_last().insert(axis, 1usize));
        assert(wide.last() == shape.last());
        lemma_insert_axis_size(shape.drop_last(), axis);
    }
}

/// An element of a tensor with an inserted axis of length 1 lies at position
/// 0 of that axis, and at the offset that it has without the axis.
pub proof fn lemma_insert_axis_offset(shape: Seq<usize>, axis: int, idx: Seq<int>)
    requires
        0 <= axis <= shape.len(),
        in_bounds(shape.insert(axis, 1usize), idx),
    ensures
        idx[axis] == 0,
        in_bounds(shape, idx.remove(axis)),
        offset(shape.insert(axis, 1usize), idx) == offset(shape, idx.remove(axis)),
    decreases shape.len(),
{
    let wide = shape.insert(axis, 1usize);
    let narrow = idx.remove(axis);
    assert(0 <= idx[axis] < wide[axis]);
    assert forall|k: int| 0 <= k < shape.len() implies 0 <= #[trigger] narrow[k] < shape[k] by {
        if k < axis {
            assert(0 <= idx[k] < wide[k]);
        } else {
            assert(0 <= idx[k + 1] < wide[k + 1]);
        }
    }
    if axis == shape.len() {
        assert(wide.drop_last() =~= shape);
        assert(idx.drop_last() =~= narrow);
        assert(wide.last() == 1);
        assert(idx.last() == idx[axis]);
        assert(offset(wide, idx) == offset(shape, narrow) * 1 + 0);
    } else {
        let head = shape.drop_last();
        assert(wide.drop_last() =~= head.insert(axis, 1usize));
        assert(wide.last() == shape.last());
        let rest = idx.drop_last();
        assert(in_bounds(head.insert(axis, 1usize), rest)) by {
            assert forall|k: int| 0 <= k < head.len() + 1 implies 0 <= #[trigger] rest[k]
                < head.insert(axis, 1usize)[k] by {
                assert(0 <= idx[k] < wide[k]);
            }
        }
        lemma_insert_axis_offset(head, axis, rest);
        assert(rest.remove(axis) =~= narrow.drop_last());
        assert(narrow.last() == idx.last());
        assert(offset(wide, idx) == offset(head.insert(axis, 1usize), rest) * (shape.last() as int)
            + idx.last());
        assert(offset(shape, narrow) == offset(head, narrow.drop_last()) * (shape.last() as int)
            + narrow.last());
    }
}

} // verus!
