use ndarray::{concatenate, ArrayD, Axis, IxDyn};
use neuronika::division::{Division, DivisionBackward};
use neuronika::gradient::{push_gradient, reduce, Accumulator};
use neuronika::multi_concatenate::{MultiConcatenate, MultiConcatenateBackward};
use neuronika::scalar::Scalar;
use neuronika::tensor::Tensor;
use neuronika::unsqueeze::{Unsqueeze, UnsqueezeBackward};

#[derive(Clone, Copy, Debug, PartialEq)]
struct Real(f32);

impl Scalar for Real {
    fn zero() -> Self {
        Real(0.0)
    }

    fn plus(self, rhs: Self) -> Self {
        Real(self.0 + rhs.0)
    }

    fn times(self, rhs: Self) -> Self {
        Real(self.0 * rhs.0)
    }

    fn over(self, rhs: Self) -> Self {
        Real(self.0 / rhs.0)
    }

    fn negated(self) -> Self {
        Real(-self.0)
    }

    fn powi(self, n: i32) -> Self {
        Real(self.0.powi(n))
    }
}
fn tensor(shape: &[usize], values: &[f32]) -> Tensor<Real> {
    Tensor::from_vec(shape.to_vec(), values.iter().map(|v| Real(*v)).collect()).unwrap()
}

fn floats(t: &Tensor<Real>) -> Vec<f32> {
    t.data().iter().map(|r| r.0).collect()
}

fn counting(shape: &[usize]) -> Tensor<Real> {
    let size: usize = shape.iter().product();
    let values: Vec<f32> = (0..size).map(|i| (i + 1) as f32).collect();
    tensor(shape, &values)
}

fn array(t: &Tensor<Real>) -> ArrayD<f32> {
    ArrayD::from_shape_vec(IxDyn(t.shape()), floats(t)).unwrap()
}

fn same(t: &Tensor<Real>, expected: &ArrayD<f32>) -> bool {
    t.shape().as_slice() == expected.shape()
        && floats(t) == expected.iter().copied().collect::<Vec<f32>>()
}

fn summed_to(source: &ArrayD<f32>, target: &[usize]) -> ArrayD<f32> {
    let mut current = source.clone();
    while current.ndim() > target.len() {
        current = current.sum_axis(Axis(0));
    }
    for (axis, length) in target.iter().enumerate() {
        if *length == 1 {
            current = current.sum_axis(Axis(axis)).insert_axis(Axis(axis));
        }
    }
    current
}

#[test]
fn reduce_agrees_with_sums_along_axes() {
    let source = counting(&[2, 3, 4]);
    let targets: Vec<Vec<usize>> = vec![
        vec![2, 3, 4],
        vec![3, 4],
        vec![1, 4],
        vec![3, 1],
        vec![4],
        vec![1],
        vec![],
        vec![2, 1, 4],
        vec![1, 3, 1],
        vec![1, 1, 1],
        vec![2, 3, 1],
    ];
    for target in targets {
        let reduced = reduce(&target, &source).unwrap();
        assert!(same(&reduced, &summed_to(&array(&source), &target)));
    }
}

#[test]
fn reduce_of_an_empty_tensor_gives_zeros() {
    let source: Tensor<Real> = Tensor::zeros(vec![0, 3]).unwrap();
    let reduced = reduce(&vec![1, 3], &source).unwrap();
    assert_eq!(reduced.shape(), &vec![1, 3]);
    assert_eq!(floats(&reduced), vec![0.0; 3]);
    let kept = reduce(&vec![0, 1], &source).unwrap();
    assert_eq!(kept.shape(), &vec![0, 1]);
    assert_eq!(floats(&kept), Vec::<f32>::new());
}

#[test]
fn push_agrees_with_broadcast_views() {
    let sources = vec![
        counting(&[4]),
        counting(&[3, 1]),
        counting(&[1, 4]),
        counting(&[2, 1, 1]),
        counting(&[1]),
        counting(&[]),
        counting(&[2, 3, 4]),
    ];
    for source in sources {
        let mut target: Accumulator<Real> = Accumulator::new(vec![2, 3, 4]).unwrap();
        push_gradient(&mut target, &source).unwrap();
        let view = array(&source);
        let expected = view.broadcast(IxDyn(&[2, 3, 4])).unwrap().to_owned();
        assert!(same(target.gradient().unwrap(), &expected));
    }
}

#[test]
fn division_agrees_with_the_quotient_of_arrays() {
    let pairs = vec![
        (counting(&[2, 3]), counting(&[2, 3])),
        (counting(&[2, 3]), counting(&[3])),
        (counting(&[3, 1]), counting(&[1, 4])),
        (counting(&[]), counting(&[2, 2])),
        (counting(&[2, 1, 2]), counting(&[3, 1])),
    ];
    for (left, right) in pairs {
        let mut node = Division::new(&left, &right).unwrap();
        node.forward(&left, &right).unwrap();
        let expected = &array(&left) / &array(&right);
        assert!(same(node.data(), &expected));
    }
}

#[test]
fn division_backward_agrees_with_reduced_array_formulas() {
    let left = counting(&[3, 1]);
    let right = counting(&[2, 1, 4]);
    let upstream = counting(&[2, 3, 4]);
    let mut left_grad: Accumulator<Real> = Accumulator::new(vec![3, 1]).unwrap();
    let mut right_grad: Accumulator<Real> = Accumulator::new(vec![2, 1, 4]).unwrap();
    let mut node = DivisionBackward::new(&left, &left_grad, &right, &right_grad).unwrap();
    *node.gradient_mut().unwrap() = upstream.duplicate();
    node.backward(&left, &right, &mut left_grad, &mut right_grad).unwrap();

    let g = array(&upstream);
    let l = array(&left);
    let r = array(&right);
    let to_left = &g / &r;
    let to_right = -&g * &l / r.mapv(|v| v.powi(2));
    assert!(same(left_grad.gradient().unwrap(), &summed_to(&to_left, &[3, 1])));
    assert!(same(right_grad.gradient().unwrap(), &summed_to(&to_right, &[2, 1, 4])));
}

#[test]
fn concatenation_agrees_with_arrays_on_every_axis() {
    let shapes: Vec<(usize, Vec<Vec<usize>>)> = vec![
        (0, vec![vec![1, 2, 3], vec![2, 2, 3], vec![3, 2, 3]]),
        (1, vec![vec![2, 1, 3], vec![2, 4, 3], vec![2, 0, 3], vec![2, 2, 3]]),
        (2, vec![vec![2, 2, 3], vec![2, 2, 1]]),
    ];
    for (axis, parts) in shapes {
        let operands: Vec<Tensor<Real>> = parts.iter().map(|s| counting(s)).collect();
        let mut node = MultiConcatenate::new(&operands, axis).unwrap();
        node.forward(&operands).unwrap();
        let arrays: Vec<ArrayD<f32>> = operands.iter().map(array).collect();
        let views: Vec<_> = arrays.iter().map(|a| a.view()).collect();
        let expected = concatenate(Axis(axis), &views).unwrap();
        assert!(same(node.data(), &expected));

        let mut gradients: Vec<Accumulator<Real>> =
            parts.iter().map(|s| Accumulator::new(s.clone()).unwrap()).collect();
        let mut back = MultiConcatenateBackward::new(&gradients, axis).unwrap();
        *back.gradient_mut().unwrap() = node.data().duplicate();
        back.backward(&mut gradients).unwrap();
        for (gradient, operand) in gradients.iter().zip(operands.iter()) {
            assert_eq!(gradient.gradient().unwrap().shape(), operand.shape());
            assert_eq!(floats(gradient.gradient().unwrap()), floats(operand));
        }
    }
}

#[test]
fn unsqueeze_agrees_with_arrays_on_every_axis() {
    let operand = counting(&[2, 3]);
    for axis in 0..3 {
        let mut node = Unsqueeze::new(&operand, axis).unwrap();
        node.forward(&operand).unwrap();
        let expected = array(&operand).insert_axis(Axis(axis));
        assert!(same(node.data(), &expected));

        let mut gradient: Accumulator<Real> = Accumulator::new(vec![2, 3]).unwrap();
        let mut back = UnsqueezeBackward::new(&gradient, axis).unwrap();
        *back.gradient_mut().unwrap() = node.data().duplicate();
        back.backward(&mut gradient).unwrap();
        assert!(same(gradient.gradient().unwrap(), &array(&operand)));
    }
}
