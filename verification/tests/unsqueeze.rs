use neuronika::error::{Error, Operation};
use neuronika::gradient::{push_gradient, Accumulator};
use neuronika::scalar::Scalar;
use neuronika::tensor::Tensor;
use neuronika::unsqueeze::{Unsqueeze, UnsqueezeBackward};

#[derive(Clone, Copy, Debug, PartialEq)]
struct Real(f32);

impl Scalar for Real {
    fn zero() -> Self {
        Real(0.0)
    }

    fn plus(self, rhs: Self) -> Self {
        Real(self.0 + rhs.0)
    }

    fn times(self, rhs: Self) -> Self {
        Real(self.0 * rhs.0)
    }

    fn over(self, rhs: Self) -> Self {
        Real(self.0 / rhs.0)
    }

    fn negated(self) -> Self {
        Real(-self.0)
    }

    fn powi(self, n: i32) -> Self {
        Real(self.0.powi(n))
    }
}
fn tensor(shape: &[usize], values: &[f32]) -> Tensor<Real> {
    Tensor::from_vec(shape.to_vec(), values.iter().map(|v| Real(*v)).collect()).unwrap()
}

fn floats(t: &Tensor<Real>) -> Vec<f32> {
    t.data().iter().map(|r| r.0).collect()
}

fn accumulator(shape: &[usize]) -> Accumulator<Real> {
    Accumulator::new(shape.to_vec()).unwrap()
}

#[test]
fn unsqueeze_inserts_an_axis_of_length_one() {
    let operand = tensor(&[2, 3], &[1.0, 2.0, 3.0, 4.0, 5.0, 6.0]);
    assert_eq!(Unsqueeze::new(&operand, 0).unwrap().data().shape(), &vec![1, 2, 3]);
    assert_eq!(Unsqueeze::new(&operand, 1).unwrap().data().shape(), &vec![2, 1, 3]);
    assert_eq!(Unsqueeze::new(&operand, 2).unwrap().data().shape(), &vec![2, 3, 1]);
    assert_eq!(
        Unsqueeze::new(&operand, 3).err(),
        Some(Error::AxisOutOfBounds { operation: Operation::Unsqueeze, axis: 3, rank: 2 })
    );
}

#[test]
fn unsqueeze_forward_copies_the_operand() {
    let operand = tensor(&[2, 3], &[1.0, 2.0, 3.0, 4.0, 5.0, 6.0]);
    let mut node = Unsqueeze::new(&operand, 1).unwrap();
    assert_eq!(floats(node.data()), vec![0.0; 6]);
    node.forward(&operand).unwrap();
    assert!(node.was_computed());
    assert_eq!(floats(node.data()), vec![1.0, 2.0, 3.0, 4.0, 5.0, 6.0]);
    assert_eq!(node.data().get(&vec![1, 0, 1]), Some(Real(5.0)));
}

#[test]
fn unsqueeze_forward_is_memoized_until_reset() {
    let mut operand = tensor(&[2], &[1.0, 2.0]);
    let mut node = Unsqueeze::new(&operand, 0).unwrap();
    node.forward(&operand).unwrap();
    assert!(operand.set(&vec![1], Real(9.0)));
    node.forward(&operand).unwrap();
    assert_eq!(floats(node.data()), vec![1.0, 2.0]);
    node.reset_computation();
    assert!(!node.was_computed());
    node.forward(&operand).unwrap();
    assert_eq!(floats(node.data()), vec![1.0, 9.0]);
    assert!(node.data_mut().set(&vec![0, 0], Real(-1.0)));
    node.forward(&operand).unwrap();
    assert_eq!(floats(node.data()), vec![-1.0, 9.0]);
}

#[test]
fn unsqueeze_forward_rejects_an_operand_of_another_shape() {
    let operand = tensor(&[2], &[1.0, 2.0]);
    let mut node = Unsqueeze::new(&operand, 0).unwrap();
    assert_eq!(
        node.forward(&tensor(&[3], &[1.0, 2.0, 3.0])),
        Err(Error::ShapeMismatch {
            operation: Operation::Unsqueeze,
            left: vec![2],
            right: vec![3],
        })
    );
    assert!(!node.was_computed());
}

#[test]
fn unsqueeze_backward_takes_the_axis_out_again() {
    let mut operand = accumulator(&[2, 3]);
    let mut node = UnsqueezeBackward::new(&operand, 1).unwrap();
    assert!(node.can_overwrite());
    assert_eq!(node.gradient().unwrap().shape(), &vec![2, 1, 3]);
    push_gradient(
        node.accumulator_mut(),
        &tensor(&[2, 1, 3], &[1.0, 2.0, 3.0, 4.0, 5.0, 6.0]),
    )
    .unwrap();
    node.backward(&mut operand).unwrap();
    assert_eq!(operand.gradient().unwrap().shape(), &vec![2, 3]);
    assert_eq!(
        floats(operand.gradient().unwrap()),
        vec![1.0, 2.0, 3.0, 4.0, 5.0, 6.0]
    );
    assert!(!operand.can_overwrite());
    node.backward(&mut operand).unwrap();
    assert_eq!(
        floats(operand.gradient().unwrap()),
        vec![2.0, 4.0, 6.0, 8.0, 10.0, 12.0]
    );
}

#[test]
fn unsqueeze_backward_is_refused_without_changing_the_operand() {
    let mut operand = accumulator(&[2]);
    let mut node = UnsqueezeBackward::new(&operand, 0).unwrap();
    let mut other = accumulator(&[3]);
    assert_eq!(
        node.backward(&mut other),
        Err(Error::ShapeMismatch {
            operation: Operation::Unsqueeze,
            left: vec![2],
            right: vec![3],
        })
    );
    assert!(other.can_overwrite());
    operand.no_grad();
    assert_eq!(node.backward(&mut operand), Err(Error::MissingGradientBuffer));
    operand.with_grad();
    node.no_grad();
    assert_eq!(node.backward(&mut operand), Err(Error::MissingGradientBuffer));
    node.no_grad();
    assert!(node.gradient().is_err());
    node.with_grad();
    assert_eq!(node.gradient().unwrap().shape(), &vec![1, 2]);
    assert_eq!(floats(node.gradient().unwrap()), vec![0.0, 0.0]);
    node.set_overwrite(false);
    assert!(!node.can_overwrite());
    assert!(node.backward(&mut operand).is_ok());
}

#[test]
fn unsqueeze_backward_needs_the_gradient_of_its_operand() {
    let mut operand = accumulator(&[2]);
    assert_eq!(
        UnsqueezeBackward::new(&operand, 2).err(),
        Some(Error::AxisOutOfBounds { operation: Operation::Unsqueeze, axis: 2, rank: 1 })
    );
    operand.no_grad();
    assert_eq!(
        UnsqueezeBackward::new(&operand, 0).err(),
        Some(Error::MissingGradientBuffer)
    );
}

#[test]
fn an_unsqueeze_node_whose_buffer_was_replaced_is_not_well_formed() {
    let operand = tensor(&[2], &[1.0, 2.0]);
    let mut forward = Unsqueeze::new(&operand, 1).unwrap();
    assert!(forward.is_well_formed());
    *forward.data_mut() = tensor(&[2], &[1.0, 2.0]);
    assert!(!forward.is_well_formed());
    let gradient = accumulator(&[2]);
    let mut backward = UnsqueezeBackward::new(&gradient, 1).unwrap();
    assert!(backward.is_well_formed());
    *backward.gradient_mut().unwrap() = tensor(&[1, 2], &[1.0, 2.0]);
    assert!(!backward.is_well_formed());
}
