use neuronika::division::{
    divide, left_contribution, right_contribution, Division, DivisionBackward,
    DivisionBackwardLeft, DivisionBackwardRight,
};
use neuronika::error::{Error, Operation};
use neuronika::gradient::Accumulator;
use neuronika::scalar::Scalar;
use neuronika::tensor::Tensor;

#[derive(Clone, Copy, Debug, PartialEq)]
struct Real(f32);

impl Scalar for Real {
    fn zero() -> Self {
        Real(0.0)
    }

    fn plus(self, rhs: Self) -> Self {
        Real(self.0 + rhs.0)
    }

    fn times(self, rhs: Self) -> Self {
        Real(self.0 * rhs.0)
    }

    fn over(self, rhs: Self) -> Self {
        Real(self.0 / rhs.0)
    }

    fn negated(self) -> Self {
        Real(-self.0)
    }

    fn powi(self, n: i32) -> Self {
        Real(self.0.powi(n))
    }
}
fn tensor(shape: &[usize], values: &[f32]) -> Tensor<Real> {
    Tensor::from_vec(shape.to_vec(), values.iter().map(|v| Real(*v)).collect()).unwrap()
}

fn floats(t: &Tensor<Real>) -> Vec<f32> {
    t.data().iter().map(|r| r.0).collect()
}

fn accumulator(shape: &[usize]) -> Accumulator<Real> {
    Accumulator::new(shape.to_vec()).unwrap()
}

fn seed(gradient: &mut Tensor<Real>, values: &[f32]) {
    *gradient = tensor(gradient.shape(), values);
}

#[test]
fn new_division_holds_zeros_of_the_common_shape() {
    let left = tensor(&[3, 1], &[1.0, 2.0, 3.0]);
    let right = tensor(&[1, 2], &[1.0, 2.0]);
    let node = Division::new(&left, &right).unwrap();
    assert!(!node.was_computed());
    assert_eq!(node.data().shape(), &vec![3, 2]);
    assert_eq!(floats(node.data()), vec![0.0; 6]);
}

#[test]
fn new_division_rejects_shapes_that_are_not_compatible() {
    let left = tensor(&[2, 2], &[1.0; 4]);
    let right = tensor(&[2, 4], &[1.0; 8]);
    let refused = Division::new(&left, &right);
    assert_eq!(
        refused.err(),
        Some(Error::ShapeMismatch {
            operation: Operation::Division,
            left: vec![2, 2],
            right: vec![2, 4],
        })
    );
}

#[test]
fn new_division_rejects_a_common_shape_that_is_too_large() {
    let huge = 1usize << (usize::BITS - 3);
    let left: Tensor<Real> = Tensor::from_vec(vec![huge, 0, 1], Vec::new()).unwrap();
    let right: Tensor<Real> = Tensor::from_vec(vec![1, 0, huge], Vec::new()).unwrap();
    let refused = Division::new(&left, &right);
    assert_eq!(
        refused.err(),
        Some(Error::ShapeOverflow { operation: Operation::Division })
    );
}

#[test]
fn forward_divides_elementwise() {
    let left = tensor(&[2, 2], &[6.0, 9.0, 1.0, -4.0]);
    let right = tensor(&[2, 2], &[2.0, 3.0, 4.0, 8.0]);
    let mut node = Division::new(&left, &right).unwrap();
    node.forward(&left, &right).unwrap();
    assert!(node.was_computed());
    assert_eq!(floats(node.data()), vec![3.0, 3.0, 0.25, -0.5]);
}

#[test]
fn forward_stretches_both_operands() {
    let left = tensor(&[3, 1], &[2.0, 4.0, 8.0]);
    let right = tensor(&[2], &[1.0, 2.0]);
    let mut node = Division::new(&left, &right).unwrap();
    node.forward(&left, &right).unwrap();
    assert_eq!(node.data().shape(), &vec![3, 2]);
    assert_eq!(floats(node.data()), vec![2.0, 1.0, 4.0, 2.0, 8.0, 4.0]);
}

#[test]
fn forward_is_memoized_until_reset() {
    let mut left = tensor(&[2], &[6.0, 8.0]);
    let right = tensor(&[2], &[2.0, 4.0]);
    let mut node = Division::new(&left, &right).unwrap();
    node.forward(&left, &right).unwrap();
    assert_eq!(floats(node.data()), vec![3.0, 2.0]);

    assert!(left.set(&vec![0], Real(60.0)));
    node.forward(&left, &right).unwrap();
    assert!(node.was_computed());
    assert_eq!(floats(node.data()), vec![3.0, 2.0]);

    node.reset_computation();
    assert!(!node.was_computed());
    assert_eq!(floats(node.data()), vec![3.0, 2.0]);
    node.forward(&left, &right).unwrap();
    assert_eq!(floats(node.data()), vec![30.0, 2.0]);
}

#[test]
fn forward_keeps_a_value_written_into_the_cache() {
    let left = tensor(&[2], &[6.0, 8.0]);
    let right = tensor(&[2], &[2.0, 4.0]);
    let mut node = Division::new(&left, &right).unwrap();
    node.forward(&left, &right).unwrap();
    assert!(node.data_mut().set(&vec![1], Real(-1.0)));
    node.forward(&left, &right).unwrap();
    assert_eq!(floats(node.data()), vec![3.0, -1.0]);
}

#[test]
fn forward_rejects_an_operand_of_another_shape() {
    let left = tensor(&[2], &[6.0, 8.0]);
    let right = tensor(&[2], &[2.0, 4.0]);
    let mut node = Division::new(&left, &right).unwrap();
    let other = tensor(&[3], &[1.0, 2.0, 3.0]);
    assert_eq!(
        node.forward(&other, &right),
        Err(Error::ShapeMismatch {
            operation: Operation::Division,
            left: vec![2],
            right: vec![3],
        })
    );
    assert_eq!(
        node.forward(&left, &other),
        Err(Error::ShapeMismatch {
            operation: Operation::Division,
            left: vec![2],
            right: vec![3],
        })
    );
    assert!(!node.was_computed());
    assert_eq!(floats(node.data()), vec![0.0, 0.0]);
}

#[test]
fn divide_and_contributions_follow_their_formulas() {
    let left = tensor(&[2], &[6.0, 1.0]);
    let right = tensor(&[2], &[2.0, 4.0]);
    let gradient = tensor(&[2], &[1.0, 8.0]);
    assert_eq!(floats(&divide(&left, &right, &vec![2]).unwrap()), vec![3.0, 0.25]);
    assert_eq!(floats(&left_contribution(&gradient, &right).unwrap()), vec![0.5, 2.0]);
    assert_eq!(
        floats(&right_contribution(&gradient, &left, &right).unwrap()),
        vec![-1.5, -0.5]
    );
}

#[test]
fn divide_and_contributions_reject_what_does_not_stretch() {
    let two = tensor(&[2], &[6.0, 1.0]);
    let three = tensor(&[3], &[2.0, 4.0, 8.0]);
    let mismatch = Some(Error::ShapeMismatch {
        operation: Operation::Division,
        left: vec![2],
        right: vec![3],
    });
    assert_eq!(divide(&three, &two, &vec![2]).err(), mismatch);
    assert_eq!(divide(&two, &three, &vec![2]).err(), mismatch);
    assert_eq!(
        divide(&two, &two, &vec![usize::MAX, 2]).err(),
        Some(Error::ShapeOverflow { operation: Operation::Division })
    );
    assert_eq!(left_contribution(&two, &three).err(), mismatch);
    assert_eq!(right_contribution(&two, &three, &two).err(), mismatch);
    assert_eq!(right_contribution(&two, &two, &three).err(), mismatch);
}

#[test]
fn division_gradient_of_six_over_two() {
    let left = tensor(&[1], &[6.0]);
    let right = tensor(&[1], &[2.0]);
    let mut left_grad = accumulator(&[1]);
    let mut right_grad = accumulator(&[1]);
    let mut node = DivisionBackward::new(&left, &left_grad, &right, &right_grad).unwrap();
    assert!(node.can_overwrite());
    seed(node.gradient_mut().unwrap(), &[1.0]);

    node.backward(&left, &right, &mut left_grad, &mut right_grad).unwrap();
    assert_eq!(floats(left_grad.gradient().unwrap()), vec![0.5]);
    assert_eq!(floats(right_grad.gradient().unwrap()), vec![-1.5]);
    assert!(!left_grad.can_overwrite());
    assert!(!right_grad.can_overwrite());
    assert_eq!(floats(node.gradient().unwrap()), vec![1.0]);
}

#[test]
fn backward_accumulates_on_the_second_pass() {
    let left = tensor(&[1], &[6.0]);
    let right = tensor(&[1], &[2.0]);
    let mut left_grad = accumulator(&[1]);
    let mut right_grad = accumulator(&[1]);
    let mut node = DivisionBackward::new(&left, &left_grad, &right, &right_grad).unwrap();
    seed(node.gradient_mut().unwrap(), &[1.0]);
    node.backward(&left, &right, &mut left_grad, &mut right_grad).unwrap();
    node.backward(&left, &right, &mut left_grad, &mut right_grad).unwrap();
    assert_eq!(floats(left_grad.gradient().unwrap()), vec![1.0]);
    assert_eq!(floats(right_grad.gradient().unwrap()), vec![-3.0]);
    left_grad.set_overwrite(true);
    right_grad.set_overwrite(true);
    node.backward(&left, &right, &mut left_grad, &mut right_grad).unwrap();
    assert_eq!(floats(left_grad.gradient().unwrap()), vec![0.5]);
    assert_eq!(floats(right_grad.gradient().unwrap()), vec![-1.5]);
}

#[test]
fn backward_reduces_to_the_shape_of_each_operand() {
    let left = tensor(&[3, 1], &[2.0, 4.0, 8.0]);
    let right = tensor(&[2], &[1.0, 2.0]);
    let mut left_grad = accumulator(&[3, 1]);
    let mut right_grad = accumulator(&[2]);
    let mut node = DivisionBackward::new(&left, &left_grad, &right, &right_grad).unwrap();
    assert_eq!(node.gradient().unwrap().shape(), &vec![3, 2]);
    seed(node.gradient_mut().unwrap(), &[1.0; 6]);
    node.backward(&left, &right, &mut left_grad, &mut right_grad).unwrap();
    assert_eq!(left_grad.gradient().unwrap().shape(), &vec![3, 1]);
    assert_eq!(floats(left_grad.gradient().unwrap()), vec![1.5, 1.5, 1.5]);
    assert_eq!(right_grad.gradient().unwrap().shape(), &vec![2]);
    assert_eq!(floats(right_grad.gradient().unwrap()), vec![-14.0, -3.5]);
}

#[test]
fn backward_without_gradient_is_refused() {
    let left = tensor(&[1], &[6.0]);
    let right = tensor(&[1], &[2.0]);
    let mut left_grad = accumulator(&[1]);
    let mut right_grad = accumulator(&[1]);
    let mut node = DivisionBackward::new(&left, &left_grad, &right, &right_grad).unwrap();
    node.no_grad();
    assert_eq!(
        node.backward(&left, &right, &mut left_grad, &mut right_grad),
        Err(Error::MissingGradientBuffer)
    );
    node.with_grad();
    right_grad.no_grad();
    assert_eq!(
        node.backward(&left, &right, &mut left_grad, &mut right_grad),
        Err(Error::MissingGradientBuffer)
    );
    assert!(left_grad.can_overwrite());
    assert_eq!(floats(left_grad.gradient().unwrap()), vec![0.0]);
}

#[test]
fn backward_rejects_an_operand_of_another_shape() {
    let left = tensor(&[1], &[6.0]);
    let right = tensor(&[1], &[2.0]);
    let mut left_grad = accumulator(&[1]);
    let mut right_grad = accumulator(&[1]);
    let node = DivisionBackward::new(&left, &left_grad, &right, &right_grad).unwrap();
    let mut other = accumulator(&[2]);
    assert_eq!(
        node.backward(&left, &right, &mut left_grad, &mut other),
        Err(Error::ShapeMismatch {
            operation: Operation::Division,
            left: vec![1],
            right: vec![2],
        })
    );
    assert!(left_grad.can_overwrite());
    assert!(right_grad.can_overwrite());
    assert!(node.backward(&left, &right, &mut left_grad, &mut right_grad).is_ok());
}

#[test]
fn new_backward_needs_the_gradients_of_its_operands() {
    let left = tensor(&[1], &[6.0]);
    let right = tensor(&[1], &[2.0]);
    let mut left_grad = accumulator(&[1]);
    let right_grad = accumulator(&[1]);
    left_grad.no_grad();
    assert_eq!(
        DivisionBackward::new(&left, &left_grad, &right, &right_grad).err(),
        Some(Error::MissingGradientBuffer)
    );
    assert_eq!(
        DivisionBackwardLeft::new(&left_grad, &right).err(),
        Some(Error::MissingGradientBuffer)
    );
    assert_eq!(
        DivisionBackwardRight::new(&right, &left, &left_grad).err(),
        Some(Error::MissingGradientBuffer)
    );
}

#[test]
fn new_backward_rejects_shapes_that_are_not_compatible() {
    let left = tensor(&[2], &[6.0, 1.0]);
    let right = tensor(&[3], &[2.0, 1.0, 1.0]);
    let left_grad = accumulator(&[2]);
    let right_grad = accumulator(&[3]);
    let mismatch = Some(Error::ShapeMismatch {
        operation: Operation::Division,
        left: vec![2],
        right: vec![3],
    });
    assert_eq!(
        DivisionBackward::new(&left, &left_grad, &right, &right_grad).err(),
        mismatch
    );
    assert_eq!(DivisionBackwardLeft::new(&left_grad, &right).err(), mismatch);
    assert_eq!(
        DivisionBackwardRight::new(&left, &right, &right_grad).err(),
        mismatch
    );
}

#[test]
fn new_backward_rejects_a_value_that_does_not_stretch_to_the_gradient() {
    let left = tensor(&[3], &[1.0, 2.0, 3.0]);
    let right = tensor(&[2], &[2.0, 1.0]);
    let left_grad = accumulator(&[2]);
    let right_grad = accumulator(&[2]);
    assert_eq!(
        DivisionBackward::new(&left, &left_grad, &right, &right_grad).err(),
        Some(Error::ShapeMismatch {
            operation: Operation::Division,
            left: vec![2],
            right: vec![3],
        })
    );
}

#[test]
fn backward_left_pushes_only_the_left_contribution() {
    let right = tensor(&[2], &[2.0, 4.0]);
    let mut left_grad = accumulator(&[2]);
    let mut node = DivisionBackwardLeft::new(&left_grad, &right).unwrap();
    seed(node.gradient_mut().unwrap(), &[1.0, 2.0]);
    node.backward(&right, &mut left_grad).unwrap();
    assert_eq!(floats(left_grad.gradient().unwrap()), vec![0.5, 0.5]);
    assert!(!left_grad.can_overwrite());
    node.no_grad();
    assert_eq!(
        node.backward(&right, &mut left_grad),
        Err(Error::MissingGradientBuffer)
    );
}

#[test]
fn backward_right_pushes_only_the_right_contribution() {
    let left = tensor(&[2], &[6.0, 1.0]);
    let right = tensor(&[2], &[2.0, 4.0]);
    let mut right_grad = accumulator(&[2]);
    let mut node = DivisionBackwardRight::new(&left, &right, &right_grad).unwrap();
    seed(node.gradient_mut().unwrap(), &[1.0, 8.0]);
    node.backward(&left, &right, &mut right_grad).unwrap();
    assert_eq!(floats(right_grad.gradient().unwrap()), vec![-1.5, -0.5]);
    assert!(!right_grad.can_overwrite());
    let other = tensor(&[3], &[1.0, 1.0, 1.0]);
    assert_eq!(
        node.backward(&other, &right, &mut right_grad),
        Err(Error::ShapeMismatch {
            operation: Operation::Division,
            left: vec![2],
            right: vec![3],
        })
    );
}

#[test]
fn a_backward_node_takes_pushes_from_its_consumers() {
    let left = tensor(&[1], &[6.0]);
    let right = tensor(&[1], &[2.0]);
    let left_grad = accumulator(&[1]);
    let right_grad = accumulator(&[1]);
    let mut node = DivisionBackward::new(&left, &left_grad, &right, &right_grad).unwrap();
    neuronika::gradient::push_gradient(node.accumulator_mut(), &tensor(&[1], &[4.0])).unwrap();
    assert!(!node.can_overwrite());
    assert_eq!(floats(node.accumulator().gradient().unwrap()), vec![4.0]);
    node.set_overwrite(true);
    assert!(node.can_overwrite());
}

#[test]
fn no_grad_and_with_grad_on_a_backward_node() {
    let left = tensor(&[2], &[6.0, 1.0]);
    let right = tensor(&[2], &[2.0, 4.0]);
    let left_grad = accumulator(&[2]);
    let right_grad = accumulator(&[2]);
    let mut node = DivisionBackward::new(&left, &left_grad, &right, &right_grad).unwrap();
    seed(node.gradient_mut().unwrap(), &[3.0, 4.0]);
    node.no_grad();
    node.no_grad();
    assert_eq!(node.gradient().err(), Some(Error::MissingGradientBuffer));
    node.with_grad();
    assert_eq!(node.gradient().unwrap().shape(), &vec![2]);
    assert_eq!(floats(node.gradient().unwrap()), vec![0.0, 0.0]);
}

#[test]
fn a_node_whose_buffer_was_replaced_is_not_well_formed() {
    let left = tensor(&[2], &[6.0, 1.0]);
    let right = tensor(&[2], &[2.0, 4.0]);
    let left_grad = accumulator(&[2]);
    let right_grad = accumulator(&[2]);
    let mut forward = Division::new(&left, &right).unwrap();
    assert!(forward.is_well_formed());
    *forward.data_mut() = tensor(&[3], &[0.0; 3]);
    assert!(!forward.is_well_formed());

    let mut both = DivisionBackward::new(&left, &left_grad, &right, &right_grad).unwrap();
    let mut only_left = DivisionBackwardLeft::new(&left_grad, &right).unwrap();
    let mut only_right = DivisionBackwardRight::new(&left, &right, &right_grad).unwrap();
    assert!(both.is_well_formed() && only_left.is_well_formed() && only_right.is_well_formed());
    *both.gradient_mut().unwrap() = tensor(&[1], &[0.0]);
    *only_left.gradient_mut().unwrap() = tensor(&[1], &[0.0]);
    *only_right.gradient_mut().unwrap() = tensor(&[1], &[0.0]);
    assert!(!both.is_well_formed());
    assert!(!only_left.is_well_formed());
    assert!(!only_right.is_well_formed());
    both.no_grad();
    assert!(both.is_well_formed());
    both.with_grad();
    assert!(both.is_well_formed());
    assert_eq!(floats(both.gradient().unwrap()), vec![0.0, 0.0]);
}
