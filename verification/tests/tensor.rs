use neuronika::scalar::Scalar;
use neuronika::tensor::Tensor;

#[derive(Clone, Copy, Debug, PartialEq)]
struct Real(f32);

impl Scalar for Real {
    fn zero() -> Self {
        Real(0.0)
    }

    fn plus(self, rhs: Self) -> Self {
        Real(self.0 + rhs.0)
    }

    fn times(self, rhs: Self) -> Self {
        Real(self.0 * rhs.0)
    }

    fn over(self, rhs: Self) -> Self {
        Real(self.0 / rhs.0)
    }

    fn negated(self) -> Self {
        Real(-self.0)
    }

    fn powi(self, n: i32) -> Self {
        Real(self.0.powi(n))
    }
}
fn tensor(shape: &[usize], values: &[f32]) -> Tensor<Real> {
    Tensor::from_vec(shape.to_vec(), values.iter().map(|v| Real(*v)).collect()).unwrap()
}

fn floats(t: &Tensor<Real>) -> Vec<f32> {
    t.data().iter().map(|r| r.0).collect()
}

#[test]
fn from_vec_checks_the_number_of_elements() {
    assert!(Tensor::from_vec(vec![2, 3], vec![Real(0.0); 6]).is_some());
    assert!(Tensor::from_vec(vec![2, 3], vec![Real(0.0); 5]).is_none());
    assert!(Tensor::from_vec(vec![], vec![Real(1.0)]).is_some());
    assert!(Tensor::from_vec(vec![0, 3], Vec::<Real>::new()).is_some());
}

#[test]
fn from_vec_rejects_a_shape_that_is_too_large() {
    assert!(Tensor::from_vec(vec![usize::MAX, 2], Vec::<Real>::new()).is_none());
    assert!(Tensor::from_vec(vec![0, usize::MAX], Vec::<Real>::new()).is_none());
}

#[test]
fn zeros_has_the_shape_and_only_zeros() {
    let t: Tensor<Real> = Tensor::zeros(vec![2, 3]).unwrap();
    assert_eq!(t.shape(), &vec![2, 3]);
    assert_eq!(t.ndim(), 2);
    assert_eq!(t.len(), 6);
    assert_eq!(floats(&t), vec![0.0; 6]);
    assert!(Tensor::<Real>::zeros(vec![usize::MAX, 2]).is_none());
}

#[test]
fn filled_repeats_the_value() {
    let t = Tensor::filled(vec![3], Real(7.5)).unwrap();
    assert_eq!(floats(&t), vec![7.5, 7.5, 7.5]);
}

#[test]
fn position_is_row_major() {
    let t = tensor(&[2, 3, 4], &[0.0; 24]);
    assert_eq!(t.position(&vec![0, 0, 0]), Some(0));
    assert_eq!(t.position(&vec![0, 0, 3]), Some(3));
    assert_eq!(t.position(&vec![0, 2, 1]), Some(9));
    assert_eq!(t.position(&vec![1, 2, 3]), Some(23));
    assert_eq!(t.position(&vec![2, 0, 0]), None);
    assert_eq!(t.position(&vec![0, 3, 0]), None);
    assert_eq!(t.position(&vec![0, 0]), None);
}

#[test]
fn get_reads_the_element_at_a_multi_index() {
    let t = tensor(&[2, 3], &[1.0, 2.0, 3.0, 4.0, 5.0, 6.0]);
    assert_eq!(t.get(&vec![0, 0]), Some(Real(1.0)));
    assert_eq!(t.get(&vec![1, 0]), Some(Real(4.0)));
    assert_eq!(t.get(&vec![1, 2]), Some(Real(6.0)));
    assert_eq!(t.get(&vec![1, 3]), None);
    let scalar = tensor(&[], &[9.0]);
    assert_eq!(scalar.get(&vec![]), Some(Real(9.0)));
}

#[test]
fn set_writes_one_element() {
    let mut t = tensor(&[2, 2], &[1.0, 2.0, 3.0, 4.0]);
    assert!(t.set(&vec![1, 0], Real(-3.0)));
    assert_eq!(floats(&t), vec![1.0, 2.0, -3.0, 4.0]);
    assert!(!t.set(&vec![2, 0], Real(0.0)));
    assert_eq!(floats(&t), vec![1.0, 2.0, -3.0, 4.0]);
    assert_eq!(t.shape(), &vec![2, 2]);
}

#[test]
fn duplicate_keeps_shape_and_elements() {
    let t = tensor(&[2, 2], &[1.0, 2.0, 3.0, 4.0]);
    let copy = t.duplicate();
    assert_eq!(copy.shape(), &vec![2, 2]);
    assert_eq!(floats(&copy), vec![1.0, 2.0, 3.0, 4.0]);
}

#[test]
fn tensors_made_by_the_library_are_well_formed() {
    assert!(tensor(&[2, 3], &[0.0; 6]).is_well_formed());
    assert!(tensor(&[], &[1.0]).is_well_formed());
    assert!(Tensor::<Real>::zeros(vec![0, 4]).unwrap().is_well_formed());
}
