use neuronika::lr_scheduler::{
    prepare_step, ExponentialLR, LRScheduler, LambdaLR, MultiStepLR, MultiplicativeLR, StepLR,
};
use neuronika::scalar::Scalar;

#[derive(Clone, Copy, Debug, PartialEq)]
struct Real(f32);

impl Scalar for Real {
    fn zero() -> Self {
        Real(0.0)
    }

    fn plus(self, rhs: Self) -> Self {
        Real(self.0 + rhs.0)
    }

    fn times(self, rhs: Self) -> Self {
        Real(self.0 * rhs.0)
    }

    fn over(self, rhs: Self) -> Self {
        Real(self.0 / rhs.0)
    }

    fn negated(self) -> Self {
        Real(-self.0)
    }

    fn powi(self, n: i32) -> Self {
        Real(self.0.powi(n))
    }
}

fn close(found: Real, expected: f32) -> bool {
    (found.0 - expected).abs() <= 1e-6 * expected.abs().max(1.0)
}

#[test]
fn prepare_step_snapshots_the_rate_and_counts_the_epoch() {
    let mut last = Real(0.0);
    let mut epoch = 4usize;
    prepare_step(&mut last, &Real(0.5), &mut epoch);
    assert_eq!(last, Real(0.5));
    assert_eq!(epoch, 5);
}

#[test]
fn a_new_scheduler_has_counted_no_epoch() {
    let scheduler = ExponentialLR::new(Real(0.01), Real(0.9));
    assert_eq!(scheduler.get_current_epoch(), 0);
    assert_eq!(scheduler.get_current_lr(), Real(0.01));
    assert_eq!(scheduler.get_last_lr(), Real(0.0));
}

#[test]
fn exponential_decays_at_every_epoch() {
    let mut rate = Real(1.0);
    let mut scheduler = ExponentialLR::new(rate, Real(0.5));
    scheduler.step(&mut rate);
    assert_eq!(rate, Real(0.5));
    assert_eq!(scheduler.get_last_lr(), Real(1.0));
    assert_eq!(scheduler.get_current_lr(), Real(0.5));
    assert_eq!(scheduler.get_current_epoch(), 1);
    scheduler.step(&mut rate);
    assert_eq!(rate, Real(0.25));
    assert_eq!(scheduler.get_last_lr(), Real(0.5));
    assert_eq!(scheduler.get_current_epoch(), 2);
}

#[test]
fn step_decays_once_every_step_size_epochs() {
    let mut rate = Real(1.0);
    let mut scheduler = StepLR::new(rate, 3, Real(0.5)).unwrap();
    let mut seen = Vec::new();
    for _ in 0..7 {
        scheduler.step(&mut rate);
        seen.push(rate.0);
    }
    assert_eq!(seen, vec![1.0, 1.0, 0.5, 0.5, 0.5, 0.25, 0.25]);
    assert_eq!(scheduler.get_current_epoch(), 7);
    assert!(StepLR::new(Real(1.0), 0, Real(0.5)).is_none());
}

#[test]
fn multi_step_decays_at_its_milestones() {
    let mut rate = Real(1.0);
    let mut scheduler = MultiStepLR::new(rate, vec![2, 5], Real(0.5));
    assert!(scheduler.is_milestone(5));
    assert!(!scheduler.is_milestone(3));
    let mut seen = Vec::new();
    for _ in 0..6 {
        scheduler.step(&mut rate);
        seen.push(rate.0);
    }
    assert_eq!(seen, vec![1.0, 0.5, 0.5, 0.5, 0.25, 0.25]);
}

#[test]
fn lambda_multiplies_the_initial_rate() {
    let mut rate = Real(2.0);
    let mut scheduler = LambdaLR::new(rate, |epoch: usize| Real(epoch as f32));
    scheduler.step(&mut rate);
    assert_eq!(rate, Real(2.0));
    scheduler.step(&mut rate);
    assert_eq!(rate, Real(4.0));
    scheduler.step(&mut rate);
    assert_eq!(rate, Real(6.0));
    assert_eq!(scheduler.get_last_lr(), Real(4.0));
    assert_eq!(scheduler.get_current_lr(), Real(6.0));
}

#[test]
fn multiplicative_multiplies_the_rate_that_it_finds() {
    let mut rate = Real(1.0);
    let mut scheduler = MultiplicativeLR::new(rate, |epoch: usize| Real(epoch as f32));
    scheduler.step(&mut rate);
    assert_eq!(rate, Real(1.0));
    scheduler.step(&mut rate);
    assert_eq!(rate, Real(2.0));
    scheduler.step(&mut rate);
    assert_eq!(rate, Real(6.0));
}

#[test]
fn set_current_epoch_moves_the_counter_only() {
    let mut rate = Real(1.0);
    let mut scheduler = StepLR::new(rate, 10, Real(0.5)).unwrap();
    scheduler.step(&mut rate);
    scheduler.set_current_epoch(9);
    assert_eq!(scheduler.get_current_epoch(), 9);
    assert_eq!(scheduler.get_current_lr(), Real(1.0));
    assert_eq!(scheduler.get_last_lr(), Real(1.0));
    scheduler.step(&mut rate);
    assert_eq!(scheduler.get_current_epoch(), 10);
    assert_eq!(rate, Real(0.5));
}

#[test]
fn chained_schedulers_apply_in_the_order_of_the_calls() {
    let mut rate = Real(1.0);
    let mut a = MultiplicativeLR::new(rate, |_: usize| Real(2.0));
    let mut b = MultiplicativeLR::new(rate, |_: usize| Real(0.1));
    let mut trajectory = Vec::new();
    for _ in 0..2 {
        a.step(&mut rate);
        trajectory.push(rate);
        b.step(&mut rate);
        trajectory.push(rate);
    }
    assert!(close(trajectory[0], 2.0));
    assert!(close(trajectory[1], 0.2));
    assert!(close(trajectory[2], 0.4));
    assert!(close(trajectory[3], 0.04));
    assert!(close(b.get_last_lr(), 0.4));
    assert!(close(b.get_current_lr(), 0.04));
    assert_eq!(a.get_current_epoch(), 2);
    assert_eq!(b.get_current_epoch(), 2);
}

#[test]
fn reversing_the_order_of_the_steps_changes_the_trajectory() {
    let mut rate = Real(1.0);
    let mut a = ExponentialLR::new(rate, Real(2.0));
    let mut b = ExponentialLR::new(rate, Real(0.1));
    let mut forward = Vec::new();
    for _ in 0..2 {
        a.step(&mut rate);
        forward.push(rate);
        b.step(&mut rate);
        forward.push(rate);
    }

    let mut rate = Real(1.0);
    let mut a = ExponentialLR::new(rate, Real(2.0));
    let mut b = ExponentialLR::new(rate, Real(0.1));
    let mut reverse = Vec::new();
    for _ in 0..2 {
        b.step(&mut rate);
        reverse.push(rate);
        a.step(&mut rate);
        reverse.push(rate);
    }

    assert!(close(forward[0], 2.0) && close(forward[1], 0.2));
    assert!(close(forward[2], 0.4) && close(forward[3], 0.04));
    assert!(close(reverse[0], 0.1) && close(reverse[1], 0.2));
    assert!(close(reverse[2], 0.02) && close(reverse[3], 0.04));
    assert_ne!(forward, reverse);
}
