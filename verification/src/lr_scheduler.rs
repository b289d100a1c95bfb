//! Learning-rate schedulers: once per epoch each one reads the rate that it
//! finds in the optimizer, computes the next one, and writes it back.
//! Schedulers that are stepped one after the other on the same rate compose
//! in the order of the calls: none of them knows of the others.

use crate::scalar::{is_product, is_zero, Scalar};
use vstd::prelude::*;

verus! {

/// A learning-rate scheduler over rates of type `T`.
pub trait LRScheduler<T: Scalar> {
    /// The rate that the last step found.
    spec fn last_lr(&self) -> T;

    /// The rate that the last step left.
    spec fn current_lr(&self) -> T;

    /// The number of the epoch that the last step closed.
    spec fn current_epoch(&self) -> usize;

    /// The parameters of the scheduler are sound.
    spec fn wf(&self) -> bool;

    /// `next` is a rate that the scheduler may set at the end of `epoch` when
    /// it finds the rate `found`. The rule depends on the parameters of the
    /// scheduler, not on its counters.
    spec fn rule(&self, epoch: usize, found: T, next: T) -> bool;

    /// Closes an epoch: the rate found in `rate` becomes the last rate, the
    /// epoch counter grows by one, and the rate that the rule gives for the
    /// new epoch is written to `rate`.
    fn step(&mut self, rate: &mut T)
        requires
            old(self).wf(),
            old(self).current_epoch() < usize::MAX,
        ensures
            final(self).wf(),
            final(self).last_lr() == *old(rate),
            final(self).current_epoch() == old(self).current_epoch() + 1,
            old(self).rule(final(self).current_epoch(), *old(rate), final(self).current_lr()),
            *final(rate) == final(self).current_lr(),
            forall|epoch: usize, found: T, next: T|
                #[trigger] final(self).rule(epoch, found, next) == old(self).rule(
                    epoch,
                    found,
                    next,
                ),
    ;

    /// The rate that the last step found.
    fn get_last_lr(&self) -> (lr: T)
        ensures
            lr == self.last_lr(),
    ;

    /// The rate that the last step left.
    fn get_current_lr(&self) -> (lr: T)
        ensures
            lr == self.current_lr(),
    ;

    /// The number of the epoch that the last step closed.
    fn get_current_epoch(&self) -> (epoch: usize)
        ensures
            epoch == self.current_epoch(),
    ;

    /// Sets the epoch counter; the rates stay.
    fn set_current_epoch(&mut self, epoch: usize)
        ensures
            final(self).current_epoch() == epoch,
            final(self).last_lr() == old(self).last_lr(),
            final(self).current_lr() == old(self).current_lr(),
            final(self).wf() == old(self).wf(),
            forall|e: usize, found: T, next: T|
                final(self).rule(e, found, next) == old(self).rule(e, found, next),
    ;
}

/// What `step` ensures: `after` is what a step makes of the scheduler
/// `before` that finds the rate `found`, and `left` is the rate that the step
/// leaves. The rate found is the last rate, the epoch counter has grown by
/// one, the rate that the rule gives for the new epoch is the current rate
/// and the rate left, and the rule is what it was.
pub open spec fn stepped<T: Scalar, S: LRScheduler<T>>(
    before: S,
    after: S,
    found: T,
    left: T,
) -> bool {
    &&& after.wf()
    &&& after.last_lr() == found
    &&& after.current_epoch() == before.current_epoch() + 1
    &&& before.rule(after.current_epoch(), found, after.current_lr())
    &&& left == after.current_lr()
    &&& forall|epoch: usize, f: T, n: T|
        #[trigger] after.rule(epoch, f, n) == before.rule(epoch, f, n)
}

/// Schedulers that are stepped one after the other on the same rate apply in
/// the order of the calls: the second finds the rate that the first left,
/// and leaves a rate that its own rule gives for that rate.
pub proof fn lemma_chained_steps<T: Scalar, A: LRScheduler<T>, B: LRScheduler<T>>(
    first: A,
    first_after: A,
    second: B,
    second_after: B,
    found: T,
    between: T,
    left: T,
)
    requires
        stepped(first, first_after, found, between),
        stepped(second, second_after, between, left),
    ensures
        first.rule(first_after.current_epoch(), found, between),
        second_after.last_lr() == first_after.current_lr(),
        second.rule(second_after.current_epoch(), between, left),
{
}

/// Opens a step: the current rate becomes the last rate and the epoch
/// counter grows by one.
pub fn prepare_step<T: Copy>(last_lr: &mut T, current_lr: &T, current_epoch: &mut usize)
    requires
        *old(current_epoch) < usize::MAX,
    ensures
        *final(last_lr) == *current_lr,
        *final(current_epoch) == *old(current_epoch) + 1,
{
    *last_lr = *current_lr;
    let last_epoch: usize = *current_epoch;
    *current_epoch = last_epoch + 1;
}

/// Decays the rate by the factor `gamma` at every epoch.
pub struct ExponentialLR<T> {
    gamma: T,
    last_lr: T,
    current_lr: T,
    current_epoch: usize,
}

impl<T: Scalar> ExponentialLR<T> {
    /// The factor of the decay.
    pub closed spec fn gamma(&self) -> T {
        self.gamma
    }

    /// A scheduler for an optimizer whose rate is `rate`, before the first
    /// epoch.
    pub fn new(rate: T, gamma: T) -> (out: Self)
        ensures
            out.gamma() == gamma,
            out.current_lr() == rate,
            is_zero(out.last_lr()),
            out.current_epoch() == 0,
            out.wf(),
    {
        ExponentialLR { gamma, last_lr: T::zero(), current_lr: rate, current_epoch: 0 }
    }
}

impl<T: Scalar> LRScheduler<T> for ExponentialLR<T> {
    closed spec fn last_lr(&self) -> T {
        self.last_lr
    }

    closed spec fn current_lr(&self) -> T {
        self.current_lr
    }

    closed spec fn current_epoch(&self) -> usize {
        self.current_epoch
    }

    open spec fn wf(&self) -> bool {
        true
    }

    open spec fn rule(&self, epoch: usize, found: T, next: T) -> bool {
        is_product(found, self.gamma(), next)
    }

    fn step(&mut self, rate: &mut T) {
        prepare_step(&mut self.last_lr, rate, &mut self.current_epoch);
        self.current_lr = self.last_lr.times(self.gamma);
        *rate = self.current_lr;
    }

    fn get_last_lr(&self) -> (lr: T) {
        self.last_lr
    }

    fn get_current_lr(&self) -> (lr: T) {
        self.current_lr
    }

    fn get_current_epoch(&self) -> (epoch: usize) {
        self.current_epoch
    }

    fn set_current_epoch(&mut self, epoch: usize) {
        self.current_epoch = epoch;
    }
}

/// Decays the rate by the factor `gamma` once every `step_size` epochs.
pub struct StepLR<T> {
    step_size: usize,
    gamma: T,
    last_lr: T,
    current_lr: T,
    current_epoch: usize,
}

impl<T: Scalar> StepLR<T> {
    /// The number of epochs between two decays.
    pub closed spec fn step_size(&self) -> usize {
        self.step_size
    }

    /// The factor of the decay.
    pub closed spec fn gamma(&self) -> T {
        self.gamma
    }

    /// A scheduler for an optimizer whose rate is `rate`, before the first
    /// epoch; `None` when `step_size` is zero.
    pub fn new(rate: T, step_size: usize, gamma: T) -> (out: Option<Self>)
        ensures
            out.is_some() <==> step_size > 0,
            out matches Some(s) ==> {
                &&& s.wf()
                &&& s.step_size() == step_size
                &&& s.gamma() == gamma
                &&& s.current_lr() == rate
                &&& is_zero(s.last_lr())
                &&& s.current_epoch() == 0
            },
    {
        if step_size == 0 {
            None
        } else {
            Some(StepLR { step_size, gamma, last_lr: T::zero(), current_lr: rate, current_epoch: 0 })
        }
    }
}

impl<T: Scalar> LRScheduler<T> for StepLR<T> {
    closed spec fn last_lr(&self) -> T {
        self.last_lr
    }

    closed spec fn current_lr(&self) -> T {
        self.current_lr
    }

    closed spec fn current_epoch(&self) -> usize {
        self.current_epoch
    }

    open spec fn wf(&self) -> bool {
        self.step_size() > 0
    }

    open spec fn rule(&self, epoch: usize, found: T, next: T) -> bool {
        if epoch as int % self.step_size() as int == 0 {
            is_product(found, self.gamma(), next)
        } else {
            next == found
        }
    }

    fn step(&mut self, rate: &mut T) {
        prepare_step(&mut self.last_lr, rate, &mut self.current_epoch);
        if self.current_epoch % self.step_size == 0 {
            self.current_lr = self.last_lr.times(self.gamma);
        } else {
            self.current_lr = self.last_lr;
        }
        *rate = self.current_lr;
    }

    fn get_last_lr(&self) -> (lr: T) {
        self.last_lr
    }

    fn get_current_lr(&self) -> (lr: T) {
        self.current_lr
    }

    fn get_current_epoch(&self) -> (epoch: usize) {
        self.current_epoch
    }

    fn set_current_epoch(&mut self, epoch: usize) {
        self.current_epoch = epoch;
    }
}

/// Decays the rate by the factor `gamma` at the end of each of a set of
/// milestone epochs.
pub struct MultiStepLR<T> {
    milestones: Vec<usize>,
    gamma: T,
    last_lr: T,
    current_lr: T,
    current_epoch: usize,
}

impl<T: Scalar> MultiStepLR<T> {
    /// The epochs at whose end the rate decays.
    pub closed spec fn milestones(&self) -> Seq<usize> {
        self.milestones@
    }

    /// The factor of the decay.
    pub closed spec fn gamma(&self) -> T {
        self.gamma
    }

    /// A scheduler for an optimizer whose rate is `rate`, before the first
    /// epoch.
    pub fn new(rate: T, milestones: Vec<usize>, gamma: T) -> (out: Self)
        ensures
            out.wf(),
            out.milestones() == milestones@,
            out.gamma() == gamma,
            out.current_lr() == rate,
            is_zero(out.last_lr()),
            out.current_epoch() == 0,
    {
        MultiStepLR { milestones, gamma, last_lr: T::zero(), current_lr: rate, current_epoch: 0 }
    }

    /// Whether `epoch` is a milestone.
    pub fn is_milestone(&self, epoch: usize) -> (found: bool)
        ensures
            found == self.milestones().contains(epoch),
    {
        let mut k: usize = 0;
        while k < self.milestones.len()
            invariant
                k <= self.milestones.len(),
                forall|j: int| 0 <= j < k ==> self.milestones[j] != epoch,
            decreases self.milestones.len() - k,
        {
            if self.milestones[k] == epoch {
                return true;
            }
            k += 1;
        }
        false
    }
}

impl<T: Scalar> LRScheduler<T> for MultiStepLR<T> {
    closed spec fn last_lr(&self) -> T {
        self.last_lr
    }

    closed spec fn current_lr(&self) -> T {
        self.current_lr
    }

    closed spec fn current_epoch(&self) -> usize {
        self.current_epoch
    }

    open spec fn wf(&self) -> bool {
        true
    }

    open spec fn rule(&self, epoch: usize, found: T, next: T) -> bool {
        if self.milestones().contains(epoch) {
            is_product(found, self.gamma(), next)
        } else {
            next == found
        }
    }

    fn step(&mut self, rate: &mut T) {
        prepare_step(&mut self.last_lr, rate, &mut self.current_epoch);
        if self.is_milestone(self.current_epoch) {
            self.current_lr = self.last_lr.times(self.gamma);
        } else {
            self.current_lr = self.last_lr;
        }
        *rate = self.current_lr;
    }

    fn get_last_lr(&self) -> (lr: T) {
        self.last_lr
    }

    fn get_current_lr(&self) -> (lr: T) {
        self.current_lr
    }

    fn get_current_epoch(&self) -> (epoch: usize) {
        self.current_epoch
    }

    fn set_current_epoch(&mut self, epoch: usize) {
        self.current_epoch = epoch;
    }
}

/// Sets the rate to the initial rate times a factor that a function gives
/// for the epoch.
pub struct LambdaLR<T, F> {
    lr_fn: F,
    initial_lr: T,
    last_lr: T,
    current_lr: T,
    current_epoch: usize,
}

impl<T: Scalar, F: Fn(usize) -> T> LambdaLR<T, F> {
    /// The function that gives the factor of an epoch.
    pub closed spec fn lr_fn(&self) -> F {
        self.lr_fn
    }

    /// The rate that the factors multiply.
    pub closed spec fn initial_lr(&self) -> T {
        self.initial_lr
    }

    /// A scheduler for an optimizer whose rate is `rate`, before the first
    /// epoch. `lr_fn` must accept every epoch.
    pub fn new(rate: T, lr_fn: F) -> (out: Self)
        requires
            forall|epoch: usize| #[trigger] lr_fn.requires((epoch,)),
        ensures
            out.wf(),
            out.lr_fn() == lr_fn,
            out.initial_lr() == rate,
            out.current_lr() == rate,
            is_zero(out.last_lr()),
            out.current_epoch() == 0,
    {
        LambdaLR { lr_fn, initial_lr: rate, last_lr: T::zero(), current_lr: rate, current_epoch: 0 }
    }
}

impl<T: Scalar, F: Fn(usize) -> T> LRScheduler<T> for LambdaLR<T, F> {
    closed spec fn last_lr(&self) -> T {
        self.last_lr
    }

    closed spec fn current_lr(&self) -> T {
        self.current_lr
    }

    closed spec fn current_epoch(&self) -> usize {
        self.current_epoch
    }

    open spec fn wf(&self) -> bool {
        forall|epoch: usize| #[trigger] self.lr_fn().requires((epoch,))
    }

    open spec fn rule(&self, epoch: usize, found: T, next: T) -> bool {
        exists|factor: T| #[trigger]
            self.lr_fn().ensures((epoch,), factor) && is_product(self.initial_lr(), factor, next)
    }

    fn step(&mut self, rate: &mut T) {
        prepare_step(&mut self.last_lr, rate, &mut self.current_epoch);
        assert(self.lr_fn() == old(self).lr_fn());
        assert(self.lr_fn().requires((self.current_epoch,)));
        let factor = (self.lr_fn)(self.current_epoch);
        self.current_lr = self.initial_lr.times(factor);
        *rate = self.current_lr;
        assert(self.lr_fn().ensures((self.current_epoch,), factor));
    }

    fn get_last_lr(&self) -> (lr: T) {
        self.last_lr
    }

    fn get_current_lr(&self) -> (lr: T) {
        self.current_lr
    }

    fn get_current_epoch(&self) -> (epoch: usize) {
        self.current_epoch
    }

    fn set_current_epoch(&mut self, epoch: usize) {
        self.current_epoch = epoch;
        assert(self.lr_fn() == old(self).lr_fn());
    }
}

/// Multiplies the rate that it finds by a factor that a function gives for
/// the epoch.
pub struct MultiplicativeLR<T, F> {
    lr_fn: F,
    last_lr: T,
    current_lr: T,
    current_epoch: usize,
}

impl<T: Scalar, F: Fn(usize) -> T> MultiplicativeLR<T, F> {
    /// The function that gives the factor of an epoch.
    pub closed spec fn lr_fn(&self) -> F {
        self.lr_fn
    }

    /// A scheduler for an optimizer whose rate is `rate`, before the first
    /// epoch. `lr_fn` must accept every epoch.
    pub fn new(rate: T, lr_fn: F) -> (out: Self)
        requires
            forall|epoch: usize| #[trigger] lr_fn.requires((epoch,)),
        ensures
            out.wf(),
            out.lr_fn() == lr_fn,
            out.current_lr() == rate,
            is_zero(out.last_lr()),
            out.current_epoch() == 0,
    {
        MultiplicativeLR { lr_fn, last_lr: T::zero(), current_lr: rate, current_epoch: 0 }
    }
}

impl<T: Scalar, F: Fn(usize) -> T> LRScheduler<T> for MultiplicativeLR<T, F> {
    closed spec fn last_lr(&self) -> T {
        self.last_lr
    }

    closed spec fn current_lr(&self) -> T {
        self.current_lr
    }

    closed spec fn current_epoch(&self) -> usize {
        self.current_epoch
    }

    open spec fn wf(&self) -> bool {
        forall|epoch: usize| #[trigger] self.lr_fn().requires((epoch,))
    }

    open spec fn rule(&self, epoch: usize, found: T, next: T) -> bool {
        exists|factor: T| #[trigger]
            self.lr_fn().ensures((epoch,), factor) && is_product(found, factor, next)
    }

    fn step(&mut self, rate: &mut T) {
        prepare_step(&mut self.last_lr, rate, &mut self.current_epoch);
        assert(self.lr_fn() == old(self).lr_fn());
        assert(self.lr_fn().requires((self.current_epoch,)));
        let factor = (self.lr_fn)(self.current_epoch);
        self.current_lr = self.last_lr.times(factor);
        *rate = self.current_lr;
        assert(self.lr_fn().ensures((self.current_epoch,), factor));
    }

    fn get_last_lr(&self) -> (lr: T) {
        self.last_lr
    }

    fn get_current_lr(&self) -> (lr: T) {
        self.current_lr
    }

    fn get_current_epoch(&self) -> (epoch: usize) {
        self.current_epoch
    }

    fn set_current_epoch(&mut self, epoch: usize) {
        self.current_epoch = epoch;
        assert(self.lr_fn() == old(self).lr_fn());
    }
}

} // verus!
