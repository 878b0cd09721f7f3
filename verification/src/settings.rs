use vstd::prelude::*;
use crate::eye::Eye;
use crate::mutation::GaussianMutation;
use crate::scalar::at_least;
use crate::scalar::at_most;
use crate::scalar::exceeds;
use crate::scalar::Scalar;
use crate::scalar::small;
use crate::scalar::zero;
use crate::steering::Limits;

verus! {

/// How many ticks a generation lasts.
pub const GENERATION_LENGTH: usize = 2500;

/// What a simulation is made with: how many animals and foods the world
/// holds, what the animals' eyes are like and how they may move, how near a
/// food must be to be eaten, and how the brains mutate from one generation to
/// the next.
#[derive(Clone, Copy, Debug)]
pub struct Settings<T> {
    pub animals: usize,
    pub foods: usize,
    pub fov_range: T,
    pub fov_angle: T,
    pub cells: usize,
    pub limits: Limits<T>,
    pub eating_distance: T,
    pub mutation_chance: T,
    pub mutation_coeff: T,
}

impl<T: Scalar> Settings<T> {
    /// There is an animal at least, and no more foods than an animal can
    /// count in a `usize` when it eats every food at every tick of one
    /// generation; an
    /// eye has a cell at least, and sees some way over some angle; the
    /// chance of a mutation lies between zero and one, and its coefficient
    /// is not below zero.
    pub open spec fn valid(&self) -> bool {
        &&& self.animals > 0
        &&& (GENERATION_LENGTH + 1) * self.foods <= usize::MAX
        &&& 0 < self.cells <= usize::MAX / 2
        &&& exceeds(self.fov_range, zero::<T>())
        &&& exceeds(self.fov_angle, zero::<T>())
        &&& at_least(self.mutation_chance, zero::<T>())
        &&& at_most(self.mutation_chance, small::<T>(1))
        &&& at_least(self.mutation_coeff, zero::<T>())
    }

    /// An eye as the settings describe it.
    pub fn eye(&self) -> (eye: Eye<T>)
        requires
            self.valid(),
        ensures
            eye.fov_range() == self.fov_range,
            eye.fov_angle() == self.fov_angle,
            eye.cells() == self.cells,
    {
        Eye::new(self.fov_range, self.fov_angle, self.cells)
    }

    /// The mutation that the settings describe.
    pub fn mutation(&self) -> (mutation: GaussianMutation<T>)
        ensures
            mutation.chance() == self.mutation_chance,
            mutation.coeff() == self.mutation_coeff,
    {
        GaussianMutation::new(self.mutation_chance, self.mutation_coeff)
    }
}

} // verus!
