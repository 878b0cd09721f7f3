use vstd::prelude::*;
use vstd::std_specs::ops::AddSpec;
use vstd::std_specs::ops::NegSpec;
use core::ops::Add;
use core::ops::Neg;
use crate::scalar::adds_freely;
use crate::scalar::compares_exactly;
use crate::scalar::exceeds;
use crate::scalar::negates_freely;
use crate::scalar::negative_of;
use crate::scalar::precedes;
use crate::scalar::sum_of;

verus! {

/// The bounds within which an animal moves: its speed stays between
/// `min_speed` and `max_speed`, and within one tick its speed changes by no
/// more than `speed_accel` and its rotation by no more than `rotation_accel`.
#[derive(Clone, Copy, Debug)]
pub struct Limits<T> {
    pub min_speed: T,
    pub max_speed: T,
    pub speed_accel: T,
    pub rotation_accel: T,
}

/// What a brain's answer comes to for an animal: its new speed, and the
/// angle by which it turns.
#[derive(Clone, Copy, Debug)]
pub struct Steering<T> {
    pub speed: T,
    pub delta_rotation: T,
}

/// `value`, held between `low` and `high`: `low` where `value` precedes it,
/// `high` where `value` exceeds it, and `value` itself elsewhere.
pub open spec fn clamped<T: PartialOrd>(value: T, low: T, high: T) -> T {
    if precedes(value, low) {
        low
    } else if exceeds(value, high) {
        high
    } else {
        value
    }
}

/// The steering that a brain's answer `adjustment`, a change of speed and
/// then a change of rotation, comes to for an animal of the given speed.
pub open spec fn steering_of<T: PartialOrd + Add<Output = T> + Neg<Output = T>>(
    speed: T,
    adjustment: Seq<T>,
    limits: Limits<T>,
) -> Steering<T> {
    let delta_speed = clamped(adjustment[0], negative_of(limits.speed_accel), limits.speed_accel);
    Steering {
        speed: clamped(sum_of(speed, delta_speed), limits.min_speed, limits.max_speed),
        delta_rotation: clamped(
            adjustment[1],
            negative_of(limits.rotation_accel),
            limits.rotation_accel,
        ),
    }
}

/// `value`, held between `low` and `high`.
pub fn clamp<T: Copy + PartialOrd>(value: T, low: T, high: T) -> (held: T)
    ensures
        compares_exactly::<T>() ==> held == clamped(value, low, high),
        held == value || held == low || held == high,
{
    if value < low {
        low
    } else if value > high {
        high
    } else {
        value
    }
}

/// Turns a brain's answer into steering: the change of speed and the change
/// of rotation are each held within the acceleration allowed, and the new
/// speed within the speeds allowed.
pub fn steer<T: Copy + PartialOrd + Add<Output = T> + Neg<Output = T>>(
    speed: T,
    adjustment: &[T],
    limits: &Limits<T>,
) -> (steering: Steering<T>)
    requires
        adjustment@.len() == 2,
        adds_freely::<T>(),
        negates_freely::<T>(),
    ensures
        compares_exactly::<T>() && T::obeys_add_spec() && T::obeys_neg_spec() ==> steering
            == steering_of(speed, adjustment@, *limits),
{
    let delta_speed = clamp(adjustment[0], limits.speed_accel.neg(), limits.speed_accel);
    let delta_rotation = clamp(adjustment[1], limits.rotation_accel.neg(), limits.rotation_accel);
    let speed = clamp(speed + delta_speed, limits.min_speed, limits.max_speed);
    Steering { speed, delta_rotation }
}

} // verus!
