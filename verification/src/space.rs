use vstd::prelude::*;

verus! {

/// A place in the world, by its two coordinates.
#[derive(Clone, Copy, Debug)]
pub struct Point<T> {
    pub x: T,
    pub y: T,
}

/// The geometry of the world. Nothing is promised of what a method returns:
/// the library's functions hold for every outcome.
///
/// A rotation is an angle, counted from the direction in which `y` grows.
pub trait Space<T> {
    /// How far `a` and `b` are apart.
    fn distance(&self, a: Point<T>, b: Point<T>) -> T;

    /// Where `target` lies for one who stands at `position` and is turned by
    /// `rotation`: how far off, and at what angle from straight ahead, the
    /// angle brought between minus a half turn and a half turn.
    fn bearing(&self, position: Point<T>, rotation: T, target: Point<T>) -> (T, T);

    /// Where one gets to from `position` by going `speed` far in the
    /// direction of `rotation`, in a world that wraps round at its edges.
    fn advance(&self, position: Point<T>, rotation: T, speed: T) -> Point<T>;

    /// The rotation that `rotation` becomes when turned by `delta`.
    fn turn(&self, rotation: T, delta: T) -> T;
}

/// `moved` is where `space` takes one from `position` who goes `speed` far
/// in the direction of `rotation`.
pub open spec fn advances<T, S: Space<T>>(
    space: &S,
    position: Point<T>,
    rotation: T,
    speed: T,
    moved: Point<T>,
) -> bool {
    call_ensures(S::advance, (space, position, rotation, speed), moved)
}

/// `norm` and `angle` are how far off and at what angle `space` finds
/// `target` for one who stands at `position` and is turned by `rotation`.
pub open spec fn bears<T, S: Space<T>>(
    space: &S,
    position: Point<T>,
    rotation: T,
    target: Point<T>,
    norm: T,
    angle: T,
) -> bool {
    call_ensures(S::bearing, (space, position, rotation, target), (norm, angle))
}

/// `distance` is how far `space` finds `a` and `b` apart.
pub open spec fn measures<T, S: Space<T>>(space: &S, a: Point<T>, b: Point<T>, distance: T) -> bool {
    call_ensures(S::distance, (space, a, b), distance)
}

/// `turned` is what `space` makes of `rotation` turned by `delta`.
pub open spec fn turns<T, S: Space<T>>(space: &S, rotation: T, delta: T, turned: T) -> bool {
    call_ensures(S::turn, (space, rotation, delta), turned)
}

} // verus!
