use vstd::prelude::*;
use vstd::std_specs::ops::AddSpec;
use core::ops::Add;
use crate::food::Food;
use crate::scalar::adds_freely;
use crate::scalar::at_least;
use crate::scalar::computes_exactly;
use crate::scalar::computes_freely;
use crate::scalar::counts;
use crate::scalar::difference_of;
use crate::scalar::exceeds;
use crate::scalar::floors;
use crate::scalar::Measure;
use crate::scalar::negative_of;
use crate::scalar::precedes;
use crate::scalar::product_of;
use crate::scalar::quotient_of;
use crate::scalar::Scalar;
use crate::scalar::small;
use crate::scalar::small_value;
use crate::scalar::sum_of;
use crate::scalar::zero;
use crate::scalar::zero_is_fixed;
use crate::scalar::zero_value;
use crate::space::bears;
use crate::space::Point;
use crate::space::Space;

verus! {

/// One food in view: the cell that its bearing falls in, counted from the
/// left edge of the field of view, and the energy with which it is seen.
#[derive(Clone, Copy, Debug)]
pub struct Sighting<T> {
    pub cell: usize,
    pub energy: T,
}

/// What the space and the measure answer for one food: how far off it is,
/// at what angle from straight ahead, and, for a food in view, the cell that
/// this angle falls in.
pub struct Bearing<T> {
    pub norm: T,
    pub angle: T,
    pub cell: usize,
}

/// The cell of an eye of `cells` cells that a bearing counted as `cell`
/// lights: itself, or the last cell where it lies beyond.
pub open spec fn lit_cell(cell: usize, cells: usize) -> int {
    if cell < cells {
        cell as int
    } else {
        cells - 1
    }
}

/// What an eye of `cells` cells sees of `sightings`: every cell starts at
/// zero, and each sighting in turn adds its energy to the cell it lights.
pub open spec fn vision_of<T: Add<Output = T> + Default>(
    cells: usize,
    sightings: Seq<Sighting<T>>,
) -> Seq<T>
    decreases sightings.len(),
{
    if sightings.len() == 0 {
        Seq::new(cells as nat, |k: int| zero::<T>())
    } else {
        let before = vision_of(cells, sightings.drop_last());
        let cell = lit_cell(sightings.last().cell, cells);
        before.update(cell, sum_of(before[cell], sightings.last().energy))
    }
}

/// `vision` is zero in every cell that none of `sightings`, which are no
/// more than `most`, lights.
pub open spec fn keeps_unlit_zero<T: Default>(
    vision: Seq<T>,
    cells: usize,
    sightings: Seq<Sighting<T>>,
    most: nat,
) -> bool {
    &&& sightings.len() <= most
    &&& zero_is_fixed::<T>() ==> forall|k: int|
        0 <= k < cells && unlit(cells, sightings, k) ==> vision[k] == zero::<T>()
}

/// No sighting among `sightings` lights cell `k`.
pub open spec fn unlit<T>(cells: usize, sightings: Seq<Sighting<T>>, k: int) -> bool {
    forall|j: int| 0 <= j < sightings.len() ==> lit_cell((#[trigger] sightings[j]).cell, cells) != k
}

/// What an eye sees has one value for each cell, and a cell that no
/// sighting lights stays at zero.
pub proof fn lemma_vision_of<T: Add<Output = T> + Default>(
    cells: usize,
    sightings: Seq<Sighting<T>>,
)
    requires
        cells > 0,
    ensures
        vision_of(cells, sightings).len() == cells,
        forall|k: int|
            0 <= k < cells && unlit(cells, sightings, k) ==> vision_of(cells, sightings)[k]
                == zero::<T>(),
    decreases sightings.len(),
{
    if sightings.len() > 0 {
        let earlier = sightings.drop_last();
        let last = sightings.last();
        lemma_vision_of(cells, earlier);
        assert forall|k: int| 0 <= k < cells && unlit(cells, sightings, k) implies vision_of(
            cells,
            sightings,
        )[k] == zero::<T>() by {
            assert(sightings[sightings.len() - 1] == last);
            assert(lit_cell(last.cell, cells) != k);
            assert forall|j: int| 0 <= j < earlier.len() implies lit_cell(
                (#[trigger] earlier[j]).cell,
                cells,
            ) != k by {
                assert(earlier[j] == sightings[j]);
            }
            assert(unlit(cells, earlier, k));
        }
    }
}

/// An animal's eye: it sees as far as `fov_range`, over an angle of
/// `fov_angle`, and tells what it sees cell by cell.
#[derive(Debug)]
pub struct Eye<T> {
    fov_range: T,
    fov_angle: T,
    cells: usize,
}

impl<T> Eye<T> {
    #[verifier::type_invariant]
    spec fn well_formed(&self) -> bool {
        self.cells > 0
    }
}

impl<T: Copy> Eye<T> {
    pub closed spec fn spec_fov_range(&self) -> T {
        self.fov_range
    }

    pub closed spec fn spec_fov_angle(&self) -> T {
        self.fov_angle
    }

    pub closed spec fn spec_cells(&self) -> usize {
        self.cells
    }

    /// How far the eye sees.
    #[verifier::when_used_as_spec(spec_fov_range)]
    pub fn fov_range(&self) -> (fov_range: T)
        ensures
            fov_range == self.spec_fov_range(),
    {
        self.fov_range
    }

    /// The angle that the eye sees over.
    #[verifier::when_used_as_spec(spec_fov_angle)]
    pub fn fov_angle(&self) -> (fov_angle: T)
        ensures
            fov_angle == self.spec_fov_angle(),
    {
        self.fov_angle
    }

    /// How many cells the eye has: at least one.
    #[verifier::when_used_as_spec(spec_cells)]
    pub fn cells(&self) -> (cells: usize)
        ensures
            cells == self.spec_cells(),
            cells > 0,
    {
        proof {
            use_type_invariant(self);
        }
        self.cells
    }
}

impl<T: Copy + PartialOrd + Default> Eye<T> {
    pub fn new(fov_range: T, fov_angle: T, cells: usize) -> (eye: Self)
        requires
            exceeds(fov_range, zero::<T>()),
            exceeds(fov_angle, zero::<T>()),
            cells > 0,
        ensures
            eye.fov_range() == fov_range,
            eye.fov_angle() == fov_angle,
            eye.cells() == cells,
    {
        Self { fov_range, fov_angle, cells }
    }
}

impl<T: Copy + Add<Output = T> + Default> Eye<T> {
    /// What the eye makes of the foods in view, given in the order of the
    /// foods: each adds its energy to the cell it lights. The values add up:
    /// nothing is scaled or capped.
    pub fn rasterize(&self, sightings: &[Sighting<T>]) -> (vision: Vec<T>)
        requires
            adds_freely::<T>(),
        ensures
            vision@.len() == self.cells(),
            zero_is_fixed::<T>() && T::obeys_add_spec() ==> vision@ == vision_of(
                self.cells(),
                sightings@,
            ),
            zero_is_fixed::<T>() ==> forall|k: int|
                0 <= k < self.cells() && unlit(self.cells(), sightings@, k) ==> vision@[k]
                    == zero::<T>(),
    {
        proof {
            use_type_invariant(self);
        }
        let cells = self.cells;
        let nothing: T = zero_value();
        let mut vision: Vec<T> = Vec::with_capacity(cells);
        let mut k: usize = 0;
        while k < cells
            invariant
                k <= cells,
                vision@.len() == k,
                forall|c: int| 0 <= c < k ==> vision@[c] == nothing,
            decreases cells - k,
        {
            vision.push(nothing);
            k += 1;
        }
        proof {
            assert(sightings@.take(0) =~= Seq::<Sighting<T>>::empty());
            if zero_is_fixed::<T>() {
                assert(vision@ =~= vision_of(cells, sightings@.take(0)));
            }
        }
        let mut i: usize = 0;
        while i < sightings.len()
            invariant
                i <= sightings.len(),
                cells > 0,
                adds_freely::<T>(),
                vision@.len() == cells,
                zero_is_fixed::<T>() ==> nothing == zero::<T>(),
                zero_is_fixed::<T>() && T::obeys_add_spec() ==> vision@ == vision_of(
                    cells,
                    sightings@.take(i as int),
                ),
                forall|c: int|
                    0 <= c < cells && unlit(cells, sightings@.take(i as int), c) ==> vision@[c]
                        == nothing,
            decreases sightings.len() - i,
        {
            let sighting = sightings[i];
            let cell = if sighting.cell < cells {
                sighting.cell
            } else {
                cells - 1
            };
            let seen = vision[cell];
            vision.set(cell, seen + sighting.energy);
            proof {
                let earlier = sightings@.take(i as int);
                let now = sightings@.take(i + 1);
                assert(now.drop_last() =~= earlier);
                assert(now.last() == sighting);
                assert forall|c: int| 0 <= c < cells && unlit(cells, now, c) implies vision@[c]
                    == nothing by {
                    assert(now[i as int] == sighting);
                    assert forall|j: int| 0 <= j < earlier.len() implies lit_cell(
                        (#[trigger] earlier[j]).cell,
                        cells,
                    ) != c by {
                        assert(earlier[j] == now[j]);
                    }
                }
            }
            i += 1;
        }
        proof {
            assert(sightings@.take(i as int) =~= sightings@);
        }
        vision
    }
}

impl<T: Scalar> Eye<T> {
    /// A food that is `norm` far off, at `angle` from straight ahead, is in
    /// view: it is nearer than the eye's range, and its angle is within half
    /// the eye's angle to either side.
    pub open spec fn views(&self, norm: T, angle: T) -> bool {
        &&& !at_least(norm, self.fov_range())
        &&& !precedes(angle, quotient_of(negative_of(self.fov_angle()), small::<T>(2)))
        &&& !exceeds(angle, quotient_of(self.fov_angle(), small::<T>(2)))
    }

    /// Where along the eye a food at `angle` from straight ahead falls, in
    /// cells counted from the eye's left edge: the angle, counted from that
    /// edge, as a share of the eye's angle, times the number of cells.
    pub open spec fn spec_cell_position(&self, angle: T, cells: T) -> T {
        product_of(
            quotient_of(
                sum_of(angle, quotient_of(self.fov_angle(), small::<T>(2))),
                self.fov_angle(),
            ),
            cells,
        )
    }

    /// The energy with which a food `norm` far off is seen: one for a food
    /// at the eye itself, falling to zero at the eye's range.
    pub open spec fn spec_energy(&self, norm: T) -> T {
        difference_of(small::<T>(1), quotient_of(norm, self.fov_range()))
    }

    /// The sightings that come of the answers given for the foods: one for
    /// each food in view, in the order of the foods, with the cell answered
    /// for it and the energy that its distance leaves it.
    pub open spec fn sightings_of(&self, answers: Seq<Bearing<T>>) -> Seq<Sighting<T>>
        decreases answers.len(),
    {
        if answers.len() == 0 {
            Seq::empty()
        } else if self.views(answers.last().norm, answers.last().angle) {
            self.sightings_of(answers.drop_last()).push(
                Sighting {
                    cell: answers.last().cell,
                    energy: self.spec_energy(answers.last().norm),
                },
            )
        } else {
            self.sightings_of(answers.drop_last())
        }
    }

    /// `answers` and `scale` are what `space` answered for the foods: `scale`
    /// stands for the number of the eye's cells, each food has the distance
    /// and the angle that `space` finds for it from `position` and
    /// `rotation`, and each food in view has for its cell the whole part of
    /// where along the eye its angle falls.
    pub open spec fn answered<S: Space<T> + Measure<T>>(
        &self,
        space: &S,
        position: Point<T>,
        rotation: T,
        foods: Seq<Food<T>>,
        answers: Seq<Bearing<T>>,
        scale: T,
    ) -> bool {
        &&& answers.len() == foods.len()
        &&& counts(space, self.cells(), scale)
        &&& forall|i: int|
            0 <= i < foods.len() ==> bears(
                space,
                position,
                rotation,
                foods[i].position,
                (#[trigger] answers[i]).norm,
                answers[i].angle,
            )
        &&& computes_exactly::<T>() ==> forall|i: int|
            0 <= i < foods.len() && self.views((#[trigger] answers[i]).norm, answers[i].angle)
                ==> floors(
                space,
                self.spec_cell_position(answers[i].angle, scale),
                answers[i].cell,
            )
    }

    /// `vision` is what the eye of one who stands at `position`, turned by
    /// `rotation`, sees of `foods`, `answers` and `scale` being what `space`
    /// answered for them.
    pub open spec fn sees<S: Space<T> + Measure<T>>(
        &self,
        vision: Seq<T>,
        space: &S,
        position: Point<T>,
        rotation: T,
        foods: Seq<Food<T>>,
        answers: Seq<Bearing<T>>,
        scale: T,
    ) -> bool {
        &&& self.answered(space, position, rotation, foods, answers, scale)
        &&& vision.len() == self.cells()
        &&& computes_exactly::<T>() ==> vision == vision_of(
            self.cells(),
            self.sightings_of(answers),
        )
    }

    /// The eye sees nothing of foods that are all as far off as its range
    /// or farther: every cell stays at zero.
    pub proof fn lemma_out_of_range(&self, answers: Seq<Bearing<T>>)
        requires
            forall|i: int| 0 <= i < answers.len() ==> at_least(#[trigger] answers[i].norm, self.fov_range()),
        ensures
            self.sightings_of(answers) == Seq::<Sighting<T>>::empty(),
            vision_of(self.cells(), self.sightings_of(answers)) == Seq::new(
                self.cells() as nat,
                |k: int| zero::<T>(),
            ),
        decreases answers.len(),
    {
        if answers.len() > 0 {
            let earlier = answers.drop_last();
            assert forall|i: int| 0 <= i < earlier.len() implies at_least(
                #[trigger] earlier[i].norm,
                self.fov_range(),
            ) by {
                assert(earlier[i] == answers[i]);
            }
            self.lemma_out_of_range(earlier);
            assert(answers.last() == answers[answers.len() - 1]);
        }
    }

    /// Out of range gives zero: where `space` finds every food as far off
    /// as the eye's range or farther, every cell of what the eye sees is
    /// zero.
    pub proof fn lemma_sees_nothing_out_of_range<S: Space<T> + Measure<T>>(
        &self,
        vision: Seq<T>,
        space: &S,
        position: Point<T>,
        rotation: T,
        foods: Seq<Food<T>>,
        answers: Seq<Bearing<T>>,
        scale: T,
    )
        requires
            self.sees(vision, space, position, rotation, foods, answers, scale),
            computes_exactly::<T>(),
            forall|i: int|
                0 <= i < answers.len() ==> at_least(#[trigger] answers[i].norm, self.fov_range()),
        ensures
            vision == Seq::new(self.cells() as nat, |k: int| zero::<T>()),
    {
        self.lemma_out_of_range(answers);
    }

    /// Whether a food that is `norm` far off, at `angle` from straight
    /// ahead, is in view.
    pub fn in_view(&self, norm: T, angle: T) -> (seen: bool)
        requires
            computes_freely::<T>(),
        ensures
            computes_exactly::<T>() ==> seen == self.views(norm, angle),
    {
        let two: T = small_value(2);
        let left = self.fov_angle.neg() / two;
        let right = self.fov_angle / two;
        if norm >= self.fov_range || angle < left || angle > right {
            false
        } else {
            true
        }
    }

    /// Where along the eye a food at `angle` from straight ahead falls, in
    /// cells counted from the eye's left edge; `cells` is the number of the
    /// eye's cells as a scalar.
    pub fn cell_position(&self, angle: T, cells: T) -> (position: T)
        requires
            computes_freely::<T>(),
        ensures
            computes_exactly::<T>() ==> position == self.spec_cell_position(angle, cells),
    {
        let two: T = small_value(2);
        let angle = angle + self.fov_angle / two;
        let angle = angle / self.fov_angle;
        angle * cells
    }

    /// The energy with which a food `norm` far off is seen.
    pub fn energy(&self, norm: T) -> (energy: T)
        requires
            computes_freely::<T>(),
        ensures
            computes_exactly::<T>() ==> energy == self.spec_energy(norm),
    {
        let one: T = small_value(1);
        one - norm / self.fov_range
    }

    /// What the eye of one who stands at `position`, turned by `rotation`,
    /// sees of `foods`. Each food in turn that is in view adds its energy to
    /// the cell that its angle falls in.
    pub fn process_vision<S: Space<T> + Measure<T>>(
        &self,
        space: &S,
        position: Point<T>,
        rotation: T,
        foods: &[Food<T>],
    ) -> (vision: Vec<T>)
        requires
            computes_freely::<T>(),
        ensures
            vision@.len() == self.cells(),
            exists|answers: Seq<Bearing<T>>, scale: T|
                self.sees(vision@, space, position, rotation, foods@, answers, scale),
            exists|sightings: Seq<Sighting<T>>|
                keeps_unlit_zero(vision@, self.cells(), sightings, foods@.len()),
    {
        let cells = space.scalar(self.cells());
        let mut sightings: Vec<Sighting<T>> = Vec::new();
        let ghost mut answers: Seq<Bearing<T>> = Seq::empty();
        let mut i: usize = 0;
        while i < foods.len()
            invariant
                i <= foods.len(),
                sightings@.len() <= i,
                computes_freely::<T>(),
                answers.len() == i,
                counts(space, self.cells(), cells),
                forall|k: int|
                    0 <= k < i ==> bears(
                        space,
                        position,
                        rotation,
                        foods@[k].position,
                        (#[trigger] answers[k]).norm,
                        answers[k].angle,
                    ),
                computes_exactly::<T>() ==> forall|k: int|
                    0 <= k < i && self.views((#[trigger] answers[k]).norm, answers[k].angle)
                        ==> floors(
                        space,
                        self.spec_cell_position(answers[k].angle, cells),
                        answers[k].cell,
                    ),
                computes_exactly::<T>() ==> sightings@ == self.sightings_of(answers),
            decreases foods.len() - i,
        {
            let (norm, angle) = space.bearing(position, rotation, foods[i].position);
            let ghost earlier = answers;
            if self.in_view(norm, angle) {
                let cell = space.whole(self.cell_position(angle, cells));
                sightings.push(Sighting { cell, energy: self.energy(norm) });
                proof {
                    answers = earlier.push(Bearing { norm, angle, cell });
                }
            } else {
                proof {
                    answers = earlier.push(Bearing { norm, angle, cell: 0 });
                }
            }
            proof {
                assert(answers.drop_last() =~= earlier);
                assert forall|k: int| 0 <= k < i implies answers[k] == earlier[k] by {}
            }
            i += 1;
        }
        let vision = self.rasterize(sightings.as_slice());
        assert(self.sees(vision@, space, position, rotation, foods@, answers, cells));
        assert(keeps_unlit_zero(vision@, self.cells(), sightings@, foods@.len()));
        vision
    }
}

} // verus!
