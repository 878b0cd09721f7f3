use lib_simulation::Eye;
use lib_simulation::Food;
use lib_simulation::Measure;
use lib_simulation::Point;
use lib_simulation::Sighting;
use lib_simulation::Space;
use nalgebra as na;
use std::f32::consts::FRAC_PI_2;
use std::f32::consts::PI;

const TEST_EYE_CELLS: usize = 13;

struct Plane;

fn point(point: Point<f32>) -> na::Point2<f32> {
    na::Point2::new(point.x, point.y)
}

impl Space<f32> for Plane {
    fn distance(&self, a: Point<f32>, b: Point<f32>) -> f32 {
        na::distance(&point(a), &point(b))
    }

    fn bearing(&self, position: Point<f32>, rotation: f32, target: Point<f32>) -> (f32, f32) {
        let vec = point(target) - point(position);
        let norm = vec.norm();
        let angle = na::Rotation2::rotation_between(&na::Vector2::y(), &vec).angle();
        let angle = angle - na::Rotation2::new(rotation).angle();
        let angle = na::wrap(angle, -PI, PI);

        (norm, angle)
    }

    fn advance(&self, position: Point<f32>, rotation: f32, speed: f32) -> Point<f32> {
        let mut position = point(position);

        position += na::Rotation2::new(rotation) * na::Vector2::new(0.0, speed);

        position.x = na::wrap(position.x, 0.0, 1.0);
        position.y = na::wrap(position.y, 0.0, 1.0);

        Point {
            x: position.x,
            y: position.y,
        }
    }

    fn turn(&self, rotation: f32, delta: f32) -> f32 {
        na::Rotation2::new(rotation).angle() + delta
    }
}

impl Measure<f32> for Plane {
    fn scalar(&self, count: usize) -> f32 {
        count as f32
    }

    fn whole(&self, value: f32) -> usize {
        value as usize
    }
}


struct Testcase {
    foods: Vec<Food<f32>>,
    fov_range: f32,
    fov_angle: f32,
    x: f32,
    y: f32,
    rot: f32,
    expected_vision: &'static str,
}

impl Testcase {
    fn vision(&self) -> Vec<f32> {
        let eye = Eye::new(self.fov_range, self.fov_angle, TEST_EYE_CELLS);

        eye.process_vision(
            &Plane,
            Point {
                x: self.x,
                y: self.y,
            },
            self.rot,
            &self.foods,
        )
    }

    fn run(self) {
        let actual_vision: Vec<_> = self
            .vision()
            .into_iter()
            .map(|cell| {
                if cell >= 0.7 {
                    "#"
                } else if cell >= 0.3 {
                    "+"
                } else if cell > 0.0 {
                    "."
                } else {
                    " "
                }
            })
            .collect();

        let actual_vision = actual_vision.join("");

        assert_eq!(actual_vision, self.expected_vision);
    }
}

fn food(x: f32, y: f32) -> Food<f32> {
    Food {
        position: Point { x, y },
    }
}

fn fov_range_case(fov_range: f32, expected_vision: &'static str) {
    Testcase {
        foods: vec![food(0.5, 1.0)],
        fov_angle: FRAC_PI_2,
        x: 0.5,
        y: 0.5,
        rot: 0.0,
        fov_range,
        expected_vision,
    }
    .run();
}

#[test]
fn test_fov_ranges() {
    fov_range_case(1.0, "      +      ");
    fov_range_case(0.9, "      +      ");
    fov_range_case(0.8, "      +      ");
    fov_range_case(0.7, "      .      ");
    fov_range_case(0.6, "      .      ");
    fov_range_case(0.5, "             ");
    fov_range_case(0.4, "             ");
    fov_range_case(0.3, "             ");
    fov_range_case(0.2, "             ");
    fov_range_case(0.1, "             ");
}

fn rotation_case(rot: f32, expected_vision: &'static str) {
    Testcase {
        foods: vec![food(0.0, 0.5)],
        fov_range: 1.0,
        fov_angle: 2.0 * PI,
        x: 0.5,
        y: 0.5,
        rot,
        expected_vision,
    }
    .run();
}

#[test]
fn test_rotations() {
    rotation_case(0.00 * PI, "         +   ");
    rotation_case(0.25 * PI, "        +    ");
    rotation_case(0.50 * PI, "      +      ");
    rotation_case(0.75 * PI, "    +        ");
    rotation_case(1.00 * PI, "   +         ");
    rotation_case(1.25 * PI, " +           ");
    rotation_case(1.50 * PI, "            +");
    rotation_case(1.75 * PI, "           + ");
    rotation_case(2.00 * PI, "         +   ");
    rotation_case(2.25 * PI, "        +    ");
    rotation_case(2.50 * PI, "      +      ");
}

fn position_case(x: f32, y: f32, expected_vision: &'static str) {
    Testcase {
        foods: vec![food(1.0, 0.4), food(1.0, 0.6)],
        fov_range: 1.0,
        fov_angle: FRAC_PI_2,
        rot: 3.0 * FRAC_PI_2,
        x,
        y,
        expected_vision,
    }
    .run();
}

#[test]
fn test_positions() {
    // Test X-Axis:
    position_case(1.0, 0.5, "             ");
    position_case(0.9, 0.5, "#           #");
    position_case(0.8, 0.5, "  #       #  ");
    position_case(0.7, 0.5, "   +     +   ");
    position_case(0.6, 0.5, "    +   +    ");
    position_case(0.5, 0.5, "    +   +    ");
    position_case(0.4, 0.5, "     + +     ");
    position_case(0.3, 0.5, "     . .     ");
    position_case(0.2, 0.5, "     . .     ");
    position_case(0.1, 0.5, "     . .     ");
    position_case(0.0, 0.5, "             ");
    // Test Y-Axis:
    position_case(0.5, 0.0, "            +");
    position_case(0.5, 0.1, "          + .");
    position_case(0.5, 0.2, "         +  +");
    position_case(0.5, 0.3, "        + +  ");
    position_case(0.5, 0.4, "      +  +   ");
    position_case(0.5, 0.6, "   +  +      ");
    position_case(0.5, 0.7, "  + +        ");
    position_case(0.5, 0.8, "+  +         ");
    position_case(0.5, 0.9, ". +          ");
    position_case(0.5, 1.0, "+            ");
}

fn fov_angle_case(fov_angle: f32, expected_vision: &'static str) {
    Testcase {
        foods: vec![
            food(0.0, 0.0),
            food(0.0, 0.33),
            food(0.0, 0.66),
            food(0.0, 1.0),
            food(1.0, 0.0),
            food(1.0, 0.33),
            food(1.0, 0.66),
            food(1.0, 1.0),
        ],
        fov_range: 1.0,
        x: 0.5,
        y: 0.5,
        rot: 3.0 * FRAC_PI_2,
        fov_angle,
        expected_vision,
    }
    .run();
}

#[test]
fn test_fov_angles() {
    fov_angle_case(0.25 * PI, " +         + ");
    fov_angle_case(0.50 * PI, ".  +     +  .");
    fov_angle_case(0.75 * PI, "  . +   + .  ");
    fov_angle_case(1.00 * PI, "   . + + .   ");
    fov_angle_case(1.25 * PI, "   . + + .   ");
    fov_angle_case(1.50 * PI, ".   .+ +.   .");
    fov_angle_case(1.75 * PI, ".   .+ +.   .");
    fov_angle_case(2.00 * PI, "+.  .+ +.  .+");
}

#[test]
fn food_straight_ahead_lights_the_centre_cell() {
    let vision = Testcase {
        foods: vec![food(0.5, 1.0)],
        fov_range: 1.0,
        fov_angle: FRAC_PI_2,
        x: 0.5,
        y: 0.5,
        rot: 0.0,
        expected_vision: "",
    }
    .vision();

    assert_eq!(vision.len(), TEST_EYE_CELLS);
    for (cell, value) in vision.iter().enumerate() {
        if cell == TEST_EYE_CELLS / 2 {
            assert!(*value >= 0.3);
        } else {
            assert_eq!(*value, 0.0);
        }
    }
}

#[test]
fn no_cell_is_negative_and_food_out_of_range_is_not_seen() {
    let eye = Eye::new(0.25, PI + PI / 4.0, 9);
    let position = Point { x: 0.5, y: 0.5 };

    // all of these are 0.3 or more away
    let far = vec![food(0.5, 0.8), food(0.2, 0.5), food(0.9, 0.9), food(0.5, 0.1)];
    assert_eq!(eye.process_vision(&Plane, position, 0.0, &far), vec![0.0; 9]);

    // exactly at the range
    let at_range = vec![food(0.5, 0.75)];
    assert_eq!(
        eye.process_vision(&Plane, position, 0.0, &at_range),
        vec![0.0; 9]
    );

    let near = vec![food(0.5, 0.6), food(0.45, 0.55), food(0.6, 0.6), food(0.5, 0.8)];
    let vision = eye.process_vision(&Plane, position, 0.0, &near);
    assert_eq!(vision.len(), 9);
    assert!(vision.iter().all(|cell| *cell >= 0.0));
    assert!(vision.iter().any(|cell| *cell > 0.0));
}

#[test]
fn vision_is_the_same_when_eye_and_foods_turn_together() {
    let eye = Eye::new(0.5, FRAC_PI_2, 7);
    let position = Point { x: 0.5, y: 0.5 };
    let foods = vec![(0.05, 0.3), (-0.1, 0.25), (0.1, 0.3), (0.0, 0.45), (0.3, -0.1)];

    let placed = |theta: f32| -> Vec<Food<f32>> {
        foods
            .iter()
            .map(|(dx, dy)| {
                let turned = na::Rotation2::new(theta) * na::Vector2::new(*dx, *dy);
                food(position.x + turned.x, position.y + turned.y)
            })
            .collect()
    };

    let straight = eye.process_vision(&Plane, position, 0.0, &placed(0.0));
    assert!(straight.iter().any(|cell| *cell > 0.0));

    for theta in [0.3, 1.0, -0.7, 2.5] {
        let turned = eye.process_vision(&Plane, position, theta, &placed(theta));
        assert_eq!(turned.len(), straight.len());
        for (a, b) in turned.iter().zip(straight.iter()) {
            assert!((a - b).abs() < 1.0e-4);
        }
    }
}

#[test]
fn in_view_asks_for_range_and_angle() {
    let eye = Eye::new(0.25, FRAC_PI_2, 9);

    assert!(eye.in_view(0.1, 0.0));
    assert!(eye.in_view(0.0, 0.0));
    assert!(eye.in_view(0.2, FRAC_PI_2 / 2.0));
    assert!(eye.in_view(0.2, -FRAC_PI_2 / 2.0));
    // at the range or beyond it
    assert!(!eye.in_view(0.25, 0.0));
    assert!(!eye.in_view(0.3, 0.0));
    // outside the angle
    assert!(!eye.in_view(0.1, 0.8));
    assert!(!eye.in_view(0.1, -0.8));
}

#[test]
fn cell_position_counts_from_the_left_edge() {
    let eye = Eye::new(1.0, 2.0, 10);

    assert_eq!(eye.cell_position(-1.0, 10.0), 0.0);
    assert_eq!(eye.cell_position(0.0, 10.0), 5.0);
    assert_eq!(eye.cell_position(0.5, 10.0), 7.5);
    assert_eq!(eye.cell_position(1.0, 10.0), 10.0);
}

#[test]
fn energy_falls_with_the_distance() {
    let eye = Eye::new(0.5, 2.0, 10);

    assert_eq!(eye.energy(0.0), 1.0);
    assert_eq!(eye.energy(0.125), 0.75);
    assert_eq!(eye.energy(0.25), 0.5);
    assert_eq!(eye.energy(0.5), 0.0);
}

#[test]
fn vision_adds_up_in_each_cell() {
    let eye = Eye::new(0.25, PI, 4);
    let seen = vec![
        Sighting { cell: 1, energy: 0.25 },
        Sighting { cell: 3, energy: 0.5 },
        Sighting { cell: 1, energy: 0.5 },
        Sighting { cell: 1, energy: 1.0 },
    ];
    assert_eq!(eye.rasterize(&seen), vec![0.0, 1.75, 0.0, 0.5]);
}

#[test]
fn bearing_at_the_right_edge_lights_the_last_cell() {
    let eye = Eye::new(0.25, PI, 4);
    let seen = vec![
        Sighting { cell: 4, energy: 0.25 },
        Sighting { cell: 9, energy: 0.5 },
        Sighting { cell: usize::MAX, energy: 1.0 },
    ];
    assert_eq!(eye.rasterize(&seen), vec![0.0, 0.0, 0.0, 1.75]);

    // seen through the whole eye: a food at the right edge of the view
    let eye = Eye::new(1.0, PI, 4);
    let position = Point { x: 0.5, y: 0.5 };
    let vision = eye.process_vision(&Plane, position, 0.0, &[food(0.0, 0.5)]);
    assert_eq!(vision, vec![0.0, 0.0, 0.0, 0.5]);
}

#[test]
fn nothing_in_view_is_all_zero() {
    let eye = Eye::new(0.25, PI, 9);
    assert_eq!(eye.rasterize(&[]), vec![0.0; 9]);
    assert_eq!(
        eye.process_vision(&Plane, Point { x: 0.5, y: 0.5 }, 0.0, &[]),
        vec![0.0; 9]
    );
    assert_eq!(eye.cells(), 9);
    assert_eq!(eye.fov_range(), 0.25);
    assert_eq!(eye.fov_angle(), PI);
}

#[test]
fn eye_of_one_cell_sees_everything_in_it() {
    let eye = Eye::new(1.0, PI, 1);
    let seen = vec![
        Sighting { cell: 0, energy: 0.5 },
        Sighting { cell: 7, energy: 0.25 },
    ];
    assert_eq!(eye.rasterize(&seen), vec![0.75]);
}
