use hexgame::components::cell::{Cell, Direction, calculate_axis};

#[test]
fn cell_zero_returns_postion_with_q_r_s_at_0() {
    let position = Cell::zero();
    assert_eq!(0, position.get_q());
    assert_eq!(0, position.get_r());
    assert_eq!(0, position.get_s());
}

#[test]
fn cell_new_axial_calculates_s_correctly() {
    let cases = [
        (0, 0, 0),
        (1, 0, -1),
        (1, 1, -2),
        (0, 1, -1),
        (-1, 0, 1),
        (-1, -1, 2),
        (0, -1, 1),
        (5, -2, -3),
        (2, -2, 0),
        (-9, 5, 4),
        (-9, -4, 13),
    ];
    for (q, r, expected) in cases {
        assert_eq!(expected, Cell::new_axial(q, r).s);
        assert_eq!(expected, calculate_axis(q, r));
    }
}

#[test]
fn cell_is_neighbour_returns_true_for_neighbour_positions() {
    let first = Cell::new_axial(0, 0);
    for (q, r) in [(0, -1), (1, -1), (1, 0), (0, 1), (-1, 1), (-1, 0)] {
        assert!(first.is_neighbour(&Cell::new_axial(q, r)));
    }
    for (q, r) in [(-1, -1), (-2, 0), (0, -2), (2, -1), (1, 1), (0, 0), (10, -1), (-5, -1)] {
        assert!(!first.is_neighbour(&Cell::new_axial(q, r)));
    }
}

#[test]
fn cell_distance_to_returns_correct_distance() {
    let cases = [
        ((0, 0), (0, 0), 0),
        ((0, 0), (1, 0), 1),
        ((0, 0), (2, 0), 2),
        ((0, 0), (5, 4), 9),
        ((0, 0), (1, -5), 5),
        ((0, 0), (-15, -5), 20),
        ((0, 0), (30, -5), 30),
        ((1, 0), (0, 0), 1),
        ((1, 0), (5, 4), 8),
        ((1, 4), (20, 9), 24),
        ((20, 3), (-5, 4), 25),
        ((-9, 13), (6, 31), 33),
    ];
    for ((q1, r1), (q2, r2), expected) in cases {
        assert_eq!(expected, Cell::new_axial(q1, r1).distance_to(&Cell::new_axial(q2, r2)));
    }
}

#[test]
fn cell_move_q_calculates_new_values_correctly() {
    assert_eq!(Cell::new_axial(0, 0).move_q(0), Cell::new_cube(0, 0, 0));
    assert_eq!(Cell::new_axial(0, 0).move_q(5), Cell::new_cube(5, 0, -5));
    assert_eq!(Cell::new_axial(0, 0).move_q(-10), Cell::new_cube(-10, 0, 10));
    assert_eq!(Cell::new_axial(5, 10).move_q(-7), Cell::new_cube(-2, 10, -8));
}

#[test]
fn cell_move_r_calculates_new_values_correctly() {
    assert_eq!(Cell::new_axial(0, 0).move_r(0), Cell::new_cube(0, 0, 0));
    assert_eq!(Cell::new_axial(0, 0).move_r(37), Cell::new_cube(0, 37, -37));
    assert_eq!(Cell::new_axial(0, 0).move_r(-15), Cell::new_cube(0, -15, 15));
    assert_eq!(Cell::new_axial(40, 5).move_r(-25), Cell::new_cube(40, -20, -20));
}

#[test]
fn cell_move_s_calculates_new_values_correctly() {
    assert_eq!(Cell::new_axial(0, 0).move_s(0), Cell::new_cube(0, 0, 0));
    assert_eq!(Cell::new_axial(0, 0).move_s(37), Cell::new_cube(-37, 37, 0));
    assert_eq!(Cell::new_axial(0, 0).move_s(-15), Cell::new_cube(15, -15, 0));
    assert_eq!(Cell::new_axial(12, 2).move_s(-3), Cell::new_cube(15, -1, -14));
}

#[test]
fn cell_get_neighbour_returns_correct_values() {
    let cases = [
        ((0, 0), Direction::East, (1, 0, -1)),
        ((0, 0), Direction::NorthEast, (1, -1, 0)),
        ((0, 0), Direction::NorthWest, (0, -1, 1)),
        ((0, 0), Direction::West, (-1, 0, 1)),
        ((0, 0), Direction::SouthWest, (-1, 1, 0)),
        ((0, 0), Direction::SouthEast, (0, 1, -1)),
        ((5, 3), Direction::East, (6, 3, -9)),
        ((1, 8), Direction::NorthEast, (2, 7, -9)),
        ((23, 42), Direction::NorthWest, (23, 41, -64)),
        ((6, -5), Direction::West, (5, -5, 0)),
        ((-20, 13), Direction::SouthWest, (-21, 14, 7)),
        ((-3, -8), Direction::SouthEast, (-3, -7, 10)),
    ];
    for ((q, r), direction, (eq, er, es)) in cases {
        assert_eq!(Cell::new_axial(q, r).get_neighbour(direction), Cell::new_cube(eq, er, es));
    }
}
