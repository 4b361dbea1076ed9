use hexgame::components::position::Position;

#[test]
fn position_zero_returns_postion_with_q_r_s_at_0() {
    let position = Position::zero();
    assert_eq!(0, position.q);
    assert_eq!(0, position.r);
    assert_eq!(0, position.s);
}

#[test]
fn position_new_axial_calculates_s_correctly() {
    let cases = [
        (0, 0, 0),
        (1, 0, -1),
        (1, 1, -2),
        (0, 1, -1),
        (-1, 0, 1),
        (-1, -1, 2),
        (0, -1, 1),
        (5, -2, -3),
        (2, -2, 0),
        (-9, 5, 4),
        (-9, -4, 13),
    ];
    for (q, r, expected) in cases {
        assert_eq!(expected, Position::new_axial(q, r).s);
    }
}

#[test]
fn position_new_cube_keeps_coordinates() {
    let position = Position::new_cube(3, -1, 7);
    assert_eq!((position.q, position.r, position.s), (3, -1, 7));
}

#[test]
fn position_is_neighbour_returns_true_for_neighbour_positions() {
    let first = Position::new_axial(0, 0);
    for (q, r) in [(0, -1), (1, -1), (1, 0), (0, 1), (-1, 1), (-1, 0)] {
        assert!(first.is_neighbour(&Position::new_axial(q, r)));
    }
}

#[test]
fn position_is_neighbour_returns_false_for_nonneighbour_positions() {
    let first = Position::new_axial(0, 0);
    for (q, r) in [
        (-1, -1),
        (-2, 0),
        (0, -2),
        (1, -2),
        (2, -2),
        (2, -1),
        (2, 0),
        (1, 1),
        (0, 2),
        (-1, 2),
        (-2, 2),
        (-2, 1),
        (-2, -5),
        (10, 0),
        (-5, 0),
        (0, 0),
        (10, -1),
        (-5, -1),
    ] {
        assert!(!first.is_neighbour(&Position::new_axial(q, r)));
    }
}

#[test]
fn position_distance_to_returns_correct_distance() {
    let cases = [
        ((0, 0), (0, 0), 0),
        ((0, 0), (1, 0), 1),
        ((0, 0), (2, 0), 2),
        ((0, 0), (5, 4), 9),
        ((0, 0), (1, -5), 5),
        ((0, 0), (-15, -5), 20),
        ((0, 0), (30, -5), 30),
        ((1, 0), (0, 0), 1),
        ((1, 0), (5, 4), 8),
        ((1, 4), (20, 9), 24),
        ((20, 3), (-5, 4), 25),
        ((-9, 13), (6, 31), 33),
    ];
    for ((q1, r1), (q2, r2), expected) in cases {
        let first = Position::new_axial(q1, r1);
        let second = Position::new_axial(q2, r2);
        assert_eq!(expected, first.distance_to(&second));
        assert_eq!(expected, second.distance_to(&first));
    }
}

#[test]
fn position_distance_is_symmetric_and_zero_only_to_itself() {
    let a = Position::new_axial(2, -5);
    let b = Position::new_axial(-1, 3);
    let c = Position::new_axial(4, 4);
    assert_eq!(a.distance_to(&b), b.distance_to(&a));
    assert_eq!(a.distance_to(&a), 0);
    assert_ne!(a.distance_to(&b), 0);
    assert!(a.distance_to(&c) <= a.distance_to(&b) + b.distance_to(&c));
}
