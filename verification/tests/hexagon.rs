use hexgame::components::hexagon::Hexagon;

#[test]
fn hexagon_zero_returns_postion_with_q_r_s_at_0() {
    let position = Hexagon::zero();
    assert_eq!(0, position.q);
    assert_eq!(0, position.r);
    assert_eq!(0, position.s);
}

const S_CASES: [(i32, i32, i32); 11] = [
    (0, 0, 0),
    (1, 0, -1),
    (1, 1, -2),
    (0, 1, -1),
    (-1, 0, 1),
    (-1, -1, 2),
    (0, -1, 1),
    (5, -2, -3),
    (2, -2, 0),
    (-9, 5, 4),
    (-9, -4, 13),
];

#[test]
fn hexagon_new_axial_calculates_s_correctly() {
    for (q, r, expected) in S_CASES {
        let input = Hexagon::new_axial(q, r, 0);
        assert_eq!(expected, input.get_s());
    }
}

#[test]
fn hexagon_set_axial_calculates_s_correctly() {
    for (q, r, expected) in S_CASES {
        let mut input = Hexagon::new_axial(0, 0, 0);
        input.set_axial(q, r);
        assert_eq!(expected, input.s);
    }
}

#[test]
fn hexagon_setters_keep_size() {
    let mut hexagon = Hexagon::new_axial(1, 2, 7);
    hexagon.set_cube(4, 5, -9);
    assert_eq!((hexagon.get_q(), hexagon.get_r(), hexagon.get_s(), hexagon.get_size()), (4, 5, -9, 7));
    hexagon.set_size(3);
    assert_eq!(hexagon.get_size(), 3);
    assert_eq!(Hexagon::new_cube(1, 2, 3, 4), Hexagon { q: 1, r: 2, s: 3, size: 4 });
}

#[test]
fn hexagon_is_neighbour_returns_true_for_neighbour_positions() {
    let first = Hexagon::new_axial(0, 0, 0);
    for (q, r) in [(0, -1), (1, -1), (1, 0), (0, 1), (-1, 1), (-1, 0)] {
        assert!(first.is_neighbour(&Hexagon::new_axial(q, r, 0)));
    }
}

#[test]
fn hexagon_is_neighbour_returns_false_for_nonneighbour_positions() {
    let first = Hexagon::new_axial(0, 0, 0);
    for (q, r) in [
        (-1, -1),
        (-2, 0),
        (0, -2),
        (1, -2),
        (2, -2),
        (2, -1),
        (2, 0),
        (1, 1),
        (0, 2),
        (-1, 2),
        (-2, 2),
        (-2, 1),
        (-2, -5),
        (10, 0),
        (-5, 0),
        (0, 0),
        (10, -1),
        (-5, -1),
    ] {
        assert!(!first.is_neighbour(&Hexagon::new_axial(q, r, 0)));
    }
}

#[test]
fn hexagon_distance_to_returns_correct_distance() {
    let cases = [
        ((0, 0), (0, 0), 0),
        ((0, 0), (1, 0), 1),
        ((0, 0), (2, 0), 2),
        ((0, 0), (5, 4), 9),
        ((0, 0), (1, -5), 5),
        ((0, 0), (-15, -5), 20),
        ((0, 0), (30, -5), 30),
        ((1, 0), (0, 0), 1),
        ((1, 0), (5, 4), 8),
        ((1, 4), (20, 9), 24),
        ((20, 3), (-5, 4), 25),
        ((-9, 13), (6, 31), 33),
    ];
    for ((q1, r1), (q2, r2), expected) in cases {
        let first = Hexagon::new_axial(q1, r1, 0);
        let second = Hexagon::new_axial(q2, r2, 0);
        assert_eq!(expected, first.distance_to(&second));
    }
}

#[test]
fn hexagon_distance_is_symmetric_and_zero_only_to_itself() {
    let a = Hexagon::new_axial(2, -5, 1);
    let b = Hexagon::new_axial(-1, 3, 1);
    let c = Hexagon::new_axial(4, 4, 1);
    assert_eq!(a.distance_to(&b), b.distance_to(&a));
    assert_eq!(a.distance_to(&a), 0);
    assert_ne!(a.distance_to(&b), 0);
    assert!(a.distance_to(&c) <= a.distance_to(&b) + b.distance_to(&c));
}
