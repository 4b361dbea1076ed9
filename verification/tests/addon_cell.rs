use hexgame::addon::cell::{Cell, DirectionFlat, DirectionPointy, Vector2i};

#[test]
fn zero_returns_position_with_q_r_s_at_0() {
    let position = Cell::zero();
    assert_eq!(0, position.q);
    assert_eq!(0, position.r);
    assert_eq!(0, position.get_s());
}

#[test]
fn addon_new_axial_calculates_s_correctly() {
    let cases = [
        (0, 0, 0),
        (1, 0, -1),
        (1, 1, -2),
        (0, 1, -1),
        (-1, 0, 1),
        (-1, -1, 2),
        (0, -1, 1),
        (5, -2, -3),
        (2, -2, 0),
        (-9, 5, 4),
        (-9, -4, 13),
    ];
    for (q, r, expected_s) in cases {
        assert_eq!(expected_s, Cell::new_axial(q, r).get_s());
    }
}

#[test]
fn addon_is_neighbour_returns_true_for_neighbour_positions() {
    let first = Cell::new_axial(0, 0);
    for (q, r) in [(0, -1), (1, -1), (1, 0), (0, 1), (-1, 1), (-1, 0)] {
        assert!(first.is_neighbour(&Cell::new_axial(q, r)));
    }
}

#[test]
fn addon_is_neighbour_returns_false_for_nonneighbour_positions() {
    let first = Cell::new_axial(0, 0);
    for (q, r) in [
        (-1, -1),
        (-2, 0),
        (0, -2),
        (1, -2),
        (2, -2),
        (2, -1),
        (2, 0),
        (1, 1),
        (0, 2),
        (-1, 2),
        (-2, 2),
        (-2, 1),
        (-2, -5),
        (10, 0),
        (-5, 0),
        (0, 0),
        (10, -1),
        (-5, -1),
    ] {
        assert!(!first.is_neighbour(&Cell::new_axial(q, r)));
    }
}

#[test]
fn addon_distance_to_returns_correct_distance() {
    let cases = [
        ((0, 0), (0, 0), 0),
        ((0, 0), (1, 0), 1),
        ((0, 0), (2, 0), 2),
        ((0, 0), (5, 4), 9),
        ((0, 0), (1, -5), 5),
        ((0, 0), (-15, -5), 20),
        ((0, 0), (30, -5), 30),
        ((1, 0), (0, 0), 1),
        ((1, 0), (5, 4), 8),
        ((1, 4), (20, 9), 24),
        ((20, 3), (-5, 4), 25),
        ((-9, 13), (6, 31), 33),
    ];
    for ((q1, r1), (q2, r2), expected) in cases {
        assert_eq!(expected, Cell::new_axial(q1, r1).distance_to(&Cell::new_axial(q2, r2)));
    }
}

#[test]
fn addon_move_q_calculates_new_values_correctly() {
    let cases = [((0, 0), 0, (0, 0), 0), ((0, 0), 5, (5, -5), 0), ((0, 0), -10, (-10, 10), 0), ((5, 10), -7, (-2, 17), -15)];
    for ((q, r), length, (eq, er), s) in cases {
        let moved = Cell::new_axial(q, r).move_q(length);
        assert_eq!(moved, Cell::new_axial(eq, er));
        assert_eq!(moved.get_s(), s);
    }
}

#[test]
fn addon_move_r_calculates_new_values_correctly() {
    let cases = [((0, 0), 0, (0, 0), 0), ((0, 0), 37, (0, 37), -37), ((0, 0), -15, (0, -15), 15), ((40, 5), -25, (40, -20), -20)];
    for ((q, r), length, (eq, er), s) in cases {
        let moved = Cell::new_axial(q, r).move_r(length);
        assert_eq!(moved, Cell::new_axial(eq, er));
        assert_eq!(moved.get_s(), s);
    }
}

#[test]
fn addon_move_s_calculates_new_values_correctly() {
    let cases = [((0, 0), 0, (0, 0), 0), ((0, 0), 37, (-37, 0), 37), ((0, 0), -15, (15, 0), -15), ((12, 2), -3, (15, 2), -17)];
    for ((q, r), length, (eq, er), s) in cases {
        let moved = Cell::new_axial(q, r).move_s(length);
        assert_eq!(moved, Cell::new_axial(eq, er));
        assert_eq!(moved.get_s(), s);
    }
}

#[test]
fn addon_get_neighbour_for_pointy_hex_returns_correct_values() {
    let cases = [
        ((0, 0), DirectionPointy::TopRight, (1, -1)),
        ((0, 0), DirectionPointy::Right, (1, 0)),
        ((0, 0), DirectionPointy::BottomLeft, (-1, 1)),
        ((0, 0), DirectionPointy::Left, (-1, 0)),
        ((0, 0), DirectionPointy::BottomRight, (0, 1)),
        ((0, 0), DirectionPointy::TopLeft, (0, -1)),
        ((1, 8), DirectionPointy::TopRight, (2, 7)),
        ((5, 3), DirectionPointy::Right, (6, 3)),
        ((-3, -8), DirectionPointy::BottomRight, (-3, -7)),
        ((-20, 13), DirectionPointy::BottomLeft, (-21, 14)),
        ((6, -5), DirectionPointy::Left, (5, -5)),
        ((23, 42), DirectionPointy::TopLeft, (23, 41)),
    ];
    for ((q, r), direction, (eq, er)) in cases {
        assert_eq!(Cell::new_axial(q, r).get_neighbour_for_pointy_hex(direction), Cell::new_axial(eq, er));
    }
}

#[test]
fn addon_get_neighbour_for_flat_hex_returns_correct_values() {
    let cases = [
        ((0, 0), DirectionFlat::Top, (0, -1)),
        ((0, 0), DirectionFlat::TopRight, (1, -1)),
        ((0, 0), DirectionFlat::BottomRight, (1, 0)),
        ((0, 0), DirectionFlat::Bottom, (0, 1)),
        ((0, 0), DirectionFlat::BottomLeft, (-1, 1)),
        ((0, 0), DirectionFlat::TopLeft, (-1, 0)),
        ((5, 3), DirectionFlat::Top, (5, 2)),
        ((1, 8), DirectionFlat::TopRight, (2, 7)),
        ((-3, -8), DirectionFlat::BottomRight, (-2, -8)),
        ((6, -5), DirectionFlat::Bottom, (6, -4)),
        ((-20, 13), DirectionFlat::BottomLeft, (-21, 14)),
        ((23, 42), DirectionFlat::TopLeft, (22, 42)),
    ];
    for ((q, r), direction, (eq, er)) in cases {
        assert_eq!(Cell::new_axial(q, r).get_neighbour_for_flat_hex(direction), Cell::new_axial(eq, er));
    }
}

#[test]
fn addon_even_q_offset_coordinates_round_trip() {
    for (q, r) in [(0, 0), (1, 0), (1, 1), (-1, 0), (-3, 2), (7, -4), (-8, -9)] {
        let cell = Cell::new_axial(q, r);
        let offset = cell.get_even_q_offset_coordinates();
        assert_eq!(offset.x, q);
        assert_eq!(Cell::from_even_q_offset_coordinates(offset), cell);
    }
    assert_eq!(Cell::new_axial(1, 0).get_even_q_offset_coordinates(), Vector2i::new(1, 1));
    assert_eq!(Cell::new_axial(-1, 0).get_even_q_offset_coordinates(), Vector2i::new(-1, 0));
    assert_eq!(Cell::new_axial(3, -2).get_even_q_offset_coordinates(), Vector2i::new(3, 0));
}

#[test]
fn addon_even_r_offset_coordinates() {
    assert_eq!(Cell::new_axial(0, 1).get_even_r_offset_coordinates(), Vector2i::new(1, 1));
    assert_eq!(Cell::new_axial(2, -3).get_even_r_offset_coordinates(), Vector2i::new(1, -3));
    assert_eq!(Cell::from_even_r_offset_coordinates(Vector2i::new(1, 1)), Cell::new_axial(0, 1));
    assert_eq!(Cell::from_even_r_offset_coordinates(Vector2i::new(2, 1)), Cell::new_axial(2, 1));
    assert_eq!(Cell::from_even_r_offset_coordinates(Vector2i::new(2, -3)), Cell::new_axial(3, -3));
    let cell = Cell::new_axial(1, 1);
    assert_ne!(Cell::from_even_r_offset_coordinates(cell.get_even_r_offset_coordinates()), cell);
}

#[test]
fn addon_directions_convert_from_their_numbers() {
    assert_eq!(DirectionFlat::from_i8(0), Some(DirectionFlat::Top));
    assert_eq!(DirectionFlat::from_i8(2), None);
    assert_eq!(DirectionPointy::from_i8(2), Some(DirectionPointy::Right));
    assert_eq!(DirectionPointy::from_i8(0), None);
    assert_eq!(DirectionPointy::from_i8(7).unwrap().to_i8(), 7);
    assert_eq!(DirectionFlat::BottomLeft.to_i8(), 5);
}

#[test]
fn addon_cell_properties() {
    let mut cell = Cell::new_axial(2, -5);
    assert_eq!(cell.get_property("Q"), Some(2));
    assert_eq!(cell.get_property("R"), Some(-5));
    assert_eq!(cell.get_property("S"), Some(3));
    assert_eq!(cell.get_property("T"), None);
    assert!(cell.set_property("R", 4));
    assert!(!cell.set_property("S", 9));
    assert_eq!(cell, Cell::new_axial(2, 4));
    assert!(cell.equals(&Cell::new_axial(2, 4)));
}
