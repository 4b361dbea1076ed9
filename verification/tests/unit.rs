use hexgame::components::unit::{AttackError, CanMove, Unit};

#[test]
pub fn attack_reduces_integrity() {
    let defender = Unit::new(5, 0, 0, 0, 0, 0, 0, 0);
    let attacker = Unit::new(0, 4, 0, 0, 0, 0, 0, 1);

    let result = attacker.attack(&defender);
    let result = match result {
        Ok(x) => x,
        Err(_) => panic!("Expected a result with Ok value"),
    };
    assert_eq!(result.defender.integrity, 1);
}

#[test]
pub fn attack_sets_attacker_remaining_range_to_0() {
    let defender = Unit::new(5, 0, 0, 0, 0, 0, 0, 0);
    let attacker = Unit::new(0, 4, 0, 0, 0, 0, 5, 1);

    let result = attacker.attack(&defender);
    let result = match result {
        Ok(x) => x,
        Err(_) => panic!("Expected a result with Ok value"),
    };
    assert_eq!(result.attacker.remaining_range, 0);
}

#[test]
pub fn attack_reduces_attacker_attacks_by_1() {
    let defender = Unit::new(5, 0, 0, 0, 0, 0, 0, 0);
    let attacker = Unit::new(0, 4, 0, 0, 0, 5, 0, 2);

    let result = attacker.attack(&defender);
    let result = match result {
        Ok(x) => x,
        Err(_) => panic!("Expected a result with Ok value"),
    };
    assert_eq!(result.attacker.remaining_attacks, 1);
    let attacker = result.attacker;
    let result = attacker.attack(&defender);
    let result = match result {
        Ok(x) => x,
        Err(_) => panic!("Expected a result with Ok value"),
    };
    assert_eq!(result.attacker.remaining_attacks, 0);
}

#[test]
pub fn attack_takes_armor_into_account() {
    let defender = Unit::new(5, 0, 0, 0, 1, 0, 0, 0);
    let attacker = Unit::new(0, 4, 0, 0, 0, 0, 0, 1);

    let result = attacker.attack(&defender);
    let result = match result {
        Ok(x) => x,
        Err(_) => panic!("Expected a result with Ok value"),
    };
    assert_eq!(result.defender.integrity, 2);
}

#[test]
pub fn attack_returns_correct_damage() {
    let defender = Unit::new(5, 0, 0, 0, 1, 0, 0, 0);
    let attacker = Unit::new(0, 4, 0, 0, 0, 0, 0, 1);

    let result = attacker.attack(&defender);
    let result = match result {
        Ok(x) => x,
        Err(_) => panic!("Expected a result with Ok value"),
    };
    assert_eq!(result.actual_damage, 3);
}

#[test]
pub fn attack_returns_error_when_attacker_has_no_attack_left() {
    let defender = Unit::new(5, 0, 0, 0, 1, 0, 0, 0);
    let attacker = Unit::new(0, 4, 0, 0, 0, 0, 0, 0);

    let result = attacker.attack(&defender);
    match result {
        Ok(_) => panic!("Expected a result with Error value"),
        Err(_) => {}
    };
}

#[test]
pub fn can_move_returns_ok_with_remaining_distance_if_distance_is_below_or_equal_to_remaining_range(
) {
    let unit = Unit::new(0, 0, 0, 0, 0, 0, 5, 0);
    let result = unit.can_move(4);
    match result {
        CanMove::Yes(remaining_range) => assert_eq!(remaining_range, 1),
        _ => panic!("Expected result of Yes"),
    }

    let result = unit.can_move(5);
    match result {
        CanMove::Yes(remaining_range) => assert_eq!(remaining_range, 0),
        _ => panic!("Expected result of Yes"),
    }
}

#[test]
pub fn can_move_returns_no_if_distance_is_higher_than_remaining_range() {
    let unit = Unit::new(0, 0, 0, 0, 0, 0, 4, 0);
    let result = unit.can_move(5);
    match result {
        CanMove::No => {}
        _ => panic!("Expected result of No"),
    };
}

#[test]
pub fn can_move_returns_no_if_distance_is_0() {
    let unit = Unit::new(0, 0, 0, 0, 0, 0, 4, 0);
    let result = unit.can_move(0);
    match result {
        CanMove::No => {}
        _ => panic!("Expected result of No"),
    };
}

#[test]
pub fn can_attack_returns_true_if_distance_is_inside_range() {
    let unit = Unit::new(0, 0, 2, 1, 0, 0, 0, 0);
    assert!(unit.can_attack(1));
    assert!(unit.can_attack(2));
}

#[test]
pub fn can_attack_returns_false_if_distance_is_outside_range() {
    let unit = Unit::new(0, 0, 2, 2, 0, 0, 0, 0);
    assert!(!unit.can_attack(3));
    assert!(!unit.can_attack(1));
}

#[test]
fn attack_keeps_the_other_values_of_both_units() {
    let defender = Unit::new(9, 3, 4, 1, 2, 6, 5, 1);
    let attacker = Unit::new(7, 6, 3, 1, 1, 4, 3, 2);
    let result = attacker.attack(&defender).unwrap();
    assert_eq!(result.attacker, Unit::new(7, 6, 3, 1, 1, 4, 0, 1));
    assert_eq!(result.defender, Unit::new(5, 3, 4, 1, 2, 6, 5, 1));
    assert_eq!(attacker.attack(&Unit::new(1, 0, 0, 0, 0, 0, 0, 0)).unwrap().actual_damage, 6);
    let spent = Unit::new(7, 6, 3, 1, 1, 4, 3, -1);
    assert_eq!(spent.attack(&defender), Err(AttackError::NoAttacksLeft));
}

#[test]
fn attack_with_more_armor_than_damage_heals() {
    let defender = Unit::new(5, 0, 0, 0, 3, 0, 0, 0);
    let attacker = Unit::new(0, 1, 0, 0, 0, 0, 0, 1);
    let result = attacker.attack(&defender).unwrap();
    assert_eq!(result.actual_damage, -2);
    assert_eq!(result.defender.integrity, 7);
}

#[test]
fn can_move_returns_no_for_negative_distance() {
    let unit = Unit::new(0, 0, 0, 0, 0, 0, 4, 0);
    assert_eq!(unit.can_move(-1), CanMove::No);
}
