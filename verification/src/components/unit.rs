use vstd::prelude::*;

verus! {

/// The fighting values of a unit.
#[derive(Copy, Clone, Debug, PartialEq, Eq, Structural)]
pub struct Unit {
    pub integrity: i32,
    pub damage: i32,
    pub max_attack_range: i32,
    pub min_attack_range: i32,
    pub armor: i32,
    pub mobility: i32,
    pub remaining_range: i32,
    pub remaining_attacks: i32,
}

/// What an attack did to both units.
#[derive(Copy, Clone, Debug, PartialEq, Eq, Structural)]
pub struct AttackResult {
    pub actual_damage: i32,
    pub attacker: Unit,
    pub defender: Unit,
}

/// Why an attack was refused.
#[derive(Copy, Clone, Debug, PartialEq, Eq, Structural)]
pub enum AttackError {
    NoAttacksLeft,
}

/// Whether a unit can walk a distance, and the range it keeps if it can.
#[derive(Copy, Clone, Debug, PartialEq, Eq, Structural)]
pub enum CanMove {
    Yes(i32),
    No,
}

/// The damage an attack by `attacker` deals to `defender`: its damage less the armor.
pub open spec fn spec_damage(attacker: Unit, defender: Unit) -> int {
    attacker.damage - defender.armor
}

/// Whether the attack of `attacker` on `defender` stays inside `i32` arithmetic.
pub open spec fn attack_fits(attacker: Unit, defender: Unit) -> bool {
    &&& i32::MIN <= spec_damage(attacker, defender) <= i32::MAX
    &&& i32::MIN <= defender.integrity - spec_damage(attacker, defender) <= i32::MAX
}

/// The attacker after an attack: it has spent one attack and all of its range.
pub open spec fn spec_attacker_after(attacker: Unit) -> Unit {
    Unit { remaining_range: 0, remaining_attacks: (attacker.remaining_attacks - 1) as i32, ..attacker }
}

/// The defender after an attack: it has lost the damage from its integrity.
pub open spec fn spec_defender_after(attacker: Unit, defender: Unit) -> Unit {
    Unit { integrity: (defender.integrity - spec_damage(attacker, defender)) as i32, ..defender }
}

/// The outcome of `attacker` attacking `defender`.
pub open spec fn spec_attack(attacker: Unit, defender: Unit) -> Result<AttackResult, AttackError> {
    if attacker.remaining_attacks <= 0 {
        Err(AttackError::NoAttacksLeft)
    } else {
        Ok(
            AttackResult {
                actual_damage: spec_damage(attacker, defender) as i32,
                attacker: spec_attacker_after(attacker),
                defender: spec_defender_after(attacker, defender),
            },
        )
    }
}

/// Whether a unit with `remaining_range` left can walk `distance`, and what it keeps.
pub open spec fn spec_can_move(remaining_range: i32, distance: i32) -> CanMove {
    if distance > 0 && remaining_range >= distance {
        CanMove::Yes((remaining_range - distance) as i32)
    } else {
        CanMove::No
    }
}

impl Unit {
    pub fn new(
        integrity: i32,
        damage: i32,
        max_attack_range: i32,
        min_attack_range: i32,
        armor: i32,
        mobility: i32,
        remaining_range: i32,
        remaining_attacks: i32,
    ) -> (unit: Unit)
        ensures
            unit == (Unit {
                integrity,
                damage,
                max_attack_range,
                min_attack_range,
                armor,
                mobility,
                remaining_range,
                remaining_attacks,
            }),
    {
        Unit {
            integrity,
            damage,
            max_attack_range,
            min_attack_range,
            armor,
            mobility,
            remaining_range,
            remaining_attacks,
        }
    }

    /// Attacks `defender`; refused when no attack is left.
    pub fn attack(&self, defender: &Unit) -> (result: Result<AttackResult, AttackError>)
        requires
            self.remaining_attacks > 0 ==> attack_fits(*self, *defender),
        ensures
            result == spec_attack(*self, *defender),
    {
        if self.remaining_attacks <= 0 {
            Err(AttackError::NoAttacksLeft)
        } else {
            let actual_damage = self.damage - defender.armor;

            let mut attacker = *self;
            let mut defender = *defender;
            defender.integrity = defender.integrity - actual_damage;
            attacker.remaining_range = 0;
            attacker.remaining_attacks = attacker.remaining_attacks - 1;
            Ok(AttackResult { actual_damage, attacker, defender })
        }
    }

    /// Whether the unit can walk `distance` fields this round.
    pub fn can_move(&self, distance: i32) -> (result: CanMove)
        ensures
            result == spec_can_move(self.remaining_range, distance),
    {
        if distance > 0 && self.remaining_range >= distance {
            CanMove::Yes(self.remaining_range - distance)
        } else {
            CanMove::No
        }
    }

    /// Whether a target at `distance` is inside the unit's attack range.
    pub fn can_attack(&self, distance: i32) -> (result: bool)
        ensures
            result == (self.min_attack_range <= distance <= self.max_attack_range),
    {
        distance <= self.max_attack_range && distance >= self.min_attack_range
    }
}

/// An attack by a unit with attacks left spends one attack and all of the
/// attacker's range, and takes the attacker's damage less the defender's
/// armor from the defender's integrity; everything else stays. A unit with
/// no attack left is refused.
pub proof fn lemma_attack_outcome(attacker: Unit, defender: Unit)
    ensures
        attacker.remaining_attacks <= 0 ==> spec_attack(attacker, defender) is Err,
        attacker.remaining_attacks > 0 && attack_fits(attacker, defender) ==> {
            let result = spec_attack(attacker, defender)->Ok_0;
            &&& spec_attack(attacker, defender) is Ok
            &&& result.actual_damage == attacker.damage - defender.armor
            &&& result.attacker.remaining_attacks == attacker.remaining_attacks - 1
            &&& result.attacker.remaining_range == 0
            &&& result.attacker.integrity == attacker.integrity
            &&& result.attacker.mobility == attacker.mobility
            &&& result.defender.integrity == defender.integrity - (attacker.damage - defender.armor)
            &&& result.defender.remaining_attacks == defender.remaining_attacks
            &&& result.defender.remaining_range == defender.remaining_range
            &&& result.defender.mobility == defender.mobility
        },
{
}

} // verus!
