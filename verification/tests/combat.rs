use rogue_core::log::Messages;
use rogue_core::object::{Ai, Color, DeathCallback, Fighter, Object};

fn fighter(hp: i32, defense: i32, power: i32, on_death: DeathCallback) -> Fighter {
    Fighter { max_hp: 30, hp, defense, power, magic: 0, magic_defense: 0, on_death }
}

fn combatant(name: &str, hp: i32, defense: i32, power: i32, on_death: DeathCallback) -> Object {
    let mut o = Object::new(1, 1, 'c', name, Color::white(), true);
    o.alive = true;
    o.fighter = Some(fighter(hp, defense, power, on_death));
    o
}

#[test]
fn attack_truncates_integer_division() {
    // power 5 against defense 2: damage = 5 - 2/4 = 5, so hp 10 -> 5.
    let mut a = combatant("A", 10, 0, 5, DeathCallback::Monster);
    let mut b = combatant("B", 10, 2, 0, DeathCallback::Monster);
    let mut log = Messages::new();
    a.attack(&mut b, &mut log);
    assert_eq!(b.fighter.unwrap().hp, 5);
    assert!(b.alive);
    assert_eq!(log.len(), 1);
    assert_eq!(log.get(0).text, "A attacks B.");
}

#[test]
fn lethal_attack_makes_a_corpse() {
    let mut a = combatant("A", 10, 0, 20, DeathCallback::Monster);
    let mut b = combatant("B", 10, 0, 0, DeathCallback::Monster);
    let mut log = Messages::new();
    a.attack(&mut b, &mut log);
    assert!(!b.alive);
    assert!(!b.blocks);
    assert!(b.fighter.is_none());
    assert!(b.ai.is_none());
    assert_eq!(b.glyph, '%');
    assert_eq!(b.name, "Corpse of B");
    assert_eq!(log.len(), 2);
    assert_eq!(log.get(0).text, "A attacks B.");
    assert_eq!(log.get(1).text, "B dies!");
}

#[test]
fn high_defense_clamps_damage_to_zero() {
    // power 1 against defense 20: damage = 1 - 5 = -4, clamped to no effect.
    let mut a = combatant("A", 10, 0, 1, DeathCallback::Monster);
    let mut b = combatant("B", 10, 20, 0, DeathCallback::Monster);
    let mut log = Messages::new();
    a.attack(&mut b, &mut log);
    assert_eq!(b.fighter.unwrap().hp, 10);
    assert!(b.alive);
    assert_eq!(log.len(), 1);
    assert_eq!(log.get(0).text, "A attacks B but it has no effect!");
}

#[test]
fn lethal_damage_can_overshoot_below_zero() {
    let mut a = combatant("A", 10, 0, 20, DeathCallback::Monster);
    let mut b = combatant("B", 10, 0, 0, DeathCallback::Player);
    let mut log = Messages::new();
    a.attack(&mut b, &mut log);
    // the player death transition keeps the fighter: hp ends at 10 - 20.
    assert_eq!(b.fighter.unwrap().hp, -10);
    assert!(!b.alive);
    assert_eq!(b.glyph, '%');
    assert_eq!(b.color, Color::dark_red());
    assert_eq!(b.name, "B");
    assert_eq!(log.get(1).text, "You died!");
}

#[test]
fn take_damage_ignores_entities_without_fighter() {
    let mut o = Object::new(1, 1, 's', "husk", Color::white(), true);
    o.alive = true;
    let mut log = Messages::new();
    o.take_damage(5, &mut log);
    assert!(o.alive);
    assert_eq!(log.len(), 0);
}

#[test]
fn nonpositive_damage_leaves_hit_points() {
    let mut o = combatant("A", 7, 0, 0, DeathCallback::Monster);
    let mut log = Messages::new();
    o.take_damage(0, &mut log);
    assert_eq!(o.fighter.unwrap().hp, 7);
    assert!(o.alive);
}

#[test]
fn monster_kinds_carry_capabilities_independently() {
    let mut o = Object::new(2, 3, 'Z', "Zombie", Color::light_green(), true);
    assert!(o.fighter.is_none());
    assert!(o.ai.is_none());
    assert!(!o.alive);
    o.ai = Some(Ai::Basic);
    assert!(o.fighter.is_none());
    assert_eq!(o.pos(), (2, 3));
}
