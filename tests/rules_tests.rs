use engine::card::{forest, grizzly_bears, Card};
use engine::combat::{auto_blockers, bury, lose_life, resolve_combat, DAMAGE_CAP};
use engine::creature::add_creature_fragment;
use engine::rules::{available_mana, cast_creatures, pay, play_land};
use engine::tappable::{is_tapped, set_tapped};

fn named(name: &str) -> Card {
    let mut c = forest();
    c.name = name.to_string();
    c
}

#[test]
fn lose_life_exact_and_clamped() {
    assert_eq!(lose_life(20, 2), 18);
    assert_eq!(lose_life(1, 3), -2);
    assert_eq!(lose_life(i32::MIN + 5, 10), i32::MIN);
    assert_eq!(lose_life(i32::MAX, DAMAGE_CAP), i32::MIN);
}

#[test]
fn available_mana_counts_untapped_lands() {
    let mut bf = vec![forest(), forest(), grizzly_bears(), forest()];
    set_tapped(&mut bf[1], true);
    assert_eq!(available_mana(&bf), 2);
}

#[test]
fn pay_taps_first_untapped_lands_in_order() {
    let mut bf = vec![forest(), grizzly_bears(), forest(), forest()];
    set_tapped(&mut bf[0], true);
    pay(&mut bf, 1);
    assert!(is_tapped(&bf[0]));
    assert!(!is_tapped(&bf[1]));
    assert!(is_tapped(&bf[2]));
    assert!(!is_tapped(&bf[3]));
    assert_eq!(available_mana(&bf), 1);
}

#[test]
fn play_land_takes_first_land() {
    let mut hand = vec![grizzly_bears(), named("A"), named("B")];
    let mut bf = Vec::new();
    play_land(&mut hand, &mut bf);
    assert_eq!(bf.len(), 1);
    assert_eq!(bf[0].name, "A");
    assert_eq!(hand.len(), 2);
    assert_eq!(hand[1].name, "B");
}

#[test]
fn cast_creatures_stops_when_unaffordable() {
    let mut expensive = grizzly_bears();
    expensive.cost = 5;
    expensive.name = "Big".to_string();
    let mut hand = vec![expensive, grizzly_bears()];
    let mut bf = vec![forest(), forest(), forest()];
    cast_creatures(&mut hand, &mut bf);
    assert_eq!(hand.len(), 1);
    assert_eq!(hand[0].name, "Big");
    assert_eq!(bf.len(), 4);
    assert_eq!(available_mana(&bf), 1);
}

#[test]
fn resolve_combat_reports_dead_and_damage() {
    let mut big = grizzly_bears();
    add_creature_fragment(&mut big, 4, 4);
    let bf = vec![grizzly_bears(), big, grizzly_bears(), grizzly_bears()];
    // 0 attacks blocked by 1 (only 0 dies); 2 and 3 attack unblocked.
    let (dead, damage) = resolve_combat(&bf, &vec![0, 2, 3], &vec![(1, 0)]);
    assert_eq!(dead, vec![0]);
    assert_eq!(damage, 4);
}

#[test]
fn auto_blockers_assign_each_blocker_once() {
    let attackers = vec![0, 1];
    let bf = vec![grizzly_bears(), grizzly_bears(), grizzly_bears()];
    let blocks = auto_blockers(&bf, &attackers);
    assert_eq!(blocks, vec![(2, 0)]);
}

#[test]
fn bury_moves_highest_position_first() {
    let mut bf = vec![named("A"), named("B"), named("C"), named("D")];
    let mut graveyard = vec![named("G")];
    bury(&mut bf, &mut graveyard, &vec![0, 2, 2]);
    let kept: Vec<&str> = bf.iter().map(|c| c.name.as_str()).collect();
    let gone: Vec<&str> = graveyard.iter().map(|c| c.name.as_str()).collect();
    assert_eq!(kept, vec!["B", "D"]);
    assert_eq!(gone, vec!["G", "C", "A"]);
}
