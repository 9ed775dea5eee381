use engine::card::{forest, grizzly_bears, CardType, Deck};
use engine::command::{parse_command, ELoggingVerbosity, ProgramState, StepCommand};
use engine::creature::{
    add_creature_fragment, creature_stats, has_summoning_sickness, is_creature,
    remove_creature_fragment, set_summoning_sickness,
};
use engine::tappable::{is_tappable, is_tapped, set_tapped};

fn composition_and_type_mutation() {
    let f = forest();
    assert!(!is_creature(&f));
    assert!(creature_stats(&f).is_none());

    let mut g = grizzly_bears();
    assert!(is_creature(&g));
    assert!(creature_stats(&g).is_some());
    assert_eq!(creature_stats(&g).unwrap().power, 2);

    // removing the tag keeps the fragment
    g.remove_type(CardType::Creature);
    assert!(!g.is_type(CardType::Creature));

    remove_creature_fragment(&mut g);
    assert!(!is_creature(&g));
    assert!(creature_stats(&g).is_none());

    g.add_type(CardType::Creature);
    add_creature_fragment(&mut g, 3, 3);
    assert!(is_creature(&g));
    assert_eq!(creature_stats(&g).unwrap().power, 3);
}

#[test]
fn card_card_composition_and_type_mutation() {
    composition_and_type_mutation();
}

#[test]
fn main_card_composition_and_type_mutation() {
    composition_and_type_mutation();
}

#[test]
fn remove_then_add_type_keeps_fragments() {
    let mut g = grizzly_bears();
    let before = g.fragments;
    g.remove_type(CardType::Creature);
    assert!(!g.is_type(CardType::Creature));
    assert!(is_creature(&g));
    assert_eq!(g.fragments, before);
    g.add_type(CardType::Creature);
    assert!(g.is_type(CardType::Creature));
    assert!(!g.is_type(CardType::Land));
    assert_eq!(g.fragments, before);
}

#[test]
fn add_and_remove_type_are_idempotent() {
    let mut f = forest();
    f.add_type(CardType::Land);
    assert!(f.is_type(CardType::Land));
    f.remove_type(CardType::Creature);
    assert!(f.is_type(CardType::Land));
    assert!(!f.is_type(CardType::Creature));
    f.remove_type(CardType::Land);
    f.remove_type(CardType::Land);
    assert!(!f.is_type(CardType::Land));
}

#[test]
fn tag_without_fragment_is_creature_without_stats() {
    let mut f = forest();
    f.add_type(CardType::Creature);
    assert!(is_creature(&f));
    assert!(creature_stats(&f).is_none());
}

#[test]
fn fragment_without_tag_is_creature() {
    let mut f = forest();
    add_creature_fragment(&mut f, 1, 4);
    assert!(!f.is_type(CardType::Creature));
    assert!(is_creature(&f));
    let s = creature_stats(&f).unwrap();
    assert_eq!((s.power, s.toughness), (1, 4));
}

#[test]
fn sickness_needs_creature_fragment() {
    let mut f = forest();
    set_summoning_sickness(&mut f, true);
    assert!(!has_summoning_sickness(&f));
    let mut g = grizzly_bears();
    assert!(!has_summoning_sickness(&g));
    set_summoning_sickness(&mut g, true);
    assert!(has_summoning_sickness(&g));
    set_summoning_sickness(&mut g, false);
    assert!(!has_summoning_sickness(&g));
}

#[test]
fn tapping_needs_tappable_fragment() {
    let mut f = forest();
    assert!(is_tappable(&f));
    assert!(!is_tapped(&f));
    set_tapped(&mut f, true);
    assert!(is_tapped(&f));
    f.fragments.tappable = None;
    assert!(!is_tappable(&f));
    assert!(!is_tapped(&f));
    set_tapped(&mut f, true);
    assert!(!is_tapped(&f));
}

#[test]
fn example_deck_counts() {
    let d = Deck::example();
    assert_eq!(d.cards.len(), 60);
    assert_eq!(d.count(CardType::Land), 29);
    assert_eq!(d.count(CardType::Creature), 31);
    assert_eq!(d.cards[0].name, "Forest");
    assert_eq!(d.cards[59].name, "Grizzly Bears");
    assert_eq!(d.cards[59].cost, 2);
}

#[test]
fn parse_commands() {
    assert_eq!(parse_command("s"), StepCommand::StepPhase);
    assert_eq!(parse_command("t"), StepCommand::StepTurn);
    assert_eq!(parse_command("g"), StepCommand::RunGame);
    assert_eq!(parse_command("d"), StepCommand::RunDeck);
    assert_eq!(parse_command("r"), StepCommand::RunAll);
    assert_eq!(parse_command("q"), StepCommand::Quit);
    assert_eq!(parse_command("x"), StepCommand::Invalid);
    assert_eq!(parse_command(""), StepCommand::Invalid);
    assert_eq!(parse_command("ss"), StepCommand::Invalid);
    assert_eq!(ProgramState::new().step_mode, StepCommand::StepPhase);
}

#[test]
fn verbosity_levels() {
    assert_eq!(ELoggingVerbosity::Normal.level(), 2);
    assert_eq!(ELoggingVerbosity::from_level(0), ELoggingVerbosity::Error);
    assert_eq!(ELoggingVerbosity::from_level(3), ELoggingVerbosity::Verbose);
    assert_eq!(ELoggingVerbosity::from_level(9), ELoggingVerbosity::VeryVerbose);
    assert!(ELoggingVerbosity::Normal.allows(ELoggingVerbosity::Warning));
    assert!(ELoggingVerbosity::Normal.allows(ELoggingVerbosity::Normal));
    assert!(!ELoggingVerbosity::Normal.allows(ELoggingVerbosity::Verbose));
}
