use engine::card::{forest, grizzly_bears, Card, CardType, Deck};
use engine::creature::{add_creature_fragment, has_summoning_sickness, set_summoning_sickness};
use engine::game::{GameState, GameStep, Player, Zone, Zones};
use engine::sim::run_to_completion;
use engine::tappable::{is_tapped, set_tapped};

fn player(library: Vec<Card>, hand: Vec<Card>, battlefield: Vec<Card>) -> Player {
    Player {
        life: 20,
        zones: Zones { library, hand, battlefield, graveyard: Vec::new(), exile: Vec::new() },
    }
}

fn forests(n: usize) -> Vec<Card> {
    (0..n).map(|_| forest()).collect()
}

/// Two players; the first is active and owns the given zones.
fn match_with(library: Vec<Card>, hand: Vec<Card>, battlefield: Vec<Card>, step: GameStep) -> GameState {
    GameState {
        players: vec![player(library, hand, battlefield), player(forests(10), Vec::new(), Vec::new())],
        current_player_index: 0,
        turns: 0,
        step,
        attacking_creatures: Vec::new(),
        blocking_map: Vec::new(),
        auto_play: true,
        waiting_for_main_decision: false,
        waiting_for_attack_decision: false,
        waiting_for_block_decision: false,
    }
}

fn step_until(gs: &mut GameState, target: GameStep) {
    gs.step();
    while gs.step != target && !gs.is_game_over() {
        gs.step();
    }
}

fn lands(cards: &[Card]) -> usize {
    cards.iter().filter(|c| c.is_type(CardType::Land)).count()
}

#[test]
fn creature_without_sickness_deals_damage() {
    let mut g = grizzly_bears();
    add_creature_fragment(&mut g, 2, 2);
    set_summoning_sickness(&mut g, false);
    let mut gs = match_with(Vec::new(), Vec::new(), vec![g], GameStep::DeclareAttackers);
    step_until(&mut gs, GameStep::EndTurn);
    assert_eq!(gs.players[1].life, 18);
    assert_eq!(gs.players[0].life, 20);
}

#[test]
fn creature_with_sickness_does_not_deal_damage() {
    let mut g = grizzly_bears();
    set_summoning_sickness(&mut g, true);
    let mut gs = match_with(Vec::new(), Vec::new(), vec![g], GameStep::DeclareAttackers);
    step_until(&mut gs, GameStep::EndTurn);
    assert_eq!(gs.players[1].life, 20);
}

#[test]
fn summoning_sickness_cleared_on_upkeep() {
    let mut g = grizzly_bears();
    set_summoning_sickness(&mut g, true);
    let mut gs = match_with(Vec::new(), Vec::new(), vec![g], GameStep::Upkeep);
    gs.step();
    let bf = gs.zones().get(Zone::Battlefield);
    assert!(!has_summoning_sickness(&bf[0]));
    assert_eq!(gs.life(), 20);
}

#[test]
fn play_one_land_if_available() {
    let mut gs = match_with(Vec::new(), vec![forest()], Vec::new(), GameStep::Main);
    gs.step();
    assert_eq!(gs.zones().battlefield.len(), 1);
    assert_eq!(gs.life(), 20);
}

#[test]
fn play_as_many_creatures_as_possible() {
    // Four untapped lands pay for both two-cost creatures.
    let mut gs = match_with(
        Vec::new(),
        vec![grizzly_bears(), grizzly_bears()],
        forests(4),
        GameStep::Main,
    );
    gs.step();
    assert_eq!(gs.zones().battlefield.len(), 6);
    assert_eq!(lands(&gs.zones().battlefield), 4);
    assert_eq!(gs.zones().hand.len(), 0);
    assert_eq!(gs.life(), 20);
}

#[test]
fn multi_turn_summoning_sickness_flow() {
    let hand = vec![forest(), forest(), grizzly_bears()];
    let mut gs = match_with(forests(2), hand, vec![forest()], GameStep::StartTurn);

    // First turn: a land is played and the bears are cast, sick.
    step_until(&mut gs, GameStep::DeclareAttackers);
    assert_eq!(gs.zones().battlefield.len(), 3);
    step_until(&mut gs, GameStep::EndTurn);
    assert_eq!(
        gs.players[1].life, 20,
        "Creature with summoning sickness should not deal damage on the turn it was cast"
    );

    // The opponent's turn, then the first player's second turn.
    step_until(&mut gs, GameStep::EndTurn);
    assert_eq!(gs.current_player_index, 1);
    step_until(&mut gs, GameStep::EndTurn);
    assert_eq!(gs.current_player_index, 0);
    assert!(gs.players[1].life < 20, "Creature should deal damage after sickness cleared on upkeep");
    assert_eq!(gs.players[1].life, 18);
}

#[test]
fn casting_taps_forests_used_for_payment() {
    let mut gs = match_with(Vec::new(), vec![grizzly_bears()], forests(2), GameStep::Main);
    gs.step();
    let bf = &gs.zones().battlefield;
    assert_eq!(lands(bf), 2);
    assert_eq!(bf.iter().filter(|c| c.is_type(CardType::Creature)).count(), 1);
    let tapped = bf.iter().filter(|c| c.is_type(CardType::Land) && is_tapped(c)).count();
    assert_eq!(tapped, 2, "Both forests used to pay should be tapped");
    assert!(has_summoning_sickness(&bf[2]));
    assert_eq!(gs.life(), 20);
}

#[test]
fn untap_phase_clears_tapped_state() {
    let mut f = forest();
    set_tapped(&mut f, true);
    let mut gs = match_with(Vec::new(), Vec::new(), vec![f], GameStep::Untap);
    gs.step();
    assert!(!is_tapped(&gs.zones().battlefield[0]));
    assert_eq!(gs.life(), 20);
}

#[test]
fn untap_leaves_other_players_tapped() {
    let mut mine = forest();
    set_tapped(&mut mine, true);
    let mut theirs = forest();
    set_tapped(&mut theirs, true);
    let mut gs = match_with(Vec::new(), Vec::new(), vec![mine], GameStep::Untap);
    gs.players[1].zones.battlefield.push(theirs);
    gs.step();
    assert_eq!(gs.step, GameStep::Upkeep);
    assert!(!is_tapped(&gs.players[0].zones.battlefield[0]));
    assert!(is_tapped(&gs.players[1].zones.battlefield[0]));
}

#[test]
fn main_plays_at_most_one_land() {
    let mut gs = match_with(Vec::new(), forests(3), Vec::new(), GameStep::Main);
    gs.step();
    assert_eq!(gs.zones().battlefield.len(), 1);
    assert_eq!(gs.zones().hand.len(), 2);
    assert_eq!(gs.step, GameStep::DeclareAttackers);
}

#[test]
fn main_casts_first_affordable_creature_only() {
    // Three lands pay for one two-cost creature; the second stays in hand.
    let mut gs = match_with(Vec::new(), vec![grizzly_bears(), grizzly_bears()], forests(3), GameStep::Main);
    gs.step();
    assert_eq!(gs.zones().hand.len(), 1);
    let bf = &gs.zones().battlefield;
    assert_eq!(bf.len(), 4);
    assert_eq!(bf.iter().filter(|c| is_tapped(c)).count(), 2);
    assert!(is_tapped(&bf[0]) && is_tapped(&bf[1]) && !is_tapped(&bf[2]));
}

#[test]
fn creature_cast_once_two_lands_are_out() {
    // One land out, a land and a two-cost creature in hand: the land is played, then the creature cast.
    let mut gs = match_with(forests(5), vec![grizzly_bears(), forest()], vec![forest()], GameStep::Main);
    gs.step();
    assert_eq!(gs.zones().hand.len(), 0);
    let bf = &gs.zones().battlefield;
    assert_eq!(lands(bf), 2);
    assert_eq!(bf.len(), 3);
    assert_eq!(bf.iter().filter(|c| c.is_type(CardType::Land) && is_tapped(c)).count(), 2);
}

#[test]
fn creature_waits_for_second_land() {
    // One land out and only the creature in hand: nothing is cast until a land is drawn and played.
    let mut gs = match_with(vec![forest()], vec![grizzly_bears()], vec![forest()], GameStep::Main);
    gs.step();
    assert_eq!(gs.zones().hand.len(), 1);
    assert_eq!(gs.zones().battlefield.len(), 1);
    step_until(&mut gs, GameStep::EndTurn);
    // opponent's turn
    step_until(&mut gs, GameStep::EndTurn);
    step_until(&mut gs, GameStep::DeclareAttackers);
    assert_eq!(gs.current_player_index, 0);
    assert_eq!(gs.zones().hand.len(), 0);
    assert_eq!(lands(&gs.zones().battlefield), 2);
    assert_eq!(gs.zones().battlefield.len(), 3);
}

#[test]
fn draw_from_empty_library_ends_game() {
    let mut gs = match_with(Vec::new(), vec![forest()], Vec::new(), GameStep::Draw);
    gs.step();
    assert!(gs.is_game_over());
    assert_eq!(gs.zones().hand.len(), 1);
    assert_eq!(gs.life(), 20);
    assert_eq!(gs.players[1].life, 20);
    gs.step();
    assert!(gs.is_game_over());
}

#[test]
fn draw_moves_top_card_to_hand() {
    let mut gs = match_with(vec![forest(), grizzly_bears()], Vec::new(), Vec::new(), GameStep::Draw);
    gs.step();
    assert_eq!(gs.step, GameStep::Main);
    assert_eq!(gs.zones().library.len(), 1);
    assert_eq!(gs.zones().hand[0].name, "Grizzly Bears");
}

#[test]
fn unblocked_attacker_hits_every_opponent() {
    let mut gs = match_with(Vec::new(), Vec::new(), vec![grizzly_bears()], GameStep::DeclareAttackers);
    gs.players.push(player(Vec::new(), Vec::new(), Vec::new()));
    step_until(&mut gs, GameStep::EndTurn);
    assert_eq!(gs.players[0].life, 20);
    assert_eq!(gs.players[1].life, 18);
    assert_eq!(gs.players[2].life, 18);
    assert!(gs.attacking_creatures.is_empty());
    assert!(gs.blocking_map.is_empty());
}

#[test]
fn mutually_lethal_block_destroys_both() {
    let mut gs = match_with(Vec::new(), Vec::new(), vec![grizzly_bears(), grizzly_bears()], GameStep::DeclareAttackers);
    gs.auto_play = false;
    gs.declare_attackers(vec![0]);
    assert!(is_tapped(&gs.zones().battlefield[0]));
    assert_eq!(gs.step, GameStep::DeclareBlockers);
    gs.declare_blockers(vec![(1, 0)]);
    assert_eq!(gs.step, GameStep::AssignDamage);
    gs.step();
    assert_eq!(gs.step, GameStep::EndTurn);
    assert_eq!(gs.zones().battlefield.len(), 0);
    assert_eq!(gs.zones().graveyard.len(), 2);
    assert_eq!(gs.players[1].life, 20);
}

#[test]
fn auto_block_uses_creature_that_can_kill() {
    let mut attacker = grizzly_bears();
    add_creature_fragment(&mut attacker, 2, 3);
    let mut weak = grizzly_bears();
    add_creature_fragment(&mut weak, 2, 2);
    let mut strong = grizzly_bears();
    add_creature_fragment(&mut strong, 3, 5);
    set_summoning_sickness(&mut weak, true);
    set_summoning_sickness(&mut strong, true);
    let mut gs = match_with(Vec::new(), Vec::new(), vec![attacker, weak, strong], GameStep::DeclareAttackers);
    gs.step();
    assert_eq!(gs.attacking_creatures, vec![0]);
    gs.step();
    assert_eq!(gs.blocking_map, vec![(2, 0)]);
    gs.step();
    // The attacker dies, the blocker survives, no damage reaches the opponent.
    assert_eq!(gs.zones().battlefield.len(), 2);
    assert_eq!(gs.zones().graveyard.len(), 1);
    assert_eq!(gs.players[1].life, 20);
}

#[test]
fn stale_positions_are_skipped() {
    let mut gs = match_with(Vec::new(), Vec::new(), vec![grizzly_bears()], GameStep::DeclareAttackers);
    gs.auto_play = false;
    gs.declare_attackers(vec![0, 7]);
    gs.declare_blockers(vec![(9, 0)]);
    gs.step();
    // The only block names a position past the battlefield: the attacker is unblocked.
    assert_eq!(gs.players[1].life, 18);
    assert_eq!(gs.zones().battlefield.len(), 1);
    assert_eq!(gs.step, GameStep::EndTurn);
}

#[test]
fn lethal_damage_ends_game() {
    let mut gs = match_with(Vec::new(), Vec::new(), vec![grizzly_bears()], GameStep::DeclareAttackers);
    gs.players[1].life = 2;
    step_until(&mut gs, GameStep::EndTurn);
    assert!(gs.is_game_over());
    assert_eq!(gs.players[1].life, 0);
}

#[test]
fn waiting_for_decisions_without_auto_play() {
    let mut gs = match_with(Vec::new(), vec![forest()], Vec::new(), GameStep::Main);
    gs.auto_play = false;
    gs.step();
    assert_eq!(gs.step, GameStep::Main);
    assert!(gs.waiting_for_main_decision);
    gs.step();
    assert_eq!(gs.step, GameStep::DeclareAttackers);
    assert!(!gs.waiting_for_main_decision);
    assert_eq!(gs.zones().hand.len(), 1);
    gs.step();
    assert!(gs.waiting_for_attack_decision);
    assert_eq!(gs.step, GameStep::DeclareAttackers);
}

#[test]
fn end_turn_rotates_player_and_start_counts_turn() {
    let mut gs = match_with(Vec::new(), Vec::new(), Vec::new(), GameStep::EndTurn);
    gs.step();
    assert_eq!(gs.current_player_index, 1);
    assert_eq!(gs.step, GameStep::StartTurn);
    gs.step();
    assert_eq!(gs.turns, 1);
    assert_eq!(gs.step, GameStep::Untap);
    gs.step = GameStep::EndTurn;
    gs.step();
    assert_eq!(gs.current_player_index, 0);
}

#[test]
fn new_match_deals_opening_hands() {
    let gs = GameState::new_default();
    assert_eq!(gs.players.len(), 2);
    for p in &gs.players {
        assert_eq!(p.life, 20);
        assert_eq!(p.zones.hand.len(), 7);
        assert_eq!(p.zones.library.len(), 53);
        assert_eq!(p.zones.battlefield.len(), 0);
    }
    assert_eq!(gs.step, GameStep::StartTurn);
    assert!(gs.auto_play);
    assert_eq!(gs.other_players().len(), 1);
    let three = GameState::new(1, &Deck::example());
    assert_eq!(three.players.len(), 2);
    let many = GameState::new(4, &Deck::example());
    assert_eq!(many.players.len(), 4);
}

#[test]
fn new_player_library_is_shuffled() {
    let deck = Deck::example();
    let mut saw_forest_in_hand = false;
    for _ in 0..20 {
        let p = Player::new(&deck);
        let all = p.zones.library.len() + p.zones.hand.len();
        assert_eq!(all, 60);
        let land_count = p.zones.library.iter().chain(p.zones.hand.iter())
            .filter(|c| c.is_type(CardType::Land)).count();
        assert_eq!(land_count, 29);
        if p.zones.hand.iter().any(|c| c.is_type(CardType::Land)) {
            saw_forest_in_hand = true;
        }
    }
    assert!(saw_forest_in_hand);
}

#[test]
fn from_library_deals_from_the_top() {
    let lib = vec![forest(), forest(), grizzly_bears()];
    let p = Player::from_library(lib);
    assert_eq!(p.zones.library.len(), 0);
    assert_eq!(p.zones.hand.len(), 3);
    assert_eq!(p.zones.hand[0].name, "Grizzly Bears");
}

#[test]
fn run_to_completion_example_deck_many_trials() {
    let trials = 10000u32;
    let mut total: u64 = 0;
    for _ in 0..trials {
        let mut gs = GameState::new_default();
        let turns = run_to_completion(&mut gs);
        assert!(gs.is_game_over());
        assert!(turns > 0);
        // 53 library cards per player after the opening hands, plus the last turn.
        assert!(turns <= 107);
        total += turns as u64;
    }
    let average = total as f64 / trials as f64;
    assert!(average.is_finite());
    assert!(average > 0.0);
}

#[test]
fn stale_blocker_is_skipped_for_valid_one() {
    let mut gs = match_with(Vec::new(), Vec::new(), vec![grizzly_bears(), grizzly_bears()], GameStep::DeclareAttackers);
    gs.auto_play = false;
    gs.declare_attackers(vec![0]);
    gs.declare_blockers(vec![(9, 0), (1, 0)]);
    gs.step();
    assert_eq!(gs.players[1].life, 20);
    assert_eq!(gs.zones().graveyard.len(), 2);
}

#[test]
fn later_block_for_same_blocker_replaces_earlier() {
    let mut gs = match_with(Vec::new(), Vec::new(), vec![grizzly_bears(), grizzly_bears(), grizzly_bears()], GameStep::DeclareBlockers);
    gs.auto_play = false;
    gs.declare_blockers(vec![(2, 0), (1, 0), (2, 1)]);
    assert_eq!(gs.blocking_map, vec![(2, 1), (1, 0)]);
}
