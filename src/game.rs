use vstd::prelude::*;
use rand::seq::SliceRandom;
use vstd::arithmetic::div_mod::{lemma_mod_self_0, lemma_small_mod};
use crate::card::{is_example_deck, Card, Deck};
use crate::combat::{
    after_damage, auto_attackers, blocks_from, blocks_of, distinct_blockers, auto_blockers, auto_blocks_spec, bury, casualties,
    damage_others, dies, lemma_dies_nonneg, position_set, ready_positions, resolve_combat,
    survivors, tap_positions, tap_positions_spec, tap_ready, unblocked_damage,
};
use crate::creature::{set_summoning_sickness, with_sickness};
use crate::rules::{cast_creatures, main_spec, play_land};
use crate::tappable::{is_tapped, set_tapped, with_tapped};

verus! {

/// The phases of a turn, in order, and the terminal `GameOver`.
#[derive(Clone, Copy, Debug, PartialEq, Eq, Structural)]
pub enum GameStep {
    StartTurn,
    Untap,
    Upkeep,
    Draw,
    Main,
    DeclareAttackers,
    DeclareBlockers,
    AssignDamage,
    EndTurn,
    GameOver,
}

/// The card containers of a player.
#[derive(Clone, Copy, Debug, PartialEq, Eq, Hash, Structural)]
pub enum Zone {
    Library,
    Hand,
    Battlefield,
    Graveyard,
    Exile,
}

/// One ordered sequence of cards per zone.
#[derive(Clone, Debug)]
pub struct Zones {
    pub library: Vec<Card>,
    pub hand: Vec<Card>,
    pub battlefield: Vec<Card>,
    pub graveyard: Vec<Card>,
    pub exile: Vec<Card>,
}

impl Zones {
    pub open spec fn spec_get(self, zone: Zone) -> Seq<Card> {
        match zone {
            Zone::Library => self.library@,
            Zone::Hand => self.hand@,
            Zone::Battlefield => self.battlefield@,
            Zone::Graveyard => self.graveyard@,
            Zone::Exile => self.exile@,
        }
    }

    pub fn get(&self, zone: Zone) -> (r: &Vec<Card>)
        ensures
            r@ == self.spec_get(zone),
    {
        match zone {
            Zone::Library => &self.library,
            Zone::Hand => &self.hand,
            Zone::Battlefield => &self.battlefield,
            Zone::Graveyard => &self.graveyard,
            Zone::Exile => &self.exile,
        }
    }
}

/// A participant: a life total and five zones.
#[derive(Clone, Debug)]
pub struct Player {
    pub life: i32,
    pub zones: Zones,
}

/// Cards dealt into a new player's opening hand.
pub const HAND_SIZE: usize = 7;

/// Life total of a new player.
pub const STARTING_LIFE: i32 = 20;

/// `p` is a new player dealt from `lib`: up to seven cards are drawn, one by one, from
/// the end of `lib` into the hand; life is 20 and the other zones are empty.
pub open spec fn dealt_from(lib: Seq<Card>, p: Player) -> bool {
    let n: int = if lib.len() < HAND_SIZE {
        lib.len() as int
    } else {
        HAND_SIZE as int
    };
    &&& p.life == STARTING_LIFE
    &&& p.zones.library@ == lib.take(lib.len() - n)
    &&& p.zones.hand@ == Seq::new(n as nat, |i: int| lib[lib.len() - 1 - i])
    &&& p.zones.battlefield@.len() == 0
    &&& p.zones.graveyard@.len() == 0
    &&& p.zones.exile@.len() == 0
}

/// `p` is a new player whose library is a shuffle of `deck`.
pub open spec fn fresh_from(deck: Seq<Card>, p: Player) -> bool {
    exists|lib: Seq<Card>| lib.to_multiset() == deck.to_multiset() && dealt_from(lib, p)
}

/// Relies on `rand::seq::SliceRandom::shuffle` with `rand::thread_rng`: the slice is
/// put in a random order by swapping elements, so it holds the same cards.
#[verifier::external_body]
fn shuffle_cards(cards: &mut Vec<Card>)
    ensures
        final(cards)@.to_multiset() == old(cards)@.to_multiset(),
{
    cards.shuffle(&mut rand::thread_rng());
}

impl Player {
    /// A new player whose library is `library` after up to seven cards are dealt from
    /// its end into the hand.
    pub fn from_library(library: Vec<Card>) -> (r: Player)
        ensures
            dealt_from(library@, r),
    {
        let ghost lib = library@;
        let mut library = library;
        let mut hand: Vec<Card> = Vec::new();
        let mut k: usize = 0;
        while k < HAND_SIZE
            invariant
                k <= HAND_SIZE,
                library@ == lib.take(lib.len() - if k < lib.len() { k as int } else { lib.len() as int }),
                hand@ == Seq::new(
                    (if k < lib.len() { k as int } else { lib.len() as int }) as nat,
                    |i: int| lib[lib.len() - 1 - i],
                ),
            decreases HAND_SIZE - k,
        {
            let ghost h = hand@;
            match library.pop() {
                Some(card) => {
                    hand.push(card);
                    assert(hand@ == Seq::new((k + 1) as nat, |i: int| lib[lib.len() - 1 - i]));
                },
                None => {},
            }
            k = k + 1;
        }
        Player {
            life: STARTING_LIFE,
            zones: Zones {
                library,
                hand,
                battlefield: Vec::new(),
                graveyard: Vec::new(),
                exile: Vec::new(),
            },
        }
    }

    /// A new player: a shuffled copy of `deck` as the library, seven cards dealt from it.
    pub fn new(deck: &Deck) -> (r: Player)
        ensures
            fresh_from(deck.cards@, r),
    {
        let mut library = deck.cards.clone();
        assert(library@ =~= deck.cards@);
        shuffle_cards(&mut library);
        let ghost lib = library@;
        let p = Player::from_library(library);
        assert(lib.to_multiset() == deck.cards@.to_multiset() && dealt_from(lib, p));
        p
    }
}

/// Untap every card of `bf`.
pub fn untap_all(bf: &mut Vec<Card>)
    ensures
        final(bf)@ == old(bf)@.map_values(|c: Card| with_tapped(c, false)),
{
    let ghost orig = bf@;
    let mut i: usize = 0;
    while i < bf.len()
        invariant
            bf@.len() == orig.len(),
            i <= orig.len(),
            forall|j: int| 0 <= j < i ==> bf@[j] == with_tapped(orig[j], false),
            forall|j: int| i <= j < orig.len() ==> bf@[j] == orig[j],
        decreases orig.len() - i,
    {
        if is_tapped(&bf[i]) {
            set_tapped(&mut bf[i], false);
        }
        i = i + 1;
    }
    assert(bf@ == orig.map_values(|c: Card| with_tapped(c, false)));
}

/// Clear summoning sickness on every card of `bf`.
pub fn clear_sickness(bf: &mut Vec<Card>)
    ensures
        final(bf)@ == old(bf)@.map_values(|c: Card| with_sickness(c, false)),
{
    let ghost orig = bf@;
    let mut i: usize = 0;
    while i < bf.len()
        invariant
            bf@.len() == orig.len(),
            i <= orig.len(),
            forall|j: int| 0 <= j < i ==> bf@[j] == with_sickness(orig[j], false),
            forall|j: int| i <= j < orig.len() ==> bf@[j] == orig[j],
        decreases orig.len() - i,
    {
        set_summoning_sickness(&mut bf[i], false);
        i = i + 1;
    }
    assert(bf@ == orig.map_values(|c: Card| with_sickness(c, false)));
}

/// Whether some player's life is at or below 0.
pub fn any_dead(players: &Vec<Player>) -> (r: bool)
    ensures
        r == exists|i: int| 0 <= i < players@.len() && #[trigger] players@[i].life <= 0,
{
    let mut i: usize = 0;
    while i < players.len()
        invariant
            i <= players@.len(),
            forall|k: int| 0 <= k < i ==> #[trigger] players@[k].life > 0,
        decreases players@.len() - i,
    {
        if players[i].life <= 0 {
            return true;
        }
        i = i + 1;
    }
    false
}

/// The whole state of a match.
#[derive(Clone, Debug)]
pub struct GameState {
    pub players: Vec<Player>,
    pub current_player_index: usize,
    pub turns: u32,
    pub step: GameStep,
    /// Battlefield positions of the active player's attacking creatures.
    pub attacking_creatures: Vec<usize>,
    /// (blocker position, attacker position) pairs on the active player's battlefield.
    pub blocking_map: Vec<(usize, usize)>,
    /// When false, the Main, DeclareAttackers and DeclareBlockers phases wait for a decision.
    pub auto_play: bool,
    pub waiting_for_main_decision: bool,
    pub waiting_for_attack_decision: bool,
    pub waiting_for_block_decision: bool,
}

/// `q` is `p` with the given zone contents, the same life and the same exile.
pub open spec fn player_with(
    p: Player,
    q: Player,
    library: Seq<Card>,
    hand: Seq<Card>,
    battlefield: Seq<Card>,
    graveyard: Seq<Card>,
) -> bool {
    &&& q.life == p.life
    &&& q.zones.library@ == library
    &&& q.zones.hand@ == hand
    &&& q.zones.battlefield@ == battlefield
    &&& q.zones.graveyard@ == graveyard
    &&& q.zones.exile@ == p.zones.exile@
}

impl GameState {
    /// The active player's index is in range.
    pub open spec fn wf(self) -> bool {
        self.current_player_index < self.players@.len()
    }

    pub open spec fn cur(self) -> Player {
        self.players@[self.current_player_index as int]
    }

    pub open spec fn cur_zones(self) -> Zones {
        self.cur().zones
    }

    /// All fields but the players and the step are equal.
    pub open spec fn same_control(pre: GameState, post: GameState) -> bool {
        &&& post.current_player_index == pre.current_player_index
        &&& post.turns == pre.turns
        &&& post.attacking_creatures@ == pre.attacking_creatures@
        &&& post.blocking_map@ == pre.blocking_map@
        &&& post.auto_play == pre.auto_play
        &&& post.waiting_for_main_decision == pre.waiting_for_main_decision
        &&& post.waiting_for_attack_decision == pre.waiting_for_attack_decision
        &&& post.waiting_for_block_decision == pre.waiting_for_block_decision
    }

    /// Every player other than the active one is unchanged.
    pub open spec fn others_kept(pre: GameState, post: GameState) -> bool {
        &&& post.players@.len() == pre.players@.len()
        &&& forall|i: int|
            0 <= i < pre.players@.len() && i != pre.current_player_index ==> post.players@[i]
                == pre.players@[i]
    }

    /// Only the active player's battlefield changes, to `bf`.
    pub open spec fn battlefield_becomes(pre: GameState, post: GameState, bf: Seq<Card>) -> bool {
        &&& GameState::others_kept(pre, post)
        &&& player_with(
            pre.cur(),
            post.cur(),
            pre.cur_zones().library@,
            pre.cur_zones().hand@,
            bf,
            pre.cur_zones().graveyard@,
        )
    }

    /// The players are unchanged.
    pub open spec fn players_kept(pre: GameState, post: GameState) -> bool {
        post.players@ == pre.players@
    }

    /// One step from the Untap phase.
    pub open spec fn untap_post(pre: GameState, post: GameState) -> bool {
        &&& GameState::battlefield_becomes(
            pre,
            post,
            pre.cur_zones().battlefield@.map_values(|c: Card| with_tapped(c, false)),
        )
        &&& GameState::same_control(pre, post)
        &&& post.step == GameStep::Upkeep
    }

    /// One step from the Upkeep phase.
    pub open spec fn upkeep_post(pre: GameState, post: GameState) -> bool {
        &&& GameState::battlefield_becomes(
            pre,
            post,
            pre.cur_zones().battlefield@.map_values(|c: Card| with_sickness(c, false)),
        )
        &&& GameState::same_control(pre, post)
        &&& post.step == GameStep::Draw
    }

    /// One step from the Draw phase.
    pub open spec fn draw_post(pre: GameState, post: GameState) -> bool {
        let lib = pre.cur_zones().library@;
        &&& GameState::same_control(pre, post)
        &&& if lib.len() == 0 {
            &&& GameState::players_kept(pre, post)
            &&& post.step == GameStep::GameOver
        } else {
            &&& GameState::others_kept(pre, post)
            &&& player_with(
                pre.cur(),
                post.cur(),
                lib.drop_last(),
                pre.cur_zones().hand@.push(lib.last()),
                pre.cur_zones().battlefield@,
                pre.cur_zones().graveyard@,
            )
            &&& post.step == GameStep::Main
        }
    }

    /// One step from the Main phase.
    pub open spec fn main_post(pre: GameState, post: GameState) -> bool {
        if pre.auto_play {
            let (hand, bf) = main_spec(pre.cur_zones().hand@, pre.cur_zones().battlefield@);
            &&& GameState::others_kept(pre, post)
            &&& player_with(
                pre.cur(),
                post.cur(),
                pre.cur_zones().library@,
                hand,
                bf,
                pre.cur_zones().graveyard@,
            )
            &&& GameState::same_control(pre, post)
            &&& post.step == GameStep::DeclareAttackers
        } else {
            &&& GameState::players_kept(pre, post)
            &&& post.current_player_index == pre.current_player_index
            &&& post.turns == pre.turns
            &&& post.attacking_creatures@ == pre.attacking_creatures@
            &&& post.blocking_map@ == pre.blocking_map@
            &&& post.auto_play == pre.auto_play
            &&& post.waiting_for_attack_decision == pre.waiting_for_attack_decision
            &&& post.waiting_for_block_decision == pre.waiting_for_block_decision
            &&& post.waiting_for_main_decision == !pre.waiting_for_main_decision
            &&& post.step == if pre.waiting_for_main_decision {
                GameStep::DeclareAttackers
            } else {
                GameStep::Main
            }
        }
    }

    /// One step from the DeclareAttackers phase.
    pub open spec fn attack_post(pre: GameState, post: GameState) -> bool {
        &&& post.current_player_index == pre.current_player_index
        &&& post.turns == pre.turns
        &&& post.blocking_map@ == pre.blocking_map@
        &&& post.auto_play == pre.auto_play
        &&& post.waiting_for_main_decision == pre.waiting_for_main_decision
        &&& post.waiting_for_block_decision == pre.waiting_for_block_decision
        &&& if pre.auto_play {
            &&& GameState::battlefield_becomes(pre, post, tap_ready(pre.cur_zones().battlefield@))
            &&& post.attacking_creatures@ == ready_positions(pre.cur_zones().battlefield@)
            &&& post.waiting_for_attack_decision == pre.waiting_for_attack_decision
            &&& post.step == GameStep::DeclareBlockers
        } else {
            &&& GameState::players_kept(pre, post)
            &&& post.attacking_creatures@ == pre.attacking_creatures@
            &&& post.waiting_for_attack_decision == !pre.waiting_for_attack_decision
            &&& post.step == if pre.waiting_for_attack_decision {
                GameStep::DeclareBlockers
            } else {
                GameStep::DeclareAttackers
            }
        }
    }

    /// One step from the DeclareBlockers phase.
    pub open spec fn block_post(pre: GameState, post: GameState) -> bool {
        &&& GameState::players_kept(pre, post)
        &&& post.current_player_index == pre.current_player_index
        &&& post.turns == pre.turns
        &&& post.attacking_creatures@ == pre.attacking_creatures@
        &&& post.auto_play == pre.auto_play
        &&& post.waiting_for_main_decision == pre.waiting_for_main_decision
        &&& post.waiting_for_attack_decision == pre.waiting_for_attack_decision
        &&& if pre.auto_play {
            &&& post.blocking_map@ == auto_blocks_spec(
                pre.cur_zones().battlefield@,
                pre.attacking_creatures@,
            )
            &&& post.waiting_for_block_decision == pre.waiting_for_block_decision
            &&& post.step == GameStep::AssignDamage
        } else {
            &&& post.blocking_map@ == pre.blocking_map@
            &&& post.waiting_for_block_decision == !pre.waiting_for_block_decision
            &&& post.step == if pre.waiting_for_block_decision {
                GameStep::AssignDamage
            } else {
                GameStep::DeclareBlockers
            }
        }
    }

    /// Positions of the active player's battlefield destroyed in combat.
    pub open spec fn doomed(self) -> Set<int> {
        Set::new(
            |j: int|
                dies(
                    self.cur_zones().battlefield@,
                    self.attacking_creatures@,
                    self.blocking_map@,
                    j,
                ),
        )
    }

    /// Damage each opponent takes from the unblocked attackers.
    pub open spec fn combat_damage(self) -> int {
        unblocked_damage(
            self.cur_zones().battlefield@,
            self.attacking_creatures@,
            self.blocking_map@,
        )
    }

    /// One step from the AssignDamage phase.
    pub open spec fn damage_post(pre: GameState, post: GameState) -> bool {
        let bf = pre.cur_zones().battlefield@;
        let cur = pre.current_player_index as int;
        &&& post.players@.len() == pre.players@.len()
        &&& forall|i: int|
            0 <= i < pre.players@.len() && i != cur ==> {
                &&& (#[trigger] post.players@[i]).life == after_damage(
                    pre.players@[i].life,
                    pre.combat_damage(),
                )
                &&& post.players@[i].zones == pre.players@[i].zones
            }
        &&& player_with(
            pre.cur(),
            post.cur(),
            pre.cur_zones().library@,
            pre.cur_zones().hand@,
            survivors(bf, pre.doomed()),
            pre.cur_zones().graveyard@ + casualties(bf, pre.doomed()),
        )
        &&& post.attacking_creatures@.len() == 0
        &&& post.blocking_map@.len() == 0
        &&& post.current_player_index == pre.current_player_index
        &&& post.turns == pre.turns
        &&& post.auto_play == pre.auto_play
        &&& post.waiting_for_main_decision == pre.waiting_for_main_decision
        &&& post.waiting_for_attack_decision == pre.waiting_for_attack_decision
        &&& post.waiting_for_block_decision == pre.waiting_for_block_decision
        &&& post.step == if exists|i: int| 0 <= i < post.players@.len() && #[trigger] post.players@[i].life <= 0 {
            GameStep::GameOver
        } else {
            GameStep::EndTurn
        }
    }

    /// The relation between the state before and after one call of `step`.
    pub open spec fn step_spec(pre: GameState, post: GameState) -> bool {
        match pre.step {
            GameStep::StartTurn => {
                &&& GameState::players_kept(pre, post)
                &&& post.current_player_index == pre.current_player_index
                &&& post.turns == if pre.turns < u32::MAX {
                    (pre.turns + 1) as u32
                } else {
                    pre.turns
                }
                &&& post.attacking_creatures@ == pre.attacking_creatures@
                &&& post.blocking_map@ == pre.blocking_map@
                &&& post.auto_play == pre.auto_play
                &&& post.waiting_for_main_decision == pre.waiting_for_main_decision
                &&& post.waiting_for_attack_decision == pre.waiting_for_attack_decision
                &&& post.waiting_for_block_decision == pre.waiting_for_block_decision
                &&& post.step == GameStep::Untap
            },
            GameStep::Untap => GameState::untap_post(pre, post),
            GameStep::Upkeep => GameState::upkeep_post(pre, post),
            GameStep::Draw => GameState::draw_post(pre, post),
            GameStep::Main => GameState::main_post(pre, post),
            GameStep::DeclareAttackers => GameState::attack_post(pre, post),
            GameStep::DeclareBlockers => GameState::block_post(pre, post),
            GameStep::AssignDamage => GameState::damage_post(pre, post),
            GameStep::EndTurn => {
                &&& GameState::players_kept(pre, post)
                &&& post.current_player_index as int == (pre.current_player_index as int + 1)
                    % (pre.players@.len() as int)
                &&& post.turns == pre.turns
                &&& post.attacking_creatures@ == pre.attacking_creatures@
                &&& post.blocking_map@ == pre.blocking_map@
                &&& post.auto_play == pre.auto_play
                &&& post.waiting_for_main_decision == pre.waiting_for_main_decision
                &&& post.waiting_for_attack_decision == pre.waiting_for_attack_decision
                &&& post.waiting_for_block_decision == pre.waiting_for_block_decision
                &&& post.step == GameStep::StartTurn
            },
            GameStep::GameOver => {
                &&& GameState::players_kept(pre, post)
                &&& GameState::same_control(pre, post)
                &&& post.step == GameStep::GameOver
            },
        }
    }
}

impl GameState {
    fn untap_phase(&mut self)
        requires
            old(self).wf(),
            old(self).step == GameStep::Untap,
        ensures
            GameState::step_spec(*old(self), *final(self)),
    {
        let cur = self.current_player_index;
        untap_all(&mut self.players[cur].zones.battlefield);
        self.step = GameStep::Upkeep;
    }

    fn upkeep_phase(&mut self)
        requires
            old(self).wf(),
            old(self).step == GameStep::Upkeep,
        ensures
            GameState::step_spec(*old(self), *final(self)),
    {
        let cur = self.current_player_index;
        clear_sickness(&mut self.players[cur].zones.battlefield);
        self.step = GameStep::Draw;
    }

    fn draw_phase(&mut self)
        requires
            old(self).wf(),
            old(self).step == GameStep::Draw,
        ensures
            GameState::step_spec(*old(self), *final(self)),
    {
        let cur = self.current_player_index;
        if self.players[cur].zones.library.len() == 0 {
            self.step = GameStep::GameOver;
        } else {
            let player = &mut self.players[cur];
            match player.zones.library.pop() {
                Some(card) => {
                    player.zones.hand.push(card);
                },
                None => {},
            }
            self.step = GameStep::Main;
        }
    }

    fn main_phase(&mut self)
        requires
            old(self).wf(),
            old(self).step == GameStep::Main,
        ensures
            GameState::step_spec(*old(self), *final(self)),
    {
        if self.auto_play {
            let cur = self.current_player_index;
            let player = &mut self.players[cur];
            play_land(&mut player.zones.hand, &mut player.zones.battlefield);
            cast_creatures(&mut player.zones.hand, &mut player.zones.battlefield);
            self.step = GameStep::DeclareAttackers;
        } else if !self.waiting_for_main_decision {
            self.waiting_for_main_decision = true;
        } else {
            self.waiting_for_main_decision = false;
            self.step = GameStep::DeclareAttackers;
        }
    }

    fn attack_phase(&mut self)
        requires
            old(self).wf(),
            old(self).step == GameStep::DeclareAttackers,
        ensures
            GameState::step_spec(*old(self), *final(self)),
    {
        if self.auto_play {
            let cur = self.current_player_index;
            let attackers = auto_attackers(&mut self.players[cur].zones.battlefield);
            self.attacking_creatures = attackers;
            self.step = GameStep::DeclareBlockers;
        } else if !self.waiting_for_attack_decision {
            self.waiting_for_attack_decision = true;
        } else {
            self.waiting_for_attack_decision = false;
            self.step = GameStep::DeclareBlockers;
        }
    }

    fn damage_phase(&mut self)
        requires
            old(self).wf(),
            old(self).step == GameStep::AssignDamage,
        ensures
            GameState::step_spec(*old(self), *final(self)),
    {
        let cur = self.current_player_index;
        let (doomed, damage) = resolve_combat(
            &self.players[cur].zones.battlefield,
            &self.attacking_creatures,
            &self.blocking_map,
        );
        assert(position_set(doomed@) =~= old(self).doomed()) by {
            assert forall|j: int| #[trigger]
                position_set(doomed@).contains(j) <==> old(self).doomed().contains(j) by {
                if 0 <= j <= usize::MAX {
                    assert(doomed@.contains(j as usize) <==> dies(
                        old(self).cur_zones().battlefield@,
                        old(self).attacking_creatures@,
                        old(self).blocking_map@,
                        (j as usize) as int,
                    ));
                } else if old(self).doomed().contains(j) {
                    lemma_dies_nonneg(
                        old(self).cur_zones().battlefield@,
                        old(self).attacking_creatures@,
                        old(self).blocking_map@,
                        j,
                    );
                }
            }
        }
        damage_others(&mut self.players, cur, damage, Ghost(old(self).combat_damage()));
        let player = &mut self.players[cur];
        bury(&mut player.zones.battlefield, &mut player.zones.graveyard, &doomed);
        self.attacking_creatures = Vec::new();
        self.blocking_map = Vec::new();
        if any_dead(&self.players) {
            self.step = GameStep::GameOver;
        } else {
            self.step = GameStep::EndTurn;
        }
        assert(self.players@.len() == old(self).players@.len());
        assert(forall|i: int|
            0 <= i < old(self).players@.len() && i != cur ==> {
                &&& #[trigger] self.players@[i].life == after_damage(
                    old(self).players@[i].life,
                    old(self).combat_damage(),
                )
                &&& self.players@[i].zones == old(self).players@[i].zones
            });
        assert(player_with(
            old(self).cur(),
            self.cur(),
            old(self).cur_zones().library@,
            old(self).cur_zones().hand@,
            survivors(old(self).cur_zones().battlefield@, old(self).doomed()),
            old(self).cur_zones().graveyard@ + casualties(old(self).cur_zones().battlefield@, old(self).doomed()),
        ));
    }

    fn block_phase(&mut self)
        requires
            old(self).wf(),
            old(self).step == GameStep::DeclareBlockers,
        ensures
            GameState::step_spec(*old(self), *final(self)),
    {
        if self.auto_play {
            let cur = self.current_player_index;
            let blocks = auto_blockers(
                &self.players[cur].zones.battlefield,
                &self.attacking_creatures,
            );
            self.blocking_map = blocks;
            self.step = GameStep::AssignDamage;
        } else if !self.waiting_for_block_decision {
            self.waiting_for_block_decision = true;
        } else {
            self.waiting_for_block_decision = false;
            self.step = GameStep::AssignDamage;
        }
    }
}

impl GameState {
    /// Advance exactly one phase. `GameOver` is absorbing.
    pub fn step(&mut self)
        requires
            old(self).wf(),
        ensures
            GameState::step_spec(*old(self), *final(self)),
            final(self).wf(),
    {
        match self.step {
            GameStep::StartTurn => {
                if self.turns < u32::MAX {
                    self.turns = self.turns + 1;
                }
                self.step = GameStep::Untap;
            },
            GameStep::Untap => self.untap_phase(),
            GameStep::Upkeep => self.upkeep_phase(),
            GameStep::Draw => self.draw_phase(),
            GameStep::Main => self.main_phase(),
            GameStep::DeclareAttackers => self.attack_phase(),
            GameStep::DeclareBlockers => self.block_phase(),
            GameStep::AssignDamage => self.damage_phase(),
            GameStep::EndTurn => {
                let n = self.players.len();
                let next = self.current_player_index + 1;
                self.current_player_index = if next == n {
                    0
                } else {
                    next
                };
                proof {
                    if next < n {
                        lemma_small_mod(next as nat, n as nat);
                    } else {
                        lemma_mod_self_0(n as int);
                    }
                }
                self.step = GameStep::StartTurn;
            },
            GameStep::GameOver => {},
        }
    }

    pub fn is_game_over(&self) -> (r: bool)
        ensures
            r == (self.step == GameStep::GameOver),
    {
        self.step == GameStep::GameOver
    }

    /// External decision: the active player attacks with the creatures at `positions`,
    /// which are tapped (positions past the end of the battlefield are skipped); the
    /// match moves on to DeclareBlockers.
    pub fn declare_attackers(&mut self, positions: Vec<usize>)
        requires
            old(self).wf(),
        ensures
            GameState::battlefield_becomes(
                *old(self),
                *final(self),
                tap_positions_spec(old(self).cur_zones().battlefield@, positions@),
            ),
            final(self).attacking_creatures@ == positions@,
            final(self).waiting_for_attack_decision == false,
            final(self).step == GameStep::DeclareBlockers,
            final(self).current_player_index == old(self).current_player_index,
            final(self).turns == old(self).turns,
            final(self).blocking_map@ == old(self).blocking_map@,
            final(self).auto_play == old(self).auto_play,
            final(self).waiting_for_main_decision == old(self).waiting_for_main_decision,
            final(self).waiting_for_block_decision == old(self).waiting_for_block_decision,
    {
        let cur = self.current_player_index;
        tap_positions(&mut self.players[cur].zones.battlefield, &positions);
        self.attacking_creatures = positions;
        self.waiting_for_attack_decision = false;
        self.step = GameStep::DeclareBlockers;
    }

    /// External decision: record the (blocker, attacker) pairs, in order, one per
    /// blocker (a later pair for the same blocker replaces the earlier one); the match
    /// moves on to AssignDamage.
    pub fn declare_blockers(&mut self, blocks: Vec<(usize, usize)>)
        requires
            old(self).wf(),
        ensures
            GameState::players_kept(*old(self), *final(self)),
            final(self).blocking_map@ == blocks_from(blocks@),
            distinct_blockers(final(self).blocking_map@),
            final(self).waiting_for_block_decision == false,
            final(self).step == GameStep::AssignDamage,
            final(self).current_player_index == old(self).current_player_index,
            final(self).turns == old(self).turns,
            final(self).attacking_creatures@ == old(self).attacking_creatures@,
            final(self).auto_play == old(self).auto_play,
            final(self).waiting_for_main_decision == old(self).waiting_for_main_decision,
            final(self).waiting_for_attack_decision == old(self).waiting_for_attack_decision,
    {
        self.blocking_map = blocks_of(&blocks);
        self.waiting_for_block_decision = false;
        self.step = GameStep::AssignDamage;
    }

    pub fn current_player(&self) -> (r: &Player)
        requires
            self.wf(),
        ensures
            *r == self.cur(),
    {
        &self.players[self.current_player_index]
    }

    pub fn current_player_mut(&mut self) -> (r: &mut Player)
        requires
            old(self).wf(),
        ensures
            *r == old(self).cur(),
            final(self).players@ == old(self).players@.update(
                old(self).current_player_index as int,
                *final(r),
            ),
            GameState::same_control(*old(self), *final(self)),
            final(self).step == old(self).step,
    {
        let cur = self.current_player_index;
        &mut self.players[cur]
    }

    /// The players other than the active one, in order.
    pub fn other_players(&self) -> (r: Vec<&Player>)
        requires
            self.wf(),
        ensures
            r@.len() + 1 == self.players@.len(),
            forall|i: int|
                0 <= i < r@.len() ==> *#[trigger] r@[i] == if i < self.current_player_index {
                    self.players@[i]
                } else {
                    self.players@[i + 1]
                },
    {
        let mut r: Vec<&Player> = Vec::new();
        let mut i: usize = 0;
        while i < self.players.len()
            invariant
                i <= self.players@.len(),
                self.current_player_index < self.players@.len(),
                r@.len() == if i <= self.current_player_index {
                    i as int
                } else {
                    i - 1
                },
                forall|k: int|
                    0 <= k < r@.len() ==> *#[trigger] r@[k] == if k < self.current_player_index {
                        self.players@[k]
                    } else {
                        self.players@[k + 1]
                    },
            decreases self.players@.len() - i,
        {
            if i != self.current_player_index {
                r.push(&self.players[i]);
            }
            i = i + 1;
        }
        r
    }

    /// The active player's zones.
    pub fn zones(&self) -> (r: &Zones)
        requires
            self.wf(),
        ensures
            *r == self.cur_zones(),
    {
        &self.players[self.current_player_index].zones
    }

    pub fn zones_mut(&mut self) -> (r: &mut Zones)
        requires
            old(self).wf(),
        ensures
            *r == old(self).cur_zones(),
            final(self).players@.len() == old(self).players@.len(),
            final(self).cur().zones == *final(r),
            final(self).cur().life == old(self).cur().life,
            GameState::others_kept(*old(self), *final(self)),
            GameState::same_control(*old(self), *final(self)),
            final(self).step == old(self).step,
    {
        let cur = self.current_player_index;
        &mut self.players[cur].zones
    }

    /// The active player's life.
    pub fn life(&self) -> (r: i32)
        requires
            self.wf(),
        ensures
            r == self.cur().life,
    {
        self.players[self.current_player_index].life
    }

    /// Set the active player's life.
    pub fn set_life(&mut self, life: i32)
        requires
            old(self).wf(),
        ensures
            final(self).cur().life == life,
            final(self).cur().zones == old(self).cur().zones,
            GameState::others_kept(*old(self), *final(self)),
            GameState::same_control(*old(self), *final(self)),
            final(self).step == old(self).step,
    {
        let cur = self.current_player_index;
        self.players[cur].life = life;
    }
}

impl GameState {
    /// A new match of `player_count` players (at least two) each with a shuffled copy
    /// of `deck`; the first player starts, with auto-play on.
    pub fn new(player_count: usize, deck: &Deck) -> (r: GameState)
        ensures
            r.players@.len() == if player_count < 2 {
                2
            } else {
                player_count
            },
            forall|i: int| 0 <= i < r.players@.len() ==> fresh_from(deck.cards@, #[trigger] r.players@[i]),
            r.wf(),
            r.current_player_index == 0,
            r.turns == 0,
            r.step == GameStep::StartTurn,
            r.attacking_creatures@.len() == 0,
            r.blocking_map@.len() == 0,
            r.auto_play,
            !r.waiting_for_main_decision,
            !r.waiting_for_attack_decision,
            !r.waiting_for_block_decision,
    {
        let count = if player_count < 2 {
            2
        } else {
            player_count
        };
        let mut players: Vec<Player> = Vec::new();
        let mut i: usize = 0;
        while i < count
            invariant
                i <= count,
                players@.len() == i,
                forall|j: int| 0 <= j < i ==> fresh_from(deck.cards@, #[trigger] players@[j]),
            decreases count - i,
        {
            players.push(Player::new(deck));
            i = i + 1;
        }
        GameState {
            players,
            current_player_index: 0,
            turns: 0,
            step: GameStep::StartTurn,
            attacking_creatures: Vec::new(),
            blocking_map: Vec::new(),
            auto_play: true,
            waiting_for_main_decision: false,
            waiting_for_attack_decision: false,
            waiting_for_block_decision: false,
        }
    }

    /// A new two-player match with the example deck.
    pub fn new_default() -> (r: GameState)
        ensures
            r.players@.len() == 2,
            exists|cards: Seq<Card>|
                is_example_deck(cards) && forall|i: int|
                    0 <= i < 2 ==> fresh_from(cards, #[trigger] r.players@[i]),
            r.wf(),
            r.current_player_index == 0,
            r.turns == 0,
            r.step == GameStep::StartTurn,
            r.attacking_creatures@.len() == 0,
            r.blocking_map@.len() == 0,
            r.auto_play,
            !r.waiting_for_main_decision,
            !r.waiting_for_attack_decision,
            !r.waiting_for_block_decision,
    {
        let deck = Deck::example();
        let r = GameState::new(2, &deck);
        assert(is_example_deck(deck.cards@) && forall|i: int|
            0 <= i < 2 ==> fresh_from(deck.cards@, #[trigger] r.players@[i]));
        r
    }
}

} // verus!
