//! Properties of the rules that hold for every card and every match state.
use vstd::prelude::*;
use vstd::multiset::Multiset;
use vstd::seq_lib::lemma_multiset_commutative;
use crate::card::{Card, CardType};
use crate::combat::{
    after_damage, blocker_of, casualties, ready_positions, ready_to_attack, survivors, tap_ready,
};
use crate::creature::{spec_is_creature, spec_power, spec_sick, spec_toughness, with_sickness};
use crate::game::{GameState, GameStep};
use crate::rules::{
    cast_all, cast_cost, cast_mana, castable_at, count_mana, first_in, is_first_in, is_mana, pay_spec, play_land_spec,
};
use crate::tappable::{spec_tapped, with_tapped};

verus! {

/// Removing a type tag and adding it back leaves the card tagged, with the same
/// fragments and the same other tags: tags and fragments are independent.
pub proof fn law_type_tag_round_trip(c: Card, t: CardType)
    ensures
        c.spec_remove_type(t).spec_add_type(t).has_type(t),
        c.spec_remove_type(t).fragments == c.fragments,
        c.spec_remove_type(t).spec_add_type(t).fragments == c.fragments,
        forall|u: CardType|
            u != t ==> c.spec_remove_type(t).spec_add_type(t).has_type(u) == c.has_type(u),
{
}

proof fn lemma_first_exists(n: int, p: spec_fn(int) -> bool, i: int)
    requires
        0 <= i < n,
        p(i),
    ensures
        exists|k: int| is_first_in(n, p, k),
    decreases i,
{
    if exists|j: int| 0 <= j < i && #[trigger] p(j) {
        let j = choose|j: int| 0 <= j < i && #[trigger] p(j);
        lemma_first_exists(n, p, j);
    } else {
        assert(is_first_in(n, p, i));
    }
}

/// What casting does to the battlefield: the cards already there keep their creature
/// fragment, and every card added is summoning sick or has no creature fragment.
proof fn lemma_cast_all_sick(h: Seq<Card>, b: Seq<Card>)
    ensures
        cast_all(h, b).1.len() >= b.len(),
        forall|p: int| 0 <= p < b.len() ==> #[trigger] cast_all(h, b).1[p].fragments.creature
            == b[p].fragments.creature,
        forall|p: int|
            b.len() <= p < cast_all(h, b).1.len() ==> spec_sick(#[trigger] cast_all(h, b).1[p])
                || cast_all(h, b).1[p].fragments.creature is None,
    decreases h.len(),
{
    let i = first_in(h.len() as int, castable_at(h, count_mana(b)));
    if 0 <= i < h.len() {
        let c = h[i];
        let b2 = pay_spec(b, c.cost as nat).push(with_sickness(c, true));
        lemma_cast_all_sick(h.remove(i), b2);
        assert(cast_all(h, b) == cast_all(h.remove(i), b2));
        assert forall|p: int| 0 <= p < b.len() implies #[trigger] cast_all(h, b).1[p].fragments.creature
            == b[p].fragments.creature by {
            assert(b2[p] == pay_spec(b, c.cost as nat)[p]);
        }
        assert forall|p: int| b.len() <= p < cast_all(h, b).1.len() implies spec_sick(
            #[trigger] cast_all(h, b).1[p],
        ) || cast_all(h, b).1[p].fragments.creature is None by {
            if p == b.len() {
                assert(b2[p] == with_sickness(c, true));
            }
        }
    }
}

/// When casting stops, no creature left in the hand is affordable.
proof fn lemma_cast_all_exhausts(h: Seq<Card>, b: Seq<Card>)
    ensures
        forall|i: int|
            0 <= i < cast_all(h, b).0.len() ==> !#[trigger] castable_at(
                cast_all(h, b).0,
                count_mana(cast_all(h, b).1),
            )(i),
    decreases h.len(),
{
    let p = castable_at(h, count_mana(b));
    let i = first_in(h.len() as int, p);
    if 0 <= i < h.len() {
        let c = h[i];
        let b2 = pay_spec(b, c.cost as nat).push(with_sickness(c, true));
        lemma_cast_all_exhausts(h.remove(i), b2);
        assert(cast_all(h, b) == cast_all(h.remove(i), b2));
    } else {
        assert forall|k: int| 0 <= k < h.len() implies !#[trigger] p(k) by {
            if p(k) {
                lemma_first_exists(h.len() as int, p, k);
            }
        }
    }
}

proof fn lemma_ready_positions(bf: Seq<Card>, p: usize)
    requires
        ready_positions(bf).contains(p),
        bf.len() <= usize::MAX,
    ensures
        (p as int) < bf.len(),
        ready_to_attack(bf[p as int]),
    decreases bf.len(),
{
    let r = ready_positions(bf.drop_last());
    let w = choose|w: int| 0 <= w < ready_positions(bf).len() && ready_positions(bf)[w] == p;
    let tail: Seq<usize> = if ready_to_attack(bf.last()) {
        seq![(bf.len() - 1) as usize]
    } else {
        seq![]
    };
    assert(ready_positions(bf) == r + tail);
    if w < r.len() {
        assert(r[w] == p);
        lemma_ready_positions(bf.drop_last(), p);
        assert(bf.drop_last()[p as int] == bf[p as int]);
    } else {
        assert(tail.len() > 0);
        assert(ready_to_attack(bf.last()));
        assert(tail[w - r.len()] == p);
        assert(p as int == bf.len() - 1);
    }
}

proof fn lemma_ready_positions_complete(bf: Seq<Card>, p: int)
    requires
        0 <= p < bf.len(),
        bf.len() <= usize::MAX,
        ready_to_attack(bf[p]),
    ensures
        ready_positions(bf).contains(p as usize),
    decreases bf.len(),
{
    let r = ready_positions(bf.drop_last());
    let tail: Seq<usize> = if ready_to_attack(bf.last()) {
        seq![(bf.len() - 1) as usize]
    } else {
        seq![]
    };
    assert(ready_positions(bf) == r + tail);
    if p < bf.len() - 1 {
        assert(bf.drop_last()[p] == bf[p]);
        lemma_ready_positions_complete(bf.drop_last(), p);
        let w = choose|w: int| 0 <= w < r.len() && r[w] == p as usize;
        assert((r + tail)[w] == p as usize);
    } else {
        assert((r + tail)[r.len() as int] == p as usize);
    }
}

/// Under auto-play the attackers are exactly the active player's cards that are
/// Creature-tagged, untapped and not summoning sick, and they become tapped.
pub proof fn law_auto_attackers(s: GameState, t: GameState)
    requires
        s.wf(),
        s.step == GameStep::DeclareAttackers,
        s.auto_play,
        GameState::step_spec(s, t),
    ensures
        forall|p: int|
            0 <= p < s.cur_zones().battlefield@.len() ==> (t.attacking_creatures@.contains(
                p as usize,
            ) <==> ready_to_attack(#[trigger] s.cur_zones().battlefield@[p])),
        forall|p: int|
            0 <= p < s.cur_zones().battlefield@.len() && ready_to_attack(
                #[trigger] s.cur_zones().battlefield@[p],
            ) ==> spec_tapped(t.cur_zones().battlefield@[p]) == (
            s.cur_zones().battlefield@[p].fragments.tappable is Some),
{
    let bf = s.cur_zones().battlefield@;
    assert(s.cur_zones().battlefield.len() == bf.len());
    assert forall|p: int| 0 <= p < bf.len() implies (t.attacking_creatures@.contains(p as usize)
        <==> ready_to_attack(#[trigger] bf[p])) by {
        if ready_to_attack(bf[p]) {
            lemma_ready_positions_complete(bf, p);
        }
        if t.attacking_creatures@.contains(p as usize) {
            lemma_ready_positions(bf, p as usize);
        }
    }
}

/// Under auto-play, a creature cast in a Main phase does not attack in the combat of
/// that turn unless it has no creature fragment, and then its power is 0: it deals no
/// damage as an attacker. The cast cards are those past the battlefield's length after
/// the land play.
pub proof fn law_new_creatures_do_not_attack(s0: GameState, s1: GameState, s2: GameState)
    requires
        s0.wf(),
        s0.step == GameStep::Main,
        s0.auto_play,
        GameState::step_spec(s0, s1),
        GameState::step_spec(s1, s2),
    ensures
        forall|p: int|
            play_land_spec(s0.cur_zones().hand@, s0.cur_zones().battlefield@).1.len() <= p
                < s1.cur_zones().battlefield@.len() && s2.attacking_creatures@.contains(
                p as usize,
            ) ==> spec_power(#[trigger] s2.cur_zones().battlefield@[p]) == 0,
{
    let (h1, b1) = play_land_spec(s0.cur_zones().hand@, s0.cur_zones().battlefield@);
    lemma_cast_all_sick(h1, b1);
    let bf1 = s1.cur_zones().battlefield@;
    assert forall|p: int|
        b1.len() <= p < bf1.len() && s2.attacking_creatures@.contains(
            p as usize,
        ) implies spec_power(#[trigger] s2.cur_zones().battlefield@[p]) == 0 by {
        assert(bf1 == cast_all(h1, b1).1);
        assert(s1.cur_zones().battlefield.len() == bf1.len());
        assert((p as usize) as int == p);
        lemma_ready_positions(bf1, p as usize);
        assert(!spec_sick(bf1[p]));
        assert(bf1[p].fragments.creature is None);
        assert(s2.cur_zones().battlefield@ == tap_ready(bf1));
    }
}

/// After an Upkeep phase no card on the active player's battlefield is summoning sick:
/// every untapped Creature-tagged card there is ready to attack.
pub proof fn law_upkeep_clears_sickness(s: GameState, t: GameState)
    requires
        s.wf(),
        s.step == GameStep::Upkeep,
        GameState::step_spec(s, t),
    ensures
        forall|p: int|
            0 <= p < t.cur_zones().battlefield@.len() ==> !spec_sick(
                #[trigger] t.cur_zones().battlefield@[p],
            ),
        forall|p: int|
            0 <= p < t.cur_zones().battlefield@.len() && (#[trigger] t.cur_zones().battlefield@[
                p
            ]).has_type(CardType::Creature) && !spec_tapped(t.cur_zones().battlefield@[p])
                ==> ready_to_attack(t.cur_zones().battlefield@[p]),
{
}

/// Untap changes only the active player's battlefield, where every card ends untapped;
/// every other player is unchanged.
pub proof fn law_untap_only_active(s: GameState, t: GameState)
    requires
        s.wf(),
        s.step == GameStep::Untap,
        GameState::step_spec(s, t),
    ensures
        forall|i: int|
            0 <= i < s.players@.len() && i != s.current_player_index ==> #[trigger] t.players@[i]
                == s.players@[i],
        t.cur().life == s.cur().life,
        t.cur_zones().hand@ == s.cur_zones().hand@,
        t.cur_zones().library@ == s.cur_zones().library@,
        forall|p: int|
            0 <= p < t.cur_zones().battlefield@.len() ==> !spec_tapped(
                #[trigger] t.cur_zones().battlefield@[p],
            ),
{
}

/// The automatic Main phase plays at most one card, a Land, before casting, and stops
/// casting only when no creature left in the hand is affordable. When every Land can be
/// tapped, the untapped Lands on the battlefield drop by exactly the summed cost of the
/// creatures cast (each paid with the first untapped Lands, see `law_pay_exact`); a cast
/// card that is itself an untapped Land adds one.
pub proof fn law_main_phase(s: GameState, t: GameState)
    requires
        s.wf(),
        s.step == GameStep::Main,
        s.auto_play,
        GameState::step_spec(s, t),
    ensures
        ({
            let (h1, b1) = play_land_spec(s.cur_zones().hand@, s.cur_zones().battlefield@);
            &&& h1.len() + 1 >= s.cur_zones().hand@.len()
            &&& b1.len() <= s.cur_zones().battlefield@.len() + 1
            &&& b1.len() == s.cur_zones().battlefield@.len() + 1 ==> b1.last().has_type(
                CardType::Land,
            )
            &&& (t.cur_zones().hand@, t.cur_zones().battlefield@) == cast_all(h1, b1)
        }),
        forall|i: int|
            0 <= i < t.cur_zones().hand@.len() ==> !(spec_is_creature(
                #[trigger] t.cur_zones().hand@[i],
            ) && t.cur_zones().hand@[i].cost <= count_mana(t.cur_zones().battlefield@)),
        lands_tappable(s.cur_zones().hand@) && lands_tappable(s.cur_zones().battlefield@) ==> ({
            let (h1, b1) = play_land_spec(s.cur_zones().hand@, s.cur_zones().battlefield@);
            count_mana(t.cur_zones().battlefield@) + cast_cost(h1, b1) == count_mana(b1)
                + cast_mana(h1, b1)
        }),
{
    let (h1, b1) = play_land_spec(s.cur_zones().hand@, s.cur_zones().battlefield@);
    lemma_cast_all_exhausts(h1, b1);
    let hand = s.cur_zones().hand@;
    let bf = s.cur_zones().battlefield@;
    let i = first_in(hand.len() as int, crate::rules::land_at(hand));
    if 0 <= i < hand.len() {
        assert(is_first_in(hand.len() as int, crate::rules::land_at(hand), i));
    }
    if lands_tappable(hand) && lands_tappable(bf) {
        assert(lands_tappable(h1) && lands_tappable(b1)) by {
            if 0 <= i < hand.len() {
                assert forall|k: int| 0 <= k < h1.len() && (#[trigger] h1[k]).has_type(CardType::Land)
                    implies h1[k].fragments.tappable is Some by {
                    if k < i {
                        assert(h1[k] == hand[k]);
                    } else {
                        assert(h1[k] == hand[k + 1]);
                    }
                }
                assert forall|k: int| 0 <= k < b1.len() && (#[trigger] b1[k]).has_type(CardType::Land)
                    implies b1[k].fragments.tappable is Some by {
                    if k < bf.len() {
                        assert(b1[k] == bf[k]);
                    } else {
                        assert(b1[k] == hand[i]);
                    }
                }
            }
        }
        lemma_cast_all_pays(h1, b1);
    }
    assert forall|k: int| 0 <= k < t.cur_zones().hand@.len() implies !(spec_is_creature(
        #[trigger] t.cur_zones().hand@[k],
    ) && t.cur_zones().hand@[k].cost <= count_mana(t.cur_zones().battlefield@)) by {
        assert(!castable_at(cast_all(h1, b1).0, count_mana(cast_all(h1, b1).1))(k));
    }
}

/// Every Land-tagged card of `s` carries a tappable fragment.
pub open spec fn lands_tappable(s: Seq<Card>) -> bool {
    forall|k: int|
        0 <= k < s.len() && (#[trigger] s[k]).has_type(CardType::Land)
            ==> s[k].fragments.tappable is Some
}

/// With every Land tappable, casting lowers the untapped Lands by exactly the summed
/// cost of the cast creatures; a cast card that is itself an untapped Land adds one.
proof fn lemma_cast_all_pays(h: Seq<Card>, b: Seq<Card>)
    requires
        lands_tappable(h),
        lands_tappable(b),
    ensures
        count_mana(cast_all(h, b).1) + cast_cost(h, b) == count_mana(b) + cast_mana(h, b),
    decreases h.len(),
{
    let i = first_in(h.len() as int, castable_at(h, count_mana(b)));
    if 0 <= i < h.len() {
        let c = h[i];
        let p = pay_spec(b, c.cost as nat);
        let c2 = with_sickness(c, true);
        let b2 = p.push(c2);
        assert(is_first_in(h.len() as int, castable_at(h, count_mana(b)), i));
        assert(castable_at(h, count_mana(b))(i));
        law_pay_exact(b, c.cost as nat);
        assert(b2.drop_last() == p);
        assert(is_mana(c2) == is_mana(c));
        assert(lands_tappable(b2)) by {
            assert forall|k: int| 0 <= k < b2.len() && (#[trigger] b2[k]).has_type(CardType::Land)
                implies b2[k].fragments.tappable is Some by {
                if k < p.len() {
                    assert(b2[k] == p[k]);
                }
            }
        }
        assert(lands_tappable(h.remove(i))) by {
            assert forall|k: int| 0 <= k < h.remove(i).len() && (#[trigger] h.remove(i)[k]).has_type(
                CardType::Land,
            ) implies h.remove(i)[k].fragments.tappable is Some by {
                if k < i {
                    assert(h.remove(i)[k] == h[k]);
                } else {
                    assert(h.remove(i)[k] == h[k + 1]);
                }
            }
        }
        lemma_cast_all_pays(h.remove(i), b2);
        assert(cast_all(h, b) == cast_all(h.remove(i), b2));
    }
}

proof fn lemma_pay_prefix(bf: Seq<Card>, cost: nat, j: int)
    requires
        0 <= j <= bf.len(),
        forall|k: int|
            0 <= k < bf.len() && (#[trigger] bf[k]).has_type(CardType::Land)
                ==> bf[k].fragments.tappable is Some,
    ensures
        count_mana(pay_spec(bf, cost).take(j)) == count_mana(bf.take(j)) - if count_mana(
            bf.take(j),
        ) < cost {
            count_mana(bf.take(j))
        } else {
            cost
        },
    decreases j,
{
    if j > 0 {
        lemma_pay_prefix(bf, cost, j - 1);
        assert(pay_spec(bf, cost).take(j).drop_last() == pay_spec(bf, cost).take(j - 1));
        assert(bf.take(j).drop_last() == bf.take(j - 1));
        let c = bf[j - 1];
        if is_mana(c) && count_mana(bf.take(j - 1)) < cost {
            assert(!is_mana(with_tapped(c, true)));
        }
    }
}

/// Paying `cost` with `cost` or more untapped Lands, all of which can be tapped, takes
/// exactly `cost` of them, and changes no card but by tapping it.
pub proof fn law_pay_exact(bf: Seq<Card>, cost: nat)
    requires
        cost <= count_mana(bf),
        forall|k: int|
            0 <= k < bf.len() && (#[trigger] bf[k]).has_type(CardType::Land)
                ==> bf[k].fragments.tappable is Some,
    ensures
        count_mana(pay_spec(bf, cost)) + cost == count_mana(bf),
        pay_spec(bf, cost).len() == bf.len(),
        forall|k: int|
            0 <= k < bf.len() ==> #[trigger] pay_spec(bf, cost)[k] == bf[k] || (is_mana(bf[k])
                && pay_spec(bf, cost)[k] == with_tapped(bf[k], true)),
{
    lemma_pay_prefix(bf, cost, bf.len() as int);
    assert(pay_spec(bf, cost).take(bf.len() as int) == pay_spec(bf, cost));
    assert(bf.take(bf.len() as int) == bf);
}

/// A Draw from an empty library ends the match and changes no player.
pub proof fn law_draw_from_empty_library(s: GameState, t: GameState)
    requires
        s.wf(),
        s.step == GameStep::Draw,
        s.cur_zones().library@.len() == 0,
        GameState::step_spec(s, t),
    ensures
        t.step == GameStep::GameOver,
        t.players@ == s.players@,
{
}

proof fn lemma_casualties_contains(bf: Seq<Card>, d: Set<int>, j: int)
    requires
        0 <= j < bf.len(),
        d.contains(j),
    ensures
        casualties(bf, d).contains(bf[j]),
    decreases bf.len(),
{
    let r = casualties(bf.drop_last(), d);
    if j == bf.len() - 1 {
        assert(casualties(bf, d)[0] == bf[j]);
    } else {
        lemma_casualties_contains(bf.drop_last(), d, j);
        let w = choose|w: int| 0 <= w < r.len() && r[w] == bf[j];
        if d.contains(bf.len() - 1) {
            assert(casualties(bf, d)[w + 1] == bf[j]);
        } else {
            assert(casualties(bf, d)[w] == bf[j]);
        }
    }
}

proof fn lemma_bury_keeps_cards(bf: Seq<Card>, d: Set<int>)
    ensures
        survivors(bf, d).to_multiset().add(casualties(bf, d).to_multiset()) =~= bf.to_multiset(),
    decreases bf.len(),
{
    broadcast use vstd::multiset::group_multiset_axioms, lemma_multiset_commutative;

    let e = Seq::<Card>::empty();
    e.to_multiset_ensures();
    assert(e.to_multiset() =~= Multiset::empty());
    if bf.len() == 0 {
        assert(survivors(bf, d) == e && casualties(bf, d) == e && bf == e);
    } else {
        let dl = bf.drop_last();
        let x = bf.last();
        let r = survivors(dl, d);
        let c = casualties(dl, d);
        lemma_bury_keeps_cards(dl, d);
        assert(bf == dl.push(x));
        dl.to_multiset_ensures();
        r.to_multiset_ensures();
        assert(seq![x] == e.push(x));
        assert(seq![x].to_multiset() =~= Multiset::empty().insert(x));
        if d.contains(bf.len() - 1) {
            assert(casualties(bf, d) == seq![x] + c);
            assert((seq![x] + c).to_multiset() =~= seq![x].to_multiset().add(c.to_multiset()));
        } else {
            assert(survivors(bf, d) == r.push(x));
        }
    }
}

/// Combat damage: the active player's life is unchanged; every other player loses the
/// summed power of the unblocked attackers; an attacker and its blocker that each reach
/// the other's toughness are both destroyed and both go to the graveyard. Cards are
/// moved, never copied: the active player's battlefield and graveyard together hold the
/// same cards as before, and the attack and block records are cleared.
pub proof fn law_combat(s: GameState, t: GameState, k: int)
    requires
        s.wf(),
        s.step == GameStep::AssignDamage,
        GameState::step_spec(s, t),
        0 <= k < s.attacking_creatures@.len(),
    ensures
        t.cur().life == s.cur().life,
        forall|i: int|
            0 <= i < s.players@.len() && i != s.current_player_index ==> #[trigger] t.players@[i].life
                == after_damage(s.players@[i].life, s.combat_damage()),
        ({
            let bf = s.cur_zones().battlefield@;
            let a = s.attacking_creatures@[k];
            match blocker_of(s.cur_zones().battlefield@.len() as int, s.blocking_map@, a) {
                Some(b) => (a as int) < bf.len() && (b as int) < bf.len() && spec_power(bf[a as int])
                    >= spec_toughness(bf[b as int]) && spec_power(bf[b as int]) >= spec_toughness(
                    bf[a as int],
                ) ==> {
                    &&& s.doomed().contains(a as int)
                    &&& s.doomed().contains(b as int)
                    &&& t.cur_zones().graveyard@.contains(bf[a as int])
                    &&& t.cur_zones().graveyard@.contains(bf[b as int])
                },
                None => true,
            }
        }),
        t.attacking_creatures@.len() == 0,
        t.blocking_map@.len() == 0,
        t.cur_zones().library@ == s.cur_zones().library@,
        t.cur_zones().hand@ == s.cur_zones().hand@,
        (t.cur_zones().battlefield@ + t.cur_zones().graveyard@).to_multiset() == (
        s.cur_zones().battlefield@ + s.cur_zones().graveyard@).to_multiset(),
{
    broadcast use vstd::multiset::group_multiset_axioms, lemma_multiset_commutative;

    lemma_bury_keeps_cards(s.cur_zones().battlefield@, s.doomed());
    let bf = s.cur_zones().battlefield@;
    let a = s.attacking_creatures@[k];
    assert forall|i: int|
        0 <= i < s.players@.len() && i != s.current_player_index implies #[trigger] t.players@[i].life
            == after_damage(s.players@[i].life, s.combat_damage()) by {
        assert(t.players@[i].life == after_damage(s.players@[i].life, s.combat_damage()));
    }
    match blocker_of(s.cur_zones().battlefield@.len() as int, s.blocking_map@, a) {
        Some(b) => {
            if (a as int) < bf.len() && (b as int) < bf.len() && spec_power(bf[a as int])
                >= spec_toughness(bf[b as int]) && spec_power(bf[b as int]) >= spec_toughness(
                bf[a as int],
            ) {
                let m = s.blocking_map@;
                let att = s.attacking_creatures@;
                assert(crate::combat::kills(bf, m, att[k], a as int));
                assert(crate::combat::kills(bf, m, att[k], b as int));
                assert(s.doomed().contains(a as int));
                assert(s.doomed().contains(b as int));
                let g = s.cur_zones().graveyard@;
                let cas = casualties(bf, s.doomed());
                lemma_casualties_contains(bf, s.doomed(), a as int);
                lemma_casualties_contains(bf, s.doomed(), b as int);
                assert(t.cur_zones().graveyard@ == g + cas);
                let wa = choose|w: int| 0 <= w < cas.len() && cas[w] == bf[a as int];
                let wb = choose|w: int| 0 <= w < cas.len() && cas[w] == bf[b as int];
                assert((g + cas)[g.len() + wa] == bf[a as int]);
                assert((g + cas)[g.len() + wb] == bf[b as int]);
            }
        },
        None => {},
    }
}

} // verus!
