use vstd::prelude::*;
use crate::card::{
    Card, CardFragmentKind, CardType, CreatureFragment, CreatureStats, FragmentMap,
    SerializableFragment,
};

verus! {

/// A card is a creature when it is tagged Creature or carries a creature fragment.
pub open spec fn spec_is_creature(c: Card) -> bool {
    c.has_type(CardType::Creature) || c.fragments.creature.is_some()
}

/// The stats of the creature fragment, if there is one.
pub open spec fn spec_stats(c: Card) -> Option<CreatureStats> {
    match c.fragments.creature {
        Some(cf) => Some(cf.stats),
        None => None,
    }
}

/// Power of a card in combat: 0 without a creature fragment.
pub open spec fn spec_power(c: Card) -> int {
    match c.fragments.creature {
        Some(cf) => cf.stats.power as int,
        None => 0,
    }
}

/// Toughness of a card in combat: 0 without a creature fragment.
pub open spec fn spec_toughness(c: Card) -> int {
    match c.fragments.creature {
        Some(cf) => cf.stats.toughness as int,
        None => 0,
    }
}

pub open spec fn spec_sick(c: Card) -> bool {
    match c.fragments.creature {
        Some(cf) => cf.summoning_sickness,
        None => false,
    }
}

/// `c` with the sickness of its creature fragment set to `v`; unchanged without one.
pub open spec fn with_sickness(c: Card, v: bool) -> Card {
    Card {
        name: c.name,
        card_types: c.card_types,
        cost: c.cost,
        fragments: FragmentMap {
            creature: match c.fragments.creature {
                Some(cf) => Some(CreatureFragment { stats: cf.stats, summoning_sickness: v }),
                None => None,
            },
            tappable: c.fragments.tappable,
        },
    }
}

pub fn is_creature(card: &Card) -> (r: bool)
    ensures
        r == spec_is_creature(*card),
{
    card.is_type(CardType::Creature) || card.fragments.contains_key(CardFragmentKind::Creature)
}

/// Reads only the creature fragment: a Creature-tagged card without one has no stats.
pub fn creature_stats(card: &Card) -> (r: Option<CreatureStats>)
    ensures
        r == spec_stats(*card),
{
    match SerializableFragment::from_fragment(&card.fragments, CardFragmentKind::Creature) {
        Some(SerializableFragment::Creature(cf)) => Some(cf.stats),
        _ => None,
    }
}

/// Power, 0 when the card has no creature fragment.
pub fn power_of(card: &Card) -> (r: u8)
    ensures
        r as int == spec_power(*card),
{
    match creature_stats(card) {
        Some(s) => s.power,
        None => 0,
    }
}

/// Toughness, 0 when the card has no creature fragment.
pub fn toughness_of(card: &Card) -> (r: u8)
    ensures
        r as int == spec_toughness(*card),
{
    match creature_stats(card) {
        Some(s) => s.toughness,
        None => 0,
    }
}

/// Attach a creature fragment with the given stats and no sickness, replacing any
/// creature fragment. Type tags are untouched.
pub fn add_creature_fragment(card: &mut Card, power: u8, toughness: u8)
    ensures
        final(card).fragments.creature == Some(
            CreatureFragment {
                stats: CreatureStats { power, toughness },
                summoning_sickness: false,
            },
        ),
        final(card).fragments.tappable == old(card).fragments.tappable,
        final(card).name == old(card).name,
        final(card).card_types == old(card).card_types,
        final(card).cost == old(card).cost,
{
    let f = SerializableFragment::Creature(
        CreatureFragment { stats: CreatureStats { power, toughness }, summoning_sickness: false },
    );
    f.to_fragment(&mut card.fragments);
    assert(card.fragments.get(CardFragmentKind::Tappable) == old(card).fragments.get(
        CardFragmentKind::Tappable,
    ));
    assert(card.fragments.get(CardFragmentKind::Creature) == Some(f));
}

/// Detach the creature fragment; a no-op when absent. Type tags are untouched.
pub fn remove_creature_fragment(card: &mut Card)
    ensures
        final(card).fragments.creature.is_none(),
        final(card).fragments.tappable == old(card).fragments.tappable,
        final(card).name == old(card).name,
        final(card).card_types == old(card).card_types,
        final(card).cost == old(card).cost,
{
    card.fragments.remove(CardFragmentKind::Creature);
    assert(card.fragments.get(CardFragmentKind::Tappable) == old(card).fragments.get(
        CardFragmentKind::Tappable,
    ));
    assert(card.fragments.get(CardFragmentKind::Creature).is_none());
}

pub fn has_summoning_sickness(card: &Card) -> (r: bool)
    ensures
        r == spec_sick(*card),
{
    match SerializableFragment::from_fragment(&card.fragments, CardFragmentKind::Creature) {
        Some(SerializableFragment::Creature(cf)) => cf.summoning_sickness,
        _ => false,
    }
}

/// Set summoning sickness; a no-op when the card has no creature fragment.
pub fn set_summoning_sickness(card: &mut Card, value: bool)
    ensures
        *final(card) == with_sickness(*old(card), value),
{
    match SerializableFragment::from_fragment(&card.fragments, CardFragmentKind::Creature) {
        Some(SerializableFragment::Creature(cf)) => {
            let f = SerializableFragment::Creature(
                CreatureFragment { stats: cf.stats, summoning_sickness: value },
            );
            f.to_fragment(&mut card.fragments);
            assert(card.fragments.get(CardFragmentKind::Tappable) == old(card).fragments.get(
                CardFragmentKind::Tappable,
            ));
            assert(card.fragments.get(CardFragmentKind::Creature) == Some(f));
        },
        _ => {},
    }
}

} // verus!
